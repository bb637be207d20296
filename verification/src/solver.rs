//! The solver: owns the board history, the move table and the jump log,
//! and runs the recursive backtracking search.

use vstd::prelude::*;

use crate::board::HOLE;
use crate::board::Jump;
use crate::board::PEG;
use crate::board::apply_jump;
use crate::board::board_wf;
use crate::board::count_eq;
use crate::board::init_board;
use crate::board::is_solved;
use crate::board::jump_wf;
use crate::board::lemma_apply_jump_peg_count;
use crate::board::lemma_apply_then_undo;
use crate::board::lemma_init_board_wf;
use crate::board::move_legal;
use crate::board::peg_count;
use crate::board::apply_move;
use crate::board::undo_move;
use crate::search::apply_all;
use crate::search::boards_of;
use crate::search::lemma_boards_of_len;
use crate::search::lemma_solvable_iff_solution;
use crate::search::search_from;
use crate::search::solution_of;
use crate::search::solvable;
use crate::table::lemma_table_wf;
use crate::table::move_table;
use crate::table::table;

verus! {

/// The boards a snapshot list holds, as mathematical sequences.
pub open spec fn views_of(bs: Seq<Vec<char>>) -> Seq<Seq<char>> {
    bs.map_values(|v: Vec<char>| v@)
}

/// A peg game puzzle: the fixed move table, the two history logs, and the
/// configured start and end cells.
pub struct PuzzlePegs {
    /// The table of candidate jumps, tried strictly in order.
    pub moves: Vec<Jump>,
    /// Snapshots of the board after each accepted jump, oldest first.
    pub boards: Vec<Vec<char>>,
    /// Where the last peg must sit, or -1 for anywhere.
    pub end_pos: i32,
    /// The accepted jumps; chronological once `solve` has returned.
    pub jumps: Vec<Jump>,
    /// The hole that starts empty.
    pub start_pos: i32,
}

impl PuzzlePegs {
    /// A well-formed puzzle: the canonical move table and in-range start
    /// and end cells.
    pub open spec fn wf(self) -> bool {
        &&& self.moves@ == table()
        &&& 1 <= self.start_pos <= 15
        &&& (self.end_pos == -1 || 1 <= self.end_pos <= 15)
    }

    /// Create a puzzle with a starting hole and ending peg location
    /// specified. The caller owns the ranges: 1 through 15 for
    /// `start_pos`, the same or -1 (anywhere) for `end_pos`.
    pub fn new(start_pos: i32, end_pos: i32) -> (p: PuzzlePegs)
        requires
            1 <= start_pos <= 15,
            end_pos == -1 || 1 <= end_pos <= 15,
        ensures
            p.wf(),
            p.start_pos == start_pos,
            p.end_pos == end_pos,
            p.boards@.len() == 0,
            p.jumps@.len() == 0,
    {
        PuzzlePegs {
            moves: move_table(),
            boards: Vec::new(),
            end_pos,
            jumps: Vec::new(),
            start_pos,
        }
    }

    /// Count occurrences of a character in the slice.
    pub fn count(vector: &[char], value: &char) -> (n: usize)
        ensures
            n == count_eq(vector@, *value),
    {
        let mut n: usize = 0;
        let mut idx: usize = 0;
        while idx < vector.len()
            invariant
                idx <= vector@.len(),
                n <= idx,
                n == count_eq(vector@.take(idx as int), *value),
            decreases vector@.len() - idx,
        {
            proof {
                assert(vector@.take(idx as int + 1).drop_last() =~= vector@.take(idx as int));
            }
            if vector[idx] == *value {
                n += 1;
            }
            idx += 1;
        }
        proof {
            assert(vector@.take(vector@.len() as int) =~= vector@);
        }
        n
    }

    /// The canonical starting board for this puzzle: a blank sentinel at
    /// cell 0, pegs everywhere except the starting hole.
    #[verifier::loop_isolation(false)]
    pub fn initial_board(&self) -> (b: Vec<char>)
        requires
            self.wf(),
        ensures
            b@ == init_board(self.start_pos as int),
            board_wf(b@),
    {
        let ghost start = self.start_pos as int;
        let mut board: Vec<char> = Vec::with_capacity(16);
        board.push(' ');
        proof {
            assert(board@ =~= init_board(start).take(1));
        }
        let mut i: i32 = 1;
        while i < 16
            invariant
                1 <= i <= 16,
                board@.len() == i as int,
                board@ == init_board(start).take(i as int),
            decreases 16 - i,
        {
            if self.start_pos == i {
                board.push(HOLE);
            } else {
                board.push(PEG);
            }
            proof {
                assert(init_board(start).take(i as int + 1) =~= init_board(start).take(
                    i as int,
                ).push(init_board(start)[i as int]));
            }
            i += 1;
        }
        proof {
            assert(init_board(start).take(16) =~= init_board(start));
            lemma_init_board_wf(start);
        }
        board
    }

    /// Internal recursive routine: depth-first search with backtracking.
    ///
    /// Returns exactly what the specification-level search returns on the
    /// incoming board. On success the accepted jumps are pushed onto the
    /// jump log on the way back up (so newest first), the board snapshots
    /// were pushed on the way down (so oldest first), and the board is
    /// left in its solved state. On failure board and logs are exactly as
    /// they were.
    #[verifier::loop_isolation(false)]
    pub fn solve_internal(&mut self, board: &mut Vec<char>) -> (r: bool)
        requires
            old(self).wf(),
            board_wf(old(board)@),
        ensures
            final(self).wf(),
            final(self).start_pos == old(self).start_pos,
            final(self).end_pos == old(self).end_pos,
            r == (search_from(old(board)@, old(self).end_pos as int, 0) is Some),
            !r ==> final(board)@ == old(board)@ && final(self).boards@ == old(self).boards@
                && final(self).jumps@ == old(self).jumps@,
            r ==> ({
                let sol = search_from(old(board)@, old(self).end_pos as int, 0)->0;
                &&& final(self).jumps@ == old(self).jumps@ + sol.reverse()
                &&& views_of(final(self).boards@) == views_of(old(self).boards@) + boards_of(
                    old(board)@,
                    sol,
                )
                &&& final(board)@ == apply_all(old(board)@, sol)
                &&& board_wf(final(board)@)
            }),
        decreases peg_count(old(board)@),
    {
        let ghost b0 = board@;
        let ghost end: int = self.end_pos as int;
        let ghost boards0 = self.boards@;
        let ghost jumps0 = self.jumps@;
        proof {
            lemma_table_wf();
        }
        // For every move in the table of possible moves...
        let mut i: usize = 0;
        while i < 36
            invariant
                self.wf(),
                self.start_pos == old(self).start_pos,
                self.end_pos == old(self).end_pos,
                self.boards@ == boards0,
                self.jumps@ == jumps0,
                board@ == b0,
                i <= 36,
                search_from(b0, end, 0) == search_from(b0, end, i as int),
            decreases 36 - i,
        {
            let m = self.moves[i];
            proof {
                assert(m == table()[i as int]);
                assert(jump_wf(m));
            }
            // A jump is worth trying iff the peg-peg-hole pattern holds.
            if board[m.from as usize] == PEG && board[m.over as usize] == PEG && board[m.to
                as usize] == HOLE {
                // Apply the move and record the board in the history.
                apply_move(board, m);
                let ghost b1 = board@;
                let snapshot = clone_board(board);
                self.boards.push(snapshot);
                proof {
                    lemma_apply_jump_peg_count(b0, m);
                }
                // Follow this route; keep it only if it pans out.
                if self.solve_internal(board) {
                    self.jumps.push(m);
                    proof {
                        let tail = search_from(b1, end, 0)->0;
                        let sol = seq![m] + tail;
                        assert(search_from(b0, end, i as int) == Some(sol));
                        assert(sol.first() == m);
                        assert(sol.drop_first() =~= tail);
                        assert(boards_of(b0, sol) == seq![b1] + boards_of(b1, tail));
                        assert(apply_all(b0, sol) == apply_all(b1, tail));
                        assert(sol.reverse() =~= tail.reverse().push(m));
                        assert(self.jumps@ =~= jumps0 + sol.reverse());
                        assert(views_of(boards0.push(snapshot)) =~= views_of(boards0).push(b1));
                        assert(views_of(self.boards@) =~= views_of(boards0) + boards_of(b0, sol));
                    }
                    return true;
                }
                // Dead end: drop the snapshot and undo the move.
                self.boards.pop();
                undo_move(board, m);
                proof {
                    lemma_apply_then_undo(b0, m);
                    assert(self.boards@ =~= boards0);
                    assert(search_from(b0, end, i as int) == search_from(b0, end, i as int + 1));
                }
            } else {
                proof {
                    assert(search_from(b0, end, i as int) == search_from(b0, end, i as int + 1));
                }
            }
            i += 1;
        }
        // No pattern matched: the branch is a leaf. It succeeds iff one
        // peg is left and it sits where the configuration demands.
        let peg = PEG;
        let peg_cnt = Self::count(board.as_slice(), &peg);
        proof {
            assert(peg_cnt == peg_count(b0));
        }
        if (peg_cnt == 1) && (self.end_pos == -1) {
            proof {
                lemma_leaf_bookkeeping(b0, end, boards0, jumps0);
            }
            true
        } else if (peg_cnt == 1) && (board[self.end_pos as usize] == PEG) {
            proof {
                lemma_leaf_bookkeeping(b0, end, boards0, jumps0);
            }
            true
        } else {
            proof {
                assert(!is_solved(b0, end));
            }
            false
        }
    }

    /// Solve the puzzle. Empties both history logs, builds the starting
    /// board and searches. On success the jump log holds the winning
    /// jumps in chronological order and the snapshot log the board after
    /// each of them, index-aligned; both are exactly what the
    /// specification-level search dictates for this configuration, so a
    /// repeat run reproduces them identically. On failure both logs are
    /// left empty.
    pub fn solve(&mut self) -> (r: bool)
        requires
            old(self).wf(),
        ensures
            final(self).wf(),
            final(self).start_pos == old(self).start_pos,
            final(self).end_pos == old(self).end_pos,
            r == (solution_of(init_board(old(self).start_pos as int), old(self).end_pos as int)
                is Some),
            r == solvable(init_board(old(self).start_pos as int), old(self).end_pos as int),
            r ==> ({
                let sol = solution_of(
                    init_board(old(self).start_pos as int),
                    old(self).end_pos as int,
                )->0;
                &&& final(self).jumps@ == sol
                &&& views_of(final(self).boards@) == boards_of(
                    init_board(old(self).start_pos as int),
                    sol,
                )
                &&& final(self).boards@.len() == final(self).jumps@.len()
            }),
            !r ==> final(self).jumps@.len() == 0 && final(self).boards@.len() == 0,
    {
        self.boards = Vec::new();
        self.jumps = Vec::new();
        let mut board = self.initial_board();
        let ghost init = board@;
        let ghost end: int = self.end_pos as int;
        proof {
            lemma_solvable_iff_solution(init, end);
        }
        if self.solve_internal(&mut board) {
            proof {
                let sol = search_from(init, end, 0)->0;
                assert(Seq::<Jump>::empty() + sol.reverse() =~= sol.reverse());
            }
            // The jumps were pushed on the way back up, so they are in
            // reverse chronological order; flip them.
            let chronological = reversed(&self.jumps);
            self.jumps = chronological;
            proof {
                let sol = search_from(init, end, 0)->0;
                let bds = boards_of(init, sol);
                assert(sol.reverse().reverse() =~= sol);
                assert(views_of(Seq::<Vec<char>>::empty()) + bds =~= bds);
                lemma_boards_of_len(init, sol);
            }
            true
        } else {
            false
        }
    }
}

/// Determinism: `solve` pins both logs to a function of the
/// configuration alone (the table-order tie-break leaves the search no
/// choice), so two successful solves of the same `(start_pos, end_pos)`
/// pair carry identical jump logs and identical board snapshots.
pub proof fn lemma_solve_deterministic(a: PuzzlePegs, b: PuzzlePegs)
    requires
        a.start_pos == b.start_pos,
        a.end_pos == b.end_pos,
        a.jumps@ == solution_of(init_board(a.start_pos as int), a.end_pos as int)->0,
        b.jumps@ == solution_of(init_board(b.start_pos as int), b.end_pos as int)->0,
        views_of(a.boards@) == boards_of(init_board(a.start_pos as int), a.jumps@),
        views_of(b.boards@) == boards_of(init_board(b.start_pos as int), b.jumps@),
    ensures
        a.jumps@ == b.jumps@,
        views_of(a.boards@) == views_of(b.boards@),
{
}

/// A fresh copy of a board, cell for cell.
fn clone_board(b: &Vec<char>) -> (r: Vec<char>)
    ensures
        r@ == b@,
{
    let mut r: Vec<char> = Vec::new();
    let mut i: usize = 0;
    while i < b.len()
        invariant
            i <= b@.len(),
            r@ == b@.take(i as int),
        decreases b@.len() - i,
    {
        proof {
            assert(b@.take(i as int + 1) =~= b@.take(i as int).push(b@[i as int]));
        }
        r.push(b[i]);
        i += 1;
    }
    proof {
        assert(b@.take(b@.len() as int) =~= b@);
    }
    r
}

/// The jumps of `v` in the opposite order.
fn reversed(v: &Vec<Jump>) -> (r: Vec<Jump>)
    ensures
        r@ == v@.reverse(),
{
    let mut r: Vec<Jump> = Vec::new();
    let mut i: usize = v.len();
    while i > 0
        invariant
            i <= v@.len(),
            r@.len() == v@.len() - i,
            forall|k: int| 0 <= k < r@.len() ==> r@[k] == v@[v@.len() - 1 - k],
        decreases i,
    {
        i -= 1;
        r.push(v[i]);
    }
    proof {
        assert(r@ =~= v@.reverse());
    }
    r
}

/// At a leaf that stands solved, the search contributes the empty jump
/// sequence, which leaves board and logs exactly as they are.
proof fn lemma_leaf_bookkeeping(b0: Seq<char>, end: int, boards0: Seq<Vec<char>>, jumps0: Seq<Jump>)
    requires
        board_wf(b0),
        is_solved(b0, end),
    ensures
        search_from(b0, end, 36) == Some(Seq::<Jump>::empty()),
        search_from(b0, end, 36)->0 =~= Seq::<Jump>::empty(),
        jumps0 + (Seq::<Jump>::empty()).reverse() =~= jumps0,
        views_of(boards0) + boards_of(b0, Seq::<Jump>::empty()) =~= views_of(boards0),
        apply_all(b0, Seq::<Jump>::empty()) == b0,
{
    assert((Seq::<Jump>::empty()).reverse() =~= Seq::<Jump>::empty());
    assert(boards_of(b0, Seq::<Jump>::empty()) =~= Seq::<Seq<char>>::empty());
}

} // verus!
