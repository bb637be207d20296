//! The mathematical account of the backtracking search: what sequence of
//! jumps the depth-first scan of the move table settles on, and what any
//! such sequence guarantees.

use vstd::prelude::*;

use crate::board::Jump;
use crate::board::PEG;
use crate::board::apply_jump;
use crate::board::board_wf;
use crate::board::is_solved;
use crate::board::jump_wf;
use crate::board::lemma_apply_jump_peg_count;
use crate::board::lemma_apply_jump_wf;
use crate::board::lemma_count_eq_at_least_two;
use crate::board::lemma_solved_lone_peg;
use crate::board::move_legal;
use crate::board::peg_count;
use crate::table::lemma_table_wf;
use crate::table::table;

verus! {

/// The outcome of the depth-first search over the move table, started at
/// table index `i`: the chronological jump sequence it finds, or `None`.
///
/// Jumps are tried in table order. A legal jump is applied and the search
/// restarts at the top of the table on the smaller board; only if that
/// entire branch fails is the next table entry tried. Once the table is
/// exhausted the board either stands solved or the branch is dead. This
/// first-match-in-table-order tie-break is what makes the solver
/// deterministic.
pub open spec fn search_from(b: Seq<char>, end_pos: int, i: int) -> Option<Seq<Jump>>
    decreases peg_count(b), 36 - i,
{
    if !(board_wf(b) && 0 <= i <= 36) {
        None
    } else if i == 36 {
        if is_solved(b, end_pos) {
            Some(Seq::empty())
        } else {
            None
        }
    } else {
        let m = table()[i];
        if move_legal(b, m) {
            proof {
                lemma_table_wf();
                lemma_apply_jump_peg_count(b, m);
            }
            match search_from(apply_jump(b, m), end_pos, 0) {
                Some(tail) => Some(seq![m] + tail),
                None => search_from(b, end_pos, i + 1),
            }
        } else {
            search_from(b, end_pos, i + 1)
        }
    }
}

/// The one solution the solver reports for a board, if any: the search
/// started at the top of the table.
pub open spec fn solution_of(b: Seq<char>, end_pos: int) -> Option<Seq<Jump>> {
    search_from(b, end_pos, 0)
}

/// The board after playing the jumps of `sol` in order, oldest first.
pub open spec fn apply_all(b: Seq<char>, sol: Seq<Jump>) -> Seq<char>
    decreases sol.len(),
{
    if sol.len() == 0 {
        b
    } else {
        apply_all(apply_jump(b, sol.first()), sol.drop_first())
    }
}

/// The snapshots taken along `sol`: the board right after each jump, in
/// chronological order.
pub open spec fn boards_of(b: Seq<char>, sol: Seq<Jump>) -> Seq<Seq<char>>
    decreases sol.len(),
{
    if sol.len() == 0 {
        Seq::empty()
    } else {
        seq![apply_jump(b, sol.first())] + boards_of(apply_jump(b, sol.first()), sol.drop_first())
    }
}

/// Every jump of `sol` comes from the move table and is legal against
/// the board state standing just before it is played.
pub open spec fn trace_legal(b: Seq<char>, sol: Seq<Jump>) -> bool {
    forall|k: int|
        0 <= k < sol.len() ==> table().contains(#[trigger] sol[k]) && move_legal(
            apply_all(b, sol.take(k)),
            sol[k],
        )
}

/// Playing one more jump of `sol` advances the replay by one step.
pub proof fn lemma_apply_all_take_succ(b: Seq<char>, sol: Seq<Jump>, k: int)
    requires
        0 <= k < sol.len(),
    ensures
        apply_all(b, sol.take(k + 1)) == apply_jump(apply_all(b, sol.take(k)), sol[k]),
    decreases k,
{
    let b1 = apply_jump(b, sol.first());
    if k == 0 {
        assert(sol.take(0) =~= Seq::<Jump>::empty());
        assert(apply_all(b, sol.take(0)) == b);
        assert(sol.take(1) =~= seq![sol[0]]);
        assert(sol.take(1).drop_first() =~= Seq::<Jump>::empty());
        assert(apply_all(b1, Seq::<Jump>::empty()) == b1);
        assert(apply_all(b, sol.take(1)) == apply_all(b1, sol.take(1).drop_first()));
    } else {
        let rest = sol.drop_first();
        assert(sol.take(k + 1).first() == sol.first());
        assert(sol.take(k + 1).drop_first() =~= rest.take(k));
        assert(apply_all(b, sol.take(k + 1)) == apply_all(b1, rest.take(k)));
        assert(sol.take(k).first() == sol.first());
        assert(sol.take(k).drop_first() =~= rest.take(k - 1));
        assert(apply_all(b, sol.take(k)) == apply_all(b1, rest.take(k - 1)));
        lemma_apply_all_take_succ(b1, rest, k - 1);
        assert(rest[k - 1] == sol[k]);
    }
}

/// Replaying all of `sol` is replaying its full-length prefix.
pub proof fn lemma_apply_all_take_full(b: Seq<char>, sol: Seq<Jump>)
    ensures
        apply_all(b, sol.take(sol.len() as int)) == apply_all(b, sol),
{
    assert(sol.take(sol.len() as int) =~= sol);
}

/// The snapshot list of `sol` holds one board per jump: the replay state
/// right after that jump.
pub proof fn lemma_boards_of_index(b: Seq<char>, sol: Seq<Jump>, k: int)
    requires
        0 <= k < sol.len(),
    ensures
        boards_of(b, sol).len() == sol.len(),
        boards_of(b, sol)[k] == apply_all(b, sol.take(k + 1)),
    decreases sol.len(),
{
    let b1 = apply_jump(b, sol.first());
    let rest = sol.drop_first();
    lemma_boards_of_len(b, sol);
    assert(boards_of(b, sol) == seq![b1] + boards_of(b1, rest));
    if k == 0 {
        assert(boards_of(b, sol)[0] == b1);
        lemma_apply_all_take_succ(b, sol, 0);
        assert(sol.take(0) =~= Seq::<Jump>::empty());
        assert(apply_all(b, sol.take(0)) == b);
    } else {
        lemma_boards_of_index(b1, rest, k - 1);
        assert(boards_of(b, sol)[k] == boards_of(b1, rest)[k - 1]);
        assert(sol.take(k + 1).first() == sol.first());
        assert(sol.take(k + 1).drop_first() =~= rest.take(k));
        assert(apply_all(b, sol.take(k + 1)) == apply_all(b1, rest.take(k)));
    }
}

/// There are as many snapshots as jumps.
pub proof fn lemma_boards_of_len(b: Seq<char>, sol: Seq<Jump>)
    ensures
        boards_of(b, sol).len() == sol.len(),
    decreases sol.len(),
{
    if sol.len() > 0 {
        lemma_boards_of_len(apply_jump(b, sol.first()), sol.drop_first());
    }
}

/// Whatever sequence the search returns is a genuine solution: it starts
/// from a well-formed board, every jump in it is a table entry legal at
/// its instant, and the replayed board ends solved.
pub proof fn lemma_search_sound(b: Seq<char>, end_pos: int, i: int)
    requires
        search_from(b, end_pos, i) is Some,
    ensures
        board_wf(b),
        0 <= i <= 36,
        trace_legal(b, search_from(b, end_pos, i)->0),
        is_solved(apply_all(b, search_from(b, end_pos, i)->0), end_pos),
    decreases peg_count(b), 36 - i,
{
    lemma_table_wf();
    if i == 36 {
        assert(search_from(b, end_pos, i)->0 =~= Seq::<Jump>::empty());
    } else {
        let m = table()[i];
        if move_legal(b, m) {
            lemma_apply_jump_peg_count(b, m);
            let b1 = apply_jump(b, m);
            match search_from(b1, end_pos, 0) {
                Some(tail) => {
                    lemma_search_sound(b1, end_pos, 0);
                    let sol = seq![m] + tail;
                    assert(search_from(b, end_pos, i)->0 == sol);
                    assert(sol.first() == m);
                    assert(sol.drop_first() =~= tail);
                    assert forall|k: int| 0 <= k < sol.len() implies table().contains(
                        #[trigger] sol[k],
                    ) && move_legal(apply_all(b, sol.take(k)), sol[k]) by {
                        if k == 0 {
                            assert(table()[i] == m);
                            assert(sol.take(0) =~= Seq::<Jump>::empty());
                        } else {
                            assert(sol[k] == tail[k - 1]);
                            assert(sol.take(k).first() == m);
                            assert(sol.take(k).drop_first() =~= tail.take(k - 1));
                            assert(apply_all(b, sol.take(k)) == apply_all(b1, tail.take(k - 1)));
                        }
                    }
                    assert(apply_all(b, sol) == apply_all(b1, tail));
                },
                None => {
                    lemma_search_sound(b, end_pos, i + 1);
                },
            }
        } else {
            lemma_search_sound(b, end_pos, i + 1);
        }
    }
}

/// The search never gives up early: when it reports failure from table
/// index `i` on, the board is not solved, and every legal jump at or
/// beyond `i` was tried and leads to a failing branch.
pub proof fn lemma_search_exhaustive(b: Seq<char>, end_pos: int, i: int)
    requires
        board_wf(b),
        0 <= i <= 36,
        search_from(b, end_pos, i) is None,
    ensures
        !is_solved(b, end_pos),
        forall|j: int|
            i <= j < 36 && move_legal(b, #[trigger] table()[j]) ==> search_from(
                apply_jump(b, table()[j]),
                end_pos,
                0,
            ) is None,
    decreases 36 - i,
{
    if i < 36 {
        lemma_search_exhaustive(b, end_pos, i + 1);
    }
}

/// A jump found in the table names three distinct physical holes.
pub proof fn lemma_table_member_wf(m: Jump)
    requires
        table().contains(m),
    ensures
        jump_wf(m),
{
    lemma_table_wf();
    let i = choose|i: int| 0 <= i < table().len() && table()[i] == m;
    assert(jump_wf(table()[i]));
}

/// Replaying a legal trace keeps the board well formed and removes one
/// peg per jump played.
pub proof fn lemma_replay_wf_counts(b: Seq<char>, sol: Seq<Jump>, k: int)
    requires
        board_wf(b),
        trace_legal(b, sol),
        0 <= k <= sol.len(),
    ensures
        board_wf(apply_all(b, sol.take(k))),
        peg_count(apply_all(b, sol.take(k))) + k == peg_count(b),
    decreases k,
{
    if k == 0 {
        assert(sol.take(0) =~= Seq::<Jump>::empty());
    } else {
        lemma_replay_wf_counts(b, sol, k - 1);
        lemma_apply_all_take_succ(b, sol, k - 1);
        let prev = apply_all(b, sol.take(k - 1));
        lemma_table_member_wf(sol[k - 1]);
        lemma_apply_jump_wf(prev, sol[k - 1]);
        lemma_apply_jump_peg_count(prev, sol[k - 1]);
    }
}

/// Peg-count monotonicity: along a legal trace the k-th recorded board
/// holds exactly `peg_count(b) - (k + 1)` pegs, so the snapshot list
/// shows peg counts that strictly decrease, by one per jump.
pub proof fn lemma_solution_peg_counts(b: Seq<char>, sol: Seq<Jump>, k: int)
    requires
        board_wf(b),
        trace_legal(b, sol),
        0 <= k < sol.len(),
    ensures
        boards_of(b, sol).len() == sol.len(),
        peg_count(boards_of(b, sol)[k]) + k + 1 == peg_count(b),
{
    lemma_boards_of_index(b, sol, k);
    lemma_replay_wf_counts(b, sol, k + 1);
}

/// Soundness of a reported solution, stated of the search's own result:
/// the jumps are table entries, each legal at its instant, and replaying
/// them all leaves a well-formed, solved board.
pub proof fn lemma_solution_sound(b: Seq<char>, end_pos: int)
    requires
        solution_of(b, end_pos) is Some,
    ensures
        board_wf(b),
        trace_legal(b, solution_of(b, end_pos)->0),
        is_solved(apply_all(b, solution_of(b, end_pos)->0), end_pos),
        board_wf(apply_all(b, solution_of(b, end_pos)->0)),
{
    lemma_search_sound(b, end_pos, 0);
    let sol = solution_of(b, end_pos)->0;
    lemma_replay_wf_counts(b, sol, sol.len() as int);
    lemma_apply_all_take_full(b, sol);
}

/// Terminal correctness under an end constraint: the replayed final
/// board holds exactly one peg, and it sits at the constrained cell.
pub proof fn lemma_solution_terminal(b: Seq<char>, end_pos: int)
    requires
        solution_of(b, end_pos) is Some,
        1 <= end_pos < 16,
    ensures
        peg_count(apply_all(b, solution_of(b, end_pos)->0)) == 1,
        apply_all(b, solution_of(b, end_pos)->0)[end_pos] == PEG,
        forall|i: int|
            0 <= i < 16 && i != end_pos ==> apply_all(b, solution_of(b, end_pos)->0)[i] != PEG,
{
    lemma_solution_sound(b, end_pos);
    lemma_solved_lone_peg(apply_all(b, solution_of(b, end_pos)->0), end_pos);
}

/// When the search reports failure, it gave nothing up early: the board
/// is not solved and every legal jump was followed into a failing branch.
pub proof fn lemma_solution_exhaustive(b: Seq<char>, end_pos: int)
    requires
        board_wf(b),
        solution_of(b, end_pos) is None,
    ensures
        !is_solved(b, end_pos),
        forall|j: int|
            0 <= j < 36 && move_legal(b, #[trigger] table()[j]) ==> solution_of(
                apply_jump(b, table()[j]),
                end_pos,
            ) is None,
{
    lemma_search_exhaustive(b, end_pos, 0);
}

/// A board from which the puzzle can be won at all: it is solved
/// already, or some table jump is legal and leads to such a board.
pub open spec fn solvable(b: Seq<char>, end_pos: int) -> bool
    decreases peg_count(b),
    via solvable_decreases
{
    board_wf(b) && (is_solved(b, end_pos) || exists|j: int|
        0 <= j < 36 && move_legal(b, #[trigger] table()[j]) && solvable(
            apply_jump(b, table()[j]),
            end_pos,
        ))
}

#[via_fn]
proof fn solvable_decreases(b: Seq<char>, end_pos: int) {
    lemma_table_wf();
    assert forall|j: int|
        0 <= j < 36 && board_wf(b) && move_legal(b, #[trigger] table()[j]) implies peg_count(
        apply_jump(b, table()[j]),
    ) < peg_count(b) by {
        lemma_apply_jump_peg_count(b, table()[j]);
    }
}

/// With one peg left no jump is legal: a jump asks for two pegs in two
/// distinct holes.
pub proof fn lemma_one_peg_no_legal(b: Seq<char>, m: Jump)
    requires
        board_wf(b),
        jump_wf(m),
        peg_count(b) == 1,
    ensures
        !move_legal(b, m),
{
    if move_legal(b, m) {
        if m.from < m.over {
            lemma_count_eq_at_least_two(b, PEG, m.from as int, m.over as int);
        } else {
            lemma_count_eq_at_least_two(b, PEG, m.over as int, m.from as int);
        }
    }
}

/// The search walks silently past a block of illegal table entries.
proof fn lemma_search_skips_illegal(b: Seq<char>, end_pos: int, i: int)
    requires
        board_wf(b),
        0 <= i <= 36,
        forall|j: int| i <= j < 36 ==> !move_legal(b, #[trigger] table()[j]),
    ensures
        search_from(b, end_pos, i) == search_from(b, end_pos, 36),
    decreases 36 - i,
{
    if i < 36 {
        lemma_search_skips_illegal(b, end_pos, i + 1);
    }
}

/// A successful search certifies solvability.
proof fn lemma_search_some_solvable(b: Seq<char>, end_pos: int, i: int)
    requires
        search_from(b, end_pos, i) is Some,
    ensures
        solvable(b, end_pos),
    decreases peg_count(b), 36 - i,
{
    lemma_table_wf();
    if i < 36 {
        let m = table()[i];
        if move_legal(b, m) {
            lemma_apply_jump_peg_count(b, m);
            match search_from(apply_jump(b, m), end_pos, 0) {
                Some(tail) => {
                    lemma_search_some_solvable(apply_jump(b, m), end_pos, 0);
                    assert(0 <= i < 36 && move_legal(b, table()[i]) && solvable(
                        apply_jump(b, table()[i]),
                        end_pos,
                    ));
                },
                None => {
                    lemma_search_some_solvable(b, end_pos, i + 1);
                },
            }
        } else {
            lemma_search_some_solvable(b, end_pos, i + 1);
        }
    }
}

/// A solvable board is found out by the search: from table index `i` on,
/// if the board is solved or some entry at or beyond `i` starts a
/// winning branch, the search from `i` succeeds.
proof fn lemma_solvable_search(b: Seq<char>, end_pos: int, i: int)
    requires
        board_wf(b),
        0 <= i <= 36,
        is_solved(b, end_pos) || exists|j: int|
            i <= j < 36 && move_legal(b, #[trigger] table()[j]) && solvable(
                apply_jump(b, table()[j]),
                end_pos,
            ),
    ensures
        search_from(b, end_pos, i) is Some,
    decreases peg_count(b), 36 - i,
{
    lemma_table_wf();
    if is_solved(b, end_pos) {
        assert forall|j: int| i <= j < 36 implies !move_legal(b, #[trigger] table()[j]) by {
            lemma_one_peg_no_legal(b, table()[j]);
        }
        lemma_search_skips_illegal(b, end_pos, i);
    } else {
        let w = choose|j: int|
            i <= j < 36 && move_legal(b, #[trigger] table()[j]) && solvable(
                apply_jump(b, table()[j]),
                end_pos,
            );
        let m = table()[i];
        if move_legal(b, m) {
            lemma_apply_jump_peg_count(b, m);
            if search_from(apply_jump(b, m), end_pos, 0) is Some {
            } else {
                if w == i {
                    lemma_apply_jump_wf(b, m);
                    lemma_solvable_search(apply_jump(b, m), end_pos, 0);
                    assert(false);
                } else {
                    assert(i + 1 <= w < 36 && move_legal(b, table()[w]) && solvable(
                        apply_jump(b, table()[w]),
                        end_pos,
                    ));
                    lemma_solvable_search(b, end_pos, i + 1);
                }
            }
        } else {
            assert(i + 1 <= w < 36 && move_legal(b, table()[w]) && solvable(
                apply_jump(b, table()[w]),
                end_pos,
            ));
            lemma_solvable_search(b, end_pos, i + 1);
        }
    }
}

/// Completeness joined to soundness: the search finds a solution exactly
/// when one exists at all. A failure report means no sequence of legal
/// jumps whatsoever wins from this board.
pub proof fn lemma_solvable_iff_solution(b: Seq<char>, end_pos: int)
    requires
        board_wf(b),
    ensures
        solvable(b, end_pos) <==> (solution_of(b, end_pos) is Some),
{
    if solvable(b, end_pos) {
        lemma_solvable_search(b, end_pos, 0);
    }
    if solution_of(b, end_pos) is Some {
        lemma_search_some_solvable(b, end_pos, 0);
    }
}

} // verus!
