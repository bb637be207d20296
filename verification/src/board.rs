//! The board: a row of 16 cells, and the jumps that rearrange it.

use vstd::prelude::*;

verus! {

/// The character standing for a filled hole.
pub const PEG: char = 'P';

/// The character standing for an empty hole.
pub const HOLE: char = 'H';

/// One jump: the peg at `from` leaps over the peg at `over` and lands in
/// the empty hole `to`; the two pegs at `from` and `over` are removed and
/// a peg appears at `to`.
#[derive(Clone, Copy, PartialEq, Eq, Structural, Debug)]
pub struct Jump {
    pub from: u8,
    pub over: u8,
    pub to: u8,
}

/// A jump names three distinct physical holes (cells 1 through 15).
pub open spec fn jump_wf(m: Jump) -> bool {
    &&& 1 <= m.from < 16
    &&& 1 <= m.over < 16
    &&& 1 <= m.to < 16
    &&& m.from != m.over
    &&& m.from != m.to
    &&& m.over != m.to
}

/// A well-formed board: 16 cells, cell 0 the blank sentinel, every
/// physical hole either a peg or empty.
pub open spec fn board_wf(b: Seq<char>) -> bool {
    &&& b.len() == 16
    &&& b[0] == ' '
    &&& forall|i: int| 1 <= i < 16 ==> #[trigger] b[i] == PEG || b[i] == HOLE
}

/// How many cells of `s` hold the character `v`.
pub open spec fn count_eq(s: Seq<char>, v: char) -> nat
    decreases s.len(),
{
    if s.len() == 0 {
        0
    } else {
        count_eq(s.drop_last(), v) + if s.last() == v {
            1nat
        } else {
            0nat
        }
    }
}

/// How many pegs are on the board.
pub open spec fn peg_count(b: Seq<char>) -> nat {
    count_eq(b, PEG)
}

/// A jump is legal at a given instant iff `from` and `over` hold pegs and
/// `to` is empty.
pub open spec fn move_legal(b: Seq<char>, m: Jump) -> bool {
    &&& b[m.from as int] == PEG
    &&& b[m.over as int] == PEG
    &&& b[m.to as int] == HOLE
}

/// The board after a jump: `from` and `over` emptied, `to` filled.
pub open spec fn apply_jump(b: Seq<char>, m: Jump) -> Seq<char> {
    b.update(m.from as int, HOLE).update(m.over as int, HOLE).update(m.to as int, PEG)
}

/// The exact inverse of `apply_jump`: `from` and `over` refilled, `to`
/// emptied.
pub open spec fn undo_jump(b: Seq<char>, m: Jump) -> Seq<char> {
    b.update(m.from as int, PEG).update(m.over as int, PEG).update(m.to as int, HOLE)
}

/// The board is won: a single peg remains, and it sits at `end_pos`
/// unless `end_pos` is -1, which asks for no particular cell.
pub open spec fn is_solved(b: Seq<char>, end_pos: int) -> bool {
    &&& peg_count(b) == 1
    &&& (end_pos == -1 || b[end_pos] == PEG)
}

/// The canonical starting board: every hole holds a peg except `start`.
pub open spec fn init_board(start: int) -> Seq<char> {
    Seq::new(
        16,
        |i: int|
            if i == 0 {
                ' '
            } else if i == start {
                HOLE
            } else {
                PEG
            },
    )
}

/// Overwriting one cell changes the count of `v` by the difference
/// between what leaves and what arrives.
pub proof fn lemma_count_eq_update(s: Seq<char>, i: int, c: char, v: char)
    requires
        0 <= i < s.len(),
    ensures
        count_eq(s.update(i, c), v) + (if s[i] == v {
            1int
        } else {
            0int
        }) == count_eq(s, v) + (if c == v {
            1int
        } else {
            0int
        }),
    decreases s.len(),
{
    let t = s.update(i, c);
    if i == s.len() - 1 {
        assert(t.drop_last() =~= s.drop_last());
    } else {
        assert(t.drop_last() =~= s.drop_last().update(i, c));
        lemma_count_eq_update(s.drop_last(), i, c, v);
    }
}

/// A cell holding `v` accounts for at least one occurrence.
pub proof fn lemma_count_eq_at_least_one(s: Seq<char>, v: char, i: int)
    requires
        0 <= i < s.len(),
        s[i] == v,
    ensures
        count_eq(s, v) >= 1,
    decreases s.len(),
{
    if i < s.len() - 1 {
        lemma_count_eq_at_least_one(s.drop_last(), v, i);
    }
}

/// Two distinct cells holding `v` account for at least two occurrences.
pub proof fn lemma_count_eq_at_least_two(s: Seq<char>, v: char, i: int, j: int)
    requires
        0 <= i < j < s.len(),
        s[i] == v,
        s[j] == v,
    ensures
        count_eq(s, v) >= 2,
    decreases s.len(),
{
    if j == s.len() - 1 {
        lemma_count_eq_at_least_one(s.drop_last(), v, i);
    } else {
        lemma_count_eq_at_least_two(s.drop_last(), v, i, j);
    }
}

/// A legal jump removes exactly one peg from the board.
pub proof fn lemma_apply_jump_peg_count(b: Seq<char>, m: Jump)
    requires
        board_wf(b),
        jump_wf(m),
        move_legal(b, m),
    ensures
        peg_count(apply_jump(b, m)) + 1 == peg_count(b),
{
    let b1 = b.update(m.from as int, HOLE);
    let b2 = b1.update(m.over as int, HOLE);
    lemma_count_eq_update(b, m.from as int, HOLE, PEG);
    lemma_count_eq_update(b1, m.over as int, HOLE, PEG);
    lemma_count_eq_update(b2, m.to as int, PEG, PEG);
}

/// A jump leaves the board well formed.
pub proof fn lemma_apply_jump_wf(b: Seq<char>, m: Jump)
    requires
        board_wf(b),
        jump_wf(m),
    ensures
        board_wf(apply_jump(b, m)),
{
}

/// Undoing a jump right after applying it reproduces the exact prior
/// board, for any well-formed jump legal on that board.
pub proof fn lemma_apply_then_undo(b: Seq<char>, m: Jump)
    requires
        board_wf(b),
        jump_wf(m),
        move_legal(b, m),
    ensures
        undo_jump(apply_jump(b, m), m) == b,
{
    assert(undo_jump(apply_jump(b, m), m) =~= b);
}

/// On a solved board with a required end cell, the one peg sits there and
/// every other hole is empty.
pub proof fn lemma_solved_lone_peg(b: Seq<char>, end_pos: int)
    requires
        board_wf(b),
        1 <= end_pos < 16,
        is_solved(b, end_pos),
    ensures
        b[end_pos] == PEG,
        forall|i: int| 0 <= i < 16 && i != end_pos ==> b[i] != PEG,
{
    assert forall|i: int| 0 <= i < 16 && i != end_pos implies b[i] != PEG by {
        if b[i] == PEG {
            if i < end_pos {
                lemma_count_eq_at_least_two(b, PEG, i, end_pos);
            } else {
                lemma_count_eq_at_least_two(b, PEG, end_pos, i);
            }
        }
    }
}

/// The starting board has a peg everywhere but the starting hole.
pub proof fn lemma_init_board_wf(start: int)
    requires
        1 <= start < 16,
    ensures
        board_wf(init_board(start)),
        init_board(start)[start] == HOLE,
{
}

/// Whether the jump `m` may be taken on `board` right now.
pub fn legal_move(board: &Vec<char>, m: Jump) -> (r: bool)
    requires
        board_wf(board@),
        jump_wf(m),
    ensures
        r == move_legal(board@, m),
{
    board[m.from as usize] == PEG && board[m.over as usize] == PEG && board[m.to as usize] == HOLE
}

/// Take the jump `m`: empty `from` and `over`, fill `to`.
pub fn apply_move(board: &mut Vec<char>, m: Jump)
    requires
        board_wf(old(board)@),
        jump_wf(m),
    ensures
        final(board)@ == apply_jump(old(board)@, m),
        board_wf(final(board)@),
{
    board[m.from as usize] = HOLE;
    board[m.over as usize] = HOLE;
    board[m.to as usize] = PEG;
    proof {
        lemma_apply_jump_wf(old(board)@, m);
    }
}

/// Revoke the jump `m`: refill `from` and `over`, empty `to`.
pub fn undo_move(board: &mut Vec<char>, m: Jump)
    requires
        board_wf(old(board)@),
        jump_wf(m),
    ensures
        final(board)@ == undo_jump(old(board)@, m),
        board_wf(final(board)@),
{
    board[m.from as usize] = PEG;
    board[m.over as usize] = PEG;
    board[m.to as usize] = HOLE;
}

} // verus!
