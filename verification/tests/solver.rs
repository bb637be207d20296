use puzzle_pegs::board::apply_move;
use puzzle_pegs::board::legal_move;
use puzzle_pegs::board::undo_move;
use puzzle_pegs::Jump;
use puzzle_pegs::PuzzlePegs;
use puzzle_pegs::HOLE;
use puzzle_pegs::PEG;

fn pegs_on(board: &[char]) -> usize {
    PuzzlePegs::count(board, &PEG)
}

#[test]
fn move_table_has_the_canonical_entries() {
    let p = PuzzlePegs::new(1, -1);
    assert_eq!(p.moves.len(), 36);
    assert_eq!(p.moves[0], Jump { from: 1, over: 2, to: 4 });
    assert_eq!(p.moves[6], Jump { from: 4, over: 2, to: 1 });
    assert_eq!(p.moves[35], Jump { from: 15, over: 14, to: 13 });
}

#[test]
fn count_counts_occurrences() {
    let cells = vec![' ', PEG, HOLE, PEG, PEG];
    assert_eq!(PuzzlePegs::count(&cells, &PEG), 3);
    assert_eq!(PuzzlePegs::count(&cells, &HOLE), 1);
    let empty: Vec<char> = Vec::new();
    assert_eq!(PuzzlePegs::count(&empty, &PEG), 0);
}

#[test]
fn initial_board_has_one_hole_at_start() {
    let p = PuzzlePegs::new(5, -1);
    let b = p.initial_board();
    assert_eq!(b.len(), 16);
    assert_eq!(b[0], ' ');
    assert_eq!(b[5], HOLE);
    for i in 1..16 {
        if i != 5 {
            assert_eq!(b[i], PEG);
        }
    }
    assert_eq!(pegs_on(&b), 14);
}

#[test]
fn apply_then_undo_restores_every_board() {
    for start in 1..16 {
        let p = PuzzlePegs::new(start, -1);
        let board = p.initial_board();
        for k in 0..p.moves.len() {
            let m = p.moves[k];
            if legal_move(&board, m) {
                let mut b = board.clone();
                apply_move(&mut b, m);
                assert_ne!(b, board);
                undo_move(&mut b, m);
                assert_eq!(b, board);
            }
        }
    }
}

#[test]
fn scenario_unconstrained_from_corner() {
    let mut p = PuzzlePegs::new(1, -1);
    assert!(p.solve());
    assert_eq!(p.jumps.len(), 13);
    assert_eq!(p.boards.len(), 13);
    // The first legal entry in table order against the all-pegs-but-1
    // board is [4, 2, 1]: the first six triples all want a peg in (or a
    // hole outside) cell 1.
    assert_eq!(p.jumps[0], Jump { from: 4, over: 2, to: 1 });
    let first = &p.boards[0];
    assert_eq!(first[1], PEG);
    assert_eq!(first[2], HOLE);
    assert_eq!(first[4], HOLE);
    for i in 1..16 {
        if i != 2 && i != 4 {
            assert_eq!(first[i], PEG);
        }
    }
    let last = p.boards.last().unwrap();
    assert_eq!(pegs_on(last), 1);
}

#[test]
fn scenario_center_adjacent_return() {
    let mut p = PuzzlePegs::new(13, 13);
    assert!(p.solve());
    assert_eq!(p.jumps.len(), 13);
    let last = p.boards.last().unwrap();
    assert_eq!(pegs_on(last), 1);
    assert_eq!(last[13], PEG);
    for i in 1..16 {
        if i != 13 {
            assert_eq!(last[i], HOLE);
        }
    }
}

#[test]
fn scenario_unsolvable_pairing() {
    // Starting hole 1 can never leave the last peg in cell 4: colour the
    // cells by (row + offset) mod 3 and every jump shifts all three
    // colour counts alike, which pins the final peg to the colour class
    // of the starting hole; cell 4 is in another class.
    let mut p = PuzzlePegs::new(1, 4);
    assert!(!p.solve());
    assert!(p.jumps.is_empty());
    assert!(p.boards.is_empty());
}

#[test]
fn solving_twice_is_identical() {
    let mut a = PuzzlePegs::new(13, 13);
    let mut b = PuzzlePegs::new(13, 13);
    assert!(a.solve());
    assert!(b.solve());
    assert_eq!(a.jumps, b.jumps);
    assert_eq!(a.boards, b.boards);
}

#[test]
fn peg_counts_decrease_one_per_jump() {
    let mut p = PuzzlePegs::new(1, -1);
    assert!(p.solve());
    for k in 0..p.boards.len() {
        assert_eq!(pegs_on(&p.boards[k]), 13 - k);
    }
}

#[test]
fn every_recorded_jump_is_legal_when_played() {
    let mut p = PuzzlePegs::new(1, -1);
    assert!(p.solve());
    let mut board = p.initial_board();
    for k in 0..p.jumps.len() {
        let m = p.jumps[k];
        assert_eq!(board[m.from as usize], PEG);
        assert_eq!(board[m.over as usize], PEG);
        assert_eq!(board[m.to as usize], HOLE);
        apply_move(&mut board, m);
        assert_eq!(&board, &p.boards[k]);
    }
    assert_eq!(pegs_on(&board), 1);
}
