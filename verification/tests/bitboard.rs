//! Make/undo symmetry and scenario tests for the packed board.

use boombots::action::Action;
use boombots::bitboard::Bitboard;
use boombots::constants::{BLACK, WHITE};
use boombots::evaluate::{Evaluate, Outcome};

#[test]
fn undo_after_stacking_height_1_onto_1() {
    let mut board = Bitboard::new();
    let action = Action {
        source: 0,
        target: 1,
        robots: 1,
    };
    let delta = board.delta(action);
    let hash = board.make(&delta);
    board.undo(&delta, hash);
    assert_eq!(board, Bitboard::new());
}

#[test]
fn undo_after_moving_height_1_onto_empty() {
    let mut board = Bitboard::new();
    let action = Action {
        source: 1,
        target: 2,
        robots: 1,
    };
    let delta = board.delta(action);
    let hash = board.make(&delta);

    board.undo(&delta, hash);
    assert_eq!(board, Bitboard::new());
}

#[test]
fn undo_after_moving_1_from_2_stack_onto_empty() {
    let mut board = Bitboard::new();
    let action1 = Action {
        source: 0,
        target: 1,
        robots: 1,
    };
    let delta1 = board.delta(action1);
    let _hash1 = board.make(&delta1);
    let action2 = Action {
        source: 1,
        target: 2,
        robots: 1,
    };
    let delta2 = board.delta(action2);
    let hash2 = board.make(&delta2);
    board.undo(&delta2, hash2);
    let mut correct = Bitboard::new();
    correct.make(&delta1);

    assert_eq!(board, correct);
}

#[test]
fn undo_after_moving_1_from_2_stack_onto_1() {
    let mut board = Bitboard::new();
    let mut correct = Bitboard::new();

    let action = Action {
        source: 0,
        target: 1,
        robots: 1,
    };
    let delta = board.delta(action);

    board.make(&delta);
    correct.make(&delta);

    let action = Action {
        source: 1,
        target: 3,
        robots: 1,
    };
    let delta = board.delta(action);

    let hash = board.make(&delta);
    board.undo(&delta, hash);

    assert_eq!(board, correct);
}

#[test]
fn initial_setup() {
    let board = Bitboard::new();
    assert_eq!(board.robots_white, 12);
    assert_eq!(board.robots_black, 12);
    assert_eq!(board.robots_total, 24);
    assert_eq!(board.turn, WHITE);
    assert_eq!(board.opponent, BLACK);
    assert_eq!(board.board[WHITE], 0x0000_0000_0000_dbdb);
    assert_eq!(board.board[BLACK], 0xdbdb_0000_0000_0000);
    assert_eq!(board.board[1], board.board[WHITE] | board.board[BLACK]);
    for height in 2..=12 {
        assert_eq!(board.board[height], 0);
    }
}

#[test]
fn move_one_onto_empty_square() {
    // Square 2 is empty in the initial layout; move the lone unit there.
    let mut board = Bitboard::new();
    let action = Action {
        source: 1,
        target: 2,
        robots: 1,
    };
    let delta = board.delta(action);
    let hash = board.make(&delta);

    // Square 1 is now empty in every frame; square 2 is white of height 1.
    for frame in 0..14 {
        assert_eq!(board.board[frame] & (1 << 1), 0);
    }
    assert_ne!(board.board[WHITE] & (1 << 2), 0);
    assert_ne!(board.board[1] & (1 << 2), 0);
    assert_eq!(board.turn, BLACK);

    board.undo(&delta, hash);
    assert_eq!(board, Bitboard::new());
}

#[test]
fn stack_two_then_move_shows_heights() {
    let mut board = Bitboard::new();
    let first = Action {
        source: 0,
        target: 1,
        robots: 1,
    };
    let delta1 = board.delta(first);
    board.make(&delta1);

    // The intermediate state shows a stack of two at square 1.
    assert_ne!(board.board[2] & (1 << 1), 0);
    assert_eq!(board.board[1] & (1 << 1), 0);

    let mut correct = Bitboard::new();
    correct.make(&correct.delta(first));

    let second = Action {
        source: 1,
        target: 2,
        robots: 1,
    };
    let delta2 = board.delta(second);
    let hash2 = board.make(&delta2);
    board.undo(&delta2, hash2);
    assert_eq!(board, correct);
}

#[test]
fn explosion_chain_clears_component() {
    // White bots at squares 0 and 9, black at 10; the chain takes all three.
    let mut board = Bitboard::empty()
        .with(1 << 0, 1, WHITE)
        .with(1 << 9, 1, WHITE)
        .with(1 << 10, 1, BLACK);
    assert_eq!(board.robots_white, 2);
    assert_eq!(board.robots_black, 1);

    let action = Action {
        source: 0,
        target: 0,
        robots: 0,
    };
    let delta = board.delta(action);
    let hash = board.make(&delta);

    for frame in 0..14 {
        assert_eq!(board.board[frame], 0);
    }
    assert_eq!(board.robots_white, 0);
    assert_eq!(board.robots_black, 0);
    assert_eq!(Evaluate::outcome(&board), Some(Outcome::Draw));

    board.undo(&delta, hash);
    let again = Bitboard::empty()
        .with(1 << 0, 1, WHITE)
        .with(1 << 9, 1, WHITE)
        .with(1 << 10, 1, BLACK);
    assert_eq!(board, again);
}

#[test]
fn terminal_detection() {
    // Only white bots: a win for white to move, a loss for black to move.
    let mut board = Bitboard::empty().with(1 << 5, 1, WHITE);
    assert_eq!(Evaluate::outcome(&board), Some(Outcome::Win));
    board.turn = BLACK;
    board.opponent = WHITE;
    assert_eq!(Evaluate::outcome(&board), Some(Outcome::Loss));

    // Both sides present: the game goes on.
    let live = Bitboard::new();
    assert_eq!(Evaluate::outcome(&live), None);
}

#[test]
fn hash_changes_and_restores() {
    let mut board = Bitboard::new();
    let initial_hash = board.hash;
    let action = Action {
        source: 0,
        target: 1,
        robots: 1,
    };
    let delta = board.delta(action);
    let hash = board.make(&delta);
    assert_ne!(board.hash, initial_hash);
    board.undo(&delta, hash);
    assert_eq!(board.hash, initial_hash);
}

#[test]
fn evaluate_is_balanced_at_start() {
    let board = Bitboard::new();
    assert_eq!(Evaluate::evaluate(&board), 0);
}
