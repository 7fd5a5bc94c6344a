//! Generator, game-model, transposition-table and search tests.

use boombots::action::{Action, ScoredAction};
use boombots::bitboard::Bitboard;
use boombots::constants::{BLACK, LOSS, WHITE, WIN};
use boombots::game::{Action as GameAction, Bot, GameState, Pos, Team};
use boombots::search::Search;
use boombots::evaluate::Evaluate;
use boombots::net::{ChallengeInfo, User};
use boombots::transpose::{Bound, TranspositionTable};

fn generated(actions: &[ScoredAction], a: Action) -> bool {
    actions.iter().any(|sa| sa.action == a)
}

#[test]
fn generator_orders_by_score() {
    let board = Bitboard::new();
    let actions = Action::generate(&board, None);
    assert!(actions.len() > 0);
    for w in actions.windows(2) {
        assert!(w[0].score >= w[1].score);
    }
    // No action is emitted twice.
    for i in 0..actions.len() {
        for j in (i + 1)..actions.len() {
            assert_ne!(actions[i].action, actions[j].action);
        }
    }
}

#[test]
fn generator_emits_legal_moves_only() {
    let board = Bitboard::new();
    let actions = Action::generate(&board, None);
    // The initial position has no explosions: no white bot touches black.
    for sa in &actions {
        assert!(sa.action.robots == 1);
        // Sources are white squares; targets are never black squares.
        assert_ne!(board.board[WHITE] & (1 << sa.action.source), 0);
        assert_eq!(board.board[BLACK] & (1 << sa.action.target), 0);
    }
    // The lone unit at square 1 can step to the empty square 2.
    assert!(generated(
        &actions,
        Action {
            source: 1,
            target: 2,
            robots: 1
        }
    ));
    // No unit can move two squares.
    assert!(!generated(
        &actions,
        Action {
            source: 1,
            target: 17,
            robots: 1
        }
    ));
}

#[test]
fn generator_emits_booms_next_to_enemies() {
    // A white bot touching a black bot may explode.
    let board = Bitboard::empty()
        .with(1 << 0, 1, WHITE)
        .with(1 << 1, 1, BLACK);
    let actions = Action::generate(&board, None);
    assert!(generated(
        &actions,
        Action {
            source: 0,
            target: 0,
            robots: 0
        }
    ));
    // A lone white bot far from any enemy gets no explosion.
    let lonely = Bitboard::empty()
        .with(1 << 0, 1, WHITE)
        .with(1 << 63, 1, BLACK);
    let lonely_actions = Action::generate(&lonely, None);
    for sa in &lonely_actions {
        assert_ne!(sa.action.robots, 0);
    }
}

#[test]
fn pv_move_sorts_first() {
    let board = Bitboard::new();
    let pv = Action {
        source: 1,
        target: 2,
        robots: 1,
    };
    let actions = Action::generate(&board, Some(pv));
    assert_eq!(actions[0].action, pv);
}

fn to_game_action(a: Action) -> GameAction {
    GameAction {
        a: Pos::new(a.source % 8, a.source / 8),
        b: Pos::new(a.target % 8, a.target / 8),
        n: a.robots,
    }
}

#[test]
fn initial_positions_correspond() {
    // The slot model and the bitboard start from the same twelve-bot
    // layout per side.
    let gs = GameState::new();
    let bb = Bitboard::new();
    let mut white = 0;
    let mut black = 0;
    for i in 0..64usize {
        let w = (bb.board[WHITE] >> i) & 1 == 1;
        let b = (bb.board[BLACK] >> i) & 1 == 1;
        match gs.board[i] {
            Some(bot) => {
                assert_eq!(bot.stack, 1);
                assert_eq!(w, bot.team == Team::White);
                assert_eq!(b, bot.team == Team::Black);
                if bot.team == Team::White {
                    white += 1;
                } else {
                    black += 1;
                }
            }
            None => {
                assert!(!w && !b);
            }
        }
    }
    assert_eq!(white, 12);
    assert_eq!(black, 12);
}

#[test]
fn legality_agreement_on_initial_position() {
    // The slot model and the bitboard generator agree on every action.
    let gs = GameState::new();
    let bb = Bitboard::new();
    let actions = Action::generate(&bb, None);

    // Every generated action is valid in the slot model.
    for sa in &actions {
        assert!(gs.valid(&to_game_action(sa.action)));
    }

    // Every valid directional move is generated.
    for s in 0..64u8 {
        for t in 0..64u8 {
            for n in 1..=12u8 {
                let a = Action {
                    source: s,
                    target: t,
                    robots: n,
                };
                if gs.valid(&to_game_action(a)) {
                    assert!(generated(&actions, a), "missing {:?}", a);
                }
            }
        }
    }
}

#[test]
fn game_state_validity_rules() {
    let gs = GameState::new();
    // A lone unit steps one square forward.
    assert!(gs.valid(&GameAction {
        a: Pos::new(0, 1),
        b: Pos::new(0, 2),
        n: 1
    }));
    // It cannot step two squares.
    assert!(!gs.valid(&GameAction {
        a: Pos::new(0, 1),
        b: Pos::new(0, 3),
        n: 1
    }));
    // It cannot move diagonally.
    assert!(!gs.valid(&GameAction {
        a: Pos::new(0, 1),
        b: Pos::new(1, 2),
        n: 1
    }));
    // An empty source square moves nothing.
    assert!(!gs.valid(&GameAction {
        a: Pos::new(0, 4),
        b: Pos::new(0, 5),
        n: 1
    }));
    // Black may not move while it is white's turn.
    assert!(!gs.valid(&GameAction {
        a: Pos::new(0, 6),
        b: Pos::new(0, 5),
        n: 1
    }));
    // An own bot may always explode.
    assert!(gs.valid(&GameAction {
        a: Pos::new(0, 0),
        b: Pos::new(0, 0),
        n: 0
    }));
}

#[test]
fn game_state_make_moves_and_stacks() {
    let mut gs = GameState::new();
    // Step the bot at (0,1) forward to the empty (0,2).
    gs.make(&GameAction {
        a: Pos::new(0, 1),
        b: Pos::new(0, 2),
        n: 1,
    });
    assert_eq!(gs.turn, Team::Black);
    assert_eq!(gs.board[Pos::new(0, 1).index()], None);
    assert_eq!(
        gs.board[Pos::new(0, 2).index()],
        Some(Bot {
            team: Team::White,
            stack: 1
        })
    );
    // Black stacks (0,6) onto (0,7).
    gs.make(&GameAction {
        a: Pos::new(0, 6),
        b: Pos::new(0, 7),
        n: 1,
    });
    assert_eq!(gs.turn, Team::White);
    assert_eq!(gs.board[Pos::new(0, 6).index()], None);
    assert_eq!(
        gs.board[Pos::new(0, 7).index()],
        Some(Bot {
            team: Team::Black,
            stack: 2
        })
    );
}

#[test]
fn game_state_boom_removes_component() {
    // White at (0,0) and (1,1), black at (2,2): the chain takes all three.
    let mut gs = GameState::new();
    // Clear the default position and place the three bots by hand.
    for i in 0..64 {
        gs.board[i] = None;
    }
    gs.board[Pos::new(0, 0).index()] = Some(Bot {
        team: Team::White,
        stack: 1,
    });
    gs.board[Pos::new(1, 1).index()] = Some(Bot {
        team: Team::White,
        stack: 1,
    });
    gs.board[Pos::new(2, 2).index()] = Some(Bot {
        team: Team::Black,
        stack: 1,
    });
    gs.make(&GameAction {
        a: Pos::new(0, 0),
        b: Pos::new(0, 0),
        n: 0,
    });
    for i in 0..64 {
        assert_eq!(gs.board[i], None);
    }
    assert_eq!(gs.turn, Team::Black);
}

#[test]
fn game_state_rejects_overflowing_stacks() {
    let mut gs = GameState::new();
    for i in 0..64 {
        gs.board[i] = None;
    }
    gs.board[Pos::new(0, 0).index()] = Some(Bot {
        team: Team::White,
        stack: 12,
    });
    gs.board[Pos::new(0, 1).index()] = Some(Bot {
        team: Team::White,
        stack: 1,
    });
    // Stacking any unit onto a full stack is refused.
    assert!(!gs.valid(&GameAction {
        a: Pos::new(0, 1),
        b: Pos::new(0, 0),
        n: 1
    }));
    // Moving the full stack itself is fine.
    assert!(gs.valid(&GameAction {
        a: Pos::new(0, 0),
        b: Pos::new(0, 2),
        n: 12
    }));
}

#[test]
fn store_then_lookup_returns_the_entry() {
    let mut tt = TranspositionTable::new(4);
    let action = Action {
        source: 3,
        target: 4,
        robots: 1,
    };
    tt.store(0x1234_5678_9abc_def0, 50, action, 5, Bound::Lower);
    let entry = tt.lookup(0x1234_5678_9abc_def0).expect("stored entry");
    assert_eq!(entry.eval, 50);
    assert_eq!(entry.depth, 5);
    assert_eq!(entry.bound, Bound::Lower);
    assert_eq!(entry.action, action);
}

#[test]
fn colliding_hash_is_a_miss() {
    let mut tt = TranspositionTable::new(4);
    let action = Action {
        source: 0,
        target: 1,
        robots: 1,
    };
    let h1 = 5u64;
    let h2 = 5u64 + (1 << 40);
    // Both hashes map to the same slot, but only the stored one answers.
    tt.store(h1, 7, action, 2, Bound::Exact);
    assert!(tt.lookup(h2).is_none());
    // Overwriting the slot evicts the previous entry.
    tt.store(h2, 9, action, 3, Bound::Upper);
    assert!(tt.lookup(h1).is_none());
    assert_eq!(tt.lookup(h2).expect("new entry").eval, 9);
}

#[test]
fn lower_bound_gating_values() {
    // A depth-5 lower bound of +50: a query window 0..100 raises alpha to
    // 50 without cutting; a window that the bound closes returns the score.
    let mut tt = TranspositionTable::new(4);
    let action = Action {
        source: 0,
        target: 1,
        robots: 1,
    };
    let h = 42u64;
    tt.store(h, 50, action, 5, Bound::Lower);
    let entry = tt.lookup(h).expect("entry");
    assert!(entry.depth >= 4);
    let alpha = 0i16.max(entry.eval);
    assert_eq!(alpha, 50);
    assert!(alpha < 100);
    let alpha2 = 60i16.max(entry.eval);
    assert_eq!(alpha2, 60);
}

#[test]
fn search_finds_a_move_and_restores_the_board() {
    let mut tt = TranspositionTable::new(16);
    let mut board = Bitboard::new();
    let result = Search::negamax_move(&mut board, &mut tt, 2, LOSS, WIN);
    assert_eq!(board, Bitboard::new());
    assert!(result.score >= LOSS && result.score <= WIN);
    assert_eq!(result.depth, 2);
    assert!(result.nodes > 0);
}

#[test]
fn search_node_counts_are_deterministic() {
    let mut counts = Vec::new();
    for _round in 0..2 {
        let mut per_depth = Vec::new();
        for depth in 1..=2u8 {
            let mut tt = TranspositionTable::new(16);
            let mut board = Bitboard::new();
            let result = Search::negamax_move(&mut board, &mut tt, depth, LOSS, WIN);
            per_depth.push((result.nodes, result.trans, result.score));
        }
        counts.push(per_depth);
    }
    assert_eq!(counts[0], counts[1]);
}

#[test]
fn users_and_challenges_build() {
    let alice = User::new(1, String::from("alice"));
    let bob = User::new(2, String::from("bob"));
    assert_eq!(alice.id, 1);
    assert_eq!(alice.name, "alice");
    let challenge = ChallengeInfo::new(7, alice, bob);
    assert_eq!(challenge.id, 7);
    assert_eq!(challenge.source.id, 1);
    assert_eq!(challenge.target.id, 2);
    assert!(!challenge.accepted);
}

#[test]
fn move_ordering_scores_exact_values() {
    let board = Bitboard::new();
    let actions = Action::generate(&board, None);
    let score_of = |a: Action| -> u16 {
        actions
            .iter()
            .find(|sa| sa.action == a)
            .expect("action generated")
            .score
    };
    // A sideways step of one square: 5 * 1.
    assert_eq!(
        score_of(Action {
            source: 1,
            target: 2,
            robots: 1
        }),
        5
    );
    // Stacking on the neighbor: 5 * 1 sideways + 10 * new height 2.
    assert_eq!(
        score_of(Action {
            source: 0,
            target: 1,
            robots: 1
        }),
        25
    );
    // Stacking one row forward: 15 * 1 forward + 10 * new height 2.
    assert_eq!(
        score_of(Action {
            source: 1,
            target: 9,
            robots: 1
        }),
        35
    );
}

#[test]
fn evaluate_exact_value() {
    // One white bot in the center against one black bot in the corner:
    // equal material and stacks, but eight squares of reach against three.
    let board = Bitboard::empty()
        .with(1 << 27, 1, WHITE)
        .with(1 << 0, 1, BLACK);
    assert_eq!(Evaluate::evaluate(&board), 5);
}
