//! Iterative-deepening negamax search with alpha-beta pruning.
//!
//! The search drives the bitboard through make/undo against generated,
//! ordered moves, consults the transposition table at each node, and applies
//! late-move reduction to low-scored siblings. Every search call returns the
//! board and hash bit-identical to the state it was given, and its contract
//! pins the terminal, table-cut, leaf and stalemate answers as well as the
//! entry it stores for the searched position.

use crate::action::{generates, lemma_generates_ok, Action, ScoredAction};
use crate::bitboard::{lemma_make_undo, Bitboard};
use crate::constants::{DRAW, LOSS, WIN};
use crate::evaluate::{spec_evaluate, spec_outcome, Evaluate, Outcome};
use crate::transpose::{spec_lookup, Bound, TranspositionTable};
use vstd::prelude::*;

verus! {

/// The root result: the best action found, its score, and search telemetry.
pub struct NegamaxResult {
    pub depth: u8,
    pub action: Action,
    pub score: i16,
    pub nodes: u64,
    pub trans: u64,
}

/// An interior result: a score and search telemetry.
pub struct NegamaxStats {
    pub score: i16,
    pub nodes: u64,
    pub trans: u64,
}

/// Whether two boards agree on every observable field.
pub open spec fn same_board(a: Bitboard, b: Bitboard) -> bool {
    &&& a.board@ == b.board@
    &&& a.hash == b.hash
    &&& a.turn == b.turn
    &&& a.opponent == b.opponent
    &&& a.robots_white == b.robots_white
    &&& a.robots_black == b.robots_black
    &&& a.robots_total == b.robots_total
}

/// Whether two tables agree on every observable field.
pub open spec fn same_table(a: TranspositionTable, b: TranspositionTable) -> bool {
    &&& a.entries@ == b.entries@
    &&& a.size == b.size
    &&& a.mask == b.mask
    &&& a.overwrites == b.overwrites
}

/// Whether the side to move has any action at all.
pub open spec fn has_action(b: Bitboard) -> bool {
    exists|a: Action| generates(b, a)
}

/// What a table probe forces at an interior node: the stored score when a
/// sufficient-depth entry answers the window outright — an exact entry
/// always, a lower bound when raising alpha to it closes the window, an
/// upper bound when lowering beta to it does.
pub open spec fn spec_probe_cut(
    t: TranspositionTable,
    hash: u64,
    depth: u8,
    alpha: i16,
    beta: i16,
) -> Option<i16> {
    match spec_lookup(t, hash) {
        Some(e) => if e.depth >= depth {
            match e.bound {
                Bound::Exact => Some(e.eval),
                Bound::Lower => if (if alpha < e.eval {
                    e.eval
                } else {
                    alpha
                }) >= beta {
                    Some(e.eval)
                } else {
                    None
                },
                Bound::Upper => if alpha >= (if e.eval < beta {
                    e.eval
                } else {
                    beta
                }) {
                    Some(e.eval)
                } else {
                    None
                },
            }
        } else {
            None
        },
        None => None,
    }
}

/// The window's lower edge after a probe narrows it: a sufficient-depth
/// lower bound raises alpha to the stored score.
pub open spec fn spec_probe_alpha(t: TranspositionTable, hash: u64, depth: u8, alpha: i16) -> i16 {
    match spec_lookup(t, hash) {
        Some(e) => if e.depth >= depth && e.bound == Bound::Lower && alpha < e.eval {
            e.eval
        } else {
            alpha
        },
        None => alpha,
    }
}

/// The window's upper edge after a probe narrows it: a sufficient-depth
/// upper bound lowers beta to the stored score.
pub open spec fn spec_probe_beta(t: TranspositionTable, hash: u64, depth: u8, beta: i16) -> i16 {
    match spec_lookup(t, hash) {
        Some(e) => if e.depth >= depth && e.bound == Bound::Upper && e.eval < beta {
            e.eval
        } else {
            beta
        },
        None => beta,
    }
}

/// The bound kind a score earns against the window it was searched in:
/// failing low yields an upper bound, failing high a lower bound, anything
/// between the exact value.
pub open spec fn spec_bound_of(score: i16, alpha: i16, beta: i16) -> Bound {
    if score <= alpha {
        Bound::Upper
    } else if score >= beta {
        Bound::Lower
    } else {
        Bound::Exact
    }
}

impl Search {
    /// Searches the root to the given depth and returns the best action.
    /// Set alpha to `LOSS` and beta to `WIN` for a full window. The result
    /// is recorded in the table under the position's hash.
    pub fn negamax_move(
        bitboard: &mut Bitboard,
        transpositions: &mut TranspositionTable,
        depth: u8,
        alpha: i16,
        beta: i16,
    ) -> (r: NegamaxResult)
        requires
            old(bitboard).wf(),
            old(transpositions).wf(),
            1 <= depth,
            LOSS <= alpha <= WIN,
            LOSS <= beta <= WIN,
            has_action(*old(bitboard)),
        ensures
            final(bitboard).wf(),
            same_board(*final(bitboard), *old(bitboard)),
            final(transpositions).wf(),
            final(transpositions).size == old(transpositions).size,
            final(transpositions).mask == old(transpositions).mask,
            LOSS <= r.score <= WIN,
            generates(*old(bitboard), r.action),
            r.depth == depth,
            spec_lookup(*final(transpositions), old(bitboard).hash) == Some(
                crate::transpose::Transposition {
                    eval: r.score,
                    hash: old(bitboard).hash,
                    depth,
                    action: r.action,
                    bound: spec_bound_of(r.score, alpha, beta),
                },
            ),
    {
        let ghost alpha_arg = alpha;
        let mut alpha = alpha;
        let original_alpha = alpha;
        let scored_actions = Action::generate(bitboard, None);
        proof {
            let w = choose|a: Action| generates(*bitboard, a);
            assert(exists|i: int|
                0 <= i < scored_actions@.len() && scored_actions@[i].action == w);
        }
        let mut best_score = LOSS;
        let mut best_action = scored_actions[0].action;
        let mut nodes: u64 = 0;
        let mut trans: u64 = 0;
        let ghost pre = *bitboard;

        let mut i: usize = 0;
        while i < scored_actions.len() && alpha < beta
            invariant
                bitboard.wf(),
                pre.wf(),
                same_board(*bitboard, pre),
                transpositions.wf(),
                transpositions.size == old(transpositions).size,
                transpositions.mask == old(transpositions).mask,
                i <= scored_actions@.len(),
                scored_actions@.len() > 0,
                1 <= depth,
                LOSS <= alpha <= WIN,
                LOSS <= beta <= WIN,
                LOSS <= best_score <= WIN,
                generates(pre, best_action),
                forall|j: int|
                    0 <= j < scored_actions@.len() ==> generates(
                        pre,
                        (#[trigger] scored_actions@[j]).action,
                    ),
            decreases scored_actions@.len() - i,
        {
            let action = scored_actions[i].action;
            let ghost cur = *bitboard;
            proof {
                assert(generates(cur, action));
                lemma_generates_ok(cur, action);
            }
            let delta = bitboard.delta(action);
            let hash = bitboard.make(&delta);

            let stats = Search::negamax_score(
                bitboard,
                transpositions,
                depth - 1,
                -beta,
                -alpha,
            );
            let score = -stats.score;
            nodes = nodes.saturating_add(stats.nodes);
            trans = trans.saturating_add(stats.trans);
            bitboard.undo(&delta, hash);
            proof {
                lemma_make_undo(cur, delta);
                assert(same_board(*bitboard, pre));
            }

            // Track the best known action and score.
            if best_score < score {
                best_score = score;
                best_action = action;
            }

            // Raise alpha; the loop stops on an alpha-beta cut-off.
            if alpha < score {
                alpha = score;
            }
            i = i + 1;
        }

        // Record the result in the transposition table with its bound kind.
        if best_score <= original_alpha {
            transpositions.store(bitboard.hash, best_score, best_action, depth, Bound::Upper);
        } else if best_score >= beta {
            transpositions.store(bitboard.hash, best_score, best_action, depth, Bound::Lower);
        } else {
            transpositions.store(bitboard.hash, best_score, best_action, depth, Bound::Exact);
        }

        NegamaxResult { depth, action: best_action, score: best_score, nodes, trans }
    }

    /// Scores an interior node. The contract pins every early answer — a
    /// terminal outcome scores WIN, LOSS or DRAW with zero counts; a
    /// sufficient-depth table entry that closes the window returns the
    /// stored score; depth zero falls back to the static evaluation; a side
    /// with no action scores LOSS — and, when children are searched, the
    /// entry stored for this position: its depth, the returned score, a
    /// generated action, and the bound kind measured against the probed
    /// window.
    fn negamax_score(
        bitboard: &mut Bitboard,
        transpositions: &mut TranspositionTable,
        depth: u8,
        alpha: i16,
        beta: i16,
    ) -> (r: NegamaxStats)
        requires
            old(bitboard).wf(),
            old(transpositions).wf(),
            LOSS <= alpha <= WIN,
            LOSS <= beta <= WIN,
        ensures
            final(bitboard).wf(),
            same_board(*final(bitboard), *old(bitboard)),
            final(transpositions).wf(),
            final(transpositions).size == old(transpositions).size,
            final(transpositions).mask == old(transpositions).mask,
            LOSS <= r.score <= WIN,
            spec_outcome(*old(bitboard)) == Some(Outcome::Win) ==> r.score == WIN && r.nodes == 0
                && r.trans == 0 && same_table(*final(transpositions), *old(transpositions)),
            spec_outcome(*old(bitboard)) == Some(Outcome::Loss) ==> r.score == LOSS && r.nodes == 0
                && r.trans == 0 && same_table(*final(transpositions), *old(transpositions)),
            spec_outcome(*old(bitboard)) == Some(Outcome::Draw) ==> r.score == DRAW && r.nodes == 0
                && r.trans == 0 && same_table(*final(transpositions), *old(transpositions)),
            spec_outcome(*old(bitboard)) is None ==> (spec_probe_cut(
                *old(transpositions),
                old(bitboard).hash,
                depth,
                alpha,
                beta,
            ) matches Some(s) ==> r.score == s && r.nodes == 1 && r.trans == 1 && same_table(
                *final(transpositions),
                *old(transpositions),
            )),
            (spec_outcome(*old(bitboard)) is None && spec_probe_cut(
                *old(transpositions),
                old(bitboard).hash,
                depth,
                alpha,
                beta,
            ) is None && depth == 0) ==> r.score == spec_evaluate(*old(bitboard)) && r.nodes == 1
                && r.trans == 0 && same_table(*final(transpositions), *old(transpositions)),
            (spec_outcome(*old(bitboard)) is None && spec_probe_cut(
                *old(transpositions),
                old(bitboard).hash,
                depth,
                alpha,
                beta,
            ) is None && depth > 0 && !has_action(*old(bitboard))) ==> r.score == LOSS && r.nodes
                == 1 && r.trans == 0 && same_table(*final(transpositions), *old(transpositions)),
            (spec_outcome(*old(bitboard)) is None && spec_probe_cut(
                *old(transpositions),
                old(bitboard).hash,
                depth,
                alpha,
                beta,
            ) is None && depth > 0 && has_action(*old(bitboard))) ==> (spec_lookup(
                *final(transpositions),
                old(bitboard).hash,
            ) matches Some(e) && e.depth == depth && e.eval == r.score && generates(
                *old(bitboard),
                e.action,
            ) && e.bound == spec_bound_of(
                r.score,
                alpha,
                spec_probe_beta(*old(transpositions), old(bitboard).hash, depth, beta),
            )),
        decreases depth,
    {
        // Terminal positions need no search.
        if let Some(outcome) = Evaluate::outcome(bitboard) {
            match outcome {
                Outcome::Win => {
                    return NegamaxStats { score: WIN, nodes: 0, trans: 0 };
                },
                Outcome::Loss => {
                    return NegamaxStats { score: LOSS, nodes: 0, trans: 0 };
                },
                Outcome::Draw => {
                    return NegamaxStats { score: DRAW, nodes: 0, trans: 0 };
                },
            }
        }
        let ghost alpha_arg = alpha;
        let ghost beta_arg = beta;
        let mut alpha = alpha;
        let mut beta = beta;
        let original_alpha = alpha;

        // Probe the transposition table: a deep-enough entry may answer or
        // narrow the window; a shallow one still seeds move ordering.
        let mut pv_move: Option<Action> = None;
        let previous = transpositions.lookup(bitboard.hash);
        if let Some(previous) = previous {
            if previous.depth >= depth {
                match previous.bound {
                    Bound::Exact => {
                        return NegamaxStats { score: previous.eval, nodes: 1, trans: 1 };
                    },
                    Bound::Lower => {
                        if alpha < previous.eval {
                            alpha = previous.eval;
                        }
                        if alpha >= beta {
                            return NegamaxStats { score: previous.eval, nodes: 1, trans: 1 };
                        }
                    },
                    Bound::Upper => {
                        if previous.eval < beta {
                            beta = previous.eval;
                        }
                        if alpha >= beta {
                            return NegamaxStats { score: previous.eval, nodes: 1, trans: 1 };
                        }
                    },
                }
            } else {
                pv_move = Some(previous.action);
            }
        }
        proof {
            assert(spec_probe_cut(
                *old(transpositions),
                old(bitboard).hash,
                depth,
                alpha_arg,
                beta_arg,
            ) is None);
            assert(alpha == spec_probe_alpha(
                *old(transpositions),
                old(bitboard).hash,
                depth,
                alpha_arg,
            ));
            assert(beta == spec_probe_beta(
                *old(transpositions),
                old(bitboard).hash,
                depth,
                beta_arg,
            ));
        }

        // Leaf nodes take the static evaluation.
        if depth == 0 {
            return NegamaxStats { score: Evaluate::evaluate(bitboard), nodes: 1, trans: 0 };
        }

        let scored_actions = Action::generate(bitboard, pv_move);

        // A side with no action at all has lost.
        if scored_actions.len() == 0 {
            proof {
                if has_action(*bitboard) {
                    let w = choose|a: Action| generates(*bitboard, a);
                    assert(exists|i: int|
                        0 <= i < scored_actions@.len() && scored_actions@[i].action == w);
                }
            }
            return NegamaxStats { score: LOSS, nodes: 1, trans: 0 };
        }
        let mut best_score = LOSS;
        let mut best_action = scored_actions[0].action;
        let mut nodes: u64 = 0;
        let mut trans: u64 = 0;
        let ghost pre = *bitboard;

        let mut i: usize = 0;
        while i < scored_actions.len()
            invariant
                bitboard.wf(),
                pre.wf(),
                same_board(*bitboard, pre),
                transpositions.wf(),
                transpositions.size == old(transpositions).size,
                transpositions.mask == old(transpositions).mask,
                i <= scored_actions@.len(),
                scored_actions@.len() > 0,
                1 <= depth,
                LOSS <= alpha <= WIN,
                LOSS <= beta <= WIN,
                LOSS <= best_score <= WIN,
                generates(pre, best_action),
                forall|j: int|
                    0 <= j < scored_actions@.len() ==> generates(
                        pre,
                        (#[trigger] scored_actions@[j]).action,
                    ),
            decreases scored_actions@.len() - i,
        {
            let action = scored_actions[i].action;
            let ghost cur = *bitboard;
            proof {
                assert(generates(cur, action));
                lemma_generates_ok(cur, action);
            }
            let delta = bitboard.delta(action);
            let hash = bitboard.make(&delta);

            // Rudimentary late-move reduction: shallow nodes search fully,
            // low-scored siblings search at a reduced depth.
            let next_depth: u8 = if depth <= 2 {
                depth - 1
            } else {
                let sc = scored_actions[i].score;
                if sc <= 100 {
                    let d = depth / 3;
                    if d < 2 {
                        2
                    } else {
                        d
                    }
                } else if sc <= 300 {
                    let d = depth / 2;
                    if d < 2 {
                        2
                    } else {
                        d
                    }
                } else {
                    depth - 1
                }
            };

            let stats = Search::negamax_score(
                bitboard,
                transpositions,
                next_depth,
                -beta,
                -alpha,
            );
            let score = -stats.score;
            nodes = nodes.saturating_add(stats.nodes);
            trans = trans.saturating_add(stats.trans);
            bitboard.undo(&delta, hash);
            proof {
                lemma_make_undo(cur, delta);
                assert(same_board(*bitboard, pre));
            }

            if best_score < score {
                best_score = score;
                best_action = action;
            }

            if alpha < score {
                alpha = score;
            }
            i = i + 1;
        }

        if best_score <= original_alpha {
            transpositions.store(bitboard.hash, best_score, best_action, depth, Bound::Upper);
        } else if best_score >= beta {
            transpositions.store(bitboard.hash, best_score, best_action, depth, Bound::Lower);
        } else {
            transpositions.store(bitboard.hash, best_score, best_action, depth, Bound::Exact);
        }

        NegamaxStats { score: best_score, nodes, trans }
    }
}

/// Search namespace.
pub struct Search {}

} // verus!
