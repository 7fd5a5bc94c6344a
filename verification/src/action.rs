//! Actions of the search engine and their generation.
//!
//! An action is a source square, a target square and a unit count; a count
//! of zero denotes an explosion at the source. `Action::generate` enumerates
//! exactly the legal directional moves and the value-positive explosions of
//! a bitboard and orders them by a heuristic score.

use crate::bitboard::{lemma_height_is, spec_height, Bitboard};
use crate::bitwise::{bit, lemma_bit_ops, spec_adj, Bitwise};
use crate::constants::{moves_lookup, orth_reach, WHITE};
use vstd::prelude::*;

verus! {

use vstd::multiset::Multiset;

broadcast use vstd::seq_lib::group_to_multiset_ensures, vstd::multiset::group_multiset_axioms;

/// One move: move `robots` units from `source` to `target`, or, when
/// `robots` is zero, explode at `source`.
#[derive(Clone, Copy, Debug, Default, PartialEq, Eq, Structural)]
pub struct Action {
    pub source: u8,
    pub target: u8,
    pub robots: u8,
}

/// An action together with its move-ordering score.
#[derive(Clone, Copy, Debug, Default, PartialEq, Eq, Structural)]
pub struct ScoredAction {
    pub action: Action,
    pub score: u16,
}

/// Whether a directional move is legal on the bitboard: the source holds a
/// stack of the side to move, at least as high as the unit count; the
/// target is orthogonally within the stack's reach, holds no opponent bot,
/// and ends below height 13.
pub open spec fn move_legal(b: Bitboard, a: Action) -> bool {
    &&& 1 <= a.robots
    &&& a.source < 64
    &&& a.target < 64
    &&& bit(b.board@[b.turn as int], a.source as u64)
    &&& a.robots <= spec_height(b.board@, a.source as u64)
    &&& orth_reach(a.source as int, a.target as int, spec_height(b.board@, a.source as u64))
    &&& !bit(b.board@[b.opponent as int], a.target as u64)
    &&& spec_height(b.board@, a.target as u64) + a.robots <= 12
}

/// Whether an explosion is emitted: the source holds a bot of the side to
/// move that touches an opponent bot, so the explosion can gain value.
pub open spec fn boom_emitted(b: Bitboard, a: Action) -> bool {
    &&& a.robots == 0
    &&& a.target == 0
    &&& a.source < 64
    &&& bit(b.board@[b.turn as int], a.source as u64)
    &&& bit(spec_adj(b.board@[b.opponent as int]), a.source as u64)
}

/// Whether the generator emits this action.
pub open spec fn generates(b: Bitboard, a: Action) -> bool {
    move_legal(b, a) || boom_emitted(b, a)
}

/// The stack height at the action's source.
pub open spec fn src_height(b: Bitboard, a: Action) -> int {
    spec_height(b.board@, a.source as u64)
}

/// The directional move-ordering bonus, relative to the side to move:
/// forward moves earn 15 per row, sideways moves 5 per square, backward
/// moves nothing.
pub open spec fn spec_dir_bonus(b: Bitboard, a: Action) -> int {
    if a.source < a.target {
        if a.target - a.source <= 7 {
            5 * (a.target - a.source)
        } else if b.turn == WHITE {
            15 * ((a.target - a.source) / 8)
        } else {
            0
        }
    } else {
        if a.source - a.target <= 7 {
            5 * (a.source - a.target)
        } else if b.turn == WHITE {
            0
        } else {
            15 * ((a.source - a.target) / 8)
        }
    }
}

/// The stacking bonus base: the new stack height when the action stacks
/// onto an own bot, and zero otherwise.
pub open spec fn spec_stacking(b: Bitboard, a: Action) -> int {
    if a.robots != 0 && a.target < 64 && bit(b.board@[b.turn as int], a.target as u64) {
        spec_height(b.board@, a.target as u64) + a.robots
    } else {
        0
    }
}

/// Whether the action's target touches an opponent bot.
pub open spec fn spec_checking(b: Bitboard, a: Action) -> bool {
    a.target < 64 && bit(spec_adj(b.board@[b.opponent as int]), a.target as u64)
}

/// The full move-ordering score of an action.
pub open spec fn spec_score(b: Bitboard, a: Action, pv: Option<Action>) -> int {
    spec_dir_bonus(b, a) + 10 * spec_stacking(b, a) + (if a.robots == 0 {
        500int
    } else {
        0int
    }) + (if spec_checking(b, a) {
        300int
    } else {
        0int
    }) + (if pv == Some(a) {
        1000int
    } else {
        0int
    })
}

/// Whether an action occurs in a scored list.
pub open spec fn action_in(s: Seq<ScoredAction>, a: Action) -> bool {
    exists|i: int| 0 <= i < s.len() && (#[trigger] s[i]).action == a
}

/// Whether no action occurs twice in a scored list.
pub open spec fn distinct_actions(s: Seq<ScoredAction>) -> bool {
    forall|i: int, j: int|
        0 <= i < j < s.len() ==> (#[trigger] s[i]).action != (#[trigger] s[j]).action
}

/// Sortedness by descending score.
pub open spec fn sorted_desc(s: Seq<ScoredAction>) -> bool {
    forall|i: int, j: int| 0 <= i <= j < s.len() ==> (#[trigger] s[i]).score >= (#[trigger] s[j]).score
}

/// Every element of a sequence with the same multiset as another appears in
/// that other sequence.
pub proof fn lemma_multiset_elements(s1: Seq<ScoredAction>, s2: Seq<ScoredAction>)
    requires
        s1.to_multiset() == s2.to_multiset(),
    ensures
        forall|i: int| 0 <= i < s2.len() ==> s1.contains(#[trigger] s2[i]),
{
    assert forall|i: int| 0 <= i < s2.len() implies s1.contains(#[trigger] s2[i]) by {
        assert(s2.to_multiset().count(s2[i]) > 0) by {
            assert(s2.contains(s2[i]));
        }
    }
}

/// An element standing at two positions counts at least twice.
pub proof fn lemma_dup_count(s: Seq<ScoredAction>, i: int, j: int)
    requires
        0 <= i < j < s.len(),
        s[i] == s[j],
    ensures
        s.to_multiset().count(s[i]) >= 2,
{
    let s2 = s.remove(i);
    assert(s2[j - 1] == s[j]);
    assert(s2.contains(s2[j - 1]));
    assert(s2.to_multiset().count(s[i]) > 0);
    assert(s2.to_multiset() == s.to_multiset().remove(s[i]));
    assert(s.to_multiset().remove(s[i]) == s.to_multiset().sub(
        Multiset::<ScoredAction>::singleton(s[i]),
    ));
    assert(Multiset::<ScoredAction>::singleton(s[i]).count(s[i]) == 1);
    assert(s.to_multiset().sub(Multiset::<ScoredAction>::singleton(s[i])).count(s[i]) >= 1);
}

/// A value counted at least twice stands at two positions.
pub proof fn lemma_count_two(s: Seq<ScoredAction>, e: ScoredAction)
    requires
        s.to_multiset().count(e) >= 2,
    ensures
        exists|i: int, j: int|
            #![trigger s[i], s[j]]
            0 <= i < j < s.len() && s[i] == e && s[j] == e,
{
    assert(s.to_multiset().count(e) > 0);
    assert(s.contains(e));
    let i = choose|i: int| 0 <= i < s.len() && s[i] == e;
    let s2 = s.remove(i);
    assert(s2.to_multiset() == s.to_multiset().remove(e));
    assert(s.to_multiset().remove(e) == s.to_multiset().sub(
        Multiset::<ScoredAction>::singleton(e),
    ));
    assert(Multiset::<ScoredAction>::singleton(e).count(e) == 1);
    assert(s2.to_multiset().count(e) >= 1);
    assert(s2.contains(e));
    let k = choose|k: int| 0 <= k < s2.len() && s2[k] == e;
    if k < i {
        assert(s[k] == e);
        assert(0 <= k < i < s.len() && s[k] == e && s[i] == e);
    } else {
        assert(s[k + 1] == e);
        assert(0 <= i < k + 1 < s.len() && s[i] == e && s[k + 1] == e);
    }
}

/// Anything the generator emits can be turned into a delta and applied:
/// the preconditions of `Bitboard::delta` follow from emission.
pub proof fn lemma_generates_ok(b: Bitboard, a: Action)
    requires
        b.wf(),
        generates(b, a),
    ensures
        b.action_ok(a),
{
    lemma_bit_ops();
    if a.robots != 0 {
        assert(move_legal(b, a));
        if spec_height(b.board@, a.target as u64) != 0 {
            assert(crate::bitboard::occupied(b.board@, a.target as u64));
            assert(bit(b.board@[b.turn as int], a.target as u64));
        }
    }
}

impl Action {
    /// Whether the action's target square touches an opponent bot.
    fn checking(bitboard: &Bitboard, action: &Action) -> (r: bool)
        requires
            bitboard.wf(),
            action.target < 64,
        ensures
            r == spec_checking(*bitboard, *action),
    {
        proof {
            lemma_bit_ops();
        }
        // All opponent robots.
        let opps = bitboard.board[bitboard.opponent];
        // All squares that put an opponent robot in reach.
        let checks = Bitwise::adj(opps);
        // Whether the target lands on one of them.
        let target = Bitwise::pos(action.target);
        checks & target != 0
    }

    /// Whether the action is an explosion.
    fn booming(action: &Action) -> (r: bool)
        ensures
            r == (action.robots == 0),
    {
        action.robots == 0
    }

    /// The new stack height when stacking onto an own bot, zero otherwise.
    fn stacking(bitboard: &Bitboard, action: &Action) -> (r: u16)
        requires
            bitboard.wf(),
            action.target < 64,
        ensures
            r == spec_stacking(*bitboard, *action),
            r <= 12 + 255,
    {
        proof {
            lemma_bit_ops();
        }
        let bots = bitboard.board[bitboard.turn];
        let target = Bitwise::pos(action.target);
        if action.robots != 0 && bots & target != 0 {
            return bitboard.height(target) as u16 + action.robots as u16;
        }
        0
    }

    /// The rows an action moves, toward either side.
    fn distance_forward(action: &Action) -> (r: u16)
        ensures
            r == (if action.source < action.target {
                ((action.target - action.source) as int) / 8
            } else {
                ((action.source - action.target) as int) / 8
            }),
    {
        if action.source < action.target {
            (action.target - action.source) as u16 / 8
        } else {
            (action.source - action.target) as u16 / 8
        }
    }

    /// The squares an action moves along its row.
    fn distance_sideways(action: &Action) -> (r: u16)
        ensures
            r == (if action.source < action.target {
                (action.target - action.source) as int
            } else {
                (action.source - action.target) as int
            }),
    {
        if action.source < action.target {
            (action.target - action.source) as u16
        } else {
            (action.source - action.target) as u16
        }
    }

    /// The directional move-ordering bonus of the action.
    fn direction_bonus(bitboard: &Bitboard, action: &Action) -> (r: u16)
        requires
            bitboard.wf(),
        ensures
            r == spec_dir_bonus(*bitboard, *action),
            r <= 15 * 63,
    {
        if action.source < action.target {
            if action.target - action.source <= 7 {
                5 * Action::distance_sideways(action)
            } else if bitboard.turn == WHITE {
                15 * Action::distance_forward(action)
            } else {
                0
            }
        } else {
            if action.source - action.target <= 7 {
                5 * Action::distance_sideways(action)
            } else if bitboard.turn == WHITE {
                0
            } else {
                15 * Action::distance_forward(action)
            }
        }
    }

    /// Generates every legal directional move and every value-positive
    /// explosion, each exactly once, scored and ordered by descending
    /// heuristic score.
    pub fn generate(bitboard: &Bitboard, pv_move: Option<Action>) -> (r: Vec<ScoredAction>)
        requires
            bitboard.wf(),
        ensures
            forall|i: int| 0 <= i < r@.len() ==> generates(*bitboard, (#[trigger] r@[i]).action),
            forall|a: Action|
                #[trigger] generates(*bitboard, a) ==> exists|i: int|
                    0 <= i < r@.len() && r@[i].action == a,
            forall|i: int|
                0 <= i < r@.len() ==> (#[trigger] r@[i]).score == spec_score(
                    *bitboard,
                    r@[i].action,
                    pv_move,
                ),
            sorted_desc(r@),
            distinct_actions(r@),
    {
        let mut actions: Vec<ScoredAction> = Vec::new();

        Action::generate_booms(bitboard, &mut actions);
        proof {
            assert forall|a: Action|
                #[trigger] move_legal(*bitboard, a) && src_height(*bitboard, a)
                    > 12 implies false by {
                crate::bitboard::lemma_height_bit(bitboard.board@, a.source as u64);
            }
        }
        for hh in 0..12usize
            invariant
                bitboard.wf(),
                forall|i: int|
                    0 <= i < actions@.len() ==> generates(*bitboard, (#[trigger] actions@[i]).action),
                forall|i: int| 0 <= i < actions@.len() ==> (#[trigger] actions@[i]).score == 0,
                forall|a: Action|
                    #[trigger] boom_emitted(*bitboard, a) ==> exists|i: int|
                        0 <= i < actions@.len() && actions@[i].action == a,
                forall|a: Action|
                    #[trigger] move_legal(*bitboard, a) && src_height(*bitboard, a) > 12 - hh
                        ==> exists|i: int| 0 <= i < actions@.len() && actions@[i].action == a,
                forall|i: int|
                    0 <= i < actions@.len() ==> ((#[trigger] actions@[i]).action.robots == 0
                        || src_height(*bitboard, actions@[i].action) > 12 - hh),
                distinct_actions(actions@),
        {
            let height = 12 - hh;
            let ghost before_h = actions@;
            Action::generate_for_height(bitboard, height, &mut actions);
            proof {
                assert forall|a: Action| #[trigger] boom_emitted(*bitboard, a) implies exists|
                    i: int,
                |
                    0 <= i < actions@.len() && actions@[i].action == a by {
                    let i = choose|i: int| 0 <= i < before_h.len() && before_h[i].action == a;
                    assert(actions@[i].action == a);
                }
                assert forall|a: Action|
                    #[trigger] move_legal(*bitboard, a) && src_height(*bitboard, a) > 12 - (hh
                        + 1) implies exists|i: int|
                    0 <= i < actions@.len() && actions@[i].action == a by {
                    if src_height(*bitboard, a) > 12 - hh {
                        let i = choose|i: int| 0 <= i < before_h.len() && before_h[i].action == a;
                        assert(actions@[i].action == a);
                    } else {
                        assert(src_height(*bitboard, a) == height);
                    }
                }
                assert forall|i: int|
                    0 <= i < actions@.len() implies ((#[trigger] actions@[i]).action.robots == 0
                        || src_height(*bitboard, actions@[i].action) > 12 - (hh + 1)) by {
                    if i < before_h.len() {
                        assert(actions@[i] == before_h[i]);
                    } else {
                        assert(src_height(*bitboard, actions@[i].action) == height);
                    }
                }
            }
        }
        proof {
            assert forall|a: Action| #[trigger] generates(*bitboard, a) implies exists|i: int|
                0 <= i < actions@.len() && actions@[i].action == a by {
                if move_legal(*bitboard, a) {
                    assert(src_height(*bitboard, a) >= a.robots >= 1);
                }
            }
        }

        let ghost pre_sort = actions@;
        Action::sort(bitboard, &mut actions, pv_move);
        proof {
            assert forall|a: Action| #[trigger] generates(*bitboard, a) implies exists|i: int|
                0 <= i < actions@.len() && actions@[i].action == a by {
                let i = choose|i: int| 0 <= i < pre_sort.len() && pre_sort[i].action == a;
                assert(action_in(actions@, pre_sort[i].action));
            }
        }

        actions
    }

    /// Scores the generated actions and sorts them by descending score.
    fn sort(bitboard: &Bitboard, actions: &mut Vec<ScoredAction>, pv_move: Option<Action>)
        requires
            bitboard.wf(),
            forall|i: int|
                0 <= i < old(actions)@.len() ==> generates(
                    *bitboard,
                    (#[trigger] old(actions)@[i]).action,
                ),
            forall|i: int| 0 <= i < old(actions)@.len() ==> (#[trigger] old(actions)@[i]).score == 0,
            distinct_actions(old(actions)@),
        ensures
            forall|i: int|
                0 <= i < final(actions)@.len() ==> generates(
                    *bitboard,
                    (#[trigger] final(actions)@[i]).action,
                ),
            forall|i: int|
                0 <= i < final(actions)@.len() ==> (#[trigger] final(actions)@[i]).score
                    == spec_score(*bitboard, final(actions)@[i].action, pv_move),
            forall|i: int|
                0 <= i < old(actions)@.len() ==> action_in(
                    final(actions)@,
                    (#[trigger] old(actions)@[i]).action,
                ),
            sorted_desc(final(actions)@),
            distinct_actions(final(actions)@),
    {
        let ghost unsorted = actions@;
        let n = actions.len();
        for i in 0..n
            invariant
                n == actions@.len(),
                n == unsorted.len(),
                bitboard.wf(),
                forall|j: int|
                    0 <= j < actions@.len() ==> generates(
                        *bitboard,
                        (#[trigger] actions@[j]).action,
                    ),
                forall|j: int|
                    0 <= j < actions@.len() ==> (#[trigger] actions@[j]).action
                        == unsorted[j].action,
                forall|j: int|
                    0 <= j < i ==> (#[trigger] actions@[j]).score == spec_score(
                        *bitboard,
                        actions@[j].action,
                        pv_move,
                    ),
        {
            let action = actions[i].action;
            proof {
                assert(generates(*bitboard, action));
                lemma_bit_ops();
                if move_legal(*bitboard, action) {
                    crate::bitboard::lemma_height_bit(bitboard.board@, action.source as u64);
                }
            }
            let mut score: u16 = Action::direction_bonus(bitboard, &action);
            score = score + 10 * Action::stacking(bitboard, &action);
            if Action::booming(&action) {
                score = score + 500;
            }
            if Action::checking(bitboard, &action) {
                score = score + 300;
            }
            if let Some(pv) = pv_move {
                if action == pv {
                    score = score + 1000;
                }
            }
            let scored = ScoredAction { action, score };
            actions[i] = scored;
        }
        let ghost scored_seq = actions@;
        Action::sort_by_score(actions);
        proof {
            lemma_multiset_elements(scored_seq, actions@);
            lemma_multiset_elements(actions@, scored_seq);
            assert forall|j: int| 0 <= j < actions@.len() implies generates(
                *bitboard,
                (#[trigger] actions@[j]).action,
            ) && actions@[j].score == spec_score(*bitboard, actions@[j].action, pv_move) by {
                assert(scored_seq.contains(actions@[j]));
                let i = choose|i: int| 0 <= i < scored_seq.len() && scored_seq[i] == actions@[j];
            }
            assert forall|i: int| 0 <= i < old(actions)@.len() implies action_in(
                actions@,
                (#[trigger] old(actions)@[i]).action,
            ) by {
                assert(actions@.contains(scored_seq[i]));
                let j = choose|j: int| 0 <= j < actions@.len() && actions@[j] == scored_seq[i];
                assert(actions@[j].action == unsorted[i].action);
            }
            assert(distinct_actions(scored_seq)) by {
                assert forall|i: int, j: int|
                    0 <= i < j < scored_seq.len() implies (#[trigger] scored_seq[i]).action != (
                    #[trigger] scored_seq[j]).action by {
                    assert(scored_seq[i].action == unsorted[i].action);
                    assert(scored_seq[j].action == unsorted[j].action);
                }
            }
            assert forall|i: int, j: int|
                0 <= i < j < actions@.len() implies (#[trigger] actions@[i]).action != (
                #[trigger] actions@[j]).action by {
                if actions@[i].action == actions@[j].action {
                    assert(scored_seq.contains(actions@[i]));
                    let k1 = choose|k: int|
                        0 <= k < scored_seq.len() && scored_seq[k] == actions@[i];
                    assert(scored_seq.contains(actions@[j]));
                    let k2 = choose|k: int|
                        0 <= k < scored_seq.len() && scored_seq[k] == actions@[j];
                    assert(k1 == k2);
                    assert(actions@[i] == actions@[j]);
                    lemma_dup_count(actions@, i, j);
                    assert(scored_seq.to_multiset().count(actions@[i]) >= 2);
                    lemma_count_two(scored_seq, actions@[i]);
                    let (i2, j2) = choose|i2: int, j2: int|
                        0 <= i2 < j2 < scored_seq.len() && scored_seq[i2] == actions@[i]
                            && scored_seq[j2] == actions@[i];
                    assert(scored_seq[i2].action == scored_seq[j2].action);
                    assert(false);
                }
            }
        }
    }

    /// Sorts a scored action list by descending score with selection sort,
    /// preserving the multiset of elements.
    fn sort_by_score(actions: &mut Vec<ScoredAction>)
        ensures
            final(actions)@.to_multiset() == old(actions)@.to_multiset(),
            sorted_desc(final(actions)@),
    {
        let ghost orig = actions@;
        let mut rest: Vec<ScoredAction> = Vec::new();
        core::mem::swap(actions, &mut rest);
        proof {
            assert(actions@.to_multiset().add(rest@.to_multiset()) =~= orig.to_multiset());
        }
        while rest.len() > 0
            invariant
                actions@.to_multiset().add(rest@.to_multiset()) == orig.to_multiset(),
                sorted_desc(actions@),
                forall|i: int, j: int|
                    0 <= i < actions@.len() && 0 <= j < rest@.len() ==> (#[trigger] actions@[i]).score
                        >= (#[trigger] rest@[j]).score,
            decreases rest@.len(),
        {
            // Find the first maximal score among the remaining actions.
            let mut mi: usize = 0;
            for k in 1..rest.len()
                invariant
                    rest@.len() > 0,
                    mi < rest@.len(),
                    forall|j: int|
                        0 <= j < k ==> (#[trigger] rest@[j]).score <= rest@[mi as int].score,
            {
                if rest[k].score > rest[mi].score {
                    mi = k;
                }
            }
            let x = rest.remove(mi);
            let ghost rest_before = rest@.insert(mi as int, x);
            actions.push(x);
            proof {
                assert(rest_before.remove(mi as int) =~= rest@);
                assert(rest_before.to_multiset().remove(x) =~= rest@.to_multiset());
                assert(actions@.to_multiset().add(rest@.to_multiset()) =~= orig.to_multiset());
            }
        }
        proof {
            assert(actions@.to_multiset().add(rest@.to_multiset()) =~= actions@.to_multiset());
        }
    }

    /// Emits every value-positive explosion: one for each own bot touching
    /// an opponent bot.
    fn generate_booms(bitboard: &Bitboard, generated: &mut Vec<ScoredAction>)
        requires
            bitboard.wf(),
            old(generated)@.len() == 0,
        ensures
            forall|i: int|
                0 <= i < final(generated)@.len() ==> boom_emitted(
                    *bitboard,
                    (#[trigger] final(generated)@[i]).action,
                ) && final(generated)@[i].score == 0,
            forall|a: Action|
                #[trigger] boom_emitted(*bitboard, a) ==> exists|i: int|
                    0 <= i < final(generated)@.len() && final(generated)@[i].action == a,
            distinct_actions(final(generated)@),
    {
        proof {
            lemma_bit_ops();
        }
        let bots = bitboard.board[bitboard.turn];
        let opps = bitboard.board[bitboard.opponent];

        // Sources whose explosion reaches at least one enemy robot.
        let sources = bots & Bitwise::adj(opps);

        for s in 0..64u64
            invariant
                bitboard.wf(),
                sources == bitboard.board@[bitboard.turn as int] & spec_adj(
                    bitboard.board@[bitboard.opponent as int],
                ),
                forall|i: int|
                    0 <= i < generated@.len() ==> boom_emitted(
                        *bitboard,
                        (#[trigger] generated@[i]).action,
                    ) && generated@[i].score == 0,
                forall|a: Action|
                    #[trigger] boom_emitted(*bitboard, a) && a.source < s ==> exists|i: int|
                        0 <= i < generated@.len() && generated@[i].action == a,
                forall|i: int|
                    0 <= i < generated@.len() ==> (#[trigger] generated@[i]).action.source < s,
                distinct_actions(generated@),
        {
            proof {
                lemma_bit_ops();
            }
            if (sources >> s) & 1u64 == 1u64 {
                proof {
                    assert(bit(sources, s));
                    assert(bit(
                        bitboard.board@[bitboard.turn as int] & spec_adj(
                            bitboard.board@[bitboard.opponent as int],
                        ),
                        s,
                    ));
                    assert(bit(bitboard.board@[bitboard.turn as int], s) && bit(
                        spec_adj(bitboard.board@[bitboard.opponent as int]),
                        s,
                    ));
                }
                let ghost before = generated@;
                generated.push(
                    ScoredAction {
                        score: 0,
                        action: Action { source: s as u8, target: 0, robots: 0 },
                    },
                );
                proof {
                    assert(generated@[before.len() as int].action == (Action {
                        source: s as u8,
                        target: 0,
                        robots: 0,
                    }));
                    assert(boom_emitted(*bitboard, generated@[before.len() as int].action));
                    assert forall|a: Action|
                        #[trigger] boom_emitted(*bitboard, a) && a.source < s + 1 implies exists|
                        i: int,
                    |
                        0 <= i < generated@.len() && generated@[i].action == a by {
                        if a.source < s {
                            let i = choose|i: int|
                                0 <= i < before.len() && before[i].action == a;
                            assert(generated@[i].action == a);
                        } else {
                            assert(a == generated@[before.len() as int].action);
                        }
                    }
                    assert forall|i2: int, j2: int|
                        0 <= i2 < j2 < generated@.len() implies (#[trigger] generated@[i2]).action
                            != (#[trigger] generated@[j2]).action by {
                        if j2 == before.len() {
                            assert(generated@[i2].action.source < s);
                        }
                    }
                }
            } else {
                proof {
                    assert forall|a: Action|
                        #[trigger] boom_emitted(*bitboard, a) && a.source == s implies false by {
                        assert(bit(
                            bitboard.board@[bitboard.turn as int] & spec_adj(
                                bitboard.board@[bitboard.opponent as int],
                            ),
                            s,
                        ));
                        assert(bit(sources, s));
                    }
                }
            }
        }
    }

    /// Emits every legal move of every stack of the given height of the
    /// side to move.
    fn generate_for_height(bitboard: &Bitboard, height: usize, generated: &mut Vec<ScoredAction>)
        requires
            bitboard.wf(),
            1 <= height <= 12,
            distinct_actions(old(generated)@),
            forall|i: int|
                0 <= i < old(generated)@.len() ==> ((#[trigger] old(generated)@[i]).action.robots
                    == 0 || src_height(*bitboard, old(generated)@[i].action) != height),
        ensures
            forall|i: int|
                0 <= i < old(generated)@.len() ==> (#[trigger] final(generated)@[i])
                    == old(generated)@[i],
            final(generated)@.len() >= old(generated)@.len(),
            forall|i: int|
                old(generated)@.len() <= i < final(generated)@.len() ==> move_legal(
                    *bitboard,
                    (#[trigger] final(generated)@[i]).action,
                ) && final(generated)@[i].score == 0 && src_height(
                    *bitboard,
                    final(generated)@[i].action,
                ) == height,
            forall|a: Action|
                #[trigger] move_legal(*bitboard, a) && src_height(*bitboard, a) == height
                    ==> exists|i: int|
                    0 <= i < final(generated)@.len() && final(generated)@[i].action == a,
            distinct_actions(final(generated)@),
    {
        proof {
            lemma_bit_ops();
        }
        let ghost base = generated@;
        // The side to move's robots of exactly this height.
        let bots = bitboard.board[height] & bitboard.board[bitboard.turn];

        for s in 0..64u64
            invariant
                bitboard.wf(),
                1 <= height <= 12,
                bots == bitboard.board@[height as int] & bitboard.board@[bitboard.turn as int],
                generated@.len() >= base.len(),
                forall|i: int| 0 <= i < base.len() ==> (#[trigger] generated@[i]) == base[i],
                forall|i: int|
                    0 <= i < base.len() ==> ((#[trigger] generated@[i]).action.robots == 0
                        || src_height(*bitboard, generated@[i].action) != height),
                forall|i: int|
                    base.len() <= i < generated@.len() ==> move_legal(
                        *bitboard,
                        (#[trigger] generated@[i]).action,
                    ) && generated@[i].score == 0 && src_height(*bitboard, generated@[i].action)
                        == height && generated@[i].action.source < s,
                forall|a: Action|
                    #[trigger] move_legal(*bitboard, a) && src_height(*bitboard, a) == height
                        && a.source < s ==> exists|i: int|
                        0 <= i < generated@.len() && generated@[i].action == a,
                distinct_actions(generated@),
        {
            proof {
                lemma_bit_ops();
            }
            if (bots >> s) & 1u64 == 1u64 {
                proof {
                    assert(bit(bots, s));
                    assert(bit(
                        bitboard.board@[height as int] & bitboard.board@[bitboard.turn as int],
                        s,
                    ));
                    assert(bit(bitboard.board@[height as int], s) && bit(
                        bitboard.board@[bitboard.turn as int],
                        s,
                    ));
                    lemma_height_is(bitboard.board@, s, height as int);
                }
                // All target squares of this stack that hold no opponent.
                let reach = moves_lookup(height, s as usize);
                let targets = reach & !bitboard.board[bitboard.opponent];

                for t in 0..64u64
                    invariant
                        bitboard.wf(),
                        1 <= height <= 12,
                        s < 64,
                        bit(bitboard.board@[bitboard.turn as int], s),
                        spec_height(bitboard.board@, s) == height,
                        forall|j: u64|
                            j < 64 ==> (bit(reach, j) == orth_reach(
                                s as int,
                                j as int,
                                height as int,
                            )),
                        targets == reach & !bitboard.board@[bitboard.opponent as int],
                        generated@.len() >= base.len(),
                        forall|i: int| 0 <= i < base.len() ==> (#[trigger] generated@[i]) == base[i],
                        forall|i: int|
                            0 <= i < base.len() ==> ((#[trigger] generated@[i]).action.robots == 0
                                || src_height(*bitboard, generated@[i].action) != height),
                        forall|i: int|
                            base.len() <= i < generated@.len() ==> move_legal(
                                *bitboard,
                                (#[trigger] generated@[i]).action,
                            ) && generated@[i].score == 0 && src_height(
                                *bitboard,
                                generated@[i].action,
                            ) == height && (generated@[i].action.source < s || (
                            generated@[i].action.source == s && generated@[i].action.target < t)),
                        forall|a: Action|
                            #[trigger] move_legal(*bitboard, a) && src_height(*bitboard, a)
                                == height && (a.source < s || (a.source == s && a.target < t))
                                ==> exists|i: int|
                                0 <= i < generated@.len() && generated@[i].action == a,
                        distinct_actions(generated@),
                    {
                    proof {
                        lemma_bit_ops();
                    }
                    if (targets >> t) & 1u64 == 1u64 {
                        proof {
                            assert(bit(targets, t));
                            assert(bit(
                                reach & !bitboard.board@[bitboard.opponent as int],
                                t,
                            ));
                            assert(bit(reach, t) && !bit(
                                bitboard.board@[bitboard.opponent as int],
                                t,
                            ));
                            crate::bitwise::lemma_tz_shift(t);
                        }
                        // The target's current height caps how many units
                        // may land on it.
                        let target_height = bitboard.height(1u64 << t) as usize;

                        for moved in 1..(height + 1)
                            invariant
                                bitboard.wf(),
                                1 <= height <= 12,
                                s < 64,
                                t < 64,
                                bit(bitboard.board@[bitboard.turn as int], s),
                                spec_height(bitboard.board@, s) == height,
                                orth_reach(s as int, t as int, height as int),
                                !bit(bitboard.board@[bitboard.opponent as int], t),
                                target_height == spec_height(bitboard.board@, t),
                                target_height <= 12,
                                generated@.len() >= base.len(),
                                forall|i: int|
                                    0 <= i < base.len() ==> (#[trigger] generated@[i]) == base[i],
                                forall|i: int|
                                    0 <= i < base.len() ==> ((#[trigger] generated@[i]).action.robots
                                        == 0 || src_height(*bitboard, generated@[i].action)
                                        != height),
                                forall|i: int|
                                    base.len() <= i < generated@.len() ==> move_legal(
                                        *bitboard,
                                        (#[trigger] generated@[i]).action,
                                    ) && generated@[i].score == 0 && src_height(
                                        *bitboard,
                                        generated@[i].action,
                                    ) == height && (generated@[i].action.source < s || (
                                    generated@[i].action.source == s
                                        && generated@[i].action.target < t) || (
                                    generated@[i].action.source == s
                                        && generated@[i].action.target == t
                                        && generated@[i].action.robots < moved)),
                                forall|a: Action|
                                    #[trigger] move_legal(*bitboard, a) && src_height(
                                        *bitboard,
                                        a,
                                    ) == height && (a.source < s || (a.source == s && a.target < t)
                                        || (a.source == s && a.target == t && a.robots < moved))
                                        ==> exists|i: int|
                                        0 <= i < generated@.len() && generated@[i].action == a,
                                distinct_actions(generated@),
                            {
                            let ghost iter_before = generated@;
                            if target_height + moved <= 12 {
                                let ghost before = generated@;
                                generated.push(
                                    ScoredAction {
                                        score: 0,
                                        action: Action {
                                            source: s as u8,
                                            target: t as u8,
                                            robots: moved as u8,
                                        },
                                    },
                                );
                                proof {
                                    assert(generated@[before.len() as int].action == (Action {
                                        source: s as u8,
                                        target: t as u8,
                                        robots: moved as u8,
                                    }));
                                    assert(move_legal(
                                        *bitboard,
                                        generated@[before.len() as int].action,
                                    ));
                                    assert forall|a: Action|
                                        #[trigger] move_legal(*bitboard, a) && src_height(
                                            *bitboard,
                                            a,
                                        ) == height && a.source == s && a.target == t && a.robots
                                            == moved implies exists|i: int|
                                        0 <= i < generated@.len() && generated@[i].action == a by {
                                        assert(a == generated@[before.len() as int].action);
                                    }
                                    assert(src_height(
                                        *bitboard,
                                        generated@[before.len() as int].action,
                                    ) == height);
                                    assert forall|i2: int, j2: int|
                                        0 <= i2 < j2 < generated@.len() implies (
                                        #[trigger] generated@[i2]).action != (
                                        #[trigger] generated@[j2]).action by {
                                        if j2 == before.len() && i2 >= base.len() {
                                            assert(generated@[i2].action.source < s || (
                                            generated@[i2].action.source == s
                                                && generated@[i2].action.target < t) || (
                                            generated@[i2].action.source == s
                                                && generated@[i2].action.target == t
                                                && generated@[i2].action.robots < moved));
                                        }
                                        if j2 == before.len() && i2 < base.len() {
                                            assert(generated@[i2].action.robots == 0 || src_height(
                                                *bitboard,
                                                generated@[i2].action,
                                            ) != height);
                                        }
                                    }
                                }
                            } else {
                                proof {
                                    assert forall|a: Action|
                                        #[trigger] move_legal(*bitboard, a) && src_height(
                                            *bitboard,
                                            a,
                                        ) == height && a.source == s && a.target == t && a.robots
                                            == moved implies false by {
                                        assert(a.target as u64 == t);
                                        assert(spec_height(bitboard.board@, a.target as u64)
                                            + a.robots > 12);
                                    }
                                }
                            }
                            proof {
                                assert forall|a: Action|
                                    #[trigger] move_legal(*bitboard, a) && src_height(
                                        *bitboard,
                                        a,
                                    ) == height && (a.source < s || (a.source == s && a.target < t)
                                        || (a.source == s && a.target == t && a.robots < moved
                                        + 1)) implies exists|i: int|
                                    0 <= i < generated@.len() && generated@[i].action == a by {
                                    if a.source < s || (a.source == s && a.target < t) || (a.source
                                        == s && a.target == t && a.robots < moved) {
                                        let i = choose|i: int|
                                            0 <= i < iter_before.len() && iter_before[i].action
                                                == a;
                                        assert(generated@[i].action == a);
                                    }
                                }
                            }
                        }
                    } else {
                        proof {
                            assert forall|a: Action|
                                #[trigger] move_legal(*bitboard, a) && src_height(*bitboard, a)
                                    == height && a.source == s && a.target == t implies false by {
                                assert(bit(reach, t));
                                assert(bit(targets, t));
                            }
                        }
                    }
                }
            } else {
                proof {
                    assert forall|a: Action|
                        #[trigger] move_legal(*bitboard, a) && src_height(*bitboard, a) == height
                            && a.source == s implies false by {
                        crate::bitboard::lemma_height_bit(bitboard.board@, s);
                        assert(bit(bitboard.board@[height as int], s));
                        assert(bit(bots, s));
                    }
                }
            }
        }
    }
}

} // verus!
