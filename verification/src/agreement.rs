//! Move-legality agreement between the two board models.
//!
//! The slot-map `game::GameState` and the bitboard move generator must
//! decide legality identically: on corresponding states, an action is valid
//! in the slot model exactly when the generator emits it as a directional
//! move, and every explosion the generator emits is valid in the slot
//! model.

use crate::action::{boom_emitted, move_legal, Action};
use crate::bitboard::{occupied, spec_height, Bitboard};
use crate::bitwise::{bit, dist1, lemma_coords_sq, lemma_sq_coords, sq_x, sq_y};
use crate::constants::{orth_reach, BLACK, WHITE};
use crate::game::{GameState, Team};
use vstd::prelude::*;

verus! {

/// The bitboard frame index of a slot-model team.
pub open spec fn team_frame(t: Team) -> int {
    match t {
        Team::White => WHITE as int,
        Team::Black => BLACK as int,
    }
}

/// Whether a slot board and a bitboard describe the same position: the same
/// side to move, and each square empty in both or holding, in both, a stack
/// of the same team and height.
pub open spec fn corresponds(g: GameState, bb: Bitboard) -> bool {
    &&& g.wf()
    &&& bb.wf()
    &&& (g.turn == Team::White) == (bb.turn == WHITE)
    &&& forall|s: int|
        0 <= s < 64 ==> match #[trigger] g.board@[s] {
            Some(bot) => spec_height(bb.board@, s as u64) == bot.stack && bit(
                bb.board@[team_frame(bot.team)],
                s as u64,
            ),
            None => !occupied(bb.board@, s as u64),
        }
}

/// The engine form of a slot-model action.
pub open spec fn engine_action(a: crate::game::Action) -> Action {
    Action {
        source: a.a.spec_index() as u8,
        target: a.b.spec_index() as u8,
        robots: a.n,
    }
}

/// On corresponding boards, a square holds a bot of the side to move in the
/// slot model exactly when the mover's team frame holds its bit.
proof fn lemma_own_square(g: GameState, bb: Bitboard, s: int)
    requires
        corresponds(g, bb),
        0 <= s < 64,
    ensures
        bit(bb.board@[bb.turn as int], s as u64) == (g.board@[s] is Some && g.board@[s]->0.team
            == g.turn),
        bit(bb.board@[bb.opponent as int], s as u64) == (g.board@[s] is Some && g.board@[s]->0.team
            != g.turn),
    {
    crate::bitwise::lemma_bit_ops();
    match g.board@[s] {
        Some(bot) => {
            assert(bit(bb.board@[team_frame(bot.team)], s as u64));
            let other = if team_frame(bot.team) == WHITE as int {
                BLACK as int
            } else {
                WHITE as int
            };
            assert(!bit(bb.board@[other], s as u64)) by {
                if bit(bb.board@[other], s as u64) {
                    assert(bit(
                        bb.board@[WHITE as int] & bb.board@[BLACK as int],
                        s as u64,
                    ));
                    assert(!bit(0u64, s as u64));
                }
            }
        },
        None => {
            assert(!occupied(bb.board@, s as u64));
        },
    }
}

/// Move legality agreement: on corresponding boards, a directional action
/// is valid in the slot model exactly when the bitboard move generator
/// emits it. With `Action::generate`'s contract, the generator therefore
/// enumerates exactly the legal non-explosion moves.
pub proof fn lemma_move_agreement(g: GameState, bb: Bitboard, a: crate::game::Action)
    requires
        corresponds(g, bb),
        a.n >= 1,
        a.a.spec_valid(),
        a.b.spec_valid(),
    ensures
        g.spec_valid(a) == move_legal(bb, engine_action(a)),
{
    let si = a.a.spec_index();
    let ti = a.b.spec_index();
    lemma_coords_sq(a.a.x as int, a.a.y as int);
    lemma_coords_sq(a.b.x as int, a.b.y as int);
    assert(0 <= si < 64 && 0 <= ti < 64);
    lemma_own_square(g, bb, si);
    lemma_own_square(g, bb, ti);
    let ea = engine_action(a);
    assert(ea.source as int == si && ea.target as int == ti);
    let xd = dist1(a.a.x as int, a.b.x as int);
    let yd = dist1(a.a.y as int, a.b.y as int);
    assert(sq_x(si) == a.a.x && sq_y(si) == a.a.y);
    assert(sq_x(ti) == a.b.x && sq_y(ti) == a.b.y);
    if g.spec_valid(a) {
        let source = g.board@[si]->0;
        assert(bit(bb.board@[bb.turn as int], si as u64));
        assert(spec_height(bb.board@, si as u64) == source.stack);
        assert((xd == 0 || yd == 0) && 1 <= xd + yd <= source.stack);
        assert(orth_reach(si, ti, source.stack as int));
        match g.board@[ti] {
            Some(target) => {
                assert(target.team == g.turn);
                assert(!bit(bb.board@[bb.opponent as int], ti as u64));
                assert(spec_height(bb.board@, ti as u64) + a.n <= 12);
            },
            None => {
                assert(!occupied(bb.board@, ti as u64));
                crate::bitboard::lemma_empty_square(bb.board@, ti as u64);
                assert(spec_height(bb.board@, ti as u64) == 0);
            },
        }
        assert(move_legal(bb, ea));
    }
    if move_legal(bb, ea) {
        assert(bit(bb.board@[bb.turn as int], si as u64));
        let source = g.board@[si]->0;
        assert(source.team == g.turn);
        assert(spec_height(bb.board@, si as u64) == source.stack);
        assert(orth_reach(si, ti, source.stack as int));
        assert((xd == 0 || yd == 0) && 1 <= xd + yd <= source.stack);
        match g.board@[ti] {
            Some(target) => {
                assert(!bit(bb.board@[bb.opponent as int], ti as u64));
                assert(target.team == g.turn);
                assert(spec_height(bb.board@, ti as u64) == target.stack);
                assert(a.n + target.stack <= 12);
            },
            None => {},
        }
        assert(g.spec_valid(a));
    }
}

/// Explosion agreement: every explosion the generator emits is a valid
/// explosion of the slot model. (The generator deliberately emits only the
/// value-positive subset: explosions whose source touches an opponent.)
pub proof fn lemma_boom_agreement(g: GameState, bb: Bitboard, ea: Action)
    requires
        corresponds(g, bb),
        boom_emitted(bb, ea),
    ensures
        g.spec_valid(
            crate::game::Action {
                a: crate::game::Pos {
                    x: (ea.source as int % 8) as u8,
                    y: (ea.source as int / 8) as u8,
                },
                b: crate::game::Pos { x: 0, y: 0 },
                n: 0,
            },
        ),
{
    let si = ea.source as int;
    lemma_sq_coords(si);
    let a = crate::game::Action {
        a: crate::game::Pos { x: (si % 8) as u8, y: (si / 8) as u8 },
        b: crate::game::Pos { x: 0, y: 0 },
        n: 0,
    };
    assert(a.a.spec_index() == si);
    lemma_own_square(g, bb, si);
    assert(g.board@[si] is Some && g.board@[si]->0.team == g.turn);
}

} // verus!
