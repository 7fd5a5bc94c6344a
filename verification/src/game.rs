//! The authoritative slot-map game model.
//!
//! A 64-slot board maps each square to an optional bot (a team and a stack
//! height). `valid` decides an action's legality by the rules alone, `make`
//! applies it and toggles the turn. This model is deliberately simple; the
//! `agreement` module relates its rules to the bitboard move generator.

use crate::bitwise::{bit, lemma_bit_ops, spec_flood, Bitwise};
use vstd::prelude::*;

verus! {

/// One of the two sides.
#[derive(Copy, Clone, Debug, PartialEq, Eq, Structural)]
pub enum Team {
    White,
    Black,
}

impl Team {
    /// The other side.
    pub open spec fn spec_next(self) -> Team {
        match self {
            Team::White => Team::Black,
            Team::Black => Team::White,
        }
    }

    /// Returns the other side.
    pub fn next(&self) -> (r: Team)
        ensures
            r == self.spec_next(),
    {
        match self {
            Team::White => Team::Black,
            Team::Black => Team::White,
        }
    }
}

/// A stack of same-colored units on one square.
#[derive(Copy, Clone, Debug, PartialEq, Eq, Structural)]
pub struct Bot {
    pub team: Team,
    pub stack: u8,
}

impl Bot {
    /// Builds a bot.
    pub fn new(team: Team, stack: u8) -> (r: Bot)
        ensures
            r == (Bot { team, stack }),
    {
        Bot { team, stack }
    }
}

/// A board coordinate, with x and y in 0..=7.
#[derive(Copy, Clone, Debug, PartialEq, Eq, Structural)]
pub struct Pos {
    pub x: u8,
    pub y: u8,
}

impl Pos {
    /// Builds a coordinate.
    pub fn new(x: u8, y: u8) -> (r: Pos)
        ensures
            r == (Pos { x, y }),
    {
        Pos { x, y }
    }

    /// The square index of the coordinate.
    pub open spec fn spec_index(self) -> int {
        self.x + 8 * self.y
    }

    /// Converts the coordinate to its square index.
    pub fn index(&self) -> (r: usize)
        ensures
            r == self.spec_index(),
    {
        (self.x as usize) + 8 * (self.y as usize)
    }

    /// Whether the coordinate lies on the board.
    pub open spec fn spec_valid(self) -> bool {
        self.x <= 7 && self.y <= 7
    }

    /// Checks that the coordinate lies on the board.
    pub fn valid(&self) -> (r: bool)
        ensures
            r == self.spec_valid(),
    {
        self.x <= 7 && self.y <= 7
    }
}

/// A requested move: source, target, and unit count, with a count of zero
/// denoting an explosion at the source.
#[derive(Copy, Clone, Debug, PartialEq, Eq, Structural)]
pub struct Action {
    /// Source position.
    pub a: Pos,
    /// Target position.
    pub b: Pos,
    /// Number of robots moved, with 0 denoting an explosion.
    pub n: u8,
}

/// The absolute difference of two coordinates.
pub open spec fn spec_absdiff(a: u8, b: u8) -> int {
    if a < b {
        b - a
    } else {
        a - b
    }
}

/// Whether a stacking move is allowed: own source, own target, orthogonal,
/// within the stack's reach, moving no more units than the source holds,
/// and never growing the target past height 12.
pub open spec fn spec_valid_stack(turn: Team, source: Bot, target: Bot, action: Action) -> bool {
    let xd = spec_absdiff(action.a.x, action.b.x);
    let yd = spec_absdiff(action.a.y, action.b.y);
    &&& source.team == turn
    &&& source.team == target.team
    &&& (xd == 0 || yd == 0)
    &&& xd + yd > 0
    &&& xd + yd <= source.stack
    &&& action.n <= source.stack
    &&& action.n + target.stack <= 12
}

/// Whether a move onto an empty square is allowed: own source, orthogonal,
/// within the stack's reach, moving no more units than the source holds.
pub open spec fn spec_valid_move(turn: Team, source: Bot, action: Action) -> bool {
    let xd = spec_absdiff(action.a.x, action.b.x);
    let yd = spec_absdiff(action.a.y, action.b.y);
    &&& source.team == turn
    &&& (xd == 0 || yd == 0)
    &&& xd + yd > 0
    &&& xd + yd <= source.stack
    &&& action.n <= source.stack
}

/// Whether an explosion is allowed: the source holds an own bot.
pub open spec fn spec_valid_boom(turn: Team, source: Bot) -> bool {
    source.team == turn
}

/// The occupancy of the low `n` slots as a bit frame.
pub open spec fn occ_below(b: Seq<Option<Bot>>, n: int) -> u64
    decreases n,
{
    if n <= 0 {
        0
    } else {
        occ_below(b, n - 1) | (if b[n - 1] is Some {
            1u64 << ((n - 1) as u64)
        } else {
            0u64
        })
    }
}

/// The occupancy frame of a slot board: bit `i` set exactly when slot `i`
/// holds a bot.
pub open spec fn occ_frame(b: Seq<Option<Bot>>) -> u64 {
    occ_below(b, 64)
}

/// Helper for `lemma_occ_bit`: which bits a partial occupancy frame holds.
proof fn lemma_occ_below_bit(b: Seq<Option<Bot>>, n: int, i: u64)
    requires
        n <= 64,
        i < 64,
    ensures
        bit(occ_below(b, n), i) == (i < n && b[i as int] is Some),
    decreases n,
{
    lemma_bit_ops();
    if n > 0 {
        lemma_occ_below_bit(b, n - 1, i);
    }
}

/// The occupancy frame holds exactly the occupied slots' bits.
pub proof fn lemma_occ_bit(b: Seq<Option<Bot>>, i: u64)
    requires
        i < 64,
    ensures
        bit(occ_frame(b), i) == (b[i as int] is Some),
{
    lemma_occ_below_bit(b, 64, i);
}

/// The slot-map game state: the side to move and 64 optional bots.
#[derive(Clone, Debug, PartialEq)]
pub struct GameState {
    pub turn: Team,
    pub board: Vec<Option<Bot>>,
}

impl GameState {
    /// Well-formedness: 64 slots, every bot's stack in 1..=12.
    pub open spec fn wf(self) -> bool {
        &&& self.board@.len() == 64
        &&& forall|i: int|
            0 <= i < 64 && self.board@[i] is Some ==> 1 <= (#[trigger] self.board@[i])->0.stack
                <= 12
    }

    /// Whether an action is legal on this state.
    pub open spec fn spec_valid(self, action: Action) -> bool {
        &&& action.a.spec_valid()
        &&& action.b.spec_valid()
        &&& match self.board@[action.a.spec_index()] {
            None => false,
            Some(source) => {
                if action.n == 0 {
                    spec_valid_boom(self.turn, source)
                } else {
                    match self.board@[action.b.spec_index()] {
                        Some(target) => spec_valid_stack(self.turn, source, target, action),
                        None => spec_valid_move(self.turn, source, action),
                    }
                }
            },
        }
    }

    /// The board after a legal action: an explosion clears the flood-filled
    /// component of the source; a move or stack takes `n` units off the
    /// source slot and puts them on the target slot.
    pub open spec fn spec_after(self, action: Action) -> Seq<Option<Bot>> {
        let ai = action.a.spec_index();
        let bi = action.b.spec_index();
        let source = self.board@[ai]->0;
        if action.n == 0 {
            let flood = spec_flood(occ_frame(self.board@), ai as u64);
            Seq::new(
                64,
                |i: int|
                    if bit(flood, i as u64) {
                        None
                    } else {
                        self.board@[i]
                    },
            )
        } else {
            let new_source = if source.stack == action.n {
                None
            } else {
                Some(Bot { team: source.team, stack: (source.stack - action.n) as u8 })
            };
            let new_target = match self.board@[bi] {
                Some(target) => Some(
                    Bot { team: source.team, stack: (action.n + target.stack) as u8 },
                ),
                None => Some(Bot { team: source.team, stack: action.n }),
            };
            self.board@.update(ai, new_source).update(bi, new_target)
        }
    }

    /// Reads the bot at a position.
    fn get(&self, pos: Pos) -> (r: Option<Bot>)
        requires
            self.wf(),
            pos.spec_valid(),
        ensures
            r == self.board@[pos.spec_index()],
    {
        self.board[pos.index()]
    }

    /// Writes the bot at a position.
    fn set(&mut self, pos: Pos, bot: Option<Bot>)
        requires
            old(self).wf(),
            pos.spec_valid(),
            bot is Some ==> 1 <= bot->0.stack <= 12,
        ensures
            final(self).board@ == old(self).board@.update(pos.spec_index(), bot),
            final(self).turn == old(self).turn,
            final(self).wf(),
    {
        let i = pos.index();
        self.board[i] = bot;
    }

    /// The initial position: twelve bots of height 1 on each side's two
    /// back rows, with gaps in the third and sixth columns, white to move.
    /// The slots mirror the team frames of `Bitboard::new`.
    pub fn new() -> (r: GameState)
        ensures
            r.wf(),
            r.turn == Team::White,
            forall|i: int|
                0 <= i < 64 ==> #[trigger] r.board@[i] == (if bit(0xdbdbu64, i as u64) {
                    Some(Bot { team: Team::White, stack: 1u8 })
                } else if bit(0xdbdb_0000_0000_0000u64, i as u64) {
                    Some(Bot { team: Team::Black, stack: 1u8 })
                } else {
                    None
                }),
    {
        let mut board: Vec<Option<Bot>> = Vec::new();
        for i in 0..64usize
            invariant
                board@.len() == i,
                forall|j: int|
                    0 <= j < i ==> #[trigger] board@[j] == (if bit(0xdbdbu64, j as u64) {
                        Some(Bot { team: Team::White, stack: 1u8 })
                    } else if bit(0xdbdb_0000_0000_0000u64, j as u64) {
                        Some(Bot { team: Team::Black, stack: 1u8 })
                    } else {
                        None
                    }),
        {
            if (0xdbdbu64 >> (i as u64)) & 1u64 == 1u64 {
                board.push(Some(Bot { team: Team::White, stack: 1 }));
            } else if (0xdbdb_0000_0000_0000u64 >> (i as u64)) & 1u64 == 1u64 {
                board.push(Some(Bot { team: Team::Black, stack: 1 }));
            } else {
                board.push(None);
            }
        }
        GameState { turn: Team::White, board }
    }

    /// Checks whether an action is legal: the source must hold an own bot;
    /// an explosion is then always legal; a move must be orthogonal, within
    /// the source stack's reach, move no more units than the stack holds,
    /// and stack only onto the own team without passing height 12.
    pub fn valid(&self, action: &Action) -> (r: bool)
        requires
            self.wf(),
        ensures
            r == self.spec_valid(*action),
    {
        if !action.a.valid() || !action.b.valid() {
            return false;
        }
        let source = self.get(action.a);
        let target = self.get(action.b);
        match (source, target, action.n) {
            (Some(source), _, 0) => GameState::valid_boom(self.turn, &source),
            (Some(source), Some(target), _) => GameState::valid_stack(
                self.turn,
                &source,
                &target,
                &action,
            ),
            (Some(source), None, _) => GameState::valid_move(self.turn, &source, &action),
            (None, _, _) => false,
        }
    }

    /// The absolute difference of two coordinates.
    fn absdiff(a: u8, b: u8) -> (r: u8)
        ensures
            r == spec_absdiff(a, b),
    {
        if a < b {
            b - a
        } else {
            a - b
        }
    }

    /// Checks a stacking move.
    fn valid_stack(turn: Team, source: &Bot, target: &Bot, action: &Action) -> (r: bool)
        ensures
            r == spec_valid_stack(turn, *source, *target, *action),
    {
        // Calculate movement distances in the x and y axes.
        let xd = GameState::absdiff(action.a.x, action.b.x);
        let yd = GameState::absdiff(action.a.y, action.b.y);

        // Only the turn player's robots may move.
        let valid_source_team = source.team == turn;
        // Robots may stack only onto other robots of the turn player.
        let valid_stack_team = source.team == target.team;
        // Only orthogonal movement is allowed.
        let valid_move_direction = xd == 0 || yd == 0;
        // The distance must be positive and within the stack's reach.
        let valid_move_distance = (xd as u16) + (yd as u16) > 0 && (xd as u16) + (yd as u16)
            <= source.stack as u16;
        // No more robots may move than stand at the source.
        let valid_move_size = action.n <= source.stack;
        // A stack may never grow beyond twelve units.
        let valid_stack_height = (action.n as u16) + (target.stack as u16) <= 12;

        valid_source_team && valid_stack_team && valid_move_direction && valid_move_distance
            && valid_move_size && valid_stack_height
    }

    /// Checks a move onto an empty square.
    fn valid_move(turn: Team, source: &Bot, action: &Action) -> (r: bool)
        ensures
            r == spec_valid_move(turn, *source, *action),
    {
        let xd = GameState::absdiff(action.a.x, action.b.x);
        let yd = GameState::absdiff(action.a.y, action.b.y);

        let valid_source_team = source.team == turn;
        let valid_move_direction = xd == 0 || yd == 0;
        let valid_move_distance = (xd as u16) + (yd as u16) > 0 && (xd as u16) + (yd as u16)
            <= source.stack as u16;
        let valid_move_size = action.n <= source.stack;

        valid_source_team && valid_move_direction && valid_move_distance && valid_move_size
    }

    /// Checks an explosion.
    fn valid_boom(turn: Team, source: &Bot) -> (r: bool)
        ensures
            r == spec_valid_boom(turn, *source),
    {
        source.team == turn
    }

    /// Applies a legal action and toggles the turn.
    pub fn make(&mut self, action: &Action)
        requires
            old(self).wf(),
            old(self).spec_valid(*action),
        ensures
            final(self).wf(),
            final(self).turn == old(self).turn.spec_next(),
            final(self).board@ == old(self).spec_after(*action),
    {
        if action.n == 0 {
            self.make_boom(action);
        } else {
            let target = self.get(action.b);
            match target {
                Some(_target) => self.make_stack(action),
                None => self.make_move(action),
            }
        }
        self.turn = self.turn.next();
    }

    /// Performs an explosion: removes the source bot and, recursively,
    /// every bot in its 8-connected occupied neighborhood, whatever its
    /// team.
    fn make_boom(&mut self, action: &Action)
        requires
            old(self).wf(),
            old(self).spec_valid(*action),
            action.n == 0,
        ensures
            final(self).wf(),
            final(self).turn == old(self).turn,
            final(self).board@ == old(self).spec_after(*action),
    {
        let ghost b0 = self.board@;
        // Collect the occupancy of the board as a bit frame.
        let mut occ: u64 = 0;
        for i in 0..64usize
            invariant
                self.wf(),
                self.board@ == b0,
                occ == occ_below(b0, i as int),
        {
            if self.board[i].is_some() {
                occ = occ | (1u64 << (i as u64));
            } else {
                proof {
                    assert(occ | 0u64 == occ) by (bit_vector);
                }
            }
        }
        // The connected component of the source through occupied squares.
        let source = action.a.index();
        proof {
            lemma_occ_bit(b0, action.a.spec_index() as u64);
        }
        let flood = Bitwise::dfs(occ, source as u8);
        // Remove every bot the explosion reaches.
        let ghost turn0 = self.turn;
        for i in 0..64usize
            invariant
                self.board@.len() == 64,
                self.turn == turn0,
                forall|j: int|
                    0 <= j < 64 && j >= i ==> #[trigger] self.board@[j] == b0[j],
                forall|j: int|
                    0 <= j < i ==> #[trigger] self.board@[j] == (if bit(
                        spec_flood(occ_frame(b0), action.a.spec_index() as u64),
                        j as u64,
                    ) {
                        None
                    } else {
                        b0[j]
                    }),
                flood == spec_flood(occ_frame(b0), action.a.spec_index() as u64),
                forall|j: int|
                    0 <= j < 64 && self.board@[j] is Some ==> 1 <= (#[trigger] self.board@[j])->0.stack <= 12,
        {
            if (flood >> (i as u64)) & 1u64 == 1u64 {
                self.board[i] = None;
            }
        }
        proof {
            assert(self.board@ =~= old(self).spec_after(*action));
        }
    }

    /// Stacks `n` units from the source onto an own bot at the target.
    fn make_stack(&mut self, action: &Action)
        requires
            old(self).wf(),
            old(self).spec_valid(*action),
            action.n != 0,
            old(self).board@[action.b.spec_index()] is Some,
        ensures
            final(self).wf(),
            final(self).turn == old(self).turn,
            final(self).board@ == old(self).spec_after(*action),
    {
        let source = self.get(action.a).unwrap();
        let target = self.get(action.b).unwrap();

        if source.stack == action.n {
            // The whole stack moves.
            self.set(action.a, None);
            self.set(action.b, Some(Bot::new(source.team, action.n + target.stack)));
        } else {
            // Part of the stack moves.
            self.set(action.a, Some(Bot::new(source.team, source.stack - action.n)));
            self.set(action.b, Some(Bot::new(source.team, action.n + target.stack)));
        }
    }

    /// Moves `n` units from the source onto an empty target square.
    fn make_move(&mut self, action: &Action)
        requires
            old(self).wf(),
            old(self).spec_valid(*action),
            action.n != 0,
            old(self).board@[action.b.spec_index()] is None,
        ensures
            final(self).wf(),
            final(self).turn == old(self).turn,
            final(self).board@ == old(self).spec_after(*action),
    {
        let source = self.get(action.a).unwrap();

        if source.stack == action.n {
            // The whole stack moves.
            self.set(action.a, None);
            self.set(action.b, Some(source));
        } else {
            // Part of the stack moves.
            self.set(action.a, Some(Bot::new(source.team, source.stack - action.n)));
            self.set(action.b, Some(Bot::new(source.team, action.n)));
        }
    }
}

} // verus!
