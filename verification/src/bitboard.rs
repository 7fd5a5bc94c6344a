//! The packed board state the search drives.
//!
//! Fourteen 64-bit frames hold the position: frame 0 is the union of
//! white-occupied squares, frames 1..=12 hold the squares whose stack height
//! equals the frame index, and frame 13 is the union of black-occupied
//! squares. Mutation goes through precomputed deltas that `make` applies and
//! `undo` reverses exactly, while a Zobrist hash is maintained
//! incrementally.

use crate::action::Action;
use crate::bitwise::{
    bit, count_bits, lemma_bit_ops, lemma_xor_shuffle, lemma_xor_shuffle4, spec_adj, spec_flood,
    spec_pcnt, Bitwise,
};
use crate::constants::{
    spec_zobrist, spec_zobrist_turn, zobrist, zobrist_turn, BLACK, WHITE, ZOBRIST_INITIAL,
};
use vstd::prelude::*;

verus! {

use vstd::std_specs::bits::u64_trailing_zeros;

broadcast use vstd::std_specs::bits::group_bits_axioms;

/// The changes a directional move makes: which single-bit masks move between
/// which height frames.
#[derive(Debug)]
pub struct DeltaDirectional {
    pub robots: u8,
    pub source_pos: u64,
    pub target_pos: u64,
    pub old_source_height: u8,
    pub new_source_height: u8,
    pub old_target_height: u8,
    pub new_target_height: u8,
}

/// The changes an explosion makes: for each of the fourteen frames, the bits
/// it clears.
#[derive(Debug)]
pub struct DeltaExplosion {
    pub board: Vec<u64>,
}

/// A precomputed change set for one action.
#[derive(Debug)]
pub enum Delta {
    Explosion(DeltaExplosion),
    Directional(DeltaDirectional),
}

/// The packed board state: fourteen frames, the side to move, cached square
/// counts per team, and the incrementally maintained Zobrist hash.
#[derive(Debug, PartialEq)]
pub struct Bitboard {
    pub hash: u64,
    pub turn: usize,
    pub opponent: usize,
    pub board: Vec<u64>,
    pub robots_white: i16,
    pub robots_black: i16,
    pub robots_total: i16,
}

/// Whether square `s` is occupied by either team.
pub open spec fn occupied(b: Seq<u64>, s: u64) -> bool {
    bit(b[WHITE as int], s) || bit(b[BLACK as int], s)
}

/// The first height frame (from `h` up) whose bit `s` is set, or 0.
pub open spec fn height_from(b: Seq<u64>, s: u64, h: int) -> int
    decreases 13 - h,
{
    if h < 1 || h >= 13 {
        0
    } else if bit(b[h], s) {
        h
    } else {
        height_from(b, s, h + 1)
    }
}

/// The stack height at square `s`: the height frame holding its bit, or 0
/// when the square is empty.
pub open spec fn spec_height(b: Seq<u64>, s: u64) -> int {
    height_from(b, s, 1)
}

/// No square sits in two height frames.
pub open spec fn heights_unique(b: Seq<u64>) -> bool {
    forall|s: u64, h1: int, h2: int|
        s < 64 && 1 <= h1 < 13 && 1 <= h2 < 13 && #[trigger] bit(b[h1], s) && #[trigger] bit(
            b[h2],
            s,
        ) ==> h1 == h2
}

/// Every occupied square has a height frame and every square with a height
/// frame is occupied.
pub open spec fn teams_match_heights(b: Seq<u64>) -> bool {
    forall|s: u64| s < 64 ==> (occupied(b, s) == (#[trigger] spec_height(b, s) != 0))
}

/// The two team frames share no square.
pub open spec fn teams_disjoint(b: Seq<u64>) -> bool {
    b[WHITE as int] & b[BLACK as int] == 0
}

/// The frame invariant: each square sits in at most one height frame, in a
/// height frame exactly when a team holds it, and in at most one team frame.
pub open spec fn frames_wf(b: Seq<u64>) -> bool {
    &&& b.len() == 14
    &&& teams_disjoint(b)
    &&& heights_unique(b)
    &&& teams_match_heights(b)
}

/// XOR of the Zobrist keys of frame `fi` over the set bits of `m` below `n`.
pub open spec fn xor_keys(fi: int, m: u64, n: int) -> u64
    decreases n,
{
    if n <= 0 {
        0
    } else {
        xor_keys(fi, m, n - 1) ^ (if bit(m, (n - 1) as u64) {
            spec_zobrist(fi, n - 1)
        } else {
            0u64
        })
    }
}

/// XOR of the Zobrist keys of frame `fi` over all set bits of `m`.
pub open spec fn frame_keys(fi: int, m: u64) -> u64 {
    xor_keys(fi, m, 64)
}

/// XOR of the per-frame key sums of the first `nf` frames.
pub open spec fn boards_keys(b: Seq<u64>, nf: int) -> u64
    decreases nf,
{
    if nf <= 0 {
        0
    } else {
        boards_keys(b, nf - 1) ^ frame_keys(nf - 1, b[nf - 1])
    }
}

/// The Zobrist hash a board must carry: the initial constant, XORed with the
/// key of every set bit of every frame, XORed with the turn key while black
/// is to move.
pub open spec fn spec_hash(b: Seq<u64>, turn: usize) -> u64 {
    (ZOBRIST_INITIAL ^ boards_keys(b, 14)) ^ (if turn == BLACK {
        spec_zobrist_turn()
    } else {
        0u64
    })
}

/// A frame with no set bits contributes no keys.
pub proof fn lemma_xor_keys_zero(fi: int, n: int)
    requires
        n <= 64,
    ensures
        xor_keys(fi, 0, n) == 0,
    decreases n,
{
    lemma_bit_ops();
    lemma_xor_shuffle(0, 0, 0);
    if n > 0 {
        lemma_xor_keys_zero(fi, n - 1);
    }
}

/// A frame with no set bits counts no squares.
pub proof fn lemma_count_bits_zero(n: int)
    requires
        n <= 64,
    ensures
        count_bits(0, n) == 0,
    decreases n,
{
    lemma_bit_ops();
    if n > 0 {
        lemma_count_bits_zero(n - 1);
    }
}

/// A board of empty frames contributes no keys.
pub proof fn lemma_boards_keys_zero(b: Seq<u64>, nf: int)
    requires
        forall|i: int| 0 <= i < nf ==> b[i] == 0,
    ensures
        boards_keys(b, nf) == 0,
    decreases nf,
{
    lemma_xor_shuffle(0, 0, 0);
    if nf > 0 {
        lemma_boards_keys_zero(b, nf - 1);
        lemma_xor_keys_zero(nf - 1, 64);
    }
}

/// Toggling bit `s` of a frame XORs that square's key into the frame's key
/// sum, provided `s` lies below the counted range.
#[verifier::rlimit(50)]
pub proof fn lemma_xor_keys_toggle(fi: int, m: u64, s: u64, n: int)
    requires
        s < 64,
        n <= 64,
    ensures
        xor_keys(fi, m ^ (1u64 << s), n) == if s < n {
            xor_keys(fi, m, n) ^ spec_zobrist(fi, s as int)
        } else {
            xor_keys(fi, m, n)
        },
    decreases n,
{
    lemma_bit_ops();
    if n > 0 {
        lemma_xor_keys_toggle(fi, m, s, n - 1);
        let x = xor_keys(fi, m, n - 1);
        let k = spec_zobrist(fi, s as int);
        let t = if bit(m, (n - 1) as u64) {
            spec_zobrist(fi, n - 1)
        } else {
            0u64
        };
        lemma_xor_shuffle(x, k, t);
    }
}

/// Toggling bit `s` of a frame XORs that square's key into the frame's
/// key sum.
pub proof fn lemma_frame_keys_toggle(fi: int, m: u64, s: u64)
    requires
        s < 64,
    ensures
        frame_keys(fi, m ^ (1u64 << s)) == frame_keys(fi, m) ^ spec_zobrist(fi, s as int),
{
    lemma_xor_keys_toggle(fi, m, s, 64);
}

/// Toggling bit `s` of a frame adds or removes one counted square.
pub proof fn lemma_count_bits_toggle(m: u64, s: u64, n: int)
    requires
        s < 64,
        n <= 64,
    ensures
        count_bits(m ^ (1u64 << s), n) == if s < n {
            count_bits(m, n) + (if bit(m, s) {
                -1int
            } else {
                1int
            })
        } else {
            count_bits(m, n)
        },
    decreases n,
{
    lemma_bit_ops();
    if n > 0 {
        lemma_count_bits_toggle(m, s, n - 1);
    }
}

/// Replacing frame `fi` swaps its old key sum for its new one in the board
/// key sum.
pub proof fn lemma_boards_keys_update(b: Seq<u64>, fi: int, v: u64, nf: int)
    requires
        0 <= fi < b.len(),
        nf <= b.len(),
    ensures
        boards_keys(b.update(fi, v), nf) == if fi < nf {
            (boards_keys(b, nf) ^ frame_keys(fi, b[fi])) ^ frame_keys(fi, v)
        } else {
            boards_keys(b, nf)
        },
    decreases nf,
{
    if nf > 0 {
        lemma_boards_keys_update(b, fi, v, nf - 1);
        let a = boards_keys(b, nf - 1);
        let o = frame_keys(fi, b[fi]);
        let nv = frame_keys(fi, v);
        let last = frame_keys(nf - 1, b[nf - 1]);
        if fi == nf - 1 {
            lemma_xor_shuffle(a, o, nv);
            assert(((a ^ o) ^ o) ^ nv == a ^ nv);
        } else if fi < nf - 1 {
            lemma_xor_shuffle4(a, o, nv, last);
        }
    }
}

/// Toggling one square of one frame XORs that square's key into the board
/// key sum.
pub proof fn lemma_toggle_frame(b: Seq<u64>, fi: int, s: u64)
    requires
        b.len() == 14,
        0 <= fi < 14,
        s < 64,
    ensures
        boards_keys(b.update(fi, b[fi] ^ (1u64 << s)), 14) == boards_keys(b, 14) ^ spec_zobrist(
            fi,
            s as int,
        ),
{
    lemma_boards_keys_update(b, fi, b[fi] ^ (1u64 << s), 14);
    lemma_frame_keys_toggle(fi, b[fi], s);
    lemma_xor_shuffle(boards_keys(b, 14), frame_keys(fi, b[fi]), spec_zobrist(fi, s as int));
}

/// Toggling one square of one frame XORs that square's key into the whole
/// board hash, whatever the side to move.
pub proof fn lemma_hash_toggle(b: Seq<u64>, turn: usize, fi: int, s: u64)
    requires
        b.len() == 14,
        0 <= fi < 14,
        s < 64,
    ensures
        spec_hash(b.update(fi, b[fi] ^ (1u64 << s)), turn) == spec_hash(b, turn) ^ spec_zobrist(
            fi,
            s as int,
        ),
{
    lemma_toggle_frame(b, fi, s);
    let bk = boards_keys(b, 14);
    let k = spec_zobrist(fi, s as int);
    let t = if turn == BLACK {
        spec_zobrist_turn()
    } else {
        0u64
    };
    lemma_xor_shuffle(ZOBRIST_INITIAL, bk, k);
    lemma_xor_shuffle(ZOBRIST_INITIAL ^ bk, k, t);
}

impl DeltaDirectional {
    /// The source square index of the delta.
    pub open spec fn src(self) -> u64 {
        u64_trailing_zeros(self.source_pos) as u64
    }

    /// The target square index of the delta.
    pub open spec fn tgt(self) -> u64 {
        u64_trailing_zeros(self.target_pos) as u64
    }

    /// Whether the delta fits board `b`: single-bit masks on distinct
    /// squares, heights that match the board, a source owned by the side to
    /// move, and a target that is not the opponent's and stays within
    /// height 12.
    pub open spec fn applicable(self, b: Bitboard) -> bool {
        &&& self.source_pos == 1u64 << self.src() && self.src() < 64
        &&& self.target_pos == 1u64 << self.tgt() && self.tgt() < 64
        &&& self.src() != self.tgt()
        &&& 1 <= self.robots
        &&& self.robots <= self.old_source_height
        &&& 1 <= self.old_source_height <= 12
        &&& self.old_source_height == spec_height(b.board@, self.src())
        &&& bit(b.board@[b.turn as int], self.src())
        &&& self.new_source_height == self.old_source_height - self.robots
        &&& self.old_target_height == spec_height(b.board@, self.tgt())
        &&& (self.old_target_height != 0 ==> bit(b.board@[b.turn as int], self.tgt()))
        &&& !bit(b.board@[b.opponent as int], self.tgt())
        &&& self.new_target_height == self.old_target_height + self.robots
        &&& 1 <= self.new_target_height <= 12
    }
}

impl DeltaExplosion {
    /// Whether this delta's masks are the square set `e` restricted to each
    /// frame of board `b`.
    pub open spec fn masks_of(self, e: u64, b: Bitboard) -> bool {
        forall|i: int| 0 <= i < 14 ==> self.board@[i] == #[trigger] (e & b.board@[i])
    }

    /// Whether the delta fits board `b`: one mask per frame, all of them the
    /// same square set restricted to that frame.
    pub open spec fn applicable(self, b: Bitboard) -> bool {
        &&& self.board@.len() == 14
        &&& exists|e: u64| self.masks_of(e, b)
    }
}

impl Delta {
    /// Whether the delta fits board `b`.
    pub open spec fn applicable(self, b: Bitboard) -> bool {
        match self {
            Delta::Directional(d) => d.applicable(b),
            Delta::Explosion(d) => d.applicable(b),
        }
    }

    /// What `undo` needs of the board it is run on, with `turn` the side
    /// that made the move being undone.
    pub open spec fn undo_pre(self, b: Seq<u64>, turn: int) -> bool {
        match self {
            Delta::Directional(d) => undo_dir_pre(b, turn, d),
            Delta::Explosion(d) => d.board@.len() == 14,
        }
    }
}

/// The frames after a directional delta: the source square leaves its old
/// height frame and enters its new one (or leaves the mover's team frame
/// when the stack empties), and the target square leaves its old height
/// frame (or enters the team frame when previously empty) and enters its
/// new height frame.
pub open spec fn spec_make_dir(b: Seq<u64>, turn: int, d: DeltaDirectional) -> Seq<u64> {
    let s = d.src();
    let t = d.tgt();
    let osh = d.old_source_height as int;
    let nsh = d.new_source_height as int;
    let oth = d.old_target_height as int;
    let nth = d.new_target_height as int;
    let b1 = b.update(osh, b[osh] ^ (1u64 << s));
    let b2 = if nsh != 0 {
        b1.update(nsh, b1[nsh] ^ (1u64 << s))
    } else {
        b1.update(turn, b1[turn] ^ (1u64 << s))
    };
    let b3 = if oth != 0 {
        b2.update(oth, b2[oth] ^ (1u64 << t))
    } else {
        b2.update(nth, b2[nth] ^ (1u64 << t))
    };
    if oth != 0 {
        b3.update(nth, b3[nth] ^ (1u64 << t))
    } else {
        b3.update(turn, b3[turn] ^ (1u64 << t))
    }
}

/// The Zobrist keys a directional delta toggles, besides the turn key.
pub open spec fn spec_dir_hash_delta(turn: int, d: DeltaDirectional) -> u64 {
    let s = d.src() as int;
    let t = d.tgt() as int;
    let osh = d.old_source_height as int;
    let nsh = d.new_source_height as int;
    let oth = d.old_target_height as int;
    let nth = d.new_target_height as int;
    let src_part = spec_zobrist(osh, s) ^ (if nsh != 0 {
        spec_zobrist(nsh, s)
    } else {
        spec_zobrist(turn, s)
    });
    let tgt_part = if oth != 0 {
        spec_zobrist(oth, t) ^ spec_zobrist(nth, t)
    } else {
        spec_zobrist(nth, t) ^ spec_zobrist(turn, t)
    };
    src_part ^ tgt_part
}

/// The frames after an explosion delta: each frame loses the bits of its
/// mask.
pub open spec fn spec_make_expl(b: Seq<u64>, masks: Seq<u64>) -> Seq<u64> {
    Seq::new(14, |i: int| b[i] & !masks[i])
}

/// The frames after a delta.
pub open spec fn spec_make_frames(b: Seq<u64>, turn: int, d: Delta) -> Seq<u64> {
    match d {
        Delta::Directional(dd) => spec_make_dir(b, turn, dd),
        Delta::Explosion(de) => spec_make_expl(b, de.board@),
    }
}

/// The frames after undoing a directional delta: every square the delta
/// toggled is toggled back, so the transform is the same exclusive-or chain.
pub open spec fn spec_undo_dir(b: Seq<u64>, turn: int, d: DeltaDirectional) -> Seq<u64> {
    spec_make_dir(b, turn, d)
}

/// The frames after undoing an explosion delta: each frame gets its cleared
/// bits back.
pub open spec fn spec_undo_expl(b: Seq<u64>, masks: Seq<u64>) -> Seq<u64> {
    Seq::new(14, |i: int| b[i] | masks[i])
}

/// The frames after undoing a delta.
pub open spec fn spec_undo_frames(b: Seq<u64>, turn: int, d: Delta) -> Seq<u64> {
    match d {
        Delta::Directional(dd) => spec_undo_dir(b, turn, dd),
        Delta::Explosion(de) => spec_undo_expl(b, de.board@),
    }
}

/// What `undo` needs of the board it is run on for its or-operations to be
/// exact toggles: the bits the matching `make` cleared are still clear.
pub open spec fn undo_dir_pre(b: Seq<u64>, turn: int, d: DeltaDirectional) -> bool {
    let s = d.src();
    let t = d.tgt();
    &&& b.len() == 14
    &&& d.source_pos == 1u64 << s && s < 64
    &&& d.target_pos == 1u64 << t && t < 64
    &&& s != t
    &&& 1 <= d.old_source_height <= 12
    &&& d.new_source_height <= 12
    &&& 1 <= d.new_target_height <= 12
    &&& d.old_target_height <= 12
    &&& turn == WHITE || turn == BLACK
    &&& !bit(b[d.old_source_height as int], s)
    &&& (d.new_source_height == 0 ==> !bit(b[turn], s))
    &&& (d.old_target_height != 0 ==> !bit(b[d.old_target_height as int], t))
}

/// The value `make` returns for a delta: the XOR of the Zobrist keys of
/// every (frame, square) bit the delta toggles.
pub open spec fn spec_hash_delta(b: Bitboard, d: Delta) -> u64 {
    match d {
        Delta::Directional(dd) => spec_dir_hash_delta(b.turn as int, dd),
        Delta::Explosion(de) => boards_keys(de.board@, 14),
    }
}

/// Clearing a subset of a frame's bits removes exactly those bits' keys
/// from the frame's key sum.
#[verifier::rlimit(50)]
pub proof fn lemma_xor_keys_clear(fi: int, m: u64, d: u64, n: int)
    requires
        n <= 64,
        forall|t: u64| t < 64 && #[trigger] bit(d, t) ==> bit(m, t),
    ensures
        xor_keys(fi, m & !d, n) == xor_keys(fi, m, n) ^ xor_keys(fi, d, n),
    decreases n,
{
    lemma_bit_ops();
    if n <= 0 {
        lemma_xor_shuffle(0, 0, 0);
    } else {
        lemma_xor_keys_clear(fi, m, d, n - 1);
        let a = xor_keys(fi, m, n - 1);
        let e = xor_keys(fi, d, n - 1);
        let j = (n - 1) as u64;
        let kj = spec_zobrist(fi, n - 1);
        assert(bit(m & !d, j) == (bit(m, j) && !bit(d, j)));
        if bit(d, j) {
            lemma_xor_shuffle4(a, kj, e, kj);
            lemma_xor_shuffle(kj, 0, 0);
            lemma_xor_shuffle(a ^ e, 0, 0);
        } else if bit(m, j) {
            lemma_xor_shuffle(e, 0, 0);
            lemma_xor_shuffle(a, kj, e);
        } else {
            lemma_xor_shuffle(a, 0, 0);
            lemma_xor_shuffle(e, 0, 0);
            lemma_xor_shuffle(a ^ e, 0, 0);
            lemma_xor_shuffle(a, e, 0);
        }
    }
}

/// Clearing per-frame subsets removes exactly the masks' key sums from the
/// board key sum.
pub proof fn lemma_boards_keys_clear(b: Seq<u64>, masks: Seq<u64>, nf: int)
    requires
        b.len() == 14,
        masks.len() == 14,
        nf <= 14,
        forall|i: int, t: u64|
            0 <= i < 14 && t < 64 && #[trigger] bit(masks[i], t) ==> bit(#[trigger] b[i], t),
    ensures
        boards_keys(spec_make_expl(b, masks), nf) == boards_keys(b, nf) ^ boards_keys(masks, nf),
    decreases nf,
{
    if nf <= 0 {
        lemma_xor_shuffle(0, 0, 0);
    } else {
        lemma_boards_keys_clear(b, masks, nf - 1);
        let a = boards_keys(b, nf - 1);
        let e = boards_keys(masks, nf - 1);
        let al = frame_keys(nf - 1, b[nf - 1]);
        let el = frame_keys(nf - 1, masks[nf - 1]);
        assert(spec_make_expl(b, masks)[nf - 1] == b[nf - 1] & !masks[nf - 1]);
        lemma_xor_keys_clear(nf - 1, b[nf - 1], masks[nf - 1], 64);
        lemma_xor_shuffle4(a, e, al, el);
        assert(((a ^ e) ^ (al ^ el)) == ((a ^ al) ^ (e ^ el)));
    }
}

/// The whole-board hash after clearing per-frame subsets: the masks' key
/// sum is XORed out, whatever the side to move.
pub proof fn lemma_expl_hash(b: Seq<u64>, hturn: usize, masks: Seq<u64>)
    requires
        b.len() == 14,
        masks.len() == 14,
        forall|i: int, t: u64|
            0 <= i < 14 && t < 64 && #[trigger] bit(masks[i], t) ==> bit(#[trigger] b[i], t),
    ensures
        spec_hash(spec_make_expl(b, masks), hturn) == spec_hash(b, hturn) ^ boards_keys(masks, 14),
{
    lemma_boards_keys_clear(b, masks, 14);
    let bk = boards_keys(b, 14);
    let e = boards_keys(masks, 14);
    let t = if hturn == BLACK {
        spec_zobrist_turn()
    } else {
        0u64
    };
    lemma_xor_shuffle(ZOBRIST_INITIAL, bk, e);
    lemma_xor_shuffle(ZOBRIST_INITIAL ^ bk, e, t);
}

/// The whole-board hash after a directional delta: the four toggled keys
/// are XORed in, whatever the side to move.
pub proof fn lemma_dir_hash(b: Seq<u64>, hturn: usize, turn: int, d: DeltaDirectional)
    requires
        b.len() == 14,
        d.src() < 64,
        d.tgt() < 64,
        1 <= d.old_source_height <= 12,
        d.new_source_height <= 12,
        d.old_target_height <= 12,
        1 <= d.new_target_height <= 12,
        turn == WHITE || turn == BLACK,
    ensures
        spec_hash(spec_make_dir(b, turn, d), hturn) == spec_hash(b, hturn) ^ spec_dir_hash_delta(
            turn,
            d,
        ),
{
    let s = d.src();
    let t = d.tgt();
    let osh = d.old_source_height as int;
    let nsh = d.new_source_height as int;
    let oth = d.old_target_height as int;
    let nth = d.new_target_height as int;
    let k1 = spec_zobrist(osh, s as int);
    let k2 = if nsh != 0 {
        spec_zobrist(nsh, s as int)
    } else {
        spec_zobrist(turn, s as int)
    };
    let k3 = if oth != 0 {
        spec_zobrist(oth, t as int)
    } else {
        spec_zobrist(nth, t as int)
    };
    let k4 = if oth != 0 {
        spec_zobrist(nth, t as int)
    } else {
        spec_zobrist(turn, t as int)
    };
    let b1 = b.update(osh, b[osh] ^ (1u64 << s));
    let b2 = if nsh != 0 {
        b1.update(nsh, b1[nsh] ^ (1u64 << s))
    } else {
        b1.update(turn, b1[turn] ^ (1u64 << s))
    };
    let b3 = if oth != 0 {
        b2.update(oth, b2[oth] ^ (1u64 << t))
    } else {
        b2.update(nth, b2[nth] ^ (1u64 << t))
    };
    lemma_hash_toggle(b, hturn, osh, s);
    if nsh != 0 {
        lemma_hash_toggle(b1, hturn, nsh, s);
    } else {
        lemma_hash_toggle(b1, hturn, turn, s);
    }
    if oth != 0 {
        lemma_hash_toggle(b2, hturn, oth, t);
        lemma_hash_toggle(b3, hturn, nth, t);
    } else {
        lemma_hash_toggle(b2, hturn, nth, t);
        lemma_hash_toggle(b3, hturn, turn, t);
    }
    let h = spec_hash(b, hturn);
    lemma_xor_shuffle(h, k1, k2);
    lemma_xor_shuffle(h ^ (k1 ^ k2), k3, k4);
    lemma_xor_shuffle(h, k1 ^ k2, k3 ^ k4);
}

/// Flipping the side to move XORs the turn key into the hash, in both
/// directions.
pub proof fn lemma_hash_turn(b: Seq<u64>)
    ensures
        spec_hash(b, BLACK) == spec_hash(b, WHITE) ^ spec_zobrist_turn(),
        spec_hash(b, WHITE) == spec_hash(b, BLACK) ^ spec_zobrist_turn(),
{
    let x = ZOBRIST_INITIAL ^ boards_keys(b, 14);
    lemma_xor_shuffle(x, spec_zobrist_turn(), 0);
}

/// Helper for `lemma_height_bit`: the found height holds the square's bit.
proof fn lemma_height_bit_from(b: Seq<u64>, s: u64, h: int)
    requires
        height_from(b, s, h) != 0,
    ensures
        bit(b[height_from(b, s, h)], s),
        h <= height_from(b, s, h) < 13,
    decreases 13 - h,
{
    if !(h < 1 || h >= 13) && !bit(b[h], s) {
        lemma_height_bit_from(b, s, h + 1);
    }
}

/// An occupied square's height frame holds its bit.
pub proof fn lemma_height_bit(b: Seq<u64>, s: u64)
    requires
        spec_height(b, s) != 0,
    ensures
        bit(b[spec_height(b, s)], s),
        1 <= spec_height(b, s) < 13,
{
    lemma_height_bit_from(b, s, 1);
}

/// Applying a directional delta to a well-formed board preserves the frame
/// invariant, leaves the board ready for `undo`, and `undo`'s toggles
/// restore the original frames exactly.
#[verifier::rlimit(100)]
pub proof fn lemma_make_dir_ok(b: Bitboard, d: DeltaDirectional)
    requires
        b.wf(),
        d.applicable(b),
    ensures
        frames_wf(spec_make_dir(b.board@, b.turn as int, d)),
        undo_dir_pre(spec_make_dir(b.board@, b.turn as int, d), b.turn as int, d),
        spec_undo_dir(spec_make_dir(b.board@, b.turn as int, d), b.turn as int, d) == b.board@,
        spec_height(spec_make_dir(b.board@, b.turn as int, d), d.src()) == d.new_source_height,
        spec_height(spec_make_dir(b.board@, b.turn as int, d), d.tgt()) == d.new_target_height,
{
    lemma_bit_ops();
    let bs = b.board@;
    let turn = b.turn as int;
    let opp = b.opponent as int;
    let s = d.src();
    let t = d.tgt();
    let src = 1u64 << s;
    let tgt = 1u64 << t;
    let osh = d.old_source_height as int;
    let nsh = d.new_source_height as int;
    let oth = d.old_target_height as int;
    let nth = d.new_target_height as int;
    let new = spec_make_dir(bs, turn, d);
    lemma_height_bit(bs, s);
    assert(bit(bs[osh], s));
    if oth != 0 {
        lemma_height_bit(bs, t);
        assert(bit(bs[oth], t));
    } else {
        assert(!occupied(bs, t));
        lemma_empty_square(bs, t);
    }
    // Which team frames hold which of the two squares before the move.
    assert(bit(bs[turn], s));
    assert(!bit(bs[opp], s)) by {
        assert(bit(bs[WHITE as int] & bs[BLACK as int], s) == (bit(bs[WHITE as int], s) && bit(
            bs[BLACK as int],
            s,
        )));
        assert(!bit(0u64, s));
    }
    assert(!bit(bs[opp], t));
    // How every bit of the new frames reads.
    assert forall|i: int, q: u64| 0 <= i < 14 && q < 64 implies #[trigger] bit(new[i], q) == (if q
        == s {
        if i == osh {
            false
        } else if nsh != 0 && i == nsh {
            true
        } else if nsh == 0 && i == turn {
            false
        } else {
            bit(bs[i], q)
        }
    } else if q == t {
        if oth != 0 && i == oth {
            false
        } else if i == nth {
            true
        } else if oth == 0 && i == turn {
            true
        } else {
            bit(bs[i], q)
        }
    } else {
        bit(bs[i], q)
    }) by {
        if q == s && nsh != 0 && i == nsh {
            assert(!bit(bs[nsh], s));
        }
        if q == t && i == nth {
            assert(!bit(bs[nth], t));
        }
    }
    // The frame invariant square by square.
    assert forall|q: u64| q < 64 implies !(bit(new[WHITE as int], q) && bit(
        new[BLACK as int],
        q,
    )) by {
        if q != s && q != t {
            assert(bit(bs[WHITE as int] & bs[BLACK as int], q) == (bit(bs[WHITE as int], q) && bit(
                bs[BLACK as int],
                q,
            )));
            assert(!bit(0u64, q));
        }
    }
    crate::bitwise::lemma_disjoint(new[WHITE as int], new[BLACK as int]);
    assert(heights_unique(new));
    assert forall|q: u64| q < 64 implies (occupied(new, q) == (#[trigger] spec_height(new, q)
        != 0)) by {
        if q == s {
            if nsh != 0 {
                lemma_height_is(new, q, nsh);
            } else {
                assert(forall|h: int| 1 <= h < 13 ==> !bit(new[h], q));
                lemma_height_below(new, q, 13);
            }
        } else if q == t {
            lemma_height_is(new, q, nth);
        } else {
            assert(occupied(new, q) == occupied(bs, q));
            assert(forall|h: int| 1 <= h < 13 ==> bit(new[h], q) == bit(bs[h], q));
            lemma_height_same(bs, new, q);
        }
    }
    if nsh != 0 {
        lemma_height_is(new, s, nsh);
    } else {
        assert(forall|h: int| 1 <= h < 13 ==> !bit(new[h], s));
        lemma_height_below(new, s, 13);
    }
    lemma_height_is(new, t, nth);
    // Undo toggles the same bits back.
    let back = spec_undo_dir(new, turn, d);
    assert forall|i: int| 0 <= i < 14 implies #[trigger] back[i] == bs[i] by {
        lemma_xor_shuffle4(bs[i], src, tgt, src);
        lemma_xor_shuffle(bs[i], src, tgt);
        lemma_xor_shuffle(bs[i], tgt, src);
        lemma_xor_shuffle(bs[i] ^ src, tgt, src);
        lemma_xor_shuffle(bs[i] ^ tgt, src, tgt);
    }
    assert(back =~= bs);
}

/// Applying an explosion delta to a well-formed board preserves the frame
/// invariant, and or-ing the masks back restores the original frames.
#[verifier::rlimit(100)]
pub proof fn lemma_make_expl_ok(b: Bitboard, e: u64, d: DeltaExplosion)
    requires
        b.wf(),
        d.board@.len() == 14,
        d.masks_of(e, b),
    ensures
        frames_wf(spec_make_expl(b.board@, d.board@)),
        spec_undo_expl(spec_make_expl(b.board@, d.board@), d.board@) == b.board@,
        forall|i: int, t: u64|
            0 <= i < 14 && t < 64 && #[trigger] bit(d.board@[i], t) ==> bit(
                #[trigger] b.board@[i],
                t,
            ),
{
    lemma_bit_ops();
    let bs = b.board@;
    let masks = d.board@;
    let new = spec_make_expl(bs, masks);
    assert forall|i: int, q: u64| 0 <= i < 14 && q < 64 implies #[trigger] bit(new[i], q) == (bit(
        bs[i],
        q,
    ) && !bit(e, q)) by {
        assert(masks[i] == (e & bs[i]));
        assert(bit(e & bs[i], q) == (bit(e, q) && bit(bs[i], q)));
    }
    assert forall|q: u64| q < 64 implies !(bit(new[WHITE as int], q) && bit(
        new[BLACK as int],
        q,
    )) by {
        assert(bit(bs[WHITE as int] & bs[BLACK as int], q) == (bit(bs[WHITE as int], q) && bit(
            bs[BLACK as int],
            q,
        )));
        assert(!bit(0u64, q));
    }
    crate::bitwise::lemma_disjoint(new[WHITE as int], new[BLACK as int]);
    assert(heights_unique(new));
    assert forall|q: u64| q < 64 implies (occupied(new, q) == (#[trigger] spec_height(new, q)
        != 0)) by {
        if bit(e, q) {
            assert(forall|h: int| 1 <= h < 13 ==> !bit(new[h], q));
            lemma_height_below(new, q, 13);
        } else {
            assert(occupied(new, q) == occupied(bs, q));
            assert(forall|h: int| 1 <= h < 13 ==> bit(new[h], q) == bit(bs[h], q));
            lemma_height_same(bs, new, q);
        }
    }
    let back = spec_undo_expl(new, masks);
    assert forall|i: int| 0 <= i < 14 implies #[trigger] back[i] == bs[i] by {
        assert(masks[i] == (e & bs[i]));
        assert forall|q: u64| q < 64 implies bit(back[i], q) == bit(bs[i], q) by {
            assert(bit(new[i] | masks[i], q) == (bit(new[i], q) || bit(masks[i], q)));
            assert(bit(e & bs[i], q) == (bit(e, q) && bit(bs[i], q)));
        }
        crate::bitwise::lemma_bit_ext(back[i], bs[i]);
    }
    assert(back =~= bs);
    assert forall|i: int, q: u64|
        0 <= i < 14 && q < 64 && #[trigger] bit(masks[i], q) implies bit(
        #[trigger] bs[i],
        q,
    ) by {
        assert(bit(e & bs[i], q) == (bit(e, q) && bit(bs[i], q)));
    }
}

/// Placing a bot of height `height` and team `team` on an empty square `s`
/// preserves the frame invariant and gives the square that height.
pub proof fn lemma_with_frames(b0: Seq<u64>, s: u64, team: int, height: int)
    requires
        frames_wf(b0),
        s < 64,
        1 <= height < 13,
        team == WHITE || team == BLACK,
        !occupied(b0, s),
    ensures
        frames_wf(
            b0.update(team, b0[team] | (1u64 << s)).update(height, b0[height] | (1u64 << s)),
        ),
        spec_height(
            b0.update(team, b0[team] | (1u64 << s)).update(height, b0[height] | (1u64 << s)),
            s,
        ) == height,
{
    lemma_bit_ops();
    lemma_empty_square(b0, s);
    let b2 = b0.update(team, b0[team] | (1u64 << s)).update(height, b0[height] | (1u64 << s));
    assert forall|t: u64| t < 64 implies !(bit(b2[WHITE as int], t) && bit(
        b2[BLACK as int],
        t,
    )) by {
        if t != s {
            assert(bit(b0[WHITE as int] & b0[BLACK as int], t) == (bit(b0[WHITE as int], t) && bit(
                b0[BLACK as int],
                t,
            )));
            assert(!bit(0u64, t));
        }
    }
    crate::bitwise::lemma_disjoint(b2[WHITE as int], b2[BLACK as int]);
    assert(heights_unique(b2));
    assert forall|q: u64| q < 64 implies (occupied(b2, q) == (#[trigger] spec_height(b2, q)
        != 0)) by {
        if q == s {
            lemma_height_is(b2, q, height);
        } else {
            assert(occupied(b2, q) == occupied(b0, q));
            assert(forall|h: int| 1 <= h < 13 ==> bit(b2[h], q) == bit(b0[h], q));
            lemma_height_same(b0, b2, q);
        }
    }
    lemma_height_is(b2, s, height);
}

/// Skipping empty height frames does not change the height found.
pub proof fn lemma_height_below(b: Seq<u64>, s: u64, k: int)
    requires
        1 <= k <= 13,
        forall|h: int| 1 <= h < k ==> !bit(b[h], s),
    ensures
        spec_height(b, s) == height_from(b, s, k),
    decreases k,
{
    if k > 1 {
        lemma_height_below(b, s, k - 1);
    }
}

/// Under the uniqueness invariant, a set bit in height frame `h` pins the
/// square's height to `h`.
pub proof fn lemma_height_is(b: Seq<u64>, s: u64, h: int)
    requires
        heights_unique(b),
        s < 64,
        1 <= h < 13,
        bit(b[h], s),
    ensures
        spec_height(b, s) == h,
{
    assert forall|j: int| 1 <= j < h implies !bit(b[j], s) by {
        if bit(b[j], s) {
            assert(j == h);
        }
    }
    lemma_height_below(b, s, h);
}

/// An empty square, under the matching invariant, has no bit in any height
/// frame.
pub proof fn lemma_empty_square(b: Seq<u64>, s: u64)
    requires
        frames_wf(b),
        s < 64,
        !occupied(b, s),
    ensures
        forall|h: int| 1 <= h < 13 ==> !bit(b[h], s),
        spec_height(b, s) == 0,
{
    assert forall|h: int| 1 <= h < 13 implies !bit(b[h], s) by {
        if bit(b[h], s) {
            lemma_height_is(b, s, h);
        }
    }
    lemma_height_below(b, s, 13);
}

impl Bitboard {
    /// Full well-formedness: valid turn pair, frame invariant, counts that
    /// agree with the team frames, and a hash that equals its definition.
    pub open spec fn wf(self) -> bool {
        &&& frames_wf(self.board@)
        &&& (self.turn == WHITE && self.opponent == BLACK) || (self.turn == BLACK && self.opponent
            == WHITE)
        &&& self.robots_white == spec_pcnt(self.board@[WHITE as int])
        &&& self.robots_black == spec_pcnt(self.board@[BLACK as int])
        &&& self.robots_total == self.robots_white + self.robots_black
        &&& self.hash == spec_hash(self.board@, self.turn)
    }

    /// What a directional action needs from the board before a delta can be
    /// computed and applied: the source holds enough of the mover's units,
    /// and the target is no opponent square and does not overflow height 12.
    pub open spec fn dir_action_ok(self, a: Action) -> bool {
        &&& a.robots >= 1
        &&& a.source < 64
        &&& a.target < 64
        &&& a.source != a.target
        &&& bit(self.board@[self.turn as int], a.source as u64)
        &&& spec_height(self.board@, a.source as u64) >= a.robots
        &&& !bit(self.board@[self.opponent as int], a.target as u64)
        &&& spec_height(self.board@, a.target as u64) != 0 ==> bit(
            self.board@[self.turn as int],
            a.target as u64,
        )
        &&& spec_height(self.board@, a.target as u64) + a.robots <= 12
    }

    /// What an explosion action needs: the source square holds a bot of the
    /// side to move.
    pub open spec fn boom_action_ok(self, a: Action) -> bool {
        &&& a.source < 64
        &&& bit(self.board@[self.turn as int], a.source as u64)
    }

    /// What `delta` and `make` need of an action.
    pub open spec fn action_ok(self, a: Action) -> bool {
        if a.robots == 0 {
            self.boom_action_ok(a)
        } else {
            self.dir_action_ok(a)
        }
    }

    /// Finds the height of the robot at the given single-bit position mask.
    pub fn height(&self, pos: u64) -> (r: u8)
        requires
            self.board@.len() == 14,
            pos != 0,
            pos == 1u64 << (u64_trailing_zeros(pos) as u64),
        ensures
            r == spec_height(self.board@, u64_trailing_zeros(pos) as u64),
            r <= 12,
    {
        self.height_loop(pos)
    }

    /// Finds the height by scanning the twelve height frames in order.
    pub fn height_loop(&self, pos: u64) -> (r: u8)
        requires
            self.board@.len() == 14,
            pos != 0,
            pos == 1u64 << (u64_trailing_zeros(pos) as u64),
        ensures
            r == spec_height(self.board@, u64_trailing_zeros(pos) as u64),
            r <= 12,
    {
        let ghost s = u64_trailing_zeros(pos) as u64;
        proof {
            lemma_bit_ops();
        }
        for i in 1..13usize
            invariant
                self.board@.len() == 14,
                pos != 0,
                pos == 1u64 << (s as u64),
                s == u64_trailing_zeros(pos) as u64,
                s < 64,
                forall|h: int| 1 <= h < i ==> !bit(self.board@[h], s),
        {
            if self.board[i] & pos != 0 {
                proof {
                    lemma_bit_ops();
                    assert(bit(self.board@[i as int], s));
                    lemma_height_below(self.board@, s, i as int);
                }
                return i as u8;
            }
            proof {
                lemma_bit_ops();
                assert(!bit(self.board@[i as int], s));
            }
        }
        proof {
            lemma_height_below(self.board@, s, 13);
        }
        0
    }

    /// Calculates the bitboard changes a directional action requires; pure,
    /// does not mutate.
    fn delta_directional(&self, action: Action) -> (r: DeltaDirectional)
        requires
            self.wf(),
            self.dir_action_ok(action),
        ensures
            r.applicable(*self),
            r.robots == action.robots,
            r.src() == action.source,
            r.tgt() == action.target,
            r.old_source_height == spec_height(self.board@, action.source as u64),
            r.old_target_height == spec_height(self.board@, action.target as u64),
            r.new_source_height == r.old_source_height - r.robots,
            r.new_target_height == r.old_target_height + r.robots,
    {
        let source_pos = Bitwise::pos(action.source);
        let target_pos = Bitwise::pos(action.target);
        let old_source_height = self.height(source_pos);
        let new_source_height = old_source_height - action.robots;
        let old_target_height = self.height(target_pos);
        let new_target_height = old_target_height + action.robots;
        DeltaDirectional {
            source_pos,
            target_pos,
            old_source_height,
            new_source_height,
            old_target_height,
            new_target_height,
            robots: action.robots,
        }
    }

    /// Calculates the explosion masks of a boom action: the flood fill of
    /// the occupied squares from the source, restricted to each frame.
    fn delta_explosion(&self, action: Action) -> (r: DeltaExplosion)
        requires
            self.wf(),
            self.boom_action_ok(action),
        ensures
            r.applicable(*self),
            r.board@.len() == 14,
            forall|i: int|
                0 <= i < 14 ==> r.board@[i] == (spec_flood(
                    self.board@[WHITE as int] | self.board@[BLACK as int],
                    action.source as u64,
                ) & #[trigger] self.board@[i]),
    {
        proof {
            lemma_bit_ops();
            assert(bit(
                self.board@[WHITE as int] | self.board@[BLACK as int],
                action.source as u64,
            ));
        }
        let explosion = Bitwise::dfs(self.board[WHITE] | self.board[BLACK], action.source);
        let mut masks: Vec<u64> = Vec::new();
        for i in 0..14usize
            invariant
                masks@.len() == i,
                self.board@.len() == 14,
                explosion == spec_flood(
                    self.board@[WHITE as int] | self.board@[BLACK as int],
                    action.source as u64,
                ),
                forall|j: int| 0 <= j < i ==> masks@[j] == (explosion & #[trigger] self.board@[j]),
        {
            masks.push(explosion & self.board[i]);
        }
        let r = DeltaExplosion { board: masks };
        proof {
            assert(r.masks_of(explosion, *self));
        }
        r
    }

    /// Takes an action and computes the changes required to update the
    /// board and its hash; pure, does not mutate.
    pub fn delta(&self, action: Action) -> (r: Delta)
        requires
            self.wf(),
            self.action_ok(action),
        ensures
            r.applicable(*self),
            action.robots == 0 ==> (r matches Delta::Explosion(de) && forall|i: int|
                0 <= i < 14 ==> de.board@[i] == (spec_flood(
                    self.board@[WHITE as int] | self.board@[BLACK as int],
                    action.source as u64,
                ) & #[trigger] self.board@[i])),
            action.robots != 0 ==> (r matches Delta::Directional(dd) && dd.robots == action.robots
                && dd.src() == action.source && dd.tgt() == action.target && dd.old_source_height
                == spec_height(self.board@, action.source as u64) && dd.old_target_height
                == spec_height(self.board@, action.target as u64) && dd.new_source_height
                == dd.old_source_height - dd.robots && dd.new_target_height == dd.old_target_height
                + dd.robots),
    {
        match action.robots {
            0 => Delta::Explosion(self.delta_explosion(action)),
            _ => Delta::Directional(self.delta_directional(action)),
        }
    }

    /// Applies a precomputed directional delta to the frames and returns
    /// the XOR of the Zobrist keys it toggles.
    #[verifier::rlimit(100)]
    fn make_directional(&mut self, delta: &DeltaDirectional) -> (hash_delta: u64)
        requires
            old(self).wf(),
            delta.applicable(*old(self)),
        ensures
            final(self).board@ == spec_make_dir(old(self).board@, old(self).turn as int, *delta),
            hash_delta == spec_dir_hash_delta(old(self).turn as int, *delta),
            final(self).hash == old(self).hash,
            final(self).turn == old(self).turn,
            final(self).opponent == old(self).opponent,
            final(self).robots_white == old(self).robots_white,
            final(self).robots_black == old(self).robots_black,
            final(self).robots_total == old(self).robots_total,
    {
        let ghost bs = self.board@;
        let ghost turn_g = self.turn as int;
        let ghost s = delta.src();
        let ghost t = delta.tgt();
        let osh = delta.old_source_height as usize;
        let nsh = delta.new_source_height as usize;
        let oth = delta.old_target_height as usize;
        let nth = delta.new_target_height as usize;
        proof {
            lemma_bit_ops();
            lemma_height_bit(bs, s);
            if delta.old_target_height != 0 {
                lemma_height_bit(bs, t);
            } else {
                assert(!occupied(bs, t));
                lemma_empty_square(bs, t);
            }
            assert(bit(bs[osh as int], s));
            assert(delta.new_source_height != 0 ==> !bit(bs[nsh as int], s));
            assert(!bit(bs[nth as int], t));
        }
        let mut hash_delta: u64 = 0;

        // Update the source square.
        if delta.new_source_height != 0 {
            // Units remain at the source: move its bit between height frames.
            proof {
                crate::bitwise::lemma_or_is_xor(bs[nsh as int], s);
            }
            self.board[osh] = self.board[osh] ^ delta.source_pos;
            self.board[nsh] = self.board[nsh] | delta.source_pos;
            let pos = Bitwise::idx(delta.source_pos);
            hash_delta = hash_delta ^ zobrist(osh, pos);
            hash_delta = hash_delta ^ zobrist(nsh, pos);
        } else {
            // The whole stack leaves: clear the height and team frames.
            proof {
                crate::bitwise::lemma_andnot_is_xor(bs[osh as int], s);
            }
            self.board[osh] = self.board[osh] & !delta.source_pos;
            let turn_idx = self.turn;
            self.board[turn_idx] = self.board[turn_idx] ^ delta.source_pos;
            let pos = Bitwise::idx(delta.source_pos);
            hash_delta = hash_delta ^ zobrist(osh, pos);
            hash_delta = hash_delta ^ zobrist(turn_idx, pos);
        }
        let ghost b2 = self.board@;

        // Update the target square.
        if delta.old_target_height != 0 {
            // Stacking onto an own bot: move its bit between height frames.
            proof {
                assert(!bit(b2[nth as int], t));
                crate::bitwise::lemma_or_is_xor(b2[nth as int], t);
            }
            self.board[oth] = self.board[oth] ^ delta.target_pos;
            self.board[nth] = self.board[nth] | delta.target_pos;
            let pos = Bitwise::idx(delta.target_pos);
            hash_delta = hash_delta ^ zobrist(oth, pos);
            hash_delta = hash_delta ^ zobrist(nth, pos);
        } else {
            // The target was empty: create its height bit and team bit.
            proof {
                assert(!bit(b2[nth as int], t));
                crate::bitwise::lemma_or_is_xor(b2[nth as int], t);
                assert(!bit(b2[old(self).turn as int], t));
                crate::bitwise::lemma_or_is_xor(b2[old(self).turn as int], t);
            }
            self.board[nth] = self.board[nth] | delta.target_pos;
            let turn_idx = self.turn;
            self.board[turn_idx] = self.board[turn_idx] | delta.target_pos;
            let pos = Bitwise::idx(delta.target_pos);
            hash_delta = hash_delta ^ zobrist(nth, pos);
            hash_delta = hash_delta ^ zobrist(turn_idx, pos);
        }
        proof {
            assert(self.board@ == spec_make_dir(bs, turn_g, *delta));
            let k1 = spec_zobrist(osh as int, s as int);
            let k2 = if nsh != 0 {
                spec_zobrist(nsh as int, s as int)
            } else {
                spec_zobrist(turn_g, s as int)
            };
            let k3 = if oth != 0 {
                spec_zobrist(oth as int, t as int)
            } else {
                spec_zobrist(nth as int, t as int)
            };
            let k4 = if oth != 0 {
                spec_zobrist(nth as int, t as int)
            } else {
                spec_zobrist(turn_g, t as int)
            };
            lemma_xor_shuffle(k1, k2, 0);
            lemma_xor_shuffle(k1 ^ k2, k3, k4);
            assert(hash_delta == spec_dir_hash_delta(turn_g, *delta));
        }
        hash_delta
    }

    /// Takes a directional delta and undoes it from the frames: every bit
    /// the delta toggled is toggled back.
    fn undo_directional(&mut self, delta: &DeltaDirectional)
        requires
            undo_dir_pre(old(self).board@, old(self).turn as int, *delta),
            old(self).turn < 14,
        ensures
            final(self).board@ == spec_undo_dir(old(self).board@, old(self).turn as int, *delta),
            final(self).hash == old(self).hash,
            final(self).turn == old(self).turn,
            final(self).opponent == old(self).opponent,
            final(self).robots_white == old(self).robots_white,
            final(self).robots_black == old(self).robots_black,
            final(self).robots_total == old(self).robots_total,
    {
        let ghost bs = self.board@;
        let ghost turn_g = self.turn as int;
        let ghost s = delta.src();
        let ghost t = delta.tgt();
        let osh = delta.old_source_height as usize;
        let nsh = delta.new_source_height as usize;
        let oth = delta.old_target_height as usize;
        let nth = delta.new_target_height as usize;
        proof {
            lemma_bit_ops();
        }

        // Restore the source square.
        if delta.new_source_height != 0 {
            proof {
                crate::bitwise::lemma_or_is_xor(bs[osh as int], s);
            }
            self.board[osh] = self.board[osh] | delta.source_pos;
            self.board[nsh] = self.board[nsh] ^ delta.source_pos;
        } else {
            proof {
                crate::bitwise::lemma_or_is_xor(bs[osh as int], s);
                assert(!bit(bs[turn_g], s));
                crate::bitwise::lemma_or_is_xor(bs[turn_g], s);
            }
            self.board[osh] = self.board[osh] | delta.source_pos;
            let turn_idx = self.turn;
            self.board[turn_idx] = self.board[turn_idx] | delta.source_pos;
        }
        let ghost b2 = self.board@;

        // Restore the target square.
        if delta.old_target_height != 0 {
            proof {
                assert(!bit(b2[oth as int], t));
                crate::bitwise::lemma_or_is_xor(b2[oth as int], t);
            }
            self.board[oth] = self.board[oth] | delta.target_pos;
            self.board[nth] = self.board[nth] ^ delta.target_pos;
        } else {
            self.board[nth] = self.board[nth] ^ delta.target_pos;
            let turn_idx = self.turn;
            self.board[turn_idx] = self.board[turn_idx] ^ delta.target_pos;
        }
        proof {
            assert(self.board@ == spec_undo_dir(bs, turn_g, *delta));
        }
    }

    /// Applies a precomputed explosion delta onto the frames and returns
    /// the XOR of the Zobrist keys of all cleared bits.
    fn make_explosion(&mut self, delta: &DeltaExplosion) -> (hash_delta: u64)
        requires
            old(self).board@.len() == 14,
            delta.board@.len() == 14,
        ensures
            final(self).board@ == spec_make_expl(old(self).board@, delta.board@),
            hash_delta == boards_keys(delta.board@, 14),
            final(self).hash == old(self).hash,
            final(self).turn == old(self).turn,
            final(self).opponent == old(self).opponent,
            final(self).robots_white == old(self).robots_white,
            final(self).robots_black == old(self).robots_black,
            final(self).robots_total == old(self).robots_total,
    {
        let ghost bs = self.board@;
        for i in 0..14usize
            invariant
                self.board@.len() == 14,
                delta.board@.len() == 14,
                forall|j: int| 0 <= j < i ==> self.board@[j] == (bs[j] & !delta.board@[j]),
                forall|j: int| i <= j < 14 ==> self.board@[j] == bs[j],
                self.hash == old(self).hash,
                self.turn == old(self).turn,
                self.opponent == old(self).opponent,
                self.robots_white == old(self).robots_white,
                self.robots_black == old(self).robots_black,
                self.robots_total == old(self).robots_total,
        {
            self.board[i] = self.board[i] & !delta.board[i];
        }
        proof {
            assert(self.board@ =~= spec_make_expl(bs, delta.board@));
        }
        let mut hash_delta: u64 = 0;
        for i in 0..14usize
            invariant
                delta.board@.len() == 14,
                hash_delta == boards_keys(delta.board@, i as int),
        {
            hash_delta = hash_delta ^ frame_hash(i, delta.board[i]);
        }
        hash_delta
    }

    /// Takes a precomputed explosion delta and undoes it from the frames:
    /// every cleared bit is set again.
    fn undo_explosion(&mut self, delta: &DeltaExplosion)
        requires
            old(self).board@.len() == 14,
            delta.board@.len() == 14,
        ensures
            final(self).board@ == spec_undo_expl(old(self).board@, delta.board@),
            final(self).hash == old(self).hash,
            final(self).turn == old(self).turn,
            final(self).opponent == old(self).opponent,
            final(self).robots_white == old(self).robots_white,
            final(self).robots_black == old(self).robots_black,
            final(self).robots_total == old(self).robots_total,
    {
        let ghost bs = self.board@;
        for i in 0..14usize
            invariant
                self.board@.len() == 14,
                delta.board@.len() == 14,
                forall|j: int| 0 <= j < i ==> self.board@[j] == (bs[j] | delta.board@[j]),
                forall|j: int| i <= j < 14 ==> self.board@[j] == bs[j],
                self.hash == old(self).hash,
                self.turn == old(self).turn,
                self.opponent == old(self).opponent,
                self.robots_white == old(self).robots_white,
                self.robots_black == old(self).robots_black,
                self.robots_total == old(self).robots_total,
        {
            self.board[i] = self.board[i] | delta.board[i];
        }
        proof {
            assert(self.board@ =~= spec_undo_expl(bs, delta.board@));
        }
    }

    /// Takes a precomputed delta, applies it onto the board, folds its keys
    /// and the turn key into the hash, toggles the side to move, and
    /// refreshes the square counts. Returns the applied key XOR so that
    /// `undo` can reverse it.
    pub fn make(&mut self, delta: &Delta) -> (hash_delta: u64)
        requires
            old(self).wf(),
            delta.applicable(*old(self)),
        ensures
            final(self).wf(),
            final(self).board@ == spec_make_frames(
                old(self).board@,
                old(self).turn as int,
                *delta,
            ),
            hash_delta == spec_hash_delta(*old(self), *delta),
            final(self).hash == (old(self).hash ^ hash_delta) ^ spec_zobrist_turn(),
            final(self).turn == old(self).opponent,
            final(self).opponent == old(self).turn,
            delta.undo_pre(final(self).board@, final(self).opponent as int),
    {
        let ghost pre = *self;
        // Update the board.
        let hash_delta = match delta {
            Delta::Explosion(explosion) => self.make_explosion(explosion),
            Delta::Directional(directional) => self.make_directional(directional),
        };

        // Fold the toggled keys into the hash.
        self.hash = self.hash ^ hash_delta;

        // Toggle the turn player.
        self.toggle_turn();
        self.update_robot_counts();

        proof {
            let bs = pre.board@;
            let oturn = pre.turn;
            match delta {
                Delta::Directional(dd) => {
                    lemma_make_dir_ok(pre, *dd);
                    lemma_dir_hash(bs, oturn, oturn as int, *dd);
                },
                Delta::Explosion(de) => {
                    let e = choose|e: u64| de.masks_of(e, pre);
                    lemma_make_expl_ok(pre, e, *de);
                    lemma_expl_hash(bs, oturn, de.board@);
                },
            }
            lemma_hash_turn(self.board@);
            assert(self.hash == spec_hash(self.board@, self.turn));
        }
        hash_delta
    }

    /// Takes a delta and the hash XOR that `make` returned and restores the
    /// board, hash, turn and counts that preceded that `make`.
    pub fn undo(&mut self, delta: &Delta, hash_delta: u64)
        requires
            old(self).board@.len() == 14,
            (old(self).turn == WHITE && old(self).opponent == BLACK) || (old(self).turn == BLACK
                && old(self).opponent == WHITE),
            delta.undo_pre(old(self).board@, old(self).opponent as int),
        ensures
            final(self).board@ == spec_undo_frames(
                old(self).board@,
                old(self).opponent as int,
                *delta,
            ),
            final(self).hash == (old(self).hash ^ spec_zobrist_turn()) ^ hash_delta,
            final(self).turn == old(self).opponent,
            final(self).opponent == old(self).turn,
            final(self).robots_white == spec_pcnt(final(self).board@[WHITE as int]),
            final(self).robots_black == spec_pcnt(final(self).board@[BLACK as int]),
            final(self).robots_total == final(self).robots_white + final(self).robots_black,
    {
        self.toggle_turn();

        // Undo the hash update.
        self.hash = self.hash ^ hash_delta;

        // Undo the move.
        match delta {
            Delta::Explosion(explosion) => self.undo_explosion(explosion),
            Delta::Directional(directional) => self.undo_directional(directional),
        };
        self.update_robot_counts();
    }

    /// Recomputes the per-team square counts from the team frames.
    fn update_robot_counts(&mut self)
        requires
            old(self).board@.len() == 14,
        ensures
            final(self).board == old(self).board,
            final(self).hash == old(self).hash,
            final(self).turn == old(self).turn,
            final(self).opponent == old(self).opponent,
            final(self).robots_white == spec_pcnt(final(self).board@[WHITE as int]),
            final(self).robots_black == spec_pcnt(final(self).board@[BLACK as int]),
            final(self).robots_total == final(self).robots_white + final(self).robots_black,
    {
        let white = Bitwise::pcnt(self.board[WHITE]);
        let black = Bitwise::pcnt(self.board[BLACK]);
        self.robots_white = white as i16;
        self.robots_black = black as i16;
        self.robots_total = self.robots_white + self.robots_black;
    }

    /// Swaps the side to move and folds the turn key into the hash.
    fn toggle_turn(&mut self)
        ensures
            final(self).board == old(self).board,
            final(self).hash == old(self).hash ^ spec_zobrist_turn(),
            final(self).turn == old(self).opponent,
            final(self).opponent == old(self).turn,
            final(self).robots_white == old(self).robots_white,
            final(self).robots_black == old(self).robots_black,
            final(self).robots_total == old(self).robots_total,
    {
        let previous = self.turn;
        self.turn = self.opponent;
        self.opponent = previous;
        self.hash = self.hash ^ zobrist_turn();
    }

    /// The board with no pieces and white to move.
    pub fn empty() -> (r: Bitboard)
        ensures
            r.wf(),
            r.board@ == Seq::new(14, |i: int| 0u64),
            r.turn == WHITE,
            r.opponent == BLACK,
            r.robots_white == 0,
            r.robots_black == 0,
            r.robots_total == 0,
            r.hash == ZOBRIST_INITIAL,
    {
        let board: Vec<u64> = vec![0u64; 14];
        let r = Bitboard {
            board,
            turn: WHITE,
            opponent: BLACK,
            hash: ZOBRIST_INITIAL,
            robots_white: 0,
            robots_black: 0,
            robots_total: 0,
        };
        proof {
            lemma_bit_ops();
            lemma_boards_keys_zero(r.board@, 14);
            lemma_count_bits_zero(64);
            lemma_xor_shuffle(ZOBRIST_INITIAL, 0, 0);
            lemma_xor_shuffle(0, 0, 0);
            assert forall|s: u64| s < 64 implies (occupied(r.board@, s) == (#[trigger] spec_height(
                r.board@,
                s,
            ) != 0)) by {
                lemma_height_below(r.board@, s, 13);
            }
            assert(r.board@ =~= Seq::new(14, |i: int| 0u64));
        }
        r
    }

    /// The initial position: twelve pieces of height 1 on each side's two
    /// back rows, white to move.
    pub fn new() -> (r: Bitboard)
        ensures
            r.wf(),
            r.board@[WHITE as int] == 0xdbdbu64,
            r.board@[BLACK as int] == 0xdbdb_0000_0000_0000u64,
            r.board@[1] == 0xdbdbu64 | 0xdbdb_0000_0000_0000u64,
            forall|i: int| 2 <= i < 13 ==> r.board@[i] == 0,
            r.turn == WHITE,
            r.opponent == BLACK,
            r.robots_white == spec_pcnt(0xdbdbu64),
            r.robots_black == spec_pcnt(0xdbdb_0000_0000_0000u64),
            r.robots_total == r.robots_white + r.robots_black,
    {
        let white: u64 = 0xdbdb;
        let black: u64 = 0xdbdb_0000_0000_0000;
        let mut board: Vec<u64> = vec![0u64; 14];
        let ghost zeros = board@;
        board[WHITE] = white;
        let ghost b1 = board@;
        board[BLACK] = black;
        let ghost b2 = board@;
        board[1] = white | black;
        let hash = (ZOBRIST_INITIAL ^ frame_hash(WHITE, white)) ^ frame_hash(BLACK, black)
            ^ frame_hash(1, white | black);
        let mut r = Bitboard {
            board,
            turn: WHITE,
            opponent: BLACK,
            hash,
            robots_white: 0,
            robots_black: 0,
            robots_total: 0,
        };
        proof {
            lemma_bit_ops();
            lemma_boards_keys_zero(zeros, 14);
            lemma_xor_keys_zero(WHITE as int, 64);
            lemma_xor_keys_zero(BLACK as int, 64);
            lemma_xor_keys_zero(1, 64);
            assert(b1 == zeros.update(WHITE as int, white));
            lemma_boards_keys_update(zeros, WHITE as int, white, 14);
            assert(b2 == b1.update(BLACK as int, black));
            lemma_boards_keys_update(b1, BLACK as int, black, 14);
            assert(r.board@ == b2.update(1, white | black));
            lemma_boards_keys_update(b2, 1, white | black, 14);
            let kw = frame_keys(WHITE as int, white);
            let kb = frame_keys(BLACK as int, black);
            let k1 = frame_keys(1, white | black);
            lemma_xor_shuffle(0, 0, 0);
            lemma_xor_shuffle(kw, 0, 0);
            assert(boards_keys(b1, 14) == kw);
            lemma_xor_shuffle(kw, kb, 0);
            assert(boards_keys(b2, 14) == kw ^ kb);
            lemma_xor_shuffle(kw ^ kb, k1, 0);
            assert(boards_keys(r.board@, 14) == (kw ^ kb) ^ k1);
            lemma_xor_shuffle(ZOBRIST_INITIAL, kw ^ kb, k1);
            lemma_xor_shuffle(ZOBRIST_INITIAL, kw, kb);
            lemma_xor_shuffle(r.hash, 0, 0);
            assert(r.hash == spec_hash(r.board@, WHITE));
            assert(0xdbdbu64 & 0xdbdb_0000_0000_0000u64 == 0) by (bit_vector);
            assert(r.board@[WHITE as int] & r.board@[BLACK as int] == 0);
            assert forall|s: u64| s < 64 implies (occupied(r.board@, s) == (#[trigger] spec_height(
                r.board@,
                s,
            ) != 0)) by {
                assert(bit(white | black, s) == (bit(white, s) || bit(black, s)));
                if bit(r.board@[1], s) {
                    lemma_height_is(r.board@, s, 1);
                } else {
                    lemma_height_below(r.board@, s, 13);
                }
            }
        }
        r.update_robot_counts();
        r
    }

    /// Adds a bot of the given height and team on the single-bit position
    /// mask, which must name an empty square.
    #[verifier::rlimit(100)]
    pub fn with(self, pos: u64, height: usize, team: usize) -> (r: Bitboard)
        requires
            self.wf(),
            pos != 0,
            pos == 1u64 << (u64_trailing_zeros(pos) as u64),
            1 <= height <= 12,
            team == WHITE || team == BLACK,
            !occupied(self.board@, u64_trailing_zeros(pos) as u64),
        ensures
            r.wf(),
            r.board@ == self.board@.update(team as int, self.board@[team as int] | pos).update(
                height as int,
                self.board@[height as int] | pos,
            ),
            r.turn == self.turn,
            r.opponent == self.opponent,
            r.robots_white == self.robots_white + (if team == WHITE {
                1int
            } else {
                0int
            }),
            r.robots_black == self.robots_black + (if team == BLACK {
                1int
            } else {
                0int
            }),
            r.robots_total == self.robots_total + 1,
    {
        let ghost s = u64_trailing_zeros(pos) as u64;
        let ghost b0 = self.board@;
        let mut r = self;
        proof {
            lemma_bit_ops();
            lemma_empty_square(b0, s);
        }
        let idx = Bitwise::idx(pos);
        r.board[team] = r.board[team] | pos;
        let ghost b1 = r.board@;
        r.board[height] = r.board[height] | pos;
        r.hash = (r.hash ^ zobrist(team, idx)) ^ zobrist(height, idx);
        proof {
            lemma_bit_ops();
            crate::bitwise::lemma_or_is_xor(b0[team as int], s);
            crate::bitwise::lemma_or_is_xor(b0[height as int], s);
            assert(b1 == b0.update(team as int, b0[team as int] ^ (1u64 << s)));
            lemma_hash_toggle(b0, r.turn, team as int, s);
            assert(r.board@ == b1.update(height as int, b1[height as int] ^ (1u64 << s)));
            lemma_hash_toggle(b1, r.turn, height as int, s);
            assert(r.hash == spec_hash(r.board@, r.turn));
            lemma_with_frames(b0, s, team as int, height as int);
            assert(frames_wf(r.board@));
            lemma_count_bits_toggle(b0[team as int], s, 64);
        }
        r.update_robot_counts();
        proof {
            if team == WHITE {
                assert(r.board@[BLACK as int] == b0[BLACK as int]);
            } else {
                assert(r.board@[WHITE as int] == b0[WHITE as int]);
            }
        }
        r
    }
}

/// Make/undo symmetry: for every well-formed board and every delta that
/// fits it, applying the delta leaves a board that `undo` accepts, and
/// undoing restores the frames bit-identically; undoing the hash updates
/// restores the hash. Together with the contracts of `make` and `undo`,
/// applying a delta and then undoing it with the returned hash XOR leaves
/// every field of the board exactly as it was.
pub proof fn lemma_make_undo(b: Bitboard, d: Delta)
    requires
        b.wf(),
        d.applicable(b),
    ensures
        frames_wf(spec_make_frames(b.board@, b.turn as int, d)),
        d.undo_pre(spec_make_frames(b.board@, b.turn as int, d), b.turn as int),
        spec_undo_frames(spec_make_frames(b.board@, b.turn as int, d), b.turn as int, d)
            == b.board@,
        (((b.hash ^ spec_hash_delta(b, d)) ^ spec_zobrist_turn()) ^ spec_zobrist_turn())
            ^ spec_hash_delta(b, d) == b.hash,
{
    match d {
        Delta::Directional(dd) => {
            lemma_make_dir_ok(b, dd);
        },
        Delta::Explosion(de) => {
            let e = choose|e: u64| de.masks_of(e, b);
            lemma_make_expl_ok(b, e, de);
        },
    }
    let k = spec_hash_delta(b, d);
    lemma_xor_shuffle(b.hash ^ k, spec_zobrist_turn(), k);
    lemma_xor_shuffle(b.hash, k, 0);
}

/// Computes the XOR of the Zobrist keys of frame `fi` over the set bits of
/// `m`.
fn frame_hash(fi: usize, m: u64) -> (r: u64)
    requires
        fi < 14,
    ensures
        r == frame_keys(fi as int, m),
{
    let mut acc: u64 = 0;
    let mut rest = m;
    proof {
        lemma_xor_shuffle(frame_keys(fi as int, m), 0, 0);
    }
    while rest != 0
        invariant
            fi < 14,
            acc ^ frame_keys(fi as int, rest) == frame_keys(fi as int, m),
        decreases rest,
    {
        let ghost prev = rest;
        let ghost acc0 = acc;
        let b = Bitwise::lsb(rest);
        proof {
            lemma_bit_ops();
            assert(bit(b, u64_trailing_zeros(rest) as u64));
            assert(b != 0);
        }
        let s = Bitwise::idx(b);
        proof {
            assert(bit(rest, s as u64));
        }
        rest = rest ^ b;
        acc = acc ^ zobrist(fi, s);
        proof {
            let k = spec_zobrist(fi as int, s as int);
            let f0 = frame_keys(fi as int, prev);
            lemma_frame_keys_toggle(fi as int, prev, s as u64);
            assert(frame_keys(fi as int, rest) == f0 ^ k);
            lemma_xor_shuffle4(acc0, k, f0, k);
            lemma_xor_shuffle(k, 0, 0);
            lemma_xor_shuffle(acc0 ^ f0, 0, 0);
            assert(acc ^ frame_keys(fi as int, rest) == acc0 ^ f0);
        }
    }
    proof {
        lemma_xor_keys_zero(fi as int, 64);
        lemma_xor_shuffle(acc, 0, 0);
    }
    acc
}

/// Two boards whose height frames agree at a square have the same height
/// there.
pub proof fn lemma_height_same(a: Seq<u64>, b: Seq<u64>, s: u64)
    requires
        forall|h: int| 1 <= h < 13 ==> bit(a[h], s) == bit(b[h], s),
    ensures
        spec_height(a, s) == spec_height(b, s),
{
    lemma_height_same_from(a, b, s, 1);
}

/// Helper for `lemma_height_same`: scanning from any start agrees.
proof fn lemma_height_same_from(a: Seq<u64>, b: Seq<u64>, s: u64, h: int)
    requires
        forall|j: int| 1 <= j < 13 ==> bit(a[j], s) == bit(b[j], s),
    ensures
        height_from(a, s, h) == height_from(b, s, h),
    decreases 13 - h,
{
    if 1 <= h < 13 {
        lemma_height_same_from(a, b, s, h + 1);
    }
}

} // verus!
