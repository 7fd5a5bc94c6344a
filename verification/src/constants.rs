//! Shared constants of the engine: frame indices, score bounds, row masks,
//! and the Zobrist key schedule.
//!
//! The Zobrist keys are derived deterministically from a fixed seed with the
//! splitmix64 mixer, so replays hash identically across runs and machines.

use vstd::prelude::*;

verus! {

/// Frame index of the white-team plane.
pub const WHITE: usize = 0;

/// Frame index of the black-team plane. Frames 1..=12 hold stack heights.
pub const BLACK: usize = 13;

/// Score of a won position for the side to move.
pub const WIN: i16 = 30000;

/// Score of a lost position for the side to move.
pub const LOSS: i16 = -30000;

/// Score of a drawn position.
pub const DRAW: i16 = 0;

/// Upper clamp for static evaluations; strictly below `WIN`.
pub const MAX: i16 = 25000;

/// Lower clamp for static evaluations; strictly above `LOSS`.
pub const MIN: i16 = -25000;

/// Zobrist hash of the empty board with white to move.
pub const ZOBRIST_INITIAL: u64 = 0x8c84_a3c0_17b2_55a1;

/// Seed of the Zobrist key schedule.
pub const ZOBRIST_SEED: u64 = 0x1623_7886_f53e_9cd5;

/// Odd increment of the splitmix64 sequence.
pub const ZOBRIST_GAMMA: u64 = 0x9e37_79b9_7f4a_7c15;

/// The finalizer of splitmix64: a fixed bijective mixing of a 64-bit word.
pub open spec fn spec_mix64(z: u64) -> u64 {
    let a = vstd::wrapping::u64_specs::wrapping_mul(z ^ (z >> 30), 0xbf58_476d_1ce4_e5b9);
    let b = vstd::wrapping::u64_specs::wrapping_mul(a ^ (a >> 27), 0x94d0_49bb_1331_11eb);
    b ^ (b >> 31)
}

/// The splitmix64 output at index `n`: mix of the seed advanced `n` steps.
pub open spec fn spec_splitmix(n: int) -> u64 {
    spec_mix64(
        vstd::wrapping::u64_specs::wrapping_add(
            ZOBRIST_SEED,
            vstd::wrapping::u64_specs::wrapping_mul(n as u64, ZOBRIST_GAMMA),
        ),
    )
}

/// Zobrist key of frame `frame` (0..14) at square `square` (0..64).
pub open spec fn spec_zobrist(frame: int, square: int) -> u64 {
    spec_splitmix(64 * frame + square + 1)
}

/// Zobrist key XORed into the hash while it is black's turn.
pub open spec fn spec_zobrist_turn() -> u64 {
    spec_splitmix(64int * 14 + 1)
}

/// Computes the splitmix64 output at index `n`.
fn splitmix(n: u64) -> (r: u64)
    ensures
        r == spec_splitmix(n as int),
{
    let z = ZOBRIST_SEED.wrapping_add(n.wrapping_mul(ZOBRIST_GAMMA));
    let a = (z ^ (z >> 30)).wrapping_mul(0xbf58_476d_1ce4_e5b9);
    let b = (a ^ (a >> 27)).wrapping_mul(0x94d0_49bb_1331_11eb);
    b ^ (b >> 31)
}

/// Computes the Zobrist key of `frame` at `square`.
pub fn zobrist(frame: usize, square: usize) -> (r: u64)
    requires
        frame < 14,
        square < 64,
    ensures
        r == spec_zobrist(frame as int, square as int),
{
    splitmix((64 * frame + square + 1) as u64)
}

/// Computes the turn key.
pub fn zobrist_turn() -> (r: u64)
    ensures
        r == spec_zobrist_turn(),
{
    splitmix(64 * 14 + 1)
}

/// Whether a stack of height `h` standing on square `s` can move to square
/// `t`: along one orthogonal axis, one to `h` squares, never off the board.
pub open spec fn orth_reach(s: int, t: int, h: int) -> bool {
    &&& 0 <= s < 64
    &&& 0 <= t < 64
    &&& t != s
    &&& ((crate::bitwise::sq_y(s) == crate::bitwise::sq_y(t) && crate::bitwise::dist1(
        crate::bitwise::sq_x(s),
        crate::bitwise::sq_x(t),
    ) <= h) || (crate::bitwise::sq_x(s) == crate::bitwise::sq_x(t) && crate::bitwise::dist1(
        crate::bitwise::sq_y(s),
        crate::bitwise::sq_y(t),
    ) <= h))
}

/// Computes the frame of target squares a stack of height `height` can
/// reach from `square`.
pub fn moves_lookup(height: usize, square: usize) -> (r: u64)
    requires
        1 <= height <= 12,
        square < 64,
    ensures
        forall|t: u64|
            t < 64 ==> (crate::bitwise::bit(r, t) == orth_reach(
                square as int,
                t as int,
                height as int,
            )),
{
    let sx = square % 8;
    let sy = square / 8;
    let mut r: u64 = 0;
    proof {
        crate::bitwise::lemma_bit_ops();
    }
    for t in 0..64usize
        invariant
            1 <= height <= 12,
            square < 64,
            sx == square % 8,
            sy == square / 8,
            forall|j: u64|
                j < t ==> (crate::bitwise::bit(r, j) == orth_reach(
                    square as int,
                    j as int,
                    height as int,
                )),
            forall|j: u64| t <= j < 64 ==> !crate::bitwise::bit(r, j),
    {
        let tx = t % 8;
        let ty = t / 8;
        let xd = if sx < tx {
            tx - sx
        } else {
            sx - tx
        };
        let yd = if sy < ty {
            ty - sy
        } else {
            sy - ty
        };
        let reach = t != square && ((yd == 0 && xd <= height) || (xd == 0 && yd <= height));
        if reach {
            r = r | (1u64 << (t as u64));
        }
        proof {
            crate::bitwise::lemma_bit_ops();
        }
    }
    r
}

/// Computes the frame of the eight neighbors of `square`.
pub fn adjacent_lookup(square: usize) -> (r: u64)
    requires
        square < 64,
    ensures
        r == crate::bitwise::spec_adj(1u64 << (square as u64)),
{
    crate::bitwise::Bitwise::adj(1u64 << (square as u64))
}

/// Mask of board row `y`: the eight squares with that rank.
pub open spec fn spec_row_mask(y: int) -> u64 {
    0xffu64 << (8 * y) as u64
}

/// Computes the mask of board row `y`.
pub fn row_mask(y: usize) -> (r: u64)
    requires
        y < 8,
    ensures
        r == spec_row_mask(y as int),
{
    0xffu64 << (8 * y) as u64
}

} // verus!
