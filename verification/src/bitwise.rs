//! Bit primitives over 64-bit board frames.
//!
//! A frame is a `u64` whose bit `s` stands for square `s` of the 8x8 board,
//! with `x = s % 8` and `y = s / 8`. The primitives here are population
//! count, least-set-bit isolation, bit-to-index conversion, 8-direction
//! adjacency and spreading, king-move distance, and flood fill.

use vstd::prelude::*;

verus! {

use vstd::std_specs::bits::u64_trailing_zeros;

broadcast use vstd::std_specs::bits::group_bits_axioms;

/// Mask of the squares with `x == 0` (the left column).
pub const COLUMN_LEFT: u64 = 0x0101_0101_0101_0101;

/// Mask of the squares with `x == 7` (the right column).
pub const COLUMN_RIGHT: u64 = 0x8080_8080_8080_8080;

/// The multiplier of the de Bruijn bit-index scheme: shifted copies of it
/// put a distinct 6-bit pattern in the top bits for every bit position.
pub const DEBRUIJN_MULTIPLY: u64 = 0x03f7_9d71_b4cb_0a89;

/// The de Bruijn lookup: maps the top six bits of the shifted multiplier
/// back to the bit position that produced them.
pub open spec fn debruijn_table(h: u64) -> u64 {
    if h == 0 {
        0
    } else if h == 1 {
        1
    } else if h == 2 {
        48
    } else if h == 3 {
        2
    } else if h == 4 {
        57
    } else if h == 5 {
        49
    } else if h == 6 {
        28
    } else if h == 7 {
        3
    } else if h == 8 {
        61
    } else if h == 9 {
        58
    } else if h == 10 {
        50
    } else if h == 11 {
        42
    } else if h == 12 {
        38
    } else if h == 13 {
        29
    } else if h == 14 {
        17
    } else if h == 15 {
        4
    } else if h == 16 {
        62
    } else if h == 17 {
        55
    } else if h == 18 {
        59
    } else if h == 19 {
        36
    } else if h == 20 {
        53
    } else if h == 21 {
        51
    } else if h == 22 {
        43
    } else if h == 23 {
        22
    } else if h == 24 {
        45
    } else if h == 25 {
        39
    } else if h == 26 {
        33
    } else if h == 27 {
        30
    } else if h == 28 {
        24
    } else if h == 29 {
        18
    } else if h == 30 {
        12
    } else if h == 31 {
        5
    } else if h == 32 {
        63
    } else if h == 33 {
        47
    } else if h == 34 {
        56
    } else if h == 35 {
        27
    } else if h == 36 {
        60
    } else if h == 37 {
        41
    } else if h == 38 {
        37
    } else if h == 39 {
        16
    } else if h == 40 {
        54
    } else if h == 41 {
        35
    } else if h == 42 {
        52
    } else if h == 43 {
        21
    } else if h == 44 {
        44
    } else if h == 45 {
        32
    } else if h == 46 {
        23
    } else if h == 47 {
        11
    } else if h == 48 {
        46
    } else if h == 49 {
        26
    } else if h == 50 {
        40
    } else if h == 51 {
        15
    } else if h == 52 {
        34
    } else if h == 53 {
        20
    } else if h == 54 {
        31
    } else if h == 55 {
        10
    } else if h == 56 {
        25
    } else if h == 57 {
        14
    } else if h == 58 {
        19
    } else if h == 59 {
        9
    } else if h == 60 {
        13
    } else if h == 61 {
        8
    } else if h == 62 {
        7
    } else {
        6
    }
}

/// Whether bit `s` of frame `f` is set.
pub open spec fn bit(f: u64, s: u64) -> bool {
    (f >> s) & 1u64 == 1u64
}

/// The x coordinate (column) of square `s`.
pub open spec fn sq_x(s: int) -> int {
    s % 8
}

/// The y coordinate (row) of square `s`.
pub open spec fn sq_y(s: int) -> int {
    s / 8
}

/// Absolute difference of two coordinates.
pub open spec fn dist1(a: int, b: int) -> int {
    if a < b {
        b - a
    } else {
        a - b
    }
}

/// King-move (Chebyshev) distance between squares `s` and `t`.
pub open spec fn king_dist(s: int, t: int) -> int {
    let dx = dist1(sq_x(s), sq_x(t));
    let dy = dist1(sq_y(s), sq_y(t));
    if dx < dy {
        dy
    } else {
        dx
    }
}

/// Whether distinct on-board squares `s` and `t` touch in one of the eight
/// directions.
pub open spec fn king_adj(s: int, t: int) -> bool {
    0 <= s < 64 && 0 <= t < 64 && s != t && king_dist(s, t) <= 1
}

/// The 8-direction neighbor mask of `f`: every square touching a set square,
/// the set squares themselves excluded. Built from the eight masked shifts.
pub open spec fn spec_adj(f: u64) -> u64 {
    (((f & !COLUMN_LEFT) >> 1) | ((f & !COLUMN_RIGHT) << 1) | (f << 8) | (f >> 8) | ((f
        & !COLUMN_LEFT) << 7) | ((f & !COLUMN_RIGHT) << 9) | ((f & !COLUMN_LEFT) >> 9) | ((f
        & !COLUMN_RIGHT) >> 7)) & !f
}

/// The spread of `f`: its neighbors together with `f` itself.
pub open spec fn spec_spread(f: u64) -> u64 {
    spec_adj(f) | f
}

/// Number of set bits among the low `n` bits of `f`.
pub open spec fn count_bits(f: u64, n: int) -> int
    decreases n,
{
    if n <= 0 {
        0
    } else {
        count_bits(f, n - 1) + if bit(f, (n - 1) as u64) {
            1int
        } else {
            0int
        }
    }
}

/// Population count of a frame.
pub open spec fn spec_pcnt(f: u64) -> int {
    count_bits(f, 64)
}

/// A bit count lies between 0 and the number of counted positions.
pub proof fn lemma_count_bits_bound(f: u64, n: int)
    ensures
        0 <= count_bits(f, n) <= (if n >= 0 {
            n
        } else {
            0
        }),
    decreases n,
{
    if n > 0 {
        lemma_count_bits_bound(f, n - 1);
    }
}

/// Bitwise facts the default solver does not export: how `|`, `&`, `^`, `!`
/// and the zero frame act on single bits.
pub proof fn lemma_bit_ops()
    by (bit_vector)
    ensures
        forall|a: u64, b: u64, t: u64|
            t < 64 ==> #[trigger] bit(a | b, t) == (bit(a, t) || bit(b, t)),
        forall|a: u64, b: u64, t: u64|
            t < 64 ==> #[trigger] bit(a & b, t) == (bit(a, t) && bit(b, t)),
        forall|a: u64, b: u64, t: u64|
            t < 64 ==> #[trigger] bit(a ^ b, t) == (bit(a, t) != bit(b, t)),
        forall|a: u64, t: u64| t < 64 ==> #[trigger] bit(!a, t) == !bit(a, t),
        forall|t: u64| t < 64 ==> !#[trigger] bit(0u64, t),
        forall|a: u64, b: u64| a != b ==> a ^ b != 0u64,
        forall|s: u64| s < 64 ==> #[trigger] bit(1u64 << s, s),
        forall|s: u64, t: u64| s < 64 && t < 64 && s != t ==> !#[trigger] bit(1u64 << s, t),
        forall|f: u64, s: u64| s < 64 ==> ((f & (1u64 << s)) != 0) == #[trigger] bit(f, s),
        forall|f: u64, s: u64, t: u64|
            s < 64 && t < 64 ==> #[trigger] bit(f | (1u64 << s), t) == (bit(f, t) || t == s),
        forall|f: u64, s: u64, t: u64|
            s < 64 && t < 64 ==> #[trigger] bit(f & !(1u64 << s), t) == (bit(f, t) && t != s),
        forall|f: u64, s: u64, t: u64|
            s < 64 && t < 64 ==> #[trigger] bit(f ^ (1u64 << s), t) == (bit(f, t) != (t == s)),
        forall|f: u64, s: u64| s < 64 && bit(f, s) ==> #[trigger] (f ^ (1u64 << s)) < f,
{
}

/// Ground exclusive-or algebra over three frames. Stated without quantified
/// associativity and commutativity, which would let the solver rewrite
/// endlessly; callers instantiate the terms they shuffle.
pub proof fn lemma_xor_shuffle(a: u64, b: u64, c: u64)
    by (bit_vector)
    ensures
        a ^ 0u64 == a,
        0u64 ^ a == a,
        a ^ a == 0u64,
        a & a == a,
        a & 0u64 == 0u64,
        a ^ b == b ^ a,
        (a ^ b) ^ c == a ^ (b ^ c),
        (a ^ b) ^ b == a,
        (a ^ b) ^ (b ^ c) == a ^ c,
        ((a ^ b) ^ c) == ((a ^ c) ^ b),
{
}

/// Ground exclusive-or algebra over four frames.
pub proof fn lemma_xor_shuffle4(a: u64, b: u64, c: u64, d: u64)
    by (bit_vector)
    ensures
        ((a ^ b) ^ c) ^ d == ((a ^ d) ^ b) ^ c,
        ((a ^ b) ^ c) ^ d == ((a ^ b) ^ d) ^ c,
        ((a ^ b) ^ c) ^ d == a ^ ((b ^ c) ^ d),
        ((a ^ b) ^ (c ^ d)) == ((a ^ c) ^ (b ^ d)),
{
}

/// Setting a clear bit is the same as toggling it.
pub proof fn lemma_or_is_xor(f: u64, s: u64)
    requires
        s < 64,
        !bit(f, s),
    ensures
        f | (1u64 << s) == f ^ (1u64 << s),
{
    lemma_bit_ops();
    lemma_bit_ext(f | (1u64 << s), f ^ (1u64 << s));
}

/// Clearing a set bit is the same as toggling it.
pub proof fn lemma_andnot_is_xor(f: u64, s: u64)
    requires
        s < 64,
        bit(f, s),
    ensures
        f & !(1u64 << s) == f ^ (1u64 << s),
{
    lemma_bit_ops();
    lemma_bit_ext(f & !(1u64 << s), f ^ (1u64 << s));
}

/// The trailing-zero count of a single-bit frame is its bit's index.
pub proof fn lemma_tz_shift(t: u64)
    requires
        t < 64,
    ensures
        u64_trailing_zeros(1u64 << t) == t,
        (1u64 << t) != 0,
{
    lemma_bit_ops();
    let v = 1u64 << t;
    assert(bit(v, t));
    assert(v != 0);
    let tv = u64_trailing_zeros(v) as u64;
    assert(tv < 64);
    if tv < t {
        assert((v >> tv) & 1u64 == 1u64);
        assert(bit(v, tv));
        assert(false);
    }
    if tv > t {
        assert((v >> t) & 1u64 == 0u64);
        assert(false);
    }
}

/// Frames that share no set bit have an empty intersection.
pub proof fn lemma_disjoint(a: u64, b: u64)
    requires
        forall|t: u64| t < 64 ==> !(bit(a, t) && bit(b, t)),
    ensures
        a & b == 0,
{
    lemma_bit_ops();
    lemma_bit_ext(a & b, 0);
}

/// Two frames with the same bits are the same frame.
pub proof fn lemma_bit_ext(a: u64, b: u64)
    requires
        forall|t: u64| t < 64 ==> bit(a, t) == bit(b, t),
    ensures
        a == b,
{
    lemma_bit_ops();
    if a != b {
        let c = a ^ b;
        let t0 = u64_trailing_zeros(c) as u64;
        assert(bit(c, t0));
        assert(bit(a, t0) != bit(b, t0));
    }
}

/// How each masked shift inside `spec_adj` moves single bits: bit `t` of the
/// shifted frame comes from the neighbor of `t` in that direction.
pub proof fn lemma_adj_shifts()
    by (bit_vector)
    ensures
        forall|f: u64, t: u64|
            t < 64 ==> #[trigger] bit((f & !COLUMN_LEFT) >> 1, t) == (t % 8 != 7 && bit(
                f,
                (t + 1) as u64,
            )),
        forall|f: u64, t: u64|
            t < 64 ==> #[trigger] bit((f & !COLUMN_RIGHT) << 1, t) == (t % 8 != 0 && bit(
                f,
                (t - 1) as u64,
            )),
        forall|f: u64, t: u64|
            t < 64 ==> #[trigger] bit(f << 8, t) == (t >= 8 && bit(f, (t - 8) as u64)),
        forall|f: u64, t: u64|
            t < 64 ==> #[trigger] bit(f >> 8, t) == (t < 56 && bit(f, (t + 8) as u64)),
        forall|f: u64, t: u64|
            t < 64 ==> #[trigger] bit((f & !COLUMN_LEFT) << 7, t) == (t >= 7 && t % 8 != 7 && bit(
                f,
                (t - 7) as u64,
            )),
        forall|f: u64, t: u64|
            t < 64 ==> #[trigger] bit((f & !COLUMN_RIGHT) << 9, t) == (t >= 9 && t % 8 != 0 && bit(
                f,
                (t - 9) as u64,
            )),
        forall|f: u64, t: u64|
            t < 64 ==> #[trigger] bit((f & !COLUMN_LEFT) >> 9, t) == (t + 9 < 64 && t % 8 != 7
                && bit(f, (t + 9) as u64)),
        forall|f: u64, t: u64|
            t < 64 ==> #[trigger] bit((f & !COLUMN_RIGHT) >> 7, t) == (t + 7 < 64 && t % 8 != 0
                && bit(f, (t + 7) as u64)),
{
}

/// The king neighborhood in index form: squares `s` and `t` touch exactly
/// when `s` is `t` offset by one of the eight direction steps, with the
/// matching edge guards.
pub proof fn lemma_king_offsets(s: u64, t: u64)
    by (bit_vector)
    requires
        s < 64,
        t < 64,
    ensures
        (s != t && s % 8 <= t % 8 + 1 && t % 8 <= s % 8 + 1 && s / 8 <= t / 8 + 1 && t / 8 <= s / 8
            + 1) == ((s == t + 1 && t % 8 != 7) || (t >= 1 && s == t - 1 && t % 8 != 0) || (s == t
            + 8 && t + 8 < 64) || (t >= 8 && s == t - 8) || (s == t + 7 && t % 8 != 0 && t + 7 < 64)
            || (s == t + 9 && t % 8 != 7 && t + 9 < 64) || (t >= 7 && s == t - 7 && t % 8 != 7) || (
        t >= 9 && s == t - 9 && t % 8 != 0)),
{
}

/// `king_adj` on square indices agrees with the coordinate comparisons used
/// by the bit-vector lemmas.
pub proof fn lemma_king_adj_u64(s: u64, t: u64)
    requires
        s < 64,
        t < 64,
    ensures
        king_adj(s as int, t as int) == (s != t && s % 8 <= t % 8 + 1 && t % 8 <= s % 8 + 1 && s / 8
            <= t / 8 + 1 && t / 8 <= s / 8 + 1),
{
}

/// Bit `t` is set in the neighbor mask of `f` exactly when `t` is clear in
/// `f` and some set square of `f` touches `t`.
pub proof fn lemma_adj_char(f: u64, t: u64)
    requires
        t < 64,
    ensures
        bit(spec_adj(f), t) == (!bit(f, t) && exists|s: u64|
            s < 64 && #[trigger] bit(f, s) && king_adj(s as int, t as int)),
{
    lemma_bit_ops();
    lemma_adj_shifts();
    let d1 = (t % 8 != 7 && bit(f, (t + 1) as u64));
    let d2 = (t % 8 != 0 && bit(f, (t - 1) as u64));
    let d3 = (t >= 8 && bit(f, (t - 8) as u64));
    let d4 = (t < 56 && bit(f, (t + 8) as u64));
    let d5 = (t >= 7 && t % 8 != 7 && bit(f, (t - 7) as u64));
    let d6 = (t >= 9 && t % 8 != 0 && bit(f, (t - 9) as u64));
    let d7 = (t + 9 < 64 && t % 8 != 7 && bit(f, (t + 9) as u64));
    let d8 = (t + 7 < 64 && t % 8 != 0 && bit(f, (t + 7) as u64));
    assert(bit(spec_adj(f), t) == (!bit(f, t) && (d1 || d2 || d3 || d4 || d5 || d6 || d7 || d8)));
    if d1 || d2 || d3 || d4 || d5 || d6 || d7 || d8 {
        let s: u64 = if d1 {
            (t + 1) as u64
        } else if d2 {
            (t - 1) as u64
        } else if d3 {
            (t - 8) as u64
        } else if d4 {
            (t + 8) as u64
        } else if d5 {
            (t - 7) as u64
        } else if d6 {
            (t - 9) as u64
        } else if d7 {
            (t + 9) as u64
        } else {
            (t + 7) as u64
        };
        lemma_king_adj_u64(s, t);
        lemma_king_offsets(s, t);
        assert(bit(f, s) && king_adj(s as int, t as int));
    }
    if exists|s: u64| s < 64 && #[trigger] bit(f, s) && king_adj(s as int, t as int) {
        let s = choose|s: u64| s < 64 && #[trigger] bit(f, s) && king_adj(s as int, t as int);
        lemma_king_adj_u64(s, t);
        lemma_king_offsets(s, t);
        assert(d1 || d2 || d3 || d4 || d5 || d6 || d7 || d8);
    }
}

/// The spread of `f` iterated `n` times.
pub open spec fn spec_spread_n(f: u64, n: nat) -> u64
    decreases n,
{
    if n == 0 {
        f
    } else {
        spec_spread(spec_spread_n(f, (n - 1) as nat))
    }
}

/// One step of flood fill: add every square of `frame` that touches `m`.
pub open spec fn flood_step(frame: u64, m: u64) -> u64 {
    m | (spec_adj(m) & frame)
}

/// The flood-fill step iterated `n` times from `m`.
pub open spec fn spec_flood_iter(frame: u64, m: u64, n: nat) -> u64
    decreases n,
{
    if n == 0 {
        m
    } else {
        flood_step(frame, spec_flood_iter(frame, m, (n - 1) as nat))
    }
}

/// The squares of `frame` reachable from square `source` through set squares
/// of `frame` by 8-direction steps: the flood-fill fixpoint, reached after at
/// most 64 steps because each step either stabilizes or adds a square.
pub open spec fn spec_flood(frame: u64, source: u64) -> u64 {
    spec_flood_iter(frame, 1u64 << source, 64)
}

/// Bit `t` of the spread of `f` comes exactly from the squares of `f` at
/// king distance at most 1.
pub proof fn lemma_spread_char(f: u64, t: u64)
    requires
        t < 64,
    ensures
        bit(spec_spread(f), t) == exists|s: u64|
            s < 64 && #[trigger] bit(f, s) && king_dist(s as int, t as int) <= 1,
{
    lemma_bit_ops();
    lemma_adj_char(f, t);
    if bit(f, t) {
        assert(bit(f, t) && king_dist(t as int, t as int) <= 1);
    }
    if exists|s: u64| s < 64 && #[trigger] bit(f, s) && king_dist(s as int, t as int) <= 1 {
        let s = choose|s: u64| s < 64 && #[trigger] bit(f, s) && king_dist(s as int, t as int) <= 1;
        if s == t {
            assert(bit(spec_spread(f), t));
        } else {
            assert(king_adj(s as int, t as int));
            assert(bit(spec_spread(f), t));
        }
    }
}

/// A square index is its coordinates recombined.
pub proof fn lemma_sq_coords(s: int)
    requires
        0 <= s < 64,
    ensures
        s == 8 * sq_y(s) + sq_x(s),
        0 <= sq_x(s) < 8,
        0 <= sq_y(s) < 8,
{
    vstd::arithmetic::div_mod::lemma_fundamental_div_mod(s, 8);
}

/// The coordinates of a recombined index.
pub proof fn lemma_coords_sq(x: int, y: int)
    requires
        0 <= x < 8,
        0 <= y < 8,
    ensures
        sq_x(x + 8 * y) == x,
        sq_y(x + 8 * y) == y,
{
    vstd::arithmetic::div_mod::lemma_fundamental_div_mod_converse(x + 8 * y, 8, y, x);
}

/// A square at king distance 1..n from `s` has a neighbor at king distance
/// at most n-1 from `s`: one step from `t` toward `s`.
pub proof fn lemma_king_step(s: int, t: int, n: int)
    requires
        0 <= s < 64,
        0 <= t < 64,
        1 <= n,
        king_dist(s, t) <= n,
    ensures
        exists|mid: int|
            0 <= mid < 64 && #[trigger] king_dist(s, mid) <= n - 1 && king_dist(mid, t) <= 1,
{
    lemma_sq_coords(s);
    lemma_sq_coords(t);
    if king_dist(s, t) <= n - 1 {
        assert(king_dist(s, t) <= n - 1 && king_dist(t, t) <= 1);
    } else {
        let sx = sq_x(s);
        let sy = sq_y(s);
        let tx = sq_x(t);
        let ty = sq_y(t);
        let mx: int = if sx > tx {
            tx + 1
        } else if sx < tx {
            tx - 1
        } else {
            tx
        };
        let my: int = if sy > ty {
            ty + 1
        } else if sy < ty {
            ty - 1
        } else {
            ty
        };
        let mid = mx + 8 * my;
        lemma_coords_sq(mx, my);
        assert(king_dist(s, mid) <= n - 1 && king_dist(mid, t) <= 1);
    }
}

/// Any two on-board squares are within king distance 7.
pub proof fn lemma_king_dist_bound(s: int, t: int)
    requires
        0 <= s < 64,
        0 <= t < 64,
    ensures
        0 <= king_dist(s, t) <= 7,
{
    lemma_sq_coords(s);
    lemma_sq_coords(t);
}

/// Bit `t` of the n-fold spread of `f` comes exactly from the squares of
/// `f` at king distance at most `n`.
pub proof fn lemma_spread_n_char(f: u64, n: nat)
    ensures
        forall|t: u64|
            t < 64 ==> (bit(spec_spread_n(f, n), t) == exists|s: u64|
                s < 64 && #[trigger] bit(f, s) && king_dist(s as int, t as int) <= n),
    decreases n,
{
    if n == 0 {
        assert forall|t: u64| t < 64 implies (bit(spec_spread_n(f, 0), t) == exists|s: u64|
            s < 64 && #[trigger] bit(f, s) && king_dist(s as int, t as int) <= 0) by {
            if bit(f, t) {
                assert(bit(f, t) && king_dist(t as int, t as int) <= 0);
            }
            if exists|s: u64| s < 64 && #[trigger] bit(f, s) && king_dist(s as int, t as int) <= 0 {
                let s = choose|s: u64|
                    s < 64 && #[trigger] bit(f, s) && king_dist(s as int, t as int) <= 0;
                lemma_sq_coords(s as int);
                lemma_sq_coords(t as int);
                assert(s == t);
            }
        }
    } else {
        let g = spec_spread_n(f, (n - 1) as nat);
        lemma_spread_n_char(f, (n - 1) as nat);
        assert forall|t: u64| t < 64 implies (bit(spec_spread_n(f, n), t) == exists|s: u64|
            s < 64 && #[trigger] bit(f, s) && king_dist(s as int, t as int) <= n) by {
            lemma_spread_char(g, t);
            if bit(spec_spread_n(f, n), t) {
                let mid = choose|mid: u64|
                    mid < 64 && #[trigger] bit(g, mid) && king_dist(mid as int, t as int) <= 1;
                let s = choose|s: u64|
                    s < 64 && #[trigger] bit(f, s) && king_dist(s as int, mid as int) <= n - 1;
                lemma_sq_coords(s as int);
                lemma_sq_coords(mid as int);
                lemma_sq_coords(t as int);
                assert(king_dist(s as int, t as int) <= n);
            }
            if exists|s: u64| s < 64 && #[trigger] bit(f, s) && king_dist(s as int, t as int) <= n {
                let s = choose|s: u64|
                    s < 64 && #[trigger] bit(f, s) && king_dist(s as int, t as int) <= n;
                lemma_king_step(s as int, t as int, n as int);
                let mid = choose|mid: int|
                    0 <= mid < 64 && #[trigger] king_dist(s as int, mid) <= n - 1 && king_dist(
                        mid,
                        t as int,
                    ) <= 1;
                assert(bit(g, mid as u64));
                assert(bit(spec_spread(g), t));
            }
        }
    }
}

/// What the straight-line distance functions return: `r` is the king
/// distance from the set squares of `pos` to the nearest set square of
/// `frame`, except that a source sitting on a target still counts as 1.
pub open spec fn dist_correct(pos: u64, frame: u64, r: u64) -> bool {
    &&& 1 <= r <= 7
    &&& exists|s: u64, t: u64|
        s < 64 && t < 64 && #[trigger] bit(pos, s) && #[trigger] bit(frame, t) && king_dist(
            s as int,
            t as int,
        ) <= r
    &&& (r > 1 ==> forall|s: u64, t: u64|
        s < 64 && t < 64 && #[trigger] bit(pos, s) && #[trigger] bit(frame, t) ==> king_dist(
            s as int,
            t as int,
        ) >= r)
}

/// A set bit makes the frame nonzero, and meeting frames share a set bit.
pub proof fn lemma_nonzero_bit(a: u64)
    requires
        a != 0,
    ensures
        u64_trailing_zeros(a) < 64 && bit(a, u64_trailing_zeros(a) as u64),
{
}

/// If some square of `frame` is within king distance `n` of a square of
/// `pos`, the n-fold spread of `pos` meets `frame`.
pub proof fn lemma_spread_n_hit(pos: u64, frame: u64, s: u64, t: u64, n: nat)
    requires
        s < 64,
        t < 64,
        bit(pos, s),
        bit(frame, t),
        king_dist(s as int, t as int) <= n,
    ensures
        spec_spread_n(pos, n) & frame != 0,
{
    lemma_bit_ops();
    lemma_spread_n_char(pos, n);
    assert(bit(spec_spread_n(pos, n), t));
    assert(bit(spec_spread_n(pos, n) & frame, t));
}

/// Nonzero source and target frames always meet within seven spreads.
pub proof fn lemma_spread_7_hit(pos: u64, frame: u64)
    requires
        pos != 0,
        frame != 0,
    ensures
        spec_spread_n(pos, 7) & frame != 0,
{
    lemma_nonzero_bit(pos);
    lemma_nonzero_bit(frame);
    let s = u64_trailing_zeros(pos) as u64;
    let t = u64_trailing_zeros(frame) as u64;
    lemma_king_dist_bound(s as int, t as int);
    lemma_spread_n_hit(pos, frame, s, t, 7);
}

/// Converts the spread-iteration facts a distance loop establishes into the
/// king-distance statement of `dist_correct`.
pub proof fn lemma_dist_from_iters(pos: u64, frame: u64, r: u64)
    requires
        1 <= r <= 7,
        spec_spread_n(pos, r as nat) & frame != 0,
        forall|n: nat| 1 <= n < r ==> spec_spread_n(pos, n) & frame == 0,
    ensures
        dist_correct(pos, frame, r),
{
    lemma_bit_ops();
    let m = spec_spread_n(pos, r as nat) & frame;
    lemma_nonzero_bit(m);
    let t0 = u64_trailing_zeros(m) as u64;
    lemma_spread_n_char(pos, r as nat);
    assert(bit(spec_spread_n(pos, r as nat), t0) && bit(frame, t0));
    let s0 = choose|s: u64|
        s < 64 && #[trigger] bit(pos, s) && king_dist(s as int, t0 as int) <= r;
    assert(s0 < 64 && t0 < 64 && bit(pos, s0) && bit(frame, t0) && king_dist(
        s0 as int,
        t0 as int,
    ) <= r);
    if r > 1 {
        assert forall|s: u64, t: u64|
            s < 64 && t < 64 && #[trigger] bit(pos, s) && #[trigger] bit(frame, t) implies king_dist(
            s as int,
            t as int,
        ) >= r by {
            lemma_king_dist_bound(s as int, t as int);
            if king_dist(s as int, t as int) < r {
                let n = if king_dist(s as int, t as int) < 1 {
                    1nat
                } else {
                    king_dist(s as int, t as int) as nat
                };
                lemma_spread_n_hit(pos, frame, s, t, n);
            }
        }
    }
}

impl Bitwise {
    /// Finds the number of set bits in a frame.
    pub fn pcnt(frame: u64) -> (r: u64)
        ensures
            r == spec_pcnt(frame),
            r <= 64,
    {
        let mut count: u64 = 0;
        for i in 0..64u64
            invariant
                count == count_bits(frame, i as int),
                count <= i,
        {
            if (frame >> i) & 1u64 == 1u64 {
                count = count + 1;
            }
        }
        count
    }

    /// Isolates the least significant set bit of the frame.
    pub fn lsb(frame: u64) -> (r: u64)
        requires
            frame != 0,
        ensures
            r == 1u64 << (u64_trailing_zeros(frame) as u64),
            bit(frame, u64_trailing_zeros(frame) as u64),
            forall|j: u64| j < u64_trailing_zeros(frame) ==> !bit(frame, j),
            u64_trailing_zeros(r) == u64_trailing_zeros(frame),
    {
        proof {
            lemma_bit_ops();
            let t = u64_trailing_zeros(frame) as u64;
            assert(frame ^ (frame & ((frame - 1) as u64)) == 1u64 << t) by (bit_vector)
                requires
                    frame != 0,
                    t < 64,
                    (frame >> t) & 1u64 == 1u64,
                    frame << ((64 - t) as u64) == 0,
            ;
            lemma_tz_shift(t);
        }
        frame ^ (frame & (frame - 1))
    }

    /// Finds the 0-indexed square of the least significant set bit.
    pub fn idx(frame: u64) -> (r: usize)
        requires
            frame != 0,
        ensures
            r == u64_trailing_zeros(frame),
            r < 64,
            bit(frame, r as u64),
            forall|j: u64| j < r ==> !bit(frame, j),
            frame == 1u64 << (u64_trailing_zeros(frame) as u64) ==> frame == 1u64 << (r as u64),
    {
        Bitwise::idx_intrinsic(frame)
    }

    /// Finds the square of the only set bit with de Bruijn multiplication:
    /// the multiplier shifted by the bit's index leaves that index's code in
    /// the top six bits, which the table translates back.
    pub fn idx_debruijn(frame: u64) -> (r: usize)
        requires
            frame != 0,
            frame == 1u64 << (u64_trailing_zeros(frame) as u64),
        ensures
            r == u64_trailing_zeros(frame),
            r < 64,
    {
        proof {
            let t = u64_trailing_zeros(frame) as u64;
            assert(t < 64);
            assert(debruijn_table((((DEBRUIJN_MULTIPLY * (1u64 << t)) % 0x1_0000_0000_0000_0000)
                as u64) >> 58) == t) by (bit_vector)
                requires
                    t < 64,
            ;
        }
        let product = DEBRUIJN_MULTIPLY.wrapping_mul(frame);
        let slot = product >> 58;
        let r: usize =
        if slot == 0 {
            0
        } else if slot == 1 {
            1
        } else if slot == 2 {
            48
        } else if slot == 3 {
            2
        } else if slot == 4 {
            57
        } else if slot == 5 {
            49
        } else if slot == 6 {
            28
        } else if slot == 7 {
            3
        } else if slot == 8 {
            61
        } else if slot == 9 {
            58
        } else if slot == 10 {
            50
        } else if slot == 11 {
            42
        } else if slot == 12 {
            38
        } else if slot == 13 {
            29
        } else if slot == 14 {
            17
        } else if slot == 15 {
            4
        } else if slot == 16 {
            62
        } else if slot == 17 {
            55
        } else if slot == 18 {
            59
        } else if slot == 19 {
            36
        } else if slot == 20 {
            53
        } else if slot == 21 {
            51
        } else if slot == 22 {
            43
        } else if slot == 23 {
            22
        } else if slot == 24 {
            45
        } else if slot == 25 {
            39
        } else if slot == 26 {
            33
        } else if slot == 27 {
            30
        } else if slot == 28 {
            24
        } else if slot == 29 {
            18
        } else if slot == 30 {
            12
        } else if slot == 31 {
            5
        } else if slot == 32 {
            63
        } else if slot == 33 {
            47
        } else if slot == 34 {
            56
        } else if slot == 35 {
            27
        } else if slot == 36 {
            60
        } else if slot == 37 {
            41
        } else if slot == 38 {
            37
        } else if slot == 39 {
            16
        } else if slot == 40 {
            54
        } else if slot == 41 {
            35
        } else if slot == 42 {
            52
        } else if slot == 43 {
            21
        } else if slot == 44 {
            44
        } else if slot == 45 {
            32
        } else if slot == 46 {
            23
        } else if slot == 47 {
            11
        } else if slot == 48 {
            46
        } else if slot == 49 {
            26
        } else if slot == 50 {
            40
        } else if slot == 51 {
            15
        } else if slot == 52 {
            34
        } else if slot == 53 {
            20
        } else if slot == 54 {
            31
        } else if slot == 55 {
            10
        } else if slot == 56 {
            25
        } else if slot == 57 {
            14
        } else if slot == 58 {
            19
        } else if slot == 59 {
            9
        } else if slot == 60 {
            13
        } else if slot == 61 {
            8
        } else if slot == 62 {
            7
        } else {
            6
        };
        proof {
            assert(r == debruijn_table(slot));
        }
        r
    }

    /// Finds the square of the least significant set bit with the hardware
    /// count of trailing zeros.
    pub fn idx_intrinsic(frame: u64) -> (r: usize)
        requires
            frame != 0,
        ensures
            r == u64_trailing_zeros(frame),
            r < 64,
            bit(frame, r as u64),
            forall|j: u64| j < r ==> !bit(frame, j),
    {
        frame.trailing_zeros() as usize
    }

    /// Calculates the straight-line king distance from the set squares of
    /// `pos` to the nearest set square of `frame`.
    pub fn dist(pos: u64, frame: u64) -> (r: u64)
        requires
            pos != 0,
            frame != 0,
        ensures
            dist_correct(pos, frame, r),
    {
        Bitwise::dist_while(pos, frame)
    }

    /// Calculates the distance by spreading the source until it meets the
    /// target frame.
    pub fn dist_while(pos: u64, frame: u64) -> (r: u64)
        requires
            pos != 0,
            frame != 0,
        ensures
            dist_correct(pos, frame, r),
    {
        let mut dist: u64 = 1;
        let mut curr = Bitwise::spread(pos);
        proof {
            lemma_spread_7_hit(pos, frame);
            assert(spec_spread_n(pos, 0) == pos);
            assert(curr == spec_spread_n(pos, 1));
        }
        while curr & frame == 0
            invariant
                1 <= dist <= 7,
                curr == spec_spread_n(pos, dist as nat),
                forall|n: nat| 1 <= n < dist ==> spec_spread_n(pos, n) & frame == 0,
                spec_spread_n(pos, 7) & frame != 0,
            decreases 7 - dist,
        {
            assert(dist < 7);
            curr = Bitwise::spread(curr);
            dist = dist + 1;
        }
        proof {
            lemma_dist_from_iters(pos, frame, dist);
        }
        dist
    }

    /// Calculates the distance without branches, by counting how many of the
    /// seven spreads miss the target frame.
    pub fn dist_const(pos: u64, frame: u64) -> (r: u64)
        requires
            pos != 0,
            frame != 0,
        ensures
            dist_correct(pos, frame, r),
    {
        let d1 = Bitwise::spread(pos);
        let d2 = Bitwise::spread(d1);
        let d3 = Bitwise::spread(d2);
        let d4 = Bitwise::spread(d3);
        let d5 = Bitwise::spread(d4);
        let d6 = Bitwise::spread(d5);
        let d7 = Bitwise::spread(d6);

        let d1c: u64 = if d1 & frame == 0 { 1 } else { 0 };
        let d2c: u64 = if d2 & frame == 0 { 1 } else { 0 };
        let d3c: u64 = if d3 & frame == 0 { 1 } else { 0 };
        let d4c: u64 = if d4 & frame == 0 { 1 } else { 0 };
        let d5c: u64 = if d5 & frame == 0 { 1 } else { 0 };
        let d6c: u64 = if d6 & frame == 0 { 1 } else { 0 };
        let d7c: u64 = if d7 & frame == 0 { 1 } else { 0 };

        let r = 1 + d1c + d2c + d3c + d4c + d5c + d6c + d7c;
        proof {
            assert(spec_spread_n(pos, 0) == pos);
            assert(d1 == spec_spread_n(pos, 1));
            assert(d2 == spec_spread_n(pos, 2));
            assert(d3 == spec_spread_n(pos, 3));
            assert(d4 == spec_spread_n(pos, 4));
            assert(d5 == spec_spread_n(pos, 5));
            assert(d6 == spec_spread_n(pos, 6));
            assert(d7 == spec_spread_n(pos, 7));
            lemma_spread_7_hit(pos, frame);
            assert forall|n: nat, k: nat|
                #![trigger spec_spread_n(pos, n), spec_spread_n(pos, k)]
                n <= k <= 7 && spec_spread_n(pos, n) & frame != 0 implies (spec_spread_n(pos, k)
                & frame) != 0 by {
                lemma_bit_ops();
                let m = spec_spread_n(pos, n) & frame;
                lemma_nonzero_bit(m);
                let t = u64_trailing_zeros(m) as u64;
                lemma_spread_n_char(pos, n);
                let s = choose|s: u64|
                    s < 64 && #[trigger] bit(pos, s) && king_dist(s as int, t as int) <= n;
                lemma_spread_n_hit(pos, frame, s, t, k);
            }
            assert(forall|n: nat| 1 <= n < r ==> spec_spread_n(pos, n) & frame == 0);
            lemma_dist_from_iters(pos, frame, r);
        }
        r
    }

    /// Finds all set squares of `frame` recursively adjacent to the source
    /// square, which must itself be set, by expanding a region to its
    /// fixpoint.
    pub fn dfs(frame: u64, source: u8) -> (r: u64)
        requires
            source < 64,
            bit(frame, source as u64),
        ensures
            r == spec_flood(frame, source as u64),
    {
        let mut mask: u64 = 1u64 << (source as u64);
        for i in 0..64u64
            invariant
                mask == spec_flood_iter(frame, 1u64 << (source as u64), i as nat),
        {
            mask = mask | (Bitwise::adj(mask) & frame);
        }
        mask
    }

    /// Sets all bits adjacent to any set bit, diagonals included, the
    /// original set bits excluded, without overflowing a row or the board.
    pub fn adj(pos: u64) -> (r: u64)
        ensures
            r == spec_adj(pos),
    {
        Bitwise::adj_grid(pos)
    }

    /// Computes the neighbor mask by shifting a row expansion up and down:
    /// 4 shifts, 2 ands, 4 ors and 1 xor.
    pub fn adj_grid(pos: u64) -> (r: u64)
        ensures
            r == spec_adj(pos),
    {
        // Shift the row left and right, masking off bits that leave the row.
        let row = pos | (!COLUMN_RIGHT & pos) << 1 | (!COLUMN_LEFT & pos) >> 1;
        // Shift the expanded row up and down.
        let grid = row | (row << 8) | (row >> 8);
        proof {
            assert((pos | (!COLUMN_RIGHT & pos) << 1 | (!COLUMN_LEFT & pos) >> 1 | ((pos
                | (!COLUMN_RIGHT & pos) << 1 | (!COLUMN_LEFT & pos) >> 1) << 8) | ((pos
                | (!COLUMN_RIGHT & pos) << 1 | (!COLUMN_LEFT & pos) >> 1) >> 8)) ^ pos == spec_adj(
                pos,
            )) by (bit_vector);
        }
        // The source squares are not adjacent to themselves.
        grid ^ pos
    }

    /// Computes the neighbor mask by shifting each source square in all
    /// eight directions separately.
    pub fn adj_slow(pos: u64) -> (r: u64)
        ensures
            r == spec_adj(pos),
    {
        let mut adj: u64 = pos << 8;
        adj |= (pos & !COLUMN_RIGHT) << 1;
        adj |= (pos & !COLUMN_LEFT) >> 1;
        adj |= pos >> 8;
        adj |= (pos & !COLUMN_RIGHT) << 9;
        adj |= (pos & !COLUMN_LEFT) << 7;
        adj |= (pos & !COLUMN_RIGHT) >> 7;
        adj |= (pos & !COLUMN_LEFT) >> 9;
        proof {
            assert((pos << 8 | (pos & !COLUMN_RIGHT) << 1 | (pos & !COLUMN_LEFT) >> 1 | pos >> 8 | (
            pos & !COLUMN_RIGHT) << 9 | (pos & !COLUMN_LEFT) << 7 | (pos & !COLUMN_RIGHT) >> 7 | (
            pos & !COLUMN_LEFT) >> 9) & !pos == spec_adj(pos)) by (bit_vector);
        }
        adj & !pos
    }

    /// Sets all bits adjacent to any set bit, diagonals and the original
    /// set bits included, without overflowing a row or the board.
    pub fn spread(pos: u64) -> (r: u64)
        ensures
            r == spec_spread(pos),
    {
        let row = pos | (!COLUMN_RIGHT & pos) << 1 | (!COLUMN_LEFT & pos) >> 1;
        let grid = row | (row << 8) | (row >> 8);
        proof {
            assert((pos | (!COLUMN_RIGHT & pos) << 1 | (!COLUMN_LEFT & pos) >> 1 | ((pos
                | (!COLUMN_RIGHT & pos) << 1 | (!COLUMN_LEFT & pos) >> 1) << 8) | ((pos
                | (!COLUMN_RIGHT & pos) << 1 | (!COLUMN_LEFT & pos) >> 1) >> 8)) == spec_adj(pos)
                | pos) by (bit_vector);
        }
        grid
    }

    /// Converts a square index 0..63 to its position mask.
    pub fn pos(idx: u8) -> (r: u64)
        requires
            idx < 64,
        ensures
            r == 1u64 << (idx as u64),
            bit(r, idx as u64),
            forall|t: u64| t < 64 && t != idx ==> !bit(r, t),
            u64_trailing_zeros(r) == idx,
            r != 0,
    {
        proof {
            lemma_bit_ops();
            lemma_tz_shift(idx as u64);
        }
        1u64 << (idx as u64)
    }
}

/// Bit primitives namespace.
pub struct Bitwise {}

} // verus!
