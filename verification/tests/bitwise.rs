//! Bit primitive tests: index and least-set-bit conversions, adjacency,
//! spreading, distance and flood fill.

use boombots::bitwise::Bitwise;
use boombots::constants::{adjacent_lookup, moves_lookup};

#[test]
fn idx() {
    for i in 0..64 {
        assert_eq!(
            Bitwise::idx(1 << i),
            i,
            "Bitwise index of {} should be {}",
            2 << i,
            i
        );
    }
}

#[test]
fn lsb() {
    let cases = [
        (0b0001, 0b0001),
        (0b0010, 0b0010),
        (0b0011, 0b0001),
        (0b0100, 0b0100),
        (0b0101, 0b0001),
        (0b0110, 0b0010),
        (0b0111, 0b0001),
        (0b1000, 0b1000),
        (0b1001, 0b0001),
        (0b1010, 0b0010),
        (0b1011, 0b0001),
        (0b1100, 0b0100),
        (0b1101, 0b0001),
        (0b1110, 0b0010),
        (0b1111, 0b0001),
    ];

    for (case, expected) in cases {
        assert_eq!(
            Bitwise::lsb(case),
            expected,
            "lsb({})={:#04b} != {:#04b}",
            case,
            Bitwise::lsb(case),
            expected
        );
    }
}

#[test]
fn pcnt_counts_bits() {
    assert_eq!(Bitwise::pcnt(0), 0);
    assert_eq!(Bitwise::pcnt(u64::MAX), 64);
    assert_eq!(Bitwise::pcnt(0xdbdb), 12);
    assert_eq!(Bitwise::pcnt(1 << 63), 1);
}

#[test]
fn adjacency_of_corner_and_center() {
    // Square 0 touches squares 1, 8 and 9.
    assert_eq!(Bitwise::adj(1 << 0), (1 << 1) | (1 << 8) | (1 << 9));
    // A center square touches all eight neighbors.
    let center = 1u64 << 27;
    let expected: u64 = [18u64, 19, 20, 26, 28, 34, 35, 36]
        .iter()
        .fold(0, |acc, s| acc | (1 << s));
    assert_eq!(Bitwise::adj(center), expected);
}

#[test]
fn adjacency_variants_agree() {
    // The fast row-shift form equals the per-direction masked shifts.
    let samples = [
        0u64,
        1,
        1 << 7,
        1 << 56,
        1 << 63,
        0xdbdb,
        0xdbdb_0000_0000_0000,
        0x8100_0000_0000_0081,
        0x00ff_00ff_00ff_00ff,
        0x0123_4567_89ab_cdef,
    ];
    for &f in samples.iter() {
        assert_eq!(Bitwise::adj(f), Bitwise::adj_slow(f));
        assert_eq!(Bitwise::adj_grid(f), Bitwise::adj_slow(f));
        assert_eq!(Bitwise::spread(f), Bitwise::adj(f) | f);
    }
}

#[test]
fn adjacent_lookup_matches_adj() {
    for s in 0..64 {
        assert_eq!(adjacent_lookup(s), Bitwise::adj(1 << s));
    }
}

#[test]
fn distance_bounds_and_values() {
    // Opposite corners lie exactly seven king moves apart.
    assert_eq!(Bitwise::dist(1 << 0, 1 << 63), 7);
    // Neighbors lie one apart, even diagonally.
    assert_eq!(Bitwise::dist(1 << 27, 1 << 36), 1);
    // A knight's-jump-like offset takes two.
    assert_eq!(Bitwise::dist(1 << 0, 1 << 17), 2);
    // A source standing on its target still counts one.
    assert_eq!(Bitwise::dist(1 << 5, 1 << 5), 1);
    // All variants agree and stay within 1..=7.
    for s in [0u64, 7, 27, 56, 63] {
        for t in [0u64, 8, 35, 63] {
            let a = Bitwise::dist(1 << s, 1 << t);
            assert_eq!(a, Bitwise::dist_while(1 << s, 1 << t));
            assert_eq!(a, Bitwise::dist_const(1 << s, 1 << t));
            assert!((1..=7).contains(&a));
        }
    }
}

#[test]
fn flood_fill_stops_at_gaps() {
    // A connected blob and a far-away island.
    let frame = (1 << 0) | (1 << 1) | (1 << 8) | (1 << 40);
    assert_eq!(Bitwise::dfs(frame, 0), (1 << 0) | (1 << 1) | (1 << 8));
    assert_eq!(Bitwise::dfs(frame, 40), 1 << 40);
}

#[test]
fn moves_lookup_reaches_orthogonally() {
    // A height-1 stack at the corner reaches its two orthogonal neighbors.
    assert_eq!(moves_lookup(1, 0), (1 << 1) | (1 << 8));
    // A height-12 stack at the corner reaches its whole row and column.
    let mut expected: u64 = 0;
    for d in 1..8u64 {
        expected |= 1 << d;
        expected |= 1 << (8 * d);
    }
    assert_eq!(moves_lookup(12, 0), expected);
    // Diagonals are never reachable.
    for h in 1..=12 {
        assert_eq!(moves_lookup(h, 0) & (1 << 9), 0);
    }
}

#[test]
fn idx_variants_agree() {
    for i in 0..64 {
        assert_eq!(Bitwise::idx_debruijn(1 << i), i);
        assert_eq!(Bitwise::idx_intrinsic(1 << i), i);
    }
}
