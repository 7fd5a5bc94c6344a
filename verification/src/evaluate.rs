//! Static evaluation and terminal detection.
//!
//! The score is taken from the side to move's perspective: a large material
//! term, a mobility-surface term, and a stack-power term, summed and clamped
//! to the `MIN`..`MAX` window.

use crate::bitboard::Bitboard;
use crate::bitwise::{spec_adj, spec_pcnt, Bitwise};
use crate::constants::{BLACK, MAX, MIN, WHITE};
use vstd::prelude::*;

verus! {

/// The result of a finished game, from the side to move's perspective.
#[derive(Clone, Copy, Debug, PartialEq, Eq, Structural)]
pub enum Outcome {
    Win,
    Loss,
    Draw,
}

/// The mobility-surface term: how many squares each side's pieces touch,
/// from the side to move's perspective.
pub open spec fn spec_surface_area(b: Bitboard) -> int {
    let w = spec_pcnt(spec_adj(b.board@[WHITE as int]));
    let bl = spec_pcnt(spec_adj(b.board@[BLACK as int]));
    if b.turn == WHITE {
        w - bl
    } else {
        bl - w
    }
}

/// Sum of `h * h` times the number of squares of height `h` the team
/// holds, over heights 1..=n.
pub open spec fn stack_sum(b: Seq<u64>, team_frame: u64, n: int) -> int
    decreases n,
{
    if n <= 0 {
        0
    } else {
        stack_sum(b, team_frame, n - 1) + n * n * spec_pcnt(b[n] & team_frame)
    }
}

/// The stack-power term over heights 1..=8, from the side to move's
/// perspective.
pub open spec fn spec_stack_power(b: Bitboard) -> int {
    let w = stack_sum(b.board@, b.board@[WHITE as int], 8);
    let bl = stack_sum(b.board@, b.board@[BLACK as int], 8);
    if b.turn == WHITE {
        w - bl
    } else {
        bl - w
    }
}

/// The material term: a thousand points per square of advantage, from the
/// side to move's perspective.
pub open spec fn spec_robots(b: Bitboard) -> int {
    if b.turn == WHITE {
        1000 * (b.robots_white - b.robots_black)
    } else {
        1000 * (b.robots_black - b.robots_white)
    }
}

/// Clamping to the evaluation window.
pub open spec fn spec_constrain(score: int) -> int {
    if score > MAX as int {
        MAX as int
    } else if score < MIN as int {
        MIN as int
    } else {
        score
    }
}

/// The full static evaluation.
pub open spec fn spec_evaluate(b: Bitboard) -> int {
    spec_constrain(spec_robots(b) + spec_surface_area(b) + spec_stack_power(b))
}

/// The outcome of a board, `None` while both sides still have robots.
pub open spec fn spec_outcome(b: Bitboard) -> Option<Outcome> {
    if b.robots_white == 0 && b.robots_black == 0 {
        Some(Outcome::Draw)
    } else if b.turn == WHITE {
        if b.robots_black == 0 {
            Some(Outcome::Win)
        } else if b.robots_white == 0 {
            Some(Outcome::Loss)
        } else {
            None
        }
    } else {
        if b.robots_white == 0 {
            Some(Outcome::Win)
        } else if b.robots_black == 0 {
            Some(Outcome::Loss)
        } else {
            None
        }
    }
}

/// The stack-power sum over heights 1..=n is at most 4096 per height.
pub proof fn lemma_stack_sum_bound(b: Seq<u64>, team_frame: u64, n: int)
    requires
        n <= 8,
    ensures
        0 <= stack_sum(b, team_frame, n) <= 4096 * (if n >= 0 {
            n
        } else {
            0
        }),
    decreases n,
{
    if n > 0 {
        lemma_stack_sum_bound(b, team_frame, n - 1);
        crate::bitwise::lemma_count_bits_bound(b[n] & team_frame, 64);
        assert(n * n * spec_pcnt(b[n] & team_frame) <= 4096) by (nonlinear_arith)
            requires
                1 <= n <= 8,
                0 <= spec_pcnt(b[n] & team_frame) <= 64,
        ;
        assert(n * n * spec_pcnt(b[n] & team_frame) >= 0) by (nonlinear_arith)
            requires
                1 <= n <= 8,
                0 <= spec_pcnt(b[n] & team_frame),
        ;
    }
}

impl Evaluate {
    /// The mobility-surface term.
    fn surface_area(bitboard: &Bitboard) -> (r: i32)
        requires
            bitboard.wf(),
        ensures
            r == spec_surface_area(*bitboard),
    {
        let white = Bitwise::pcnt(Bitwise::adj(bitboard.board[WHITE])) as i32;
        let black = Bitwise::pcnt(Bitwise::adj(bitboard.board[BLACK])) as i32;
        if bitboard.turn == WHITE {
            white - black
        } else {
            black - white
        }
    }

    /// The stack-power term.
    fn stack_power(bitboard: &Bitboard) -> (r: i32)
        requires
            bitboard.wf(),
        ensures
            r == spec_stack_power(*bitboard),
    {
        let mut white: u64 = 0;
        let mut black: u64 = 0;

        for height in 1..9usize
            invariant
                bitboard.wf(),
                white == stack_sum(bitboard.board@, bitboard.board@[WHITE as int], height - 1),
                black == stack_sum(bitboard.board@, bitboard.board@[BLACK as int], height - 1),
                white <= 32768,
                black <= 32768,
        {
            proof {
                let h = height as int;
                lemma_stack_sum_bound(bitboard.board@, bitboard.board@[WHITE as int], h);
                lemma_stack_sum_bound(bitboard.board@, bitboard.board@[BLACK as int], h);
                assert(stack_sum(bitboard.board@, bitboard.board@[WHITE as int], h) == stack_sum(
                    bitboard.board@,
                    bitboard.board@[WHITE as int],
                    h - 1,
                ) + h * h * spec_pcnt(bitboard.board@[h] & bitboard.board@[WHITE as int]));
                assert(stack_sum(bitboard.board@, bitboard.board@[BLACK as int], h) == stack_sum(
                    bitboard.board@,
                    bitboard.board@[BLACK as int],
                    h - 1,
                ) + h * h * spec_pcnt(bitboard.board@[h] & bitboard.board@[BLACK as int]));
            }
            let whites = Bitwise::pcnt(bitboard.board[height] & bitboard.board[WHITE]);
            let blacks = Bitwise::pcnt(bitboard.board[height] & bitboard.board[BLACK]);
            proof {
                assert((height as int) * (height as int) <= 81 && (height as int) * (height as int)
                    >= 0 && (height as int) * (height as int) * (whites as int) <= 4096 && (
                height as int) * (height as int) * (blacks as int) <= 4096 && (height as int) * (
                height as int) * (whites as int) >= 0 && (height as int) * (height as int) * (
                blacks as int) >= 0) by (nonlinear_arith)
                    requires
                        1 <= height < 9,
                        0 <= whites <= 64,
                        0 <= blacks <= 64,
                ;
            }
            white = white + (height as u64) * (height as u64) * whites;
            black = black + (height as u64) * (height as u64) * blacks;
        }

        if bitboard.turn == WHITE {
            white as i32 - black as i32
        } else {
            black as i32 - white as i32
        }
    }

    /// The material term.
    fn robots(bitboard: &Bitboard) -> (r: i32)
        requires
            bitboard.wf(),
        ensures
            r == spec_robots(*bitboard),
    {
        if bitboard.turn == WHITE {
            1000 * (bitboard.robots_white as i32 - bitboard.robots_black as i32)
        } else {
            1000 * (bitboard.robots_black as i32 - bitboard.robots_white as i32)
        }
    }

    /// Clamps a raw score to the evaluation window.
    fn constrain(score: i32) -> (r: i16)
        requires
            -1000000 <= score <= 1000000,
        ensures
            r == spec_constrain(score as int),
    {
        if score > MAX as i32 {
            MAX
        } else if score < MIN as i32 {
            MIN
        } else {
            score as i16
        }
    }

    /// Evaluates the material advantage of the board for the side to move,
    /// clamped to `MIN..=MAX`.
    pub fn evaluate(bitboard: &Bitboard) -> (r: i16)
        requires
            bitboard.wf(),
        ensures
            r == spec_evaluate(*bitboard),
            MIN <= r <= MAX,
    {
        proof {
            crate::bitwise::lemma_count_bits_bound(spec_adj(bitboard.board@[WHITE as int]), 64);
            crate::bitwise::lemma_count_bits_bound(spec_adj(bitboard.board@[BLACK as int]), 64);
            crate::bitwise::lemma_count_bits_bound(bitboard.board@[WHITE as int], 64);
            crate::bitwise::lemma_count_bits_bound(bitboard.board@[BLACK as int], 64);
            lemma_stack_sum_bound(bitboard.board@, bitboard.board@[WHITE as int], 8);
            lemma_stack_sum_bound(bitboard.board@, bitboard.board@[BLACK as int], 8);
        }
        Evaluate::constrain(
            Evaluate::robots(bitboard) + Evaluate::surface_area(bitboard) + Evaluate::stack_power(
                bitboard,
            ),
        )
    }

    /// Evaluates the outcome of the board: a draw with no robots left, a
    /// win when only the opponent is wiped out, a loss the other way round.
    pub fn outcome(bitboard: &Bitboard) -> (r: Option<Outcome>)
        requires
            bitboard.turn == WHITE || bitboard.turn == BLACK,
        ensures
            r == spec_outcome(*bitboard),
    {
        if bitboard.robots_white == 0 && bitboard.robots_black == 0 {
            Some(Outcome::Draw)
        } else if bitboard.turn == WHITE {
            if bitboard.robots_black == 0 {
                Some(Outcome::Win)
            } else if bitboard.robots_white == 0 {
                Some(Outcome::Loss)
            } else {
                None
            }
        } else {
            if bitboard.robots_white == 0 {
                Some(Outcome::Win)
            } else if bitboard.robots_black == 0 {
                Some(Outcome::Loss)
            } else {
                None
            }
        }
    }

    /// Whether either side's pieces touch the other's.
    fn attacking(bitboard: &Bitboard) -> (r: bool)
        requires
            bitboard.board@.len() == 14,
        ensures
            r == ((spec_adj(bitboard.board@[WHITE as int]) & bitboard.board@[BLACK as int]) | (
            spec_adj(bitboard.board@[BLACK as int]) & bitboard.board@[WHITE as int]) != 0),
    {
        (Bitwise::adj(bitboard.board[WHITE]) & bitboard.board[BLACK]) | (Bitwise::adj(
            bitboard.board[BLACK],
        ) & bitboard.board[WHITE]) != 0
    }
}

/// Static evaluation namespace.
pub struct Evaluate {}

} // verus!
