//! The transposition table: a direct-mapped, fixed-size cache of search
//! results keyed by the Zobrist hash.
//!
//! Each slot holds the full 64-bit hash, so a lookup whose stored hash
//! differs from the queried one is reported as a miss; a store always
//! overwrites its slot.

use crate::action::Action;
use crate::constants::{LOSS, WIN};
use vstd::prelude::*;

verus! {

/// What a stored score means: a lower bound (the search failed high), an
/// upper bound (it failed low), or the exact value.
#[derive(Clone, Copy, Debug, PartialEq, Eq, Structural)]
pub enum Bound {
    Lower,
    Upper,
    Exact,
}

/// One cached search result.
#[derive(Clone, Copy, Debug, PartialEq, Eq, Structural)]
pub struct Transposition {
    pub eval: i16,
    pub hash: u64,
    pub depth: u8,
    pub action: Action,
    pub bound: Bound,
}

/// The direct-mapped table: `size` slots, with `mask == size - 1` turning a
/// hash into its slot.
pub struct TranspositionTable {
    pub entries: Vec<Option<Transposition>>,
    pub overwrites: u16,
    pub size: u64,
    pub mask: u64,
}

/// What `lookup` returns: the slot's entry when its stored hash matches,
/// and a miss otherwise.
pub open spec fn spec_lookup(t: TranspositionTable, hash: u64) -> Option<Transposition> {
    match t.entries@[(hash & t.mask) as int] {
        Some(entry) => if entry.hash == hash {
            Some(entry)
        } else {
            None
        },
        None => None,
    }
}

impl TranspositionTable {
    /// Well-formedness: the slot vector fills the power-of-two size and the
    /// mask sends every hash into it.
    pub open spec fn wf(self) -> bool {
        &&& self.entries@.len() == self.size
        &&& self.size >= 1
        &&& self.size <= 0x1000_0000
        &&& self.mask == self.size - 1
        &&& forall|h: u64| #[trigger] (h & self.mask) < self.size
        &&& forall|i: int|
            0 <= i < self.entries@.len() && self.entries@[i] is Some ==> LOSS <= (
            #[trigger] self.entries@[i])->0.eval <= WIN
    }

    /// Allocates a table of `2^pow` empty slots.
    pub fn new(pow: u32) -> (r: TranspositionTable)
        requires
            pow <= 28,
        ensures
            r.wf(),
            r.size == 1u64 << pow,
            r.overwrites == 0,
            forall|i: int| 0 <= i < r.entries@.len() ==> r.entries@[i] is None,
    {
        let size = 1u64 << pow;
        proof {
            assert(1u64 << pow >= 1 && 1u64 << pow <= 0x10000000 && (forall|h: u64| #[trigger] (h
                & ((1u64 << pow) - 1) as u64) < 1u64 << pow)) by (bit_vector)
                requires
                    pow <= 28,
            ;
        }
        let entries: Vec<Option<Transposition>> = vec![None; size as usize];
        TranspositionTable { size, entries, overwrites: 0, mask: size - 1 }
    }

    /// The slot of a hash.
    pub fn index(&self, hash: u64) -> (r: usize)
        requires
            self.wf(),
        ensures
            r == hash & self.mask,
            r < self.entries@.len(),
    {
        (hash & self.mask) as usize
    }

    /// Stores a search result, always overwriting the slot; a filled slot
    /// counts one more overwrite on the telemetry counter, which wraps at
    /// its width rather than overflow.
    pub fn store(&mut self, hash: u64, eval: i16, action: Action, depth: u8, bound: Bound)
        requires
            old(self).wf(),
            LOSS <= eval <= WIN,
        ensures
            final(self).wf(),
            final(self).size == old(self).size,
            final(self).mask == old(self).mask,
            final(self).entries@ == old(self).entries@.update(
                (hash & old(self).mask) as int,
                Some(Transposition { eval, hash, depth, action, bound }),
            ),
            spec_lookup(*final(self), hash) == Some(
                Transposition { eval, hash, depth, action, bound },
            ),
            final(self).overwrites == (if old(self).entries@[(hash & old(self).mask) as int]
                is Some {
                vstd::wrapping::u16_specs::wrapping_add(old(self).overwrites, 1)
            } else {
                old(self).overwrites
            }),
    {
        let i = self.index(hash);

        if self.entries[i].is_some() {
            self.overwrites = self.overwrites.wrapping_add(1);
        }

        self.entries[i] = Some(Transposition { eval, hash, depth, action, bound });
    }

    /// Looks a hash up: its slot's entry if the stored hash matches, a miss
    /// otherwise. A colliding entry of another position is never returned.
    pub fn lookup(&self, hash: u64) -> (r: Option<Transposition>)
        requires
            self.wf(),
        ensures
            r == spec_lookup(*self, hash),
            r is Some ==> r->0.hash == hash,
    {
        let i = self.index(hash);

        match self.entries[i] {
            Some(entry) => if entry.hash == hash {
                Some(entry)
            } else {
                None
            },
            None => None,
        }
    }
}

/// Store-then-lookup idempotence: a store under `hash` is returned intact
/// by a lookup of `hash`, and a store into any other slot leaves that
/// lookup unchanged.
pub proof fn lemma_store_then_lookup(
    t1: TranspositionTable,
    t2: TranspositionTable,
    hash: u64,
    entry: Transposition,
)
    requires
        t1.wf(),
        t2.wf(),
        t2.mask == t1.mask,
        entry.hash == hash,
        t2.entries@ == t1.entries@.update((hash & t1.mask) as int, Some(entry)),
    ensures
        spec_lookup(t2, hash) == Some(entry),
{
}

/// A store into a different slot does not disturb a lookup.
pub proof fn lemma_other_store_preserves_lookup(
    t1: TranspositionTable,
    t2: TranspositionTable,
    hash: u64,
    slot: int,
    value: Option<Transposition>,
)
    requires
        t1.wf(),
        t2.wf(),
        t2.mask == t1.mask,
        slot != hash & t1.mask,
        0 <= slot < t1.entries@.len(),
        t2.entries@ == t1.entries@.update(slot, value),
    ensures
        spec_lookup(t2, hash) == spec_lookup(t1, hash),
{
}

} // verus!
