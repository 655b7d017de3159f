//! The transposition table: a direct-mapped cache of search results, indexed
//! by the low bits of the position hash, with generation-based replacement.
use vstd::prelude::*;
use crate::chess::Move;
use crate::types::Score;

verus! {

/// How a stored score bounds the true score.
#[derive(Clone, Copy, PartialEq, Eq, Structural, Debug)]
pub enum Bound {
    Exact,
    Lower,
    Upper,
}

/// One slot of the table. A slot with negative depth is empty.
#[derive(Clone, Copy, PartialEq, Eq, Structural, Debug)]
pub struct TtEntry {
    pub key: u64,
    pub score: Score,
    pub static_eval: Score,
    pub depth: i8,
    pub bound: Bound,
    pub best_move: Option<Move>,
    pub generation: u8,
}

/// Bytes taken by one entry in memory (8 + 4 + 4 + 1 + 1 + 3 + 1, aligned
/// to 8), used to turn a size in megabytes into a number of entries.
pub const ENTRY_BYTES: usize = 24;

/// The empty slot.
pub open spec fn empty_entry() -> TtEntry {
    TtEntry {
        key: 0,
        score: 0,
        static_eval: 0,
        depth: -1i8,
        bound: Bound::Exact,
        best_move: None,
        generation: 0,
    }
}

impl Default for TtEntry {
    fn default() -> (r: TtEntry)
        ensures
            r == empty_entry(),
    {
        TtEntry {
            key: 0,
            score: 0,
            static_eval: 0,
            depth: -1,
            bound: Bound::Exact,
            best_move: None,
            generation: 0,
        }
    }
}

/// The slot that `key` maps to.
pub open spec fn slot(mask: usize, key: u64) -> int {
    ((key as usize) & mask) as int
}

/// What a probe for `key` finds.
pub open spec fn probe_result(entries: Seq<TtEntry>, mask: usize, key: u64) -> Option<TtEntry> {
    let e = entries[slot(mask, key)];
    if e.key == key && e.depth >= 0 {
        Some(e)
    } else {
        None
    }
}

/// Whether a store for `key` at `depth` overwrites the slot's entry `e`: the
/// same key always does; another key does when its entry is from an older
/// search or not deeper; an empty slot always is.
pub open spec fn replaces(e: TtEntry, generation: u8, key: u64, depth: i8) -> bool {
    let dominated = e.key != key && (e.generation != generation || depth >= e.depth);
    e.key == key || dominated || e.depth < 0
}

/// The entry a store writes: a missing best move keeps the one already
/// stored for the same key.
pub open spec fn stored_entry(
    e: TtEntry,
    generation: u8,
    key: u64,
    score: Score,
    static_eval: Score,
    depth: i8,
    bound: Bound,
    best_move: Option<Move>,
) -> TtEntry {
    let mv = if best_move is Some {
        best_move
    } else if e.key == key {
        e.best_move
    } else {
        None
    };
    TtEntry { key, score, static_eval, depth, bound, best_move: mv, generation }
}

/// The slots after a store.
pub open spec fn store_result(
    entries: Seq<TtEntry>,
    mask: usize,
    generation: u8,
    key: u64,
    score: Score,
    static_eval: Score,
    depth: i8,
    bound: Bound,
    best_move: Option<Move>,
) -> Seq<TtEntry> {
    let i = slot(mask, key);
    let e = entries[i];
    if replaces(e, generation, key, depth) {
        entries.update(
            i,
            stored_entry(e, generation, key, score, static_eval, depth, bound, best_move),
        )
    } else {
        entries
    }
}

/// Smallest power of two that is at least `n` (1 for 0).
pub open spec fn next_pow2_from(n: int, p: int) -> int
    decreases (if p >= n {
        0
    } else {
        n - p
    }),
{
    if p >= n || p <= 0 {
        p
    } else {
        next_pow2_from(n, 2 * p)
    }
}

pub open spec fn spec_next_power_of_two(n: int) -> int {
    next_pow2_from(n, 1)
}

/// `usize::next_power_of_two`, for values whose result fits.
pub fn next_power_of_two(n: usize) -> (r: usize)
    requires
        n <= 0x4000_0000,
    ensures
        r == spec_next_power_of_two(n as int),
        r >= 1,
        r >= n,
{
    let mut p: usize = 1;
    while p < n
        invariant
            1 <= p <= 0x8000_0000,
            n <= 0x4000_0000,
            next_pow2_from(n as int, p as int) == spec_next_power_of_two(n as int),
        decreases 0x8000_0000 - p,
    {
        p = p * 2;
    }
    p
}

pub struct TranspositionTable {
    entries: Vec<TtEntry>,
    mask: usize,
    generation: u8,
}

impl TranspositionTable {
    pub closed spec fn entries(&self) -> Seq<TtEntry> {
        self.entries@
    }

    pub closed spec fn mask(&self) -> usize {
        self.mask
    }

    pub closed spec fn generation(&self) -> u8 {
        self.generation
    }

    /// The table has `mask + 1` slots, so every slot index is in range.
    pub closed spec fn wf(&self) -> bool {
        self.entries@.len() == self.mask + 1
    }

    pub proof fn lemma_slot_in_range(&self, key: u64)
        requires
            self.wf(),
        ensures
            0 <= slot(self.mask(), key) < self.entries().len(),
    {
        let m = self.mask;
        let k = key as usize;
        assert(k & m <= m) by (bit_vector);
    }

    /// A table of about `size_mb` megabytes: the number of entries that fit,
    /// rounded up to a power of two, all empty, at generation 0.
    pub fn new(size_mb: usize) -> (r: Self)
        requires
            size_mb < 4096,
        ensures
            r.wf(),
            r.mask() == r.entries().len() - 1,
            r.entries().len() == spec_next_power_of_two((size_mb * 1024 * 1024 / 24) as int),
            forall|i: int| 0 <= i < r.entries().len() ==> r.entries()[i] == empty_entry(),
            r.generation() == 0,
    {
        let count = next_power_of_two((size_mb * 1024 * 1024) / ENTRY_BYTES);
        let mut entries: Vec<TtEntry> = Vec::new();
        while entries.len() < count
            invariant
                entries.len() <= count,
                forall|i: int| 0 <= i < entries@.len() ==> entries@[i] == empty_entry(),
            decreases count - entries.len(),
        {
            entries.push(TtEntry::default());
        }
        TranspositionTable { entries, mask: count - 1, generation: 0 }
    }

    /// Starts a new search: the generation advances, wrapping at 256.
    pub fn new_search(&mut self)
        requires
            old(self).wf(),
        ensures
            final(self).wf(),
            final(self).entries() == old(self).entries(),
            final(self).mask() == old(self).mask(),
            final(self).generation() == old(self).generation().wrapping_add(1),
    {
        self.generation = self.generation.wrapping_add(1);
    }

    /// The entry for `key`, if its slot holds `key` and is not empty.
    pub fn probe(&self, key: u64) -> (r: Option<&TtEntry>)
        requires
            self.wf(),
        ensures
            r is Some <==> probe_result(self.entries(), self.mask(), key) is Some,
            r matches Some(e) ==> Some(*e) == probe_result(self.entries(), self.mask(), key),
    {
        proof {
            self.lemma_slot_in_range(key);
        }
        let idx = key as usize & self.mask;
        let entry = &self.entries[idx];
        if entry.key == key && entry.depth >= 0 {
            Some(entry)
        } else {
            None
        }
    }

    /// Stores a search result for `key` under the replacement rule of
    /// [`replaces`], writing the entry of [`stored_entry`].
    pub fn store(
        &mut self,
        key: u64,
        score: Score,
        static_eval: Score,
        depth: i8,
        bound: Bound,
        best_move: Option<Move>,
    )
        requires
            old(self).wf(),
        ensures
            final(self).wf(),
            final(self).mask() == old(self).mask(),
            final(self).generation() == old(self).generation(),
            final(self).entries() == store_result(
                old(self).entries(),
                old(self).mask(),
                old(self).generation(),
                key,
                score,
                static_eval,
                depth,
                bound,
                best_move,
            ),
    {
        proof {
            self.lemma_slot_in_range(key);
        }
        let idx = key as usize & self.mask;
        let entry = self.entries[idx];
        let dominated = entry.key != key && (entry.generation != self.generation || depth
            >= entry.depth);
        if entry.key == key || dominated || entry.depth < 0 {
            let mv = if best_move.is_some() {
                best_move
            } else if entry.key == key {
                entry.best_move
            } else {
                None
            };
            self.entries.set(
                idx,
                TtEntry {
                    key,
                    score,
                    static_eval,
                    depth,
                    bound,
                    best_move: mv,
                    generation: self.generation,
                },
            );
        }
    }

    /// Empties every slot and resets the generation.
    pub fn clear(&mut self)
        requires
            old(self).wf(),
        ensures
            final(self).wf(),
            final(self).mask() == old(self).mask(),
            final(self).generation() == 0,
            final(self).entries().len() == old(self).entries().len(),
            forall|i: int|
                0 <= i < final(self).entries().len() ==> final(self).entries()[i] == empty_entry(),
    {
        self.generation = 0;
        let n = self.entries.len();
        let mut i: usize = 0;
        while i < n
            invariant
                n == self.entries@.len(),
                self.entries@.len() == self.mask + 1,
                self.generation == 0,
                self.mask == old(self).mask,
                i <= n,
                forall|j: int| 0 <= j < i ==> self.entries@[j] == empty_entry(),
            decreases n - i,
        {
            self.entries.set(i, TtEntry::default());
            i = i + 1;
        }
    }
}

/// A store that overwrites its slot (always the case for a key that is
/// already there) is found by the next probe for the same key, with the
/// stored score, bound and depth.
pub proof fn lemma_probe_after_store(
    entries: Seq<TtEntry>,
    mask: usize,
    generation: u8,
    key: u64,
    score: Score,
    static_eval: Score,
    depth: i8,
    bound: Bound,
    best_move: Option<Move>,
)
    requires
        0 <= slot(mask, key) < entries.len(),
        replaces(entries[slot(mask, key)], generation, key, depth),
        depth >= 0,
    ensures
        probe_result(
            store_result(
                entries,
                mask,
                generation,
                key,
                score,
                static_eval,
                depth,
                bound,
                best_move,
            ),
            mask,
            key,
        ) == Some(
            stored_entry(
                entries[slot(mask, key)],
                generation,
                key,
                score,
                static_eval,
                depth,
                bound,
                best_move,
            ),
        ),
{
}

/// A store for one key leaves the probe result of every key in another slot
/// unchanged.
pub proof fn lemma_store_other_slot(
    entries: Seq<TtEntry>,
    mask: usize,
    generation: u8,
    key: u64,
    score: Score,
    static_eval: Score,
    depth: i8,
    bound: Bound,
    best_move: Option<Move>,
    other: u64,
)
    requires
        0 <= slot(mask, key) < entries.len(),
        0 <= slot(mask, other) < entries.len(),
        slot(mask, other) != slot(mask, key),
    ensures
        probe_result(
            store_result(
                entries,
                mask,
                generation,
                key,
                score,
                static_eval,
                depth,
                bound,
                best_move,
            ),
            mask,
            other,
        ) == probe_result(entries, mask, other),
{
}

/// After a clear no key is found.
pub proof fn lemma_probe_after_clear(entries: Seq<TtEntry>, mask: usize, key: u64)
    requires
        0 <= slot(mask, key) < entries.len(),
        forall|i: int| 0 <= i < entries.len() ==> entries[i] == empty_entry(),
    ensures
        probe_result(entries, mask, key) is None,
{
}

/// A store that overwrites its slot is found by the next probe for the same
/// key with exactly what was stored: its score, static evaluation, depth and
/// bound, and its best move when one was given. Only a store without a best
/// move keeps the move the slot already held for that key (and none for
/// another key).
pub proof fn law_probe_after_store_fields(
    entries: Seq<TtEntry>,
    mask: usize,
    generation: u8,
    key: u64,
    score: Score,
    static_eval: Score,
    depth: i8,
    bound: Bound,
    best_move: Option<Move>,
)
    requires
        0 <= slot(mask, key) < entries.len(),
        replaces(entries[slot(mask, key)], generation, key, depth),
        depth >= 0,
    ensures
        ({
            let old_entry = entries[slot(mask, key)];
            let found = probe_result(
                store_result(entries, mask, generation, key, score, static_eval, depth, bound, best_move),
                mask,
                key,
            );
            &&& found is Some
            &&& found.unwrap().key == key
            &&& found.unwrap().score == score
            &&& found.unwrap().static_eval == static_eval
            &&& found.unwrap().depth == depth
            &&& found.unwrap().bound == bound
            &&& found.unwrap().generation == generation
            &&& best_move is Some ==> found.unwrap().best_move == best_move
            &&& best_move is None && old_entry.key == key ==> found.unwrap().best_move == old_entry.best_move
            &&& best_move is None && old_entry.key != key ==> found.unwrap().best_move is None
        }),
{
}

} // verus!
