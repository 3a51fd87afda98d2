//! The table in which samples are added up, one record for each stack.

use crate::stack::{symbol_addresses, Frame, Frames};
use vstd::prelude::*;

verus! {

/// What has been sampled under one stack: the bytes and the objects that
/// were allocated, and those that were freed again.
#[derive(Clone, Copy, Debug, PartialEq, Eq, Structural)]
pub struct MemProfileRecord {
    pub alloc_bytes: isize,
    pub free_bytes: isize,
    pub alloc_objects: isize,
    pub free_objects: isize,
}

/// The record of a stack under which nothing was sampled yet.
pub open spec fn empty_record() -> MemProfileRecord {
    MemProfileRecord { alloc_bytes: 0, free_bytes: 0, alloc_objects: 0, free_objects: 0 }
}

/// The record `rec` after a sample of `bytes`: an allocation where `bytes`
/// is positive, a free of `-bytes` where it is negative. A sample that would
/// take a counter beyond `isize::MAX` is dropped, and so is one of no bytes.
pub open spec fn sampled(rec: MemProfileRecord, bytes: isize) -> MemProfileRecord {
    if bytes > 0 && rec.alloc_bytes + bytes <= isize::MAX && rec.alloc_objects + 1 <= isize::MAX {
        MemProfileRecord {
            alloc_bytes: (rec.alloc_bytes + bytes) as isize,
            alloc_objects: (rec.alloc_objects + 1) as isize,
            ..rec
        }
    } else if bytes < 0 && rec.free_bytes - bytes <= isize::MAX && rec.free_objects + 1
        <= isize::MAX {
        MemProfileRecord {
            free_bytes: (rec.free_bytes - bytes) as isize,
            free_objects: (rec.free_objects + 1) as isize,
            ..rec
        }
    } else {
        rec
    }
}

impl MemProfileRecord {
    /// No counter is negative.
    pub open spec fn well_formed(&self) -> bool {
        &&& self.alloc_bytes >= 0
        &&& self.free_bytes >= 0
        &&& self.alloc_objects >= 0
        &&& self.free_objects >= 0
    }

    /// The bytes that were allocated and not freed again.
    pub fn in_use_bytes(&self) -> (n: isize)
        requires
            isize::MIN <= self.alloc_bytes - self.free_bytes <= isize::MAX,
        ensures
            n == self.alloc_bytes - self.free_bytes,
    {
        self.alloc_bytes - self.free_bytes
    }

    /// The objects that were allocated and not freed again.
    pub fn in_use_objects(&self) -> (n: isize)
        requires
            isize::MIN <= self.alloc_objects - self.free_objects <= isize::MAX,
        ensures
            n == self.alloc_objects - self.free_objects,
    {
        self.alloc_objects - self.free_objects
    }

    /// Adds one sample of `bytes` to the record.
    pub fn sample(&mut self, bytes: isize)
        ensures
            *final(self) == sampled(*old(self), bytes),
    {
        if bytes > 0 {
            if self.alloc_bytes <= isize::MAX - bytes && self.alloc_objects < isize::MAX {
                self.alloc_bytes = self.alloc_bytes + bytes;
                self.alloc_objects = self.alloc_objects + 1;
            }
        } else if bytes < 0 {
            if self.free_bytes <= isize::MAX + bytes && self.free_objects < isize::MAX {
                self.free_bytes = self.free_bytes - bytes;
                self.free_objects = self.free_objects + 1;
            }
        }
    }
}

impl Default for MemProfileRecord {
    fn default() -> (rec: MemProfileRecord)
        ensures
            rec == empty_record(),
    {
        MemProfileRecord { alloc_bytes: 0, free_bytes: 0, alloc_objects: 0, free_objects: 0 }
    }
}

/// A sample keeps a record well formed and never lowers a counter.
pub proof fn lemma_sampled_monotonic(rec: MemProfileRecord, bytes: isize)
    requires
        rec.well_formed(),
    ensures
        sampled(rec, bytes).well_formed(),
        sampled(rec, bytes).alloc_bytes >= rec.alloc_bytes,
        sampled(rec, bytes).free_bytes >= rec.free_bytes,
        sampled(rec, bytes).alloc_objects >= rec.alloc_objects,
        sampled(rec, bytes).free_objects >= rec.free_objects,
{
}

/// One line of the table: a stack and what was sampled under it.
pub type Entry = (Seq<Frame>, MemProfileRecord);

/// The fingerprint under which an entry is filed.
pub open spec fn entry_key(entry: Entry) -> Seq<usize> {
    symbol_addresses(entry.0)
}

/// Whether some entry is filed under `key`.
pub open spec fn has_key(entries: Seq<Entry>, key: Seq<usize>) -> bool {
    exists|i: int| 0 <= i < entries.len() && #[trigger] entry_key(entries[i]) == key
}

/// The place of the entry filed under `key`, where there is one.
pub open spec fn index_of(entries: Seq<Entry>, key: Seq<usize>) -> int {
    choose|i: int| 0 <= i < entries.len() && #[trigger] entry_key(entries[i]) == key
}

/// No two entries are filed under the same fingerprint.
pub open spec fn distinct_keys(entries: Seq<Entry>) -> bool {
    forall|i: int, j: int|
        0 <= i < j < entries.len() ==> #[trigger] entry_key(entries[i]) != #[trigger] entry_key(
            entries[j],
        )
}

/// What was sampled under `key`: nothing, where no entry is filed under it.
pub open spec fn record_of(entries: Seq<Entry>, key: Seq<usize>) -> MemProfileRecord {
    if has_key(entries, key) {
        entries[index_of(entries, key)].1
    } else {
        empty_record()
    }
}

/// The table after a sample of `bytes` under `stack`. The entry of that
/// stack's fingerprint takes the sample; where there is none yet, a new one
/// is filed behind the others, under `stack`.
pub open spec fn recorded(entries: Seq<Entry>, stack: Seq<Frame>, bytes: isize) -> Seq<Entry> {
    let key = symbol_addresses(stack);
    if has_key(entries, key) {
        let i = index_of(entries, key);
        entries.update(i, (entries[i].0, sampled(entries[i].1, bytes)))
    } else {
        entries.push((stack, sampled(empty_record(), bytes)))
    }
}

/// The table as a mapping from fingerprints to records.
pub open spec fn as_map(entries: Seq<Entry>) -> Map<Seq<usize>, MemProfileRecord> {
    Map::new(|key: Seq<usize>| has_key(entries, key), |key: Seq<usize>| record_of(entries, key))
}

/// Every record of the table is well formed.
pub open spec fn well_formed_records(entries: Seq<Entry>) -> bool {
    forall|i: int| 0 <= i < entries.len() ==> (#[trigger] entries[i]).1.well_formed()
}

/// Sums over all records of a table.
pub struct Totals {
    pub alloc_bytes: int,
    pub free_bytes: int,
    pub alloc_objects: int,
    pub free_objects: int,
}

/// The sums of the four counters over all entries.
pub open spec fn totals(entries: Seq<Entry>) -> Totals
    decreases entries.len(),
{
    if entries.len() == 0 {
        Totals { alloc_bytes: 0, free_bytes: 0, alloc_objects: 0, free_objects: 0 }
    } else {
        let rest = totals(entries.drop_last());
        let rec = entries.last().1;
        Totals {
            alloc_bytes: rest.alloc_bytes + rec.alloc_bytes,
            free_bytes: rest.free_bytes + rec.free_bytes,
            alloc_objects: rest.alloc_objects + rec.alloc_objects,
            free_objects: rest.free_objects + rec.free_objects,
        }
    }
}

/// In a table of distinct keys, the entry filed under a key is the only one
/// with that key.
pub proof fn lemma_index_of(entries: Seq<Entry>, i: int)
    requires
        distinct_keys(entries),
        0 <= i < entries.len(),
    ensures
        has_key(entries, entry_key(entries[i])),
        index_of(entries, entry_key(entries[i])) == i,
        record_of(entries, entry_key(entries[i])) == entries[i].1,
{
    let key = entry_key(entries[i]);
    let j = index_of(entries, key);
    assert(0 <= j < entries.len() && entry_key(entries[j]) == key);
    if j < i {
        assert(entry_key(entries[j]) != entry_key(entries[i]));
    } else if i < j {
        assert(entry_key(entries[i]) != entry_key(entries[j]));
    }
}

/// Replacing one record changes each sum by what that record changed.
pub proof fn lemma_totals_update(entries: Seq<Entry>, i: int, entry: Entry)
    requires
        0 <= i < entries.len(),
    ensures
        totals(entries.update(i, entry)).alloc_bytes == totals(entries).alloc_bytes
            - entries[i].1.alloc_bytes + entry.1.alloc_bytes,
        totals(entries.update(i, entry)).free_bytes == totals(entries).free_bytes
            - entries[i].1.free_bytes + entry.1.free_bytes,
        totals(entries.update(i, entry)).alloc_objects == totals(entries).alloc_objects
            - entries[i].1.alloc_objects + entry.1.alloc_objects,
        totals(entries.update(i, entry)).free_objects == totals(entries).free_objects
            - entries[i].1.free_objects + entry.1.free_objects,
    decreases entries.len(),
{
    let updated = entries.update(i, entry);
    if i == entries.len() - 1 {
        assert(updated.drop_last() =~= entries.drop_last());
    } else {
        lemma_totals_update(entries.drop_last(), i, entry);
        assert(updated.drop_last() =~= entries.drop_last().update(i, entry));
    }
}

/// A new entry adds its record to each sum.
pub proof fn lemma_totals_push(entries: Seq<Entry>, entry: Entry)
    ensures
        totals(entries.push(entry)).alloc_bytes == totals(entries).alloc_bytes
            + entry.1.alloc_bytes,
        totals(entries.push(entry)).free_bytes == totals(entries).free_bytes + entry.1.free_bytes,
        totals(entries.push(entry)).alloc_objects == totals(entries).alloc_objects
            + entry.1.alloc_objects,
        totals(entries.push(entry)).free_objects == totals(entries).free_objects
            + entry.1.free_objects,
{
    assert(entries.push(entry).drop_last() =~= entries);
}

/// No record of a well-formed table holds more than the sums do, and the
/// sums are not negative.
pub proof fn lemma_totals_bound(entries: Seq<Entry>, i: int)
    requires
        well_formed_records(entries),
        0 <= i < entries.len(),
    ensures
        0 <= entries[i].1.alloc_bytes <= totals(entries).alloc_bytes,
        0 <= entries[i].1.free_bytes <= totals(entries).free_bytes,
        0 <= entries[i].1.alloc_objects <= totals(entries).alloc_objects,
        0 <= entries[i].1.free_objects <= totals(entries).free_objects,
    decreases entries.len(),
{
    lemma_totals_nonnegative(entries.drop_last());
    if i < entries.len() - 1 {
        lemma_totals_bound(entries.drop_last(), i);
    }
}

/// The sums over a well-formed table are not negative.
pub proof fn lemma_totals_nonnegative(entries: Seq<Entry>)
    requires
        well_formed_records(entries),
    ensures
        totals(entries).alloc_bytes >= 0,
        totals(entries).free_bytes >= 0,
        totals(entries).alloc_objects >= 0,
        totals(entries).free_objects >= 0,
    decreases entries.len(),
{
    if entries.len() > 0 {
        lemma_totals_nonnegative(entries.drop_last());
    }
}

/// What one sample does to a table: its keys stay distinct, its records
/// well formed, the sampled key's record takes the sample and every other
/// record stays as it was.
pub proof fn lemma_recorded(entries: Seq<Entry>, stack: Seq<Frame>, bytes: isize)
    requires
        distinct_keys(entries),
    ensures
        distinct_keys(recorded(entries, stack, bytes)),
        well_formed_records(entries) ==> well_formed_records(recorded(entries, stack, bytes)),
        as_map(recorded(entries, stack, bytes)) == as_map(entries).insert(
            symbol_addresses(stack),
            sampled(record_of(entries, symbol_addresses(stack)), bytes),
        ),
{
    let key = symbol_addresses(stack);
    let after = recorded(entries, stack, bytes);
    let rec = sampled(record_of(entries, key), bytes);
    if has_key(entries, key) {
        let i = index_of(entries, key);
        assert(forall|j: int| 0 <= j < entries.len() ==> entry_key(#[trigger] after[j]) == entry_key(
            entries[j],
        ));
    } else {
        assert(forall|j: int| 0 <= j < entries.len() ==> after[j] == entries[j]);
        assert(entry_key(after[entries.len() as int]) == key);
    }
    assert(distinct_keys(after)) by {
        assert forall|i: int, j: int| 0 <= i < j < after.len() implies entry_key(after[i])
            != entry_key(after[j]) by {
            if j < entries.len() {
                assert(entry_key(entries[i]) != entry_key(entries[j]));
            } else {
                assert(entry_key(entries[i]) != key);
            }
        }
    }
    if well_formed_records(entries) {
        assert forall|j: int| 0 <= j < after.len() implies (#[trigger] after[j]).1.well_formed() by {
            if j < entries.len() {
                assert(entries[j].1.well_formed());
                lemma_sampled_monotonic(entries[j].1, bytes);
            } else {
                lemma_sampled_monotonic(empty_record(), bytes);
            }
        }
    }
    assert(as_map(after) =~= as_map(entries).insert(key, rec)) by {
        assert forall|k: Seq<usize>| #[trigger] has_key(after, k) == (has_key(entries, k) || k == key) by {
            if has_key(after, k) {
                let j = index_of(after, k);
                if j < entries.len() {
                    assert(entry_key(entries[j]) == k);
                }
            }
            if has_key(entries, k) {
                let j = index_of(entries, k);
                assert(entry_key(after[j]) == k);
            }
            if k == key {
                if has_key(entries, key) {
                    let j = index_of(entries, key);
                    assert(entry_key(after[j]) == k);
                } else {
                    assert(entry_key(after[entries.len() as int]) == k);
                }
            }
        }
        assert forall|k: Seq<usize>| has_key(after, k) implies #[trigger] record_of(after, k) == (if k
            == key {
            rec
        } else {
            record_of(entries, k)
        }) by {
            let j = index_of(after, k);
            lemma_index_of(after, j);
            if k == key {
                if has_key(entries, key) {
                    let i = index_of(entries, key);
                    assert(entry_key(after[i]) == key);
                    lemma_index_of(after, i);
                } else {
                    lemma_index_of(after, entries.len() as int);
                }
            } else {
                assert(j < entries.len());
                assert(entry_key(entries[j]) == k);
                lemma_index_of(entries, j);
            }
        }
    }
}

/// What one sample does to the sums: they grow by what the sampled record
/// grew, and by nothing else.
pub proof fn lemma_recorded_totals(entries: Seq<Entry>, stack: Seq<Frame>, bytes: isize)
    ensures
        ({
            let before = record_of(entries, symbol_addresses(stack));
            let after = sampled(before, bytes);
            let sums = totals(entries);
            let new_sums = totals(recorded(entries, stack, bytes));
            &&& new_sums.alloc_bytes == sums.alloc_bytes + after.alloc_bytes - before.alloc_bytes
            &&& new_sums.free_bytes == sums.free_bytes + after.free_bytes - before.free_bytes
            &&& new_sums.alloc_objects == sums.alloc_objects + after.alloc_objects
                - before.alloc_objects
            &&& new_sums.free_objects == sums.free_objects + after.free_objects
                - before.free_objects
        }),
{
    let key = symbol_addresses(stack);
    if has_key(entries, key) {
        let i = index_of(entries, key);
        lemma_totals_update(entries, i, (entries[i].0, sampled(entries[i].1, bytes)));
    } else {
        lemma_totals_push(entries, (stack, sampled(empty_record(), bytes)));
    }
}

/// The entries that a vector of stacks and records stands for.
pub open spec fn entries_of(pairs: Seq<(Frames, MemProfileRecord)>) -> Seq<Entry> {
    Seq::new(pairs.len(), |i: int| (pairs[i].0@, pairs[i].1))
}

/// The table of samples: for each stack that was sampled, one record.
///
/// The entries are kept in a vector and found by comparing stacks, in the
/// order in which the stacks were first sampled. What a hash table gives,
/// that no stack is filed twice, is kept as the type's invariant. A hash
/// table itself would rest on how the hasher and `Frames::eq` agree, which
/// is not among the things proved here.
pub struct Collector {
    table: Vec<(Frames, MemProfileRecord)>,
}

impl View for Collector {
    type V = Map<Seq<usize>, MemProfileRecord>;

    /// The table as a mapping from fingerprints to records.
    open spec fn view(&self) -> Map<Seq<usize>, MemProfileRecord> {
        as_map(self.entries())
    }
}

impl Collector {
    #[verifier::type_invariant]
    spec fn well_formed(self) -> bool {
        &&& distinct_keys(entries_of(self.table@))
        &&& well_formed_records(entries_of(self.table@))
    }

    /// The entries of the table, in the order in which their stacks were
    /// first sampled.
    pub closed spec fn entries(&self) -> Seq<Entry> {
        entries_of(self.table@)
    }

    /// An empty table.
    pub fn new() -> (collector: Collector)
        ensures
            collector.entries() == Seq::<Entry>::empty(),
            collector@ == Map::<Seq<usize>, MemProfileRecord>::empty(),
    {
        let collector = Collector { table: Vec::new() };
        assert(collector.entries() =~= Seq::<Entry>::empty());
        assert(collector@ =~= Map::<Seq<usize>, MemProfileRecord>::empty());
        collector
    }

    /// Adds a sample of `bytes` under the stack `key`: an allocation where
    /// `bytes` is positive, a free where it is negative.
    pub fn record(&mut self, key: Frames, bytes: isize)
        ensures
            final(self).entries() == recorded(old(self).entries(), key@, bytes),
            final(self)@ == old(self)@.insert(
                key.key(),
                sampled(record_of(old(self).entries(), key.key()), bytes),
            ),
    {
        proof {
            use_type_invariant(&*self);
            lemma_recorded(self.entries(), key@, bytes);
        }
        let ghost before = self.entries();
        let mut i: usize = 0;
        let mut found = false;
        while i < self.table.len() && !found
            invariant
                i <= self.table.len(),
                self.entries() == before,
                found ==> i < self.table.len() && entry_key(before[i as int]) == key.key(),
                forall|j: int| 0 <= j < i && !found ==> entry_key(#[trigger] before[j]) != key.key(),
            decreases self.table.len() - i + (if found { 0int } else { 1int }),
        {
            if self.table[i].0.same_stack(&key) {
                found = true;
            } else {
                i = i + 1;
            }
        }
        // The vector leaves the table while it changes, so that the table
        // is whole whatever happens in between.
        let mut table: Vec<(Frames, MemProfileRecord)> = Vec::new();
        std::mem::swap(&mut self.table, &mut table);
        if found {
            proof {
                lemma_index_of(before, i as int);
            }
            let (stack, mut rec) = table[i];
            rec.sample(bytes);
            table[i] = (stack, rec);
        } else {
            let mut rec = MemProfileRecord::default();
            rec.sample(bytes);
            table.push((key, rec));
        }
        assert(entries_of(table@) =~= recorded(before, key@, bytes));
        std::mem::swap(&mut self.table, &mut table);
    }

    /// Hands out the entries of the table, in the order in which their
    /// stacks were first sampled.
    pub fn into_iter(self) -> (pairs: Vec<(Frames, MemProfileRecord)>)
        ensures
            entries_of(pairs@) == self.entries(),
            distinct_keys(entries_of(pairs@)),
            well_formed_records(entries_of(pairs@)),
    {
        proof {
            use_type_invariant(&self);
        }
        self.table
    }
}

impl Default for Collector {
    fn default() -> (collector: Collector)
        ensures
            collector.entries() == Seq::<Entry>::empty(),
    {
        Collector::new()
    }
}

} // verus!
