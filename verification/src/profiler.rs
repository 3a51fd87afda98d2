//! The profiler's state and its one decision: which allocations to sample.
//!
//! Every allocation is counted. When the bytes counted reach the threshold
//! `next_sample`, the allocation that got them there is sampled under its
//! stack, and the threshold moves one period beyond the bytes counted. A
//! free is accounted to the stack that its block was sampled under, where
//! the profiler was started to measure frees.

use crate::block::{Block, Header};
use crate::collector::{
    as_map, distinct_keys, has_key, index_of, lemma_recorded, lemma_recorded_totals,
    lemma_totals_bound, lemma_totals_nonnegative, record_of, recorded, sampled, totals,
    well_formed_records, Collector, Entry, MemProfileRecord,
};
use crate::report::{all_resolved_by, distinct_stacks, folded, Report, Stack};
use crate::stack::{symbol_addresses, Frame, Frames};
use vstd::prelude::*;

verus! {

/// The flag that keeps a thread from profiling its own profiling: it is set
/// while the thread is inside the profiler, and whoever finds it set stays
/// out.
#[derive(Clone, Copy, Debug)]
pub struct ReentrancyGuard {
    in_profiler: bool,
}

impl ReentrancyGuard {
    /// Whether the thread is inside the profiler.
    pub closed spec fn entered(&self) -> bool {
        self.in_profiler
    }

    /// The guard of a thread that is not inside the profiler.
    pub fn new() -> (guard: ReentrancyGuard)
        ensures
            !guard.entered(),
    {
        ReentrancyGuard { in_profiler: false }
    }

    /// Marks the thread as inside the profiler, and says whether it came in
    /// from outside. A thread that was inside already gets `false`, and must
    /// neither sample nor [`leave`](ReentrancyGuard::leave).
    pub fn enter(&mut self) -> (first: bool)
        ensures
            first == !old(self).entered(),
            final(self).entered(),
    {
        let first = !self.in_profiler;
        self.in_profiler = true;
        first
    }

    /// Marks the thread as outside the profiler again.
    pub fn leave(&mut self)
        ensures
            !final(self).entered(),
    {
        self.in_profiler = false;
    }
}

/// What the profiler knows at one moment.
pub struct State {
    /// Whether the profiler is running.
    pub enabled: bool,
    /// Whether frees are accounted as well.
    pub measure_free: bool,
    /// The number of bytes between two samples.
    pub period: usize,
    /// The bytes allocated since the profiler was started.
    pub allocated_bytes: isize,
    /// The allocations made since the profiler was started.
    pub allocated_objects: isize,
    /// The count of allocated bytes at which the next sample is taken.
    pub next_sample: isize,
    /// The table of samples.
    pub entries: Seq<Entry>,
}

/// The state of a profiler that is not running and has seen nothing.
pub open spec fn idle(measure_free: bool) -> State {
    State {
        enabled: false,
        measure_free,
        period: 0,
        allocated_bytes: 0,
        allocated_objects: 0,
        next_sample: 0,
        entries: Seq::empty(),
    }
}

/// The threshold one period beyond `allocated` bytes, as far as it can be
/// told in an `isize`.
pub open spec fn threshold(allocated: int, period: usize) -> isize {
    if allocated + period <= isize::MAX {
        (allocated + period) as isize
    } else {
        isize::MAX
    }
}

/// The state of a profiler just started with `period`.
pub open spec fn started(measure_free: bool, period: usize) -> State {
    State {
        enabled: true,
        measure_free,
        period,
        allocated_bytes: 0,
        allocated_objects: 0,
        next_sample: threshold(0, period),
        entries: Seq::empty(),
    }
}

/// Whether an event of `size` bytes is counted as an allocation: the
/// profiler runs, the event allocates, and the counters can take it.
pub open spec fn counts(s: State, size: isize) -> bool {
    &&& s.enabled
    &&& size > 0
    &&& s.allocated_bytes + size <= isize::MAX
    &&& s.allocated_objects + 1 <= isize::MAX
}

/// Whether an event of `size` bytes is sampled: it is counted, and with it
/// the bytes allocated reach the threshold.
pub open spec fn samples(s: State, size: isize) -> bool {
    counts(s, size) && s.allocated_bytes + size >= s.next_sample
}

/// Whether an event of `size` bytes is accounted as a free.
pub open spec fn frees(s: State, size: isize) -> bool {
    s.enabled && s.measure_free && size < 0
}

/// The state after an event of `size` bytes that is accounted, if at all,
/// to `stack`.
pub open spec fn after_event(s: State, size: isize, stack: Seq<Frame>) -> State {
    if samples(s, size) {
        State {
            allocated_bytes: (s.allocated_bytes + size) as isize,
            allocated_objects: (s.allocated_objects + 1) as isize,
            next_sample: threshold(s.allocated_bytes + size, s.period),
            entries: recorded(s.entries, stack, size),
            ..s
        }
    } else if counts(s, size) {
        State {
            allocated_bytes: (s.allocated_bytes + size) as isize,
            allocated_objects: (s.allocated_objects + 1) as isize,
            ..s
        }
    } else if frees(s, size) {
        State { entries: recorded(s.entries, stack, size), ..s }
    } else {
        s
    }
}

/// The stack that a block holds, or the empty stack where it holds none.
pub open spec fn stack_or_empty(frames: Option<Seq<Frame>>) -> Seq<Frame> {
    match frames {
        Some(stack) => stack,
        None => Seq::empty(),
    }
}

/// How the stack that a block holds after an event relates to the one it
/// held before: a block that held none and whose event `takes` a sample
/// holds one that `capture` took, and every other block holds what it held.
pub open spec fn attached<F: FnOnce() -> Frames>(
    held: Option<Seq<Frame>>,
    kept: Option<Seq<Frame>>,
    takes: bool,
    capture: F,
) -> bool {
    if takes && held is None {
        exists|taken: Frames| capture.ensures((), taken) && kept == Some(taken@)
    } else {
        kept == held
    }
}

/// The number of allocations sampled so far.
pub open spec fn sample_count(s: State) -> int {
    totals(s.entries).alloc_objects
}

/// What holds of every state that a profiler can get into.
///
/// The counters are not negative, and the table's keys are distinct. The
/// table never holds more than was allocated, and with a period of one byte
/// (or none) it holds exactly what was allocated. The samples taken are at
/// least one period apart.
pub open spec fn consistent(s: State) -> bool {
    &&& s.allocated_bytes >= 0
    &&& s.allocated_objects >= 0
    &&& distinct_keys(s.entries)
    &&& well_formed_records(s.entries)
    &&& totals(s.entries).alloc_bytes <= s.allocated_bytes
    &&& totals(s.entries).alloc_objects <= s.allocated_objects
    &&& s.period <= 1 ==> {
        &&& totals(s.entries).alloc_bytes == s.allocated_bytes
        &&& totals(s.entries).alloc_objects == s.allocated_objects
        &&& s.next_sample <= s.allocated_bytes + 1
    }
    &&& s.next_sample == isize::MAX || s.next_sample >= (sample_count(s) + 1) * s.period
    &&& s.allocated_bytes + s.period <= isize::MAX ==> sample_count(s) * s.period
        <= s.allocated_bytes
}

/// A profiler that was just made or just started is in a consistent state.
pub proof fn lemma_initially_consistent(measure_free: bool, period: usize)
    ensures
        consistent(idle(measure_free)),
        consistent(started(measure_free, period)),
{
    assert((0 + 1) * period == period) by (nonlinear_arith);
    assert(0 * period == 0) by (nonlinear_arith);
    assert((0 + 1) * 0 == 0);
}

/// An allocation that is counted is recorded in full: no counter of the
/// table is near its limit while the table holds no more than was
/// allocated.
pub proof fn lemma_sample_recorded(s: State, size: isize, stack: Seq<Frame>)
    requires
        consistent(s),
        counts(s, size),
    ensures
        ({
            let before = record_of(s.entries, symbol_addresses(stack));
            let after = sampled(before, size);
            &&& after.alloc_bytes == before.alloc_bytes + size
            &&& after.alloc_objects == before.alloc_objects + 1
            &&& after.free_bytes == before.free_bytes
            &&& after.free_objects == before.free_objects
        }),
        totals(recorded(s.entries, stack, size)).alloc_bytes == totals(s.entries).alloc_bytes + size,
        totals(recorded(s.entries, stack, size)).alloc_objects == totals(s.entries).alloc_objects
            + 1,
        totals(recorded(s.entries, stack, size)).free_bytes == totals(s.entries).free_bytes,
        totals(recorded(s.entries, stack, size)).free_objects == totals(s.entries).free_objects,
{
    let key = symbol_addresses(stack);
    if has_key(s.entries, key) {
        lemma_totals_bound(s.entries, index_of(s.entries, key));
    }
    lemma_recorded_totals(s.entries, stack, size);
}

/// Whatever event is accounted for, the state stays consistent.
pub proof fn lemma_event_keeps_consistent(s: State, size: isize, stack: Seq<Frame>)
    requires
        consistent(s),
    ensures
        consistent(after_event(s, size, stack)),
{
    let t = after_event(s, size, stack);
    let n = sample_count(s);
    let p = s.period as int;
    lemma_totals_nonnegative(s.entries);
    if samples(s, size) {
        lemma_recorded(s.entries, stack, size);
        lemma_sample_recorded(s, size, stack);
        assert(sample_count(t) == n + 1);
        assert((n + 1 + 1) * p == (n + 1) * p + p) by (nonlinear_arith);
        if s.next_sample == isize::MAX {
            assert(t.allocated_bytes == isize::MAX);
            if p == 0 {
                assert((n + 1) * p == 0) by (nonlinear_arith)
                    requires
                        p == 0,
                ;
            }
        }
    } else if counts(s, size) {
        assert(sample_count(t) == n);
        if s.period <= 1 {
            assert(false);
        }
    } else if frees(s, size) {
        lemma_recorded(s.entries, stack, size);
        lemma_recorded_totals(s.entries, stack, size);
        let key = symbol_addresses(stack);
        let before = record_of(s.entries, key);
        assert(sampled(before, size).alloc_bytes == before.alloc_bytes);
        assert(sampled(before, size).alloc_objects == before.alloc_objects);
        assert(sample_count(t) == n);
    }
}

/// The samples of a profiler whose counters are not at their limit are at
/// least one period of allocated bytes apart: there are no more of them
/// than periods in the bytes allocated.
pub proof fn lemma_sampling_rate_bound(s: State)
    requires
        consistent(s),
        s.period >= 1,
        s.allocated_bytes + s.period <= isize::MAX,
    ensures
        sample_count(s) <= (s.allocated_bytes as int) / (s.period as int),
{
    let n = sample_count(s);
    let p = s.period as int;
    let a = s.allocated_bytes as int;
    lemma_totals_nonnegative(s.entries);
    assert(n * p <= a ==> n <= a / p) by (nonlinear_arith)
        requires
            p >= 1,
            n >= 0,
            a >= 0,
    ;
}

/// What is true while a profiler has only seen allocations that reached its
/// threshold exactly and not gone beyond it: the threshold lies one period
/// behind the last sample, and the bytes allocated have not reached it.
pub open spec fn on_the_beat(s: State) -> bool {
    &&& s.period >= 1
    &&& s.next_sample == (sample_count(s) + 1) * s.period
    &&& sample_count(s) * s.period <= s.allocated_bytes < s.next_sample
}

/// A profiler on the beat has taken exactly one sample for each full period
/// of bytes allocated.
pub proof fn lemma_sampling_rate_exact(s: State)
    requires
        on_the_beat(s),
    ensures
        sample_count(s) == (s.allocated_bytes as int) / (s.period as int),
{
    let n = sample_count(s);
    let p = s.period as int;
    let a = s.allocated_bytes as int;
    assert(n * p <= a < (n + 1) * p ==> n == a / p) by (nonlinear_arith)
        requires
            p >= 1,
    ;
}

/// A profiler that was just started with a period of at least one byte is
/// on the beat.
pub proof fn lemma_started_on_the_beat(measure_free: bool, period: usize)
    requires
        1 <= period <= isize::MAX,
    ensures
        on_the_beat(started(measure_free, period)),
{
    let p = period as int;
    assert((0 + 1) * p == p) by (nonlinear_arith);
    assert(0 * p == 0) by (nonlinear_arith);
}

/// An allocation of one byte keeps a profiler on the beat, as long as its
/// counters are not at their limit.
pub proof fn lemma_unit_allocation_keeps_the_beat(s: State, stack: Seq<Frame>)
    requires
        consistent(s),
        on_the_beat(s),
        s.enabled,
        s.allocated_bytes + 1 + s.period <= isize::MAX,
        s.allocated_objects + 1 <= isize::MAX,
    ensures
        on_the_beat(after_event(s, 1, stack)),
        after_event(s, 1, stack).allocated_bytes == s.allocated_bytes + 1,
        after_event(s, 1, stack).allocated_objects == s.allocated_objects + 1,
{
    let n = sample_count(s);
    let p = s.period as int;
    if samples(s, 1) {
        lemma_sample_recorded(s, 1, stack);
        assert((n + 1 + 1) * p == (n + 1) * p + p) by (nonlinear_arith);
        assert((n + 1) * p == n * p + p) by (nonlinear_arith);
    }
}

/// The state after allocations of one byte each, where the one that is
/// sampled as the `i`-th of them would be sampled under `stacks[i]`.
pub open spec fn after_unit_allocations(s: State, stacks: Seq<Seq<Frame>>) -> State
    decreases stacks.len(),
{
    if stacks.len() == 0 {
        s
    } else {
        after_event(after_unit_allocations(s, stacks.drop_last()), 1, stacks.last())
    }
}

/// The sampling rate: a profiler started with `period` that has then seen
/// `n` allocations of one byte each has counted `n` bytes and taken exactly
/// `n / period` samples.
pub proof fn lemma_unit_allocations_rate(
    measure_free: bool,
    period: usize,
    stacks: Seq<Seq<Frame>>,
)
    requires
        period >= 1,
        stacks.len() + period <= isize::MAX,
    ensures
        ({
            let after = after_unit_allocations(started(measure_free, period), stacks);
            &&& consistent(after)
            &&& on_the_beat(after)
            &&& after.enabled
            &&& after.period == period
            &&& after.allocated_bytes == stacks.len()
            &&& after.allocated_objects == stacks.len()
            &&& sample_count(after) == (stacks.len() as int) / (period as int)
        }),
    decreases stacks.len(),
{
    let begin = started(measure_free, period);
    if stacks.len() == 0 {
        lemma_initially_consistent(measure_free, period);
        lemma_started_on_the_beat(measure_free, period);
    } else {
        lemma_unit_allocations_rate(measure_free, period, stacks.drop_last());
        let before = after_unit_allocations(begin, stacks.drop_last());
        lemma_event_keeps_consistent(before, 1, stacks.last());
        lemma_unit_allocation_keeps_the_beat(before, stacks.last());
    }
    lemma_sampling_rate_exact(after_unit_allocations(begin, stacks));
}

/// A free that is accounted lowers what is in use under its stack by
/// exactly its size, and changes the record of no other stack.
pub proof fn lemma_free_accounting(s: State, size: isize, stack: Seq<Frame>)
    requires
        consistent(s),
        frees(s, size),
        record_of(s.entries, symbol_addresses(stack)).free_bytes - size <= isize::MAX,
        record_of(s.entries, symbol_addresses(stack)).free_objects + 1 <= isize::MAX,
    ensures
        ({
            let key = symbol_addresses(stack);
            let before = record_of(s.entries, key);
            let after = record_of(after_event(s, size, stack).entries, key);
            &&& after.alloc_bytes - after.free_bytes == before.alloc_bytes - before.free_bytes
                + size
            &&& after.alloc_objects - after.free_objects == before.alloc_objects
                - before.free_objects - 1
            &&& forall|other: Seq<usize>|
                other != key ==> record_of(after_event(s, size, stack).entries, other) == record_of(
                    s.entries,
                    other,
                )
        }),
{
    let key = symbol_addresses(stack);
    let after = after_event(s, size, stack).entries;
    lemma_recorded(s.entries, stack, size);
    assert(as_map(after)[key] == sampled(record_of(s.entries, key), size));
    assert(has_key(after, key)) by {
        assert(as_map(after).dom().contains(key));
    }
    assert forall|other: Seq<usize>| other != key implies record_of(after, other) == record_of(
        s.entries,
        other,
    ) by {
        assert(as_map(after).dom().contains(other)
            == as_map(s.entries).dom().contains(other));
        if has_key(s.entries, other) {
            assert(as_map(after)[other] == as_map(
                s.entries,
            )[other]);
        }
    }
}

/// The profiler: whether it runs, how often it samples, what it has counted
/// and the table of what it has sampled.
pub struct Profiler {
    enabled: bool,
    measure_free: bool,
    period: usize,
    allocated_bytes: isize,
    allocated_objects: isize,
    next_sample: isize,
    collector: Collector,
}

impl View for Profiler {
    type V = State;

    closed spec fn view(&self) -> State {
        State {
            enabled: self.enabled,
            measure_free: self.measure_free,
            period: self.period,
            allocated_bytes: self.allocated_bytes,
            allocated_objects: self.allocated_objects,
            next_sample: self.next_sample,
            entries: self.collector.entries(),
        }
    }
}

impl Profiler {
    #[verifier::type_invariant]
    spec fn well_formed(self) -> bool {
        consistent(self@)
    }

    /// A profiler that does not run yet. `measure_free` says whether it will
    /// account frees as well as allocations.
    pub fn new(measure_free: bool) -> (profiler: Profiler)
        ensures
            profiler@ == idle(measure_free),
            consistent(profiler@),
    {
        proof {
            lemma_initially_consistent(measure_free, 0);
        }
        Profiler {
            enabled: false,
            measure_free,
            period: 0,
            allocated_bytes: 0,
            allocated_objects: 0,
            next_sample: 0,
            collector: Collector::new(),
        }
    }

    /// Starts the profiler with a sample every `period` bytes. Whatever it
    /// had counted and sampled before is forgotten.
    pub fn start(&mut self, period: usize)
        ensures
            final(self)@ == started(old(self)@.measure_free, period),
            consistent(final(self)@),
    {
        proof {
            lemma_initially_consistent(self.measure_free, period);
        }
        let next_sample: isize = if period <= isize::MAX as usize {
            period as isize
        } else {
            isize::MAX
        };
        let mut fresh = Profiler {
            enabled: true,
            measure_free: self.measure_free,
            period,
            allocated_bytes: 0,
            allocated_objects: 0,
            next_sample,
            collector: Collector::new(),
        };
        std::mem::swap(self, &mut fresh);
    }

    /// Stops the profiler. What it has counted and sampled stays.
    pub fn stop(&mut self)
        ensures
            final(self)@ == (State { enabled: false, ..old(self)@ }),
            consistent(final(self)@),
    {
        proof {
            use_type_invariant(&*self);
        }
        self.enabled = false;
    }

    /// Whether the profiler runs.
    pub fn is_enabled(&self) -> (enabled: bool)
        ensures
            enabled == self@.enabled,
    {
        self.enabled
    }

    /// The number of bytes between two samples.
    pub fn period(&self) -> (period: usize)
        ensures
            period == self@.period,
    {
        self.period
    }

    /// Whether frees are accounted as well as allocations.
    pub fn measures_free(&self) -> (measure_free: bool)
        ensures
            measure_free == self@.measure_free,
    {
        self.measure_free
    }

    /// The count of allocated bytes at which the next sample is taken.
    pub fn next_sample(&self) -> (next_sample: isize)
        ensures
            next_sample == self@.next_sample,
    {
        self.next_sample
    }

    /// The bytes allocated since the profiler was started.
    pub fn allocated_bytes(&self) -> (bytes: isize)
        ensures
            bytes == self@.allocated_bytes,
            consistent(self@),
    {
        proof {
            use_type_invariant(self);
        }
        self.allocated_bytes
    }

    /// The allocations made since the profiler was started.
    pub fn allocated_objects(&self) -> (objects: isize)
        ensures
            objects == self@.allocated_objects,
            consistent(self@),
    {
        proof {
            use_type_invariant(self);
        }
        self.allocated_objects
    }

    /// Accounts for an event of `size` bytes on `block`: an allocation where
    /// `size` is positive, a free of `-size` bytes where it is negative.
    ///
    /// An allocation is counted, and sampled if the bytes counted have
    /// reached the threshold. The sample goes under the stack that the block
    /// holds; a block that holds none gets the one that `capture` takes. A
    /// free is accounted, where frees are measured, to the stack that the
    /// block holds, or to the empty stack if it holds none. A profiler that
    /// does not run does nothing.
    pub fn track_allocated<F: FnOnce() -> Frames>(
        &mut self,
        size: isize,
        block: &mut Block,
        capture: F,
    )
        requires
            old(block).header().frames is None ==> capture.requires(()),
        ensures
            consistent(final(self)@),
            final(block).base() == old(block).base(),
            final(block).header() == (Header {
                frames: final(block).header().frames,
                ..old(block).header()
            }),
            attached(
                old(block).header().frames,
                final(block).header().frames,
                samples(old(self)@, size),
                capture,
            ),
            final(self)@ == after_event(
                old(self)@,
                size,
                stack_or_empty(final(block).header().frames),
            ),
    {
        proof {
            use_type_invariant(&*self);
        }
        let ghost before = self@;
        if !self.enabled || size == 0 {
            return ;
        }
        if size > 0 {
            if self.allocated_bytes > isize::MAX - size || self.allocated_objects == isize::MAX {
                return ;
            }
            let allocated_bytes = self.allocated_bytes + size;
            let allocated_objects = self.allocated_objects + 1;
            if allocated_bytes < self.next_sample {
                proof {
                    lemma_event_keeps_consistent(before, size, stack_or_empty(block.header().frames));
                }
                let mut state = Profiler::new(self.measure_free);
                std::mem::swap(self, &mut state);
                let Profiler { enabled, measure_free, period, next_sample, collector, .. } = state;
                let mut state = Profiler {
                    enabled,
                    measure_free,
                    period,
                    allocated_bytes,
                    allocated_objects,
                    next_sample,
                    collector,
                };
                std::mem::swap(self, &mut state);
                return ;
            }
            let stack = block.backtrace(true, capture);
            proof {
                lemma_event_keeps_consistent(before, size, stack@);
            }
            let mut state = Profiler::new(self.measure_free);
            std::mem::swap(self, &mut state);
            let Profiler { enabled, measure_free, period, mut collector, .. } = state;
            collector.record(stack, size);
            let next_sample: isize = if period <= (isize::MAX - allocated_bytes) as usize {
                allocated_bytes + period as isize
            } else {
                isize::MAX
            };
            let mut state = Profiler {
                enabled,
                measure_free,
                period,
                allocated_bytes,
                allocated_objects,
                next_sample,
                collector,
            };
            std::mem::swap(self, &mut state);
        } else if self.measure_free {
            let stack = block.backtrace(false, capture);
            proof {
                lemma_event_keeps_consistent(before, size, stack@);
            }
            let mut state = Profiler::new(self.measure_free);
            std::mem::swap(self, &mut state);
            let Profiler {
                enabled,
                measure_free,
                period,
                allocated_bytes,
                allocated_objects,
                next_sample,
                mut collector,
            } = state;
            collector.record(stack, size);
            let mut state = Profiler {
                enabled,
                measure_free,
                period,
                allocated_bytes,
                allocated_objects,
                next_sample,
                collector,
            };
            std::mem::swap(self, &mut state);
        }
    }

    /// Ends the session: stops the profiler and reports what it sampled,
    /// with each stack resolved by `resolve` (see [`Report::snapshot`]). The
    /// profiler is left as if it had never run.
    pub fn report<R: Fn(Frame) -> Vec<String>>(&mut self, resolve: R) -> (report: Report)
        requires
            forall|frame: Frame| resolve.requires((frame,)),
        ensures
            final(self)@ == idle(old(self)@.measure_free),
            report.sampling_period() == old(self)@.period,
            distinct_stacks(report.weights()),
            exists|named: Seq<(Stack, MemProfileRecord)>|
                all_resolved_by(resolve, old(self)@.entries, named) && report.weights() == folded(
                    named,
                ),
    {
        let period = self.period;
        let collector = self.take_samples();
        Report::snapshot(collector.into_iter(), period, resolve)
    }

    /// Stops the profiler and takes the table of samples out of it. The
    /// profiler is left as if it had never run.
    pub fn take_samples(&mut self) -> (collector: Collector)
        ensures
            collector.entries() == old(self)@.entries,
            final(self)@ == idle(old(self)@.measure_free),
    {
        let mut state = Profiler::new(self.measure_free);
        std::mem::swap(self, &mut state);
        let Profiler { collector, .. } = state;
        collector
    }
}

} // verus!
