//! What holds of a whole session.
//!
//! A session is a profiler and the blocks that were handed out and not yet
//! freed. Each call of an entry point is one event that takes the session
//! from one state to the next, as the contracts in [`crate::hook`] say. This
//! module follows a session through any number of events and shows that
//! its books balance: with every allocation sampled, the table holds what
//! was allocated, and what it holds as freed was allocated before.

use crate::block::{Header, MAGIC};
use crate::collector::{
    has_key, index_of, lemma_recorded_totals, lemma_totals_bound, lemma_totals_nonnegative,
    record_of, recorded, sampled, totals,
};
use crate::hook::{accounted, clamp};
use crate::profiler::{
    after_event, consistent, counts, frees, lemma_event_keeps_consistent,
    lemma_initially_consistent, lemma_sample_recorded, samples, stack_or_empty, started, State,
};
use crate::stack::{symbol_addresses, Frame, Frames};
use vstd::prelude::*;

verus! {

/// A session at one moment: the profiler, and the headers of the blocks
/// that are live.
pub struct Session {
    pub profiler: State,
    pub live: Seq<Header>,
}

/// One call of an entry point that the profiler got to see.
pub enum Event {
    /// A block of `size` bytes was allocated. Had its stack been captured,
    /// it would have been `taken`.
    Allocate { size: usize, taken: Seq<Frame> },
    /// The live block `block` was resized to `size` bytes.
    Resize { block: int, size: usize, taken: Seq<Frame> },
    /// The live block `block` was freed.
    Free { block: int },
}

/// The stack in a block's header after an event of `delta` bytes: a block
/// that held none gets the captured one if the event is sampled.
pub open spec fn kept_stack(
    p: State,
    delta: isize,
    held: Option<Seq<Frame>>,
    taken: Seq<Frame>,
) -> Option<Seq<Frame>> {
    if samples(p, delta) && held is None {
        Some(taken)
    } else {
        held
    }
}

/// The session after one event.
pub open spec fn step(s: Session, event: Event) -> Session {
    match event {
        Event::Allocate { size, taken } => {
            let delta = clamp(size as int);
            let kept = kept_stack(s.profiler, delta, None, taken);
            Session {
                profiler: after_event(s.profiler, delta, stack_or_empty(kept)),
                live: s.live.push(Header { size, frames: kept, magic: MAGIC }),
            }
        },
        Event::Resize { block, size, taken } => {
            let header = s.live[block];
            let delta = clamp(size - header.size);
            let kept = kept_stack(s.profiler, delta, header.frames, taken);
            Session {
                profiler: after_event(s.profiler, delta, stack_or_empty(kept)),
                live: s.live.update(block, Header { size, frames: kept, magic: header.magic }),
            }
        },
        Event::Free { block } => {
            let header = s.live[block];
            let delta = clamp(-(header.size as int));
            Session {
                profiler: after_event(s.profiler, delta, stack_or_empty(header.frames)),
                live: s.live.remove(block),
            }
        },
    }
}

/// What the entry points promise of the profiler and of a block's header is
/// one step of a session: the stack that the header holds afterwards is the
/// one that [`kept_stack`] gives for some stack that the capture could have
/// taken, and the profiler has accounted for the event under it.
pub proof fn lemma_accounted_is_a_step<F: FnOnce() -> Frames>(
    before: State,
    after: State,
    held: Option<Seq<Frame>>,
    kept: Option<Seq<Frame>>,
    delta: isize,
    capture: F,
)
    requires
        accounted(before, after, held, kept, delta, capture),
    ensures
        exists|taken: Seq<Frame>|
            kept == #[trigger] kept_stack(before, delta, held, taken) && after == after_event(
                before,
                delta,
                stack_or_empty(kept_stack(before, delta, held, taken)),
            ),
{
    if samples(before, delta) && held is None {
        let stack = choose|stack: Frames| capture.ensures((), stack) && kept == Some(stack@);
        assert(kept == kept_stack(before, delta, held, stack@));
    } else {
        assert(kept == kept_stack(before, delta, held, Seq::empty()));
    }
}

/// Whether an event can happen in a session and be accounted for in full:
/// it is about a live block, no size is beyond what an `isize` holds, and
/// the profiler's counters can take what it allocates.
pub open spec fn fits(s: Session, event: Event) -> bool {
    match event {
        Event::Allocate { size, taken } => size == 0 || counts(s.profiler, clamp(size as int))
            && size <= isize::MAX,
        Event::Resize { block, size, taken } => {
            &&& 0 <= block < s.live.len()
            &&& size <= isize::MAX
            &&& size > s.live[block].size ==> counts(
                s.profiler,
                clamp(size - s.live[block].size),
            )
        },
        Event::Free { block } => 0 <= block < s.live.len(),
    }
}

/// The session after a run of events, one after the other.
pub open spec fn run(s: Session, events: Seq<Event>) -> Session
    decreases events.len(),
{
    if events.len() == 0 {
        s
    } else {
        step(run(s, events.drop_last()), events.last())
    }
}

/// Whether each event of a run fits the session it happens in.
pub open spec fn all_fit(s: Session, events: Seq<Event>) -> bool
    decreases events.len(),
{
    events.len() == 0 || (all_fit(s, events.drop_last()) && fits(
        run(s, events.drop_last()),
        events.last(),
    ))
}

/// A session that begins: a profiler just started, and no block live.
pub open spec fn opening(measure_free: bool, period: usize) -> Session {
    Session { profiler: started(measure_free, period), live: Seq::empty() }
}

/// The bytes that the live blocks hold.
pub open spec fn live_bytes(live: Seq<Header>) -> int
    decreases live.len(),
{
    if live.len() == 0 {
        0
    } else {
        live_bytes(live.drop_last()) + live.last().size
    }
}

/// What holds of a session that samples every allocation: every live block
/// that has a size has a stack, and the table holds as allocated and not
/// freed exactly the bytes that are live, or nothing as freed where frees
/// are not measured.
pub open spec fn balanced(s: Session) -> bool {
    let sums = totals(s.profiler.entries);
    &&& consistent(s.profiler)
    &&& s.profiler.enabled
    &&& s.profiler.period <= 1
    &&& forall|i: int|
        0 <= i < s.live.len() ==> (#[trigger] s.live[i]).size <= isize::MAX && (s.live[i].size > 0
            ==> s.live[i].frames is Some)
    &&& sums.free_objects <= sums.free_bytes
    &&& s.profiler.measure_free ==> sums.alloc_bytes - sums.free_bytes == live_bytes(s.live)
    &&& !s.profiler.measure_free ==> sums.free_bytes == 0
}

/// Live blocks hold no fewer bytes than any one of them.
proof fn lemma_live_bytes_bound(live: Seq<Header>, i: int)
    requires
        0 <= i < live.len(),
    ensures
        0 <= live[i].size <= live_bytes(live),
    decreases live.len(),
{
    lemma_live_bytes_nonnegative(live.drop_last());
    if i < live.len() - 1 {
        lemma_live_bytes_bound(live.drop_last(), i);
    }
}

proof fn lemma_live_bytes_nonnegative(live: Seq<Header>)
    ensures
        live_bytes(live) >= 0,
    decreases live.len(),
{
    if live.len() > 0 {
        lemma_live_bytes_nonnegative(live.drop_last());
    }
}

proof fn lemma_live_bytes_push(live: Seq<Header>, header: Header)
    ensures
        live_bytes(live.push(header)) == live_bytes(live) + header.size,
{
    assert(live.push(header).drop_last() =~= live);
}

proof fn lemma_live_bytes_update(live: Seq<Header>, i: int, header: Header)
    requires
        0 <= i < live.len(),
    ensures
        live_bytes(live.update(i, header)) == live_bytes(live) - live[i].size + header.size,
    decreases live.len(),
{
    if i == live.len() - 1 {
        assert(live.update(i, header).drop_last() =~= live.drop_last());
    } else {
        lemma_live_bytes_update(live.drop_last(), i, header);
        assert(live.update(i, header).drop_last() =~= live.drop_last().update(i, header));
    }
}

proof fn lemma_live_bytes_remove(live: Seq<Header>, i: int)
    requires
        0 <= i < live.len(),
    ensures
        live_bytes(live.remove(i)) == live_bytes(live) - live[i].size,
    decreases live.len(),
{
    if i == live.len() - 1 {
        assert(live.remove(i) =~= live.drop_last());
    } else {
        lemma_live_bytes_remove(live.drop_last(), i);
        assert(live.remove(i).drop_last() =~= live.drop_last().remove(i));
        assert(live.remove(i).last() == live.last());
    }
}

/// A free that is accounted is recorded in full, as long as the table holds
/// no more as freed than the counters can take.
proof fn lemma_free_recorded(p: State, size: isize, stack: Seq<Frame>)
    requires
        consistent(p),
        frees(p, size),
        totals(p.entries).free_bytes - size <= isize::MAX,
        totals(p.entries).free_objects + 1 <= isize::MAX,
    ensures
        totals(recorded(p.entries, stack, size)).alloc_bytes == totals(p.entries).alloc_bytes,
        totals(recorded(p.entries, stack, size)).alloc_objects == totals(p.entries).alloc_objects,
        totals(recorded(p.entries, stack, size)).free_bytes == totals(p.entries).free_bytes - size,
        totals(recorded(p.entries, stack, size)).free_objects == totals(p.entries).free_objects
            + 1,
{
    let key = symbol_addresses(stack);
    let before = record_of(p.entries, key);
    lemma_totals_nonnegative(p.entries);
    if has_key(p.entries, key) {
        lemma_totals_bound(p.entries, index_of(p.entries, key));
    }
    assert(sampled(before, size).free_bytes == before.free_bytes - size);
    assert(sampled(before, size).free_objects == before.free_objects + 1);
    lemma_recorded_totals(p.entries, stack, size);
}

/// One event that fits keeps a session balanced.
pub proof fn lemma_step_balanced(s: Session, event: Event)
    requires
        balanced(s),
        fits(s, event),
    ensures
        balanced(step(s, event)),
{
    let p = s.profiler;
    let t = step(s, event);
    let sums = totals(p.entries);
    lemma_totals_nonnegative(p.entries);
    lemma_live_bytes_nonnegative(s.live);
    match event {
        Event::Allocate { size, taken } => {
            let delta = clamp(size as int);
            let kept = kept_stack(p, delta, None, taken);
            lemma_event_keeps_consistent(p, delta, stack_or_empty(kept));
            lemma_live_bytes_push(s.live, Header { size, frames: kept, magic: MAGIC });
            if size > 0 {
                assert(samples(p, delta));
                lemma_sample_recorded(p, delta, stack_or_empty(kept));
            }
            assert forall|i: int| 0 <= i < t.live.len() implies (#[trigger] t.live[i]).size
                <= isize::MAX && (t.live[i].size > 0 ==> t.live[i].frames is Some) by {
                if i < s.live.len() {
                    assert(t.live[i] == s.live[i]);
                }
            }
        },
        Event::Resize { block, size, taken } => {
            let header = s.live[block];
            let delta = clamp(size - header.size);
            let kept = kept_stack(p, delta, header.frames, taken);
            lemma_event_keeps_consistent(p, delta, stack_or_empty(kept));
            lemma_live_bytes_update(
                s.live,
                block,
                Header { size, frames: kept, magic: header.magic },
            );
            lemma_live_bytes_bound(s.live, block);
            if delta > 0 {
                assert(samples(p, delta));
                lemma_sample_recorded(p, delta, stack_or_empty(kept));
            } else if delta < 0 && p.measure_free {
                lemma_free_recorded(p, delta, stack_or_empty(kept));
            }
            assert forall|i: int| 0 <= i < t.live.len() implies (#[trigger] t.live[i]).size
                <= isize::MAX && (t.live[i].size > 0 ==> t.live[i].frames is Some) by {
                if i != block {
                    assert(t.live[i] == s.live[i]);
                }
            }
        },
        Event::Free { block } => {
            let header = s.live[block];
            let delta = clamp(-(header.size as int));
            lemma_event_keeps_consistent(p, delta, stack_or_empty(header.frames));
            lemma_live_bytes_remove(s.live, block);
            lemma_live_bytes_bound(s.live, block);
            if delta < 0 && p.measure_free {
                lemma_free_recorded(p, delta, stack_or_empty(header.frames));
            }
            assert forall|i: int| 0 <= i < t.live.len() implies (#[trigger] t.live[i]).size
                <= isize::MAX && (t.live[i].size > 0 ==> t.live[i].frames is Some) by {
                if i < block {
                    assert(t.live[i] == s.live[i]);
                } else {
                    assert(t.live[i] == s.live[i + 1]);
                }
            }
        },
    }
}

/// A session that begins with a period of at most one byte is balanced.
pub proof fn lemma_opening_balanced(measure_free: bool, period: usize)
    requires
        period <= 1,
    ensures
        balanced(opening(measure_free, period)),
{
    lemma_initially_consistent(measure_free, period);
}

/// The books of a session balance. Where every allocation is sampled, that
/// is with a period of at most one byte, then after any run of events that
/// fit:
/// - the allocated bytes of all stacks add up to the bytes allocated since
///   the profiler was started, and likewise the objects;
/// - the freed bytes of all stacks add up to no more than the allocated
///   bytes of all stacks;
/// - where frees are measured, what the table holds as allocated and not
///   freed is what the live blocks hold.
pub proof fn lemma_books_balance(measure_free: bool, period: usize, events: Seq<Event>)
    requires
        period <= 1,
        all_fit(opening(measure_free, period), events),
    ensures
        ({
            let end = run(opening(measure_free, period), events);
            let sums = totals(end.profiler.entries);
            &&& balanced(end)
            &&& sums.alloc_bytes == end.profiler.allocated_bytes
            &&& sums.alloc_objects == end.profiler.allocated_objects
            &&& sums.free_bytes <= sums.alloc_bytes
            &&& measure_free ==> sums.alloc_bytes - sums.free_bytes == live_bytes(end.live)
        }),
    decreases events.len(),
{
    let begin = opening(measure_free, period);
    if events.len() == 0 {
        lemma_opening_balanced(measure_free, period);
    } else {
        lemma_books_balance(measure_free, period, events.drop_last());
        lemma_step_balanced(run(begin, events.drop_last()), events.last());
    }
    let end = run(begin, events);
    lemma_live_bytes_nonnegative(end.live);
    lemma_measure_free_kept(begin, events);
}

/// No event changes whether frees are measured.
proof fn lemma_measure_free_kept(s: Session, events: Seq<Event>)
    ensures
        run(s, events).profiler.measure_free == s.profiler.measure_free,
    decreases events.len(),
{
    if events.len() > 0 {
        lemma_measure_free_kept(s, events.drop_last());
    }
}

} // verus!
