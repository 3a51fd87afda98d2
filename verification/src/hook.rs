//! What the allocator entry points decide.
//!
//! An entry point that allocates works in two steps around one call of the
//! raw allocator. The first step says what to ask the raw allocator for: the
//! caller's size and the room for the header. The second step takes the raw
//! block that came back, puts the header in front, lets the profiler account
//! for the event and says which address goes to the caller. `free` has one
//! step, before the raw allocator gets the block back.
//!
//! The raw allocator's memory is not this module's to touch. Of a raw block
//! it is handed the address and the first `HEADER_SIZE` bytes, so the bytes
//! behind the header are out of its reach.
//!
//! The profiler comes as an `Option`. A thread that is inside the profiler
//! already, or that finds the profiler switched off, brings `None`: its
//! blocks are framed like all others, and nothing is accounted.

use crate::block::{decode_header, Block, Header, HEADER_SIZE, MAGIC};
use crate::profiler::{
    after_event, attached, consistent, samples, stack_or_empty, Profiler, State,
};
use crate::stack::{Frame, Frames};
use vstd::arithmetic::div_mod::{
    lemma_add_mod_noop, lemma_div_pos_is_pos, lemma_fundamental_div_mod, lemma_mod_pos_bound,
    lemma_small_mod,
};
use vstd::prelude::*;

verus! {

/// The number `n` as an event's size: itself where an `isize` holds it, and
/// else the nearest of `isize::MAX` and `-isize::MAX`.
pub open spec fn clamp(n: int) -> isize {
    if n > isize::MAX {
        isize::MAX
    } else if n < -isize::MAX {
        (-isize::MAX) as isize
    } else {
        n as isize
    }
}

/// What is asked of the raw allocator for `size` bytes of payload: room for
/// the header as well. Nothing, where an address cannot count that far.
pub open spec fn raw_size(size: usize) -> Option<usize> {
    if size + HEADER_SIZE <= usize::MAX {
        Some((size + HEADER_SIZE) as usize)
    } else {
        None
    }
}

/// The number of elements of `size` bytes that make room for the header:
/// the least number whose bytes are no fewer than `HEADER_SIZE`.
pub open spec fn calloc_extra(size: usize) -> int
    recommends
        size > 0,
{
    if HEADER_SIZE as int % size as int == 0 {
        HEADER_SIZE as int / size as int
    } else {
        HEADER_SIZE as int / size as int + 1
    }
}

/// What the profiler and a block's header show after an event of `delta`
/// bytes on that block: a consistent profiler that has accounted for the
/// event, under the stack that the header now holds, and in the header the
/// stack that was there before, or one that `capture` took for a sample.
pub open spec fn accounted<F: FnOnce() -> Frames>(
    before: State,
    after: State,
    held: Option<Seq<Frame>>,
    kept: Option<Seq<Frame>>,
    delta: isize,
    capture: F,
) -> bool {
    &&& consistent(after)
    &&& attached(held, kept, samples(before, delta), capture)
    &&& after == after_event(before, delta, stack_or_empty(kept))
}

/// What an allocating entry point leaves in the header of a block of `size`
/// bytes: the size and the magic word.
pub open spec fn framed(header: Seq<u8>, size: usize) -> bool {
    &&& header.len() == HEADER_SIZE
    &&& decode_header(header).size == size
    &&& decode_header(header).magic == MAGIC
}

/// Does nothing: see [`crate::dummy_force_link`].
pub(crate) fn dummy_force_link() {
}

/// The size of an allocation as the profiler counts it.
fn delta_of(size: usize) -> (delta: isize)
    ensures
        delta == clamp(size as int),
        delta >= 0,
{
    if size > isize::MAX as usize {
        isize::MAX
    } else {
        size as isize
    }
}

/// What `malloc(size)` asks of the raw allocator: `Some(n)` for a raw
/// `malloc(n)`, or `None` where the request must fail without one.
pub fn malloc_request(size: usize) -> (raw: Option<usize>)
    ensures
        raw == raw_size(size),
{
    size.checked_add(HEADER_SIZE)
}

/// Finishes `malloc(size)`: frames the raw block at `base`, whose first
/// `HEADER_SIZE` bytes are `header`, and returns the payload's address. A
/// raw allocator that had no memory left answered with `base == 0`, and so
/// does this.
pub fn malloc<F: FnOnce() -> Frames>(
    profiler: Option<&mut Profiler>,
    base: usize,
    header: &mut [u8],
    size: usize,
    capture: F,
) -> (payload: usize)
    requires
        base != 0 ==> old(header)@.len() == HEADER_SIZE && base + HEADER_SIZE <= usize::MAX,
        capture.requires(()),
    ensures
        base == 0 ==> {
            &&& payload == 0
            &&& final(header)@ == old(header)@
            &&& profiler matches Some(p) ==> final(p)@ == p@
        },
        base != 0 ==> {
            &&& payload == base + HEADER_SIZE
            &&& framed(final(header)@, size)
            &&& match profiler {
                Some(p) => accounted(
                    p@,
                    final(p)@,
                    None,
                    decode_header(final(header)@).frames,
                    clamp(size as int),
                    capture,
                ),
                None => decode_header(final(header)@).frames is None,
            }
        },
{
    if base == 0 {
        return 0;
    }
    let mut block = Block::new(base);
    block.set_size(size);
    match profiler {
        Some(p) => {
            p.track_allocated(delta_of(size), &mut block, capture);
        },
        None => {},
    }
    block.store(header);
    block.user_payload()
}

/// What `calloc(number, size)` asks of the raw allocator: a count and an
/// element size. The count is `number` and as many elements more as make
/// room for the header. Where `size` is zero no count does, and one block
/// of `HEADER_SIZE` single bytes is asked for. Nothing, where the raw
/// block's size cannot be told in a `usize`.
pub open spec fn calloc_raw(number: usize, size: usize) -> Option<(usize, usize)> {
    if size == 0 {
        Some((HEADER_SIZE, 1))
    } else if (number + calloc_extra(size)) * size <= usize::MAX {
        Some(((number + calloc_extra(size)) as usize, size))
    } else {
        None
    }
}

/// The elements added for the header hold it, and one fewer would not.
pub proof fn lemma_calloc_extra(size: usize)
    requires
        size > 0,
    ensures
        1 <= calloc_extra(size) <= HEADER_SIZE,
        calloc_extra(size) * size >= HEADER_SIZE,
        (calloc_extra(size) - 1) * size < HEADER_SIZE,
{
    let h = HEADER_SIZE as int;
    let d = size as int;
    let q = h / d;
    let r = h % d;
    lemma_fundamental_div_mod(h, d);
    lemma_mod_pos_bound(h, d);
    lemma_div_pos_is_pos(h, d);
    assert(d * q == q * d) by (nonlinear_arith);
    assert((q + 1) * d == q * d + d) by (nonlinear_arith);
    assert((q - 1) * d == q * d - d) by (nonlinear_arith);
    assert(q <= q * d) by (nonlinear_arith)
        requires
            q >= 0,
            d >= 1,
    ;
    if r == 0 {
        assert(q >= 1) by (nonlinear_arith)
            requires
                h == q * d,
                h > 0,
                d > 0,
        ;
    }
}

/// The raw block that `calloc` asks for holds the header and the payload:
/// the allocator clears all of it, so the payload behind the header is
/// clear.
pub proof fn lemma_calloc_room(number: usize, size: usize)
    ensures
        calloc_raw(number, size) matches Some((raw_number, raw_size)) ==> raw_number * raw_size
            >= number * size + HEADER_SIZE,
{
    if size > 0 {
        lemma_calloc_extra(size);
        let e = calloc_extra(size);
        assert((number + e) * size == number * size + e * size) by (nonlinear_arith);
        assert(number + e <= (number + e) * size) by (nonlinear_arith)
            requires
                number + e >= 0,
                size >= 1,
        ;
    } else {
        assert(number * size == 0) by (nonlinear_arith)
            requires
                size == 0,
        ;
    }
}

/// What `calloc(number, size)` asks of the raw allocator: `Some((n, s))`
/// for a raw `calloc(n, s)`, or `None` where the request must fail without
/// one.
pub fn calloc_request(number: usize, size: usize) -> (raw: Option<(usize, usize)>)
    ensures
        raw == calloc_raw(number, size),
        raw matches Some((raw_number, raw_size)) ==> raw_number * raw_size >= number * size
            + HEADER_SIZE,
{
    proof {
        lemma_calloc_room(number, size);
    }
    if size == 0 {
        return Some((HEADER_SIZE, 1));
    }
    let mut extra: usize = HEADER_SIZE / size;
    if HEADER_SIZE % size != 0 {
        extra = extra + 1;
    }
    proof {
        lemma_calloc_extra(size);
    }
    match number.checked_add(extra) {
        Some(count) => match count.checked_mul(size) {
            Some(_) => Some((count, size)),
            None => None,
        },
        None => {
            assert((number + extra) * size >= number + extra) by (nonlinear_arith)
                requires
                    size >= 1,
            ;
            None
        },
    }
}

/// Finishes `calloc(number, size)`: frames the cleared raw block at `base`
/// as a block of `number * size` bytes.
pub fn calloc<F: FnOnce() -> Frames>(
    profiler: Option<&mut Profiler>,
    base: usize,
    header: &mut [u8],
    number: usize,
    size: usize,
    capture: F,
) -> (payload: usize)
    requires
        number * size <= usize::MAX,
        base != 0 ==> old(header)@.len() == HEADER_SIZE && base + HEADER_SIZE <= usize::MAX,
        capture.requires(()),
    ensures
        base == 0 ==> {
            &&& payload == 0
            &&& final(header)@ == old(header)@
            &&& profiler matches Some(p) ==> final(p)@ == p@
        },
        base != 0 ==> {
            &&& payload == base + HEADER_SIZE
            &&& framed(final(header)@, (number * size) as usize)
            &&& match profiler {
                Some(p) => accounted(
                    p@,
                    final(p)@,
                    None,
                    decode_header(final(header)@).frames,
                    clamp(number * size),
                    capture,
                ),
                None => decode_header(final(header)@).frames is None,
            }
        },
{
    malloc(profiler, base, header, number * size, capture)
}

/// Whether the block whose payload starts at `body`, behind the bytes
/// `header`, is one of ours: there is room for a header in front of it, and
/// the magic word is there.
pub open spec fn owned(body: usize, header: Seq<u8>) -> bool {
    body >= HEADER_SIZE && decode_header(header).magic == MAGIC
}

/// Begins `free(body)`: accounts for the free and says which address goes
/// to the raw allocator's `free`, if any.
///
/// Nothing is done for a null pointer. A block that is not ours goes to the
/// raw allocator as it came, untouched and unaccounted. A block of ours is
/// accounted as a free of its size, lets go of its stack, and goes to the
/// raw allocator by the address of its header.
pub fn free(profiler: Option<&mut Profiler>, body: usize, header: &mut [u8]) -> (raw: Option<usize>)
    requires
        body >= HEADER_SIZE ==> old(header)@.len() == HEADER_SIZE,
    ensures
        final(header)@.len() == old(header)@.len(),
        body == 0 ==> raw is None,
        body != 0 && !owned(body, old(header)@) ==> raw == Some(body),
        !owned(body, old(header)@) ==> {
            &&& final(header)@ == old(header)@
            &&& profiler matches Some(p) ==> final(p)@ == p@
        },
        owned(body, old(header)@) ==> {
            let h = decode_header(old(header)@);
            &&& raw == Some((body - HEADER_SIZE) as usize)
            &&& decode_header(final(header)@) == (Header { frames: None, ..h })
            &&& profiler matches Some(p) ==> {
                &&& consistent(final(p)@)
                &&& final(p)@ == after_event(p@, clamp(-(h.size as int)), stack_or_empty(h.frames))
            }
        },
{
    if body == 0 {
        return None;
    }
    if body < HEADER_SIZE {
        return Some(body);
    }
    let mut block = Block::adopt(body, header);
    if !block.check() {
        return Some(body);
    }
    match profiler {
        Some(p) => {
            let no_capture = || -> (stack: Frames) { Frames::new() };
            p.track_allocated(-delta_of(block.size()), &mut block, no_capture);
        },
        None => {},
    }
    block.free();
    block.store(header);
    Some(block.ptr())
}

/// What `realloc` asks of the raw allocator.
pub enum ReallocRequest {
    /// There is no block yet: a raw `malloc(raw_size)`, to be finished by
    /// [`malloc`].
    Malloc { raw_size: usize },
    /// The block is not ours: a raw `realloc(ptr, size)`, whose answer goes
    /// to the caller as it is.
    Foreign { ptr: usize, size: usize },
    /// The block is ours: a raw `realloc` of `raw_size` bytes at the
    /// address of `block`, to be finished by [`realloc`].
    Resize { block: Block, raw_size: usize },
    /// The size asked for cannot be had: the request fails without a call.
    Refuse,
}

/// Whether `request` is what `realloc(body, size)` asks of the raw
/// allocator, for the block whose payload starts at `body`, behind the
/// bytes `header`. With a null pointer it is a `malloc(size)`. A block that
/// is not ours goes to the raw allocator as it came. A block of ours is
/// resized header and all.
pub open spec fn realloc_asks(
    body: usize,
    header: Seq<u8>,
    size: usize,
    request: ReallocRequest,
) -> bool {
    if body == 0 {
        match raw_size(size) {
            Some(raw_size) => request == (ReallocRequest::Malloc { raw_size }),
            None => request is Refuse,
        }
    } else if !owned(body, header) {
        request == (ReallocRequest::Foreign { ptr: body, size })
    } else {
        match raw_size(size) {
            Some(raw) => match request {
                ReallocRequest::Resize { block, raw_size } => {
                    &&& raw_size == raw
                    &&& block.base() == body - HEADER_SIZE
                    &&& block.header() == decode_header(header)
                },
                _ => false,
            },
            None => request is Refuse,
        }
    }
}

/// What `realloc(body, size)` asks of the raw allocator, for the block
/// whose payload starts at `body`, behind the bytes `header`.
pub fn realloc_request(body: usize, header: &[u8], size: usize) -> (request: ReallocRequest)
    requires
        body >= HEADER_SIZE ==> header@.len() == HEADER_SIZE,
    ensures
        realloc_asks(body, header@, size, request),
{
    if body == 0 {
        return match malloc_request(size) {
            Some(raw_size) => ReallocRequest::Malloc { raw_size },
            None => ReallocRequest::Refuse,
        };
    }
    if body < HEADER_SIZE {
        return ReallocRequest::Foreign { ptr: body, size };
    }
    let block = Block::adopt(body, header);
    if !block.check() {
        return ReallocRequest::Foreign { ptr: body, size };
    }
    match malloc_request(size) {
        Some(raw_size) => ReallocRequest::Resize { block, raw_size },
        None => ReallocRequest::Refuse,
    }
}

/// Finishes the `realloc` to `size` bytes of `block`, a block of ours that
/// the raw allocator has resized: `base` is where the raw block is now, and
/// `header` its first `HEADER_SIZE` bytes. The block takes the new size,
/// the profiler accounts for the bytes that it has grown or shrunk by, and
/// the header is written where the block is now.
///
/// A raw allocator that could not resize the block answered with
/// `base == 0` and left the block as it was, and so does this. For a block
/// that is not ours the raw allocator's answer is the caller's as it came:
/// there is no header to write, and nothing to account for.
pub fn realloc<F: FnOnce() -> Frames>(
    profiler: Option<&mut Profiler>,
    block: Block,
    base: usize,
    header: &mut [u8],
    size: usize,
    capture: F,
) -> (payload: usize)
    requires
        base != 0 ==> old(header)@.len() == HEADER_SIZE && base + HEADER_SIZE <= usize::MAX,
        capture.requires(()),
    ensures
        base == 0 || !block.ours() ==> payload == base,
        base != 0 && block.ours() ==> payload == base + HEADER_SIZE,
        base == 0 || !block.ours() ==> {
            &&& final(header)@ == old(header)@
            &&& profiler matches Some(p) ==> final(p)@ == p@
        },
        base != 0 && block.ours() ==> {
            &&& framed(final(header)@, size)
            &&& match profiler {
                Some(p) => accounted(
                    p@,
                    final(p)@,
                    block.header().frames,
                    decode_header(final(header)@).frames,
                    clamp(size - block.header().size),
                    capture,
                ),
                None => decode_header(final(header)@).frames == block.header().frames,
            }
        },
{
    if base == 0 {
        return 0;
    }
    let mut block = block;
    if !block.check() {
        return base;
    }
    let old_size = block.set_size(size);
    match profiler {
        Some(p) => {
            let delta = if size >= old_size {
                delta_of(size - old_size)
            } else {
                -delta_of(old_size - size)
            };
            p.track_allocated(delta, &mut block, capture);
        },
        None => {},
    }
    block.rebase(base);
    block.store(header);
    block.user_payload()
}

/// What `malloc_usable_size(ptr)` asks of the raw allocator: the usable
/// size of the very pointer it was given. The header plays no part.
pub fn malloc_usable_size(ptr: usize) -> (raw: usize)
    ensures
        raw == ptr,
{
    ptr
}

/// What `posix_memalign` and `aligned_alloc` ask of the raw allocator for
/// `size` bytes aligned to `alignment`: the same alignment, and room for the
/// header as well.
pub open spec fn aligned_raw(alignment: usize, size: usize) -> Option<(usize, usize)> {
    match raw_size(size) {
        Some(raw_size) => Some((alignment, raw_size)),
        None => None,
    }
}

/// A payload is aligned as its raw block is, for every alignment that the
/// header's size is a multiple of.
pub proof fn lemma_payload_aligned(base: usize, alignment: usize)
    requires
        alignment > 0,
        base % alignment == 0,
        HEADER_SIZE % alignment == 0,
    ensures
        (base + HEADER_SIZE) % (alignment as int) == 0,
{
    lemma_add_mod_noop(base as int, HEADER_SIZE as int, alignment as int);
    lemma_small_mod(0, alignment as nat);
}

/// The code by which `posix_memalign` says that there is no memory.
pub const ENOMEM: i32 = 12;

/// What `posix_memalign(_, alignment, size)` asks of the raw allocator:
/// `Ok((a, n))` for a raw `posix_memalign(_, a, n)`. Where the size cannot
/// be had the request fails without a call, with the code [`ENOMEM`].
pub fn posix_memalign_request(alignment: usize, size: usize) -> (raw: Result<(usize, usize), i32>)
    ensures
        raw == match aligned_raw(alignment, size) {
            Some(request) => Ok::<(usize, usize), i32>(request),
            None => Err::<(usize, usize), i32>(ENOMEM),
        },
{
    match malloc_request(size) {
        Some(raw_size) => Ok((alignment, raw_size)),
        None => Err(ENOMEM),
    }
}

/// Finishes `posix_memalign(_, alignment, size)`, to which the raw
/// allocator answered with the code `result` and, where that is zero, with
/// the raw block at `base`. A code other than zero goes back to the caller
/// and nothing else is done. Else the block is framed as by [`malloc`], and
/// the payload's address goes to the caller with the code.
pub fn posix_memalign<F: FnOnce() -> Frames>(
    profiler: Option<&mut Profiler>,
    result: i32,
    base: usize,
    header: &mut [u8],
    alignment: usize,
    size: usize,
    capture: F,
) -> (answer: (i32, usize))
    requires
        result == 0 && base != 0 ==> old(header)@.len() == HEADER_SIZE && base + HEADER_SIZE
            <= usize::MAX,
        capture.requires(()),
    ensures
        answer.0 == result,
        result != 0 ==> answer.1 == base,
        result == 0 && base == 0 ==> answer.1 == 0,
        result != 0 || base == 0 ==> {
            &&& final(header)@ == old(header)@
            &&& profiler matches Some(p) ==> final(p)@ == p@
        },
        result == 0 && base != 0 ==> {
            &&& answer.1 == base + HEADER_SIZE
            &&& alignment > 0 && base % alignment == 0 && HEADER_SIZE % alignment == 0
                ==> answer.1 % alignment == 0
            &&& framed(final(header)@, size)
            &&& match profiler {
                Some(p) => accounted(
                    p@,
                    final(p)@,
                    None,
                    decode_header(final(header)@).frames,
                    clamp(size as int),
                    capture,
                ),
                None => decode_header(final(header)@).frames is None,
            }
        },
{
    if result != 0 {
        return (result, base);
    }
    proof {
        if alignment > 0 && base % alignment == 0 && HEADER_SIZE % alignment == 0 {
            lemma_payload_aligned(base, alignment);
        }
    }
    let payload = malloc(profiler, base, header, size, capture);
    (result, payload)
}

/// What `aligned_alloc(alignment, size)` asks of the raw allocator:
/// `Some((a, n))` for a raw `aligned_alloc(a, n)`, or `None` where the
/// request must fail without one.
pub fn aligned_alloc_request(alignment: usize, size: usize) -> (raw: Option<(usize, usize)>)
    ensures
        raw == aligned_raw(alignment, size),
{
    match malloc_request(size) {
        Some(raw_size) => Some((alignment, raw_size)),
        None => None,
    }
}

/// Finishes `aligned_alloc(alignment, size)`: frames the raw block at
/// `base` as [`malloc`] does.
pub fn aligned_alloc<F: FnOnce() -> Frames>(
    profiler: Option<&mut Profiler>,
    base: usize,
    header: &mut [u8],
    alignment: usize,
    size: usize,
    capture: F,
) -> (payload: usize)
    requires
        base != 0 ==> old(header)@.len() == HEADER_SIZE && base + HEADER_SIZE <= usize::MAX,
        capture.requires(()),
    ensures
        base == 0 ==> {
            &&& payload == 0
            &&& final(header)@ == old(header)@
            &&& profiler matches Some(p) ==> final(p)@ == p@
        },
        base != 0 ==> {
            &&& payload == base + HEADER_SIZE
            &&& alignment > 0 && base % alignment == 0 && HEADER_SIZE % alignment == 0 ==> payload
                % alignment == 0
            &&& framed(final(header)@, size)
            &&& match profiler {
                Some(p) => accounted(
                    p@,
                    final(p)@,
                    None,
                    decode_header(final(header)@).frames,
                    clamp(size as int),
                    capture,
                ),
                None => decode_header(final(header)@).frames is None,
            }
        },
{
    proof {
        if base != 0 && alignment > 0 && base % alignment == 0 && HEADER_SIZE % alignment == 0 {
            lemma_payload_aligned(base, alignment);
        }
    }
    malloc(profiler, base, header, size, capture)
}

/// The payload of a block lies inside its raw block and behind its header:
/// the bytes that the caller writes are the caller's own, and none of them
/// is a byte of the header.
pub proof fn lemma_payload_apart(base: usize, size: usize, i: int)
    requires
        raw_size(size) matches Some(raw) && base + raw <= usize::MAX,
        0 <= i < size,
    ensures
        base + HEADER_SIZE + i < base + raw_size(size).unwrap(),
        !(base <= base + HEADER_SIZE + i < base + HEADER_SIZE),
{
}

/// The bytes of a raw block after its header was written: the header, and
/// behind it what the block held before.
pub open spec fn stamped(block: Seq<u8>, header: Seq<u8>) -> Seq<u8> {
    header + block.subrange(HEADER_SIZE as int, block.len() as int)
}

/// Writing the header changes no byte of the payload.
pub proof fn lemma_payload_kept(block: Seq<u8>, header: Seq<u8>, i: int)
    requires
        header.len() == HEADER_SIZE,
        HEADER_SIZE <= i < block.len(),
    ensures
        stamped(block, header).len() == block.len(),
        stamped(block, header)[i] == block[i],
{
}

/// Every byte of the payload that `calloc` hands out is zero: the raw
/// allocator has cleared the whole raw block, which holds the header and
/// the payload, and only the header was written since.
pub proof fn lemma_calloc_payload_clear(
    block: Seq<u8>,
    header: Seq<u8>,
    number: usize,
    size: usize,
    i: int,
)
    requires
        calloc_raw(number, size) matches Some((raw_number, raw_size)) && block.len() == raw_number
            * raw_size,
        forall|j: int| 0 <= j < block.len() ==> block[j] == 0,
        header.len() == HEADER_SIZE,
        0 <= i < number * size,
    ensures
        HEADER_SIZE + i < stamped(block, header).len(),
        stamped(block, header)[HEADER_SIZE + i] == 0,
{
    lemma_calloc_room(number, size);
    lemma_payload_kept(block, header, HEADER_SIZE + i);
}

/// With a null pointer `realloc` is `malloc`: it asks the raw allocator for
/// what [`malloc_request`] asks, and [`malloc`] finishes it.
pub proof fn lemma_realloc_of_null(header: Seq<u8>, size: usize, request: ReallocRequest)
    requires
        realloc_asks(0, header, size, request),
    ensures
        match raw_size(size) {
            Some(raw_size) => request == (ReallocRequest::Malloc { raw_size }),
            None => request is Refuse,
        },
{
}

/// A block that carries no header of ours goes through `realloc` to the raw
/// allocator with the pointer and the size that the caller gave.
pub proof fn lemma_realloc_of_foreign(
    body: usize,
    header: Seq<u8>,
    size: usize,
    request: ReallocRequest,
)
    requires
        body != 0,
        !owned(body, header),
        realloc_asks(body, header, size, request),
    ensures
        request == (ReallocRequest::Foreign { ptr: body, size }),
{
}

} // verus!
