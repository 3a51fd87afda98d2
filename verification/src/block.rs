//! The header that travels in front of every block handed out by the hooks.
//!
//! A raw block is `HEADER_SIZE` bytes of header followed by the bytes the
//! caller asked for. The header keeps the size that was asked for, the stack
//! that was captured when the allocation was sampled, and a magic word by
//! which a block of ours is told from one that some other allocator made.
//!
//! Layout of the header, all words little-endian and eight bytes wide:
//!
//! | bytes        | content                                              |
//! |--------------|------------------------------------------------------|
//! | `0..512`     | up to 32 frames: program counter, then symbol start  |
//! | `512..520`   | 0 when no stack is kept, else its depth plus one     |
//! | `520..560`   | unused                                               |
//! | `560..568`   | the size the caller asked for                        |
//! | `568..576`   | the magic word                                       |
//!
//! The magic word sits right in front of the payload, so that telling a
//! foreign block apart reads nothing but the eight bytes next to it.

use crate::stack::{Frame, Frames, MAX_DEPTH};
use vstd::bytes::{
    lemma_auto_spec_u64_to_from_le_bytes, spec_u64_from_le_bytes, spec_u64_to_le_bytes,
    spec_u64_to_le_bytes_to_open, u64_from_le_bytes,
};
use vstd::prelude::*;
use vstd::slice::slice_subrange;

verus! {

/// The number of bytes the header takes in front of the payload. It is a
/// multiple of 64, so that a payload is aligned to 16, 32 or 64 bytes
/// whenever its raw block is.
pub const HEADER_SIZE: usize = 576;

/// The word that marks a header as written by this library.
pub const MAGIC: u64 = 0xFEED_DEAD_BEEF_F00D;

/// Where the stack's depth word lies in the header.
pub const DEPTH_OFFSET: usize = 512;

/// Where the size word lies in the header.
pub const SIZE_OFFSET: usize = 560;

/// Where the magic word lies in the header.
pub const MAGIC_OFFSET: usize = 568;

/// What a header says, apart from how it is laid out in memory.
#[verifier::ext_equal]
pub struct Header {
    /// The size the caller asked for.
    pub size: usize,
    /// The stack captured for this block, if it was ever sampled.
    pub frames: Option<Seq<Frame>>,
    /// The magic word found in the header.
    pub magic: u64,
}

/// The header of a block that was just made: no size yet, no stack, and the
/// magic word in place.
pub open spec fn fresh_header() -> Header {
    Header { size: 0, frames: None, magic: MAGIC }
}

/// The little-endian word that starts at `offset`.
pub open spec fn word_at(bytes: Seq<u8>, offset: int) -> u64 {
    spec_u64_from_le_bytes(bytes.subrange(offset, offset + 8))
}

/// The `i`-th frame kept in the header bytes.
pub open spec fn frame_at(bytes: Seq<u8>, i: int) -> Frame {
    Frame {
        ip: word_at(bytes, 16 * i) as usize,
        symbol_address: word_at(bytes, 16 * i + 8) as usize,
    }
}

/// The stack kept in the header bytes, if the depth word says there is one.
pub open spec fn stack_in(bytes: Seq<u8>) -> Option<Seq<Frame>> {
    let tag = word_at(bytes, DEPTH_OFFSET as int);
    if 1 <= tag <= MAX_DEPTH + 1 {
        Some(Seq::new((tag - 1) as nat, |i: int| frame_at(bytes, i)))
    } else {
        None
    }
}

/// What the `HEADER_SIZE` bytes in front of a payload say. Where the magic
/// word is missing the bytes are not ours, and nothing else is read from
/// them.
pub open spec fn decode_header(bytes: Seq<u8>) -> Header {
    let magic = word_at(bytes, MAGIC_OFFSET as int);
    if magic == MAGIC {
        Header { size: word_at(bytes, SIZE_OFFSET as int) as usize, frames: stack_in(bytes), magic }
    } else {
        Header { size: 0, frames: None, magic }
    }
}

/// Words that lie in bytes which two sequences share are the same word.
proof fn lemma_word_untouched(before: Seq<u8>, after: Seq<u8>, offset: int)
    requires
        0 <= offset,
        offset + 8 <= before.len(),
        before.len() == after.len(),
        forall|j: int| offset <= j < offset + 8 ==> before[j] == after[j],
    ensures
        word_at(after, offset) == word_at(before, offset),
{
    assert(after.subrange(offset, offset + 8) =~= before.subrange(offset, offset + 8));
}

/// Reads the word at `offset`.
fn read_word(bytes: &[u8], offset: usize) -> (w: u64)
    requires
        offset + 8 <= bytes@.len(),
    ensures
        w == word_at(bytes@, offset as int),
{
    // The length is a `usize`, so the end of the word is one as well.
    let len = bytes.len();
    assert(offset + 8 <= len);
    u64_from_le_bytes(slice_subrange(bytes, offset, offset + 8))
}

/// Writes `w` at `offset` and leaves every other byte alone.
fn write_word(bytes: &mut [u8], offset: usize, w: u64)
    requires
        offset + 8 <= old(bytes)@.len(),
    ensures
        final(bytes)@.len() == old(bytes)@.len(),
        word_at(final(bytes)@, offset as int) == w,
        forall|j: int|
            0 <= j < old(bytes)@.len() && !(offset <= j < offset + 8) ==> final(bytes)@[j] == old(
                bytes,
            )@[j],
        forall|o: int|
            0 <= o && o + 8 <= old(bytes)@.len() && (o + 8 <= offset || offset + 8 <= o)
                ==> #[trigger] word_at(final(bytes)@, o) == word_at(old(bytes)@, o),
{
    let ghost before = bytes@;
    // The length is a `usize`, so the end of the word is one as well.
    let len = bytes.len();
    assert(offset + 8 <= len);
    assert(w & 0xff < 256 && (w >> 8) & 0xff < 256 && (w >> 16) & 0xff < 256 && (w >> 24) & 0xff
        < 256 && (w >> 32) & 0xff < 256 && (w >> 40) & 0xff < 256 && (w >> 48) & 0xff < 256 && (w
        >> 56) & 0xff < 256) by (bit_vector);
    bytes[offset] = (w & 0xff) as u8;
    bytes[offset + 1] = ((w >> 8) & 0xff) as u8;
    bytes[offset + 2] = ((w >> 16) & 0xff) as u8;
    bytes[offset + 3] = ((w >> 24) & 0xff) as u8;
    bytes[offset + 4] = ((w >> 32) & 0xff) as u8;
    bytes[offset + 5] = ((w >> 40) & 0xff) as u8;
    bytes[offset + 6] = ((w >> 48) & 0xff) as u8;
    bytes[offset + 7] = ((w >> 56) & 0xff) as u8;
    proof {
        spec_u64_to_le_bytes_to_open(w);
        lemma_auto_spec_u64_to_from_le_bytes();
        assert(bytes@.subrange(offset as int, offset + 8) =~= spec_u64_to_le_bytes(w));
        assert forall|o: int|
            0 <= o && o + 8 <= before.len() && (o + 8 <= offset || offset + 8 <= o) implies word_at(
            bytes@,
            o,
        ) == word_at(before, o) by {
            lemma_word_untouched(before, bytes@, o);
        }
    }
}

/// A handle on one block: where its raw memory starts, and what its header
/// says. The handle works on its own copy of the header; [`Block::adopt`]
/// reads that copy from the bytes in front of a payload and [`Block::store`]
/// writes it back.
pub struct Block {
    block_base: usize,
    size: usize,
    frames: Option<Frames>,
    magic: u64,
}

impl Block {
    /// The address at which the raw block starts.
    pub closed spec fn base(&self) -> usize {
        self.block_base
    }

    /// What the block's header says.
    pub closed spec fn header(&self) -> Header {
        Header {
            size: self.size,
            frames: match self.frames {
                Some(stack) => Some(stack@),
                None => None,
            },
            magic: self.magic,
        }
    }

    /// Whether the header carries the magic word, that is, whether the block
    /// was made by this library.
    pub open spec fn ours(&self) -> bool {
        self.header().magic == MAGIC
    }

    /// A handle on the raw block at `ptr`, with a fresh header.
    pub fn new(ptr: usize) -> (block: Block)
        ensures
            block.base() == ptr,
            block.header() == fresh_header(),
    {
        Block { block_base: ptr, size: 0, frames: None, magic: MAGIC }
    }

    /// A handle on the block whose payload starts at `body`, with the header
    /// that `header`, the `HEADER_SIZE` bytes in front of `body`, holds.
    pub fn adopt(body: usize, header: &[u8]) -> (block: Block)
        requires
            body >= HEADER_SIZE,
            header@.len() == HEADER_SIZE,
        ensures
            block.base() == body - HEADER_SIZE,
            block.header() == decode_header(header@),
    {
        let block_base = body - HEADER_SIZE;
        let magic = read_word(header, MAGIC_OFFSET);
        if magic != MAGIC {
            return Block { block_base, size: 0, frames: None, magic };
        }
        let size = read_word(header, SIZE_OFFSET) as usize;
        let tag = read_word(header, DEPTH_OFFSET);
        let mut frames: Option<Frames> = None;
        if 1 <= tag && tag <= MAX_DEPTH as u64 + 1 {
            let depth = (tag - 1) as usize;
            let mut stack = Frames::new();
            let mut i: usize = 0;
            while i < depth
                invariant
                    i <= depth <= MAX_DEPTH,
                    header@.len() == HEADER_SIZE,
                    stack@ =~= Seq::new(i as nat, |j: int| frame_at(header@, j)),
                decreases depth - i,
            {
                let ip = read_word(header, 16 * i) as usize;
                let symbol_address = read_word(header, 16 * i + 8) as usize;
                stack.push(Frame { ip, symbol_address });
                i = i + 1;
            }
            frames = Some(stack);
        }
        let block = Block { block_base, size, frames, magic };
        assert(block.header() =~= decode_header(header@));
        block
    }

    /// Writes the header into `header`, the `HEADER_SIZE` bytes at the start
    /// of the raw block. The header of a block that is not ours is never
    /// written: those bytes belong to somebody else.
    pub fn store(&self, header: &mut [u8])
        requires
            old(header)@.len() == HEADER_SIZE,
        ensures
            final(header)@.len() == HEADER_SIZE,
            self.ours() ==> decode_header(final(header)@) == self.header(),
            !self.ours() ==> final(header)@ == old(header)@,
    {
        if self.magic != MAGIC {
            return ;
        }
        let mut tag: u64 = 0;
        match &self.frames {
            Some(stack) => {
                let depth = stack.len();
                let mut i: usize = 0;
                while i < depth
                    invariant
                        i <= depth <= MAX_DEPTH,
                        depth == stack@.len(),
                        header@.len() == HEADER_SIZE,
                        forall|j: int| 0 <= j < i ==> frame_at(header@, j) == stack@[j],
                    decreases depth - i,
                {
                    let frame = stack.get(i);
                    write_word(header, 16 * i, frame.ip as u64);
                    write_word(header, 16 * i + 8, frame.symbol_address as u64);
                    i = i + 1;
                }
                tag = depth as u64 + 1;
            },
            None => {},
        }
        write_word(header, DEPTH_OFFSET, tag);
        write_word(header, SIZE_OFFSET, self.size as u64);
        write_word(header, MAGIC_OFFSET, self.magic);
        assert(decode_header(header@) =~= self.header());
    }

    /// Moves the handle to `ptr`, where the raw allocator has taken the
    /// block, header and all.
    pub fn rebase(&mut self, ptr: usize)
        ensures
            final(self).base() == ptr,
            final(self).header() == old(self).header(),
    {
        self.block_base = ptr;
    }

    /// Sets the size that the caller asked for and returns the one that was
    /// there before.
    pub fn set_size(&mut self, size: usize) -> (old_size: usize)
        ensures
            old_size == old(self).header().size,
            final(self).base() == old(self).base(),
            final(self).header() == (Header { size, ..old(self).header() }),
    {
        let old_size = self.size;
        self.size = size;
        old_size
    }

    /// The size that the caller asked for.
    pub fn size(&self) -> (size: usize)
        ensures
            size == self.header().size,
    {
        self.size
    }

    /// The address of the payload: the first byte behind the header.
    pub fn user_payload(&self) -> (payload: usize)
        requires
            self.base() + HEADER_SIZE <= usize::MAX,
        ensures
            payload == self.base() + HEADER_SIZE,
    {
        self.block_base + HEADER_SIZE
    }

    /// The number of bytes the header takes.
    pub fn header_size() -> (n: usize)
        ensures
            n == HEADER_SIZE,
    {
        HEADER_SIZE
    }

    /// The address at which the raw block starts.
    pub fn ptr(&self) -> (ptr: usize)
        ensures
            ptr == self.base(),
    {
        self.block_base
    }

    /// Whether the block is ours: whether its header carries the magic word.
    pub fn check(&self) -> (ours: bool)
        ensures
            ours == self.ours(),
    {
        self.magic == MAGIC
    }

    /// Lets go of the stack that the header keeps, before the raw block goes
    /// back to the allocator.
    pub fn free(&mut self)
        ensures
            final(self).base() == old(self).base(),
            final(self).header() == (Header { frames: None, ..old(self).header() }),
    {
        self.frames = None;
    }

    /// The stack under which this block is accounted. A block that has one
    /// keeps it. One that has none gets the stack that `capture` takes, if
    /// `create_if_missing` says so, and else answers with the empty stack.
    pub fn backtrace<F: FnOnce() -> Frames>(&mut self, create_if_missing: bool, capture: F) -> (stack:
        Frames)
        requires
            old(self).header().frames is None && create_if_missing ==> capture.requires(()),
        ensures
            final(self).base() == old(self).base(),
            match old(self).header().frames {
                Some(kept) => stack@ == kept && final(self).header() == old(self).header(),
                None => if create_if_missing {
                    &&& capture.ensures((), stack)
                    &&& final(self).header() == (Header {
                        frames: Some(stack@),
                        ..old(self).header()
                    })
                } else {
                    &&& stack@ == Seq::<Frame>::empty()
                    &&& final(self).header() == old(self).header()
                },
            },
    {
        match self.frames {
            Some(kept) => kept,
            None => {
                if !create_if_missing {
                    return Frames::new();
                }
                let stack = capture();
                self.frames = Some(stack);
                stack
            },
        }
    }
}

} // verus!
