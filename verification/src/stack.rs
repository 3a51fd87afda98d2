//! Fixed-depth call-stack records.
//!
//! A [`Frames`] value holds up to [`MAX_DEPTH`] raw frames inline, so that
//! taking a stack trace never needs the heap. Two records stand for the same
//! stack when their frames resolve to the same symbols, wherever inside those
//! symbols the individual program counters point.

use std::hash::{Hash, Hasher};
use vstd::prelude::*;
use vstd::std_specs::cmp::PartialEqSpecImpl;

verus! {

/// The largest number of frames a stack record keeps.
pub const MAX_DEPTH: usize = 32;

/// One raw frame of a stack trace.
#[derive(Clone, Copy, Debug, PartialEq, Eq, Structural)]
pub struct Frame {
    /// The program counter inside the frame.
    pub ip: usize,
    /// The start address of the symbol that contains `ip`.
    pub symbol_address: usize,
}

/// The symbol start addresses of a sequence of frames: the fingerprint by
/// which stacks are told apart.
pub open spec fn symbol_addresses(frames: Seq<Frame>) -> Seq<usize> {
    Seq::new(frames.len(), |i: int| frames[i].symbol_address)
}

/// A stack trace of at most [`MAX_DEPTH`] frames, innermost frame first.
#[derive(Clone, Copy, Debug)]
pub struct Frames {
    frames: [Frame; MAX_DEPTH],
    size: usize,
}

impl View for Frames {
    type V = Seq<Frame>;

    closed spec fn view(&self) -> Seq<Frame> {
        self.frames@.take(self.size as int)
    }
}

impl Frames {
    #[verifier::type_invariant]
    spec fn well_formed(self) -> bool {
        self.size <= MAX_DEPTH
    }

    /// The fingerprint of this stack: the symbol start address of each frame.
    pub open spec fn key(&self) -> Seq<usize> {
        symbol_addresses(self@)
    }

    /// An empty record.
    pub fn new() -> (r: Frames)
        ensures
            r@ == Seq::<Frame>::empty(),
    {
        Frames { frames: [Frame { ip: 0, symbol_address: 0 }; MAX_DEPTH], size: 0 }
    }

    /// The number of frames recorded.
    pub fn len(&self) -> (n: usize)
        ensures
            n == self@.len(),
            n <= MAX_DEPTH,
    {
        proof {
            use_type_invariant(self);
        }
        self.size
    }

    /// Whether no frame was recorded.
    pub fn is_empty(&self) -> (b: bool)
        ensures
            b == (self@.len() == 0),
    {
        proof {
            use_type_invariant(self);
        }
        self.size == 0
    }

    /// The `i`-th frame, counted from the innermost.
    pub fn get(&self, i: usize) -> (f: Frame)
        requires
            i < self@.len(),
        ensures
            f == self@[i as int],
    {
        proof {
            use_type_invariant(self);
        }
        self.frames[i]
    }

    /// Appends `frame` while there is room, and says whether there is room
    /// for yet another one. A full record is left as it is.
    pub fn push(&mut self, frame: Frame) -> (more: bool)
        ensures
            old(self)@.len() < MAX_DEPTH ==> final(self)@ == old(self)@.push(frame),
            old(self)@.len() >= MAX_DEPTH ==> final(self)@ == old(self)@,
            more == (final(self)@.len() < MAX_DEPTH),
    {
        proof {
            use_type_invariant(&*self);
        }
        if self.size < MAX_DEPTH {
            self.frames[self.size] = frame;
            self.size = self.size + 1;
        }
        self.size < MAX_DEPTH
    }

    /// Whether `self` and `other` are the same stack: equally deep, with the
    /// same symbol at every depth.
    pub fn same_stack(&self, other: &Frames) -> (same: bool)
        ensures
            same == (self.key() == other.key()),
    {
        proof {
            use_type_invariant(self);
            use_type_invariant(other);
        }
        if self.size != other.size {
            assert(self.key().len() != other.key().len());
            return false;
        }
        let mut i: usize = 0;
        while i < self.size
            invariant
                i <= self.size,
                self.size == other.size,
                self.size <= MAX_DEPTH,
                forall|j: int| 0 <= j < i ==> self@[j].symbol_address == other@[j].symbol_address,
            decreases self.size - i,
        {
            if self.frames[i].symbol_address != other.frames[i].symbol_address {
                assert(self.key()[i as int] != other.key()[i as int]);
                return false;
            }
            i = i + 1;
        }
        assert(self.key() =~= other.key());
        true
    }
}

impl PartialEq for Frames {
    fn eq(&self, other: &Frames) -> (r: bool) {
        self.same_stack(other)
    }
}

impl PartialEqSpecImpl for Frames {
    open spec fn obeys_eq_spec() -> bool {
        true
    }

    open spec fn eq_spec(&self, other: &Frames) -> bool {
        self.key() == other.key()
    }
}

impl Eq for Frames {

}

/// Feeds `word` into `state` by `Hasher::write_usize` of the standard
/// library. Nothing is claimed of what the hasher makes of it.
#[verifier::external_body]
fn feed<H: Hasher>(state: &mut H, word: usize) {
    state.write_usize(word)
}

impl Hash for Frames {
    /// Hashes what [`Frames::key`] is made of, and nothing else: stacks
    /// that are equal feed the same words to the hasher.
    fn hash<H: Hasher>(&self, state: &mut H) {
        let depth = self.len();
        let mut i: usize = 0;
        while i < depth
            invariant
                i <= depth,
                depth == self@.len(),
            decreases depth - i,
        {
            feed(state, self.get(i).symbol_address);
            i = i + 1;
        }
    }
}

/// Stacks with the same frames have the same fingerprint, and fingerprints
/// are as long as the stacks they come from.
pub proof fn lemma_symbol_addresses(a: Seq<Frame>, b: Seq<Frame>)
    ensures
        symbol_addresses(a).len() == a.len(),
        a == b ==> symbol_addresses(a) == symbol_addresses(b),
        symbol_addresses(a) == symbol_addresses(b) <==> (a.len() == b.len() && forall|i: int|
            0 <= i < a.len() ==> a[i].symbol_address == b[i].symbol_address),
{
    if a.len() == b.len() && (forall|i: int|
        0 <= i < a.len() ==> a[i].symbol_address == b[i].symbol_address) {
        assert(symbol_addresses(a) =~= symbol_addresses(b));
    }
    if symbol_addresses(a) == symbol_addresses(b) {
        assert(symbol_addresses(a).len() == symbol_addresses(b).len());
        assert forall|i: int| 0 <= i < a.len() implies a[i].symbol_address
            == b[i].symbol_address by {
            assert(symbol_addresses(a)[i] == symbol_addresses(b)[i]);
        }
    }
}

} // verus!
