//! What a profiling session hands out: for each stack, by the names of its
//! frames, the bytes that were sampled under it.
//!
//! Frames of the profiler itself and of the runtime's allocator shims say
//! nothing about the program, and are left out of every stack.

use crate::collector::{entries_of, Entry, MemProfileRecord};
use crate::stack::{Frame, Frames};
use vstd::prelude::*;
use vstd::string::StrSliceExecFns;

verus! {

/// A stack by the names of its frames, innermost frame first.
pub type Stack = Seq<Seq<char>>;

/// One line of a report: a stack and the bytes sampled under it.
pub type Weight = (Stack, isize);

/// The names that a vector of strings holds.
pub open spec fn names_of(names: Seq<String>) -> Stack {
    Seq::new(names.len(), |i: int| names[i]@)
}

/// The samples that a vector of named stacks and records stands for.
pub open spec fn samples_of(samples: Seq<(Vec<String>, MemProfileRecord)>) -> Seq<
    (Stack, MemProfileRecord),
> {
    Seq::new(samples.len(), |i: int| (names_of(samples[i].0@), samples[i].1))
}

/// The lines that a vector of named stacks and byte counts stands for.
pub open spec fn weights_of(data: Seq<(Vec<String>, isize)>) -> Seq<Weight> {
    Seq::new(data.len(), |i: int| (names_of(data[i].0@), data[i].1))
}

/// Whether `name` begins with `prefix`.
pub open spec fn has_prefix(name: Seq<char>, prefix: Seq<char>) -> bool {
    prefix.len() <= name.len() && name.subrange(0, prefix.len() as int) == prefix
}

/// Whether a frame of this name belongs to the profiler or to the runtime's
/// allocator shims rather than to the program: its name begins with the
/// profiler's own path, or it is one of the allocator's entry points, or
/// one of the functions by which the runtime reaches them.
pub open spec fn is_internal(name: Seq<char>) -> bool {
    ||| has_prefix(name, "ruback::"@)
    ||| name == "malloc"@
    ||| name == "calloc"@
    ||| name == "realloc"@
    ||| name == "posix_memalign"@
    ||| name == "aligned_alloc"@
    ||| name == "__rust_alloc"@
    ||| name == "__rust_alloc_zeroed"@
    ||| name == "__rust_realloc"@
    ||| name == "__rdl_alloc"@
    ||| name == "__rdl_alloc_zeroed"@
    ||| name == "__rdl_realloc"@
}

/// The frames of a stack that belong to the program, in their order.
pub open spec fn visible(names: Stack) -> Stack
    decreases names.len(),
{
    if names.len() == 0 {
        Seq::empty()
    } else if is_internal(names.last()) {
        visible(names.drop_last())
    } else {
        visible(names.drop_last()).push(names.last())
    }
}

/// The sum of two byte counts, kept within what an `isize` holds.
pub open spec fn add_bytes(a: isize, b: isize) -> isize {
    if a + b > isize::MAX {
        isize::MAX
    } else if a + b < isize::MIN {
        isize::MIN
    } else {
        (a + b) as isize
    }
}

/// Whether a line of the report is about `stack`.
pub open spec fn has_stack(data: Seq<Weight>, stack: Stack) -> bool {
    exists|i: int| 0 <= i < data.len() && (#[trigger] data[i]).0 == stack
}

/// The place of the line about `stack`, where there is one.
pub open spec fn line_of(data: Seq<Weight>, stack: Stack) -> int {
    choose|i: int| 0 <= i < data.len() && (#[trigger] data[i]).0 == stack
}

/// No two lines are about the same stack.
pub open spec fn distinct_stacks(data: Seq<Weight>) -> bool {
    forall|i: int, j: int|
        0 <= i < j < data.len() ==> (#[trigger] data[i]).0 != (#[trigger] data[j]).0
}

/// The report after `bytes` more were found under `stack`: they are added
/// to the line about that stack, or make a new line behind the others.
pub open spec fn weighed(data: Seq<Weight>, stack: Stack, bytes: isize) -> Seq<Weight> {
    if has_stack(data, stack) {
        let i = line_of(data, stack);
        data.update(i, (stack, add_bytes(data[i].1, bytes)))
    } else {
        data.push((stack, bytes))
    }
}

/// The report of a table of samples: each stack stripped of the frames that
/// are not the program's, and the allocated bytes of stacks that are then
/// the same added up.
pub open spec fn folded(samples: Seq<(Stack, MemProfileRecord)>) -> Seq<Weight>
    decreases samples.len(),
{
    if samples.len() == 0 {
        Seq::empty()
    } else {
        weighed(
            folded(samples.drop_last()),
            visible(samples.last().0),
            samples.last().1.alloc_bytes,
        )
    }
}

/// One more weight keeps the lines of a report about distinct stacks.
pub proof fn lemma_weighed_distinct(data: Seq<Weight>, stack: Stack, bytes: isize)
    requires
        distinct_stacks(data),
    ensures
        distinct_stacks(weighed(data, stack, bytes)),
{
    let after = weighed(data, stack, bytes);
    if has_stack(data, stack) {
        let i = line_of(data, stack);
        assert(forall|j: int| 0 <= j < data.len() ==> (#[trigger] after[j]).0 == data[j].0);
    } else {
        assert(forall|j: int| 0 <= j < data.len() ==> (#[trigger] after[j]) == data[j]);
    }
    assert forall|i: int, j: int| 0 <= i < j < after.len() implies (#[trigger] after[i]).0 != (
    #[trigger] after[j]).0 by {
        if j < data.len() {
            assert(data[i].0 != data[j].0);
        } else {
            assert(data[i].0 != stack);
        }
    }
}

/// The lines of a folded report are about distinct stacks.
pub proof fn lemma_folded_distinct(samples: Seq<(Stack, MemProfileRecord)>)
    ensures
        distinct_stacks(folded(samples)),
    decreases samples.len(),
{
    if samples.len() > 0 {
        lemma_folded_distinct(samples.drop_last());
        lemma_weighed_distinct(
            folded(samples.drop_last()),
            visible(samples.last().0),
            samples.last().1.alloc_bytes,
        );
    }
}

/// The names of the parts of a stack, one part behind the other.
pub open spec fn joined(parts: Seq<Vec<String>>) -> Stack
    decreases parts.len(),
{
    if parts.len() == 0 {
        Seq::empty()
    } else {
        joined(parts.drop_last()) + names_of(parts.last()@)
    }
}

/// Whether `names` are what `resolve` made of `frames`: for each frame in
/// turn, the names that one call of `resolve` gave for it.
pub open spec fn resolved_by<R: Fn(Frame) -> Vec<String>>(
    resolve: R,
    frames: Seq<Frame>,
    names: Stack,
) -> bool {
    exists|parts: Seq<Vec<String>>|
        {
            &&& parts.len() == frames.len()
            &&& forall|j: int|
                0 <= j < frames.len() ==> resolve.ensures((frames[j],), #[trigger] parts[j])
            &&& names == joined(parts)
        }
}

/// Whether `named` are the samples `entries` with each stack resolved by
/// `resolve`.
pub open spec fn all_resolved_by<R: Fn(Frame) -> Vec<String>>(
    resolve: R,
    entries: Seq<Entry>,
    named: Seq<(Stack, MemProfileRecord)>,
) -> bool {
    &&& named.len() == entries.len()
    &&& forall|i: int|
        0 <= i < entries.len() ==> (#[trigger] named[i]).1 == entries[i].1 && resolved_by(
            resolve,
            entries[i].0,
            named[i].0,
        )
}

/// Whether `name` begins with `prefix`.
fn starts_with(name: &str, prefix: &str) -> (b: bool)
    ensures
        b == has_prefix(name@, prefix@),
{
    let n = name.unicode_len();
    let m = prefix.unicode_len();
    if m > n {
        return false;
    }
    let mut i: usize = 0;
    while i < m
        invariant
            i <= m <= n,
            n == name@.len(),
            m == prefix@.len(),
            forall|j: int| 0 <= j < i ==> name@[j] == prefix@[j],
        decreases m - i,
    {
        if name.get_char(i) != prefix.get_char(i) {
            assert(name@.subrange(0, m as int)[i as int] != prefix@[i as int]);
            return false;
        }
        i = i + 1;
    }
    assert(name@.subrange(0, m as int) =~= prefix@);
    true
}

/// Whether `a` and `b` are the same text.
pub(crate) fn same_text(a: &str, b: &str) -> (same: bool)
    ensures
        same == (a@ == b@),
{
    if a.unicode_len() != b.unicode_len() {
        return false;
    }
    let same = starts_with(a, b);
    proof {
        if same {
            assert(a@.subrange(0, b@.len() as int) =~= a@);
        } else if a@ == b@ {
            assert(a@.subrange(0, b@.len() as int) =~= b@);
        }
    }
    same
}

/// Whether a frame of this name is left out of reports.
pub fn internal_frame(name: &str) -> (internal: bool)
    ensures
        internal == is_internal(name@),
{
    starts_with(name, "ruback::") || same_text(name, "malloc") || same_text(name, "calloc")
        || same_text(name, "realloc") || same_text(name, "posix_memalign") || same_text(
        name,
        "aligned_alloc",
    ) || same_text(name, "__rust_alloc") || same_text(name, "__rust_alloc_zeroed") || same_text(
        name,
        "__rust_realloc",
    ) || same_text(name, "__rdl_alloc") || same_text(name, "__rdl_alloc_zeroed") || same_text(
        name,
        "__rdl_realloc",
    )
}

/// The frames of a stack that belong to the program.
fn visible_frames(names: &Vec<String>) -> (kept: Vec<String>)
    ensures
        names_of(kept@) == visible(names_of(names@)),
{
    let mut kept: Vec<String> = Vec::new();
    let mut i: usize = 0;
    assert(names_of(names@).take(0) =~= Seq::<Seq<char>>::empty());
    assert(names_of(kept@) =~= Seq::<Seq<char>>::empty());
    while i < names.len()
        invariant
            i <= names.len(),
            names_of(kept@) == visible(names_of(names@).take(i as int)),
        decreases names.len() - i,
    {
        let ghost before = names_of(names@).take(i as int);
        let ghost after = names_of(names@).take(i + 1);
        assert(after.drop_last() =~= before);
        assert(after.last() == names@[i as int]@);
        if !internal_frame(names[i].as_str()) {
            let ghost old_kept = names_of(kept@);
            kept.push(names[i].clone());
            assert(names_of(kept@) =~= old_kept.push(names@[i as int]@));
        }
        i = i + 1;
    }
    assert(names_of(names@).take(names.len() as int) =~= names_of(names@));
    kept
}

/// Whether two stacks have the same frames.
fn same_frames(a: &Vec<String>, b: &Vec<String>) -> (same: bool)
    ensures
        same == (names_of(a@) == names_of(b@)),
{
    if a.len() != b.len() {
        assert(names_of(a@).len() != names_of(b@).len());
        return false;
    }
    let mut i: usize = 0;
    while i < a.len()
        invariant
            i <= a.len(),
            a.len() == b.len(),
            forall|j: int| 0 <= j < i ==> a@[j]@ == b@[j]@,
        decreases a.len() - i,
    {
        if !same_text(a[i].as_str(), b[i].as_str()) {
            assert(names_of(a@)[i as int] != names_of(b@)[i as int]);
            return false;
        }
        i = i + 1;
    }
    assert(names_of(a@) =~= names_of(b@));
    true
}

/// The byte counts `a` and `b` added up, kept within what an `isize` holds.
fn sum_bytes(a: isize, b: isize) -> (sum: isize)
    ensures
        sum == add_bytes(a, b),
{
    match a.checked_add(b) {
        Some(sum) => sum,
        None => if a > 0 {
            isize::MAX
        } else {
            isize::MIN
        },
    }
}

/// What one profiling session found: the bytes sampled under each stack,
/// and the period at which it sampled.
pub struct Report {
    data: Vec<(Vec<String>, isize)>,
    period: usize,
}

impl Report {
    #[verifier::type_invariant]
    spec fn well_formed(self) -> bool {
        distinct_stacks(weights_of(self.data@))
    }

    /// The lines of the report: each stack with the bytes sampled under it.
    pub closed spec fn weights(&self) -> Seq<Weight> {
        weights_of(self.data@)
    }

    /// The period at which the session sampled.
    pub closed spec fn sampling_period(&self) -> usize {
        self.period
    }

    /// The report of the samples that a session took with `period`. Each
    /// sample comes with the names that its stack's frames resolve to,
    /// innermost frame first.
    pub fn new(samples: Vec<(Vec<String>, MemProfileRecord)>, period: usize) -> (report: Report)
        ensures
            report.weights() == folded(samples_of(samples@)),
            report.sampling_period() == period,
            distinct_stacks(report.weights()),
    {
        let mut data: Vec<(Vec<String>, isize)> = Vec::new();
        let mut i: usize = 0;
        assert(samples_of(samples@).take(0) =~= Seq::<(Stack, MemProfileRecord)>::empty());
        assert(weights_of(data@) =~= Seq::<Weight>::empty());
        while i < samples.len()
            invariant
                i <= samples.len(),
                weights_of(data@) == folded(samples_of(samples@).take(i as int)),
            decreases samples.len() - i,
        {
            let ghost before = samples_of(samples@).take(i as int);
            let ghost after = samples_of(samples@).take(i + 1);
            assert(after.drop_last() =~= before);
            assert(after.last() == (names_of(samples@[i as int].0@), samples@[i as int].1));
            proof {
                lemma_folded_distinct(before);
            }
            let stack = visible_frames(&samples[i].0);
            let bytes = samples[i].1.alloc_bytes;
            let ghost lines = weights_of(data@);
            let mut j: usize = 0;
            let mut found = false;
            while j < data.len() && !found
                invariant
                    j <= data.len(),
                    weights_of(data@) == lines,
                    found ==> j < data.len() && lines[j as int].0 == names_of(stack@),
                    forall|k: int| 0 <= k < j && !found ==> (#[trigger] lines[k]).0 != names_of(stack@),
                decreases data.len() - j + (if found { 0int } else { 1int }),
            {
                if same_frames(&data[j].0, &stack) {
                    found = true;
                } else {
                    j = j + 1;
                }
            }
            if found {
                proof {
                    let k = line_of(lines, names_of(stack@));
                    if k < j {
                        assert(lines[k].0 != lines[j as int].0);
                    } else if j < k {
                        assert(lines[j as int].0 != lines[k].0);
                    }
                }
                let sum = sum_bytes(data[j].1, bytes);
                data[j] = (stack, sum);
            } else {
                data.push((stack, bytes));
            }
            assert(weights_of(data@) =~= weighed(lines, names_of(stack@), bytes));
            i = i + 1;
        }
        assert(samples_of(samples@).take(samples.len() as int) =~= samples_of(samples@));
        proof {
            lemma_folded_distinct(samples_of(samples@));
        }
        Report { data, period }
    }

    /// The report of the samples `entries` that a session took with
    /// `period`, where `resolve` gives for a frame the names of the
    /// functions it is in, innermost first: more than one where functions
    /// were inlined, none where the frame is unknown. What the report says
    /// is [`Report::new`] of the samples so resolved.
    pub fn snapshot<R: Fn(Frame) -> Vec<String>>(
        entries: Vec<(Frames, MemProfileRecord)>,
        period: usize,
        resolve: R,
    ) -> (report: Report)
        requires
            forall|frame: Frame| resolve.requires((frame,)),
        ensures
            report.sampling_period() == period,
            distinct_stacks(report.weights()),
            exists|named: Seq<(Stack, MemProfileRecord)>|
                all_resolved_by(resolve, entries_of(entries@), named) && report.weights()
                    == folded(named),
    {
        let mut samples: Vec<(Vec<String>, MemProfileRecord)> = Vec::new();
        let mut i: usize = 0;
        while i < entries.len()
            invariant
                i <= entries.len(),
                forall|frame: Frame| resolve.requires((frame,)),
                all_resolved_by(
                    resolve,
                    entries_of(entries@).take(i as int),
                    samples_of(samples@),
                ),
            decreases entries.len() - i,
        {
            let frames = &entries[i].0;
            let depth = frames.len();
            let mut names: Vec<String> = Vec::new();
            let ghost mut parts: Seq<Vec<String>> = Seq::empty();
            let mut j: usize = 0;
            assert(names_of(names@) =~= joined(parts));
            while j < depth
                invariant
                    j <= depth,
                    depth == frames@.len(),
                    forall|frame: Frame| resolve.requires((frame,)),
                    parts.len() == j,
                    forall|k: int| 0 <= k < j ==> resolve.ensures((frames@[k],), #[trigger] parts[k]),
                    names_of(names@) == joined(parts),
                decreases depth - j,
            {
                let part = resolve(frames.get(j));
                let ghost before = names_of(names@);
                proof {
                    let earlier = parts;
                    parts = parts.push(part);
                    assert(parts.drop_last() =~= earlier);
                    assert(joined(parts) == before + names_of(part@));
                }
                let mut k: usize = 0;
                while k < part.len()
                    invariant
                        k <= part.len(),
                        names_of(names@) == before + names_of(part@).take(k as int),
                    decreases part.len() - k,
                {
                    let ghost so_far = names_of(names@);
                    names.push(part[k].clone());
                    assert(names_of(names@) =~= so_far.push(part@[k as int]@));
                    assert(names_of(part@).take(k + 1) =~= names_of(part@).take(k as int).push(
                        part@[k as int]@,
                    ));
                    assert(before + names_of(part@).take(k + 1) =~= (before + names_of(part@).take(
                        k as int,
                    )).push(part@[k as int]@));
                    k = k + 1;
                }
                assert(names_of(part@).take(part.len() as int) =~= names_of(part@));
                j = j + 1;
            }
            let ghost old_samples = samples_of(samples@);
            samples.push((names, entries[i].1));
            proof {
                let named = samples_of(samples@);
                assert(named =~= old_samples.push((joined(parts), entries@[i as int].1)));
                let all = entries_of(entries@);
                assert(resolved_by(resolve, all[i as int].0, joined(parts)));
                assert forall|x: int| 0 <= x < i + 1 implies (#[trigger] named[x]).1 == all.take(
                    i + 1,
                )[x].1 && resolved_by(resolve, all.take(i + 1)[x].0, named[x].0) by {
                    if x < i {
                        assert(named[x] == old_samples[x]);
                        assert(all.take(i as int)[x] == all[x]);
                    }
                }
            }
            i = i + 1;
        }
        assert(entries_of(entries@).take(entries.len() as int) =~= entries_of(entries@));
        Report::new(samples, period)
    }

    /// The period at which the session sampled.
    pub fn period(&self) -> (period: usize)
        ensures
            period == self.sampling_period(),
    {
        self.period
    }

    /// The number of lines in the report.
    pub fn len(&self) -> (n: usize)
        ensures
            n == self.weights().len(),
    {
        self.data.len()
    }

    /// The stack of the `i`-th line, by the names of its frames.
    pub fn stack(&self, i: usize) -> (names: &Vec<String>)
        requires
            i < self.weights().len(),
        ensures
            names_of(names@) == self.weights()[i as int].0,
    {
        &self.data[i].0
    }

    /// The bytes sampled under the stack of the `i`-th line.
    pub fn bytes(&self, i: usize) -> (bytes: isize)
        requires
            i < self.weights().len(),
        ensures
            bytes == self.weights()[i as int].1,
    {
        self.data[i].1
    }
}

} // verus!
