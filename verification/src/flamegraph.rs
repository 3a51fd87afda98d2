//! A report as a flamegraph.
//!
//! The report is put into the folded format, one line for each stack, and
//! handed to a flamegraph renderer, which draws it in SVG. The renderer
//! counts in machine integers and reads the folded format loosely, so a
//! report that would take it beyond what it can count, or that it would
//! misread, is refused before it gets there.

use crate::report::{names_of, Report, Stack, Weight};
use vstd::prelude::*;
use vstd::string::StringExecFns;
use vstd::utf8::encode_utf8;

verus! {

/// The digit `d` as text.
pub open spec fn digit(d: int) -> Seq<char> {
    if d == 0 {
        "0"@
    } else if d == 1 {
        "1"@
    } else if d == 2 {
        "2"@
    } else if d == 3 {
        "3"@
    } else if d == 4 {
        "4"@
    } else if d == 5 {
        "5"@
    } else if d == 6 {
        "6"@
    } else if d == 7 {
        "7"@
    } else if d == 8 {
        "8"@
    } else {
        "9"@
    }
}

/// The number `n` in decimal digits.
pub open spec fn decimal(n: nat) -> Seq<char>
    decreases n,
{
    if n < 10 {
        digit(n as int)
    } else {
        decimal(n / 10) + digit((n % 10) as int)
    }
}

/// A stack as one path: the names of its frames from the outermost to the
/// innermost, with `;` in between. A stack without frames goes by the name
/// of `[unknown]`.
pub open spec fn path(stack: Stack) -> Seq<char>
    decreases stack.len(),
{
    if stack.len() == 0 {
        "[unknown]"@
    } else if stack.len() == 1 {
        stack[0]
    } else {
        path(stack.drop_first()) + ";"@ + stack[0]
    }
}

/// One line of a report in the folded format that flamegraph tools read:
/// the stack as a path, a blank, and the bytes.
pub open spec fn folded_line(weight: Weight) -> Seq<char> {
    path(weight.0) + " "@ + decimal(weight.1 as nat)
}

/// A report in the folded format: one line for each stack that has bytes.
pub open spec fn folded_lines(data: Seq<Weight>) -> Seq<Seq<char>>
    decreases data.len(),
{
    if data.len() == 0 {
        Seq::empty()
    } else if data.last().1 > 0 {
        folded_lines(data.drop_last()).push(folded_line(data.last()))
    } else {
        folded_lines(data.drop_last())
    }
}

/// The bytes of all lines of a report in the folded format.
pub open spec fn total_bytes(data: Seq<Weight>) -> int
    decreases data.len(),
{
    if data.len() == 0 {
        0
    } else if data.last().1 > 0 {
        total_bytes(data.drop_last()) + data.last().1
    } else {
        total_bytes(data.drop_last())
    }
}

/// The largest count that the renderer's arithmetic is exact for: it takes
/// counts through floating point numbers of 53 bits.
pub const EXACT_COUNT: u64 = 0x20_0000_0000_0000;

/// The longest path, in bytes of UTF-8, that is handed to the renderer. The
/// renderer lays every frame of a path out by its depth, in a `usize`.
pub const LONGEST_PATH: usize = 1_000_000;

/// The most bytes that a report may hold to be drawn. The renderer adds the
/// bytes of all lines up, multiplies sums of them by 100 in a `usize`, and
/// takes them through floating point numbers.
pub open spec fn most_bytes() -> int {
    if usize::MAX as int / 100 < EXACT_COUNT {
        usize::MAX as int / 100
    } else {
        EXACT_COUNT as int
    }
}

/// Whether the byte `b` of a text is a decimal digit.
pub open spec fn is_digit(b: u8) -> bool {
    0x30 <= b <= 0x39
}

/// Whether the byte `b` of a text may stand in the end of a line that a
/// reader of the folded format takes for a count: a digit, a dot, or a
/// byte of a character that may be white space, that is, of any but the
/// visible characters of ASCII.
pub open spec fn may_trail(b: u8) -> bool {
    is_digit(b) || b == 0x2e || b < 0x21 || b > 0x7e
}

/// Whether there is a digit in `text` at or behind the place `from`.
pub open spec fn digit_behind(text: Seq<u8>, from: int) -> bool {
    exists|j: int| from <= j < text.len() && is_digit(#[trigger] text[j])
}

/// Whether every byte of `text` at or behind the place `from` may stand in
/// the end of a line that is taken for a count.
pub open spec fn all_may_trail(text: Seq<u8>, from: int) -> bool {
    forall|j: int| from <= j < text.len() ==> may_trail(#[trigger] text[j])
}

/// Whether what stands behind the place `i` of `text` may be taken for a
/// count: it has a digit, and nothing but digits, dots and white space.
pub open spec fn count_behind(text: Seq<u8>, i: int) -> bool {
    digit_behind(text, i + 1) && all_may_trail(text, i + 1)
}

/// Whether a reader of the folded format may take the end of the path
/// `text`, given in bytes of UTF-8, for a count of its own: behind one of
/// its blanks stands what may be taken for a count. The line of such a path
/// would be read as if it had two counts, and the path as if it were
/// shorter.
pub open spec fn ends_in_count(text: Seq<u8>) -> bool {
    exists|i: int| 0 <= i < text.len() && text[i] == 0x20 && #[trigger] count_behind(text, i)
}

/// Why a report could not be drawn.
#[derive(Debug)]
pub enum ReportError {
    /// The report holds more bytes than the renderer can count.
    TooLarge,
    /// The path of a stack has more bytes than [`LONGEST_PATH`].
    PathTooLong,
    /// The path of a stack ends in a blank and a number, which the renderer
    /// would take for a count.
    PathEndsInCount,
    /// The flamegraph renderer failed, and said this.
    Render(String),
}

/// What keeps a line of a report from being drawn, if anything does. A
/// stack without bytes has no line.
pub open spec fn line_fault(weight: Weight) -> Option<ReportError> {
    let text = encode_utf8(path(weight.0));
    if weight.1 <= 0 {
        None
    } else if text.len() > LONGEST_PATH {
        Some(ReportError::PathTooLong)
    } else if ends_in_count(text) {
        Some(ReportError::PathEndsInCount)
    } else {
        None
    }
}

/// What keeps the first line of a report that cannot be drawn from being
/// drawn, if there is such a line.
pub open spec fn first_fault(data: Seq<Weight>) -> Option<ReportError>
    decreases data.len(),
{
    if data.len() == 0 {
        None
    } else {
        match first_fault(data.drop_last()) {
            Some(fault) => Some(fault),
            None => line_fault(data.last()),
        }
    }
}

/// Why a report is not handed to the renderer, if it is not: it holds more
/// bytes than [`most_bytes`], or one of its lines cannot be drawn.
pub open spec fn refusal(data: Seq<Weight>) -> Option<ReportError> {
    if total_bytes(data) > most_bytes() {
        Some(ReportError::TooLarge)
    } else {
        first_fault(data)
    }
}

/// Whether the renderer can take `lines`: they are a report in the folded
/// format that nothing keeps from being drawn.
pub open spec fn drawable(lines: Seq<String>) -> bool {
    exists|data: Seq<Weight>|
        names_of(lines) == #[trigger] folded_lines(data) && refusal(data) is None
}

/// The first lines of a report have no more bytes than all of them.
pub proof fn lemma_total_bytes_grows(data: Seq<Weight>, i: int)
    requires
        0 <= i <= data.len(),
    ensures
        0 <= total_bytes(data.take(i)) <= total_bytes(data),
    decreases data.len(),
{
    if i == data.len() {
        assert(data.take(i) =~= data);
        if i > 0 {
            lemma_total_bytes_grows(data.drop_last(), i - 1);
            assert(data.drop_last().take(i - 1) =~= data.take(i - 1));
            assert(data.take(i - 1) =~= data.drop_last());
        }
    } else {
        lemma_total_bytes_grows(data.drop_last(), i);
        assert(data.drop_last().take(i) =~= data.take(i));
    }
}

/// A fault among the first lines of a report is the report's first fault.
pub proof fn lemma_first_fault_stays(data: Seq<Weight>, i: int)
    requires
        0 <= i <= data.len(),
        first_fault(data.take(i)) is Some,
    ensures
        first_fault(data) == first_fault(data.take(i)),
    decreases data.len(),
{
    if i == data.len() {
        assert(data.take(i) =~= data);
    } else {
        assert(data.drop_last().take(i) =~= data.take(i));
        lemma_first_fault_stays(data.drop_last(), i);
    }
}

/// The digit `d` as text.
fn digit_text(d: usize) -> (text: &'static str)
    requires
        d < 10,
    ensures
        text@ == digit(d as int),
{
    match d {
        0 => "0",
        1 => "1",
        2 => "2",
        3 => "3",
        4 => "4",
        5 => "5",
        6 => "6",
        7 => "7",
        8 => "8",
        _ => "9",
    }
}

/// Writes `n` in decimal digits behind what `out` holds.
fn write_decimal(out: &mut String, n: usize)
    ensures
        final(out)@ == old(out)@ + decimal(n as nat),
    decreases n,
{
    let ghost before = out@;
    if n >= 10 {
        write_decimal(out, n / 10);
    }
    out.append(digit_text(n % 10));
    assert(out@ =~= before + decimal(n as nat));
}

/// Writes the stack `names` as a path behind what `out` holds.
fn write_path(out: &mut String, names: &Vec<String>)
    ensures
        final(out)@ == old(out)@ + path(names_of(names@)),
{
    let ghost before = out@;
    let ghost stack = names_of(names@);
    let depth = names.len();
    if depth == 0 {
        out.append("[unknown]");
        return ;
    }
    let mut i: usize = depth - 1;
    out.append(names[i].as_str());
    assert(stack.subrange(i as int, depth as int) =~= seq![stack[i as int]]);
    while i > 0
        invariant
            i < depth,
            depth == names@.len(),
            stack == names_of(names@),
            out@ == before + path(stack.subrange(i as int, depth as int)),
        decreases i,
    {
        let ghost outer = stack.subrange(i as int, depth as int);
        i = i - 1;
        out.append(";");
        out.append(names[i].as_str());
        proof {
            let whole = stack.subrange(i as int, depth as int);
            assert(whole.drop_first() =~= outer);
            assert(whole[0] == names@[i as int]@);
            assert(out@ =~= before + path(whole));
        }
    }
    assert(stack.subrange(0, depth as int) =~= stack);
}

/// Whether the path `text`, in bytes of UTF-8, ends in what a reader of
/// the folded format may take for a count.
fn path_ends_in_count(text: &[u8]) -> (found: bool)
    ensures
        found == ends_in_count(text@),
{
    let n = text.len();
    let mut k: usize = n;
    let mut seen = false;
    while k > 0
        invariant
            k <= n,
            n == text@.len(),
            all_may_trail(text@, k as int),
            seen == digit_behind(text@, k as int),
            forall|i: int| k <= i < n && text@[i] == 0x20 ==> !digit_behind(text@, i + 1),
        decreases k,
    {
        let b = text[k - 1];
        if b == 0x20 && seen {
            assert(count_behind(text@, k - 1));
            return true;
        }
        let digit = 0x30 <= b && b <= 0x39;
        if !(digit || b == 0x2e || b < 0x21 || b > 0x7e) {
            assert forall|i: int| 0 <= i < n && text@[i] == 0x20 implies !count_behind(text@, i) by {
                if i < k - 1 {
                    assert(!may_trail(text@[k - 1]));
                }
            }
            return false;
        }
        if digit {
            seen = true;
            assert(is_digit(text@[k - 1]));
        } else {
            assert forall|j: int| k - 1 <= j < n && is_digit(text@[j]) implies k <= j by {}
        }
        k = k - 1;
    }
    false
}

/// Draws the folded `lines` as a flamegraph, in SVG, by
/// `pprof::flamegraph::from_lines`. The renderer's options are its defaults
/// (`Options::default`) but for the name of what is counted and for the
/// colours, which are the palette that the renderer knows by the name
/// `palette` (`Palette::from_str`).
///
/// The renderer's arithmetic has its limits, and `drawable` keeps the lines
/// within them: it adds up the bytes of all lines and multiplies by 100 in
/// a `usize`, it reads a number at the end of a path as a second count and
/// subtracts the two, and it multiplies the depth of a path by the height
/// of a frame.
///
/// Of what comes back only this is claimed: a drawing that came back is
/// not empty, as the renderer writes the head of the drawing before
/// anything else. Whether it can draw the lines is the renderer's to
/// decide, and it picks its colours by chance.
#[verifier::external_body]
fn render(lines: &Vec<String>, count_name: &str, palette: &str) -> (svg: Result<Vec<u8>, String>)
    requires
        drawable(lines@),
    ensures
        svg matches Ok(bytes) ==> bytes@.len() > 0,
{
    let mut options = pprof::flamegraph::Options::default();
    options.count_name = count_name.to_string();
    options.colors = palette.parse()?;
    let mut svg = Vec::new();
    match pprof::flamegraph::from_lines(&mut options, lines.iter().map(String::as_str), &mut svg) {
        Ok(()) => Ok(svg),
        Err(error) => Err(error.to_string()),
    }
}

/// What [`Report::flamegraph`] makes of the renderer's answer: the drawing
/// as it came, or the renderer's complaint as a [`ReportError`].
pub fn drawn(rendered: Result<Vec<u8>, String>) -> (svg: Result<Vec<u8>, ReportError>)
    ensures
        match rendered {
            Ok(bytes) => svg == Ok::<Vec<u8>, ReportError>(bytes),
            Err(text) => svg == Err::<Vec<u8>, ReportError>(ReportError::Render(text)),
        },
{
    match rendered {
        Ok(bytes) => Ok(bytes),
        Err(text) => Err(ReportError::Render(text)),
    }
}

impl Report {
    /// The report in the folded format that flamegraph tools read: for each
    /// stack that has bytes, one line.
    pub fn folded(&self) -> (lines: Vec<String>)
        ensures
            names_of(lines@) == folded_lines(self.weights()),
    {
        let mut lines: Vec<String> = Vec::new();
        let ghost data = self.weights();
        let count = self.len();
        let mut i: usize = 0;
        assert(data.take(0) =~= Seq::<Weight>::empty());
        assert(names_of(lines@) =~= Seq::<Seq<char>>::empty());
        while i < count
            invariant
                i <= count,
                count == data.len(),
                data == self.weights(),
                names_of(lines@) == folded_lines(data.take(i as int)),
            decreases count - i,
        {
            let ghost before = data.take(i as int);
            let ghost after = data.take(i + 1);
            assert(after.drop_last() =~= before);
            assert(after.last() == data[i as int]);
            let bytes = self.bytes(i);
            if bytes > 0 {
                let mut line = String::new();
                write_path(&mut line, self.stack(i));
                line.append(" ");
                write_decimal(&mut line, bytes as usize);
                assert(line@ =~= folded_line(data[i as int]));
                let ghost so_far = names_of(lines@);
                lines.push(line);
                assert(names_of(lines@) =~= so_far.push(folded_line(data[i as int])));
            }
            i = i + 1;
        }
        assert(data.take(count as int) =~= data);
        lines
    }

    /// The bytes of all lines of the report in the folded format, if a
    /// `usize` can hold them.
    pub fn total(&self) -> (total: Option<usize>)
        ensures
            match total {
                Some(sum) => sum == total_bytes(self.weights()),
                None => total_bytes(self.weights()) > usize::MAX,
            },
    {
        let ghost data = self.weights();
        let count = self.len();
        let mut sum: usize = 0;
        let mut i: usize = 0;
        assert(data.take(0) =~= Seq::<Weight>::empty());
        while i < count
            invariant
                i <= count,
                count == data.len(),
                data == self.weights(),
                sum == total_bytes(data.take(i as int)),
            decreases count - i,
        {
            assert(data.take(i + 1).drop_last() =~= data.take(i as int));
            assert(data.take(i + 1).last() == data[i as int]);
            let bytes = self.bytes(i);
            if bytes > 0 {
                match sum.checked_add(bytes as usize) {
                    Some(more) => {
                        sum = more;
                    },
                    None => {
                        proof {
                            lemma_total_bytes_grows(data, i + 1);
                        }
                        return None;
                    },
                }
            }
            i = i + 1;
        }
        assert(data.take(count as int) =~= data);
        Some(sum)
    }

    /// Why the report is not handed to the renderer, if it is not.
    pub fn refusal(&self) -> (fault: Option<ReportError>)
        ensures
            fault == refusal(self.weights()),
    {
        let ghost data = self.weights();
        let by_width: u64 = (usize::MAX / 100) as u64;
        let most: u64 = if by_width < EXACT_COUNT {
            by_width
        } else {
            EXACT_COUNT
        };
        match self.total() {
            Some(sum) => {
                if sum as u64 > most {
                    return Some(ReportError::TooLarge);
                }
            },
            None => {
                return Some(ReportError::TooLarge);
            },
        }
        assert(most == most_bytes());
        assert(total_bytes(data) <= most_bytes());
        let count = self.len();
        let mut i: usize = 0;
        assert(data.take(0) =~= Seq::<Weight>::empty());
        while i < count
            invariant
                i <= count,
                count == data.len(),
                data == self.weights(),
                total_bytes(data) <= most_bytes(),
                first_fault(data.take(i as int)) is None,
            decreases count - i,
        {
            assert(data.take(i + 1).drop_last() =~= data.take(i as int));
            assert(data.take(i + 1).last() == data[i as int]);
            if self.bytes(i) > 0 {
                let mut text = String::new();
                write_path(&mut text, self.stack(i));
                assert(text@ =~= path(data[i as int].0));
                let bytes = text.as_str().as_bytes();
                let fault = if bytes.len() > LONGEST_PATH {
                    Some(ReportError::PathTooLong)
                } else if path_ends_in_count(bytes) {
                    Some(ReportError::PathEndsInCount)
                } else {
                    None
                };
                assert(fault == line_fault(data[i as int]));
                if fault.is_some() {
                    proof {
                        assert(first_fault(data.take(i + 1)) == fault);
                        lemma_first_fault_stays(data, i + 1);
                    }
                    return fault;
                }
            }
            i = i + 1;
        }
        assert(data.take(count as int) =~= data);
        None
    }

    /// The report as a flamegraph, in SVG: the allocated bytes of each
    /// stack, counted in `bytes`, in the colours that flamegraphs of memory
    /// have.
    ///
    /// A report that the renderer cannot take is not drawn, and [`refusal`]
    /// says why. A report without a line is drawn as nothing at all. Any
    /// other goes in its folded format to the renderer, whose answer is
    /// handed on as [`drawn`] says: a drawing, which is never empty, or the
    /// renderer's complaint.
    pub fn flamegraph(&self) -> (svg: Result<Vec<u8>, ReportError>)
        ensures
            refusal(self.weights()) matches Some(fault) ==> svg == Err::<Vec<u8>, ReportError>(
                fault,
            ),
            refusal(self.weights()) is None ==> match svg {
                Ok(bytes) => (bytes@.len() == 0) == (folded_lines(self.weights()).len() == 0),
                Err(fault) => fault is Render && folded_lines(self.weights()).len() > 0,
            },
    {
        match self.refusal() {
            Some(fault) => {
                return Err(fault);
            },
            None => {},
        }
        let lines = self.folded();
        if lines.len() == 0 {
            return Ok(Vec::new());
        }
        drawn(render(&lines, "bytes", "mem"))
    }
}

} // verus!
