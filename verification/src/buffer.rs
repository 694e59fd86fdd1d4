//! The lines of a shaping buffer, as far as the editing rules read them.
//!
//! A buffer holds the concatenated text of one aggregate, broken into lines.
//! Each line carries a list of attribute ranges; the tag of a range is the
//! index of the span that the range was shaped from. Ranges are kept in
//! order and never overlap, but they need not cover the line: what lies
//! between them is untagged.

use vstd::prelude::*;
use crate::strings::{byte_len, can_cut, is_cut, text_bytes};

verus! {

/// How a line ends.
#[derive(Clone, Copy, Debug, PartialEq, Eq, Structural)]
pub enum LineEnding {
    /// A line feed.
    Lf,
    /// A carriage return followed by a line feed.
    CrLf,
    /// A carriage return.
    Cr,
    /// A line feed followed by a carriage return.
    LfCr,
    /// Nothing: the last line of a buffer.
    Unterminated,
}

impl LineEnding {
    /// The characters that the ending stands for.
    pub open spec fn text(self) -> Seq<char> {
        match self {
            LineEnding::Lf => seq!['\n'],
            LineEnding::CrLf => seq!['\r', '\n'],
            LineEnding::Cr => seq!['\r'],
            LineEnding::LfCr => seq!['\n', '\r'],
            LineEnding::Unterminated => seq![],
        }
    }

    /// The bytes that the ending stands for.
    pub open spec fn bytes(self) -> Seq<u8> {
        text_bytes(self.text())
    }

    /// The ending as a string.
    pub fn as_str(&self) -> (s: &'static str)
        ensures
            s@ == self.text(),
    {
        match self {
            LineEnding::Lf => {
                proof {
                    reveal_strlit("\n");
                }
                let s = "\n";
                assert(s@ =~= seq!['\n']);
                s
            },
            LineEnding::CrLf => {
                proof {
                    reveal_strlit("\r\n");
                }
                let s = "\r\n";
                assert(s@ =~= seq!['\r', '\n']);
                s
            },
            LineEnding::Cr => {
                proof {
                    reveal_strlit("\r");
                }
                let s = "\r";
                assert(s@ =~= seq!['\r']);
                s
            },
            LineEnding::LfCr => {
                proof {
                    reveal_strlit("\n\r");
                }
                let s = "\n\r";
                assert(s@ =~= seq!['\n', '\r']);
                s
            },
            LineEnding::Unterminated => {
                proof {
                    reveal_strlit("");
                }
                let s = "";
                assert(s@ =~= Seq::<char>::empty());
                s
            },
        }
    }
}

/// One attribute range of a line: the bytes `start..end`, tagged with the
/// index of a span.
#[derive(Clone, Copy, Debug, PartialEq, Eq, Structural)]
pub struct AttrSpan {
    /// First byte of the range.
    pub start: usize,
    /// One past the last byte of the range.
    pub end: usize,
    /// Index of the span that the range belongs to.
    pub metadata: usize,
}

/// What a line holds, as mathematics.
pub struct LineView {
    /// The bytes of the line, without its ending.
    pub text: Seq<u8>,
    /// The bytes of the ending.
    pub ending: Seq<u8>,
    /// The attribute ranges, in the order the buffer lists them.
    pub spans: Seq<AttrSpan>,
}

/// The ranges are not empty, lie inside a text of `len` bytes, follow one
/// another and do not overlap.
pub open spec fn ranges_wf(len: int, spans: Seq<AttrSpan>) -> bool {
    &&& forall|j: int| 0 <= j < spans.len() ==> (#[trigger] spans[j]).start < spans[j].end <= len
    &&& forall|j: int| 0 <= j < spans.len() - 1 ==> (#[trigger] spans[j]).end <= spans[j + 1].start
}

/// Every range begins and ends between two characters of `bytes`.
pub open spec fn ranges_on_cuts(bytes: Seq<u8>, spans: Seq<AttrSpan>) -> bool {
    forall|j: int|
        0 <= j < spans.len() ==> is_cut(bytes, (#[trigger] spans[j]).start as int) && is_cut(
            bytes,
            spans[j].end as int,
        )
}

impl LineView {
    /// The ranges are not empty, lie inside the text, follow one another and
    /// do not overlap.
    pub open spec fn wf(self) -> bool {
        ranges_wf(self.text.len() as int, self.spans)
    }

    /// Every range begins and ends between two characters.
    pub open spec fn on_cuts(self) -> bool {
        ranges_on_cuts(self.text, self.spans)
    }

    /// The tag of the range that holds byte `index`, if a range holds it.
    pub open spec fn styled_at(self, index: int) -> Option<usize> {
        if exists|j: int| self.holds(j, index) {
            let j = choose|j: int| self.holds(j, index);
            Some(self.spans[j].metadata)
        } else {
            None
        }
    }

    /// The tag of the range that holds byte `index`, or `0` where the byte is
    /// untagged.
    pub open spec fn tag_at(self, index: int) -> int {
        match self.styled_at(index) {
            Some(tag) => tag as int,
            None => 0,
        }
    }

    /// Range `j` holds byte `index`.
    pub open spec fn holds(self, j: int, index: int) -> bool {
        0 <= j < self.spans.len() && self.spans[j].start <= index < self.spans[j].end
    }
}

/// In a well-formed line a later range begins where an earlier one has ended.
pub proof fn lemma_spans_sorted(line: LineView, i: int, j: int)
    requires
        line.wf(),
        0 <= i < j < line.spans.len(),
    ensures
        line.spans[i].end <= line.spans[j].start,
    decreases j - i,
{
    if i + 1 < j {
        lemma_spans_sorted(line, i, j - 1);
        assert(line.spans[j - 1].start < line.spans[j - 1].end);
        assert(line.spans[j - 1].end <= line.spans[j - 1 + 1].start);
    } else {
        assert(line.spans[i].end <= line.spans[i + 1].start);
    }
}

/// In a well-formed line at most one range holds a given byte.
pub proof fn lemma_holder_unique(line: LineView, i: int, j: int, index: int)
    requires
        line.wf(),
        line.holds(i, index),
        line.holds(j, index),
    ensures
        i == j,
{
    if i < j {
        lemma_spans_sorted(line, i, j);
    } else if j < i {
        lemma_spans_sorted(line, j, i);
    }
}

/// One line of a shaping buffer.
///
/// A value of this type always holds well-formed ranges that begin and end
/// between characters: [`BufferLine::new`] refuses anything else.
#[derive(Debug)]
pub struct BufferLine {
    text: String,
    ending: LineEnding,
    spans: Vec<AttrSpan>,
}

/// Whether `spans` are acceptable ranges of a line with the text `bytes`.
pub open spec fn acceptable(bytes: Seq<u8>, spans: Seq<AttrSpan>) -> bool {
    ranges_wf(bytes.len() as int, spans) && ranges_on_cuts(bytes, spans)
}

impl View for BufferLine {
    type V = LineView;

    closed spec fn view(&self) -> LineView {
        LineView { text: text_bytes(self.text@), ending: self.ending.bytes(), spans: self.spans@ }
    }
}

impl BufferLine {
    #[verifier::type_invariant]
    spec fn inv(self) -> bool {
        acceptable(text_bytes(self.text@), self.spans@)
    }

    /// The ending of the line, as the enum names it.
    pub closed spec fn spec_ending(self) -> LineEnding {
        self.ending
    }

    /// The characters of the line.
    pub closed spec fn spec_text(self) -> Seq<char> {
        self.text@
    }

    /// Makes a line, or nothing where the ranges are not acceptable.
    pub fn new(text: String, ending: LineEnding, spans: Vec<AttrSpan>) -> (line: Option<BufferLine>)
        ensures
            line is Some <==> acceptable(text_bytes(text@), spans@),
            line matches Some(l) ==> {
                &&& l@.text == text_bytes(text@)
                &&& l@.ending == ending.bytes()
                &&& l@.spans == spans@
                &&& l.spec_ending() == ending
                &&& l.spec_text() == text@
            },
    {
        let len = byte_len(text.as_str());
        let ghost bytes = text_bytes(text@);
        let mut j: usize = 0;
        let mut floor: usize = 0;
        while j < spans.len()
            invariant
                0 <= j <= spans.len(),
                len == bytes.len(),
                bytes == text_bytes(text@),
                j > 0 ==> floor == spans[j - 1].end,
                forall|i: int|
                    0 <= i < j ==> (#[trigger] spans[i]).start < spans[i].end <= bytes.len(),
                forall|i: int| 0 <= i < j - 1 ==> (#[trigger] spans[i]).end <= spans[i + 1].start,
                forall|i: int|
                    0 <= i < j ==> is_cut(bytes, (#[trigger] spans[i]).start as int) && is_cut(
                        bytes,
                        spans[i].end as int,
                    ),
            decreases spans.len() - j,
        {
            let span = spans[j];
            let ordered = span.start < span.end && span.end <= len && (j == 0 || floor
                <= span.start);
            if !ordered || !can_cut(text.as_str(), span.start) || !can_cut(
                text.as_str(),
                span.end,
            ) {
                proof {
                    if j > 0 && floor > span.start {
                        assert(spans@[j - 1].end > spans@[j - 1 + 1].start);
                    }
                    assert(spans@[j as int] == span);
                    assert(!acceptable(bytes, spans@));
                }
                return None;
            }
            floor = span.end;
            j += 1;
        }
        Some(BufferLine { text, ending, spans })
    }

    /// The text of the line, without its ending.
    pub fn text(&self) -> (text: &str)
        ensures
            text_bytes(text@) == self@.text,
            text@ == self.spec_text(),
    {
        self.text.as_str()
    }

    /// The ending of the line.
    pub fn ending(&self) -> (ending: LineEnding)
        ensures
            ending.bytes() == self@.ending,
            ending == self.spec_ending(),
    {
        self.ending
    }

    /// The attribute ranges of the line. They are always well-formed.
    pub fn spans(&self) -> (spans: &Vec<AttrSpan>)
        ensures
            spans@ == self@.spans,
            self@.wf(),
            self@.on_cuts(),
    {
        proof {
            use_type_invariant(self);
        }
        &self.spans
    }

    /// The tag of the range that holds byte `index`, if a range holds it.
    pub fn styled_span(&self, index: usize) -> (tag: Option<usize>)
        ensures
            tag == self@.styled_at(index as int),
    {
        proof {
            use_type_invariant(self);
        }
        let mut j: usize = 0;
        while j < self.spans.len()
            invariant
                0 <= j <= self.spans.len(),
                self@.spans == self.spans@,
                self@.wf(),
                forall|i: int| 0 <= i < j ==> !self@.holds(i, index as int),
            decreases self.spans.len() - j,
        {
            let span = self.spans[j];
            if span.start <= index && index < span.end {
                proof {
                    let line = self@;
                    assert(line.holds(j as int, index as int));
                    let c = choose|c: int| line.holds(c, index as int);
                    lemma_holder_unique(line, c, j as int, index as int);
                }
                return Some(span.metadata);
            }
            j += 1;
        }
        None
    }

    /// The tag of the range that holds byte `index`, or `0` where no range
    /// holds it.
    pub fn get_span(&self, index: usize) -> (tag: usize)
        ensures
            tag == self@.tag_at(index as int),
    {
        match self.styled_span(index) {
            Some(tag) => tag,
            None => 0,
        }
    }
}

/// The views of a list of lines.
pub open spec fn lines_view(lines: Seq<BufferLine>) -> Seq<LineView> {
    Seq::new(lines.len(), |i: int| lines[i]@)
}

} // verus!
