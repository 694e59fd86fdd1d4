//! Rebuilding the text of every span from the lines of an edited buffer.
//!
//! An edit changes the buffer, not the spans. Afterwards each line is cut
//! into chunks, one for each attribute range: a chunk begins where the range
//! before it ended (at the start of the line for the first range), so that
//! untagged bytes in front of a range go with that range. The chunk of the
//! last range runs to the end of the line and takes the line ending with it.
//! A line without ranges is one chunk for span `0`, unless it is empty; the
//! ending of an empty line belongs to nobody and is dropped.
//!
//! The new text of span `k` is all chunks tagged `k`, in buffer order. A span
//! that no chunk names is removed, but the last span is never removed: it is
//! emptied instead.

use vstd::prelude::*;
use crate::buffer::{lines_view, BufferLine, LineView};
use crate::span::{sections_view, SectionView, TextSection};
use crate::strings::{
    byte_len, is_cut, lemma_ends_are_cuts, lemma_text_bytes_empty, push_text, substring, text_bytes,
};

verus! {

impl LineView {
    /// Number of chunks that the line is cut into.
    pub open spec fn chunk_count(self) -> nat {
        if self.spans.len() == 0 {
            if self.text.len() > 0 {
                1
            } else {
                0
            }
        } else {
            self.spans.len()
        }
    }

    /// The span that chunk `j` goes to.
    pub open spec fn chunk_tag(self, j: int) -> int {
        if self.spans.len() == 0 {
            0
        } else {
            self.spans[j].metadata as int
        }
    }

    /// First byte of chunk `j`.
    pub open spec fn chunk_start(self, j: int) -> int {
        if j == 0 {
            0
        } else {
            self.spans[j - 1].end as int
        }
    }

    /// One past the last byte of chunk `j`, the ending not counted.
    pub open spec fn chunk_end(self, j: int) -> int {
        if j + 1 >= self.chunk_count() {
            self.text.len() as int
        } else {
            self.spans[j].end as int
        }
    }

    /// The bytes of chunk `j`: its part of the text and, for the last chunk,
    /// the line ending.
    pub open spec fn chunk(self, j: int) -> Seq<u8> {
        let part = self.text.subrange(self.chunk_start(j), self.chunk_end(j));
        if j + 1 == self.chunk_count() {
            part + self.ending
        } else {
            part
        }
    }
}

/// What the first `upto` chunks of `line` give to span `tag`.
pub open spec fn line_gather(line: LineView, tag: int, upto: nat) -> Seq<u8>
    decreases upto,
{
    if upto == 0 {
        Seq::empty()
    } else {
        let before = line_gather(line, tag, (upto - 1) as nat);
        if line.chunk_tag(upto - 1) == tag {
            before + line.chunk(upto - 1)
        } else {
            before
        }
    }
}

/// Whether one of the first `upto` chunks of `line` goes to span `tag`.
pub open spec fn line_touches(line: LineView, tag: int, upto: nat) -> bool
    decreases upto,
{
    upto > 0 && (line.chunk_tag(upto - 1) == tag || line_touches(line, tag, (upto - 1) as nat))
}

/// What the first `upto` lines give to span `tag`.
pub open spec fn gather(lines: Seq<LineView>, tag: int, upto: nat) -> Seq<u8>
    decreases upto,
{
    if upto == 0 {
        Seq::empty()
    } else {
        let line = lines[upto - 1];
        gather(lines, tag, (upto - 1) as nat) + line_gather(line, tag, line.chunk_count())
    }
}

/// Whether a chunk of the first `upto` lines goes to span `tag`.
pub open spec fn touched(lines: Seq<LineView>, tag: int, upto: nat) -> bool
    decreases upto,
{
    upto > 0 && (line_touches(lines[upto - 1], tag, lines[upto - 1].chunk_count()) || touched(
        lines,
        tag,
        (upto - 1) as nat,
    ))
}

/// The new text of span `tag`: all that the buffer gives to it.
pub open spec fn span_text(lines: Seq<LineView>, tag: int) -> Seq<u8> {
    gather(lines, tag, lines.len())
}

/// Whether span `tag` has any part in the buffer.
pub open spec fn span_alive(lines: Seq<LineView>, tag: int) -> bool {
    touched(lines, tag, lines.len())
}

/// The first `upto` spans, without those that have no part in the buffer
/// and with their new texts.
pub open spec fn kept(lines: Seq<LineView>, spans: Seq<SectionView>, upto: nat) -> Seq<
    SectionView,
>
    decreases upto,
{
    if upto == 0 {
        Seq::empty()
    } else {
        let before = kept(lines, spans, (upto - 1) as nat);
        if span_alive(lines, upto - 1) {
            before.push(
                SectionView { text: span_text(lines, upto - 1), style: spans[upto - 1].style },
            )
        } else {
            before
        }
    }
}

/// The spans after reconciling them with the buffer.
///
/// The spans that have a part in the buffer stay, in their order, with their
/// new texts and their old styles. Where none stays, the first span is kept
/// with an empty text.
pub open spec fn reconciled(lines: Seq<LineView>, spans: Seq<SectionView>) -> Seq<SectionView> {
    let stay = kept(lines, spans, spans.len());
    if spans.len() > 0 && stay.len() == 0 {
        seq![SectionView { text: Seq::empty(), style: spans[0].style }]
    } else {
        stay
    }
}

/// The texts gathered so far: slot `k` holds what the first `upto` lines
/// give to span `k`.
spec fn gathered_upto(
    texts: Seq<String>,
    alive: Seq<bool>,
    lines: Seq<LineView>,
    upto: nat,
) -> bool {
    &&& texts.len() == alive.len()
    &&& forall|k: int|
        0 <= k < texts.len() ==> text_bytes((#[trigger] texts[k])@) == gather(lines, k, upto)
    &&& forall|k: int| 0 <= k < alive.len() ==> (#[trigger] alive[k]) == touched(lines, k, upto)
}

/// Hands the chunks of one line to the spans they are tagged with. Chunks
/// tagged with a span that does not exist are dropped.
fn gather_line(line: &BufferLine, texts: &mut Vec<String>, alive: &mut Vec<bool>)
    requires
        old(texts).len() == old(alive).len(),
    ensures
        final(texts).len() == old(texts).len(),
        final(alive).len() == old(alive).len(),
        forall|k: int|
            0 <= k < old(texts).len() ==> text_bytes((#[trigger] final(texts)[k])@) == text_bytes(
                old(texts)[k]@,
            ) + line_gather(line@, k, line@.chunk_count()),
        forall|k: int|
            0 <= k < old(alive).len() ==> (#[trigger] final(alive)[k]) == (old(alive)[k]
                || line_touches(line@, k, line@.chunk_count())),
{
    let text = line.text();
    let spans = line.spans();
    let len = byte_len(text);
    let ending = line.ending();
    let count: usize = if spans.len() == 0 {
        if len > 0 {
            1
        } else {
            0
        }
    } else {
        spans.len()
    };
    let ghost view = line@;
    proof {
        lemma_ends_are_cuts(text@);
    }
    let mut j: usize = 0;
    let mut pos: usize = 0;
    while j < count
        invariant
            0 <= j <= count,
            count == view.chunk_count(),
            view == line@,
            view.wf(),
            view.on_cuts(),
            view.text == text_bytes(text@),
            view.ending == ending.bytes(),
            view.spans == spans@,
            len == view.text.len(),
            is_cut(view.text, 0),
            is_cut(view.text, len as int),
            j < count ==> pos == view.chunk_start(j as int),
            texts.len() == old(texts).len(),
            alive.len() == old(alive).len(),
            texts.len() == alive.len(),
            forall|k: int|
                0 <= k < texts.len() ==> text_bytes((#[trigger] texts[k])@) == text_bytes(
                    old(texts)[k]@,
                ) + line_gather(view, k, j as nat),
            forall|k: int|
                0 <= k < alive.len() ==> (#[trigger] alive[k]) == (old(alive)[k] || line_touches(
                    view,
                    k,
                    j as nat,
                )),
        decreases count - j,
    {
        let last = j + 1 == count;
        let tag: usize = if spans.len() == 0 {
            0
        } else {
            spans[j].metadata
        };
        let end: usize = if last {
            len
        } else {
            spans[j].end
        };
        proof {
            if j > 0 {
                assert(view.spans[j - 1].start < view.spans[j - 1].end);
                assert(view.spans[j - 1].end <= view.spans[j - 1 + 1].start);
            }
            if !last {
                assert(view.spans[j as int].start < view.spans[j as int].end);
            }
            assert(pos <= end);
        }
        if tag < texts.len() {
            let piece = substring(text, pos, end);
            let ghost before = texts@;
            push_text(&mut texts[tag], piece);
            if last {
                push_text(&mut texts[tag], ending.as_str());
            }
            alive.set(tag, true);
            proof {
                assert(text_bytes(texts[tag as int]@) =~= text_bytes(before[tag as int]@)
                    + view.chunk(j as int));
                assert forall|k: int| 0 <= k < texts.len() implies text_bytes(
                    (#[trigger] texts[k])@,
                ) == text_bytes(old(texts)[k]@) + line_gather(view, k, (j + 1) as nat) by {
                    if k != tag {
                        assert(texts[k] == before[k]);
                    }
                }
            }
        }
        pos = end;
        j += 1;
    }
}

/// Rewrites `sections` (the spans of an aggregate, by index) from the lines
/// of its buffer.
///
/// Each span receives the chunks that carry its index, in buffer order.
/// Spans that receive nothing are removed; if that would remove them all,
/// the first one stays and is emptied.
pub fn reconcile(lines: &Vec<BufferLine>, sections: &mut Vec<TextSection>)
    ensures
        sections_view(final(sections)@) == reconciled(
            lines_view(lines@),
            sections_view(old(sections)@),
        ),
{
    let count = sections.len();
    let ghost views = lines_view(lines@);
    let ghost spans = sections_view(sections@);
    let mut texts: Vec<String> = Vec::new();
    let mut alive: Vec<bool> = Vec::new();
    let mut k: usize = 0;
    while k < count
        invariant
            0 <= k <= count,
            texts.len() == k,
            alive.len() == k,
            forall|i: int| 0 <= i < k ==> text_bytes((#[trigger] texts[i])@) == Seq::<u8>::empty(),
            forall|i: int| 0 <= i < k ==> !(#[trigger] alive[i]),
        decreases count - k,
    {
        proof {
            lemma_text_bytes_empty();
        }
        texts.push(String::new());
        alive.push(false);
        k += 1;
    }
    let mut at: usize = 0;
    while at < lines.len()
        invariant
            0 <= at <= lines.len(),
            views == lines_view(lines@),
            texts.len() == count,
            gathered_upto(texts@, alive@, views, at as nat),
        decreases lines.len() - at,
    {
        let ghost before = texts@;
        gather_line(&lines[at], &mut texts, &mut alive);
        proof {
            assert(views[at as int] == lines[at as int]@);
            assert forall|i: int| 0 <= i < texts.len() implies text_bytes((#[trigger] texts[i])@)
                == gather(views, i, (at + 1) as nat) by {
                assert(text_bytes(before[i]@) == gather(views, i, at as nat));
            }
        }
        at += 1;
    }
    let mut out: Vec<TextSection> = Vec::new();
    let mut k: usize = 0;
    while k < count
        invariant
            0 <= k <= count,
            count == sections.len(),
            sections == old(sections),
            spans == sections_view(sections@),
            views.len() == lines.len(),
            texts.len() == count,
            alive.len() == count,
            forall|i: int|
                k <= i < count ==> text_bytes((#[trigger] texts[i])@) == span_text(views, i),
            forall|i: int| 0 <= i < count ==> (#[trigger] alive[i]) == span_alive(views, i),
            sections_view(out@) == kept(views, spans, k as nat),
        decreases count - k,
    {
        if alive[k] {
            let mut value = String::new();
            std::mem::swap(&mut value, &mut texts[k]);
            let ghost before = sections_view(out@);
            out.push(TextSection { value, style: sections[k].style });
            proof {
                assert(spans[k as int] == sections[k as int]@);
                assert(sections_view(out@) =~= before.push(
                    SectionView { text: span_text(views, k as int), style: spans[k as int].style },
                ));
            }
        }
        k += 1;
    }
    if count > 0 && out.len() == 0 {
        proof {
            lemma_text_bytes_empty();
            assert(spans[0] == sections[0]@);
        }
        out.push(TextSection { value: String::new(), style: sections[0].style });
        assert(sections_view(out@) =~= seq![
            SectionView { text: Seq::empty(), style: spans[0].style },
        ]);
    }
    *sections = out;
}

/// Reconciling never leaves an aggregate without spans.
pub proof fn lemma_never_empty(lines: Seq<LineView>, spans: Seq<SectionView>)
    requires
        spans.len() > 0,
    ensures
        reconciled(lines, spans).len() >= 1,
{
}

proof fn lemma_kept_none(lines: Seq<LineView>, spans: Seq<SectionView>, upto: nat)
    requires
        forall|k: int| 0 <= k < upto ==> !span_alive(lines, k),
    ensures
        kept(lines, spans, upto).len() == 0,
    decreases upto,
{
    if upto > 0 {
        lemma_kept_none(lines, spans, (upto - 1) as nat);
    }
}

/// Where the buffer holds nothing of any span, one span is left: the first,
/// with an empty text.
pub proof fn lemma_floor(lines: Seq<LineView>, spans: Seq<SectionView>)
    requires
        spans.len() > 0,
        forall|k: int| 0 <= k < spans.len() ==> !span_alive(lines, k),
    ensures
        reconciled(lines, spans) == seq![SectionView { text: Seq::empty(), style: spans[0].style }],
{
    lemma_kept_none(lines, spans, spans.len());
}

/// Where the buffer holds something of one span only, that span alone is
/// left, with what the buffer holds of it.
pub proof fn lemma_sole_survivor(lines: Seq<LineView>, spans: Seq<SectionView>, k: int)
    requires
        0 <= k < spans.len(),
        span_alive(lines, k),
        forall|j: int| 0 <= j < spans.len() && j != k ==> !span_alive(lines, j),
    ensures
        reconciled(lines, spans) == seq![
            SectionView { text: span_text(lines, k), style: spans[k].style },
        ],
{
    lemma_kept_none(lines, spans, k as nat);
    lemma_kept_one(lines, spans, k, spans.len());
}

proof fn lemma_kept_one(lines: Seq<LineView>, spans: Seq<SectionView>, k: int, upto: nat)
    requires
        0 <= k < upto <= spans.len(),
        span_alive(lines, k),
        forall|j: int| 0 <= j < spans.len() && j != k ==> !span_alive(lines, j),
    ensures
        kept(lines, spans, upto) == seq![
            SectionView { text: span_text(lines, k), style: spans[k].style },
        ],
    decreases upto,
{
    if upto == k + 1 {
        lemma_kept_none(lines, spans, k as nat);
        assert(kept(lines, spans, upto) =~= seq![
            SectionView { text: span_text(lines, k), style: spans[k].style },
        ]);
    } else {
        lemma_kept_one(lines, spans, k, (upto - 1) as nat);
    }
}

/// Where the buffer holds something of every span, no span is removed:
/// every span keeps its place and its style and gets its new text.
pub proof fn lemma_all_stay(lines: Seq<LineView>, spans: Seq<SectionView>, upto: nat)
    requires
        upto <= spans.len(),
        forall|k: int| 0 <= k < upto ==> span_alive(lines, k),
    ensures
        kept(lines, spans, upto).len() == upto,
        forall|k: int|
            0 <= k < upto ==> #[trigger] kept(lines, spans, upto)[k] == (SectionView {
                text: span_text(lines, k),
                style: spans[k].style,
            }),
        upto == spans.len() ==> reconciled(lines, spans) == kept(lines, spans, upto),
    decreases upto,
{
    if upto > 0 {
        lemma_all_stay(lines, spans, (upto - 1) as nat);
    }
}

/// `line` shows exactly the given spans, one range for each, in order and
/// without gaps: range `k` is tagged `k` and holds the text of span `k`,
/// and the line has no ending.
pub open spec fn shows_spans(line: LineView, spans: Seq<SectionView>) -> bool {
    &&& line.spans.len() == spans.len()
    &&& line.ending.len() == 0
    &&& spans.len() > 0 ==> line.spans[0].start == 0 && line.spans[spans.len() - 1].end
        == line.text.len()
    &&& forall|k: int|
        0 <= k < spans.len() ==> {
            &&& (#[trigger] line.spans[k]).metadata == k
            &&& line.spans[k].start < line.spans[k].end
            &&& k > 0 ==> line.spans[k - 1].end == line.spans[k].start
            &&& line.text.subrange(line.spans[k].start as int, line.spans[k].end as int)
                == spans[k].text
        }
}

proof fn lemma_shown_line_gather(line: LineView, spans: Seq<SectionView>, tag: int, upto: nat)
    requires
        shows_spans(line, spans),
        spans.len() > 0,
        0 <= tag < spans.len(),
        upto <= spans.len(),
    ensures
        line_gather(line, tag, upto) == (if upto > tag {
            spans[tag].text
        } else {
            Seq::empty()
        }),
        line_touches(line, tag, upto) == (upto > tag),
    decreases upto,
{
    if upto > 0 {
        let j = upto - 1;
        lemma_shown_line_gather(line, spans, tag, j as nat);
        assert(line.spans[j].metadata == j);
        if j == tag {
            if j > 0 {
                assert(line.spans[j - 1].end == line.spans[j].start);
            }
            assert(line.chunk(j) =~= spans[tag].text);
            assert(line_gather(line, tag, upto) =~= spans[tag].text);
        }
    }
}

/// A buffer that was not edited gives the spans back: where the buffer is
/// one line that shows the spans, none of them empty, reconciling leaves
/// them as they are.
pub proof fn lemma_untouched_gives_back(line: LineView, spans: Seq<SectionView>)
    requires
        shows_spans(line, spans),
    ensures
        reconciled(seq![line], spans) == spans,
{
    let lines = seq![line];
    if spans.len() == 0 {
        assert(reconciled(lines, spans) =~= spans);
    } else {
        assert forall|k: int| 0 <= k < spans.len() implies span_alive(lines, k) && span_text(
            lines,
            k,
        ) == spans[k].text by {
            lemma_shown_line_gather(line, spans, k, spans.len());
            assert(line.chunk_count() == spans.len());
            assert(gather(lines, k, 0) =~= Seq::<u8>::empty());
            assert(gather(lines, k, 1) =~= line_gather(line, k, line.chunk_count()));
            assert(!touched(lines, k, 0));
        }
        lemma_all_stay(lines, spans, spans.len());
        assert(reconciled(lines, spans) =~= spans);
    }
}

/// `text` with `bytes` put in at place `at`.
pub open spec fn with_insert(text: Seq<u8>, at: int, bytes: Seq<u8>) -> Seq<u8> {
    text.subrange(0, at) + bytes + text.subrange(at, text.len() as int)
}

/// `after` is `before` with `bytes` put in at byte `at`, a place inside
/// range `j`: the text has the bytes at that place, range `j` has grown by
/// them, the ranges behind it have moved by them, and all else is as it
/// was.
pub open spec fn inserted_in(
    before: LineView,
    after: LineView,
    j: int,
    at: int,
    bytes: Seq<u8>,
) -> bool {
    &&& after.text == with_insert(before.text, at, bytes)
    &&& after.ending == before.ending
    &&& after.spans.len() == before.spans.len()
    &&& forall|i: int|
        0 <= i < before.spans.len() ==> {
            &&& (#[trigger] after.spans[i]).metadata == before.spans[i].metadata
            &&& after.spans[i].start == before.spans[i].start + (if i > j {
                bytes.len()
            } else {
                0
            })
            &&& after.spans[i].end == before.spans[i].end + (if i >= j {
                bytes.len()
            } else {
                0
            })
        }
}

/// Where in the new text of its span an insertion at byte `at` of line
/// `li`, inside range `j`, comes to stand: behind all that the span has
/// from earlier lines and from earlier chunks of the line, and as far into
/// the chunk of range `j` as `at` lies behind the start of that chunk.
pub open spec fn insert_offset(lines: Seq<LineView>, li: int, j: int, at: int) -> int {
    let line = lines[li];
    let tag = line.spans[j].metadata as int;
    gather(lines, tag, li as nat).len() + line_gather(line, tag, j as nat).len() + (at
        - line.chunk_start(j))
}

proof fn lemma_insert_front(a: Seq<u8>, b: Seq<u8>, d: int, x: Seq<u8>)
    requires
        0 <= d <= b.len(),
    ensures
        with_insert(a + b, a.len() + d, x) == a + with_insert(b, d, x),
{
    assert(with_insert(a + b, a.len() + d, x) =~= a + with_insert(b, d, x));
}

proof fn lemma_insert_back(a: Seq<u8>, c: Seq<u8>, d: int, x: Seq<u8>)
    requires
        0 <= d <= a.len(),
    ensures
        with_insert(a + c, d, x) == with_insert(a, d, x) + c,
{
    assert(with_insert(a + c, d, x) =~= with_insert(a, d, x) + c);
}

/// The chunks of a line with an insertion: the chunk of the range that
/// took the insertion has the bytes at their place, every other chunk is as
/// it was, and every chunk goes to the span it went to.
proof fn lemma_insert_chunks(
    before: LineView,
    after: LineView,
    j: int,
    at: int,
    bytes: Seq<u8>,
    c: int,
)
    requires
        before.wf(),
        0 <= j < before.spans.len(),
        before.spans[j].start < at < before.spans[j].end,
        inserted_in(before, after, j, at, bytes),
        0 <= c < before.spans.len(),
    ensures
        after.chunk_count() == before.chunk_count(),
        after.chunk_tag(c) == before.chunk_tag(c),
        c != j ==> after.chunk(c) == before.chunk(c),
        c == j ==> before.chunk_start(j) <= at <= before.chunk_end(j),
        c == j ==> after.chunk(c) == with_insert(before.chunk(c), at - before.chunk_start(j), bytes),
{
    let n = bytes.len() as int;
    let count = before.spans.len() as int;
    assert(before.spans[j].start < before.spans[j].end <= before.text.len());
    assert(before.spans[c].start < before.spans[c].end <= before.text.len());
    if c > 0 {
        assert(before.spans[c - 1].start < before.spans[c - 1].end <= before.text.len());
        assert(before.spans[c - 1].end <= before.spans[c - 1 + 1].start);
    }
    assert(after.spans[c].end == before.spans[c].end + (if c >= j {
        n
    } else {
        0
    }));
    if c > 0 {
        assert(after.spans[c - 1].end == before.spans[c - 1].end + (if c - 1 >= j {
            n
        } else {
            0
        }));
    }
    if c < j {
        crate::buffer::lemma_spans_sorted(before, c, j);
        assert(after.text.subrange(after.chunk_start(c), after.chunk_end(c)) =~= before.text.subrange(
            before.chunk_start(c),
            before.chunk_end(c),
        ));
    } else if c == j {
        assert(after.text.subrange(after.chunk_start(c), after.chunk_end(c)) =~= with_insert(
            before.text.subrange(before.chunk_start(c), before.chunk_end(c)),
            at - before.chunk_start(j),
            bytes,
        ));
        if c + 1 == count {
            lemma_insert_back(
                before.text.subrange(before.chunk_start(c), before.chunk_end(c)),
                before.ending,
                at - before.chunk_start(j),
                bytes,
            );
        }
    } else {
        crate::buffer::lemma_spans_sorted(before, j, c);
        if c - 1 > j {
            crate::buffer::lemma_spans_sorted(before, j, c - 1);
        }
        assert(after.text.subrange(after.chunk_start(c), after.chunk_end(c)) =~= before.text.subrange(
            before.chunk_start(c),
            before.chunk_end(c),
        ));
    }
}

/// What a line with an insertion gives to the spans, chunk by chunk.
proof fn lemma_insert_line_gather(
    before: LineView,
    after: LineView,
    j: int,
    at: int,
    bytes: Seq<u8>,
    tag: int,
    upto: nat,
)
    requires
        before.wf(),
        0 <= j < before.spans.len(),
        before.spans[j].start < at < before.spans[j].end,
        inserted_in(before, after, j, at, bytes),
        upto <= before.spans.len(),
    ensures
        line_touches(after, tag, upto) == line_touches(before, tag, upto),
        tag != before.spans[j].metadata || upto <= j ==> line_gather(after, tag, upto)
            == line_gather(before, tag, upto),
        tag == before.spans[j].metadata && upto > j ==> line_gather(after, tag, upto)
            == with_insert(
            line_gather(before, tag, upto),
            line_gather(before, tag, j as nat).len() + (at - before.chunk_start(j)),
            bytes,
        ),
    decreases upto,
{
    if upto > 0 {
        let c = upto - 1;
        lemma_insert_line_gather(before, after, j, at, bytes, tag, c as nat);
        lemma_insert_chunks(before, after, j, at, bytes, c);
        if tag == before.spans[j].metadata && upto > j {
            let head = line_gather(before, tag, j as nat);
            let d = at - before.chunk_start(j);
            if c == j {
                lemma_insert_front(head, before.chunk(j), d, bytes);
            } else {
                let sofar = line_gather(before, tag, c as nat);
                lemma_line_gather_grows(before, tag, j as nat, c as nat);
                lemma_insert_chunks(before, after, j, at, bytes, j);
                assert(before.chunk_tag(j) == tag);
                assert(line_gather(before, tag, (j + 1) as nat) == head + before.chunk(j));
                lemma_line_gather_grows(before, tag, (j + 1) as nat, c as nat);
                assert(head.len() + d <= sofar.len());
                if before.chunk_tag(c) == tag {
                    lemma_insert_back(sofar, before.chunk(c), head.len() + d, bytes);
                }
            }
        }
    }
}

/// More chunks give no less.
proof fn lemma_line_gather_grows(line: LineView, tag: int, few: nat, many: nat)
    requires
        few <= many,
    ensures
        line_gather(line, tag, few).len() <= line_gather(line, tag, many).len(),
    decreases many,
{
    if few < many {
        lemma_line_gather_grows(line, tag, few, (many - 1) as nat);
    }
}

/// What a buffer with an insertion gives to the spans, line by line.
proof fn lemma_insert_gather(
    lines: Seq<LineView>,
    edited: Seq<LineView>,
    li: int,
    j: int,
    at: int,
    bytes: Seq<u8>,
    tag: int,
    upto: nat,
)
    requires
        0 <= li < lines.len(),
        lines[li].wf(),
        0 <= j < lines[li].spans.len(),
        lines[li].spans[j].start < at < lines[li].spans[j].end,
        edited.len() == lines.len(),
        forall|i: int| 0 <= i < lines.len() && i != li ==> edited[i] == lines[i],
        inserted_in(lines[li], edited[li], j, at, bytes),
        upto <= lines.len(),
    ensures
        touched(edited, tag, upto) == touched(lines, tag, upto),
        tag != lines[li].spans[j].metadata || upto <= li ==> gather(edited, tag, upto) == gather(
            lines,
            tag,
            upto,
        ),
        tag == lines[li].spans[j].metadata && upto > li ==> gather(edited, tag, upto)
            == with_insert(gather(lines, tag, upto), insert_offset(lines, li, j, at), bytes),
    decreases upto,
{
    if upto > 0 {
        let c = upto - 1;
        lemma_insert_gather(lines, edited, li, j, at, bytes, tag, c as nat);
        let before = lines[li];
        let after = edited[li];
        let count = before.spans.len();
        if c == li {
            lemma_insert_line_gather(before, after, j, at, bytes, tag, count);
            assert(after.chunk_count() == count);
            assert(before.chunk_count() == count);
            if tag == before.spans[j].metadata {
                let d = line_gather(before, tag, j as nat).len() + (at - before.chunk_start(j));
                lemma_line_gather_grows(before, tag, j as nat, count);
                lemma_insert_chunks(before, after, j, at, bytes, j);
                lemma_line_gather_reaches(before, tag, j, count);
                lemma_insert_front(
                    gather(lines, tag, li as nat),
                    line_gather(before, tag, count),
                    d,
                    bytes,
                );
            }
        } else if tag == before.spans[j].metadata && c > li {
            let line = lines[c];
            lemma_gather_grows(lines, tag, (li + 1) as nat, c as nat);
            lemma_line_gather_reaches(before, tag, j, count);
            assert(gather(lines, tag, (li + 1) as nat) == gather(lines, tag, li as nat)
                + line_gather(before, tag, before.chunk_count()));
            lemma_insert_back(
                gather(lines, tag, c as nat),
                line_gather(line, tag, line.chunk_count()),
                insert_offset(lines, li, j, at),
                bytes,
            );
        }
    }
}

/// The chunk of range `j` is part of what its span has from the line.
proof fn lemma_line_gather_reaches(line: LineView, tag: int, j: int, upto: nat)
    requires
        0 <= j < upto,
        line.chunk_tag(j) == tag,
    ensures
        line_gather(line, tag, j as nat).len() + line.chunk(j).len() <= line_gather(
            line,
            tag,
            upto,
        ).len(),
{
    lemma_line_gather_grows(line, tag, (j + 1) as nat, upto);
}

/// More lines give no less.
proof fn lemma_gather_grows(lines: Seq<LineView>, tag: int, few: nat, many: nat)
    requires
        few <= many,
    ensures
        gather(lines, tag, few).len() <= gather(lines, tag, many).len(),
    decreases many,
{
    if few < many {
        lemma_gather_grows(lines, tag, few, (many - 1) as nat);
    }
}

/// An insertion inside a styled range lands in the span of that range and
/// nowhere else.
///
/// Let `edited` be `lines` with `bytes` put in at byte `at` of line `li`,
/// strictly inside range `j` of that line, so not at an edge of the range.
/// Then the new text of the span that tags the range is its old new text
/// with the bytes at the matching place, the new text of every other span
/// is what it was, and the same spans have a part in the buffer.
pub proof fn lemma_insert_lands_in_span(
    lines: Seq<LineView>,
    edited: Seq<LineView>,
    li: int,
    j: int,
    at: int,
    bytes: Seq<u8>,
)
    requires
        0 <= li < lines.len(),
        lines[li].wf(),
        0 <= j < lines[li].spans.len(),
        lines[li].spans[j].start < at < lines[li].spans[j].end,
        edited.len() == lines.len(),
        forall|i: int| 0 <= i < lines.len() && i != li ==> edited[i] == lines[i],
        inserted_in(lines[li], edited[li], j, at, bytes),
    ensures
        ({
            let tag = lines[li].spans[j].metadata as int;
            let offset = insert_offset(lines, li, j, at);
            &&& 0 <= offset <= span_text(lines, tag).len()
            &&& span_text(edited, tag) == with_insert(span_text(lines, tag), offset, bytes)
            &&& forall|other: int| other != tag ==> span_text(edited, other) == span_text(lines, other)
            &&& forall|any: int| span_alive(edited, any) == span_alive(lines, any)
        }),
{
    let tag = lines[li].spans[j].metadata as int;
    let before = lines[li];
    lemma_insert_gather(lines, edited, li, j, at, bytes, tag, lines.len());
    assert forall|other: int| other != tag implies span_text(edited, other) == span_text(
        lines,
        other,
    ) by {
        lemma_insert_gather(lines, edited, li, j, at, bytes, other, lines.len());
    }
    assert forall|any: int| span_alive(edited, any) == span_alive(lines, any) by {
        lemma_insert_gather(lines, edited, li, j, at, bytes, any, lines.len());
    }
    lemma_insert_chunks(before, edited[li], j, at, bytes, j);
    lemma_line_gather_reaches(before, tag, j, before.spans.len());
    lemma_gather_grows(lines, tag, (li + 1) as nat, lines.len());
    assert(gather(lines, tag, (li + 1) as nat) == gather(lines, tag, li as nat) + line_gather(
        before,
        tag,
        before.chunk_count(),
    ));
}

/// The same for the spans of an aggregate of which none is removed: after
/// the insertion every span but the one that tags the range has the text it
/// would have had without it, and that one has the bytes at the matching
/// place.
pub proof fn lemma_insert_round_trip(
    lines: Seq<LineView>,
    edited: Seq<LineView>,
    spans: Seq<SectionView>,
    li: int,
    j: int,
    at: int,
    bytes: Seq<u8>,
)
    requires
        0 <= li < lines.len(),
        lines[li].wf(),
        0 <= j < lines[li].spans.len(),
        lines[li].spans[j].start < at < lines[li].spans[j].end,
        edited.len() == lines.len(),
        forall|i: int| 0 <= i < lines.len() && i != li ==> edited[i] == lines[i],
        inserted_in(lines[li], edited[li], j, at, bytes),
        forall|k: int| 0 <= k < spans.len() ==> span_alive(lines, k),
    ensures
        ({
            let tag = lines[li].spans[j].metadata as int;
            let was = reconciled(lines, spans);
            let now = reconciled(edited, spans);
            &&& was.len() == spans.len()
            &&& now.len() == spans.len()
            &&& forall|k: int|
                0 <= k < spans.len() && k != tag ==> #[trigger] now[k] == was[k]
            &&& 0 <= tag < spans.len() ==> now[tag].style == was[tag].style && now[tag].text
                == with_insert(was[tag].text, insert_offset(lines, li, j, at), bytes)
        }),
{
    lemma_insert_lands_in_span(lines, edited, li, j, at, bytes);
    assert forall|k: int| 0 <= k < spans.len() implies span_alive(edited, k) by {
        assert(span_alive(edited, k) == span_alive(lines, k));
    }
    lemma_all_stay(lines, spans, spans.len());
    lemma_all_stay(edited, spans, spans.len());
}

} // verus!
