//! What a shaping buffer reports of a laid-out line.
//!
//! Horizontal places and widths are fixed-point numbers, an integer count of
//! sixty-fourths of a layout unit, measured from the left edge of the buffer.

use vstd::prelude::*;
use crate::strings::{byte_len, can_cut, is_cut, text_bytes};

verus! {

/// One glyph of a laid-out line: the bytes `start..end` of the line's text
/// drawn as one shape.
#[derive(Clone, Copy, Debug, PartialEq, Eq, Structural)]
pub struct LayoutGlyph {
    /// First byte that the glyph draws.
    pub start: usize,
    /// One past the last byte that the glyph draws.
    pub end: usize,
    /// Left edge of the glyph.
    pub x: i32,
    /// Width of the glyph.
    pub w: i32,
    /// Whether the glyph is read from right to left.
    pub rtl: bool,
}

/// A laid-out line, as mathematics.
pub struct RunView {
    /// Index of the buffer line that the run shows.
    pub line_i: usize,
    /// The bytes of that line.
    pub text: Seq<u8>,
    /// Whether the run as a whole is read from right to left.
    pub rtl: bool,
    /// The glyphs from left to right.
    pub glyphs: Seq<LayoutGlyph>,
    /// Top edge of the run.
    pub line_top: i32,
    /// Height of the run.
    pub line_height: i32,
}

/// Every glyph draws a stretch of the text that begins and ends between two
/// characters.
pub open spec fn glyphs_fit(bytes: Seq<u8>, glyphs: Seq<LayoutGlyph>) -> bool {
    forall|i: int|
        0 <= i < glyphs.len() ==> {
            &&& (#[trigger] glyphs[i]).start <= glyphs[i].end
            &&& is_cut(bytes, glyphs[i].start as int)
            &&& is_cut(bytes, glyphs[i].end as int)
        }
}

/// A laid-out line.
///
/// A value of this type always holds glyphs that fit its text:
/// [`LayoutRun::new`] refuses anything else.
#[derive(Debug)]
pub struct LayoutRun {
    line_i: usize,
    text: String,
    rtl: bool,
    glyphs: Vec<LayoutGlyph>,
    line_top: i32,
    line_height: i32,
}

impl View for LayoutRun {
    type V = RunView;

    closed spec fn view(&self) -> RunView {
        RunView {
            line_i: self.line_i,
            text: text_bytes(self.text@),
            rtl: self.rtl,
            glyphs: self.glyphs@,
            line_top: self.line_top,
            line_height: self.line_height,
        }
    }
}

impl LayoutRun {
    #[verifier::type_invariant]
    spec fn inv(self) -> bool {
        glyphs_fit(text_bytes(self.text@), self.glyphs@)
    }

    /// Makes a run, or nothing where a glyph does not fit the text.
    pub fn new(
        line_i: usize,
        text: String,
        rtl: bool,
        glyphs: Vec<LayoutGlyph>,
        line_top: i32,
        line_height: i32,
    ) -> (run: Option<LayoutRun>)
        ensures
            run is Some <==> glyphs_fit(text_bytes(text@), glyphs@),
            run matches Some(r) ==> r@ == (RunView {
                line_i,
                text: text_bytes(text@),
                rtl,
                glyphs: glyphs@,
                line_top,
                line_height,
            }),
    {
        let mut i: usize = 0;
        while i < glyphs.len()
            invariant
                0 <= i <= glyphs.len(),
                forall|k: int|
                    0 <= k < i ==> {
                        &&& (#[trigger] glyphs[k]).start <= glyphs[k].end
                        &&& is_cut(text_bytes(text@), glyphs[k].start as int)
                        &&& is_cut(text_bytes(text@), glyphs[k].end as int)
                    },
            decreases glyphs.len() - i,
        {
            let glyph = glyphs[i];
            if glyph.start > glyph.end || !can_cut(text.as_str(), glyph.start) || !can_cut(
                text.as_str(),
                glyph.end,
            ) {
                assert(glyphs@[i as int] == glyph);
                return None;
            }
            i += 1;
        }
        Some(LayoutRun { line_i, text, rtl, glyphs, line_top, line_height })
    }

    /// Index of the buffer line that the run shows.
    pub fn line_i(&self) -> (line_i: usize)
        ensures
            line_i == self@.line_i,
    {
        self.line_i
    }

    /// The text of the line.
    pub fn text(&self) -> (text: &str)
        ensures
            text_bytes(text@) == self@.text,
    {
        self.text.as_str()
    }

    /// Whether the run is read from right to left.
    pub fn rtl(&self) -> (rtl: bool)
        ensures
            rtl == self@.rtl,
    {
        self.rtl
    }

    /// The glyphs of the run. They always fit its text.
    pub fn glyphs(&self) -> (glyphs: &Vec<LayoutGlyph>)
        ensures
            glyphs@ == self@.glyphs,
            glyphs_fit(self@.text, self@.glyphs),
    {
        proof {
            use_type_invariant(self);
        }
        &self.glyphs
    }

    /// Top edge of the run.
    pub fn line_top(&self) -> (line_top: i32)
        ensures
            line_top == self@.line_top,
    {
        self.line_top
    }

    /// Height of the run.
    pub fn line_height(&self) -> (line_height: i32)
        ensures
            line_height == self@.line_height,
    {
        self.line_height
    }

    /// Number of bytes in the text of the line.
    pub fn text_len(&self) -> (len: usize)
        ensures
            len == self@.text.len(),
    {
        byte_len(self.text.as_str())
    }
}

} // verus!
