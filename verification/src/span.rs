//! The data a span carries: a run of text and the style it is drawn in.

use vstd::prelude::*;
use crate::strings::{lemma_text_bytes_empty, text_bytes};

verus! {

/// How a run of text is drawn.
///
/// The record is carried from a span into the flat text of its aggregate and
/// never interpreted here. Sizes are fixed-point numbers with six fractional
/// bits, the colour is packed as `0xRRGGBBAA`.
#[derive(Clone, Copy, Debug, PartialEq, Eq, Structural)]
pub struct TextStyle {
    /// Identifies the font face; `0` is the default face.
    pub font: u64,
    /// Font size in sixty-fourths of a layout unit.
    pub font_size: u32,
    /// Packed colour, one byte each for red, green, blue and alpha.
    pub color: u32,
}

/// Font size of a span that does not name one: twenty layout units.
pub const DEFAULT_FONT_SIZE: u32 = 1280;

/// Colour of a span that does not name one: opaque white.
pub const DEFAULT_COLOR: u32 = 0xFFFF_FFFF;

impl TextStyle {
    /// The style every span starts from.
    pub open spec fn spec_default() -> TextStyle {
        TextStyle { font: 0, font_size: DEFAULT_FONT_SIZE, color: DEFAULT_COLOR }
    }
}

impl Default for TextStyle {
    fn default() -> (style: TextStyle)
        ensures
            style == TextStyle::spec_default(),
    {
        TextStyle { font: 0, font_size: DEFAULT_FONT_SIZE, color: DEFAULT_COLOR }
    }
}

/// What a section holds, as mathematics: the UTF-8 bytes of its text and its
/// style.
pub struct SectionView {
    /// The bytes of the text.
    pub text: Seq<u8>,
    /// The style the text is drawn in.
    pub style: TextStyle,
}

/// A run of text with one style.
#[derive(Debug, PartialEq, Eq)]
pub struct TextSection {
    /// The text.
    pub value: String,
    /// The style the text is drawn in.
    pub style: TextStyle,
}

impl View for TextSection {
    type V = SectionView;

    open spec fn view(&self) -> SectionView {
        SectionView { text: text_bytes(self.value@), style: self.style }
    }
}

impl TextSection {
    /// A section with the given text and style.
    pub fn new(value: &str, style: TextStyle) -> (section: TextSection)
        ensures
            section.value@ == value@,
            section.style == style,
            section@ == (SectionView { text: text_bytes(value@), style }),
    {
        TextSection { value: value.to_owned(), style }
    }
}

impl Clone for TextSection {
    fn clone(&self) -> (copy: TextSection)
        ensures
            copy.value@ == self.value@,
            copy.style == self.style,
            copy@ == self@,
    {
        TextSection { value: self.value.clone(), style: self.style }
    }
}

impl Default for TextSection {
    fn default() -> (section: TextSection)
        ensures
            section.value@ == Seq::<char>::empty(),
            section.style == TextStyle::spec_default(),
            section@ == (SectionView { text: Seq::empty(), style: TextStyle::spec_default() }),
    {
        proof {
            lemma_text_bytes_empty();
        }
        TextSection { value: String::new(), style: TextStyle::default() }
    }
}

/// The views of a list of sections.
pub open spec fn sections_view(sections: Seq<TextSection>) -> Seq<SectionView> {
    Seq::new(sections.len(), |i: int| sections[i]@)
}

/// Marks an entity as an aggregate: its text is assembled from the spans
/// below it.
#[derive(Clone, Copy, Debug, Default, PartialEq, Eq)]
pub struct TextSpans;

/// Marks an entity as a span and holds what the span contributes.
#[derive(Debug, PartialEq, Eq)]
pub struct TextSpan(pub TextSection);

impl View for TextSpan {
    type V = SectionView;

    open spec fn view(&self) -> SectionView {
        self.0@
    }
}

impl Clone for TextSpan {
    fn clone(&self) -> (copy: TextSpan)
        ensures
            copy@ == self@,
    {
        TextSpan(self.0.clone())
    }
}

impl Default for TextSpan {
    fn default() -> (span: TextSpan)
        ensures
            span@ == (SectionView { text: Seq::empty(), style: TextStyle::spec_default() }),
    {
        TextSpan(TextSection::default())
    }
}

} // verus!
