use bevy_text_span_entities::buffer::{AttrSpan, BufferLine, LineEnding};
use bevy_text_span_entities::reconcile::reconcile;
use bevy_text_span_entities::span::{TextSection, TextStyle};

fn range(start: usize, end: usize, metadata: usize) -> AttrSpan {
    AttrSpan { start, end, metadata }
}

fn line(text: &str, ending: LineEnding, spans: Vec<AttrSpan>) -> BufferLine {
    BufferLine::new(text.to_string(), ending, spans).unwrap()
}

fn style(font: u64) -> TextStyle {
    TextStyle { font, ..Default::default() }
}

fn sections(texts: &[&str]) -> Vec<TextSection> {
    texts.iter().enumerate().map(|(i, t)| TextSection::new(t, style(i as u64))).collect()
}

fn values(sections: &[TextSection]) -> Vec<&str> {
    sections.iter().map(|s| s.value.as_str()).collect()
}

#[test]
fn an_untouched_buffer_gives_the_spans_back() {
    let lines = vec![line(
        "Hello, World!",
        LineEnding::Unterminated,
        vec![range(0, 7, 0), range(7, 12, 1), range(12, 13, 2)],
    )];
    let mut spans = sections(&["Hello, ", "World", "!"]);
    reconcile(&lines, &mut spans);
    assert_eq!(spans, sections(&["Hello, ", "World", "!"]));
}

#[test]
fn gaps_go_to_the_range_behind_them_and_the_tail_to_the_last() {
    // 21 bytes with the ranges 2..7, 9..12, 12..13, 13..16 and 17..19.
    let lines = vec![line(
        "abcdefghijklmnopqrstu",
        LineEnding::Unterminated,
        vec![range(2, 7, 0), range(9, 12, 1), range(12, 13, 2), range(13, 16, 3), range(17, 19, 4)],
    )];
    let mut spans = sections(&["", "", "", "", ""]);
    reconcile(&lines, &mut spans);
    assert_eq!(values(&spans), vec!["abcdefg", "hijkl", "m", "nop", "qrstu"]);
}

#[test]
fn an_insertion_at_a_boundary_lands_on_the_side_the_ranges_say() {
    // "X" between "Hello, " and "World", left untagged by the buffer: it
    // goes with the range behind it.
    let untagged = vec![line(
        "Hello, XWorld!",
        LineEnding::Unterminated,
        vec![range(0, 7, 0), range(8, 13, 1), range(13, 14, 2)],
    )];
    let mut spans = sections(&["Hello, ", "World", "!"]);
    reconcile(&untagged, &mut spans);
    assert_eq!(spans, sections(&["Hello, ", "XWorld", "!"]));

    // The same insertion, tagged by the buffer like the byte before it.
    let tagged = vec![line(
        "Hello, XWorld!",
        LineEnding::Unterminated,
        vec![range(0, 8, 0), range(8, 13, 1), range(13, 14, 2)],
    )];
    let mut spans = sections(&["Hello, ", "World", "!"]);
    reconcile(&tagged, &mut spans);
    assert_eq!(spans, sections(&["Hello, X", "World", "!"]));
}

#[test]
fn an_insertion_inside_a_range_changes_that_span_only() {
    let lines = vec![line(
        "Hello, WoXrld!",
        LineEnding::Unterminated,
        vec![range(0, 7, 0), range(7, 13, 1), range(13, 14, 2)],
    )];
    let mut spans = sections(&["Hello, ", "World", "!"]);
    reconcile(&lines, &mut spans);
    assert_eq!(spans, sections(&["Hello, ", "WoXrld", "!"]));
}

#[test]
fn a_span_without_bytes_is_removed() {
    let lines = vec![line(
        "Hello, !",
        LineEnding::Unterminated,
        vec![range(0, 7, 0), range(7, 8, 2)],
    )];
    let mut spans = sections(&["Hello, ", "World", "!"]);
    reconcile(&lines, &mut spans);
    assert_eq!(
        spans,
        vec![TextSection::new("Hello, ", style(0)), TextSection::new("!", style(2))]
    );
}

#[test]
fn the_last_span_is_emptied_not_removed() {
    let lines = vec![line("", LineEnding::Unterminated, vec![])];
    let mut spans = sections(&["Hello, ", "World", "!"]);
    reconcile(&lines, &mut spans);
    assert_eq!(spans, vec![TextSection::new("", style(0))]);

    let mut one = sections(&["only"]);
    reconcile(&Vec::new(), &mut one);
    assert_eq!(one, vec![TextSection::new("", style(0))]);
}

#[test]
fn when_one_span_is_left_it_keeps_its_bytes() {
    let lines = vec![line("rl", LineEnding::Unterminated, vec![range(0, 2, 1)])];
    let mut spans = sections(&["Hello, ", "World", "!"]);
    reconcile(&lines, &mut spans);
    assert_eq!(spans, vec![TextSection::new("rl", style(1))]);
}

#[test]
fn no_spans_stay_no_spans() {
    let lines = vec![line("text", LineEnding::Lf, vec![range(0, 4, 0)])];
    let mut spans: Vec<TextSection> = Vec::new();
    reconcile(&lines, &mut spans);
    assert!(spans.is_empty());
}

#[test]
fn a_line_without_ranges_goes_to_the_first_span() {
    let lines = vec![
        line("plain", LineEnding::Lf, vec![]),
        line("styled", LineEnding::Unterminated, vec![range(0, 6, 1)]),
    ];
    let mut spans = sections(&["", ""]);
    reconcile(&lines, &mut spans);
    assert_eq!(values(&spans), vec!["plain\n", "styled"]);
}

#[test]
fn the_ending_goes_to_the_last_chunk_of_its_line() {
    let lines = vec![
        line("ab", LineEnding::Lf, vec![range(0, 1, 0), range(1, 2, 1)]),
        line("cd", LineEnding::CrLf, vec![range(0, 1, 1)]),
        line("ef", LineEnding::Cr, vec![range(0, 2, 0)]),
        line("gh", LineEnding::LfCr, vec![range(1, 2, 2)]),
        line("ij", LineEnding::Unterminated, vec![range(0, 2, 2)]),
    ];
    let mut spans = sections(&["", "", ""]);
    reconcile(&lines, &mut spans);
    assert_eq!(values(&spans), vec!["aef\r", "b\ncd\r\n", "gh\n\rij"]);
}

#[test]
fn the_ending_of_an_empty_line_is_dropped() {
    let lines = vec![
        line("a", LineEnding::Lf, vec![range(0, 1, 0)]),
        line("", LineEnding::Lf, vec![]),
        line("b", LineEnding::Unterminated, vec![range(0, 1, 0)]),
    ];
    let mut spans = sections(&["a\n\nb"]);
    reconcile(&lines, &mut spans);
    assert_eq!(values(&spans), vec!["a\nb"]);
}

#[test]
fn chunks_for_spans_that_do_not_exist_are_dropped() {
    let lines = vec![line(
        "keepdrop",
        LineEnding::Lf,
        vec![range(0, 4, 0), range(4, 8, 5)],
    )];
    let mut spans = sections(&["", "gone"]);
    reconcile(&lines, &mut spans);
    assert_eq!(spans, vec![TextSection::new("keep", style(0))]);
}

#[test]
fn a_span_may_own_several_ranges() {
    let lines = vec![
        line("aXbYc", LineEnding::Lf, vec![range(0, 1, 0), range(1, 2, 1), range(2, 3, 0), range(3, 4, 1), range(4, 5, 0)]),
        line("Z", LineEnding::Unterminated, vec![range(0, 1, 1)]),
    ];
    let mut spans = sections(&["", ""]);
    reconcile(&lines, &mut spans);
    assert_eq!(values(&spans), vec!["abc\n", "XYZ"]);
}

#[test]
fn multi_byte_text_is_cut_between_characters() {
    // "héllo wörld": é and ö take two bytes each.
    let lines = vec![line(
        "héllo wörld",
        LineEnding::Unterminated,
        vec![range(0, 3, 0), range(7, 13, 1)],
    )];
    let mut spans = sections(&["", ""]);
    reconcile(&lines, &mut spans);
    assert_eq!(values(&spans), vec!["hé", "llo wörld"]);
}

#[test]
fn styles_stay_with_their_spans() {
    let lines = vec![line("bc", LineEnding::Unterminated, vec![range(0, 1, 1), range(1, 2, 2)])];
    let mut spans = vec![
        TextSection::new("a", TextStyle { font: 9, font_size: 1, color: 2 }),
        TextSection::new("b", TextStyle { font: 8, font_size: 3, color: 4 }),
        TextSection::new("c", TextStyle { font: 7, font_size: 5, color: 6 }),
    ];
    reconcile(&lines, &mut spans);
    assert_eq!(
        spans,
        vec![
            TextSection::new("b", TextStyle { font: 8, font_size: 3, color: 4 }),
            TextSection::new("c", TextStyle { font: 7, font_size: 5, color: 6 }),
        ]
    );
}

#[test]
fn lines_refuse_ranges_that_are_out_of_order() {
    let make = |spans| BufferLine::new("hello".to_string(), LineEnding::Lf, spans);
    assert!(make(vec![]).is_some());
    assert!(make(vec![range(0, 5, 0)]).is_some());
    assert!(make(vec![range(0, 2, 0), range(2, 5, 1)]).is_some());
    assert!(make(vec![range(0, 2, 0), range(3, 5, 1)]).is_some());
    // Empty, reversed, past the end, overlapping, out of order.
    assert!(make(vec![range(2, 2, 0)]).is_none());
    assert!(make(vec![range(3, 2, 0)]).is_none());
    assert!(make(vec![range(0, 6, 0)]).is_none());
    assert!(make(vec![range(0, 3, 0), range(2, 5, 1)]).is_none());
    assert!(make(vec![range(3, 5, 0), range(0, 2, 1)]).is_none());
}

#[test]
fn lines_refuse_ranges_that_split_a_character() {
    let make = |spans| BufferLine::new("né".to_string(), LineEnding::Lf, spans);
    assert!(make(vec![range(0, 1, 0), range(1, 3, 1)]).is_some());
    assert!(make(vec![range(0, 2, 0)]).is_none());
    assert!(make(vec![range(2, 3, 0)]).is_none());
}

#[test]
fn lines_give_back_what_they_were_made_of() {
    let l = line("héllo", LineEnding::CrLf, vec![range(0, 3, 4)]);
    assert_eq!(l.text(), "héllo");
    assert_eq!(l.ending(), LineEnding::CrLf);
    assert_eq!(l.spans(), &vec![range(0, 3, 4)]);
}

#[test]
fn endings_spell_their_characters() {
    assert_eq!(LineEnding::Lf.as_str(), "\n");
    assert_eq!(LineEnding::CrLf.as_str(), "\r\n");
    assert_eq!(LineEnding::Cr.as_str(), "\r");
    assert_eq!(LineEnding::LfCr.as_str(), "\n\r");
    assert_eq!(LineEnding::Unterminated.as_str(), "");
}
