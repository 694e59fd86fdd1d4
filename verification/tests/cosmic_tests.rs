use bevy_text_span_entities::buffer::{AttrSpan, BufferLine, LineEnding};
use bevy_text_span_entities::edit::Cursor;
use bevy_text_span_entities::layout::{LayoutGlyph, LayoutRun};
use bevy_text_span_entities::project::cursor_position;
use bevy_text_span_entities::reconcile::reconcile;
use bevy_text_span_entities::span::{TextSection, TextStyle};
use cosmic_text::Edit;

fn style(font: u64) -> TextStyle {
    TextStyle { font, ..Default::default() }
}

fn sections(texts: &[&str]) -> Vec<TextSection> {
    texts.iter().enumerate().map(|(i, t)| TextSection::new(t, style(i as u64))).collect()
}

/// A buffer shaped from the given spans, each tagged with its index.
fn buffer_of(fonts: &mut cosmic_text::FontSystem, spans: &[&str]) -> cosmic_text::Buffer {
    let mut buffer = cosmic_text::Buffer::new_empty(cosmic_text::Metrics::new(14.0, 20.0));
    buffer.set_size(fonts, Some(10_000.0), Some(10_000.0));
    let tagged = spans.iter().enumerate().map(|(i, text)| {
        let shade = 10 * (i as u8 + 1);
        let attrs = cosmic_text::Attrs::new()
            .metadata(i)
            .color(cosmic_text::Color::rgb(shade, shade, shade));
        (*text, attrs)
    });
    buffer.set_rich_text(fonts, tagged, cosmic_text::Attrs::new(), cosmic_text::Shaping::Advanced);
    buffer
}

fn ending_of(ending: cosmic_text::LineEnding) -> LineEnding {
    match ending {
        cosmic_text::LineEnding::Lf => LineEnding::Lf,
        cosmic_text::LineEnding::CrLf => LineEnding::CrLf,
        cosmic_text::LineEnding::Cr => LineEnding::Cr,
        cosmic_text::LineEnding::LfCr => LineEnding::LfCr,
        cosmic_text::LineEnding::None => LineEnding::Unterminated,
    }
}

fn lines_of(buffer: &cosmic_text::Buffer) -> Vec<BufferLine> {
    buffer
        .lines
        .iter()
        .map(|line| {
            let spans = line
                .attrs_list()
                .spans()
                .into_iter()
                .map(|(range, attrs)| AttrSpan {
                    start: range.start,
                    end: range.end,
                    metadata: attrs.metadata,
                })
                .collect();
            BufferLine::new(line.text().to_string(), ending_of(line.ending()), spans)
                .expect("the ranges of a shaping buffer are well-formed")
        })
        .collect()
}

/// Applies `actions` at `cursor` and reconciles the spans with the result.
///
/// The shaping engine ends every line it is given with a line feed, the
/// last one too, so the span that ends the text comes back with one.
fn edit(spans: &[&str], cursor: (usize, usize), actions: &[cosmic_text::Action]) -> Vec<TextSection> {
    let mut fonts = cosmic_text::FontSystem::new();
    let mut buffer = buffer_of(&mut fonts, spans);
    {
        let mut editor = cosmic_text::Editor::new(&mut buffer);
        editor.set_cursor(cosmic_text::Cursor::new(cursor.0, cursor.1));
        for action in actions {
            editor.action(&mut fonts, *action);
        }
    }
    let mut result = sections(spans);
    reconcile(&lines_of(&buffer), &mut result);
    result
}

#[test]
fn an_unedited_buffer_gives_the_spans_back() {
    let spans = ["Hello, ", "World", "!"];
    assert_eq!(edit(&spans, (0, 0), &[]), sections(&["Hello, ", "World", "!\n"]));
}

#[test]
fn an_unedited_buffer_of_several_lines_gives_the_spans_back() {
    let spans = ["Hello, ", "World!\n", "Hello, Bevy!\n", "and so on and so forth..."];
    assert_eq!(
        edit(&spans, (0, 0), &[]),
        sections(&["Hello, ", "World!\n", "Hello, Bevy!\n", "and so on and so forth...\n"])
    );
}

#[test]
fn a_character_typed_inside_a_span_lands_in_it() {
    let spans = ["Hello, ", "World", "!"];
    let typed = edit(&spans, (0, 9), &[cosmic_text::Action::Insert('X')]);
    assert_eq!(typed, sections(&["Hello, ", "WoXrld", "!\n"]));
}

#[test]
fn a_character_typed_between_two_spans_lands_in_the_first() {
    let spans = ["Hello, ", "World", "!"];
    let typed = edit(&spans, (0, 7), &[cosmic_text::Action::Insert('X')]);
    assert_eq!(typed, sections(&["Hello, X", "World", "!\n"]));
}

#[test]
fn a_character_typed_at_the_very_start_lands_in_the_first_span() {
    let spans = ["Hello, ", "World", "!"];
    let typed = edit(&spans, (0, 0), &[cosmic_text::Action::Insert('X')]);
    assert_eq!(typed, sections(&["XHello, ", "World", "!\n"]));
}

#[test]
fn a_span_deleted_to_the_last_character_is_removed() {
    let spans = ["Hello, ", "World", "!"];
    let cut = edit(&spans, (0, 13), &[cosmic_text::Action::Backspace]);
    assert_eq!(cut, sections(&["Hello, ", "World\n"]));
}

#[test]
fn deleting_everything_leaves_one_empty_span() {
    let spans = ["Hello, ", "World", "!"];
    let cut = edit(&spans, (0, 13), &[cosmic_text::Action::Backspace; 13]);
    assert_eq!(cut, vec![TextSection::new("", style(0))]);
}

#[test]
fn deleting_all_but_one_span_leaves_that_span() {
    let spans = ["Hello, ", "World", "!"];
    let mut actions = vec![cosmic_text::Action::Backspace];
    actions.extend([cosmic_text::Action::Motion(cosmic_text::Motion::Home)]);
    actions.extend([cosmic_text::Action::Delete; 7]);
    let cut = edit(&spans, (0, 13), &actions);
    assert_eq!(cut, vec![TextSection::new("World\n", style(1))]);
}

fn fixed(v: f32) -> i32 {
    (v * 64.0).round() as i32
}

#[test]
fn the_caret_stands_where_the_shaping_engine_draws_it() {
    let mut fonts = cosmic_text::FontSystem::new();
    let text = "Hello, World!";
    let mut buffer = buffer_of(&mut fonts, &["Hello, ", "World", "!"]);
    buffer.shape_until_scroll(&mut fonts, false);
    let runs: Vec<LayoutRun> = buffer
        .layout_runs()
        .map(|run| {
            let glyphs = run
                .glyphs
                .iter()
                .map(|g| LayoutGlyph {
                    start: g.start,
                    end: g.end,
                    x: fixed(g.x),
                    w: fixed(g.w),
                    rtl: g.level.is_rtl(),
                })
                .collect();
            LayoutRun::new(
                run.line_i,
                run.text.to_string(),
                run.rtl,
                glyphs,
                fixed(run.line_top),
                fixed(run.line_height),
            )
            .expect("the glyphs of a shaping buffer fit its text")
        })
        .collect();
    assert_eq!(runs.len(), 1);
    assert_eq!(runs[0].text(), text);
    assert!(!runs[0].glyphs().is_empty());
    let mut last = -1;
    for index in 0..=text.len() {
        let mut editor = cosmic_text::Editor::new(&mut buffer);
        editor.set_cursor(cosmic_text::Cursor::new(0, index));
        let theirs = editor.cursor_position().expect("the cursor is in the buffer");
        let ours = cursor_position(&Cursor::new(0, index), &runs[0]).expect("the cursor is in the run");
        assert!((ours.0 / 64 - theirs.0).abs() <= 1, "x at byte {index}: {ours:?} against {theirs:?}");
        assert_eq!(ours.1 / 64, theirs.1);
        assert!(ours.0 > last, "the caret moves right with the cursor");
        last = ours.0;
    }
}
