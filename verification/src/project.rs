//! Where the cursor and the selection are drawn.
//!
//! A glyph may draw several user-perceived characters at once. Inside such a
//! glyph a position is estimated: the glyph's width is shared out evenly
//! among its grapheme clusters. All results are in the coordinates of the
//! buffer, with the origin at its top-left corner.

use vstd::prelude::*;
use vstd::utf8::decode_utf8;
use crate::edit::{Cursor, EditorState};
use crate::grapheme::{grapheme_clusters, segment};
use crate::layout::{LayoutGlyph, LayoutRun, RunView};
use crate::strings::{lemma_text_of_bytes, substring};

verus! {

/// `part` of `total` equal shares of `width`, rounded toward zero. Nothing
/// where there are no shares.
pub open spec fn portion(width: int, part: int, total: int) -> int {
    if total <= 0 {
        0
    } else if width >= 0 {
        (width * part) / total
    } else {
        -(((-width) * part) / total)
    }
}

/// `v`, or the nearest coordinate that can be stored.
pub open spec fn saturate(v: int) -> int {
    if v < i32::MIN {
        i32::MIN as int
    } else if v > i32::MAX {
        i32::MAX as int
    } else {
        v
    }
}

proof fn lemma_portion_bounded(width: int, part: int, total: int)
    by (nonlinear_arith)
    requires
        0 <= width <= 0x8000_0000,
        0 <= part <= total <= 0xffff_ffff_ffff_ffff,
        0 < total,
    ensures
        0 <= (width * part) / total <= width,
        0 <= width * part <= 0x8000_0000 * 0xffff_ffff_ffff_ffff,
{
}

/// Shares out a width.
pub fn portion_of(width: i32, part: usize, total: usize) -> (share: i32)
    requires
        part <= total,
    ensures
        share == portion(width as int, part as int, total as int),
{
    if total == 0 {
        return 0;
    }
    if width >= 0 {
        proof {
            lemma_portion_bounded(width as int, part as int, total as int);
        }
        let product: u128 = (width as u128) * (part as u128);
        (product / (total as u128)) as i32
    } else {
        let size: u128 = (-(width as i64)) as u128;
        proof {
            lemma_portion_bounded(size as int, part as int, total as int);
        }
        let product: u128 = size * (part as u128);
        let share: i64 = (product / (total as u128)) as i64;
        (-share) as i32
    }
}

/// Adds two coordinates, stopping at the largest and the smallest one.
pub fn add_saturating(a: i32, b: i32) -> (sum: i32)
    ensures
        sum == saturate(a + b),
{
    let wide: i64 = a as i64 + b as i64;
    if wide < i32::MIN as i64 {
        i32::MIN
    } else if wide > i32::MAX as i64 {
        i32::MAX
    } else {
        wide as i32
    }
}

/// Subtracts two coordinates, stopping at the largest and the smallest one.
pub fn sub_saturating(a: i32, b: i32) -> (difference: i32)
    ensures
        difference == saturate(a - b),
{
    let wide: i64 = a as i64 - b as i64;
    if wide < i32::MIN as i64 {
        i32::MIN
    } else if wide > i32::MAX as i64 {
        i32::MAX
    } else {
        wide as i32
    }
}

/// The grapheme clusters of the text that `glyph` draws.
pub open spec fn clusters_of(run: RunView, glyph: LayoutGlyph) -> Seq<(usize, usize)> {
    grapheme_clusters(decode_utf8(run.text.subrange(glyph.start as int, glyph.end as int)))
}

/// How many of the first `upto` clusters of a glyph begin before byte
/// `index` of the line. The glyph begins at byte `start`.
pub open spec fn count_before(
    clusters: Seq<(usize, usize)>,
    start: int,
    index: int,
    upto: nat,
) -> nat
    decreases upto,
{
    if upto == 0 {
        0
    } else {
        let before = count_before(clusters, start, index, (upto - 1) as nat);
        if start + clusters[upto - 1].0 < index {
            before + 1
        } else {
            before
        }
    }
}

/// How far into `glyph` byte `index` lies: as many shares of the glyph's
/// width as clusters begin before the byte.
pub open spec fn cluster_offset(glyph: LayoutGlyph, clusters: Seq<(usize, usize)>, index: int) -> int {
    portion(
        glyph.w as int,
        count_before(clusters, glyph.start as int, index, clusters.len()) as int,
        clusters.len() as int,
    )
}

/// Estimates how far into a glyph a byte lies, given the glyph's clusters.
pub fn cluster_offset_of(glyph: &LayoutGlyph, clusters: &Vec<(usize, usize)>, index: usize) -> (offset:
    i32)
    ensures
        offset == cluster_offset(*glyph, clusters@, index as int),
{
    let total = clusters.len();
    let mut before: usize = 0;
    let mut i: usize = 0;
    while i < total
        invariant
            0 <= i <= total,
            total == clusters.len(),
            before == count_before(clusters@, glyph.start as int, index as int, i as nat),
            before <= i,
        decreases total - i,
    {
        let at: u128 = glyph.start as u128 + clusters[i].0 as u128;
        if at < index as u128 {
            before += 1;
        }
        i += 1;
    }
    portion_of(glyph.w, before, total)
}

/// Whether a cursor at byte `index` is shown at `glyph`: at its start or
/// inside it.
pub open spec fn shows(glyph: LayoutGlyph, index: int) -> bool {
    index == glyph.start || glyph.start < index < glyph.end
}

/// The first of the first `upto` glyphs that shows byte `index`.
pub open spec fn find_glyph(glyphs: Seq<LayoutGlyph>, index: int, upto: nat) -> Option<int>
    decreases upto,
{
    if upto == 0 {
        None
    } else {
        match find_glyph(glyphs, index, (upto - 1) as nat) {
            Some(i) => Some(i),
            None => if shows(glyphs[upto - 1], index) {
                Some(upto - 1)
            } else {
                None
            },
        }
    }
}

/// The glyph of `run` that `cursor` is shown at, and how far into it.
///
/// Nothing where the cursor is on another line. Else the first glyph that
/// shows the cursor, with offset zero at its start and the estimated offset
/// inside it. Where no glyph shows the cursor, the place past the last glyph
/// if the cursor is at its end; the place of the first glyph if the line is
/// empty; else nothing.
pub open spec fn cursor_glyph(cursor: Cursor, run: RunView) -> Option<(int, int)> {
    if cursor.line != run.line_i {
        None
    } else {
        match find_glyph(run.glyphs, cursor.index as int, run.glyphs.len()) {
            Some(i) => if cursor.index == run.glyphs[i].start {
                Some((i, 0))
            } else {
                Some(
                    (
                        i,
                        cluster_offset(
                            run.glyphs[i],
                            clusters_of(run, run.glyphs[i]),
                            cursor.index as int,
                        ),
                    ),
                )
            },
            None => if run.glyphs.len() == 0 {
                Some((0, 0))
            } else if cursor.index == run.glyphs.last().end {
                Some((run.glyphs.len() as int, 0))
            } else {
                None
            },
        }
    }
}

/// Segments the text that glyph `i` of `run` draws.
fn glyph_clusters(run: &LayoutRun, i: usize) -> (clusters: Vec<(usize, usize)>)
    requires
        i < run@.glyphs.len(),
    ensures
        clusters@ == clusters_of(run@, run@.glyphs[i as int]),
{
    let glyph = run.glyphs()[i];
    let part = substring(run.text(), glyph.start, glyph.end);
    proof {
        lemma_text_of_bytes(part@);
    }
    segment(part)
}

/// Finds the glyph that a cursor is shown at, and how far into it.
pub fn cursor_glyph_opt(cursor: &Cursor, run: &LayoutRun) -> (place: Option<(usize, i32)>)
    ensures
        place is Some <==> cursor_glyph(*cursor, run@) is Some,
        place matches Some((i, offset)) ==> cursor_glyph(*cursor, run@) == Some(
            (i as int, offset as int),
        ) && i <= run@.glyphs.len(),
{
    if cursor.line != run.line_i() {
        return None;
    }
    let glyphs = run.glyphs();
    let mut i: usize = 0;
    while i < glyphs.len()
        invariant
            0 <= i <= glyphs.len(),
            glyphs@ == run@.glyphs,
            cursor.line == run@.line_i,
            find_glyph(glyphs@, cursor.index as int, i as nat) is None,
        decreases glyphs.len() - i,
    {
        let glyph = glyphs[i];
        if cursor.index == glyph.start {
            proof {
                assert(find_glyph(glyphs@, cursor.index as int, (i + 1) as nat) == Some(i as int));
                lemma_find_glyph_stays(
                    glyphs@,
                    cursor.index as int,
                    (i + 1) as nat,
                    glyphs.len() as nat,
                );
            }
            return Some((i, 0));
        } else if cursor.index > glyph.start && cursor.index < glyph.end {
            proof {
                assert(find_glyph(glyphs@, cursor.index as int, (i + 1) as nat) == Some(i as int));
                lemma_find_glyph_stays(
                    glyphs@,
                    cursor.index as int,
                    (i + 1) as nat,
                    glyphs.len() as nat,
                );
            }
            let clusters = glyph_clusters(run, i);
            let offset = cluster_offset_of(&glyph, &clusters, cursor.index);
            return Some((i, offset));
        }
        i += 1;
    }
    if glyphs.len() == 0 {
        Some((0, 0))
    } else if cursor.index == glyphs[glyphs.len() - 1].end {
        Some((glyphs.len(), 0))
    } else {
        None
    }
}

/// Once a glyph that shows the byte is found, looking at more glyphs does
/// not change the answer.
proof fn lemma_find_glyph_stays(glyphs: Seq<LayoutGlyph>, index: int, upto: nat, more: nat)
    requires
        find_glyph(glyphs, index, upto) is Some,
        upto <= more,
    ensures
        find_glyph(glyphs, index, more) == find_glyph(glyphs, index, upto),
    decreases more,
{
    if more > upto {
        lemma_find_glyph_stays(glyphs, index, upto, (more - 1) as nat);
    }
}

/// Where the caret of `cursor` stands in `run`: its left edge and its top
/// edge.
///
/// Nothing where the run does not show the cursor. In a glyph read from left
/// to right the caret stands the offset after the glyph's left edge, in one
/// read from right to left the offset before its right edge. Past the last
/// glyph it stands at that glyph's far edge in reading direction, in an
/// empty line at the left edge of the buffer.
pub open spec fn caret(cursor: Cursor, run: RunView) -> Option<(int, int)> {
    match cursor_glyph(cursor, run) {
        None => None,
        Some((i, offset)) => {
            let x = if i < run.glyphs.len() {
                let glyph = run.glyphs[i];
                if glyph.rtl {
                    saturate(saturate(glyph.x + glyph.w) - offset)
                } else {
                    saturate(glyph.x + offset)
                }
            } else if run.glyphs.len() > 0 {
                let glyph = run.glyphs.last();
                if glyph.rtl {
                    glyph.x as int
                } else {
                    saturate(glyph.x + glyph.w)
                }
            } else {
                0
            };
            Some((x, run.line_top as int))
        },
    }
}

/// Computes where to draw the caret of a cursor in a run.
pub fn cursor_position(cursor: &Cursor, run: &LayoutRun) -> (place: Option<(i32, i32)>)
    ensures
        place is Some <==> caret(*cursor, run@) is Some,
        place matches Some((x, y)) ==> caret(*cursor, run@) == Some((x as int, y as int)),
{
    let (i, offset) = match cursor_glyph_opt(cursor, run) {
        Some(found) => found,
        None => {
            return None;
        },
    };
    let glyphs = run.glyphs();
    let x = if i < glyphs.len() {
        let glyph = glyphs[i];
        if glyph.rtl {
            sub_saturating(add_saturating(glyph.x, glyph.w), offset)
        } else {
            add_saturating(glyph.x, offset)
        }
    } else if glyphs.len() > 0 {
        let glyph = glyphs[glyphs.len() - 1];
        if glyph.rtl {
            glyph.x
        } else {
            add_saturating(glyph.x, glyph.w)
        }
    } else {
        0
    };
    Some((x, run.line_top()))
}

/// How far a sweep over the cells of a run has come. A cell is the share
/// of a glyph that one grapheme cluster takes.
#[derive(Clone, Copy, Debug, PartialEq, Eq, Structural)]
pub enum Sweep {
    /// No selected cell has been met.
    Before,
    /// The last cell was selected; the stretch of selected cells reaches
    /// from `min` to `max` so far.
    Inside {
        /// Left edge of the stretch.
        min: i32,
        /// Right edge of the stretch.
        max: i32,
    },
    /// The first stretch of selected cells has ended. It reaches from `min`
    /// to `max`.
    After {
        /// Left edge of the stretch.
        min: i32,
        /// Right edge of the stretch.
        max: i32,
    },
}

/// Whether the cell that shows the bytes `cell_start..cell_end` of line
/// `line_i` has a part in the selection from `start` to `end`.
pub open spec fn cell_selected(
    line_i: usize,
    start: Cursor,
    end: Cursor,
    cell_start: int,
    cell_end: int,
) -> bool {
    (start.line != line_i || cell_end > start.index) && (end.line != line_i || cell_start
        < end.index)
}

/// Left edge of the `t`-th of the `total` cells of `glyph`.
pub open spec fn cell_left(glyph: LayoutGlyph, t: int, total: int) -> i32 {
    saturate(glyph.x + portion(glyph.w as int, t, total)) as i32
}

/// Right edge of the `t`-th of the `total` cells of `glyph`.
pub open spec fn cell_right(glyph: LayoutGlyph, t: int, total: int) -> i32 {
    saturate(glyph.x + portion(glyph.w as int, t + 1, total)) as i32
}

/// The sweep after one more cell.
pub open spec fn sweep_cell(state: Sweep, selected: bool, left: i32, right: i32) -> Sweep {
    match state {
        Sweep::After { .. } => state,
        Sweep::Before => if selected {
            Sweep::Inside { min: left, max: right }
        } else {
            Sweep::Before
        },
        Sweep::Inside { min, max } => if selected {
            Sweep::Inside {
                min: if left < min {
                    left
                } else {
                    min
                },
                max: if right > max {
                    right
                } else {
                    max
                },
            }
        } else {
            Sweep::After { min, max }
        },
    }
}

/// The sweep after the first `upto` cells of `glyph`.
pub open spec fn sweep_glyph(
    state: Sweep,
    glyph: LayoutGlyph,
    clusters: Seq<(usize, usize)>,
    line_i: usize,
    start: Cursor,
    end: Cursor,
    upto: nat,
) -> Sweep
    decreases upto,
{
    if upto == 0 {
        state
    } else {
        let t = upto - 1;
        let cell_start = glyph.start + clusters[t].0;
        let cell_end = cell_start + clusters[t].1;
        sweep_cell(
            sweep_glyph(state, glyph, clusters, line_i, start, end, t as nat),
            cell_selected(line_i, start, end, cell_start, cell_end),
            cell_left(glyph, t, clusters.len() as int),
            cell_right(glyph, t, clusters.len() as int),
        )
    }
}

/// The sweep after the first `upto` glyphs of `run`.
pub open spec fn sweep_run(run: RunView, start: Cursor, end: Cursor, upto: nat) -> Sweep
    decreases upto,
{
    if upto == 0 {
        Sweep::Before
    } else {
        let glyph = run.glyphs[upto - 1];
        let clusters = clusters_of(run, glyph);
        sweep_glyph(
            sweep_run(run, start, end, (upto - 1) as nat),
            glyph,
            clusters,
            run.line_i,
            start,
            end,
            clusters.len(),
        )
    }
}

/// The width of the stretch from `min` to `max`; nothing if they are the
/// wrong way round.
pub open spec fn extent(min: int, max: int) -> int {
    if max > min {
        max - min
    } else {
        0
    }
}

/// The part of `run` to highlight for the selection with the given ends:
/// left edge, top edge and width.
///
/// Nothing where nothing is selected or the run lies outside the selected
/// lines. Else the cells of the run are swept from left to right, and the
/// first unbroken stretch of selected cells is highlighted. A stretch that
/// is still unbroken at the last cell, in a line before the last selected
/// one, is drawn on to the edge of the buffer: to the right edge, or, in a
/// run read from right to left, to the left edge. A run without glyphs
/// before the last selected line is highlighted over the whole width. The
/// width of a buffer that has none counts as zero.
pub open spec fn highlight(
    bounds: Option<(Cursor, Cursor)>,
    buffer_width: Option<i32>,
    run: RunView,
) -> Option<(int, int, int)> {
    match bounds {
        None => None,
        Some((start, end)) => {
            let whole = match buffer_width {
                Some(w) => w,
                None => 0i32,
            };
            if run.line_i < start.line || run.line_i > end.line {
                None
            } else {
                match sweep_run(run, start, end, run.glyphs.len()) {
                    Sweep::After { min, max } => Some(
                        (min as int, run.line_top as int, extent(min as int, max as int)),
                    ),
                    Sweep::Inside { min, max } => if end.line > run.line_i {
                        if run.rtl {
                            Some((0, run.line_top as int, extent(0, max as int)))
                        } else {
                            Some((min as int, run.line_top as int, extent(min as int, whole as int)))
                        }
                    } else {
                        Some((min as int, run.line_top as int, extent(min as int, max as int)))
                    },
                    Sweep::Before => if run.glyphs.len() == 0 && end.line > run.line_i {
                        Some((0, run.line_top as int, extent(0, whole as int)))
                    } else {
                        None
                    },
                }
            }
        },
    }
}

/// Once the first stretch has ended, further cells change nothing.
proof fn lemma_sweep_glyph_after(
    state: Sweep,
    glyph: LayoutGlyph,
    clusters: Seq<(usize, usize)>,
    line_i: usize,
    start: Cursor,
    end: Cursor,
    upto: nat,
)
    requires
        state is After,
    ensures
        sweep_glyph(state, glyph, clusters, line_i, start, end, upto) == state,
    decreases upto,
{
    if upto > 0 {
        lemma_sweep_glyph_after(state, glyph, clusters, line_i, start, end, (upto - 1) as nat);
    }
}

/// Once the first stretch has ended, further glyphs change nothing.
proof fn lemma_sweep_run_after(run: RunView, start: Cursor, end: Cursor, upto: nat, more: nat)
    requires
        sweep_run(run, start, end, upto) is After,
        upto <= more,
    ensures
        sweep_run(run, start, end, more) == sweep_run(run, start, end, upto),
    decreases more,
{
    if more > upto {
        lemma_sweep_run_after(run, start, end, upto, (more - 1) as nat);
        let glyph = run.glyphs[more - 1];
        let clusters = clusters_of(run, glyph);
        lemma_sweep_glyph_after(
            sweep_run(run, start, end, upto),
            glyph,
            clusters,
            run.line_i,
            start,
            end,
            clusters.len(),
        );
    }
}

fn extent_of(min: i32, max: i32) -> (width: u32)
    ensures
        width == extent(min as int, max as int),
{
    if max > min {
        (max as i64 - min as i64) as u32
    } else {
        0
    }
}

/// Carries a sweep over the cells of one glyph, given the glyph's clusters.
pub fn sweep_clusters(
    state: Sweep,
    glyph: &LayoutGlyph,
    clusters: &Vec<(usize, usize)>,
    line_i: usize,
    start: &Cursor,
    end: &Cursor,
) -> (next: Sweep)
    ensures
        next == sweep_glyph(state, *glyph, clusters@, line_i, *start, *end, clusters@.len()),
{
    let total = clusters.len();
    let mut sweep = state;
    let mut t: usize = 0;
    while t < total
        invariant
            0 <= t <= total,
            total == clusters.len(),
            sweep == sweep_glyph(state, *glyph, clusters@, line_i, *start, *end, t as nat),
        decreases total - t,
    {
        let cell_start: u128 = glyph.start as u128 + clusters[t].0 as u128;
        let cell_end: u128 = cell_start + clusters[t].1 as u128;
        let selected = (start.line != line_i || cell_end > start.index as u128) && (end.line
            != line_i || cell_start < end.index as u128);
        let left = add_saturating(glyph.x, portion_of(glyph.w, t, total));
        let right = add_saturating(glyph.x, portion_of(glyph.w, t + 1, total));
        sweep = match sweep {
            Sweep::After { min, max } => Sweep::After { min, max },
            Sweep::Before => if selected {
                Sweep::Inside { min: left, max: right }
            } else {
                Sweep::Before
            },
            Sweep::Inside { min, max } => if selected {
                Sweep::Inside {
                    min: if left < min {
                        left
                    } else {
                        min
                    },
                    max: if right > max {
                        right
                    } else {
                        max
                    },
                }
            } else {
                Sweep::After { min, max }
            },
        };
        t += 1;
    }
    sweep
}

/// Computes the part of a run to highlight for a selection.
pub fn highlight_selection(
    selection_bounds: Option<(Cursor, Cursor)>,
    buffer_width: Option<i32>,
    run: &LayoutRun,
) -> (area: Option<(i32, i32, u32)>)
    ensures
        area is Some <==> highlight(selection_bounds, buffer_width, run@) is Some,
        area matches Some((x, y, width)) ==> highlight(selection_bounds, buffer_width, run@)
            == Some((x as int, y as int, width as int)),
{
    let (start, end) = match selection_bounds {
        Some(ends) => ends,
        None => {
            return None;
        },
    };
    let whole: i32 = match buffer_width {
        Some(w) => w,
        None => 0,
    };
    let line_i = run.line_i();
    let line_top = run.line_top();
    if line_i < start.line || line_i > end.line {
        return None;
    }
    let glyphs = run.glyphs();
    let mut sweep = Sweep::Before;
    let mut i: usize = 0;
    while i < glyphs.len()
        invariant_except_break
            !(sweep is After),
        invariant
            0 <= i <= glyphs.len(),
            glyphs@ == run@.glyphs,
            line_i == run@.line_i,
            sweep == sweep_run(run@, start, end, i as nat),
        ensures
            sweep == sweep_run(run@, start, end, glyphs.len() as nat),
        decreases glyphs.len() - i,
    {
        let clusters = glyph_clusters(run, i);
        sweep = sweep_clusters(sweep, &glyphs[i], &clusters, line_i, &start, &end);
        i += 1;
        if let Sweep::After { .. } = sweep {
            proof {
                lemma_sweep_run_after(run@, start, end, i as nat, glyphs.len() as nat);
            }
            break;
        }
    }
    match sweep {
        Sweep::After { min, max } => Some((min, line_top, extent_of(min, max))),
        Sweep::Inside { min, max } => if end.line > line_i {
            if run.rtl() {
                Some((0, line_top, extent_of(0, max)))
            } else {
                Some((min, line_top, extent_of(min, whole)))
            }
        } else {
            Some((min, line_top, extent_of(min, max)))
        },
        Sweep::Before => if glyphs.len() == 0 && end.line > line_i {
            Some((0, line_top, extent_of(0, whole)))
        } else {
            None
        },
    }
}

/// How the caret of an aggregate is drawn.
#[derive(Clone, Copy, Debug, PartialEq, Eq, Structural)]
pub struct CursorConfig {
    /// Packed colour, one byte each for red, green, blue and alpha.
    pub color: u32,
    /// Width of the caret.
    pub width: i32,
}

/// How the selection of an aggregate is drawn.
#[derive(Clone, Copy, Debug, PartialEq, Eq, Structural)]
pub struct SelectionConfig {
    /// Packed colour, one byte each for red, green, blue and alpha.
    pub color: u32,
}

impl CursorConfig {
    /// The caret of an aggregate that does not say otherwise: opaque white
    /// and one layout unit wide.
    pub open spec fn spec_default() -> CursorConfig {
        CursorConfig { color: 0xFFFF_FFFF, width: 64 }
    }
}

impl SelectionConfig {
    /// The selection of an aggregate that does not say otherwise: opaque
    /// black.
    pub open spec fn spec_default() -> SelectionConfig {
        SelectionConfig { color: 0x0000_00FF }
    }
}

impl Default for CursorConfig {
    fn default() -> (config: CursorConfig)
        ensures
            config == CursorConfig::spec_default(),
    {
        CursorConfig { color: 0xFFFF_FFFF, width: 64 }
    }
}

impl Default for SelectionConfig {
    fn default() -> (config: SelectionConfig)
        ensures
            config == SelectionConfig::spec_default(),
    {
        SelectionConfig { color: 0x0000_00FF }
    }
}

/// A filled rectangle to draw, in the coordinates of the buffer: the origin
/// is the top-left corner of the buffer and y grows downward.
#[derive(Clone, Copy, Debug, PartialEq, Eq, Structural)]
pub struct DrawRect {
    /// Left edge.
    pub x: i32,
    /// Top edge.
    pub y: i32,
    /// Width.
    pub width: u32,
    /// Height.
    pub height: u32,
    /// Packed colour, one byte each for red, green, blue and alpha.
    pub color: u32,
}

/// A length as a rectangle takes it: a negative one counts as nothing.
pub open spec fn span_of(length: i32) -> u32 {
    if length > 0 {
        length as u32
    } else {
        0
    }
}

fn span_of_exec(length: i32) -> (span: u32)
    ensures
        span == span_of(length),
{
    if length > 0 {
        length as u32
    } else {
        0
    }
}

/// The caret to draw in `run`, if the run shows the cursor: as wide as the
/// configuration says, as high as the run, and centred on the place where
/// the cursor stands.
pub open spec fn caret_rect(cursor: Cursor, config: CursorConfig, run: RunView) -> Option<DrawRect> {
    match caret(cursor, run) {
        Some((x, y)) => Some(
            DrawRect {
                x: saturate(x - span_of(config.width) / 2) as i32,
                y: y as i32,
                width: span_of(config.width),
                height: span_of(run.line_height),
                color: config.color,
            },
        ),
        None => None,
    }
}

/// The carets to draw in the first `upto` of `runs`, in order.
pub open spec fn carets(cursor: Cursor, config: CursorConfig, runs: Seq<RunView>, upto: nat) -> Seq<
    DrawRect,
>
    decreases upto,
{
    if upto == 0 {
        Seq::empty()
    } else {
        let before = carets(cursor, config, runs, (upto - 1) as nat);
        match caret_rect(cursor, config, runs[upto - 1]) {
            Some(rect) => before.push(rect),
            None => before,
        }
    }
}

/// The views of a list of runs.
pub open spec fn runs_view(runs: Seq<LayoutRun>) -> Seq<RunView> {
    Seq::new(runs.len(), |i: int| runs[i]@)
}

/// What to draw for the cursor of an aggregate.
///
/// Nothing before the first edit. Else one caret for every run that shows
/// the cursor, drawn as `config` says or, where the aggregate has no
/// configuration, in the default way.
pub fn extract_cursor(state: &EditorState, config: Option<CursorConfig>, runs: &Vec<LayoutRun>) -> (rects:
    Vec<DrawRect>)
    ensures
        rects@ == match state.cursor {
            Some(cursor) => carets(
                cursor,
                match config {
                    Some(c) => c,
                    None => CursorConfig::spec_default(),
                },
                runs_view(runs@),
                runs@.len(),
            ),
            None => Seq::empty(),
        },
{
    let mut rects: Vec<DrawRect> = Vec::new();
    let cursor = match state.cursor {
        Some(cursor) => cursor,
        None => {
            return rects;
        },
    };
    let config = match config {
        Some(c) => c,
        None => CursorConfig::default(),
    };
    let mut i: usize = 0;
    while i < runs.len()
        invariant
            0 <= i <= runs.len(),
            rects@ == carets(cursor, config, runs_view(runs@), i as nat),
        decreases runs.len() - i,
    {
        assert(runs_view(runs@)[i as int] == runs@[i as int]@);
        if let Some((x, y)) = cursor_position(&cursor, &runs[i]) {
            let width = span_of_exec(config.width);
            rects.push(
                DrawRect {
                    x: sub_saturating(x, (width / 2) as i32),
                    y,
                    width,
                    height: span_of_exec(runs[i].line_height()),
                    color: config.color,
                },
            );
        }
        i += 1;
    }
    rects
}

/// The highlight to draw in `run`, if a part of the run is selected.
pub open spec fn highlight_rect(
    bounds: Option<(Cursor, Cursor)>,
    config: SelectionConfig,
    buffer_width: Option<i32>,
    run: RunView,
) -> Option<DrawRect> {
    match highlight(bounds, buffer_width, run) {
        Some((x, y, width)) => Some(
            DrawRect {
                x: x as i32,
                y: y as i32,
                width: width as u32,
                height: span_of(run.line_height),
                color: config.color,
            },
        ),
        None => None,
    }
}

/// The highlights to draw in the first `upto` of `runs`, in order.
pub open spec fn highlights(
    bounds: Option<(Cursor, Cursor)>,
    config: SelectionConfig,
    buffer_width: Option<i32>,
    runs: Seq<RunView>,
    upto: nat,
) -> Seq<DrawRect>
    decreases upto,
{
    if upto == 0 {
        Seq::empty()
    } else {
        let before = highlights(bounds, config, buffer_width, runs, (upto - 1) as nat);
        match highlight_rect(bounds, config, buffer_width, runs[upto - 1]) {
            Some(rect) => before.push(rect),
            None => before,
        }
    }
}

/// What to draw for the selection of an aggregate.
///
/// Nothing where nothing is selected. Else one highlight for every run
/// that has a part in the selected text, drawn as `config` says or, where
/// the aggregate has no configuration, in the default way.
pub fn extract_selection(
    state: &EditorState,
    config: Option<SelectionConfig>,
    buffer_width: Option<i32>,
    runs: &Vec<LayoutRun>,
) -> (rects: Vec<DrawRect>)
    ensures
        rects@ == (if state.selection is Unselected {
            Seq::empty()
        } else {
            highlights(
                state.selection_bounds,
                match config {
                    Some(c) => c,
                    None => SelectionConfig::spec_default(),
                },
                buffer_width,
                runs_view(runs@),
                runs@.len(),
            )
        }),
{
    let mut rects: Vec<DrawRect> = Vec::new();
    if let crate::edit::Selection::Unselected = state.selection {
        return rects;
    }
    let config = match config {
        Some(c) => c,
        None => SelectionConfig::default(),
    };
    let bounds = state.selection_bounds;
    let mut i: usize = 0;
    while i < runs.len()
        invariant
            0 <= i <= runs.len(),
            rects@ == highlights(bounds, config, buffer_width, runs_view(runs@), i as nat),
        decreases runs.len() - i,
    {
        assert(runs_view(runs@)[i as int] == runs@[i as int]@);
        if let Some((x, y, width)) = highlight_selection(bounds, buffer_width, &runs[i]) {
            rects.push(
                DrawRect {
                    x,
                    y,
                    width,
                    height: span_of_exec(runs[i].line_height()),
                    color: config.color,
                },
            );
        }
        i += 1;
    }
    rects
}

} // verus!
