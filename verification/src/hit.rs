//! Finding the span under the pointer.
//!
//! Every aggregate takes up a box around its place in the plane, as large as
//! its buffer measures. The aggregates are tried in the order they are
//! listed, and the first one wins that has both the pointer in its box and
//! styled text under the pointer; aggregates that overlap are not ranked any
//! further. A point exactly on the edge of a box is in the box.
//!
//! What text lies at a place in a buffer is for the buffer to say. So the
//! search is made in steps: this module names the next aggregate whose box
//! holds the pointer and the place to ask its buffer about, and turns the
//! buffer's answer into the span that was hit.

use vstd::prelude::*;
use crate::buffer::{lines_view, BufferLine, LineView};
use crate::edit::Cursor;
use crate::geometry::{box_holds, box_local, locate_in_box, Vec2};
use crate::store::Entity;

verus! {

/// An aggregate that the pointer may be over.
#[derive(Clone, Copy, Debug, PartialEq, Eq, Structural)]
pub struct HitTarget {
    /// The aggregate.
    pub entity: Entity,
    /// Where the middle of its box lies.
    pub center: Vec2,
    /// Width and height of its box: the measured size of its buffer.
    pub size: Vec2,
}

/// A hit.
#[derive(Clone, Copy, Debug, PartialEq, Eq, Structural)]
pub struct HitOutput {
    /// The aggregate that was hit.
    pub parent: Entity,
    /// The span of that aggregate that was hit.
    pub span: Entity,
    /// Where the pointer is, seen from the corner of the aggregate's box
    /// with the smallest coordinates.
    pub position: Vec2,
}

/// The first target at or after place `from` whose box holds the pointer.
pub open spec fn first_under(targets: Seq<HitTarget>, pointer: Vec2, from: int) -> Option<int>
    decreases targets.len() - from,
{
    if from < 0 || from >= targets.len() {
        None
    } else if box_holds(targets[from].center, targets[from].size, pointer) {
        Some(from)
    } else {
        first_under(targets, pointer, from + 1)
    }
}

/// Finds the next target to ask: the first one at or after place `from`
/// whose box holds the pointer, with the place of the pointer in that box.
pub fn next_under(targets: &Vec<HitTarget>, pointer: Vec2, from: usize) -> (found: Option<
    (usize, Vec2),
>)
    ensures
        found is Some <==> first_under(targets@, pointer, from as int) is Some,
        found matches Some((i, local)) ==> {
            &&& first_under(targets@, pointer, from as int) == Some(i as int)
            &&& from <= i < targets@.len()
            &&& box_holds(targets@[i as int].center, targets@[i as int].size, pointer)
            &&& (local.x as int, local.y as int) == box_local(
                targets@[i as int].center,
                targets@[i as int].size,
                pointer,
            )
        },
{
    let mut i: usize = from;
    while i < targets.len()
        invariant
            from <= i,
            first_under(targets@, pointer, from as int) == first_under(targets@, pointer, i as int),
        decreases targets.len() - i,
    {
        match locate_in_box(targets[i].center, targets[i].size, pointer) {
            Some(local) => {
                return Some((i, local));
            },
            None => {},
        }
        i += 1;
    }
    None
}

/// The span that the buffer's answer stands for, if any: the child of the
/// aggregate whose index tags the range that holds the answered position.
pub open spec fn span_hit(lines: Seq<LineView>, cursor: Cursor, children: Seq<Entity>) -> Option<
    Entity,
> {
    if cursor.line < lines.len() {
        match lines[cursor.line as int].styled_at(cursor.index as int) {
            Some(tag) => if tag < children.len() {
                Some(children[tag as int])
            } else {
                None
            },
            None => None,
        }
    } else {
        None
    }
}

/// Turns the position that a buffer answered with into a hit.
///
/// `lines` are the lines of the target's buffer, `children` the entities
/// directly below the target, in document order. There is no hit where the
/// position is not in a styled range, or names a line or a span that does
/// not exist.
pub fn resolve(
    target: &HitTarget,
    position: Vec2,
    lines: &Vec<BufferLine>,
    cursor: Cursor,
    children: &Vec<Entity>,
) -> (hit: Option<HitOutput>)
    ensures
        hit == match span_hit(lines_view(lines@), cursor, children@) {
            Some(span) => Some(HitOutput { parent: target.entity, span, position }),
            None => None,
        },
{
    if cursor.line >= lines.len() {
        return None;
    }
    match lines[cursor.line].styled_span(cursor.index) {
        Some(tag) => if tag < children.len() {
            Some(HitOutput { parent: target.entity, span: children[tag], position })
        } else {
            None
        },
        None => None,
    }
}

/// The hit among `targets`, where `probes[i]` tells which span of target
/// `i`, if any, has text under the pointer: the first target whose box
/// holds the pointer and whose probe names a span.
pub open spec fn first_hit(
    targets: Seq<HitTarget>,
    probes: Seq<Option<Entity>>,
    pointer: Vec2,
    from: int,
) -> Option<HitOutput>
    decreases targets.len() - from,
{
    if from < 0 || from >= targets.len() {
        None
    } else {
        let target = targets[from];
        if box_holds(target.center, target.size, pointer) && from < probes.len()
            && probes[from] is Some {
            let local = box_local(target.center, target.size, pointer);
            Some(
                HitOutput {
                    parent: target.entity,
                    span: probes[from]->0,
                    position: Vec2 { x: local.0 as i32, y: local.1 as i32 },
                },
            )
        } else {
            first_hit(targets, probes, pointer, from + 1)
        }
    }
}

/// Picks the hit, given for every target the span that has text under the
/// pointer. Targets without a probe count as not hit.
pub fn hit(targets: &Vec<HitTarget>, probes: &Vec<Option<Entity>>, pointer: Vec2) -> (found:
    Option<HitOutput>)
    ensures
        found == first_hit(targets@, probes@, pointer, 0),
{
    let mut from: usize = 0;
    loop
        invariant
            from <= targets.len(),
            first_hit(targets@, probes@, pointer, 0) == first_hit(
                targets@,
                probes@,
                pointer,
                from as int,
            ),
        decreases targets.len() - from,
    {
        let (i, local) = match next_under(targets, pointer, from) {
            Some(found) => found,
            None => {
                proof {
                    lemma_no_hit_without_box(targets@, probes@, pointer, from as int);
                }
                return None;
            },
        };
        proof {
            lemma_skip_to_box(targets@, probes@, pointer, from as int, i as int);
        }
        if i < probes.len() {
            if let Some(span) = probes[i] {
                return Some(HitOutput { parent: targets[i].entity, span, position: local });
            }
        }
        from = i + 1;
    }
}

/// Where no box holds the pointer there is no hit.
proof fn lemma_no_hit_without_box(
    targets: Seq<HitTarget>,
    probes: Seq<Option<Entity>>,
    pointer: Vec2,
    from: int,
)
    requires
        first_under(targets, pointer, from) is None,
    ensures
        first_hit(targets, probes, pointer, from) is None,
    decreases targets.len() - from,
{
    if 0 <= from < targets.len() {
        lemma_no_hit_without_box(targets, probes, pointer, from + 1);
    }
}

/// Targets whose box does not hold the pointer can be passed over.
proof fn lemma_skip_to_box(
    targets: Seq<HitTarget>,
    probes: Seq<Option<Entity>>,
    pointer: Vec2,
    from: int,
    i: int,
)
    requires
        0 <= from,
        first_under(targets, pointer, from) == Some(i),
    ensures
        from <= i < targets.len(),
        first_hit(targets, probes, pointer, from) == first_hit(targets, probes, pointer, i),
    decreases targets.len() - from,
{
    if from < targets.len() && !box_holds(targets[from].center, targets[from].size, pointer) {
        lemma_skip_to_box(targets, probes, pointer, from + 1, i);
    }
}

} // verus!
