use bevy_text_span_entities::buffer::{AttrSpan, BufferLine, LineEnding};
use bevy_text_span_entities::edit::Cursor;
use bevy_text_span_entities::geometry::{locate_in_box, to_whole_units, Vec2};
use bevy_text_span_entities::hit::{hit, next_under, resolve, HitOutput, HitTarget};
use bevy_text_span_entities::store::Entity;

fn at(x: i32, y: i32) -> Vec2 {
    Vec2 { x, y }
}

fn target(entity: usize, cx: i32, cy: i32, w: i32, h: i32) -> HitTarget {
    HitTarget { entity: Entity(entity), center: at(cx, cy), size: at(w, h) }
}

#[test]
fn the_edges_of_a_box_belong_to_it() {
    let center = at(1000, 2000);
    let size = at(200, 100);
    // Left and right edge.
    assert_eq!(locate_in_box(center, size, at(900, 2000)), Some(at(0, 50)));
    assert_eq!(locate_in_box(center, size, at(1100, 2000)), Some(at(200, 50)));
    assert_eq!(locate_in_box(center, size, at(899, 2000)), None);
    assert_eq!(locate_in_box(center, size, at(1101, 2000)), None);
    // Bottom and top edge.
    assert_eq!(locate_in_box(center, size, at(1000, 1950)), Some(at(100, 0)));
    assert_eq!(locate_in_box(center, size, at(1000, 2050)), Some(at(100, 100)));
    assert_eq!(locate_in_box(center, size, at(1000, 1949)), None);
    assert_eq!(locate_in_box(center, size, at(1000, 2051)), None);
    // Corners.
    assert_eq!(locate_in_box(center, size, at(900, 1950)), Some(at(0, 0)));
    assert_eq!(locate_in_box(center, size, at(1100, 2050)), Some(at(200, 100)));
    assert_eq!(locate_in_box(center, size, at(1101, 2051)), None);
}

#[test]
fn an_odd_size_loses_its_odd_step() {
    let center = at(0, 0);
    let size = at(5, 3);
    assert_eq!(locate_in_box(center, size, at(-2, -1)), Some(at(0, 0)));
    assert_eq!(locate_in_box(center, size, at(2, 1)), Some(at(4, 2)));
    assert_eq!(locate_in_box(center, size, at(3, 0)), None);
    assert_eq!(locate_in_box(center, size, at(0, 2)), None);
}

#[test]
fn a_box_without_size_is_its_center() {
    assert_eq!(locate_in_box(at(7, 7), at(0, 0), at(7, 7)), Some(at(0, 0)));
    assert_eq!(locate_in_box(at(7, 7), at(0, 0), at(8, 7)), None);
}

#[test]
fn a_box_of_negative_size_holds_nothing() {
    assert_eq!(locate_in_box(at(0, 0), at(-1, 10), at(0, 0)), None);
    assert_eq!(locate_in_box(at(0, 0), at(10, -1), at(0, 0)), None);
}

#[test]
fn boxes_at_the_rim_of_the_plane_do_not_overflow() {
    let center = at(i32::MAX, i32::MIN);
    let size = at(i32::MAX, i32::MAX);
    assert_eq!(
        locate_in_box(center, size, at(i32::MAX, i32::MIN)),
        Some(at(i32::MAX / 2, i32::MAX / 2))
    );
    assert_eq!(locate_in_box(center, size, at(0, 0)), None);
}

#[test]
fn whole_units_cut_toward_zero() {
    assert_eq!(to_whole_units(0), 0);
    assert_eq!(to_whole_units(63), 0);
    assert_eq!(to_whole_units(64), 1);
    assert_eq!(to_whole_units(200), 3);
    assert_eq!(to_whole_units(-1), 0);
    assert_eq!(to_whole_units(-64), -1);
    assert_eq!(to_whole_units(-65), -1);
    assert_eq!(to_whole_units(i32::MIN), -33_554_432);
}

#[test]
fn next_under_finds_boxes_in_listed_order() {
    let targets = vec![
        target(10, 0, 0, 100, 100),
        target(11, 500, 500, 100, 100),
        target(12, 30, 30, 100, 100),
        target(13, 40, 40, 100, 100),
    ];
    let pointer = at(20, 20);
    assert_eq!(next_under(&targets, pointer, 0), Some((0, at(70, 70))));
    assert_eq!(next_under(&targets, pointer, 1), Some((2, at(40, 40))));
    assert_eq!(next_under(&targets, pointer, 3), Some((3, at(30, 30))));
    assert_eq!(next_under(&targets, pointer, 4), None);
    assert_eq!(next_under(&targets, pointer, 99), None);
    assert_eq!(next_under(&targets, at(-500, 0), 0), None);
    assert_eq!(next_under(&vec![], pointer, 0), None);
}

#[test]
fn the_first_box_with_text_under_the_pointer_wins() {
    let targets = vec![
        target(10, 0, 0, 100, 100),
        target(11, 500, 500, 100, 100),
        target(12, 30, 30, 100, 100),
        target(13, 40, 40, 100, 100),
    ];
    let pointer = at(20, 20);
    // The first box holds the pointer but has no text under it.
    let probes = vec![None, Some(Entity(21)), Some(Entity(22)), Some(Entity(23))];
    assert_eq!(
        hit(&targets, &probes, pointer),
        Some(HitOutput { parent: Entity(12), span: Entity(22), position: at(40, 40) })
    );
    // With text under the pointer the first box wins, overlapping or not.
    let probes = vec![Some(Entity(20)), None, Some(Entity(22)), Some(Entity(23))];
    assert_eq!(
        hit(&targets, &probes, pointer),
        Some(HitOutput { parent: Entity(10), span: Entity(20), position: at(70, 70) })
    );
    // A probe counts only where the box holds the pointer.
    let probes = vec![None, Some(Entity(21)), None, None];
    assert_eq!(hit(&targets, &probes, pointer), None);
    // Missing probes count as no text.
    assert_eq!(hit(&targets, &vec![], pointer), None);
    assert_eq!(hit(&targets, &vec![None, None, None], pointer), None);
    assert_eq!(hit(&vec![], &probes, pointer), None);
}

#[test]
fn a_pointer_on_the_edge_hits() {
    let targets = vec![target(1, 0, 0, 100, 50)];
    let probes = vec![Some(Entity(2))];
    assert!(hit(&targets, &probes, at(50, 25)).is_some());
    assert!(hit(&targets, &probes, at(-50, -25)).is_some());
    assert!(hit(&targets, &probes, at(51, 25)).is_none());
    assert!(hit(&targets, &probes, at(50, 26)).is_none());
    assert!(hit(&targets, &probes, at(-51, 0)).is_none());
    assert!(hit(&targets, &probes, at(0, -26)).is_none());
}

fn lines() -> Vec<BufferLine> {
    vec![
        BufferLine::new(
            "Hello, World".to_string(),
            LineEnding::Lf,
            vec![
                AttrSpan { start: 0, end: 7, metadata: 0 },
                AttrSpan { start: 7, end: 12, metadata: 1 },
            ],
        )
        .unwrap(),
        BufferLine::new(
            "  and more".to_string(),
            LineEnding::Unterminated,
            vec![AttrSpan { start: 2, end: 5, metadata: 2 }, AttrSpan { start: 6, end: 10, metadata: 7 }],
        )
        .unwrap(),
    ]
}

#[test]
fn resolve_names_the_child_that_tags_the_range() {
    let t = target(100, 0, 0, 10, 10);
    let children = vec![Entity(101), Entity(102), Entity(103)];
    let position = at(3, 4);
    let hit = |line, index| resolve(&t, position, &lines(), Cursor::new(line, index), &children);
    assert_eq!(
        hit(0, 0),
        Some(HitOutput { parent: Entity(100), span: Entity(101), position })
    );
    assert_eq!(hit(0, 6).unwrap().span, Entity(101));
    assert_eq!(hit(0, 7).unwrap().span, Entity(102));
    assert_eq!(hit(0, 11).unwrap().span, Entity(102));
    assert_eq!(hit(1, 2).unwrap().span, Entity(103));
    assert_eq!(hit(1, 4).unwrap().span, Entity(103));
}

#[test]
fn resolve_finds_nothing_outside_styled_ranges() {
    let t = target(100, 0, 0, 10, 10);
    let children = vec![Entity(101), Entity(102), Entity(103)];
    let hit = |line, index| resolve(&t, at(0, 0), &lines(), Cursor::new(line, index), &children);
    // Past the last range of the line.
    assert_eq!(hit(0, 12), None);
    // In a gap before and between ranges.
    assert_eq!(hit(1, 0), None);
    assert_eq!(hit(1, 5), None);
    // In a range whose tag names no child.
    assert_eq!(hit(1, 6), None);
    // On a line that does not exist.
    assert_eq!(hit(2, 0), None);
    // Without children.
    assert_eq!(resolve(&t, at(0, 0), &lines(), Cursor::new(0, 0), &vec![]), None);
}

#[test]
fn get_span_falls_back_to_the_first_span() {
    let lines = lines();
    assert_eq!(lines[0].get_span(3), 0);
    assert_eq!(lines[0].get_span(8), 1);
    assert_eq!(lines[0].get_span(100), 0);
    assert_eq!(lines[1].get_span(0), 0);
    assert_eq!(lines[1].get_span(3), 2);
    assert_eq!(lines[1].get_span(5), 0);
    assert_eq!(lines[1].get_span(9), 7);
    assert_eq!(lines[1].styled_span(5), None);
    assert_eq!(lines[1].styled_span(9), Some(7));
    assert_eq!(lines[0].styled_span(0), Some(0));
}
