//! Keeping the flat text of every aggregate in step with its spans.
//!
//! The synchronizer runs once per tick. An aggregate is dirty when one of
//! its children is a span that was written, or when it gained or lost a
//! child. The flat text of a dirty aggregate is thrown away and built anew
//! from the spans below it, in document order: every entity before the
//! entities that hang below it, siblings in the order they were attached.
//! Aggregates that are not dirty are left alone.
//!
//! Two things can be amiss, and neither stops the pass. An entity below an
//! aggregate may not be a span: it contributes nothing. And what a written
//! span hangs below may not be an aggregate that can take a text: nothing
//! is built for it. Both are reported.

use vstd::prelude::*;
use crate::span::{sections_view, SectionView, TextSection};
use crate::store::{node_wf, world_wf, Entity, NodeView, World};

verus! {

/// Something that the synchronizer found amiss.
#[derive(Clone, Copy, Debug, PartialEq, Eq, Structural)]
pub enum IntegrityError {
    /// An entity below an aggregate is not a span.
    MissingSpan {
        /// The entity that is not a span.
        child: Entity,
        /// The aggregate that was being rebuilt.
        parent: Entity,
    },
    /// A dirty entity is not an aggregate that can take a text.
    MissingText {
        /// The dirty entity.
        parent: Entity,
    },
}

/// Entity `s` makes entity `a` dirty: `s` is a written span that hangs
/// directly below `a`, or `s` is `a` itself, carries the marker, is no span
/// and gained or lost a child.
pub open spec fn marks(world: Seq<NodeView>, s: int, a: int) -> bool {
    &&& 0 <= s < world.len()
    &&& world[s].alive
    &&& {
        ||| world[s].span_changed && world[s].span is Some && world[s].parent == Some(a as usize)
        ||| s == a && world[s].marker && world[s].children_changed && world[s].span is None
    }
}

/// Entity `a` is dirty.
pub open spec fn dirty(world: Seq<NodeView>, a: int) -> bool {
    exists|s: int| marks(world, s, a)
}

/// Entity `a` is an aggregate that can take a text: it exists, carries the
/// marker, has a flat text and is not itself a span.
pub open spec fn rebuildable(world: Seq<NodeView>, a: int) -> bool {
    &&& 0 <= a < world.len()
    &&& world[a].alive
    &&& world[a].marker
    &&& world[a].text is Some
    &&& world[a].span is None
}

/// What entity `c` contributes by itself.
pub open spec fn own_span(world: Seq<NodeView>, c: int) -> Seq<SectionView> {
    match world[c].span {
        Some(section) => seq![section],
        None => Seq::empty(),
    }
}

/// The contributions of the children of `e` from place `from` on, each
/// followed by the contributions of all that hangs below it.
pub open spec fn flat_from(world: Seq<NodeView>, e: int, from: nat) -> Seq<SectionView>
    decreases world.len() - e, world[e].children.len() - from,
{
    if 0 <= e < world.len() && from < world[e].children.len() {
        let c = world[e].children[from as int] as int;
        let below = if e < c < world.len() {
            own_span(world, c) + flat_from(world, c, 0)
        } else {
            Seq::empty()
        };
        below + flat_from(world, e, from + 1)
    } else {
        Seq::empty()
    }
}

/// The flat text that mirrors the spans below `a`: their contributions in
/// document order.
pub open spec fn flat_text(world: Seq<NodeView>, a: int) -> Seq<SectionView> {
    flat_from(world, a, 0)
}

/// The report on entity `c` while `root` is rebuilt.
pub open spec fn own_report(world: Seq<NodeView>, root: int, c: int) -> Seq<IntegrityError> {
    match world[c].span {
        Some(_) => Seq::empty(),
        None => seq![
            IntegrityError::MissingSpan { child: Entity(c as usize), parent: Entity(root as usize) },
        ],
    }
}

/// The reports on what hangs below the children of `e` from place `from`
/// on, in document order, while `root` is rebuilt.
pub open spec fn missing_from(world: Seq<NodeView>, root: int, e: int, from: nat) -> Seq<
    IntegrityError,
>
    decreases world.len() - e, world[e].children.len() - from,
{
    if 0 <= e < world.len() && from < world[e].children.len() {
        let c = world[e].children[from as int] as int;
        let below = if e < c < world.len() {
            own_report(world, root, c) + missing_from(world, root, c, 0)
        } else {
            Seq::empty()
        };
        below + missing_from(world, root, e, from + 1)
    } else {
        Seq::empty()
    }
}

/// What the pass reports on entity `a`.
pub open spec fn report_on(world: Seq<NodeView>, a: int) -> Seq<IntegrityError> {
    if !dirty(world, a) {
        Seq::empty()
    } else if rebuildable(world, a) {
        missing_from(world, a, a, 0)
    } else {
        seq![IntegrityError::MissingText { parent: Entity(a as usize) }]
    }
}

/// What the pass reports on the first `upto` entities, in arena order.
pub open spec fn reports(world: Seq<NodeView>, upto: nat) -> Seq<IntegrityError>
    decreases upto,
{
    if upto == 0 {
        Seq::empty()
    } else {
        reports(world, (upto - 1) as nat) + report_on(world, upto - 1)
    }
}

/// Entity `i` after the pass: with a rebuilt text if it was a dirty
/// aggregate, and with no change noted.
pub open spec fn synced_node(world: Seq<NodeView>, i: int) -> NodeView {
    NodeView {
        text: if dirty(world, i) && rebuildable(world, i) {
            Some(flat_text(world, i))
        } else {
            world[i].text
        },
        span_changed: false,
        children_changed: false,
        ..world[i]
    }
}

/// `after` is `before` after one pass of the synchronizer.
pub open spec fn synced(before: Seq<NodeView>, after: Seq<NodeView>) -> bool {
    &&& after.len() == before.len()
    &&& forall|i: int| 0 <= i < before.len() ==> #[trigger] after[i] == synced_node(before, i)
}

/// The flat text below an entity depends on the links and the spans only.
pub proof fn lemma_flat_from_same(a: Seq<NodeView>, b: Seq<NodeView>, root: int, e: int, from: nat)
    requires
        a.len() == b.len(),
        forall|i: int|
            0 <= i < a.len() ==> (#[trigger] a[i]).children == b[i].children && a[i].span
                == b[i].span,
    ensures
        flat_from(a, e, from) == flat_from(b, e, from),
        missing_from(a, root, e, from) == missing_from(b, root, e, from),
    decreases a.len() - e, a[e].children.len() - from,
{
    if 0 <= e < a.len() && from < a[e].children.len() {
        let c = a[e].children[from as int] as int;
        if e < c < a.len() {
            lemma_flat_from_same(a, b, root, c, 0);
        }
        lemma_flat_from_same(a, b, root, e, from + 1);
    }
}

/// Gathers the contributions of all that hangs below `e`, and the reports
/// on it, in document order.
fn collect(
    world: &World,
    root: Entity,
    e: Entity,
    out: &mut Vec<TextSection>,
    errors: &mut Vec<IntegrityError>,
)
    requires
        world.wf(),
    ensures
        sections_view(final(out)@) == sections_view(old(out)@) + flat_from(world@, e.0 as int, 0),
        final(errors)@ == old(errors)@ + missing_from(world@, root.0 as int, e.0 as int, 0),
    decreases world@.len() - e.0,
{
    let ghost w = world@;
    let ghost all = flat_from(w, e.0 as int, 0);
    let ghost all_reports = missing_from(w, root.0 as int, e.0 as int, 0);
    let count = world.child_count(e);
    let mut k: usize = 0;
    while k < count
        invariant
            0 <= k <= count,
            w == world@,
            world.wf(),
            count == (if crate::store::exists_in(w, e) {
                w[e.0 as int].children.len()
            } else {
                0
            }),
            all == flat_from(w, e.0 as int, 0),
            all_reports == missing_from(w, root.0 as int, e.0 as int, 0),
            sections_view(out@) + flat_from(w, e.0 as int, k as nat) == sections_view(old(out)@)
                + all,
            errors@ + missing_from(w, root.0 as int, e.0 as int, k as nat) == old(errors)@
                + all_reports,
        decreases count - k,
    {
        let c = world.child(e, k).unwrap();
        proof {
            assert(node_wf(w, e.0 as int));
            assert(w[e.0 as int].children[k as int] == c.0);
        }
        let ghost out0 = sections_view(out@);
        let ghost errors0 = errors@;
        match world.span(c) {
            Some(span) => {
                out.push(span.0.clone());
                proof {
                    assert(sections_view(out@) =~= out0 + own_span(w, c.0 as int));
                    assert(errors@ =~= errors0 + own_report(w, root.0 as int, c.0 as int));
                }
            },
            None => {
                errors.push(IntegrityError::MissingSpan { child: c, parent: root });
                proof {
                    assert(sections_view(out@) =~= out0 + own_span(w, c.0 as int));
                    assert(errors@ =~= errors0 + own_report(w, root.0 as int, c.0 as int));
                }
            },
        }
        collect(world, root, c, out, errors);
        proof {
            let rest = flat_from(w, e.0 as int, (k + 1) as nat);
            let below = own_span(w, c.0 as int) + flat_from(w, c.0 as int, 0);
            assert(sections_view(out@) =~= out0 + below);
            assert(flat_from(w, e.0 as int, k as nat) == below + rest);
            assert(sections_view(out@) + rest =~= out0 + flat_from(w, e.0 as int, k as nat));
            let rest_reports = missing_from(w, root.0 as int, e.0 as int, (k + 1) as nat);
            let below_reports = own_report(w, root.0 as int, c.0 as int) + missing_from(
                w,
                root.0 as int,
                c.0 as int,
                0,
            );
            assert(errors@ =~= errors0 + below_reports);
            assert(missing_from(w, root.0 as int, e.0 as int, k as nat) == below_reports
                + rest_reports);
            assert(errors@ + rest_reports =~= errors0 + missing_from(
                w,
                root.0 as int,
                e.0 as int,
                k as nat,
            ));
        }
        k += 1;
    }
    proof {
        if 0 <= e.0 < w.len() {
            assert(node_wf(w, e.0 as int));
        }
        assert(flat_from(w, e.0 as int, k as nat) =~= Seq::<SectionView>::empty());
        assert(missing_from(w, root.0 as int, e.0 as int, k as nat) =~= Seq::<
            IntegrityError,
        >::empty());
        assert(sections_view(out@) =~= sections_view(out@) + Seq::<SectionView>::empty());
        assert(errors@ =~= errors@ + Seq::<IntegrityError>::empty());
    }
}

/// The dirty marks found among the first `upto` entities.
spec fn marked_upto(world: Seq<NodeView>, a: int, upto: int) -> bool {
    exists|s: int| 0 <= s < upto && marks(world, s, a)
}

/// Runs one pass of the synchronizer and returns what it found amiss, in
/// arena order of the aggregates and document order below each.
///
/// After the pass the flat text of every dirty aggregate mirrors the spans
/// below it, every other text is as it was, and no change is noted any
/// more.
pub fn update_parent(world: &mut World) -> (errors: Vec<IntegrityError>)
    requires
        old(world).wf(),
    ensures
        final(world).wf(),
        synced(old(world)@, final(world)@),
        errors@ == reports(old(world)@, old(world)@.len()),
{
    let ghost before = world@;
    let n = world.len();
    let mut changed: Vec<bool> = Vec::new();
    let mut i: usize = 0;
    while i < n
        invariant
            0 <= i <= n,
            changed@.len() == i,
            forall|a: int| 0 <= a < i ==> !(#[trigger] changed@[a]),
        decreases n - i,
    {
        changed.push(false);
        i += 1;
    }
    let mut s: usize = 0;
    while s < n
        invariant
            0 <= s <= n,
            n == before.len(),
            world@ == before,
            world_wf(before),
            changed@.len() == n,
            forall|a: int| 0 <= a < n ==> (#[trigger] changed@[a]) == marked_upto(before, a, s as int),
        decreases n - s,
    {
        let e = Entity(s);
        let ghost old_changed = changed@;
        let is_span = world.span(e).is_some();
        let mut parent_mark: Option<usize> = None;
        if world.span_changed(e) && is_span {
            if let Some(p) = world.parent(e) {
                proof {
                    assert(node_wf(before, s as int));
                }
                changed.set(p.0, true);
                parent_mark = Some(p.0);
            }
        }
        let self_mark = world.has_marker(e) && world.children_changed(e) && !is_span;
        if self_mark {
            changed.set(s, true);
        }
        proof {
            assert forall|a: int| 0 <= a < n implies (#[trigger] changed@[a]) == marked_upto(
                before,
                a,
                s + 1,
            ) by {
                let now = marks(before, s as int, a);
                assert(now == ((parent_mark == Some(a as usize)) || (self_mark && a == s)));
                assert(changed@[a] == (old_changed[a] || now));
                if marked_upto(before, a, s + 1) {
                    let t = choose|t: int| 0 <= t < s + 1 && marks(before, t, a);
                    if t < s {
                        assert(marked_upto(before, a, s as int));
                    }
                }
                if old_changed[a] {
                    let t = choose|t: int| 0 <= t < s && marks(before, t, a);
                    assert(0 <= t < s + 1 && marks(before, t, a));
                }
                if now {
                    assert(0 <= s < s + 1 && marks(before, s as int, a));
                }
            }
        }
        s += 1;
    }
    proof {
        assert forall|a: int| 0 <= a < n implies (#[trigger] changed@[a]) == dirty(before, a) by {
            if dirty(before, a) {
                let t = choose|t: int| marks(before, t, a);
                assert(0 <= t < n && marks(before, t, a));
            }
            if marked_upto(before, a, n as int) {
                let t = choose|t: int| 0 <= t < n && marks(before, t, a);
                assert(marks(before, t, a));
            }
        }
    }
    let mut errors: Vec<IntegrityError> = Vec::new();
    let mut a: usize = 0;
    while a < n
        invariant
            0 <= a <= n,
            n == before.len(),
            world.wf(),
            world_wf(before),
            world@.len() == n,
            changed@.len() == n,
            forall|k: int| 0 <= k < n ==> (#[trigger] changed@[k]) == dirty(before, k),
            forall|k: int|
                0 <= k < a ==> #[trigger] world@[k] == (NodeView {
                    text: synced_node(before, k).text,
                    ..before[k]
                }),
            forall|k: int| a <= k < n ==> #[trigger] world@[k] == before[k],
            errors@ == reports(before, a as nat),
        decreases n - a,
    {
        let e = Entity(a);
        if changed[a] {
            if world.has_marker(e) && world.text(e).is_some() && world.span(e).is_none() {
                let ghost errors0 = errors@;
                let mut sections: Vec<TextSection> = Vec::new();
                collect(world, e, e, &mut sections, &mut errors);
                proof {
                    lemma_flat_from_same(world@, before, a as int, a as int, 0);
                    assert(sections_view(Seq::<TextSection>::empty()) =~= Seq::<SectionView>::empty());
                    assert(sections_view(sections@) =~= flat_text(before, a as int));
                    assert(rebuildable(before, a as int));
                    assert(errors@ =~= errors0 + report_on(before, a as int));
                }
                world.set_text(e, Some(sections));
            } else {
                proof {
                    assert(!rebuildable(before, a as int)) by {
                        if before[a as int].alive {
                        } else {
                            let t = choose|t: int| marks(before, t, a as int);
                            if t != a {
                                assert(node_wf(before, t));
                            }
                        }
                    }
                }
                errors.push(IntegrityError::MissingText { parent: e });
                proof {
                    assert(errors@ =~= reports(before, a as nat) + report_on(before, a as int));
                }
            }
        } else {
            proof {
                assert(errors@ =~= reports(before, a as nat) + report_on(before, a as int));
            }
        }
        a += 1;
    }
    world.clear_changes();
    errors
}

/// A second pass right after a pass changes nothing and reports nothing:
/// the flat texts are the same after both.
pub proof fn lemma_sync_idempotent(start: Seq<NodeView>, once: Seq<NodeView>, twice: Seq<NodeView>)
    requires
        synced(start, once),
        synced(once, twice),
    ensures
        twice == once,
        forall|a: int| 0 <= a < once.len() ==> (#[trigger] twice[a]).text == once[a].text,
        reports(once, once.len()) == Seq::<IntegrityError>::empty(),
{
    assert forall|a: int| !dirty(once, a) by {
        if dirty(once, a) {
            let s = choose|s: int| marks(once, s, a);
            assert(once[s] == synced_node(start, s));
        }
    }
    assert forall|i: int| 0 <= i < once.len() implies twice[i] == once[i] by {
        assert(once[i] == synced_node(start, i));
        assert(twice[i] == synced_node(once, i));
    }
    assert(twice =~= once);
    lemma_no_reports(once, once.len());
}

proof fn lemma_no_reports(world: Seq<NodeView>, upto: nat)
    requires
        forall|a: int| !dirty(world, a),
    ensures
        reports(world, upto) == Seq::<IntegrityError>::empty(),
    decreases upto,
{
    if upto > 0 {
        lemma_no_reports(world, (upto - 1) as nat);
        assert(!dirty(world, upto - 1));
        assert(reports(world, upto) =~= Seq::<IntegrityError>::empty());
    }
}

/// After a pass, the flat text of every dirty aggregate is the
/// contributions of the spans below it in document order, and every other
/// flat text is untouched.
pub proof fn lemma_sync_mirrors(before: Seq<NodeView>, after: Seq<NodeView>, a: int)
    requires
        synced(before, after),
        0 <= a < before.len(),
    ensures
        dirty(before, a) && rebuildable(before, a) ==> after[a].text == Some(flat_text(before, a))
            && after[a].text == Some(flat_text(after, a)),
        !(dirty(before, a) && rebuildable(before, a)) ==> after[a].text == before[a].text,
{
    assert(after[a] == synced_node(before, a));
    assert forall|i: int| 0 <= i < before.len() implies (#[trigger] before[i]).children
        == after[i].children && before[i].span == after[i].span by {
        assert(after[i] == synced_node(before, i));
    }
    lemma_flat_from_same(before, after, a, a, 0);
}

/// The children of `a` from place `from` on are all spans with nothing
/// below them.
pub open spec fn leaves_from(world: Seq<NodeView>, a: int, from: int) -> bool {
    forall|k: int|
        from <= k < world[a].children.len() ==> {
            let c = #[trigger] world[a].children[k] as int;
            &&& a < c < world.len()
            &&& world[c].span is Some
            &&& world[c].children.len() == 0
        }
}

/// For an aggregate whose children are spans with nothing below them, the
/// mirrored flat text lists exactly those spans, in the order they are
/// attached: section `k` is what child `k` contributes. How the spans came
/// to hold what they hold plays no part.
pub proof fn lemma_flat_text_of_spans(world: Seq<NodeView>, a: int)
    requires
        0 <= a < world.len(),
        leaves_from(world, a, 0),
    ensures
        flat_text(world, a).len() == world[a].children.len(),
        forall|k: int|
            0 <= k < world[a].children.len() ==> world[world[a].children[k] as int].span == Some(
                #[trigger] flat_text(world, a)[k],
            ),
{
    lemma_flat_from_leaves(world, a, 0);
    assert forall|k: int| 0 <= k < world[a].children.len() implies world[world[a].children[k] as int].span
        == Some(#[trigger] flat_text(world, a)[k]) by {
        assert(flat_from(world, a, 0)[k - 0] == world[world[a].children[k] as int].span->0);
    }
}

proof fn lemma_flat_from_leaves(world: Seq<NodeView>, a: int, from: nat)
    requires
        0 <= a < world.len(),
        leaves_from(world, a, from as int),
        from <= world[a].children.len(),
    ensures
        flat_from(world, a, from).len() == world[a].children.len() - from,
        forall|k: int|
            from <= k < world[a].children.len() ==> #[trigger] flat_from(world, a, from)[k - from]
                == world[world[a].children[k] as int].span->0,
    decreases world[a].children.len() - from,
{
    if from < world[a].children.len() {
        let c = world[a].children[from as int] as int;
        assert(leaves_from(world, a, from as int + 1));
        lemma_flat_from_leaves(world, a, from + 1);
        assert(flat_from(world, c, 0) =~= Seq::<SectionView>::empty());
        let head = own_span(world, c);
        assert(head.len() == 1);
        assert(flat_from(world, a, from) =~= head + flat_from(world, a, from + 1));
        assert forall|k: int| from <= k < world[a].children.len() implies #[trigger] flat_from(
            world,
            a,
            from,
        )[k - from] == world[world[a].children[k] as int].span->0 by {
            if k > from {
                assert(flat_from(world, a, from)[k - from] == flat_from(world, a, from + 1)[k - (from
                    + 1)]);
            }
        }
    }
}

/// Writing two different spans leaves the same store whichever is written
/// first, and so the same flat text after the next pass.
pub proof fn lemma_span_writes_commute(
    world: Seq<NodeView>,
    i: int,
    first: SectionView,
    j: int,
    second: SectionView,
)
    requires
        0 <= i < world.len(),
        0 <= j < world.len(),
        i != j,
    ensures
        written(written(world, i, first), j, second) == written(written(world, j, second), i, first),
{
    assert(written(written(world, i, first), j, second) =~= written(
        written(world, j, second),
        i,
        first,
    ));
}

/// `world` after span `i` was written with `section`.
pub open spec fn written(world: Seq<NodeView>, i: int, section: SectionView) -> Seq<NodeView> {
    world.update(i, NodeView { span: Some(section), span_changed: true, ..world[i] })
}

} // verus!
