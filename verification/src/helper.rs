//! Building an aggregate with its spans in one go.
//!
//! A builder collects the spans of an aggregate in document order. Each span
//! is a text, a style (the default style where none is given) and any
//! number of tags. Building puts the aggregate and, below it, one entity for
//! every span into a store.

use vstd::prelude::*;
use crate::span::{SectionView, TextSection, TextSpan, TextStyle};
use crate::store::{fresh, node_wf, world_wf, Entity, NodeView, World};
use crate::strings::text_bytes;

verus! {

/// What an aggregate is shown with.
#[derive(Clone, Copy, Debug, PartialEq, Eq, Structural)]
pub enum Bundle {
    /// Text in the user interface.
    Text,
    /// Text in the two-dimensional scene.
    Text2d,
}

/// A span that is yet to be made, as mathematics.
pub struct SpanSpecView {
    /// What the span will contribute.
    pub section: SectionView,
    /// The tags that the span will carry.
    pub tags: Seq<u64>,
}

struct SpanSpec {
    span: TextSpan,
    tags: Vec<u64>,
}

impl SpanSpec {
    spec fn view(&self) -> SpanSpecView {
        SpanSpecView { section: self.span@, tags: self.tags@ }
    }
}

/// Collects the spans of an aggregate.
pub struct AggregateBuilder {
    bundle: Bundle,
    spans: Vec<SpanSpec>,
}

/// A built aggregate.
#[derive(Clone, Copy, Debug, PartialEq, Eq, Structural)]
pub struct Aggregate {
    /// The entity of the aggregate.
    pub entity: Entity,
    /// What the aggregate is to be shown with.
    pub bundle: Bundle,
}

/// The entities `start`, `start + 1` and so on, `count` of them.
pub open spec fn run_of(start: int, count: nat) -> Seq<usize>
    decreases count,
{
    if count == 0 {
        Seq::empty()
    } else {
        run_of(start, (count - 1) as nat).push((start + count - 1) as usize)
    }
}

/// An aggregate as it is built at place `at` with `count` spans: it carries
/// the marker and an empty flat text, the spans hang below it in order, and
/// it is noted to have gained them.
pub open spec fn aggregate_node(at: int, count: nat) -> NodeView {
    NodeView {
        children: run_of(at + 1, count),
        marker: true,
        text: Some(Seq::empty()),
        children_changed: count > 0,
        ..fresh(None)
    }
}

/// A span as it is built below the aggregate at place `at`: it is noted as
/// written.
pub open spec fn span_node(at: int, spec: SpanSpecView) -> NodeView {
    NodeView {
        span: Some(spec.section),
        span_changed: true,
        tags: spec.tags,
        ..fresh(Some(at as usize))
    }
}

/// `after` is `before` with an aggregate and the first `upto` of `specs`
/// built behind it.
pub open spec fn built(
    before: Seq<NodeView>,
    after: Seq<NodeView>,
    specs: Seq<SpanSpecView>,
    upto: nat,
) -> bool {
    let at = before.len() as int;
    &&& after.len() == at + 1 + upto
    &&& forall|i: int| 0 <= i < at ==> #[trigger] after[i] == before[i]
    &&& after[at] == aggregate_node(at, upto)
    &&& forall|j: int| 0 <= j < upto ==> #[trigger] after[at + 1 + j] == span_node(at, specs[j])
}

impl AggregateBuilder {
    /// What the aggregate will be shown with.
    pub closed spec fn spec_bundle(&self) -> Bundle {
        self.bundle
    }

    /// The spans collected so far.
    pub closed spec fn specs(&self) -> Seq<SpanSpecView> {
        Seq::new(self.spans@.len(), |j: int| self.spans@[j].view())
    }

    /// A builder without spans.
    pub fn new(bundle: Bundle) -> (builder: AggregateBuilder)
        ensures
            builder.spec_bundle() == bundle,
            builder.specs() == Seq::<SpanSpecView>::empty(),
    {
        let builder = AggregateBuilder { bundle, spans: Vec::new() };
        assert(builder.specs() =~= Seq::<SpanSpecView>::empty());
        builder
    }

    /// Adds a span behind those already collected. Without a style the
    /// span gets the default style.
    pub fn span(self, text: &str, style: Option<TextStyle>, tags: Vec<u64>) -> (builder:
        AggregateBuilder)
        ensures
            builder.spec_bundle() == self.spec_bundle(),
            builder.specs() == self.specs().push(
                SpanSpecView {
                    section: SectionView {
                        text: text_bytes(text@),
                        style: match style {
                            Some(style) => style,
                            None => TextStyle::spec_default(),
                        },
                    },
                    tags: tags@,
                },
            ),
    {
        let style = match style {
            Some(style) => style,
            None => TextStyle::default(),
        };
        let mut builder = self;
        let ghost before = builder.specs();
        let spec = SpanSpec { span: TextSpan(TextSection::new(text, style)), tags };
        let ghost added = spec.view();
        builder.spans.push(spec);
        assert(builder.specs() =~= before.push(added));
        builder
    }

    /// Number of spans collected.
    pub fn len(&self) -> (n: usize)
        ensures
            n == self.specs().len(),
    {
        self.spans.len()
    }

    /// Puts the aggregate and its spans into `world`.
    pub fn build(self, world: &mut World) -> (aggregate: Aggregate)
        requires
            old(world).wf(),
        ensures
            final(world).wf(),
            aggregate.entity.0 == old(world)@.len(),
            aggregate.bundle == self.spec_bundle(),
            built(old(world)@, final(world)@, self.specs(), self.specs().len()),
    {
        let ghost before = world@;
        let ghost specs = self.specs();
        let ghost at = before.len() as int;
        let entity = world.spawn();
        world.insert_aggregate(entity);
        assert(built(before, world@, specs, 0)) by {
            assert(world@[at] == aggregate_node(at, 0));
        }
        let mut j: usize = 0;
        while j < self.spans.len()
            invariant
                0 <= j <= self.spans.len(),
                specs == self.specs(),
                specs.len() == self.spans@.len(),
                at == before.len(),
                entity.0 == at,
                world.wf(),
                built(before, world@, specs, j as nat),
            decreases self.spans.len() - j,
        {
            let ghost now = world@;
            let spec = &self.spans[j];
            assert(spec.view() == specs[j as int]);
            let child = world.spawn_child(entity).unwrap();
            world.insert_span(child, spec.span.clone());
            let ghost tagless = world@;
            proof {
                assert(spec.tags@.take(0) =~= Seq::<u64>::empty());
                assert(tagless =~= tagless.update(
                    child.0 as int,
                    NodeView { tags: spec.tags@.take(0), ..tagless[child.0 as int] },
                ));
            }
            let mut t: usize = 0;
            while t < spec.tags.len()
                invariant
                    0 <= t <= spec.tags.len(),
                    world.wf(),
                    child.0 == at + 1 + j,
                    child.0 < tagless.len(),
                    tagless[child.0 as int].alive,
                    tagless[child.0 as int].tags == Seq::<u64>::empty(),
                    world@ == tagless.update(
                        child.0 as int,
                        NodeView { tags: spec.tags@.take(t as int), ..tagless[child.0 as int] },
                    ),
                decreases spec.tags.len() - t,
            {
                world.insert_tag(child, spec.tags[t]);
                proof {
                    assert(spec.tags@.take(t as int).push(spec.tags@[t as int]) =~= spec.tags@.take(
                        t + 1,
                    ));
                    assert(world@ =~= tagless.update(
                        child.0 as int,
                        NodeView { tags: spec.tags@.take(t + 1), ..tagless[child.0 as int] },
                    ));
                }
                t += 1;
            }
            proof {
                assert(spec.tags@.take(spec.tags@.len() as int) =~= spec.tags@);
                let after = world@;
                assert(after[at] == aggregate_node(at, (j + 1) as nat));
                assert(after[at + 1 + j] == span_node(at, specs[j as int]));
                assert forall|k: int| 0 <= k < j + 1 implies #[trigger] after[at + 1 + k]
                    == span_node(at, specs[k]) by {
                    if k < j {
                        assert(now[at + 1 + k] == span_node(at, specs[k]));
                    }
                }
                assert forall|i: int| 0 <= i < at implies #[trigger] after[i] == before[i] by {
                    assert(now[i] == before[i]);
                }
            }
            j += 1;
        }
        Aggregate { entity, bundle: self.bundle }
    }
}

/// Begins an aggregate of text in the user interface.
pub fn text() -> (builder: AggregateBuilder)
    ensures
        builder.spec_bundle() == Bundle::Text,
        builder.specs() == Seq::<SpanSpecView>::empty(),
{
    AggregateBuilder::new(Bundle::Text)
}

/// Begins an aggregate of text in the two-dimensional scene.
pub fn text2d() -> (builder: AggregateBuilder)
    ensures
        builder.spec_bundle() == Bundle::Text2d,
        builder.specs() == Seq::<SpanSpecView>::empty(),
{
    AggregateBuilder::new(Bundle::Text2d)
}

proof fn lemma_run_of(start: int, count: nat)
    requires
        0 <= start,
        start + count <= usize::MAX + 1,
    ensures
        run_of(start, count).len() == count,
        forall|j: int| 0 <= j < count ==> #[trigger] run_of(start, count)[j] == start + j,
    decreases count,
{
    if count > 0 {
        lemma_run_of(start, (count - 1) as nat);
    }
}

/// The first pass of the synchronizer after an aggregate was built gives it
/// the flat text that its builder spelled out: one section for each span,
/// in the order the spans were added, with the text and the style of the
/// span.
pub proof fn lemma_built_then_synced(
    before: Seq<NodeView>,
    after: Seq<NodeView>,
    specs: Seq<SpanSpecView>,
    last: Seq<NodeView>,
)
    requires
        world_wf(before),
        built(before, after, specs, specs.len()),
        after.len() <= usize::MAX,
        crate::sync::synced(after, last),
    ensures
        last[before.len() as int].text is Some,
        last[before.len() as int].text->0.len() == specs.len(),
        forall|j: int|
            0 <= j < specs.len() ==> #[trigger] last[before.len() as int].text->0[j]
                == specs[j].section,
{
    let at = before.len() as int;
    let count = specs.len();
    lemma_run_of(at + 1, count);
    assert(after[at] == aggregate_node(at, count));
    assert(last[at] == crate::sync::synced_node(after, at));
    if count > 0 {
        assert(crate::sync::marks(after, at, at));
        assert(crate::sync::rebuildable(after, at));
        assert(crate::sync::leaves_from(after, at, 0)) by {
            assert forall|k: int| 0 <= k < after[at].children.len() implies {
                let c = #[trigger] after[at].children[k] as int;
                &&& at < c < after.len()
                &&& after[c].span is Some
                &&& after[c].children.len() == 0
            } by {
                assert(after[at + 1 + k] == span_node(at, specs[k]));
            }
        }
        crate::sync::lemma_flat_text_of_spans(after, at);
        let flat = crate::sync::flat_text(after, at);
        assert forall|j: int| 0 <= j < specs.len() implies flat[j] == specs[j].section by {
            assert(after[at + 1 + j] == span_node(at, specs[j]));
            assert(after[after[at].children[j] as int].span == Some(flat[j]));
        }
    } else {
        assert(!crate::sync::dirty(after, at)) by {
            if crate::sync::dirty(after, at) {
                let s = choose|s: int| crate::sync::marks(after, s, at);
                if s < at {
                    assert(after[s] == before[s]);
                    assert(node_wf(before, s));
                }
            }
        }
    }
}

} // verus!
