//! The entities that text is assembled from.
//!
//! Entities live in an arena and are named by their place in it. An entity
//! may hang below another one, may be an aggregate (it carries the marker
//! and a flat text), and may be a span (it carries a section of text). The
//! store remembers which spans were written and which entities gained or
//! lost a child since the synchronizer last ran.
//!
//! A child is always made after its parent, so it stands later in the arena.
//! That is what keeps the hierarchy free of cycles.

use vstd::prelude::*;
use crate::span::{sections_view, SectionView, TextSection, TextSpan};

verus! {

/// The name of an entity: its place in the arena.
#[derive(Clone, Copy, Debug, PartialEq, Eq, Hash, Structural)]
pub struct Entity(pub usize);

/// What the store holds of one entity, as mathematics.
pub struct NodeView {
    /// Whether the entity still exists.
    pub alive: bool,
    /// The entity that this one hangs below.
    pub parent: Option<usize>,
    /// The entities that hang below this one, in document order.
    pub children: Seq<usize>,
    /// Whether the entity carries the marker of an aggregate.
    pub marker: bool,
    /// The flat text of the entity, if it has one.
    pub text: Option<Seq<SectionView>>,
    /// What the entity contributes as a span, if it is one.
    pub span: Option<SectionView>,
    /// Whether the span was written since the last synchronization.
    pub span_changed: bool,
    /// Whether a child came or went since the last synchronization.
    pub children_changed: bool,
    /// The tags that the entity carries, in the order they were put on.
    pub tags: Seq<u64>,
}

/// The links of entity `i` are sound: its parent stands before it, its
/// children stand after it, exist, and name it as their parent. An entity
/// that is gone has no children, and an entity that exists hangs below one
/// that exists.
pub open spec fn node_wf(world: Seq<NodeView>, i: int) -> bool {
    &&& world[i].parent matches Some(p) ==> p < i && (world[i].alive ==> world[p as int].alive)
    &&& !world[i].alive ==> world[i].children.len() == 0
    &&& forall|k: int|
        0 <= k < world[i].children.len() ==> {
            let c = #[trigger] world[i].children[k];
            &&& i < c < world.len()
            &&& world[c as int].alive
            &&& world[c as int].parent == Some(i as usize)
        }
}

/// The links of all entities are sound.
pub open spec fn world_wf(world: Seq<NodeView>) -> bool {
    forall|i: int| 0 <= i < world.len() ==> #[trigger] node_wf(world, i)
}

/// Whether `e` names an entity of `world` that exists.
pub open spec fn exists_in(world: Seq<NodeView>, e: Entity) -> bool {
    e.0 < world.len() && world[e.0 as int].alive
}

/// An entity as it is made: alone but for its parent, and unchanged.
pub open spec fn fresh(parent: Option<usize>) -> NodeView {
    NodeView {
        alive: true,
        parent,
        children: Seq::empty(),
        marker: false,
        text: None,
        span: None,
        span_changed: false,
        children_changed: false,
        tags: Seq::empty(),
    }
}

/// The view of a flat text that may be missing.
pub open spec fn text_view(text: Option<Vec<TextSection>>) -> Option<Seq<SectionView>> {
    match text {
        Some(sections) => Some(sections_view(sections@)),
        None => None,
    }
}

struct Node {
    alive: bool,
    parent: Option<usize>,
    children: Vec<usize>,
    marker: bool,
    text: Option<Vec<TextSection>>,
    span: Option<TextSpan>,
    span_changed: bool,
    children_changed: bool,
    tags: Vec<u64>,
}

impl Node {
    spec fn view(&self) -> NodeView {
        NodeView {
            alive: self.alive,
            parent: self.parent,
            children: self.children@,
            marker: self.marker,
            text: text_view(self.text),
            span: match self.span {
                Some(span) => Some(span@),
                None => None,
            },
            span_changed: self.span_changed,
            children_changed: self.children_changed,
            tags: self.tags@,
        }
    }
}

/// The arena of entities.
pub struct World {
    nodes: Vec<Node>,
}

impl View for World {
    type V = Seq<NodeView>;

    closed spec fn view(&self) -> Seq<NodeView> {
        Seq::new(self.nodes@.len(), |i: int| self.nodes@[i].view())
    }
}

impl World {
    /// The links of the store are sound. Every store made and changed by
    /// the functions of this type is.
    pub open spec fn wf(&self) -> bool {
        world_wf(self@)
    }

    /// An empty store.
    pub fn new() -> (world: World)
        ensures
            world@ == Seq::<NodeView>::empty(),
            world.wf(),
    {
        let world = World { nodes: Vec::new() };
        assert(world@ =~= Seq::<NodeView>::empty());
        world
    }

    /// Number of entities ever made.
    pub fn len(&self) -> (n: usize)
        ensures
            n == self@.len(),
    {
        self.nodes.len()
    }

    /// Whether `e` names an entity that exists.
    pub fn contains(&self, e: Entity) -> (yes: bool)
        ensures
            yes == exists_in(self@, e),
    {
        e.0 < self.nodes.len() && self.nodes[e.0].alive
    }

    /// Makes an entity that hangs below nothing.
    pub fn spawn(&mut self) -> (e: Entity)
        requires
            old(self).wf(),
        ensures
            final(self).wf(),
            e.0 == old(self)@.len(),
            final(self)@ == old(self)@.push(fresh(None)),
    {
        let e = Entity(self.nodes.len());
        self.nodes.push(
            Node {
                alive: true,
                parent: None,
                children: Vec::new(),
                marker: false,
                text: None,
                span: None,
                span_changed: false,
                children_changed: false,
                tags: Vec::new(),
            },
        );
        proof {
            assert(self@ =~= old(self)@.push(fresh(None)));
            assert forall|i: int| 0 <= i < self@.len() implies #[trigger] node_wf(self@, i) by {
                if i < old(self)@.len() {
                    assert(node_wf(old(self)@, i));
                }
            }
        }
        e
    }

    /// Makes an entity that hangs below `parent`, after the children that
    /// `parent` has already. The parent is noted to have gained a child.
    /// Nothing is made where `parent` does not exist.
    pub fn spawn_child(&mut self, parent: Entity) -> (e: Option<Entity>)
        requires
            old(self).wf(),
        ensures
            final(self).wf(),
            e is Some <==> exists_in(old(self)@, parent),
            e is None ==> final(self)@ == old(self)@,
            e matches Some(child) ==> {
                let p = parent.0 as int;
                &&& child.0 == old(self)@.len()
                &&& final(self)@ == old(self)@.update(
                    p,
                    NodeView {
                        children: old(self)@[p].children.push(child.0),
                        children_changed: true,
                        ..old(self)@[p]
                    },
                ).push(fresh(Some(parent.0)))
            },
    {
        if !self.contains(parent) {
            return None;
        }
        let child = self.nodes.len();
        self.nodes.push(
            Node {
                alive: true,
                parent: Some(parent.0),
                children: Vec::new(),
                marker: false,
                text: None,
                span: None,
                span_changed: false,
                children_changed: false,
                tags: Vec::new(),
            },
        );
        self.nodes[parent.0].children.push(child);
        self.nodes[parent.0].children_changed = true;
        proof {
            let p = parent.0 as int;
            let before = old(self)@;
            let after = before.update(
                p,
                NodeView {
                    children: before[p].children.push(child),
                    children_changed: true,
                    ..before[p]
                },
            ).push(fresh(Some(parent.0)));
            assert(self@ =~= after);
            assert forall|i: int| 0 <= i < after.len() implies #[trigger] node_wf(after, i) by {
                if i < before.len() {
                    assert(node_wf(before, i));
                    if i == p {
                        assert forall|k: int| 0 <= k < after[i].children.len() implies {
                            let c = #[trigger] after[i].children[k];
                            &&& i < c < after.len()
                            &&& after[c as int].alive
                            &&& after[c as int].parent == Some(i as usize)
                        } by {
                            if k < before[i].children.len() {
                                assert(after[i].children[k] == before[i].children[k]);
                            }
                        }
                    }
                }
            }
        }
        Some(Entity(child))
    }

    /// Makes `e` an aggregate without text: it gets the marker and an empty
    /// flat text. Returns whether `e` exists.
    pub fn insert_aggregate(&mut self, e: Entity) -> (done: bool)
        requires
            old(self).wf(),
        ensures
            final(self).wf(),
            done == exists_in(old(self)@, e),
            !done ==> final(self)@ == old(self)@,
            done ==> final(self)@ == old(self)@.update(
                e.0 as int,
                NodeView { marker: true, text: Some(Seq::empty()), ..old(self)@[e.0 as int] },
            ),
    {
        if !self.contains(e) {
            return false;
        }
        self.nodes[e.0].marker = true;
        self.nodes[e.0].text = Some(Vec::new());
        proof {
            let after = old(self)@.update(
                e.0 as int,
                NodeView { marker: true, text: Some(Seq::empty()), ..old(self)@[e.0 as int] },
            );
            assert(sections_view(Seq::<TextSection>::empty()) =~= Seq::<SectionView>::empty());
            assert(self@ =~= after);
            lemma_wf_same_links(old(self)@, after);
        }
        true
    }

    /// Gives `e` the marker of an aggregate, or takes it away. Returns
    /// whether `e` exists.
    pub fn set_marker(&mut self, e: Entity, marker: bool) -> (done: bool)
        requires
            old(self).wf(),
        ensures
            final(self).wf(),
            done == exists_in(old(self)@, e),
            !done ==> final(self)@ == old(self)@,
            done ==> final(self)@ == old(self)@.update(
                e.0 as int,
                NodeView { marker, ..old(self)@[e.0 as int] },
            ),
    {
        if !self.contains(e) {
            return false;
        }
        self.nodes[e.0].marker = marker;
        proof {
            let after = old(self)@.update(
                e.0 as int,
                NodeView { marker, ..old(self)@[e.0 as int] },
            );
            assert(self@ =~= after);
            lemma_wf_same_links(old(self)@, after);
        }
        true
    }

    /// Writes the flat text of `e`, or takes it away. Returns whether `e`
    /// exists.
    pub fn set_text(&mut self, e: Entity, text: Option<Vec<TextSection>>) -> (done: bool)
        requires
            old(self).wf(),
        ensures
            final(self).wf(),
            done == exists_in(old(self)@, e),
            !done ==> final(self)@ == old(self)@,
            done ==> final(self)@ == old(self)@.update(
                e.0 as int,
                NodeView { text: text_view(text), ..old(self)@[e.0 as int] },
            ),
    {
        if !self.contains(e) {
            return false;
        }
        let ghost written = text_view(text);
        self.nodes[e.0].text = text;
        proof {
            let after = old(self)@.update(
                e.0 as int,
                NodeView { text: written, ..old(self)@[e.0 as int] },
            );
            assert(self@ =~= after);
            lemma_wf_same_links(old(self)@, after);
        }
        true
    }

    /// Makes `e` a span with the given contribution, or writes the span
    /// that `e` is already. The span is noted as written. Returns whether
    /// `e` exists.
    pub fn insert_span(&mut self, e: Entity, span: TextSpan) -> (done: bool)
        requires
            old(self).wf(),
        ensures
            final(self).wf(),
            done == exists_in(old(self)@, e),
            !done ==> final(self)@ == old(self)@,
            done ==> final(self)@ == old(self)@.update(
                e.0 as int,
                NodeView { span: Some(span@), span_changed: true, ..old(self)@[e.0 as int] },
            ),
    {
        if !self.contains(e) {
            return false;
        }
        let ghost written = span@;
        self.nodes[e.0].span = Some(span);
        self.nodes[e.0].span_changed = true;
        proof {
            let after = old(self)@.update(
                e.0 as int,
                NodeView { span: Some(written), span_changed: true, ..old(self)@[e.0 as int] },
            );
            assert(self@ =~= after);
            lemma_wf_same_links(old(self)@, after);
        }
        true
    }

    /// Takes from `e` what it contributes as a span. Returns whether `e`
    /// exists.
    pub fn remove_span(&mut self, e: Entity) -> (done: bool)
        requires
            old(self).wf(),
        ensures
            final(self).wf(),
            done == exists_in(old(self)@, e),
            !done ==> final(self)@ == old(self)@,
            done ==> final(self)@ == old(self)@.update(
                e.0 as int,
                NodeView { span: None, span_changed: false, ..old(self)@[e.0 as int] },
            ),
    {
        if !self.contains(e) {
            return false;
        }
        self.nodes[e.0].span = None;
        self.nodes[e.0].span_changed = false;
        proof {
            let after = old(self)@.update(
                e.0 as int,
                NodeView { span: None, span_changed: false, ..old(self)@[e.0 as int] },
            );
            assert(self@ =~= after);
            lemma_wf_same_links(old(self)@, after);
        }
        true
    }

    /// Notes that the span of `e` was written. Returns whether `e` exists.
    pub fn mark_span_changed(&mut self, e: Entity) -> (done: bool)
        requires
            old(self).wf(),
        ensures
            final(self).wf(),
            done == exists_in(old(self)@, e),
            !done ==> final(self)@ == old(self)@,
            done ==> final(self)@ == old(self)@.update(
                e.0 as int,
                NodeView { span_changed: true, ..old(self)@[e.0 as int] },
            ),
    {
        if !self.contains(e) {
            return false;
        }
        self.nodes[e.0].span_changed = true;
        proof {
            let after = old(self)@.update(
                e.0 as int,
                NodeView { span_changed: true, ..old(self)@[e.0 as int] },
            );
            assert(self@ =~= after);
            lemma_wf_same_links(old(self)@, after);
        }
        true
    }

    /// Notes that `e` gained or lost a child. Returns whether `e` exists.
    pub fn mark_children_changed(&mut self, e: Entity) -> (done: bool)
        requires
            old(self).wf(),
        ensures
            final(self).wf(),
            done == exists_in(old(self)@, e),
            !done ==> final(self)@ == old(self)@,
            done ==> final(self)@ == old(self)@.update(
                e.0 as int,
                NodeView { children_changed: true, ..old(self)@[e.0 as int] },
            ),
    {
        if !self.contains(e) {
            return false;
        }
        self.nodes[e.0].children_changed = true;
        proof {
            let after = old(self)@.update(
                e.0 as int,
                NodeView { children_changed: true, ..old(self)@[e.0 as int] },
            );
            assert(self@ =~= after);
            lemma_wf_same_links(old(self)@, after);
        }
        true
    }

    /// Forgets every noted change: what the synchronizer does when it has
    /// looked at them.
    pub fn clear_changes(&mut self)
        requires
            old(self).wf(),
        ensures
            final(self).wf(),
            final(self)@.len() == old(self)@.len(),
            forall|i: int|
                0 <= i < old(self)@.len() ==> #[trigger] final(self)@[i] == (NodeView {
                    span_changed: false,
                    children_changed: false,
                    ..old(self)@[i]
                }),
    {
        let mut i: usize = 0;
        while i < self.nodes.len()
            invariant
                0 <= i <= self.nodes.len(),
                self@.len() == old(self)@.len(),
                forall|k: int|
                    0 <= k < i ==> #[trigger] self@[k] == (NodeView {
                        span_changed: false,
                        children_changed: false,
                        ..old(self)@[k]
                    }),
                forall|k: int| i <= k < self@.len() ==> #[trigger] self@[k] == old(self)@[k],
            decreases self.nodes.len() - i,
        {
            let ghost before = self@;
            self.nodes[i].span_changed = false;
            self.nodes[i].children_changed = false;
            proof {
                assert(self@ =~= before.update(
                    i as int,
                    NodeView { span_changed: false, children_changed: false, ..before[i as int] },
                ));
            }
            i += 1;
        }
        proof {
            lemma_wf_same_links(old(self)@, self@);
        }
    }

    /// Puts a tag on `e`. Returns whether `e` exists.
    pub fn insert_tag(&mut self, e: Entity, tag: u64) -> (done: bool)
        requires
            old(self).wf(),
        ensures
            final(self).wf(),
            done == exists_in(old(self)@, e),
            !done ==> final(self)@ == old(self)@,
            done ==> final(self)@ == old(self)@.update(
                e.0 as int,
                NodeView { tags: old(self)@[e.0 as int].tags.push(tag), ..old(self)@[e.0 as int] },
            ),
    {
        if !self.contains(e) {
            return false;
        }
        self.nodes[e.0].tags.push(tag);
        proof {
            let after = old(self)@.update(
                e.0 as int,
                NodeView { tags: old(self)@[e.0 as int].tags.push(tag), ..old(self)@[e.0 as int] },
            );
            assert(self@ =~= after);
            lemma_wf_same_links(old(self)@, after);
        }
        true
    }

    /// Whether `e` exists and carries `tag`.
    pub fn has_tag(&self, e: Entity, tag: u64) -> (yes: bool)
        ensures
            yes == (exists_in(self@, e) && self@[e.0 as int].tags.contains(tag)),
    {
        if !self.contains(e) {
            return false;
        }
        let tags = &self.nodes[e.0].tags;
        assert(self@[e.0 as int].tags == tags@);
        let mut k: usize = 0;
        while k < tags.len()
            invariant
                0 <= k <= tags.len(),
                exists_in(self@, e),
                self@[e.0 as int].tags == tags@,
                forall|j: int| 0 <= j < k ==> tags@[j] != tag,
            decreases tags.len() - k,
        {
            if tags[k] == tag {
                assert(tags@[k as int] == tag);
                return true;
            }
            k += 1;
        }
        false
    }

    /// Destroys `e` and all that hangs below it. What `e` hung below is
    /// noted to have lost a child. Returns whether `e` existed.
    pub fn despawn(&mut self, e: Entity) -> (done: bool)
        requires
            old(self).wf(),
        ensures
            final(self).wf(),
            done == exists_in(old(self)@, e),
            !done ==> final(self)@ == old(self)@,
            done ==> final(self)@.len() == old(self)@.len() && forall|i: int|
                0 <= i < old(self)@.len() ==> #[trigger] final(self)@[i] == despawned_node(
                    old(self)@,
                    e.0 as int,
                    i,
                ),
    {
        if !self.contains(e) {
            return false;
        }
        let ghost before = self@;
        let n = self.nodes.len();
        proof {
            assert(node_wf(before, e.0 as int));
        }
        if let Some(p) = self.nodes[e.0].parent {
            let mut rest: Vec<usize> = Vec::new();
            let mut k: usize = 0;
            while k < self.nodes[p as usize].children.len()
                invariant
                    self@ == before,
                    p < self.nodes@.len(),
                    0 <= k <= self.nodes@[p as int].children@.len(),
                    rest@ == without(before[p as int].children, e.0, k as nat),
                decreases self.nodes@[p as int].children@.len() - k,
            {
                let c = self.nodes[p].children[k];
                if c != e.0 {
                    rest.push(c);
                }
                k += 1;
            }
            self.nodes[p].children = rest;
            self.nodes[p].children_changed = true;
        }
        proof {
            assert forall|k: int| 0 <= k < e.0 implies #[trigger] self@[k] == despawned_node(
                before,
                e.0 as int,
                k,
            ) by {
                if hangs_below(before, k, e.0 as int) {
                    lemma_below_is_later(before, k, e.0 as int);
                }
            }
            assert forall|k: int| 0 <= k < e.0 implies !hangs_below(before, k, e.0 as int) by {
                if hangs_below(before, k, e.0 as int) {
                    lemma_below_is_later(before, k, e.0 as int);
                }
            }
        }
        let mut gone: Vec<bool> = Vec::new();
        let mut i: usize = 0;
        while i < n
            invariant
                0 <= i <= n,
                gone@.len() == i,
                forall|k: int| 0 <= k < i ==> !(#[trigger] gone@[k]),
            decreases n - i,
        {
            gone.push(false);
            i += 1;
        }
        let mut i: usize = e.0;
        while i < n
            invariant
                e.0 <= i <= n,
                n == before.len(),
                self@.len() == n,
                world_wf(before),
                gone@.len() == n,
                forall|k: int|
                    0 <= k < i ==> #[trigger] self@[k] == despawned_node(before, e.0 as int, k),
                forall|k: int| i <= k < n ==> #[trigger] self@[k] == before[k],
                forall|k: int| i <= k < n ==> !(#[trigger] gone@[k]),
                forall|k: int|
                    0 <= k < i ==> (#[trigger] gone@[k]) == (before[k].alive && hangs_below(
                        before,
                        k,
                        e.0 as int,
                    )),
            decreases n - i,
        {
            proof {
                assert(node_wf(before, i as int));
                assert(self@[i as int] == before[i as int]);
                assert(self@[i as int].parent == self.nodes@[i as int].parent);
                assert(self@[i as int].alive == self.nodes@[i as int].alive);
            }
            let below = i == e.0 || match self.nodes[i].parent {
                Some(q) => gone[q],
                None => false,
            };
            if self.nodes[i].alive && below {
                let ghost now = self@;
                self.nodes[i].alive = false;
                self.nodes[i].children = Vec::new();
                gone.set(i, true);
                proof {
                    assert(hangs_below(before, i as int, e.0 as int));
                    assert(self@ =~= now.update(
                        i as int,
                        NodeView { alive: false, children: Seq::empty(), ..now[i as int] },
                    ));
                }
            } else {
                proof {
                    if before[i as int].alive {
                        assert(!hangs_below(before, i as int, e.0 as int));
                    }
                    assert(node_wf(before, e.0 as int));
                    assert(before[e.0 as int].parent != Some(i));
                }
            }
            i += 1;
        }
        proof {
            lemma_despawn_wf(before, self@, e.0 as int);
        }
        true
    }

    /// The entity that `e` hangs below.
    pub fn parent(&self, e: Entity) -> (parent: Option<Entity>)
        ensures
            parent == (if exists_in(self@, e) {
                match self@[e.0 as int].parent {
                    Some(p) => Some(Entity(p)),
                    None => None,
                }
            } else {
                None
            }),
    {
        if !self.contains(e) {
            return None;
        }
        match self.nodes[e.0].parent {
            Some(p) => Some(Entity(p)),
            None => None,
        }
    }

    /// The entities that hang below `e`, in document order; none where `e`
    /// does not exist.
    pub fn children(&self, e: Entity) -> (children: Vec<Entity>)
        ensures
            exists_in(self@, e) ==> children@.len() == self@[e.0 as int].children.len() && forall|
                k: int,
            |
                0 <= k < children@.len() ==> (#[trigger] children@[k]).0
                    == self@[e.0 as int].children[k],
            !exists_in(self@, e) ==> children@.len() == 0,
    {
        let mut children: Vec<Entity> = Vec::new();
        if !self.contains(e) {
            return children;
        }
        let list = &self.nodes[e.0].children;
        let mut k: usize = 0;
        while k < list.len()
            invariant
                0 <= k <= list.len(),
                children@.len() == k,
                forall|j: int| 0 <= j < k ==> (#[trigger] children@[j]).0 == list@[j],
            decreases list.len() - k,
        {
            children.push(Entity(list[k]));
            k += 1;
        }
        children
    }

    /// The child of `e` at place `k` in document order.
    pub fn child(&self, e: Entity, k: usize) -> (child: Option<Entity>)
        ensures
            child == (if exists_in(self@, e) && k < self@[e.0 as int].children.len() {
                Some(Entity(self@[e.0 as int].children[k as int]))
            } else {
                None
            }),
    {
        if !self.contains(e) || k >= self.nodes[e.0].children.len() {
            return None;
        }
        Some(Entity(self.nodes[e.0].children[k]))
    }

    /// Number of entities that hang below `e`.
    pub fn child_count(&self, e: Entity) -> (count: usize)
        ensures
            count == (if exists_in(self@, e) {
                self@[e.0 as int].children.len()
            } else {
                0
            }),
    {
        if !self.contains(e) {
            return 0;
        }
        self.nodes[e.0].children.len()
    }

    /// Whether `e` exists and carries the marker of an aggregate.
    pub fn has_marker(&self, e: Entity) -> (yes: bool)
        ensures
            yes == (exists_in(self@, e) && self@[e.0 as int].marker),
    {
        self.contains(e) && self.nodes[e.0].marker
    }

    /// The flat text of `e`, if `e` exists and has one.
    pub fn text(&self, e: Entity) -> (text: Option<&Vec<TextSection>>)
        ensures
            text is Some <==> exists_in(self@, e) && self@[e.0 as int].text is Some,
            text matches Some(sections) ==> self@[e.0 as int].text == Some(
                sections_view(sections@),
            ),
    {
        if !self.contains(e) {
            return None;
        }
        self.nodes[e.0].text.as_ref()
    }

    /// What `e` contributes as a span, if `e` exists and is one.
    pub fn span(&self, e: Entity) -> (span: Option<&TextSpan>)
        ensures
            span is Some <==> exists_in(self@, e) && self@[e.0 as int].span is Some,
            span matches Some(s) ==> self@[e.0 as int].span == Some(s@),
    {
        if !self.contains(e) {
            return None;
        }
        self.nodes[e.0].span.as_ref()
    }

    /// Whether `e` exists and its span was written since the last
    /// synchronization.
    pub fn span_changed(&self, e: Entity) -> (yes: bool)
        ensures
            yes == (exists_in(self@, e) && self@[e.0 as int].span_changed),
    {
        self.contains(e) && self.nodes[e.0].span_changed
    }

    /// Whether `e` exists and gained or lost a child since the last
    /// synchronization.
    pub fn children_changed(&self, e: Entity) -> (yes: bool)
        ensures
            yes == (exists_in(self@, e) && self@[e.0 as int].children_changed),
    {
        self.contains(e) && self.nodes[e.0].children_changed
    }
}

/// The first `upto` entries of `list` without those equal to `x`.
pub open spec fn without(list: Seq<usize>, x: usize, upto: nat) -> Seq<usize>
    decreases upto,
{
    if upto == 0 {
        Seq::empty()
    } else {
        let before = without(list, x, (upto - 1) as nat);
        if list[upto - 1] == x {
            before
        } else {
            before.push(list[upto - 1])
        }
    }
}

/// Entity `i` is `e` or hangs below it, however far.
pub open spec fn hangs_below(world: Seq<NodeView>, i: int, e: int) -> bool
    decreases i,
{
    i == e || (0 <= i < world.len() && match world[i].parent {
        Some(p) => p < i && hangs_below(world, p as int, e),
        None => false,
    })
}

/// Entity `i` after `e` was destroyed: gone and childless if it existed
/// and was `e` or hung below it; short of the child `e` if `e` hung
/// directly below it; else as it was.
pub open spec fn despawned_node(world: Seq<NodeView>, e: int, i: int) -> NodeView {
    if world[i].alive && hangs_below(world, i, e) {
        NodeView { alive: false, children: Seq::empty(), ..world[i] }
    } else if world[e].parent == Some(i as usize) {
        NodeView {
            children: without(world[i].children, e as usize, world[i].children.len()),
            children_changed: true,
            ..world[i]
        }
    } else {
        world[i]
    }
}

/// What hangs below an entity stands later in the arena.
pub proof fn lemma_below_is_later(world: Seq<NodeView>, i: int, e: int)
    requires
        hangs_below(world, i, e),
    ensures
        e <= i,
    decreases i,
{
    if i != e {
        lemma_below_is_later(world, world[i].parent->0 as int, e);
    }
}

proof fn lemma_without_members(list: Seq<usize>, x: usize, upto: nat, k: int)
    requires
        upto <= list.len(),
        0 <= k < without(list, x, upto).len(),
    ensures
        without(list, x, upto)[k] != x,
        exists|j: int| 0 <= j < upto && list[j] == without(list, x, upto)[k],
    decreases upto,
{
    if upto > 0 {
        let before = without(list, x, (upto - 1) as nat);
        if k < before.len() {
            lemma_without_members(list, x, (upto - 1) as nat, k);
            let j = choose|j: int| 0 <= j < upto - 1 && list[j] == before[k];
            assert(0 <= j < upto && list[j] == without(list, x, upto)[k]);
        } else {
            assert(list[upto - 1] == without(list, x, upto)[k]);
        }
    }
}

proof fn lemma_despawn_wf(before: Seq<NodeView>, after: Seq<NodeView>, e: int)
    requires
        world_wf(before),
        0 <= e < before.len(),
        before[e].alive,
        after.len() == before.len(),
        forall|i: int| 0 <= i < before.len() ==> #[trigger] after[i] == despawned_node(before, e, i),
    ensures
        world_wf(after),
{
    assert forall|i: int| 0 <= i < after.len() implies #[trigger] node_wf(after, i) by {
        assert(node_wf(before, i));
        assert(after[i] == despawned_node(before, e, i));
        if after[i].alive {
            if let Some(p) = after[i].parent {
                assert(after[p as int] == despawned_node(before, e, p as int));
                assert(!hangs_below(before, i, e));
                assert(!hangs_below(before, p as int, e));
            }
        }
        assert forall|k: int| 0 <= k < after[i].children.len() implies {
            let c = #[trigger] after[i].children[k];
            &&& i < c < after.len()
            &&& after[c as int].alive
            &&& after[c as int].parent == Some(i as usize)
        } by {
            let c = after[i].children[k];
            assert(!(before[i].alive && hangs_below(before, i, e)));
            if before[e].parent == Some(i as usize) {
                lemma_without_members(
                    before[i].children,
                    e as usize,
                    before[i].children.len(),
                    k,
                );
                let j = choose|j: int|
                    0 <= j < before[i].children.len() && before[i].children[j] == c;
                assert(before[i].children[j] == c);
            } else {
                assert(before[i].children[k] == c);
            }
            assert(before[c as int].alive && before[c as int].parent == Some(i as usize));
            assert(after[c as int] == despawned_node(before, e, c as int));
            if c != e {
                assert(hangs_below(before, c as int, e) == hangs_below(before, i, e));
                if !before[i].alive {
                    assert(before[i].children.len() == 0);
                }
            } else {
                assert(before[e].parent == Some(i as usize));
            }
        }
    }
}

/// Soundness of the links does not depend on what the entities carry.
pub proof fn lemma_wf_same_links(before: Seq<NodeView>, after: Seq<NodeView>)
    requires
        world_wf(before),
        after.len() == before.len(),
        forall|i: int|
            0 <= i < before.len() ==> {
                &&& (#[trigger] after[i]).alive == before[i].alive
                &&& after[i].parent == before[i].parent
                &&& after[i].children == before[i].children
            },
    ensures
        world_wf(after),
{
    assert forall|i: int| 0 <= i < after.len() implies #[trigger] node_wf(after, i) by {
        assert(node_wf(before, i));
        assert forall|k: int| 0 <= k < after[i].children.len() implies {
            let c = #[trigger] after[i].children[k];
            &&& i < c < after.len()
            &&& after[c as int].alive
            &&& after[c as int].parent == Some(i as usize)
        } by {
            let c = before[i].children[k];
            assert(after[c as int].alive == before[c as int].alive);
        }
    }
}

} // verus!
