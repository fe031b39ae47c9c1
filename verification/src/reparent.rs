//! What a request to move the selected nodes below another node does to
//! the scene once its commands have been executed.

use crate::command::{executed_all, CommandView, SceneView};
use crate::handle::NodeHandle;
use crate::hierarchy::GraphView;
use crate::provider::{link_batch, survivors};
use crate::selection::SelectionView;
use vstd::prelude::*;

verus! {

impl GraphView {
    /// The graph after each of `children` in turn has been moved below
    /// `parent` where that was possible.
    pub open spec fn relinked_all(self, children: Seq<NodeHandle>, parent: NodeHandle) -> GraphView
        decreases children.len(),
    {
        if children.len() == 0 {
            self
        } else {
            self.relinked_all(children.drop_last(), parent).relinked(children.last(), parent)
        }
    }

    /// Moving nodes that are neither `parent` nor one of its ancestors
    /// below `parent`, one after the other, leaves a tree of the same
    /// nodes, in which `parent` has the ancestors it had. Each of the
    /// nodes that is live has `parent` as its parent, provided `parent` is
    /// live; every other node has the parent it had.
    pub proof fn lemma_relinked_all(self, children: Seq<NodeHandle>, parent: NodeHandle)
        requires
            self.well_formed(),
            forall|i: int|
                0 <= i < children.len() ==> !self.ancestor_or_self(#[trigger] children[i], parent),
        ensures
            self.relinked_all(children, parent).well_formed(),
            self.relinked_all(children, parent).root == self.root,
            forall|h: NodeHandle|
                self.live(h) <==> #[trigger] self.relinked_all(children, parent).live(h),
            forall|a: NodeHandle|
                self.ancestor_or_self(a, parent) <==> #[trigger] self.relinked_all(
                    children,
                    parent,
                ).ancestor_or_self(a, parent),
            forall|h: NodeHandle|
                self.live(h) ==> (#[trigger] self.relinked_all(children, parent).parent_of(h))
                    == if children.contains(h) && self.live(parent) {
                    parent
                } else {
                    self.parent_of(h)
                },
        decreases children.len(),
    {
        if children.len() > 0 {
            let rest = children.drop_last();
            let c = children.last();
            let g1 = self.relinked_all(rest, parent);
            let g2 = self.relinked_all(children, parent);
            assert forall|i: int| 0 <= i < rest.len() implies !self.ancestor_or_self(
                #[trigger] rest[i],
                parent,
            ) by {
                assert(rest[i] == children[i]);
            }
            self.lemma_relinked_all(rest, parent);
            assert(!self.ancestor_or_self(children[children.len() - 1], parent));
            assert(!g1.ancestor_or_self(c, parent));
            if g1.can_link(c, parent) {
                g1.lemma_link_well_formed(c, parent);
                g1.lemma_link_nodes(c, parent);
                assert forall|a: NodeHandle|
                    self.ancestor_or_self(a, parent) <==> #[trigger] g2.ancestor_or_self(
                        a,
                        parent,
                    ) by {
                    g1.lemma_link_ancestors(c, parent, a, parent);
                    assert(g1.ancestor_or_self(a, parent) == self.ancestor_or_self(a, parent));
                }
            }
            assert forall|h: NodeHandle| self.live(h) implies (#[trigger] g2.parent_of(h))
                == if children.contains(h) && self.live(parent) {
                parent
            } else {
                self.parent_of(h)
            } by {
                assert(g1.live(h));
                if h == c {
                    assert(children[children.len() - 1] == h);
                } else if children.contains(h) {
                    let k = children.index_of(h);
                    assert(0 <= k < children.len() && children[k] == h);
                    assert(rest[k] == h);
                    assert(rest.contains(h));
                } else if rest.contains(h) {
                    let k = rest.index_of(h);
                    assert(0 <= k < rest.len() && rest[k] == h);
                    assert(children[k] == h);
                }
            }
        }
    }
}

/// A selected node survives exactly when it is neither the new parent nor
/// one of its ancestors.
pub proof fn lemma_survivors(graph: GraphView, selected: Seq<NodeHandle>, parent: NodeHandle)
    ensures
        forall|h: NodeHandle|
            #[trigger] survivors(graph, selected, parent).contains(h) <==> selected.contains(h)
                && !graph.ancestor_or_self(h, parent),
        forall|i: int|
            0 <= i < survivors(graph, selected, parent).len() ==> !graph.ancestor_or_self(
                #[trigger] survivors(graph, selected, parent)[i],
                parent,
            ),
    decreases selected.len(),
{
    let s = survivors(graph, selected, parent);
    if selected.len() > 0 {
        let rest = selected.drop_last();
        let last = selected.last();
        let r = survivors(graph, rest, parent);
        lemma_survivors(graph, rest, parent);
        assert forall|h: NodeHandle| #[trigger] s.contains(h) <==> selected.contains(h)
            && !graph.ancestor_or_self(h, parent) by {
            if s.contains(h) {
                let k = s.index_of(h);
                assert(0 <= k < s.len() && s[k] == h);
                if k < r.len() {
                    assert(r[k] == h);
                    assert(r.contains(h));
                    let m = rest.index_of(h);
                    assert(0 <= m < rest.len() && rest[m] == h);
                    assert(selected[m] == h);
                } else {
                    assert(h == last);
                    assert(selected[selected.len() - 1] == h);
                }
            }
            if selected.contains(h) && !graph.ancestor_or_self(h, parent) {
                let m = selected.index_of(h);
                assert(0 <= m < selected.len() && selected[m] == h);
                if m < rest.len() {
                    assert(rest[m] == h);
                    assert(rest.contains(h));
                    assert(r.contains(h));
                    let k = r.index_of(h);
                    assert(0 <= k < r.len() && r[k] == h);
                    assert(s[k] == h);
                } else {
                    assert(s[s.len() - 1] == h);
                }
            }
        }
        assert forall|i: int| 0 <= i < s.len() implies !graph.ancestor_or_self(
            #[trigger] s[i],
            parent,
        ) by {
            if i < r.len() {
                assert(s[i] == r[i]);
            }
        }
    }
}

/// Executing the commands that move `children` below `parent` moves each
/// of them in turn where that is possible, and leaves the selection alone.
pub proof fn lemma_batch_executed(children: Seq<NodeHandle>, parent: NodeHandle, scene: SceneView)
    ensures
        executed_all(link_batch(children, parent), scene).scene == (SceneView {
            graph: scene.graph.relinked_all(children, parent),
            selection: scene.selection,
        }),
    decreases children.len(),
{
    let batch = link_batch(children, parent);
    if children.len() > 0 {
        lemma_batch_executed(children.drop_last(), parent, scene);
        assert(batch.drop_last() =~= link_batch(children.drop_last(), parent));
        assert(batch.last() == CommandView::LinkNodes { child: children.last(), parent });
    }
}

/// The scene after the request to move the selected nodes below `parent`
/// has been carried out.
pub open spec fn reparented(graph: GraphView, selection: SelectionView, parent: NodeHandle) -> SceneView {
    executed_all(
        link_batch(survivors(graph, selection.listing(), parent), parent),
        SceneView { graph, selection },
    ).scene
}

/// A request to move nodes leaves a tree of the same nodes and the same
/// selection, whatever is selected and wherever it is to go.
pub proof fn lemma_reparented_is_tree(
    graph: GraphView,
    selection: SelectionView,
    parent: NodeHandle,
)
    requires
        graph.well_formed(),
    ensures
        reparented(graph, selection, parent).graph.well_formed(),
        reparented(graph, selection, parent).selection == selection,
        forall|h: NodeHandle|
            graph.live(h) <==> #[trigger] reparented(graph, selection, parent).graph.live(h),
{
    let moved = survivors(graph, selection.listing(), parent);
    lemma_survivors(graph, selection.listing(), parent);
    lemma_batch_executed(moved, parent, SceneView { graph, selection });
    graph.lemma_relinked_all(moved, parent);
}

/// A node is not moved below itself or one of its own descendants: such a
/// node keeps its parent, and the graph stays a tree, in which no node is
/// its own ancestor.
pub proof fn lemma_move_below_descendant_is_refused(
    graph: GraphView,
    selection: SelectionView,
    parent: NodeHandle,
    node: NodeHandle,
)
    requires
        graph.well_formed(),
        graph.ancestor_or_self(node, parent),
    ensures
        !survivors(graph, selection.listing(), parent).contains(node),
        reparented(graph, selection, parent).graph.well_formed(),
        reparented(graph, selection, parent).graph.live(node),
        reparented(graph, selection, parent).graph.parent_of(node) == graph.parent_of(node),
        !reparented(graph, selection, parent).graph.ancestor(node, node),
{
    let moved = survivors(graph, selection.listing(), parent);
    lemma_survivors(graph, selection.listing(), parent);
    lemma_batch_executed(moved, parent, SceneView { graph, selection });
    graph.lemma_relinked_all(moved, parent);
    let rank = choose|rank: Seq<nat>| graph.ranked(rank);
    graph.lemma_reaches_iff(rank, node, parent);
    graph.lemma_reaches_rank(rank, node, parent);
    reparented(graph, selection, parent).graph.lemma_acyclic(node);
}

/// A selected node that is moved below a live node which is neither the
/// node itself nor one of its descendants ends up there: the new parent
/// is its parent and lists it among its children, and parent and child
/// links agree everywhere in the graph.
pub proof fn lemma_move_below_other_node_succeeds(
    graph: GraphView,
    selection: SelectionView,
    parent: NodeHandle,
    node: NodeHandle,
)
    requires
        graph.well_formed(),
        selection.listing().contains(node),
        graph.live(node),
        graph.live(parent),
        !graph.ancestor_or_self(node, parent),
    ensures
        survivors(graph, selection.listing(), parent).contains(node),
        reparented(graph, selection, parent).graph.well_formed(),
        reparented(graph, selection, parent).graph.parent_of(node) == parent,
        reparented(graph, selection, parent).graph.children_of(parent).contains(node),
{
    let moved = survivors(graph, selection.listing(), parent);
    lemma_survivors(graph, selection.listing(), parent);
    lemma_batch_executed(moved, parent, SceneView { graph, selection });
    graph.lemma_relinked_all(moved, parent);
    let after = reparented(graph, selection, parent).graph;
    assert(after.live(node));
    assert(after.live(parent));
    assert(after.linked(node));
    assert(after.linked(after.root));
}

} // verus!
