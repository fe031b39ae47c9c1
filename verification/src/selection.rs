//! What is selected in the editor: nothing, a set of scene nodes, or
//! something that belongs to another part of the editor.

use crate::graph::position_of;
use crate::handle::NodeHandle;
use crate::hierarchy::{lemma_without, lemma_without_push, without};
use vstd::prelude::*;
use vstd::std_specs::cmp::PartialEqSpecImpl;

verus! {

/// A set of selected scene nodes, kept in the order in which they were
/// selected. No node stands in it twice.
#[derive(Debug)]
pub struct GraphSelection {
    nodes: Vec<NodeHandle>,
}

/// The selection of the editor.
#[derive(Debug)]
pub enum Selection {
    /// Nothing is selected.
    Nothing,
    /// Scene nodes are selected.
    Graph(GraphSelection),
    /// Something outside the scene graph is selected; the number tells the
    /// owner what.
    Foreign(u64),
}

/// The mathematical value of a selection: its kind and, for scene nodes,
/// the nodes in the order in which they were selected.
pub enum SelectionView {
    Nothing,
    Graph(Seq<NodeHandle>),
    Foreign(u64),
}

/// The order of a selection of scene nodes after toggling `h`: `h` leaves
/// if it is there, and comes last if it is not.
pub open spec fn toggled_listing(listing: Seq<NodeHandle>, h: NodeHandle) -> Seq<NodeHandle> {
    if listing.contains(h) {
        without(listing, h)
    } else {
        listing.push(h)
    }
}

impl SelectionView {
    /// No node is selected twice.
    pub open spec fn valid(self) -> bool {
        self matches SelectionView::Graph(l) ==> l.no_duplicates()
    }

    /// The selected scene nodes in the order of their selection; none where
    /// the selection is not one of scene nodes.
    pub open spec fn listing(self) -> Seq<NodeHandle> {
        match self {
            SelectionView::Graph(l) => l,
            _ => Seq::empty(),
        }
    }

    /// Whether two selections are equal: of the same kind and, where they
    /// select scene nodes, of the same nodes in whatever order.
    pub open spec fn same(self, other: SelectionView) -> bool {
        match (self, other) {
            (SelectionView::Nothing, SelectionView::Nothing) => true,
            (SelectionView::Graph(a), SelectionView::Graph(b)) => a.to_set() == b.to_set(),
            (SelectionView::Foreign(a), SelectionView::Foreign(b)) => a == b,
            _ => false,
        }
    }

    /// The selection after `h` has been put in if it was out and taken out
    /// if it was in. A selection of another part of the editor stays.
    pub open spec fn toggled(self, h: NodeHandle) -> SelectionView {
        match self {
            SelectionView::Nothing => SelectionView::Graph(seq![h]),
            SelectionView::Graph(l) => SelectionView::Graph(toggled_listing(l, h)),
            SelectionView::Foreign(tag) => self,
        }
    }

    /// The selection that toggling each of `handles` in turn makes of
    /// `self`.
    pub open spec fn toggled_all(self, handles: Seq<NodeHandle>) -> SelectionView
        decreases handles.len(),
    {
        if handles.len() == 0 {
            self
        } else {
            self.toggled_all(handles.drop_last()).toggled(handles.last())
        }
    }
}

impl GraphSelection {
    #[verifier::type_invariant]
    spec fn no_node_twice(self) -> bool {
        self.nodes@.no_duplicates()
    }

    /// The selected nodes in the order of their selection.
    pub closed spec fn listing(&self) -> Seq<NodeHandle> {
        self.nodes@
    }

    pub fn new() -> (s: GraphSelection)
        ensures
            s.listing() == Seq::<NodeHandle>::empty(),
    {
        GraphSelection { nodes: Vec::new() }
    }

    /// The selection of `h` alone, or of nothing where `h` is null.
    pub fn single_or_empty(h: NodeHandle) -> (s: GraphSelection)
        ensures
            s.listing() == if h.is_none_spec() {
                Seq::<NodeHandle>::empty()
            } else {
                seq![h]
            },
    {
        let mut nodes: Vec<NodeHandle> = Vec::new();
        if h.is_some() {
            nodes.push(h);
        }
        GraphSelection { nodes }
    }

    /// The selection of `h` alone.
    pub fn single(h: NodeHandle) -> (s: GraphSelection)
        ensures
            s.listing() == seq![h],
    {
        let mut nodes: Vec<NodeHandle> = Vec::new();
        nodes.push(h);
        GraphSelection { nodes }
    }

    pub fn len(&self) -> (n: usize)
        ensures
            n == self.listing().len(),
    {
        self.nodes.len()
    }

    pub fn is_empty(&self) -> (b: bool)
        ensures
            b == (self.listing().len() == 0),
    {
        self.nodes.len() == 0
    }

    pub fn contains(&self, h: NodeHandle) -> (b: bool)
        ensures
            b == self.listing().contains(h),
    {
        position_of(&self.nodes, h).is_some()
    }

    /// The selected nodes in the order of their selection.
    pub fn nodes(&self) -> (v: &Vec<NodeHandle>)
        ensures
            v@ == self.listing(),
    {
        &self.nodes
    }

    /// Takes `h` out if it is selected, and selects it last if it is not.
    pub fn insert_or_exclude(&mut self, h: NodeHandle)
        ensures
            final(self).listing() == toggled_listing(old(self).listing(), h),
            final(self).listing().no_duplicates(),
    {
        proof {
            use_type_invariant(&*self);
            lemma_without(self.nodes@, h);
        }
        let ghost before = self.nodes@;
        let mut nodes = self.copy_nodes();
        match position_of(&nodes, h) {
            Some(i) => {
                assert(before.contains(h));
                assert(before.index_of(h) == i);
                nodes.remove(i);
            },
            None => {
                nodes.push(h);
                proof {
                    let after = nodes@;
                    assert forall|i: int, j: int|
                        0 <= i < after.len() && 0 <= j < after.len() && i != j implies after[i]
                        != after[j] by {
                        if i < before.len() {
                            assert(before.contains(before[i]));
                        }
                        if j < before.len() {
                            assert(before.contains(before[j]));
                        }
                    }
                }
            },
        }
        self.nodes = nodes;
    }

    /// Whether every node of `self` is in `other`.
    fn within(&self, other: &GraphSelection) -> (b: bool)
        ensures
            b == self.listing().to_set().subset_of(other.listing().to_set()),
    {
        let mut i: usize = 0;
        while i < self.nodes.len()
            invariant
                i <= self.nodes.len(),
                forall|j: int| 0 <= j < i ==> other.nodes@.contains(self.nodes@[j]),
            decreases self.nodes.len() - i,
        {
            if !other.contains(self.nodes[i]) {
                assert(self.nodes@.to_set().contains(self.nodes@[i as int]));
                return false;
            }
            i += 1;
        }
        assert forall|h: NodeHandle| self.nodes@.to_set().contains(h) implies other.nodes@.to_set().contains(
            h,
        ) by {
            let j = self.nodes@.index_of(h);
            assert(0 <= j < self.nodes@.len() && self.nodes@[j] == h);
        }
        true
    }

    /// Whether the two hold the same nodes, in whatever order.
    pub fn same_as(&self, other: &GraphSelection) -> (b: bool)
        ensures
            b == (self.listing().to_set() == other.listing().to_set()),
    {
        let b = self.within(other) && other.within(self);
        proof {
            if b {
                assert(self.listing().to_set() =~= other.listing().to_set());
            }
        }
        b
    }

    fn copy_nodes(&self) -> (nodes: Vec<NodeHandle>)
        ensures
            nodes@ == self.nodes@,
    {
        let mut nodes: Vec<NodeHandle> = Vec::new();
        let mut i: usize = 0;
        while i < self.nodes.len()
            invariant
                i <= self.nodes.len(),
                nodes@ == self.nodes@.take(i as int),
            decreases self.nodes.len() - i,
        {
            nodes.push(self.nodes[i]);
            assert(self.nodes@.take(i + 1) =~= self.nodes@.take(i as int).push(
                self.nodes@[i as int],
            ));
            i += 1;
        }
        assert(self.nodes@.take(self.nodes@.len() as int) =~= self.nodes@);
        nodes
    }

    pub fn duplicate(&self) -> (s: GraphSelection)
        ensures
            s.listing() == self.listing(),
    {
        proof {
            use_type_invariant(self);
        }
        GraphSelection { nodes: self.copy_nodes() }
    }
}

impl View for Selection {
    type V = SelectionView;

    open spec fn view(&self) -> SelectionView {
        match self {
            Selection::Nothing => SelectionView::Nothing,
            Selection::Graph(g) => SelectionView::Graph(g.listing()),
            Selection::Foreign(tag) => SelectionView::Foreign(*tag),
        }
    }
}

impl Selection {
    /// Puts `h` into the selection if it is out and takes it out if it is
    /// in. A selection of nothing becomes one of `h` alone; a selection of
    /// another part of the editor stays as it is.
    pub fn toggle(&mut self, h: NodeHandle)
        ensures
            final(self)@ == old(self)@.toggled(h),
            final(self)@.valid(),
    {
        match self {
            Selection::Nothing => {
                *self = Selection::Graph(GraphSelection::single(h));
            },
            Selection::Graph(g) => {
                g.insert_or_exclude(h);
            },
            Selection::Foreign(_) => {},
        }
    }

    /// The selected scene nodes in the order of their selection.
    pub fn nodes(&self) -> (v: Vec<NodeHandle>)
        ensures
            v@ == self@.listing(),
    {
        match self {
            Selection::Graph(g) => g.copy_nodes(),
            _ => Vec::new(),
        }
    }

    /// Whether nothing is selected.
    pub fn is_empty(&self) -> (b: bool)
        ensures
            b == match self {
                Selection::Nothing => true,
                Selection::Graph(g) => g.listing().len() == 0,
                Selection::Foreign(tag) => false,
            },
    {
        match self {
            Selection::Nothing => true,
            Selection::Graph(g) => g.is_empty(),
            Selection::Foreign(_) => false,
        }
    }

    /// Whether the two selections are equal: of the same kind and, where
    /// they select scene nodes, of the same nodes in whatever order.
    pub fn same_as(&self, other: &Selection) -> (b: bool)
        ensures
            b == self@.same(other@),
    {
        match (self, other) {
            (Selection::Nothing, Selection::Nothing) => true,
            (Selection::Graph(a), Selection::Graph(b)) => a.same_as(b),
            (Selection::Foreign(a), Selection::Foreign(b)) => *a == *b,
            _ => false,
        }
    }

    pub fn duplicate(&self) -> (s: Selection)
        ensures
            s@ == self@,
    {
        match self {
            Selection::Nothing => Selection::Nothing,
            Selection::Graph(g) => Selection::Graph(g.duplicate()),
            Selection::Foreign(tag) => Selection::Foreign(*tag),
        }
    }
}

impl Clone for Selection {
    fn clone(&self) -> (s: Selection)
        ensures
            s@ == self@,
    {
        self.duplicate()
    }
}

impl PartialEq for Selection {
    fn eq(&self, other: &Selection) -> (b: bool) {
        self.same_as(other)
    }
}

impl PartialEqSpecImpl for Selection {
    open spec fn obeys_eq_spec() -> bool {
        true
    }

    open spec fn eq_spec(&self, other: &Selection) -> bool {
        self@.same(other@)
    }
}

/// Toggling a node twice gives back the selection one started from, with
/// the node moved to the end of the order if it was selected. This does
/// not hold of the selection of nothing, which toggling twice turns into
/// the selection of no scene node.
pub proof fn lemma_toggle_twice(s: SelectionView, h: NodeHandle)
    requires
        s.valid(),
        !(s is Nothing),
    ensures
        s.toggled(h).valid(),
        s.toggled(h).toggled(h).valid(),
        s.toggled(h).toggled(h).same(s),
{
    match s {
        SelectionView::Graph(l) => {
            lemma_without(l, h);
            if l.contains(h) {
                let l1 = without(l, h);
                let l2 = l1.push(h);
                assert(toggled_listing(l1, h) == l2);
                assert forall|i: int, j: int|
                    0 <= i < l2.len() && 0 <= j < l2.len() && i != j implies l2[i] != l2[j] by {
                    if i < l1.len() {
                        assert(l1.contains(l1[i]));
                    }
                    if j < l1.len() {
                        assert(l1.contains(l1[j]));
                    }
                }
                assert forall|x: NodeHandle| l2.to_set().contains(x) <==> l.to_set().contains(
                    x,
                ) by {
                    if l2.contains(x) {
                        let k = l2.index_of(x);
                        assert(0 <= k < l2.len() && l2[k] == x);
                        if k < l1.len() {
                            assert(l1[k] == x);
                            assert(l1.contains(x));
                        }
                    }
                    if l.contains(x) {
                        if x == h {
                            assert(l2[l1.len() as int] == h);
                        } else {
                            assert(l1.contains(x));
                            let k = l1.index_of(x);
                            assert(0 <= k < l1.len() && l1[k] == x);
                            assert(l2[k] == x);
                        }
                    }
                }
                assert(l2.to_set() =~= l.to_set());
            } else {
                let l1 = l.push(h);
                assert(l1[l.len() as int] == h);
                assert(l1.contains(h));
                lemma_without_push(l, h);
                assert forall|i: int, j: int|
                    0 <= i < l1.len() && 0 <= j < l1.len() && i != j implies l1[i] != l1[j] by {
                    if i < l.len() {
                        assert(l.contains(l[i]));
                    }
                    if j < l.len() {
                        assert(l.contains(l[j]));
                    }
                }
            }
        },
        _ => {},
    }
}

/// Toggling distinct nodes one after the other, starting from nothing,
/// selects exactly these nodes in this order.
pub proof fn lemma_toggled_all_distinct(handles: Seq<NodeHandle>)
    requires
        handles.no_duplicates(),
        handles.len() > 0,
    ensures
        SelectionView::Nothing.toggled_all(handles) == SelectionView::Graph(handles),
    decreases handles.len(),
{
    let rest = handles.drop_last();
    let last = handles.last();
    if rest.len() == 0 {
        assert(SelectionView::Nothing.toggled_all(rest) == SelectionView::Nothing);
        assert(seq![last] =~= handles);
    } else {
        lemma_toggled_all_distinct(rest);
        if rest.contains(last) {
            let k = rest.index_of(last);
            assert(0 <= k < rest.len() && rest[k] == last);
            assert(handles[k] == handles[handles.len() - 1]);
        }
        assert(rest.push(last) =~= handles);
    }
}

/// Selecting anew the nodes that are selected already, in whatever order,
/// makes a selection equal to the current one, so no change of selection
/// follows.
pub proof fn lemma_reselecting_changes_nothing(handles: Seq<NodeHandle>, current: SelectionView)
    requires
        handles.no_duplicates(),
        handles.len() > 0,
        current matches SelectionView::Graph(l) && l.to_set() == handles.to_set(),
    ensures
        SelectionView::Nothing.toggled_all(handles).same(current),
{
    lemma_toggled_all_distinct(handles);
}

} // verus!
