//! The mathematical model of the node arena.
//!
//! A graph is a sequence of slots. A slot has a generation and is either
//! occupied by a node or reserved for a node that has been taken out and may
//! come back. A handle is live when its slot is occupied and has the
//! handle's generation. The live nodes form one tree below the root: each of
//! them but the root has a live parent that lists it among its children, and
//! no node is its own ancestor.

use crate::handle::NodeHandle;
use crate::node::NodeView;
use vstd::prelude::*;

verus! {

pub enum SlotView {
    Reserved,
    Occupied(NodeView),
}

pub struct RecordView {
    pub generation: u32,
    pub slot: SlotView,
}

pub struct GraphView {
    pub records: Seq<RecordView>,
    pub root: NodeHandle,
}

/// `s` without the first occurrence of `x`.
pub open spec fn without(s: Seq<NodeHandle>, x: NodeHandle) -> Seq<NodeHandle> {
    if s.contains(x) {
        s.remove(s.index_of(x))
    } else {
        s
    }
}

/// In a list that holds nothing twice, taking `x` out leaves exactly the
/// other items, each once.
pub proof fn lemma_without(s: Seq<NodeHandle>, x: NodeHandle)
    requires
        s.no_duplicates(),
    ensures
        without(s, x).no_duplicates(),
        !without(s, x).contains(x),
        forall|y: NodeHandle| y != x ==> (without(s, x).contains(y) <==> s.contains(y)),
        forall|k: int|
            0 <= k < without(s, x).len() ==> s.contains(#[trigger] without(s, x)[k]) && without(
                s,
                x,
            )[k] != x,
        s.contains(x) ==> without(s, x).len() + 1 == s.len(),
{
    let r = without(s, x);
    if s.contains(x) {
        let i = s.index_of(x);
        assert(0 <= i < s.len() && s[i] == x);
        assert forall|k: int| 0 <= k < r.len() implies s.contains(#[trigger] r[k]) && r[k] != x by {
            if k < i {
                assert(r[k] == s[k]);
            } else {
                assert(r[k] == s[k + 1]);
            }
        }
        assert forall|y: NodeHandle| y != x && s.contains(y) implies r.contains(y) by {
            let m = s.index_of(y);
            assert(0 <= m < s.len() && s[m] == y);
            if m < i {
                assert(r[m] == y);
            } else {
                assert(r[m - 1] == y);
            }
        }
        assert forall|j: int, k: int| 0 <= j < r.len() && 0 <= k < r.len() && j != k implies r[j]
            != r[k] by {
            let jj = if j < i { j } else { j + 1 };
            let kk = if k < i { k } else { k + 1 };
            assert(r[j] == s[jj] && r[k] == s[kk]);
        }
    } else {
        assert forall|k: int| 0 <= k < r.len() implies s.contains(#[trigger] r[k]) && r[k] != x by {
            assert(s[k] == r[k]);
        }
    }
}

/// Appending an item that was not there and taking it out again gives the
/// list back.
pub proof fn lemma_without_push(s: Seq<NodeHandle>, x: NodeHandle)
    requires
        !s.contains(x),
    ensures
        without(s.push(x), x) == s,
{
    let t = s.push(x);
    assert(t[s.len() as int] == x);
    assert(t.contains(x));
    let i = t.index_of(x);
    assert(0 <= i < t.len() && t[i] == x);
    if i < s.len() {
        assert(s[i] == x);
        assert(false);
    }
    assert(t.remove(i) =~= s);
}

impl GraphView {
    /// The handle that is live when slot `i` is occupied.
    pub open spec fn handle_at(self, i: int) -> NodeHandle {
        NodeHandle { index: i as u32, generation: self.records[i].generation }
    }

    pub open spec fn live(self, h: NodeHandle) -> bool {
        &&& (h.index as int) < self.records.len()
        &&& self.records[h.index as int].generation == h.generation
        &&& self.records[h.index as int].slot is Occupied
    }

    pub open spec fn node(self, h: NodeHandle) -> NodeView {
        self.records[h.index as int].slot->Occupied_0
    }

    pub open spec fn parent_of(self, h: NodeHandle) -> NodeHandle {
        self.node(h).parent
    }

    pub open spec fn children_of(self, h: NodeHandle) -> Seq<NodeHandle> {
        self.node(h).children
    }

    /// The links of the live node `h` agree with those of its neighbours:
    /// its parent lists it, its children name it as their parent, and it
    /// lists no child twice. The root has no parent.
    pub open spec fn linked(self, h: NodeHandle) -> bool {
        &&& h == self.root ==> self.parent_of(h) == NodeHandle::none_spec()
        &&& h != self.root ==> self.live(self.parent_of(h)) && self.children_of(
            self.parent_of(h),
        ).contains(h)
        &&& self.children_of(h).no_duplicates()
        &&& forall|k: int|
            0 <= k < self.children_of(h).len() ==> self.live(#[trigger] self.children_of(h)[k])
                && self.parent_of(self.children_of(h)[k]) == h
    }

    /// Parent and child links agree everywhere, and the root is live.
    pub open spec fn consistent(self) -> bool {
        &&& self.records.len() <= u32::MAX
        &&& forall|i: int|
            0 <= i < self.records.len() ==> (#[trigger] self.records[i]).generation != 0
        &&& self.live(self.root)
        &&& forall|h: NodeHandle| #[trigger] self.live(h) ==> self.linked(h)
    }

    /// `rank` gives every live node but the root a larger number than its
    /// parent.
    pub open spec fn ranked(self, rank: Seq<nat>) -> bool {
        &&& rank.len() == self.records.len()
        &&& forall|h: NodeHandle|
            #[trigger] self.live(h) && h != self.root ==> rank[self.parent_of(h).index as int]
                < rank[h.index as int]
    }

    /// The live nodes form a tree below the root.
    pub open spec fn well_formed(self) -> bool {
        self.consistent() && exists|rank: Seq<nat>| self.ranked(rank)
    }

    /// Following parent links from the live node `x`, at most `k` of them,
    /// one comes to `a`.
    pub open spec fn within(self, a: NodeHandle, x: NodeHandle, k: nat) -> bool
        decreases k,
    {
        self.live(x) && (x == a || (k > 0 && self.within(a, self.parent_of(x), (k - 1) as nat)))
    }

    /// `a` is `x` or one of its ancestors.
    pub open spec fn ancestor_or_self(self, a: NodeHandle, x: NodeHandle) -> bool {
        exists|k: nat| self.within(a, x, k)
    }

    /// `a` is a proper ancestor of `x`.
    pub open spec fn ancestor(self, a: NodeHandle, x: NodeHandle) -> bool {
        self.live(x) && self.ancestor_or_self(a, self.parent_of(x))
    }

    /// The same as `ancestor_or_self`, by a walk that `rank` bounds.
    pub open spec fn reaches(self, rank: Seq<nat>, a: NodeHandle, x: NodeHandle) -> bool
        decreases rank[x.index as int],
    {
        if !self.live(x) {
            false
        } else if x == a {
            true
        } else if self.live(self.parent_of(x)) && rank[self.parent_of(x).index as int]
            < rank[x.index as int] {
            self.reaches(rank, a, self.parent_of(x))
        } else {
            false
        }
    }

    /// The graph after `child` has been moved below `parent`: `child` names
    /// `parent` as its parent, leaves the list that held it, and stands last
    /// among the children of `parent`. Nothing else changes.
    pub open spec fn link(self, child: NodeHandle, parent: NodeHandle) -> GraphView {
        GraphView {
            records: Seq::new(
                self.records.len(),
                |i: int|
                    match self.records[i].slot {
                        SlotView::Reserved => self.records[i],
                        SlotView::Occupied(n) => RecordView {
                            generation: self.records[i].generation,
                            slot: SlotView::Occupied(
                                NodeView {
                                    parent: if i == child.index {
                                        parent
                                    } else {
                                        n.parent
                                    },
                                    children: if i == parent.index {
                                        without(n.children, child).push(child)
                                    } else {
                                        without(n.children, child)
                                    },
                                    ..n
                                },
                            ),
                        },
                    },
            ),
            root: self.root,
        }
    }

    /// Whether `child` can be moved below `parent`: both are live, and
    /// `child` is neither `parent` nor one of its ancestors.
    pub open spec fn can_link(self, child: NodeHandle, parent: NodeHandle) -> bool {
        self.live(child) && self.live(parent) && !self.ancestor_or_self(child, parent)
    }

    /// The graph after `child` has been moved below `parent` where that is
    /// possible, and the graph itself where it is not.
    pub open spec fn relinked(self, child: NodeHandle, parent: NodeHandle) -> GraphView {
        if self.can_link(child, parent) {
            self.link(child, parent)
        } else {
            self
        }
    }

    /// The handle that the next new node gets.
    pub open spec fn next_handle(self) -> NodeHandle {
        NodeHandle { index: self.records.len() as u32, generation: 1 }
    }

    /// The graph after `node` has been added: it takes a new slot, and
    /// stands last among the children of the root.
    pub open spec fn spawn(self, node: NodeView) -> GraphView {
        GraphView {
            records: Seq::new(
                self.records.len() + 1,
                |i: int|
                    if i == self.records.len() {
                        RecordView {
                            generation: 1,
                            slot: SlotView::Occupied(
                                NodeView { parent: self.root, children: Seq::empty(), ..node },
                            ),
                        }
                    } else if i == self.root.index {
                        RecordView {
                            generation: self.records[i].generation,
                            slot: SlotView::Occupied(
                                NodeView {
                                    children: self.children_of(self.root).push(self.next_handle()),
                                    ..self.node(self.root)
                                },
                            ),
                        }
                    } else {
                        self.records[i]
                    },
            ),
            root: self.root,
        }
    }

    /// The handles of the live nodes among the first `n` slots, in the order
    /// of the slots.
    pub open spec fn handles_below(self, n: nat) -> Seq<NodeHandle>
        decreases n,
    {
        if n == 0 {
            Seq::empty()
        } else if self.records[n - 1].slot is Occupied {
            self.handles_below((n - 1) as nat).push(self.handle_at(n - 1))
        } else {
            self.handles_below((n - 1) as nat)
        }
    }

    /// The handles of the live nodes, in the order of the slots.
    pub open spec fn handles(self) -> Seq<NodeHandle> {
        self.handles_below(self.records.len())
    }

    /// The number of live nodes.
    pub open spec fn node_count(self) -> nat {
        self.handles().len()
    }

    /// The list of handles below slot `n` holds every live handle below
    /// `n`, nothing else, and by rising slot.
    pub proof fn lemma_handles_below(self, n: nat)
        requires
            n <= self.records.len() <= u32::MAX,
        ensures
            forall|h: NodeHandle|
                #![trigger self.handles_below(n).contains(h)]
                #![trigger self.live(h)]
                self.handles_below(n).contains(h) <==> self.live(h) && h.index < n,
            forall|j: int, k: int|
                0 <= j < k < self.handles_below(n).len() ==> self.handles_below(n)[j].index
                    < self.handles_below(n)[k].index,
            self.handles_below(n).no_duplicates(),
            self.handles_below(n).len() <= n,
        decreases n,
    {
        let s = self.handles_below(n);
        if n > 0 {
            let r = self.handles_below((n - 1) as nat);
            self.lemma_handles_below((n - 1) as nat);
            let last = self.handle_at(n - 1);
            if self.records[n - 1].slot is Occupied {
                assert(s == r.push(last));
                assert(s[r.len() as int] == last);
                assert forall|h: NodeHandle| s.contains(h) implies self.live(h) && h.index
                    < n by {
                    let k = s.index_of(h);
                    assert(0 <= k < s.len() && s[k] == h);
                    if k < r.len() {
                        assert(r[k] == h);
                        assert(r.contains(h));
                    }
                }
                assert forall|h: NodeHandle| self.live(h) && h.index < n implies s.contains(
                    h,
                ) by {
                    if h.index < n - 1 {
                        assert(r.contains(h));
                        let k = r.index_of(h);
                        assert(0 <= k < r.len() && r[k] == h);
                        assert(s[k] == h);
                    } else {
                        assert(h == last);
                    }
                }
                assert forall|j: int, k: int| 0 <= j < k < s.len() implies s[j].index
                    < s[k].index by {
                    assert(s[j] == r[j]);
                    assert(r.contains(r[j]));
                    if k < r.len() {
                        assert(s[k] == r[k]);
                    } else {
                        assert(s[k] == last);
                        assert(r[j].index < n - 1);
                    }
                }
            } else {
                assert forall|h: NodeHandle| self.live(h) && h.index < n implies s.contains(
                    h,
                ) by {
                    assert(h.index != n - 1);
                    assert(r.contains(h));
                }
            }
        }
    }

    /// Every live node is listed exactly once among the handles.
    pub proof fn lemma_handles(self)
        requires
            self.records.len() <= u32::MAX,
        ensures
            forall|h: NodeHandle|
                #![trigger self.handles().contains(h)]
                #![trigger self.live(h)]
                self.handles().contains(h) <==> self.live(h),
            self.handles().no_duplicates(),
    {
        self.lemma_handles_below(self.records.len());
    }

    /// A walk bounded by a rank finds `a` exactly when `a` is `x` or one of
    /// its ancestors.
    pub proof fn lemma_reaches_iff(self, rank: Seq<nat>, a: NodeHandle, x: NodeHandle)
        requires
            self.consistent(),
            self.ranked(rank),
        ensures
            self.reaches(rank, a, x) <==> self.ancestor_or_self(a, x),
    {
        if self.reaches(rank, a, x) {
            let k = self.lemma_reaches_within(rank, a, x);
        }
        if self.ancestor_or_self(a, x) {
            let k = choose|k: nat| self.within(a, x, k);
            self.lemma_within_reaches(rank, a, x, k);
        }
    }

    proof fn lemma_reaches_within(self, rank: Seq<nat>, a: NodeHandle, x: NodeHandle) -> (k: nat)
        requires
            self.reaches(rank, a, x),
        ensures
            self.within(a, x, k),
        decreases rank[x.index as int],
    {
        if x == a {
            0
        } else {
            let k = self.lemma_reaches_within(rank, a, self.parent_of(x));
            k + 1
        }
    }

    proof fn lemma_within_reaches(self, rank: Seq<nat>, a: NodeHandle, x: NodeHandle, k: nat)
        requires
            self.consistent(),
            self.ranked(rank),
            self.within(a, x, k),
        ensures
            self.reaches(rank, a, x),
        decreases k,
    {
        if x != a {
            let p = self.parent_of(x);
            assert(self.within(a, p, (k - 1) as nat));
            assert(self.live(p));
            assert(self.linked(x));
            assert(x != self.root);
            self.lemma_within_reaches(rank, a, p, (k - 1) as nat);
        }
    }

    /// The rank of a node is at least that of each of its ancestors.
    pub proof fn lemma_reaches_rank(self, rank: Seq<nat>, a: NodeHandle, x: NodeHandle)
        requires
            self.reaches(rank, a, x),
        ensures
            rank[a.index as int] <= rank[x.index as int],
            self.live(a),
        decreases rank[x.index as int],
    {
        if x != a {
            self.lemma_reaches_rank(rank, a, self.parent_of(x));
        }
    }

    /// Every live node is the root or one of its descendants.
    pub proof fn lemma_root_reaches(self, rank: Seq<nat>, x: NodeHandle)
        requires
            self.consistent(),
            self.ranked(rank),
            self.live(x),
        ensures
            self.reaches(rank, self.root, x),
        decreases rank[x.index as int],
    {
        if x != self.root {
            assert(self.linked(x));
            self.lemma_root_reaches(rank, self.parent_of(x));
        }
    }
    /// No node is its own ancestor, and no node is an ancestor of its own
    /// parent.
    pub proof fn lemma_acyclic(self, h: NodeHandle)
        requires
            self.well_formed(),
        ensures
            !self.ancestor(h, h),
            self.live(h) ==> !self.ancestor_or_self(h, self.parent_of(h)),
    {
        let rank = choose|rank: Seq<nat>| self.ranked(rank);
        if self.live(h) {
            let p = self.parent_of(h);
            self.lemma_reaches_iff(rank, h, p);
            if self.reaches(rank, h, p) {
                self.lemma_reaches_rank(rank, h, p);
                assert(self.linked(h));
                assert(self.live(p));
                assert(h != self.root);
            }
        }
    }
}

} // verus!
