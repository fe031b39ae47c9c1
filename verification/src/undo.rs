//! Taking changes back: what was executed and then reverted has left the
//! scene as it was.

use crate::command::{
    executed_all, insertion_group, ready_all, reverted_all, CommandView, GroupOutcome, SceneView,
};
use crate::model::ModelView;
use crate::node::Scale;
use crate::provider::{link_batch, survivors};
use crate::handle::NodeHandle;
use crate::hierarchy::{lemma_without, lemma_without_push, without, GraphView};
use crate::selection::SelectionView;
use crate::subtree::SubGraphView;
use vstd::prelude::*;

verus! {

impl GraphView {
    /// Moving a node below the parent it has only moves it to the end of
    /// the children of that parent. Where it is the last child already,
    /// nothing changes.
    pub proof fn lemma_link_in_place(self, child: NodeHandle)
        requires
            self.well_formed(),
            self.live(child),
            child != self.root,
            self.children_of(self.parent_of(child)).last() == child,
        ensures
            self.can_link(child, self.parent_of(child)),
            self.link(child, self.parent_of(child)) == self,
    {
        let home = self.parent_of(child);
        let g = self.link(child, home);
        self.lemma_acyclic(child);
        assert(self.linked(child));
        assert forall|i: int| 0 <= i < self.records.len() implies g.records[i]
            == self.records[i] by {
            if self.records[i].slot is Occupied {
                let h = self.handle_at(i);
                assert(self.live(h));
                assert(self.linked(h));
                let s = self.children_of(h);
                if h == home {
                    assert(self.linked(home));
                    let last = s.len() - 1;
                    assert(s.contains(child));
                    assert(s[last] == child);
                    assert(s.index_of(child) == last);
                    assert(s.remove(last).push(child) =~= s);
                } else {
                    if s.contains(child) {
                        let m = s.index_of(child);
                        assert(self.parent_of(s[m]) == h);
                    }
                }
            }
        }
        assert(g.records =~= self.records);
    }

    /// Moving a node back below the parent it had undoes the move, but
    /// for the place of the node among the children of that parent: it
    /// leaves the graph in which the node was moved to the end of them.
    pub proof fn lemma_link_back(self, child: NodeHandle, parent: NodeHandle)
        requires
            self.well_formed(),
            self.can_link(child, parent),
        ensures
            self.link(child, parent).well_formed(),
            self.link(child, parent).can_link(child, self.parent_of(child)),
            self.link(child, parent).parent_of(child) == parent,
            self.link(child, parent).link(child, self.parent_of(child)) == self.link(
                child,
                self.parent_of(child),
            ),
    {
        let home = self.parent_of(child);
        let g1 = self.link(child, parent);
        self.lemma_link_well_formed(child, parent);
        self.lemma_link_nodes(child, parent);
        self.lemma_acyclic(child);
        assert(self.linked(child));
        self.lemma_link_ancestors(child, parent, child, home);
        let back = g1.link(child, home);
        let direct = self.link(child, home);
        assert forall|i: int| 0 <= i < self.records.len() implies back.records[i]
            == direct.records[i] by {
            if self.records[i].slot is Occupied {
                let h = self.handle_at(i);
                assert(self.live(h));
                assert(self.linked(h));
                let s = self.children_of(h);
                lemma_without(s, child);
                let w = without(s, child);
                if i == parent.index {
                    lemma_without_push(w, child);
                }
            }
        }
        assert(back.records =~= direct.records);
    }
}

impl GraphView {
    /// The two graphs hold the same live nodes below the same root, and
    /// each node has the same parent in both. The order in which a parent
    /// lists its children may differ.
    pub open spec fn same_parents(self, other: GraphView) -> bool {
        &&& self.root == other.root
        &&& forall|h: NodeHandle| self.live(h) <==> #[trigger] other.live(h)
        &&& forall|h: NodeHandle|
            self.live(h) ==> self.parent_of(h) == #[trigger] other.parent_of(h)
    }

    /// Graphs in which every node has the same parent allow the same
    /// moves, and a move leaves them so.
    pub proof fn lemma_relinked_same_parents(
        self,
        other: GraphView,
        child: NodeHandle,
        parent: NodeHandle,
    )
        requires
            self.well_formed(),
            other.well_formed(),
            self.same_parents(other),
        ensures
            self.can_link(child, parent) == other.can_link(child, parent),
            self.relinked(child, parent).well_formed(),
            other.relinked(child, parent).well_formed(),
            self.relinked(child, parent).same_parents(other.relinked(child, parent)),
    {
        if self.ancestor_or_self(child, parent) {
            let k = choose|k: nat| self.within(child, parent, k);
            self.lemma_same_parents(other, child, parent, k);
        }
        if other.ancestor_or_self(child, parent) {
            let k = choose|k: nat| other.within(child, parent, k);
            self.lemma_same_parents(other, child, parent, k);
        }
        if self.can_link(child, parent) {
            self.lemma_link_well_formed(child, parent);
            other.lemma_link_well_formed(child, parent);
            self.lemma_link_nodes(child, parent);
            other.lemma_link_nodes(child, parent);
        }
    }

    /// A move that is executed and taken back leaves every node with the
    /// parent it had, and the command as it was.
    pub proof fn lemma_link_round_trip(self, child: NodeHandle, parent: NodeHandle)
        requires
            self.well_formed(),
        ensures
            ({
                let command = CommandView::LinkNodes { child, parent };
                let scene = SceneView { graph: self, selection: SelectionView::Nothing };
                let done = command.executed(scene);
                let undone = done.command.reverted(done.scene);
                &&& done.command is LinkNodes
                &&& done.scene.graph.well_formed()
                &&& undone.scene.graph.well_formed()
                &&& undone.scene.graph.same_parents(self)
                &&& undone.command == command
            }),
    {
        if self.can_link(child, parent) {
            let home = self.parent_of(child);
            self.lemma_link_back(child, parent);
            let g1 = self.link(child, parent);
            g1.lemma_link_well_formed(child, home);
            g1.lemma_link_nodes(child, home);
            self.lemma_link_nodes(child, parent);
            self.lemma_link_nodes(child, home);
        }
    }
}

/// Every one of `commands` moves a node.
pub open spec fn all_links(commands: Seq<CommandView>) -> bool {
    forall|i: int| 0 <= i < commands.len() ==> (#[trigger] commands[i]) is LinkNodes
}

/// Taking moves back in two scenes in which every node has the same
/// parent leaves two such scenes, and the same commands.
pub proof fn lemma_reverted_same_parents(
    commands: Seq<CommandView>,
    one: SceneView,
    other: SceneView,
)
    requires
        all_links(commands),
        one.graph.well_formed(),
        other.graph.well_formed(),
        one.graph.same_parents(other.graph),
        one.selection == other.selection,
    ensures
        reverted_all(commands, one).commands == reverted_all(commands, other).commands,
        reverted_all(commands, one).scene.selection == reverted_all(
            commands,
            other,
        ).scene.selection,
        reverted_all(commands, one).scene.graph.well_formed(),
        reverted_all(commands, other).scene.graph.well_formed(),
        reverted_all(commands, one).scene.graph.same_parents(
            reverted_all(commands, other).scene.graph,
        ),
    decreases commands.len(),
{
    if commands.len() > 0 {
        let last = commands.last();
        assert(commands[commands.len() - 1] is LinkNodes);
        match last {
            CommandView::LinkNodes { child, parent } => {
                one.graph.lemma_relinked_same_parents(other.graph, child, parent);
                assert forall|i: int| 0 <= i < commands.drop_last().len() implies (
                #[trigger] commands.drop_last()[i]) is LinkNodes by {
                    assert(commands.drop_last()[i] == commands[i]);
                }
                lemma_reverted_same_parents(
                    commands.drop_last(),
                    last.reverted(one).scene,
                    last.reverted(other).scene,
                );
            },
            _ => {},
        }
    }
}

/// A group of moves that is executed and taken back leaves a tree of the
/// same nodes in which every node has the parent it had before, the
/// selection as it was, and the group as it was.
pub proof fn lemma_links_round_trip(commands: Seq<CommandView>, scene: SceneView)
    requires
        all_links(commands),
        scene.graph.well_formed(),
    ensures
        ({
            let done = executed_all(commands, scene);
            let undone = reverted_all(done.commands, done.scene);
            &&& ready_all(commands, scene)
            &&& all_links(done.commands)
            &&& done.commands.len() == commands.len()
            &&& done.scene.graph.well_formed()
            &&& done.scene.selection == scene.selection
            &&& undone.scene.graph.well_formed()
            &&& undone.scene.graph.same_parents(scene.graph)
            &&& undone.scene.selection == scene.selection
            &&& undone.commands == commands
        }),
    decreases commands.len(),
{
    if commands.len() > 0 {
        let rest = commands.drop_last();
        let last = commands.last();
        assert(commands[commands.len() - 1] is LinkNodes);
        assert forall|i: int| 0 <= i < rest.len() implies (#[trigger] rest[i]) is LinkNodes by {
            assert(rest[i] == commands[i]);
        }
        lemma_links_round_trip(rest, scene);
        let before = executed_all(rest, scene);
        match last {
            CommandView::LinkNodes { child, parent } => {
                before.scene.graph.lemma_link_round_trip(child, parent);
                let step = last.executed(before.scene);
                let done = executed_all(commands, scene);
                assert(done.commands == before.commands.push(step.command));
                assert(done.commands.drop_last() =~= before.commands);
                assert(done.commands.last() == step.command);
                let back = step.command.reverted(step.scene);
                lemma_reverted_same_parents(before.commands, back.scene, before.scene);
                assert(rest.push(last) =~= commands);
            },
            _ => {},
        }
    }
}

/// What executing three commands in order makes of the scene.
pub proof fn lemma_executed_three(a: CommandView, b: CommandView, c: CommandView, scene: SceneView)
    ensures
        ({
            let first = a.executed(scene);
            let second = b.executed(first.scene);
            let third = c.executed(second.scene);
            &&& executed_all(seq![a, b, c], scene) == (GroupOutcome {
                scene: third.scene,
                commands: seq![first.command, second.command, third.command],
            })
            &&& ready_all(seq![a, b, c], scene) == (a.ready(scene) && b.ready(first.scene)
                && c.ready(second.scene))
        }),
{
    let all = seq![a, b, c];
    let two = all.drop_last();
    let one = two.drop_last();
    assert(one.drop_last() =~= Seq::<CommandView>::empty());
    assert(one.last() == a && two.last() == b && all.last() == c);
    let first = a.executed(scene);
    assert(executed_all(one.drop_last(), scene).scene == scene);
    assert(executed_all(one, scene).scene == first.scene);
    assert(executed_all(one, scene).commands =~= seq![first.command]);
    let second = b.executed(first.scene);
    assert(executed_all(two, scene).commands =~= seq![first.command, second.command]);
    let third = c.executed(second.scene);
    assert(executed_all(all, scene).commands =~= seq![
        first.command,
        second.command,
        third.command,
    ]);
    assert(ready_all(one.drop_last(), scene));
    assert(ready_all(one, scene) == a.ready(scene));
    assert(ready_all(two, scene) == (a.ready(scene) && b.ready(first.scene)));
}

/// What taking three commands back, the last first, makes of the scene.
pub proof fn lemma_reverted_three(a: CommandView, b: CommandView, c: CommandView, scene: SceneView)
    ensures
        ({
            let third = c.reverted(scene);
            let second = b.reverted(third.scene);
            let first = a.reverted(second.scene);
            reverted_all(seq![a, b, c], scene) == (GroupOutcome {
                scene: first.scene,
                commands: seq![first.command, second.command, third.command],
            })
        }),
{
    let all = seq![a, b, c];
    let two = all.drop_last();
    let one = two.drop_last();
    assert(one.drop_last() =~= Seq::<CommandView>::empty());
    assert(one.last() == a && two.last() == b && all.last() == c);
    let third = c.reverted(scene);
    let second = b.reverted(third.scene);
    let first = a.reverted(second.scene);
    assert(reverted_all(one.drop_last(), first.scene).commands =~= Seq::<CommandView>::empty());
    assert(reverted_all(one, second.scene).commands =~= seq![first.command]);
    assert(reverted_all(two, third.scene).commands =~= seq![first.command, second.command]);
    assert(reverted_all(all, scene).commands =~= seq![
        first.command,
        second.command,
        third.command,
    ]);
}

/// Bringing a unit of nodes into the scene is one step that can be taken
/// back. Executed, the group leaves a tree in which the nodes of the unit
/// are live, with the topmost below `target` where it can go there, and
/// `chosen` selected. Taken back, it leaves the graph and the selection
/// exactly as they were before, and the group as it was, ready to be
/// executed again; only the parent that the unit remembers is now the
/// node below which it was put.
pub proof fn lemma_insertion_round_trip(
    graph: GraphView,
    current: SelectionView,
    sub: SubGraphView,
    target: NodeHandle,
    chosen: SelectionView,
)
    requires
        graph.well_formed(),
        graph.accepts(sub),
    ensures
        ({
            let scene = SceneView { graph, selection: current };
            let group = insertion_group(sub, target, chosen, current);
            let done = executed_all(group, scene);
            let undone = reverted_all(done.commands, done.scene);
            let put = graph.with_subtree(sub);
            &&& ready_all(group, scene)
            &&& done.scene.graph.well_formed()
            &&& done.scene.graph == put.relinked(sub.root, target)
            &&& done.scene.graph.live(sub.root)
            &&& graph.live(target) ==> done.scene.graph.parent_of(sub.root) == target
            &&& done.scene.selection == chosen
            &&& undone.scene == scene
            &&& undone.commands == insertion_group(
                SubGraphView { parent: graph.home_of(sub), ..sub },
                target,
                chosen,
                current,
            )
        }),
{
    let scene = SceneView { graph, selection: current };
    let group = insertion_group(sub, target, chosen, current);
    let home = graph.home_of(sub);
    let put = graph.with_subtree(sub);
    graph.lemma_put_then_take(sub);
    lemma_executed_three(group[0], group[1], group[2], scene);
    assert(group =~= seq![group[0], group[1], group[2]]);
    let done = executed_all(group, scene);
    let linked = put.relinked(sub.root, target);
    assert(put.live(sub.root));
    assert(put.linked(sub.root));
    if graph.live(target) {
        let rank = choose|rank: Seq<nat>| put.ranked(rank);
        assert(put.handle_at(target.index as int) == target);
        assert(!sub.nodes.dom().contains(target.index as int));
        assert(!put.in_subtree(sub.root, target.index as int));
        assert(put.can_link(sub.root, target));
    }
    if put.can_link(sub.root, target) {
        put.lemma_link_back(sub.root, target);
        put.lemma_link_in_place(sub.root);
        put.lemma_link_nodes(sub.root, target);
    }
    lemma_reverted_three(done.commands[0], done.commands[1], done.commands[2], done.scene);
    assert(done.commands =~= seq![done.commands[0], done.commands[1], done.commands[2]]);
    let undone = reverted_all(done.commands, done.scene);
    assert(undone.commands =~= insertion_group(
        SubGraphView { parent: home, ..sub },
        target,
        chosen,
        current,
    ));
}

/// Dropping an asset into the scene is one step that can be taken back.
/// The drop itself leaves the graph as it was, with slots reserved for the
/// nodes of the instance. Executing the group of the drop leaves a tree
/// that holds every node that was live before and the instance, with the
/// instance below `target` where `target` is live, and the instance alone
/// selected. Taking the group back leaves the graph and the selection
/// exactly as they were after the drop, and the group as it was.
pub proof fn lemma_asset_drop_round_trip(
    graph: GraphView,
    current: SelectionView,
    model: ModelView,
    scale: Scale,
    target: NodeHandle,
)
    requires
        graph.well_formed(),
        model.nodes.len() >= 1,
        graph.records.len() + model.nodes.len() <= u32::MAX,
    ensures
        ({
            let instance = graph.next_handle();
            let staged = graph.instantiated(model, model.nodes.len()).scaled(instance, scale);
            let dropped = staged.without_subtree(instance);
            let group = insertion_group(
                staged.subtree(instance),
                target,
                SelectionView::Graph(seq![instance]),
                current,
            );
            let scene = SceneView { graph: dropped, selection: current };
            let done = executed_all(group, scene);
            let undone = reverted_all(done.commands, done.scene);
            &&& dropped == graph.with_reserved(model.nodes.len())
            &&& ready_all(group, scene)
            &&& done.scene.graph.well_formed()
            &&& forall|h: NodeHandle| graph.live(h) ==> #[trigger] done.scene.graph.live(h)
            &&& done.scene.graph.live(instance)
            &&& graph.live(target) ==> done.scene.graph.parent_of(instance) == target
            &&& done.scene.selection == SelectionView::Graph(seq![instance])
            &&& undone.scene == scene
            &&& undone.commands == group
        }),
{
    let instance = graph.next_handle();
    let staged = graph.instantiated(model, model.nodes.len()).scaled(instance, scale);
    let dropped = staged.without_subtree(instance);
    let sub = staged.subtree(instance);
    graph.lemma_instance_taken(model, scale);
    staged.lemma_take_well_formed(instance);
    assert(graph.linked(graph.root));
    assert(dropped.live(graph.root));
    assert(dropped.home_of(sub) == sub.parent);
    lemma_insertion_round_trip(dropped, current, sub, target, SelectionView::Graph(seq![instance]));
    let put = dropped.with_subtree(sub);
    dropped.lemma_put_then_take(sub);
    assert forall|h: NodeHandle| graph.live(h) implies #[trigger] put.relinked(
        instance,
        target,
    ).live(h) by {
        assert(dropped.live(h));
        assert(put.live(h));
        if put.can_link(instance, target) {
            put.lemma_link_nodes(instance, target);
        }
    }
    if graph.live(target) {
        assert(dropped.live(target));
    }
}

/// A change of selection that is executed and taken back leaves selected
/// what the command remembers as selected before, and the command as it
/// was.
pub proof fn lemma_selection_round_trip(
    chosen: SelectionView,
    current: SelectionView,
    scene: SceneView,
)
    requires
        scene.selection == current,
    ensures
        ({
            let command = CommandView::ChangeSelection {
                new_selection: chosen,
                old_selection: current,
            };
            let done = command.executed(scene);
            let undone = done.command.reverted(done.scene);
            &&& done.scene.selection == chosen
            &&& done.scene.graph == scene.graph
            &&& undone.scene == scene
            &&& undone.command == command
        }),
{
}

/// The moves that a request to move the selected nodes asks for can be
/// taken back: executed and reverted, they leave every node with the
/// parent it had.
pub proof fn lemma_reparent_round_trip(
    graph: GraphView,
    selection: SelectionView,
    parent: NodeHandle,
)
    requires
        graph.well_formed(),
    ensures
        ({
            let scene = SceneView { graph, selection };
            let group = link_batch(survivors(graph, selection.listing(), parent), parent);
            let done = executed_all(group, scene);
            let undone = reverted_all(done.commands, done.scene);
            &&& ready_all(group, scene)
            &&& undone.scene.graph.well_formed()
            &&& undone.scene.graph.same_parents(graph)
            &&& undone.scene.selection == selection
            &&& undone.commands == group
        }),
{
    let group = link_batch(survivors(graph, selection.listing(), parent), parent);
    lemma_links_round_trip(group, SceneView { graph, selection });
}

} // verus!
