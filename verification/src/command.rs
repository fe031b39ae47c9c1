//! Reversible changes of the scene.
//!
//! A command describes one change and holds what is needed to take the
//! change back. Executing a command turns it into its own inverse, so a
//! command is taken back by the same step that carried it out. A group
//! executes its members in order and takes them back in reverse order.

use crate::graph::Graph;
use crate::handle::NodeHandle;
use crate::hierarchy::GraphView;
use crate::selection::{Selection, SelectionView};
use crate::subgraph::SubGraph;
use crate::subtree::SubGraphView;
use vstd::prelude::*;

verus! {

/// Moves a node below another parent.
pub struct LinkNodesCommand {
    pub(crate) child: NodeHandle,
    pub(crate) parent: NodeHandle,
}

/// Brings a unit of nodes that was taken out of the graph back into it.
pub struct AddModelCommand {
    pub(crate) model: NodeHandle,
    pub(crate) sub_graph: Option<SubGraph>,
}

/// Replaces the selection.
pub struct ChangeSelectionCommand {
    pub(crate) new_selection: Selection,
    pub(crate) old_selection: Selection,
}

pub enum Command {
    LinkNodes(LinkNodesCommand),
    AddModel(AddModelCommand),
    ChangeSelection(ChangeSelectionCommand),
}

/// Commands that are carried out and taken back as one step.
pub struct CommandGroup {
    pub(crate) commands: Vec<Command>,
}

/// The mathematical value of a command.
pub enum CommandView {
    LinkNodes { child: NodeHandle, parent: NodeHandle },
    AddModel { model: NodeHandle, sub_graph: Option<SubGraphView> },
    ChangeSelection { new_selection: SelectionView, old_selection: SelectionView },
}

/// What commands change: the graph and the selection.
pub struct SceneView {
    pub graph: GraphView,
    pub selection: SelectionView,
}

/// The scene after a command, and the command after it.
pub struct Outcome {
    pub scene: SceneView,
    pub command: CommandView,
}

/// The scene after a group, and the members of the group after it.
pub struct GroupOutcome {
    pub scene: SceneView,
    pub commands: Seq<CommandView>,
}

impl CommandView {
    /// Whether the command can be executed: a unit of nodes can only come
    /// back into a graph that has kept its slots.
    pub open spec fn ready(self, scene: SceneView) -> bool {
        self matches CommandView::AddModel { sub_graph: Some(sub), .. } ==> scene.graph.accepts(
            sub,
        )
    }

    /// What executing the command makes of the scene and of the command.
    ///
    /// A link is made where it leaves a tree, and the command then holds
    /// the parent that the node had; where it cannot be made nothing
    /// changes. A unit of nodes is put back, and the command holds it no
    /// more. A selection replaces the current one, and the command then
    /// selects what it replaced.
    pub open spec fn executed(self, scene: SceneView) -> Outcome {
        match self {
            CommandView::LinkNodes { child, parent } => if scene.graph.can_link(child, parent) {
                Outcome {
                    scene: SceneView {
                        graph: scene.graph.link(child, parent),
                        selection: scene.selection,
                    },
                    command: CommandView::LinkNodes {
                        child,
                        parent: scene.graph.parent_of(child),
                    },
                }
            } else {
                Outcome { scene, command: self }
            },
            CommandView::AddModel { model, sub_graph: Some(sub) } => Outcome {
                scene: SceneView {
                    graph: scene.graph.with_subtree(sub),
                    selection: scene.selection,
                },
                command: CommandView::AddModel { model, sub_graph: None },
            },
            CommandView::AddModel { model, sub_graph: None } => Outcome { scene, command: self },
            CommandView::ChangeSelection { new_selection, old_selection } => Outcome {
                scene: SceneView { graph: scene.graph, selection: new_selection },
                command: CommandView::ChangeSelection {
                    new_selection: old_selection,
                    old_selection: new_selection,
                },
            },
        }
    }

    /// What taking the command back makes of the scene and of the command.
    ///
    /// A link and a change of selection are taken back by executing the
    /// command as it stands after its execution. The nodes that were added
    /// are taken out again, and the command holds them once more.
    pub open spec fn reverted(self, scene: SceneView) -> Outcome {
        match self {
            CommandView::AddModel { model, sub_graph: None } => if scene.graph.can_take(model) {
                Outcome {
                    scene: SceneView {
                        graph: scene.graph.without_subtree(model),
                        selection: scene.selection,
                    },
                    command: CommandView::AddModel {
                        model,
                        sub_graph: Some(scene.graph.subtree(model)),
                    },
                }
            } else {
                Outcome { scene, command: self }
            },
            CommandView::AddModel { model, sub_graph: Some(sub) } => Outcome {
                scene,
                command: self,
            },
            _ => self.executed(scene),
        }
    }
}

/// The group that brings the unit `sub` into the scene, moves its topmost
/// node below `target` and selects `chosen`.
pub open spec fn insertion_group(
    sub: SubGraphView,
    target: NodeHandle,
    chosen: SelectionView,
    current: SelectionView,
) -> Seq<CommandView> {
    seq![
        CommandView::AddModel { model: sub.root, sub_graph: Some(sub) },
        CommandView::LinkNodes { child: sub.root, parent: target },
        CommandView::ChangeSelection { new_selection: chosen, old_selection: current },
    ]
}

/// What executing `commands` in order makes of the scene and of them.
pub open spec fn executed_all(commands: Seq<CommandView>, scene: SceneView) -> GroupOutcome
    decreases commands.len(),
{
    if commands.len() == 0 {
        GroupOutcome { scene, commands: Seq::empty() }
    } else {
        let before = executed_all(commands.drop_last(), scene);
        let last = commands.last().executed(before.scene);
        GroupOutcome { scene: last.scene, commands: before.commands.push(last.command) }
    }
}

/// Whether each of `commands` can be executed when its turn comes.
pub open spec fn ready_all(commands: Seq<CommandView>, scene: SceneView) -> bool
    decreases commands.len(),
{
    commands.len() > 0 ==> ready_all(commands.drop_last(), scene) && commands.last().ready(
        executed_all(commands.drop_last(), scene).scene,
    )
}

/// What taking `commands` back, the last first, makes of the scene and of
/// them.
pub open spec fn reverted_all(commands: Seq<CommandView>, scene: SceneView) -> GroupOutcome
    decreases commands.len(),
{
    if commands.len() == 0 {
        GroupOutcome { scene, commands: Seq::empty() }
    } else {
        let last = commands.last().reverted(scene);
        let before = reverted_all(commands.drop_last(), last.scene);
        GroupOutcome { scene: before.scene, commands: before.commands.push(last.command) }
    }
}

impl LinkNodesCommand {
    pub fn new(child: NodeHandle, parent: NodeHandle) -> (c: LinkNodesCommand)
        ensures
            c@ == (CommandView::LinkNodes { child, parent }),
    {
        LinkNodesCommand { child, parent }
    }

    pub fn child(&self) -> (h: NodeHandle)
        ensures
            self@ matches CommandView::LinkNodes { child, .. } && h == child,
    {
        self.child
    }

    pub fn parent(&self) -> (h: NodeHandle)
        ensures
            self@ matches CommandView::LinkNodes { parent, .. } && h == parent,
    {
        self.parent
    }

    /// Moves the node below the parent that the command names, and lets
    /// the command name the parent that the node had.
    pub fn execute(&mut self, graph: &mut Graph)
        requires
            old(graph).wf(),
        ensures
            final(graph).wf(),
            old(self)@ matches CommandView::LinkNodes { child, parent } && final(graph)@ == old(
                graph,
            )@.relinked(child, parent) && final(self)@ == (CommandView::LinkNodes {
                child,
                parent: if old(graph)@.can_link(child, parent) {
                    old(graph)@.parent_of(child)
                } else {
                    parent
                },
            }),
    {
        let old_parent = match graph.try_get(self.child) {
            Some(node) => node.parent(),
            None => NodeHandle::none(),
        };
        if graph.try_link_nodes(self.child, self.parent) {
            self.parent = old_parent;
        }
    }

    /// Takes the move back.
    pub fn revert(&mut self, graph: &mut Graph)
        requires
            old(graph).wf(),
        ensures
            final(graph).wf(),
            old(self)@ matches CommandView::LinkNodes { child, parent } && final(graph)@ == old(
                graph,
            )@.relinked(child, parent) && final(self)@ == (CommandView::LinkNodes {
                child,
                parent: if old(graph)@.can_link(child, parent) {
                    old(graph)@.parent_of(child)
                } else {
                    parent
                },
            }),
    {
        self.execute(graph);
    }
}

impl View for LinkNodesCommand {
    type V = CommandView;

    open(crate) spec fn view(&self) -> CommandView {
        CommandView::LinkNodes { child: self.child, parent: self.parent }
    }
}

impl AddModelCommand {
    /// The command that brings `sub_graph` back.
    pub fn new(sub_graph: SubGraph) -> (c: AddModelCommand)
        ensures
            c@ == (CommandView::AddModel { model: sub_graph@.root, sub_graph: Some(sub_graph@) }),
    {
        AddModelCommand { model: sub_graph.root(), sub_graph: Some(sub_graph) }
    }

    /// The handle of the topmost node that the command adds.
    pub fn model(&self) -> (h: NodeHandle)
        ensures
            self@ matches CommandView::AddModel { model, .. } && h == model,
    {
        self.model
    }

    /// Whether the command holds nodes that are not in the graph.
    pub fn holds_nodes(&self) -> (b: bool)
        ensures
            self@ matches CommandView::AddModel { sub_graph, .. } && b == (sub_graph is Some),
    {
        self.sub_graph.is_some()
    }

    /// Puts the nodes into the graph.
    pub fn execute(&mut self, graph: &mut Graph)
        requires
            old(graph).wf(),
            old(self)@ matches CommandView::AddModel { sub_graph: Some(sub), .. } ==> old(
                graph,
            )@.accepts(sub),
        ensures
            final(graph).wf(),
            old(self)@ matches CommandView::AddModel { model, sub_graph } && final(self)@
                == (CommandView::AddModel { model, sub_graph: None }) && final(graph)@
                == match sub_graph {
                Some(sub) => old(graph)@.with_subtree(sub),
                None => old(graph)@,
            },
    {
        match self.sub_graph.take() {
            Some(sub) => {
                graph.put_sub_graph_back(sub);
            },
            None => {},
        }
    }

    /// Takes the nodes out of the graph again.
    pub fn revert(&mut self, graph: &mut Graph)
        requires
            old(graph).wf(),
        ensures
            final(graph).wf(),
            old(self)@ matches CommandView::AddModel { model, sub_graph } && if sub_graph is None
                && old(graph)@.can_take(model) {
                final(graph)@ == old(graph)@.without_subtree(model) && final(self)@
                    == (CommandView::AddModel {
                    model,
                    sub_graph: Some(old(graph)@.subtree(model)),
                })
            } else {
                final(graph)@ == old(graph)@ && final(self)@ == old(self)@
            },
    {
        if self.sub_graph.is_none() {
            self.sub_graph = graph.take_reserve_sub_graph(self.model);
        }
    }
}

impl View for AddModelCommand {
    type V = CommandView;

    open(crate) spec fn view(&self) -> CommandView {
        CommandView::AddModel {
            model: self.model,
            sub_graph: match self.sub_graph {
                Some(sub) => Some(sub@),
                None => None,
            },
        }
    }
}

impl ChangeSelectionCommand {
    pub fn new(new_selection: Selection, old_selection: Selection) -> (c: ChangeSelectionCommand)
        ensures
            c@ == (CommandView::ChangeSelection {
                new_selection: new_selection@,
                old_selection: old_selection@,
            }),
    {
        ChangeSelectionCommand { new_selection, old_selection }
    }

    /// What the command selects when it is executed.
    pub fn new_selection(&self) -> (s: &Selection)
        ensures
            self@ matches CommandView::ChangeSelection { new_selection, .. } && s@ == new_selection,
    {
        &self.new_selection
    }

    /// What the command selects when it is taken back.
    pub fn old_selection(&self) -> (s: &Selection)
        ensures
            self@ matches CommandView::ChangeSelection { old_selection, .. } && s@ == old_selection,
    {
        &self.old_selection
    }

    /// Selects what the command says, and lets the command select what was
    /// selected before it.
    pub fn execute(&mut self, selection: &mut Selection)
        ensures
            old(self)@ matches CommandView::ChangeSelection { new_selection, old_selection }
                && final(selection)@ == new_selection && final(self)@
                == (CommandView::ChangeSelection {
                new_selection: old_selection,
                old_selection: new_selection,
            }),
    {
        *selection = self.new_selection.duplicate();
        let new_selection = self.old_selection.duplicate();
        let old_selection = self.new_selection.duplicate();
        self.new_selection = new_selection;
        self.old_selection = old_selection;
    }

    /// Takes the change of selection back.
    pub fn revert(&mut self, selection: &mut Selection)
        ensures
            old(self)@ matches CommandView::ChangeSelection { new_selection, old_selection }
                && final(selection)@ == new_selection && final(self)@
                == (CommandView::ChangeSelection {
                new_selection: old_selection,
                old_selection: new_selection,
            }),
    {
        self.execute(selection);
    }
}

impl View for ChangeSelectionCommand {
    type V = CommandView;

    open(crate) spec fn view(&self) -> CommandView {
        CommandView::ChangeSelection {
            new_selection: self.new_selection@,
            old_selection: self.old_selection@,
        }
    }
}

impl View for Command {
    type V = CommandView;

    open spec fn view(&self) -> CommandView {
        match self {
            Command::LinkNodes(c) => c@,
            Command::AddModel(c) => c@,
            Command::ChangeSelection(c) => c@,
        }
    }
}

impl Command {
    /// Carries the command out.
    pub fn execute(&mut self, graph: &mut Graph, selection: &mut Selection)
        requires
            old(graph).wf(),
            old(self)@.ready(SceneView { graph: old(graph)@, selection: old(selection)@ }),
        ensures
            final(graph).wf(),
            (Outcome {
                scene: SceneView { graph: final(graph)@, selection: final(selection)@ },
                command: final(self)@,
            }) == old(self)@.executed(
                SceneView { graph: old(graph)@, selection: old(selection)@ },
            ),
    {
        match self {
            Command::LinkNodes(c) => c.execute(graph),
            Command::AddModel(c) => c.execute(graph),
            Command::ChangeSelection(c) => c.execute(selection),
        }
    }

    /// Takes the command back.
    pub fn revert(&mut self, graph: &mut Graph, selection: &mut Selection)
        requires
            old(graph).wf(),
        ensures
            final(graph).wf(),
            (Outcome {
                scene: SceneView { graph: final(graph)@, selection: final(selection)@ },
                command: final(self)@,
            }) == old(self)@.reverted(
                SceneView { graph: old(graph)@, selection: old(selection)@ },
            ),
    {
        match self {
            Command::LinkNodes(c) => c.revert(graph),
            Command::AddModel(c) => c.revert(graph),
            Command::ChangeSelection(c) => c.revert(selection),
        }
    }
}

impl View for CommandGroup {
    type V = Seq<CommandView>;

    open(crate) spec fn view(&self) -> Seq<CommandView> {
        Seq::new(self.commands@.len(), |i: int| self.commands@[i]@)
    }
}

impl CommandGroup {
    /// The group of `commands`, in their order.
    pub fn from(commands: Vec<Command>) -> (group: CommandGroup)
        ensures
            group@ == Seq::new(commands@.len(), |i: int| commands@[i]@),
    {
        CommandGroup { commands }
    }

    pub fn len(&self) -> (n: usize)
        ensures
            n == self@.len(),
    {
        self.commands.len()
    }

    /// The member at `position`.
    pub fn get(&self, position: usize) -> (command: Option<&Command>)
        ensures
            position < self@.len() ==> (command matches Some(c) && c@ == self@[position as int]),
            position >= self@.len() ==> command is None,
    {
        if position < self.commands.len() {
            Some(&self.commands[position])
        } else {
            None
        }
    }

    /// Carries the members out, the first first.
    pub fn execute(&mut self, graph: &mut Graph, selection: &mut Selection)
        requires
            old(graph).wf(),
            ready_all(old(self)@, SceneView { graph: old(graph)@, selection: old(selection)@ }),
        ensures
            final(graph).wf(),
            (GroupOutcome {
                scene: SceneView { graph: final(graph)@, selection: final(selection)@ },
                commands: final(self)@,
            }) == executed_all(
                old(self)@,
                SceneView { graph: old(graph)@, selection: old(selection)@ },
            ),
    {
        let ghost all = self@;
        let ghost start = SceneView { graph: graph@, selection: selection@ };
        let n = self.commands.len();
        let mut i: usize = 0;
        proof {
            assert(all.take(0) =~= Seq::<CommandView>::empty());
            assert(self@.take(0) =~= Seq::<CommandView>::empty());
            lemma_ready_prefix(all, start, 0);
        }
        while i < n
            invariant
                i <= n,
                n == all.len(),
                self@.len() == n,
                graph.wf(),
                ready_all(all, start),
                forall|j: int| i <= j < n ==> self@[j] == all[j],
                (GroupOutcome {
                    scene: SceneView { graph: graph@, selection: selection@ },
                    commands: self@.take(i as int),
                }) == executed_all(all.take(i as int), start),
            decreases n - i,
        {
            let ghost before = self@;
            proof {
                lemma_ready_prefix(all, start, i as int + 1);
                assert(all.take(i as int + 1).drop_last() =~= all.take(i as int));
                assert(all.take(i as int + 1).last() == all[i as int]);
            }
            match &mut self.commands[i] {
                c => {
                    c.execute(graph, selection);
                },
            }
            proof {
                assert(forall|j: int| 0 <= j < n && j != i ==> self@[j] == before[j]);
                assert(self@.take(i as int + 1) =~= before.take(i as int).push(self@[i as int]));
            }
            i += 1;
        }
        proof {
            assert(all.take(n as int) =~= all);
            assert(self@.take(n as int) =~= self@);
        }
    }

    /// Takes the members back, the last first.
    pub fn revert(&mut self, graph: &mut Graph, selection: &mut Selection)
        requires
            old(graph).wf(),
        ensures
            final(graph).wf(),
            (GroupOutcome {
                scene: SceneView { graph: final(graph)@, selection: final(selection)@ },
                commands: final(self)@,
            }) == reverted_all(
                old(self)@,
                SceneView { graph: old(graph)@, selection: old(selection)@ },
            ),
    {
        let ghost all = self@;
        let ghost start = SceneView { graph: graph@, selection: selection@ };
        let n = self.commands.len();
        let mut i: usize = n;
        proof {
            assert(all.take(n as int) =~= all);
            lemma_reverted_split(all, start, n as int);
        }
        while i > 0
            invariant
                i <= n,
                n == all.len(),
                self@.len() == n,
                graph.wf(),
                forall|j: int| 0 <= j < i ==> self@[j] == all[j],
                reverted_all(all, start).scene == reverted_all(
                    all.take(i as int),
                    SceneView { graph: graph@, selection: selection@ },
                ).scene,
                reverted_all(all, start).commands == reverted_all(
                    all.take(i as int),
                    SceneView { graph: graph@, selection: selection@ },
                ).commands + self@.skip(i as int),
            decreases i,
        {
            let ghost before = self@;
            let ghost scene = SceneView { graph: graph@, selection: selection@ };
            i -= 1;
            proof {
                assert(all.take(i as int + 1).drop_last() =~= all.take(i as int));
                assert(all.take(i as int + 1).last() == all[i as int]);
            }
            match &mut self.commands[i] {
                c => {
                    c.revert(graph, selection);
                },
            }
            proof {
                assert(forall|j: int| 0 <= j < n && j != i ==> self@[j] == before[j]);
                let now = SceneView { graph: graph@, selection: selection@ };
                let rest = reverted_all(all.take(i as int), now);
                assert(reverted_all(all.take(i as int + 1), scene).commands == rest.commands.push(
                    self@[i as int],
                ));
                assert(rest.commands.push(self@[i as int]) + before.skip(i as int + 1)
                    =~= rest.commands + self@.skip(i as int));
            }
        }
        proof {
            assert(all.take(0) =~= Seq::<CommandView>::empty());
            assert(Seq::<CommandView>::empty() + self@.skip(0) =~= self@);
        }
    }
}

/// A group that can be executed can be executed up to any of its members.
pub proof fn lemma_ready_prefix(commands: Seq<CommandView>, scene: SceneView, n: int)
    requires
        ready_all(commands, scene),
        0 <= n <= commands.len(),
    ensures
        ready_all(commands.take(n), scene),
        n > 0 ==> commands[n - 1].ready(executed_all(commands.take(n - 1), scene).scene),
    decreases commands.len(),
{
    if n == commands.len() {
        assert(commands.take(n) =~= commands);
        if n > 0 {
            assert(commands.take(n - 1) =~= commands.drop_last());
        }
    } else {
        lemma_ready_prefix(commands.drop_last(), scene, n);
        assert(commands.drop_last().take(n) =~= commands.take(n));
        if n > 0 {
            assert(commands.drop_last().take(n - 1) =~= commands.take(n - 1));
        }
    }
}

proof fn lemma_reverted_split(commands: Seq<CommandView>, scene: SceneView, n: int)
    requires
        n == commands.len(),
    ensures
        reverted_all(commands, scene).commands == reverted_all(commands.take(n), scene).commands
            + commands.skip(n),
{
    assert(commands.take(n) =~= commands);
    assert(commands.skip(n) =~= Seq::<CommandView>::empty());
    assert(reverted_all(commands, scene).commands + Seq::<CommandView>::empty() =~= reverted_all(
        commands,
        scene,
    ).commands);
}

} // verus!
