//! The data provider behind the hierarchy view of the editor.
//!
//! The view asks the provider about the nodes of the scene and tells it
//! what the user wants changed. The provider answers every question about
//! a handle that is not live with a neutral value. It changes nothing
//! itself: a wish of the user becomes a command, or a group of commands,
//! which the provider hands back for the editor to carry out.

use crate::command::{
    insertion_group, ready_all, AddModelCommand, ChangeSelectionCommand, Command, CommandGroup,
    CommandView, LinkNodesCommand, SceneView,
};
use crate::graph::Graph;
use crate::handle::{ErasedHandle, NodeHandle};
use crate::hierarchy::GraphView;
use crate::icon::Icon;
use crate::model::{Model, ModelView};
use crate::node::Scale;
use crate::selection::{GraphSelection, Selection, SelectionView};
use crate::validation::Defect;
use vstd::prelude::*;

verus! {

/// The scene as the hierarchy view works on it.
pub struct EditorSceneWrapper {
    pub selection: Selection,
    /// The node below which the content of the scene lives.
    pub scene_content_root: NodeHandle,
    pub graph: Graph,
    /// The scale that an instance of an asset gets when it is dropped into
    /// the scene.
    pub instantiation_scale: Scale,
}

/// The handles of `handles` with their node kind forgotten.
pub open spec fn erase_all(handles: Seq<NodeHandle>) -> Seq<ErasedHandle> {
    Seq::new(handles.len(), |i: int| handles[i].erased())
}

/// The handles of `handles` taken as handles of scene nodes.
pub open spec fn type_all(handles: Seq<ErasedHandle>) -> Seq<NodeHandle> {
    Seq::new(handles.len(), |i: int| handles[i].typed())
}

/// Those of `selected`, in their order, that can go below `parent` without
/// closing a cycle: the ones that are neither `parent` nor one of its
/// ancestors.
pub open spec fn survivors(graph: GraphView, selected: Seq<NodeHandle>, parent: NodeHandle) -> Seq<
    NodeHandle,
>
    decreases selected.len(),
{
    if selected.len() == 0 {
        Seq::empty()
    } else if graph.ancestor_or_self(selected.last(), parent) {
        survivors(graph, selected.drop_last(), parent)
    } else {
        survivors(graph, selected.drop_last(), parent).push(selected.last())
    }
}

/// The commands that move each of `children` below `parent`.
pub open spec fn link_batch(children: Seq<NodeHandle>, parent: NodeHandle) -> Seq<CommandView> {
    Seq::new(children.len(), |i: int| CommandView::LinkNodes { child: children[i], parent })
}

/// Whether `verdict` says of a node what `defect` says.
pub open spec fn tells(verdict: Result<(), String>, defect: Option<Defect>) -> bool {
    match defect {
        None => verdict is Ok,
        Some(d) => verdict matches Err(text) && text@ == d.message_spec(),
    }
}

fn erase_list(handles: &Vec<NodeHandle>) -> (erased: Vec<ErasedHandle>)
    ensures
        erased@ == erase_all(handles@),
{
    let mut erased: Vec<ErasedHandle> = Vec::new();
    let mut i: usize = 0;
    while i < handles.len()
        invariant
            i <= handles.len(),
            erased@ == erase_all(handles@.take(i as int)),
        decreases handles.len() - i,
    {
        erased.push(ErasedHandle::from(handles[i]));
        assert(erased@ =~= erase_all(handles@.take(i as int + 1)));
        i += 1;
    }
    assert(handles@.take(handles@.len() as int) =~= handles@);
    erased
}

impl EditorSceneWrapper {
    /// The scene that the provider works on, as commands see it.
    pub open spec fn scene(&self) -> SceneView {
        SceneView { graph: self.graph@, selection: self.selection@ }
    }

    /// The node below which the content of the scene lives.
    pub fn root_node(&self) -> (root: ErasedHandle)
        ensures
            root == self.scene_content_root.erased(),
    {
        ErasedHandle::from(self.scene_content_root)
    }

    /// The children of `node` in their order; none where `node` is not
    /// live.
    pub fn children_of(&self, node: ErasedHandle) -> (children: Vec<ErasedHandle>)
        ensures
            children@ == if self.graph@.live(node.typed()) {
                erase_all(self.graph@.children_of(node.typed()))
            } else {
                Seq::empty()
            },
    {
        match self.graph.try_get(NodeHandle::from(node)) {
            Some(n) => erase_list(n.children()),
            None => Vec::new(),
        }
    }

    /// The number of children of `node`; zero where `node` is not live.
    pub fn child_count_of(&self, node: ErasedHandle) -> (count: usize)
        ensures
            count == if self.graph@.live(node.typed()) {
                self.graph@.children_of(node.typed()).len()
            } else {
                0
            },
    {
        match self.graph.try_get(NodeHandle::from(node)) {
            Some(n) => n.children().len(),
            None => 0,
        }
    }

    /// Whether `child` is among the children of `node`.
    pub fn is_node_has_child(&self, node: ErasedHandle, child: ErasedHandle) -> (has: bool)
        ensures
            has == (self.graph@.live(node.typed()) && self.graph@.children_of(
                node.typed(),
            ).contains(child.typed())),
    {
        match self.graph.try_get(NodeHandle::from(node)) {
            Some(n) => crate::graph::position_of(n.children(), NodeHandle::from(child)).is_some(),
            None => false,
        }
    }

    /// The parent of `node`; the null handle where `node` is the root or is
    /// not live.
    pub fn parent_of(&self, node: ErasedHandle) -> (parent: ErasedHandle)
        ensures
            parent == if self.graph@.live(node.typed()) {
                self.graph@.parent_of(node.typed()).erased()
            } else {
                ErasedHandle::none_spec()
            },
    {
        match self.graph.try_get(NodeHandle::from(node)) {
            Some(n) => ErasedHandle::from(n.parent()),
            None => ErasedHandle::none(),
        }
    }

    /// The name of `node`; none where `node` is not live.
    pub fn name_of(&self, node: ErasedHandle) -> (name: Option<&str>)
        ensures
            name is Some <==> self.graph@.live(node.typed()),
            name matches Some(text) ==> text@ == self.graph@.node(node.typed()).name,
    {
        match self.graph.try_get(NodeHandle::from(node)) {
            Some(n) => Some(n.name()),
            None => None,
        }
    }

    pub fn is_valid_handle(&self, node: ErasedHandle) -> (valid: bool)
        ensures
            valid == self.graph@.live(node.typed()),
    {
        self.graph.is_valid_handle(NodeHandle::from(node))
    }

    /// The icon of `node`; none where `node` is not live.
    pub fn icon_of(&self, node: ErasedHandle) -> (icon: Option<Icon>)
        ensures
            icon == if self.graph@.live(node.typed()) {
                Some(Icon::of(self.graph@.node(node.typed()).capabilities))
            } else {
                None
            },
    {
        match self.graph.try_get(NodeHandle::from(node)) {
            Some(n) => Some(Icon::classify(n.capabilities())),
            None => None,
        }
    }

    /// Whether `node` was instantiated from an asset.
    pub fn is_instance(&self, node: ErasedHandle) -> (instance: bool)
        ensures
            instance == (self.graph@.live(node.typed()) && self.graph@.node(
                node.typed(),
            ).resource is Some),
    {
        match self.graph.try_get(NodeHandle::from(node)) {
            Some(n) => n.resource().is_some(),
            None => false,
        }
    }

    /// The selected nodes in the order of their selection; none unless
    /// scene nodes are selected.
    pub fn selection(&self) -> (selected: Vec<ErasedHandle>)
        ensures
            selected@ == erase_all(self.selection@.listing()),
    {
        match &self.selection {
            Selection::Graph(graph_selection) => erase_list(graph_selection.nodes()),
            _ => {
                assert(erase_all(Seq::<NodeHandle>::empty()) =~= Seq::<ErasedHandle>::empty());
                Vec::new()
            },
        }
    }

    /// The user dragged `child` onto `parent`. Where `child` is selected,
    /// every selected node that is neither `parent` nor one of its
    /// ancestors is to go below `parent`; the commands that move them are
    /// returned as one group. Nothing is returned where `child` is not
    /// selected or no selected node can be moved.
    pub fn on_change_hierarchy_request(&self, child: ErasedHandle, parent: ErasedHandle) -> (group:
        Option<CommandGroup>)
        requires
            self.graph.wf(),
        ensures
            group is Some <==> self.selection@ is Graph && self.selection@.listing().contains(
                child.typed(),
            ) && survivors(self.graph@, self.selection@.listing(), parent.typed()).len() > 0,
            group matches Some(g) ==> g@ == link_batch(
                survivors(self.graph@, self.selection@.listing(), parent.typed()),
                parent.typed(),
            ),
    {
        let child = NodeHandle::from(child);
        let parent = NodeHandle::from(parent);
        match &self.selection {
            Selection::Graph(selection) => {
                if selection.contains(child) {
                    let nodes = selection.nodes();
                    let mut commands: Vec<Command> = Vec::new();
                    let ghost mut moved: Seq<NodeHandle> = Seq::empty();
                    let mut i: usize = 0;
                    while i < nodes.len()
                        invariant
                            i <= nodes.len(),
                            self.graph.wf(),
                            moved == survivors(self.graph@, nodes@.take(i as int), parent),
                            commands@.len() == moved.len(),
                            forall|k: int|
                                0 <= k < commands@.len() ==> (#[trigger] commands@[k])@
                                    == (CommandView::LinkNodes { child: moved[k], parent }),
                        decreases nodes.len() - i,
                    {
                        let node_handle = nodes[i];
                        proof {
                            assert(nodes@.take(i as int + 1).drop_last() =~= nodes@.take(i as int));
                            assert(nodes@.take(i as int + 1).last() == node_handle);
                        }
                        // A node must not end up below itself or one of
                        // its own descendants.
                        if !self.graph.is_ancestor_or_self(node_handle, parent) {
                            commands.push(
                                Command::LinkNodes(LinkNodesCommand::new(node_handle, parent)),
                            );
                            proof {
                                moved = moved.push(node_handle);
                            }
                        }
                        i += 1;
                    }
                    proof {
                        assert(nodes@.take(nodes@.len() as int) =~= nodes@);
                    }
                    if commands.len() > 0 {
                        let group = CommandGroup::from(commands);
                        assert(group@ =~= link_batch(moved, parent));
                        Some(group)
                    } else {
                        None
                    }
                } else {
                    None
                }
            },
            _ => None,
        }
    }

    /// The scene in which the instance of `model` stands ready: added to
    /// the graph and given the scale of the provider.
    pub open spec fn staged(&self, model: ModelView) -> GraphView {
        self.graph@.instantiated(model, model.nodes.len()).scaled(
            self.graph@.next_handle(),
            self.instantiation_scale,
        )
    }

    /// Whether the graph has room for an instance of `model`.
    pub open spec fn has_room_for(&self, model: ModelView) -> bool {
        model.nodes.len() > 0 && self.graph@.records.len() + model.nodes.len() <= u32::MAX
    }

    /// The group that brings the instance of `model` into the scene: it
    /// adds the nodes of the instance, moves the instance below `target`,
    /// and selects the instance alone.
    pub open spec fn drop_group(&self, model: ModelView, target: NodeHandle) -> Seq<CommandView> {
        let instance = self.graph@.next_handle();
        insertion_group(
            self.staged(model).subtree(instance),
            target,
            SelectionView::Graph(seq![instance]),
            self.selection@,
        )
    }

    /// The user dropped an asset onto `node`. `model` is what the asset was
    /// resolved to, and is none where it could not be resolved; nothing
    /// happens then. Else the model is instantiated, the instance gets the
    /// scale of the provider and is taken out of the graph again, and the
    /// group that brings it into the scene below `node` and selects it is
    /// returned. Until that group is executed the instance is not part of
    /// the graph.
    pub fn on_asset_dropped(&mut self, model: Option<&Model>, node: ErasedHandle) -> (group: Option<
        CommandGroup,
    >)
        requires
            old(self).graph.wf(),
        ensures
            final(self).graph.wf(),
            final(self).selection == old(self).selection,
            final(self).scene_content_root == old(self).scene_content_root,
            final(self).instantiation_scale == old(self).instantiation_scale,
            group is Some <==> (model matches Some(m) && old(self).has_room_for(m@)),
            group is None ==> final(self).graph@ == old(self).graph@,
            group matches Some(g) ==> {
                let m = model->Some_0@;
                let instance = old(self).graph@.next_handle();
                &&& g@ == old(self).drop_group(m, node.typed())
                &&& final(self).graph@ == old(self).staged(m).without_subtree(instance)
                &&& final(self).graph@ == old(self).graph@.with_reserved(m.nodes.len())
                &&& ready_all(g@, final(self).scene())
            },
    {
        proof {
            if model is Some && self.has_room_for(model->Some_0@) {
                self.graph@.lemma_instance_taken(model->Some_0@, self.instantiation_scale);
            }
        }
        match model {
            None => None,
            Some(model) => {
                match self.graph.instantiate(model) {
                    None => None,
                    Some(instance) => {
                        self.graph.set_scale(instance, self.instantiation_scale);
                        match self.graph.take_reserve_sub_graph(instance) {
                            None => None,
                            Some(sub_graph) => {
                                let mut commands: Vec<Command> = Vec::new();
                                commands.push(Command::AddModel(AddModelCommand::new(sub_graph)));
                                commands.push(
                                    Command::LinkNodes(
                                        LinkNodesCommand::new(instance, NodeHandle::from(node)),
                                    ),
                                );
                                commands.push(
                                    Command::ChangeSelection(
                                        ChangeSelectionCommand::new(
                                            Selection::Graph(
                                                GraphSelection::single_or_empty(instance),
                                            ),
                                            self.selection.duplicate(),
                                        ),
                                    ),
                                );
                                let group = CommandGroup::from(commands);
                                proof {
                                    let expected = old(self).drop_group(model@, node.typed());
                                    assert(group@ =~= expected);
                                    let scene = self.scene();
                                    assert(expected.drop_last().drop_last().drop_last()
                                        =~= Seq::<CommandView>::empty());
                                    assert(expected.drop_last().drop_last().last()
                                        == expected[0]);
                                    assert(expected.drop_last().last() == expected[1]);
                                    let first = expected.drop_last().drop_last();
                                    assert(first.drop_last() =~= Seq::<CommandView>::empty());
                                    assert(crate::command::executed_all(
                                        first.drop_last(),
                                        scene,
                                    ).scene == scene);
                                    assert(ready_all(first.drop_last(), scene));
                                    assert(first.last().ready(scene));
                                    assert(ready_all(first, scene));
                                    assert(ready_all(expected.drop_last(), scene));
                                }
                                Some(group)
                            },
                        }
                    },
                }
            },
        }
    }

    /// Holds every live node against the rules of the scene. The result
    /// holds one entry for each live node, in the order of the slots: the
    /// handle of the node, and either nothing or the rule that the node
    /// breaks, in words.
    pub fn validate(&self) -> (report: Vec<(ErasedHandle, Result<(), String>)>)
        requires
            self.graph.wf(),
        ensures
            report@.len() == self.graph@.handles().len(),
            forall|k: int|
                0 <= k < report@.len() ==> (#[trigger] report@[k]).0
                    == self.graph@.handles()[k].erased() && tells(
                    report@[k].1,
                    self.graph@.defect_of(self.graph@.handles()[k]),
                ),
            forall|h: NodeHandle|
                self.graph@.live(h) ==> exists|k: int|
                    0 <= k < report@.len() && (#[trigger] report@[k]).0 == h.erased(),
            forall|k: int|
                0 <= k < report@.len() ==> self.graph@.live((#[trigger] report@[k]).0.typed()),
            forall|j: int, k: int|
                0 <= j < k < report@.len() ==> (#[trigger] report@[j]).0 != (
                #[trigger] report@[k]).0,
    {
        let handles = self.graph.handles();
        proof {
            self.graph@.lemma_handles();
        }
        let mut report: Vec<(ErasedHandle, Result<(), String>)> = Vec::new();
        let mut i: usize = 0;
        while i < handles.len()
            invariant
                i <= handles.len(),
                handles@ == self.graph@.handles(),
                report@.len() == i,
                forall|k: int|
                    0 <= k < i ==> (#[trigger] report@[k]).0 == handles@[k].erased() && tells(
                        report@[k].1,
                        self.graph@.defect_of(handles@[k]),
                    ),
            decreases handles.len() - i,
        {
            let handle = handles[i];
            let verdict = match self.graph.defect_of(handle) {
                None => Ok(()),
                Some(defect) => Err(defect.message()),
            };
            report.push((ErasedHandle::from(handle), verdict));
            i += 1;
        }
        proof {
            assert forall|h: NodeHandle| self.graph@.live(h) implies exists|k: int|
                0 <= k < report@.len() && (#[trigger] report@[k]).0 == h.erased() by {
                assert(handles@.contains(h));
                let k = handles@.index_of(h);
                assert(0 <= k < handles@.len() && handles@[k] == h);
                assert(report@[k].0 == h.erased());
            }
            assert forall|k: int| 0 <= k < report@.len() implies self.graph@.live(
                (#[trigger] report@[k]).0.typed(),
            ) by {
                assert(handles@.contains(handles@[k]));
                assert(handles@[k].erased().typed() == handles@[k]);
            }
            assert forall|j: int, k: int| 0 <= j < k < report@.len() implies (
            #[trigger] report@[j]).0 != (#[trigger] report@[k]).0 by {
                assert(handles@[j] != handles@[k]);
                assert(handles@[j].erased().typed() == handles@[j]);
                assert(handles@[k].erased().typed() == handles@[k]);
            }
        }
        report
    }

    /// The view reports that `selection` is what the user has selected.
    /// The selection that toggling these handles one after the other makes
    /// of nothing is compared with the current selection; where the two
    /// differ the command that selects the new one is returned.
    pub fn on_selection_changed(&self, selection: &[ErasedHandle]) -> (command: Option<
        ChangeSelectionCommand,
    >)
        ensures
            command is None <==> SelectionView::Nothing.toggled_all(type_all(selection@)).same(
                self.selection@,
            ),
            command matches Some(c) ==> c@ == (CommandView::ChangeSelection {
                new_selection: SelectionView::Nothing.toggled_all(type_all(selection@)),
                old_selection: self.selection@,
            }),
    {
        let mut new_selection = Selection::Nothing;
        let mut i: usize = 0;
        proof {
            assert(type_all(selection@).take(0) =~= Seq::<NodeHandle>::empty());
        }
        while i < selection.len()
            invariant
                i <= selection.len(),
                new_selection@ == SelectionView::Nothing.toggled_all(
                    type_all(selection@).take(i as int),
                ),
            decreases selection.len() - i,
        {
            let selected_item = selection[i];
            proof {
                let all = type_all(selection@);
                assert(all.take(i as int + 1).drop_last() =~= all.take(i as int));
                assert(all.take(i as int + 1).last() == selected_item.typed());
            }
            new_selection.toggle(NodeHandle::from(selected_item));
            i += 1;
        }
        proof {
            let all = type_all(selection@);
            assert(all.take(all.len() as int) =~= all);
        }
        if !new_selection.same_as(&self.selection) {
            Some(ChangeSelectionCommand::new(new_selection, self.selection.duplicate()))
        } else {
            None
        }
    }
}

} // verus!
