use scene_editing::command::{
    AddModelCommand, ChangeSelectionCommand, Command, CommandGroup, LinkNodesCommand,
};
use scene_editing::graph::Graph;
use scene_editing::handle::NodeHandle;
use scene_editing::model::Model;
use scene_editing::node::{Capabilities, Node};
use scene_editing::selection::Selection;

fn plain(name: &str) -> Node {
    Node::new(name, Capabilities::plain())
}

fn select(handles: &[NodeHandle]) -> Selection {
    let mut selection = Selection::Nothing;
    for &handle in handles {
        selection.toggle(handle);
    }
    selection
}

#[test]
fn a_link_is_made_and_taken_back() {
    let mut graph = Graph::new();
    let a = graph.add_node(plain("a"));
    let b = graph.add_node(plain("b"));
    let root = graph.get_root();
    let mut link = LinkNodesCommand::new(b, a);
    link.execute(&mut graph);
    assert_eq!(graph.try_get(b).unwrap().parent(), a);
    assert_eq!(link.child(), b);
    assert_eq!(link.parent(), root);
    link.revert(&mut graph);
    assert_eq!(graph.try_get(b).unwrap().parent(), root);
    assert_eq!(graph.try_get(root).unwrap().children(), &vec![a, b]);
    assert_eq!(link.parent(), a);
}

#[test]
fn taking_a_link_back_puts_the_node_last_among_its_siblings() {
    let mut graph = Graph::new();
    let a = graph.add_node(plain("a"));
    let b = graph.add_node(plain("b"));
    let c = graph.add_node(plain("c"));
    let root = graph.get_root();
    let mut link = LinkNodesCommand::new(a, c);
    link.execute(&mut graph);
    assert_eq!(graph.try_get(root).unwrap().children(), &vec![b, c]);
    link.revert(&mut graph);
    assert_eq!(graph.try_get(root).unwrap().children(), &vec![b, c, a]);
    assert_eq!(graph.try_get(a).unwrap().parent(), root);
}

#[test]
fn a_link_that_would_close_a_cycle_is_not_made() {
    let mut graph = Graph::new();
    let a = graph.add_node(plain("a"));
    let b = graph.add_node(plain("b"));
    assert!(graph.try_link_nodes(b, a));
    let mut link = LinkNodesCommand::new(a, b);
    link.execute(&mut graph);
    assert_eq!(graph.try_get(a).unwrap().parent(), graph.get_root());
    assert_eq!(link.parent(), b);
    let mut dead = LinkNodesCommand::new(NodeHandle::new(40, 1), a);
    dead.execute(&mut graph);
    assert_eq!(dead.parent(), a);
    assert_eq!(graph.node_count(), 3);
}

#[test]
fn a_change_of_selection_is_made_and_taken_back() {
    let one = NodeHandle::new(1, 1);
    let two = NodeHandle::new(2, 1);
    let mut selection = select(&[one]);
    let mut change = ChangeSelectionCommand::new(select(&[two]), select(&[one]));
    change.execute(&mut selection);
    assert_eq!(selection.nodes(), vec![two]);
    assert_eq!(change.new_selection().nodes(), vec![one]);
    assert_eq!(change.old_selection().nodes(), vec![two]);
    change.revert(&mut selection);
    assert_eq!(selection.nodes(), vec![one]);
    assert_eq!(change.new_selection().nodes(), vec![two]);
}

#[test]
fn added_nodes_are_taken_out_again_on_revert() {
    let mut graph = Graph::new();
    let model = Model::new(3, "crate", Capabilities::plain());
    let instance = graph.instantiate(&model).unwrap();
    assert_eq!(instance, NodeHandle::new(1, 1));
    let sub = graph.take_reserve_sub_graph(instance).unwrap();
    let mut add = AddModelCommand::new(sub);
    assert_eq!(add.model(), instance);
    assert!(add.holds_nodes());
    assert_eq!(graph.node_count(), 1);
    add.execute(&mut graph);
    assert!(!add.holds_nodes());
    assert_eq!(graph.node_count(), 2);
    assert_eq!(graph.try_get(instance).unwrap().name(), "crate");
    // executing once more adds nothing
    add.execute(&mut graph);
    assert_eq!(graph.node_count(), 2);
    add.revert(&mut graph);
    assert!(add.holds_nodes());
    assert_eq!(graph.node_count(), 1);
    // reverting once more takes nothing
    add.revert(&mut graph);
    assert!(add.holds_nodes());
    add.execute(&mut graph);
    assert_eq!(graph.try_get(instance).unwrap().parent(), graph.get_root());
}

#[test]
fn a_group_executes_in_order_and_reverts_in_reverse() {
    let mut graph = Graph::new();
    let a = graph.add_node(plain("a"));
    let b = graph.add_node(plain("b"));
    let c = graph.add_node(plain("c"));
    let root = graph.get_root();
    let mut selection = Selection::Nothing;
    // b goes below a, then c below b; taking the group back undoes the
    // second link first
    let commands = vec![
        Command::LinkNodes(LinkNodesCommand::new(b, a)),
        Command::LinkNodes(LinkNodesCommand::new(c, b)),
        Command::ChangeSelection(ChangeSelectionCommand::new(select(&[c]), Selection::Nothing)),
    ];
    let mut group = CommandGroup::from(commands);
    assert_eq!(group.len(), 3);
    assert!(group.get(3).is_none());
    group.execute(&mut graph, &mut selection);
    assert_eq!(graph.try_get(c).unwrap().parent(), b);
    assert_eq!(graph.try_get(b).unwrap().parent(), a);
    assert_eq!(selection.nodes(), vec![c]);
    group.revert(&mut graph, &mut selection);
    assert_eq!(selection, Selection::Nothing);
    assert_eq!(graph.try_get(c).unwrap().parent(), root);
    assert_eq!(graph.try_get(b).unwrap().parent(), root);
    assert_eq!(graph.try_get(root).unwrap().children(), &vec![a, c, b]);
    assert!(graph.try_get(a).unwrap().children().is_empty());
}

#[test]
fn an_empty_group_changes_nothing() {
    let mut graph = Graph::new();
    let mut selection = Selection::Foreign(2);
    let mut group = CommandGroup::from(Vec::new());
    group.execute(&mut graph, &mut selection);
    group.revert(&mut graph, &mut selection);
    assert_eq!(graph.node_count(), 1);
    assert_eq!(selection, Selection::Foreign(2));
}

#[test]
fn a_model_is_instantiated_node_by_node() {
    let mut graph = Graph::new();
    let mut model = Model::new(5, "top", Capabilities::plain());
    model.add_child(0, "left", Capabilities::plain());
    model.add_child(0, "right", Capabilities::plain());
    model.add_child(2, "leaf", Capabilities::plain());
    let first = graph.instantiate(&model).unwrap();
    let second = graph.instantiate(&model).unwrap();
    assert_eq!(first, NodeHandle::new(1, 1));
    assert_eq!(second, NodeHandle::new(5, 1));
    let root = graph.get_root();
    assert_eq!(graph.try_get(root).unwrap().children(), &vec![first, second]);
    assert_eq!(
        graph.try_get(second).unwrap().children(),
        &vec![NodeHandle::new(6, 1), NodeHandle::new(7, 1)]
    );
    assert_eq!(graph.try_get(NodeHandle::new(8, 1)).unwrap().parent(), NodeHandle::new(7, 1));
    assert_eq!(graph.try_get(NodeHandle::new(8, 1)).unwrap().name(), "leaf");
    assert_eq!(graph.try_get(NodeHandle::new(4, 1)).unwrap().resource(), Some(5));
    assert_eq!(graph.node_count(), 9);
}
