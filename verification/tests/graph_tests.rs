use scene_editing::graph::Graph;
use scene_editing::handle::{ErasedHandle, NodeHandle};
use scene_editing::node::{Capabilities, Node, Scale};

fn plain(name: &str) -> Node {
    Node::new(name, Capabilities::plain())
}

#[test]
fn null_handles_are_none() {
    assert!(NodeHandle::none().is_none());
    assert!(!NodeHandle::none().is_some());
    assert!(ErasedHandle::none().is_none());
    assert_eq!(NodeHandle::default(), NodeHandle::none());
    assert_eq!(ErasedHandle::default(), ErasedHandle::new(0, 0));
    assert!(NodeHandle::new(3, 0).is_some());
    assert!(ErasedHandle::new(3, 0).is_none());
    assert!(ErasedHandle::new(0, 1).is_some());
}

#[test]
fn handles_convert_both_ways() {
    let typed = NodeHandle::new(7, 2);
    let erased = ErasedHandle::from(typed);
    assert_eq!(erased.index(), 7);
    assert_eq!(erased.generation(), 2);
    assert_eq!(NodeHandle::from(erased), typed);
    let back: NodeHandle = erased.into();
    assert_eq!(back, typed);
}

#[test]
fn new_graph_holds_its_root_alone() {
    let graph = Graph::new();
    let root = graph.get_root();
    assert_eq!(root, NodeHandle::new(0, 1));
    assert!(graph.is_valid_handle(root));
    assert_eq!(graph.node_count(), 1);
    assert_eq!(graph.capacity(), 1);
    let node = graph.try_get(root).unwrap();
    assert_eq!(node.name(), "__ROOT__");
    assert!(node.parent().is_none());
    assert!(node.children().is_empty());
    assert_eq!(node.scale(), Scale::unit());
    assert_eq!(node.resource(), None);
}

#[test]
fn added_nodes_go_below_the_root_in_order() {
    let mut graph = Graph::new();
    let a = graph.add_node(plain("a"));
    let b = graph.add_node(plain("b"));
    assert_eq!(a, NodeHandle::new(1, 1));
    assert_eq!(b, NodeHandle::new(2, 1));
    let root = graph.get_root();
    assert_eq!(graph.try_get(root).unwrap().children(), &vec![a, b]);
    assert_eq!(graph.try_get(a).unwrap().parent(), root);
    assert_eq!(graph.try_get(b).unwrap().name(), "b");
    assert_eq!(graph.handles(), vec![root, a, b]);
    assert_eq!(graph.node_count(), 3);
}

#[test]
fn stale_and_foreign_handles_are_not_valid() {
    let mut graph = Graph::new();
    let a = graph.add_node(plain("a"));
    assert!(graph.is_valid_handle(a));
    assert!(!graph.is_valid_handle(NodeHandle::new(a.index(), a.generation() + 1)));
    assert!(!graph.is_valid_handle(NodeHandle::new(99, 1)));
    assert!(!graph.is_valid_handle(NodeHandle::none()));
    assert!(graph.try_get(NodeHandle::new(99, 1)).is_none());
}

#[test]
fn linking_moves_the_child_to_the_end_of_the_new_parent() {
    let mut graph = Graph::new();
    let a = graph.add_node(plain("a"));
    let b = graph.add_node(plain("b"));
    let c = graph.add_node(plain("c"));
    let root = graph.get_root();
    assert!(graph.try_link_nodes(b, a));
    assert!(graph.try_link_nodes(c, a));
    assert_eq!(graph.try_get(root).unwrap().children(), &vec![a]);
    assert_eq!(graph.try_get(a).unwrap().children(), &vec![b, c]);
    assert_eq!(graph.try_get(b).unwrap().parent(), a);
    // linking below the same parent again moves the child to the end
    assert!(graph.try_link_nodes(b, a));
    assert_eq!(graph.try_get(a).unwrap().children(), &vec![c, b]);
}

#[test]
fn linking_that_would_close_a_cycle_is_refused() {
    let mut graph = Graph::new();
    let a = graph.add_node(plain("a"));
    let b = graph.add_node(plain("b"));
    let c = graph.add_node(plain("c"));
    let root = graph.get_root();
    assert!(graph.try_link_nodes(b, a));
    assert!(graph.try_link_nodes(c, b));
    assert!(graph.is_ancestor_or_self(a, c));
    assert!(graph.is_ancestor_or_self(a, a));
    assert!(!graph.is_ancestor_or_self(c, a));
    assert!(!graph.can_link(a, c));
    assert!(!graph.try_link_nodes(a, c));
    assert!(!graph.try_link_nodes(a, a));
    assert!(!graph.try_link_nodes(root, a));
    assert!(!graph.try_link_nodes(a, NodeHandle::none()));
    assert!(!graph.try_link_nodes(NodeHandle::new(50, 1), a));
    assert_eq!(graph.try_get(a).unwrap().parent(), root);
    assert_eq!(graph.try_get(a).unwrap().children(), &vec![b]);
    assert_eq!(graph.try_get(b).unwrap().children(), &vec![c]);
}

#[test]
fn a_sub_graph_leaves_and_comes_back_under_the_same_handles() {
    let mut graph = Graph::new();
    let a = graph.add_node(plain("a"));
    let b = graph.add_node(plain("b"));
    let c = graph.add_node(plain("c"));
    let d = graph.add_node(plain("d"));
    let root = graph.get_root();
    assert!(graph.try_link_nodes(b, a));
    assert!(graph.try_link_nodes(c, b));
    let sub = graph.take_reserve_sub_graph(b).unwrap();
    assert_eq!(sub.root(), b);
    assert_eq!(sub.parent(), a);
    assert!(!graph.is_valid_handle(b));
    assert!(!graph.is_valid_handle(c));
    assert!(graph.is_valid_handle(a));
    assert!(graph.try_get(a).unwrap().children().is_empty());
    assert_eq!(graph.handles(), vec![root, a, d]);
    assert_eq!(graph.capacity(), 5);
    // the slots stay reserved: a new node gets a new slot
    let e = graph.add_node(plain("e"));
    assert_eq!(e, NodeHandle::new(5, 1));
    let top = graph.put_sub_graph_back(sub);
    assert_eq!(top, b);
    assert_eq!(graph.try_get(a).unwrap().children(), &vec![b]);
    assert_eq!(graph.try_get(b).unwrap().parent(), a);
    assert_eq!(graph.try_get(b).unwrap().children(), &vec![c]);
    assert_eq!(graph.try_get(c).unwrap().name(), "c");
    assert_eq!(graph.handles(), vec![root, a, b, c, d, e]);
}

#[test]
fn the_root_and_dead_handles_cannot_be_taken_out() {
    let mut graph = Graph::new();
    let a = graph.add_node(plain("a"));
    let root = graph.get_root();
    assert!(graph.take_reserve_sub_graph(root).is_none());
    assert!(graph.take_reserve_sub_graph(NodeHandle::new(9, 1)).is_none());
    assert!(graph.take_reserve_sub_graph(NodeHandle::none()).is_none());
    assert_eq!(graph.handles(), vec![root, a]);
}

#[test]
fn scale_is_set_on_live_nodes_only() {
    let mut graph = Graph::new();
    let a = graph.add_node(plain("a"));
    let scale = Scale { x: 0x4000_0000, y: 0x3f00_0000, z: 0x3f80_0000 };
    assert!(graph.set_scale(a, scale));
    assert_eq!(graph.try_get(a).unwrap().scale(), scale);
    assert!(!graph.set_scale(NodeHandle::new(4, 1), scale));
}
