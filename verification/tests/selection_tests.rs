use scene_editing::handle::NodeHandle;
use scene_editing::selection::{GraphSelection, Selection};

fn h(index: u32) -> NodeHandle {
    NodeHandle::new(index, 1)
}

fn graph_of(handles: &[NodeHandle]) -> Selection {
    let mut selection = Selection::Nothing;
    for &handle in handles {
        selection.toggle(handle);
    }
    selection
}

#[test]
fn toggling_nothing_selects_the_node_alone() {
    let mut selection = Selection::Nothing;
    selection.toggle(h(3));
    assert_eq!(selection.nodes(), vec![h(3)]);
    assert!(matches!(selection, Selection::Graph(_)));
}

#[test]
fn toggling_adds_absent_and_removes_present_nodes() {
    let mut selection = graph_of(&[h(1), h(2), h(3)]);
    assert_eq!(selection.nodes(), vec![h(1), h(2), h(3)]);
    selection.toggle(h(2));
    assert_eq!(selection.nodes(), vec![h(1), h(3)]);
    selection.toggle(h(4));
    assert_eq!(selection.nodes(), vec![h(1), h(3), h(4)]);
}

#[test]
fn toggling_twice_gives_back_an_equal_selection() {
    let start = graph_of(&[h(1), h(2), h(3)]);
    let mut selection = start.clone();
    selection.toggle(h(1));
    selection.toggle(h(1));
    assert_eq!(selection, start);
    assert_eq!(selection.nodes(), vec![h(2), h(3), h(1)]);
    let mut other = start.clone();
    other.toggle(h(9));
    other.toggle(h(9));
    assert_eq!(other, start);
    assert_eq!(other.nodes(), vec![h(1), h(2), h(3)]);
}

#[test]
fn toggling_nothing_twice_leaves_an_empty_selection_of_nodes() {
    let mut selection = Selection::Nothing;
    selection.toggle(h(1));
    selection.toggle(h(1));
    assert!(matches!(selection, Selection::Graph(_)));
    assert!(selection.nodes().is_empty());
    assert!(selection.is_empty());
    assert_ne!(selection, Selection::Nothing);
}

#[test]
fn a_foreign_selection_ignores_toggles() {
    let mut selection = Selection::Foreign(7);
    selection.toggle(h(1));
    assert_eq!(selection, Selection::Foreign(7));
    assert!(selection.nodes().is_empty());
    assert!(!selection.is_empty());
    assert_ne!(selection, Selection::Foreign(8));
    assert_ne!(selection, Selection::Nothing);
}

#[test]
fn equality_ignores_the_order_of_selection() {
    assert_eq!(graph_of(&[h(1), h(2)]), graph_of(&[h(2), h(1)]));
    assert_ne!(graph_of(&[h(1), h(2)]), graph_of(&[h(1)]));
    assert_ne!(graph_of(&[h(1)]), graph_of(&[h(1), h(2)]));
    assert_ne!(graph_of(&[h(1), h(2)]), graph_of(&[h(1), h(3)]));
    assert!(graph_of(&[h(1), h(2)]).same_as(&graph_of(&[h(2), h(1)])));
    assert_ne!(graph_of(&[h(1)]), Selection::Foreign(1));
}

#[test]
fn handles_differ_by_generation() {
    let mut selection = graph_of(&[NodeHandle::new(1, 1)]);
    selection.toggle(NodeHandle::new(1, 2));
    assert_eq!(selection.nodes(), vec![NodeHandle::new(1, 1), NodeHandle::new(1, 2)]);
}

#[test]
fn graph_selection_inserts_or_excludes() {
    let mut selection = GraphSelection::new();
    assert!(selection.is_empty());
    selection.insert_or_exclude(h(5));
    selection.insert_or_exclude(h(6));
    assert_eq!(selection.len(), 2);
    assert!(selection.contains(h(5)));
    selection.insert_or_exclude(h(5));
    assert!(!selection.contains(h(5)));
    assert_eq!(selection.nodes(), &vec![h(6)]);
}

#[test]
fn single_or_empty_drops_the_null_handle() {
    assert!(GraphSelection::single_or_empty(NodeHandle::none()).is_empty());
    assert_eq!(GraphSelection::single_or_empty(h(2)).nodes(), &vec![h(2)]);
    assert_eq!(GraphSelection::single(NodeHandle::none()).len(), 1);
    assert!(GraphSelection::single(h(2)).same_as(&GraphSelection::single_or_empty(h(2))));
}
