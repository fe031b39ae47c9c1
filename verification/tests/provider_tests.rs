use scene_editing::command::{Command, CommandGroup};
use scene_editing::graph::Graph;
use scene_editing::handle::{ErasedHandle, NodeHandle};
use scene_editing::icon::Icon;
use scene_editing::model::Model;
use scene_editing::node::{Capabilities, Node, Scale};
use scene_editing::provider::EditorSceneWrapper;
use scene_editing::selection::Selection;

fn plain(name: &str) -> Node {
    Node::new(name, Capabilities::plain())
}

fn erased(h: NodeHandle) -> ErasedHandle {
    ErasedHandle::from(h)
}

fn select(handles: &[NodeHandle]) -> Selection {
    let mut selection = Selection::Nothing;
    for &handle in handles {
        selection.toggle(handle);
    }
    selection
}

struct World {
    provider: EditorSceneWrapper,
    content: NodeHandle,
    a: NodeHandle,
    b: NodeHandle,
    c: NodeHandle,
    d: NodeHandle,
}

// root
//   content
//     a
//       b
//         c
//     d
fn world(selected: &[u32]) -> World {
    let mut graph = Graph::new();
    let content = graph.add_node(plain("content"));
    let a = graph.add_node(plain("a"));
    let b = graph.add_node(plain("b"));
    let c = graph.add_node(plain("c"));
    let d = graph.add_node(plain("d"));
    assert!(graph.try_link_nodes(a, content));
    assert!(graph.try_link_nodes(b, a));
    assert!(graph.try_link_nodes(c, b));
    assert!(graph.try_link_nodes(d, content));
    let handles: Vec<NodeHandle> = selected.iter().map(|&i| NodeHandle::new(i, 1)).collect();
    World {
        provider: EditorSceneWrapper {
            selection: select(&handles),
            scene_content_root: content,
            graph,
            instantiation_scale: Scale::unit(),
        },
        content,
        a,
        b,
        c,
        d,
    }
}

fn links_of(group: &CommandGroup) -> Vec<(NodeHandle, NodeHandle)> {
    let mut links = Vec::new();
    for i in 0..group.len() {
        match group.get(i) {
            Some(Command::LinkNodes(link)) => links.push((link.child(), link.parent())),
            _ => panic!("a command that links nodes was expected"),
        }
    }
    links
}

#[test]
fn the_root_node_is_the_content_root() {
    let w = world(&[]);
    assert_eq!(w.provider.root_node(), erased(w.content));
}

#[test]
fn live_nodes_answer_with_their_links_and_names() {
    let w = world(&[]);
    let p = &w.provider;
    assert_eq!(p.children_of(erased(w.content)), vec![erased(w.a), erased(w.d)]);
    assert_eq!(p.child_count_of(erased(w.content)), 2);
    assert_eq!(p.child_count_of(erased(w.c)), 0);
    assert!(p.is_node_has_child(erased(w.a), erased(w.b)));
    assert!(!p.is_node_has_child(erased(w.a), erased(w.c)));
    assert_eq!(p.parent_of(erased(w.c)), erased(w.b));
    assert_eq!(p.parent_of(erased(w.provider.graph.get_root())), ErasedHandle::none());
    assert_eq!(p.name_of(erased(w.b)), Some("b"));
    assert!(p.is_valid_handle(erased(w.d)));
}

#[test]
fn handles_that_are_not_live_get_neutral_answers() {
    let w = world(&[]);
    let p = &w.provider;
    let strangers = [
        ErasedHandle::none(),
        ErasedHandle::new(77, 1),
        ErasedHandle::new(w.a.index(), w.a.generation() + 1),
        ErasedHandle::new(w.a.index(), 0),
    ];
    for stranger in strangers {
        assert!(p.children_of(stranger).is_empty());
        assert_eq!(p.child_count_of(stranger), 0);
        assert!(!p.is_node_has_child(stranger, erased(w.a)));
        assert_eq!(p.parent_of(stranger), ErasedHandle::none());
        assert_eq!(p.name_of(stranger), None);
        assert!(!p.is_valid_handle(stranger));
        assert_eq!(p.icon_of(stranger), None);
        assert!(!p.is_instance(stranger));
    }
    assert!(!p.is_node_has_child(erased(w.a), ErasedHandle::new(77, 1)));
}

#[test]
fn icons_follow_the_capabilities() {
    let mut w = world(&[]);
    let lamp = w.provider.graph.add_node(Node::new(
        "lamp",
        Capabilities { point_light: true, joint: true, ..Capabilities::plain() },
    ));
    let hinge = w
        .provider
        .graph
        .add_node(Node::new("hinge", Capabilities { joint: true, ..Capabilities::plain() }));
    assert_eq!(w.provider.icon_of(erased(lamp)), Some(Icon::Light));
    assert_eq!(w.provider.icon_of(erased(hinge)), Some(Icon::Joint));
    assert_eq!(w.provider.icon_of(erased(w.a)), Some(Icon::Cube));
}

#[test]
fn instances_are_the_nodes_with_a_resource() {
    let mut w = world(&[]);
    let copy = w.provider.graph.add_node(plain("copy").with_resource(42));
    assert!(w.provider.is_instance(erased(copy)));
    assert!(!w.provider.is_instance(erased(w.a)));
}

#[test]
fn the_selection_is_listed_in_its_order() {
    let w = world(&[4, 2]);
    assert_eq!(w.provider.selection(), vec![erased(w.c), erased(w.a)]);
    let mut nothing = world(&[]);
    assert!(nothing.provider.selection().is_empty());
    nothing.provider.selection = Selection::Foreign(3);
    assert!(nothing.provider.selection().is_empty());
}

#[test]
fn a_node_is_not_moved_below_its_own_descendant() {
    let mut w = world(&[2]);
    // a is selected, and dragged onto c, which is below a
    assert!(w.provider.on_change_hierarchy_request(erased(w.a), erased(w.c)).is_none());
    assert!(w.provider.on_change_hierarchy_request(erased(w.a), erased(w.a)).is_none());
    assert_eq!(w.provider.graph.try_get(w.a).unwrap().parent(), w.content);
    // with an unrelated node selected too, only that one is moved
    w.provider.selection = select(&[w.a, w.d]);
    let mut group = w.provider.on_change_hierarchy_request(erased(w.a), erased(w.c)).unwrap();
    assert_eq!(links_of(&group), vec![(w.d, w.c)]);
    group.execute(&mut w.provider.graph, &mut w.provider.selection);
    assert_eq!(w.provider.graph.try_get(w.a).unwrap().parent(), w.content);
    assert_eq!(w.provider.graph.try_get(w.d).unwrap().parent(), w.c);
    assert!(!w.provider.graph.is_ancestor_or_self(w.c, w.a));
    assert!(w.provider.graph.is_ancestor_or_self(w.a, w.d));
}

#[test]
fn selected_nodes_move_below_an_unrelated_node() {
    let mut w = world(&[3, 5]);
    // b and d are selected; b is dragged onto the content root
    let mut group = w.provider.on_change_hierarchy_request(erased(w.b), erased(w.content)).unwrap();
    assert_eq!(links_of(&group), vec![(w.b, w.content), (w.d, w.content)]);
    let before = w.provider.selection.clone();
    group.execute(&mut w.provider.graph, &mut w.provider.selection);
    assert_eq!(w.provider.selection, before);
    let graph = &w.provider.graph;
    assert_eq!(graph.try_get(w.b).unwrap().parent(), w.content);
    assert_eq!(graph.try_get(w.content).unwrap().children(), &vec![w.a, w.b, w.d]);
    assert!(graph.try_get(w.a).unwrap().children().is_empty());
    assert_eq!(graph.try_get(w.c).unwrap().parent(), w.b);
    // every child names its parent and every parent lists its child
    for handle in graph.handles() {
        let node = graph.try_get(handle).unwrap();
        for &child in node.children() {
            assert_eq!(graph.try_get(child).unwrap().parent(), handle);
        }
        if handle != graph.get_root() {
            assert!(graph.try_get(node.parent()).unwrap().children().contains(&handle));
        }
    }
    // the commands remember the old parents
    assert_eq!(links_of(&group), vec![(w.b, w.a), (w.d, w.content)]);
    group.revert(&mut w.provider.graph, &mut w.provider.selection);
    assert_eq!(w.provider.graph.try_get(w.b).unwrap().parent(), w.a);
    assert_eq!(w.provider.graph.try_get(w.a).unwrap().children(), &vec![w.b]);
    assert_eq!(w.provider.graph.try_get(w.content).unwrap().children(), &vec![w.a, w.d]);
    assert_eq!(links_of(&group), vec![(w.b, w.content), (w.d, w.content)]);
}

#[test]
fn nothing_moves_unless_the_dragged_node_is_selected() {
    let w = world(&[3]);
    assert!(w.provider.on_change_hierarchy_request(erased(w.d), erased(w.a)).is_none());
    let nothing = world(&[]);
    assert!(nothing.provider.on_change_hierarchy_request(erased(w.d), erased(w.a)).is_none());
    let mut foreign = world(&[]);
    foreign.provider.selection = Selection::Foreign(1);
    assert!(foreign.provider.on_change_hierarchy_request(erased(w.d), erased(w.a)).is_none());
}

#[test]
fn a_move_onto_a_dead_handle_changes_nothing_when_executed() {
    let mut w = world(&[5]);
    let target = ErasedHandle::new(60, 1);
    let mut group = w.provider.on_change_hierarchy_request(erased(w.d), target).unwrap();
    assert_eq!(links_of(&group), vec![(w.d, NodeHandle::new(60, 1))]);
    group.execute(&mut w.provider.graph, &mut w.provider.selection);
    assert_eq!(w.provider.graph.try_get(w.d).unwrap().parent(), w.content);
    assert_eq!(links_of(&group), vec![(w.d, NodeHandle::new(60, 1))]);
}

#[test]
fn selecting_the_same_set_again_gives_no_command() {
    let w = world(&[2, 3]);
    assert!(w.provider.on_selection_changed(&[erased(w.a), erased(w.b)]).is_none());
    assert!(w.provider.on_selection_changed(&[erased(w.b), erased(w.a)]).is_none());
}

#[test]
fn selecting_another_set_gives_a_command_with_both_selections() {
    let w = world(&[2, 3]);
    let command = w.provider.on_selection_changed(&[erased(w.a), erased(w.d)]).unwrap();
    assert_eq!(command.new_selection().nodes(), vec![w.a, w.d]);
    assert_eq!(command.old_selection().nodes(), vec![w.a, w.b]);
    let fewer = w.provider.on_selection_changed(&[erased(w.a)]).unwrap();
    assert_eq!(fewer.new_selection().nodes(), vec![w.a]);
}

#[test]
fn an_empty_list_selects_nothing() {
    let w = world(&[2]);
    let command = w.provider.on_selection_changed(&[]).unwrap();
    assert_eq!(command.new_selection(), &Selection::Nothing);
    let nothing = world(&[]);
    assert!(nothing.provider.on_selection_changed(&[]).is_none());
}

#[test]
fn a_handle_named_twice_is_toggled_out_again() {
    let w = world(&[]);
    let command = w
        .provider
        .on_selection_changed(&[erased(w.a), erased(w.b), erased(w.a)])
        .unwrap();
    assert_eq!(command.new_selection().nodes(), vec![w.b]);
}

#[test]
fn validation_reports_every_live_node_once() {
    let mut w = world(&[]);
    let stray = w
        .provider
        .graph
        .add_node(Node::new("stray", Capabilities { collider: true, ..Capabilities::plain() }));
    let taken = w.provider.graph.take_reserve_sub_graph(w.b).unwrap();
    let report = w.provider.validate();
    let handles: Vec<ErasedHandle> = report.iter().map(|entry| entry.0).collect();
    let root = w.provider.graph.get_root();
    assert_eq!(
        handles,
        vec![erased(root), erased(w.content), erased(w.a), erased(w.d), erased(stray)]
    );
    for (handle, verdict) in &report {
        if *handle == erased(stray) {
            assert_eq!(
                verdict,
                &Err("3D Collider must be a direct child of a 3D Rigid Body node, otherwise it will not have any effect!".to_string())
            );
        } else {
            assert_eq!(verdict, &Ok(()));
        }
    }
    w.provider.graph.put_sub_graph_back(taken);
    assert_eq!(w.provider.validate().len(), 7);
}

#[test]
fn an_asset_that_was_not_resolved_changes_nothing() {
    let mut w = world(&[2]);
    let before = w.provider.graph.handles();
    let capacity = w.provider.graph.capacity();
    assert!(w.provider.on_asset_dropped(None, erased(w.a)).is_none());
    assert_eq!(w.provider.graph.handles(), before);
    assert_eq!(w.provider.graph.capacity(), capacity);
    assert_eq!(w.provider.graph.node_count(), 6);
    assert_eq!(w.provider.graph.try_get(w.content).unwrap().children(), &vec![w.a, w.d]);
    assert_eq!(w.provider.selection.nodes(), vec![w.a]);
}

fn chair() -> Model {
    let mut model = Model::new(9, "chair", Capabilities::plain());
    let seat = model.add_child(0, "seat", Capabilities::plain()).unwrap();
    assert_eq!(seat, 1);
    assert_eq!(model.add_child(seat, "cushion", Capabilities::plain()), Some(2));
    assert_eq!(model.add_child(0, "leg", Capabilities::plain()), Some(3));
    assert_eq!(model.add_child(7, "ghost", Capabilities::plain()), None);
    assert_eq!(model.len(), 4);
    assert_eq!(model.id(), 9);
    model
}

#[test]
fn a_dropped_asset_enters_the_scene_as_one_step() {
    let mut w = world(&[2]);
    w.provider.instantiation_scale = Scale { x: 0x4000_0000, y: 0x4000_0000, z: 0x3f00_0000 };
    let model = chair();
    let live_before = w.provider.graph.handles();
    let mut group = w.provider.on_asset_dropped(Some(&model), erased(w.d)).unwrap();
    let instance = NodeHandle::new(6, 1);
    // until the group is executed the instance is not part of the graph
    assert_eq!(w.provider.graph.handles(), live_before);
    assert_eq!(w.provider.graph.capacity(), 10);
    assert!(!w.provider.graph.is_valid_handle(instance));
    assert_eq!(w.provider.selection.nodes(), vec![w.a]);
    let root = w.provider.graph.get_root();
    assert_eq!(w.provider.graph.try_get(root).unwrap().children(), &vec![w.content]);
    assert_eq!(group.len(), 3);
    match group.get(0) {
        Some(Command::AddModel(add)) => {
            assert_eq!(add.model(), instance);
            assert!(add.holds_nodes());
        }
        _ => panic!("the first command adds the nodes"),
    }
    match group.get(1) {
        Some(Command::LinkNodes(link)) => {
            assert_eq!(link.child(), instance);
            assert_eq!(link.parent(), w.d);
        }
        _ => panic!("the second command links the instance"),
    }
    match group.get(2) {
        Some(Command::ChangeSelection(change)) => {
            assert_eq!(change.new_selection().nodes(), vec![instance]);
            assert_eq!(change.old_selection().nodes(), vec![w.a]);
        }
        _ => panic!("the third command selects the instance"),
    }

    group.execute(&mut w.provider.graph, &mut w.provider.selection);
    let graph = &w.provider.graph;
    assert_eq!(graph.node_count(), 10);
    assert_eq!(w.provider.selection.nodes(), vec![instance]);
    let top = graph.try_get(instance).unwrap();
    assert_eq!(top.name(), "chair");
    assert_eq!(top.parent(), w.d);
    assert_eq!(top.scale(), Scale { x: 0x4000_0000, y: 0x4000_0000, z: 0x3f00_0000 });
    assert_eq!(top.resource(), Some(9));
    assert_eq!(top.children(), &vec![NodeHandle::new(7, 1), NodeHandle::new(9, 1)]);
    let seat = graph.try_get(NodeHandle::new(7, 1)).unwrap();
    assert_eq!(seat.name(), "seat");
    assert_eq!(seat.children(), &vec![NodeHandle::new(8, 1)]);
    assert_eq!(seat.scale(), Scale::unit());
    assert_eq!(graph.try_get(NodeHandle::new(8, 1)).unwrap().name(), "cushion");
    assert_eq!(graph.try_get(NodeHandle::new(9, 1)).unwrap().parent(), instance);
    assert_eq!(graph.try_get(w.d).unwrap().children(), &vec![instance]);
    assert_eq!(graph.try_get(root).unwrap().children(), &vec![w.content]);
    assert!(w.provider.is_instance(erased(instance)));

    group.revert(&mut w.provider.graph, &mut w.provider.selection);
    assert_eq!(w.provider.graph.handles(), live_before);
    assert_eq!(w.provider.selection.nodes(), vec![w.a]);
    assert!(w.provider.graph.try_get(w.d).unwrap().children().is_empty());
    assert_eq!(w.provider.graph.try_get(root).unwrap().children(), &vec![w.content]);
    assert_eq!(w.provider.graph.try_get(w.content).unwrap().children(), &vec![w.a, w.d]);
    assert!(!w.provider.graph.is_valid_handle(instance));

    // and it can be executed again
    group.execute(&mut w.provider.graph, &mut w.provider.selection);
    assert_eq!(w.provider.graph.node_count(), 10);
    assert_eq!(w.provider.graph.try_get(instance).unwrap().parent(), w.d);
    assert_eq!(w.provider.selection.nodes(), vec![instance]);
}

#[test]
fn an_asset_dropped_onto_a_dead_handle_stays_below_the_root() {
    let mut w = world(&[]);
    let model = Model::new(1, "lamp", Capabilities { spot_light: true, ..Capabilities::plain() });
    let mut group = w.provider.on_asset_dropped(Some(&model), ErasedHandle::none()).unwrap();
    group.execute(&mut w.provider.graph, &mut w.provider.selection);
    let root = w.provider.graph.get_root();
    let instance = NodeHandle::new(6, 1);
    assert_eq!(w.provider.graph.try_get(instance).unwrap().parent(), root);
    assert_eq!(w.provider.icon_of(erased(instance)), Some(Icon::Light));
    assert_eq!(w.provider.selection.nodes(), vec![instance]);
    group.revert(&mut w.provider.graph, &mut w.provider.selection);
    assert_eq!(w.provider.selection, Selection::Nothing);
    assert_eq!(w.provider.graph.node_count(), 6);
}
