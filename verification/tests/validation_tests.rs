use scene_editing::graph::Graph;
use scene_editing::handle::NodeHandle;
use scene_editing::icon::Icon;
use scene_editing::node::{Capabilities, Node};
use scene_editing::validation::Defect;

fn caps() -> Capabilities {
    Capabilities::plain()
}

#[test]
fn each_capability_has_its_icon() {
    assert_eq!(Icon::classify(caps()), Icon::Cube);
    assert_eq!(Icon::classify(Capabilities { point_light: true, ..caps() }), Icon::Light);
    assert_eq!(Icon::classify(Capabilities { directional_light: true, ..caps() }), Icon::Light);
    assert_eq!(Icon::classify(Capabilities { spot_light: true, ..caps() }), Icon::Light);
    assert_eq!(Icon::classify(Capabilities { joint: true, ..caps() }), Icon::Joint);
    assert_eq!(Icon::classify(Capabilities { joint2d: true, ..caps() }), Icon::Joint);
    assert_eq!(Icon::classify(Capabilities { rigid_body: true, ..caps() }), Icon::RigidBody);
    assert_eq!(Icon::classify(Capabilities { rigid_body2d: true, ..caps() }), Icon::RigidBody);
    assert_eq!(Icon::classify(Capabilities { collider: true, ..caps() }), Icon::Collider);
    assert_eq!(Icon::classify(Capabilities { collider2d: true, ..caps() }), Icon::Collider);
    assert_eq!(Icon::classify(Capabilities { sound: true, ..caps() }), Icon::SoundSource);
}

#[test]
fn a_light_that_is_a_joint_gets_the_light_icon() {
    let both = Capabilities { spot_light: true, joint: true, ..caps() };
    assert_eq!(Icon::classify(both), Icon::Light);
}

#[test]
fn earlier_capabilities_win_over_later_ones() {
    let joint_body = Capabilities { joint2d: true, rigid_body: true, sound: true, ..caps() };
    assert_eq!(Icon::classify(joint_body), Icon::Joint);
    let body_collider = Capabilities { rigid_body2d: true, collider: true, ..caps() };
    assert_eq!(Icon::classify(body_collider), Icon::RigidBody);
    let collider_sound = Capabilities { collider2d: true, sound: true, ..caps() };
    assert_eq!(Icon::classify(collider_sound), Icon::Collider);
    let everything = Capabilities {
        point_light: true,
        directional_light: true,
        spot_light: true,
        joint: true,
        joint2d: true,
        rigid_body: true,
        rigid_body2d: true,
        collider: true,
        collider2d: true,
        sound: true,
    };
    assert_eq!(Icon::classify(everything), Icon::Light);
}

#[test]
fn icons_name_their_images() {
    assert_eq!(Icon::Light.image_name(), "light.png");
    assert_eq!(Icon::Joint.image_name(), "joint.png");
    assert_eq!(Icon::RigidBody.image_name(), "rigid_body.png");
    assert_eq!(Icon::Collider.image_name(), "collider.png");
    assert_eq!(Icon::SoundSource.image_name(), "sound_source.png");
    assert_eq!(Icon::Cube.image_name(), "cube.png");
}

#[test]
fn a_collider_needs_a_body_as_parent() {
    let mut graph = Graph::new();
    let body = graph.add_node(Node::new("body", Capabilities { rigid_body: true, ..caps() }));
    let inside = graph.add_node(Node::new("inside", Capabilities { collider: true, ..caps() }));
    let outside = graph.add_node(Node::new("outside", Capabilities { collider: true, ..caps() }));
    assert!(graph.try_link_nodes(inside, body));
    assert_eq!(graph.defect_of(inside), None);
    assert_eq!(graph.defect_of(outside), Some(Defect::ColliderOutsideBody));
    assert_eq!(graph.defect_of(body), None);
    assert_eq!(graph.defect_of(graph.get_root()), None);
}

#[test]
fn a_body_needs_a_collider_of_its_dimension() {
    let mut graph = Graph::new();
    let body = graph.add_node(Node::new("body", Capabilities { rigid_body: true, ..caps() }));
    let flat_body = graph.add_node(Node::new("flat", Capabilities { rigid_body2d: true, ..caps() }));
    let plain = graph.add_node(Node::new("plain", caps()));
    let flat_collider =
        graph.add_node(Node::new("c2", Capabilities { collider2d: true, ..caps() }));
    assert!(graph.try_link_nodes(plain, body));
    assert!(graph.try_link_nodes(flat_collider, body));
    assert_eq!(graph.defect_of(body), Some(Defect::BodyWithoutCollider));
    assert_eq!(graph.defect_of(flat_body), Some(Defect::FlatBodyWithoutCollider));
    assert_eq!(graph.defect_of(flat_collider), Some(Defect::FlatColliderOutsideBody));
    assert!(graph.try_link_nodes(flat_collider, flat_body));
    assert_eq!(graph.defect_of(flat_body), None);
    assert_eq!(graph.defect_of(flat_collider), None);
    assert_eq!(graph.defect_of(plain), None);
}

#[test]
fn the_first_broken_rule_is_reported() {
    let mut graph = Graph::new();
    let odd = graph.add_node(Node::new(
        "odd",
        Capabilities { collider: true, collider2d: true, rigid_body: true, ..caps() },
    ));
    assert_eq!(graph.defect_of(odd), Some(Defect::ColliderOutsideBody));
}

#[test]
fn a_dead_handle_breaks_no_rule() {
    let graph = Graph::new();
    assert_eq!(graph.defect_of(NodeHandle::new(5, 1)), None);
    assert_eq!(graph.defect_of(NodeHandle::none()), None);
}

#[test]
fn defects_are_put_in_words() {
    assert_eq!(
        Defect::ColliderOutsideBody.message(),
        "3D Collider must be a direct child of a 3D Rigid Body node, otherwise it will not have any effect!"
    );
    assert_eq!(
        Defect::FlatColliderOutsideBody.message(),
        "2D Collider must be a direct child of a 2D Rigid Body node, otherwise it will not have any effect!"
    );
    assert_eq!(
        Defect::BodyWithoutCollider.message(),
        "The 3D rigid body must have at least one 3D collider as a direct child node to work correctly!"
    );
    assert_eq!(
        Defect::FlatBodyWithoutCollider.message(),
        "The 2D rigid body must have at least one 2D collider as a direct child node to work correctly!"
    );
}
