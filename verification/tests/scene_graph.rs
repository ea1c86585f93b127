use lightly_rusted::scene::{Node, Scene};

#[test]
fn new_node_defaults() {
    let n: Node<u8> = Node::new(Some("sphere".to_string()), 7);
    assert_eq!(n.get_mesh_id(), &Some("sphere".to_string()));
    assert_eq!(n.get_material_id(), 0);
    assert!(n.get_children().is_empty());
    assert_eq!(*n.get_transforms(), 7);
}

#[test]
fn mesh_and_material_round_trip() {
    let mut n: Node<()> = Node::new(None, ());
    assert_eq!(n.get_mesh_id(), &None);
    n.set_mesh_id("cube".to_string());
    n.set_material_id(3);
    assert_eq!(n.get_mesh_id(), &Some("cube".to_string()));
    assert_eq!(n.get_material_id(), 3);
}

#[test]
fn children_in_order_and_get_child() {
    let mut root: Node<i32> = Node::new(None, 0);
    root.add_child(Node::new(Some("a".to_string()), 1));
    root.add_child(Node::new(Some("b".to_string()), 2));
    assert_eq!(root.get_children().len(), 2);
    assert_eq!(root.get_child(1).map(|c| *c.get_transforms()), Some(2));
    assert_eq!(root.get_child(0).unwrap().get_mesh_id(), &Some("a".to_string()));
    assert!(root.get_child(2).is_none());
}

#[test]
fn children_changed_in_place() {
    let mut root: Node<i32> = Node::new(None, 0);
    root.add_child(Node::new(None, 1));
    for c in root.get_children_mut() {
        c.set_transforms(5);
    }
    root.set_transforms(9);
    assert_eq!(*root.get_children()[0].get_transforms(), 5);
    assert_eq!(*root.get_transforms(), 9);
}

#[test]
fn scene_lists() {
    let mut s: Scene<u8, &str, f32> = Scene::new("demo".to_string(), Node::new(None, 0));
    assert_eq!(s.description, "demo");
    assert!(s.get_point_lights().is_empty());
    assert!(s.get_materials().is_empty());
    s.add_point_light("key");
    s.add_point_light("fill");
    s.add_material(0.5);
    assert_eq!(s.get_point_lights(), &vec!["key", "fill"]);
    assert_eq!(s.get_materials(), &vec![0.5]);
    s.get_root_mut().set_material_id(1);
    assert_eq!(s.get_root().get_material_id(), 1);
    s.set_root(Node::new(Some("torus".to_string()), 4));
    assert_eq!(s.get_root().get_mesh_id(), &Some("torus".to_string()));
    assert_eq!(s.get_point_lights().len(), 2);
}
