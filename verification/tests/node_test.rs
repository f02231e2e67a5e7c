use create_vox::node::Node;
use create_vox::node::NodeAttributes;
use create_vox::node::NodeType;
use create_vox::node::Transform;
use create_vox::riff;

#[test]
fn node_add() {
    let mut node = Node {
        node_type: NodeType::Transform(Transform {
            layer: 0,
            rotation: Some(0),
            translation: Some((0, 0, 0)),
        }),
        id: 0,
        children_ids: vec![],
        attributes: NodeAttributes { name: None, hidden: None },
        children: Vec::new(),
    };

    node.add_child(Node::new(NodeType::Group, NodeAttributes::new()));
    assert_eq!(node.children.len(), 1)
}

fn sample_tree() -> Node {
    let mut root = Node::new(
        NodeType::Transform(Transform { layer: -1, rotation: None, translation: None }),
        NodeAttributes::new(),
    );
    let mut group = Node::new(NodeType::Group, NodeAttributes::new());
    for i in 0..3 {
        let mut placement = Node::new(
            NodeType::Transform(Transform {
                layer: i,
                rotation: Some(4 + i),
                translation: Some((i, -i, 10 * i)),
            }),
            NodeAttributes { name: Some(format!("part {}", i)), hidden: Some(i == 1) },
        );
        placement.add_child(Node::new(NodeType::Shape(i), NodeAttributes::new()));
        group.add_child(placement);
    }
    root.add_child(group);
    root
}

#[test]
fn make_tree() {
    let mut node = sample_tree();
    println!("type: {:?}", node.node_type);
    println!("number of children is: {}", node.num_children());
    assert_eq!(node.num_children(), 7);

    let mut contents: Vec<u8> = vec![0, 0, 0, 0, 0, 0, 0, 0];
    node.write_all(&mut contents);

    println!(
        "number of nodes: {}",
        riff::num_of_chunks(&contents, String::from("nTRN"))
            + riff::num_of_chunks(&contents, String::from("nGRP"))
            + riff::num_of_chunks(&contents, String::from("nSHP"))
    );

    let mut new_node = riff::nodes_from_chunks(&contents).unwrap();
    new_node.number_nodes(0);
    new_node.number_children_ids();

    assert_eq!(node, new_node);
    println!("size is: {}", node.get_all_size());
    assert_eq!(contents.len() as i32, 8 + node.get_all_size() + 12 * 8);
}
