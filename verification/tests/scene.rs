use create_vox::copy::ModelCopy;
use create_vox::loader::load_voxobject;
use create_vox::node::Node;
use create_vox::node::NodeAttributes;
use create_vox::node::NodeType;
use create_vox::node::Transform;
use create_vox::riff;
use create_vox::Color;
use create_vox::DecodeError;
use create_vox::Model;
use create_vox::VoxFile;
use create_vox::Voxel;

fn scene() -> VoxFile {
    let mut vox = VoxFile::new(4, 5, 6).unwrap();
    vox.models[0].add_voxel_at_pos(1, 2, 3, 9).unwrap();
    vox.models[0].add_voxel_at_pos(3, 4, 5, 255).unwrap();
    vox.models[0].position = Some((5, -6, 7));
    vox.models[0].rotation = Some(200);
    vox.models[0].layer = Some(0);
    vox.models[0].name = Some(String::from("première"));
    vox.models.push(Model::new(256, 1, 2).unwrap());
    vox.models[1].id = 1;
    vox.add_model_copy(1, 1, 2, 3);
    vox.add_copy(0, None, Some(2), Some(7), Some(String::from("twin")));
    assert_eq!(vox.add_layer(String::from("base"), true), 1);
    assert_eq!(vox.add_layer(String::from(""), false), 2);
    vox.set_palette_color(9, 1, 2, 3, 4).unwrap();
    vox
}

#[test]
fn load_gives_back_what_was_saved() {
    let mut vox = scene();
    let bytes = vox.save().unwrap();
    let back = VoxFile::load(&bytes).unwrap();
    assert_eq!(back.models, vox.models);
    assert_eq!(back.copies, vox.copies);
    assert_eq!(back.layers, vox.layers);
    assert!(back.palette == vox.palette);
    assert_eq!(back.models[0].layer, Some(0));
    assert_eq!(back.models[1].layer, None);
    assert_eq!(back.models[1].size, (256, 1, 2));
    assert_eq!(back.copies.len(), 2);
    assert_eq!(back.copies[1].name, Some(String::from("twin")));
}

#[test]
fn header_declares_what_follows() {
    let mut vox = scene();
    let bytes = vox.save().unwrap();
    assert_eq!(&bytes[0..12], &[86, 79, 88, 32, 0, 0, 0, 0, 77, 65, 73, 78]);
    assert_eq!(&bytes[12..16], &[0, 0, 0, 0]);
    let declared = u32::from_le_bytes([bytes[16], bytes[17], bytes[18], bytes[19]]);
    assert_eq!(declared as usize, bytes.len() - 20);
    assert_eq!(vox.get_size() as usize, bytes.len() - 20);
    assert_eq!(vox.measure(), Some(bytes.len() as i32 - 20));
    let palette = riff::find_chunk(&bytes, String::from("RGBA"), 1).unwrap();
    assert_eq!(palette, bytes.len() - 1036);
    assert_eq!(&bytes[palette + 12 + 8 * 4..palette + 12 + 9 * 4], &[1, 2, 3, 4]);
    assert_eq!(&bytes[20..32], &[83, 73, 90, 69, 12, 0, 0, 0, 0, 0, 0, 0]);
    assert_eq!(&bytes[32..44], &[4, 0, 0, 0, 5, 0, 0, 0, 6, 0, 0, 0]);
    assert_eq!(&bytes[44..60], &[88, 89, 90, 73, 12, 0, 0, 0, 0, 0, 0, 0, 2, 0, 0, 0]);
    assert_eq!(&bytes[60..68], &[1, 2, 3, 9, 3, 4, 5, 255]);
}

#[test]
fn write_appends_to_the_buffer() {
    let mut vox = scene();
    let alone = vox.save().unwrap();
    let mut out = vec![1, 2, 3];
    assert_eq!(vox.write(&mut out), Ok(()));
    assert_eq!(&out[0..3], &[1, 2, 3]);
    assert_eq!(&out[3..], &alone[..]);
}

#[test]
fn written_tree_is_numbered() {
    let mut vox = scene();
    vox.save().unwrap();
    let root = &vox.root_node;
    assert_eq!(root.id, 0);
    assert_eq!(root.children_ids, vec![1]);
    assert_eq!(root.children[0].children_ids, vec![2, 4, 6, 8]);
    assert_eq!(root.children[0].children[3].children[0].node_type, NodeType::Shape(0));
    assert_eq!(
        root.children[0].children[0].node_type,
        NodeType::Transform(Transform { layer: 0, rotation: Some(200), translation: Some((5, -6, 7)) })
    );
    assert_eq!(root.children[0].children[1].node_type, NodeType::Transform(Transform::default()));
}

#[test]
fn first_placement_binds_the_model() {
    let mut vox = VoxFile::new(1, 1, 1).unwrap();
    let mut root = Node::new(NodeType::Group, NodeAttributes::new());
    for (i, name) in ["one", "two", "three"].iter().enumerate() {
        let mut t = Node::new(
            NodeType::Transform(Transform { layer: -1, rotation: Some(256 + i as i32), translation: Some((i as i32, 0, 0)) }),
            NodeAttributes { name: Some(name.to_string()), hidden: None },
        );
        t.add_child(Node::new(NodeType::Shape(0), NodeAttributes::new()));
        root.add_child(t);
    }
    let mut stray = Node::new(NodeType::Transform(Transform::default()), NodeAttributes::new());
    stray.add_child(Node::new(NodeType::Group, NodeAttributes::new()));
    root.add_child(stray);
    vox.root_node = root;
    vox.get_node_data();
    assert_eq!(vox.models[0].name, Some(String::from("one")));
    assert_eq!(vox.models[0].position, Some((0, 0, 0)));
    assert_eq!(vox.models[0].rotation, Some(0));
    assert_eq!(vox.models[0].layer, None);
    assert_eq!(
        vox.copies,
        vec![
            ModelCopy { model_id: 0, position: Some((1, 0, 0)), rotation: Some(1), layer: None, name: Some(String::from("two")) },
            ModelCopy { model_id: 0, position: Some((2, 0, 0)), rotation: Some(2), layer: None, name: Some(String::from("three")) },
        ]
    );
    assert_eq!(VoxFile::check_transform(&vox.root_node), None);
    assert_eq!(
        VoxFile::check_transform(&vox.root_node.children[1]),
        Some((0, Some((1, 0, 0)), None, Some(1), Some(String::from("two"))))
    );
    assert_eq!(VoxFile::check_transform(&vox.root_node.children[3]), None);
}

#[test]
fn rebuild_then_flatten_keeps_the_scene() {
    let mut vox = scene();
    let models = vox.models.clone();
    let copies = vox.copies.clone();
    vox.make_nodes();
    assert_eq!(vox.root_node.children[0].children.len(), 4);
    vox.copies.clear();
    vox.get_node_data();
    assert_eq!(vox.models, models);
    assert_eq!(vox.copies, copies);
}

#[test]
fn load_errors() {
    let mut vox = scene();
    let bytes = vox.save().unwrap();
    assert_eq!(VoxFile::load(&Vec::new()).err(), Some(DecodeError::ChunkNotFound));
    assert_eq!(VoxFile::load(&bytes[0..bytes.len() - 1].to_vec()).err(), Some(DecodeError::Truncated));
    assert_eq!(VoxFile::load(&bytes[0..bytes.len() - 1036].to_vec()).err(), Some(DecodeError::ChunkNotFound));
    assert_eq!(VoxFile::load(&bytes[0..50].to_vec()).err(), Some(DecodeError::Truncated));
    let mut zero = bytes.clone();
    zero[63] = 0;
    assert_eq!(VoxFile::load(&zero).err(), Some(DecodeError::InvalidColorIndex));
    let rotation = bytes.windows(2).position(|w| w == b"_r").unwrap();
    let mut odd = bytes.clone();
    odd[rotation + 6] = b'x';
    assert_eq!(VoxFile::load(&odd).err(), Some(DecodeError::InvalidNumber));
    let name = bytes.windows(5).position(|w| w == b"premi").unwrap();
    let mut text = bytes.clone();
    text[name + 4] = 0xff;
    assert_eq!(VoxFile::load(&text).err(), Some(DecodeError::InvalidText));
    let mut no_tree = bytes.clone();
    for i in 0..no_tree.len() - 4 {
        if &no_tree[i..i + 4] == b"nTRN" {
            no_tree[i] = b'x';
        }
    }
    assert_eq!(VoxFile::load(&no_tree).err(), Some(DecodeError::ChunkNotFound));
}

#[test]
fn single_model_loader() {
    let mut vox = VoxFile::new(3, 3, 3).unwrap();
    vox.models[0].add_voxel_at_pos(2, 2, 2, 5).unwrap();
    vox.set_palette_color(5, 10, 20, 30, 40).unwrap();
    let bytes = vox.save().unwrap();
    let object = load_voxobject(&bytes).unwrap();
    assert_eq!(object.size, (3, 3, 3));
    assert_eq!(object.models[0].voxels, vec![Voxel::new(2, 2, 2, 5).unwrap()]);
    assert!(object.palette[4] == Color::new(10, 20, 30, 40));
    let mut outside = bytes.clone();
    outside[60] = 3;
    assert_eq!(load_voxobject(&outside).err(), Some(DecodeError::VoxelOutOfBounds));
    assert_eq!(load_voxobject(&bytes[0..70].to_vec()).err(), Some(DecodeError::ChunkNotFound));
    assert_eq!(load_voxobject(&bytes[0..30].to_vec()).err(), Some(DecodeError::Truncated));
    assert_eq!(
        create_vox::loader::array_to_voxel([1, 2, 3, 4]),
        Ok(Voxel { position: (1, 2, 3), colorindex: 4 })
    );
}

#[test]
fn tree_from_chunks_skips_unknown_tags() {
    let mut buf: Vec<u8> = vec![0; 8];
    riff::write_chunk("MAIN", 0, 0, &mut buf);
    let mut root = Node::new(NodeType::Transform(Transform::default()), NodeAttributes::new());
    let mut group = Node::new(NodeType::Group, NodeAttributes::new());
    group.add_child(Node::new(NodeType::Shape(3), NodeAttributes::new()));
    group.add_child(Node::new(NodeType::Shape(4), NodeAttributes::new()));
    root.add_child(group);
    root.number_nodes(0);
    root.number_children_ids();
    root.write(&mut buf);
    root.children[0].write(&mut buf);
    root.children[0].children[0].write(&mut buf);
    riff::write_chunk("LAYR", 0, 0, &mut buf);
    let tree = riff::nodes_from_chunks(&buf).unwrap();
    assert_eq!(tree.children[0].children.len(), 1);
    assert_eq!(tree.children[0].children[0].node_type, NodeType::Shape(3));
    let mut cut = buf.clone();
    cut.truncate(buf.len() - 12);
    assert_eq!(riff::nodes_from_chunks(&cut).err(), Some(DecodeError::Truncated));
}
