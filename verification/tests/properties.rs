use create_vox::convert;
use create_vox::decimal;
use create_vox::layer::Layer;
use create_vox::node::Node;
use create_vox::node::NodeAttributes;
use create_vox::node::NodeType;
use create_vox::node::Transform;
use create_vox::riff;
use create_vox::riff::Dict;
use create_vox::riff::VoxString;
use create_vox::riff::LAYR;
use create_vox::Color;
use create_vox::DecodeError;
use create_vox::DomainError;
use create_vox::Model;
use create_vox::VoxFile;
use create_vox::Voxel;
use create_vox::Voxobject;

#[test]
fn palette_index_zero_is_refused() {
    let mut vox = VoxFile::new(1, 1, 1).unwrap();
    assert_eq!(vox.set_palette_color(0, 1, 2, 3, 4), Err(DomainError::ZeroColorIndex));
    assert_eq!(vox.get_palette_color(0), Err(DomainError::ZeroColorIndex));
}

#[test]
fn palette_last_index_is_kept() {
    let mut vox = VoxFile::new(1, 1, 1).unwrap();
    assert_eq!(vox.set_palette_color(255, 9, 8, 7, 6), Ok(()));
    assert_eq!(vox.get_palette_color(255), Ok(Color::new(9, 8, 7, 6)));
    assert!(vox.palette[254] == Color::new(9, 8, 7, 6));
    assert_eq!(vox.set_palette_color(1, 1, 2, 3, 4), Ok(()));
    assert!(vox.palette[0] == Color::new(1, 2, 3, 4));
    assert!(vox.palette[255] == Color::new(75, 75, 75, 255));
}

#[test]
fn palette_set_all_and_reset() {
    let mut vox = VoxFile::new(1, 1, 1).unwrap();
    vox.set_all_palette_color(1, 2, 3, 4);
    assert!(vox.palette[0] == Color::new(1, 2, 3, 4));
    assert!(vox.palette[254] == Color::new(1, 2, 3, 4));
    assert!(vox.palette[255] == Color::new(75, 75, 75, 255));
    vox.reset_palette();
    assert!(vox.palette[17] == Color::new(75, 75, 75, 255));
}

#[test]
fn voxobject_palette() {
    let mut vox = Voxobject::new(10, 10, 10).unwrap();
    assert_eq!(vox.set_palette_color(0, 1, 1, 1, 1), Err(DomainError::ZeroColorIndex));
    vox.set_palette_color(12, 30, 0, 40, 255).unwrap();
    assert!(Color::new(30, 0, 40, 255) == vox.get_palette_color(12).unwrap());
    vox.set_all_palette_color(0, 255, 0, 255);
    assert!(vox.palette[254] == Color::new(0, 255, 0, 255));
    vox.reset_palette();
    assert!(vox.palette[3] == Color::new(75, 75, 75, 255));
    assert!(Voxobject::new(257, 1, 1).is_err());
}

fn three_layers() -> (Vec<u8>, Vec<usize>) {
    let mut buf: Vec<u8> = vec![0; 8];
    riff::write_chunk("MAIN", 0, 0, &mut buf);
    let mut offsets = Vec::new();
    for (i, name) in ["a", "bcd", "ef"].iter().enumerate() {
        offsets.push(buf.len());
        Layer::new(name.to_string(), i == 1, i as i32).write(&mut buf);
        if i == 0 {
            riff::write_chunk("XXXX", 3, 0, &mut buf);
            buf.extend_from_slice(&[1, 2, 3]);
        }
    }
    (buf, offsets)
}

#[test]
fn find_chunk_counts_occurrences() {
    let (buf, offsets) = three_layers();
    assert_eq!(offsets[0], 20);
    assert_eq!(riff::find_chunk(&buf, String::from("LAYR"), 1), Ok(offsets[0]));
    assert_eq!(riff::find_chunk(&buf, String::from("LAYR"), 2), Ok(offsets[1]));
    assert_eq!(riff::find_chunk(&buf, String::from("LAYR"), 3), Ok(offsets[2]));
    assert_eq!(riff::find_chunk(&buf, String::from("LAYR"), 4), Err(DecodeError::ChunkNotFound));
    assert_eq!(riff::find_chunk(&buf, String::from("LAYR"), 0), Err(DecodeError::ChunkNotFound));
    assert_eq!(riff::find_chunk(&buf, String::from("LAYR"), -1), Err(DecodeError::ChunkNotFound));
    assert_eq!(riff::find_chunk(&buf, String::from("MAIN"), 1), Ok(8));
    assert_eq!(riff::find_chunk(&buf, String::from("XXXX"), 1), Ok(offsets[1] - 15));
    assert_eq!(riff::find_chunk(&buf, String::from("LAY"), 1), Err(DecodeError::ChunkNotFound));
    assert_eq!(riff::num_of_chunks(&buf, String::from("LAYR")), 3);
    assert_eq!(riff::num_of_chunks(&buf, String::from("RGBA")), 0);
    assert_eq!(riff::num_of_chunks(&Vec::new(), String::from("LAYR")), 0);
}

#[test]
fn voxel_bounds() {
    let mut model = Model::new(3, 3, 3).unwrap();
    assert_eq!(model.add_voxel_at_pos(2, 1, 5, 1), Err(DomainError::OutOfBounds));
    assert_eq!(model.num_of_voxels(), 0);
    assert_eq!(model.add_voxel_at_pos(2, 1, 2, 1), Ok(()));
    assert!(model.is_voxel_at_pos(2, 1, 2));
    assert!(!model.is_voxel_at_pos(2, 1, 1));
    assert_eq!(model.add_voxel_at_pos(2, 1, 2, 0), Err(DomainError::ZeroColorIndex));
    assert_eq!(model.add_voxel(Voxel { position: (3, 0, 0), colorindex: 1 }), Err(DomainError::OutOfBounds));
    assert_eq!(model.add_voxel(Voxel { position: (0, 0, 0), colorindex: 0 }), Err(DomainError::ZeroColorIndex));
    assert_eq!(model.add_voxel(Voxel::new(0, 0, 0, 255).unwrap()), Ok(()));
    assert_eq!(model.voxels, vec![Voxel::new(2, 1, 2, 1).unwrap(), Voxel::new(0, 0, 0, 255).unwrap()]);
}

#[test]
fn voxel_construction() {
    assert_eq!(Voxel::new(1, 2, 3, 0), Err(DomainError::ZeroColorIndex));
    assert_eq!(Voxel::new(1, 2, 3, 4), Ok(Voxel { position: (1, 2, 3), colorindex: 4 }));
    assert_eq!(Voxel::from_bytes([1, 2, 3, 0]), Err(DecodeError::InvalidColorIndex));
    assert_eq!(Voxel::from_bytes([1, 2, 3, 4]), Ok(Voxel { position: (1, 2, 3), colorindex: 4 }));
    let a = Voxel::new(1, 1, 1, 1).unwrap();
    let b = Voxel::new(2, 2, 2, 2).unwrap();
    assert_eq!(a + b, vec![a, b]);
    assert!(a != b);
}

#[test]
fn color_mean() {
    let c = Color::new(255, 255, 0, 1) + Color::new(255, 0, 0, 2);
    assert!(c == Color::new(255, 127, 0, 1));
}

#[test]
fn model_sizes() {
    assert!(matches!(Model::new(257, 1, 1), Err(DomainError::SizeTooLarge)));
    assert!(matches!(Model::new(1, 257, 1), Err(DomainError::SizeTooLarge)));
    assert!(matches!(Model::new(1, 1, 300), Err(DomainError::SizeTooLarge)));
    let mut model = Model::new(256, 256, 256).unwrap();
    assert_eq!(model.size, (256, 256, 256));
    assert_eq!(model.set_size(1, 2, 257), Err(DomainError::SizeTooLarge));
    assert_eq!(model.size, (256, 256, 256));
    assert_eq!(model.set_size(1, 2, 3), Ok(()));
    assert_eq!(model.size, (1, 2, 3));
    assert_eq!(model.get_size(), 4);
}

#[test]
fn cube_order_and_errors() {
    let mut model = Model::new(4, 4, 4).unwrap();
    assert_eq!(model.add_cube(0, 0, 0, 5, 1, 1, 1), Err(DomainError::OutOfBounds));
    assert_eq!(model.add_cube(0, 0, 0, 1, 5, 1, 1), Err(DomainError::OutOfBounds));
    assert_eq!(model.add_cube(0, 0, 0, 1, 1, 5, 1), Err(DomainError::OutOfBounds));
    assert_eq!(model.add_cube(0, 0, 0, 1, 1, 1, 0), Err(DomainError::ZeroColorIndex));
    assert_eq!(model.add_cube(2, 0, 0, 1, 1, 1, 0), Ok(()));
    assert_eq!(model.num_of_voxels(), 0);
    assert_eq!(model.add_cube(1, 2, 3, 3, 4, 4, 6), Ok(()));
    let expected: Vec<Voxel> = [(1, 2, 3), (1, 3, 3), (2, 2, 3), (2, 3, 3)]
        .iter()
        .map(|p| Voxel { position: *p, colorindex: 6 })
        .collect();
    assert_eq!(model.voxels, expected);
    assert_eq!(model.get_size(), 20);
}

#[test]
fn auto_size_moves_to_origin() {
    let mut model = Model::new(20, 20, 20).unwrap();
    model.auto_size();
    assert_eq!(model.size, (1, 1, 1));
    model.set_size(20, 20, 20).unwrap();
    model.add_voxel_at_pos(5, 6, 7, 1).unwrap();
    model.add_voxel_at_pos(9, 6, 19, 2).unwrap();
    model.auto_size();
    assert_eq!(model.size, (5, 1, 13));
    assert_eq!(model.voxels, vec![Voxel::new(0, 0, 0, 1).unwrap(), Voxel::new(4, 0, 12, 2).unwrap()]);
    let mut wide = Model::new(256, 1, 1).unwrap();
    wide.add_voxel_at_pos(0, 0, 0, 1).unwrap();
    wide.add_voxel_at_pos(255, 0, 0, 1).unwrap();
    wide.auto_size();
    assert_eq!(wide.size, (256, 1, 1));
}

#[test]
fn retain_change_clear_check() {
    let mut model = Model::new(10, 10, 10).unwrap();
    model.add_voxel_at_pos(1, 1, 1, 6).unwrap();
    model.add_voxel_at_pos(1, 1, 2, 5).unwrap();
    model.add_voxel_at_pos(1, 1, 3, 6).unwrap();
    model.add_voxel_at_pos(1, 1, 4, 7).unwrap();
    model.retain_voxels(|voxel| voxel.colorindex == 6);
    assert_eq!(2, model.num_of_voxels());
    assert!(model.is_voxel_at_pos(1, 1, 3));
    model.change_voxels(|voxel| Voxel { position: voxel.position, colorindex: 3 });
    assert_eq!(model.voxels, vec![Voxel::new(1, 1, 1, 3).unwrap(), Voxel::new(1, 1, 3, 3).unwrap()]);
    model.set_size(2, 2, 2).unwrap();
    model.check_voxels_pos();
    assert_eq!(model.voxels, vec![Voxel::new(1, 1, 1, 3).unwrap()]);
    model.clear_voxels();
    assert_eq!(model.num_of_voxels(), 0);
}

#[test]
fn dictionary_round_trip() {
    let dict = Dict {
        num_of_pairs: 1,
        pairs: vec![(VoxString::new(7, String::from("_hidden")), VoxString::new(1, String::from("1")))],
    };
    assert_eq!(dict.get_size(), 4 + (4 + 7) + (4 + 1));
    let mut bytes = Vec::new();
    dict.write(&mut bytes);
    assert_eq!(bytes.len(), 20);
    assert_eq!(&bytes[0..8], &[1, 0, 0, 0, 7, 0, 0, 0]);
    let mut cursor = 0;
    let back = Dict::read(&bytes, &mut cursor).unwrap();
    assert_eq!(cursor, 20);
    assert_eq!(back.pairs.len(), 1);
    assert_eq!(back.pairs[0].0.content, "_hidden");
    assert_eq!(back.pairs[0].1.content, "1");
    assert_eq!(back, dict);
    assert_eq!(back.get("_hidden").unwrap().content, "1");
    assert!(back.get("_name").is_none());
}

#[test]
fn string_errors() {
    let mut cursor = 0;
    assert_eq!(VoxString::read(&vec![2, 0, 0], &mut cursor), Err(DecodeError::Truncated));
    assert_eq!(VoxString::read(&vec![3, 0, 0, 0, 104, 105], &mut cursor), Err(DecodeError::Truncated));
    assert_eq!(VoxString::read(&vec![255, 255, 255, 255, 104], &mut cursor), Err(DecodeError::Truncated));
    assert_eq!(VoxString::read(&vec![2, 0, 0, 0, 0xc3, 0x28], &mut cursor), Err(DecodeError::InvalidText));
    assert_eq!(cursor, 0);
    let mut negative = -1;
    assert_eq!(VoxString::read(&vec![0, 0, 0, 0, 0], &mut negative), Err(DecodeError::Truncated));
    let mut at = 1;
    let s = VoxString::read(&vec![9, 2, 0, 0, 0, 0xc3, 0xa9, 7], &mut at).unwrap();
    assert_eq!(s.content, "é");
    assert_eq!(s.size, 2);
    assert_eq!(at, 7);
    assert_eq!(s.get_size(), 6);
    assert_eq!(VoxString::from_text(String::from("abc")).unwrap().size, 3);
}

#[test]
fn dictionary_errors() {
    let mut cursor = 0;
    assert_eq!(Dict::read(&vec![1, 0, 0], &mut cursor), Err(DecodeError::Truncated));
    assert_eq!(Dict::read(&vec![255, 255, 255, 255], &mut cursor), Err(DecodeError::Truncated));
    assert_eq!(Dict::read(&vec![1, 0, 0, 0, 1, 0, 0, 0, 97], &mut cursor), Err(DecodeError::Truncated));
    assert_eq!(
        Dict::read(&vec![1, 0, 0, 0, 1, 0, 0, 0, 97, 1, 0, 0, 0, 0xff], &mut cursor),
        Err(DecodeError::InvalidText)
    );
    assert_eq!(cursor, 0);
    assert_eq!(Dict::read(&vec![0, 0, 0, 0], &mut cursor).unwrap().pairs.len(), 0);
    assert_eq!(cursor, 4);
}

#[test]
fn integers_little_endian() {
    assert_eq!(convert::u32_to_array(0x0403_0201), [1, 2, 3, 4]);
    assert_eq!(convert::u16_to_array(0x0201), [1, 2]);
    assert_eq!(convert::i32_to_array(-2), [254, 255, 255, 255]);
    let bytes = vec![0, 254, 255, 255, 255, 1];
    let mut cursor = 1;
    assert_eq!(riff::i32_from_vec(&bytes, &mut cursor), Ok(-2));
    assert_eq!(cursor, 1);
    cursor = 3;
    assert_eq!(riff::i32_from_vec(&bytes, &mut cursor), Err(DecodeError::Truncated));
    cursor = -1;
    assert_eq!(riff::i32_from_vec(&bytes, &mut cursor), Err(DecodeError::Truncated));
    let mut out = Vec::new();
    riff::write_chunk("nTRN", 258, 1, &mut out);
    assert_eq!(out, vec![110, 84, 82, 78, 2, 1, 0, 0, 1, 0, 0, 0]);
    let mut at = 0;
    assert_eq!(riff::chunk_name(&out, &mut at), Ok(String::from("nTRN")));
    at = 9;
    assert_eq!(riff::chunk_name(&out, &mut at), Err(DecodeError::Truncated));
    assert_eq!(riff::chunk_name(&vec![0xff, 0xff, 0xff, 0xff], &mut 0), Err(DecodeError::InvalidText));
}

#[test]
fn decimal_text() {
    assert_eq!(decimal::decimal_string(0), "0");
    assert_eq!(decimal::decimal_string(-17), "-17");
    assert_eq!(decimal::decimal_string(i32::MIN), "-2147483648");
    assert_eq!(decimal::decimal_string(i32::MAX), "2147483647");
    assert_eq!(decimal::triple_string(1, -2, 30), "1 -2 30");
    assert_eq!(decimal::parse_i32("2147483647".as_bytes()), Some(i32::MAX));
    assert_eq!(decimal::parse_i32("2147483648".as_bytes()), None);
    assert_eq!(decimal::parse_i32("-2147483648".as_bytes()), Some(i32::MIN));
    assert_eq!(decimal::parse_i32("-2147483649".as_bytes()), None);
    assert_eq!(decimal::parse_i32("+007".as_bytes()), Some(7));
    assert_eq!(decimal::parse_i32("-0".as_bytes()), Some(0));
    assert_eq!(decimal::parse_i32("".as_bytes()), None);
    assert_eq!(decimal::parse_i32("-".as_bytes()), None);
    assert_eq!(decimal::parse_i32("+".as_bytes()), None);
    assert_eq!(decimal::parse_i32("1a".as_bytes()), None);
    assert_eq!(decimal::parse_i32(" 1".as_bytes()), None);
    assert_eq!(decimal::parse_i32("99999999999999999999999".as_bytes()), None);
    assert_eq!(riff::parse_string(&String::from("1 -2 30")), Ok(vec![1, -2, 30]));
    assert_eq!(riff::parse_string(&String::from("5")), Ok(vec![5]));
    assert_eq!(riff::parse_string(&String::from("1 2 3 4")), Ok(vec![1, 2, 3, 4]));
    assert_eq!(riff::parse_string(&String::from("")), Err(DecodeError::InvalidNumber));
    assert_eq!(riff::parse_string(&String::from("1  2")), Err(DecodeError::InvalidNumber));
    assert_eq!(riff::parse_string(&String::from("1 2 ")), Err(DecodeError::InvalidNumber));
    assert_eq!(riff::parse_string(&String::from("1 x 3")), Err(DecodeError::InvalidNumber));
}

#[test]
fn attribute_dictionaries() {
    let attributes = NodeAttributes { name: Some(String::from("wall")), hidden: Some(true) };
    assert_eq!(attributes.num_of_pairs(), 2);
    let dict = attributes.to_dict();
    assert_eq!(dict.num_of_pairs, 2);
    assert_eq!(dict.pairs[0].0.content, "_name");
    assert_eq!(dict.pairs[0].1.content, "wall");
    assert_eq!(dict.pairs[1].0.content, "_hidden");
    assert_eq!(dict.pairs[1].1.content, "1");
    assert_eq!(dict.get_size(), 4 + 9 + 8 + 11 + 5);
    assert_eq!(NodeAttributes::new().num_of_pairs(), 0);
    assert_eq!(NodeAttributes::new().to_pairs().len(), 0);
    assert_eq!(create_vox::node::bool_to_string(false), "0");
    assert_eq!(create_vox::node::bool_to_string(true), "1");

    let transform = Transform { layer: 3, rotation: Some(-4), translation: Some((1, 2, -3)) };
    assert_eq!(transform.num_of_pairs(), 2);
    assert_eq!(transform.translation_to_string(), "1 2 -3");
    let frame = transform.to_dict();
    assert_eq!(frame.pairs[0].0.content, "_r");
    assert_eq!(frame.pairs[0].1.content, "-4");
    assert_eq!(frame.pairs[0].1.size, 2);
    assert_eq!(frame.pairs[1].0.content, "_t");
    assert_eq!(frame.pairs[1].1.content, "1 2 -3");
    assert_eq!(frame.get_size(), 4 + 6 + 6 + 6 + 10);
    let none = Transform::default();
    assert_eq!(none, Transform { layer: -1, rotation: None, translation: None });
    assert_eq!(none.get_pairs().len(), 0);
    assert_eq!(Transform { layer: 0, rotation: Some(1), translation: None }.num_of_pairs(), 1);
}

#[test]
fn node_numbering_and_sizes() {
    let mut root = Node::new(NodeType::Transform(Transform::default()), NodeAttributes::new());
    let mut group = Node::new(NodeType::Group, NodeAttributes::new());
    let mut first = Node::new(NodeType::Transform(Transform::default()), NodeAttributes::new());
    first.add_child(Node::new(NodeType::Shape(0), NodeAttributes::new()));
    let mut second = Node::new(NodeType::Transform(Transform::default()), NodeAttributes::new());
    second.add_child(Node::new(NodeType::Shape(1), NodeAttributes::new()));
    group.add_child(first);
    group.add_child(second);
    root.add_child(group);

    assert_eq!(root.number_nodes(0), 5);
    assert_eq!(root.children[0].id, 1);
    assert_eq!(root.children[0].children[0].id, 2);
    assert_eq!(root.children[0].children[0].children[0].id, 3);
    assert_eq!(root.children[0].children[1].id, 4);
    assert_eq!(root.children[0].children[1].children[0].id, 5);
    root.number_children_ids();
    root.number_children_ids();
    assert_eq!(root.children_ids, vec![1]);
    assert_eq!(root.children[0].children_ids, vec![2, 4]);
    assert_eq!(root.children[0].children[1].children_ids, vec![5]);
    assert_eq!(root.num_children(), 5);
    assert!(!root.has_child_shape());
    assert!(root.children[0].children[0].has_child_shape());

    assert_eq!(root.get_size(), 28);
    assert_eq!(root.children[0].get_size(), 8 + 4 + 8);
    assert_eq!(root.children[0].children[0].children[0].get_size(), 20);
    assert_eq!(root.get_all_size(), 28 + 20 + 2 * (28 + 20));
    let mut size = 5;
    root.get_children_size(&mut size);
    assert_eq!(size, 5 + 20 + 2 * (28 + 20));

    let mut own = Vec::new();
    root.write(&mut own);
    assert_eq!(own.len() as i32, root.get_size() + 12);
    let mut below = Vec::new();
    root.write_children(&mut below);
    assert_eq!(below.len() as i32, root.get_all_size() - root.get_size() + 12 * 5);
    assert_eq!(root.room_after(1000), Some(1000 - root.get_all_size() - 12 * 6));
    assert_eq!(root.room_after(100), None);
}

#[test]
fn layers_to_chunks_and_back() {
    let layer = Layer::new(String::from("top"), true, 4);
    let chunk = layer.to_chunk();
    assert_eq!(chunk.layer_id, 4);
    assert_eq!(chunk.reserved_id, -1);
    assert_eq!(layer.get_size(), 8 + 4 + 9 + 7 + 16);
    assert_eq!(Layer::from_chunk(chunk), Ok(Layer::new(String::from("top"), true, 4)));
    let plain = LAYR { layer_id: 1, layer_attributes: Dict { num_of_pairs: 0, pairs: vec![] }, reserved_id: -1 };
    assert_eq!(Layer::is_hidden(&plain), Ok(None));
    assert_eq!(Layer::has_name(&plain), None);
    let odd = LAYR {
        layer_id: 1,
        layer_attributes: Dict {
            num_of_pairs: 1,
            pairs: vec![(VoxString::new(7, String::from("_hidden")), VoxString::new(3, String::from("yes")))],
        },
        reserved_id: -1,
    };
    assert_eq!(Layer::is_hidden(&odd), Err(DecodeError::InvalidNumber));
    assert!(Layer::from_chunk(odd).is_err());
    let two = LAYR {
        layer_id: 1,
        layer_attributes: Dict {
            num_of_pairs: 1,
            pairs: vec![(VoxString::new(7, String::from("_hidden")), VoxString::new(1, String::from("2")))],
        },
        reserved_id: -1,
    };
    assert_eq!(Layer::is_hidden(&two), Ok(Some(false)));
}

#[test]
fn budgets() {
    let layer = Layer::new(String::from("top"), true, 4);
    assert_eq!(layer.room_after(100), Some(100 - 12 - layer.get_size()));
    assert_eq!(layer.room_after(12 + layer.get_size()), Some(0));
    assert_eq!(layer.room_after(12 + layer.get_size() - 1), None);
    assert_eq!(create_vox::node::spend(10, 10), Some(0));
    assert_eq!(create_vox::node::spend(10, 11), None);
    assert_eq!(create_vox::node::spend4(10, 2), Some(2));
    assert_eq!(create_vox::node::spend4(10, 3), None);
    let attributes = NodeAttributes { name: Some(String::from("é")), hidden: None };
    assert_eq!(attributes.room_after(50), Some(50 - 4 - 9 - 6));
    assert_eq!(attributes.room_after(18), None);
}

#[test]
fn clones_are_equal() {
    let mut node = Node::new(
        NodeType::Transform(Transform { layer: 2, rotation: None, translation: Some((1, 2, 3)) }),
        NodeAttributes { name: Some(String::from("n")), hidden: Some(false) },
    );
    node.add_child(Node::new(NodeType::Shape(7), NodeAttributes::new()));
    assert_eq!(node.clone(), node);
    let mut model = Model::new(2, 2, 2).unwrap();
    model.add_voxel_at_pos(1, 1, 1, 3).unwrap();
    model.name = Some(String::from("m"));
    assert_eq!(model.clone(), model);
    let layer = Layer::new(String::from("l"), false, 1);
    assert_eq!(layer.clone(), layer);
}
