use create_vox::riff;
use create_vox::riff::Dict;
use create_vox::riff::VoxString;
use create_vox::riff::MATL;
use create_vox::Model;
use create_vox::VoxFile;

#[test]
fn riff_string() {
    let content = &[2, 0, 0, 0, 104, 105];
    let my_string = VoxString::read(&content.to_vec(), &mut 0).unwrap().content;

    assert_eq!(String::from("hi"), my_string);
}

#[test]
#[should_panic]
fn riff_string_fail() {
    let content = &[2, 0, 0, 0, 104, 105];
    let my_string = VoxString::read(&content.to_vec(), &mut 0).unwrap().content;

    assert_eq!(String::from("HI"), my_string);
}

fn scene() -> Vec<u8> {
    let mut vox = VoxFile::new(4, 4, 4).unwrap();
    vox.models[0].add_voxel_at_pos(1, 2, 3, 9).unwrap();
    vox.models[0].position = Some((5, -6, 7));
    vox.models[0].name = Some(String::from("first"));
    vox.models.push(Model::new(2, 2, 2).unwrap());
    vox.models[1].id = 1;
    vox.add_model_copy(1, 1, 2, 3);
    vox.add_layer(String::from("base"), true);
    vox.save().unwrap()
}

#[test]
fn chunk_read() {
    let contents = scene();
    let mut pos = riff::find_chunk(&contents, String::from("nTRN"), 2).unwrap() as i32;
    let chunk = riff::nTRN::read(&contents, &mut pos).unwrap();

    println!("{:?}", chunk);
    assert_eq!(chunk.node_id, 2);
    assert_eq!(chunk.child_node_id, 3);
    assert_eq!(chunk.reserved_id, -1);
    assert_eq!(chunk.layer_id, -1);
    assert_eq!(chunk.num_of_frames, 1);
    assert_eq!(chunk.node_attributes.pairs.len(), 1);
    assert_eq!(chunk.node_attributes.pairs[0].1.content, "first");
    assert_eq!(chunk.frame_attributes.pairs[0].0.content, "_t");
    assert_eq!(chunk.frame_attributes.pairs[0].1.content, "5 -6 7");
    assert_eq!(chunk.get_size(), 20 + (4 + 9 + 9) + (4 + 6 + 10));
}

#[test]
fn ngrp_read() {
    let contents = scene();
    let mut cursor = riff::find_chunk(&contents, String::from("nGRP"), 1).unwrap() as i32;
    let chunk = riff::nGRP::read(&contents, &mut cursor).unwrap();

    println!("{:?}", chunk);
    assert_eq!(chunk.node_id, 1);
    assert_eq!(chunk.num_of_children_nodes, 3);
    assert_eq!(chunk.child_id, vec![2, 4, 6]);
}

#[test]
fn nshp_read() {
    let contents = scene();
    let mut cursor = riff::find_chunk(&contents, String::from("nSHP"), 2).unwrap() as i32;
    let chunk = riff::nSHP::read(&contents, &mut cursor).unwrap();

    println!("{:?}", chunk);
    assert_eq!(chunk.node_id, 5);
    assert_eq!(chunk.model_id, 1);
    assert_eq!(chunk.num_of_models, 1);
    assert_eq!(chunk.get_size(), 20);
}

#[test]
fn matl_read() {
    let mut contents: Vec<u8> = vec![0; 20];
    let material = MATL {
        material_id: 7,
        properties: Dict {
            num_of_pairs: 1,
            pairs: vec![(
                VoxString::new(5, String::from("_type")),
                VoxString::new(8, String::from("_diffuse")),
            )],
        },
    };
    material.write(&mut contents);
    assert_eq!(contents.len() as i32, 20 + 12 + material.get_size());

    let mut cursor = riff::find_chunk(&contents, String::from("MATL"), 1).unwrap() as i32;
    let chunk = MATL::read(&contents, &mut cursor).unwrap();
    println!("{:?}", chunk);
    assert_eq!(chunk, material);
    assert_eq!(cursor as usize, contents.len());
}

#[test]
fn num_chunk() {
    let contents = scene();
    assert_eq!(riff::num_of_chunks(&contents, String::from("nTRN")), 4);
    assert_eq!(riff::num_of_chunks(&contents, String::from("nGRP")), 1);
    assert_eq!(riff::num_of_chunks(&contents, String::from("nSHP")), 3);
    assert_eq!(riff::num_of_chunks(&contents, String::from("LAYR")), 1);
    assert_eq!(riff::num_of_chunks(&contents, String::from("RGBA")), 1);
    assert_eq!(riff::num_of_chunks(&contents, String::from("MAIN")), 1);
}

#[test]
fn chunk_to_node() {
    let contents = scene();
    let root = riff::nodes_from_chunks(&contents).unwrap();
    assert_eq!(root.children.len(), 1);
    assert_eq!(root.children[0].children.len(), 3);
    assert_eq!(root.num_children(), 7);
}
