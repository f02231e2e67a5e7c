use create_vox::riff;
use create_vox::VoxFile;

#[test]
fn bench() {
    let mut vox = VoxFile::new(3, 3, 3).unwrap();
    vox.models[0].position = Some((1, 2, 3));
    vox.models[0].rotation = Some(20);
    let contents = vox.save().unwrap();

    let mut chunk_pos = riff::find_chunk(&contents, String::from("nTRN"), 2).unwrap() as i32;
    let chunk = riff::nTRN::read(&contents, &mut chunk_pos).unwrap();
    let node = chunk.to_node().unwrap();
    println!("bench: {:?}", node);
    assert_eq!(
        node.node_type,
        create_vox::node::NodeType::Transform(create_vox::node::Transform {
            layer: -1,
            rotation: Some(20),
            translation: Some((1, 2, 3)),
        })
    );
}
