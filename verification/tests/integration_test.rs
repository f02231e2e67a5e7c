use create_vox::VoxFile;

#[test]
fn it_works() {
    let mut vox = VoxFile::new(10, 10, 10).unwrap();
    vox.models[0].add_cube(0, 0, 0, 5, 5, 5, 2).unwrap();
    vox.set_palette_color(2, 255, 100, 0, 255).unwrap();
    vox.add_model_copy(0, 10, 10, 10);
    vox.add_layer(String::from("cool layer"), false);
    vox.models[0].layer = Some(1);
    let bytes = vox.save().unwrap();
    assert_eq!(&bytes[0..4], "VOX ".as_bytes());
    assert_eq!(vox.models[0].num_of_voxels(), 125);
}

#[test]
#[should_panic]
fn size_too_big() {
    VoxFile::new(254, 300, 10).unwrap();
}

#[test]
fn voxel_at_pos() {
    let mut test_vox = VoxFile::new(10, 10, 10).unwrap();
    test_vox.models[0].add_voxel_at_pos(3, 4, 2, 1).unwrap();
    assert_eq!(true, test_vox.models[0].is_voxel_at_pos(3, 4, 2));
}

#[test]
fn adding_cube() {
    let mut test_vox = VoxFile::new(50, 1, 15).unwrap();
    test_vox.models[0].add_cube(0, 0, 0, 40, 1, 15, 1).expect("Failed to add cube");
}
