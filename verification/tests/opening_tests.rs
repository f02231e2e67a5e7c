use create_vox::loader::load_voxobject;
use create_vox::Color;
use create_vox::VoxFile;

fn single_model() -> Vec<u8> {
    let mut vox = VoxFile::new(6, 5, 4).unwrap();
    vox.models[0].add_voxel_at_pos(1, 2, 3, 7).unwrap();
    vox.models[0].add_voxel_at_pos(5, 4, 3, 8).unwrap();
    vox.set_palette_color(7, 1, 2, 3, 4).unwrap();
    vox.save().unwrap()
}

#[test]
fn load() {
    let new_vox = load_voxobject(&single_model()).expect("failed to open in opening_test");
    assert_eq!(new_vox.size, (6, 5, 4));
    assert_eq!(new_vox.models.len(), 1);
    assert_eq!(new_vox.models[0].num_of_voxels(), 2);
    assert!(new_vox.get_palette_color(7).unwrap() == Color::new(1, 2, 3, 4));
}

#[test]
fn loading_from_file() {
    let bytes = single_model();
    let new_vox = load_voxobject(&bytes).unwrap();
    let again = VoxFile::load(&bytes).unwrap();
    assert_eq!(new_vox.models[0].voxels, again.models[0].voxels);
    assert!(new_vox.palette == again.palette);
}
