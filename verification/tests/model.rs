use create_vox::riff;
use create_vox::Model;
use create_vox::VoxFile;

fn sample() -> Vec<u8> {
    let mut vox = VoxFile::new(10, 10, 10).unwrap();
    vox.models.push(Model::new(1, 3, 4).unwrap());
    vox.models[1].id = 1;
    vox.models[0].add_voxel_at_pos(1, 1, 1, 1).unwrap();
    vox.save().unwrap()
}

#[test]
fn writing_model() {
    let bytes = sample();
    assert_eq!(riff::num_of_chunks(&bytes, String::from("SIZE")), 2);
    assert_eq!(riff::num_of_chunks(&bytes, String::from("XYZI")), 2);
}

#[test]
fn read_model() {
    let contents = sample();
    let mut cursor = riff::find_chunk(&contents, String::from("SIZE"), 1).unwrap() as i32;
    let model = Model::read(&contents, &mut cursor, 0).unwrap();
    assert_eq!(model.size, (10, 10, 10));
    assert_eq!(model.num_of_voxels(), 1);
    assert!(model.is_voxel_at_pos(1, 1, 1));
}
