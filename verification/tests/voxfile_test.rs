use create_vox::Model;
use create_vox::VoxFile;

#[test]
fn write() {
    let mut first = VoxFile::new(8, 8, 8).unwrap();
    first.models[0].add_cube(1, 1, 1, 3, 3, 3, 5).unwrap();
    first.models.push(Model::new(2, 2, 2).unwrap());
    first.models[1].id = 1;
    first.add_layer(String::from("ground"), false);
    let bytes = first.save().unwrap();

    let mut vox = VoxFile::load(&bytes).unwrap();
    let again = vox.save().unwrap();
    assert_eq!(bytes, again);

    let mut vox2 = VoxFile::load(&again).unwrap();
    assert_eq!(vox2.save().unwrap(), again);
}
