use ag_iso_terminal_designer::{
    EditorProject, NullableObjectId, Object, ObjectId, ObjectMetadata, ObjectPool, ObjectType, ProjectFile,
    ProjectSettings,
};
use std::collections::HashMap;

fn id(value: u16) -> ObjectId {
    ObjectId::new(value).unwrap()
}

fn object(value: u16, object_type: ObjectType) -> Object {
    Object::new(id(value), object_type)
}

fn keys() -> ObjectPool {
    let mut pool = ObjectPool::new();
    pool.add(object(5000, ObjectType::Key));
    pool.add(object(5001, ObjectType::Key));
    pool
}

fn file_with(data: Vec<u8>, names: &[(u16, Option<&str>)], settings: ProjectSettings) -> ProjectFile {
    let mut metadata = HashMap::new();
    for (number, name) in names {
        metadata.insert(*number, ObjectMetadata { name: name.map(|n| n.to_string()), notes: None });
    }
    ProjectFile::from_parts(1, data, metadata, settings)
}

#[test]
fn default_settings() {
    let settings = ProjectSettings::default();
    assert_eq!(settings.mask_size, 500);
    assert_eq!(settings.last_selected, None);
}

#[test]
fn loading_restores_names_and_names_the_rest() {
    let file = file_with(
        vec![1, 2, 3, 4, 5],
        &[(5000, Some("Start"))],
        ProjectSettings { mask_size: 240, last_selected: Some(5001) },
    );
    let mut project = EditorProject::load_project(&file, keys(), (60, 32)).unwrap();
    assert_eq!(project.object_name(id(5000)), Some("Start".to_string()));
    let generated = project.object_name(id(5001)).unwrap();
    assert_eq!(generated, "Key 1");
    assert!(generated != "Start");
    assert_eq!(project.mask_size(), 240);
    assert_eq!(project.soft_key_size(), (60, 32));
    assert_eq!(project.get_selected(), NullableObjectId(Some(id(5001))));
    assert_eq!(*project.get_mut_selected(), NullableObjectId(Some(id(5001))));
    assert!(!project.undo_available());
    assert!(!project.update_pool());
    assert_eq!(project.get_pool().len(), 2);
}

#[test]
fn loading_names_every_object_differently() {
    let mut pool = keys();
    pool.add(object(5002, ObjectType::Key));
    pool.add(object(1000, ObjectType::DataMask));
    // A restored name may look like a generated one; a record may hold no name.
    let file = file_with(
        vec![0; 8],
        &[(5001, Some("Key 1")), (5002, None), (4321, Some("Gone"))],
        ProjectSettings::default(),
    );
    let project = EditorProject::load_project(&file, pool, (60, 60)).unwrap();
    assert_eq!(project.object_name(id(5000)), Some("Key 2".to_string()));
    assert_eq!(project.object_name(id(5001)), Some("Key 1".to_string()));
    assert_eq!(project.object_name(id(5002)), Some("Key 3".to_string()));
    assert_eq!(project.object_name(id(1000)), Some("Data Mask 1".to_string()));
    // No record is made for an object that the pool does not hold.
    assert_eq!(project.object_name(id(4321)), None);
    assert_eq!(project.get_selected(), NullableObjectId(None));
    assert_eq!(project.mask_size(), 500);
}

#[test]
fn a_selection_that_is_gone_is_not_restored() {
    for last_selected in [Some(6000), Some(0xFFFF), None] {
        let file = file_with(vec![0; 8], &[], ProjectSettings { mask_size: 500, last_selected });
        let project = EditorProject::load_project(&file, keys(), (60, 60)).unwrap();
        assert_eq!(project.get_selected(), NullableObjectId(None));
    }
}

#[test]
fn pool_data_that_is_too_short_fails_the_load() {
    let file = file_with(vec![1, 2, 3], &[], ProjectSettings::default());
    assert!(!file.has_pool_data());
    assert_eq!(file.load_pool(keys()).unwrap_err(), "Object pool data is too small to be valid");
    assert_eq!(
        EditorProject::load_project(&file, keys(), (60, 60)).err(),
        Some("Object pool data is too small to be valid".to_string())
    );
    let empty = file_with(Vec::new(), &[], ProjectSettings::default());
    assert_eq!(
        empty.load_pool(ObjectPool::new()).unwrap_err(),
        "Object pool data is too small to be valid"
    );
}

#[test]
fn pool_data_that_gives_no_object_fails_the_load() {
    let file = file_with(vec![1, 2, 3, 4, 5], &[], ProjectSettings::default());
    assert!(file.has_pool_data());
    assert_eq!(
        file.load_pool(ObjectPool::new()).unwrap_err(),
        "Failed to parse object pool: no objects found in data"
    );
    assert_eq!(
        EditorProject::load_project(&file, ObjectPool::new(), (60, 60)).err(),
        Some("Failed to parse object pool: no objects found in data".to_string())
    );
    // Exactly four bytes may stand for an empty pool.
    let four = file_with(vec![1, 2, 3, 4], &[], ProjectSettings::default());
    assert_eq!(four.load_pool(ObjectPool::new()).unwrap().len(), 0);
    assert!(EditorProject::load_project(&four, ObjectPool::new(), (60, 60)).is_ok());
    // Data of any length with objects is accepted.
    assert!(file.load_pool(keys()).unwrap() == keys());
}

#[test]
fn saving_records_names_size_and_selection() {
    let mut project = EditorProject::new(keys(), 480, (60, 60));
    project.set_object_name(id(5000), "Start".to_string());
    project.get_object_info(&object(5001, ObjectType::Key));
    *project.get_mut_selected() = NullableObjectId(Some(id(5001)));
    let file = project.save_project(vec![9, 8, 7, 6, 5]);
    assert_eq!(file.version(), 1);
    assert_eq!(*file.object_pool_data(), vec![9, 8, 7, 6, 5]);
    assert_eq!(*file.get_settings(), ProjectSettings { mask_size: 480, last_selected: Some(5001) });
    let metadata = file.get_metadata();
    assert_eq!(metadata.len(), 2);
    assert_eq!(metadata[&5000].name, Some("Start".to_string()));
    assert_eq!(metadata[&5000].notes, None);
    assert_eq!(metadata[&5001].name, None);
    assert_eq!(metadata[&5001].clone().notes, None);
}

#[test]
fn saving_falls_back_to_the_committed_selection() {
    let mut project = EditorProject::new(keys(), 480, (60, 60));
    assert_eq!(project.save_project(vec![0; 4]).get_settings().last_selected, None);
    *project.get_mut_selected() = NullableObjectId(Some(id(5000)));
    project.update_selected();
    *project.get_mut_selected() = NullableObjectId(None);
    assert_eq!(project.save_project(vec![0; 4]).get_settings().last_selected, Some(5000));
}

#[test]
fn a_saved_project_loads_back() {
    let mut project = EditorProject::new(keys(), 320, (60, 60));
    project.set_object_name(id(5000), "Start".to_string());
    project.set_object_name(id(5001), "Stop".to_string());
    *project.get_mut_selected() = NullableObjectId(Some(id(5000)));
    project.update_selected();
    let file = project.save_project(vec![1, 2, 3, 4, 5, 6]);
    let loaded = EditorProject::load_project(&file, project.get_pool().clone(), (60, 60)).unwrap();
    assert!(loaded.get_pool() == project.get_pool());
    assert_eq!(loaded.object_name(id(5000)), Some("Start".to_string()));
    assert_eq!(loaded.object_name(id(5001)), Some("Stop".to_string()));
    assert_eq!(loaded.get_selected(), NullableObjectId(Some(id(5000))));
    assert_eq!(loaded.mask_size(), 320);
}

#[test]
fn a_project_file_from_a_map_of_records() {
    let mut info = HashMap::new();
    info.insert(7u16, ag_iso_terminal_designer::ObjectInfo { name: Some("Seven".to_string()) });
    info.insert(65535u16, ag_iso_terminal_designer::ObjectInfo { name: None });
    let file = ProjectFile::new(vec![1, 2, 3, 4], &info, 200, Some(id(7)));
    assert_eq!(file.get_metadata().len(), 2);
    assert_eq!(file.get_metadata()[&7].name, Some("Seven".to_string()));
    assert_eq!(file.get_metadata()[&65535].name, None);
    assert_eq!(*file.get_settings(), ProjectSettings { mask_size: 200, last_selected: Some(7) });
    assert_eq!(file.version(), 1);
}
