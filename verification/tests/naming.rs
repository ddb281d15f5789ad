use ag_iso_terminal_designer::decimal::decimal_string;
use ag_iso_terminal_designer::smart_naming::{
    default_object_name, generate_smart_default_name, get_object_type_name,
};
use ag_iso_terminal_designer::{EditorProject, NameTable, Object, ObjectId, ObjectInfo, ObjectPool, ObjectType};

fn id(value: u16) -> ObjectId {
    ObjectId::new(value).unwrap()
}

fn object(value: u16, object_type: ObjectType) -> Object {
    Object::new(id(value), object_type)
}

fn project_of(objects: &[(u16, ObjectType)]) -> EditorProject {
    let mut pool = ObjectPool::new();
    for (value, object_type) in objects {
        pool.add(object(*value, *object_type));
    }
    EditorProject::new(pool, 480, (60, 60))
}

fn name(project: &EditorProject, value: u16) -> Option<String> {
    project.object_name(id(value))
}

#[test]
fn numbers_are_written_in_decimal() {
    assert_eq!(decimal_string(0), "0");
    assert_eq!(decimal_string(7), "7");
    assert_eq!(decimal_string(10), "10");
    assert_eq!(decimal_string(65535), "65535");
    assert_eq!(decimal_string(1234567890123), "1234567890123");
    assert_eq!(decimal_string(u128::MAX), u128::MAX.to_string());
}

#[test]
fn default_names_show_number_and_type() {
    assert_eq!(default_object_name(1000, ObjectType::DataMask), "Object 1000 (Data Mask)");
    assert_eq!(default_object_name(0, ObjectType::WorkingSet), "Object 0 (Working Set)");
    assert_eq!(get_object_type_name(ObjectType::OutputLinearBarGraph), "Output Linear Bar Graph");
    assert_eq!(ObjectType::AuxiliaryFunctionType2.name(), "Auxiliary Function Type 2");
}

#[test]
fn an_object_without_a_name_is_shown_under_its_default_name() {
    let button = object(6000, ObjectType::Button);
    let mut info = ObjectInfo::new(&button);
    assert_eq!(info.name, None);
    assert_eq!(info.get_name(&button), "Object 6000 (Button)");
    info.set_name("Start".to_string());
    assert_eq!(info.get_name(&button), "Start");
    assert_eq!(info.clone().name, Some("Start".to_string()));
}

#[test]
fn the_first_free_number_is_taken() {
    let mut names = NameTable::new();
    assert_eq!(generate_smart_default_name(ObjectType::Button, &names), "Button 1");
    names.insert_if_absent("Button 1".to_string(), ObjectType::Button);
    names.insert_if_absent("Button 2".to_string(), ObjectType::Button);
    names.insert_if_absent("Button 4".to_string(), ObjectType::Key);
    assert_eq!(generate_smart_default_name(ObjectType::Button, &names), "Button 3");
    assert_eq!(generate_smart_default_name(ObjectType::Key, &names), "Key 1");
    names.insert_if_absent("Button 3".to_string(), ObjectType::Button);
    assert_eq!(generate_smart_default_name(ObjectType::Button, &names), "Button 5");
    assert_eq!(generate_smart_default_name(ObjectType::DataMask, &names), "Data Mask 1");
}

#[test]
fn generated_names_go_past_single_digits() {
    let mut names = NameTable::new();
    for n in 1..=12 {
        let generated = generate_smart_default_name(ObjectType::Container, &names);
        assert_eq!(generated, format!("Container {}", n));
        names.insert_if_absent(generated, ObjectType::Container);
    }
    assert_eq!(names.len(), 12);
}

#[test]
fn a_name_table_keeps_the_first_type_of_a_name() {
    let mut names = NameTable::new();
    assert_eq!(names.len(), 0);
    names.insert_if_absent("Start".to_string(), ObjectType::Button);
    names.insert_if_absent("Start".to_string(), ObjectType::Key);
    names.insert_if_absent("Stop".to_string(), ObjectType::Key);
    assert_eq!(names.len(), 2);
    assert_eq!(names.get(&"Start".to_string()), Some(ObjectType::Button));
    assert_eq!(names.get(&"Stop".to_string()), Some(ObjectType::Key));
    assert_eq!(names.get(&"Go".to_string()), None);
    assert!(names.contains_name(&"Stop".to_string()));
    assert!(!names.contains_name(&"stop".to_string()));
    assert_eq!(names.names(), vec!["Start".to_string(), "Stop".to_string()]);
}

#[test]
fn all_names_of_a_document_are_listed() {
    let mut project = project_of(&[(1000, ObjectType::DataMask), (6000, ObjectType::Button), (6001, ObjectType::Button)]);
    project.set_object_name(id(6000), "Start".to_string());
    let names = project.get_all_object_names();
    assert_eq!(
        names.names(),
        vec!["Object 1000 (Data Mask)".to_string(), "Start".to_string(), "Object 6001 (Button)".to_string()]
    );
    assert_eq!(names.get(&"Start".to_string()), Some(ObjectType::Button));
    assert_eq!(project.shown_name(&object(6000, ObjectType::Button)), "Start");
    assert_eq!(project.shown_name(&object(6001, ObjectType::Button)), "Object 6001 (Button)");
}

#[test]
fn a_name_for_a_new_object_avoids_the_names_in_use() {
    let mut project = project_of(&[(6000, ObjectType::Button), (6001, ObjectType::Button)]);
    assert_eq!(project.generate_smart_name_for_new_object(ObjectType::Button), "Button 1");
    project.set_object_name(id(6000), "Button 1".to_string());
    assert_eq!(project.generate_smart_name_for_new_object(ObjectType::Button), "Button 2");
    // A name recorded for an object that the pool does not hold is not in use.
    project.set_object_name(id(6500), "Button 2".to_string());
    assert_eq!(project.generate_smart_name_for_new_object(ObjectType::Button), "Button 2");
}

#[test]
fn naming_all_objects_gives_distinct_names_and_keeps_given_ones() {
    let mut project = project_of(&[
        (1000, ObjectType::DataMask),
        (6000, ObjectType::Button),
        (6001, ObjectType::Button),
        (6002, ObjectType::Button),
        (5000, ObjectType::Key),
    ]);
    project.set_object_name(id(6001), "Button 1".to_string());
    project.set_object_name(id(5000), "Enter".to_string());
    project.apply_smart_naming_to_all_objects();
    assert_eq!(name(&project, 1000), Some("Data Mask 1".to_string()));
    assert_eq!(name(&project, 6000), Some("Button 2".to_string()));
    assert_eq!(name(&project, 6001), Some("Button 1".to_string()));
    assert_eq!(name(&project, 6002), Some("Button 3".to_string()));
    assert_eq!(name(&project, 5000), Some("Enter".to_string()));
    let mut all: Vec<String> = project.get_all_object_names().names();
    assert_eq!(all.len(), 5);
    all.sort();
    all.dedup();
    assert_eq!(all.len(), 5);
    // A second run changes nothing.
    project.apply_smart_naming_to_all_objects();
    assert_eq!(name(&project, 6000), Some("Button 2".to_string()));
    assert_eq!(name(&project, 6002), Some("Button 3".to_string()));
}

#[test]
fn naming_one_object_is_idempotent() {
    let mut project = project_of(&[(6000, ObjectType::Button), (6001, ObjectType::Button)]);
    let first = object(6000, ObjectType::Button);
    let second = object(6001, ObjectType::Button);
    assert!(!project.has_name(id(6000)));
    project.apply_smart_naming_to_object(&first);
    assert_eq!(name(&project, 6000), Some("Button 1".to_string()));
    assert!(project.has_name(id(6000)));
    project.apply_smart_naming_to_object(&first);
    assert_eq!(name(&project, 6000), Some("Button 1".to_string()));
    assert_eq!(name(&project, 6001), None);
    project.apply_smart_naming_to_object(&second);
    assert_eq!(name(&project, 6001), Some("Button 2".to_string()));
    // A name that a user gave is never replaced.
    project.set_object_name(id(6001), "Stop".to_string());
    project.apply_smart_naming_to_object(&second);
    assert_eq!(name(&project, 6001), Some("Stop".to_string()));
}

#[test]
fn a_generated_name_avoids_the_default_names_of_others() {
    let mut project = project_of(&[(6000, ObjectType::Button), (6001, ObjectType::Button)]);
    // A user may give a name that looks like a generated one.
    project.set_object_name(id(6000), "Button 1".to_string());
    project.apply_smart_naming_to_object(&object(6001, ObjectType::Button));
    assert_eq!(name(&project, 6001), Some("Button 2".to_string()));
}

#[test]
fn records_follow_a_changed_identifier() {
    let mut project = project_of(&[(6000, ObjectType::Button)]);
    project.set_object_name(id(6000), "Start".to_string());
    project.update_object_id_for_info(id(6000), id(6005));
    assert_eq!(name(&project, 6000), None);
    assert_eq!(name(&project, 6005), Some("Start".to_string()));
    // Nothing is moved where nothing is recorded.
    project.update_object_id_for_info(id(7000), id(7001));
    assert_eq!(name(&project, 7001), None);
    assert!(!project.has_name(id(7001)));
}

#[test]
fn asking_for_a_record_starts_one() {
    let mut project = project_of(&[(6000, ObjectType::Button)]);
    let button = object(6000, ObjectType::Button);
    let info = project.get_object_info(&button);
    assert_eq!(info.name, None);
    project.set_object_name(id(6000), "Start".to_string());
    assert_eq!(project.get_object_info(&button).name, Some("Start".to_string()));
}

#[test]
fn renaming_stores_the_typed_name_on_request() {
    let mut project = project_of(&[(6000, ObjectType::Button), (6001, ObjectType::Button)]);
    let widget = egui::Id::new("rename field");
    assert!(project.get_renaming_object().is_none());
    project.get_object_info(&object(6000, ObjectType::Button));
    project.set_renaming_object(widget, id(6000), "Sta".to_string());
    project.set_renaming_object(widget, id(6000), "Start".to_string());
    assert_eq!(project.get_renaming_object(), Some((widget, id(6000), "Start".to_string())));
    project.finish_renaming_object(true);
    assert!(project.get_renaming_object().is_none());
    assert_eq!(name(&project, 6000), Some("Start".to_string()));
    // A renaming that is given up leaves the name as it was.
    project.set_renaming_object(widget, id(6000), "Stop".to_string());
    project.finish_renaming_object(false);
    assert!(project.get_renaming_object().is_none());
    assert_eq!(name(&project, 6000), Some("Start".to_string()));
    // Without a record of the object nothing is stored.
    project.set_renaming_object(widget, id(6001), "Other".to_string());
    project.finish_renaming_object(true);
    assert_eq!(name(&project, 6001), None);
    // Finishing when nothing is being renamed does nothing.
    project.finish_renaming_object(true);
    assert_eq!(name(&project, 6000), Some("Start".to_string()));
}
