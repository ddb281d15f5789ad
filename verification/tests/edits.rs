use ag_iso_terminal_designer::picture::{
    encode_picture_data, find_closest_color_index, palette_indices, run_length_encode, DataCodeType,
};
use ag_iso_terminal_designer::{
    to_c_identifier, EditError, EditorProject, NullableObjectId, Object, ObjectId, ObjectPool, ObjectType, Reference,
};

fn id(value: u16) -> ObjectId {
    ObjectId::new(value).unwrap()
}

fn object(value: u16, object_type: ObjectType) -> Object {
    Object::new(id(value), object_type)
}

fn project_of(objects: &[(u16, ObjectType)]) -> EditorProject {
    let mut pool = ObjectPool::new();
    for (value, object_type) in objects {
        pool.add(object(*value, *object_type));
    }
    EditorProject::new(pool, 480, (60, 60))
}

fn decode(coded: &[u8]) -> Vec<u8> {
    let mut raw = Vec::new();
    for pair in coded.chunks(2) {
        for _ in 0..pair[0] {
            raw.push(pair[1]);
        }
    }
    raw
}

#[test]
fn a_reference_that_closes_a_circle_is_refused() {
    let mut project = project_of(&[(1000, ObjectType::DataMask), (3000, ObjectType::Container), (6000, ObjectType::Button)]);
    assert_eq!(project.add_reference(id(1000), Reference::child(id(3000))), Ok(()));
    assert_eq!(project.add_reference(id(3000), Reference::child(id(6000))), Ok(()));
    // The button would come to contain the mask that contains it.
    assert_eq!(project.add_reference(id(6000), Reference::child(id(1000))), Err(EditError::CircularReference));
    assert_eq!(project.add_reference(id(3000), Reference::child(id(3000))), Err(EditError::CircularReference));
    assert!(project.get_mut_pool().object_by_id(id(6000)).unwrap().references.is_empty());
    assert_eq!(project.get_mut_pool().object_by_id(id(3000)).unwrap().references, vec![Reference::child(id(6000))]);
    // Holding the same child twice closes no circle.
    assert_eq!(project.add_reference(id(1000), Reference::child(id(6000))), Ok(()));
    assert_eq!(
        project.get_mut_pool().object_by_id(id(1000)).unwrap().references,
        vec![Reference::child(id(3000)), Reference::child(id(6000))]
    );
    // The edits are staged: one commit brings them all.
    assert!(project.get_pool().object_by_id(id(1000)).unwrap().references.is_empty());
    assert!(project.update_pool());
    assert_eq!(project.get_pool().object_by_id(id(1000)).unwrap().references.len(), 2);
}

#[test]
fn references_that_contain_nothing_are_always_let_through() {
    let mut project = project_of(&[(6000, ObjectType::Button), (23000, ObjectType::FontAttributes)]);
    let to_font = Reference::shared(NullableObjectId(Some(id(23000))));
    let to_button = Reference::shared(NullableObjectId(Some(id(6000))));
    assert_eq!(project.add_reference(id(6000), to_font), Ok(()));
    assert_eq!(project.add_reference(id(23000), to_button), Ok(()));
    assert_eq!(project.add_reference(id(6000), to_button), Ok(()));
    let empty = Reference { target: NullableObjectId(None), structural: true, x: 1, y: 2 };
    assert_eq!(project.add_reference(id(6000), empty), Ok(()));
    assert_eq!(project.get_mut_pool().object_by_id(id(6000)).unwrap().references, vec![to_font, to_button, empty]);
    // A child that the pool does not hold is accepted too.
    assert_eq!(project.add_reference(id(6000), Reference::child(id(4242))), Ok(()));
}

#[test]
fn an_object_that_is_missing_gets_no_reference() {
    let mut project = project_of(&[(6000, ObjectType::Button)]);
    assert_eq!(project.add_reference(id(6001), Reference::child(id(6000))), Err(EditError::MissingObject));
    assert!(!project.update_pool());
}

#[test]
fn names_become_c_identifiers() {
    assert_eq!(to_c_identifier("Start button 2"), "START_BUTTON_2");
    assert_eq!(to_c_identifier("Object 1000 (Data Mask)"), "OBJECT_1000__DATA_MASK_");
    assert_eq!(to_c_identifier("azAZ09"), "AZAZ09");
    assert_eq!(to_c_identifier("`{@[/:"), "______");
    assert_eq!(to_c_identifier("Größe"), "GR__E");
    assert_eq!(to_c_identifier(""), "");
}

#[test]
fn the_header_lists_the_objects_by_identifier() {
    let mut project = project_of(&[(6000, ObjectType::Button), (1000, ObjectType::DataMask), (5000, ObjectType::Key)]);
    project.set_object_name(id(6000), "Start button".to_string());
    project.set_object_name(id(1000), "main-mask".to_string());
    assert_eq!(
        project.header(),
        "// Object IDs for the objects in the object pool.\n\n\
         #pragma once\n\
         #define UNDEFINED 65535\n\
         #define MAIN_MASK 1000\n\
         #define OBJECT_5000__KEY_ 5000\n\
         #define START_BUTTON 6000\n"
    );
    assert_eq!(
        project_of(&[]).header(),
        "// Object IDs for the objects in the object pool.\n\n#pragma once\n#define UNDEFINED 65535\n"
    );
}

#[test]
fn colours_go_to_the_nearest_palette_entry() {
    assert_eq!(find_closest_color_index(0, 0, 0), 16);
    assert_eq!(find_closest_color_index(255, 255, 255), 231);
    assert_eq!(find_closest_color_index(255, 0, 0), 196);
    assert_eq!(find_closest_color_index(0, 255, 0), 46);
    assert_eq!(find_closest_color_index(0, 0, 255), 21);
    // 25 is still level 0, 26 is level 1; 229 is level 4, 230 level 5.
    assert_eq!(find_closest_color_index(25, 26, 229), 16 + 6 + 4);
    assert_eq!(find_closest_color_index(230, 51, 102), 16 + 180 + 6 + 2);
}

#[test]
fn transparent_pixels_get_the_transparency_index() {
    let pixels = vec![(255, 255, 255, 0), (255, 255, 255, 1), (0, 0, 0, 255), (9, 9, 9, 0)];
    assert_eq!(palette_indices(&pixels), vec![1, 231, 16, 1]);
    assert!(palette_indices(&Vec::new()).is_empty());
}

#[test]
fn runs_are_coded_as_count_and_value() {
    assert_eq!(run_length_encode(&vec![]), Vec::<u8>::new());
    assert_eq!(run_length_encode(&vec![7]), vec![1, 7]);
    assert_eq!(run_length_encode(&vec![7, 7, 7, 9, 9, 7]), vec![3, 7, 2, 9, 1, 7]);
    // A run longer than a byte can count is split.
    assert_eq!(run_length_encode(&vec![5; 255]), vec![255, 5]);
    assert_eq!(run_length_encode(&vec![5; 256]), vec![255, 5, 1, 5]);
    assert_eq!(run_length_encode(&vec![5; 600]), vec![255, 5, 255, 5, 90, 5]);
    let mut raw = vec![3; 300];
    raw.extend(vec![4; 2]);
    raw.push(3);
    let coded = run_length_encode(&raw);
    assert_eq!(coded, vec![255, 3, 45, 3, 2, 4, 1, 3]);
    assert_eq!(decode(&coded), raw);
}

#[test]
fn the_shorter_coding_is_chosen() {
    assert_eq!(encode_picture_data(vec![8; 100]), (vec![100, 8], DataCodeType::RunLength));
    // No runs: the run-length coding would be twice as long.
    assert_eq!(encode_picture_data(vec![1, 2, 3, 4]), (vec![1, 2, 3, 4], DataCodeType::Raw));
    // Equal length: the plain coding stays.
    assert_eq!(encode_picture_data(vec![1, 1, 2, 2]), (vec![1, 1, 2, 2], DataCodeType::Raw));
    assert_eq!(encode_picture_data(vec![1, 1, 1, 2, 2]), (vec![3, 1, 2, 2], DataCodeType::RunLength));
    assert_eq!(encode_picture_data(Vec::new()), (Vec::new(), DataCodeType::Raw));
}

#[test]
fn a_new_object_gets_the_lowest_free_identifier_and_its_name() {
    let mut project = project_of(&[(0, ObjectType::WorkingSet), (6001, ObjectType::Button), (1000, ObjectType::DataMask)]);
    let mut template = object(0, ObjectType::Button);
    template.attributes.push(17);
    let name = project.generate_smart_name_for_new_object(ObjectType::Button);
    assert_eq!(name, "Button 1");
    let given = project.add_new_object(template, name).unwrap();
    assert_eq!(given.value(), 6000);
    assert_eq!(*project.get_mut_selected(), NullableObjectId(Some(id(6000))));
    assert_eq!(project.object_name(id(6000)), Some("Button 1".to_string()));
    // Nothing shows before the commit.
    assert!(!project.get_pool().contains(id(6000)));
    assert!(project.update_pool());
    assert!(project.update_selected());
    let ids: Vec<u16> = project.get_pool().objects().iter().map(|o| o.id().value()).collect();
    assert_eq!(ids, vec![0, 1000, 6000, 6001]);
    assert_eq!(project.get_pool().object_by_id(id(6000)).unwrap().attributes, vec![17]);
    assert_eq!(project.generate_smart_name_for_new_object(ObjectType::Button), "Button 2");
}

#[test]
fn a_new_object_is_refused_when_its_range_is_full() {
    let mut project = project_of(&[(0, ObjectType::WorkingSet)]);
    assert_eq!(project.add_new_object(object(0, ObjectType::WorkingSet), "Second".to_string()), None);
    assert!(!project.update_pool());
    assert_eq!(*project.get_mut_selected(), NullableObjectId(None));
    assert_eq!(project.object_name(id(0)), None);
}

#[test]
fn an_object_is_renumbered_unless_the_identifier_is_taken() {
    let mut project = project_of(&[(1000, ObjectType::DataMask), (6000, ObjectType::Button), (6001, ObjectType::Button)]);
    project.set_object_name(id(6000), "Start".to_string());
    assert!(!project.change_object_id(id(6000), id(6001)));
    assert!(!project.change_object_id(id(6002), id(6003)));
    assert!(!project.update_pool());
    assert_eq!(project.object_name(id(6000)), Some("Start".to_string()));
    assert!(project.change_object_id(id(6000), id(6005)));
    assert_eq!(*project.get_mut_selected(), NullableObjectId(Some(id(6005))));
    assert_eq!(project.object_name(id(6000)), None);
    assert_eq!(project.object_name(id(6005)), Some("Start".to_string()));
    assert!(project.update_pool());
    // The object keeps its place in the pool.
    let ids: Vec<u16> = project.get_pool().objects().iter().map(|o| o.id().value()).collect();
    assert_eq!(ids, vec![1000, 6005, 6001]);
    // Renumbering an object to its own identifier changes nothing in the pool.
    assert!(project.change_object_id(id(6001), id(6001)));
    assert!(!project.update_pool());
}

#[test]
fn a_default_document_is_empty() {
    let mut project = EditorProject::default();
    assert!(project.get_pool().is_empty());
    assert!(project.get_mut_pool().is_empty());
    assert_eq!(project.mask_size(), 0);
    assert!(project.object_info().is_empty());
    assert_eq!(project.next_available_id(), 1);
}
