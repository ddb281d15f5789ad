use ag_iso_terminal_designer::{
    remap_object_references, EditorProject, ImportError, NullableObjectId, Object, ObjectId, ObjectPool, ObjectType,
    Reference,
};
use std::collections::HashMap;

fn id(value: u16) -> ObjectId {
    ObjectId::new(value).unwrap()
}

fn object(value: u16, object_type: ObjectType) -> Object {
    Object::new(id(value), object_type)
}

fn parent_of(own: u16, object_type: ObjectType, children: &[u16]) -> Object {
    let mut parent = object(own, object_type);
    for child in children {
        parent.references.push(Reference::child(id(*child)));
    }
    parent
}

fn ids_of(pool: &ObjectPool) -> Vec<u16> {
    pool.objects().iter().map(|o| o.id().value()).collect()
}

fn pairs_of(pairs: &[(ObjectId, ObjectId)]) -> Vec<(u16, u16)> {
    pairs.iter().map(|(old, new)| (old.value(), new.value())).collect()
}

#[test]
fn remapping_rewrites_mapped_references_only() {
    let mut mask = object(1000, ObjectType::DataMask);
    mask.attributes.push(3);
    mask.references.push(Reference::shared(NullableObjectId(Some(id(4000)))));
    mask.references.push(Reference { target: NullableObjectId(Some(id(6000))), structural: true, x: 5, y: -7 });
    mask.references.push(Reference::child(id(6001)));
    mask.references.push(Reference::shared(NullableObjectId(None)));
    let mut id_map = HashMap::new();
    id_map.insert(4000u16, id(4010));
    id_map.insert(6000u16, id(6100));
    id_map.insert(1000u16, id(1500));
    remap_object_references(&mut mask, &id_map);
    // The object's own identifier is no reference.
    assert_eq!(mask.id().value(), 1000);
    assert_eq!(mask.attributes, vec![3]);
    assert_eq!(
        mask.references,
        vec![
            Reference::shared(NullableObjectId(Some(id(4010)))),
            Reference { target: NullableObjectId(Some(id(6100))), structural: true, x: 5, y: -7 },
            Reference::child(id(6001)),
            Reference::shared(NullableObjectId(None)),
        ]
    );
    // An empty map changes nothing.
    let before = mask.clone();
    remap_object_references(&mut mask, &HashMap::new());
    assert_eq!(mask, before);
}

#[test]
fn remapping_is_done_in_one_pass() {
    // 6000 goes to 6001 and 6001 to 6002: no reference is remapped twice.
    let mut container = parent_of(3000, ObjectType::Container, &[6000, 6001]);
    let mut id_map = HashMap::new();
    id_map.insert(6000u16, id(6001));
    id_map.insert(6001u16, id(6002));
    remap_object_references(&mut container, &id_map);
    assert_eq!(container.references, vec![Reference::child(id(6001)), Reference::child(id(6002))]);
}

#[test]
fn import_brings_the_contents_of_what_is_chosen() {
    // The container is chosen, the button it holds is not.
    let mut imported = ObjectPool::new();
    imported.add(parent_of(3000, ObjectType::Container, &[6000]));
    imported.add(object(6000, ObjectType::Button));
    imported.add(object(6001, ObjectType::Button));
    let mut target = ObjectPool::new();
    target.add(object(0, ObjectType::WorkingSet));
    target.add(object(3000, ObjectType::Container));
    target.add(object(6000, ObjectType::Button));
    let mut project = EditorProject::new(target, 480, (60, 60));
    let pairs = project.import_objects(&imported, &vec![id(3000)]).unwrap();
    assert_eq!(pairs_of(&pairs), vec![(3000, 3001), (6000, 6001)]);
    // Both came in under fresh identifiers; the button that was not reached did not.
    assert_eq!(ids_of(project.get_pool()), vec![0, 3000, 3001, 6000, 6001]);
    // The container points at the button's new identifier.
    let container = project.get_pool().object_by_id(id(3001)).unwrap();
    assert_eq!(container.object_type(), ObjectType::Container);
    assert_eq!(container.references, vec![Reference::child(id(6001))]);
    // What was there is as it was.
    assert_eq!(*project.get_pool().object_by_id(id(3000)).unwrap(), object(3000, ObjectType::Container));
    assert_eq!(*project.get_pool().object_by_id(id(6000)).unwrap(), object(6000, ObjectType::Button));
    // One commit for the whole import.
    project.undo();
    assert_eq!(ids_of(project.get_pool()), vec![0, 3000, 6000]);
    assert!(!project.undo_available());
}

#[test]
fn import_into_an_empty_pool_keeps_free_identifiers_in_range() {
    let mut imported = ObjectPool::new();
    imported.add(parent_of(3000, ObjectType::Container, &[6000]));
    imported.add(object(6000, ObjectType::Button));
    let mut project = EditorProject::new(ObjectPool::new(), 480, (60, 60));
    let pairs = project.import_objects(&imported, &vec![id(3000)]).unwrap();
    assert_eq!(pairs_of(&pairs), vec![(3000, 3000), (6000, 6000)]);
    assert_eq!(ids_of(project.get_pool()), vec![3000, 6000]);
    assert_eq!(*project.get_mut_selected(), NullableObjectId(Some(id(3000))));
}

#[test]
fn imported_objects_of_one_type_get_different_identifiers() {
    let mut imported = ObjectPool::new();
    imported.add(parent_of(1000, ObjectType::DataMask, &[100, 200, 300]));
    imported.add(object(100, ObjectType::Button));
    imported.add(object(200, ObjectType::Button));
    imported.add(parent_of(300, ObjectType::Button, &[100]));
    let mut target = ObjectPool::new();
    target.add(object(6001, ObjectType::Button));
    let mut project = EditorProject::new(target, 480, (60, 60));
    let pairs = project.import_objects(&imported, &vec![id(1000)]).unwrap();
    assert_eq!(pairs_of(&pairs), vec![(1000, 1000), (100, 6000), (200, 6002), (300, 6003)]);
    assert_eq!(ids_of(project.get_pool()), vec![1000, 6000, 6001, 6002, 6003]);
    let mask = project.get_pool().object_by_id(id(1000)).unwrap();
    assert_eq!(
        mask.references,
        vec![Reference::child(id(6000)), Reference::child(id(6002)), Reference::child(id(6003))]
    );
    let last = project.get_pool().object_by_id(id(6003)).unwrap();
    assert_eq!(last.references, vec![Reference::child(id(6000))]);
}

#[test]
fn working_sets_are_never_imported() {
    let mut imported = ObjectPool::new();
    imported.add(parent_of(0, ObjectType::WorkingSet, &[1000]));
    imported.add(parent_of(1000, ObjectType::DataMask, &[6000]));
    imported.add(object(6000, ObjectType::Button));
    let mut target = ObjectPool::new();
    target.add(object(0, ObjectType::WorkingSet));
    let mut project = EditorProject::new(target, 480, (60, 60));
    // The working set is chosen: what it holds is imported, it is not.
    let pairs = project.import_objects(&imported, &vec![id(0)]).unwrap();
    assert_eq!(pairs_of(&pairs), vec![(1000, 1000), (6000, 6000)]);
    assert_eq!(ids_of(project.get_pool()), vec![0, 1000, 6000]);
    assert_eq!(*project.get_pool().object_by_id(id(0)).unwrap(), object(0, ObjectType::WorkingSet));
}

#[test]
fn references_to_what_is_not_imported_stay() {
    let mut imported = ObjectPool::new();
    let mut button = parent_of(6000, ObjectType::Button, &[9999]);
    button.references.push(Reference::shared(NullableObjectId(Some(id(23000)))));
    imported.add(button);
    imported.add(object(23000, ObjectType::FontAttributes));
    let mut target = ObjectPool::new();
    target.add(object(6000, ObjectType::Button));
    let mut project = EditorProject::new(target, 480, (60, 60));
    let pairs = project.import_objects(&imported, &vec![id(6000)]).unwrap();
    // 9999 is no object of the pool and 23000 is not contained: neither comes in.
    assert_eq!(pairs_of(&pairs), vec![(6000, 6001)]);
    let copy = project.get_pool().object_by_id(id(6001)).unwrap();
    assert_eq!(
        copy.references,
        vec![Reference::child(id(9999)), Reference::shared(NullableObjectId(Some(id(23000))))]
    );
}

#[test]
fn an_import_of_nothing_changes_nothing() {
    let mut imported = ObjectPool::new();
    imported.add(object(6000, ObjectType::Button));
    let mut target = ObjectPool::new();
    target.add(object(1000, ObjectType::DataMask));
    let mut project = EditorProject::new(target, 480, (60, 60));
    let pairs = project.import_objects(&imported, &Vec::new()).unwrap();
    assert!(pairs.is_empty());
    assert!(!project.undo_available());
    assert_eq!(ids_of(project.get_pool()), vec![1000]);
    // Something chosen that the pool does not hold brings nothing either.
    let pairs = project.import_objects(&imported, &vec![id(77)]).unwrap();
    assert!(pairs.is_empty());
    assert!(!project.undo_available());
}

#[test]
fn an_import_survives_a_circle_in_the_imported_pool() {
    let mut imported = ObjectPool::new();
    imported.add(parent_of(3000, ObjectType::Container, &[3001]));
    imported.add(parent_of(3001, ObjectType::Container, &[3000]));
    let mut project = EditorProject::new(ObjectPool::new(), 480, (60, 60));
    let pairs = project.import_objects(&imported, &vec![id(3001)]).unwrap();
    assert_eq!(pairs_of(&pairs), vec![(3000, 3000), (3001, 3001)]);
}

#[test]
fn an_exhausted_range_stops_the_import_before_it_starts() {
    let mut target = ObjectPool::new();
    for n in 5000..=5998 {
        target.add(object(n, ObjectType::Key));
    }
    let mut project = EditorProject::new(target, 480, (60, 60));
    project.set_object_name(id(5000), "First".to_string());
    let mut imported = ObjectPool::new();
    imported.add(parent_of(3000, ObjectType::Container, &[5000, 5001]));
    imported.add(object(5000, ObjectType::Key));
    imported.add(object(5001, ObjectType::Key));
    // One key still has room, the second has not.
    let outcome = project.import_objects(&imported, &vec![id(3000)]);
    assert_eq!(outcome, Err(ImportError::RangeExhausted(ObjectType::Key)));
    assert_eq!(project.get_pool().len(), 999);
    assert!(!project.get_pool().contains(id(3000)));
    assert!(!project.get_mut_pool().contains(id(3000)));
    assert!(!project.undo_available());
    assert!(!project.has_name(id(5999)));
    // With the second key left out the import goes through.
    let pairs = project.import_objects(&imported, &vec![id(5000)]).unwrap();
    assert_eq!(pairs_of(&pairs), vec![(5000, 5999)]);
}

#[test]
fn imported_objects_get_names_that_are_not_in_use() {
    let mut target = ObjectPool::new();
    target.add(object(6000, ObjectType::Button));
    target.add(object(6001, ObjectType::Button));
    let mut project = EditorProject::new(target, 480, (60, 60));
    project.set_object_name(id(6000), "Button 1".to_string());
    project.set_object_name(id(6001), "Start".to_string());
    // Records left behind by objects that are gone: one collides, one does not.
    project.set_object_name(id(6002), "Start".to_string());
    project.set_object_name(id(6003), "Stop".to_string());
    let mut imported = ObjectPool::new();
    imported.add(parent_of(3000, ObjectType::Container, &[10, 11, 12]));
    imported.add(object(10, ObjectType::Button));
    imported.add(object(11, ObjectType::Button));
    imported.add(object(12, ObjectType::Button));
    let pairs = project.import_objects(&imported, &vec![id(3000)]).unwrap();
    assert_eq!(pairs_of(&pairs), vec![(3000, 3000), (10, 6002), (11, 6003), (12, 6004)]);
    assert_eq!(project.object_name(id(3000)), Some("Container 1".to_string()));
    // "Start" is in use, so the record of 6002 is replaced; "Stop" is kept.
    assert_eq!(project.object_name(id(6002)), Some("Button 2".to_string()));
    assert_eq!(project.object_name(id(6003)), Some("Stop".to_string()));
    assert_eq!(project.object_name(id(6004)), Some("Button 3".to_string()));
    // The names that were there stay.
    assert_eq!(project.object_name(id(6000)), Some("Button 1".to_string()));
    assert_eq!(project.object_name(id(6001)), Some("Start".to_string()));
    let mut names = project.get_all_object_names().names();
    assert_eq!(names.len(), 6);
    names.sort();
    names.dedup();
    assert_eq!(names.len(), 6);
}
