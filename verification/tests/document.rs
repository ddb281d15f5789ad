use ag_iso_terminal_designer::{EditorProject, NullableObjectId, Object, ObjectId, ObjectPool, ObjectType, SortKey};

fn id(value: u16) -> ObjectId {
    ObjectId::new(value).unwrap()
}

fn object(value: u16, object_type: ObjectType) -> Object {
    Object::new(id(value), object_type)
}

fn small_project() -> EditorProject {
    let mut pool = ObjectPool::new();
    pool.add(object(0, ObjectType::WorkingSet));
    pool.add(object(1000, ObjectType::DataMask));
    EditorProject::new(pool, 480, (60, 60))
}

fn ids_of(pool: &ObjectPool) -> Vec<u16> {
    pool.objects().iter().map(|o| o.id().value()).collect()
}

#[test]
fn a_new_document_is_clean() {
    let mut project = small_project();
    assert!(!project.undo_available());
    assert!(!project.redo_available());
    assert_eq!(project.get_selected(), NullableObjectId(None));
    assert_eq!(project.mask_size(), 480);
    assert_eq!(project.soft_key_size(), (60, 60));
    assert_eq!(project.next_available_id(), 1001);
    assert!(!project.update_pool());
    assert!(!project.update_selected());
    let committed = project.get_pool().clone();
    assert!(committed == *project.get_mut_pool());
}

#[test]
fn the_next_identifier_hint_is_held_at_the_top() {
    let mut pool = ObjectPool::new();
    pool.add(object(65534, ObjectType::Macro));
    let project = EditorProject::new(pool, 200, (1, 1));
    assert_eq!(project.next_available_id(), 65535);
    assert_eq!(EditorProject::new(ObjectPool::new(), 200, (1, 1)).next_available_id(), 1);
}

#[test]
fn commit_is_idempotent() {
    let mut project = small_project();
    project.get_mut_pool().add(object(6000, ObjectType::Button));
    assert!(project.update_pool());
    assert!(project.undo_available());
    assert_eq!(ids_of(project.get_pool()), vec![0, 1000, 6000]);
    assert_eq!(project.next_available_id(), 6001);
    // A second commit with no edit in between changes nothing.
    assert!(!project.update_pool());
    project.undo();
    assert!(!project.undo_available());
    assert_eq!(ids_of(project.get_pool()), vec![0, 1000]);
}

#[test]
fn edits_show_only_after_a_commit() {
    let mut project = small_project();
    project.get_mut_pool().add(object(6000, ObjectType::Button));
    assert!(!project.get_pool().contains(id(6000)));
    assert!(project.update_pool());
    assert!(project.get_pool().contains(id(6000)));
}

#[test]
fn undo_then_redo_restores_the_pool() {
    let mut project = small_project();
    for n in 0..3 {
        project.get_mut_pool().add(object(6000 + n, ObjectType::Button));
        assert!(project.update_pool());
    }
    *project.get_mut_selected() = NullableObjectId(Some(id(6001)));
    assert!(project.update_selected());
    let before = project.get_pool().clone();
    project.undo();
    assert_eq!(ids_of(project.get_pool()), vec![0, 1000, 6000, 6001]);
    assert!(project.redo_available());
    // Undoing leaves the document clean.
    assert!(!project.update_pool());
    project.redo();
    assert!(*project.get_pool() == before);
    assert!(!project.redo_available());
    assert_eq!(project.get_selected(), NullableObjectId(Some(id(6001))));
    // Three commits can be undone, and no more.
    project.undo();
    project.undo();
    project.undo();
    assert!(!project.undo_available());
    assert_eq!(ids_of(project.get_pool()), vec![0, 1000]);
    project.undo();
    assert_eq!(ids_of(project.get_pool()), vec![0, 1000]);
    assert_eq!(project.next_available_id(), 1001);
}

#[test]
fn a_commit_empties_the_redo_history() {
    let mut project = small_project();
    project.get_mut_pool().add(object(6000, ObjectType::Button));
    project.update_pool();
    project.undo();
    assert!(project.redo_available());
    project.get_mut_pool().add(object(5000, ObjectType::Key));
    assert!(project.update_pool());
    assert!(!project.redo_available());
    project.redo();
    assert_eq!(ids_of(project.get_pool()), vec![0, 1000, 5000]);
}

#[test]
fn the_undo_history_keeps_the_last_ten_pools() {
    let mut project = small_project();
    for n in 0..12 {
        project.get_mut_pool().add(object(6000 + n, ObjectType::Button));
        assert!(project.update_pool());
    }
    let mut undone = 0;
    while project.undo_available() {
        project.undo();
        undone += 1;
    }
    assert_eq!(undone, 10);
    // The two oldest pools are gone: the oldest one left has two buttons.
    assert_eq!(ids_of(project.get_pool()), vec![0, 1000, 6000, 6001]);
    let mut redone = 0;
    while project.redo_available() {
        project.redo();
        redone += 1;
    }
    assert_eq!(redone, 10);
    assert_eq!(project.get_pool().len(), 14);
}

#[test]
fn the_selection_has_a_history_of_its_own() {
    let mut project = small_project();
    *project.get_mut_selected() = NullableObjectId(Some(id(0)));
    assert!(project.update_selected());
    *project.get_mut_selected() = NullableObjectId(Some(id(1000)));
    assert!(project.update_selected());
    assert!(!project.update_selected());
    // Selecting is no edit of the pool.
    assert!(!project.undo_available());
    project.set_previous_selected();
    assert_eq!(project.get_selected(), NullableObjectId(Some(id(0))));
    assert_eq!(*project.get_mut_selected(), NullableObjectId(Some(id(0))));
    project.set_next_selected();
    assert_eq!(project.get_selected(), NullableObjectId(Some(id(1000))));
    project.set_next_selected();
    assert_eq!(project.get_selected(), NullableObjectId(Some(id(1000))));
    project.set_previous_selected();
    project.set_previous_selected();
    assert_eq!(project.get_selected(), NullableObjectId(None));
    project.set_previous_selected();
    assert_eq!(project.get_selected(), NullableObjectId(None));
}

#[test]
fn clearing_the_selection_is_recorded_like_any_other_change() {
    let mut project = small_project();
    *project.get_mut_selected() = NullableObjectId(Some(id(1000)));
    assert!(project.update_selected());
    *project.get_mut_selected() = NullableObjectId(None);
    assert!(project.update_selected());
    assert_eq!(project.get_selected(), NullableObjectId(None));
    // One step back gives the selection that was cleared.
    project.set_previous_selected();
    assert_eq!(project.get_selected(), NullableObjectId(Some(id(1000))));
    assert_eq!(*project.get_mut_selected(), NullableObjectId(Some(id(1000))));
    // One more gives the empty selection that the document began with.
    project.set_previous_selected();
    assert_eq!(project.get_selected(), NullableObjectId(None));
    project.set_previous_selected();
    assert_eq!(project.get_selected(), NullableObjectId(None));
    // Forward again: the selection, then the clearing of it.
    project.set_next_selected();
    assert_eq!(project.get_selected(), NullableObjectId(Some(id(1000))));
    project.set_next_selected();
    assert_eq!(project.get_selected(), NullableObjectId(None));
    project.set_next_selected();
    assert_eq!(project.get_selected(), NullableObjectId(None));
}

#[test]
fn a_cleared_selection_counts_towards_the_twenty() {
    let mut project = small_project();
    for n in 0..15u16 {
        *project.get_mut_selected() = NullableObjectId(Some(id(100 + n)));
        assert!(project.update_selected());
        *project.get_mut_selected() = NullableObjectId(None);
        assert!(project.update_selected());
    }
    // Thirty changes were committed; twenty of them can be gone back.
    let mut seen = Vec::new();
    for _ in 0..25 {
        project.set_previous_selected();
        seen.push(project.get_selected().0.map(|selected| selected.value()));
    }
    let mut expected = Vec::new();
    for n in (5..15u16).rev() {
        expected.push(Some(100 + n));
        expected.push(None);
    }
    expected.extend(vec![None; 5]);
    assert_eq!(seen, expected);
}

#[test]
fn the_selection_history_keeps_the_last_twenty() {
    let mut project = small_project();
    for n in 0..25u16 {
        *project.get_mut_selected() = NullableObjectId(Some(id(100 + n)));
        assert!(project.update_selected());
    }
    let mut steps = 0;
    let mut last = project.get_selected();
    loop {
        project.set_previous_selected();
        if project.get_selected() == last {
            break;
        }
        last = project.get_selected();
        steps += 1;
    }
    assert_eq!(steps, 20);
    assert_eq!(last, NullableObjectId(Some(id(104))));
}

#[test]
fn identifier_ranges_follow_the_types() {
    assert_eq!(EditorProject::object_id_range(ObjectType::WorkingSet), 0..=0);
    assert_eq!(EditorProject::object_id_range(ObjectType::DataMask), 1000..=1999);
    assert_eq!(EditorProject::object_id_range(ObjectType::Button), 6000..=6999);
    assert_eq!(EditorProject::object_id_range(ObjectType::Animation), 47000..=47999);
    assert_eq!(ObjectType::Key.id_bounds(), (5000, 5999));
    assert_eq!(ObjectType::GraphicData.id_bounds(), (37000, 37999));
}

#[test]
fn allocation_takes_the_lowest_free_identifier() {
    let mut project = small_project();
    assert_eq!(project.allocate_object_id_for_type(ObjectType::Button).value(), 6000);
    // Allocating reserves nothing.
    assert_eq!(project.allocate_object_id_for_type(ObjectType::Button).value(), 6000);
    assert_eq!(project.allocate_object_id_for_type(ObjectType::DataMask).value(), 1001);
    project.get_mut_pool().add(object(6000, ObjectType::Button));
    project.get_mut_pool().add(object(6002, ObjectType::Button));
    // Only the committed pool counts.
    assert_eq!(project.allocate_object_id_for_type(ObjectType::Button).value(), 6000);
    project.update_pool();
    assert_eq!(project.allocate_object_id_for_type(ObjectType::Button).value(), 6001);
    // An identifier counts as taken whatever the type of its object.
    project.get_mut_pool().add(object(6001, ObjectType::Key));
    project.update_pool();
    assert_eq!(project.allocate_object_id_for_type(ObjectType::Button).value(), 6003);
}

#[test]
fn an_exhausted_range_gives_no_identifier() {
    let project = small_project();
    // The one identifier of working sets is taken.
    assert!(project.first_free_object_id(ObjectType::WorkingSet).is_none());
    assert_eq!(project.first_free_object_id(ObjectType::AlarmMask).unwrap().value(), 2000);
    let mut pool = ObjectPool::new();
    for n in 5000..=5999 {
        pool.add(object(n, ObjectType::Key));
    }
    let full = EditorProject::new(pool, 480, (60, 60));
    assert!(full.first_free_object_id(ObjectType::Key).is_none());
    assert_eq!(full.first_free_object_id(ObjectType::Button).unwrap().value(), 6000);
}

#[test]
fn copy_as_new_gives_the_clone_a_fresh_identifier() {
    // A pool with a working set and a data mask; a new button gets 6000.
    let mut project = small_project();
    let button_id = project.allocate_object_id_for_type(ObjectType::Button);
    assert_eq!(button_id.value(), 6000);
    let mut button = Object::new(button_id, ObjectType::Button);
    button.attributes.push(42);
    button.references.push(ag_iso_terminal_designer::Reference::shared(NullableObjectId(Some(id(23000)))));
    project.get_mut_pool().add(button.clone());
    assert!(project.update_pool());
    *project.get_mut_selected() = NullableObjectId(Some(button_id));
    assert!(project.update_selected());
    // The clone gets 6001 and the button copied stays at 6000.
    let copies = project.copy_selected_objects_as_new();
    assert_eq!(copies.len(), 1);
    assert_eq!(copies[0].id().value(), 6001);
    assert_eq!(copies[0].object_type(), ObjectType::Button);
    // All but the identifier is as in the button copied, the references too.
    assert_eq!(copies[0].attributes, button.attributes);
    assert_eq!(copies[0].references, button.references);
    assert_eq!(ids_of(project.get_pool()), vec![0, 1000, 6000]);
    project.paste_objects(copies);
    assert_eq!(ids_of(project.get_pool()), vec![0, 1000, 6000, 6001]);
    assert_eq!(*project.get_pool().object_by_id(id(6000)).unwrap(), button);
    assert!(project.undo_available());
}

#[test]
fn copy_exact_keeps_the_identifier() {
    let mut project = small_project();
    assert!(project.copy_selected_objects_exact().is_empty());
    assert!(project.copy_selected_objects_as_new().is_empty());
    *project.get_mut_selected() = NullableObjectId(Some(id(1000)));
    project.update_selected();
    let copies = project.copy_selected_objects_exact();
    assert_eq!(copies.len(), 1);
    assert_eq!(copies[0], object(1000, ObjectType::DataMask));
    // Pasting it back changes nothing, so nothing is committed.
    project.paste_objects(copies);
    assert!(!project.undo_available());
    // A selection that the pool does not hold copies to nothing.
    *project.get_mut_selected() = NullableObjectId(Some(id(77)));
    project.update_selected();
    assert!(project.copy_selected_objects_exact().is_empty());
    assert!(project.copy_selected_objects_as_new().is_empty());
}

#[test]
fn paste_replaces_an_object_with_the_same_identifier() {
    let mut project = small_project();
    let mut changed = object(1000, ObjectType::DataMask);
    changed.attributes.push(9);
    project.paste_objects(vec![changed.clone(), object(2000, ObjectType::AlarmMask)]);
    assert_eq!(ids_of(project.get_pool()), vec![0, 1000, 2000]);
    assert_eq!(*project.get_pool().object_by_id(id(1000)).unwrap(), changed);
    project.undo();
    assert_eq!(*project.get_pool().object_by_id(id(1000)).unwrap(), object(1000, ObjectType::DataMask));
}

#[test]
fn import_pool_adds_every_object_and_commits_once() {
    let mut project = small_project();
    let mut other = ObjectPool::new();
    other.add(object(3000, ObjectType::Container));
    other.add(object(6000, ObjectType::Button));
    project.import_pool(other);
    assert_eq!(ids_of(project.get_pool()), vec![0, 1000, 3000, 6000]);
    project.undo();
    assert_eq!(ids_of(project.get_pool()), vec![0, 1000]);
    assert!(!project.undo_available());
}

#[test]
fn sorting_orders_the_staging_pool_by_identifier() {
    let mut pool = ObjectPool::new();
    for n in [6001u16, 1000, 6000, 0, 3000] {
        pool.add(object(n, ObjectType::Container));
    }
    let mut project = EditorProject::new(pool, 480, (60, 60));
    project.sort_objects_by(SortKey::Id);
    assert_eq!(ids_of(project.get_pool()), vec![6001, 1000, 6000, 0, 3000]);
    assert!(project.update_pool());
    assert_eq!(ids_of(project.get_pool()), vec![0, 1000, 3000, 6000, 6001]);
}

#[test]
fn image_requests_are_held_one_at_a_time() {
    let mut project = small_project();
    assert_eq!(project.take_image_load_request(), None);
    project.request_image_load(id(20000));
    project.request_image_load(id(20001));
    assert_eq!(project.take_image_load_request(), Some(id(20001)));
    assert_eq!(project.take_image_load_request(), None);
}

#[test]
fn the_mask_size_can_be_set() {
    let mut project = small_project();
    project.set_mask_size(240);
    assert_eq!(project.mask_size(), 240);
}

#[test]
fn sorting_by_name_follows_the_dictionary_and_keeps_ties_in_place() {
    let mut pool = ObjectPool::new();
    for n in 1..=7u16 {
        pool.add(object(n, ObjectType::Macro));
    }
    let mut project = EditorProject::new(pool, 480, (60, 60));
    let names = [(1u16, "beta"), (2, "Alpha"), (3, "alpha"), (4, "beta"), (6, "Zoë"), (7, "Zoo")];
    for (n, name) in names {
        project.set_object_name(id(n), name.to_string());
    }
    // What the order of strings gives, ties kept in place.
    let mut expected: Vec<(String, u16)> = project
        .get_pool()
        .objects()
        .iter()
        .map(|o| (project.shown_name(o), o.id().value()))
        .collect();
    expected.sort_by(|a, b| a.0.cmp(&b.0));
    let expected: Vec<u16> = expected.into_iter().map(|(_, n)| n).collect();
    assert_eq!(expected, vec![2, 5, 7, 6, 3, 1, 4]);
    project.sort_objects_by(SortKey::Name);
    assert_eq!(ids_of(project.get_pool()), vec![1, 2, 3, 4, 5, 6, 7]);
    assert!(project.update_pool());
    assert_eq!(ids_of(project.get_pool()), expected);
    // Sorting again changes nothing.
    project.sort_objects_by(SortKey::Name);
    assert!(!project.update_pool());
    project.sort_objects_by(SortKey::Id);
    assert!(project.update_pool());
    assert_eq!(ids_of(project.get_pool()), vec![1, 2, 3, 4, 5, 6, 7]);
}

#[test]
fn a_shorter_name_comes_before_the_names_it_starts() {
    let mut pool = ObjectPool::new();
    for n in 1..=4u16 {
        pool.add(object(n, ObjectType::Key));
    }
    let mut project = EditorProject::new(pool, 480, (60, 60));
    project.set_object_name(id(1), "Key 10".to_string());
    project.set_object_name(id(2), "Key 1".to_string());
    project.set_object_name(id(3), "".to_string());
    project.set_object_name(id(4), "Key".to_string());
    project.sort_objects_by(SortKey::Name);
    project.update_pool();
    assert_eq!(ids_of(project.get_pool()), vec![3, 4, 2, 1]);
    // An empty pool is sorted as it is.
    let mut empty = EditorProject::default();
    empty.sort_objects_by(SortKey::Name);
    assert!(!empty.update_pool());
}
