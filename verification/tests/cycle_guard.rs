use ag_iso_terminal_designer::cycle_guard::search_from;
use ag_iso_terminal_designer::{
    would_create_circular_reference, NullableObjectId, Object, ObjectId, ObjectPool, ObjectType, Reference,
};

fn id(value: u16) -> ObjectId {
    ObjectId::new(value).unwrap()
}

fn parent_of(own: u16, object_type: ObjectType, children: &[u16]) -> Object {
    let mut object = Object::new(id(own), object_type);
    for child in children {
        object.references.push(Reference::child(id(*child)));
    }
    object
}

fn chain() -> ObjectPool {
    // 1000 holds 3000, 3000 holds 3001, 3001 holds 6000.
    let mut pool = ObjectPool::new();
    pool.add(parent_of(1000, ObjectType::DataMask, &[3000]));
    pool.add(parent_of(3000, ObjectType::Container, &[3001]));
    pool.add(parent_of(3001, ObjectType::Container, &[6000]));
    pool.add(parent_of(6000, ObjectType::Button, &[]));
    pool
}

#[test]
fn an_object_cannot_hold_itself() {
    let pool = chain();
    assert!(would_create_circular_reference(&pool, id(3000), id(3000)));
    // Also for an object that the pool does not hold.
    assert!(would_create_circular_reference(&pool, id(9), id(9)));
}

#[test]
fn a_descendant_cannot_hold_its_ancestor() {
    let pool = chain();
    // 3000 holds 3001 directly, 1000 holds 6000 through two others.
    assert!(would_create_circular_reference(&pool, id(3001), id(3000)));
    assert!(would_create_circular_reference(&pool, id(6000), id(1000)));
    assert!(would_create_circular_reference(&pool, id(6000), id(3000)));
}

#[test]
fn an_ancestor_may_hold_its_descendant_once_more() {
    let pool = chain();
    assert!(!would_create_circular_reference(&pool, id(1000), id(6000)));
    assert!(!would_create_circular_reference(&pool, id(3000), id(6000)));
    assert!(!would_create_circular_reference(&pool, id(1000), id(3001)));
}

#[test]
fn unrelated_objects_close_no_circle() {
    let mut pool = chain();
    pool.add(parent_of(3002, ObjectType::Container, &[]));
    assert!(!would_create_circular_reference(&pool, id(3002), id(1000)));
    assert!(!would_create_circular_reference(&pool, id(1000), id(3002)));
}

#[test]
fn the_guard_ends_on_a_pool_that_holds_a_circle() {
    let mut pool = ObjectPool::new();
    pool.add(parent_of(3000, ObjectType::Container, &[3001]));
    pool.add(parent_of(3001, ObjectType::Container, &[3002]));
    pool.add(parent_of(3002, ObjectType::Container, &[3000]));
    pool.add(parent_of(3003, ObjectType::Container, &[]));
    // Within the circle everything holds everything.
    assert!(would_create_circular_reference(&pool, id(3000), id(3001)));
    assert!(would_create_circular_reference(&pool, id(3001), id(3000)));
    // The circle does not reach 3003, and the search for it comes to an end.
    assert!(!would_create_circular_reference(&pool, id(3003), id(3000)));
    // 3003 holds nothing, so it reaches nothing.
    assert!(!would_create_circular_reference(&pool, id(3000), id(3003)));
}

#[test]
fn references_to_missing_objects_are_passed_over() {
    let mut pool = ObjectPool::new();
    pool.add(parent_of(3000, ObjectType::Container, &[4242, 3001]));
    pool.add(parent_of(3001, ObjectType::Container, &[]));
    assert!(!would_create_circular_reference(&pool, id(3000), id(3001)));
    // The missing object is reached by number all the same.
    assert!(would_create_circular_reference(&pool, id(4242), id(3000)));
}

#[test]
fn shared_references_are_no_containment() {
    let mut pool = ObjectPool::new();
    let mut button = Object::new(id(6000), ObjectType::Button);
    button.references.push(Reference::shared(NullableObjectId(Some(id(23000)))));
    pool.add(button);
    let mut font = Object::new(id(23000), ObjectType::FontAttributes);
    font.references.push(Reference::shared(NullableObjectId(Some(id(6000)))));
    pool.add(font);
    assert!(!would_create_circular_reference(&pool, id(6000), id(23000)));
    assert!(!would_create_circular_reference(&pool, id(23000), id(6000)));
    assert!(pool.object_by_id(id(6000)).unwrap().referenced_objects().is_empty());
}

#[test]
fn a_search_without_target_marks_what_is_reached() {
    let pool = chain();
    let (found, reached) = search_from(&pool, &vec![id(3000)], None);
    assert!(!found);
    assert_eq!(reached.len(), 65536);
    let marked: Vec<usize> = (0..reached.len()).filter(|n| reached[*n]).collect();
    assert_eq!(marked, vec![3000, 3001, 6000]);
}

#[test]
fn a_search_from_several_roots_marks_all_they_reach() {
    let mut pool = chain();
    pool.add(parent_of(5000, ObjectType::Key, &[20000]));
    let (found, reached) = search_from(&pool, &vec![id(3001), id(5000)], None);
    assert!(!found);
    let marked: Vec<usize> = (0..reached.len()).filter(|n| reached[*n]).collect();
    assert_eq!(marked, vec![3001, 5000, 6000, 20000]);
    let (found, _) = search_from(&pool, &vec![id(3001), id(5000)], Some(id(20000)));
    assert!(found);
    let (found, _) = search_from(&pool, &vec![id(3001), id(5000)], Some(id(1000)));
    assert!(!found);
}

#[test]
fn referenced_objects_lists_the_children_in_order() {
    let mut object = parent_of(1000, ObjectType::DataMask, &[3000]);
    object.references.push(Reference::shared(NullableObjectId(Some(id(4000)))));
    object.references.push(Reference { target: NullableObjectId(None), structural: true, x: 0, y: 0 });
    object.references.push(Reference { target: NullableObjectId(Some(id(6000))), structural: true, x: 10, y: -4 });
    let children: Vec<u16> = object.referenced_objects().iter().map(|child| child.value()).collect();
    assert_eq!(children, vec![3000, 6000]);
}
