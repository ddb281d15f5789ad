use ag_iso_terminal_designer::object_pool::default_font_attributes;
use ag_iso_terminal_designer::{
    NullableObjectId, Object, ObjectId, ObjectPool, ObjectType, ParseError, Reference, NULL_OBJECT_ID,
};

fn id(value: u16) -> ObjectId {
    ObjectId::new(value).unwrap()
}

#[test]
fn object_id_refuses_the_reserved_value() {
    assert!(ObjectId::new(0xFFFF).is_err());
    assert_eq!(ObjectId::new(NULL_OBJECT_ID), Err(ParseError::NullObjectId));
    assert_eq!(ObjectId::new(0xFFFE).unwrap().value(), 0xFFFE);
    assert_eq!(ObjectId::default().value(), 0);
}

#[test]
fn add_replaces_an_object_with_the_same_identifier() {
    let mut pool = ObjectPool::new();
    pool.add(Object::new(id(1000), ObjectType::DataMask));
    pool.add(Object::new(id(6000), ObjectType::Button));
    let mut changed = Object::new(id(1000), ObjectType::DataMask);
    changed.attributes.push(7);
    pool.add(changed.clone());
    assert_eq!(pool.len(), 2);
    assert_eq!(pool.objects()[0], changed);
    assert_eq!(pool.object_by_id(id(6000)).unwrap().object_type(), ObjectType::Button);
    assert!(pool.object_by_id(id(6001)).is_none());
}

#[test]
fn remove_takes_only_the_named_object() {
    let mut pool = ObjectPool::new();
    pool.add(Object::new(id(1000), ObjectType::DataMask));
    pool.add(Object::new(id(6000), ObjectType::Button));
    let taken = pool.remove(id(1000)).unwrap();
    assert_eq!(taken.id().value(), 1000);
    assert!(pool.remove(id(1000)).is_none());
    assert_eq!(pool.len(), 1);
    assert!(pool.contains(id(6000)));
}

#[test]
fn the_objects_that_hold_an_object_are_found() {
    let mut pool = ObjectPool::new();
    let mut mask = Object::new(id(1000), ObjectType::DataMask);
    mask.references.push(Reference::child(id(6000)));
    pool.add(mask);
    let mut container = Object::new(id(3000), ObjectType::Container);
    container.references.push(Reference::shared(NullableObjectId(Some(id(6000)))));
    pool.add(container);
    let mut key = Object::new(id(5000), ObjectType::Key);
    key.references.push(Reference::child(id(3000)));
    key.references.push(Reference::child(id(6000)));
    pool.add(key);
    pool.add(Object::new(id(6000), ObjectType::Button));
    let parents: Vec<u16> = pool.referencing_objects(id(6000)).iter().map(|p| p.value()).collect();
    assert_eq!(parents, vec![1000, 5000]);
    assert!(!pool.is_root(id(6000)));
    assert!(!pool.is_root(id(3000)));
    assert!(pool.is_root(id(1000)));
    assert!(pool.is_root(id(5000)));
    assert!(pool.object_by_id(id(5000)).unwrap().contains(id(3000)));
    assert!(!pool.object_by_id(id(3000)).unwrap().contains(id(6000)));
}

#[test]
fn the_default_font_is_the_first_in_the_pool() {
    let mut pool = ObjectPool::new();
    assert_eq!(default_font_attributes(None).value(), 0);
    assert_eq!(default_font_attributes(Some(&pool)).value(), 0);
    pool.add(Object::new(id(6000), ObjectType::Button));
    pool.add(Object::new(id(23005), ObjectType::FontAttributes));
    pool.add(Object::new(id(23000), ObjectType::FontAttributes));
    assert_eq!(default_font_attributes(Some(&pool)).value(), 23005);
    assert_eq!(pool.first_of_type(ObjectType::Button).unwrap().id().value(), 6000);
    assert!(pool.first_of_type(ObjectType::Key).is_none());
}

#[test]
fn sorting_and_renumbering_keep_the_objects() {
    let mut pool = ObjectPool::new();
    for n in [9u16, 3, 7, 1] {
        pool.add(Object::new(id(n), ObjectType::Macro));
    }
    assert!(pool.change_id(id(7), id(2)));
    assert!(!pool.change_id(id(9), id(3)));
    assert!(!pool.change_id(id(100), id(101)));
    let ids: Vec<u16> = pool.objects().iter().map(|o| o.id().value()).collect();
    assert_eq!(ids, vec![9, 3, 2, 1]);
    assert_eq!(pool.index_of(id(2)), Some(2));
    pool.sort_by_id();
    let ids: Vec<u16> = pool.objects().iter().map(|o| o.id().value()).collect();
    assert_eq!(ids, vec![1, 2, 3, 9]);
    assert!(pool.clone() == pool);
    assert!(ObjectPool::default().is_empty());
}

#[test]
fn a_nullable_identifier_reads_the_reserved_value_as_absent() {
    assert_eq!(NullableObjectId::new(0xFFFF), NullableObjectId(None));
    assert_eq!(NullableObjectId::new(12), NullableObjectId(Some(id(12))));
    assert_eq!(NullableObjectId::new(12).value(), 12);
    assert_eq!(NullableObjectId(None).value(), 0xFFFF);
    assert_eq!(NullableObjectId::default(), NullableObjectId(None));
}

#[test]
fn references_can_be_exchanged_and_removed() {
    let mut mask = Object::new(id(1000), ObjectType::DataMask);
    for n in [6000u16, 6001, 6002] {
        mask.references.push(Reference::child(id(n)));
    }
    assert!(mask.swap_references(0, 2));
    assert!(!mask.swap_references(0, 3));
    assert!(mask.swap_references(1, 1));
    let targets: Vec<u16> = mask.referenced_objects().iter().map(|t| t.value()).collect();
    assert_eq!(targets, vec![6002, 6001, 6000]);
    assert_eq!(mask.remove_reference(1), Some(Reference::child(id(6001))));
    assert_eq!(mask.remove_reference(2), None);
    let targets: Vec<u16> = mask.referenced_objects().iter().map(|t| t.value()).collect();
    assert_eq!(targets, vec![6002, 6000]);
    assert_eq!(mask.id().value(), 1000);
}
