use salsa_storage::bytes::{bytes_equal, copy_byte_strings, copy_bytes};
use salsa_storage::customize::{
    backdate_flags, check_field_name, customization_named, disallow_id_fields, id_field_indices,
    Customization, DeclError, FieldOptions,
};
use salsa_storage::derived::{TrackedError, TrackedStore};
use salsa_storage::id::IdAllocator;
use salsa_storage::input::{InputValue, StructMap};

fn plain() -> FieldOptions {
    FieldOptions { id: false, return_ref: false, no_eq: false }
}

#[test]
fn input_set_then_get() {
    let mut map = StructMap::new();
    let id = map.insert(InputValue::new(1, vec![vec![5]], 1));
    assert_eq!(id, 1);
    assert_eq!(map.get(1).fields, vec![vec![5u8]]);
    let mut value = map.get(1);
    value.set_field(0, vec![7], 2);
    map.update(1, value);
    let now = map.get(1);
    assert_eq!(now.fields, vec![vec![7u8]]);
    assert_eq!(now.revisions, vec![2]);
    assert_eq!(now.id, 1);
}

#[test]
fn input_entities_are_independent() {
    let mut map = StructMap::new();
    map.insert(InputValue::new(3, vec![vec![1], vec![2]], 1));
    map.insert(InputValue::new(4, vec![vec![9]], 1));
    assert_eq!(map.get(3).fields, vec![vec![1u8], vec![2u8]]);
    assert_eq!(map.get(4).fields, vec![vec![9u8]]);
    assert_eq!(map.get(3).revisions, vec![1, 1]);
}

#[test]
fn input_delete_hands_back_value() {
    let mut map = StructMap::new();
    map.insert(InputValue::new(8, vec![vec![4, 2]], 5));
    assert!(map.contains(8));
    let gone = map.delete(8).expect("stored");
    assert_eq!(gone.id, 8);
    assert_eq!(gone.fields, vec![vec![4u8, 2u8]]);
    assert!(!map.contains(8));
    assert!(map.delete(8).is_none());
}

#[test]
fn input_delete_absent_is_none() {
    let mut map = StructMap::new();
    assert!(map.delete(0).is_none());
    assert!(!map.contains(0));
}

#[test]
fn input_value_clone_is_deep() {
    let v = InputValue::new(2, vec![vec![1, 2, 3], vec![]], 4);
    let mut c = v.clone();
    assert_eq!(c.fields, v.fields);
    assert_eq!(c.revisions, v.revisions);
    c.set_field(1, vec![6], 5);
    assert_eq!(v.fields[1], Vec::<u8>::new());
    assert_eq!(c.fields[1], vec![6u8]);
    assert_eq!(c.revisions, vec![4, 5]);
}

#[test]
fn tracked_identity_reuse_and_backdating() {
    let mut store = TrackedStore::new(vec![true]);
    let t1 = store.lookup_or_create(b"foo".to_vec(), vec![b"1".to_vec()], 1);
    assert_eq!(store.field_revision(t1, 0), 1);
    let again = store.lookup_or_create(b"foo".to_vec(), vec![b"1".to_vec()], 2);
    assert_eq!(again, t1);
    assert_eq!(store.update(t1, vec![b"1".to_vec()], 2), Ok(()));
    assert_eq!(store.field_revision(t1, 0), 1);
    assert_eq!(store.lookup_or_create(b"foo".to_vec(), vec![b"1".to_vec()], 3), t1);
    assert_eq!(store.update(t1, vec![b"2".to_vec()], 3), Ok(()));
    assert_eq!(store.field_revision(t1, 0), 3);
    assert_eq!(store.fields(t1), &vec![b"2".to_vec()]);
    assert_eq!(store.current_revision(), 3);
}

#[test]
fn tracked_distinct_keys_get_distinct_ids() {
    let mut store = TrackedStore::new(vec![true]);
    let a = store.lookup_or_create(b"a".to_vec(), vec![vec![1]], 1);
    let b = store.lookup_or_create(b"b".to_vec(), vec![vec![1]], 1);
    let empty = store.lookup_or_create(Vec::new(), vec![vec![1]], 1);
    assert_eq!((a, b, empty), (0, 1, 2));
    assert_eq!(store.lookup_or_create(b"b".to_vec(), vec![vec![5]], 1), b);
    assert_eq!(store.fields(b), &vec![vec![1u8]]);
}

#[test]
fn tracked_backdating_per_field() {
    let mut store = TrackedStore::new(vec![true, true]);
    let id = store.lookup_or_create(b"k".to_vec(), vec![vec![1], vec![2]], 1);
    store.lookup_or_create(b"k".to_vec(), vec![vec![1], vec![2]], 4);
    assert_eq!(store.update(id, vec![vec![1], vec![3]], 4), Ok(()));
    assert_eq!(store.field_revision(id, 0), 1);
    assert_eq!(store.field_revision(id, 1), 4);
    assert_eq!(store.update(id, vec![vec![1], vec![3]], 6), Ok(()));
    assert_eq!(store.field_revision(id, 0), 1);
    assert_eq!(store.field_revision(id, 1), 4);
}

#[test]
fn tracked_no_eq_field_always_stamped() {
    let flags = backdate_flags(&vec![plain(), FieldOptions { id: false, return_ref: false, no_eq: true }]);
    assert_eq!(flags, vec![true, false]);
    let mut store = TrackedStore::new(flags);
    let id = store.lookup_or_create(b"k".to_vec(), vec![vec![1], vec![2]], 1);
    assert_eq!(store.update(id, vec![vec![1], vec![2]], 2), Ok(()));
    assert_eq!(store.field_revision(id, 0), 1);
    assert_eq!(store.field_revision(id, 1), 2);
}

#[test]
fn tracked_second_update_in_revision_refused() {
    let mut store = TrackedStore::new(vec![true]);
    let id = store.lookup_or_create(b"x".to_vec(), vec![vec![0]], 1);
    assert_eq!(store.update(id, vec![vec![1]], 1), Err(TrackedError::DoubleUpdate));
    assert_eq!(store.update(id, vec![vec![1]], 2), Ok(()));
    assert_eq!(store.update(id, vec![vec![2]], 2), Err(TrackedError::DoubleUpdate));
    assert_eq!(store.fields(id), &vec![vec![1u8]]);
    assert_eq!(store.field_revision(id, 0), 2);
}

#[test]
fn tracked_update_unknown_id_refused() {
    let mut store = TrackedStore::new(vec![true]);
    assert_eq!(store.update(0, vec![vec![1]], 1), Err(TrackedError::UnknownId));
    let id = store.lookup_or_create(b"x".to_vec(), vec![vec![0]], 1);
    store.sweep(2);
    assert!(!store.contains(id));
    assert_eq!(store.update(id, vec![vec![1]], 2), Err(TrackedError::UnknownId));
    assert_eq!(store.update(7, vec![vec![1]], 2), Err(TrackedError::UnknownId));
}

#[test]
fn tracked_sweep_reclaims_stale() {
    let mut store = TrackedStore::new(vec![true]);
    let old = store.lookup_or_create(b"foo".to_vec(), vec![vec![1]], 1);
    let kept = store.lookup_or_create(b"bar".to_vec(), vec![vec![1]], 1);
    store.lookup_or_create(b"bar".to_vec(), vec![vec![1]], 3);
    store.sweep(3);
    assert!(!store.contains(old));
    assert!(store.contains(kept));
    let fresh = store.lookup_or_create(b"foo".to_vec(), vec![vec![1]], 3);
    assert_ne!(fresh, old);
    assert_eq!(fresh, 2);
    assert_eq!(store.field_revision(fresh, 0), 3);
    assert_eq!(store.lookup_or_create(b"bar".to_vec(), vec![vec![1]], 3), kept);
}

#[test]
fn tracked_sweep_keeps_revalidated_at_threshold() {
    let mut store = TrackedStore::new(vec![]);
    let id = store.lookup_or_create(b"z".to_vec(), Vec::new(), 2);
    store.sweep(2);
    assert!(store.contains(id));
    store.sweep(3);
    assert!(!store.contains(id));
}

#[test]
fn allocator_issues_increasing_ids() {
    let mut ids = IdAllocator::new();
    assert_eq!(ids.allocate(), 0);
    assert_eq!(ids.allocate(), 1);
    assert_eq!(ids.allocate(), 2);
}

#[test]
fn field_options_queries() {
    let f = FieldOptions { id: true, return_ref: true, no_eq: false };
    assert!(f.is_id_field());
    assert!(!f.is_clone_field());
    assert!(f.is_backdate_field());
    assert!(plain().is_clone_field());
    assert_eq!(Customization::DebugWithDb, Customization::DebugWithDb);
}

#[test]
fn id_field_positions() {
    let id = FieldOptions { id: true, return_ref: false, no_eq: false };
    assert_eq!(id_field_indices(&vec![id, plain(), id, plain()]), vec![0, 2]);
    assert_eq!(id_field_indices(&vec![plain()]), Vec::<usize>::new());
    assert_eq!(id_field_indices(&Vec::new()), Vec::<usize>::new());
}

#[test]
fn byte_helpers() {
    assert!(bytes_equal(&vec![1, 2], &vec![1, 2]));
    assert!(!bytes_equal(&vec![1, 2], &vec![1, 3]));
    assert!(!bytes_equal(&vec![1], &vec![1, 1]));
    assert!(bytes_equal(&Vec::new(), &Vec::new()));
    assert_eq!(copy_bytes(&vec![9, 8]), vec![9, 8]);
    assert_eq!(copy_byte_strings(&vec![vec![1], vec![]]), vec![vec![1u8], vec![]]);
}

#[test]
fn field_options_from_attribute_names() {
    let attrs = vec!["id".to_string(), "doc".to_string(), "no_eq".to_string()];
    let f = FieldOptions::from_attributes(&attrs);
    assert_eq!(f, FieldOptions { id: true, return_ref: false, no_eq: true });
    let g = FieldOptions::from_attributes(&vec!["return_ref".to_string()]);
    assert_eq!(g, FieldOptions { id: false, return_ref: true, no_eq: false });
    assert_eq!(FieldOptions::from_attributes(&Vec::new()), plain());
}

#[test]
fn banned_field_names_refused() {
    assert_eq!(check_field_name(&"from".to_string()), Err(DeclError::BannedFieldName));
    assert_eq!(check_field_name(&"new".to_string()), Err(DeclError::BannedFieldName));
    assert_eq!(check_field_name(&"news".to_string()), Ok(()));
    assert_eq!(check_field_name(&"field1".to_string()), Ok(()));
}

#[test]
fn customization_names() {
    assert_eq!(customization_named(&"DebugWithDb".to_string()), Ok(Customization::DebugWithDb));
    assert_eq!(customization_named(&"Debug".to_string()), Err(DeclError::UnrecognizedCustomization));
}

#[test]
fn id_fields_refused_where_not_allowed() {
    let id = FieldOptions { id: true, return_ref: false, no_eq: false };
    assert_eq!(disallow_id_fields(&vec![plain(), id, id]), Err(DeclError::IdFieldNotAllowed(1)));
    assert_eq!(disallow_id_fields(&vec![plain(), plain()]), Ok(()));
    assert_eq!(disallow_id_fields(&Vec::new()), Ok(()));
}
