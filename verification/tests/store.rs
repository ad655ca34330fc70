use diary_cli::store::{Container, Scalar, Store, StoreError};

#[test]
fn store_reads_what_was_written() {
    let mut store = Store::new();
    let root = Container::root();
    store.write_data(&root, "uid", Scalar::U64(7)).unwrap();
    store.write_data(&root, "name", Scalar::Text(String::from("diary"))).unwrap();
    assert_eq!(store.read_data(&root, "uid"), Ok(&Scalar::U64(7)));
    assert_eq!(store.read_data(&root, "name"), Ok(&Scalar::Text(String::from("diary"))));
    assert_eq!(store.read_data(&root, "missing"), Err(StoreError::NotFound));
    store.write_data(&root, "uid", Scalar::U64(8)).unwrap();
    assert_eq!(store.read_data(&root, "uid"), Ok(&Scalar::U64(8)));
}

#[test]
fn store_write_needs_its_container() {
    let mut store = Store::new();
    let nowhere = Container::root().child("nowhere");
    assert_eq!(store.write_data(&nowhere, "key", Scalar::U8(1)), Err(StoreError::NotFound));
    assert!(!store.has_container(&nowhere));
    assert!(store.has_container(&Container::root()));
}

#[test]
fn store_names_are_of_one_kind() {
    let mut store = Store::new();
    let root = Container::root();
    store.child_container(&root, "dir").unwrap();
    store.write_data(&root, "leaf", Scalar::U8(1)).unwrap();
    assert_eq!(store.write_data(&root, "dir", Scalar::U8(1)), Err(StoreError::Occupied));
    assert_eq!(store.child_container(&root, "leaf"), Err(StoreError::Occupied));
    assert_eq!(store.new_container(&root, "leaf"), Err(StoreError::Occupied));
    assert_eq!(store.read_container(&root, "leaf"), Err(StoreError::NotFound));
    assert_eq!(store.read_data(&root, "dir"), Err(StoreError::NotFound));
}

#[test]
fn store_new_container_discards_the_old() {
    let mut store = Store::new();
    let root = Container::root();
    let dir = store.child_container(&root, "dir").unwrap();
    store.write_data(&dir, "a", Scalar::U8(1)).unwrap();
    let sub = store.child_container(&dir, "sub").unwrap();
    store.write_data(&sub, "b", Scalar::U8(2)).unwrap();
    let again = store.child_container(&root, "dir").unwrap();
    assert_eq!(store.read_data(&again, "a"), Ok(&Scalar::U8(1)));
    let fresh = store.new_container(&root, "dir").unwrap();
    assert_eq!(store.read_data(&fresh, "a"), Err(StoreError::NotFound));
    assert_eq!(store.read_data(&sub, "b"), Err(StoreError::NotFound));
    assert!(!store.has_container(&sub));
    assert!(store.has_container(&fresh));
}

#[test]
fn store_wipe_keeps_the_container() {
    let mut store = Store::new();
    let root = Container::root();
    let dir = store.child_container(&root, "dir").unwrap();
    let other = store.child_container(&root, "other").unwrap();
    store.write_data(&dir, "a", Scalar::U8(1)).unwrap();
    store.write_data(&other, "a", Scalar::U8(9)).unwrap();
    store.wipe(&dir).unwrap();
    assert!(store.has_container(&dir));
    assert_eq!(store.read_data(&dir, "a"), Err(StoreError::NotFound));
    assert_eq!(store.read_data(&other, "a"), Ok(&Scalar::U8(9)));
    assert_eq!(store.wipe(&Container::root().child("nowhere")), Err(StoreError::NotFound));
}

#[test]
fn store_remove_takes_the_subtree() {
    let mut store = Store::new();
    let root = Container::root();
    let dir = store.child_container(&root, "dir").unwrap();
    store.write_data(&dir, "a", Scalar::U8(1)).unwrap();
    store.write_data(&root, "leaf", Scalar::U8(3)).unwrap();
    store.remove(&root, "dir").unwrap();
    assert!(!store.has_container(&dir));
    assert_eq!(store.read_data(&dir, "a"), Err(StoreError::NotFound));
    assert_eq!(store.read_data(&root, "leaf"), Ok(&Scalar::U8(3)));
    store.remove(&root, "leaf").unwrap();
    assert_eq!(store.read_data(&root, "leaf"), Err(StoreError::NotFound));
    assert_eq!(store.remove(&root, "leaf"), Err(StoreError::NotFound));
}

#[test]
fn store_children_are_the_child_containers() {
    let mut store = Store::new();
    let root = Container::root();
    let dir = store.child_container(&root, "dir").unwrap();
    store.child_container(&dir, "x").unwrap();
    store.child_container(&dir, "y").unwrap();
    store.child_container(&dir, "x").unwrap();
    store.write_data(&dir, "z", Scalar::U8(1)).unwrap();
    let sub = store.child_container(&dir, "x").unwrap();
    store.child_container(&sub, "deep").unwrap();
    let mut names = store.children(&dir);
    names.sort();
    assert_eq!(names, vec![String::from("x"), String::from("y")]);
    assert_eq!(store.children(&root), vec![String::from("dir")]);
}

#[test]
fn store_snapshot_is_a_copy() {
    let mut store = Store::new();
    let root = Container::root();
    store.write_data(&root, "a", Scalar::U16Array(vec![1, 2, 3])).unwrap();
    let copy = store.snapshot();
    store.write_data(&root, "a", Scalar::U8(0)).unwrap();
    assert_eq!(copy.read_data(&root, "a"), Ok(&Scalar::U16Array(vec![1, 2, 3])));
    assert_eq!(store.read_data(&root, "a"), Ok(&Scalar::U8(0)));
}

#[test]
fn scalar_collects_its_own_type_only() {
    assert_eq!(Scalar::U8(5).collect_u8(), Ok(5));
    assert_eq!(Scalar::U16(5).collect_u8(), Err(StoreError::WrongType));
    assert_eq!(Scalar::U16(5).collect_u16(), Ok(5));
    assert_eq!(Scalar::U64(5).collect_u64(), Ok(5));
    assert_eq!(Scalar::Text(String::from("a")).collect_string(), Ok(String::from("a")));
    assert_eq!(Scalar::U8(5).collect_string(), Err(StoreError::WrongType));
    assert_eq!(Scalar::U16Array(vec![1, 2]).collect_u16_array(), Ok(vec![1, 2]));
    assert_eq!(Scalar::U8(5).collect_u16_array(), Err(StoreError::WrongType));
}
