use diary_cli::keys::index_name;
use diary_cli::list::{load_length, pop, push, read, List};
use diary_cli::store::{Container, Scalar, Store, StoreError};

fn container_in(store: &mut Store) -> Container {
    store.child_container(&Container::root(), "Container").unwrap()
}

#[test]
fn list() {
    let mut store = Store::new();
    let container = container_in(&mut store);
    let og_list = [12u8, 32, 86, 75, 98, 128, 255];
    let items: Vec<Scalar> = og_list.iter().map(|x| Scalar::U8(*x)).collect();

    diary_cli::list::write(&items, &container, &mut store).unwrap();

    let new_list: Vec<u8> =
        read(&container, &store).unwrap().iter().map(|x| x.collect_u8().unwrap()).collect();

    assert!(og_list.iter().enumerate().all(|(i, x)| *x == new_list[i]))
}

fn round_trip(n: u16) {
    let mut store = Store::new();
    let container = container_in(&mut store);
    let items: Vec<Scalar> = (0..n).map(|i| Scalar::Text(format!("item {i}"))).collect();
    diary_cli::list::write(&items, &container, &mut store).unwrap();
    assert_eq!(load_length(&container, &store), Ok(n));
    assert_eq!(read(&container, &store), Ok(items));
}

#[test]
fn list_round_trip_of_no_items() {
    round_trip(0);
}

#[test]
fn list_round_trip_of_one_item() {
    round_trip(1);
}

#[test]
fn list_round_trip_of_fifty_items() {
    round_trip(50);
}

#[test]
fn list_write_replaces_what_was_there() {
    let mut store = Store::new();
    let container = container_in(&mut store);
    diary_cli::list::write(&vec![Scalar::U8(1), Scalar::U8(2), Scalar::U8(3)], &container, &mut store).unwrap();
    diary_cli::list::write(&vec![Scalar::U8(9)], &container, &mut store).unwrap();
    assert_eq!(read(&container, &store), Ok(vec![Scalar::U8(9)]));
    assert_eq!(store.read_data(&container, "1"), Err(StoreError::NotFound));
}

#[test]
fn list_keys_are_decimal_numerals() {
    assert_eq!(index_name(0), "0");
    assert_eq!(index_name(9), "9");
    assert_eq!(index_name(10), "10");
    assert_eq!(index_name(409), "409");
    assert_eq!(index_name(65535), "65535");
    let mut store = Store::new();
    let container = container_in(&mut store);
    let items: Vec<Scalar> = (0..12u8).map(Scalar::U8).collect();
    diary_cli::list::write(&items, &container, &mut store).unwrap();
    assert_eq!(store.read_data(&container, "11"), Ok(&Scalar::U8(11)));
    assert_eq!(store.read_data(&container, "length"), Ok(&Scalar::U16(12)));
}

#[test]
fn list_write_needs_its_container() {
    let mut store = Store::new();
    let nowhere = Container::root().child("nowhere");
    assert_eq!(diary_cli::list::write(&vec![Scalar::U8(1)], &nowhere, &mut store), Err(StoreError::NotFound));
    assert_eq!(read(&nowhere, &store), Err(StoreError::NotFound));
}

#[test]
fn list_of_too_many_items_is_refused() {
    let mut store = Store::new();
    let container = container_in(&mut store);
    let items: Vec<Scalar> = (0..65536u32).map(|_| Scalar::U8(0)).collect();
    assert_eq!(diary_cli::list::write(&items, &container, &mut store), Err(StoreError::TooLong));
    assert_eq!(load_length(&container, &store), Err(StoreError::NotFound));
}

#[test]
fn list_read_fails_on_a_missing_item() {
    let mut store = Store::new();
    let container = container_in(&mut store);
    diary_cli::list::write(&vec![Scalar::U8(1), Scalar::U8(2)], &container, &mut store).unwrap();
    store.remove(&container, "0").unwrap();
    assert_eq!(read(&container, &store), Err(StoreError::NotFound));
    store.write_data(&container, "length", Scalar::U8(2)).unwrap();
    assert_eq!(read(&container, &store), Err(StoreError::WrongType));
}

#[test]
fn list_push_appends_and_pop_takes_the_last() {
    let mut store = Store::new();
    let container = container_in(&mut store);
    diary_cli::list::write(&vec![], &container, &mut store).unwrap();
    assert_eq!(pop(&container, &mut store), Ok(None));
    push(Scalar::U8(1), &container, &mut store).unwrap();
    push(Scalar::U8(2), &container, &mut store).unwrap();
    assert_eq!(read(&container, &store), Ok(vec![Scalar::U8(1), Scalar::U8(2)]));
    assert_eq!(pop(&container, &mut store), Ok(Some(Scalar::U8(2))));
    assert_eq!(load_length(&container, &store), Ok(1));
    assert_eq!(store.read_data(&container, "1"), Err(StoreError::NotFound));
    assert_eq!(read(&container, &store), Ok(vec![Scalar::U8(1)]));
    assert_eq!(pop(&container, &mut store), Ok(Some(Scalar::U8(1))));
    assert_eq!(pop(&container, &mut store), Ok(None));
}

#[test]
fn list_push_needs_a_length() {
    let mut store = Store::new();
    let container = container_in(&mut store);
    assert_eq!(push(Scalar::U8(1), &container, &mut store), Err(StoreError::NotFound));
    store.write_data(&container, "length", Scalar::U16(65535)).unwrap();
    assert_eq!(push(Scalar::U8(1), &container, &mut store), Err(StoreError::TooLong));
}

#[test]
fn list_is_read_item_by_item() {
    let mut store = Store::new();
    let container = container_in(&mut store);
    let mut fresh = List::init(container.duplicate(), &mut store).unwrap();
    assert_eq!(fresh.next(&store), Ok(None));
    diary_cli::list::write(&vec![Scalar::U8(4), Scalar::U8(5)], &container, &mut store).unwrap();
    let mut list = List::load(container.duplicate(), &store).unwrap();
    assert_eq!(list.length, 2);
    assert_eq!(list.next(&store), Ok(Some(Scalar::U8(4))));
    assert_eq!(list.next(&store), Ok(Some(Scalar::U8(5))));
    assert_eq!(list.next(&store), Ok(None));
    assert_eq!(list.next(&store), Ok(None));
    let mut again = List::load(container, &store).unwrap();
    assert_eq!(again.next(&store), Ok(Some(Scalar::U8(4))));
}
