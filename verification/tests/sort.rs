use diary_cli::sort::younger;

#[test]
fn sort_is_younger() {
    let date1 = [15, 8, 2023];
    let date2 = [30, 8, 2023];
    assert!(younger(&date2, &date1))
}

#[test]
fn younger_goes_by_year_then_month_then_day() {
    assert!(!younger(&[15, 8, 2023], &[30, 8, 2023]));
    assert!(!younger(&[15, 8, 2023], &[15, 8, 2023]));
    assert!(younger(&[1, 9, 2023], &[30, 8, 2023]));
    assert!(younger(&[1, 1, 2024], &[31, 12, 2023]));
    assert!(younger(&[65535, 65535, 65535], &[65534, 65535, 65535]));
}

fn home_with(entries: &[(&str, &str)]) -> (diary_cli::archive::Archive, diary_cli::archive::Home) {
    let mut home = diary_cli::archive::Home { archive: None, backup: None };
    let mut archive = diary_cli::archive::Archive::init_with(&mut home, 1).unwrap();
    for (uid, date) in entries {
        commit(&mut archive, &mut home, uid, date);
    }
    (archive, home)
}

fn commit(
    archive: &mut diary_cli::archive::Archive,
    home: &mut diary_cli::archive::Home,
    uid: &str,
    date: &str,
) {
    let text = format!(
        "section = []\n[entry]\nuid = '{uid}'\ntitle = 't'\ndescription = 'd'\ntags = []\nnotes = []\ndate = {date}\n"
    );
    archive.commit(home, &text, "e.toml", &diary_cli::document::Files::none()).unwrap();
}

fn lists(home: &diary_cli::archive::Home) -> (Vec<String>, Vec<String>) {
    let store = home.archive.as_ref().unwrap();
    let order = diary_cli::store::Container::root().child("order");
    (
        diary_cli::field::read_strings(&order.child("sorted"), store).unwrap(),
        diary_cli::field::read_strings(&order.child("unsorted"), store).unwrap(),
    )
}

fn strings(list: &[&str]) -> Vec<String> {
    list.iter().map(|x| String::from(*x)).collect()
}

#[test]
fn sort_puts_the_oldest_first() {
    let (_, mut home) = home_with(&[("E1", "2023-08-21"), ("E2", "2023-08-15")]);
    assert_eq!(lists(&home), (vec![], strings(&["E1", "E2"])));
    let store = home.archive.as_mut().unwrap();
    assert_eq!(diary_cli::sort::sort(store), Ok(diary_cli::sort::Sorted::Merged));
    assert_eq!(lists(&home), (strings(&["E2", "E1"]), vec![]));
    assert_eq!(diary_cli::sort::read_sorted(home.archive.as_ref().unwrap()), Ok(strings(&["E2", "E1"])));
}

#[test]
fn sort_of_no_arrivals_does_nothing() {
    let (_, mut home) = home_with(&[("E1", "2023-08-21")]);
    let store = home.archive.as_mut().unwrap();
    assert_eq!(diary_cli::sort::sort(store), Ok(diary_cli::sort::Sorted::Merged));
    assert_eq!(diary_cli::sort::sort(store), Ok(diary_cli::sort::Sorted::Nothing));
    assert_eq!(lists(&home), (strings(&["E1"]), vec![]));
}

#[test]
fn sort_keeps_each_uid_once() {
    let (mut archive, mut home) = home_with(&[("E1", "2023-08-21"), ("E2", "2023-08-15")]);
    diary_cli::sort::sort(home.archive.as_mut().unwrap()).unwrap();
    commit(&mut archive, &mut home, "E2", "2023-09-01");
    commit(&mut archive, &mut home, "E3", "2023-08-21");
    commit(&mut archive, &mut home, "E2", "2023-08-30");
    assert_eq!(lists(&home).1, strings(&["E2", "E3", "E2"]));
    diary_cli::sort::sort(home.archive.as_mut().unwrap()).unwrap();
    assert_eq!(lists(&home), (strings(&["E3", "E1", "E2"]), vec![]));
    diary_cli::sort::sort(home.archive.as_mut().unwrap()).unwrap();
    assert_eq!(lists(&home), (strings(&["E3", "E1", "E2"]), vec![]));
}

#[test]
fn sort_needs_the_dates_of_the_arrivals() {
    let (_, mut home) = home_with(&[("E1", "2023-08-21")]);
    let store = home.archive.as_mut().unwrap();
    store.remove(&diary_cli::store::Container::root().child("entries"), "E1").unwrap();
    assert_eq!(diary_cli::sort::sort(store), Err(diary_cli::store::StoreError::NotFound));
    assert_eq!(lists(&home), (vec![], strings(&["E1"])));
}

#[test]
fn place_goes_before_entries_of_its_date() {
    let (_, home) = home_with(&[("a", "2023-01-01"), ("b", "2023-01-02"), ("c", "2023-01-02")]);
    let store = home.archive.as_ref().unwrap();
    let placed = diary_cli::sort::place(store, strings(&["a", "b"]), String::from("c")).unwrap();
    assert_eq!(placed, strings(&["a", "c", "b"]));
    let placed = diary_cli::sort::place(store, strings(&["b"]), String::from("a")).unwrap();
    assert_eq!(placed, strings(&["a", "b"]));
    let placed = diary_cli::sort::place(store, strings(&["a"]), String::from("b")).unwrap();
    assert_eq!(placed, strings(&["a", "b"]));
    assert_eq!(
        diary_cli::sort::remove_uid(strings(&["a", "b", "a", "c"]), &String::from("a")),
        strings(&["b", "c"])
    );
}
