use diary_cli::archive::{Archive, Home};
use diary_cli::document::Files;
use diary_cli::entry::Entry;
use diary_cli::search::{has_string, search, search_strict};
use diary_cli::store::{Container, Store, StoreError};

fn strings(list: &[&str]) -> Vec<String> {
    list.iter().map(|x| String::from(*x)).collect()
}

fn home_with(entries: &[(&str, &str)]) -> (Archive, Home) {
    let mut home = Home { archive: None, backup: None };
    let mut archive = Archive::init_with(&mut home, 1).unwrap();
    for (uid, tags) in entries {
        let text = format!(
            "section = []\n[entry]\nuid = '{uid}'\ntitle = 't'\ndescription = 'd'\ntags = {tags}\nnotes = []\ndate = 2023-01-01\n"
        );
        archive.commit(&mut home, &text, "e.toml", &Files::none()).unwrap();
    }
    (archive, home)
}

fn items(archive: &Archive, home: &Home, uids: &[&str]) -> Vec<Entry> {
    uids.iter().map(|uid| archive.get_entry(home, String::from(*uid)).unwrap()).collect()
}

const ALL: [(&str, &str); 4] =
    [("both", "['x', 'y']"), ("only-x", "['x']"), ("none", "['z']"), ("more", "['y', 'w', 'x']")];

#[test]
fn search_strict_wants_every_tag() {
    let (archive, home) = home_with(&ALL);
    let store = home.archive.as_ref().unwrap();
    let list = items(&archive, &home, &["both", "only-x", "none", "more"]);
    assert_eq!(search_strict(&strings(&["x", "y"]), list, store), Ok(strings(&["both", "more"])));
}

#[test]
fn search_wants_one_tag() {
    let (archive, home) = home_with(&ALL);
    let store = home.archive.as_ref().unwrap();
    let list = items(&archive, &home, &["none", "more", "only-x", "both"]);
    assert_eq!(
        search(&strings(&["x", "y"]), list, store),
        Ok(strings(&["more", "only-x", "both"]))
    );
}

#[test]
fn search_of_no_items_finds_nothing() {
    let store = Store::new();
    assert_eq!(search_strict(&strings(&["x", "y"]), Vec::<Entry>::new(), &store), Ok(vec![]));
    assert_eq!(search(&strings(&["x", "y"]), Vec::<Entry>::new(), &store), Ok(vec![]));
}

#[test]
fn search_for_no_tags() {
    let (archive, home) = home_with(&ALL);
    let store = home.archive.as_ref().unwrap();
    let list = items(&archive, &home, &["both", "none"]);
    assert_eq!(search_strict(&vec![], list, store), Ok(strings(&["both", "none"])));
    let list = items(&archive, &home, &["both", "none"]);
    assert_eq!(search(&vec![], list, store), Ok(vec![]));
}

#[test]
fn search_needs_the_tags_of_the_items() {
    let (archive, home) = home_with(&ALL);
    let store = home.archive.as_ref().unwrap();
    let mut list = items(&archive, &home, &["both"]);
    list.push(Entry::load_lazy(String::from("lost"), Container::root().child("lost")));
    assert_eq!(search(&strings(&["x"]), list, store), Err(StoreError::NotFound));
    let lost = vec![Entry::load_lazy(String::from("lost"), Container::root().child("lost"))];
    assert_eq!(search_strict(&vec![], lost, store), Ok(strings(&["lost"])));
}

#[test]
fn search_over_maps_of_content() {
    let mut home = Home { archive: None, backup: None };
    let mut archive = Archive::init_with(&mut home, 1).unwrap();
    for (uid, groups) in [("m1", "['x']"), ("m2", "['y']")] {
        let text = format!(
            "is-moc = true\ncollection = []\n[moc]\nuid = '{uid}'\ntitle = 't'\ndescription = 'd'\ngroups = {groups}\nnotes = []\n"
        );
        archive.commit(&mut home, &text, "m.toml", &Files::none()).unwrap();
    }
    let store = home.archive.as_ref().unwrap();
    let mocs = vec![
        archive.get_moc(&home, String::from("m1")).unwrap(),
        archive.get_moc(&home, String::from("m2")).unwrap(),
    ];
    assert_eq!(search(&strings(&["y", "q"]), mocs, store), Ok(strings(&["m2"])));
}

#[test]
fn has_string_finds_members() {
    assert!(has_string(&strings(&["a", "b"]), &String::from("b")));
    assert!(!has_string(&strings(&["a", "b"]), &String::from("c")));
    assert!(!has_string(&vec![], &String::from("c")));
}
