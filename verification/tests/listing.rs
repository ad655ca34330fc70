use diary_cli::about::{about, About};
use diary_cli::archive::{Archive, ArchiveError, Home};
use diary_cli::document::{Date, Files, Item};
use diary_cli::entry::{wanted_files, Entry, PullError};
use diary_cli::parse::parse_document;
use diary_cli::search::{add_new, collection_members, gather, list_command, Listing, Members};
use diary_cli::store::{Container, Scalar, StoreError};

fn strings(list: &[&str]) -> Vec<String> {
    list.iter().map(|x| String::from(*x)).collect()
}

fn entry_text(uid: &str, date: &str, tags: &str) -> String {
    format!(
        "[entry]\nuid = '{uid}'\ntitle = 'Title {uid}'\ndescription = 'About {uid}'\ntags = {tags}\nnotes = ['n-{uid}']\ndate = {date}\n[[section]]\ntitle = 'S'\nnotes = ['sn']\ncontents = 'text {uid}'\n"
    )
}

fn moc_text(uid: &str, groups: &str, wanted: &str) -> String {
    format!(
        "is-moc = true\n[moc]\nuid = '{uid}'\ntitle = 'Map {uid}'\ndescription = 'About {uid}'\ngroups = {groups}\nnotes = []\n[[collection]]\ntitle = 'C'\nnotes = ['cn']\ninclude = {wanted}\n"
    )
}

fn example() -> (Archive, Home) {
    let mut home = Home { archive: None, backup: None };
    let mut archive = Archive::init_with(&mut home, 1).unwrap();
    let none = Files::none();
    archive.commit(&mut home, &entry_text("late", "2023-08-21", "['x', 'y']"), "e", &none).unwrap();
    archive.commit(&mut home, &entry_text("early", "2023-08-15", "['y', 'z']"), "e", &none).unwrap();
    archive.commit(&mut home, &entry_text("mid", "2023-08-17", "['x']"), "e", &none).unwrap();
    archive.commit(&mut home, &moc_text("m1", "['x', 'w']", "['x']"), "m", &none).unwrap();
    archive.commit(&mut home, &moc_text("m2", "['y']", "['y', 'z']"), "m", &none).unwrap();
    (archive, home)
}

#[test]
fn listing_shows_everything_with_all_tags() {
    let (archive, mut home) = example();
    let listing = list_command(&archive, &mut home, false, true, true, None).unwrap();
    assert_eq!(
        listing,
        Listing {
            tags: strings(&["y", "z", "x", "w"]),
            entries: Some(strings(&["early", "mid", "late"])),
            mocs: Some(strings(&["m1", "m2"])),
        }
    );
    let listing = list_command(&archive, &mut home, false, false, true, None).unwrap();
    assert_eq!(listing.mocs, None);
    assert_eq!(listing.entries, Some(strings(&["early", "mid", "late"])));
}

#[test]
fn listing_searches_for_tags() {
    let (archive, mut home) = example();
    let listing = list_command(&archive, &mut home, true, true, true, Some(strings(&["x", "y"]))).unwrap();
    assert_eq!(
        listing,
        Listing {
            tags: strings(&["x", "y"]),
            entries: Some(strings(&["late"])),
            mocs: Some(vec![]),
        }
    );
    let listing = list_command(&archive, &mut home, false, true, false, Some(strings(&["x", "y"]))).unwrap();
    assert_eq!(
        listing,
        Listing { tags: strings(&["x", "y"]), entries: None, mocs: Some(strings(&["m1", "m2"])) }
    );
}

#[test]
fn listing_needs_an_archive_and_its_entries() {
    let mut nothing = Home { archive: None, backup: None };
    assert_eq!(list_command(&Archive { uid: 1, itver: 0 }, &mut nothing, true, true, true, None), Err(ArchiveError::NotActive));
    let (archive, mut home) = example();
    let store = home.archive.as_mut().unwrap();
    diary_cli::sort::sort(store).unwrap();
    store.remove(&Container::root().child("entries"), "mid").unwrap();
    assert_eq!(
        list_command(&archive, &mut home, true, true, true, None),
        Err(ArchiveError::Store(StoreError::NotFound))
    );
}

#[test]
fn tags_are_gathered_once_each() {
    let mut seen = strings(&["a", "b"]);
    add_new(&mut seen, &strings(&["b", "c", "a", "c", "d"]));
    assert_eq!(seen, strings(&["a", "b", "c", "d"]));
    let (archive, home) = example();
    let store = home.archive.as_ref().unwrap();
    let entries = Container::root().child("entries");
    assert_eq!(
        gather(strings(&["z"]), &strings(&["late", "early"]), &entries, "tags", store),
        Ok(strings(&["z", "x", "y"]))
    );
    assert_eq!(
        gather(vec![], &strings(&["late", "gone"]), &entries, "tags", store),
        Err(StoreError::NotFound)
    );
}

#[test]
fn collection_gathers_by_its_tags() {
    let (archive, home) = example();
    assert_eq!(
        collection_members(&archive, &strings(&["y"]), &home),
        Ok(Members { mocs: strings(&["m2"]), entries: strings(&["early", "late"]) })
    );
    assert_eq!(
        collection_members(&archive, &strings(&["x", "w"]), &home),
        Ok(Members { mocs: strings(&["m1"]), entries: vec![] })
    );
    let nothing = Home { archive: None, backup: None };
    assert_eq!(collection_members(&archive, &strings(&["y"]), &nothing), Err(ArchiveError::NotActive));
}

#[test]
fn about_tells_the_attributes() {
    let (archive, home) = example();
    assert_eq!(
        about(&archive, &home, false, String::from("mid")),
        Ok(About {
            uid: String::from("mid"),
            date: Some([17, 8, 2023]),
            title: String::from("Title mid"),
            description: String::from("About mid"),
            notes: strings(&["n-mid"]),
            tags: strings(&["x"]),
        })
    );
    assert_eq!(
        about(&archive, &home, true, String::from("m1")),
        Ok(About {
            uid: String::from("m1"),
            date: None,
            title: String::from("Map m1"),
            description: String::from("About m1"),
            notes: vec![],
            tags: strings(&["x", "w"]),
        })
    );
    assert_eq!(
        about(&archive, &home, true, String::from("mid")),
        Err(ArchiveError::Store(StoreError::NotFound))
    );
    let nothing = Home { archive: None, backup: None };
    assert_eq!(about(&archive, &nothing, false, String::from("mid")), Err(ArchiveError::NotActive));
}

#[test]
fn entry_is_pulled_as_its_input() {
    let (archive, home) = example();
    let store = home.archive.as_ref().unwrap();
    let mut entry = archive.get_entry(&home, String::from("late")).unwrap();
    let pulled = entry.pull(false, store).unwrap();
    assert!(entry.title.is_none() && entry.sections.is_none());
    assert_eq!(pulled.files, vec![(String::from("section0.txt"), String::from("text late"))]);
    assert_eq!(pulled.document.len(), 2);
    assert_eq!(
        pulled.document[0],
        (
            String::from("entry"),
            Item::Table(vec![
                (String::from("uid"), Item::Text(String::from("late"))),
                (String::from("title"), Item::Text(String::from("Title late"))),
                (String::from("description"), Item::Text(String::from("About late"))),
                (String::from("notes"), Item::Array(vec![Item::Text(String::from("n-late"))])),
                (
                    String::from("tags"),
                    Item::Array(vec![Item::Text(String::from("x")), Item::Text(String::from("y"))])
                ),
                (
                    String::from("date"),
                    Item::Datetime(Some(Date { year: 2023, month: 8, day: 21 }))
                ),
            ])
        )
    );
    assert_eq!(
        pulled.document[1],
        (
            String::from("section"),
            Item::Array(vec![Item::Table(vec![
                (String::from("title"), Item::Text(String::from("S"))),
                (String::from("notes"), Item::Array(vec![Item::Text(String::from("sn"))])),
                (String::from("path"), Item::Text(String::from("section0.txt"))),
            ])])
        )
    );
    let pulled = entry.pull(true, store).unwrap();
    assert_eq!(pulled.files, vec![]);
    let again = Entry::check(&pulled.document, "e", &Files::none()).unwrap();
    assert_eq!(again.uid, "late");
    assert_eq!(again.date, [21, 8, 2023]);
    assert_eq!(again.sections[0].content, "text late");
}

#[test]
fn entry_with_a_date_that_cannot_be_written_is_not_pulled() {
    let (archive, mut home) = example();
    let container = Container::root().child("entries").child("late");
    let store = home.archive.as_mut().unwrap();
    store.write_data(&container, "date", Scalar::U16Array(vec![31, 2, 2023])).unwrap();
    let mut entry = archive.get_entry(&home, String::from("late")).unwrap();
    let store = home.archive.as_ref().unwrap();
    assert_eq!(entry.pull(true, store), Err(PullError::InvalidDate));
    let mut lost = Entry::load_lazy(String::from("lost"), Container::root().child("lost"));
    assert_eq!(lost.pull(true, store), Err(PullError::Store(StoreError::NotFound)));
    assert_eq!(lost.fill_cache(store), Err(StoreError::NotFound));
}

#[test]
fn moc_is_pulled_as_its_input() {
    let (archive, home) = example();
    let store = home.archive.as_ref().unwrap();
    let mut moc = archive.get_moc(&home, String::from("m2")).unwrap();
    moc.fill_cache(store).unwrap();
    assert_eq!(moc.tags, Some(strings(&["y"])));
    assert_eq!(moc.collections.as_ref().unwrap().len(), 1);
    let document = moc.pull(store).unwrap();
    assert!(moc.title.is_none() && moc.collections.is_none());
    assert_eq!(document[0], (String::from("is-moc"), Item::Bool(true)));
    assert_eq!(
        document[2],
        (
            String::from("collection"),
            Item::Array(vec![Item::Table(vec![
                (String::from("title"), Item::Text(String::from("C"))),
                (String::from("notes"), Item::Array(vec![Item::Text(String::from("cn"))])),
                (
                    String::from("include"),
                    Item::Array(vec![Item::Text(String::from("y")), Item::Text(String::from("z"))])
                ),
            ])])
        )
    );
    let mut other = Home { archive: None, backup: None };
    let mut second = Archive::init_with(&mut other, 2).unwrap();
    let text = diary_cli::moc::MOC::check(&document, "m").unwrap();
    assert_eq!(text.uid, "m2");
    assert_eq!(second.commit_document(&mut other, &document, "m", &Files::none()), Ok(()));
    assert!(second.get_moc(&other, String::from("m2")).is_some());
}

#[test]
fn entry_cache_is_filled_from_the_store() {
    let (archive, home) = example();
    let store = home.archive.as_ref().unwrap();
    let mut entry = archive.get_entry(&home, String::from("early")).unwrap();
    entry.title = Some(String::from("cached"));
    entry.fill_cache(store).unwrap();
    assert_eq!(entry.title, Some(String::from("cached")));
    assert_eq!(entry.description, Some(String::from("About early")));
    assert_eq!(entry.date, Some([15, 8, 2023]));
    assert_eq!(entry.tags, Some(strings(&["y", "z"])));
    assert_eq!(entry.notes, Some(strings(&["n-early"])));
    assert_eq!(entry.sections.as_ref().unwrap().len(), 1);
    entry.clear_cache();
    assert_eq!(entry.title(store).unwrap(), "Title early");
}

#[test]
fn files_that_sections_name_are_wanted() {
    let doc = parse_document(
        "[[section]]\npath = 'a.txt'\n[[section]]\ncontents = 'c'\n[[section]]\npath = 7\n[[section]]\npath = 'b.txt'\n",
    )
    .unwrap();
    assert_eq!(wanted_files(&doc), strings(&["a.txt", "b.txt"]));
    assert_eq!(wanted_files(&parse_document("section = 3").unwrap()), Vec::<String>::new());
    assert_eq!(wanted_files(&parse_document("").unwrap()), Vec::<String>::new());
}

#[test]
fn store_lists_its_scalars() {
    let (archive, home) = example();
    let store = home.archive.as_ref().unwrap();
    let mut keys = store.data_keys(&Container::root());
    keys.sort();
    assert_eq!(keys, strings(&["itver", "uid"]));
    let mut dirs = store.children(&Container::root());
    dirs.sort();
    assert_eq!(dirs, strings(&["entries", "mocs", "order"]));
}
