use diary_cli::archive::{Archive, ArchiveError, Home, Loaded, Wiped};
use diary_cli::document::{Field, Files, Invalid, Problem};
use diary_cli::entry::Section;
use diary_cli::field::read_strings;
use diary_cli::store::{Container, Scalar, Store, StoreError};

const WIPE: &str = "I, as the user, confirm that I fully understand that I am wiping my ENTIRE archive and that this action is permanent and irreversible";

fn empty_home() -> Home {
    Home { archive: None, backup: None }
}

fn entry_text(uid: &str, date: &str) -> String {
    format!(
        "
        [entry]
        uid = '{uid}'
        title = 'Title of {uid}'
        description = 'About {uid}'
        tags = [ 'x', '{uid}' ]
        notes = [ 'note' ]
        date = {date}

        [[section]]
        title = 'Only'
        notes = [ 's-note' ]
        contents = 'text of {uid}'
    "
    )
}

fn moc_text(uid: &str) -> String {
    format!(
        "
        is-moc = true

        [moc]
        uid = '{uid}'
        title = 'Map {uid}'
        description = 'About {uid}'
        groups = [ 'y' ]
        notes = []

        [[collection]]
        title = 'All'
        notes = []
        include = [ 'x' ]
    "
    )
}

fn unsorted(home: &Home) -> Vec<String> {
    let list = Container::root().child("order").child("unsorted");
    read_strings(&list, home.archive.as_ref().unwrap()).unwrap()
}

fn stored_itver(store: &Store) -> u16 {
    store.read_data(&Container::root(), "itver").unwrap().collect_u16().unwrap()
}

#[test]
fn archive_starts_with_version_zero_and_empty_lists() {
    let mut home = empty_home();
    let archive = Archive::init_with(&mut home, 42).unwrap();
    assert_eq!(archive, Archive { uid: 42, itver: 0 });
    let store = home.archive.as_ref().unwrap();
    assert_eq!(store.read_data(&Container::root(), "uid"), Ok(&Scalar::U64(42)));
    assert_eq!(stored_itver(store), 0);
    let order = Container::root().child("order");
    assert_eq!(read_strings(&order.child("sorted"), store), Ok(vec![]));
    assert_eq!(read_strings(&order.child("unsorted"), store), Ok(vec![]));
    assert!(home.backup.is_none());
    assert_eq!(Archive::load_dir(store), Ok(Archive { uid: 42, itver: 0 }));
}

#[test]
fn archive_is_not_made_twice() {
    let mut home = empty_home();
    Archive::init(&mut home).unwrap();
    assert_eq!(Archive::init(&mut home), Err(ArchiveError::AlreadyExists));
    assert_eq!(Archive::init_with(&mut home, 1), Err(ArchiveError::AlreadyExists));
}

#[test]
fn archive_load_makes_one_where_there_is_none() {
    let mut home = empty_home();
    let made = Archive::load(&mut home).unwrap();
    assert_eq!(made.itver, 0);
    let again = Archive::load(&mut home).unwrap();
    assert_eq!(again, made);
    let mut other = empty_home();
    assert_eq!(Archive::load_with(&mut other, 5), Ok(Archive { uid: 5, itver: 0 }));
    assert_eq!(Archive::load_with(&mut other, 6), Ok(Archive { uid: 5, itver: 0 }));
}

#[test]
fn archive_load_needs_an_identity() {
    let mut store = Store::new();
    assert_eq!(Archive::load_dir(&store), Err(ArchiveError::Store(StoreError::NotFound)));
    store.write_data(&Container::root(), "uid", Scalar::U16(1)).unwrap();
    assert_eq!(Archive::load_dir(&store), Err(ArchiveError::Store(StoreError::WrongType)));
    store.write_data(&Container::root(), "uid", Scalar::U64(1)).unwrap();
    assert_eq!(Archive::load_dir(&store), Err(ArchiveError::Store(StoreError::NotFound)));
    store.write_data(&Container::root(), "itver", Scalar::U16(9)).unwrap();
    assert_eq!(Archive::load_dir(&store), Ok(Archive { uid: 1, itver: 9 }));
}

#[test]
fn commit_is_read_back_after_load() {
    let mut home = empty_home();
    let mut archive = Archive::init_with(&mut home, 7).unwrap();
    archive.commit(&mut home, &entry_text("e1", "2023-08-21"), "e1.toml", &Files::none()).unwrap();
    assert_eq!(archive.itver, 1);

    let loaded = Archive::load(&mut home).unwrap();
    assert_eq!(loaded, Archive { uid: 7, itver: 1 });
    let store = home.archive.as_ref().unwrap();
    let mut entry = loaded.get_entry(&home, String::from("e1")).unwrap();
    assert_eq!(entry.title(store).unwrap(), "Title of e1");
    assert_eq!(entry.description(store).unwrap(), "About e1");
    assert_eq!(entry.date(store).unwrap(), &[21, 8, 2023]);
    assert_eq!(entry.tags(store).unwrap(), &vec![String::from("x"), String::from("e1")]);
    assert_eq!(entry.notes(store).unwrap(), &vec![String::from("note")]);
    let handle = entry.sections(store).unwrap()[0].container.duplicate();
    let mut section = Section::load_lazy(handle);
    assert_eq!(section.title(store).unwrap(), "Only");
    assert_eq!(section.content(store).unwrap(), "text of e1");
    assert_eq!(section.notes(store).unwrap(), &vec![String::from("s-note")]);
    assert_eq!(unsorted(&home), vec![String::from("e1")]);
    assert!(loaded.get_entry(&home, String::from("e2")).is_none());
}

#[test]
fn commit_counts_versions_and_arrivals() {
    let mut home = empty_home();
    let mut archive = Archive::init_with(&mut home, 7).unwrap();
    archive.commit(&mut home, &entry_text("e1", "2023-08-21"), "e1.toml", &Files::none()).unwrap();
    archive.commit(&mut home, &moc_text("m1"), "m1.toml", &Files::none()).unwrap();
    archive.commit(&mut home, &entry_text("e2", "2023-08-15"), "e2.toml", &Files::none()).unwrap();
    assert_eq!(archive.itver, 3);
    assert_eq!(stored_itver(home.archive.as_ref().unwrap()), 3);
    assert_eq!(unsorted(&home), vec![String::from("e1"), String::from("e2")]);
    assert!(archive.get_moc(&home, String::from("m1")).is_some());
    assert!(archive.get_moc(&home, String::from("e1")).is_none());
    assert!(archive.get_entry(&home, String::from("m1")).is_none());
    let mut entries: Vec<String> =
        archive.list_entries(&home).into_iter().map(|e| e.uid).collect();
    entries.sort();
    assert_eq!(entries, vec![String::from("e1"), String::from("e2")]);
    let mocs: Vec<String> = archive.list_mocs(&home).into_iter().map(|m| m.uid).collect();
    assert_eq!(mocs, vec![String::from("m1")]);
    assert!(archive.database_exists(&home, &Container::root().child("entries"), "e2"));
    assert!(!archive.database_exists(&home, &Container::root().child("entries"), "e3"));
    assert!(archive.database(&home).is_some());
}

#[test]
fn commit_needs_an_archive() {
    let mut home = empty_home();
    let mut archive = Archive { uid: 1, itver: 0 };
    let result = archive.commit(&mut home, &entry_text("e1", "2023-08-21"), "e", &Files::none());
    assert_eq!(result, Err(ArchiveError::NotActive));
    assert!(home.archive.is_none() && home.backup.is_none());
    assert!(archive.list_entries(&home).is_empty());
    assert!(archive.database(&home).is_none());
    assert!(matches!(Archive::backup(&home), Err(ArchiveError::NotActive)));
}

#[test]
fn commit_of_bad_input_leaves_the_archive_and_a_backup() {
    let mut home = empty_home();
    let mut archive = Archive::init_with(&mut home, 7).unwrap();
    let result = archive.commit(&mut home, "this is = not toml =", "e.toml", &Files::none());
    assert_eq!(result, Err(ArchiveError::Syntax));
    assert_eq!(archive.itver, 0);
    assert!(home.backup.is_some());
    let result = archive.commit(&mut home, "is-moc = 'yes'", "e.toml", &Files::none());
    assert_eq!(
        result,
        Err(ArchiveError::Invalid(Invalid {
            entity: String::from("e.toml"),
            part: None,
            field: Field::IsMoc,
            problem: Problem::Mistyped,
        }))
    );
    let result = archive.commit(&mut home, "[entry]\nuid = 'u'", "e.toml", &Files::none());
    assert!(matches!(result, Err(ArchiveError::Invalid(_))));
    assert_eq!(stored_itver(home.archive.as_ref().unwrap()), 0);
    assert!(archive.list_entries(&home).is_empty());
    assert_eq!(Archive::rollback(&mut home), Ok(Loaded::SameAge));
}

#[test]
fn commit_stops_at_the_last_version() {
    let mut home = empty_home();
    Archive::init_with(&mut home, 7).unwrap();
    let mut archive = Archive { uid: 7, itver: 65535 };
    let result = archive.commit(&mut home, &entry_text("e1", "2023-08-21"), "e", &Files::none());
    assert_eq!(result, Err(ArchiveError::VersionExhausted));
    assert!(home.backup.is_none());
}

#[test]
fn backup_of_another_archive_is_refused() {
    let mut home = empty_home();
    let mut archive = Archive::init_with(&mut home, 7).unwrap();
    archive.commit(&mut home, &entry_text("e1", "2023-08-21"), "e1.toml", &Files::none()).unwrap();
    let mut foreign = empty_home();
    let mut other = Archive::init_with(&mut foreign, 8).unwrap();
    other.commit(&mut foreign, &entry_text("f1", "2023-08-21"), "f", &Files::none()).unwrap();
    other.commit(&mut foreign, &entry_text("f2", "2023-08-21"), "f", &Files::none()).unwrap();
    let result = Archive::load_backup(&mut home, foreign.archive);
    assert_eq!(result, Err(ArchiveError::IdentityMismatch));
    assert_eq!(Archive::load(&mut home), Ok(Archive { uid: 7, itver: 1 }));
    assert!(archive.get_entry(&home, String::from("e1")).is_some());
    assert!(archive.get_entry(&home, String::from("f1")).is_none());
}

#[test]
fn backup_is_loaded_by_age() {
    let mut home = empty_home();
    let mut archive = Archive::init_with(&mut home, 7).unwrap();
    let old = Archive::backup(&home).unwrap();
    archive.commit(&mut home, &entry_text("e1", "2023-08-21"), "e1.toml", &Files::none()).unwrap();
    let same = Archive::backup(&home).unwrap();
    archive.commit(&mut home, &entry_text("e2", "2023-08-21"), "e2.toml", &Files::none()).unwrap();
    let newer = Archive::backup(&home).unwrap();

    let mut at_one = Home { archive: Some(same.snapshot()), backup: None };
    assert_eq!(Archive::load_backup(&mut at_one, Some(old)), Err(ArchiveError::VersionRegression));
    assert_eq!(Archive::load(&mut at_one), Ok(Archive { uid: 7, itver: 1 }));
    assert!(archive.get_entry(&at_one, String::from("e1")).is_some());

    assert_eq!(Archive::load_backup(&mut at_one, Some(same)), Ok(Loaded::SameAge));
    assert_eq!(Archive::load(&mut at_one), Ok(Archive { uid: 7, itver: 1 }));

    assert_eq!(Archive::load_backup(&mut at_one, Some(newer)), Ok(Loaded::Newer));
    assert_eq!(Archive::load(&mut at_one), Ok(Archive { uid: 7, itver: 2 }));
    assert!(archive.get_entry(&at_one, String::from("e2")).is_some());

    assert_eq!(Archive::load_backup(&mut at_one, None), Err(ArchiveError::NoBackup));
}

#[test]
fn backup_is_loaded_where_there_is_no_archive() {
    let mut home = empty_home();
    Archive::init_with(&mut home, 7).unwrap();
    let copy = Archive::backup(&home).unwrap();
    let mut fresh = empty_home();
    assert_eq!(Archive::load_backup(&mut fresh, Some(copy)), Ok(Loaded::Fresh));
    assert_eq!(Archive::load(&mut fresh), Ok(Archive { uid: 7, itver: 0 }));
}

#[test]
fn rollback_does_not_undo_a_commit() {
    let mut home = empty_home();
    assert_eq!(Archive::rollback(&mut home), Err(ArchiveError::NoBackup));
    let mut archive = Archive::init_with(&mut home, 7).unwrap();
    assert_eq!(Archive::rollback(&mut home), Err(ArchiveError::NoBackup));
    archive.commit(&mut home, &entry_text("e1", "2023-08-21"), "e1.toml", &Files::none()).unwrap();
    assert_eq!(Archive::rollback(&mut home), Ok(Loaded::SameAge));
    assert_eq!(Archive::load(&mut home), Ok(Archive { uid: 7, itver: 1 }));
    assert!(archive.get_entry(&home, String::from("e1")).is_some());
}

#[test]
fn rollback_undoes_what_was_written_since_the_backup() {
    let mut home = empty_home();
    let mut archive = Archive::init_with(&mut home, 7).unwrap();
    archive.commit(&mut home, &entry_text("e1", "2023-08-21"), "e1.toml", &Files::none()).unwrap();
    let store = home.archive.as_mut().unwrap();
    store.remove(&Container::root().child("entries"), "e1").unwrap();
    assert!(archive.get_entry(&home, String::from("e1")).is_none());
    assert_eq!(Archive::rollback(&mut home), Ok(Loaded::SameAge));
    assert!(archive.get_entry(&home, String::from("e1")).is_some());
}

#[test]
fn wipe_needs_the_phrase() {
    let mut home = empty_home();
    let archive = Archive::init_with(&mut home, 7).unwrap();
    assert_eq!(archive.wipe(&mut home, "yes"), Err(ArchiveError::NotConfirmed));
    assert!(home.archive.is_some());
    let archive = Archive::load(&mut home).unwrap();
    assert_eq!(archive.wipe(&mut home, WIPE), Ok(Wiped::Deleted));
    assert!(home.archive.is_none());
    let archive = Archive { uid: 7, itver: 0 };
    assert_eq!(archive.wipe(&mut home, WIPE), Ok(Wiped::Nothing));
}
