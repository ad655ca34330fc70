use diary_cli::archive::{Archive, ArchiveError, Home};
use diary_cli::document::Files;
use diary_cli::sort::read_sorted;
use diary_cli::store::StoreError;
use diary_cli::uncommit::uncommmit;

const PHRASE: &str = "mhm, yep, I do wanna remove this entry/moc permanently";

fn strings(list: &[&str]) -> Vec<String> {
    list.iter().map(|x| String::from(*x)).collect()
}

fn home_with_two() -> (Archive, Home) {
    let mut home = Home { archive: None, backup: None };
    let mut archive = Archive::init_with(&mut home, 1).unwrap();
    for (uid, date) in [("E1", "2023-08-21"), ("E2", "2023-08-15")] {
        let text = format!(
            "section = []\n[entry]\nuid = '{uid}'\ntitle = 't'\ndescription = 'd'\ntags = []\nnotes = []\ndate = {date}\n"
        );
        archive.commit(&mut home, &text, "e.toml", &Files::none()).unwrap();
    }
    let text = "is-moc = true\ncollection = []\n[moc]\nuid = 'M'\ntitle = 't'\ndescription = 'd'\ngroups = []\nnotes = []\n";
    archive.commit(&mut home, text, "m.toml", &Files::none()).unwrap();
    (archive, home)
}

#[test]
fn uncommit_removes_an_entry_and_unlists_it() {
    let (mut archive, mut home) = home_with_two();
    assert_eq!(uncommmit(&mut archive, &mut home, String::from("E1"), false, PHRASE), Ok(()));
    assert_eq!(archive.itver, 4);
    assert_eq!(Archive::load(&mut home), Ok(Archive { uid: 1, itver: 4 }));
    assert!(archive.get_entry(&home, String::from("E1")).is_none());
    assert!(archive.get_entry(&home, String::from("E2")).is_some());
    assert_eq!(read_sorted(home.archive.as_ref().unwrap()), Ok(strings(&["E2"])));
    let mut before = Home { archive: home.backup, backup: None };
    assert_eq!(Archive::load(&mut before), Ok(Archive { uid: 1, itver: 3 }));
    assert!(archive.get_entry(&before, String::from("E1")).is_some());
}

#[test]
fn uncommit_removes_a_map_without_a_new_version() {
    let (mut archive, mut home) = home_with_two();
    assert_eq!(uncommmit(&mut archive, &mut home, String::from("M"), true, PHRASE), Ok(()));
    assert_eq!(archive.itver, 3);
    assert!(archive.get_moc(&home, String::from("M")).is_none());
    assert_eq!(read_sorted(home.archive.as_ref().unwrap()), Ok(strings(&["E2", "E1"])));
}

#[test]
fn uncommit_is_refused() {
    let (mut archive, mut home) = home_with_two();
    assert_eq!(
        uncommmit(&mut archive, &mut home, String::from("E3"), false, PHRASE),
        Err(ArchiveError::Store(StoreError::NotFound))
    );
    assert_eq!(
        uncommmit(&mut archive, &mut home, String::from("E1"), true, PHRASE),
        Err(ArchiveError::Store(StoreError::NotFound))
    );
    assert_eq!(
        uncommmit(&mut archive, &mut home, String::from("E1"), false, "yes"),
        Err(ArchiveError::NotConfirmed)
    );
    assert!(archive.get_entry(&home, String::from("E1")).is_some());
    assert_eq!(archive.itver, 3);
    let mut nothing = Home { archive: None, backup: None };
    assert_eq!(
        uncommmit(&mut archive, &mut nothing, String::from("E1"), false, PHRASE),
        Err(ArchiveError::NotActive)
    );
}
