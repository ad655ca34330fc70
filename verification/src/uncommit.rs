//! Taking an entry or a map of content out of the archive.

use crate::archive::{
    entries_dir,
    holds_entity,
    mocs_dir,
    outcome,
    root,
    sorted_dir,
    Archive,
    ArchiveError,
    Failure,
    Home,
    HomeView,
};
use crate::field::{
    begin,
    remove_entry,
    save_datum,
    strings_read,
    text_data,
    then_datum,
    then_list,
    then_remove,
    write_strings,
    Saved,
};
use crate::sort::{read_sorted, remove_uid, sort_in, sorted_tree, without};
use crate::store::{Container, Datum, Scalar, Store, StoreError, Tree};
use vstd::prelude::*;

verus! {

/// The phrase that confirms a removal.
pub open spec fn removal_phrase() -> Seq<char> {
    "mhm, yep, I do wanna remove this entry/moc permanently"@
}

/// The run `s` followed by taking `uid` out of the list of the entries in
/// order.
pub open spec fn then_unlisted(s: Saved, uid: Seq<char>) -> Saved {
    if s.error is Some {
        s
    } else {
        match strings_read(s.tree, sorted_dir()) {
            Err(e) => Saved { tree: s.tree, error: Some(e) },
            Ok(list) => then_list(s, sorted_dir(), text_data(without(list, uid))),
        }
    }
}

/// The writes of a removal: the arrivals are sorted in, the entity is
/// removed with all that it holds; an entry is taken out of the list in
/// order as well, and the version `next` is recorded.
pub open spec fn uncommit_run(t: Tree, uid: Seq<char>, is_moc: bool, next: u16) -> Saved {
    if is_moc {
        then_remove(sorted_tree(t), mocs_dir(), uid)
    } else {
        then_datum(
            then_unlisted(then_remove(sorted_tree(t), entries_dir(), uid), uid),
            root(),
            "itver"@,
            Datum::U16(next),
        )
    }
}

/// What a removal leaves at home, and how it ends.
pub ghost struct Removed {
    pub home: HomeView,
    pub failure: Option<Failure>,
}

/// What the removal of the entity `uid` leaves at the home `home` of an
/// archive of version `itver`, and how it ends. The archive is backed up
/// before anything is removed.
pub open spec fn uncommit_outcome(
    home: HomeView,
    itver: u16,
    uid: Seq<char>,
    is_moc: bool,
    phrase: Seq<char>,
) -> Removed {
    match home.archive {
        None => Removed { home, failure: Some(Failure::NotActive) },
        Some(t) => if !holds_entity(
            home.archive,
            if is_moc {
                mocs_dir()
            } else {
                entries_dir()
            },
            uid,
        ) {
            Removed { home, failure: Some(Failure::Store(StoreError::NotFound)) }
        } else if phrase != removal_phrase() {
            Removed { home, failure: Some(Failure::NotConfirmed) }
        } else if !is_moc && itver == u16::MAX {
            Removed { home, failure: Some(Failure::VersionExhausted) }
        } else {
            Removed {
                home: HomeView {
                    archive: Some(uncommit_run(t, uid, is_moc, (itver + 1) as u16).tree),
                    backup: Some(t),
                },
                failure: match uncommit_run(t, uid, is_moc, (itver + 1) as u16).error {
                    Some(e) => Some(Failure::Store(e)),
                    None => None,
                },
            }
        }
    }
}

/// Takes `uid` out of the list of the entries in order.
fn unlist(store: &mut Store, uid: &String) -> (r: Result<(), StoreError>)
    ensures
        then_unlisted(begin(old(store)@), uid@) == (Saved {
            tree: final(store)@,
            error: r.err(),
        }),
{
    let list = match read_sorted(store) {
        Ok(v) => v,
        Err(e) => {
            return Err(e);
        },
    };
    let rest = remove_uid(list, uid);
    let sorted = Container::root().child("order").child("sorted");
    write_strings(&rest, &sorted, store)
}

/// Makes the writes of a removal.
fn remove_entity(store: &mut Store, uid: &String, is_moc: bool, next: u16) -> (r: Result<
    (),
    StoreError,
>)
    ensures
        uncommit_run(old(store)@, uid@, is_moc, next) == (Saved {
            tree: final(store)@,
            error: r.err(),
        }),
{
    match sort_in(store) {
        Ok(_) => {},
        Err(e) => {
            return Err(e);
        },
    }
    let top = Container::root();
    if is_moc {
        let mocs = top.child("mocs");
        return remove_entry(store, &mocs, uid.as_str());
    }
    let entries = top.child("entries");
    match remove_entry(store, &entries, uid.as_str()) {
        Ok(_) => {},
        Err(e) => {
            return Err(e);
        },
    }
    match unlist(store, uid) {
        Ok(_) => {},
        Err(e) => {
            return Err(e);
        },
    }
    save_datum(store, &top, "itver", Scalar::U16(next))
}

/// Removes the entry or the map of content `uid` from the archive, if
/// `phrase` is the phrase that confirms it. The removal of an entry counts
/// as a new version of the archive.
pub fn uncommmit(archive: &mut Archive, home: &mut Home, uid: String, is_moc: bool, phrase: &str) -> (r:
    Result<(), ArchiveError>)
    ensures
        uncommit_outcome(old(home)@, old(archive).itver, uid@, is_moc, phrase@) == (Removed {
            home: final(home)@,
            failure: outcome(r),
        }),
        final(archive).uid == old(archive).uid,
        final(archive).itver == if r is Ok && !is_moc {
            (old(archive).itver + 1) as u16
        } else {
            old(archive).itver
        },
{
    let found = if is_moc {
        archive.get_moc(home, uid.clone()).is_some()
    } else {
        archive.get_entry(home, uid.clone()).is_some()
    };
    if home.archive.is_none() {
        return Err(ArchiveError::NotActive);
    }
    if !found {
        return Err(ArchiveError::Store(StoreError::NotFound));
    }
    let expected = "mhm, yep, I do wanna remove this entry/moc permanently";
    if phrase.to_string() != expected.to_string() {
        return Err(ArchiveError::NotConfirmed);
    }
    if !is_moc && archive.itver == 65535 {
        return Err(ArchiveError::VersionExhausted);
    }
    let next: u16 = if archive.itver == 65535 {
        0
    } else {
        archive.itver + 1
    };
    let mut store = match home.archive.take() {
        Some(s) => s,
        None => {
            return Err(ArchiveError::NotActive);
        },
    };
    home.backup = Some(store.snapshot());
    let done = remove_entity(&mut store, &uid, is_moc, next);
    home.archive = Some(store);
    match done {
        Ok(_) => {
            if !is_moc {
                archive.itver = next;
            }
            Ok(())
        },
        Err(e) => Err(ArchiveError::Store(e)),
    }
}

} // verus!
