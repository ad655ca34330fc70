//! What the archive tells about one entry or one map of content.

use crate::archive::{
    entries_dir,
    holds_entity,
    mocs_dir,
    outcome,
    Archive,
    ArchiveError,
    Failure,
    Home,
};
use crate::entry::{entry_read, EntryRead};
use crate::field::lines;
use crate::moc::{moc_read, MocRead};
use crate::store::{StoreError, Tree};
use vstd::prelude::*;

verus! {

/// The attributes of an entry or of a map of content.
#[derive(Debug, PartialEq, Eq)]
pub struct About {
    pub uid: String,
    /// Day, month, year; a map of content has no date.
    pub date: Option<[u16; 3]>,
    pub title: String,
    pub description: String,
    pub notes: Vec<String>,
    pub tags: Vec<String>,
}

/// The first of the attributes of an entry that cannot be read, if there is
/// one: they are read in the order date, title, description, notes, tags.
pub open spec fn entry_about_error(r: EntryRead) -> Option<StoreError> {
    if r.date is Err {
        Some(r.date->Err_0)
    } else if r.title is Err {
        Some(r.title->Err_0)
    } else if r.description is Err {
        Some(r.description->Err_0)
    } else if r.notes is Err {
        Some(r.notes->Err_0)
    } else if r.tags is Err {
        Some(r.tags->Err_0)
    } else {
        None
    }
}

/// The first of the attributes of a map of content that cannot be read, if
/// there is one: they are read in the order tags, title, description,
/// notes.
pub open spec fn moc_about_error(r: MocRead) -> Option<StoreError> {
    if r.tags is Err {
        Some(r.tags->Err_0)
    } else if r.title is Err {
        Some(r.title->Err_0)
    } else if r.description is Err {
        Some(r.description->Err_0)
    } else if r.notes is Err {
        Some(r.notes->Err_0)
    } else {
        None
    }
}

/// What is told about the entity `uid`, or why nothing is.
pub open spec fn about_failure(archive: Option<Tree>, is_moc: bool, uid: Seq<char>) -> Option<
    Failure,
> {
    match archive {
        None => Some(Failure::NotActive),
        Some(t) => if is_moc {
            if !holds_entity(archive, mocs_dir(), uid) {
                Some(Failure::Store(StoreError::NotFound))
            } else {
                match moc_about_error(moc_read(t, mocs_dir().push(uid))) {
                    Some(e) => Some(Failure::Store(e)),
                    None => None,
                }
            }
        } else {
            if !holds_entity(archive, entries_dir(), uid) {
                Some(Failure::Store(StoreError::NotFound))
            } else {
                match entry_about_error(entry_read(t, entries_dir().push(uid))) {
                    Some(e) => Some(Failure::Store(e)),
                    None => None,
                }
            }
        },
    }
}

/// The attributes of the entry `uid`, or of the map of content `uid` if
/// `is_moc`, as the archive holds them.
pub fn about(archive: &Archive, home: &Home, is_moc: bool, uid: String) -> (r: Result<
    About,
    ArchiveError,
>)
    ensures
        outcome(r) == about_failure(home@.archive, is_moc, uid@),
        r matches Ok(a) ==> a.uid == uid && if is_moc {
            a.date is None && moc_read(home@.archive->0, mocs_dir().push(uid@)) == (MocRead {
                title: Ok(a.title@),
                description: Ok(a.description@),
                notes: Ok(lines(a.notes@)),
                tags: Ok(lines(a.tags@)),
            })
        } else {
            a.date is Some && entry_read(home@.archive->0, entries_dir().push(uid@)) == (EntryRead {
                title: Ok(a.title@),
                description: Ok(a.description@),
                date: Ok((a.date->0[0], a.date->0[1], a.date->0[2])),
                notes: Ok(lines(a.notes@)),
                tags: Ok(lines(a.tags@)),
            })
        },
{
    if home.archive.is_none() {
        return Err(ArchiveError::NotActive);
    }
    if is_moc {
        about_moc(home, archive, uid)
    } else {
        about_entry(home, archive, uid)
    }
}

/// The attributes of the entry `uid`.
fn about_entry(home: &Home, archive: &Archive, uid: String) -> (r: Result<About, ArchiveError>)
    requires
        home.archive is Some,
    ensures
        outcome(r) == about_failure(home@.archive, false, uid@),
        r matches Ok(a) ==> a.uid == uid && a.date is Some && entry_read(
            home@.archive->0,
            entries_dir().push(uid@),
        ) == (EntryRead {
            title: Ok(a.title@),
            description: Ok(a.description@),
            date: Ok((a.date->0[0], a.date->0[1], a.date->0[2])),
            notes: Ok(lines(a.notes@)),
            tags: Ok(lines(a.tags@)),
        }),
{
    let store = match &home.archive {
        Some(s) => s,
        None => {
            return Err(ArchiveError::NotActive);
        },
    };
    let mut entry = match archive.get_entry(home, uid.clone()) {
        Some(e) => e,
        None => {
            return Err(ArchiveError::Store(StoreError::NotFound));
        },
    };
    let date = match entry.date(store) {
        Ok(x) => *x,
        Err(e) => {
            return Err(ArchiveError::Store(e));
        },
    };
    let title = match entry.title(store) {
        Ok(x) => x.clone(),
        Err(e) => {
            return Err(ArchiveError::Store(e));
        },
    };
    let description = match entry.description(store) {
        Ok(x) => x.clone(),
        Err(e) => {
            return Err(ArchiveError::Store(e));
        },
    };
    let notes = match entry.notes(store) {
        Ok(x) => crate::store::copy_strings(x),
        Err(e) => {
            return Err(ArchiveError::Store(e));
        },
    };
    let tags = match entry.tags(store) {
        Ok(x) => crate::store::copy_strings(x),
        Err(e) => {
            return Err(ArchiveError::Store(e));
        },
    };
    Ok(About { uid, date: Some(date), title, description, notes, tags })
}

/// The attributes of the map of content `uid`.
fn about_moc(home: &Home, archive: &Archive, uid: String) -> (r: Result<About, ArchiveError>)
    requires
        home.archive is Some,
    ensures
        outcome(r) == about_failure(home@.archive, true, uid@),
        r matches Ok(a) ==> a.uid == uid && a.date is None && moc_read(
            home@.archive->0,
            mocs_dir().push(uid@),
        ) == (MocRead {
            title: Ok(a.title@),
            description: Ok(a.description@),
            notes: Ok(lines(a.notes@)),
            tags: Ok(lines(a.tags@)),
        }),
{
    let store = match &home.archive {
        Some(s) => s,
        None => {
            return Err(ArchiveError::NotActive);
        },
    };
    let mut moc = match archive.get_moc(home, uid.clone()) {
        Some(e) => e,
        None => {
            return Err(ArchiveError::Store(StoreError::NotFound));
        },
    };
    let tags = match moc.tags(store) {
        Ok(x) => crate::store::copy_strings(x),
        Err(e) => {
            return Err(ArchiveError::Store(e));
        },
    };
    let title = match moc.title(store) {
        Ok(x) => x.clone(),
        Err(e) => {
            return Err(ArchiveError::Store(e));
        },
    };
    let description = match moc.description(store) {
        Ok(x) => x.clone(),
        Err(e) => {
            return Err(ArchiveError::Store(e));
        },
    };
    let notes = match moc.notes(store) {
        Ok(x) => crate::store::copy_strings(x),
        Err(e) => {
            return Err(ArchiveError::Store(e));
        },
    };
    Ok(About { uid, date: None, title, description, notes, tags })
}

} // verus!
