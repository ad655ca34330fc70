//! The archive: its identity and version, commits, backups and rollback.

use crate::document::{find, invalid, lookup, top, Field, Files, Flaw, Invalid, Item, Problem};
use crate::entry::{
    entry_checked,
    entry_read,
    entry_read_of,
    entry_stored,
    lemma_entry_read_back,
    lemma_entry_section_read_back,
    section_paths,
    sections_at,
    Entry,
    EntryData,
    EntryFields,
};
use crate::field::{
    begin,
    lemma_then_open,
    open_dir,
    push_text,
    save_datum,
    then_datum,
    then_open,
    then_push,
    Saved,
};
use crate::keys::{index_key, length_key};
use crate::list::{lemma_child_below, list_read};
use crate::moc::{moc_checked, moc_stored, MOC, MocData, MocFields};
use crate::parse::{parse_document, parsed_toml};
use crate::store::{
    as_u16,
    as_u64,
    below,
    child_dirs,
    datum_at,
    lemma_under_child,
    names,
    under,
    Container,
    Datum,
    Path,
    Scalar,
    Slot,
    Store,
    StoreError,
    Tree,
};
use std::collections::hash_map::RandomState;
use std::hash::{BuildHasher, Hasher};
use vstd::prelude::*;

verus! {

/// What is kept at the archive's home: the archive itself, if there is one,
/// and the backup that the last commit left, if there is one.
pub struct Home {
    pub archive: Option<Store>,
    pub backup: Option<Store>,
}

/// The mathematical value of a [`Home`].
pub ghost struct HomeView {
    pub archive: Option<Tree>,
    pub backup: Option<Tree>,
}

/// What a store that may be absent holds.
pub open spec fn tree_in(slot: Option<Store>) -> Option<Tree> {
    match slot {
        Some(s) => Some(s@),
        None => None,
    }
}

impl View for Home {
    type V = HomeView;

    open spec fn view(&self) -> HomeView {
        HomeView { archive: tree_in(self.archive), backup: tree_in(self.backup) }
    }
}

/// An active archive: its identity, which never changes, and its version,
/// which grows by one with every commit.
#[derive(Debug, PartialEq, Eq)]
pub struct Archive {
    pub uid: u64,
    pub itver: u16,
}

/// Why an operation on the archive did not succeed.
#[derive(Debug, PartialEq, Eq)]
pub enum ArchiveError {
    /// There is an archive already.
    AlreadyExists,
    /// There is no archive.
    NotActive,
    /// There is no backup to load.
    NoBackup,
    /// The backup is that of another archive.
    IdentityMismatch,
    /// The backup is older than the archive.
    VersionRegression,
    /// The version cannot grow any further.
    VersionExhausted,
    /// The phrase that confirms the deletion was not given.
    NotConfirmed,
    /// The input is not a document.
    Syntax,
    /// The input is not valid.
    Invalid(Invalid),
    /// The store refused an operation.
    Store(StoreError),
}

/// The mathematical value of an [`ArchiveError`].
pub ghost enum Failure {
    AlreadyExists,
    NotActive,
    NoBackup,
    IdentityMismatch,
    VersionRegression,
    VersionExhausted,
    NotConfirmed,
    Syntax,
    Invalid(Flaw),
    Store(StoreError),
}

impl View for ArchiveError {
    type V = Failure;

    open spec fn view(&self) -> Failure {
        match self {
            ArchiveError::AlreadyExists => Failure::AlreadyExists,
            ArchiveError::NotActive => Failure::NotActive,
            ArchiveError::NoBackup => Failure::NoBackup,
            ArchiveError::IdentityMismatch => Failure::IdentityMismatch,
            ArchiveError::VersionRegression => Failure::VersionRegression,
            ArchiveError::VersionExhausted => Failure::VersionExhausted,
            ArchiveError::NotConfirmed => Failure::NotConfirmed,
            ArchiveError::Syntax => Failure::Syntax,
            ArchiveError::Invalid(e) => Failure::Invalid(e@),
            ArchiveError::Store(e) => Failure::Store(*e),
        }
    }
}

/// How a result ended: well, or with which failure.
pub open spec fn outcome<T>(r: Result<T, ArchiveError>) -> Option<Failure> {
    match r {
        Ok(_) => None,
        Err(e) => Some(e@),
    }
}

/// How a backup that was loaded relates to the archive that it replaced.
#[derive(Debug, Clone, Copy, PartialEq, Eq)]
pub enum Loaded {
    /// There was no archive before.
    Fresh,
    /// The backup is as old as the archive was: worth a warning.
    SameAge,
    /// The backup is newer than the archive was.
    Newer,
}

/// What a wipe did.
#[derive(Debug, Clone, Copy, PartialEq, Eq)]
pub enum Wiped {
    /// The archive was deleted.
    Deleted,
    /// There was no archive: worth a warning.
    Nothing,
}

/// The root container.
pub open spec fn root() -> Path {
    Seq::empty()
}

/// The container of the entries.
pub open spec fn entries_dir() -> Path {
    root().push("entries"@)
}

/// The container of the maps of content.
pub open spec fn mocs_dir() -> Path {
    root().push("mocs"@)
}

/// The container of the two lists of entry uids.
pub open spec fn order_dir() -> Path {
    root().push("order"@)
}

/// The list of the entries in order of their dates.
pub open spec fn sorted_dir() -> Path {
    order_dir().push("sorted"@)
}

/// The list of the entries that arrived since the last sort.
pub open spec fn unsorted_dir() -> Path {
    order_dir().push("unsorted"@)
}

/// The uid and the version that a store records.
pub open spec fn identity(t: Tree) -> Result<(u64, u16), StoreError> {
    match datum_at(t, root(), "uid"@) {
        Err(e) => Err(e),
        Ok(d) => match as_u64(d) {
            Err(e) => Err(e),
            Ok(uid) => match datum_at(t, root(), "itver"@) {
                Err(e) => Err(e),
                Ok(v) => match as_u16(v) {
                    Err(e) => Err(e),
                    Ok(itver) => Ok((uid, itver)),
                },
            },
        },
    }
}

/// The writes that make a new archive with the identity `uid`.
pub open spec fn initial_run(uid: u64) -> Saved {
    then_datum(
        then_open(
            then_open(
                then_datum(
                    then_open(
                        then_open(
                            then_datum(
                                then_datum(
                                    begin(Map::<Path, Slot>::empty()),
                                    root(),
                                    "uid"@,
                                    Datum::U64(uid),
                                ),
                                root(),
                                "itver"@,
                                Datum::U16(0),
                            ),
                            root(),
                            "order"@,
                        ),
                        order_dir(),
                        "sorted"@,
                    ),
                    sorted_dir(),
                    length_key(),
                    Datum::U16(0),
                ),
                root(),
                "order"@,
            ),
            order_dir(),
            "unsorted"@,
        ),
        unsorted_dir(),
        length_key(),
        Datum::U16(0),
    )
}

/// What a new archive with the identity `uid` holds.
pub open spec fn initial(uid: u64) -> Tree {
    initial_run(uid).tree
}

/// The names of the top of an archive differ from each other.
pub proof fn lemma_top_keys()
    ensures
        "uid"@ != "itver"@,
        "uid"@ != "order"@,
        "uid"@ != "entries"@,
        "uid"@ != "mocs"@,
        "itver"@ != "order"@,
        "itver"@ != "entries"@,
        "itver"@ != "mocs"@,
        "order"@ != "entries"@,
        "order"@ != "mocs"@,
        "entries"@ != "mocs"@,
        "sorted"@ != "unsorted"@,
{
    reveal_strlit("uid");
    reveal_strlit("itver");
    reveal_strlit("order");
    reveal_strlit("entries");
    reveal_strlit("mocs");
    reveal_strlit("sorted");
    reveal_strlit("unsorted");
    assert("uid"@.len() == 3 && "itver"@.len() == 5 && "order"@.len() == 5);
    assert("entries"@.len() == 7 && "mocs"@.len() == 4);
    assert("sorted"@.len() == 6 && "unsorted"@.len() == 8);
    assert("itver"@[0] == 'i' && "order"@[0] == 'o');
}

/// A new archive is made without an error; it records its identity and the
/// version 0, and its two lists are empty.
pub proof fn lemma_initial(uid: u64)
    ensures
        initial_run(uid).error is None,
        identity(initial(uid)) == Ok::<(u64, u16), StoreError>((uid, 0)),
        list_read(initial(uid), sorted_dir()) == Ok::<Seq<Datum>, StoreError>(Seq::empty()),
        list_read(initial(uid), unsorted_dir()) == Ok::<Seq<Datum>, StoreError>(Seq::empty()),
{
    lemma_top_keys();
    lemma_child_below(root(), "uid"@);
    lemma_child_below(root(), "itver"@);
    lemma_child_below(root(), "order"@);
    lemma_child_below(order_dir(), "sorted"@);
    lemma_child_below(order_dir(), "unsorted"@);
    lemma_child_below(sorted_dir(), length_key());
    lemma_child_below(unsorted_dir(), length_key());
    let s1 = then_datum(begin(Map::<Path, Slot>::empty()), root(), "uid"@, Datum::U64(uid));
    let s2 = then_datum(s1, root(), "itver"@, Datum::U16(0));
    let s3 = then_open(s2, root(), "order"@);
    let s4 = then_open(s3, order_dir(), "sorted"@);
    let s5 = then_datum(s4, sorted_dir(), length_key(), Datum::U16(0));
    let s6 = then_open(s5, root(), "order"@);
    let s7 = then_open(s6, order_dir(), "unsorted"@);
    let s8 = then_datum(s7, unsorted_dir(), length_key(), Datum::U16(0));
    assert(s1.error is None);
    assert(s2.error is None);
    assert(s3.error is None);
    assert(s4.error is None);
    assert(s5.error is None);
    assert(s6.error is None);
    assert(s7.error is None);
    assert(s8.error is None);
    assert(s8 == initial_run(uid));
    assert(list_read(s8.tree, sorted_dir()) == Ok::<Seq<Datum>, StoreError>(Seq::empty()));
    assert(list_read(s8.tree, unsorted_dir()) == Ok::<Seq<Datum>, StoreError>(Seq::empty()));
}

/// `RandomState::new`, `BuildHasher::build_hasher` and `Hasher::finish` of
/// the standard library: a number that differs from one call to the next.
/// Nothing is claimed of it.
#[verifier::external_body]
fn fresh_uid() -> u64 {
    RandomState::new().build_hasher().finish()
}

/// Whether a backup may replace the archive, and how the two relate.
pub open spec fn backup_verdict(active: Option<Tree>, candidate: Option<Tree>) -> Result<
    Loaded,
    Failure,
> {
    match candidate {
        None => Err(Failure::NoBackup),
        Some(c) => match active {
            None => Ok(Loaded::Fresh),
            Some(a) => match identity(a) {
                Err(e) => Err(Failure::Store(e)),
                Ok((uid, itver)) => match identity(c) {
                    Err(e) => Err(Failure::Store(e)),
                    Ok((new_uid, new_itver)) => if new_uid != uid {
                        Err(Failure::IdentityMismatch)
                    } else if new_itver < itver {
                        Err(Failure::VersionRegression)
                    } else if new_itver == itver {
                        Ok(Loaded::SameAge)
                    } else {
                        Ok(Loaded::Newer)
                    },
                },
            },
        },
    }
}

/// What a valid input asks to store.
pub ghost enum Plan {
    Entry(EntryData),
    Moc(MocData),
}

/// Whether the document describes a map of content: its `is-moc`, which is
/// false where it is absent.
pub open spec fn wants_moc(doc: Seq<(String, Item)>) -> Result<bool, Problem> {
    match lookup(doc, "is-moc"@) {
        None => Ok(false),
        Some(Item::Bool(b)) => Ok(b),
        Some(_) => Err(Problem::Mistyped),
    }
}

/// What the document asks to store, or the first thing that is wrong with
/// it.
pub open spec fn planned(
    doc: Seq<(String, Item)>,
    entity: Seq<char>,
    files: Seq<(String, String)>,
) -> Result<Plan, Flaw> {
    match wants_moc(doc) {
        Err(p) => Err(top(entity, Field::IsMoc, p)),
        Ok(true) => match moc_checked(doc, entity) {
            Ok(d) => Ok(Plan::Moc(d)),
            Err(f) => Err(f),
        },
        Ok(false) => match entry_checked(doc, entity, files) {
            Ok(d) => Ok(Plan::Entry(d)),
            Err(f) => Err(f),
        },
    }
}

/// The run `s` followed by storing an entry under its uid in `db`.
pub open spec fn then_entry_stored(s: Saved, db: Path, d: EntryData) -> Saved {
    if s.error is Some {
        s
    } else {
        entry_stored(s.tree, db, d)
    }
}

/// The run `s` followed by storing a map of content under its uid in `db`.
pub open spec fn then_moc_stored(s: Saved, db: Path, d: MocData) -> Saved {
    if s.error is Some {
        s
    } else {
        moc_stored(s.tree, db, d)
    }
}

/// The writes of a commit: the entity is stored, an entry's uid is appended
/// to the list of arrivals, and the version `next` is recorded.
pub open spec fn commit_run(t: Tree, plan: Plan, next: u16) -> Saved {
    match plan {
        Plan::Entry(d) => then_datum(
            then_push(
                then_open(
                    then_open(
                        then_entry_stored(
                            then_open(begin(t), root(), "entries"@),
                            entries_dir(),
                            d,
                        ),
                        root(),
                        "order"@,
                    ),
                    order_dir(),
                    "unsorted"@,
                ),
                unsorted_dir(),
                Datum::Text(d.uid),
            ),
            root(),
            "itver"@,
            Datum::U16(next),
        ),
        Plan::Moc(d) => then_datum(
            then_moc_stored(then_open(begin(t), root(), "mocs"@), mocs_dir(), d),
            root(),
            "itver"@,
            Datum::U16(next),
        ),
    }
}

/// What a commit leaves at home, and how it ends.
pub ghost struct Committed {
    pub home: HomeView,
    pub failure: Option<Failure>,
}

/// What the commit of a document leaves at the home `home` of an archive of
/// version `itver`, and how it ends. Before anything is written the archive
/// is backed up; after a commit that succeeded it is backed up again.
pub open spec fn commit_outcome(
    home: HomeView,
    itver: u16,
    doc: Seq<(String, Item)>,
    entity: Seq<char>,
    files: Seq<(String, String)>,
) -> Committed {
    match home.archive {
        None => Committed { home, failure: Some(Failure::NotActive) },
        Some(t) => if itver == u16::MAX {
            Committed { home, failure: Some(Failure::VersionExhausted) }
        } else {
            match planned(doc, entity, files) {
                Err(flaw) => Committed {
                    home: HomeView { archive: Some(t), backup: Some(t) },
                    failure: Some(Failure::Invalid(flaw)),
                },
                Ok(plan) => match commit_run(t, plan, (itver + 1) as u16).error {
                    Some(e) => Committed {
                        home: HomeView {
                            archive: Some(commit_run(t, plan, (itver + 1) as u16).tree),
                            backup: Some(t),
                        },
                        failure: Some(Failure::Store(e)),
                    },
                    None => Committed {
                        home: HomeView {
                            archive: Some(commit_run(t, plan, (itver + 1) as u16).tree),
                            backup: Some(commit_run(t, plan, (itver + 1) as u16).tree),
                        },
                        failure: None,
                    },
                },
            }
        }
    }
}

/// What the commit of a text leaves at home, and how it ends: as the commit
/// of the document that the text stands for, where it stands for one.
pub open spec fn commit_text_outcome(
    home: HomeView,
    itver: u16,
    parsed: Option<Item>,
    entity: Seq<char>,
    files: Seq<(String, String)>,
) -> Committed {
    match home.archive {
        None => Committed { home, failure: Some(Failure::NotActive) },
        Some(t) => if itver == u16::MAX {
            Committed { home, failure: Some(Failure::VersionExhausted) }
        } else {
            match parsed {
                Some(Item::Table(pairs)) => commit_outcome(home, itver, pairs@, entity, files),
                _ => Committed {
                    home: HomeView { archive: Some(t), backup: Some(t) },
                    failure: Some(Failure::Syntax),
                },
            }
        }
    }
}

/// The phrase that confirms a wipe.
pub open spec fn wipe_phrase() -> Seq<char> {
    "I, as the user, confirm that I fully understand that I am wiping my ENTIRE archive and that this action is permanent and irreversible"@
}

/// What an input asks to store, checked.
enum Work {
    Entry(EntryFields),
    Moc(MocFields),
}

impl Work {
    spec fn plan(&self) -> Plan {
        match self {
            Work::Entry(f) => Plan::Entry(f@),
            Work::Moc(f) => Plan::Moc(f@),
        }
    }
}

/// Checks a document and picks what it asks to store.
fn plan_work(doc: &Vec<(String, Item)>, entity: &str, files: &Files) -> (r: Result<Work, Invalid>)
    ensures
        match r {
            Ok(w) => planned(doc@, entity@, files.listed@) == Ok::<Plan, Flaw>(w.plan()),
            Err(e) => planned(doc@, entity@, files.listed@) == Err::<Plan, Flaw>(e@),
        },
{
    let is_moc = match find(doc, "is-moc") {
        None => false,
        Some(Item::Bool(b)) => *b,
        Some(_) => {
            return Err(invalid(entity, None, Field::IsMoc, Problem::Mistyped));
        },
    };
    if is_moc {
        match MOC::check(doc, entity) {
            Ok(f) => Ok(Work::Moc(f)),
            Err(e) => Err(e),
        }
    } else {
        match Entry::check(doc, entity, files) {
            Ok(f) => Ok(Work::Entry(f)),
            Err(e) => Err(e),
        }
    }
}

/// Makes the writes of a commit.
fn apply(store: &mut Store, work: Work, next: u16) -> (r: Result<(), StoreError>)
    ensures
        commit_run(old(store)@, work.plan(), next) == (Saved {
            tree: final(store)@,
            error: r.err(),
        }),
{
    let top = Container::root();
    match work {
        Work::Entry(fields) => {
            let entries = match open_dir(store, &top, "entries") {
                Ok(c) => c,
                Err(e) => {
                    return Err(e);
                },
            };
            let uid = fields.uid.clone();
            match Entry::compose(fields, &entries, store) {
                Ok(_) => {},
                Err(e) => {
                    return Err(e);
                },
            }
            let order = match open_dir(store, &top, "order") {
                Ok(c) => c,
                Err(e) => {
                    return Err(e);
                },
            };
            let unsorted = match open_dir(store, &order, "unsorted") {
                Ok(c) => c,
                Err(e) => {
                    return Err(e);
                },
            };
            match push_text(store, &unsorted, &uid) {
                Ok(_) => {},
                Err(e) => {
                    return Err(e);
                },
            }
        },
        Work::Moc(fields) => {
            let mocs = match open_dir(store, &top, "mocs") {
                Ok(c) => c,
                Err(e) => {
                    return Err(e);
                },
            };
            match MOC::compose(fields, &mocs, store) {
                Ok(_) => {},
                Err(e) => {
                    return Err(e);
                },
            }
        },
    }
    save_datum(store, &top, "itver", Scalar::U16(next))
}

/// Makes the writes of a new archive.
fn write_initial(store: &mut Store, uid: u64) -> (r: Result<(), StoreError>)
    requires
        old(store)@ == Map::<Path, Slot>::empty(),
    ensures
        initial_run(uid) == (Saved { tree: final(store)@, error: r.err() }),
{
    proof {
        reveal_strlit("length");
    }
    let top = Container::root();
    match save_datum(store, &top, "uid", Scalar::U64(uid)) {
        Ok(_) => {},
        Err(e) => {
            return Err(e);
        },
    }
    match save_datum(store, &top, "itver", Scalar::U16(0)) {
        Ok(_) => {},
        Err(e) => {
            return Err(e);
        },
    }
    let order = match open_dir(store, &top, "order") {
        Ok(c) => c,
        Err(e) => {
            return Err(e);
        },
    };
    let sorted = match open_dir(store, &order, "sorted") {
        Ok(c) => c,
        Err(e) => {
            return Err(e);
        },
    };
    match save_datum(store, &sorted, "length", Scalar::U16(0)) {
        Ok(_) => {},
        Err(e) => {
            return Err(e);
        },
    }
    let order = match open_dir(store, &top, "order") {
        Ok(c) => c,
        Err(e) => {
            return Err(e);
        },
    };
    let unsorted = match open_dir(store, &order, "unsorted") {
        Ok(c) => c,
        Err(e) => {
            return Err(e);
        },
    };
    save_datum(store, &unsorted, "length", Scalar::U16(0))
}

impl Archive {
    /// Makes a new archive with the identity `uid` where there is none.
    pub fn init_with(home: &mut Home, uid: u64) -> (r: Result<Archive, ArchiveError>)
        ensures
            match r {
                Ok(a) => old(home)@.archive is None && final(home)@ == (HomeView {
                    archive: Some(initial(uid)),
                    backup: old(home)@.backup,
                }) && a.uid == uid && a.itver == 0,
                Err(e) => e@ == Failure::AlreadyExists && old(home)@.archive is Some && final(
                    home
                )@ == old(home)@,
            },
    {
        if home.archive.is_some() {
            return Err(ArchiveError::AlreadyExists);
        }
        let mut store = Store::new();
        proof {
            lemma_initial(uid);
        }
        match write_initial(&mut store, uid) {
            Ok(_) => {},
            Err(e) => {
                return Err(ArchiveError::Store(e));
            },
        }
        home.archive = Some(store);
        Ok(Archive { uid, itver: 0 })
    }

    /// Makes a new archive, with an identity of its own, where there is
    /// none.
    pub fn init(home: &mut Home) -> (r: Result<Archive, ArchiveError>)
        ensures
            match r {
                Ok(a) => old(home)@.archive is None && final(home)@ == (HomeView {
                    archive: Some(initial(a.uid)),
                    backup: old(home)@.backup,
                }) && a.itver == 0,
                Err(e) => e@ == Failure::AlreadyExists && old(home)@.archive is Some && final(
                    home
                )@ == old(home)@,
            },
    {
        let uid = fresh_uid();
        Archive::init_with(home, uid)
    }

    /// Reads the identity and the version that `store` records.
    pub fn load_dir(store: &Store) -> (r: Result<Archive, ArchiveError>)
        ensures
            match r {
                Ok(a) => identity(store@) == Ok::<(u64, u16), StoreError>((a.uid, a.itver)),
                Err(e) => identity(store@) is Err && e@ == Failure::Store(
                    identity(store@)->Err_0,
                ),
            },
    {
        let top = Container::root();
        let uid = match store.read_data(&top, "uid") {
            Ok(s) => match s.collect_u64() {
                Ok(x) => x,
                Err(e) => {
                    return Err(ArchiveError::Store(e));
                },
            },
            Err(e) => {
                return Err(ArchiveError::Store(e));
            },
        };
        let itver = match store.read_data(&top, "itver") {
            Ok(s) => match s.collect_u16() {
                Ok(x) => x,
                Err(e) => {
                    return Err(ArchiveError::Store(e));
                },
            },
            Err(e) => {
                return Err(ArchiveError::Store(e));
            },
        };
        Ok(Archive { uid, itver })
    }

    /// Opens the archive at home; where there is none, one is made with the
    /// identity `uid`.
    pub fn load_with(home: &mut Home, uid: u64) -> (r: Result<Archive, ArchiveError>)
        ensures
            match old(home)@.archive {
                Some(t) => final(home)@ == old(home)@ && match r {
                    Ok(a) => identity(t) == Ok::<(u64, u16), StoreError>((a.uid, a.itver)),
                    Err(e) => identity(t) is Err && e@ == Failure::Store(identity(t)->Err_0),
                },
                None => final(home)@ == (HomeView {
                    archive: Some(initial(uid)),
                    backup: old(home)@.backup,
                }) && r == Ok::<Archive, ArchiveError>(Archive { uid, itver: 0 }),
            },
    {
        match &home.archive {
            Some(store) => Archive::load_dir(store),
            None => Archive::init_with(home, uid),
        }
    }

    /// Opens the archive at home; where there is none, one is made with an
    /// identity of its own.
    pub fn load(home: &mut Home) -> (r: Result<Archive, ArchiveError>)
        ensures
            match old(home)@.archive {
                Some(t) => final(home)@ == old(home)@ && match r {
                    Ok(a) => identity(t) == Ok::<(u64, u16), StoreError>((a.uid, a.itver)),
                    Err(e) => identity(t) is Err && e@ == Failure::Store(identity(t)->Err_0),
                },
                None => r matches Ok(a) && a.itver == 0 && final(home)@ == (HomeView {
                    archive: Some(initial(a.uid)),
                    backup: old(home)@.backup,
                }),
            },
    {
        let uid = fresh_uid();
        Archive::load_with(home, uid)
    }

    /// A copy of the whole archive, to be kept as a backup.
    pub fn backup(home: &Home) -> (r: Result<Store, ArchiveError>)
        ensures
            match r {
                Ok(copy) => home@.archive == Some(copy@),
                Err(e) => e@ == Failure::NotActive && home@.archive is None,
            },
    {
        match &home.archive {
            Some(store) => Ok(store.snapshot()),
            None => Err(ArchiveError::NotActive),
        }
    }

    /// Replaces the archive by the backup `candidate`. A backup of another
    /// archive, or one that is older than the archive, is refused, and home
    /// stays as it is.
    pub fn load_backup(home: &mut Home, candidate: Option<Store>) -> (r: Result<
        Loaded,
        ArchiveError,
    >)
        ensures
            match backup_verdict(old(home)@.archive, tree_in(candidate)) {
                Ok(how) => r == Ok::<Loaded, ArchiveError>(how) && final(home)@ == (HomeView {
                    archive: tree_in(candidate),
                    backup: old(home)@.backup,
                }),
                Err(f) => outcome(r) == Some(f) && final(home)@ == old(home)@,
            },
    {
        let new = match candidate {
            Some(s) => s,
            None => {
                return Err(ArchiveError::NoBackup);
            },
        };
        let how = match &home.archive {
            None => Loaded::Fresh,
            Some(old) => {
                let active = match Archive::load_dir(old) {
                    Ok(a) => a,
                    Err(e) => {
                        return Err(e);
                    },
                };
                let other = match Archive::load_dir(&new) {
                    Ok(a) => a,
                    Err(e) => {
                        return Err(e);
                    },
                };
                if other.uid != active.uid {
                    return Err(ArchiveError::IdentityMismatch);
                }
                if other.itver < active.itver {
                    return Err(ArchiveError::VersionRegression);
                }
                if other.itver == active.itver {
                    Loaded::SameAge
                } else {
                    Loaded::Newer
                }
            },
        };
        home.archive = Some(new);
        Ok(how)
    }

    /// Replaces the archive by the backup that the last commit left. It can
    /// undo a commit that failed on the way, never one that succeeded: after
    /// that the backup is what the archive holds.
    pub fn rollback(home: &mut Home) -> (r: Result<Loaded, ArchiveError>)
        ensures
            match backup_verdict(old(home)@.archive, old(home)@.backup) {
                Ok(how) => r == Ok::<Loaded, ArchiveError>(how) && final(home)@ == (HomeView {
                    archive: old(home)@.backup,
                    backup: old(home)@.backup,
                }),
                Err(f) => outcome(r) == Some(f) && final(home)@ == old(home)@,
            },
    {
        let candidate = match &home.backup {
            Some(s) => Some(s.snapshot()),
            None => None,
        };
        Archive::load_backup(home, candidate)
    }

    /// Deletes the archive, if `phrase` is the phrase that confirms it.
    pub fn wipe(self, home: &mut Home, phrase: &str) -> (r: Result<Wiped, ArchiveError>)
        ensures
            final(home)@.backup == old(home)@.backup,
            phrase@ != wipe_phrase() ==> outcome(r) == Some(Failure::NotConfirmed) && final(home)@
                == old(home)@,
            phrase@ == wipe_phrase() ==> final(home)@.archive is None && r == Ok::<
                Wiped,
                ArchiveError,
            >(
                if old(home)@.archive is Some {
                    Wiped::Deleted
                } else {
                    Wiped::Nothing
                },
            ),
    {
        let expected =
            "I, as the user, confirm that I fully understand that I am wiping my ENTIRE archive and that this action is permanent and irreversible";
        if phrase.to_string() != expected.to_string() {
            return Err(ArchiveError::NotConfirmed);
        }
        if home.archive.is_none() {
            return Ok(Wiped::Nothing);
        }
        home.archive = None;
        Ok(Wiped::Deleted)
    }

    /// Commits the document `doc`, the input at `entity`: backs the archive
    /// up, stores the entry or the map of content that the document
    /// describes, records the next version and backs the archive up again.
    pub fn commit_document(
        &mut self,
        home: &mut Home,
        doc: &Vec<(String, Item)>,
        entity: &str,
        files: &Files,
    ) -> (r: Result<(), ArchiveError>)
        ensures
            commit_outcome(old(home)@, old(self).itver, doc@, entity@, files.listed@) == (Committed {
                home: final(home)@,
                failure: outcome(r),
            }),
            final(self).uid == old(self).uid,
            final(self).itver == if r is Ok {
                (old(self).itver + 1) as u16
            } else {
                old(self).itver
            },
    {
        let mut store = match home.archive.take() {
            Some(s) => s,
            None => {
                return Err(ArchiveError::NotActive);
            },
        };
        if self.itver == 65535 {
            home.archive = Some(store);
            return Err(ArchiveError::VersionExhausted);
        }
        home.backup = Some(store.snapshot());
        let work = match plan_work(doc, entity, files) {
            Ok(w) => w,
            Err(e) => {
                home.archive = Some(store);
                return Err(ArchiveError::Invalid(e));
            },
        };
        let next: u16 = self.itver + 1;
        match apply(&mut store, work, next) {
            Ok(_) => {},
            Err(e) => {
                home.archive = Some(store);
                return Err(ArchiveError::Store(e));
            },
        }
        home.backup = Some(store.snapshot());
        home.archive = Some(store);
        self.itver = next;
        Ok(())
    }

    /// Commits the text `text`, the input at `entity`, as the document that
    /// it stands for.
    pub fn commit(&mut self, home: &mut Home, text: &str, entity: &str, files: &Files) -> (r:
        Result<(), ArchiveError>)
        ensures
            commit_text_outcome(
                old(home)@,
                old(self).itver,
                parsed_toml(text@),
                entity@,
                files.listed@,
            ) == (Committed { home: final(home)@, failure: outcome(r) }),
            final(self).uid == old(self).uid,
            final(self).itver == if r is Ok {
                (old(self).itver + 1) as u16
            } else {
                old(self).itver
            },
    {
        if home.archive.is_none() {
            return Err(ArchiveError::NotActive);
        }
        if self.itver == 65535 {
            return Err(ArchiveError::VersionExhausted);
        }
        match parse_document(text) {
            Ok(doc) => self.commit_document(home, &doc, entity, files),
            Err(_) => {
                let copy = match &home.archive {
                    Some(store) => Some(store.snapshot()),
                    None => None,
                };
                home.backup = copy;
                Err(ArchiveError::Syntax)
            },
        }
    }

    /// The store of the archive, if there is one.
    pub fn database<'a>(&self, home: &'a Home) -> (r: Option<&'a Store>)
        ensures
            match r {
                Some(s) => home.archive == Some(*s),
                None => home.archive is None,
            },
    {
        home.archive.as_ref()
    }

    /// Whether the archive holds anything under `key` in `container`.
    pub fn database_exists(&self, home: &Home, container: &Container, key: &str) -> (r: bool)
        ensures
            r == match home@.archive {
                Some(t) => t.contains_key(container@.push(key@)),
                None => false,
            },
    {
        match &home.archive {
            Some(store) => store.has_entry(container, key),
            None => false,
        }
    }

    /// The entry `uid`, attached to its container with nothing loaded, if
    /// the archive holds it.
    pub fn get_entry(&self, home: &Home, uid: String) -> (r: Option<Entry>)
        ensures
            match r {
                Some(e) => holds_entity(home@.archive, entries_dir(), uid@) && e.uid == uid
                    && e.container@ == entries_dir().push(uid@) && e.is_clear(),
                None => !holds_entity(home@.archive, entries_dir(), uid@),
            },
    {
        let store = match &home.archive {
            Some(s) => s,
            None => {
                return None;
            },
        };
        let entries = Container::root().child("entries");
        match store.read_container(&entries, uid.as_str()) {
            Ok(c) => Some(Entry::load_lazy(uid, c)),
            Err(_) => None,
        }
    }

    /// The map of content `uid`, attached to its container with nothing
    /// loaded, if the archive holds it.
    pub fn get_moc(&self, home: &Home, uid: String) -> (r: Option<MOC>)
        ensures
            match r {
                Some(e) => holds_entity(home@.archive, mocs_dir(), uid@) && e.uid == uid
                    && e.container@ == mocs_dir().push(uid@) && e.is_clear(),
                None => !holds_entity(home@.archive, mocs_dir(), uid@),
            },
    {
        let store = match &home.archive {
            Some(s) => s,
            None => {
                return None;
            },
        };
        let mocs = Container::root().child("mocs");
        match store.read_container(&mocs, uid.as_str()) {
            Ok(c) => Some(MOC::load_lazy(uid, c)),
            Err(_) => None,
        }
    }

    /// The entries of the archive, each once, attached to their containers
    /// with nothing loaded.
    pub fn list_entries(&self, home: &Home) -> (r: Vec<Entry>)
        ensures
            entry_uids(r@).no_duplicates(),
            entry_uids(r@).to_set() == held_entities(home@.archive, entries_dir()),
            home.archive matches Some(s) ==> entry_uids(r@) == s.child_order(entries_dir()),
            forall|i: int|
                0 <= i < r@.len() ==> (#[trigger] r@[i]).container@ == entries_dir().push(
                    r@[i].uid@,
                ) && r@[i].is_clear(),
    {
        let mut out: Vec<Entry> = Vec::new();
        let store = match &home.archive {
            Some(s) => s,
            None => {
                assert(entry_uids(out@).to_set() =~= Set::<Seq<char>>::empty());
                return out;
            },
        };
        let entries = Container::root().child("entries");
        let uids = store.children(&entries);
        let mut i: usize = 0;
        while i < uids.len()
            invariant
                i <= uids.len(),
                out@.len() == i,
                entries@ == entries_dir(),
                forall|j: int| 0 <= j < i ==> (#[trigger] out@[j]).uid@ == uids@[j]@,
                forall|j: int|
                    0 <= j < i ==> (#[trigger] out@[j]).container@ == entries_dir().push(
                        out@[j].uid@,
                    ) && out@[j].is_clear(),
            decreases uids.len() - i,
        {
            let uid = uids[i].clone();
            let container = entries.child(uid.as_str());
            out.push(Entry::load_lazy(uid, container));
            i += 1;
        }
        assert(entry_uids(out@) =~= names(uids@));
        out
    }

    /// The maps of content of the archive, each once, attached to their
    /// containers with nothing loaded.
    pub fn list_mocs(&self, home: &Home) -> (r: Vec<MOC>)
        ensures
            moc_uids(r@).no_duplicates(),
            moc_uids(r@).to_set() == held_entities(home@.archive, mocs_dir()),
            home.archive matches Some(s) ==> moc_uids(r@) == s.child_order(mocs_dir()),
            forall|i: int|
                0 <= i < r@.len() ==> (#[trigger] r@[i]).container@ == mocs_dir().push(r@[i].uid@)
                    && r@[i].is_clear(),
    {
        let mut out: Vec<MOC> = Vec::new();
        let store = match &home.archive {
            Some(s) => s,
            None => {
                assert(moc_uids(out@).to_set() =~= Set::<Seq<char>>::empty());
                return out;
            },
        };
        let mocs = Container::root().child("mocs");
        let uids = store.children(&mocs);
        let mut i: usize = 0;
        while i < uids.len()
            invariant
                i <= uids.len(),
                out@.len() == i,
                mocs@ == mocs_dir(),
                forall|j: int| 0 <= j < i ==> (#[trigger] out@[j]).uid@ == uids@[j]@,
                forall|j: int|
                    0 <= j < i ==> (#[trigger] out@[j]).container@ == mocs_dir().push(
                        out@[j].uid@,
                    ) && out@[j].is_clear(),
            decreases uids.len() - i,
        {
            let uid = uids[i].clone();
            let container = mocs.child(uid.as_str());
            out.push(MOC::load_lazy(uid, container));
            i += 1;
        }
        assert(moc_uids(out@) =~= names(uids@));
        out
    }
}

/// Whether the archive holds the entity `uid` in the container `db`.
pub open spec fn holds_entity(archive: Option<Tree>, db: Path, uid: Seq<char>) -> bool {
    match archive {
        Some(t) => t.contains_key(db.push(uid)) && t[db.push(uid)] is Dir,
        None => false,
    }
}

/// The uids of the entities that the archive holds in the container `db`.
pub open spec fn held_entities(archive: Option<Tree>, db: Path) -> Set<Seq<char>> {
    match archive {
        Some(t) => child_dirs(t, db),
        None => Set::empty(),
    }
}

/// The uids of a list of entries.
pub open spec fn entry_uids(list: Seq<Entry>) -> Seq<Seq<char>> {
    Seq::new(list.len(), |i: int| list[i].uid@)
}

/// The uids of a list of maps of content.
pub open spec fn moc_uids(list: Seq<MOC>) -> Seq<Seq<char>> {
    Seq::new(list.len(), |i: int| list[i].uid@)
}

/// What lies in the subtree of an entity lies at a path that begins with
/// the name of the entities' container.
proof fn lemma_entity_path(p: Path, kind: Seq<char>, uid: Seq<char>)
    requires
        under(p, root().push(kind).push(uid)),
    ensures
        p.len() >= 2,
        p[0] == kind,
{
    lemma_under_child(p, root().push(kind), uid);
    lemma_under_child(p, root(), kind);
}

/// After a commit, the entry that was committed is read back: each field
/// yields the value that the input gave, and the sections are found in
/// order.
pub proof fn lemma_commit_read_back(t: Tree, d: EntryData, next: u16)
    requires
        commit_run(t, Plan::Entry(d), next).error is None,
    ensures
        holds_entity(Some(commit_run(t, Plan::Entry(d), next).tree), entries_dir(), d.uid),
        entry_read(commit_run(t, Plan::Entry(d), next).tree, entries_dir().push(d.uid))
            == entry_read_of(d),
        sections_at(commit_run(t, Plan::Entry(d), next).tree, entries_dir().push(d.uid)) == Ok::<
            Seq<Path>,
            StoreError,
        >(section_paths(entries_dir().push(d.uid).push("sections"@), d.sections.len())),
{
    let c = entries_dir().push(d.uid);
    let s1 = then_open(begin(t), root(), "entries"@);
    let s2 = then_entry_stored(s1, entries_dir(), d);
    let run = commit_run(t, Plan::Entry(d), next);
    lemma_commit_keeps_entry(t, d, next);
    lemma_entry_read_back(s1.tree, entries_dir(), d);
    crate::entry::lemma_entry_read_local(run.tree, s2.tree, c);
    assert(c.take(c.len() as int) =~= c);
    assert(under(c, c));
    crate::entry::lemma_entry_stored_dir(s1.tree, entries_dir(), d);
}

/// After a commit, a section of the entry that was committed is read back
/// as the input gave it.
pub proof fn lemma_commit_section_read_back(t: Tree, d: EntryData, next: u16, i: nat)
    requires
        commit_run(t, Plan::Entry(d), next).error is None,
        i < d.sections.len(),
    ensures
        crate::entry::section::section_read(
            commit_run(t, Plan::Entry(d), next).tree,
            entries_dir().push(d.uid).push("sections"@).push(index_key(i)),
        ) == crate::entry::section::read_of(d.sections[i as int]),
{
    let c = entries_dir().push(d.uid);
    let ci = c.push("sections"@).push(index_key(i));
    let s1 = then_open(begin(t), root(), "entries"@);
    let s2 = then_entry_stored(s1, entries_dir(), d);
    let run = commit_run(t, Plan::Entry(d), next);
    lemma_commit_keeps_entry(t, d, next);
    lemma_entry_section_read_back(s1.tree, entries_dir(), d, i);
    lemma_child_below(c, "sections"@);
    lemma_child_below(c.push("sections"@), index_key(i));
    crate::store::lemma_under_trans(ci, c.push("sections"@), c);
    crate::store::lemma_agree_within(run.tree, s2.tree, c, ci);
    crate::entry::section::lemma_section_read_local(run.tree, s2.tree, ci);
}

/// What a commit writes after the entry is stored leaves the entry as it
/// is.
proof fn lemma_commit_keeps_entry(t: Tree, d: EntryData, next: u16)
    requires
        commit_run(t, Plan::Entry(d), next).error is None,
    ensures
        then_open(begin(t), root(), "entries"@).error is None,
        entry_stored(then_open(begin(t), root(), "entries"@).tree, entries_dir(), d).error is None,
        crate::store::agree_under(
            commit_run(t, Plan::Entry(d), next).tree,
            entry_stored(then_open(begin(t), root(), "entries"@).tree, entries_dir(), d).tree,
            entries_dir().push(d.uid),
        ),
{
    lemma_top_keys();
    let c = entries_dir().push(d.uid);
    let s1 = then_open(begin(t), root(), "entries"@);
    let s2 = then_entry_stored(s1, entries_dir(), d);
    let s3 = then_open(s2, root(), "order"@);
    let s4 = then_open(s3, order_dir(), "unsorted"@);
    let s5 = then_push(s4, unsorted_dir(), Datum::Text(d.uid));
    let s6 = then_datum(s5, root(), "itver"@, Datum::U16(next));
    assert(s6 == commit_run(t, Plan::Entry(d), next));
    assert forall|p: Path| #[trigger] under(p, c) implies crate::store::same_at(
        s6.tree,
        s2.tree,
        p,
    ) by {
        lemma_entity_path(p, "entries"@, d.uid);
        lemma_child_below(root(), "itver"@);
        lemma_child_below(root(), "order"@);
        lemma_child_below(order_dir(), "unsorted"@);
        if below(p, unsorted_dir()) {
            lemma_under_child(p, order_dir(), "unsorted"@);
            lemma_under_child(p, root(), "order"@);
        }
        crate::field::lemma_then_datum_other(s5, root(), "itver"@, Datum::U16(next), p);
        crate::field::lemma_then_push_other(s4, unsorted_dir(), Datum::Text(d.uid), p);
        lemma_then_open(s3, order_dir(), "unsorted"@, p);
        lemma_then_open(s2, root(), "order"@, p);
    }
}

/// A commit leaves the identity of the archive as it is and records the new
/// version.
pub proof fn lemma_commit_identity(t: Tree, plan: Plan, next: u16)
    requires
        commit_run(t, plan, next).error is None,
        identity(t) is Ok,
    ensures
        identity(commit_run(t, plan, next).tree) == Ok::<(u64, u16), StoreError>(
            (identity(t)->Ok_0.0, next),
        ),
{
    lemma_top_keys();
    let p = root().push("uid"@);
    lemma_child_below(root(), "uid"@);
    lemma_child_below(root(), "itver"@);
    lemma_child_below(root(), "order"@);
    lemma_child_below(root(), "entries"@);
    lemma_child_below(root(), "mocs"@);
    lemma_child_below(order_dir(), "unsorted"@);
    match plan {
        Plan::Entry(d) => {
            let s1 = then_open(begin(t), root(), "entries"@);
            let s2 = then_entry_stored(s1, entries_dir(), d);
            let s3 = then_open(s2, root(), "order"@);
            let s4 = then_open(s3, order_dir(), "unsorted"@);
            let s5 = then_push(s4, unsorted_dir(), Datum::Text(d.uid));
            let s6 = then_datum(s5, root(), "itver"@, Datum::U16(next));
            assert(s6 == commit_run(t, plan, next));
            crate::field::lemma_then_datum(s5, root(), "itver"@, Datum::U16(next));
            crate::field::lemma_then_datum_other(s5, root(), "itver"@, Datum::U16(next), p);
            crate::field::lemma_then_push_other(s4, unsorted_dir(), Datum::Text(d.uid), p);
            lemma_then_open(s3, order_dir(), "unsorted"@, p);
            lemma_then_open(s2, root(), "order"@, p);
            if under(p, entries_dir().push(d.uid)) {
                lemma_entity_path(p, "entries"@, d.uid);
            }
            crate::entry::lemma_entry_stored_other(s1.tree, entries_dir(), d, p);
            lemma_then_open(begin(t), root(), "entries"@, p);
        },
        Plan::Moc(d) => {
            let s1 = then_open(begin(t), root(), "mocs"@);
            let s2 = then_moc_stored(s1, mocs_dir(), d);
            let s6 = then_datum(s2, root(), "itver"@, Datum::U16(next));
            assert(s6 == commit_run(t, plan, next));
            crate::field::lemma_then_datum(s2, root(), "itver"@, Datum::U16(next));
            crate::field::lemma_then_datum_other(s2, root(), "itver"@, Datum::U16(next), p);
            if under(p, mocs_dir().push(d.uid)) {
                lemma_entity_path(p, "mocs"@, d.uid);
            }
            crate::moc::lemma_moc_stored_other(s1.tree, mocs_dir(), d, p);
            lemma_then_open(begin(t), root(), "mocs"@, p);
        },
    }
}

/// A backup of another archive is refused.
pub proof fn lemma_foreign_backup_refused(active: Tree, candidate: Tree)
    requires
        identity(active) is Ok,
        identity(candidate) is Ok,
        identity(active)->Ok_0.0 != identity(candidate)->Ok_0.0,
    ensures
        backup_verdict(Some(active), Some(candidate)) == Err::<Loaded, Failure>(
            Failure::IdentityMismatch,
        ),
{
}

/// A backup of the same archive is refused if it is older than the archive;
/// it is loaded, with a warning, if it is of the same age, and loaded if it
/// is newer.
pub proof fn lemma_backup_by_age(active: Tree, candidate: Tree)
    requires
        identity(active) is Ok,
        identity(candidate) is Ok,
        identity(active)->Ok_0.0 == identity(candidate)->Ok_0.0,
    ensures
        backup_verdict(Some(active), Some(candidate)) == if identity(candidate)->Ok_0.1 < identity(
            active,
        )->Ok_0.1 {
            Err::<Loaded, Failure>(Failure::VersionRegression)
        } else if identity(candidate)->Ok_0.1 == identity(active)->Ok_0.1 {
            Ok::<Loaded, Failure>(Loaded::SameAge)
        } else {
            Ok::<Loaded, Failure>(Loaded::Newer)
        },
{
}

/// A backup that replaces the archive is a backup of the same archive and
/// no older than it: the identity of the archive never changes, and its
/// version never falls.
pub proof fn lemma_loaded_backup(active: Tree, candidate: Tree)
    requires
        backup_verdict(Some(active), Some(candidate)) is Ok,
    ensures
        identity(active) is Ok,
        identity(candidate) is Ok,
        identity(candidate)->Ok_0.0 == identity(active)->Ok_0.0,
        identity(candidate)->Ok_0.1 >= identity(active)->Ok_0.1,
{
}

/// After a commit that succeeded, a rollback loads the backup that the
/// commit left and changes nothing: the commit is not undone.
pub proof fn lemma_rollback_keeps_commit(
    home: HomeView,
    itver: u16,
    doc: Seq<(String, Item)>,
    entity: Seq<char>,
    files: Seq<(String, String)>,
)
    requires
        commit_outcome(home, itver, doc, entity, files).failure is None,
        identity(home.archive->0) is Ok,
    ensures
        backup_verdict(
            commit_outcome(home, itver, doc, entity, files).home.archive,
            commit_outcome(home, itver, doc, entity, files).home.backup,
        ) == Ok::<Loaded, Failure>(Loaded::SameAge),
        commit_outcome(home, itver, doc, entity, files).home.backup == commit_outcome(
            home,
            itver,
            doc,
            entity,
            files,
        ).home.archive,
{
    let plan = planned(doc, entity, files)->Ok_0;
    lemma_commit_identity(home.archive->0, plan, (itver + 1) as u16);
}

} // verus!
