//! An entry of the archive: a dated text in sections.

pub mod section;

use crate::document::{
    get_array,
    get_date,
    get_strings,
    get_table,
    get_text,
    gives_text,
    gives_texts,
    invalid,
    text_of,
    text_pair,
    texts_in,
    texts_pair,
    top,
    want_array,
    want_date,
    want_strings,
    want_table,
    want_text,
    Fault,
    Field,
    Files,
    Flaw,
    Invalid,
    Item,
    Problem,
};
use crate::field::{
    begin,
    date_at,
    date_datum,
    fetch_date,
    fetch_strings,
    fetch_text,
    filled_date,
    filled_strings,
    filled_text,
    lazy_date,
    lazy_strings,
    lazy_text,
    lemma_then_datum,
    lemma_then_datum_other,
    lemma_then_dir,
    lemma_then_dir_other,
    lemma_then_strings,
    lemma_then_strings_other,
    lines,
    save_date,
    save_strings,
    save_text,
    strings_at,
    text_at,
    then_date,
    then_datum,
    then_dir,
    then_strings,
    then_text,
    Saved,
};
use crate::keys::{
    index_key,
    index_name,
    lemma_index_key_injective,
    lemma_index_key_not_length,
    length_key,
};
use crate::list::{lemma_child_below, list_length, load_length};
use crate::store::{
    is_dir,
    lemma_siblings_apart,
    lemma_under_child,
    same_at,
    under,
    Container,
    Datum,
    Path,
    Scalar,
    Store,
    StoreError,
    Tree,
};
pub use section::{Section, SectionCache, SectionData, SectionFields};
use section::{
    full_section,
    lemma_then_section_other,
    lemma_then_section_read_back,
    section_checked,
    then_section,
};
use vstd::prelude::*;

verus! {

/// An entry that is loaded field by field from its container.
pub struct Entry {
    pub container: Container,
    pub uid: String,
    pub sections: Option<Vec<Section>>,
    pub title: Option<String>,
    pub description: Option<String>,
    pub tags: Option<Vec<String>>,
    pub notes: Option<Vec<String>>,
    /// Day, month, year.
    pub date: Option<[u16; 3]>,
}

/// The fields of an entry, checked and ready to be stored.
#[derive(Debug, PartialEq, Eq)]
pub struct EntryFields {
    pub uid: String,
    pub title: String,
    pub description: String,
    /// Day, month, year.
    pub date: [u16; 3],
    pub notes: Vec<String>,
    pub tags: Vec<String>,
    pub sections: Vec<SectionFields>,
}

/// The mathematical value of the fields of an entry.
pub ghost struct EntryData {
    pub uid: Seq<char>,
    pub title: Seq<char>,
    pub description: Seq<char>,
    pub date: (u16, u16, u16),
    pub notes: Seq<Seq<char>>,
    pub tags: Seq<Seq<char>>,
    pub sections: Seq<SectionData>,
}

/// What an entry has in its cache, the sections apart.
pub ghost struct EntryCache {
    pub title: Option<Seq<char>>,
    pub description: Option<Seq<char>>,
    pub date: Option<(u16, u16, u16)>,
    pub notes: Option<Seq<Seq<char>>>,
    pub tags: Option<Seq<Seq<char>>>,
}

/// The values of a list of checked sections.
pub open spec fn section_data(list: Seq<SectionFields>) -> Seq<SectionData> {
    Seq::new(list.len(), |i: int| list[i]@)
}

impl View for EntryFields {
    type V = EntryData;

    open spec fn view(&self) -> EntryData {
        EntryData {
            uid: self.uid@,
            title: self.title@,
            description: self.description@,
            date: (self.date[0], self.date[1], self.date[2]),
            notes: lines(self.notes@),
            tags: lines(self.tags@),
            sections: section_data(self.sections@),
        }
    }
}

/// The first `n` sections of an input, or the first thing that is wrong with
/// them.
pub open spec fn sections_checked(
    items: Seq<Item>,
    entity: Seq<char>,
    files: Seq<(String, String)>,
    n: nat,
) -> Result<Seq<SectionData>, Flaw>
    decreases n,
{
    if n == 0 {
        Ok(Seq::empty())
    } else {
        match sections_checked(items, entity, files, (n - 1) as nat) {
            Err(e) => Err(e),
            Ok(first) => match items[n - 1] {
                Item::Table(table) => match section_checked(
                    table@,
                    entity,
                    (n - 1) as u16,
                    files,
                ) {
                    Ok(d) => Ok(first.push(d)),
                    Err(e) => Err(e),
                },
                _ => Err(
                    Flaw {
                        entity,
                        part: Some((n - 1) as u16),
                        field: Field::Section,
                        problem: Problem::Mistyped,
                    },
                ),
            },
        }
    }
}

/// The sections of an input, or the first thing that is wrong with them.
pub open spec fn all_sections_checked(
    items: Seq<Item>,
    entity: Seq<char>,
    files: Seq<(String, String)>,
) -> Result<Seq<SectionData>, Flaw> {
    if items.len() > u16::MAX {
        Err(top(entity, Field::Section, Problem::TooMany))
    } else {
        sections_checked(items, entity, files, items.len())
    }
}

/// The fields of the entry that the document `doc` describes, or the first
/// thing that is wrong with it.
pub open spec fn entry_checked(
    doc: Seq<(String, Item)>,
    entity: Seq<char>,
    files: Seq<(String, String)>,
) -> Result<EntryData, Flaw> {
    match want_table(doc, "entry"@) {
        Err(p) => Err(top(entity, Field::Entry, p)),
        Ok(table) => match want_text(table, "uid"@) {
            Err(p) => Err(top(entity, Field::Uid, p)),
            Ok(uid) => match want_text(table, "title"@) {
                Err(p) => Err(top(entity, Field::Title, p)),
                Ok(title) => match want_text(table, "description"@) {
                    Err(p) => Err(top(entity, Field::Description, p)),
                    Ok(description) => match want_array(table, "notes"@) {
                        Err(p) => Err(top(entity, Field::Notes, p)),
                        Ok(raw_notes) => match want_array(table, "tags"@) {
                            Err(p) => Err(top(entity, Field::Tags, p)),
                            Ok(raw_tags) => match want_array(doc, "section"@) {
                                Err(p) => Err(top(entity, Field::Section, p)),
                                Ok(raw_sections) => match want_date(table, "date"@) {
                                    Err(p) => Err(top(entity, Field::Date, p)),
                                    Ok(date) => match want_strings(raw_notes) {
                                        Err(p) => Err(top(entity, Field::Notes, p)),
                                        Ok(notes) => match want_strings(raw_tags) {
                                            Err(p) => Err(top(entity, Field::Tags, p)),
                                            Ok(tags) => match all_sections_checked(
                                                raw_sections,
                                                entity,
                                                files,
                                            ) {
                                                Err(e) => Err(e),
                                                Ok(sections) => Ok(
                                                    EntryData {
                                                        uid,
                                                        title,
                                                        description,
                                                        date,
                                                        notes,
                                                        tags,
                                                        sections,
                                                    },
                                                ),
                                            },
                                        },
                                    },
                                },
                            },
                        },
                    },
                },
            },
        },
    }
}

/// Once a section is wrong, checking more of them fails alike.
proof fn lemma_sections_error(
    items: Seq<Item>,
    entity: Seq<char>,
    files: Seq<(String, String)>,
    n: nat,
    m: nat,
)
    requires
        n <= m,
        sections_checked(items, entity, files, n) is Err,
    ensures
        sections_checked(items, entity, files, m) == sections_checked(items, entity, files, n),
    decreases m,
{
    if n < m {
        lemma_sections_error(items, entity, files, n, (m - 1) as nat);
    }
}

/// Checks the sections of an input and picks their fields.
pub fn check_sections(items: &Vec<Item>, entity: &str, files: &Files) -> (r: Result<
    Vec<SectionFields>,
    Invalid,
>)
    ensures
        match r {
            Ok(v) => all_sections_checked(items@, entity@, files.listed@) == Ok::<
                Seq<SectionData>,
                Flaw,
            >(section_data(v@)),
            Err(e) => all_sections_checked(items@, entity@, files.listed@) == Err::<
                Seq<SectionData>,
                Flaw,
            >(e@),
        },
{
    if items.len() > 65535 {
        return Err(invalid(entity, None, Field::Section, Problem::TooMany));
    }
    let mut out: Vec<SectionFields> = Vec::new();
    let mut i: u16 = 0;
    assert(section_data(out@) =~= Seq::<SectionData>::empty());
    while (i as usize) < items.len()
        invariant
            i <= items@.len() <= u16::MAX,
            out@.len() == i,
            sections_checked(items@, entity@, files.listed@, i as nat) == Ok::<
                Seq<SectionData>,
                Flaw,
            >(section_data(out@)),
        decreases items@.len() - i,
    {
        match &items[i as usize] {
            Item::Table(table) => match Section::check(table, entity, i, files) {
                Ok(f) => {
                    let ghost before = section_data(out@);
                    out.push(f);
                    assert(section_data(out@) =~= before.push(f@));
                },
                Err(e) => {
                    proof {
                        lemma_sections_error(
                            items@,
                            entity@,
                            files.listed@,
                            (i + 1) as nat,
                            items@.len(),
                        );
                    }
                    return Err(e);
                },
            },
            _ => {
                proof {
                    lemma_sections_error(
                        items@,
                        entity@,
                        files.listed@,
                        (i + 1) as nat,
                        items@.len(),
                    );
                }
                return Err(invalid(entity, Some(i), Field::Section, Problem::Mistyped));
            },
        }
        i = i + 1;
    }
    Ok(out)
}

impl Entry {
    /// Checks the document `doc`, the input at `entity`, and picks the fields
    /// of the entry that it describes.
    pub fn check(doc: &Vec<(String, Item)>, entity: &str, files: &Files) -> (r: Result<
        EntryFields,
        Invalid,
    >)
        ensures
            match r {
                Ok(f) => entry_checked(doc@, entity@, files.listed@) == Ok::<EntryData, Flaw>(f@),
                Err(e) => entry_checked(doc@, entity@, files.listed@) == Err::<EntryData, Flaw>(
                    e@,
                ),
            },
    {
        let table = match get_table(doc, "entry") {
            Ok(t) => t,
            Err(p) => {
                return Err(invalid(entity, None, Field::Entry, p));
            },
        };
        let uid = match get_text(table, "uid") {
            Ok(s) => s,
            Err(p) => {
                return Err(invalid(entity, None, Field::Uid, p));
            },
        };
        let title = match get_text(table, "title") {
            Ok(s) => s,
            Err(p) => {
                return Err(invalid(entity, None, Field::Title, p));
            },
        };
        let description = match get_text(table, "description") {
            Ok(s) => s,
            Err(p) => {
                return Err(invalid(entity, None, Field::Description, p));
            },
        };
        let raw_notes = match get_array(table, "notes") {
            Ok(v) => v,
            Err(p) => {
                return Err(invalid(entity, None, Field::Notes, p));
            },
        };
        let raw_tags = match get_array(table, "tags") {
            Ok(v) => v,
            Err(p) => {
                return Err(invalid(entity, None, Field::Tags, p));
            },
        };
        let raw_sections = match get_array(doc, "section") {
            Ok(v) => v,
            Err(p) => {
                return Err(invalid(entity, None, Field::Section, p));
            },
        };
        let date = match get_date(table, "date") {
            Ok(d) => d,
            Err(p) => {
                return Err(invalid(entity, None, Field::Date, p));
            },
        };
        let notes = match get_strings(raw_notes) {
            Ok(v) => v,
            Err(p) => {
                return Err(invalid(entity, None, Field::Notes, p));
            },
        };
        let tags = match get_strings(raw_tags) {
            Ok(v) => v,
            Err(p) => {
                return Err(invalid(entity, None, Field::Tags, p));
            },
        };
        let sections = match check_sections(raw_sections, entity, files) {
            Ok(v) => v,
            Err(e) => {
                return Err(e);
            },
        };
        let fields = EntryFields { uid, title, description, date, notes, tags, sections };
        assert(fields@.notes =~= want_strings(raw_notes@)->Ok_0);
        assert(fields@.tags =~= want_strings(raw_tags@)->Ok_0);
        Ok(fields)
    }
}

/// A cache that holds every field of an entry.
pub open spec fn full_entry(d: EntryData) -> EntryCache {
    EntryCache {
        title: Some(d.title),
        description: Some(d.description),
        date: Some(d.date),
        notes: Some(d.notes),
        tags: Some(d.tags),
    }
}

/// The run `s` followed by the writes of the cached fields of an entry into
/// container `c`.
pub open spec fn then_entry(s: Saved, c: Path, cache: EntryCache) -> Saved {
    then_strings(
        then_strings(
            then_date(
                then_text(
                    then_text(s, c, "title"@, cache.title),
                    c,
                    "description"@,
                    cache.description,
                ),
                c,
                "date"@,
                cache.date,
            ),
            c,
            "notes"@,
            cache.notes,
        ),
        c,
        "tags"@,
        cache.tags,
    )
}

/// What storing the cached fields of an entry in container `c` leaves.
pub open spec fn entry_saved(t: Tree, c: Path, cache: EntryCache) -> Saved {
    then_entry(begin(t), c, cache)
}

/// The run `s` followed by storing the first `n` of the sections `ds`, each
/// in a container of its own, made anew under its index in `sc`.
pub open spec fn then_sections(s: Saved, sc: Path, ds: Seq<SectionData>, n: nat) -> Saved
    decreases n,
{
    if n == 0 {
        s
    } else {
        then_section(
            then_dir(then_sections(s, sc, ds, (n - 1) as nat), sc, index_key((n - 1) as nat)),
            sc.push(index_key((n - 1) as nat)),
            full_section(ds[n - 1]),
        )
    }
}

/// What storing an entry under its uid in the container `db` leaves: the
/// entry's container is made anew, then its sections are stored, then their
/// number, then the entry's own fields.
pub open spec fn entry_stored(t: Tree, db: Path, d: EntryData) -> Saved {
    if d.sections.len() > u16::MAX {
        Saved { tree: t, error: Some(StoreError::TooLong) }
    } else {
        then_entry(
            then_datum(
                then_sections(
                    then_dir(then_dir(begin(t), db, d.uid), db.push(d.uid), "sections"@),
                    db.push(d.uid).push("sections"@),
                    d.sections,
                    d.sections.len(),
                ),
                db.push(d.uid).push("sections"@),
                length_key(),
                Datum::U16(d.sections.len() as u16),
            ),
            db.push(d.uid),
            full_entry(d),
        )
    }
}

/// The containers of the first `n` sections of the list in `sc`.
pub open spec fn section_handles(t: Tree, sc: Path, n: nat) -> Result<Seq<Path>, StoreError>
    decreases n,
{
    if n == 0 {
        Ok(Seq::empty())
    } else {
        match section_handles(t, sc, (n - 1) as nat) {
            Err(e) => Err(e),
            Ok(first) => if t.contains_key(sc.push(index_key((n - 1) as nat))) && t[sc.push(
                index_key((n - 1) as nat),
            )] is Dir {
                Ok(first.push(sc.push(index_key((n - 1) as nat))))
            } else {
                Err(StoreError::NotFound)
            },
        }
    }
}

/// The containers of the sections of the entry in `c`.
pub open spec fn sections_at(t: Tree, c: Path) -> Result<Seq<Path>, StoreError> {
    match list_length(t, c.push("sections"@)) {
        Err(e) => Err(e),
        Ok(n) => section_handles(t, c.push("sections"@), n as nat),
    }
}

/// The containers of a list of sections.
pub open spec fn handles(list: Seq<Section>) -> Seq<Path> {
    Seq::new(list.len(), |i: int| list[i].container@)
}

/// What the lazily loaded sections yield: the containers of those cached if
/// there are any, else of those stored.
pub open spec fn lazy_sections(cache: Option<Vec<Section>>, t: Tree, c: Path) -> Result<
    Seq<Path>,
    StoreError,
> {
    match cache {
        Some(v) => Ok(handles(v@)),
        None => sections_at(t, c),
    }
}

/// Once a step of storing sections fails, the later steps change nothing.
proof fn lemma_then_sections_error(s: Saved, sc: Path, ds: Seq<SectionData>, n: nat, m: nat)
    requires
        n <= m,
        then_sections(s, sc, ds, n).error is Some,
    ensures
        then_sections(s, sc, ds, m) == then_sections(s, sc, ds, n),
    decreases m,
{
    if n < m {
        lemma_then_sections_error(s, sc, ds, n, (m - 1) as nat);
    }
}

/// Once a section container is absent, asking for more of them fails alike.
proof fn lemma_handles_error(t: Tree, sc: Path, n: nat, m: nat)
    requires
        n <= m,
        section_handles(t, sc, n) is Err,
    ensures
        section_handles(t, sc, m) == section_handles(t, sc, n),
    decreases m,
{
    if n < m {
        lemma_handles_error(t, sc, n, (m - 1) as nat);
    }
}

/// Stores the sections `sections`, each in a container of its own, made
/// anew under its index in `list`.
fn store_sections(sections: &Vec<SectionFields>, list: &Container, store: &mut Store) -> (r:
    Result<(), StoreError>)
    requires
        sections@.len() <= u16::MAX,
    ensures
        then_sections(begin(old(store)@), list@, section_data(sections@), sections@.len()) == (Saved {
            tree: final(store)@,
            error: r.err(),
        }),
{
    let ghost start = begin(old(store)@);
    let ghost ds = section_data(sections@);
    let mut i: u16 = 0;
    while (i as usize) < sections.len()
        invariant
            i <= sections@.len() <= u16::MAX,
            ds == section_data(sections@),
            start == begin(old(store)@),
            then_sections(start, list@, ds, i as nat) == begin(store@),
        decreases sections@.len() - i,
    {
        let name = index_name(i);
        let sub = match crate::field::make_dir(store, list, name.as_str()) {
            Ok(c) => c,
            Err(e) => {
                proof {
                    lemma_then_sections_error(
                        start,
                        list@,
                        ds,
                        (i + 1) as nat,
                        sections@.len(),
                    );
                }
                return Err(e);
            },
        };
        match Section::store_fields(&sections[i as usize], &sub, store) {
            Ok(_) => {},
            Err(e) => {
                proof {
                    lemma_then_sections_error(
                        start,
                        list@,
                        ds,
                        (i + 1) as nat,
                        sections@.len(),
                    );
                }
                return Err(e);
            },
        }
        i = i + 1;
    }
    Ok(())
}

impl Entry {
    /// What the entry has in its cache, the sections apart.
    pub open spec fn cache(&self) -> EntryCache {
        EntryCache {
            title: text_of(self.title),
            description: text_of(self.description),
            date: match self.date {
                Some(d) => Some((d[0], d[1], d[2])),
                None => None,
            },
            notes: texts_in(self.notes),
            tags: texts_in(self.tags),
        }
    }

    /// Nothing is cached.
    pub open spec fn is_clear(&self) -> bool {
        self.sections is None && self.title is None && self.description is None
            && self.tags is None && self.notes is None && self.date is None
    }

    /// Stores `fields` as an entry under its uid in the container `database`
    /// and returns the entry with an empty cache.
    pub fn compose(fields: EntryFields, database: &Container, store: &mut Store) -> (r: Result<
        Entry,
        StoreError,
    >)
        ensures
            entry_stored(old(store)@, database@, fields@) == (Saved {
                tree: final(store)@,
                error: r.err(),
            }),
            r matches Ok(e) ==> e.uid@ == fields.uid@ && e.container@ == database@.push(
                fields.uid@,
            ) && e.is_clear(),
    {
        if fields.sections.len() > 65535 {
            return Err(StoreError::TooLong);
        }
        let ghost first = then_dir(begin(old(store)@), database@, fields.uid@);
        let ghost second = then_dir(first, database@.push(fields.uid@), "sections"@);
        proof {
            let sc = database@.push(fields.uid@).push("sections"@);
            if second.error is Some {
                lemma_then_sections_error(
                    second,
                    sc,
                    fields@.sections,
                    0,
                    fields@.sections.len(),
                );
            }
        }
        let container = match crate::field::make_dir(store, database, fields.uid.as_str()) {
            Ok(c) => c,
            Err(e) => {
                return Err(e);
            },
        };
        let list = match crate::field::make_dir(store, &container, "sections") {
            Ok(c) => c,
            Err(e) => {
                return Err(e);
            },
        };
        match store_sections(&fields.sections, &list, store) {
            Ok(_) => {},
            Err(e) => {
                return Err(e);
            },
        }
        proof {
            reveal_strlit("length");
        }
        let count: u16 = fields.sections.len() as u16;
        match store.write_data(&list, "length", Scalar::U16(count)) {
            Ok(_) => {},
            Err(e) => {
                return Err(e);
            },
        }
        let ghost data = fields@;
        let mut this = Entry {
            container,
            uid: fields.uid,
            sections: None,
            title: Some(fields.title),
            description: Some(fields.description),
            tags: Some(fields.tags),
            notes: Some(fields.notes),
            date: Some(fields.date),
        };
        assert(this.cache().notes->0 =~= data.notes);
        assert(this.cache().tags->0 =~= data.tags);
        assert(this.cache() == full_entry(data));
        match this.store_lazy(store) {
            Ok(_) => {},
            Err(e) => {
                return Err(e);
            },
        }
        this.clear_cache();
        Ok(this)
    }

    /// Makes the entry that the document `doc`, the input at `entity`,
    /// describes, and stores it under its uid in the container `database`.
    /// Invalid input leaves the store as it was.
    pub fn new(
        doc: &Vec<(String, Item)>,
        entity: &str,
        database: &Container,
        files: &Files,
        store: &mut Store,
    ) -> (r: Result<Entry, Fault>)
        ensures
            match entry_checked(doc@, entity@, files.listed@) {
                Err(flaw) => (r matches Err(Fault::Invalid(e)) && e@ == flaw) && final(store)@
                    == old(store)@,
                Ok(d) => entry_stored(old(store)@, database@, d).tree == final(store)@
                    && match entry_stored(old(store)@, database@, d).error {
                    Some(e) => r matches Err(Fault::Store(x)) && x == e,
                    None => r matches Ok(entry) && entry.uid@ == d.uid && entry.container@
                        == database@.push(d.uid) && entry.is_clear(),
                },
            },
    {
        let fields = match Entry::check(doc, entity, files) {
            Ok(f) => f,
            Err(e) => {
                return Err(Fault::Invalid(e));
            },
        };
        match Entry::compose(fields, database, store) {
            Ok(e) => Ok(e),
            Err(e) => Err(Fault::Store(e)),
        }
    }

    /// Writes every cached field but the sections to the store; fields that
    /// are not cached are left as they are in the store.
    pub fn store_lazy(&self, store: &mut Store) -> (r: Result<(), StoreError>)
        ensures
            entry_saved(old(store)@, self.container@, self.cache()) == (Saved {
                tree: final(store)@,
                error: r.err(),
            }),
    {
        if let Some(x) = &self.title {
            match save_text(store, &self.container, "title", x) {
                Ok(_) => {},
                Err(e) => {
                    return Err(e);
                },
            }
        }
        if let Some(x) = &self.description {
            match save_text(store, &self.container, "description", x) {
                Ok(_) => {},
                Err(e) => {
                    return Err(e);
                },
            }
        }
        if let Some(x) = &self.date {
            match save_date(store, &self.container, "date", x) {
                Ok(_) => {},
                Err(e) => {
                    return Err(e);
                },
            }
        }
        if let Some(x) = &self.notes {
            match save_strings(store, &self.container, "notes", x) {
                Ok(_) => {},
                Err(e) => {
                    return Err(e);
                },
            }
        }
        if let Some(x) = &self.tags {
            match save_strings(store, &self.container, "tags", x) {
                Ok(_) => {},
                Err(e) => {
                    return Err(e);
                },
            }
        }
        Ok(())
    }

    /// Attaches to the entry `uid` that was stored in `container`; nothing is
    /// loaded yet.
    pub fn load_lazy(uid: String, container: Container) -> (r: Entry)
        ensures
            r.uid == uid,
            r.container == container,
            r.is_clear(),
    {
        Entry {
            container,
            uid,
            title: None,
            sections: None,
            description: None,
            tags: None,
            notes: None,
            date: None,
        }
    }

    /// Forgets every cached field.
    pub fn clear_cache(&mut self)
        ensures
            final(self).container == old(self).container,
            final(self).uid == old(self).uid,
            final(self).is_clear(),
    {
        self.title = None;
        self.sections = None;
        self.description = None;
        self.tags = None;
        self.notes = None;
        self.date = None;
    }

    /// The title: loaded from the store on first use, then cached.
    pub fn title(&mut self, store: &Store) -> (r: Result<&String, StoreError>)
        ensures
            *final(self) == (Entry { title: final(self).title, ..*old(self) }),
            match r {
                Ok(s) => lazy_text(old(self).title, store@, old(self).container@, "title"@) == Ok::<
                    Seq<char>,
                    StoreError,
                >(s@) && final(self).title == Some(*s),
                Err(e) => lazy_text(old(self).title, store@, old(self).container@, "title"@)
                    == Err::<Seq<char>, StoreError>(e) && final(self).title == old(self).title,
            },
    {
        fetch_text(&mut self.title, store, &self.container, "title")
    }

    /// The description: loaded from the store on first use, then cached.
    pub fn description(&mut self, store: &Store) -> (r: Result<&String, StoreError>)
        ensures
            *final(self) == (Entry { description: final(self).description, ..*old(self) }),
            match r {
                Ok(s) => lazy_text(
                    old(self).description,
                    store@,
                    old(self).container@,
                    "description"@,
                ) == Ok::<Seq<char>, StoreError>(s@) && final(self).description == Some(*s),
                Err(e) => lazy_text(
                    old(self).description,
                    store@,
                    old(self).container@,
                    "description"@,
                ) == Err::<Seq<char>, StoreError>(e) && final(self).description == old(
                    self
                ).description,
            },
    {
        fetch_text(&mut self.description, store, &self.container, "description")
    }

    /// The notes: loaded from the store on first use, then cached.
    pub fn notes(&mut self, store: &Store) -> (r: Result<&Vec<String>, StoreError>)
        ensures
            *final(self) == (Entry { notes: final(self).notes, ..*old(self) }),
            match r {
                Ok(v) => lazy_strings(old(self).notes, store@, old(self).container@, "notes"@)
                    == Ok::<Seq<Seq<char>>, StoreError>(lines(v@)) && final(self).notes == Some(*v),
                Err(e) => lazy_strings(old(self).notes, store@, old(self).container@, "notes"@)
                    == Err::<Seq<Seq<char>>, StoreError>(e) && final(self).notes == old(self).notes,
            },
    {
        fetch_strings(&mut self.notes, store, &self.container, "notes")
    }

    /// The tags: loaded from the store on first use, then cached.
    pub fn tags(&mut self, store: &Store) -> (r: Result<&Vec<String>, StoreError>)
        ensures
            *final(self) == (Entry { tags: final(self).tags, ..*old(self) }),
            match r {
                Ok(v) => lazy_strings(old(self).tags, store@, old(self).container@, "tags"@)
                    == Ok::<Seq<Seq<char>>, StoreError>(lines(v@)) && final(self).tags == Some(*v),
                Err(e) => lazy_strings(old(self).tags, store@, old(self).container@, "tags"@)
                    == Err::<Seq<Seq<char>>, StoreError>(e) && final(self).tags == old(self).tags,
            },
    {
        fetch_strings(&mut self.tags, store, &self.container, "tags")
    }

    /// The date, as day, month and year: loaded from the store on first use,
    /// then cached.
    pub fn date(&mut self, store: &Store) -> (r: Result<&[u16; 3], StoreError>)
        ensures
            *final(self) == (Entry { date: final(self).date, ..*old(self) }),
            match r {
                Ok(d) => lazy_date(old(self).date, store@, old(self).container@, "date"@) == Ok::<
                    (u16, u16, u16),
                    StoreError,
                >((d[0], d[1], d[2])) && final(self).date == Some(*d),
                Err(e) => lazy_date(old(self).date, store@, old(self).container@, "date"@) == Err::<
                    (u16, u16, u16),
                    StoreError,
                >(e) && final(self).date == old(self).date,
            },
    {
        fetch_date(&mut self.date, store, &self.container, "date")
    }

    /// The sections, each attached to its container with nothing loaded:
    /// found in the store on first use, then cached.
    pub fn sections(&mut self, store: &Store) -> (r: Result<&Vec<Section>, StoreError>)
        ensures
            *final(self) == (Entry { sections: final(self).sections, ..*old(self) }),
            match r {
                Ok(v) => lazy_sections(old(self).sections, store@, old(self).container@) == Ok::<
                    Seq<Path>,
                    StoreError,
                >(handles(v@)) && final(self).sections == Some(*v) && (old(self).sections is None
                    ==> forall|i: int|
                    0 <= i < v@.len() ==> (#[trigger] v@[i]).title is None && v@[i].content is None
                        && v@[i].notes is None),
                Err(e) => lazy_sections(old(self).sections, store@, old(self).container@) == Err::<
                    Seq<Path>,
                    StoreError,
                >(e) && final(self).sections == old(self).sections,
            },
    {
        if self.sections.is_none() {
            let list = self.container.child("sections");
            let length = match load_length(&list, store) {
                Ok(n) => n,
                Err(e) => {
                    return Err(e);
                },
            };
            let mut out: Vec<Section> = Vec::new();
            let mut i: u16 = 0;
            assert(handles(out@) =~= Seq::<Path>::empty());
            while i < length
                invariant
                    i <= length,
                    out@.len() == i,
                    *self == *old(self),
                    self.sections is None,
                    list_length(store@, list@) == Ok::<u16, StoreError>(length),
                    list@ == self.container@.push("sections"@),
                    section_handles(store@, list@, i as nat) == Ok::<Seq<Path>, StoreError>(
                        handles(out@),
                    ),
                    forall|j: int|
                        0 <= j < out@.len() ==> (#[trigger] out@[j]).title is None
                            && out@[j].content is None && out@[j].notes is None,
                decreases length - i,
            {
                let name = index_name(i);
                match store.read_container(&list, name.as_str()) {
                    Ok(c) => {
                        let ghost before = handles(out@);
                        out.push(Section::load_lazy(c));
                        assert(handles(out@) =~= before.push(c@));
                    },
                    Err(e) => {
                        proof {
                            lemma_handles_error(store@, list@, (i + 1) as nat, length as nat);
                        }
                        return Err(e);
                    },
                }
                i = i + 1;
            }
            self.sections = Some(out);
        }
        Ok(self.sections.as_ref().unwrap())
    }
}

/// The keys of an entry differ from each other.
pub proof fn lemma_entry_keys()
    ensures
        "title"@ != "description"@,
        "title"@ != "date"@,
        "title"@ != "notes"@,
        "title"@ != "tags"@,
        "title"@ != "sections"@,
        "description"@ != "date"@,
        "description"@ != "notes"@,
        "description"@ != "tags"@,
        "description"@ != "sections"@,
        "date"@ != "notes"@,
        "date"@ != "tags"@,
        "date"@ != "sections"@,
        "notes"@ != "tags"@,
        "notes"@ != "sections"@,
        "tags"@ != "sections"@,
{
    reveal_strlit("title");
    reveal_strlit("description");
    reveal_strlit("date");
    reveal_strlit("notes");
    reveal_strlit("tags");
    reveal_strlit("sections");
    assert("title"@.len() == 5 && "description"@.len() == 11 && "date"@.len() == 4);
    assert("notes"@.len() == 5 && "tags"@.len() == 4 && "sections"@.len() == 8);
    assert("title"@[0] == 't' && "notes"@[0] == 'n');
    assert("date"@[0] == 'd' && "tags"@[0] == 't');
}

/// Storing the cached fields of an entry changes nothing but the three
/// scalars and the two lists that it writes.
pub proof fn lemma_then_entry_other(s: Saved, c: Path, cache: EntryCache, p: Path)
    requires
        then_entry(s, c, cache).error is None,
        p != c.push("title"@),
        p != c.push("description"@),
        p != c.push("date"@),
        !under(p, c.push("notes"@)),
        !under(p, c.push("tags"@)),
    ensures
        s.error is None,
        same_at(then_entry(s, c, cache).tree, s.tree, p),
{
    let s1 = then_text(s, c, "title"@, cache.title);
    let s2 = then_text(s1, c, "description"@, cache.description);
    let s3 = then_date(s2, c, "date"@, cache.date);
    let s4 = then_strings(s3, c, "notes"@, cache.notes);
    lemma_then_strings_other(s4, c, "tags"@, cache.tags, p);
    lemma_then_strings_other(s3, c, "notes"@, cache.notes, p);
    if cache.date is Some {
        lemma_then_datum_other(s2, c, "date"@, date_datum(cache.date->0), p);
    }
    if cache.description is Some {
        lemma_then_datum_other(s1, c, "description"@, Datum::Text(cache.description->0), p);
    }
    if cache.title is Some {
        lemma_then_datum_other(s, c, "title"@, Datum::Text(cache.title->0), p);
    }
}

/// Storing the cached fields of an entry changes nothing outside its
/// container, and nothing among its sections.
pub proof fn lemma_then_entry_apart(s: Saved, c: Path, cache: EntryCache, p: Path)
    requires
        then_entry(s, c, cache).error is None,
        !under(p, c) || p == c || under(p, c.push("sections"@)),
    ensures
        s.error is None,
        same_at(then_entry(s, c, cache).tree, s.tree, p),
{
    lemma_entry_keys();
    lemma_child_below(c, "title"@);
    lemma_child_below(c, "description"@);
    lemma_child_below(c, "date"@);
    if under(p, c.push("notes"@)) {
        lemma_under_child(p, c, "notes"@);
        if under(p, c.push("sections"@)) {
            lemma_under_child(p, c, "sections"@);
        }
    }
    if under(p, c.push("tags"@)) {
        lemma_under_child(p, c, "tags"@);
        if under(p, c.push("sections"@)) {
            lemma_under_child(p, c, "sections"@);
        }
    }
    if under(p, c.push("sections"@)) {
        lemma_under_child(p, c, "sections"@);
    }
    lemma_then_entry_other(s, c, cache, p);
}

/// What reading each field of an entry, the sections apart, yields.
pub ghost struct EntryRead {
    pub title: Result<Seq<char>, StoreError>,
    pub description: Result<Seq<char>, StoreError>,
    pub date: Result<(u16, u16, u16), StoreError>,
    pub notes: Result<Seq<Seq<char>>, StoreError>,
    pub tags: Result<Seq<Seq<char>>, StoreError>,
}

/// What reading each field of the entry in container `c` yields.
pub open spec fn entry_read(t: Tree, c: Path) -> EntryRead {
    EntryRead {
        title: text_at(t, c, "title"@),
        description: text_at(t, c, "description"@),
        date: date_at(t, c, "date"@),
        notes: strings_at(t, c, "notes"@),
        tags: strings_at(t, c, "tags"@),
    }
}

/// What reading each field yields where the fields `d` are stored.
pub open spec fn entry_read_of(d: EntryData) -> EntryRead {
    EntryRead {
        title: Ok(d.title),
        description: Ok(d.description),
        date: Ok(d.date),
        notes: Ok(d.notes),
        tags: Ok(d.tags),
    }
}

/// After a run that ends with storing all fields of an entry, each field is
/// read back as it was given.
pub proof fn lemma_then_entry_read_back(s: Saved, c: Path, d: EntryData)
    requires
        then_entry(s, c, full_entry(d)).error is None,
    ensures
        s.error is None,
        is_dir(s.tree, c),
        entry_read(then_entry(s, c, full_entry(d)).tree, c) == entry_read_of(d),
{
    lemma_entry_keys();
    let s1 = then_datum(s, c, "title"@, Datum::Text(d.title));
    let s2 = then_datum(s1, c, "description"@, Datum::Text(d.description));
    let s3 = then_datum(s2, c, "date"@, date_datum(d.date));
    let s4 = then_strings(s3, c, "notes"@, Some(d.notes));
    let s5 = then_strings(s4, c, "tags"@, Some(d.tags));
    assert(s5 == then_entry(s, c, full_entry(d)));
    lemma_then_strings(s4, c, "tags"@, d.tags);
    lemma_then_strings(s3, c, "notes"@, d.notes);
    lemma_then_datum(s2, c, "date"@, date_datum(d.date));
    lemma_then_datum(s1, c, "description"@, Datum::Text(d.description));
    lemma_then_datum(s, c, "title"@, Datum::Text(d.title));
    let pt = c.push("title"@);
    let pd = c.push("description"@);
    let pe = c.push("date"@);
    lemma_child_below(c, "title"@);
    lemma_child_below(c, "description"@);
    lemma_child_below(c, "date"@);
    assert forall|p: Path| p == pt || p == pd || p == pe implies !under(p, c.push("notes"@))
        && !under(p, c.push("tags"@)) by {
        if under(p, c.push("notes"@)) {
            lemma_under_child(p, c, "notes"@);
        }
        if under(p, c.push("tags"@)) {
            lemma_under_child(p, c, "tags"@);
        }
    }
    lemma_then_strings_other(s4, c, "tags"@, Some(d.tags), pt);
    lemma_then_strings_other(s4, c, "tags"@, Some(d.tags), pd);
    lemma_then_strings_other(s4, c, "tags"@, Some(d.tags), pe);
    lemma_then_strings_other(s3, c, "notes"@, Some(d.notes), pt);
    lemma_then_strings_other(s3, c, "notes"@, Some(d.notes), pd);
    lemma_then_strings_other(s3, c, "notes"@, Some(d.notes), pe);
    lemma_then_datum_other(s2, c, "date"@, date_datum(d.date), pt);
    lemma_then_datum_other(s2, c, "date"@, date_datum(d.date), pd);
    lemma_then_datum_other(s1, c, "description"@, Datum::Text(d.description), pt);
    assert forall|p: Path| #[trigger] under(p, c.push("notes"@)) implies same_at(
        s5.tree,
        s4.tree,
        p,
    ) by {
        lemma_siblings_apart(p, c, "notes"@, "tags"@);
        lemma_then_strings_other(s4, c, "tags"@, Some(d.tags), p);
    }
    crate::field::lemma_strings_at_local(s5.tree, s4.tree, c, "notes"@);
    assert(date_datum(d.date)->U16Array_0.len() == 3);
}

/// Storing sections changes nothing outside the containers of the sections
/// that are stored.
pub proof fn lemma_then_sections_other(s: Saved, sc: Path, ds: Seq<SectionData>, n: nat, p: Path)
    requires
        then_sections(s, sc, ds, n).error is None,
        forall|j: nat| j < n ==> !under(p, sc.push(#[trigger] index_key(j))),
    ensures
        s.error is None,
        same_at(then_sections(s, sc, ds, n).tree, s.tree, p),
    decreases n,
{
    if n > 0 {
        let j = (n - 1) as nat;
        let prev = then_sections(s, sc, ds, j);
        let dir = then_dir(prev, sc, index_key(j));
        let cj = sc.push(index_key(j));
        assert(!under(p, sc.push(index_key(j))));
        lemma_then_section_other(dir, cj, full_section(ds[j as int]), p);
        lemma_then_dir(prev, sc, index_key(j));
        lemma_then_dir_other(prev, sc, index_key(j), p);
        lemma_then_sections_other(s, sc, ds, j, p);
    }
}

/// After the first `n` sections were stored, section `i` has its container
/// and is read back as it was given.
pub proof fn lemma_then_sections_at(s: Saved, sc: Path, ds: Seq<SectionData>, n: nat, i: nat)
    requires
        then_sections(s, sc, ds, n).error is None,
        i < n,
    ensures
        s.error is None,
        then_sections(s, sc, ds, n).tree.contains_key(sc.push(index_key(i))),
        then_sections(s, sc, ds, n).tree[sc.push(index_key(i))] is Dir,
        section::section_read(then_sections(s, sc, ds, n).tree, sc.push(index_key(i)))
            == section::read_of(ds[i as int]),
    decreases n,
{
    let j = (n - 1) as nat;
    let prev = then_sections(s, sc, ds, j);
    let dir = then_dir(prev, sc, index_key(j));
    let cj = sc.push(index_key(j));
    let ci = sc.push(index_key(i));
    let done = then_section(dir, cj, full_section(ds[j as int]));
    assert(done == then_sections(s, sc, ds, n));
    lemma_then_section_read_back(dir, cj, ds[j as int]);
    lemma_then_section_other(dir, cj, full_section(ds[j as int]), cj);
    lemma_then_dir(prev, sc, index_key(j));
    lemma_child_below(sc, index_key(j));
    if i == j {
        lemma_then_sections_other_all(s, sc, ds, j);
    } else {
        lemma_then_sections_at(s, sc, ds, j, i);
        assert(index_key(i) != index_key(j)) by {
            if index_key(i) == index_key(j) {
                lemma_index_key_injective(i, j);
            }
        }
        assert forall|p: Path| #[trigger] under(p, ci) implies same_at(done.tree, prev.tree, p) by {
            lemma_siblings_apart(p, sc, index_key(i), index_key(j));
            lemma_then_section_other(dir, cj, full_section(ds[j as int]), p);
            lemma_then_dir_other(prev, sc, index_key(j), p);
        }
        section::lemma_section_read_local(done.tree, prev.tree, ci);
        assert(ci.take(ci.len() as int) =~= ci);
        assert(under(ci, ci));
    }
}

/// A run that stored sections without an error began without one.
proof fn lemma_then_sections_other_all(s: Saved, sc: Path, ds: Seq<SectionData>, n: nat)
    requires
        then_sections(s, sc, ds, n).error is None,
    ensures
        s.error is None,
    decreases n,
{
    if n > 0 {
        let j = (n - 1) as nat;
        let prev = then_sections(s, sc, ds, j);
        let dir = then_dir(prev, sc, index_key(j));
        lemma_then_section_other(dir, sc.push(index_key(j)), full_section(ds[j as int]), sc);
        lemma_child_below(sc, index_key(j));
        lemma_then_dir(prev, sc, index_key(j));
        lemma_then_sections_other_all(s, sc, ds, j);
    }
}

/// The containers of the first `n` sections of a list, by index.
pub open spec fn section_paths(sc: Path, n: nat) -> Seq<Path> {
    Seq::new(n, |i: int| sc.push(index_key(i as nat)))
}

/// Where each of the first `n` section containers exists, they are found.
proof fn lemma_handles_found(t: Tree, sc: Path, n: nat)
    requires
        forall|i: nat|
            i < n ==> t.contains_key(sc.push(#[trigger] index_key(i))) && t[sc.push(
                index_key(i),
            )] is Dir,
    ensures
        section_handles(t, sc, n) == Ok::<Seq<Path>, StoreError>(section_paths(sc, n)),
    decreases n,
{
    if n > 0 {
        lemma_handles_found(t, sc, (n - 1) as nat);
        let i = (n - 1) as nat;
        assert(t.contains_key(sc.push(index_key(i))));
        assert(section_paths(sc, n) =~= section_paths(sc, i).push(sc.push(index_key(i))));
    } else {
        assert(section_paths(sc, 0) =~= Seq::<Path>::empty());
    }
}

/// An entry that was stored is read back: with an empty cache each field
/// yields the value that was given, and the sections are found in order.
pub proof fn lemma_entry_read_back(t: Tree, db: Path, d: EntryData)
    requires
        entry_stored(t, db, d).error is None,
    ensures
        entry_read(entry_stored(t, db, d).tree, db.push(d.uid)) == entry_read_of(d),
        sections_at(entry_stored(t, db, d).tree, db.push(d.uid)) == Ok::<Seq<Path>, StoreError>(
            section_paths(db.push(d.uid).push("sections"@), d.sections.len()),
        ),
{
    let c = db.push(d.uid);
    let sc = c.push("sections"@);
    let n = d.sections.len();
    let s1 = then_dir(begin(t), db, d.uid);
    let s2 = then_dir(s1, c, "sections"@);
    let s3 = then_sections(s2, sc, d.sections, n);
    let s4 = then_datum(s3, sc, length_key(), Datum::U16(n as u16));
    let s5 = then_entry(s4, c, full_entry(d));
    assert(s5 == entry_stored(t, db, d));
    lemma_then_entry_read_back(s4, c, d);
    lemma_then_datum(s3, sc, length_key(), Datum::U16(n as u16));
    lemma_child_below(c, "sections"@);
    lemma_child_below(sc, length_key());
    assert(sc.take(sc.len() as int) =~= sc);
    lemma_then_entry_apart(s4, c, full_entry(d), sc);
    lemma_then_entry_apart(s4, c, full_entry(d), sc.push(length_key()));
    assert(under(sc.push(length_key()), sc));
    lemma_then_datum_other(s3, sc, length_key(), Datum::U16(n as u16), sc);
    assert forall|i: nat| i < n implies s5.tree.contains_key(sc.push(#[trigger] index_key(i)))
        && s5.tree[sc.push(index_key(i))] is Dir by {
        lemma_entry_section_read_back(t, db, d, i);
    }
    lemma_handles_found(s5.tree, sc, n);
}

/// A section of an entry that was stored has its container and is read back
/// as it was given.
pub proof fn lemma_entry_section_read_back(t: Tree, db: Path, d: EntryData, i: nat)
    requires
        entry_stored(t, db, d).error is None,
        i < d.sections.len(),
    ensures
        entry_stored(t, db, d).tree.contains_key(
            db.push(d.uid).push("sections"@).push(index_key(i)),
        ),
        entry_stored(t, db, d).tree[db.push(d.uid).push("sections"@).push(index_key(i))] is Dir,
        section::section_read(
            entry_stored(t, db, d).tree,
            db.push(d.uid).push("sections"@).push(index_key(i)),
        ) == section::read_of(d.sections[i as int]),
{
    let c = db.push(d.uid);
    let sc = c.push("sections"@);
    let ci = sc.push(index_key(i));
    let n = d.sections.len();
    let s1 = then_dir(begin(t), db, d.uid);
    let s2 = then_dir(s1, c, "sections"@);
    let s3 = then_sections(s2, sc, d.sections, n);
    let s4 = then_datum(s3, sc, length_key(), Datum::U16(n as u16));
    let s5 = then_entry(s4, c, full_entry(d));
    assert(s5 == entry_stored(t, db, d));
    lemma_then_entry_apart(s4, c, full_entry(d), c);
    lemma_then_datum(s3, sc, length_key(), Datum::U16(n as u16));
    lemma_then_sections_at(s2, sc, d.sections, n, i);
    lemma_index_key_not_length(i);
    assert forall|p: Path| #[trigger] under(p, ci) implies same_at(s5.tree, s3.tree, p) by {
        lemma_under_child(p, sc, index_key(i));
        lemma_siblings_apart(p, sc, index_key(i), length_key());
        assert(sc.push(length_key()).take(sc.push(length_key()).len() as int) =~= sc.push(
            length_key(),
        ));
        lemma_then_datum_other(s3, sc, length_key(), Datum::U16(n as u16), p);
        lemma_then_entry_apart(s4, c, full_entry(d), p);
    }
    section::lemma_section_read_local(s5.tree, s3.tree, ci);
    assert(ci.take(ci.len() as int) =~= ci);
    assert(under(ci, ci));
}

/// Storing an entry changes nothing outside the entry's container.
pub proof fn lemma_entry_stored_other(t: Tree, db: Path, d: EntryData, p: Path)
    requires
        entry_stored(t, db, d).error is None,
        !under(p, db.push(d.uid)),
    ensures
        same_at(entry_stored(t, db, d).tree, t, p),
{
    let c = db.push(d.uid);
    let sc = c.push("sections"@);
    let n = d.sections.len();
    let s1 = then_dir(begin(t), db, d.uid);
    let s2 = then_dir(s1, c, "sections"@);
    let s3 = then_sections(s2, sc, d.sections, n);
    let s4 = then_datum(s3, sc, length_key(), Datum::U16(n as u16));
    let s5 = then_entry(s4, c, full_entry(d));
    assert(s5 == entry_stored(t, db, d));
    if under(p, sc) {
        lemma_under_child(p, c, "sections"@);
    }
    lemma_child_below(sc, length_key());
    lemma_child_below(c, "sections"@);
    if p == sc.push(length_key()) {
        crate::store::lemma_under_trans(p, sc, c);
    }
    lemma_then_entry_apart(s4, c, full_entry(d), p);
    lemma_then_datum_other(s3, sc, length_key(), Datum::U16(n as u16), p);
    assert forall|j: nat| j < n implies !under(p, sc.push(#[trigger] index_key(j))) by {
        if under(p, sc.push(index_key(j))) {
            lemma_under_child(p, sc, index_key(j));
        }
    }
    lemma_then_sections_other(s2, sc, d.sections, n, p);
    lemma_then_dir_other(s1, c, "sections"@, p);
    lemma_then_dir(s1, c, "sections"@);
    lemma_then_dir_other(begin(t), db, d.uid, p);
}

/// Trees that hold the same in the subtree of a list of sections find the
/// same sections there.
proof fn lemma_handles_local(a: Tree, b: Tree, sc: Path, n: nat)
    requires
        crate::store::agree_under(a, b, sc),
    ensures
        section_handles(a, sc, n) == section_handles(b, sc, n),
    decreases n,
{
    if n > 0 {
        lemma_handles_local(a, b, sc, (n - 1) as nat);
        lemma_child_below(sc, index_key((n - 1) as nat));
        assert(under(sc.push(index_key((n - 1) as nat)), sc));
    }
}

/// Trees that hold the same in the subtree of an entry's container yield
/// the same fields and the same sections.
pub proof fn lemma_entry_read_local(a: Tree, b: Tree, c: Path)
    requires
        crate::store::agree_under(a, b, c),
    ensures
        entry_read(a, c) == entry_read(b, c),
        sections_at(a, c) == sections_at(b, c),
{
    lemma_child_below(c, "title"@);
    lemma_child_below(c, "description"@);
    lemma_child_below(c, "date"@);
    lemma_child_below(c, "notes"@);
    lemma_child_below(c, "tags"@);
    lemma_child_below(c, "sections"@);
    assert(under(c.push("title"@), c));
    assert(under(c.push("description"@), c));
    assert(under(c.push("date"@), c));
    crate::store::lemma_agree_within(a, b, c, c.push("notes"@));
    crate::store::lemma_agree_within(a, b, c, c.push("tags"@));
    crate::store::lemma_agree_within(a, b, c, c.push("sections"@));
    crate::field::lemma_strings_at_local(a, b, c, "notes"@);
    crate::field::lemma_strings_at_local(a, b, c, "tags"@);
    crate::list::lemma_list_read_local(a, b, c.push("sections"@));
    if list_length(a, c.push("sections"@)) is Ok {
        lemma_handles_local(
            a,
            b,
            c.push("sections"@),
            list_length(a, c.push("sections"@))->Ok_0 as nat,
        );
    }
}

/// An entry that was stored has its container.
pub proof fn lemma_entry_stored_dir(t: Tree, db: Path, d: EntryData)
    requires
        entry_stored(t, db, d).error is None,
    ensures
        entry_stored(t, db, d).tree.contains_key(db.push(d.uid)),
        entry_stored(t, db, d).tree[db.push(d.uid)] is Dir,
{
    let c = db.push(d.uid);
    let sc = c.push("sections"@);
    let n = d.sections.len();
    let s1 = then_dir(begin(t), db, d.uid);
    let s2 = then_dir(s1, c, "sections"@);
    let s3 = then_sections(s2, sc, d.sections, n);
    let s4 = then_datum(s3, sc, length_key(), Datum::U16(n as u16));
    let s5 = then_entry(s4, c, full_entry(d));
    assert(s5 == entry_stored(t, db, d));
    lemma_child_below(c, "sections"@);
    lemma_child_below(sc, length_key());
    lemma_then_entry_apart(s4, c, full_entry(d), c);
    lemma_then_datum_other(s3, sc, length_key(), Datum::U16(n as u16), c);
    assert forall|j: nat| j < n implies !under(c, sc.push(#[trigger] index_key(j))) by {
        if under(c, sc.push(index_key(j))) {
            lemma_under_child(c, sc, index_key(j));
        }
    }
    lemma_then_sections_other(s2, sc, d.sections, n, c);
    lemma_then_dir_other(s1, c, "sections"@, c);
    lemma_then_dir(s1, c, "sections"@);
    lemma_then_dir(begin(t), db, d.uid);
}

/// Why an entity could not be pulled out of the archive.
#[derive(Debug, Clone, Copy, PartialEq, Eq)]
pub enum PullError {
    /// A field could not be read.
    Store(StoreError),
    /// The date is none that a document can write.
    InvalidDate,
}

/// An entity as the input that describes it, with the files that the input
/// names and the texts that they are to hold.
#[derive(Debug, PartialEq)]
pub struct Pulled {
    pub document: Vec<(String, Item)>,
    pub files: Vec<(String, String)>,
}

/// What reading each field of an entry yields, the cached fields first.
pub open spec fn entry_lazy(e: Entry, t: Tree) -> EntryRead {
    EntryRead {
        title: lazy_text(e.title, t, e.container@, "title"@),
        description: lazy_text(e.description, t, e.container@, "description"@),
        date: lazy_date(e.date, t, e.container@, "date"@),
        notes: lazy_strings(e.notes, t, e.container@, "notes"@),
        tags: lazy_strings(e.tags, t, e.container@, "tags"@),
    }
}

/// How the slot for the sections stands after its turn in filling a cache:
/// where its turn came and the sections could be found, it holds them; else
/// it is as it was.
pub open spec fn filled_sections(
    before: Option<Vec<Section>>,
    after: Option<Vec<Section>>,
    t: Tree,
    c: Path,
    reached: bool,
) -> bool {
    if reached && lazy_sections(before, t, c) is Ok {
        after is Some && handles(after->0@) == lazy_sections(before, t, c)->Ok_0
    } else {
        after == before
    }
}

/// The first error that filling the cache of an entry meets, if any: the
/// fields are read in the order title, description, sections, tags, notes,
/// date.
pub open spec fn entry_fill_error(e: Entry, t: Tree) -> Option<StoreError> {
    if entry_lazy(e, t).title is Err {
        Some(entry_lazy(e, t).title->Err_0)
    } else if entry_lazy(e, t).description is Err {
        Some(entry_lazy(e, t).description->Err_0)
    } else if lazy_sections(e.sections, t, e.container@) is Err {
        Some(lazy_sections(e.sections, t, e.container@)->Err_0)
    } else if entry_lazy(e, t).tags is Err {
        Some(entry_lazy(e, t).tags->Err_0)
    } else if entry_lazy(e, t).notes is Err {
        Some(entry_lazy(e, t).notes->Err_0)
    } else if entry_lazy(e, t).date is Err {
        Some(entry_lazy(e, t).date->Err_0)
    } else {
        None
    }
}

/// The first error that reading the sections at `paths` meets, if any.
pub open spec fn sections_read_error(t: Tree, paths: Seq<Path>, n: nat) -> Option<StoreError>
    decreases n,
{
    if n == 0 {
        None
    } else if sections_read_error(t, paths, (n - 1) as nat) is Some {
        sections_read_error(t, paths, (n - 1) as nat)
    } else {
        section::section_fill_error(None, None, None, t, paths[n - 1])
    }
}

/// The fields of an entry, the sections apart, can be read and its date can
/// be written.
pub open spec fn pull_head_ok(e: Entry, t: Tree) -> bool {
    entry_lazy(e, t).title is Ok && entry_lazy(e, t).description is Ok && entry_lazy(
        e,
        t,
    ).notes is Ok && entry_lazy(e, t).tags is Ok && entry_lazy(e, t).date is Ok
        && crate::parse::writable_date(
        entry_lazy(e, t).date->Ok_0.2,
        entry_lazy(e, t).date->Ok_0.1,
        entry_lazy(e, t).date->Ok_0.0,
    )
}

/// Why an entry cannot be pulled, if it cannot: the fields are read in the
/// order title, description, notes, tags, date; then come the sections as
/// the store holds them.
pub open spec fn entry_pull_error(e: Entry, t: Tree) -> Option<PullError> {
    if entry_lazy(e, t).title is Err {
        Some(PullError::Store(entry_lazy(e, t).title->Err_0))
    } else if entry_lazy(e, t).description is Err {
        Some(PullError::Store(entry_lazy(e, t).description->Err_0))
    } else if entry_lazy(e, t).notes is Err {
        Some(PullError::Store(entry_lazy(e, t).notes->Err_0))
    } else if entry_lazy(e, t).tags is Err {
        Some(PullError::Store(entry_lazy(e, t).tags->Err_0))
    } else if entry_lazy(e, t).date is Err {
        Some(PullError::Store(entry_lazy(e, t).date->Err_0))
    } else if !crate::parse::writable_date(
        entry_lazy(e, t).date->Ok_0.2,
        entry_lazy(e, t).date->Ok_0.1,
        entry_lazy(e, t).date->Ok_0.0,
    ) {
        Some(PullError::InvalidDate)
    } else if sections_at(t, e.container@) is Err {
        Some(PullError::Store(sections_at(t, e.container@)->Err_0))
    } else if sections_read_error(
        t,
        sections_at(t, e.container@)->Ok_0,
        sections_at(t, e.container@)->Ok_0.len(),
    ) is Some {
        Some(
            PullError::Store(
                sections_read_error(
                    t,
                    sections_at(t, e.container@)->Ok_0,
                    sections_at(t, e.container@)->Ok_0.len(),
                )->0,
            ),
        )
    } else {
        None
    }
}

/// The pairs are the table that describes an entry with the uid `uid` and
/// the fields `r`.
pub open spec fn pulled_head(pairs: Seq<(String, Item)>, uid: Seq<char>, r: EntryRead) -> bool {
    pairs.len() == 6 && gives_text(pairs[0], "uid"@, uid) && gives_text(
        pairs[1],
        "title"@,
        r.title->Ok_0,
    ) && gives_text(pairs[2], "description"@, r.description->Ok_0) && gives_texts(
        pairs[3],
        "notes"@,
        r.notes->Ok_0,
    ) && gives_texts(pairs[4], "tags"@, r.tags->Ok_0) && pairs[5].0@ == "date"@ && pairs[5].1
        == Item::Datetime(
        Some(
            crate::document::Date {
                year: r.date->Ok_0.2,
                month: r.date->Ok_0.1 as u8,
                day: r.date->Ok_0.0 as u8,
            },
        ),
    )
}

/// The fields of the section in container `c`, as the store holds them.
pub open spec fn section_stored_data(t: Tree, c: Path) -> SectionData {
    SectionData {
        title: section::section_read(t, c).title->Ok_0,
        content: section::section_read(t, c).content->Ok_0,
        notes: section::section_read(t, c).notes->Ok_0,
    }
}

/// The file that belongs to section `i` among the files of a pulled entry.
pub open spec fn file_of(files: Seq<(String, String)>, one_file: bool, i: int) -> Option<
    (String, String),
> {
    if one_file {
        None
    } else {
        Some(files[i])
    }
}

/// The items and the files are the inputs that describe the first `n` of
/// the sections at `paths`.
pub open spec fn pulled_parts(
    items: Seq<Item>,
    files: Seq<(String, String)>,
    one_file: bool,
    t: Tree,
    paths: Seq<Path>,
    n: nat,
) -> bool {
    items.len() == n && files.len() == (if one_file {
        0
    } else {
        n
    }) && forall|i: int|
        0 <= i < n ==> (#[trigger] items[i] matches Item::Table(table) && section::pulled_section(
            table@,
            file_of(files, one_file, i),
            i as u16,
            one_file,
            section_stored_data(t, paths[i]),
        ))
}

impl Entry {
    /// Loads every field that is not cached yet: title, description,
    /// sections, tags, notes, date, in this order, up to the first that
    /// cannot be read.
    pub fn fill_cache(&mut self, store: &Store) -> (r: Result<(), StoreError>)
        ensures
            final(self).container == old(self).container,
            final(self).uid == old(self).uid,
            filled_text(
                old(self).title,
                final(self).title,
                store@,
                old(self).container@,
                "title"@,
                true,
            ),
            filled_text(
                old(self).description,
                final(self).description,
                store@,
                old(self).container@,
                "description"@,
                entry_lazy(*old(self), store@).title is Ok,
            ),
            filled_sections(
                old(self).sections,
                final(self).sections,
                store@,
                old(self).container@,
                entry_lazy(*old(self), store@).title is Ok && entry_lazy(
                    *old(self),
                    store@,
                ).description is Ok,
            ),
            filled_strings(
                old(self).tags,
                final(self).tags,
                store@,
                old(self).container@,
                "tags"@,
                entry_lazy(*old(self), store@).title is Ok && entry_lazy(
                    *old(self),
                    store@,
                ).description is Ok && lazy_sections(
                    old(self).sections,
                    store@,
                    old(self).container@,
                ) is Ok,
            ),
            filled_strings(
                old(self).notes,
                final(self).notes,
                store@,
                old(self).container@,
                "notes"@,
                entry_lazy(*old(self), store@).title is Ok && entry_lazy(
                    *old(self),
                    store@,
                ).description is Ok && lazy_sections(
                    old(self).sections,
                    store@,
                    old(self).container@,
                ) is Ok && entry_lazy(*old(self), store@).tags is Ok,
            ),
            filled_date(
                old(self).date,
                final(self).date,
                store@,
                old(self).container@,
                "date"@,
                entry_lazy(*old(self), store@).title is Ok && entry_lazy(
                    *old(self),
                    store@,
                ).description is Ok && lazy_sections(
                    old(self).sections,
                    store@,
                    old(self).container@,
                ) is Ok && entry_lazy(*old(self), store@).tags is Ok && entry_lazy(
                    *old(self),
                    store@,
                ).notes is Ok,
            ),
            match r {
                Ok(_) => entry_fill_error(*old(self), store@) is None && final(self).title is Some
                    && final(self).description is Some && final(self).date is Some && final(
                    self
                ).notes is Some && final(self).tags is Some && final(self).sections is Some
                    && entry_lazy(*final(self), store@) == entry_lazy(*old(self), store@)
                    && lazy_sections(final(self).sections, store@, old(self).container@)
                    == lazy_sections(old(self).sections, store@, old(self).container@),
                Err(e) => entry_fill_error(*old(self), store@) == Some(e),
            },
    {
        match self.title(store) {
            Ok(_) => {},
            Err(e) => {
                return Err(e);
            },
        }
        match self.description(store) {
            Ok(_) => {},
            Err(e) => {
                return Err(e);
            },
        }
        match self.sections(store) {
            Ok(_) => {},
            Err(e) => {
                return Err(e);
            },
        }
        match self.tags(store) {
            Ok(_) => {},
            Err(e) => {
                return Err(e);
            },
        }
        match self.notes(store) {
            Ok(_) => {},
            Err(e) => {
                return Err(e);
            },
        }
        match self.date(store) {
            Ok(_) => {},
            Err(e) => {
                return Err(e);
            },
        }
        Ok(())
    }

    /// The input that describes the entry, read back from the store. With
    /// `one_file` the texts of the sections stand in the input itself; else
    /// the input names a file for each, and the files are returned with the
    /// texts that they are to hold. The cache is empty afterwards.
    pub fn pull(&mut self, one_file: bool, store: &Store) -> (r: Result<Pulled, PullError>)
        ensures
            final(self).container == old(self).container,
            final(self).uid == old(self).uid,
            match r {
                Ok(p) => entry_pull_error(*old(self), store@) is None && final(self).is_clear()
                    && p.document@.len() == 2 && p.document@[0].0@ == "entry"@ && (
                p.document@[0].1 matches Item::Table(head) && pulled_head(
                    head@,
                    old(self).uid@,
                    entry_lazy(*old(self), store@),
                )) && p.document@[1].0@ == "section"@ && (
                p.document@[1].1 matches Item::Array(parts) && pulled_parts(
                    parts@,
                    p.files@,
                    one_file,
                    store@,
                    sections_at(store@, old(self).container@)->Ok_0,
                    sections_at(store@, old(self).container@)->Ok_0.len(),
                )),
                Err(e) => entry_pull_error(*old(self), store@) == Some(e),
            },
    {
        let mut head: Vec<(String, Item)> = Vec::new();
        head.push(text_pair("uid", &self.uid));
        match self.title(store) {
            Ok(x) => {
                head.push(text_pair("title", x));
            },
            Err(e) => {
                return Err(PullError::Store(e));
            },
        }
        match self.description(store) {
            Ok(x) => {
                head.push(text_pair("description", x));
            },
            Err(e) => {
                return Err(PullError::Store(e));
            },
        }
        match self.notes(store) {
            Ok(x) => {
                head.push(texts_pair("notes", x));
            },
            Err(e) => {
                return Err(PullError::Store(e));
            },
        }
        match self.tags(store) {
            Ok(x) => {
                head.push(texts_pair("tags", x));
            },
            Err(e) => {
                return Err(PullError::Store(e));
            },
        }
        let date = match self.date(store) {
            Ok(x) => match crate::parse::array_to_date(x) {
                Some(d) => d,
                None => {
                    return Err(PullError::InvalidDate);
                },
            },
            Err(e) => {
                return Err(PullError::Store(e));
            },
        };
        head.push(("date".to_string(), Item::Datetime(Some(date))));
        self.clear_cache();
        let ghost paths = sections_at(store@, self.container@);
        let mut probe = Entry::load_lazy(self.uid.clone(), self.container.duplicate());
        let found = match probe.sections(store) {
            Ok(v) => v,
            Err(e) => {
                return Err(PullError::Store(e));
            },
        };
        let mut parts: Vec<Item> = Vec::new();
        let mut files: Vec<(String, String)> = Vec::new();
        let mut i: usize = 0;
        let ghost wanted = paths->Ok_0;
        proof {
            let sc = self.container@.push("sections"@);
            lemma_handles_len(store@, sc, list_length(store@, sc)->Ok_0 as nat);
        }
        while i < found.len()
            invariant
                i <= found.len(),
                wanted == handles(found@),
                self.container == old(self).container,
                self.uid == old(self).uid,
                sections_at(store@, old(self).container@) == Ok::<Seq<Path>, StoreError>(wanted),
                pull_head_ok(*old(self), store@),
                found@.len() <= u16::MAX,
                sections_read_error(store@, wanted, i as nat) is None,
                pulled_parts(parts@, files@, one_file, store@, wanted, i as nat),
            decreases found.len() - i,
        {
            let mut part = Section::load_lazy(found[i].container.duplicate());
            let index: u16 = i as u16;
            let ghost old_parts = parts@;
            let ghost old_files = files@;
            match part.pull(index, one_file, store) {
                Ok((table, file)) => {
                    parts.push(Item::Table(table));
                    match file {
                        Some(f) => {
                            files.push(f);
                        },
                        None => {},
                    }
                    assert forall|j: int| 0 <= j < i + 1 implies (#[trigger] parts@[j] matches Item::Table(
                        tb,
                    ) && section::pulled_section(
                        tb@,
                        file_of(files@, one_file, j),
                        j as u16,
                        one_file,
                        section_stored_data(store@, wanted[j]),
                    )) by {
                        if j < i {
                            assert(parts@[j] == old_parts[j]);
                            assert(file_of(files@, one_file, j) == file_of(old_files, one_file, j));
                        }
                    }
                },
                Err(e) => {
                    proof {
                        lemma_sections_read_error(
                            store@,
                            wanted,
                            (i + 1) as nat,
                            found@.len() as nat,
                        );
                    }
                    return Err(PullError::Store(e));
                },
            }
            i += 1;
        }
        self.clear_cache();
        let mut document: Vec<(String, Item)> = Vec::new();
        document.push(("entry".to_string(), Item::Table(head)));
        document.push(("section".to_string(), Item::Array(parts)));
        Ok(Pulled { document, files })
    }
}

/// Once a section cannot be read, reading more of them fails alike.
proof fn lemma_sections_read_error(t: Tree, paths: Seq<Path>, n: nat, m: nat)
    requires
        n <= m,
        sections_read_error(t, paths, n) is Some,
    ensures
        sections_read_error(t, paths, m) == sections_read_error(t, paths, n),
    decreases m,
{
    if n < m {
        lemma_sections_read_error(t, paths, n, (m - 1) as nat);
    }
}

/// A list of sections that was found has no more sections than a list can
/// count.
proof fn lemma_handles_len(t: Tree, sc: Path, n: nat)
    requires
        section_handles(t, sc, n) is Ok,
    ensures
        section_handles(t, sc, n)->Ok_0.len() == n,
    decreases n,
{
    if n > 0 {
        lemma_handles_len(t, sc, (n - 1) as nat);
    }
}

/// The paths of the files that the first `n` sections of an input name.
pub open spec fn named_files(items: Seq<Item>, n: nat) -> Seq<Seq<char>>
    decreases n,
{
    if n == 0 {
        Seq::empty()
    } else {
        match items[n - 1] {
            Item::Table(table) => match crate::document::lookup(table@, "path"@) {
                Some(Item::Text(p)) => named_files(items, (n - 1) as nat).push(p@),
                _ => named_files(items, (n - 1) as nat),
            },
            _ => named_files(items, (n - 1) as nat),
        }
    }
}

/// The paths of the files that the sections of the document name, in the
/// order of the sections.
pub open spec fn wanted(doc: Seq<(String, Item)>) -> Seq<Seq<char>> {
    match want_array(doc, "section"@) {
        Ok(items) => named_files(items, items.len()),
        Err(_) => Seq::empty(),
    }
}

/// The paths of the files that the sections of the document name: the files
/// that must be at hand when the document is committed.
pub fn wanted_files(doc: &Vec<(String, Item)>) -> (r: Vec<String>)
    ensures
        lines(r@) == wanted(doc@),
{
    let mut out: Vec<String> = Vec::new();
    assert(lines(out@) =~= Seq::<Seq<char>>::empty());
    let items = match get_array(doc, "section") {
        Ok(v) => v,
        Err(_) => {
            return out;
        },
    };
    let mut i: usize = 0;
    while i < items.len()
        invariant
            i <= items.len(),
            lines(out@) == named_files(items@, i as nat),
        decreases items.len() - i,
    {
        let ghost before = lines(out@);
        match &items[i] {
            Item::Table(table) => match crate::document::find(table, "path") {
                Some(Item::Text(p)) => {
                    out.push(p.clone());
                    assert(lines(out@) =~= before.push(p@));
                },
                _ => {},
            },
            _ => {},
        }
        i += 1;
    }
    out
}

/// The first of the fields of an entry that cannot be read, if there is
/// one: they are read in the order title, description, notes, tags, date;
/// then come the sections as the store holds them.
pub open spec fn entry_fields_error(e: Entry, t: Tree) -> Option<StoreError> {
    if entry_lazy(e, t).title is Err {
        Some(entry_lazy(e, t).title->Err_0)
    } else if entry_lazy(e, t).description is Err {
        Some(entry_lazy(e, t).description->Err_0)
    } else if entry_lazy(e, t).notes is Err {
        Some(entry_lazy(e, t).notes->Err_0)
    } else if entry_lazy(e, t).tags is Err {
        Some(entry_lazy(e, t).tags->Err_0)
    } else if entry_lazy(e, t).date is Err {
        Some(entry_lazy(e, t).date->Err_0)
    } else if sections_at(t, e.container@) is Err {
        Some(sections_at(t, e.container@)->Err_0)
    } else {
        sections_read_error(
            t,
            sections_at(t, e.container@)->Ok_0,
            sections_at(t, e.container@)->Ok_0.len(),
        )
    }
}

/// The fields of the first `n` of the sections at `paths`, as the store
/// holds them.
pub open spec fn sections_data(t: Tree, paths: Seq<Path>, n: nat) -> Seq<SectionData> {
    Seq::new(n, |i: int| section_stored_data(t, paths[i]))
}

/// The fields of an entry as they are read: those cached as they are
/// cached, the others and the sections as the store holds them.
pub open spec fn entry_data(e: Entry, t: Tree) -> EntryData {
    EntryData {
        uid: e.uid@,
        title: entry_lazy(e, t).title->Ok_0,
        description: entry_lazy(e, t).description->Ok_0,
        date: entry_lazy(e, t).date->Ok_0,
        notes: entry_lazy(e, t).notes->Ok_0,
        tags: entry_lazy(e, t).tags->Ok_0,
        sections: sections_data(
            t,
            sections_at(t, e.container@)->Ok_0,
            sections_at(t, e.container@)->Ok_0.len(),
        ),
    }
}

impl Entry {
    /// Every field of the entry: those cached as they are cached, the
    /// others and the sections as the store holds them.
    pub fn fields(&mut self, store: &Store) -> (r: Result<EntryFields, StoreError>)
        ensures
            final(self).container == old(self).container,
            final(self).uid == old(self).uid,
            match r {
                Ok(f) => entry_fields_error(*old(self), store@) is None && f@ == entry_data(
                    *old(self),
                    store@,
                ),
                Err(e) => entry_fields_error(*old(self), store@) == Some(e),
            },
    {
        let title = match self.title(store) {
            Ok(x) => x.clone(),
            Err(e) => {
                return Err(e);
            },
        };
        let description = match self.description(store) {
            Ok(x) => x.clone(),
            Err(e) => {
                return Err(e);
            },
        };
        let notes = match self.notes(store) {
            Ok(x) => crate::store::copy_strings(x),
            Err(e) => {
                return Err(e);
            },
        };
        let tags = match self.tags(store) {
            Ok(x) => crate::store::copy_strings(x),
            Err(e) => {
                return Err(e);
            },
        };
        let date = match self.date(store) {
            Ok(x) => *x,
            Err(e) => {
                return Err(e);
            },
        };
        let mut probe = Entry::load_lazy(self.uid.clone(), self.container.duplicate());
        let found = match probe.sections(store) {
            Ok(v) => v,
            Err(e) => {
                return Err(e);
            },
        };
        let ghost wanted = sections_at(store@, self.container@)->Ok_0;
        let mut sections: Vec<SectionFields> = Vec::new();
        let mut i: usize = 0;
        assert(section_data(sections@) =~= sections_data(store@, wanted, 0));
        while i < found.len()
            invariant
                i <= found.len(),
                wanted == handles(found@),
                forall|j: int|
                    0 <= j < found@.len() ==> (#[trigger] found@[j]).title is None
                        && found@[j].content is None && found@[j].notes is None,
                self.container == old(self).container,
                self.uid == old(self).uid,
                sections_at(store@, old(self).container@) == Ok::<Seq<Path>, StoreError>(wanted),
                entry_lazy(*old(self), store@).title is Ok,
                entry_lazy(*old(self), store@).description is Ok,
                entry_lazy(*old(self), store@).notes is Ok,
                entry_lazy(*old(self), store@).tags is Ok,
                entry_lazy(*old(self), store@).date is Ok,
                sections_read_error(store@, wanted, i as nat) is None,
                section_data(sections@) == sections_data(store@, wanted, i as nat),
            decreases found.len() - i,
        {
            let mut part = Section::load_lazy(found[i].container.duplicate());
            match part.fields(store) {
                Ok(f) => {
                    let ghost before = section_data(sections@);
                    sections.push(f);
                    assert(section_data(sections@) =~= before.push(f@));
                    assert(sections_data(store@, wanted, (i + 1) as nat) =~= sections_data(
                        store@,
                        wanted,
                        i as nat,
                    ).push(section_stored_data(store@, wanted[i as int])));
                },
                Err(e) => {
                    proof {
                        lemma_sections_read_error(
                            store@,
                            wanted,
                            (i + 1) as nat,
                            found@.len() as nat,
                        );
                    }
                    return Err(e);
                },
            }
            i += 1;
        }
        let fields = EntryFields {
            uid: self.uid.clone(),
            title,
            description,
            date,
            notes,
            tags,
            sections,
        };
        assert(fields@.notes =~= entry_lazy(*old(self), store@).notes->Ok_0);
        assert(fields@.tags =~= entry_lazy(*old(self), store@).tags->Ok_0);
        Ok(fields)
    }
}

/// The first of the fields of the entry in container `c` that cannot be
/// read, if there is one.
pub open spec fn stored_entry_error(t: Tree, c: Path) -> Option<StoreError> {
    if entry_read(t, c).title is Err {
        Some(entry_read(t, c).title->Err_0)
    } else if entry_read(t, c).description is Err {
        Some(entry_read(t, c).description->Err_0)
    } else if entry_read(t, c).notes is Err {
        Some(entry_read(t, c).notes->Err_0)
    } else if entry_read(t, c).tags is Err {
        Some(entry_read(t, c).tags->Err_0)
    } else if entry_read(t, c).date is Err {
        Some(entry_read(t, c).date->Err_0)
    } else if sections_at(t, c) is Err {
        Some(sections_at(t, c)->Err_0)
    } else {
        sections_read_error(t, sections_at(t, c)->Ok_0, sections_at(t, c)->Ok_0.len())
    }
}

/// The fields of the entry `uid` in container `c`, as the store holds them.
pub open spec fn stored_entry_data(t: Tree, c: Path, uid: Seq<char>) -> EntryData {
    EntryData {
        uid,
        title: entry_read(t, c).title->Ok_0,
        description: entry_read(t, c).description->Ok_0,
        date: entry_read(t, c).date->Ok_0,
        notes: entry_read(t, c).notes->Ok_0,
        tags: entry_read(t, c).tags->Ok_0,
        sections: sections_data(t, sections_at(t, c)->Ok_0, sections_at(t, c)->Ok_0.len()),
    }
}

/// An entry with an empty cache is read as the store holds it.
pub proof fn lemma_clear_entry(e: Entry, t: Tree)
    requires
        e.is_clear(),
    ensures
        entry_lazy(e, t) == entry_read(t, e.container@),
        entry_fields_error(e, t) == stored_entry_error(t, e.container@),
        entry_data(e, t) == stored_entry_data(t, e.container@, e.uid@),
{
}

} // verus!
