//! A section of an entry: a title, a text and notes.

use crate::document::{
    file_text,
    find,
    get_array,
    get_strings,
    get_text,
    gives_text,
    gives_texts,
    invalid,
    lookup,
    text_of,
    text_pair,
    texts_in,
    texts_pair,
    want_array,
    want_strings,
    want_text,
    Fault,
    Field,
    Files,
    Flaw,
    Invalid,
    Item,
    Problem,
};
use crate::field::{
    begin,
    fetch_strings,
    fetch_text,
    filled_strings,
    filled_text,
    lazy_strings,
    lazy_text,
    lemma_strings_at_local,
    lemma_then_datum,
    lemma_then_datum_other,
    lemma_then_strings,
    lemma_then_strings_other,
    lines,
    save_strings,
    save_text,
    strings_at,
    text_at,
    then_datum,
    then_strings,
    then_text,
    Saved,
};
use crate::list::lemma_child_below;
use crate::store::{
    agree_under,
    is_dir,
    lemma_under_child,
    same_at,
    under,
    Container,
    Datum,
    Path,
    Store,
    StoreError,
    Tree,
};
use vstd::prelude::*;

verus! {

/// A section that is loaded field by field from its container.
pub struct Section {
    pub container: Container,
    pub title: Option<String>,
    pub notes: Option<Vec<String>>,
    pub content: Option<String>,
}

/// The fields of a section, checked and ready to be stored.
#[derive(Debug, PartialEq, Eq)]
pub struct SectionFields {
    pub title: String,
    pub content: String,
    pub notes: Vec<String>,
}

/// The mathematical value of the fields of a section.
pub ghost struct SectionData {
    pub title: Seq<char>,
    pub content: Seq<char>,
    pub notes: Seq<Seq<char>>,
}

/// What a section has in its cache.
pub ghost struct SectionCache {
    pub title: Option<Seq<char>>,
    pub content: Option<Seq<char>>,
    pub notes: Option<Seq<Seq<char>>>,
}

impl View for SectionFields {
    type V = SectionData;

    open spec fn view(&self) -> SectionData {
        SectionData { title: self.title@, content: self.content@, notes: lines(self.notes@) }
    }
}

/// The text of a section in its input: what the file at `path` holds, where
/// there is a `path`, else the text under `contents`.
pub open spec fn section_content(table: Seq<(String, Item)>, files: Seq<(String, String)>) -> Result<
    Seq<char>,
    (Field, Problem),
> {
    match lookup(table, "path"@) {
        Some(Item::Text(p)) => match file_text(files, p@) {
            Some(text) => Ok(text),
            None => Err((Field::Path, Problem::NoFile)),
        },
        Some(_) => Err((Field::Path, Problem::Mistyped)),
        None => match want_text(table, "contents"@) {
            Ok(s) => Ok(s),
            Err(p) => Err((Field::Contents, p)),
        },
    }
}

/// The fields of section `idx` of the entity described at `entity`, or the
/// first thing that is wrong with them.
pub open spec fn section_checked(
    table: Seq<(String, Item)>,
    entity: Seq<char>,
    idx: u16,
    files: Seq<(String, String)>,
) -> Result<SectionData, Flaw> {
    match want_text(table, "title"@) {
        Err(p) => Err(Flaw { entity, part: Some(idx), field: Field::Title, problem: p }),
        Ok(title) => match want_array(table, "notes"@) {
            Err(p) => Err(Flaw { entity, part: Some(idx), field: Field::Notes, problem: p }),
            Ok(raw_notes) => match section_content(table, files) {
                Err((field, p)) => Err(Flaw { entity, part: Some(idx), field, problem: p }),
                Ok(content) => match want_strings(raw_notes) {
                    Err(p) => Err(
                        Flaw { entity, part: Some(idx), field: Field::Notes, problem: p },
                    ),
                    Ok(notes) => Ok(SectionData { title, content, notes }),
                },
            },
        },
    }
}

/// The run `s` followed by the writes of the cached fields of a section into
/// container `c`.
pub open spec fn then_section(s: Saved, c: Path, cache: SectionCache) -> Saved {
    then_strings(
        then_text(then_text(s, c, "title"@, cache.title), c, "content"@, cache.content),
        c,
        "notes"@,
        cache.notes,
    )
}

/// What storing the cached fields of a section in container `c` leaves.
pub open spec fn section_saved(t: Tree, c: Path, cache: SectionCache) -> Saved {
    then_section(begin(t), c, cache)
}

/// A cache that holds every field of a section.
pub open spec fn full_section(d: SectionData) -> SectionCache {
    SectionCache { title: Some(d.title), content: Some(d.content), notes: Some(d.notes) }
}

/// What storing all fields of a section in container `c` leaves.
pub open spec fn section_stored(t: Tree, c: Path, d: SectionData) -> Saved {
    section_saved(t, c, full_section(d))
}

/// The first error that filling the cache of a section meets, if any.
pub open spec fn section_fill_error(
    title: Option<String>,
    content: Option<String>,
    notes: Option<Vec<String>>,
    t: Tree,
    c: Path,
) -> Option<StoreError> {
    match lazy_text(title, t, c, "title"@) {
        Err(e) => Some(e),
        Ok(_) => match lazy_text(content, t, c, "content"@) {
            Err(e) => Some(e),
            Ok(_) => match lazy_strings(notes, t, c, "notes"@) {
                Err(e) => Some(e),
                Ok(_) => None,
            },
        },
    }
}

/// The name of the file that holds the text of section `idx` where an
/// input is pulled into several files.
pub open spec fn section_file(idx: u16) -> Seq<char> {
    "section"@ + crate::keys::index_key(idx as nat) + ".txt"@
}

/// The table and the file are the input that describes a section with the
/// fields `d`.
pub open spec fn pulled_section(
    table: Seq<(String, Item)>,
    file: Option<(String, String)>,
    idx: u16,
    one_file: bool,
    d: SectionData,
) -> bool {
    table.len() == 3 && gives_text(table[0], "title"@, d.title) && gives_texts(
        table[1],
        "notes"@,
        d.notes,
    ) && if one_file {
        gives_text(table[2], "contents"@, d.content) && file is None
    } else {
        gives_text(table[2], "path"@, section_file(idx)) && (file matches Some(f) && f.0@
            == section_file(idx) && f.1@ == d.content)
    }
}

/// The keys of a section differ from each other.
pub proof fn lemma_section_keys()
    ensures
        "title"@ != "content"@,
        "title"@ != "notes"@,
        "content"@ != "notes"@,
{
    reveal_strlit("title");
    reveal_strlit("content");
    reveal_strlit("notes");
    assert("title"@.len() == 5 && "content"@.len() == 7);
    assert("title"@[0] == 't' && "notes"@[0] == 'n');
}

/// Storing the cached fields of a section changes nothing outside its
/// container, and leaves the container itself in place.
pub proof fn lemma_then_section_other(s: Saved, c: Path, cache: SectionCache, p: Path)
    requires
        then_section(s, c, cache).error is None,
        !under(p, c) || p == c,
    ensures
        s.error is None,
        then_section(s, c, cache).tree.contains_key(p) == s.tree.contains_key(p),
        s.tree.contains_key(p) ==> then_section(s, c, cache).tree[p] == s.tree[p],
{
    let s1 = then_text(s, c, "title"@, cache.title);
    let s2 = then_text(s1, c, "content"@, cache.content);
    lemma_child_below(c, "title"@);
    lemma_child_below(c, "content"@);
    lemma_child_below(c, "notes"@);
    assert(!under(p, c.push("notes"@))) by {
        if under(p, c.push("notes"@)) {
            lemma_under_child(p, c, "notes"@);
        }
    }
    lemma_then_strings_other(s2, c, "notes"@, cache.notes, p);
    if cache.content is Some {
        lemma_then_datum_other(s1, c, "content"@, Datum::Text(cache.content->0), p);
    }
    if cache.title is Some {
        lemma_then_datum_other(s, c, "title"@, Datum::Text(cache.title->0), p);
    }
}

/// After a run that ends with storing all fields of a section, each field
/// is read back as it was given.
pub proof fn lemma_then_section_read_back(s: Saved, c: Path, d: SectionData)
    requires
        then_section(s, c, full_section(d)).error is None,
    ensures
        s.error is None,
        is_dir(s.tree, c),
        text_at(then_section(s, c, full_section(d)).tree, c, "title"@) == Ok::<
            Seq<char>,
            StoreError,
        >(d.title),
        text_at(then_section(s, c, full_section(d)).tree, c, "content"@) == Ok::<
            Seq<char>,
            StoreError,
        >(d.content),
        strings_at(then_section(s, c, full_section(d)).tree, c, "notes"@) == Ok::<
            Seq<Seq<char>>,
            StoreError,
        >(d.notes),
{
    lemma_section_keys();
    let s1 = then_datum(s, c, "title"@, Datum::Text(d.title));
    let s2 = then_datum(s1, c, "content"@, Datum::Text(d.content));
    let s3 = then_strings(s2, c, "notes"@, Some(d.notes));
    assert(s3 == then_section(s, c, full_section(d)));
    lemma_then_strings(s2, c, "notes"@, d.notes);
    lemma_then_datum(s1, c, "content"@, Datum::Text(d.content));
    lemma_then_datum(s, c, "title"@, Datum::Text(d.title));
    lemma_child_below(c, "title"@);
    lemma_child_below(c, "content"@);
    lemma_child_below(c, "notes"@);
    let pt = c.push("title"@);
    let pc = c.push("content"@);
    let pn = c.push("notes"@);
    assert(!under(pt, pn)) by {
        if under(pt, pn) {
            lemma_under_child(pt, c, "notes"@);
        }
    }
    assert(!under(pc, pn)) by {
        if under(pc, pn) {
            lemma_under_child(pc, c, "notes"@);
        }
    }
    lemma_then_strings_other(s2, c, "notes"@, Some(d.notes), pt);
    lemma_then_strings_other(s2, c, "notes"@, Some(d.notes), pc);
    lemma_then_datum_other(s1, c, "content"@, Datum::Text(d.content), pt);
}

/// What reading each field of a section yields.
pub ghost struct SectionRead {
    pub title: Result<Seq<char>, StoreError>,
    pub content: Result<Seq<char>, StoreError>,
    pub notes: Result<Seq<Seq<char>>, StoreError>,
}

/// What reading each field of the section in container `c` yields.
pub open spec fn section_read(t: Tree, c: Path) -> SectionRead {
    SectionRead {
        title: text_at(t, c, "title"@),
        content: text_at(t, c, "content"@),
        notes: strings_at(t, c, "notes"@),
    }
}

/// What reading each field yields where the fields `d` are stored.
pub open spec fn read_of(d: SectionData) -> SectionRead {
    SectionRead { title: Ok(d.title), content: Ok(d.content), notes: Ok(d.notes) }
}

/// Trees that hold the same in the subtree of a section's container yield
/// the same fields.
pub proof fn lemma_section_read_local(a: Tree, b: Tree, c: Path)
    requires
        agree_under(a, b, c),
    ensures
        section_read(a, c) == section_read(b, c),
{
    lemma_child_below(c, "title"@);
    lemma_child_below(c, "content"@);
    assert(under(c.push("title"@), c));
    assert(under(c.push("content"@), c));
    assert forall|p: Path| #[trigger] under(p, c.push("notes"@)) implies same_at(a, b, p) by {
        lemma_under_child(p, c, "notes"@);
        assert(under(p, c));
    }
    lemma_strings_at_local(a, b, c, "notes"@);
}

/// A section that was stored is read back: with an empty cache, each field
/// yields the value that was given.
pub proof fn lemma_section_read_back(t: Tree, c: Path, d: SectionData)
    requires
        section_stored(t, c, d).error is None,
    ensures
        lazy_text(None, section_stored(t, c, d).tree, c, "title"@) == Ok::<Seq<char>, StoreError>(
            d.title,
        ),
        lazy_text(None, section_stored(t, c, d).tree, c, "content"@) == Ok::<
            Seq<char>,
            StoreError,
        >(d.content),
        lazy_strings(None, section_stored(t, c, d).tree, c, "notes"@) == Ok::<
            Seq<Seq<char>>,
            StoreError,
        >(d.notes),
{
    lemma_then_section_read_back(begin(t), c, d);
}

impl Section {
    /// What the section has in its cache.
    pub open spec fn cache(&self) -> SectionCache {
        SectionCache {
            title: text_of(self.title),
            content: text_of(self.content),
            notes: texts_in(self.notes),
        }
    }

    /// Checks the input of section `idx` of the entity described at `entity`
    /// and picks its fields.
    pub fn check(table: &Vec<(String, Item)>, entity: &str, idx: u16, files: &Files) -> (r: Result<
        SectionFields,
        Invalid,
    >)
        ensures
            match r {
                Ok(f) => section_checked(table@, entity@, idx, files.listed@) == Ok::<
                    SectionData,
                    Flaw,
                >(f@),
                Err(e) => section_checked(table@, entity@, idx, files.listed@) == Err::<
                    SectionData,
                    Flaw,
                >(e@),
            },
    {
        let title = match get_text(table, "title") {
            Ok(s) => s,
            Err(p) => {
                return Err(invalid(entity, Some(idx), Field::Title, p));
            },
        };
        let raw_notes = match get_array(table, "notes") {
            Ok(v) => v,
            Err(p) => {
                return Err(invalid(entity, Some(idx), Field::Notes, p));
            },
        };
        let content = match find(table, "path") {
            Some(Item::Text(path)) => match files.read(path) {
                Some(text) => text,
                None => {
                    return Err(invalid(entity, Some(idx), Field::Path, Problem::NoFile));
                },
            },
            Some(_) => {
                return Err(invalid(entity, Some(idx), Field::Path, Problem::Mistyped));
            },
            None => match get_text(table, "contents") {
                Ok(s) => s,
                Err(p) => {
                    return Err(invalid(entity, Some(idx), Field::Contents, p));
                },
            },
        };
        let notes = match get_strings(raw_notes) {
            Ok(v) => v,
            Err(p) => {
                return Err(invalid(entity, Some(idx), Field::Notes, p));
            },
        };
        let fields = SectionFields { title, content, notes };
        assert(fields@.notes =~= want_strings(raw_notes@)->Ok_0);
        Ok(fields)
    }

    /// Stores `fields` in `container`.
    pub fn store_fields(fields: &SectionFields, container: &Container, store: &mut Store) -> (r:
        Result<(), StoreError>)
        ensures
            section_stored(old(store)@, container@, fields@) == (Saved {
                tree: final(store)@,
                error: r.err(),
            }),
    {
        match save_text(store, container, "title", &fields.title) {
            Ok(_) => {},
            Err(e) => {
                return Err(e);
            },
        }
        match save_text(store, container, "content", &fields.content) {
            Ok(_) => {},
            Err(e) => {
                return Err(e);
            },
        }
        save_strings(store, container, "notes", &fields.notes)
    }

    /// Stores `fields` in `container` and returns the section with an empty
    /// cache.
    pub fn compose(fields: SectionFields, container: Container, store: &mut Store) -> (r: Result<
        Section,
        StoreError,
    >)
        ensures
            section_stored(old(store)@, container@, fields@) == (Saved {
                tree: final(store)@,
                error: r.err(),
            }),
            r matches Ok(s) ==> s.container == container && s.title is None && s.content is None
                && s.notes is None,
    {
        let mut this = Section {
            container,
            title: Some(fields.title),
            content: Some(fields.content),
            notes: Some(fields.notes),
        };
        assert(this.cache().notes->0 =~= fields@.notes);
        match this.store_lazy(store) {
            Ok(_) => {},
            Err(e) => {
                return Err(e);
            },
        }
        this.clear_cache();
        Ok(this)
    }

    /// Makes section `idx` of the entity described at `entity` from its
    /// input and stores it in `container`. Invalid input leaves the store as
    /// it was.
    pub fn new(
        table: &Vec<(String, Item)>,
        container: Container,
        entity: &str,
        idx: u16,
        files: &Files,
        store: &mut Store,
    ) -> (r: Result<Section, Fault>)
        ensures
            match section_checked(table@, entity@, idx, files.listed@) {
                Err(flaw) => (r matches Err(Fault::Invalid(e)) && e@ == flaw) && final(store)@
                    == old(store)@,
                Ok(d) => section_stored(old(store)@, container@, d).tree == final(store)@
                    && match section_stored(old(store)@, container@, d).error {
                    Some(e) => r matches Err(Fault::Store(x)) && x == e,
                    None => r matches Ok(s) && s.container == container && s.title is None
                        && s.content is None && s.notes is None,
                },
            },
    {
        let fields = match Section::check(table, entity, idx, files) {
            Ok(f) => f,
            Err(e) => {
                return Err(Fault::Invalid(e));
            },
        };
        match Section::compose(fields, container, store) {
            Ok(s) => Ok(s),
            Err(e) => Err(Fault::Store(e)),
        }
    }

    /// Writes every cached field to the store; fields that are not cached
    /// are left as they are in the store.
    pub fn store_lazy(&self, store: &mut Store) -> (r: Result<(), StoreError>)
        ensures
            section_saved(old(store)@, self.container@, self.cache()) == (Saved {
                tree: final(store)@,
                error: r.err(),
            }),
    {
        if let Some(x) = &self.title {
            match save_text(store, &self.container, "title", x) {
                Ok(_) => {},
                Err(e) => {
                    return Err(e);
                },
            }
        }
        if let Some(x) = &self.content {
            match save_text(store, &self.container, "content", x) {
                Ok(_) => {},
                Err(e) => {
                    return Err(e);
                },
            }
        }
        if let Some(x) = &self.notes {
            match save_strings(store, &self.container, "notes", x) {
                Ok(_) => {},
                Err(e) => {
                    return Err(e);
                },
            }
        }
        Ok(())
    }

    /// Attaches to a section that was stored in `container`; nothing is
    /// loaded yet.
    pub fn load_lazy(container: Container) -> (r: Section)
        ensures
            r.container == container,
            r.title is None,
            r.content is None,
            r.notes is None,
    {
        Section { container, title: None, notes: None, content: None }
    }

    /// Forgets every cached field.
    pub fn clear_cache(&mut self)
        ensures
            final(self).container == old(self).container,
            final(self).title is None,
            final(self).content is None,
            final(self).notes is None,
    {
        self.title = None;
        self.content = None;
        self.notes = None;
    }

    /// Loads every field that is not cached yet: title, content, notes, in
    /// this order, up to the first that cannot be read.
    pub fn fill_cache(&mut self, store: &Store) -> (r: Result<(), StoreError>)
        ensures
            final(self).container == old(self).container,
            filled_text(
                old(self).title,
                final(self).title,
                store@,
                old(self).container@,
                "title"@,
                true,
            ),
            filled_text(
                old(self).content,
                final(self).content,
                store@,
                old(self).container@,
                "content"@,
                lazy_text(old(self).title, store@, old(self).container@, "title"@) is Ok,
            ),
            filled_strings(
                old(self).notes,
                final(self).notes,
                store@,
                old(self).container@,
                "notes"@,
                lazy_text(old(self).title, store@, old(self).container@, "title"@) is Ok
                    && lazy_text(old(self).content, store@, old(self).container@, "content"@) is Ok,
            ),
            match r {
                Ok(_) => section_fill_error(
                    old(self).title,
                    old(self).content,
                    old(self).notes,
                    store@,
                    old(self).container@,
                ) is None && lazy_text(old(self).title, store@, old(self).container@, "title"@)
                    == Ok::<Seq<char>, StoreError>(final(self).cache().title->0) && lazy_text(
                    old(self).content,
                    store@,
                    old(self).container@,
                    "content"@,
                ) == Ok::<Seq<char>, StoreError>(final(self).cache().content->0) && lazy_strings(
                    old(self).notes,
                    store@,
                    old(self).container@,
                    "notes"@,
                ) == Ok::<Seq<Seq<char>>, StoreError>(final(self).cache().notes->0) && final(
                    self
                ).title is Some && final(self).content is Some && final(self).notes is Some,
                Err(e) => section_fill_error(
                    old(self).title,
                    old(self).content,
                    old(self).notes,
                    store@,
                    old(self).container@,
                ) == Some(e),
            },
    {
        match self.title(store) {
            Ok(_) => {},
            Err(e) => {
                return Err(e);
            },
        }
        match self.content(store) {
            Ok(_) => {},
            Err(e) => {
                return Err(e);
            },
        }
        match self.notes(store) {
            Ok(_) => {},
            Err(e) => {
                return Err(e);
            },
        }
        Ok(())
    }

    /// Every field of the section: those cached as they are cached, the
    /// others as the store holds them. The fields are cached afterwards.
    pub fn fields(&mut self, store: &Store) -> (r: Result<SectionFields, StoreError>)
        ensures
            final(self).container == old(self).container,
            match r {
                Ok(f) => section_fill_error(
                    old(self).title,
                    old(self).content,
                    old(self).notes,
                    store@,
                    old(self).container@,
                ) is None && f@ == (SectionData {
                    title: lazy_text(old(self).title, store@, old(self).container@, "title"@)->Ok_0,
                    content: lazy_text(
                        old(self).content,
                        store@,
                        old(self).container@,
                        "content"@,
                    )->Ok_0,
                    notes: lazy_strings(
                        old(self).notes,
                        store@,
                        old(self).container@,
                        "notes"@,
                    )->Ok_0,
                }) && final(self).cache() == full_section(f@),
                Err(e) => section_fill_error(
                    old(self).title,
                    old(self).content,
                    old(self).notes,
                    store@,
                    old(self).container@,
                ) == Some(e),
            },
    {
        match self.fill_cache(store) {
            Ok(_) => {},
            Err(e) => {
                return Err(e);
            },
        }
        match (&self.title, &self.notes, &self.content) {
            (Some(title), Some(notes), Some(content)) => {
                let f = SectionFields {
                    title: title.clone(),
                    content: content.clone(),
                    notes: crate::store::copy_strings(notes),
                };
                assert(f@.notes =~= self.cache().notes->0);
                Ok(f)
            },
            _ => Err(StoreError::NotFound),
        }
    }

    /// The input that describes the section, read back from the store, as
    /// section `idx` of its entry. With `one_file` the text stands in the
    /// input itself; else the input names a file, which is returned with the
    /// text that it is to hold. The cache is empty afterwards.
    pub fn pull(&mut self, idx: u16, one_file: bool, store: &Store) -> (r: Result<
        (Vec<(String, Item)>, Option<(String, String)>),
        StoreError,
    >)
        ensures
            final(self).container == old(self).container,
            match r {
                Ok((table, file)) => section_fill_error(
                    old(self).title,
                    old(self).content,
                    old(self).notes,
                    store@,
                    old(self).container@,
                ) is None && final(self).title is None && final(self).content is None && final(
                    self
                ).notes is None && pulled_section(
                    table@,
                    file,
                    idx,
                    one_file,
                    SectionData {
                        title: lazy_text(old(self).title, store@, old(self).container@, "title"@)->Ok_0,
                        content: lazy_text(
                            old(self).content,
                            store@,
                            old(self).container@,
                            "content"@,
                        )->Ok_0,
                        notes: lazy_strings(
                            old(self).notes,
                            store@,
                            old(self).container@,
                            "notes"@,
                        )->Ok_0,
                    },
                ),
                Err(e) => section_fill_error(
                    old(self).title,
                    old(self).content,
                    old(self).notes,
                    store@,
                    old(self).container@,
                ) == Some(e),
            },
    {
        match self.fill_cache(store) {
            Ok(_) => {},
            Err(e) => {
                return Err(e);
            },
        }
        let mut table: Vec<(String, Item)> = Vec::new();
        match (&self.title, &self.notes, &self.content) {
            (Some(title), Some(notes), Some(content)) => {
                table.push(text_pair("title", title));
                table.push(texts_pair("notes", notes));
                let file = if one_file {
                    table.push(text_pair("contents", content));
                    None
                } else {
                    let mut name = "section".to_string();
                    name.append(crate::keys::index_name(idx).as_str());
                    name.append(".txt");
                    table.push(text_pair("path", &name));
                    Some((name, content.clone()))
                };
                self.clear_cache();
                Ok((table, file))
            },
            _ => Err(StoreError::NotFound),
        }
    }

    /// The title: loaded from the store on first use, then cached.
    pub fn title(&mut self, store: &Store) -> (r: Result<&String, StoreError>)
        ensures
            final(self).container == old(self).container,
            final(self).content == old(self).content,
            final(self).notes == old(self).notes,
            match r {
                Ok(s) => lazy_text(old(self).title, store@, old(self).container@, "title"@) == Ok::<
                    Seq<char>,
                    StoreError,
                >(s@) && final(self).title == Some(*s),
                Err(e) => lazy_text(old(self).title, store@, old(self).container@, "title"@)
                    == Err::<Seq<char>, StoreError>(e) && final(self).title == old(self).title,
            },
    {
        fetch_text(&mut self.title, store, &self.container, "title")
    }

    /// The content: loaded from the store on first use, then cached.
    pub fn content(&mut self, store: &Store) -> (r: Result<&String, StoreError>)
        ensures
            final(self).container == old(self).container,
            final(self).title == old(self).title,
            final(self).notes == old(self).notes,
            match r {
                Ok(s) => lazy_text(old(self).content, store@, old(self).container@, "content"@)
                    == Ok::<Seq<char>, StoreError>(s@) && final(self).content == Some(*s),
                Err(e) => lazy_text(old(self).content, store@, old(self).container@, "content"@)
                    == Err::<Seq<char>, StoreError>(e) && final(self).content == old(self).content,
            },
    {
        fetch_text(&mut self.content, store, &self.container, "content")
    }

    /// The notes: loaded from the store on first use, then cached.
    pub fn notes(&mut self, store: &Store) -> (r: Result<&Vec<String>, StoreError>)
        ensures
            final(self).container == old(self).container,
            final(self).title == old(self).title,
            final(self).content == old(self).content,
            match r {
                Ok(v) => lazy_strings(old(self).notes, store@, old(self).container@, "notes"@)
                    == Ok::<Seq<Seq<char>>, StoreError>(lines(v@)) && final(self).notes == Some(*v),
                Err(e) => lazy_strings(old(self).notes, store@, old(self).container@, "notes"@)
                    == Err::<Seq<Seq<char>>, StoreError>(e) && final(self).notes == old(self).notes,
            },
    {
        fetch_strings(&mut self.notes, store, &self.container, "notes")
    }
}

} // verus!
