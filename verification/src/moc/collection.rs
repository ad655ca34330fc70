//! A collection of a map of content: a title, notes, and the tags whose
//! entries and maps it gathers.

use crate::document::{
    get_array,
    get_strings,
    get_text,
    gives_text,
    gives_texts,
    invalid,
    text_of,
    text_pair,
    texts_in,
    texts_pair,
    want_array,
    want_strings,
    want_text,
    Fault,
    Field,
    Flaw,
    Invalid,
    Item,
};
use crate::field::{
    begin,
    fetch_strings,
    fetch_text,
    filled_strings,
    filled_text,
    lazy_strings,
    lazy_text,
    lemma_strings_at_local,
    lemma_then_datum,
    lemma_then_datum_other,
    lemma_then_strings,
    lemma_then_strings_other,
    lines,
    save_strings,
    save_text,
    strings_at,
    text_at,
    then_datum,
    then_strings,
    then_text,
    Saved,
};
use crate::list::lemma_child_below;
use crate::store::{
    agree_under,
    is_dir,
    lemma_siblings_apart,
    lemma_under_child,
    same_at,
    under,
    Container,
    Datum,
    Path,
    Store,
    StoreError,
    Tree,
};
use vstd::prelude::*;

verus! {

/// A collection that is loaded field by field from its container.
pub struct Collection {
    pub container: Container,
    pub title: Option<String>,
    pub notes: Option<Vec<String>>,
    pub included: Option<Vec<String>>,
}

/// The fields of a collection, checked and ready to be stored.
#[derive(Debug, PartialEq, Eq)]
pub struct CollectionFields {
    pub title: String,
    pub notes: Vec<String>,
    pub included: Vec<String>,
}

/// The mathematical value of the fields of a collection.
pub ghost struct CollectionData {
    pub title: Seq<char>,
    pub notes: Seq<Seq<char>>,
    pub included: Seq<Seq<char>>,
}

/// What a collection has in its cache.
pub ghost struct CollectionCache {
    pub title: Option<Seq<char>>,
    pub notes: Option<Seq<Seq<char>>>,
    pub included: Option<Seq<Seq<char>>>,
}

impl View for CollectionFields {
    type V = CollectionData;

    open spec fn view(&self) -> CollectionData {
        CollectionData {
            title: self.title@,
            notes: lines(self.notes@),
            included: lines(self.included@),
        }
    }
}

/// The fields of collection `idx` of the entity described at `entity`, or
/// the first thing that is wrong with them.
pub open spec fn collection_checked(table: Seq<(String, Item)>, entity: Seq<char>, idx: u16) -> Result<
    CollectionData,
    Flaw,
> {
    match want_text(table, "title"@) {
        Err(p) => Err(Flaw { entity, part: Some(idx), field: Field::Title, problem: p }),
        Ok(title) => match want_array(table, "notes"@) {
            Err(p) => Err(Flaw { entity, part: Some(idx), field: Field::Notes, problem: p }),
            Ok(raw_notes) => match want_array(table, "include"@) {
                Err(p) => Err(Flaw { entity, part: Some(idx), field: Field::Include, problem: p }),
                Ok(raw_include) => match want_strings(raw_notes) {
                    Err(p) => Err(
                        Flaw { entity, part: Some(idx), field: Field::Notes, problem: p },
                    ),
                    Ok(notes) => match want_strings(raw_include) {
                        Err(p) => Err(
                            Flaw { entity, part: Some(idx), field: Field::Include, problem: p },
                        ),
                        Ok(included) => Ok(CollectionData { title, notes, included }),
                    },
                },
            },
        },
    }
}

/// The run `s` followed by the writes of the cached fields of a collection
/// into container `c`.
pub open spec fn then_collection(s: Saved, c: Path, cache: CollectionCache) -> Saved {
    then_strings(
        then_strings(then_text(s, c, "title"@, cache.title), c, "notes"@, cache.notes),
        c,
        "include"@,
        cache.included,
    )
}

/// What storing the cached fields of a collection in container `c` leaves.
pub open spec fn collection_saved(t: Tree, c: Path, cache: CollectionCache) -> Saved {
    then_collection(begin(t), c, cache)
}

/// A cache that holds every field of a collection.
pub open spec fn full_collection(d: CollectionData) -> CollectionCache {
    CollectionCache { title: Some(d.title), notes: Some(d.notes), included: Some(d.included) }
}

/// What storing all fields of a collection in container `c` leaves.
pub open spec fn collection_stored(t: Tree, c: Path, d: CollectionData) -> Saved {
    collection_saved(t, c, full_collection(d))
}

/// The first error that filling the cache of a collection meets, if any.
pub open spec fn collection_fill_error(
    title: Option<String>,
    included: Option<Vec<String>>,
    notes: Option<Vec<String>>,
    t: Tree,
    c: Path,
) -> Option<StoreError> {
    match lazy_text(title, t, c, "title"@) {
        Err(e) => Some(e),
        Ok(_) => match lazy_strings(included, t, c, "include"@) {
            Err(e) => Some(e),
            Ok(_) => match lazy_strings(notes, t, c, "notes"@) {
                Err(e) => Some(e),
                Ok(_) => None,
            },
        },
    }
}

/// The table is the input that describes a collection with the fields `d`.
pub open spec fn pulled_collection(table: Seq<(String, Item)>, d: CollectionData) -> bool {
    table.len() == 3 && gives_text(table[0], "title"@, d.title) && gives_texts(
        table[1],
        "notes"@,
        d.notes,
    ) && gives_texts(table[2], "include"@, d.included)
}

/// The keys of a collection differ from each other.
pub proof fn lemma_collection_keys()
    ensures
        "title"@ != "notes"@,
        "title"@ != "include"@,
        "notes"@ != "include"@,
{
    reveal_strlit("title");
    reveal_strlit("include");
    reveal_strlit("notes");
    assert("title"@.len() == 5 && "include"@.len() == 7 && "notes"@.len() == 5);
    assert("title"@[0] == 't' && "notes"@[0] == 'n');
}

/// Storing the cached fields of a collection changes nothing outside its
/// container, and leaves the container itself in place.
pub proof fn lemma_then_collection_other(s: Saved, c: Path, cache: CollectionCache, p: Path)
    requires
        then_collection(s, c, cache).error is None,
        !under(p, c) || p == c,
    ensures
        s.error is None,
        same_at(then_collection(s, c, cache).tree, s.tree, p),
{
    let s1 = then_text(s, c, "title"@, cache.title);
    let s2 = then_strings(s1, c, "notes"@, cache.notes);
    lemma_child_below(c, "title"@);
    lemma_child_below(c, "notes"@);
    lemma_child_below(c, "include"@);
    if under(p, c.push("notes"@)) {
        lemma_under_child(p, c, "notes"@);
    }
    if under(p, c.push("include"@)) {
        lemma_under_child(p, c, "include"@);
    }
    lemma_then_strings_other(s2, c, "include"@, cache.included, p);
    lemma_then_strings_other(s1, c, "notes"@, cache.notes, p);
    if cache.title is Some {
        lemma_then_datum_other(s, c, "title"@, Datum::Text(cache.title->0), p);
    }
}

/// What reading each field of a collection yields.
pub ghost struct CollectionRead {
    pub title: Result<Seq<char>, StoreError>,
    pub notes: Result<Seq<Seq<char>>, StoreError>,
    pub included: Result<Seq<Seq<char>>, StoreError>,
}

/// What reading each field of the collection in container `c` yields.
pub open spec fn collection_read(t: Tree, c: Path) -> CollectionRead {
    CollectionRead {
        title: text_at(t, c, "title"@),
        notes: strings_at(t, c, "notes"@),
        included: strings_at(t, c, "include"@),
    }
}

/// What reading each field yields where the fields `d` are stored.
pub open spec fn read_of(d: CollectionData) -> CollectionRead {
    CollectionRead { title: Ok(d.title), notes: Ok(d.notes), included: Ok(d.included) }
}

/// Trees that hold the same in the subtree of a collection's container
/// yield the same fields.
pub proof fn lemma_collection_read_local(a: Tree, b: Tree, c: Path)
    requires
        agree_under(a, b, c),
    ensures
        collection_read(a, c) == collection_read(b, c),
{
    lemma_child_below(c, "title"@);
    assert(under(c.push("title"@), c));
    assert forall|p: Path| #[trigger] under(p, c.push("notes"@)) implies same_at(a, b, p) by {
        lemma_under_child(p, c, "notes"@);
        assert(under(p, c));
    }
    assert forall|p: Path| #[trigger] under(p, c.push("include"@)) implies same_at(a, b, p) by {
        lemma_under_child(p, c, "include"@);
        assert(under(p, c));
    }
    lemma_strings_at_local(a, b, c, "notes"@);
    lemma_strings_at_local(a, b, c, "include"@);
}

/// After a run that ends with storing all fields of a collection, each
/// field is read back as it was given.
pub proof fn lemma_then_collection_read_back(s: Saved, c: Path, d: CollectionData)
    requires
        then_collection(s, c, full_collection(d)).error is None,
    ensures
        s.error is None,
        is_dir(s.tree, c),
        collection_read(then_collection(s, c, full_collection(d)).tree, c) == read_of(d),
{
    lemma_collection_keys();
    let s1 = then_datum(s, c, "title"@, Datum::Text(d.title));
    let s2 = then_strings(s1, c, "notes"@, Some(d.notes));
    let s3 = then_strings(s2, c, "include"@, Some(d.included));
    assert(s3 == then_collection(s, c, full_collection(d)));
    lemma_then_strings(s2, c, "include"@, d.included);
    lemma_then_strings(s1, c, "notes"@, d.notes);
    lemma_then_datum(s, c, "title"@, Datum::Text(d.title));
    lemma_child_below(c, "title"@);
    let pt = c.push("title"@);
    if under(pt, c.push("notes"@)) {
        lemma_under_child(pt, c, "notes"@);
    }
    if under(pt, c.push("include"@)) {
        lemma_under_child(pt, c, "include"@);
    }
    lemma_then_strings_other(s2, c, "include"@, Some(d.included), pt);
    lemma_then_strings_other(s1, c, "notes"@, Some(d.notes), pt);
    assert forall|p: Path| #[trigger] under(p, c.push("notes"@)) implies same_at(
        s3.tree,
        s2.tree,
        p,
    ) by {
        lemma_siblings_apart(p, c, "notes"@, "include"@);
        lemma_then_strings_other(s2, c, "include"@, Some(d.included), p);
    }
    lemma_strings_at_local(s3.tree, s2.tree, c, "notes"@);
}

/// A collection that was stored is read back: with an empty cache, each
/// field yields the value that was given.
pub proof fn lemma_collection_read_back(t: Tree, c: Path, d: CollectionData)
    requires
        collection_stored(t, c, d).error is None,
    ensures
        lazy_text(None, collection_stored(t, c, d).tree, c, "title"@) == Ok::<
            Seq<char>,
            StoreError,
        >(d.title),
        lazy_strings(None, collection_stored(t, c, d).tree, c, "notes"@) == Ok::<
            Seq<Seq<char>>,
            StoreError,
        >(d.notes),
        lazy_strings(None, collection_stored(t, c, d).tree, c, "include"@) == Ok::<
            Seq<Seq<char>>,
            StoreError,
        >(d.included),
{
    lemma_then_collection_read_back(begin(t), c, d);
}

impl Collection {
    /// What the collection has in its cache.
    pub open spec fn cache(&self) -> CollectionCache {
        CollectionCache {
            title: text_of(self.title),
            notes: texts_in(self.notes),
            included: texts_in(self.included),
        }
    }

    /// Checks the input of collection `idx` of the entity described at
    /// `entity` and picks its fields.
    pub fn check(table: &Vec<(String, Item)>, entity: &str, idx: u16) -> (r: Result<
        CollectionFields,
        Invalid,
    >)
        ensures
            match r {
                Ok(f) => collection_checked(table@, entity@, idx) == Ok::<CollectionData, Flaw>(
                    f@,
                ),
                Err(e) => collection_checked(table@, entity@, idx) == Err::<CollectionData, Flaw>(
                    e@,
                ),
            },
    {
        let title = match get_text(table, "title") {
            Ok(s) => s,
            Err(p) => {
                return Err(invalid(entity, Some(idx), Field::Title, p));
            },
        };
        let raw_notes = match get_array(table, "notes") {
            Ok(v) => v,
            Err(p) => {
                return Err(invalid(entity, Some(idx), Field::Notes, p));
            },
        };
        let raw_include = match get_array(table, "include") {
            Ok(v) => v,
            Err(p) => {
                return Err(invalid(entity, Some(idx), Field::Include, p));
            },
        };
        let notes = match get_strings(raw_notes) {
            Ok(v) => v,
            Err(p) => {
                return Err(invalid(entity, Some(idx), Field::Notes, p));
            },
        };
        let included = match get_strings(raw_include) {
            Ok(v) => v,
            Err(p) => {
                return Err(invalid(entity, Some(idx), Field::Include, p));
            },
        };
        let fields = CollectionFields { title, notes, included };
        assert(fields@.notes =~= want_strings(raw_notes@)->Ok_0);
        assert(fields@.included =~= want_strings(raw_include@)->Ok_0);
        Ok(fields)
    }

    /// Stores `fields` in `container`.
    pub fn store_fields(fields: &CollectionFields, container: &Container, store: &mut Store) -> (r:
        Result<(), StoreError>)
        ensures
            collection_stored(old(store)@, container@, fields@) == (Saved {
                tree: final(store)@,
                error: r.err(),
            }),
    {
        match save_text(store, container, "title", &fields.title) {
            Ok(_) => {},
            Err(e) => {
                return Err(e);
            },
        }
        match save_strings(store, container, "notes", &fields.notes) {
            Ok(_) => {},
            Err(e) => {
                return Err(e);
            },
        }
        save_strings(store, container, "include", &fields.included)
    }

    /// Stores `fields` in `container` and returns the collection with an
    /// empty cache.
    pub fn compose(fields: CollectionFields, container: Container, store: &mut Store) -> (r:
        Result<Collection, StoreError>)
        ensures
            collection_stored(old(store)@, container@, fields@) == (Saved {
                tree: final(store)@,
                error: r.err(),
            }),
            r matches Ok(s) ==> s.container == container && s.title is None && s.included is None
                && s.notes is None,
    {
        match Collection::store_fields(&fields, &container, store) {
            Ok(_) => Ok(Collection::load_lazy(container)),
            Err(e) => Err(e),
        }
    }

    /// Makes collection `idx` of the entity described at `entity` from its
    /// input and stores it in `container`. Invalid input leaves the store as
    /// it was.
    pub fn new(
        table: &Vec<(String, Item)>,
        container: Container,
        entity: &str,
        idx: u16,
        store: &mut Store,
    ) -> (r: Result<Collection, Fault>)
        ensures
            match collection_checked(table@, entity@, idx) {
                Err(flaw) => (r matches Err(Fault::Invalid(e)) && e@ == flaw) && final(store)@
                    == old(store)@,
                Ok(d) => collection_stored(old(store)@, container@, d).tree == final(store)@
                    && match collection_stored(old(store)@, container@, d).error {
                    Some(e) => r matches Err(Fault::Store(x)) && x == e,
                    None => r matches Ok(s) && s.container == container && s.title is None
                        && s.included is None && s.notes is None,
                },
            },
    {
        let fields = match Collection::check(table, entity, idx) {
            Ok(f) => f,
            Err(e) => {
                return Err(Fault::Invalid(e));
            },
        };
        match Collection::compose(fields, container, store) {
            Ok(s) => Ok(s),
            Err(e) => Err(Fault::Store(e)),
        }
    }

    /// Writes every cached field to the store; fields that are not cached
    /// are left as they are in the store.
    pub fn store_lazy(&self, store: &mut Store) -> (r: Result<(), StoreError>)
        ensures
            collection_saved(old(store)@, self.container@, self.cache()) == (Saved {
                tree: final(store)@,
                error: r.err(),
            }),
    {
        if let Some(x) = &self.title {
            match save_text(store, &self.container, "title", x) {
                Ok(_) => {},
                Err(e) => {
                    return Err(e);
                },
            }
        }
        if let Some(x) = &self.notes {
            match save_strings(store, &self.container, "notes", x) {
                Ok(_) => {},
                Err(e) => {
                    return Err(e);
                },
            }
        }
        if let Some(x) = &self.included {
            match save_strings(store, &self.container, "include", x) {
                Ok(_) => {},
                Err(e) => {
                    return Err(e);
                },
            }
        }
        Ok(())
    }

    /// Attaches to a collection that was stored in `container`; nothing is
    /// loaded yet.
    pub fn load_lazy(container: Container) -> (r: Collection)
        ensures
            r.container == container,
            r.title is None,
            r.included is None,
            r.notes is None,
    {
        Collection { container, title: None, notes: None, included: None }
    }

    /// Forgets every cached field.
    pub fn clear_cache(&mut self)
        ensures
            final(self).container == old(self).container,
            final(self).title is None,
            final(self).included is None,
            final(self).notes is None,
    {
        self.title = None;
        self.notes = None;
        self.included = None;
    }

    /// Loads every field that is not cached yet: title, included, notes, in
    /// this order, up to the first that cannot be read.
    pub fn fill_cache(&mut self, store: &Store) -> (r: Result<(), StoreError>)
        ensures
            final(self).container == old(self).container,
            filled_text(
                old(self).title,
                final(self).title,
                store@,
                old(self).container@,
                "title"@,
                true,
            ),
            filled_strings(
                old(self).included,
                final(self).included,
                store@,
                old(self).container@,
                "include"@,
                lazy_text(old(self).title, store@, old(self).container@, "title"@) is Ok,
            ),
            filled_strings(
                old(self).notes,
                final(self).notes,
                store@,
                old(self).container@,
                "notes"@,
                lazy_text(old(self).title, store@, old(self).container@, "title"@) is Ok
                    && lazy_strings(
                    old(self).included,
                    store@,
                    old(self).container@,
                    "include"@,
                ) is Ok,
            ),
            match r {
                Ok(_) => collection_fill_error(
                    old(self).title,
                    old(self).included,
                    old(self).notes,
                    store@,
                    old(self).container@,
                ) is None && lazy_text(old(self).title, store@, old(self).container@, "title"@)
                    == Ok::<Seq<char>, StoreError>(final(self).cache().title->0) && lazy_strings(
                    old(self).included,
                    store@,
                    old(self).container@,
                    "include"@,
                ) == Ok::<Seq<Seq<char>>, StoreError>(final(self).cache().included->0)
                    && lazy_strings(old(self).notes, store@, old(self).container@, "notes"@) == Ok::<
                    Seq<Seq<char>>,
                    StoreError,
                >(final(self).cache().notes->0) && final(self).title is Some && final(
                    self
                ).included is Some && final(self).notes is Some,
                Err(e) => collection_fill_error(
                    old(self).title,
                    old(self).included,
                    old(self).notes,
                    store@,
                    old(self).container@,
                ) == Some(e),
            },
    {
        match self.title(store) {
            Ok(_) => {},
            Err(e) => {
                return Err(e);
            },
        }
        match self.included(store) {
            Ok(_) => {},
            Err(e) => {
                return Err(e);
            },
        }
        match self.notes(store) {
            Ok(_) => {},
            Err(e) => {
                return Err(e);
            },
        }
        Ok(())
    }

    /// Every field of the collection: those cached as they are cached, the
    /// others as the store holds them. The fields are cached afterwards.
    pub fn fields(&mut self, store: &Store) -> (r: Result<CollectionFields, StoreError>)
        ensures
            final(self).container == old(self).container,
            match r {
                Ok(f) => collection_fill_error(
                    old(self).title,
                    old(self).included,
                    old(self).notes,
                    store@,
                    old(self).container@,
                ) is None && f@ == (CollectionData {
                    title: lazy_text(old(self).title, store@, old(self).container@, "title"@)->Ok_0,
                    notes: lazy_strings(
                        old(self).notes,
                        store@,
                        old(self).container@,
                        "notes"@,
                    )->Ok_0,
                    included: lazy_strings(
                        old(self).included,
                        store@,
                        old(self).container@,
                        "include"@,
                    )->Ok_0,
                }) && final(self).cache() == full_collection(f@),
                Err(e) => collection_fill_error(
                    old(self).title,
                    old(self).included,
                    old(self).notes,
                    store@,
                    old(self).container@,
                ) == Some(e),
            },
    {
        match self.fill_cache(store) {
            Ok(_) => {},
            Err(e) => {
                return Err(e);
            },
        }
        match (&self.title, &self.notes, &self.included) {
            (Some(title), Some(notes), Some(included)) => {
                let f = CollectionFields {
                    title: title.clone(),
                    notes: crate::store::copy_strings(notes),
                    included: crate::store::copy_strings(included),
                };
                assert(f@.notes =~= self.cache().notes->0);
                assert(f@.included =~= self.cache().included->0);
                Ok(f)
            },
            _ => Err(StoreError::NotFound),
        }
    }

    /// The input that describes the collection, read back from the store.
    /// The cache is empty afterwards.
    pub fn pull(&mut self, store: &Store) -> (r: Result<Vec<(String, Item)>, StoreError>)
        ensures
            final(self).container == old(self).container,
            match r {
                Ok(table) => collection_fill_error(
                    old(self).title,
                    old(self).included,
                    old(self).notes,
                    store@,
                    old(self).container@,
                ) is None && final(self).title is None && final(self).included is None && final(
                    self
                ).notes is None && pulled_collection(
                    table@,
                    CollectionData {
                        title: lazy_text(old(self).title, store@, old(self).container@, "title"@)->Ok_0,
                        notes: lazy_strings(
                            old(self).notes,
                            store@,
                            old(self).container@,
                            "notes"@,
                        )->Ok_0,
                        included: lazy_strings(
                            old(self).included,
                            store@,
                            old(self).container@,
                            "include"@,
                        )->Ok_0,
                    },
                ),
                Err(e) => collection_fill_error(
                    old(self).title,
                    old(self).included,
                    old(self).notes,
                    store@,
                    old(self).container@,
                ) == Some(e),
            },
    {
        match self.fill_cache(store) {
            Ok(_) => {},
            Err(e) => {
                return Err(e);
            },
        }
        let mut table: Vec<(String, Item)> = Vec::new();
        match (&self.title, &self.notes, &self.included) {
            (Some(title), Some(notes), Some(included)) => {
                table.push(text_pair("title", title));
                table.push(texts_pair("notes", notes));
                table.push(texts_pair("include", included));
                self.clear_cache();
                Ok(table)
            },
            _ => Err(StoreError::NotFound),
        }
    }

    /// The title: loaded from the store on first use, then cached.
    pub fn title(&mut self, store: &Store) -> (r: Result<&String, StoreError>)
        ensures
            *final(self) == (Collection { title: final(self).title, ..*old(self) }),
            match r {
                Ok(s) => lazy_text(old(self).title, store@, old(self).container@, "title"@) == Ok::<
                    Seq<char>,
                    StoreError,
                >(s@) && final(self).title == Some(*s),
                Err(e) => lazy_text(old(self).title, store@, old(self).container@, "title"@)
                    == Err::<Seq<char>, StoreError>(e) && final(self).title == old(self).title,
            },
    {
        fetch_text(&mut self.title, store, &self.container, "title")
    }

    /// The notes: loaded from the store on first use, then cached.
    pub fn notes(&mut self, store: &Store) -> (r: Result<&Vec<String>, StoreError>)
        ensures
            *final(self) == (Collection { notes: final(self).notes, ..*old(self) }),
            match r {
                Ok(v) => lazy_strings(old(self).notes, store@, old(self).container@, "notes"@)
                    == Ok::<Seq<Seq<char>>, StoreError>(lines(v@)) && final(self).notes == Some(*v),
                Err(e) => lazy_strings(old(self).notes, store@, old(self).container@, "notes"@)
                    == Err::<Seq<Seq<char>>, StoreError>(e) && final(self).notes == old(self).notes,
            },
    {
        fetch_strings(&mut self.notes, store, &self.container, "notes")
    }

    /// The tags to gather: loaded from the store on first use, then cached.
    pub fn included(&mut self, store: &Store) -> (r: Result<&Vec<String>, StoreError>)
        ensures
            *final(self) == (Collection { included: final(self).included, ..*old(self) }),
            match r {
                Ok(v) => lazy_strings(old(self).included, store@, old(self).container@, "include"@)
                    == Ok::<Seq<Seq<char>>, StoreError>(lines(v@)) && final(self).included == Some(
                    *v,
                ),
                Err(e) => lazy_strings(
                    old(self).included,
                    store@,
                    old(self).container@,
                    "include"@,
                ) == Err::<Seq<Seq<char>>, StoreError>(e) && final(self).included == old(
                    self
                ).included,
            },
    {
        fetch_strings(&mut self.included, store, &self.container, "include")
    }
}

} // verus!
