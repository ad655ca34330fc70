//! A map of content: an entity that gathers entries and other maps by tag.

pub mod collection;

use crate::document::{
    get_array,
    get_strings,
    get_table,
    get_text,
    gives_text,
    gives_texts,
    invalid,
    text_of,
    text_pair,
    texts_in,
    texts_pair,
    top,
    want_array,
    want_strings,
    want_table,
    want_text,
    Fault,
    Field,
    Flaw,
    Invalid,
    Item,
    Problem,
};
use crate::field::{
    begin,
    fetch_strings,
    fetch_text,
    filled_strings,
    filled_text,
    lazy_strings,
    lazy_text,
    lemma_then_datum,
    lemma_then_datum_other,
    lemma_then_dir,
    lemma_then_dir_other,
    lemma_then_strings,
    lemma_then_strings_other,
    lines,
    save_strings,
    save_text,
    strings_at,
    text_at,
    then_datum,
    then_dir,
    then_strings,
    then_text,
    Saved,
};
use crate::keys::{
    index_key,
    index_name,
    lemma_index_key_injective,
    lemma_index_key_not_length,
    length_key,
};
use crate::list::{lemma_child_below, list_length, load_length};
use crate::store::{
    is_dir,
    lemma_siblings_apart,
    lemma_under_child,
    same_at,
    under,
    Container,
    Datum,
    Path,
    Scalar,
    Store,
    StoreError,
    Tree,
};
pub use collection::{Collection, CollectionCache, CollectionData, CollectionFields};
use collection::{
    collection_checked,
    full_collection,
    lemma_then_collection_other,
    lemma_then_collection_read_back,
    then_collection,
};
use vstd::prelude::*;

verus! {

/// A map of content that is loaded field by field from its container.
pub struct MOC {
    pub container: Container,
    pub uid: String,
    pub collections: Option<Vec<Collection>>,
    pub title: Option<String>,
    pub description: Option<String>,
    pub tags: Option<Vec<String>>,
    pub notes: Option<Vec<String>>,
}

/// The fields of a map of content, checked and ready to be stored.
#[derive(Debug, PartialEq, Eq)]
pub struct MocFields {
    pub uid: String,
    pub title: String,
    pub description: String,
    pub notes: Vec<String>,
    pub tags: Vec<String>,
    pub collections: Vec<CollectionFields>,
}

/// The mathematical value of the fields of a map of content.
pub ghost struct MocData {
    pub uid: Seq<char>,
    pub title: Seq<char>,
    pub description: Seq<char>,
    pub notes: Seq<Seq<char>>,
    pub tags: Seq<Seq<char>>,
    pub collections: Seq<CollectionData>,
}

/// What a map of content has in its cache, the collections apart.
pub ghost struct MocCache {
    pub title: Option<Seq<char>>,
    pub description: Option<Seq<char>>,
    pub notes: Option<Seq<Seq<char>>>,
    pub tags: Option<Seq<Seq<char>>>,
}

/// The values of a list of checked collections.
pub open spec fn collection_data(list: Seq<CollectionFields>) -> Seq<CollectionData> {
    Seq::new(list.len(), |i: int| list[i]@)
}

impl View for MocFields {
    type V = MocData;

    open spec fn view(&self) -> MocData {
        MocData {
            uid: self.uid@,
            title: self.title@,
            description: self.description@,
            notes: lines(self.notes@),
            tags: lines(self.tags@),
            collections: collection_data(self.collections@),
        }
    }
}

/// The first `n` collections of an input, or the first thing that is wrong with
/// them.
pub open spec fn collections_checked(
    items: Seq<Item>,
    entity: Seq<char>,
    n: nat,
) -> Result<Seq<CollectionData>, Flaw>
    decreases n,
{
    if n == 0 {
        Ok(Seq::empty())
    } else {
        match collections_checked(items, entity, (n - 1) as nat) {
            Err(e) => Err(e),
            Ok(first) => match items[n - 1] {
                Item::Table(table) => match collection_checked(
                    table@,
                    entity,
                    (n - 1) as u16,
                ) {
                    Ok(d) => Ok(first.push(d)),
                    Err(e) => Err(e),
                },
                _ => Err(
                    Flaw {
                        entity,
                        part: Some((n - 1) as u16),
                        field: Field::Collection,
                        problem: Problem::Mistyped,
                    },
                ),
            },
        }
    }
}

/// The collections of an input, or the first thing that is wrong with them.
pub open spec fn all_collections_checked(
    items: Seq<Item>,
    entity: Seq<char>,
) -> Result<Seq<CollectionData>, Flaw> {
    if items.len() > u16::MAX {
        Err(top(entity, Field::Collection, Problem::TooMany))
    } else {
        collections_checked(items, entity, items.len())
    }
}

/// The fields of the map of content that the document `doc` describes, or the first
/// thing that is wrong with it.
pub open spec fn moc_checked(
    doc: Seq<(String, Item)>,
    entity: Seq<char>,
) -> Result<MocData, Flaw> {
    match want_table(doc, "moc"@) {
        Err(p) => Err(top(entity, Field::Moc, p)),
        Ok(table) => match want_text(table, "uid"@) {
            Err(p) => Err(top(entity, Field::Uid, p)),
            Ok(uid) => match want_text(table, "title"@) {
                Err(p) => Err(top(entity, Field::Title, p)),
                Ok(title) => match want_text(table, "description"@) {
                    Err(p) => Err(top(entity, Field::Description, p)),
                    Ok(description) => match want_array(table, "notes"@) {
                        Err(p) => Err(top(entity, Field::Notes, p)),
                        Ok(raw_notes) => match want_array(table, "groups"@) {
                            Err(p) => Err(top(entity, Field::Groups, p)),
                            Ok(raw_tags) => match want_array(doc, "collection"@) {
                                Err(p) => Err(top(entity, Field::Collection, p)),
                                Ok(raw_collections) => match want_strings(raw_notes) {
                                        Err(p) => Err(top(entity, Field::Notes, p)),
                                        Ok(notes) => match want_strings(raw_tags) {
                                            Err(p) => Err(top(entity, Field::Groups, p)),
                                            Ok(tags) => match all_collections_checked(
                                                raw_collections,
                                                entity,
                                            ) {
                                                Err(e) => Err(e),
                                                Ok(collections) => Ok(
                                                    MocData {
                                                        uid,
                                                        title,
                                                        description,
                                                        notes,
                                                        tags,
                                                        collections,
                                                    },
                                                ),
                                            },
                                        },
                                },
                            },
                        },
                    },
                },
            },
        },
    }
}

/// Once a collection is wrong, checking more of them fails alike.
proof fn lemma_collections_error(
    items: Seq<Item>,
    entity: Seq<char>,
    n: nat,
    m: nat,
)
    requires
        n <= m,
        collections_checked(items, entity, n) is Err,
    ensures
        collections_checked(items, entity, m) == collections_checked(items, entity, n),
    decreases m,
{
    if n < m {
        lemma_collections_error(items, entity, n, (m - 1) as nat);
    }
}

/// Checks the collections of an input and picks their fields.
pub fn check_collections(items: &Vec<Item>, entity: &str) -> (r: Result<
    Vec<CollectionFields>,
    Invalid,
>)
    ensures
        match r {
            Ok(v) => all_collections_checked(items@, entity@) == Ok::<
                Seq<CollectionData>,
                Flaw,
            >(collection_data(v@)),
            Err(e) => all_collections_checked(items@, entity@) == Err::<
                Seq<CollectionData>,
                Flaw,
            >(e@),
        },
{
    if items.len() > 65535 {
        return Err(invalid(entity, None, Field::Collection, Problem::TooMany));
    }
    let mut out: Vec<CollectionFields> = Vec::new();
    let mut i: u16 = 0;
    assert(collection_data(out@) =~= Seq::<CollectionData>::empty());
    while (i as usize) < items.len()
        invariant
            i <= items@.len() <= u16::MAX,
            out@.len() == i,
            collections_checked(items@, entity@, i as nat) == Ok::<
                Seq<CollectionData>,
                Flaw,
            >(collection_data(out@)),
        decreases items@.len() - i,
    {
        match &items[i as usize] {
            Item::Table(table) => match Collection::check(table, entity, i) {
                Ok(f) => {
                    let ghost before = collection_data(out@);
                    out.push(f);
                    assert(collection_data(out@) =~= before.push(f@));
                },
                Err(e) => {
                    proof {
                        lemma_collections_error(
                            items@,
                            entity@,
                            (i + 1) as nat,
                            items@.len(),
                        );
                    }
                    return Err(e);
                },
            },
            _ => {
                proof {
                    lemma_collections_error(
                        items@,
                        entity@,
                        (i + 1) as nat,
                        items@.len(),
                    );
                }
                return Err(invalid(entity, Some(i), Field::Collection, Problem::Mistyped));
            },
        }
        i = i + 1;
    }
    Ok(out)
}

impl MOC {
    /// Checks the document `doc`, the input at `entity`, and picks the fields
    /// of the map of content that it describes.
    pub fn check(doc: &Vec<(String, Item)>, entity: &str) -> (r: Result<
        MocFields,
        Invalid,
    >)
        ensures
            match r {
                Ok(f) => moc_checked(doc@, entity@) == Ok::<MocData, Flaw>(f@),
                Err(e) => moc_checked(doc@, entity@) == Err::<MocData, Flaw>(
                    e@,
                ),
            },
    {
        let table = match get_table(doc, "moc") {
            Ok(t) => t,
            Err(p) => {
                return Err(invalid(entity, None, Field::Moc, p));
            },
        };
        let uid = match get_text(table, "uid") {
            Ok(s) => s,
            Err(p) => {
                return Err(invalid(entity, None, Field::Uid, p));
            },
        };
        let title = match get_text(table, "title") {
            Ok(s) => s,
            Err(p) => {
                return Err(invalid(entity, None, Field::Title, p));
            },
        };
        let description = match get_text(table, "description") {
            Ok(s) => s,
            Err(p) => {
                return Err(invalid(entity, None, Field::Description, p));
            },
        };
        let raw_notes = match get_array(table, "notes") {
            Ok(v) => v,
            Err(p) => {
                return Err(invalid(entity, None, Field::Notes, p));
            },
        };
        let raw_tags = match get_array(table, "groups") {
            Ok(v) => v,
            Err(p) => {
                return Err(invalid(entity, None, Field::Groups, p));
            },
        };
        let raw_collections = match get_array(doc, "collection") {
            Ok(v) => v,
            Err(p) => {
                return Err(invalid(entity, None, Field::Collection, p));
            },
        };
        let notes = match get_strings(raw_notes) {
            Ok(v) => v,
            Err(p) => {
                return Err(invalid(entity, None, Field::Notes, p));
            },
        };
        let tags = match get_strings(raw_tags) {
            Ok(v) => v,
            Err(p) => {
                return Err(invalid(entity, None, Field::Groups, p));
            },
        };
        let collections = match check_collections(raw_collections, entity) {
            Ok(v) => v,
            Err(e) => {
                return Err(e);
            },
        };
        let fields = MocFields { uid, title, description, notes, tags, collections };
        assert(fields@.notes =~= want_strings(raw_notes@)->Ok_0);
        assert(fields@.tags =~= want_strings(raw_tags@)->Ok_0);
        Ok(fields)
    }
}

/// A cache that holds every field of a map of content.
pub open spec fn full_moc(d: MocData) -> MocCache {
    MocCache {
        title: Some(d.title),
        description: Some(d.description),
        notes: Some(d.notes),
        tags: Some(d.tags),
    }
}

/// The run `s` followed by the writes of the cached fields of a map of content into
/// container `c`.
pub open spec fn then_moc(s: Saved, c: Path, cache: MocCache) -> Saved {
    then_strings(
        then_strings(
            then_text(
                then_text(s, c, "title"@, cache.title),
                c,
                "description"@,
                cache.description,
            ),
            c,
            "notes"@,
            cache.notes,
        ),
        c,
        "groups"@,
        cache.tags,
    )
}

/// What storing the cached fields of a map of content in container `c` leaves.
pub open spec fn moc_saved(t: Tree, c: Path, cache: MocCache) -> Saved {
    then_moc(begin(t), c, cache)
}

/// The run `s` followed by storing the first `n` of the collections `ds`, each
/// in a container of its own, made anew under its index in `sc`.
pub open spec fn then_collections(s: Saved, sc: Path, ds: Seq<CollectionData>, n: nat) -> Saved
    decreases n,
{
    if n == 0 {
        s
    } else {
        then_collection(
            then_dir(then_collections(s, sc, ds, (n - 1) as nat), sc, index_key((n - 1) as nat)),
            sc.push(index_key((n - 1) as nat)),
            full_collection(ds[n - 1]),
        )
    }
}

/// What storing a map of content under its uid in the container `db` leaves: the
/// map's container is made anew, then its collections are stored, then their
/// number, then the map's own fields.
pub open spec fn moc_stored(t: Tree, db: Path, d: MocData) -> Saved {
    if d.collections.len() > u16::MAX {
        Saved { tree: t, error: Some(StoreError::TooLong) }
    } else {
        then_moc(
            then_datum(
                then_collections(
                    then_dir(then_dir(begin(t), db, d.uid), db.push(d.uid), "collections"@),
                    db.push(d.uid).push("collections"@),
                    d.collections,
                    d.collections.len(),
                ),
                db.push(d.uid).push("collections"@),
                length_key(),
                Datum::U16(d.collections.len() as u16),
            ),
            db.push(d.uid),
            full_moc(d),
        )
    }
}

/// The containers of the first `n` collections of the list in `sc`.
pub open spec fn collection_handles(t: Tree, sc: Path, n: nat) -> Result<Seq<Path>, StoreError>
    decreases n,
{
    if n == 0 {
        Ok(Seq::empty())
    } else {
        match collection_handles(t, sc, (n - 1) as nat) {
            Err(e) => Err(e),
            Ok(first) => if t.contains_key(sc.push(index_key((n - 1) as nat))) && t[sc.push(
                index_key((n - 1) as nat),
            )] is Dir {
                Ok(first.push(sc.push(index_key((n - 1) as nat))))
            } else {
                Err(StoreError::NotFound)
            },
        }
    }
}

/// The containers of the collections of the map of content in `c`.
pub open spec fn collections_at(t: Tree, c: Path) -> Result<Seq<Path>, StoreError> {
    match list_length(t, c.push("collections"@)) {
        Err(e) => Err(e),
        Ok(n) => collection_handles(t, c.push("collections"@), n as nat),
    }
}

/// The containers of a list of collections.
pub open spec fn handles(list: Seq<Collection>) -> Seq<Path> {
    Seq::new(list.len(), |i: int| list[i].container@)
}

/// What the lazily loaded collections yield: the containers of those cached if
/// there are any, else of those stored.
pub open spec fn lazy_collections(cache: Option<Vec<Collection>>, t: Tree, c: Path) -> Result<
    Seq<Path>,
    StoreError,
> {
    match cache {
        Some(v) => Ok(handles(v@)),
        None => collections_at(t, c),
    }
}

/// Once a step of storing collections fails, the later steps change nothing.
proof fn lemma_then_collections_error(s: Saved, sc: Path, ds: Seq<CollectionData>, n: nat, m: nat)
    requires
        n <= m,
        then_collections(s, sc, ds, n).error is Some,
    ensures
        then_collections(s, sc, ds, m) == then_collections(s, sc, ds, n),
    decreases m,
{
    if n < m {
        lemma_then_collections_error(s, sc, ds, n, (m - 1) as nat);
    }
}

/// Once a collection container is absent, asking for more of them fails alike.
proof fn lemma_handles_error(t: Tree, sc: Path, n: nat, m: nat)
    requires
        n <= m,
        collection_handles(t, sc, n) is Err,
    ensures
        collection_handles(t, sc, m) == collection_handles(t, sc, n),
    decreases m,
{
    if n < m {
        lemma_handles_error(t, sc, n, (m - 1) as nat);
    }
}

/// Stores the collections `collections`, each in a container of its own, made
/// anew under its index in `list`.
fn store_collections(collections: &Vec<CollectionFields>, list: &Container, store: &mut Store) -> (r:
    Result<(), StoreError>)
    requires
        collections@.len() <= u16::MAX,
    ensures
        then_collections(begin(old(store)@), list@, collection_data(collections@), collections@.len()) == (Saved {
            tree: final(store)@,
            error: r.err(),
        }),
{
    let ghost start = begin(old(store)@);
    let ghost ds = collection_data(collections@);
    let mut i: u16 = 0;
    while (i as usize) < collections.len()
        invariant
            i <= collections@.len() <= u16::MAX,
            ds == collection_data(collections@),
            start == begin(old(store)@),
            then_collections(start, list@, ds, i as nat) == begin(store@),
        decreases collections@.len() - i,
    {
        let name = index_name(i);
        let sub = match crate::field::make_dir(store, list, name.as_str()) {
            Ok(c) => c,
            Err(e) => {
                proof {
                    lemma_then_collections_error(
                        start,
                        list@,
                        ds,
                        (i + 1) as nat,
                        collections@.len(),
                    );
                }
                return Err(e);
            },
        };
        match Collection::store_fields(&collections[i as usize], &sub, store) {
            Ok(_) => {},
            Err(e) => {
                proof {
                    lemma_then_collections_error(
                        start,
                        list@,
                        ds,
                        (i + 1) as nat,
                        collections@.len(),
                    );
                }
                return Err(e);
            },
        }
        i = i + 1;
    }
    Ok(())
}

impl MOC {
    /// What the map of content has in its cache, the collections apart.
    pub open spec fn cache(&self) -> MocCache {
        MocCache {
            title: text_of(self.title),
            description: text_of(self.description),
            notes: texts_in(self.notes),
            tags: texts_in(self.tags),
        }
    }

    /// Nothing is cached.
    pub open spec fn is_clear(&self) -> bool {
        self.collections is None && self.title is None && self.description is None
            && self.tags is None && self.notes is None
    }

    /// Stores `fields` as a map of content under its uid in the container `database`
    /// and returns the map of content with an empty cache.
    pub fn compose(fields: MocFields, database: &Container, store: &mut Store) -> (r: Result<
        MOC,
        StoreError,
    >)
        ensures
            moc_stored(old(store)@, database@, fields@) == (Saved {
                tree: final(store)@,
                error: r.err(),
            }),
            r matches Ok(e) ==> e.uid@ == fields.uid@ && e.container@ == database@.push(
                fields.uid@,
            ) && e.is_clear(),
    {
        if fields.collections.len() > 65535 {
            return Err(StoreError::TooLong);
        }
        let ghost first = then_dir(begin(old(store)@), database@, fields.uid@);
        let ghost second = then_dir(first, database@.push(fields.uid@), "collections"@);
        proof {
            let sc = database@.push(fields.uid@).push("collections"@);
            if second.error is Some {
                lemma_then_collections_error(
                    second,
                    sc,
                    fields@.collections,
                    0,
                    fields@.collections.len(),
                );
            }
        }
        let container = match crate::field::make_dir(store, database, fields.uid.as_str()) {
            Ok(c) => c,
            Err(e) => {
                return Err(e);
            },
        };
        let list = match crate::field::make_dir(store, &container, "collections") {
            Ok(c) => c,
            Err(e) => {
                return Err(e);
            },
        };
        match store_collections(&fields.collections, &list, store) {
            Ok(_) => {},
            Err(e) => {
                return Err(e);
            },
        }
        proof {
            reveal_strlit("length");
        }
        let count: u16 = fields.collections.len() as u16;
        match store.write_data(&list, "length", Scalar::U16(count)) {
            Ok(_) => {},
            Err(e) => {
                return Err(e);
            },
        }
        let ghost data = fields@;
        let mut this = MOC {
            container,
            uid: fields.uid,
            collections: None,
            title: Some(fields.title),
            description: Some(fields.description),
            tags: Some(fields.tags),
            notes: Some(fields.notes),
        };
        assert(this.cache().notes->0 =~= data.notes);
        assert(this.cache().tags->0 =~= data.tags);
        assert(this.cache() == full_moc(data));
        match this.store_lazy(store) {
            Ok(_) => {},
            Err(e) => {
                return Err(e);
            },
        }
        this.clear_cache();
        Ok(this)
    }

    /// Makes the map of content that the document `doc`, the input at `entity`,
    /// describes, and stores it under its uid in the container `database`.
    /// Invalid input leaves the store as it was.
    pub fn new(
        doc: &Vec<(String, Item)>,
        entity: &str,
        database: &Container,
        store: &mut Store,
    ) -> (r: Result<MOC, Fault>)
        ensures
            match moc_checked(doc@, entity@) {
                Err(flaw) => (r matches Err(Fault::Invalid(e)) && e@ == flaw) && final(store)@
                    == old(store)@,
                Ok(d) => moc_stored(old(store)@, database@, d).tree == final(store)@
                    && match moc_stored(old(store)@, database@, d).error {
                    Some(e) => r matches Err(Fault::Store(x)) && x == e,
                    None => r matches Ok(moc) && moc.uid@ == d.uid && moc.container@
                        == database@.push(d.uid) && moc.is_clear(),
                },
            },
    {
        let fields = match MOC::check(doc, entity) {
            Ok(f) => f,
            Err(e) => {
                return Err(Fault::Invalid(e));
            },
        };
        match MOC::compose(fields, database, store) {
            Ok(e) => Ok(e),
            Err(e) => Err(Fault::Store(e)),
        }
    }

    /// Writes every cached field but the collections to the store; fields that
    /// are not cached are left as they are in the store.
    pub fn store_lazy(&self, store: &mut Store) -> (r: Result<(), StoreError>)
        ensures
            moc_saved(old(store)@, self.container@, self.cache()) == (Saved {
                tree: final(store)@,
                error: r.err(),
            }),
    {
        if let Some(x) = &self.title {
            match save_text(store, &self.container, "title", x) {
                Ok(_) => {},
                Err(e) => {
                    return Err(e);
                },
            }
        }
        if let Some(x) = &self.description {
            match save_text(store, &self.container, "description", x) {
                Ok(_) => {},
                Err(e) => {
                    return Err(e);
                },
            }
        }
        if let Some(x) = &self.notes {
            match save_strings(store, &self.container, "notes", x) {
                Ok(_) => {},
                Err(e) => {
                    return Err(e);
                },
            }
        }
        if let Some(x) = &self.tags {
            match save_strings(store, &self.container, "groups", x) {
                Ok(_) => {},
                Err(e) => {
                    return Err(e);
                },
            }
        }
        Ok(())
    }

    /// Attaches to the map of content `uid` that was stored in `container`; nothing is
    /// loaded yet.
    pub fn load_lazy(uid: String, container: Container) -> (r: MOC)
        ensures
            r.uid == uid,
            r.container == container,
            r.is_clear(),
    {
        MOC {
            container,
            uid,
            title: None,
            collections: None,
            description: None,
            tags: None,
            notes: None,
        }
    }

    /// Forgets every cached field.
    pub fn clear_cache(&mut self)
        ensures
            final(self).container == old(self).container,
            final(self).uid == old(self).uid,
            final(self).is_clear(),
    {
        self.title = None;
        self.collections = None;
        self.description = None;
        self.tags = None;
        self.notes = None;
    }

    /// The title: loaded from the store on first use, then cached.
    pub fn title(&mut self, store: &Store) -> (r: Result<&String, StoreError>)
        ensures
            *final(self) == (MOC { title: final(self).title, ..*old(self) }),
            match r {
                Ok(s) => lazy_text(old(self).title, store@, old(self).container@, "title"@) == Ok::<
                    Seq<char>,
                    StoreError,
                >(s@) && final(self).title == Some(*s),
                Err(e) => lazy_text(old(self).title, store@, old(self).container@, "title"@)
                    == Err::<Seq<char>, StoreError>(e) && final(self).title == old(self).title,
            },
    {
        fetch_text(&mut self.title, store, &self.container, "title")
    }

    /// The description: loaded from the store on first use, then cached.
    pub fn description(&mut self, store: &Store) -> (r: Result<&String, StoreError>)
        ensures
            *final(self) == (MOC { description: final(self).description, ..*old(self) }),
            match r {
                Ok(s) => lazy_text(
                    old(self).description,
                    store@,
                    old(self).container@,
                    "description"@,
                ) == Ok::<Seq<char>, StoreError>(s@) && final(self).description == Some(*s),
                Err(e) => lazy_text(
                    old(self).description,
                    store@,
                    old(self).container@,
                    "description"@,
                ) == Err::<Seq<char>, StoreError>(e) && final(self).description == old(
                    self
                ).description,
            },
    {
        fetch_text(&mut self.description, store, &self.container, "description")
    }

    /// The notes: loaded from the store on first use, then cached.
    pub fn notes(&mut self, store: &Store) -> (r: Result<&Vec<String>, StoreError>)
        ensures
            *final(self) == (MOC { notes: final(self).notes, ..*old(self) }),
            match r {
                Ok(v) => lazy_strings(old(self).notes, store@, old(self).container@, "notes"@)
                    == Ok::<Seq<Seq<char>>, StoreError>(lines(v@)) && final(self).notes == Some(*v),
                Err(e) => lazy_strings(old(self).notes, store@, old(self).container@, "notes"@)
                    == Err::<Seq<Seq<char>>, StoreError>(e) && final(self).notes == old(self).notes,
            },
    {
        fetch_strings(&mut self.notes, store, &self.container, "notes")
    }

    /// The tags: loaded from the store on first use, then cached.
    pub fn tags(&mut self, store: &Store) -> (r: Result<&Vec<String>, StoreError>)
        ensures
            *final(self) == (MOC { tags: final(self).tags, ..*old(self) }),
            match r {
                Ok(v) => lazy_strings(old(self).tags, store@, old(self).container@, "groups"@)
                    == Ok::<Seq<Seq<char>>, StoreError>(lines(v@)) && final(self).tags == Some(*v),
                Err(e) => lazy_strings(old(self).tags, store@, old(self).container@, "groups"@)
                    == Err::<Seq<Seq<char>>, StoreError>(e) && final(self).tags == old(self).tags,
            },
    {
        fetch_strings(&mut self.tags, store, &self.container, "groups")
    }

    /// The collections, each attached to its container with nothing loaded:
    /// found in the store on first use, then cached.
    pub fn collections(&mut self, store: &Store) -> (r: Result<&Vec<Collection>, StoreError>)
        ensures
            *final(self) == (MOC { collections: final(self).collections, ..*old(self) }),
            match r {
                Ok(v) => lazy_collections(old(self).collections, store@, old(self).container@) == Ok::<
                    Seq<Path>,
                    StoreError,
                >(handles(v@)) && final(self).collections == Some(*v) && (old(self).collections is None
                    ==> forall|i: int|
                    0 <= i < v@.len() ==> (#[trigger] v@[i]).title is None && v@[i].included is None
                        && v@[i].notes is None),
                Err(e) => lazy_collections(old(self).collections, store@, old(self).container@) == Err::<
                    Seq<Path>,
                    StoreError,
                >(e) && final(self).collections == old(self).collections,
            },
    {
        if self.collections.is_none() {
            let list = self.container.child("collections");
            let length = match load_length(&list, store) {
                Ok(n) => n,
                Err(e) => {
                    return Err(e);
                },
            };
            let mut out: Vec<Collection> = Vec::new();
            let mut i: u16 = 0;
            assert(handles(out@) =~= Seq::<Path>::empty());
            while i < length
                invariant
                    i <= length,
                    out@.len() == i,
                    *self == *old(self),
                    self.collections is None,
                    list_length(store@, list@) == Ok::<u16, StoreError>(length),
                    list@ == self.container@.push("collections"@),
                    collection_handles(store@, list@, i as nat) == Ok::<Seq<Path>, StoreError>(
                        handles(out@),
                    ),
                    forall|j: int|
                        0 <= j < out@.len() ==> (#[trigger] out@[j]).title is None
                            && out@[j].included is None && out@[j].notes is None,
                decreases length - i,
            {
                let name = index_name(i);
                match store.read_container(&list, name.as_str()) {
                    Ok(c) => {
                        let ghost before = handles(out@);
                        out.push(Collection::load_lazy(c));
                        assert(handles(out@) =~= before.push(c@));
                    },
                    Err(e) => {
                        proof {
                            lemma_handles_error(store@, list@, (i + 1) as nat, length as nat);
                        }
                        return Err(e);
                    },
                }
                i = i + 1;
            }
            self.collections = Some(out);
        }
        Ok(self.collections.as_ref().unwrap())
    }
}

/// The keys of a map of content differ from each other.
pub proof fn lemma_moc_keys()
    ensures
        "title"@ != "description"@,
        "title"@ != "notes"@,
        "title"@ != "groups"@,
        "title"@ != "collections"@,
        "description"@ != "notes"@,
        "description"@ != "groups"@,
        "description"@ != "collections"@,
        "notes"@ != "groups"@,
        "notes"@ != "collections"@,
        "groups"@ != "collections"@,
{
    reveal_strlit("title");
    reveal_strlit("description");
    reveal_strlit("notes");
    reveal_strlit("groups");
    reveal_strlit("collections");
    assert("title"@.len() == 5 && "description"@.len() == 11);
    assert("notes"@.len() == 5 && "groups"@.len() == 6 && "collections"@.len() == 11);
    assert("title"@[0] == 't' && "notes"@[0] == 'n');
    assert("description"@[0] == 'd' && "collections"@[0] == 'c');
}

/// Storing the cached fields of a map of content changes nothing but the two
/// scalars and the two lists that it writes.
pub proof fn lemma_then_moc_other(s: Saved, c: Path, cache: MocCache, p: Path)
    requires
        then_moc(s, c, cache).error is None,
        p != c.push("title"@),
        p != c.push("description"@),
        !under(p, c.push("notes"@)),
        !under(p, c.push("groups"@)),
    ensures
        s.error is None,
        same_at(then_moc(s, c, cache).tree, s.tree, p),
{
    let s1 = then_text(s, c, "title"@, cache.title);
    let s2 = then_text(s1, c, "description"@, cache.description);
    let s4 = then_strings(s2, c, "notes"@, cache.notes);
    lemma_then_strings_other(s4, c, "groups"@, cache.tags, p);
    lemma_then_strings_other(s2, c, "notes"@, cache.notes, p);
    if cache.description is Some {
        lemma_then_datum_other(s1, c, "description"@, Datum::Text(cache.description->0), p);
    }
    if cache.title is Some {
        lemma_then_datum_other(s, c, "title"@, Datum::Text(cache.title->0), p);
    }
}

/// Storing the cached fields of a map of content changes nothing outside its
/// container, and nothing among its collections.
pub proof fn lemma_then_moc_apart(s: Saved, c: Path, cache: MocCache, p: Path)
    requires
        then_moc(s, c, cache).error is None,
        !under(p, c) || p == c || under(p, c.push("collections"@)),
    ensures
        s.error is None,
        same_at(then_moc(s, c, cache).tree, s.tree, p),
{
    lemma_moc_keys();
    lemma_child_below(c, "title"@);
    lemma_child_below(c, "description"@);
    if under(p, c.push("notes"@)) {
        lemma_under_child(p, c, "notes"@);
        if under(p, c.push("collections"@)) {
            lemma_under_child(p, c, "collections"@);
        }
    }
    if under(p, c.push("groups"@)) {
        lemma_under_child(p, c, "groups"@);
        if under(p, c.push("collections"@)) {
            lemma_under_child(p, c, "collections"@);
        }
    }
    if under(p, c.push("collections"@)) {
        lemma_under_child(p, c, "collections"@);
    }
    lemma_then_moc_other(s, c, cache, p);
}

/// What reading each field of a map of content, the collections apart, yields.
pub ghost struct MocRead {
    pub title: Result<Seq<char>, StoreError>,
    pub description: Result<Seq<char>, StoreError>,
    pub notes: Result<Seq<Seq<char>>, StoreError>,
    pub tags: Result<Seq<Seq<char>>, StoreError>,
}

/// What reading each field of the map of content in container `c` yields.
pub open spec fn moc_read(t: Tree, c: Path) -> MocRead {
    MocRead {
        title: text_at(t, c, "title"@),
        description: text_at(t, c, "description"@),
        notes: strings_at(t, c, "notes"@),
        tags: strings_at(t, c, "groups"@),
    }
}

/// What reading each field yields where the fields `d` are stored.
pub open spec fn moc_read_of(d: MocData) -> MocRead {
    MocRead {
        title: Ok(d.title),
        description: Ok(d.description),
        notes: Ok(d.notes),
        tags: Ok(d.tags),
    }
}

/// After a run that ends with storing all fields of a map of content, each field is
/// read back as it was given.
pub proof fn lemma_then_moc_read_back(s: Saved, c: Path, d: MocData)
    requires
        then_moc(s, c, full_moc(d)).error is None,
    ensures
        s.error is None,
        is_dir(s.tree, c),
        moc_read(then_moc(s, c, full_moc(d)).tree, c) == moc_read_of(d),
{
    lemma_moc_keys();
    let s1 = then_datum(s, c, "title"@, Datum::Text(d.title));
    let s2 = then_datum(s1, c, "description"@, Datum::Text(d.description));
    let s4 = then_strings(s2, c, "notes"@, Some(d.notes));
    let s5 = then_strings(s4, c, "groups"@, Some(d.tags));
    assert(s5 == then_moc(s, c, full_moc(d)));
    lemma_then_strings(s4, c, "groups"@, d.tags);
    lemma_then_strings(s2, c, "notes"@, d.notes);
    lemma_then_datum(s1, c, "description"@, Datum::Text(d.description));
    lemma_then_datum(s, c, "title"@, Datum::Text(d.title));
    let pt = c.push("title"@);
    let pd = c.push("description"@);
    lemma_child_below(c, "title"@);
    lemma_child_below(c, "description"@);
    assert forall|p: Path| p == pt || p == pd implies !under(p, c.push("notes"@))
        && !under(p, c.push("groups"@)) by {
        if under(p, c.push("notes"@)) {
            lemma_under_child(p, c, "notes"@);
        }
        if under(p, c.push("groups"@)) {
            lemma_under_child(p, c, "groups"@);
        }
    }
    lemma_then_strings_other(s4, c, "groups"@, Some(d.tags), pt);
    lemma_then_strings_other(s4, c, "groups"@, Some(d.tags), pd);
    lemma_then_strings_other(s2, c, "notes"@, Some(d.notes), pt);
    lemma_then_strings_other(s2, c, "notes"@, Some(d.notes), pd);
    lemma_then_datum_other(s1, c, "description"@, Datum::Text(d.description), pt);
    assert forall|p: Path| #[trigger] under(p, c.push("notes"@)) implies same_at(
        s5.tree,
        s4.tree,
        p,
    ) by {
        lemma_siblings_apart(p, c, "notes"@, "groups"@);
        lemma_then_strings_other(s4, c, "groups"@, Some(d.tags), p);
    }
    crate::field::lemma_strings_at_local(s5.tree, s4.tree, c, "notes"@);
}

/// Storing collections changes nothing outside the containers of the collections
/// that are stored.
pub proof fn lemma_then_collections_other(s: Saved, sc: Path, ds: Seq<CollectionData>, n: nat, p: Path)
    requires
        then_collections(s, sc, ds, n).error is None,
        forall|j: nat| j < n ==> !under(p, sc.push(#[trigger] index_key(j))),
    ensures
        s.error is None,
        same_at(then_collections(s, sc, ds, n).tree, s.tree, p),
    decreases n,
{
    if n > 0 {
        let j = (n - 1) as nat;
        let prev = then_collections(s, sc, ds, j);
        let dir = then_dir(prev, sc, index_key(j));
        let cj = sc.push(index_key(j));
        assert(!under(p, sc.push(index_key(j))));
        lemma_then_collection_other(dir, cj, full_collection(ds[j as int]), p);
        lemma_then_dir(prev, sc, index_key(j));
        lemma_then_dir_other(prev, sc, index_key(j), p);
        lemma_then_collections_other(s, sc, ds, j, p);
    }
}

/// After the first `n` collections were stored, collection `i` has its container
/// and is read back as it was given.
pub proof fn lemma_then_collections_at(s: Saved, sc: Path, ds: Seq<CollectionData>, n: nat, i: nat)
    requires
        then_collections(s, sc, ds, n).error is None,
        i < n,
    ensures
        s.error is None,
        then_collections(s, sc, ds, n).tree.contains_key(sc.push(index_key(i))),
        then_collections(s, sc, ds, n).tree[sc.push(index_key(i))] is Dir,
        collection::collection_read(then_collections(s, sc, ds, n).tree, sc.push(index_key(i)))
            == collection::read_of(ds[i as int]),
    decreases n,
{
    let j = (n - 1) as nat;
    let prev = then_collections(s, sc, ds, j);
    let dir = then_dir(prev, sc, index_key(j));
    let cj = sc.push(index_key(j));
    let ci = sc.push(index_key(i));
    let done = then_collection(dir, cj, full_collection(ds[j as int]));
    assert(done == then_collections(s, sc, ds, n));
    lemma_then_collection_read_back(dir, cj, ds[j as int]);
    lemma_then_collection_other(dir, cj, full_collection(ds[j as int]), cj);
    lemma_then_dir(prev, sc, index_key(j));
    lemma_child_below(sc, index_key(j));
    if i == j {
        lemma_then_collections_other_all(s, sc, ds, j);
    } else {
        lemma_then_collections_at(s, sc, ds, j, i);
        assert(index_key(i) != index_key(j)) by {
            if index_key(i) == index_key(j) {
                lemma_index_key_injective(i, j);
            }
        }
        assert forall|p: Path| #[trigger] under(p, ci) implies same_at(done.tree, prev.tree, p) by {
            lemma_siblings_apart(p, sc, index_key(i), index_key(j));
            lemma_then_collection_other(dir, cj, full_collection(ds[j as int]), p);
            lemma_then_dir_other(prev, sc, index_key(j), p);
        }
        collection::lemma_collection_read_local(done.tree, prev.tree, ci);
        assert(ci.take(ci.len() as int) =~= ci);
        assert(under(ci, ci));
    }
}

/// A run that stored collections without an error began without one.
proof fn lemma_then_collections_other_all(s: Saved, sc: Path, ds: Seq<CollectionData>, n: nat)
    requires
        then_collections(s, sc, ds, n).error is None,
    ensures
        s.error is None,
    decreases n,
{
    if n > 0 {
        let j = (n - 1) as nat;
        let prev = then_collections(s, sc, ds, j);
        let dir = then_dir(prev, sc, index_key(j));
        lemma_then_collection_other(dir, sc.push(index_key(j)), full_collection(ds[j as int]), sc);
        lemma_child_below(sc, index_key(j));
        lemma_then_dir(prev, sc, index_key(j));
        lemma_then_collections_other_all(s, sc, ds, j);
    }
}

/// The containers of the first `n` collections of a list, by index.
pub open spec fn collection_paths(sc: Path, n: nat) -> Seq<Path> {
    Seq::new(n, |i: int| sc.push(index_key(i as nat)))
}

/// Where each of the first `n` collection containers exists, they are found.
proof fn lemma_handles_found(t: Tree, sc: Path, n: nat)
    requires
        forall|i: nat|
            i < n ==> t.contains_key(sc.push(#[trigger] index_key(i))) && t[sc.push(
                index_key(i),
            )] is Dir,
    ensures
        collection_handles(t, sc, n) == Ok::<Seq<Path>, StoreError>(collection_paths(sc, n)),
    decreases n,
{
    if n > 0 {
        lemma_handles_found(t, sc, (n - 1) as nat);
        let i = (n - 1) as nat;
        assert(t.contains_key(sc.push(index_key(i))));
        assert(collection_paths(sc, n) =~= collection_paths(sc, i).push(sc.push(index_key(i))));
    } else {
        assert(collection_paths(sc, 0) =~= Seq::<Path>::empty());
    }
}

/// A map of content that was stored is read back: with an empty cache each field
/// yields the value that was given, and the collections are found in order.
pub proof fn lemma_moc_read_back(t: Tree, db: Path, d: MocData)
    requires
        moc_stored(t, db, d).error is None,
    ensures
        moc_read(moc_stored(t, db, d).tree, db.push(d.uid)) == moc_read_of(d),
        collections_at(moc_stored(t, db, d).tree, db.push(d.uid)) == Ok::<Seq<Path>, StoreError>(
            collection_paths(db.push(d.uid).push("collections"@), d.collections.len()),
        ),
{
    let c = db.push(d.uid);
    let sc = c.push("collections"@);
    let n = d.collections.len();
    let s1 = then_dir(begin(t), db, d.uid);
    let s2 = then_dir(s1, c, "collections"@);
    let s3 = then_collections(s2, sc, d.collections, n);
    let s4 = then_datum(s3, sc, length_key(), Datum::U16(n as u16));
    let s5 = then_moc(s4, c, full_moc(d));
    assert(s5 == moc_stored(t, db, d));
    lemma_then_moc_read_back(s4, c, d);
    lemma_then_datum(s3, sc, length_key(), Datum::U16(n as u16));
    lemma_child_below(c, "collections"@);
    lemma_child_below(sc, length_key());
    assert(sc.take(sc.len() as int) =~= sc);
    lemma_then_moc_apart(s4, c, full_moc(d), sc);
    lemma_then_moc_apart(s4, c, full_moc(d), sc.push(length_key()));
    assert(under(sc.push(length_key()), sc));
    lemma_then_datum_other(s3, sc, length_key(), Datum::U16(n as u16), sc);
    assert forall|i: nat| i < n implies s5.tree.contains_key(sc.push(#[trigger] index_key(i)))
        && s5.tree[sc.push(index_key(i))] is Dir by {
        lemma_moc_collection_read_back(t, db, d, i);
    }
    lemma_handles_found(s5.tree, sc, n);
}

/// A collection of a map of content that was stored has its container and is read back
/// as it was given.
pub proof fn lemma_moc_collection_read_back(t: Tree, db: Path, d: MocData, i: nat)
    requires
        moc_stored(t, db, d).error is None,
        i < d.collections.len(),
    ensures
        moc_stored(t, db, d).tree.contains_key(
            db.push(d.uid).push("collections"@).push(index_key(i)),
        ),
        moc_stored(t, db, d).tree[db.push(d.uid).push("collections"@).push(index_key(i))] is Dir,
        collection::collection_read(
            moc_stored(t, db, d).tree,
            db.push(d.uid).push("collections"@).push(index_key(i)),
        ) == collection::read_of(d.collections[i as int]),
{
    let c = db.push(d.uid);
    let sc = c.push("collections"@);
    let ci = sc.push(index_key(i));
    let n = d.collections.len();
    let s1 = then_dir(begin(t), db, d.uid);
    let s2 = then_dir(s1, c, "collections"@);
    let s3 = then_collections(s2, sc, d.collections, n);
    let s4 = then_datum(s3, sc, length_key(), Datum::U16(n as u16));
    let s5 = then_moc(s4, c, full_moc(d));
    assert(s5 == moc_stored(t, db, d));
    lemma_then_moc_apart(s4, c, full_moc(d), c);
    lemma_then_datum(s3, sc, length_key(), Datum::U16(n as u16));
    lemma_then_collections_at(s2, sc, d.collections, n, i);
    lemma_index_key_not_length(i);
    assert forall|p: Path| #[trigger] under(p, ci) implies same_at(s5.tree, s3.tree, p) by {
        lemma_under_child(p, sc, index_key(i));
        lemma_siblings_apart(p, sc, index_key(i), length_key());
        assert(sc.push(length_key()).take(sc.push(length_key()).len() as int) =~= sc.push(
            length_key(),
        ));
        lemma_then_datum_other(s3, sc, length_key(), Datum::U16(n as u16), p);
        lemma_then_moc_apart(s4, c, full_moc(d), p);
    }
    collection::lemma_collection_read_local(s5.tree, s3.tree, ci);
    assert(ci.take(ci.len() as int) =~= ci);
    assert(under(ci, ci));
}

/// Storing a map of content changes nothing outside its container.
pub proof fn lemma_moc_stored_other(t: Tree, db: Path, d: MocData, p: Path)
    requires
        moc_stored(t, db, d).error is None,
        !under(p, db.push(d.uid)),
    ensures
        same_at(moc_stored(t, db, d).tree, t, p),
{
    let c = db.push(d.uid);
    let sc = c.push("collections"@);
    let n = d.collections.len();
    let s1 = then_dir(begin(t), db, d.uid);
    let s2 = then_dir(s1, c, "collections"@);
    let s3 = then_collections(s2, sc, d.collections, n);
    let s4 = then_datum(s3, sc, length_key(), Datum::U16(n as u16));
    let s5 = then_moc(s4, c, full_moc(d));
    assert(s5 == moc_stored(t, db, d));
    if under(p, sc) {
        lemma_under_child(p, c, "collections"@);
    }
    lemma_child_below(sc, length_key());
    lemma_child_below(c, "collections"@);
    if p == sc.push(length_key()) {
        crate::store::lemma_under_trans(p, sc, c);
    }
    lemma_then_moc_apart(s4, c, full_moc(d), p);
    lemma_then_datum_other(s3, sc, length_key(), Datum::U16(n as u16), p);
    assert forall|j: nat| j < n implies !under(p, sc.push(#[trigger] index_key(j))) by {
        if under(p, sc.push(index_key(j))) {
            lemma_under_child(p, sc, index_key(j));
        }
    }
    lemma_then_collections_other(s2, sc, d.collections, n, p);
    lemma_then_dir_other(s1, c, "collections"@, p);
    lemma_then_dir(s1, c, "collections"@);
    lemma_then_dir_other(begin(t), db, d.uid, p);
}


/// What reading each field of a map of content yields, the cached fields
/// first.
pub open spec fn moc_lazy(e: MOC, t: Tree) -> MocRead {
    MocRead {
        title: lazy_text(e.title, t, e.container@, "title"@),
        description: lazy_text(e.description, t, e.container@, "description"@),
        notes: lazy_strings(e.notes, t, e.container@, "notes"@),
        tags: lazy_strings(e.tags, t, e.container@, "groups"@),
    }
}

/// How the slot for the collections stands after its turn in filling a
/// cache: where its turn came and the collections could be found, it holds
/// them; else it is as it was.
pub open spec fn filled_collections(
    before: Option<Vec<Collection>>,
    after: Option<Vec<Collection>>,
    t: Tree,
    c: Path,
    reached: bool,
) -> bool {
    if reached && lazy_collections(before, t, c) is Ok {
        after is Some && handles(after->0@) == lazy_collections(before, t, c)->Ok_0
    } else {
        after == before
    }
}

/// The first error that filling the cache of a map of content meets, if
/// any: the fields are read in the order title, description, collections,
/// tags, notes.
pub open spec fn moc_fill_error(e: MOC, t: Tree) -> Option<StoreError> {
    if moc_lazy(e, t).title is Err {
        Some(moc_lazy(e, t).title->Err_0)
    } else if moc_lazy(e, t).description is Err {
        Some(moc_lazy(e, t).description->Err_0)
    } else if lazy_collections(e.collections, t, e.container@) is Err {
        Some(lazy_collections(e.collections, t, e.container@)->Err_0)
    } else if moc_lazy(e, t).tags is Err {
        Some(moc_lazy(e, t).tags->Err_0)
    } else if moc_lazy(e, t).notes is Err {
        Some(moc_lazy(e, t).notes->Err_0)
    } else {
        None
    }
}

/// The first error that reading the collections at `paths` meets, if any.
pub open spec fn collections_read_error(t: Tree, paths: Seq<Path>, n: nat) -> Option<StoreError>
    decreases n,
{
    if n == 0 {
        None
    } else if collections_read_error(t, paths, (n - 1) as nat) is Some {
        collections_read_error(t, paths, (n - 1) as nat)
    } else {
        collection::collection_fill_error(None, None, None, t, paths[n - 1])
    }
}

/// The fields of a map of content, the collections apart, can be read.
pub open spec fn pull_head_ok(e: MOC, t: Tree) -> bool {
    moc_lazy(e, t).title is Ok && moc_lazy(e, t).description is Ok && moc_lazy(e, t).notes is Ok
        && moc_lazy(e, t).tags is Ok
}

/// Why a map of content cannot be pulled, if it cannot: the fields are read
/// in the order title, description, notes, tags; then come the collections
/// as the store holds them.
pub open spec fn moc_pull_error(e: MOC, t: Tree) -> Option<StoreError> {
    if moc_lazy(e, t).title is Err {
        Some(moc_lazy(e, t).title->Err_0)
    } else if moc_lazy(e, t).description is Err {
        Some(moc_lazy(e, t).description->Err_0)
    } else if moc_lazy(e, t).notes is Err {
        Some(moc_lazy(e, t).notes->Err_0)
    } else if moc_lazy(e, t).tags is Err {
        Some(moc_lazy(e, t).tags->Err_0)
    } else if collections_at(t, e.container@) is Err {
        Some(collections_at(t, e.container@)->Err_0)
    } else {
        collections_read_error(
            t,
            collections_at(t, e.container@)->Ok_0,
            collections_at(t, e.container@)->Ok_0.len(),
        )
    }
}

/// The pairs are the table that describes a map of content with the uid
/// `uid` and the fields `r`.
pub open spec fn pulled_head(pairs: Seq<(String, Item)>, uid: Seq<char>, r: MocRead) -> bool {
    pairs.len() == 5 && gives_text(pairs[0], "uid"@, uid) && gives_text(
        pairs[1],
        "title"@,
        r.title->Ok_0,
    ) && gives_text(pairs[2], "description"@, r.description->Ok_0) && gives_texts(
        pairs[3],
        "notes"@,
        r.notes->Ok_0,
    ) && gives_texts(pairs[4], "groups"@, r.tags->Ok_0)
}

/// The fields of the collection in container `c`, as the store holds them.
pub open spec fn collection_stored_data(t: Tree, c: Path) -> CollectionData {
    CollectionData {
        title: collection::collection_read(t, c).title->Ok_0,
        notes: collection::collection_read(t, c).notes->Ok_0,
        included: collection::collection_read(t, c).included->Ok_0,
    }
}

/// The items are the inputs that describe the first `n` of the collections
/// at `paths`.
pub open spec fn pulled_parts(items: Seq<Item>, t: Tree, paths: Seq<Path>, n: nat) -> bool {
    items.len() == n && forall|i: int|
        0 <= i < n ==> (#[trigger] items[i] matches Item::Table(table)
            && collection::pulled_collection(table@, collection_stored_data(t, paths[i])))
}

impl MOC {
    /// Loads every field that is not cached yet: title, description,
    /// collections, tags, notes, in this order, up to the first that cannot
    /// be read.
    pub fn fill_cache(&mut self, store: &Store) -> (r: Result<(), StoreError>)
        ensures
            final(self).container == old(self).container,
            final(self).uid == old(self).uid,
            filled_text(
                old(self).title,
                final(self).title,
                store@,
                old(self).container@,
                "title"@,
                true,
            ),
            filled_text(
                old(self).description,
                final(self).description,
                store@,
                old(self).container@,
                "description"@,
                moc_lazy(*old(self), store@).title is Ok,
            ),
            filled_collections(
                old(self).collections,
                final(self).collections,
                store@,
                old(self).container@,
                moc_lazy(*old(self), store@).title is Ok && moc_lazy(
                    *old(self),
                    store@,
                ).description is Ok,
            ),
            filled_strings(
                old(self).tags,
                final(self).tags,
                store@,
                old(self).container@,
                "groups"@,
                moc_lazy(*old(self), store@).title is Ok && moc_lazy(
                    *old(self),
                    store@,
                ).description is Ok && lazy_collections(
                    old(self).collections,
                    store@,
                    old(self).container@,
                ) is Ok,
            ),
            filled_strings(
                old(self).notes,
                final(self).notes,
                store@,
                old(self).container@,
                "notes"@,
                moc_lazy(*old(self), store@).title is Ok && moc_lazy(
                    *old(self),
                    store@,
                ).description is Ok && lazy_collections(
                    old(self).collections,
                    store@,
                    old(self).container@,
                ) is Ok && moc_lazy(*old(self), store@).tags is Ok,
            ),
            match r {
                Ok(_) => moc_fill_error(*old(self), store@) is None && final(self).title is Some
                    && final(self).description is Some && final(self).notes is Some && final(
                    self
                ).tags is Some && final(self).collections is Some && moc_lazy(
                    *final(self),
                    store@,
                ) == moc_lazy(*old(self), store@) && lazy_collections(
                    final(self).collections,
                    store@,
                    old(self).container@,
                ) == lazy_collections(old(self).collections, store@, old(self).container@),
                Err(e) => moc_fill_error(*old(self), store@) == Some(e),
            },
    {
        match self.title(store) {
            Ok(_) => {},
            Err(e) => {
                return Err(e);
            },
        }
        match self.description(store) {
            Ok(_) => {},
            Err(e) => {
                return Err(e);
            },
        }
        match self.collections(store) {
            Ok(_) => {},
            Err(e) => {
                return Err(e);
            },
        }
        match self.tags(store) {
            Ok(_) => {},
            Err(e) => {
                return Err(e);
            },
        }
        match self.notes(store) {
            Ok(_) => {},
            Err(e) => {
                return Err(e);
            },
        }
        Ok(())
    }

    /// The input that describes the map of content, read back from the
    /// store. The cache is empty afterwards.
    pub fn pull(&mut self, store: &Store) -> (r: Result<Vec<(String, Item)>, StoreError>)
        ensures
            final(self).container == old(self).container,
            final(self).uid == old(self).uid,
            match r {
                Ok(document) => moc_pull_error(*old(self), store@) is None && final(
                    self
                ).is_clear() && document@.len() == 3 && document@[0].0@ == "is-moc"@
                    && document@[0].1 == Item::Bool(true) && document@[1].0@ == "moc"@ && (
                document@[1].1 matches Item::Table(head) && pulled_head(
                    head@,
                    old(self).uid@,
                    moc_lazy(*old(self), store@),
                )) && document@[2].0@ == "collection"@ && (
                document@[2].1 matches Item::Array(parts) && pulled_parts(
                    parts@,
                    store@,
                    collections_at(store@, old(self).container@)->Ok_0,
                    collections_at(store@, old(self).container@)->Ok_0.len(),
                )),
                Err(e) => moc_pull_error(*old(self), store@) == Some(e),
            },
    {
        let mut head: Vec<(String, Item)> = Vec::new();
        head.push(text_pair("uid", &self.uid));
        match self.title(store) {
            Ok(x) => {
                head.push(text_pair("title", x));
            },
            Err(e) => {
                return Err(e);
            },
        }
        match self.description(store) {
            Ok(x) => {
                head.push(text_pair("description", x));
            },
            Err(e) => {
                return Err(e);
            },
        }
        match self.notes(store) {
            Ok(x) => {
                head.push(texts_pair("notes", x));
            },
            Err(e) => {
                return Err(e);
            },
        }
        match self.tags(store) {
            Ok(x) => {
                head.push(texts_pair("groups", x));
            },
            Err(e) => {
                return Err(e);
            },
        }
        self.clear_cache();
        let ghost paths = collections_at(store@, self.container@);
        let mut probe = MOC::load_lazy(self.uid.clone(), self.container.duplicate());
        let found = match probe.collections(store) {
            Ok(v) => v,
            Err(e) => {
                return Err(e);
            },
        };
        let mut parts: Vec<Item> = Vec::new();
        let mut i: usize = 0;
        let ghost wanted = paths->Ok_0;
        while i < found.len()
            invariant
                i <= found.len(),
                wanted == handles(found@),
                self.container == old(self).container,
                self.uid == old(self).uid,
                collections_at(store@, old(self).container@) == Ok::<Seq<Path>, StoreError>(wanted),
                pull_head_ok(*old(self), store@),
                collections_read_error(store@, wanted, i as nat) is None,
                pulled_parts(parts@, store@, wanted, i as nat),
            decreases found.len() - i,
        {
            let mut part = Collection::load_lazy(found[i].container.duplicate());
            let ghost old_parts = parts@;
            match part.pull(store) {
                Ok(table) => {
                    parts.push(Item::Table(table));
                    assert forall|j: int| 0 <= j < i + 1 implies (#[trigger] parts@[j] matches Item::Table(
                        tb,
                    ) && collection::pulled_collection(
                        tb@,
                        collection_stored_data(store@, wanted[j]),
                    )) by {
                        if j < i {
                            assert(parts@[j] == old_parts[j]);
                        }
                    }
                },
                Err(e) => {
                    proof {
                        lemma_collections_read_error(
                            store@,
                            wanted,
                            (i + 1) as nat,
                            found@.len() as nat,
                        );
                    }
                    return Err(e);
                },
            }
            i += 1;
        }
        self.clear_cache();
        let mut document: Vec<(String, Item)> = Vec::new();
        document.push(("is-moc".to_string(), Item::Bool(true)));
        document.push(("moc".to_string(), Item::Table(head)));
        document.push(("collection".to_string(), Item::Array(parts)));
        Ok(document)
    }
}

/// Once a collection cannot be read, reading more of them fails alike.
proof fn lemma_collections_read_error(t: Tree, paths: Seq<Path>, n: nat, m: nat)
    requires
        n <= m,
        collections_read_error(t, paths, n) is Some,
    ensures
        collections_read_error(t, paths, m) == collections_read_error(t, paths, n),
    decreases m,
{
    if n < m {
        lemma_collections_read_error(t, paths, n, (m - 1) as nat);
    }
}

/// The fields of the first `n` of the collections at `paths`, as the store
/// holds them.
pub open spec fn collections_data(t: Tree, paths: Seq<Path>, n: nat) -> Seq<CollectionData> {
    Seq::new(n, |i: int| collection_stored_data(t, paths[i]))
}

/// The fields of a map of content as they are read: those cached as they
/// are cached, the others and the collections as the store holds them.
pub open spec fn moc_data(e: MOC, t: Tree) -> MocData {
    MocData {
        uid: e.uid@,
        title: moc_lazy(e, t).title->Ok_0,
        description: moc_lazy(e, t).description->Ok_0,
        notes: moc_lazy(e, t).notes->Ok_0,
        tags: moc_lazy(e, t).tags->Ok_0,
        collections: collections_data(
            t,
            collections_at(t, e.container@)->Ok_0,
            collections_at(t, e.container@)->Ok_0.len(),
        ),
    }
}

impl MOC {
    /// Every field of the map of content: those cached as they are cached,
    /// the others and the collections as the store holds them. They are read
    /// in the order title, description, notes, tags, collections.
    pub fn fields(&mut self, store: &Store) -> (r: Result<MocFields, StoreError>)
        ensures
            final(self).container == old(self).container,
            final(self).uid == old(self).uid,
            match r {
                Ok(f) => moc_pull_error(*old(self), store@) is None && f@ == moc_data(
                    *old(self),
                    store@,
                ),
                Err(e) => moc_pull_error(*old(self), store@) == Some(e),
            },
    {
        let title = match self.title(store) {
            Ok(x) => x.clone(),
            Err(e) => {
                return Err(e);
            },
        };
        let description = match self.description(store) {
            Ok(x) => x.clone(),
            Err(e) => {
                return Err(e);
            },
        };
        let notes = match self.notes(store) {
            Ok(x) => crate::store::copy_strings(x),
            Err(e) => {
                return Err(e);
            },
        };
        let tags = match self.tags(store) {
            Ok(x) => crate::store::copy_strings(x),
            Err(e) => {
                return Err(e);
            },
        };
        let mut probe = MOC::load_lazy(self.uid.clone(), self.container.duplicate());
        let found = match probe.collections(store) {
            Ok(v) => v,
            Err(e) => {
                return Err(e);
            },
        };
        let ghost wanted = collections_at(store@, self.container@)->Ok_0;
        let mut collections: Vec<CollectionFields> = Vec::new();
        let mut i: usize = 0;
        assert(collection_data(collections@) =~= collections_data(store@, wanted, 0));
        while i < found.len()
            invariant
                i <= found.len(),
                wanted == handles(found@),
                self.container == old(self).container,
                self.uid == old(self).uid,
                collections_at(store@, old(self).container@) == Ok::<Seq<Path>, StoreError>(wanted),
                pull_head_ok(*old(self), store@),
                collections_read_error(store@, wanted, i as nat) is None,
                collection_data(collections@) == collections_data(store@, wanted, i as nat),
            decreases found.len() - i,
        {
            let mut part = Collection::load_lazy(found[i].container.duplicate());
            match part.fields(store) {
                Ok(f) => {
                    let ghost before = collection_data(collections@);
                    collections.push(f);
                    assert(collection_data(collections@) =~= before.push(f@));
                    assert(collections_data(store@, wanted, (i + 1) as nat) =~= collections_data(
                        store@,
                        wanted,
                        i as nat,
                    ).push(collection_stored_data(store@, wanted[i as int])));
                },
                Err(e) => {
                    proof {
                        lemma_collections_read_error(
                            store@,
                            wanted,
                            (i + 1) as nat,
                            found@.len() as nat,
                        );
                    }
                    return Err(e);
                },
            }
            i += 1;
        }
        let fields = MocFields { uid: self.uid.clone(), title, description, notes, tags, collections };
        assert(fields@.notes =~= moc_lazy(*old(self), store@).notes->Ok_0);
        assert(fields@.tags =~= moc_lazy(*old(self), store@).tags->Ok_0);
        Ok(fields)
    }
}

/// The first of the fields of the map of content in container `c` that
/// cannot be read, if there is one.
pub open spec fn stored_moc_error(t: Tree, c: Path) -> Option<StoreError> {
    if moc_read(t, c).title is Err {
        Some(moc_read(t, c).title->Err_0)
    } else if moc_read(t, c).description is Err {
        Some(moc_read(t, c).description->Err_0)
    } else if moc_read(t, c).notes is Err {
        Some(moc_read(t, c).notes->Err_0)
    } else if moc_read(t, c).tags is Err {
        Some(moc_read(t, c).tags->Err_0)
    } else if collections_at(t, c) is Err {
        Some(collections_at(t, c)->Err_0)
    } else {
        collections_read_error(
            t,
            collections_at(t, c)->Ok_0,
            collections_at(t, c)->Ok_0.len(),
        )
    }
}

/// The fields of the map of content `uid` in container `c`, as the store
/// holds them.
pub open spec fn stored_moc_data(t: Tree, c: Path, uid: Seq<char>) -> MocData {
    MocData {
        uid,
        title: moc_read(t, c).title->Ok_0,
        description: moc_read(t, c).description->Ok_0,
        notes: moc_read(t, c).notes->Ok_0,
        tags: moc_read(t, c).tags->Ok_0,
        collections: collections_data(
            t,
            collections_at(t, c)->Ok_0,
            collections_at(t, c)->Ok_0.len(),
        ),
    }
}

/// A map of content with an empty cache is read as the store holds it.
pub proof fn lemma_clear_moc(e: MOC, t: Tree)
    requires
        e.is_clear(),
    ensures
        moc_lazy(e, t) == moc_read(t, e.container@),
        moc_pull_error(e, t) == stored_moc_error(t, e.container@),
        moc_data(e, t) == stored_moc_data(t, e.container@, e.uid@),
{
}

} // verus!
