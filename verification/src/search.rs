//! Searching entries and maps of content by their tags.

use crate::archive::{
    entries_dir,
    holds_entity,
    mocs_dir,
    outcome,
    sorted_dir,
    Archive,
    ArchiveError,
    Failure,
    Home,
};
use crate::document::texts_in;
use crate::entry::Entry;
use crate::field::{lazy_strings, lines, strings_at, strings_read};
use crate::moc::MOC;
use crate::sort::sorted_tree;
use crate::store::{Container, Path, Store, StoreError, Tree};
use vstd::prelude::*;

verus! {

/// What can be searched: it has a uid, and tags that are read from the
/// store unless they are cached.
pub trait Searchable {
    /// The uid.
    spec fn uid_view(&self) -> Seq<char>;

    /// The tags, as they are read with the store holding `t`.
    spec fn tags_view(&self, t: Tree) -> Result<Seq<Seq<char>>, StoreError>;

    /// The uid.
    fn get_uid(&self) -> (r: String)
        ensures
            r@ == self.uid_view(),
    ;

    /// Whether `tag` is among the tags. The tags are loaded on first use;
    /// what they are does not change by that.
    fn contains_tag(&mut self, tag: &String, store: &Store) -> (r: Result<bool, StoreError>)
        ensures
            final(self).uid_view() == old(self).uid_view(),
            final(self).tags_view(store@) == old(self).tags_view(store@),
            match r {
                Ok(b) => old(self).tags_view(store@) is Ok && b == old(self).tags_view(
                    store@,
                )->Ok_0.contains(tag@),
                Err(e) => old(self).tags_view(store@) == Err::<Seq<Seq<char>>, StoreError>(e),
            },
    ;
}

/// Whether `x` is in `list`.
pub fn has_string(list: &Vec<String>, x: &String) -> (r: bool)
    ensures
        r == lines(list@).contains(x@),
{
    let mut i: usize = 0;
    while i < list.len()
        invariant
            i <= list.len(),
            forall|j: int| 0 <= j < i ==> lines(list@)[j] != x@,
        decreases list.len() - i,
    {
        if list[i] == *x {
            assert(lines(list@)[i as int] == x@);
            return true;
        }
        i += 1;
    }
    false
}

impl Searchable for Entry {
    open spec fn uid_view(&self) -> Seq<char> {
        self.uid@
    }

    open spec fn tags_view(&self, t: Tree) -> Result<Seq<Seq<char>>, StoreError> {
        lazy_strings(self.tags, t, self.container@, "tags"@)
    }

    fn get_uid(&self) -> (r: String) {
        self.uid.clone()
    }

    fn contains_tag(&mut self, tag: &String, store: &Store) -> (r: Result<bool, StoreError>) {
        match self.tags(store) {
            Ok(tags) => Ok(has_string(tags, tag)),
            Err(e) => Err(e),
        }
    }
}

impl Searchable for MOC {
    open spec fn uid_view(&self) -> Seq<char> {
        self.uid@
    }

    open spec fn tags_view(&self, t: Tree) -> Result<Seq<Seq<char>>, StoreError> {
        lazy_strings(self.tags, t, self.container@, "groups"@)
    }

    fn get_uid(&self) -> (r: String) {
        self.uid.clone()
    }

    fn contains_tag(&mut self, tag: &String, store: &Store) -> (r: Result<bool, StoreError>) {
        match self.tags(store) {
            Ok(tags) => Ok(has_string(tags, tag)),
            Err(e) => Err(e),
        }
    }
}

/// Every one of the first `n` wanted tags is among the item's own.
pub open spec fn has_all(tags: Seq<Seq<char>>, own: Seq<Seq<char>>, n: nat) -> bool {
    forall|i: int| 0 <= i < n ==> own.contains(#[trigger] tags[i])
}

/// One of the first `n` wanted tags is among the item's own.
pub open spec fn has_any(tags: Seq<Seq<char>>, own: Seq<Seq<char>>, n: nat) -> bool {
    exists|i: int| 0 <= i < n && own.contains(#[trigger] tags[i])
}

/// Whether an item with the tags `own` is found: with every wanted tag in a
/// strict search, with one of them else.
pub open spec fn found(tags: Seq<Seq<char>>, own: Seq<Seq<char>>, strict: bool) -> bool {
    if strict {
        has_all(tags, own, tags.len())
    } else {
        has_any(tags, own, tags.len())
    }
}

/// The uids of those of the first `n` items that are found, in the order of
/// the items. Where no tag is wanted nothing is read: a strict search finds
/// every item then, the other search none.
pub open spec fn selected<T: Searchable>(
    tags: Seq<Seq<char>>,
    items: Seq<T>,
    t: Tree,
    strict: bool,
    n: nat,
) -> Result<Seq<Seq<char>>, StoreError>
    decreases n,
{
    if n == 0 {
        Ok(Seq::empty())
    } else {
        match selected(tags, items, t, strict, (n - 1) as nat) {
            Err(e) => Err(e),
            Ok(first) => if tags.len() == 0 {
                if strict {
                    Ok(first.push(items[n - 1].uid_view()))
                } else {
                    Ok(first)
                }
            } else {
                match items[n - 1].tags_view(t) {
                    Err(e) => Err(e),
                    Ok(own) => if found(tags, own, strict) {
                        Ok(first.push(items[n - 1].uid_view()))
                    } else {
                        Ok(first)
                    },
                }
            },
        }
    }
}

/// Once the tags of an item cannot be read, searching more items fails
/// alike.
proof fn lemma_selected_error<T: Searchable>(
    tags: Seq<Seq<char>>,
    items: Seq<T>,
    t: Tree,
    strict: bool,
    n: nat,
    m: nat,
)
    requires
        n <= m,
        selected(tags, items, t, strict, n) is Err,
    ensures
        selected(tags, items, t, strict, m) == selected(tags, items, t, strict, n),
    decreases m,
{
    if n < m {
        lemma_selected_error(tags, items, t, strict, n, (m - 1) as nat);
    }
}

/// Searches the items, each with every wanted tag if `strict`, with one of
/// them else.
fn select<T: Searchable>(tags: &Vec<String>, items: Vec<T>, store: &Store, strict: bool) -> (r:
    Result<Vec<String>, StoreError>)
    ensures
        match r {
            Ok(v) => selected(lines(tags@), items@, store@, strict, items@.len()) == Ok::<
                Seq<Seq<char>>,
                StoreError,
            >(lines(v@)),
            Err(e) => selected(lines(tags@), items@, store@, strict, items@.len()) == Err::<
                Seq<Seq<char>>,
                StoreError,
            >(e),
        },
{
    let ghost all = items@;
    let ghost want = lines(tags@);
    let mut list = items;
    let mut result: Vec<String> = Vec::new();
    let mut i: usize = 0;
    assert(lines(result@) =~= Seq::<Seq<char>>::empty());
    while i < list.len()
        invariant
            i <= list.len(),
            list@.len() == all.len(),
            all == items@,
            want == lines(tags@),
            forall|j: int|
                0 <= j < all.len() ==> (#[trigger] list@[j]).uid_view() == all[j].uid_view()
                    && list@[j].tags_view(store@) == all[j].tags_view(store@),
            selected(want, all, store@, strict, i as nat) == Ok::<Seq<Seq<char>>, StoreError>(
                lines(result@),
            ),
        decreases list.len() - i,
    {
        let ghost own = all[i as int].tags_view(store@);
        let mut hit = strict;
        let mut k: usize = 0;
        while k < tags.len() && hit == strict
            invariant
                k <= tags.len(),
                i < list.len(),
                list@.len() == all.len(),
            all == items@,
                want == lines(tags@),
                own == all[i as int].tags_view(store@),
                forall|j: int|
                    0 <= j < all.len() ==> (#[trigger] list@[j]).uid_view() == all[j].uid_view()
                        && list@[j].tags_view(store@) == all[j].tags_view(store@),
                k > 0 ==> own is Ok,
                own is Ok ==> hit == if strict {
                    has_all(want, own->Ok_0, k as nat)
                } else {
                    has_any(want, own->Ok_0, k as nat)
                },
                k == 0 ==> hit == strict,
                selected(want, all, store@, strict, i as nat) == Ok::<Seq<Seq<char>>, StoreError>(
                    lines(result@),
                ),
            decreases tags.len() - k,
        {
                        let there = match list[i].contains_tag(&tags[k], store) {
                Ok(b) => b,
                Err(e) => {
                    proof {
                        lemma_selected_error(
                            want,
                            all,
                            store@,
                            strict,
                            (i + 1) as nat,
                            all.len(),
                        );
                    }
                    return Err(e);
                },
            };
            assert(want[k as int] == tags@[k as int]@);
            hit = there;
            proof {
                let o = own->Ok_0;
                if strict {
                    if there {
                        assert(has_all(want, o, (k + 1) as nat));
                    } else {
                        assert(!has_all(want, o, (k + 1) as nat));
                    }
                } else {
                    if there {
                        assert(has_any(want, o, (k + 1) as nat));
                    } else {
                        assert(!has_any(want, o, (k + 1) as nat));
                    }
                }
            }
            k += 1;
        }
        proof {
            if want.len() > 0 {
                let o = own->Ok_0;
                if strict {
                    if !hit {
                        assert(!has_all(want, o, want.len()));
                    }
                } else {
                    if hit {
                        let w = choose|w: int| 0 <= w < k && o.contains(#[trigger] want[w]);
                        assert(has_any(want, o, want.len()));
                    }
                }
            }
        }
        if hit {
            let ghost before = lines(result@);
            let uid = list[i].get_uid();
            result.push(uid);
            assert(lines(result@) =~= before.push(all[i as int].uid_view()));
        }
        i += 1;
    }
    Ok(result)
}

/// The uids of the items that have every one of `tags`, in the order of the
/// items. With no tags every item is found.
pub fn search_strict<T: Searchable>(tags: &Vec<String>, items: Vec<T>, store: &Store) -> (r: Result<
    Vec<String>,
    StoreError,
>)
    ensures
        match r {
            Ok(v) => selected(lines(tags@), items@, store@, true, items@.len()) == Ok::<
                Seq<Seq<char>>,
                StoreError,
            >(lines(v@)),
            Err(e) => selected(lines(tags@), items@, store@, true, items@.len()) == Err::<
                Seq<Seq<char>>,
                StoreError,
            >(e),
        },
{
    select(tags, items, store, true)
}

/// The uids of the items that have one of `tags`, in the order of the
/// items. With no tags no item is found.
pub fn search<T: Searchable>(tags: &Vec<String>, items: Vec<T>, store: &Store) -> (r: Result<
    Vec<String>,
    StoreError,
>)
    ensures
        match r {
            Ok(v) => selected(lines(tags@), items@, store@, false, items@.len()) == Ok::<
                Seq<Seq<char>>,
                StoreError,
            >(lines(v@)),
            Err(e) => selected(lines(tags@), items@, store@, false, items@.len()) == Err::<
                Seq<Seq<char>>,
                StoreError,
            >(e),
        },
{
    select(tags, items, store, false)
}

/// Among no items nothing is found, whatever the tags.
pub proof fn lemma_search_of_nothing<T: Searchable>(tags: Seq<Seq<char>>, t: Tree, strict: bool)
    ensures
        selected(tags, Seq::<T>::empty(), t, strict, 0) == Ok::<Seq<Seq<char>>, StoreError>(
            Seq::empty(),
        ),
{
}

/// What a search finds, it finds in the order of the items: the uid of the
/// last of the first `n` items is found with them exactly if its tags are.
pub proof fn lemma_search_step<T: Searchable>(
    tags: Seq<Seq<char>>,
    items: Seq<T>,
    t: Tree,
    strict: bool,
    n: nat,
)
    requires
        0 < n <= items.len(),
        tags.len() > 0,
        selected(tags, items, t, strict, n) is Ok,
    ensures
        selected(tags, items, t, strict, (n - 1) as nat) is Ok,
        items[n - 1].tags_view(t) is Ok,
        selected(tags, items, t, strict, n)->Ok_0 == if found(
            tags,
            items[n - 1].tags_view(t)->Ok_0,
            strict,
        ) {
            selected(tags, items, t, strict, (n - 1) as nat)->Ok_0.push(items[n - 1].uid_view())
        } else {
            selected(tags, items, t, strict, (n - 1) as nat)->Ok_0
        },
{
}

/// An item that a strict search finds, the other search finds too.
pub proof fn lemma_strict_is_found(tags: Seq<Seq<char>>, own: Seq<Seq<char>>)
    requires
        tags.len() > 0,
        found(tags, own, true),
    ensures
        found(tags, own, false),
{
    assert(own.contains(tags[0]));
}

/// The uids of those of the first `n` of the entities `uids` of the
/// container `db` that are found, where an entity keeps its tags in the list
/// `key` of its container.
pub open spec fn selected_stored(
    tags: Seq<Seq<char>>,
    uids: Seq<Seq<char>>,
    db: Path,
    key: Seq<char>,
    t: Tree,
    strict: bool,
    n: nat,
) -> Result<Seq<Seq<char>>, StoreError>
    decreases n,
{
    if n == 0 {
        Ok(Seq::empty())
    } else {
        match selected_stored(tags, uids, db, key, t, strict, (n - 1) as nat) {
            Err(e) => Err(e),
            Ok(first) => if tags.len() == 0 {
                if strict {
                    Ok(first.push(uids[n - 1]))
                } else {
                    Ok(first)
                }
            } else {
                match strings_at(t, db.push(uids[n - 1]), key) {
                    Err(e) => Err(e),
                    Ok(own) => if found(tags, own, strict) {
                        Ok(first.push(uids[n - 1]))
                    } else {
                        Ok(first)
                    },
                }
            },
        }
    }
}

/// A search over entities that are attached to their containers finds what
/// the store holds of them.
pub proof fn lemma_selected_stored<T: Searchable>(
    tags: Seq<Seq<char>>,
    items: Seq<T>,
    uids: Seq<Seq<char>>,
    db: Path,
    key: Seq<char>,
    t: Tree,
    strict: bool,
    n: nat,
)
    requires
        n <= items.len(),
        n <= uids.len(),
        forall|j: int|
            0 <= j < n ==> (#[trigger] items[j]).uid_view() == uids[j] && items[j].tags_view(t)
                == strings_at(t, db.push(uids[j]), key),
    ensures
        selected(tags, items, t, strict, n) == selected_stored(tags, uids, db, key, t, strict, n),
    decreases n,
{
    if n > 0 {
        lemma_selected_stored(tags, items, uids, db, key, t, strict, (n - 1) as nat);
        assert(items[n - 1].uid_view() == uids[n - 1]);
    }
}

/// The tags `acc` with those of the first `k` of `own` that are new, each
/// behind the others.
pub open spec fn with_new(acc: Seq<Seq<char>>, own: Seq<Seq<char>>, k: nat) -> Seq<Seq<char>>
    decreases k,
{
    if k == 0 {
        acc
    } else if with_new(acc, own, (k - 1) as nat).contains(own[k - 1]) {
        with_new(acc, own, (k - 1) as nat)
    } else {
        with_new(acc, own, (k - 1) as nat).push(own[k - 1])
    }
}

/// The tags `seen` with the tags of the first `n` of the entities `uids` of
/// the container `db`, each tag once, in the order in which they are met.
pub open spec fn gathered(
    seen: Seq<Seq<char>>,
    uids: Seq<Seq<char>>,
    db: Path,
    key: Seq<char>,
    t: Tree,
    n: nat,
) -> Result<Seq<Seq<char>>, StoreError>
    decreases n,
{
    if n == 0 {
        Ok(seen)
    } else {
        match gathered(seen, uids, db, key, t, (n - 1) as nat) {
            Err(e) => Err(e),
            Ok(acc) => match strings_at(t, db.push(uids[n - 1]), key) {
                Err(e) => Err(e),
                Ok(own) => Ok(with_new(acc, own, own.len())),
            },
        }
    }
}

/// Gathering new tags leaves a list without duplicates as one.
pub proof fn lemma_with_new_unique(acc: Seq<Seq<char>>, own: Seq<Seq<char>>, k: nat)
    requires
        acc.no_duplicates(),
        k <= own.len(),
    ensures
        with_new(acc, own, k).no_duplicates(),
    decreases k,
{
    if k > 0 {
        lemma_with_new_unique(acc, own, (k - 1) as nat);
        let before = with_new(acc, own, (k - 1) as nat);
        if !before.contains(own[k - 1]) {
            let now = before.push(own[k - 1]);
            assert forall|i: int, j: int| 0 <= i < now.len() && 0 <= j < now.len() && i
                != j implies now[i] != now[j] by {
                if i == now.len() - 1 {
                    assert(before.contains(before[j]));
                } else if j == now.len() - 1 {
                    assert(before.contains(before[i]));
                }
            }
        }
    }
}

/// Once the tags of an entity cannot be read, gathering more fails alike.
proof fn lemma_gathered_error(
    seen: Seq<Seq<char>>,
    uids: Seq<Seq<char>>,
    db: Path,
    key: Seq<char>,
    t: Tree,
    n: nat,
    m: nat,
)
    requires
        n <= m,
        gathered(seen, uids, db, key, t, n) is Err,
    ensures
        gathered(seen, uids, db, key, t, m) == gathered(seen, uids, db, key, t, n),
    decreases m,
{
    if n < m {
        lemma_gathered_error(seen, uids, db, key, t, n, (m - 1) as nat);
    }
}

/// Adds those of `own` that are new to `acc`.
pub fn add_new(acc: &mut Vec<String>, own: &Vec<String>)
    ensures
        lines(final(acc)@) == with_new(lines(old(acc)@), lines(own@), own@.len()),
{
    let mut k: usize = 0;
    while k < own.len()
        invariant
            k <= own.len(),
            lines(acc@) == with_new(lines(old(acc)@), lines(own@), k as nat),
        decreases own.len() - k,
    {
        let ghost before = lines(acc@);
        if !has_string(acc, &own[k]) {
            acc.push(own[k].clone());
            assert(lines(acc@) =~= before.push(lines(own@)[k as int]));
        }
        k += 1;
    }
}

/// Adds the tags of the entities `uids` of the container `db` that are new
/// to `seen`.
pub fn gather(seen: Vec<String>, uids: &Vec<String>, db: &Container, key: &str, store: &Store) -> (r:
    Result<Vec<String>, StoreError>)
    ensures
        match r {
            Ok(v) => gathered(lines(seen@), lines(uids@), db@, key@, store@, uids@.len()) == Ok::<
                Seq<Seq<char>>,
                StoreError,
            >(lines(v@)),
            Err(e) => gathered(lines(seen@), lines(uids@), db@, key@, store@, uids@.len()) == Err::<
                Seq<Seq<char>>,
                StoreError,
            >(e),
        },
{
    let mut acc = seen;
    let mut i: usize = 0;
    while i < uids.len()
        invariant
            i <= uids.len(),
            gathered(lines(seen@), lines(uids@), db@, key@, store@, i as nat) == Ok::<
                Seq<Seq<char>>,
                StoreError,
            >(lines(acc@)),
        decreases uids.len() - i,
    {
        let container = db.child(uids[i].as_str());
        assert(lines(uids@)[i as int] == uids@[i as int]@);
        match crate::field::load_strings(store, &container, key) {
            Ok(own) => {
                add_new(&mut acc, &own);
            },
            Err(e) => {
                proof {
                    lemma_gathered_error(
                        lines(seen@),
                        lines(uids@),
                        db@,
                        key@,
                        store@,
                        (i + 1) as nat,
                        uids@.len(),
                    );
                }
                return Err(e);
            },
        }
        i += 1;
    }
    Ok(acc)
}

/// What a listing of the archive shows.
#[derive(Debug, PartialEq, Eq)]
pub struct Listing {
    /// The tags that were searched for, or all tags where none were.
    pub tags: Vec<String>,
    /// The uids of the entries, in order of date, where they are to be
    /// shown.
    pub entries: Option<Vec<String>>,
    /// The uids of the maps of content, where they are to be shown.
    pub mocs: Option<Vec<String>>,
}

/// The mathematical value of a [`Listing`].
pub ghost struct ListingView {
    pub tags: Seq<Seq<char>>,
    pub entries: Option<Seq<Seq<char>>>,
    pub mocs: Option<Seq<Seq<char>>>,
}

impl View for Listing {
    type V = ListingView;

    open spec fn view(&self) -> ListingView {
        ListingView {
            tags: lines(self.tags@),
            entries: texts_in(self.entries),
            mocs: texts_in(self.mocs),
        }
    }
}

/// Every one of the first `n` of the entries `uids` has its container.
pub open spec fn all_held(t: Tree, uids: Seq<Seq<char>>, n: nat) -> bool {
    forall|i: int| 0 <= i < n ==> holds_entity(Some(t), entries_dir(), #[trigger] uids[i])
}

/// The list, if it is to be shown.
pub open spec fn shown(show: bool, list: Seq<Seq<char>>) -> Option<Seq<Seq<char>>> {
    if show {
        Some(list)
    } else {
        None
    }
}

/// What a listing of the archive `t` shows, whose maps of content the store
/// lists in the order `mocs`: the entries in order of date and the maps of
/// content, all of them with their tags where no tags are searched for,
/// else those that the search finds.
pub open spec fn listing(
    t: Tree,
    mocs: Seq<Seq<char>>,
    strict: bool,
    show_mocs: bool,
    show_entries: bool,
    filter: Option<Seq<Seq<char>>>,
) -> Result<ListingView, StoreError> {
    match strings_read(t, sorted_dir()) {
        Err(e) => Err(e),
        Ok(uids) => if !all_held(t, uids, uids.len()) {
            Err(StoreError::NotFound)
        } else {
            match filter {
                None => match gathered(Seq::empty(), uids, entries_dir(), "tags"@, t, uids.len()) {
                    Err(e) => Err(e),
                    Ok(seen) => match gathered(seen, mocs, mocs_dir(), "groups"@, t, mocs.len()) {
                        Err(e) => Err(e),
                        Ok(tags) => Ok(
                            ListingView {
                                tags,
                                entries: shown(show_entries, uids),
                                mocs: shown(show_mocs, mocs),
                            },
                        ),
                    },
                },
                Some(tags) => match selected_stored(
                    tags,
                    uids,
                    entries_dir(),
                    "tags"@,
                    t,
                    strict,
                    uids.len(),
                ) {
                    Err(e) => Err(e),
                    Ok(entries) => match selected_stored(
                        tags,
                        mocs,
                        mocs_dir(),
                        "groups"@,
                        t,
                        strict,
                        mocs.len(),
                    ) {
                        Err(e) => Err(e),
                        Ok(found_mocs) => Ok(
                            ListingView {
                                tags,
                                entries: shown(show_entries, entries),
                                mocs: shown(show_mocs, found_mocs),
                            },
                        ),
                    },
                },
            }
        },
    }
}

/// Attaches to the entries `uids`, each of which must have its container.
fn attach(uids: &Vec<String>, store: &Store) -> (r: Result<Vec<Entry>, StoreError>)
    ensures
        match r {
            Ok(v) => all_held(store@, lines(uids@), uids@.len()) && v@.len() == uids@.len()
                && forall|i: int|
                0 <= i < v@.len() ==> (#[trigger] v@[i]).uid@ == uids@[i]@ && v@[i].container@
                    == entries_dir().push(uids@[i]@) && v@[i].is_clear(),
            Err(e) => e == StoreError::NotFound && !all_held(store@, lines(uids@), uids@.len()),
        },
{
    let entries = Container::root().child("entries");
    let mut out: Vec<Entry> = Vec::new();
    let mut i: usize = 0;
    while i < uids.len()
        invariant
            i <= uids.len(),
            out@.len() == i,
            entries@ == entries_dir(),
            all_held(store@, lines(uids@), i as nat),
            forall|j: int|
                0 <= j < i ==> (#[trigger] out@[j]).uid@ == uids@[j]@ && out@[j].container@
                    == entries_dir().push(uids@[j]@) && out@[j].is_clear(),
        decreases uids.len() - i,
    {
        assert(lines(uids@)[i as int] == uids@[i as int]@);
        match store.read_container(&entries, uids[i].as_str()) {
            Ok(c) => {
                out.push(Entry::load_lazy(uids[i].clone(), c));
            },
            Err(e) => {
                assert(!holds_entity(Some(store@), entries_dir(), lines(uids@)[i as int]));
                return Err(e);
            },
        }
        i += 1;
    }
    Ok(out)
}

/// The uids of a list of maps of content.
fn uids_of(mocs: &Vec<MOC>) -> (r: Vec<String>)
    ensures
        lines(r@) == crate::archive::moc_uids(mocs@),
{
    let mut out: Vec<String> = Vec::new();
    let mut i: usize = 0;
    while i < mocs.len()
        invariant
            i <= mocs.len(),
            out@.len() == i,
            forall|j: int| 0 <= j < i ==> out@[j]@ == mocs@[j].uid@,
        decreases mocs.len() - i,
    {
        out.push(mocs[i].uid.clone());
        i += 1;
    }
    assert(lines(out@) =~= crate::archive::moc_uids(mocs@));
    out
}

/// Reads what a listing shows from a store whose arrivals are sorted in.
fn list_sorted(
    store: &Store,
    mocs: Vec<MOC>,
    strict: bool,
    show_mocs: bool,
    show_entries: bool,
    filter: Option<Vec<String>>,
) -> (r: Result<Listing, StoreError>)
    requires
        forall|i: int|
            0 <= i < mocs@.len() ==> (#[trigger] mocs@[i]).container@ == mocs_dir().push(
                mocs@[i].uid@,
            ) && mocs@[i].is_clear(),
    ensures
        match r {
            Ok(l) => listing(
                store@,
                crate::archive::moc_uids(mocs@),
                strict,
                show_mocs,
                show_entries,
                texts_in(filter),
            ) == Ok::<ListingView, StoreError>(l@),
            Err(e) => listing(
                store@,
                crate::archive::moc_uids(mocs@),
                strict,
                show_mocs,
                show_entries,
                texts_in(filter),
            ) == Err::<ListingView, StoreError>(e),
        },
{
    let uids = match crate::sort::read_sorted(store) {
        Ok(v) => v,
        Err(e) => {
            return Err(e);
        },
    };
    let entries = match attach(&uids, store) {
        Ok(v) => v,
        Err(e) => {
            return Err(e);
        },
    };
    let moc_list = uids_of(&mocs);
    let top = Container::root();
    match filter {
        None => {
            let nothing: Vec<String> = Vec::new();
            assert(lines(nothing@) =~= Seq::<Seq<char>>::empty());
            let seen = match gather(nothing, &uids, &top.child("entries"), "tags", store) {
                Ok(v) => v,
                Err(e) => {
                    return Err(e);
                },
            };
            let tags = match gather(seen, &moc_list, &top.child("mocs"), "groups", store) {
                Ok(v) => v,
                Err(e) => {
                    return Err(e);
                },
            };
            Ok(
                Listing {
                    tags,
                    entries: if show_entries {
                        Some(uids)
                    } else {
                        None
                    },
                    mocs: if show_mocs {
                        Some(moc_list)
                    } else {
                        None
                    },
                },
            )
        },
        Some(tags) => {
            proof {
                lemma_selected_stored(
                    lines(tags@),
                    entries@,
                    lines(uids@),
                    entries_dir(),
                    "tags"@,
                    store@,
                    strict,
                    uids@.len(),
                );
                lemma_selected_stored(
                    lines(tags@),
                    mocs@,
                    lines(moc_list@),
                    mocs_dir(),
                    "groups"@,
                    store@,
                    strict,
                    mocs@.len(),
                );
            }
            let found_entries = match select(&tags, entries, store, strict) {
                Ok(v) => v,
                Err(e) => {
                    return Err(e);
                },
            };
            let found_mocs = match select(&tags, mocs, store, strict) {
                Ok(v) => v,
                Err(e) => {
                    return Err(e);
                },
            };
            Ok(
                Listing {
                    tags,
                    entries: if show_entries {
                        Some(found_entries)
                    } else {
                        None
                    },
                    mocs: if show_mocs {
                        Some(found_mocs)
                    } else {
                        None
                    },
                },
            )
        },
    }
}

/// Lists the archive: sorts the arrivals in, then shows the entries in
/// order of date and the maps of content, all of them with their tags where
/// no tags are searched for, else those that the search for `filter` finds.
pub fn list_command(
    archive: &Archive,
    home: &mut Home,
    strict: bool,
    show_mocs: bool,
    show_entries: bool,
    filter: Option<Vec<String>>,
) -> (r: Result<Listing, ArchiveError>)
    ensures
        final(home)@.backup == old(home)@.backup,
        match old(home)@.archive {
            None => outcome(r) == Some(Failure::NotActive) && final(home)@ == old(home)@,
            Some(t) => final(home).archive is Some && final(home)@.archive == Some(
                sorted_tree(t).tree,
            ) && match sorted_tree(t).error {
                Some(e) => outcome(r) == Some(Failure::Store(e)),
                None => match listing(
                    sorted_tree(t).tree,
                    final(home).archive->0.child_order(mocs_dir()),
                    strict,
                    show_mocs,
                    show_entries,
                    texts_in(filter),
                ) {
                    Ok(v) => r matches Ok(l) && l@ == v,
                    Err(e) => outcome(r) == Some(Failure::Store(e)),
                },
            },
        },
{
    let mut store = match home.archive.take() {
        Some(s) => s,
        None => {
            return Err(ArchiveError::NotActive);
        },
    };
    let sorted = crate::sort::sort_in(&mut store);
    home.archive = Some(store);
    match sorted {
        Ok(_) => {},
        Err(e) => {
            return Err(ArchiveError::Store(e));
        },
    }
    let mocs = archive.list_mocs(home);
    match &home.archive {
        Some(s) => match list_sorted(s, mocs, strict, show_mocs, show_entries, filter) {
            Ok(l) => Ok(l),
            Err(e) => Err(ArchiveError::Store(e)),
        },
        None => Err(ArchiveError::NotActive),
    }
}

/// What a collection gathers.
#[derive(Debug, PartialEq, Eq)]
pub struct Members {
    /// The uids of the maps of content.
    pub mocs: Vec<String>,
    /// The uids of the entries, in order of date.
    pub entries: Vec<String>,
}

/// What a collection that gathers the tags `included` finds in the store:
/// the maps of content and the entries that have every one of the tags,
/// taken in the orders `mocs` and `entries`, the entries then put in order
/// of date.
pub open spec fn members(
    t: Tree,
    included: Seq<Seq<char>>,
    mocs: Seq<Seq<char>>,
    entries: Seq<Seq<char>>,
) -> Result<(Seq<Seq<char>>, Seq<Seq<char>>), StoreError> {
    match selected_stored(included, mocs, mocs_dir(), "groups"@, t, true, mocs.len()) {
        Err(e) => Err(e),
        Ok(found_mocs) => match selected_stored(
            included,
            entries,
            entries_dir(),
            "tags"@,
            t,
            true,
            entries.len(),
        ) {
            Err(e) => Err(e),
            Ok(found) => match crate::sort::merged(t, Seq::empty(), found, found.len()) {
                Err(e) => Err(e),
                Ok(in_order) => Ok((found_mocs, in_order)),
            },
        },
    }
}

/// The maps of content and the entries that a collection gathers: those
/// that have every one of the tags `included`.
pub fn collection_members(archive: &Archive, included: &Vec<String>, home: &Home) -> (r: Result<
    Members,
    ArchiveError,
>)
    ensures
        match home.archive {
            None => outcome(r) == Some(Failure::NotActive),
            Some(s) => match members(
                s@,
                lines(included@),
                s.child_order(mocs_dir()),
                s.child_order(entries_dir()),
            ) {
                Ok((mocs, entries)) => r matches Ok(m) && lines(m.mocs@) == mocs && lines(
                    m.entries@,
                ) == entries,
                Err(e) => outcome(r) == Some(Failure::Store(e)),
            },
        },
{
    let store = match &home.archive {
        Some(s) => s,
        None => {
            return Err(ArchiveError::NotActive);
        },
    };
    let mocs = archive.list_mocs(home);
    let entries = archive.list_entries(home);
    proof {
        lemma_selected_stored(
            lines(included@),
            mocs@,
            crate::archive::moc_uids(mocs@),
            mocs_dir(),
            "groups"@,
            store@,
            true,
            mocs@.len(),
        );
        lemma_selected_stored(
            lines(included@),
            entries@,
            crate::archive::entry_uids(entries@),
            entries_dir(),
            "tags"@,
            store@,
            true,
            entries@.len(),
        );
    }
    let found_mocs = match search_strict(included, mocs, store) {
        Ok(v) => v,
        Err(e) => {
            return Err(ArchiveError::Store(e));
        },
    };
    let found = match search_strict(included, entries, store) {
        Ok(v) => v,
        Err(e) => {
            return Err(ArchiveError::Store(e));
        },
    };
    let mut in_order: Vec<String> = Vec::new();
    let mut i: usize = 0;
    assert(lines(in_order@) =~= Seq::<Seq<char>>::empty());
    while i < found.len()
        invariant
            i <= found.len(),
            home.archive == Some(*store),
            selected_stored(
                lines(included@),
                store.child_order(mocs_dir()),
                mocs_dir(),
                "groups"@,
                store@,
                true,
                store.child_order(mocs_dir()).len(),
            ) == Ok::<Seq<Seq<char>>, StoreError>(lines(found_mocs@)),
            selected_stored(
                lines(included@),
                store.child_order(entries_dir()),
                entries_dir(),
                "tags"@,
                store@,
                true,
                store.child_order(entries_dir()).len(),
            ) == Ok::<Seq<Seq<char>>, StoreError>(lines(found@)),
            crate::sort::merged(store@, Seq::empty(), lines(found@), i as nat) == Ok::<
                Seq<Seq<char>>,
                StoreError,
            >(lines(in_order@)),
        decreases found.len() - i,
    {
        assert(lines(found@)[i as int] == found@[i as int]@);
        in_order = match crate::sort::place(store, in_order, found[i].clone()) {
            Ok(v) => v,
            Err(e) => {
                proof {
                    crate::sort::lemma_merged_error(
                        store@,
                        Seq::empty(),
                        lines(found@),
                        (i + 1) as nat,
                        found@.len(),
                    );
                }
                return Err(ArchiveError::Store(e));
            },
        };
        i += 1;
    }
    Ok(Members { mocs: found_mocs, entries: in_order })
}

} // verus!
