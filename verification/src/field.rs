//! The building blocks of lazily loaded entities: reading and writing one
//! text, one date or one list of strings of a container, and what a run of
//! such writes leaves in the store.

use crate::keys::length_key;
use crate::list::{
    data,
    lemma_child_below,
    lemma_list_read_local,
    lemma_list_written_outside,
    lemma_read_after_write,
    list_pushed,
    list_read,
    list_write_error,
    list_written,
};
use crate::store::{
    agree_under,
    as_text,
    as_u16_array,
    below,
    child_error,
    datum_at,
    is_dir,
    pruned,
    under,
    write_error,
    Container,
    Datum,
    Path,
    Scalar,
    Slot,
    Store,
    StoreError,
    Tree,
};
use vstd::prelude::*;

verus! {

/// The contents of a list of strings.
pub open spec fn lines(list: Seq<String>) -> Seq<Seq<char>> {
    Seq::new(list.len(), |i: int| list[i]@)
}

/// A list of texts as data.
pub open spec fn text_data(list: Seq<Seq<char>>) -> Seq<Datum> {
    Seq::new(list.len(), |i: int| Datum::Text(list[i]))
}

/// Every item is a text.
pub open spec fn all_text(items: Seq<Datum>) -> bool {
    forall|i: int| 0 <= i < items.len() ==> #[trigger] items[i] is Text
}

/// The text under `key` in container `c`.
pub open spec fn text_at(t: Tree, c: Path, key: Seq<char>) -> Result<Seq<char>, StoreError> {
    match datum_at(t, c, key) {
        Ok(d) => as_text(d),
        Err(e) => Err(e),
    }
}

/// A date is stored as three numbers: day, month, year.
pub open spec fn as_date(d: Datum) -> Result<(u16, u16, u16), StoreError> {
    match as_u16_array(d) {
        Ok(a) => if a.len() >= 3 {
            Ok((a[0], a[1], a[2]))
        } else {
            Err(StoreError::WrongType)
        },
        Err(e) => Err(e),
    }
}

/// The date under `key` in container `c`.
pub open spec fn date_at(t: Tree, c: Path, key: Seq<char>) -> Result<(u16, u16, u16), StoreError> {
    match datum_at(t, c, key) {
        Ok(d) => as_date(d),
        Err(e) => Err(e),
    }
}

/// The list of strings in container `c`.
pub open spec fn strings_read(t: Tree, c: Path) -> Result<Seq<Seq<char>>, StoreError> {
    match list_read(t, c) {
        Err(e) => Err(e),
        Ok(items) => if all_text(items) {
            Ok(Seq::new(items.len(), |i: int| items[i]->Text_0))
        } else {
            Err(StoreError::WrongType)
        },
    }
}

/// The list of strings in the child `name` of container `c`.
pub open spec fn strings_at(t: Tree, c: Path, name: Seq<char>) -> Result<
    Seq<Seq<char>>,
    StoreError,
> {
    strings_read(t, c.push(name))
}

/// What a run of writes has left: the tree, and the error that stopped the
/// run if one did.
pub ghost struct Saved {
    pub tree: Tree,
    pub error: Option<StoreError>,
}

/// A run that has written nothing yet.
pub open spec fn begin(t: Tree) -> Saved {
    Saved { tree: t, error: None }
}

/// The run `s` followed by the write of a scalar under `key` in `c`.
pub open spec fn then_datum(s: Saved, c: Path, key: Seq<char>, d: Datum) -> Saved {
    if s.error is Some {
        s
    } else {
        match write_error(s.tree, c, key) {
            Some(e) => Saved { tree: s.tree, error: Some(e) },
            None => Saved { tree: s.tree.insert(c.push(key), Slot::Data(d)), error: None },
        }
    }
}

/// The run `s` followed by the write of a text, if there is one to write.
pub open spec fn then_text(s: Saved, c: Path, key: Seq<char>, text: Option<Seq<char>>) -> Saved {
    match text {
        Some(x) => then_datum(s, c, key, Datum::Text(x)),
        None => s,
    }
}

/// A date as the scalar that stores it.
pub open spec fn date_datum(d: (u16, u16, u16)) -> Datum {
    Datum::U16Array(seq![d.0, d.1, d.2])
}

/// The run `s` followed by the write of a date, if there is one to write.
pub open spec fn then_date(
    s: Saved,
    c: Path,
    key: Seq<char>,
    date: Option<(u16, u16, u16)>,
) -> Saved {
    match date {
        Some(d) => then_datum(s, c, key, date_datum(d)),
        None => s,
    }
}

/// The run `s` followed by making the child container `name` of `c` anew.
pub open spec fn then_dir(s: Saved, c: Path, name: Seq<char>) -> Saved {
    if s.error is Some {
        s
    } else {
        match child_error(s.tree, c, name) {
            Some(e) => Saved { tree: s.tree, error: Some(e) },
            None => Saved {
                tree: pruned(s.tree, c.push(name)).insert(c.push(name), Slot::Dir),
                error: None,
            },
        }
    }
}

/// The run `s` followed by opening the child container `name` of `c`, which
/// is made if it does not exist yet.
pub open spec fn then_open(s: Saved, c: Path, name: Seq<char>) -> Saved {
    if s.error is Some {
        s
    } else {
        match child_error(s.tree, c, name) {
            Some(e) => Saved { tree: s.tree, error: Some(e) },
            None => Saved { tree: s.tree.insert(c.push(name), Slot::Dir), error: None },
        }
    }
}

/// The run `s` followed by appending `item` to the list in container `c`.
pub open spec fn then_push(s: Saved, c: Path, item: Datum) -> Saved {
    if s.error is Some {
        s
    } else {
        match list_pushed(s.tree, c, item) {
            Ok(t) => Saved { tree: t, error: None },
            Err(e) => Saved { tree: s.tree, error: Some(e) },
        }
    }
}

/// The run `s` followed by removing the entry `key` of `c` with all that it
/// holds.
pub open spec fn then_remove(s: Saved, c: Path, key: Seq<char>) -> Saved {
    if s.error is Some {
        s
    } else if !s.tree.contains_key(c.push(key)) {
        Saved { tree: s.tree, error: Some(StoreError::NotFound) }
    } else {
        Saved { tree: pruned(s.tree, c.push(key)), error: None }
    }
}

/// The run `s` followed by the write of a list into container `c`.
pub open spec fn then_list(s: Saved, c: Path, items: Seq<Datum>) -> Saved {
    if s.error is Some {
        s
    } else {
        match list_write_error(s.tree, c, items.len()) {
            Some(e) => Saved { tree: s.tree, error: Some(e) },
            None => Saved { tree: list_written(s.tree, c, items), error: None },
        }
    }
}

/// The run `s` followed by the write of a list of strings, if there is one,
/// into the child `name` of `c`, which is made anew.
pub open spec fn then_strings(
    s: Saved,
    c: Path,
    name: Seq<char>,
    list: Option<Seq<Seq<char>>>,
) -> Saved {
    match list {
        Some(l) => then_list(then_dir(s, c, name), c.push(name), text_data(l)),
        None => s,
    }
}

/// A scalar that was written is read back, and its container was there.
pub proof fn lemma_then_datum(s: Saved, c: Path, key: Seq<char>, d: Datum)
    requires
        then_datum(s, c, key, d).error is None,
    ensures
        s.error is None,
        is_dir(s.tree, c),
        datum_at(then_datum(s, c, key, d).tree, c, key) == Ok::<Datum, StoreError>(d),
{
}

/// The write of a scalar leaves every other path as it was.
pub proof fn lemma_then_datum_other(s: Saved, c: Path, key: Seq<char>, d: Datum, p: Path)
    requires
        then_datum(s, c, key, d).error is None,
        p != c.push(key),
    ensures
        then_datum(s, c, key, d).tree.contains_key(p) == s.tree.contains_key(p),
        then_datum(s, c, key, d).tree[p] == s.tree[p],
{
}

/// A container that was made anew exists, and its parent was there.
pub proof fn lemma_then_dir(s: Saved, c: Path, name: Seq<char>)
    requires
        then_dir(s, c, name).error is None,
    ensures
        s.error is None,
        is_dir(s.tree, c),
        is_dir(then_dir(s, c, name).tree, c.push(name)),
{
    assert(under(c.push(name), c.push(name)));
}

/// A container that was made anew holds nothing.
pub proof fn lemma_then_dir_empty(s: Saved, c: Path, name: Seq<char>, p: Path)
    requires
        then_dir(s, c, name).error is None,
        below(p, c.push(name)),
    ensures
        !then_dir(s, c, name).tree.contains_key(p),
{
}

/// Making a container anew leaves every path outside its subtree as it was.
pub proof fn lemma_then_dir_other(s: Saved, c: Path, name: Seq<char>, p: Path)
    requires
        then_dir(s, c, name).error is None,
        !under(p, c.push(name)),
    ensures
        then_dir(s, c, name).tree.contains_key(p) == s.tree.contains_key(p),
        s.tree.contains_key(p) ==> then_dir(s, c, name).tree[p] == s.tree[p],
{
}

/// A list that was written is read back, and its container was there.
pub proof fn lemma_then_list(s: Saved, c: Path, items: Seq<Datum>)
    requires
        then_list(s, c, items).error is None,
    ensures
        s.error is None,
        is_dir(s.tree, c),
        list_read(then_list(s, c, items).tree, c) == Ok::<Seq<Datum>, StoreError>(items),
{
    lemma_read_after_write(s.tree, c, items);
}

/// The write of a list leaves every path that is not strictly below its
/// container as it was.
pub proof fn lemma_then_list_other(s: Saved, c: Path, items: Seq<Datum>, p: Path)
    requires
        then_list(s, c, items).error is None,
        !below(p, c),
    ensures
        then_list(s, c, items).tree.contains_key(p) == s.tree.contains_key(p),
        s.tree.contains_key(p) ==> then_list(s, c, items).tree[p] == s.tree[p],
{
    lemma_list_written_outside(s.tree, c, items, p);
}

/// A list of strings that was written is read back, and the container that
/// holds its own was there.
pub proof fn lemma_then_strings(s: Saved, c: Path, name: Seq<char>, l: Seq<Seq<char>>)
    requires
        then_strings(s, c, name, Some(l)).error is None,
    ensures
        s.error is None,
        is_dir(s.tree, c),
        strings_at(then_strings(s, c, name, Some(l)).tree, c, name) == Ok::<
            Seq<Seq<char>>,
            StoreError,
        >(l),
{
    let dir = then_dir(s, c, name);
    lemma_then_list(dir, c.push(name), text_data(l));
    lemma_then_dir(s, c, name);
    assert(all_text(text_data(l)));
    assert(Seq::new(text_data(l).len(), |i: int| text_data(l)[i]->Text_0) =~= l);
}

/// The write of a list of strings, if any, leaves every path outside the
/// subtree of the list's container as it was.
pub proof fn lemma_then_strings_other(
    s: Saved,
    c: Path,
    name: Seq<char>,
    l: Option<Seq<Seq<char>>>,
    p: Path,
)
    requires
        then_strings(s, c, name, l).error is None,
        !under(p, c.push(name)),
    ensures
        s.error is None,
        then_strings(s, c, name, l).tree.contains_key(p) == s.tree.contains_key(p),
        s.tree.contains_key(p) ==> then_strings(s, c, name, l).tree[p] == s.tree[p],
{
    if l is Some {
        let dir = then_dir(s, c, name);
        lemma_then_list(dir, c.push(name), text_data(l->0));
        lemma_then_list_other(dir, c.push(name), text_data(l->0), p);
        lemma_then_dir_other(s, c, name, p);
    }
}

/// Trees that hold the same in the subtree of the child `name` of `c` hold
/// the same list of strings there.
pub proof fn lemma_strings_at_local(a: Tree, b: Tree, c: Path, name: Seq<char>)
    requires
        agree_under(a, b, c.push(name)),
    ensures
        strings_at(a, c, name) == strings_at(b, c, name),
{
    lemma_list_read_local(a, b, c.push(name));
}

/// Opening a container leaves every other path as it was, and the
/// container exists afterwards.
pub proof fn lemma_then_open(s: Saved, c: Path, name: Seq<char>, p: Path)
    requires
        then_open(s, c, name).error is None,
    ensures
        s.error is None,
        is_dir(s.tree, c),
        is_dir(then_open(s, c, name).tree, c.push(name)),
        p != c.push(name) ==> then_open(s, c, name).tree.contains_key(p) == s.tree.contains_key(p)
            && then_open(s, c, name).tree[p] == s.tree[p],
{
}

/// Appending to a list changes nothing but the new item and the length.
pub proof fn lemma_then_push_other(s: Saved, c: Path, item: Datum, p: Path)
    requires
        then_push(s, c, item).error is None,
        !below(p, c),
    ensures
        s.error is None,
        then_push(s, c, item).tree.contains_key(p) == s.tree.contains_key(p),
        then_push(s, c, item).tree[p] == s.tree[p],
{
    let n = crate::list::list_length(s.tree, c)->Ok_0;
    lemma_child_below(c, crate::keys::index_key(n as nat));
    lemma_child_below(c, length_key());
}

/// Opens the child container `name` of `container`, making it if it does
/// not exist yet.
pub fn open_dir(store: &mut Store, container: &Container, name: &str) -> (r: Result<
    Container,
    StoreError,
>)
    ensures
        then_open(begin(old(store)@), container@, name@) == (Saved {
            tree: final(store)@,
            error: r.err(),
        }),
        r matches Ok(c) ==> c@ == container@.push(name@),
{
    store.child_container(container, name)
}

/// Appends `text` to the list in `container`.
pub fn push_text(store: &mut Store, container: &Container, text: &String) -> (r: Result<
    (),
    StoreError,
>)
    ensures
        then_push(begin(old(store)@), container@, Datum::Text(text@)) == (Saved {
            tree: final(store)@,
            error: r.err(),
        }),
{
    crate::list::push(Scalar::Text(text.clone()), container, store)
}

/// Writes the scalar `value` under `key` in `container`.
pub fn save_datum(store: &mut Store, container: &Container, key: &str, value: Scalar) -> (r: Result<
    (),
    StoreError,
>)
    ensures
        then_datum(begin(old(store)@), container@, key@, value@) == (Saved {
            tree: final(store)@,
            error: r.err(),
        }),
{
    store.write_data(container, key, value)
}

/// Removes the entry `key` of `container` with all that it holds.
pub fn remove_entry(store: &mut Store, container: &Container, key: &str) -> (r: Result<
    (),
    StoreError,
>)
    ensures
        then_remove(begin(old(store)@), container@, key@) == (Saved {
            tree: final(store)@,
            error: r.err(),
        }),
{
    store.remove(container, key)
}

/// Makes the child container `name` of `container` anew.
pub fn make_dir(store: &mut Store, container: &Container, name: &str) -> (r: Result<
    Container,
    StoreError,
>)
    ensures
        then_dir(begin(old(store)@), container@, name@) == (Saved {
            tree: final(store)@,
            error: r.err(),
        }),
        r matches Ok(c) ==> c@ == container@.push(name@),
{
    store.new_container(container, name)
}

/// Reads the text under `key` in `container`.
pub fn load_text(store: &Store, container: &Container, key: &str) -> (r: Result<String, StoreError>)
    ensures
        match r {
            Ok(s) => text_at(store@, container@, key@) == Ok::<Seq<char>, StoreError>(s@),
            Err(e) => text_at(store@, container@, key@) == Err::<Seq<char>, StoreError>(e),
        },
{
    match store.read_data(container, key) {
        Ok(s) => s.collect_string(),
        Err(e) => Err(e),
    }
}

/// Reads the date under `key` in `container`.
pub fn load_date(store: &Store, container: &Container, key: &str) -> (r: Result<
    [u16; 3],
    StoreError,
>)
    ensures
        match r {
            Ok(d) => date_at(store@, container@, key@) == Ok::<(u16, u16, u16), StoreError>(
                (d[0], d[1], d[2]),
            ),
            Err(e) => date_at(store@, container@, key@) == Err::<(u16, u16, u16), StoreError>(e),
        },
{
    match store.read_data(container, key) {
        Ok(s) => match s.collect_u16_array() {
            Ok(a) => if a.len() >= 3 {
                Ok([a[0], a[1], a[2]])
            } else {
                Err(StoreError::WrongType)
            },
            Err(e) => Err(e),
        },
        Err(e) => Err(e),
    }
}

/// Reads the list of strings in `container`.
pub fn read_strings(container: &Container, store: &Store) -> (r: Result<Vec<String>, StoreError>)
    ensures
        match r {
            Ok(v) => strings_read(store@, container@) == Ok::<Seq<Seq<char>>, StoreError>(
                lines(v@),
            ),
            Err(e) => strings_read(store@, container@) == Err::<Seq<Seq<char>>, StoreError>(e),
        },
{
    let items = match crate::list::read(container, store) {
        Ok(v) => v,
        Err(e) => {
            return Err(e);
        },
    };
    let mut out: Vec<String> = Vec::new();
    let mut i: usize = 0;
    while i < items.len()
        invariant
            i <= items.len(),
            out@.len() == i,
            list_read(store@, container@) == Ok::<Seq<Datum>, StoreError>(data(items@)),
            forall|j: int| 0 <= j < i ==> #[trigger] data(items@)[j] == Datum::Text(out@[j]@),
        decreases items.len() - i,
    {
        match items[i].collect_string() {
            Ok(s) => {
                out.push(s);
            },
            Err(e) => {
                assert(!(data(items@)[i as int] is Text));
                return Err(e);
            },
        }
        i += 1;
    }
    proof {
        let d = data(items@);
        assert(all_text(d));
        assert(Seq::new(d.len(), |i: int| d[i]->Text_0) =~= lines(out@));
    }
    Ok(out)
}

/// Reads the list of strings in the child `name` of `container`.
pub fn load_strings(store: &Store, container: &Container, name: &str) -> (r: Result<
    Vec<String>,
    StoreError,
>)
    ensures
        match r {
            Ok(v) => strings_at(store@, container@, name@) == Ok::<Seq<Seq<char>>, StoreError>(
                lines(v@),
            ),
            Err(e) => strings_at(store@, container@, name@) == Err::<Seq<Seq<char>>, StoreError>(
                e,
            ),
        },
{
    let child = container.child(name);
    read_strings(&child, store)
}

/// Writes `text` under `key` in `container`.
pub fn save_text(store: &mut Store, container: &Container, key: &str, text: &String) -> (r: Result<
    (),
    StoreError,
>)
    ensures
        then_datum(begin(old(store)@), container@, key@, Datum::Text(text@)) == (Saved {
            tree: final(store)@,
            error: r.err(),
        }),
{
    store.write_data(container, key, Scalar::Text(text.clone()))
}

/// Writes `date` under `key` in `container`.
pub fn save_date(store: &mut Store, container: &Container, key: &str, date: &[u16; 3]) -> (r: Result<
    (),
    StoreError,
>)
    ensures
        then_datum(begin(old(store)@), container@, key@, date_datum((date[0], date[1], date[2])))
            == (Saved { tree: final(store)@, error: r.err() }),
{
    let mut v: Vec<u16> = Vec::new();
    v.push(date[0]);
    v.push(date[1]);
    v.push(date[2]);
    assert(v@ =~= seq![date[0], date[1], date[2]]);
    store.write_data(container, key, Scalar::U16Array(v))
}

/// Writes `list` as the list of strings in `container`.
pub fn write_strings(list: &Vec<String>, container: &Container, store: &mut Store) -> (r: Result<
    (),
    StoreError,
>)
    ensures
        then_list(begin(old(store)@), container@, text_data(lines(list@))) == (Saved {
            tree: final(store)@,
            error: r.err(),
        }),
{
    let mut items: Vec<Scalar> = Vec::new();
    let mut i: usize = 0;
    while i < list.len()
        invariant
            i <= list.len(),
            items@.len() == i,
            forall|j: int| 0 <= j < i ==> (#[trigger] items@[j])@ == Datum::Text(list@[j]@),
        decreases list.len() - i,
    {
        items.push(Scalar::Text(list[i].clone()));
        i += 1;
    }
    assert(data(items@) =~= text_data(lines(list@)));
    crate::list::write(&items, container, store)
}

/// Writes `list` as the list of strings in the child `name` of `container`,
/// which is made anew.
pub fn save_strings(
    store: &mut Store,
    container: &Container,
    name: &str,
    list: &Vec<String>,
) -> (r: Result<(), StoreError>)
    ensures
        then_strings(begin(old(store)@), container@, name@, Some(lines(list@))) == (Saved {
            tree: final(store)@,
            error: r.err(),
        }),
{
    let child = match store.new_container(container, name) {
        Ok(c) => c,
        Err(e) => {
            return Err(e);
        },
    };
    write_strings(list, &child, store)
}

/// What a lazily loaded text yields: the cached value if there is one, else
/// the stored one.
pub open spec fn lazy_text(cache: Option<String>, t: Tree, c: Path, key: Seq<char>) -> Result<
    Seq<char>,
    StoreError,
> {
    match cache {
        Some(s) => Ok(s@),
        None => text_at(t, c, key),
    }
}

/// What a lazily loaded list of strings yields: the cached value if there is
/// one, else the stored one.
pub open spec fn lazy_strings(
    cache: Option<Vec<String>>,
    t: Tree,
    c: Path,
    name: Seq<char>,
) -> Result<Seq<Seq<char>>, StoreError> {
    match cache {
        Some(v) => Ok(lines(v@)),
        None => strings_at(t, c, name),
    }
}

/// What a lazily loaded date yields: the cached value if there is one, else
/// the stored one.
pub open spec fn lazy_date(cache: Option<[u16; 3]>, t: Tree, c: Path, key: Seq<char>) -> Result<
    (u16, u16, u16),
    StoreError,
> {
    match cache {
        Some(d) => Ok((d[0], d[1], d[2])),
        None => date_at(t, c, key),
    }
}

/// How a slot for a text stands after its turn in filling a cache: where
/// its turn came and the text could be read, it holds the text; else it is
/// as it was.
pub open spec fn filled_text(
    before: Option<String>,
    after: Option<String>,
    t: Tree,
    c: Path,
    key: Seq<char>,
    reached: bool,
) -> bool {
    if reached && lazy_text(before, t, c, key) is Ok {
        after is Some && after->0@ == lazy_text(before, t, c, key)->Ok_0
    } else {
        after == before
    }
}

/// How a slot for a list of strings stands after its turn in filling a
/// cache.
pub open spec fn filled_strings(
    before: Option<Vec<String>>,
    after: Option<Vec<String>>,
    t: Tree,
    c: Path,
    name: Seq<char>,
    reached: bool,
) -> bool {
    if reached && lazy_strings(before, t, c, name) is Ok {
        after is Some && lines(after->0@) == lazy_strings(before, t, c, name)->Ok_0
    } else {
        after == before
    }
}

/// How a slot for a date stands after its turn in filling a cache.
pub open spec fn filled_date(
    before: Option<[u16; 3]>,
    after: Option<[u16; 3]>,
    t: Tree,
    c: Path,
    key: Seq<char>,
    reached: bool,
) -> bool {
    if reached && lazy_date(before, t, c, key) is Ok {
        after is Some && (after->0[0], after->0[1], after->0[2]) == lazy_date(
            before,
            t,
            c,
            key,
        )->Ok_0
    } else {
        after == before
    }
}

/// The text of a slot, loaded from the store on first use.
pub fn fetch_text<'a>(
    slot: &'a mut Option<String>,
    store: &Store,
    container: &Container,
    key: &str,
) -> (r: Result<&'a String, StoreError>)
    ensures
        match r {
            Ok(s) => lazy_text(*old(slot), store@, container@, key@) == Ok::<
                Seq<char>,
                StoreError,
            >(s@) && *final(slot) == Some(*s) && (*old(slot) is Some ==> *final(slot) == *old(
                slot
            )),
            Err(e) => lazy_text(*old(slot), store@, container@, key@) == Err::<
                Seq<char>,
                StoreError,
            >(e) && *final(slot) == *old(slot),
        },
{
    if slot.is_none() {
        match load_text(store, container, key) {
            Ok(s) => {
                *slot = Some(s);
            },
            Err(e) => {
                return Err(e);
            },
        }
    }
    Ok(slot.as_ref().unwrap())
}

/// The list of strings of a slot, loaded from the store on first use.
pub fn fetch_strings<'a>(
    slot: &'a mut Option<Vec<String>>,
    store: &Store,
    container: &Container,
    name: &str,
) -> (r: Result<&'a Vec<String>, StoreError>)
    ensures
        match r {
            Ok(v) => lazy_strings(*old(slot), store@, container@, name@) == Ok::<
                Seq<Seq<char>>,
                StoreError,
            >(lines(v@)) && *final(slot) == Some(*v) && (*old(slot) is Some ==> *final(slot)
                == *old(slot)),
            Err(e) => lazy_strings(*old(slot), store@, container@, name@) == Err::<
                Seq<Seq<char>>,
                StoreError,
            >(e) && *final(slot) == *old(slot),
        },
{
    if slot.is_none() {
        match load_strings(store, container, name) {
            Ok(v) => {
                *slot = Some(v);
            },
            Err(e) => {
                return Err(e);
            },
        }
    }
    Ok(slot.as_ref().unwrap())
}

/// The date of a slot, loaded from the store on first use.
pub fn fetch_date<'a>(
    slot: &'a mut Option<[u16; 3]>,
    store: &Store,
    container: &Container,
    key: &str,
) -> (r: Result<&'a [u16; 3], StoreError>)
    ensures
        match r {
            Ok(d) => lazy_date(*old(slot), store@, container@, key@) == Ok::<
                (u16, u16, u16),
                StoreError,
            >((d[0], d[1], d[2])) && *final(slot) == Some(*d) && (*old(slot) is Some ==> *final(
                slot
            ) == *old(slot)),
            Err(e) => lazy_date(*old(slot), store@, container@, key@) == Err::<
                (u16, u16, u16),
                StoreError,
            >(e) && *final(slot) == *old(slot),
        },
{
    if slot.is_none() {
        match load_date(store, container, key) {
            Ok(d) => {
                *slot = Some(d);
            },
            Err(e) => {
                return Err(e);
            },
        }
    }
    Ok(slot.as_ref().unwrap())
}

} // verus!
