//! Lists in the store: a container that holds the items under the keys
//! `0`, `1`, ... and their number under the key `length`.

use crate::keys::{
    index_key,
    index_name,
    lemma_index_key_injective,
    lemma_index_key_not_length,
    length_key,
};
use crate::store::{
    agree_under,
    as_u16,
    below,
    datum_at,
    emptied,
    is_dir,
    pruned,
    same_at,
    under,
    write_error,
    Container,
    Datum,
    Path,
    Scalar,
    Slot,
    Store,
    StoreError,
    Tree,
};
use vstd::prelude::*;

verus! {

/// The values of a list of scalars.
pub open spec fn data(list: Seq<Scalar>) -> Seq<Datum> {
    Seq::new(list.len(), |i: int| list[i]@)
}

/// The values of a list of strings, each as a text.
pub open spec fn texts(list: Seq<String>) -> Seq<Datum> {
    Seq::new(list.len(), |i: int| Datum::Text(list[i]@))
}

/// The tree with the first `n` of `items` written under their keys in `c`.
pub open spec fn with_items(t: Tree, c: Path, items: Seq<Datum>, n: nat) -> Tree
    decreases n,
{
    if n == 0 {
        t
    } else {
        with_items(t, c, items, (n - 1) as nat).insert(
            c.push(index_key((n - 1) as nat)),
            Slot::Data(items[n - 1]),
        )
    }
}

/// The tree after `items` were written as the list in `c`: what `c` held
/// before is gone.
pub open spec fn list_written(t: Tree, c: Path, items: Seq<Datum>) -> Tree {
    with_items(emptied(t, c), c, items, items.len()).insert(
        c.push(length_key()),
        Slot::Data(Datum::U16(items.len() as u16)),
    )
}

/// Why `len` items cannot be written as the list in `c`, if they cannot.
pub open spec fn list_write_error(t: Tree, c: Path, len: nat) -> Option<StoreError> {
    if len > u16::MAX {
        Some(StoreError::TooLong)
    } else if !is_dir(t, c) {
        Some(StoreError::NotFound)
    } else {
        None
    }
}

/// The length that the list in `c` records.
pub open spec fn list_length(t: Tree, c: Path) -> Result<u16, StoreError> {
    if !is_dir(t, c) {
        Err(StoreError::NotFound)
    } else {
        match datum_at(t, c, length_key()) {
            Ok(d) => as_u16(d),
            Err(e) => Err(e),
        }
    }
}

/// The first `n` items of the list in `c`; an error if one of them is absent.
pub open spec fn list_items(t: Tree, c: Path, n: nat) -> Result<Seq<Datum>, StoreError>
    decreases n,
{
    if n == 0 {
        Ok(Seq::empty())
    } else {
        match list_items(t, c, (n - 1) as nat) {
            Err(e) => Err(e),
            Ok(first) => match datum_at(t, c, index_key((n - 1) as nat)) {
                Ok(d) => Ok(first.push(d)),
                Err(e) => Err(e),
            },
        }
    }
}

/// The list in `c`: as many items as its length records.
pub open spec fn list_read(t: Tree, c: Path) -> Result<Seq<Datum>, StoreError> {
    match list_length(t, c) {
        Ok(n) => list_items(t, c, n as nat),
        Err(e) => Err(e),
    }
}

/// The tree after `item` was appended to the list in `c`.
pub open spec fn list_pushed(t: Tree, c: Path, item: Datum) -> Result<Tree, StoreError> {
    match list_length(t, c) {
        Err(e) => Err(e),
        Ok(n) => if n == u16::MAX {
            Err(StoreError::TooLong)
        } else {
            match write_error(t, c, index_key(n as nat)) {
                Some(e) => Err(e),
                None => Ok(
                    t.insert(c.push(index_key(n as nat)), Slot::Data(item)).insert(
                        c.push(length_key()),
                        Slot::Data(Datum::U16((n + 1) as u16)),
                    ),
                ),
            }
        },
    }
}

/// The last item of the list in `c`, if it has one, and the tree after it was
/// taken off.
pub open spec fn list_popped(t: Tree, c: Path) -> Result<(Option<Datum>, Tree), StoreError> {
    match list_length(t, c) {
        Err(e) => Err(e),
        Ok(n) => if n == 0 {
            Ok((None, t))
        } else {
            match datum_at(t, c, index_key((n - 1) as nat)) {
                Err(e) => Err(e),
                Ok(d) => Ok(
                    (
                        Some(d),
                        pruned(t, c.push(index_key((n - 1) as nat))).insert(
                            c.push(length_key()),
                            Slot::Data(Datum::U16((n - 1) as u16)),
                        ),
                    ),
                ),
            }
        },
    }
}

/// A path made by one more name lies strictly below the container.
pub proof fn lemma_child_below(c: Path, key: Seq<char>)
    ensures
        below(c.push(key), c),
        !under(c, c.push(key)),
        c.push(key).last() == key,
        c.push(key).drop_last() == c,
{
    assert(c.push(key).take(c.len() as int) =~= c);
    assert(c.push(key).drop_last() =~= c);
}

/// Writing items leaves every path that is not one of their keys as it was.
pub proof fn lemma_with_items_other(t: Tree, c: Path, items: Seq<Datum>, n: nat, p: Path)
    requires
        forall|i: nat| i < n ==> p != c.push(#[trigger] index_key(i)),
    ensures
        with_items(t, c, items, n).contains_key(p) == t.contains_key(p),
        with_items(t, c, items, n)[p] == t[p],
    decreases n,
{
    if n > 0 {
        assert(p != c.push(index_key((n - 1) as nat)));
        lemma_with_items_other(t, c, items, (n - 1) as nat, p);
    }
}

/// Writing items leaves every path outside the container as it was.
pub proof fn lemma_with_items_outside(t: Tree, c: Path, items: Seq<Datum>, n: nat, p: Path)
    requires
        !(below(p, c) && p.len() == c.len() + 1),
    ensures
        with_items(t, c, items, n).contains_key(p) == t.contains_key(p),
        with_items(t, c, items, n)[p] == t[p],
{
    assert forall|i: nat| i < n implies p != c.push(#[trigger] index_key(i)) by {
        lemma_child_below(c, index_key(i));
    }
    lemma_with_items_other(t, c, items, n, p);
}

/// Writing items leaves the key of the length as it was.
pub proof fn lemma_with_items_length(t: Tree, c: Path, items: Seq<Datum>, n: nat)
    ensures
        with_items(t, c, items, n).contains_key(c.push(length_key())) == t.contains_key(
            c.push(length_key()),
        ),
        with_items(t, c, items, n)[c.push(length_key())] == t[c.push(length_key())],
{
    let p = c.push(length_key());
    assert forall|i: nat| i < n implies p != c.push(#[trigger] index_key(i)) by {
        lemma_index_key_not_length(i);
        lemma_child_below(c, index_key(i));
        lemma_child_below(c, length_key());
    }
    lemma_with_items_other(t, c, items, n, p);
}

/// After the first `n` items were written, item `i` stands under its key.
pub proof fn lemma_with_items_at(t: Tree, c: Path, items: Seq<Datum>, n: nat, i: nat)
    requires
        i < n,
    ensures
        with_items(t, c, items, n).contains_key(c.push(index_key(i))),
        with_items(t, c, items, n)[c.push(index_key(i))] == Slot::Data(items[i as int]),
    decreases n,
{
    if i < n - 1 {
        lemma_with_items_at(t, c, items, (n - 1) as nat, i);
        if c.push(index_key(i)) == c.push(index_key((n - 1) as nat)) {
            lemma_child_below(c, index_key(i));
            lemma_child_below(c, index_key((n - 1) as nat));
            lemma_index_key_injective(i, (n - 1) as nat);
        }
    }
}

/// A written list leaves everything that is not strictly below its container
/// as it was.
pub proof fn lemma_list_written_outside(t: Tree, c: Path, items: Seq<Datum>, p: Path)
    requires
        !below(p, c),
    ensures
        list_written(t, c, items).contains_key(p) == t.contains_key(p),
        t.contains_key(p) ==> list_written(t, c, items)[p] == t[p],
{
    lemma_child_below(c, length_key());
    lemma_with_items_outside(emptied(t, c), c, items, items.len(), p);
}

/// A written list keeps its container.
pub proof fn lemma_list_written_dir(t: Tree, c: Path, items: Seq<Datum>)
    requires
        is_dir(t, c),
    ensures
        is_dir(list_written(t, c, items), c),
{
    lemma_list_written_outside(t, c, items, c);
}

/// The items of a list that was written are read back, up to any `n` of them.
proof fn lemma_items_after_write(t: Tree, c: Path, items: Seq<Datum>, n: nat)
    requires
        n <= items.len(),
    ensures
        list_items(list_written(t, c, items), c, n) == Ok::<Seq<Datum>, StoreError>(
            items.take(n as int),
        ),
    decreases n,
{
    let w = list_written(t, c, items);
    if n == 0 {
        assert(items.take(0) =~= Seq::<Datum>::empty());
    } else {
        lemma_items_after_write(t, c, items, (n - 1) as nat);
        let i = (n - 1) as nat;
        lemma_with_items_at(emptied(t, c), c, items, items.len(), i);
        lemma_index_key_not_length(i);
        lemma_child_below(c, index_key(i));
        lemma_child_below(c, length_key());
        assert(items.take(n as int) =~= items.take(i as int).push(items[i as int]));
    }
}

/// What was written as a list is read back: the same items in the same order.
pub proof fn lemma_read_after_write(t: Tree, c: Path, items: Seq<Datum>)
    requires
        is_dir(t, c),
        items.len() <= u16::MAX,
    ensures
        list_read(list_written(t, c, items), c) == Ok::<Seq<Datum>, StoreError>(items),
{
    lemma_list_written_dir(t, c, items);
    lemma_items_after_write(t, c, items, items.len());
    assert(items.take(items.len() as int) =~= items);
}

/// Trees that hold the same in the subtree of a container hold the same
/// list there.
pub proof fn lemma_list_read_local(a: Tree, b: Tree, c: Path)
    requires
        agree_under(a, b, c),
    ensures
        list_read(a, c) == list_read(b, c),
        list_length(a, c) == list_length(b, c),
{
    assert(c.take(c.len() as int) =~= c);
    assert(under(c, c));
    assert(same_at(a, b, c));
    lemma_child_below(c, length_key());
    assert(under(c.push(length_key()), c));
    assert(same_at(a, b, c.push(length_key())));
    if list_length(a, c) is Ok {
        lemma_list_items_local(a, b, c, list_length(a, c)->Ok_0 as nat);
    }
}

/// Trees that hold the same in the subtree of a container hold the same
/// items there.
pub proof fn lemma_list_items_local(a: Tree, b: Tree, c: Path, n: nat)
    requires
        agree_under(a, b, c),
    ensures
        list_items(a, c, n) == list_items(b, c, n),
    decreases n,
{
    if n > 0 {
        lemma_list_items_local(a, b, c, (n - 1) as nat);
        lemma_child_below(c, index_key((n - 1) as nat));
        assert(under(c.push(index_key((n - 1) as nat)), c));
        assert(same_at(a, b, c.push(index_key((n - 1) as nat))));
    }
}

/// Appending leaves the items that were there as they were.
proof fn lemma_items_after_push(t: Tree, c: Path, item: Datum, n: nat, m: nat)
    requires
        m <= n,
    ensures
        list_items(
            t.insert(c.push(index_key(n)), Slot::Data(item)).insert(
                c.push(length_key()),
                Slot::Data(Datum::U16((n + 1) as u16)),
            ),
            c,
            m,
        ) == list_items(t, c, m),
    decreases m,
{
    if m > 0 {
        let i = (m - 1) as nat;
        lemma_items_after_push(t, c, item, n, i);
        lemma_child_below(c, index_key(i));
        lemma_child_below(c, index_key(n));
        lemma_child_below(c, length_key());
        lemma_index_key_not_length(i);
        if index_key(i) == index_key(n) {
            lemma_index_key_injective(i, n);
        }
    }
}

/// After an item was appended, the list is read as the old list with the
/// item behind it.
pub proof fn lemma_read_after_push(t: Tree, c: Path, item: Datum)
    requires
        list_read(t, c) is Ok,
        list_pushed(t, c, item) is Ok,
    ensures
        list_read(list_pushed(t, c, item)->Ok_0, c) == Ok::<Seq<Datum>, StoreError>(
            list_read(t, c)->Ok_0.push(item),
        ),
{
    let n = list_length(t, c)->Ok_0 as nat;
    lemma_items_after_push(t, c, item, n, n);
    lemma_child_below(c, index_key(n));
    lemma_child_below(c, length_key());
    lemma_index_key_not_length(n);
}

/// Reads the length of the list in `container`.
pub fn load_length(container: &Container, store: &Store) -> (r: Result<u16, StoreError>)
    ensures
        r == list_length(store@, container@),
{
    if !store.has_container(container) {
        return Err(StoreError::NotFound);
    }
    proof {
        reveal_strlit("length");
    }
    match store.read_data(container, "length") {
        Ok(s) => s.collect_u16(),
        Err(e) => Err(e),
    }
}

/// Writes `list` as the list in `container`. What the container held before
/// is discarded.
pub fn write(list: &Vec<Scalar>, container: &Container, store: &mut Store) -> (r: Result<
    (),
    StoreError,
>)
    ensures
        match r {
            Ok(_) => list_write_error(old(store)@, container@, list@.len()) is None && final(
                store
            )@ == list_written(old(store)@, container@, data(list@)),
            Err(e) => list_write_error(old(store)@, container@, list@.len()) == Some(e) && final(
                store
            )@ == old(store)@,
        },
{
    if list.len() > 65535 {
        return Err(StoreError::TooLong);
    }
    match store.wipe(container) {
        Ok(_) => {},
        Err(e) => {
            return Err(e);
        },
    }
    let ghost start = emptied(old(store)@, container@);
    let ghost items = data(list@);
    let mut i: u16 = 0;
    while (i as usize) < list.len()
        invariant
            i <= list@.len() <= u16::MAX,
            items == data(list@),
            start == emptied(old(store)@, container@),
            is_dir(old(store)@, container@),
            store@ == with_items(start, container@, items, i as nat),
        decreases list@.len() - i,
    {
        let name = index_name(i);
        proof {
            lemma_child_below(container@, name@);
            lemma_with_items_outside(start, container@, items, i as nat, container@);
            if store@.contains_key(container@.push(name@)) && store@[container@.push(
                name@,
            )] is Dir {
                if exists|j: nat| j < i && container@.push(name@) == container@.push(
                    #[trigger] index_key(j),
                ) {
                    let j = choose|j: nat|
                        j < i && container@.push(name@) == container@.push(
                            #[trigger] index_key(j),
                        );
                    lemma_with_items_at(start, container@, items, i as nat, j);
                } else {
                    lemma_with_items_other(
                        start,
                        container@,
                        items,
                        i as nat,
                        container@.push(name@),
                    );
                }
            }
        }
        match store.write_data(container, name.as_str(), list[i as usize].duplicate()) {
            Ok(_) => {},
            Err(e) => {
                return Err(e);
            },
        }
        i = i + 1;
    }
    proof {
        reveal_strlit("length");
        lemma_child_below(container@, length_key());
        lemma_with_items_outside(start, container@, items, i as nat, container@);
        lemma_with_items_length(start, container@, items, i as nat);
    }
    match store.write_data(container, "length", Scalar::U16(i)) {
        Ok(_) => Ok(()),
        Err(e) => Err(e),
    }
}

/// Reads the list in `container`: its length, then its items in order.
pub fn read(container: &Container, store: &Store) -> (r: Result<Vec<Scalar>, StoreError>)
    ensures
        match r {
            Ok(v) => list_read(store@, container@) == Ok::<Seq<Datum>, StoreError>(data(v@)),
            Err(e) => list_read(store@, container@) == Err::<Seq<Datum>, StoreError>(e),
        },
{
    let length = match load_length(container, store) {
        Ok(n) => n,
        Err(e) => {
            return Err(e);
        },
    };
    let mut out: Vec<Scalar> = Vec::new();
    let mut i: u16 = 0;
    assert(data(out@) =~= Seq::<Datum>::empty());
    while i < length
        invariant
            i <= length,
            out@.len() == i,
            list_length(store@, container@) == Ok::<u16, StoreError>(length),
            list_items(store@, container@, i as nat) == Ok::<Seq<Datum>, StoreError>(data(out@)),
        decreases length - i,
    {
        let name = index_name(i);
        match store.read_data(container, name.as_str()) {
            Ok(s) => {
                let ghost before = data(out@);
                out.push(s.duplicate());
                assert(data(out@) =~= before.push(s@));
            },
            Err(e) => {
                proof {
                    assert(list_items(store@, container@, (i + 1) as nat) == Err::<
                        Seq<Datum>,
                        StoreError,
                    >(e));
                    lemma_items_error(store@, container@, (i + 1) as nat, length as nat);
                }
                return Err(e);
            },
        }
        i = i + 1;
    }
    Ok(out)
}

/// Once an item is absent, every longer reading of the list fails alike.
proof fn lemma_items_error(t: Tree, c: Path, n: nat, m: nat)
    requires
        n <= m,
        list_items(t, c, n) is Err,
    ensures
        list_items(t, c, m) == list_items(t, c, n),
    decreases m,
{
    if n < m {
        lemma_items_error(t, c, n, (m - 1) as nat);
    }
}

/// Appends `item` to the list in `container`.
pub fn push(item: Scalar, container: &Container, store: &mut Store) -> (r: Result<(), StoreError>)
    ensures
        match list_pushed(old(store)@, container@, item@) {
            Ok(t) => r is Ok && final(store)@ == t,
            Err(e) => r == Err::<(), StoreError>(e) && final(store)@ == old(store)@,
        },
{
    let length = match load_length(container, store) {
        Ok(n) => n,
        Err(e) => {
            return Err(e);
        },
    };
    if length == 65535 {
        return Err(StoreError::TooLong);
    }
    let name = index_name(length);
    match store.write_data(container, name.as_str(), item) {
        Ok(_) => {},
        Err(e) => {
            return Err(e);
        },
    }
    proof {
        reveal_strlit("length");
        lemma_index_key_not_length(length as nat);
        lemma_child_below(container@, length_key());
        lemma_child_below(container@, name@);
    }
    match store.write_data(container, "length", Scalar::U16(length + 1)) {
        Ok(_) => Ok(()),
        Err(e) => Err(e),
    }
}

/// Takes the last item off the list in `container`; `None` if the list is
/// empty.
pub fn pop(container: &Container, store: &mut Store) -> (r: Result<Option<Scalar>, StoreError>)
    ensures
        match list_popped(old(store)@, container@) {
            Ok((item, t)) => final(store)@ == t && match item {
                Some(d) => (r matches Ok(Some(s)) && s@ == d),
                None => (r matches Ok(None)),
            },
            Err(e) => (r matches Err(x) && x == e) && final(store)@ == old(store)@,
        },
{
    let length = match load_length(container, store) {
        Ok(n) => n,
        Err(e) => {
            return Err(e);
        },
    };
    if length == 0 {
        return Ok(None);
    }
    let name = index_name(length - 1);
    let item = match store.read_data(container, name.as_str()) {
        Ok(s) => s.duplicate(),
        Err(e) => {
            return Err(e);
        },
    };
    match store.remove(container, name.as_str()) {
        Ok(_) => {},
        Err(e) => {
            return Err(e);
        },
    }
    proof {
        reveal_strlit("length");
        lemma_index_key_not_length((length - 1) as nat);
        lemma_child_below(container@, length_key());
        lemma_child_below(container@, name@);
        let gone = container@.push(name@);
        assert(!under(container@.push(length_key()), gone)) by {
            if under(container@.push(length_key()), gone) {
                assert(container@.push(length_key()).take(gone.len() as int) =~= container@.push(
                    length_key(),
                ));
            }
        }
    }
    match store.write_data(container, "length", Scalar::U16(length - 1)) {
        Ok(_) => Ok(Some(item)),
        Err(e) => Err(e),
    }
}

/// A list read one item at a time.
pub struct List {
    pub container: Container,
    pub length: u16,
    pub idx: u16,
}

impl List {
    /// Makes the list in `container` empty and stands before its first item.
    pub fn init(container: Container, store: &mut Store) -> (r: Result<List, StoreError>)
        ensures
            match r {
                Ok(list) => write_error(old(store)@, container@, length_key()) is None && final(
                    store
                )@ == old(store)@.insert(
                    container@.push(length_key()),
                    Slot::Data(Datum::U16(0)),
                ) && list.container == container && list.length == 0 && list.idx == 0,
                Err(e) => write_error(old(store)@, container@, length_key()) == Some(e) && final(
                    store
                )@ == old(store)@,
            },
    {
        proof {
            reveal_strlit("length");
        }
        match store.write_data(&container, "length", Scalar::U16(0)) {
            Ok(_) => Ok(List { container, length: 0, idx: 0 }),
            Err(e) => Err(e),
        }
    }

    /// Opens the list in `container` and stands before its first item.
    pub fn load(container: Container, store: &Store) -> (r: Result<List, StoreError>)
        ensures
            match r {
                Ok(list) => list_length(store@, container@) == Ok::<u16, StoreError>(list.length)
                    && list.container == container && list.idx == 0,
                Err(e) => list_length(store@, container@) == Err::<u16, StoreError>(e),
            },
    {
        match load_length(&container, store) {
            Ok(length) => Ok(List { container, length, idx: 0 }),
            Err(e) => Err(e),
        }
    }

    /// The next item, or `None` when all items have been read.
    pub fn next(&mut self, store: &Store) -> (r: Result<Option<Scalar>, StoreError>)
        ensures
            final(self).container == old(self).container,
            final(self).length == old(self).length,
            old(self).idx >= old(self).length ==> (r matches Ok(None)) && final(self).idx == old(
                self
            ).idx,
            old(self).idx < old(self).length ==> match r {
                Ok(item) => (item matches Some(s) && datum_at(
                    store@,
                    old(self).container@,
                    index_key(old(self).idx as nat),
                ) == Ok::<Datum, StoreError>(s@)) && final(self).idx == old(self).idx + 1,
                Err(e) => datum_at(store@, old(self).container@, index_key(old(self).idx as nat))
                    == Err::<Datum, StoreError>(e) && final(self).idx == old(self).idx,
            },
    {
        if self.idx >= self.length {
            return Ok(None);
        }
        let name = index_name(self.idx);
        match store.read_data(&self.container, name.as_str()) {
            Ok(s) => {
                let item = s.duplicate();
                self.idx = self.idx + 1;
                Ok(Some(item))
            },
            Err(e) => Err(e),
        }
    }
}

} // verus!
