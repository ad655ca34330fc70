//! The order of the entries: the arrivals are merged into the list that is
//! kept in order of the entries' dates, oldest first. An entry goes behind
//! the last entry that is older than it, so before those of its own date.

use crate::archive::{entries_dir, lemma_top_keys, order_dir, sorted_dir, unsorted_dir};
use crate::field::{
    begin,
    date_at,
    lemma_then_list,
    lemma_then_list_other,
    lines,
    load_date,
    read_strings,
    strings_read,
    text_data,
    then_list,
    write_strings,
    Saved,
};
use crate::store::{
    below,
    lemma_siblings_apart,
    lemma_under_child,
    same_at,
    under,
    Container,
    Path,
    Store,
    StoreError,
    Tree,
};
use vstd::prelude::*;

verus! {

/// The number by which dates are ordered: year, month and day as the digits
/// of one number.
pub open spec fn date_key(d: (u16, u16, u16)) -> int {
    d.2 as int * 10000 + d.1 as int * 100 + d.0 as int
}

/// Whether the date `this` is later than the date `other`, both given as
/// day, month and year.
pub fn younger(this: &[u16; 3], other: &[u16; 3]) -> (r: bool)
    ensures
        r == (date_key((this[0], this[1], this[2])) > date_key((other[0], other[1], other[2]))),
{
    let this_date: u32 = this[2] as u32 * 10000 + this[1] as u32 * 100 + this[0] as u32;
    let other_date: u32 = other[2] as u32 * 10000 + other[1] as u32 * 100 + other[0] as u32;
    this_date > other_date
}

/// The number of the date of the entry `uid`.
pub open spec fn key_of(t: Tree, uid: Seq<char>) -> Result<int, StoreError> {
    match date_at(t, entries_dir().push(uid), "date"@) {
        Ok(d) => Ok(date_key(d)),
        Err(e) => Err(e),
    }
}

/// The number by which the entry `uid` is ordered: that of its date, or 0
/// where it has none.
pub open spec fn rank(t: Tree, uid: Seq<char>) -> int {
    match key_of(t, uid) {
        Ok(k) => k,
        Err(_) => 0,
    }
}

/// The list is in order of the entries' dates, oldest first.
pub open spec fn by_date(t: Tree, list: Seq<Seq<char>>) -> bool {
    forall|i: int, j: int| 0 <= i < j < list.len() ==> rank(t, list[i]) <= rank(t, list[j])
}

/// The list without every occurrence of `uid`.
pub open spec fn without(list: Seq<Seq<char>>, uid: Seq<char>) -> Seq<Seq<char>>
    decreases list.len(),
{
    if list.len() == 0 {
        list
    } else if list.last() == uid {
        without(list.drop_last(), uid)
    } else {
        without(list.drop_last(), uid).push(list.last())
    }
}

/// Where an entry of date number `k` goes among the first `n` of `list`:
/// behind the last of them that is older.
pub open spec fn slot(t: Tree, list: Seq<Seq<char>>, k: int, n: nat) -> Result<nat, StoreError>
    decreases n,
{
    if n == 0 {
        Ok(0)
    } else {
        match key_of(t, list[n - 1]) {
            Err(e) => Err(e),
            Ok(other) => if k > other {
                Ok(n)
            } else {
                slot(t, list, k, (n - 1) as nat)
            },
        }
    }
}

/// The list after the arrival of `uid`: an earlier occurrence is taken out,
/// then the uid is put in its place by date.
pub open spec fn placed(t: Tree, sorted: Seq<Seq<char>>, uid: Seq<char>) -> Result<
    Seq<Seq<char>>,
    StoreError,
> {
    match key_of(t, uid) {
        Err(e) => Err(e),
        Ok(k) => match slot(t, without(sorted, uid), k, without(sorted, uid).len()) {
            Err(e) => Err(e),
            Ok(i) => Ok(without(sorted, uid).insert(i as int, uid)),
        },
    }
}

/// The list after the first `n` of the arrivals, in the order in which they
/// arrived.
pub open spec fn merged(t: Tree, sorted: Seq<Seq<char>>, arrivals: Seq<Seq<char>>, n: nat) -> Result<
    Seq<Seq<char>>,
    StoreError,
>
    decreases n,
{
    if n == 0 {
        Ok(sorted)
    } else {
        match merged(t, sorted, arrivals, (n - 1) as nat) {
            Err(e) => Err(e),
            Ok(list) => placed(t, list, arrivals[n - 1]),
        }
    }
}

/// What a sort has to write: nothing where nothing has arrived, else the new
/// list in order.
pub open spec fn sort_plan(t: Tree) -> Result<Option<Seq<Seq<char>>>, StoreError> {
    match strings_read(t, unsorted_dir()) {
        Err(e) => Err(e),
        Ok(arrivals) => if arrivals.len() == 0 {
            Ok(None)
        } else {
            match strings_read(t, sorted_dir()) {
                Err(e) => Err(e),
                Ok(sorted) => match merged(t, sorted, arrivals, arrivals.len()) {
                    Err(e) => Err(e),
                    Ok(list) => Ok(Some(list)),
                },
            }
        },
    }
}

/// The writes of a sort: the new list in order, then the empty list of
/// arrivals.
pub open spec fn sort_run(t: Tree, list: Seq<Seq<char>>) -> Saved {
    then_list(
        then_list(begin(t), sorted_dir(), text_data(list)),
        unsorted_dir(),
        text_data(Seq::empty()),
    )
}

/// What a sort did.
#[derive(Debug, Clone, Copy, PartialEq, Eq)]
pub enum Sorted {
    /// Nothing had arrived: worth a notice.
    Nothing,
    /// The arrivals were merged into the list in order.
    Merged,
}

/// What is left of a list without `uid` are the other members, no more of
/// them than before.
pub proof fn lemma_without(list: Seq<Seq<char>>, uid: Seq<char>)
    ensures
        without(list, uid).len() <= list.len(),
        !without(list, uid).contains(uid),
        forall|x: Seq<char>|
            #[trigger] without(list, uid).contains(x) <==> list.contains(x) && x != uid,
    decreases list.len(),
{
    if list.len() > 0 {
        let head = list.drop_last();
        lemma_without(head, uid);
        let rest = without(list, uid);
        assert forall|x: Seq<char>| #[trigger] rest.contains(x) <==> list.contains(x) && x
            != uid by {
            if rest.contains(x) {
                let i = choose|i: int| 0 <= i < rest.len() && rest[i] == x;
                if list.last() != uid && i == rest.len() - 1 {
                    assert(list[list.len() - 1] == x);
                } else {
                    assert(without(head, uid)[i] == x);
                    assert(without(head, uid).contains(x));
                    let j = choose|j: int| 0 <= j < head.len() && head[j] == x;
                    assert(list[j] == x);
                }
            }
            if list.contains(x) && x != uid {
                let j = choose|j: int| 0 <= j < list.len() && list[j] == x;
                if j == list.len() - 1 {
                    assert(rest[rest.len() - 1] == x);
                } else {
                    assert(head[j] == x);
                    assert(without(head, uid).contains(x));
                    let i = choose|i: int|
                        0 <= i < without(head, uid).len() && without(head, uid)[i] == x;
                    assert(rest[i] == x);
                }
            }
        }
        if rest.contains(uid) {
            assert(false);
        }
    }
}

/// Taking a uid out of a list without duplicates leaves none.
pub proof fn lemma_without_unique(list: Seq<Seq<char>>, uid: Seq<char>)
    requires
        list.no_duplicates(),
    ensures
        without(list, uid).no_duplicates(),
    decreases list.len(),
{
    if list.len() > 0 {
        let head = list.drop_last();
        lemma_without_unique(head, uid);
        lemma_without(head, uid);
        if list.last() != uid {
            let rest = without(list, uid);
            let inner = without(head, uid);
            if inner.contains(list.last()) {
                let j = choose|j: int| 0 <= j < head.len() && head[j] == list.last();
                assert(list[j] == list[list.len() - 1]);
            }
            assert forall|i: int, j: int| 0 <= i < rest.len() && 0 <= j < rest.len() && i
                != j implies rest[i] != rest[j] by {
                if i == rest.len() - 1 {
                    assert(inner[j] == rest[j]);
                } else if j == rest.len() - 1 {
                    assert(inner[i] == rest[i]);
                }
            }
        }
    }
}

/// Taking a uid out of a list in order of date leaves it in order.
pub proof fn lemma_without_by_date(t: Tree, list: Seq<Seq<char>>, uid: Seq<char>)
    requires
        by_date(t, list),
    ensures
        by_date(t, without(list, uid)),
    decreases list.len(),
{
    if list.len() > 0 {
        let head = list.drop_last();
        assert(by_date(t, head)) by {
            assert forall|i: int, j: int| 0 <= i < j < head.len() implies rank(t, head[i]) <= rank(
                t,
                head[j],
            ) by {
                assert(rank(t, list[i]) <= rank(t, list[j]));
            }
        }
        lemma_without_by_date(t, head, uid);
        lemma_without(head, uid);
        if list.last() != uid {
            let rest = without(list, uid);
            let inner = without(head, uid);
            assert forall|i: int, j: int| 0 <= i < j < rest.len() implies rank(t, rest[i]) <= rank(
                t,
                rest[j],
            ) by {
                if j == rest.len() - 1 {
                    assert(inner.contains(inner[i]));
                    let a = choose|a: int| 0 <= a < head.len() && head[a] == inner[i];
                    assert(rank(t, list[a]) <= rank(t, list[list.len() - 1]));
                } else {
                    assert(rank(t, inner[i]) <= rank(t, inner[j]));
                }
            }
        }
    }
}

/// The place that is found lies within the list: the entry before it is
/// older, and none behind it is.
pub proof fn lemma_slot(t: Tree, list: Seq<Seq<char>>, k: int, n: nat)
    requires
        n <= list.len(),
        slot(t, list, k, n) is Ok,
    ensures
        slot(t, list, k, n)->Ok_0 <= n,
        slot(t, list, k, n)->Ok_0 > 0 ==> rank(t, list[slot(t, list, k, n)->Ok_0 - 1]) < k,
        forall|j: int| slot(t, list, k, n)->Ok_0 <= j < n ==> k <= rank(t, #[trigger] list[j]),
    decreases n,
{
    if n > 0 {
        let other = key_of(t, list[n - 1])->Ok_0;
        if k <= other {
            lemma_slot(t, list, k, (n - 1) as nat);
        }
    }
}

/// Putting a uid into a list has it there beside the others.
pub proof fn lemma_insert_contains(list: Seq<Seq<char>>, i: int, uid: Seq<char>)
    requires
        0 <= i <= list.len(),
    ensures
        forall|x: Seq<char>| #[trigger] list.insert(i, uid).contains(x) <==> list.contains(x) || x
            == uid,
{
    let next = list.insert(i, uid);
    list.insert_ensures(i, uid);
    assert forall|x: Seq<char>| #[trigger] next.contains(x) <==> list.contains(x) || x == uid by {
        if next.contains(x) {
            let a = choose|a: int| 0 <= a < next.len() && next[a] == x;
            if a < i {
                assert(list[a] == x);
            } else if a > i {
                assert(next[(a - 1) + 1] == list[a - 1]);
                assert(list[a - 1] == x);
            }
        }
        if list.contains(x) {
            let a = choose|a: int| 0 <= a < list.len() && list[a] == x;
            if a < i {
                assert(next[a] == x);
            } else {
                assert(next[a + 1] == x);
            }
        }
        if x == uid {
            assert(next[i] == x);
        }
    }
}

/// Putting a new uid into a list without duplicates leaves none.
pub proof fn lemma_insert_unique(list: Seq<Seq<char>>, i: int, uid: Seq<char>)
    requires
        0 <= i <= list.len(),
        list.no_duplicates(),
        !list.contains(uid),
    ensures
        list.insert(i, uid).no_duplicates(),
{
    let next = list.insert(i, uid);
    list.insert_ensures(i, uid);
    assert forall|a: int, b: int| 0 <= a < next.len() && 0 <= b < next.len() && a
        != b implies next[a] != next[b] by {
        let a0 = if a < i {
            a
        } else {
            a - 1
        };
        let b0 = if b < i {
            b
        } else {
            b - 1
        };
        if a != i {
            assert(next[a] == list[a0]) by {
                if a > i {
                    assert(next[a0 + 1] == list[a0]);
                }
            }
            assert(list.contains(list[a0]));
        }
        if b != i {
            assert(next[b] == list[b0]) by {
                if b > i {
                    assert(next[b0 + 1] == list[b0]);
                }
            }
            assert(list.contains(list[b0]));
        }
    }
}

/// The arrival of a uid leaves a list without duplicates as one, with the
/// uid in it beside the others.
pub proof fn lemma_placed_unique(t: Tree, sorted: Seq<Seq<char>>, uid: Seq<char>)
    requires
        sorted.no_duplicates(),
        placed(t, sorted, uid) is Ok,
    ensures
        placed(t, sorted, uid)->Ok_0.no_duplicates(),
        forall|x: Seq<char>| #[trigger]
            placed(t, sorted, uid)->Ok_0.contains(x) <==> sorted.contains(x) || x == uid,
{
    let rest = without(sorted, uid);
    let k = key_of(t, uid)->Ok_0;
    let i = slot(t, rest, k, rest.len())->Ok_0;
    lemma_without(sorted, uid);
    lemma_without_unique(sorted, uid);
    lemma_slot(t, rest, k, rest.len());
    lemma_insert_unique(rest, i as int, uid);
    lemma_insert_contains(rest, i as int, uid);
}

/// The arrival of a uid leaves a list in order of date in order.
pub proof fn lemma_placed_by_date(t: Tree, sorted: Seq<Seq<char>>, uid: Seq<char>)
    requires
        by_date(t, sorted),
        placed(t, sorted, uid) is Ok,
    ensures
        by_date(t, placed(t, sorted, uid)->Ok_0),
{
    let rest = without(sorted, uid);
    let k = key_of(t, uid)->Ok_0;
    let i = slot(t, rest, k, rest.len())->Ok_0 as int;
    let next = rest.insert(i, uid);
    lemma_without_by_date(t, sorted, uid);
    lemma_slot(t, rest, k, rest.len());
    rest.insert_ensures(i, uid);
    assert forall|a: int, b: int| 0 <= a < b < next.len() implies rank(t, next[a]) <= rank(
        t,
        next[b],
    ) by {
        if a < i {
            assert(next[a] == rest[a]);
            if i > 0 && a < i - 1 {
                assert(rank(t, rest[a]) <= rank(t, rest[i - 1]));
            }
        } else if a > i {
            assert(next[(a - 1) + 1] == rest[a - 1]);
        }
        if b < i {
            assert(next[b] == rest[b]);
            assert(rank(t, rest[a]) <= rank(t, rest[b]));
        } else if b > i {
            assert(next[(b - 1) + 1] == rest[b - 1]);
            assert(k <= rank(t, rest[b - 1]));
            if a > i {
                assert(rank(t, rest[a - 1]) <= rank(t, rest[b - 1]));
            }
        }
    }
}

/// Merging arrivals into a list without duplicates gives a list without
/// duplicates: every uid stands once in it, however often it arrived, and
/// the list holds the uids of the old list and those that arrived.
pub proof fn lemma_merged_unique(
    t: Tree,
    sorted: Seq<Seq<char>>,
    arrivals: Seq<Seq<char>>,
    n: nat,
)
    requires
        sorted.no_duplicates(),
        n <= arrivals.len(),
        merged(t, sorted, arrivals, n) is Ok,
    ensures
        merged(t, sorted, arrivals, n)->Ok_0.no_duplicates(),
        forall|x: Seq<char>| #[trigger]
            merged(t, sorted, arrivals, n)->Ok_0.contains(x) <==> sorted.contains(x)
                || arrivals.take(n as int).contains(x),
    decreases n,
{
    if n > 0 {
        let before = merged(t, sorted, arrivals, (n - 1) as nat)->Ok_0;
        let uid = arrivals[n - 1];
        lemma_merged_unique(t, sorted, arrivals, (n - 1) as nat);
        lemma_placed_unique(t, before, uid);
        let now = merged(t, sorted, arrivals, n)->Ok_0;
        let early = arrivals.take(n - 1);
        let all = arrivals.take(n as int);
        assert forall|x: Seq<char>| #[trigger] now.contains(x) <==> sorted.contains(x)
            || all.contains(x) by {
            if early.contains(x) {
                let a = choose|a: int| 0 <= a < early.len() && early[a] == x;
                assert(all[a] == x);
            }
            if all.contains(x) {
                let a = choose|a: int| 0 <= a < all.len() && all[a] == x;
                if a < n - 1 {
                    assert(early[a] == x);
                }
            }
            assert(all[n - 1] == uid);
        }
    } else {
        assert(arrivals.take(0).len() == 0);
    }
}

/// Merging arrivals into a list in order of date gives a list in order of
/// date.
pub proof fn lemma_merged_by_date(
    t: Tree,
    sorted: Seq<Seq<char>>,
    arrivals: Seq<Seq<char>>,
    n: nat,
)
    requires
        by_date(t, sorted),
        n <= arrivals.len(),
        merged(t, sorted, arrivals, n) is Ok,
    ensures
        by_date(t, merged(t, sorted, arrivals, n)->Ok_0),
    decreases n,
{
    if n > 0 {
        lemma_merged_by_date(t, sorted, arrivals, (n - 1) as nat);
        lemma_placed_by_date(
            t,
            merged(t, sorted, arrivals, (n - 1) as nat)->Ok_0,
            arrivals[n - 1],
        );
    }
}

/// Once an arrival cannot be placed, merging more of them fails alike.
pub proof fn lemma_merged_error(
    t: Tree,
    sorted: Seq<Seq<char>>,
    arrivals: Seq<Seq<char>>,
    n: nat,
    m: nat,
)
    requires
        n <= m,
        merged(t, sorted, arrivals, n) is Err,
    ensures
        merged(t, sorted, arrivals, m) == merged(t, sorted, arrivals, n),
    decreases m,
{
    if n < m {
        lemma_merged_error(t, sorted, arrivals, n, (m - 1) as nat);
    }
}

/// The date of the entry `uid`.
fn entry_date(store: &Store, entries: &Container, uid: &String) -> (r: Result<[u16; 3], StoreError>)
    requires
        entries@ == entries_dir(),
    ensures
        match r {
            Ok(d) => key_of(store@, uid@) == Ok::<int, StoreError>(date_key((d[0], d[1], d[2]))),
            Err(e) => key_of(store@, uid@) == Err::<int, StoreError>(e),
        },
{
    let container = entries.child(uid.as_str());
    load_date(store, &container, "date")
}

/// The list without every occurrence of `uid`.
pub fn remove_uid(list: Vec<String>, uid: &String) -> (r: Vec<String>)
    ensures
        lines(r@) == without(lines(list@), uid@),
{
    let mut out: Vec<String> = Vec::new();
    let mut list = list;
    let ghost all = lines(list@);
    let mut i: usize = 0;
    assert(lines(out@) =~= without(all.take(0), uid@));
    while i < list.len()
        invariant
            i <= list.len(),
            all == lines(list@),
            lines(out@) == without(all.take(i as int), uid@),
        decreases list.len() - i,
    {
        let ghost before = lines(out@);
        assert(all.take(i + 1).drop_last() =~= all.take(i as int));
        if list[i] != *uid {
            out.push(list[i].clone());
            assert(lines(out@) =~= before.push(all[i as int]));
        }
        i += 1;
    }
    assert(all.take(list@.len() as int) =~= all);
    out
}

/// Puts the arrival `uid` into the list in order.
pub fn place(store: &Store, sorted: Vec<String>, uid: String) -> (r: Result<
    Vec<String>,
    StoreError,
>)
    ensures
        match r {
            Ok(v) => placed(store@, lines(sorted@), uid@) == Ok::<Seq<Seq<char>>, StoreError>(
                lines(v@),
            ),
            Err(e) => placed(store@, lines(sorted@), uid@) == Err::<Seq<Seq<char>>, StoreError>(
                e,
            ),
        },
{
    let entries = Container::root().child("entries");
    let date = match entry_date(store, &entries, &uid) {
        Ok(d) => d,
        Err(e) => {
            return Err(e);
        },
    };
    let ghost whole = lines(sorted@);
    let mut rest = remove_uid(sorted, &uid);
    let ghost k = date_key((date[0], date[1], date[2]));
    let ghost list = lines(rest@);
    let mut i: usize = rest.len();
    let mut found = false;
    while i > 0 && !found
        invariant
            i <= rest.len(),
            entries@ == entries_dir(),
            list == lines(rest@),
            list == without(whole, uid@),
            whole == lines(sorted@),
            k == date_key((date[0], date[1], date[2])),
            key_of(store@, uid@) == Ok::<int, StoreError>(k),
            slot(store@, list, k, list.len()) == slot(store@, list, k, i as nat),
            found ==> slot(store@, list, k, i as nat) == Ok::<nat, StoreError>(i as nat),
        decreases i + (if found { 0int } else { 1int }),
    {
        assert(list[i - 1] == rest@[i - 1]@);
        let other = match entry_date(store, &entries, &rest[i - 1]) {
            Ok(d) => d,
            Err(e) => {
                return Err(e);
            },
        };
        if younger(&date, &other) {
            found = true;
        } else {
            i -= 1;
        }
    }
    let ghost before = lines(rest@);
    rest.insert(i, uid);
    assert(lines(rest@) =~= before.insert(i as int, uid@));
    Ok(rest)
}

/// The list of the entries in order of their dates.
pub fn read_sorted(store: &Store) -> (r: Result<Vec<String>, StoreError>)
    ensures
        match r {
            Ok(v) => strings_read(store@, sorted_dir()) == Ok::<Seq<Seq<char>>, StoreError>(
                lines(v@),
            ),
            Err(e) => strings_read(store@, sorted_dir()) == Err::<Seq<Seq<char>>, StoreError>(e),
        },
{
    let list = Container::root().child("order").child("sorted");
    read_strings(&list, store)
}

/// Merges the arrivals into the list in order and empties the list of
/// arrivals. Where nothing has arrived, nothing is written.
pub fn sort(store: &mut Store) -> (r: Result<Sorted, StoreError>)
    ensures
        match sort_plan(old(store)@) {
            Err(e) => r == Err::<Sorted, StoreError>(e) && final(store)@ == old(store)@,
            Ok(None) => r == Ok::<Sorted, StoreError>(Sorted::Nothing) && final(store)@ == old(
                store
            )@,
            Ok(Some(list)) => final(store)@ == sort_run(old(store)@, list).tree
                && match sort_run(old(store)@, list).error {
                Some(e) => r == Err::<Sorted, StoreError>(e),
                None => r == Ok::<Sorted, StoreError>(Sorted::Merged),
            },
        },
{
    let order = Container::root().child("order");
    let unsorted_list = order.child("unsorted");
    let sorted_list = order.child("sorted");
    let arrivals = match read_strings(&unsorted_list, store) {
        Ok(v) => v,
        Err(e) => {
            return Err(e);
        },
    };
    if arrivals.len() == 0 {
        return Ok(Sorted::Nothing);
    }
    let mut sorted = match read_strings(&sorted_list, store) {
        Ok(v) => v,
        Err(e) => {
            return Err(e);
        },
    };
    let ghost start = lines(sorted@);
    let mut i: usize = 0;
    while i < arrivals.len()
        invariant
            i <= arrivals.len(),
            arrivals.len() > 0,
            store@ == old(store)@,
            strings_read(store@, unsorted_dir()) == Ok::<Seq<Seq<char>>, StoreError>(
                lines(arrivals@),
            ),
            strings_read(store@, sorted_dir()) == Ok::<Seq<Seq<char>>, StoreError>(start),
            merged(store@, start, lines(arrivals@), i as nat) == Ok::<Seq<Seq<char>>, StoreError>(
                lines(sorted@),
            ),
        decreases arrivals.len() - i,
    {
        sorted = match place(store, sorted, arrivals[i].clone()) {
            Ok(v) => v,
            Err(e) => {
                proof {
                    lemma_merged_error(
                        store@,
                        start,
                        lines(arrivals@),
                        (i + 1) as nat,
                        arrivals@.len(),
                    );
                }
                return Err(e);
            },
        };
        i += 1;
    }
    match write_strings(&sorted, &sorted_list, store) {
        Ok(_) => {},
        Err(e) => {
            return Err(e);
        },
    }
    let nothing: Vec<String> = Vec::new();
    assert(lines(nothing@) =~= Seq::<Seq<char>>::empty());
    match write_strings(&nothing, &unsorted_list, store) {
        Ok(_) => Ok(Sorted::Merged),
        Err(e) => Err(e),
    }
}

/// What a sort leaves.
pub open spec fn sorted_tree(t: Tree) -> Saved {
    match sort_plan(t) {
        Err(e) => Saved { tree: t, error: Some(e) },
        Ok(None) => begin(t),
        Ok(Some(list)) => sort_run(t, list),
    }
}

/// Sorts the arrivals in.
pub fn sort_in(store: &mut Store) -> (r: Result<(), StoreError>)
    ensures
        sorted_tree(old(store)@) == (Saved { tree: final(store)@, error: r.err() }),
{
    match sort(store) {
        Ok(_) => Ok(()),
        Err(e) => Err(e),
    }
}

/// After a sort that merged the arrivals, the list in order is the merged
/// list and the list of arrivals is empty.
pub proof fn lemma_sort_lists(t: Tree, list: Seq<Seq<char>>)
    requires
        sort_run(t, list).error is None,
    ensures
        strings_read(sort_run(t, list).tree, sorted_dir()) == Ok::<Seq<Seq<char>>, StoreError>(
            list,
        ),
        strings_read(sort_run(t, list).tree, unsorted_dir()) == Ok::<
            Seq<Seq<char>>,
            StoreError,
        >(Seq::empty()),
{
    lemma_top_keys();
    let s1 = then_list(begin(t), sorted_dir(), text_data(list));
    let s2 = then_list(s1, unsorted_dir(), text_data(Seq::empty()));
    lemma_then_list(s1, unsorted_dir(), text_data(Seq::empty()));
    lemma_then_list(begin(t), sorted_dir(), text_data(list));
    assert forall|p: Path| #[trigger] under(p, sorted_dir()) implies same_at(s2.tree, s1.tree, p) by {
        lemma_siblings_apart(p, order_dir(), "sorted"@, "unsorted"@);
        lemma_then_list_other(s1, unsorted_dir(), text_data(Seq::empty()), p);
    }
    crate::list::lemma_list_read_local(s2.tree, s1.tree, sorted_dir());
    assert(crate::field::all_text(text_data(list)));
    assert(Seq::new(text_data(list).len(), |i: int| text_data(list)[i]->Text_0) =~= list);
    assert(Seq::new(
        text_data(Seq::empty()).len(),
        |i: int| text_data(Seq::empty())[i]->Text_0,
    ) =~= Seq::<Seq<char>>::empty());
}

/// A sort does not touch the entries: their dates are as they were.
pub proof fn lemma_sort_keeps_dates(t: Tree, list: Seq<Seq<char>>, uid: Seq<char>)
    requires
        sort_run(t, list).error is None,
    ensures
        key_of(sort_run(t, list).tree, uid) == key_of(t, uid),
{
    lemma_top_keys();
    let s1 = then_list(begin(t), sorted_dir(), text_data(list));
    let p = entries_dir().push(uid).push("date"@);
    assert(p[0] == "entries"@);
    if below(p, sorted_dir()) {
        lemma_under_child(p, order_dir(), "sorted"@);
        lemma_under_child(p, crate::archive::root(), "order"@);
    }
    if below(p, unsorted_dir()) {
        lemma_under_child(p, order_dir(), "unsorted"@);
        lemma_under_child(p, crate::archive::root(), "order"@);
    }
    lemma_then_list_other(s1, unsorted_dir(), text_data(Seq::empty()), p);
    lemma_then_list_other(begin(t), sorted_dir(), text_data(list), p);
}

/// What a sort keeps: where the list in order was in order of date and held
/// each uid once, it is and does so after the sort, with the arrivals in
/// it, and the list of arrivals is empty.
pub proof fn lemma_sort_keeps_order(t: Tree)
    requires
        sort_plan(t) is Ok,
        sort_plan(t)->Ok_0 is Some,
        sort_run(t, sort_plan(t)->Ok_0->0).error is None,
        strings_read(t, sorted_dir())->Ok_0.no_duplicates(),
        by_date(t, strings_read(t, sorted_dir())->Ok_0),
    ensures
        strings_read(sort_run(t, sort_plan(t)->Ok_0->0).tree, sorted_dir()) == Ok::<
            Seq<Seq<char>>,
            StoreError,
        >(sort_plan(t)->Ok_0->0),
        strings_read(sort_run(t, sort_plan(t)->Ok_0->0).tree, unsorted_dir()) == Ok::<
            Seq<Seq<char>>,
            StoreError,
        >(Seq::empty()),
        sort_plan(t)->Ok_0->0.no_duplicates(),
        by_date(sort_run(t, sort_plan(t)->Ok_0->0).tree, sort_plan(t)->Ok_0->0),
        forall|x: Seq<char>| #[trigger]
            sort_plan(t)->Ok_0->0.contains(x) <==> strings_read(t, sorted_dir())->Ok_0.contains(x)
                || strings_read(t, unsorted_dir())->Ok_0.contains(x),
{
    let list = sort_plan(t)->Ok_0->0;
    let sorted = strings_read(t, sorted_dir())->Ok_0;
    let arrivals = strings_read(t, unsorted_dir())->Ok_0;
    let after = sort_run(t, list).tree;
    lemma_sort_lists(t, list);
    lemma_merged_unique(t, sorted, arrivals, arrivals.len());
    lemma_merged_by_date(t, sorted, arrivals, arrivals.len());
    assert(arrivals.take(arrivals.len() as int) =~= arrivals);
    assert forall|i: int, j: int| 0 <= i < j < list.len() implies rank(after, list[i]) <= rank(
        after,
        list[j],
    ) by {
        lemma_sort_keeps_dates(t, list, list[i]);
        lemma_sort_keeps_dates(t, list, list[j]);
        assert(rank(t, list[i]) <= rank(t, list[j]));
    }
}

} // verus!
