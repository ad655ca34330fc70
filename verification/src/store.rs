//! The hierarchical store: containers that hold named scalars and named child
//! containers.
//!
//! A store is modelled as a map from paths to slots. A path is the sequence of
//! names that leads from the root to a container or to a scalar; the root is
//! the empty path and always exists.

use vstd::prelude::*;

verus! {

/// The names from the root down to a container or a scalar.
pub type Path = Seq<Seq<char>>;

/// What a store holds, as a mathematical map.
pub type Tree = Map<Path, Slot>;

/// Why a store operation did not succeed.
#[derive(Debug, Clone, Copy, PartialEq, Eq)]
pub enum StoreError {
    /// The scalar or container that was asked for does not exist.
    NotFound,
    /// The scalar exists but holds a value of another type.
    WrongType,
    /// The name is already taken by something of the other kind.
    Occupied,
    /// The list has more items than its length can count.
    TooLong,
}

/// A typed value stored under a key.
#[derive(Debug, PartialEq, Eq)]
pub enum Scalar {
    U8(u8),
    U16(u16),
    U64(u64),
    Text(String),
    U16Array(Vec<u16>),
}

/// The mathematical value of a [`Scalar`].
pub enum Datum {
    U8(u8),
    U16(u16),
    U64(u64),
    Text(Seq<char>),
    U16Array(Seq<u16>),
}

/// What stands at a path: a container, or a scalar.
pub enum Slot {
    Dir,
    Data(Datum),
}

impl View for Scalar {
    type V = Datum;

    open spec fn view(&self) -> Datum {
        match self {
            Scalar::U8(x) => Datum::U8(*x),
            Scalar::U16(x) => Datum::U16(*x),
            Scalar::U64(x) => Datum::U64(*x),
            Scalar::Text(s) => Datum::Text(s@),
            Scalar::U16Array(v) => Datum::U16Array(v@),
        }
    }
}

/// The names of a path held as strings.
pub open spec fn names(parts: Seq<String>) -> Path {
    Seq::new(parts.len(), |i: int| parts[i]@)
}

/// `p` lies in the subtree whose top is `top` (the top itself included).
pub open spec fn under(p: Path, top: Path) -> bool {
    top.len() <= p.len() && p.take(top.len() as int) =~= top
}

/// `p` lies strictly below `top`.
pub open spec fn below(p: Path, top: Path) -> bool {
    top.len() < p.len() && under(p, top)
}

/// What lies in the subtree of a child lies strictly below the parent, and
/// its path goes on with the child's name.
pub proof fn lemma_under_child(p: Path, c: Path, key: Seq<char>)
    requires
        under(p, c.push(key)),
    ensures
        below(p, c),
        p[c.len() as int] == key,
{
    let top = c.push(key);
    assert(p.take(c.len() as int) =~= p.take(top.len() as int).take(c.len() as int));
    assert(p.take(top.len() as int)[c.len() as int] == top[c.len() as int]);
}

/// What lies in a subtree lies in every subtree around it.
pub proof fn lemma_under_trans(p: Path, mid: Path, top: Path)
    requires
        under(p, mid),
        under(mid, top),
    ensures
        under(p, top),
{
    assert(p.take(top.len() as int) =~= p.take(mid.len() as int).take(top.len() as int));
}

/// Trees that hold the same in a subtree hold the same in every subtree of
/// it.
pub proof fn lemma_agree_within(a: Tree, b: Tree, top: Path, mid: Path)
    requires
        agree_under(a, b, top),
        under(mid, top),
    ensures
        agree_under(a, b, mid),
{
    assert forall|p: Path| #[trigger] under(p, mid) implies same_at(a, b, p) by {
        lemma_under_trans(p, mid, top);
    }
}

/// The subtrees of two children with different names share no path.
pub proof fn lemma_siblings_apart(p: Path, c: Path, a: Seq<char>, b: Seq<char>)
    requires
        a != b,
        under(p, c.push(a)),
    ensures
        !under(p, c.push(b)),
{
    lemma_under_child(p, c, a);
    if under(p, c.push(b)) {
        lemma_under_child(p, c, b);
    }
}

/// Two trees hold the same at `p`.
pub open spec fn same_at(a: Tree, b: Tree, p: Path) -> bool {
    a.contains_key(p) == b.contains_key(p) && (a.contains_key(p) ==> a[p] == b[p])
}

/// Two trees hold the same in the subtree at `top`.
pub open spec fn agree_under(a: Tree, b: Tree, top: Path) -> bool {
    forall|p: Path| #[trigger] under(p, top) ==> same_at(a, b, p)
}

/// A container exists at `c`. The root always exists.
pub open spec fn is_dir(t: Tree, c: Path) -> bool {
    c.len() == 0 || (t.contains_key(c) && t[c] is Dir)
}

/// A scalar exists at `p`.
pub open spec fn is_data(t: Tree, p: Path) -> bool {
    t.contains_key(p) && t[p] is Data
}

/// The tree without the subtree at `top`, the top included.
pub open spec fn pruned(t: Tree, top: Path) -> Tree {
    Map::new(|p: Path| t.contains_key(p) && !under(p, top), |p: Path| t[p])
}

/// The tree without everything strictly below `c`.
pub open spec fn emptied(t: Tree, c: Path) -> Tree {
    Map::new(|p: Path| t.contains_key(p) && !below(p, c), |p: Path| t[p])
}

/// The scalar under `key` in container `c`, if there is one.
pub open spec fn datum_at(t: Tree, c: Path, key: Seq<char>) -> Result<Datum, StoreError> {
    if is_data(t, c.push(key)) {
        Ok(t[c.push(key)]->Data_0)
    } else {
        Err(StoreError::NotFound)
    }
}

/// A scalar may be written under `key` in container `c`: the container exists
/// and the name is not that of a child container.
pub open spec fn write_error(t: Tree, c: Path, key: Seq<char>) -> Option<StoreError> {
    if !is_dir(t, c) {
        Some(StoreError::NotFound)
    } else if t.contains_key(c.push(key)) && t[c.push(key)] is Dir {
        Some(StoreError::Occupied)
    } else {
        None
    }
}

/// A child container may be made or opened under `name` in container `c`: the
/// container exists and the name is not that of a scalar.
pub open spec fn child_error(t: Tree, c: Path, name: Seq<char>) -> Option<StoreError> {
    if !is_dir(t, c) {
        Some(StoreError::NotFound)
    } else if is_data(t, c.push(name)) {
        Some(StoreError::Occupied)
    } else {
        None
    }
}

/// The keys of the scalars of `c`.
pub open spec fn child_data(t: Tree, c: Path) -> Set<Seq<char>> {
    Set::new(|name: Seq<char>| t.contains_key(c.push(name)) && t[c.push(name)] is Data)
}

/// The names of the child containers of `c`.
pub open spec fn child_dirs(t: Tree, c: Path) -> Set<Seq<char>> {
    Set::new(|name: Seq<char>| t.contains_key(c.push(name)) && t[c.push(name)] is Dir)
}

impl Scalar {
    /// A copy of the scalar.
    pub fn duplicate(&self) -> (r: Scalar)
        ensures
            r@ == self@,
    {
        match self {
            Scalar::U8(x) => Scalar::U8(*x),
            Scalar::U16(x) => Scalar::U16(*x),
            Scalar::U64(x) => Scalar::U64(*x),
            Scalar::Text(s) => Scalar::Text(s.clone()),
            Scalar::U16Array(v) => {
                let mut out: Vec<u16> = Vec::new();
                for i in 0..v.len()
                    invariant
                        out@ == v@.take(i as int),
                {
                    out.push(v[i]);
                    assert(v@.take(i + 1) =~= v@.take(i as int).push(v@[i as int]));
                }
                assert(v@.take(v@.len() as int) =~= v@);
                Scalar::U16Array(out)
            },
        }
    }

    /// The scalar read as an 8-bit number.
    pub fn collect_u8(&self) -> (r: Result<u8, StoreError>)
        ensures
            r == as_u8(self@),
    {
        match self {
            Scalar::U8(x) => Ok(*x),
            _ => Err(StoreError::WrongType),
        }
    }

    /// The scalar read as a 16-bit number.
    pub fn collect_u16(&self) -> (r: Result<u16, StoreError>)
        ensures
            r == as_u16(self@),
    {
        match self {
            Scalar::U16(x) => Ok(*x),
            _ => Err(StoreError::WrongType),
        }
    }

    /// The scalar read as a 64-bit number.
    pub fn collect_u64(&self) -> (r: Result<u64, StoreError>)
        ensures
            r == as_u64(self@),
    {
        match self {
            Scalar::U64(x) => Ok(*x),
            _ => Err(StoreError::WrongType),
        }
    }

    /// The scalar read as text.
    pub fn collect_string(&self) -> (r: Result<String, StoreError>)
        ensures
            match r {
                Ok(s) => as_text(self@) == Ok::<Seq<char>, StoreError>(s@),
                Err(e) => as_text(self@) == Err::<Seq<char>, StoreError>(e),
            },
    {
        match self {
            Scalar::Text(s) => Ok(s.clone()),
            _ => Err(StoreError::WrongType),
        }
    }

    /// The scalar read as an array of 16-bit numbers.
    pub fn collect_u16_array(&self) -> (r: Result<Vec<u16>, StoreError>)
        ensures
            match r {
                Ok(v) => as_u16_array(self@) == Ok::<Seq<u16>, StoreError>(v@),
                Err(e) => as_u16_array(self@) == Err::<Seq<u16>, StoreError>(e),
            },
    {
        match self.duplicate() {
            Scalar::U16Array(v) => Ok(v),
            _ => Err(StoreError::WrongType),
        }
    }
}

/// A datum read as an 8-bit number.
pub open spec fn as_u8(d: Datum) -> Result<u8, StoreError> {
    match d {
        Datum::U8(x) => Ok(x),
        _ => Err(StoreError::WrongType),
    }
}

/// A datum read as a 16-bit number.
pub open spec fn as_u16(d: Datum) -> Result<u16, StoreError> {
    match d {
        Datum::U16(x) => Ok(x),
        _ => Err(StoreError::WrongType),
    }
}

/// A datum read as a 64-bit number.
pub open spec fn as_u64(d: Datum) -> Result<u64, StoreError> {
    match d {
        Datum::U64(x) => Ok(x),
        _ => Err(StoreError::WrongType),
    }
}

/// A datum read as text.
pub open spec fn as_text(d: Datum) -> Result<Seq<char>, StoreError> {
    match d {
        Datum::Text(s) => Ok(s),
        _ => Err(StoreError::WrongType),
    }
}

/// A datum read as an array of 16-bit numbers.
pub open spec fn as_u16_array(d: Datum) -> Result<Seq<u16>, StoreError> {
    match d {
        Datum::U16Array(s) => Ok(s),
        _ => Err(StoreError::WrongType),
    }
}

/// A handle to a container: its path from the root.
#[derive(Debug, PartialEq, Eq)]
pub struct Container {
    pub path: Vec<String>,
}

impl View for Container {
    type V = Path;

    open spec fn view(&self) -> Path {
        names(self.path@)
    }
}

/// A copy of a list of strings.
pub fn copy_strings(list: &Vec<String>) -> (r: Vec<String>)
    ensures
        names(r@) == names(list@),
        r@.len() == list@.len(),
{
    let mut out: Vec<String> = Vec::new();
    for i in 0..list.len()
        invariant
            out@.len() == i,
            forall|j: int| 0 <= j < i ==> out@[j]@ == list@[j]@,
    {
        out.push(list[i].clone());
    }
    assert(names(out@) =~= names(list@));
    out
}

impl Container {
    /// The root container.
    pub fn root() -> (r: Container)
        ensures
            r@ == Seq::<Seq<char>>::empty(),
    {
        let r = Container { path: Vec::new() };
        assert(r@ =~= Seq::<Seq<char>>::empty());
        r
    }

    /// The handle of the child called `name`. Nothing is read or written.
    pub fn child(&self, name: &str) -> (r: Container)
        ensures
            r@ == self@.push(name@),
    {
        let mut path = copy_strings(&self.path);
        path.push(name.to_string());
        let r = Container { path };
        assert(r@ =~= self@.push(name@));
        r
    }

    /// A copy of the handle.
    pub fn duplicate(&self) -> (r: Container)
        ensures
            r@ == self@,
    {
        Container { path: copy_strings(&self.path) }
    }
}

/// Whether `parts` spells the path `parent` followed by `key`.
fn is_entry_of(parts: &Vec<String>, parent: &Vec<String>, key: &String) -> (r: bool)
    ensures
        r == (names(parts@) == names(parent@).push(key@)),
{
    let ghost want = names(parent@).push(key@);
    if parts.len() == 0 || parts.len() - 1 != parent.len() {
        assert(names(parts@).len() != want.len());
        return false;
    }
    let mut i: usize = 0;
    while i < parent.len()
        invariant
            parts.len() == parent.len() + 1,
            i <= parent.len(),
            want == names(parent@).push(key@),
            forall|j: int| 0 <= j < i ==> parts@[j]@ == parent@[j]@,
        decreases parent.len() - i,
    {
        if parts[i] != parent[i] {
            assert(names(parts@)[i as int] != want[i as int]);
            return false;
        }
        i += 1;
    }
    if parts[i] != *key {
        assert(names(parts@)[i as int] != want[i as int]);
        return false;
    }
    assert(names(parts@) =~= want);
    true
}

/// Whether `parts` spells the path `other`.
fn is_path(parts: &Vec<String>, other: &Vec<String>) -> (r: bool)
    ensures
        r == (names(parts@) == names(other@)),
{
    if parts.len() != other.len() {
        assert(names(parts@).len() != names(other@).len());
        return false;
    }
    let mut i: usize = 0;
    while i < other.len()
        invariant
            parts.len() == other.len(),
            i <= other.len(),
            forall|j: int| 0 <= j < i ==> parts@[j]@ == other@[j]@,
        decreases other.len() - i,
    {
        if parts[i] != other[i] {
            assert(names(parts@)[i as int] != names(other@)[i as int]);
            return false;
        }
        i += 1;
    }
    assert(names(parts@) =~= names(other@));
    true
}

/// Whether `parts` lies in the subtree at `top`.
fn is_under(parts: &Vec<String>, top: &Vec<String>) -> (r: bool)
    ensures
        r == under(names(parts@), names(top@)),
{
    if parts.len() < top.len() {
        return false;
    }
    let mut i: usize = 0;
    while i < top.len()
        invariant
            top.len() <= parts.len(),
            i <= top.len(),
            forall|j: int| 0 <= j < i ==> parts@[j]@ == top@[j]@,
        decreases top.len() - i,
    {
        if parts[i] != top[i] {
            assert(names(parts@).take(top.len() as int)[i as int] != names(top@)[i as int]);
            return false;
        }
        i += 1;
    }
    assert(names(parts@).take(top.len() as int) =~= names(top@));
    true
}

/// What a node of the store holds.
enum Content {
    Dir,
    Data(Scalar),
}

impl Content {
    spec fn slot(&self) -> Slot {
        match self {
            Content::Dir => Slot::Dir,
            Content::Data(s) => Slot::Data(s@),
        }
    }
}

/// One path of the store with what stands there.
struct Node {
    path: Vec<String>,
    content: Content,
}

spec fn holds(nodes: Seq<Node>, i: int, p: Path) -> bool {
    0 <= i < nodes.len() && names(nodes[i].path@) == p
}

spec fn tree_of(nodes: Seq<Node>) -> Tree {
    Map::new(
        |p: Path| exists|i: int| holds(nodes, i, p),
        |p: Path| nodes[choose|i: int| holds(nodes, i, p)].content.slot(),
    )
}

spec fn distinct(nodes: Seq<Node>) -> bool {
    forall|i: int, j: int|
        0 <= i < j < nodes.len() ==> names(#[trigger] nodes[i].path@) != names(
            #[trigger] nodes[j].path@,
        )
}

proof fn lemma_node(nodes: Seq<Node>, i: int)
    requires
        distinct(nodes),
        0 <= i < nodes.len(),
    ensures
        tree_of(nodes).contains_key(names(nodes[i].path@)),
        tree_of(nodes)[names(nodes[i].path@)] == nodes[i].content.slot(),
{
    let p = names(nodes[i].path@);
    assert(holds(nodes, i, p));
    let j = choose|j: int| holds(nodes, j, p);
    if j < i {
        assert(names(nodes[j].path@) != names(nodes[i].path@));
    } else if i < j {
        assert(names(nodes[i].path@) != names(nodes[j].path@));
    }
}

proof fn lemma_push(nodes: Seq<Node>, node: Node)
    requires
        distinct(nodes),
        !tree_of(nodes).contains_key(names(node.path@)),
    ensures
        distinct(nodes.push(node)),
        tree_of(nodes.push(node)) == tree_of(nodes).insert(names(node.path@), node.content.slot()),
{
    let next = nodes.push(node);
    assert forall|i: int, j: int| 0 <= i < j < next.len() implies names(
        #[trigger] next[i].path@,
    ) != names(#[trigger] next[j].path@) by {
        if j == nodes.len() {
            assert(holds(nodes, i, names(nodes[i].path@)));
        } else {
            assert(names(nodes[i].path@) != names(nodes[j].path@));
        }
    }
    let want = tree_of(nodes).insert(names(node.path@), node.content.slot());
    assert forall|p: Path| tree_of(next).contains_key(p) <==> want.contains_key(p) by {
        if tree_of(next).contains_key(p) {
            let i = choose|i: int| holds(next, i, p);
            if i < nodes.len() {
                assert(holds(nodes, i, p));
            }
        }
        if want.contains_key(p) {
            if p == names(node.path@) {
                assert(holds(next, nodes.len() as int, p));
            } else {
                let i = choose|i: int| holds(nodes, i, p);
                assert(holds(next, i, p));
            }
        }
    }
    assert forall|p: Path| tree_of(next).contains_key(p) implies tree_of(next)[p] == want[p] by {
        let i = choose|i: int| holds(next, i, p);
        lemma_node(next, i);
        if i < nodes.len() {
            assert(holds(nodes, i, p));
            lemma_node(nodes, i);
        }
    }
    assert(tree_of(next) =~= want);
}

proof fn lemma_update(nodes: Seq<Node>, i: int, node: Node)
    requires
        distinct(nodes),
        0 <= i < nodes.len(),
        names(node.path@) == names(nodes[i].path@),
    ensures
        distinct(nodes.update(i, node)),
        tree_of(nodes.update(i, node)) == tree_of(nodes).insert(
            names(node.path@),
            node.content.slot(),
        ),
{
    let next = nodes.update(i, node);
    assert forall|a: int, b: int| 0 <= a < b < next.len() implies names(
        #[trigger] next[a].path@,
    ) != names(#[trigger] next[b].path@) by {
        assert(names(nodes[a].path@) != names(nodes[b].path@));
    }
    let want = tree_of(nodes).insert(names(node.path@), node.content.slot());
    assert forall|p: Path| tree_of(next).contains_key(p) <==> want.contains_key(p) by {
        if tree_of(next).contains_key(p) {
            let j = choose|j: int| holds(next, j, p);
            assert(holds(nodes, j, p));
        }
        if want.contains_key(p) {
            if p == names(node.path@) {
                assert(holds(next, i, p));
            } else {
                let j = choose|j: int| holds(nodes, j, p);
                assert(holds(next, j, p));
            }
        }
    }
    assert forall|p: Path| tree_of(next).contains_key(p) implies tree_of(next)[p] == want[p] by {
        let j = choose|j: int| holds(next, j, p);
        lemma_node(next, j);
        if j != i {
            assert(holds(nodes, j, p));
            lemma_node(nodes, j);
        }
    }
    assert(tree_of(next) =~= want);
}

proof fn lemma_remove(nodes: Seq<Node>, i: int)
    requires
        distinct(nodes),
        0 <= i < nodes.len(),
    ensures
        distinct(nodes.remove(i)),
        tree_of(nodes.remove(i)) == tree_of(nodes).remove(names(nodes[i].path@)),
{
    let next = nodes.remove(i);
    assert forall|a: int, b: int| 0 <= a < b < next.len() implies names(
        #[trigger] next[a].path@,
    ) != names(#[trigger] next[b].path@) by {
        let a0 = if a < i { a } else { a + 1 };
        let b0 = if b < i { b } else { b + 1 };
        assert(names(nodes[a0].path@) != names(nodes[b0].path@));
    }
    let gone = names(nodes[i].path@);
    let want = tree_of(nodes).remove(gone);
    assert forall|p: Path| tree_of(next).contains_key(p) <==> want.contains_key(p) by {
        if tree_of(next).contains_key(p) {
            let j = choose|j: int| holds(next, j, p);
            let j0 = if j < i { j } else { j + 1 };
            assert(holds(nodes, j0, p));
            if j0 < i {
                assert(names(nodes[j0].path@) != names(nodes[i].path@));
            } else {
                assert(names(nodes[i].path@) != names(nodes[j0].path@));
            }
        }
        if want.contains_key(p) {
            let j = choose|j: int| holds(nodes, j, p);
            let j1 = if j < i { j } else { j - 1 };
            assert(holds(next, j1, p));
        }
    }
    assert forall|p: Path| tree_of(next).contains_key(p) implies tree_of(next)[p] == want[p] by {
        let j = choose|j: int| holds(next, j, p);
        lemma_node(next, j);
        let j0 = if j < i { j } else { j + 1 };
        assert(holds(nodes, j0, p));
        lemma_node(nodes, j0);
    }
    assert(tree_of(next) =~= want);
}

/// Where the entry `key` of container `parent` stands among the nodes.
fn locate(nodes: &Vec<Node>, parent: &Vec<String>, key: &str) -> (r: Option<usize>)
    ensures
        match r {
            Some(i) => holds(nodes@, i as int, names(parent@).push(key@)),
            None => !tree_of(nodes@).contains_key(names(parent@).push(key@)),
        },
{
    let name = key.to_string();
    let mut i: usize = 0;
    while i < nodes.len()
        invariant
            i <= nodes.len(),
            name@ == key@,
            forall|j: int| 0 <= j < i ==> !holds(nodes@, j, names(parent@).push(key@)),
        decreases nodes.len() - i,
    {
        if is_entry_of(&nodes[i].path, parent, &name) {
            return Some(i);
        }
        i += 1;
    }
    None
}

/// Where the path `path` stands among the nodes.
fn locate_path(nodes: &Vec<Node>, path: &Vec<String>) -> (r: Option<usize>)
    ensures
        match r {
            Some(i) => holds(nodes@, i as int, names(path@)),
            None => !tree_of(nodes@).contains_key(names(path@)),
        },
{
    let mut i: usize = 0;
    while i < nodes.len()
        invariant
            i <= nodes.len(),
            forall|j: int| 0 <= j < i ==> !holds(nodes@, j, names(path@)),
        decreases nodes.len() - i,
    {
        if is_path(&nodes[i].path, path) {
            return Some(i);
        }
        i += 1;
    }
    None
}

/// The nodes that must go when the subtree at `top` is removed; with
/// `keep_top` the node at `top` itself stays.
spec fn doomed(p: Path, top: Path, keep_top: bool) -> bool {
    if keep_top {
        below(p, top)
    } else {
        under(p, top)
    }
}

/// Removes every doomed node.
fn prune(nodes: &mut Vec<Node>, top: &Vec<String>, keep_top: bool)
    requires
        distinct(old(nodes)@),
    ensures
        distinct(final(nodes)@),
        tree_of(final(nodes)@) == if keep_top {
            emptied(tree_of(old(nodes)@), names(top@))
        } else {
            pruned(tree_of(old(nodes)@), names(top@))
        },
{
    let ghost before = tree_of(nodes@);
    let ghost t = names(top@);
    let mut i: usize = 0;
    while i < nodes.len()
        invariant
            i <= nodes.len(),
            distinct(nodes@),
            t == names(top@),
            forall|j: int| 0 <= j < i ==> !doomed(names(#[trigger] nodes@[j].path@), t, keep_top),
            forall|p: Path| #[trigger]
                tree_of(nodes@).contains_key(p) ==> before.contains_key(p) && before[p] == tree_of(
                    nodes@,
                )[p],
            forall|p: Path|
                before.contains_key(p) && !doomed(p, t, keep_top) ==> #[trigger] tree_of(
                    nodes@,
                ).contains_key(p),
        decreases nodes.len() - i,
    {
        let gone = is_under(&nodes[i].path, top) && !(keep_top && nodes[i].path.len()
            == top.len());
        if gone {
            proof {
                lemma_remove(nodes@, i as int);
            }
            nodes.remove(i);
        } else {
            i += 1;
        }
    }
    proof {
        let want = if keep_top {
            emptied(before, t)
        } else {
            pruned(before, t)
        };
        assert forall|p: Path| tree_of(nodes@).contains_key(p) implies want.contains_key(p) by {
            let j = choose|j: int| holds(nodes@, j, p);
            assert(names(nodes@[j].path@) == p);
        }
        assert(tree_of(nodes@) =~= want);
    }
}

/// The names of the child containers of `c` among the first `n` nodes, in
/// the order of the nodes.
spec fn order_of(nodes: Seq<Node>, c: Path, n: nat) -> Seq<Seq<char>>
    decreases n,
{
    if n == 0 {
        Seq::empty()
    } else if nodes[n - 1].content is Dir && nodes[n - 1].path@.len() == c.len() + 1 && under(
        names(nodes[n - 1].path@),
        c,
    ) {
        order_of(nodes, c, (n - 1) as nat).push(names(nodes[n - 1].path@).last())
    } else {
        order_of(nodes, c, (n - 1) as nat)
    }
}

/// The keys of the scalars of `c` among the first `n` nodes, in
/// the order of the nodes.
spec fn data_order_of(nodes: Seq<Node>, c: Path, n: nat) -> Seq<Seq<char>>
    decreases n,
{
    if n == 0 {
        Seq::empty()
    } else if nodes[n - 1].content is Data && nodes[n - 1].path@.len() == c.len() + 1 && under(
        names(nodes[n - 1].path@),
        c,
    ) {
        data_order_of(nodes, c, (n - 1) as nat).push(names(nodes[n - 1].path@).last())
    } else {
        data_order_of(nodes, c, (n - 1) as nat)
    }
}

/// The store: every container and scalar of one archive, by path.
pub struct Store {
    nodes: Vec<Node>,
}

impl View for Store {
    type V = Tree;

    closed spec fn view(&self) -> Tree {
        tree_of(self.nodes@)
    }
}

impl Store {
    #[verifier::type_invariant]
    spec fn well_formed(&self) -> bool {
        distinct(self.nodes@)
    }

    /// The names of the child containers of `c` in the order in which the
    /// store lists them.
    pub closed spec fn child_order(&self, c: Path) -> Seq<Seq<char>> {
        order_of(self.nodes@, c, self.nodes@.len())
    }

    /// The keys of the scalars of `c` in the order in which the store lists
    /// them.
    pub closed spec fn data_order(&self, c: Path) -> Seq<Seq<char>> {
        data_order_of(self.nodes@, c, self.nodes@.len())
    }

    /// An empty store: the root container with nothing in it.
    pub fn new() -> (r: Store)
        ensures
            r@ == Map::<Path, Slot>::empty(),
    {
        let r = Store { nodes: Vec::new() };
        assert(r@ =~= Map::<Path, Slot>::empty());
        r
    }

    /// Whether a container exists at `container`.
    pub fn has_container(&self, container: &Container) -> (r: bool)
        ensures
            r == is_dir(self@, container@),
    {
        proof {
            use_type_invariant(self);
        }
        if container.path.len() == 0 {
            return true;
        }
        match locate_path(&self.nodes, &container.path) {
            Some(i) => {
                proof {
                    lemma_node(self.nodes@, i as int);
                }
                match &self.nodes[i].content {
                    Content::Dir => true,
                    Content::Data(_) => false,
                }
            },
            None => false,
        }
    }

    /// Whether anything, container or scalar, stands under `key` in `container`.
    pub fn has_entry(&self, container: &Container, key: &str) -> (r: bool)
        ensures
            r == self@.contains_key(container@.push(key@)),
    {
        match locate(&self.nodes, &container.path, key) {
            Some(i) => {
                assert(holds(self.nodes@, i as int, container@.push(key@)));
                true
            },
            None => false,
        }
    }

    /// Reads the scalar under `key` in `container`.
    pub fn read_data(&self, container: &Container, key: &str) -> (r: Result<&Scalar, StoreError>)
        ensures
            match r {
                Ok(s) => datum_at(self@, container@, key@) == Ok::<Datum, StoreError>(s@),
                Err(e) => datum_at(self@, container@, key@) == Err::<Datum, StoreError>(e),
            },
    {
        proof {
            use_type_invariant(self);
        }
        match locate(&self.nodes, &container.path, key) {
            Some(i) => {
                proof {
                    lemma_node(self.nodes@, i as int);
                }
                match &self.nodes[i].content {
                    Content::Data(s) => Ok(s),
                    Content::Dir => Err(StoreError::NotFound),
                }
            },
            None => Err(StoreError::NotFound),
        }
    }

    /// Writes `value` under `key` in `container`, replacing a scalar that is
    /// already there.
    pub fn write_data(&mut self, container: &Container, key: &str, value: Scalar) -> (r: Result<
        (),
        StoreError,
    >)
        ensures
            match r {
                Ok(_) => write_error(old(self)@, container@, key@) is None && final(self)@ == old(
                    self
                )@.insert(container@.push(key@), Slot::Data(value@)),
                Err(e) => write_error(old(self)@, container@, key@) == Some(e) && final(self)@
                    == old(self)@,
            },
    {
        proof {
            use_type_invariant(&*self);
        }
        if !self.has_container(container) {
            return Err(StoreError::NotFound);
        }
        let found = locate(&self.nodes, &container.path, key);
        match found {
            Some(i) => {
                proof {
                    lemma_node(self.nodes@, i as int);
                }
                match &self.nodes[i].content {
                    Content::Dir => {
                        return Err(StoreError::Occupied);
                    },
                    Content::Data(_) => {},
                }
            },
            None => {},
        }
        let mut path = copy_strings(&container.path);
        path.push(key.to_string());
        assert(names(path@) =~= container@.push(key@));
        let node = Node { path, content: Content::Data(value) };
        let mut nodes: Vec<Node> = Vec::new();
        core::mem::swap(&mut self.nodes, &mut nodes);
        match found {
            Some(i) => {
                proof {
                    lemma_update(nodes@, i as int, node);
                }
                nodes[i] = node;
            },
            None => {
                proof {
                    lemma_push(nodes@, node);
                }
                nodes.push(node);
            },
        }
        core::mem::swap(&mut self.nodes, &mut nodes);
        Ok(())
    }

    /// Makes the child container `name` of `container` anew: what it held
    /// before is gone.
    pub fn new_container(&mut self, container: &Container, name: &str) -> (r: Result<
        Container,
        StoreError,
    >)
        ensures
            match r {
                Ok(c) => child_error(old(self)@, container@, name@) is None && c@
                    == container@.push(name@) && final(self)@ == pruned(old(self)@, c@).insert(
                    c@,
                    Slot::Dir,
                ),
                Err(e) => child_error(old(self)@, container@, name@) == Some(e) && final(self)@
                    == old(self)@,
            },
    {
        proof {
            use_type_invariant(&*self);
        }
        if !self.has_container(container) {
            return Err(StoreError::NotFound);
        }
        let child = container.child(name);
        match locate(&self.nodes, &container.path, name) {
            Some(i) => {
                proof {
                    lemma_node(self.nodes@, i as int);
                }
                match &self.nodes[i].content {
                    Content::Data(_) => {
                        return Err(StoreError::Occupied);
                    },
                    Content::Dir => {},
                }
            },
            None => {},
        }
        let mut nodes: Vec<Node> = Vec::new();
        core::mem::swap(&mut self.nodes, &mut nodes);
        prune(&mut nodes, &child.path, false);
        let node = Node { path: copy_strings(&child.path), content: Content::Dir };
        proof {
            assert(under(child@, child@));
            lemma_push(nodes@, node);
        }
        nodes.push(node);
        core::mem::swap(&mut self.nodes, &mut nodes);
        Ok(child)
    }

    /// Opens the child container `name` of `container`, making it if it does
    /// not exist yet.
    pub fn child_container(&mut self, container: &Container, name: &str) -> (r: Result<
        Container,
        StoreError,
    >)
        ensures
            match r {
                Ok(c) => child_error(old(self)@, container@, name@) is None && c@
                    == container@.push(name@) && final(self)@ == old(self)@.insert(c@, Slot::Dir),
                Err(e) => child_error(old(self)@, container@, name@) == Some(e) && final(self)@
                    == old(self)@,
            },
    {
        proof {
            use_type_invariant(&*self);
        }
        if !self.has_container(container) {
            return Err(StoreError::NotFound);
        }
        let child = container.child(name);
        match locate(&self.nodes, &container.path, name) {
            Some(i) => {
                proof {
                    lemma_node(self.nodes@, i as int);
                }
                match &self.nodes[i].content {
                    Content::Data(_) => Err(StoreError::Occupied),
                    Content::Dir => {
                        assert(self@ =~= self@.insert(child@, Slot::Dir));
                        Ok(child)
                    },
                }
            },
            None => {
                let node = Node { path: copy_strings(&child.path), content: Content::Dir };
                let mut nodes: Vec<Node> = Vec::new();
                core::mem::swap(&mut self.nodes, &mut nodes);
                proof {
                    lemma_push(nodes@, node);
                }
                nodes.push(node);
                core::mem::swap(&mut self.nodes, &mut nodes);
                Ok(child)
            },
        }
    }

    /// Opens the child container `name` of `container`, which must exist.
    pub fn read_container(&self, container: &Container, name: &str) -> (r: Result<
        Container,
        StoreError,
    >)
        ensures
            match r {
                Ok(c) => c@ == container@.push(name@) && self@.contains_key(c@) && self@[c@] is Dir,
                Err(e) => e == StoreError::NotFound && !(self@.contains_key(container@.push(name@))
                    && self@[container@.push(name@)] is Dir),
            },
    {
        proof {
            use_type_invariant(self);
        }
        match locate(&self.nodes, &container.path, name) {
            Some(i) => {
                proof {
                    lemma_node(self.nodes@, i as int);
                }
                match &self.nodes[i].content {
                    Content::Data(_) => Err(StoreError::NotFound),
                    Content::Dir => Ok(container.child(name)),
                }
            },
            None => Err(StoreError::NotFound),
        }
    }

    /// Removes the entry `key` of `container`: a scalar, or a child container
    /// with all that it holds.
    pub fn remove(&mut self, container: &Container, key: &str) -> (r: Result<(), StoreError>)
        ensures
            match r {
                Ok(_) => old(self)@.contains_key(container@.push(key@)) && final(self)@ == pruned(
                    old(self)@,
                    container@.push(key@),
                ),
                Err(e) => e == StoreError::NotFound && !old(self)@.contains_key(
                    container@.push(key@),
                ) && final(self)@ == old(self)@,
            },
    {
        proof {
            use_type_invariant(&*self);
        }
        match locate(&self.nodes, &container.path, key) {
            Some(i) => {
                assert(holds(self.nodes@, i as int, container@.push(key@)));
                let child = container.child(key);
                let mut nodes: Vec<Node> = Vec::new();
                core::mem::swap(&mut self.nodes, &mut nodes);
                prune(&mut nodes, &child.path, false);
                core::mem::swap(&mut self.nodes, &mut nodes);
                Ok(())
            },
            None => Err(StoreError::NotFound),
        }
    }

    /// Removes everything that `container` holds; the container itself stays.
    pub fn wipe(&mut self, container: &Container) -> (r: Result<(), StoreError>)
        ensures
            match r {
                Ok(_) => is_dir(old(self)@, container@) && final(self)@ == emptied(
                    old(self)@,
                    container@,
                ),
                Err(e) => e == StoreError::NotFound && !is_dir(old(self)@, container@) && final(
                    self
                )@ == old(self)@,
            },
    {
        proof {
            use_type_invariant(&*self);
        }
        if !self.has_container(container) {
            return Err(StoreError::NotFound);
        }
        let mut nodes: Vec<Node> = Vec::new();
        core::mem::swap(&mut self.nodes, &mut nodes);
        prune(&mut nodes, &container.path, true);
        core::mem::swap(&mut self.nodes, &mut nodes);
        Ok(())
    }

    /// The names of the child containers of `container`, each once.
    pub fn children(&self, container: &Container) -> (r: Vec<String>)
        ensures
            names(r@) == self.child_order(container@),
            names(r@).no_duplicates(),
            names(r@).to_set() == child_dirs(self@, container@),
    {
        proof {
            use_type_invariant(self);
        }
        let mut out: Vec<String> = Vec::new();
        let ghost mut origin: Seq<int> = Seq::empty();
        let want: usize = container.path.len();
        let mut i: usize = 0;
        assert(names(out@) =~= order_of(self.nodes@, container@, 0));
        while i < self.nodes.len()
            invariant
                i <= self.nodes.len(),
                want == container.path@.len(),
                distinct(self.nodes@),
                origin.len() == out@.len(),
                names(out@) == order_of(self.nodes@, container@, i as nat),
                forall|k: int|
                    0 <= k < out@.len() ==> 0 <= #[trigger] origin[k] < i
                        && self.nodes@[origin[k]].content is Dir && names(
                        self.nodes@[origin[k]].path@,
                    ) == container@.push(out@[k]@),
                forall|k: int, l: int|
                    0 <= k < l < out@.len() ==> #[trigger] origin[k] < #[trigger] origin[l],
                forall|j: int|
                    0 <= j < i && self.nodes@[j].content is Dir && under(
                        names(#[trigger] self.nodes@[j].path@),
                        container@,
                    ) && self.nodes@[j].path@.len() == want + 1 ==> exists|k: int|
                        0 <= k < out@.len() && origin[k] == j,
            decreases self.nodes.len() - i,
        {
            let node = &self.nodes[i];
            let is_child_dir = match &node.content {
                Content::Dir => node.path.len() > 0 && node.path.len() - 1 == want && is_under(
                    &node.path,
                    &container.path,
                ),
                Content::Data(_) => false,
            };
            if is_child_dir {
                let name = node.path[want].clone();
                proof {
                    assert(names(node.path@).take(want as int) =~= container@);
                    assert(names(node.path@) =~= container@.push(name@));
                    assert(names(out@.push(name)) =~= names(out@).push(name@));
                    let ghost before = origin;
                    origin = origin.push(i as int);
                    assert forall|j: int|
                        0 <= j < i + 1 && self.nodes@[j].content is Dir && under(
                            names(#[trigger] self.nodes@[j].path@),
                            container@,
                        ) && self.nodes@[j].path@.len() == want + 1 implies exists|k: int|
                        0 <= k < out@.len() + 1 && origin[k] == j by {
                        if j < i {
                            let k = choose|k: int| 0 <= k < out@.len() && before[k] == j;
                            assert(origin[k] == j);
                        } else {
                            assert(origin[out@.len() as int] == j);
                        }
                    }
                }
                out.push(name);
            }
            i += 1;
        }
        proof {
            let got = names(out@);
            assert forall|k: int, l: int|
                0 <= k < got.len() && 0 <= l < got.len() && k != l implies got[k] != got[l] by {
                if got[k] == got[l] {
                    let a = origin[k];
                    let b = origin[l];
                    if k < l {
                        assert(origin[k] < origin[l]);
                        assert(names(self.nodes@[a].path@) != names(self.nodes@[b].path@));
                    } else {
                        assert(origin[l] < origin[k]);
                        assert(names(self.nodes@[b].path@) != names(self.nodes@[a].path@));
                    }
                }
            }
            assert forall|name: Seq<char>|
                got.to_set().contains(name) <==> child_dirs(self@, container@).contains(name) by {
                if got.to_set().contains(name) {
                    let k = choose|k: int| 0 <= k < got.len() && got[k] == name;
                    lemma_node(self.nodes@, origin[k]);
                }
                if child_dirs(self@, container@).contains(name) {
                    let p = container@.push(name);
                    let j = choose|j: int| holds(self.nodes@, j, p);
                    lemma_node(self.nodes@, j);
                    assert(p.take(container@.len() as int) =~= container@);
                    let k = choose|k: int| 0 <= k < out@.len() && origin[k] == j;
                    assert(container@.push(out@[k]@) == p);
                    assert(container@.push(out@[k]@).last() == p.last());
                    assert(got[k] == name);
                }
            }
            assert(got.to_set() =~= child_dirs(self@, container@));
        }
        out
    }

    /// The keys of the scalars of `container`, each once.
    pub fn data_keys(&self, container: &Container) -> (r: Vec<String>)
        ensures
            names(r@) == self.data_order(container@),
            names(r@).no_duplicates(),
            names(r@).to_set() == child_data(self@, container@),
    {
        proof {
            use_type_invariant(self);
        }
        let mut out: Vec<String> = Vec::new();
        let ghost mut origin: Seq<int> = Seq::empty();
        let want: usize = container.path.len();
        let mut i: usize = 0;
        assert(names(out@) =~= data_order_of(self.nodes@, container@, 0));
        while i < self.nodes.len()
            invariant
                i <= self.nodes.len(),
                want == container.path@.len(),
                distinct(self.nodes@),
                origin.len() == out@.len(),
                names(out@) == data_order_of(self.nodes@, container@, i as nat),
                forall|k: int|
                    0 <= k < out@.len() ==> 0 <= #[trigger] origin[k] < i
                        && self.nodes@[origin[k]].content is Data && names(
                        self.nodes@[origin[k]].path@,
                    ) == container@.push(out@[k]@),
                forall|k: int, l: int|
                    0 <= k < l < out@.len() ==> #[trigger] origin[k] < #[trigger] origin[l],
                forall|j: int|
                    0 <= j < i && self.nodes@[j].content is Data && under(
                        names(#[trigger] self.nodes@[j].path@),
                        container@,
                    ) && self.nodes@[j].path@.len() == want + 1 ==> exists|k: int|
                        0 <= k < out@.len() && origin[k] == j,
            decreases self.nodes.len() - i,
        {
            let node = &self.nodes[i];
            let is_own_data = match &node.content {
                Content::Data(_) => node.path.len() > 0 && node.path.len() - 1 == want && is_under(
                    &node.path,
                    &container.path,
                ),
                Content::Dir => false,
            };
            if is_own_data {
                let name = node.path[want].clone();
                proof {
                    assert(names(node.path@).take(want as int) =~= container@);
                    assert(names(node.path@) =~= container@.push(name@));
                    assert(names(out@.push(name)) =~= names(out@).push(name@));
                    let ghost before = origin;
                    origin = origin.push(i as int);
                    assert forall|j: int|
                        0 <= j < i + 1 && self.nodes@[j].content is Data && under(
                            names(#[trigger] self.nodes@[j].path@),
                            container@,
                        ) && self.nodes@[j].path@.len() == want + 1 implies exists|k: int|
                        0 <= k < out@.len() + 1 && origin[k] == j by {
                        if j < i {
                            let k = choose|k: int| 0 <= k < out@.len() && before[k] == j;
                            assert(origin[k] == j);
                        } else {
                            assert(origin[out@.len() as int] == j);
                        }
                    }
                }
                out.push(name);
            }
            i += 1;
        }
        proof {
            let got = names(out@);
            assert forall|k: int, l: int|
                0 <= k < got.len() && 0 <= l < got.len() && k != l implies got[k] != got[l] by {
                if got[k] == got[l] {
                    let a = origin[k];
                    let b = origin[l];
                    if k < l {
                        assert(origin[k] < origin[l]);
                        assert(names(self.nodes@[a].path@) != names(self.nodes@[b].path@));
                    } else {
                        assert(origin[l] < origin[k]);
                        assert(names(self.nodes@[b].path@) != names(self.nodes@[a].path@));
                    }
                }
            }
            assert forall|name: Seq<char>|
                got.to_set().contains(name) <==> child_data(self@, container@).contains(name) by {
                if got.to_set().contains(name) {
                    let k = choose|k: int| 0 <= k < got.len() && got[k] == name;
                    lemma_node(self.nodes@, origin[k]);
                }
                if child_data(self@, container@).contains(name) {
                    let p = container@.push(name);
                    let j = choose|j: int| holds(self.nodes@, j, p);
                    lemma_node(self.nodes@, j);
                    assert(p.take(container@.len() as int) =~= container@);
                    let k = choose|k: int| 0 <= k < out@.len() && origin[k] == j;
                    assert(container@.push(out@[k]@) == p);
                    assert(container@.push(out@[k]@).last() == p.last());
                    assert(got[k] == name);
                }
            }
            assert(got.to_set() =~= child_data(self@, container@));
        }
        out
    }

    /// A copy of the whole store.
    pub fn snapshot(&self) -> (r: Store)
        ensures
            r@ == self@,
    {
        proof {
            use_type_invariant(self);
        }
        let mut nodes: Vec<Node> = Vec::new();
        let mut i: usize = 0;
        while i < self.nodes.len()
            invariant
                i <= self.nodes.len(),
                nodes@.len() == i,
                forall|j: int|
                    0 <= j < i ==> names(#[trigger] nodes@[j].path@) == names(self.nodes@[j].path@)
                        && nodes@[j].content.slot() == self.nodes@[j].content.slot(),
            decreases self.nodes.len() - i,
        {
            let content = match &self.nodes[i].content {
                Content::Dir => Content::Dir,
                Content::Data(s) => Content::Data(s.duplicate()),
            };
            let node = Node { path: copy_strings(&self.nodes[i].path), content };
            assert(node.content.slot() == self.nodes@[i as int].content.slot());
            nodes.push(node);
            i += 1;
        }
        proof {
            assert forall|a: int, b: int| 0 <= a < b < nodes@.len() implies names(
                #[trigger] nodes@[a].path@,
            ) != names(#[trigger] nodes@[b].path@) by {
                assert(names(self.nodes@[a].path@) != names(self.nodes@[b].path@));
            }
            assert forall|p: Path| tree_of(nodes@).contains_key(p) <==> self@.contains_key(p) by {
                if tree_of(nodes@).contains_key(p) {
                    let j = choose|j: int| holds(nodes@, j, p);
                    assert(holds(self.nodes@, j, p));
                }
                if self@.contains_key(p) {
                    let j = choose|j: int| holds(self.nodes@, j, p);
                    assert(holds(nodes@, j, p));
                }
            }
            assert forall|p: Path| tree_of(nodes@).contains_key(p) implies tree_of(nodes@)[p]
                == self@[p] by {
                let j = choose|j: int| holds(nodes@, j, p);
                lemma_node(nodes@, j);
                assert(holds(self.nodes@, j, p));
                lemma_node(self.nodes@, j);
            }
            assert(tree_of(nodes@) =~= self@);
        }
        Store { nodes }
    }
}

} // verus!
