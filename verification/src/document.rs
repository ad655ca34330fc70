//! The input of a commit: a parsed document of tables, arrays and values, the
//! checks that pick typed fields out of it, and the files that it refers to.

use crate::store::StoreError;
use vstd::prelude::*;

verus! {

/// A calendar date as a document writes it.
#[derive(Debug, Clone, Copy, PartialEq, Eq)]
pub struct Date {
    pub year: u16,
    pub month: u8,
    pub day: u8,
}

/// One value of a document.
#[derive(Debug, PartialEq)]
pub enum Item {
    Text(String),
    Integer(i64),
    /// A floating-point number; its value is not kept.
    Float,
    Bool(bool),
    /// A date-time; only its date, if it has one, is kept.
    Datetime(Option<Date>),
    Array(Vec<Item>),
    /// A table: its keys with their values, each key once.
    Table(Vec<(String, Item)>),
}

/// What is wrong with a field of the input.
#[derive(Debug, Clone, Copy, PartialEq, Eq)]
pub enum Problem {
    /// The field is not there.
    Missing,
    /// The field, or one of its elements, has a value of another shape.
    Mistyped,
    /// The field is a time of day without a date.
    NoDate,
    /// The field names a file that does not exist.
    NoFile,
    /// The field has more elements than a list can hold.
    TooMany,
}

/// The fields that the input of a commit may hold.
#[derive(Debug, Clone, Copy, PartialEq, Eq)]
pub enum Field {
    IsMoc,
    Entry,
    Moc,
    Uid,
    Title,
    Description,
    Notes,
    Tags,
    Groups,
    Date,
    Section,
    Collection,
    Path,
    Contents,
    Include,
}

/// The shape that a field must have.
#[derive(Debug, Clone, Copy, PartialEq, Eq)]
pub enum Shape {
    Bool,
    Text,
    Date,
    Table,
    TextArray,
    TableArray,
    /// The path of a file that exists.
    File,
}

/// A validation error: which field of which entity is wrong, and how.
#[derive(Debug, PartialEq, Eq)]
pub struct Invalid {
    /// The path of the input that describes the entity.
    pub entity: String,
    /// The index of the section or collection, where the field belongs to one.
    pub part: Option<u16>,
    pub field: Field,
    pub problem: Problem,
}

/// Why an entity could not be made from its input.
#[derive(Debug, PartialEq, Eq)]
pub enum Fault {
    /// The input is not valid; nothing was written.
    Invalid(Invalid),
    /// The store refused a write.
    Store(StoreError),
}

/// The text of a slot that may hold a string.
pub open spec fn text_of(slot: Option<String>) -> Option<Seq<char>> {
    match slot {
        Some(s) => Some(s@),
        None => None,
    }
}

/// The texts of a slot that may hold a list of strings.
pub open spec fn texts_in(slot: Option<Vec<String>>) -> Option<Seq<Seq<char>>> {
    match slot {
        Some(v) => Some(Seq::new(v@.len(), |i: int| v@[i]@)),
        None => None,
    }
}

/// The shape that `field` must have.
pub open spec fn shape_of(field: Field) -> Shape {
    match field {
        Field::IsMoc => Shape::Bool,
        Field::Entry | Field::Moc => Shape::Table,
        Field::Uid | Field::Title | Field::Description | Field::Contents => Shape::Text,
        Field::Notes | Field::Tags | Field::Groups | Field::Include => Shape::TextArray,
        Field::Date => Shape::Date,
        Field::Section | Field::Collection => Shape::TableArray,
        Field::Path => Shape::File,
    }
}

impl Invalid {
    /// The shape that the field was expected to have.
    pub fn expected(&self) -> (r: Shape)
        ensures
            r == shape_of(self.field),
    {
        match self.field {
            Field::IsMoc => Shape::Bool,
            Field::Entry | Field::Moc => Shape::Table,
            Field::Uid | Field::Title | Field::Description | Field::Contents => Shape::Text,
            Field::Notes | Field::Tags | Field::Groups | Field::Include => Shape::TextArray,
            Field::Date => Shape::Date,
            Field::Section | Field::Collection => Shape::TableArray,
            Field::Path => Shape::File,
        }
    }
}

/// The mathematical value of a validation error.
pub ghost struct Flaw {
    pub entity: Seq<char>,
    pub part: Option<u16>,
    pub field: Field,
    pub problem: Problem,
}

impl View for Invalid {
    type V = Flaw;

    open spec fn view(&self) -> Flaw {
        Flaw { entity: self.entity@, part: self.part, field: self.field, problem: self.problem }
    }
}

/// A flaw of a field of the entity itself.
pub open spec fn top(entity: Seq<char>, field: Field, problem: Problem) -> Flaw {
    Flaw { entity, part: None, field, problem }
}

/// The error for `field` of the entity described at `entity`.
pub fn invalid(entity: &str, part: Option<u16>, field: Field, problem: Problem) -> (r: Invalid)
    ensures
        r@ == (Flaw { entity: entity@, part, field, problem }),
{
    Invalid { entity: entity.to_string(), part, field, problem }
}

/// The value under `key` in a table: that of the first pair with this key.
pub open spec fn lookup(pairs: Seq<(String, Item)>, key: Seq<char>) -> Option<Item>
    decreases pairs.len(),
{
    if pairs.len() == 0 {
        None
    } else if pairs[0].0@ == key {
        Some(pairs[0].1)
    } else {
        lookup(pairs.skip(1), key)
    }
}

/// The text under `key`.
pub open spec fn want_text(pairs: Seq<(String, Item)>, key: Seq<char>) -> Result<
    Seq<char>,
    Problem,
> {
    match lookup(pairs, key) {
        None => Err(Problem::Missing),
        Some(Item::Text(s)) => Ok(s@),
        Some(_) => Err(Problem::Mistyped),
    }
}

/// The truth value under `key`.
pub open spec fn want_bool(pairs: Seq<(String, Item)>, key: Seq<char>) -> Result<bool, Problem> {
    match lookup(pairs, key) {
        None => Err(Problem::Missing),
        Some(Item::Bool(b)) => Ok(b),
        Some(_) => Err(Problem::Mistyped),
    }
}

/// The array under `key`.
pub open spec fn want_array(pairs: Seq<(String, Item)>, key: Seq<char>) -> Result<
    Seq<Item>,
    Problem,
> {
    match lookup(pairs, key) {
        None => Err(Problem::Missing),
        Some(Item::Array(v)) => Ok(v@),
        Some(_) => Err(Problem::Mistyped),
    }
}

/// The table under `key`.
pub open spec fn want_table(pairs: Seq<(String, Item)>, key: Seq<char>) -> Result<
    Seq<(String, Item)>,
    Problem,
> {
    match lookup(pairs, key) {
        None => Err(Problem::Missing),
        Some(Item::Table(v)) => Ok(v@),
        Some(_) => Err(Problem::Mistyped),
    }
}

/// The date under `key`, as day, month and year.
pub open spec fn want_date(pairs: Seq<(String, Item)>, key: Seq<char>) -> Result<
    (u16, u16, u16),
    Problem,
> {
    match lookup(pairs, key) {
        None => Err(Problem::Missing),
        Some(Item::Datetime(Some(d))) => Ok((d.day as u16, d.month as u16, d.year)),
        Some(Item::Datetime(None)) => Err(Problem::NoDate),
        Some(_) => Err(Problem::Mistyped),
    }
}

/// Every item is a text.
pub open spec fn all_texts(items: Seq<Item>) -> bool {
    forall|i: int| 0 <= i < items.len() ==> #[trigger] items[i] is Text
}

/// The texts of an array of texts.
pub open spec fn texts_of(items: Seq<Item>) -> Seq<Seq<char>> {
    Seq::new(items.len(), |i: int| items[i]->Text_0@)
}

/// An array read as a list of strings that a list of the store can hold.
pub open spec fn want_strings(items: Seq<Item>) -> Result<Seq<Seq<char>>, Problem> {
    if !all_texts(items) {
        Err(Problem::Mistyped)
    } else if items.len() > u16::MAX {
        Err(Problem::TooMany)
    } else {
        Ok(texts_of(items))
    }
}

/// Looks `key` up in a table.
pub fn find<'a>(pairs: &'a Vec<(String, Item)>, key: &str) -> (r: Option<&'a Item>)
    ensures
        match r {
            Some(x) => lookup(pairs@, key@) == Some(*x),
            None => lookup(pairs@, key@) is None,
        },
{
    let name = key.to_string();
    let mut i: usize = 0;
    assert(pairs@.skip(0) =~= pairs@);
    while i < pairs.len()
        invariant
            i <= pairs.len(),
            name@ == key@,
            lookup(pairs@, key@) == lookup(pairs@.skip(i as int), key@),
        decreases pairs.len() - i,
    {
        if pairs[i].0 == name {
            return Some(&pairs[i].1);
        }
        assert(pairs@.skip(i as int).skip(1) =~= pairs@.skip(i + 1));
        i += 1;
    }
    None
}

/// The text under `key` in a table.
pub fn get_text(pairs: &Vec<(String, Item)>, key: &str) -> (r: Result<String, Problem>)
    ensures
        match r {
            Ok(s) => want_text(pairs@, key@) == Ok::<Seq<char>, Problem>(s@),
            Err(e) => want_text(pairs@, key@) == Err::<Seq<char>, Problem>(e),
        },
{
    match find(pairs, key) {
        None => Err(Problem::Missing),
        Some(Item::Text(s)) => Ok(s.clone()),
        Some(_) => Err(Problem::Mistyped),
    }
}

/// The truth value under `key` in a table.
pub fn get_bool(pairs: &Vec<(String, Item)>, key: &str) -> (r: Result<bool, Problem>)
    ensures
        r == want_bool(pairs@, key@),
{
    match find(pairs, key) {
        None => Err(Problem::Missing),
        Some(Item::Bool(b)) => Ok(*b),
        Some(_) => Err(Problem::Mistyped),
    }
}

/// The array under `key` in a table.
pub fn get_array<'a>(pairs: &'a Vec<(String, Item)>, key: &str) -> (r: Result<
    &'a Vec<Item>,
    Problem,
>)
    ensures
        match r {
            Ok(v) => want_array(pairs@, key@) == Ok::<Seq<Item>, Problem>(v@),
            Err(e) => want_array(pairs@, key@) == Err::<Seq<Item>, Problem>(e),
        },
{
    match find(pairs, key) {
        None => Err(Problem::Missing),
        Some(Item::Array(v)) => Ok(v),
        Some(_) => Err(Problem::Mistyped),
    }
}

/// The table under `key` in a table.
pub fn get_table<'a>(pairs: &'a Vec<(String, Item)>, key: &str) -> (r: Result<
    &'a Vec<(String, Item)>,
    Problem,
>)
    ensures
        match r {
            Ok(v) => want_table(pairs@, key@) == Ok::<Seq<(String, Item)>, Problem>(v@),
            Err(e) => want_table(pairs@, key@) == Err::<Seq<(String, Item)>, Problem>(e),
        },
{
    match find(pairs, key) {
        None => Err(Problem::Missing),
        Some(Item::Table(v)) => Ok(v),
        Some(_) => Err(Problem::Mistyped),
    }
}

/// The date under `key` in a table, as day, month and year.
pub fn get_date(pairs: &Vec<(String, Item)>, key: &str) -> (r: Result<[u16; 3], Problem>)
    ensures
        match r {
            Ok(d) => want_date(pairs@, key@) == Ok::<(u16, u16, u16), Problem>((d[0], d[1], d[2])),
            Err(e) => want_date(pairs@, key@) == Err::<(u16, u16, u16), Problem>(e),
        },
{
    match find(pairs, key) {
        None => Err(Problem::Missing),
        Some(Item::Datetime(Some(d))) => {
            let day: u16 = d.day as u16;
            let month: u16 = d.month as u16;
            Ok([day, month, d.year])
        },
        Some(Item::Datetime(None)) => Err(Problem::NoDate),
        Some(_) => Err(Problem::Mistyped),
    }
}

/// An array read as a list of strings.
pub fn get_strings(items: &Vec<Item>) -> (r: Result<Vec<String>, Problem>)
    ensures
        match r {
            Ok(v) => want_strings(items@) == Ok::<Seq<Seq<char>>, Problem>(
                Seq::new(v@.len(), |i: int| v@[i]@),
            ),
            Err(e) => want_strings(items@) == Err::<Seq<Seq<char>>, Problem>(e),
        },
{
    let mut out: Vec<String> = Vec::new();
    let mut i: usize = 0;
    while i < items.len()
        invariant
            i <= items.len(),
            out@.len() == i,
            forall|j: int| 0 <= j < i ==> #[trigger] items@[j] is Text && items@[j]->Text_0@
                == out@[j]@,
        decreases items.len() - i,
    {
        match &items[i] {
            Item::Text(s) => {
                out.push(s.clone());
            },
            _ => {
                assert(!(items@[i as int] is Text));
                return Err(Problem::Mistyped);
            },
        }
        i += 1;
    }
    if items.len() > 65535 {
        return Err(Problem::TooMany);
    }
    assert(texts_of(items@) =~= Seq::new(out@.len(), |i: int| out@[i]@));
    Ok(out)
}

/// The files that a document may refer to: paths with what the files hold.
/// A path that is not listed names no file.
pub struct Files {
    pub listed: Vec<(String, String)>,
}

/// What the file at `path` holds: the first listing of the path counts.
pub open spec fn file_text(listed: Seq<(String, String)>, path: Seq<char>) -> Option<Seq<char>>
    decreases listed.len(),
{
    if listed.len() == 0 {
        None
    } else if listed[0].0@ == path {
        Some(listed[0].1@)
    } else {
        file_text(listed.skip(1), path)
    }
}

impl Files {
    /// No files at all.
    pub fn none() -> (r: Files)
        ensures
            r.listed@.len() == 0,
    {
        Files { listed: Vec::new() }
    }

    /// What the file at `path` holds, if it exists.
    pub fn read(&self, path: &String) -> (r: Option<String>)
        ensures
            match r {
                Some(s) => file_text(self.listed@, path@) == Some(s@),
                None => file_text(self.listed@, path@) is None,
            },
    {
        let mut i: usize = 0;
        assert(self.listed@.skip(0) =~= self.listed@);
        while i < self.listed.len()
            invariant
                i <= self.listed.len(),
                file_text(self.listed@, path@) == file_text(self.listed@.skip(i as int), path@),
            decreases self.listed.len() - i,
        {
            if self.listed[i].0 == *path {
                return Some(self.listed[i].1.clone());
            }
            assert(self.listed@.skip(i as int).skip(1) =~= self.listed@.skip(i + 1));
            i += 1;
        }
        None
    }
}

/// The item is the text `s`.
pub open spec fn is_text(item: Item, s: Seq<char>) -> bool {
    item matches Item::Text(x) && x@ == s
}

/// The item is the array of the texts `list`.
pub open spec fn is_texts(item: Item, list: Seq<Seq<char>>) -> bool {
    item matches Item::Array(v) && v@.len() == list.len() && forall|i: int|
        0 <= i < list.len() ==> is_text(#[trigger] v@[i], list[i])
}

/// The pair gives `key` the text `s`.
pub open spec fn gives_text(pair: (String, Item), key: Seq<char>, s: Seq<char>) -> bool {
    pair.0@ == key && is_text(pair.1, s)
}

/// The pair gives `key` the array of the texts `list`.
pub open spec fn gives_texts(pair: (String, Item), key: Seq<char>, list: Seq<Seq<char>>) -> bool {
    pair.0@ == key && is_texts(pair.1, list)
}

/// The pair of `key` and the text `text`.
pub fn text_pair(key: &str, text: &String) -> (r: (String, Item))
    ensures
        gives_text(r, key@, text@),
{
    (key.to_string(), Item::Text(text.clone()))
}

/// The pair of `key` and the array of the texts `list`.
pub fn texts_pair(key: &str, list: &Vec<String>) -> (r: (String, Item))
    ensures
        gives_texts(r, key@, Seq::new(list@.len(), |i: int| list@[i]@)),
{
    let mut items: Vec<Item> = Vec::new();
    let mut i: usize = 0;
    while i < list.len()
        invariant
            i <= list.len(),
            items@.len() == i,
            forall|j: int| 0 <= j < i ==> is_text(#[trigger] items@[j], list@[j]@),
        decreases list.len() - i,
    {
        items.push(Item::Text(list[i].clone()));
        i += 1;
    }
    (key.to_string(), Item::Array(items))
}

} // verus!
