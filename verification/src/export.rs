//! The archive as pages of markdown: one page for each entry and for each
//! map of content, given as the lines of the page.

use crate::archive::{entries_dir, mocs_dir, outcome, Archive, ArchiveError, Failure, Home};
use crate::document::texts_in;
use crate::entry::{
    entry_data,
    entry_fields_error,
    lemma_clear_entry,
    stored_entry_data,
    stored_entry_error,
    Entry,
    EntryData,
    EntryFields,
    SectionData,
};
use crate::field::{lines, load_strings, load_text, strings_at, text_at};
use crate::keys::{decimal, index_key};
use crate::moc::{
    lemma_clear_moc,
    moc_data,
    moc_pull_error,
    stored_moc_data,
    stored_moc_error,
    CollectionData,
    MOC,
    MocData,
    MocFields,
};
use crate::search::{
    collection_members,
    lemma_selected_stored,
    members,
    search,
    search_strict,
    selected_stored,
};
use crate::store::{Container, Path, Store, StoreError, Tree};
use vstd::prelude::*;

verus! {

/// The length of the first `n` characters of `s` without the line ends at
/// their end.
pub open spec fn kept(s: Seq<char>, n: nat) -> nat
    decreases n,
{
    if n == 0 {
        0
    } else if s[n - 1] != '\n' {
        n
    } else {
        kept(s, (n - 1) as nat)
    }
}

/// The text without the line ends at its end.
pub open spec fn trimmed(s: Seq<char>) -> Seq<char> {
    s.take(kept(s, s.len()) as int)
}

/// Where the line begins that is open after the first `n` characters of
/// `s`.
pub open spec fn line_start(s: Seq<char>, n: nat) -> nat
    decreases n,
{
    if n == 0 {
        0
    } else if s[n - 1] == '\n' {
        n
    } else {
        line_start(s, (n - 1) as nat)
    }
}

/// The lines that end within the first `n` characters of `s`, without their
/// line ends.
pub open spec fn full_lines(s: Seq<char>, n: nat) -> Seq<Seq<char>>
    decreases n,
{
    if n == 0 {
        Seq::empty()
    } else if s[n - 1] == '\n' {
        full_lines(s, (n - 1) as nat).push(
            s.subrange(line_start(s, (n - 1) as nat) as int, n - 1),
        )
    } else {
        full_lines(s, (n - 1) as nat)
    }
}

/// The lines of a text: what stands between its line ends, the last line
/// being what follows the last line end.
pub open spec fn segments(s: Seq<char>) -> Seq<Seq<char>> {
    full_lines(s, s.len()).push(s.subrange(line_start(s, s.len()) as int, s.len() as int))
}

/// Each of the lines with `prefix` before it.
pub open spec fn prefixed(prefix: Seq<char>, list: Seq<Seq<char>>) -> Seq<Seq<char>> {
    Seq::new(list.len(), |i: int| prefix + list[i])
}

/// A line begins within the text, and what is kept ends within it.
proof fn lemma_line_bounds(s: Seq<char>, n: nat)
    requires
        n <= s.len(),
    ensures
        line_start(s, n) <= n,
        kept(s, n) <= n,
    decreases n,
{
    if n > 0 {
        lemma_line_bounds(s, (n - 1) as nat);
    }
}

/// The text without the line ends at its end.
pub fn trim_newlines(text: &str) -> (r: &str)
    ensures
        r@ == trimmed(text@),
{
    let n = text.unicode_len();
    let mut end: usize = 0;
    let mut i: usize = 0;
    for c in it: text.chars()
        invariant
            i == it.index(),
            it.seq() == text@,
            n == text@.len(),
            i <= n,
            end == kept(text@, i as nat),
            end <= i,
    {
        if c != '\n' {
            end = i + 1;
        }
        i += 1;
    }
    text.substring_char(0, end)
}

/// The lines of a text.
pub fn split_lines(text: &str) -> (r: Vec<String>)
    ensures
        lines(r@) == segments(text@),
{
    let n = text.unicode_len();
    let mut out: Vec<String> = Vec::new();
    let mut start: usize = 0;
    let mut i: usize = 0;
    assert(lines(out@) =~= full_lines(text@, 0));
    for c in it: text.chars()
        invariant
            i == it.index(),
            it.seq() == text@,
            n == text@.len(),
            i <= n,
            start == line_start(text@, i as nat),
            start <= i,
            lines(out@) == full_lines(text@, i as nat),
    {
        if c == '\n' {
            let ghost before = lines(out@);
            let line = text.substring_char(start, i).to_string();
            out.push(line);
            assert(lines(out@) =~= before.push(text@.subrange(start as int, i as int)));
            start = i + 1;
        }
        i += 1;
    }
    let ghost before = lines(out@);
    let last = text.substring_char(start, n).to_string();
    out.push(last);
    assert(lines(out@) =~= before.push(text@.subrange(start as int, n as int)));
    out
}

/// The text `a` followed by the text `b`.
pub fn joined(a: &str, b: &str) -> (r: String)
    ensures
        r@ == a@ + b@,
{
    let mut r = a.to_string();
    r.append(b);
    r
}

/// Adds each of the lines `list`, with `prefix` before it, to `out`.
pub fn push_prefixed(out: &mut Vec<String>, prefix: &str, list: &Vec<String>)
    ensures
        lines(final(out)@) == lines(old(out)@) + prefixed(prefix@, lines(list@)),
{
    let mut i: usize = 0;
    assert(lines(out@) =~= lines(old(out)@) + prefixed(prefix@, lines(list@)).take(0));
    while i < list.len()
        invariant
            i <= list.len(),
            lines(out@) == lines(old(out)@) + prefixed(prefix@, lines(list@)).take(i as int),
        decreases list.len() - i,
    {
        let ghost before = lines(out@);
        out.push(joined(prefix, list[i].as_str()));
        assert(lines(out@) =~= before.push(prefix@ + list@[i as int]@));
        assert(prefixed(prefix@, lines(list@)).take(i + 1) =~= prefixed(
            prefix@,
            lines(list@),
        ).take(i as int).push(prefix@ + list@[i as int]@));
        assert(lines(out@) =~= lines(old(out)@) + prefixed(prefix@, lines(list@)).take(i + 1));
        i += 1;
    }
    assert(prefixed(prefix@, lines(list@)).take(list@.len() as int) =~= prefixed(
        prefix@,
        lines(list@),
    ));
}

/// The line that names the first `n` of the tags of a page.
pub open spec fn tag_line(tags: Seq<Seq<char>>, n: nat) -> Seq<char>
    decreases n,
{
    if n == 0 {
        "tags: diary-cli"@
    } else {
        tag_line(tags, (n - 1) as nat) + ", "@ + tags[n - 1]
    }
}

/// The lines at the top of a page: the tags between two rules, the title,
/// a rule, the description, and the heading of the notes.
pub open spec fn page_head(tags: Seq<Seq<char>>, title: Seq<char>, description: Seq<char>) -> Seq<
    Seq<char>,
> {
    seq![
        "---"@,
        tag_line(tags, tags.len()),
        "---"@,
        "# "@ + title,
        "---"@,
        "**Description:** "@ + description,
        "## Notes"@,
    ]
}

/// The lines that list the first `n` sections of an entry: for each its
/// title and below it its notes.
pub open spec fn section_index(sections: Seq<SectionData>, n: nat) -> Seq<Seq<char>>
    decreases n,
{
    if n == 0 {
        Seq::empty()
    } else {
        section_index(sections, (n - 1) as nat).push("- #### "@ + sections[n - 1].title) + prefixed(
            "\t- "@,
            sections[n - 1].notes,
        )
    }
}

/// The lines that show the first `n` sections of an entry: for each its
/// title and below it its text as a quotation, without the line ends at the
/// end of the text.
pub open spec fn section_bodies(sections: Seq<SectionData>, n: nat) -> Seq<Seq<char>>
    decreases n,
{
    if n == 0 {
        Seq::empty()
    } else {
        section_bodies(sections, (n - 1) as nat).push("### "@ + sections[n - 1].title) + prefixed(
            "> "@,
            segments(trimmed(sections[n - 1].content)),
        )
    }
}

/// The page of an entry.
pub open spec fn entry_page(d: EntryData) -> Seq<Seq<char>> {
    page_head(d.tags, d.title, d.description) + prefixed("- "@, d.notes) + section_index(
        d.sections,
        d.sections.len(),
    ) + seq!["---"@] + section_bodies(d.sections, d.sections.len())
}

/// The line that names the tags of a page.
pub fn write_tag_line(tags: &Vec<String>) -> (r: String)
    ensures
        r@ == tag_line(lines(tags@), tags@.len()),
{
    let mut line = "tags: diary-cli".to_string();
    let mut i: usize = 0;
    while i < tags.len()
        invariant
            i <= tags.len(),
            line@ == tag_line(lines(tags@), i as nat),
        decreases tags.len() - i,
    {
        line.append(", ");
        line.append(tags[i].as_str());
        assert(lines(tags@)[i as int] == tags@[i as int]@);
        i += 1;
    }
    line
}

/// The lines at the top of a page.
pub fn write_head(tags: &Vec<String>, title: &String, description: &String) -> (r: Vec<String>)
    ensures
        lines(r@) == page_head(lines(tags@), title@, description@),
{
    let mut out: Vec<String> = Vec::new();
    out.push("---".to_string());
    out.push(write_tag_line(tags));
    out.push("---".to_string());
    out.push(joined("# ", title.as_str()));
    out.push("---".to_string());
    out.push(joined("**Description:** ", description.as_str()));
    out.push("## Notes".to_string());
    assert(lines(out@) =~= page_head(lines(tags@), title@, description@));
    out
}

/// The lines of the page of an entry with the fields `fields`.
pub fn write_entry(fields: &EntryFields) -> (r: Vec<String>)
    ensures
        lines(r@) == entry_page(fields@),
{
    let ghost d = fields@;
    let mut out = write_head(&fields.tags, &fields.title, &fields.description);
    push_prefixed(&mut out, "- ", &fields.notes);
    let ghost top = lines(out@);
    let mut i: usize = 0;
    assert(lines(out@) =~= top + section_index(d.sections, 0));
    while i < fields.sections.len()
        invariant
            i <= fields.sections.len(),
            d == fields@,
            lines(out@) == top + section_index(d.sections, i as nat),
        decreases fields.sections.len() - i,
    {
        let section = &fields.sections[i];
        let ghost before = lines(out@);
        out.push(joined("- #### ", section.title.as_str()));
        assert(lines(out@) =~= before.push("- #### "@ + section.title@));
        push_prefixed(&mut out, "\t- ", &section.notes);
        assert(d.sections[i as int] == section@);
        assert(lines(out@) =~= top + section_index(d.sections, (i + 1) as nat));
        i += 1;
    }
    let ghost index = lines(out@);
    out.push("---".to_string());
    let ghost ruled = lines(out@);
    assert(ruled =~= index + seq!["---"@]);
    let mut k: usize = 0;
    assert(lines(out@) =~= ruled + section_bodies(d.sections, 0));
    while k < fields.sections.len()
        invariant
            k <= fields.sections.len(),
            d == fields@,
            lines(out@) == ruled + section_bodies(d.sections, k as nat),
        decreases fields.sections.len() - k,
    {
        let section = &fields.sections[k];
        let ghost before = lines(out@);
        out.push(joined("### ", section.title.as_str()));
        assert(lines(out@) =~= before.push("### "@ + section.title@));
        let text = split_lines(trim_newlines(section.content.as_str()));
        push_prefixed(&mut out, "> ", &text);
        assert(d.sections[k as int] == section@);
        assert(lines(out@) =~= ruled + section_bodies(d.sections, (k + 1) as nat));
        k += 1;
    }
    assert(lines(out@) =~= entry_page(d));
    out
}

/// The lines of the page of an entry.
pub fn export_entry(entry: &mut Entry, store: &Store) -> (r: Result<Vec<String>, StoreError>)
    ensures
        final(entry).container == old(entry).container,
        final(entry).uid == old(entry).uid,
        match entry_fields_error(*old(entry), store@) {
            Some(e) => r == Err::<Vec<String>, StoreError>(e),
            None => r matches Ok(page) && lines(page@) == entry_page(
                entry_data(*old(entry), store@),
            ),
        },
{
    match entry.fields(store) {
        Ok(fields) => Ok(write_entry(&fields)),
        Err(e) => Err(e),
    }
}

/// An entry or a map of content that a collection gathers, as a page lists
/// it.
#[derive(Debug, PartialEq, Eq)]
pub struct Member {
    pub uid: String,
    pub title: String,
    pub description: String,
    pub notes: Vec<String>,
}

/// The mathematical value of a [`Member`].
pub ghost struct MemberData {
    pub uid: Seq<char>,
    pub title: Seq<char>,
    pub description: Seq<char>,
    pub notes: Seq<Seq<char>>,
}

impl View for Member {
    type V = MemberData;

    open spec fn view(&self) -> MemberData {
        MemberData {
            uid: self.uid@,
            title: self.title@,
            description: self.description@,
            notes: lines(self.notes@),
        }
    }
}

/// What a collection gathers, as a page lists it.
#[derive(Debug, PartialEq, Eq)]
pub struct Gathered {
    pub mocs: Vec<Member>,
    pub entries: Vec<Member>,
}

/// The mathematical value of a [`Gathered`].
pub ghost struct GatheredData {
    pub mocs: Seq<MemberData>,
    pub entries: Seq<MemberData>,
}

/// The values of a list of members.
pub open spec fn member_data(list: Seq<Member>) -> Seq<MemberData> {
    Seq::new(list.len(), |i: int| list[i]@)
}

impl View for Gathered {
    type V = GatheredData;

    open spec fn view(&self) -> GatheredData {
        GatheredData { mocs: member_data(self.mocs@), entries: member_data(self.entries@) }
    }
}

/// The values of a list of what collections gather.
pub open spec fn gathered_data(list: Seq<Gathered>) -> Seq<GatheredData> {
    Seq::new(list.len(), |i: int| list[i]@)
}

/// A list of strings as the standard library prints it for inspection.
pub uninterp spec fn debug_text(list: Seq<Seq<char>>) -> Seq<char>;

/// `format!` with `{:?}` on a list of strings: the list as the standard
/// library prints it for inspection. The contract names the text.
#[verifier::external_body]
fn debug_strings(list: &Vec<String>) -> (r: String)
    ensures
        r@ == debug_text(lines(list@)),
{
    format!("{:?}", list)
}

/// The line of the member `m`, the one at index `i` of its list: its
/// number, its title as a link to its page, its description and its notes.
pub open spec fn member_line(i: nat, m: MemberData) -> Seq<char> {
    index_key(i + 1) + ". \\[["@ + m.title + "]("@ + m.uid + ")\\] "@ + m.description
        + " `notes: "@ + debug_text(m.notes) + "`"@
}

/// The lines of a list of members.
pub open spec fn member_lines(list: Seq<MemberData>) -> Seq<Seq<char>> {
    Seq::new(list.len(), |i: int| member_line(i as nat, list[i]))
}

/// The lines that list the first `n` collections of a map of content: for
/// each its title and below it its notes.
pub open spec fn collection_index(collections: Seq<CollectionData>, n: nat) -> Seq<Seq<char>>
    decreases n,
{
    if n == 0 {
        Seq::empty()
    } else {
        collection_index(collections, (n - 1) as nat).push("- #### "@ + collections[n - 1].title)
            + prefixed("\t- "@, collections[n - 1].notes)
    }
}

/// The lines that show the first `n` collections of a map of content: for
/// each its title and below it the maps of content and then the entries
/// that it gathers.
pub open spec fn collection_bodies(
    collections: Seq<CollectionData>,
    gathered: Seq<GatheredData>,
    n: nat,
) -> Seq<Seq<char>>
    decreases n,
{
    if n == 0 {
        Seq::empty()
    } else {
        collection_bodies(collections, gathered, (n - 1) as nat).push(
            "## "@ + collections[n - 1].title,
        ) + member_lines(gathered[n - 1].mocs) + member_lines(gathered[n - 1].entries)
    }
}

/// The page of a map of content whose collections gather `gathered`.
pub open spec fn moc_page(d: MocData, gathered: Seq<GatheredData>) -> Seq<Seq<char>> {
    page_head(d.tags, d.title, d.description) + prefixed("- "@, d.notes) + collection_index(
        d.collections,
        d.collections.len(),
    ) + seq!["---"@] + collection_bodies(d.collections, gathered, d.collections.len())
}

/// The line of the member at index `i` of its list.
fn write_member(i: usize, member: &Member) -> (r: String)
    requires
        i < usize::MAX,
    ensures
        r@ == member_line(i as nat, member@),
{
    let mut line = decimal(i + 1);
    line.append(". \\[[");
    line.append(member.title.as_str());
    line.append("](");
    line.append(member.uid.as_str());
    line.append(")\\] ");
    line.append(member.description.as_str());
    line.append(" `notes: ");
    line.append(debug_strings(&member.notes).as_str());
    line.append("`");
    line
}

/// Adds the lines of the members `list` to `out`.
fn push_members(out: &mut Vec<String>, list: &Vec<Member>)
    ensures
        lines(final(out)@) == lines(old(out)@) + member_lines(member_data(list@)),
{
    let ghost all = member_lines(member_data(list@));
    let mut i: usize = 0;
    assert(lines(out@) =~= lines(old(out)@) + all.take(0));
    while i < list.len()
        invariant
            i <= list.len(),
            all == member_lines(member_data(list@)),
            lines(out@) == lines(old(out)@) + all.take(i as int),
        decreases list.len() - i,
    {
        let ghost before = lines(out@);
        let line = write_member(i, &list[i]);
        out.push(line);
        assert(lines(out@) =~= before.push(all[i as int]));
        assert(all.take(i + 1) =~= all.take(i as int).push(all[i as int]));
        assert(lines(out@) =~= lines(old(out)@) + all.take(i + 1));
        i += 1;
    }
    assert(all.take(list@.len() as int) =~= all);
}

/// The lines of the page of a map of content with the fields `fields`,
/// whose collections gather `gathered`.
fn write_moc(fields: &MocFields, gathered: &Vec<Gathered>) -> (r: Vec<String>)
    requires
        gathered@.len() == fields.collections@.len(),
    ensures
        lines(r@) == moc_page(fields@, gathered_data(gathered@)),
{
    let ghost d = fields@;
    let ghost g = gathered_data(gathered@);
    let mut out = write_head(&fields.tags, &fields.title, &fields.description);
    push_prefixed(&mut out, "- ", &fields.notes);
    let ghost top = lines(out@);
    let mut i: usize = 0;
    assert(lines(out@) =~= top + collection_index(d.collections, 0));
    while i < fields.collections.len()
        invariant
            i <= fields.collections.len(),
            d == fields@,
            lines(out@) == top + collection_index(d.collections, i as nat),
        decreases fields.collections.len() - i,
    {
        let collection = &fields.collections[i];
        let ghost before = lines(out@);
        out.push(joined("- #### ", collection.title.as_str()));
        assert(lines(out@) =~= before.push("- #### "@ + collection.title@));
        push_prefixed(&mut out, "\t- ", &collection.notes);
        assert(d.collections[i as int] == collection@);
        assert(lines(out@) =~= top + collection_index(d.collections, (i + 1) as nat));
        i += 1;
    }
    let ghost index = lines(out@);
    out.push("---".to_string());
    let ghost ruled = lines(out@);
    assert(ruled =~= index + seq!["---"@]);
    let mut k: usize = 0;
    assert(lines(out@) =~= ruled + collection_bodies(d.collections, g, 0));
    while k < fields.collections.len()
        invariant
            k <= fields.collections.len(),
            gathered@.len() == fields.collections@.len(),
            d == fields@,
            g == gathered_data(gathered@),
            lines(out@) == ruled + collection_bodies(d.collections, g, k as nat),
        decreases fields.collections.len() - k,
    {
        let collection = &fields.collections[k];
        let ghost before = lines(out@);
        out.push(joined("## ", collection.title.as_str()));
        assert(lines(out@) =~= before.push("## "@ + collection.title@));
        push_members(&mut out, &gathered[k].mocs);
        push_members(&mut out, &gathered[k].entries);
        assert(d.collections[k as int] == collection@);
        assert(g[k as int] == gathered@[k as int]@);
        assert(lines(out@) =~= ruled + collection_bodies(d.collections, g, (k + 1) as nat));
        k += 1;
    }
    assert(lines(out@) =~= moc_page(d, g));
    out
}

/// The entity `uid` of the container `db` as a page lists it: its title,
/// its description and its notes, read in this order.
pub open spec fn member_at(t: Tree, db: Path, uid: Seq<char>) -> Result<MemberData, StoreError> {
    match text_at(t, db.push(uid), "title"@) {
        Err(e) => Err(e),
        Ok(title) => match text_at(t, db.push(uid), "description"@) {
            Err(e) => Err(e),
            Ok(description) => match strings_at(t, db.push(uid), "notes"@) {
                Err(e) => Err(e),
                Ok(notes) => Ok(MemberData { uid, title, description, notes }),
            },
        },
    }
}

/// The first `n` of the entities `uids` of the container `db` as a page
/// lists them.
pub open spec fn members_at(t: Tree, db: Path, uids: Seq<Seq<char>>, n: nat) -> Result<
    Seq<MemberData>,
    StoreError,
>
    decreases n,
{
    if n == 0 {
        Ok(Seq::empty())
    } else {
        match members_at(t, db, uids, (n - 1) as nat) {
            Err(e) => Err(e),
            Ok(first) => match member_at(t, db, uids[n - 1]) {
                Ok(m) => Ok(first.push(m)),
                Err(e) => Err(e),
            },
        }
    }
}

/// What a collection that gathers the tags `included` finds, as a page
/// lists it.
pub open spec fn gathered_by(
    t: Tree,
    included: Seq<Seq<char>>,
    moc_order: Seq<Seq<char>>,
    entry_order: Seq<Seq<char>>,
) -> Result<GatheredData, StoreError> {
    match members(t, included, moc_order, entry_order) {
        Err(e) => Err(e),
        Ok((mocs, entries)) => match members_at(t, mocs_dir(), mocs, mocs.len()) {
            Err(e) => Err(e),
            Ok(m) => match members_at(t, entries_dir(), entries, entries.len()) {
                Err(e) => Err(e),
                Ok(es) => Ok(GatheredData { mocs: m, entries: es }),
            },
        },
    }
}

/// What the first `n` of the collections find, as a page lists it.
pub open spec fn gathered_all(
    t: Tree,
    moc_order: Seq<Seq<char>>,
    entry_order: Seq<Seq<char>>,
    collections: Seq<CollectionData>,
    n: nat,
) -> Result<Seq<GatheredData>, StoreError>
    decreases n,
{
    if n == 0 {
        Ok(Seq::empty())
    } else {
        match gathered_all(t, moc_order, entry_order, collections, (n - 1) as nat) {
            Err(e) => Err(e),
            Ok(first) => match gathered_by(
                t,
                collections[n - 1].included,
                moc_order,
                entry_order,
            ) {
                Ok(g) => Ok(first.push(g)),
                Err(e) => Err(e),
            },
        }
    }
}

/// The page of a map of content: its fields are read first, which fails
/// with `failure` or gives `d`; its collections are gathered then, each in
/// its turn.
pub open spec fn moc_exported(
    t: Tree,
    failure: Option<StoreError>,
    d: MocData,
    moc_order: Seq<Seq<char>>,
    entry_order: Seq<Seq<char>>,
) -> Result<Seq<Seq<char>>, StoreError> {
    match failure {
        Some(e) => Err(e),
        None => match gathered_all(t, moc_order, entry_order, d.collections, d.collections.len()) {
            Err(e) => Err(e),
            Ok(g) => Ok(moc_page(d, g)),
        },
    }
}

/// Once a member cannot be read, reading more of them fails alike.
proof fn lemma_members_error(t: Tree, db: Path, uids: Seq<Seq<char>>, n: nat, m: nat)
    requires
        n <= m,
        members_at(t, db, uids, n) is Err,
    ensures
        members_at(t, db, uids, m) == members_at(t, db, uids, n),
    decreases m,
{
    if n < m {
        lemma_members_error(t, db, uids, n, (m - 1) as nat);
    }
}

/// Once a collection cannot gather, gathering for more of them fails alike.
proof fn lemma_gathered_error(
    t: Tree,
    moc_order: Seq<Seq<char>>,
    entry_order: Seq<Seq<char>>,
    collections: Seq<CollectionData>,
    n: nat,
    m: nat,
)
    requires
        n <= m,
        gathered_all(t, moc_order, entry_order, collections, n) is Err,
    ensures
        gathered_all(t, moc_order, entry_order, collections, m) == gathered_all(
            t,
            moc_order,
            entry_order,
            collections,
            n,
        ),
    decreases m,
{
    if n < m {
        lemma_gathered_error(t, moc_order, entry_order, collections, n, (m - 1) as nat);
    }
}

/// Reads the entities `uids` of the container `db` as a page lists them.
fn read_members(store: &Store, db: &Container, uids: &Vec<String>) -> (r: Result<
    Vec<Member>,
    StoreError,
>)
    ensures
        match r {
            Ok(v) => members_at(store@, db@, lines(uids@), uids@.len()) == Ok::<
                Seq<MemberData>,
                StoreError,
            >(member_data(v@)),
            Err(e) => members_at(store@, db@, lines(uids@), uids@.len()) == Err::<
                Seq<MemberData>,
                StoreError,
            >(e),
        },
{
    let mut out: Vec<Member> = Vec::new();
    let mut i: usize = 0;
    assert(member_data(out@) =~= Seq::<MemberData>::empty());
    while i < uids.len()
        invariant
            i <= uids.len(),
            members_at(store@, db@, lines(uids@), i as nat) == Ok::<Seq<MemberData>, StoreError>(
                member_data(out@),
            ),
        decreases uids.len() - i,
    {
        let container = db.child(uids[i].as_str());
        assert(lines(uids@)[i as int] == uids@[i as int]@);
        let ghost before = member_data(out@);
        let title = match load_text(store, &container, "title") {
            Ok(x) => x,
            Err(e) => {
                proof {
                    lemma_members_error(store@, db@, lines(uids@), (i + 1) as nat, uids@.len());
                }
                return Err(e);
            },
        };
        let description = match load_text(store, &container, "description") {
            Ok(x) => x,
            Err(e) => {
                proof {
                    lemma_members_error(store@, db@, lines(uids@), (i + 1) as nat, uids@.len());
                }
                return Err(e);
            },
        };
        let notes = match load_strings(store, &container, "notes") {
            Ok(x) => x,
            Err(e) => {
                proof {
                    lemma_members_error(store@, db@, lines(uids@), (i + 1) as nat, uids@.len());
                }
                return Err(e);
            },
        };
        let member = Member { uid: uids[i].clone(), title, description, notes };
        out.push(member);
        assert(member_data(out@) =~= before.push(member@));
        i += 1;
    }
    Ok(out)
}

/// What a collection that gathers the tags `included` finds in the archive,
/// as a page lists it.
pub fn gather_members(archive: &Archive, included: &Vec<String>, home: &Home) -> (r: Result<
    Gathered,
    ArchiveError,
>)
    ensures
        match home.archive {
            None => outcome(r) == Some(Failure::NotActive),
            Some(s) => match gathered_by(
                s@,
                lines(included@),
                s.child_order(mocs_dir()),
                s.child_order(entries_dir()),
            ) {
                Ok(g) => r matches Ok(x) && x@ == g,
                Err(e) => outcome(r) == Some(Failure::Store(e)),
            },
        },
{
    let found = match collection_members(archive, included, home) {
        Ok(m) => m,
        Err(e) => {
            return Err(e);
        },
    };
    let store = match &home.archive {
        Some(s) => s,
        None => {
            return Err(ArchiveError::NotActive);
        },
    };
    let top = Container::root();
    let mocs = match read_members(store, &top.child("mocs"), &found.mocs) {
        Ok(v) => v,
        Err(e) => {
            return Err(ArchiveError::Store(e));
        },
    };
    let entries = match read_members(store, &top.child("entries"), &found.entries) {
        Ok(v) => v,
        Err(e) => {
            return Err(ArchiveError::Store(e));
        },
    };
    Ok(Gathered { mocs, entries })
}

/// The lines of the page of a map of content.
pub fn export_moc(moc: &mut MOC, archive: &Archive, home: &Home) -> (r: Result<
    Vec<String>,
    ArchiveError,
>)
    ensures
        final(moc).container == old(moc).container,
        final(moc).uid == old(moc).uid,
        match home.archive {
            None => outcome(r) == Some(Failure::NotActive),
            Some(s) => match moc_exported(
                s@,
                moc_pull_error(*old(moc), s@),
                moc_data(*old(moc), s@),
                s.child_order(mocs_dir()),
                s.child_order(entries_dir()),
            ) {
                Ok(page) => r matches Ok(x) && lines(x@) == page,
                Err(e) => outcome(r) == Some(Failure::Store(e)),
            },
        },
{
    let store = match &home.archive {
        Some(s) => s,
        None => {
            return Err(ArchiveError::NotActive);
        },
    };
    let fields = match moc.fields(store) {
        Ok(f) => f,
        Err(e) => {
            return Err(ArchiveError::Store(e));
        },
    };
    let ghost d = fields@;
    let ghost mo = store.child_order(mocs_dir());
    let ghost eo = store.child_order(entries_dir());
    let mut gathered: Vec<Gathered> = Vec::new();
    let mut i: usize = 0;
    assert(gathered_data(gathered@) =~= Seq::<GatheredData>::empty());
    while i < fields.collections.len()
        invariant
            i <= fields.collections.len(),
            gathered@.len() == i,
            home.archive == Some(*store),
            d == fields@,
            mo == store.child_order(mocs_dir()),
            eo == store.child_order(entries_dir()),
            moc.container == old(moc).container,
            moc.uid == old(moc).uid,
            moc_pull_error(*old(moc), store@) is None,
            d == moc_data(*old(moc), store@),
            gathered_all(store@, mo, eo, d.collections, i as nat) == Ok::<
                Seq<GatheredData>,
                StoreError,
            >(gathered_data(gathered@)),
        decreases fields.collections.len() - i,
    {
        assert(d.collections[i as int] == fields.collections@[i as int]@);
        let ghost before = gathered_data(gathered@);
        match gather_members(archive, &fields.collections[i].included, home) {
            Ok(g) => {
                gathered.push(g);
                assert(gathered_data(gathered@) =~= before.push(g@));
            },
            Err(e) => {
                proof {
                    lemma_gathered_error(
                        store@,
                        mo,
                        eo,
                        d.collections,
                        (i + 1) as nat,
                        d.collections.len(),
                    );
                }
                return Err(e);
            },
        }
        i += 1;
    }
    Ok(write_moc(&fields, &gathered))
}

/// A page of the vault: the uid of its entity, and its lines.
#[derive(Debug, PartialEq, Eq)]
pub struct Page {
    pub uid: String,
    pub lines: Vec<String>,
}

/// The mathematical value of a [`Page`].
pub ghost struct PageData {
    pub uid: Seq<char>,
    pub lines: Seq<Seq<char>>,
}

impl View for Page {
    type V = PageData;

    open spec fn view(&self) -> PageData {
        PageData { uid: self.uid@, lines: lines(self.lines@) }
    }
}

/// The values of a list of pages.
pub open spec fn page_data(list: Seq<Page>) -> Seq<PageData> {
    Seq::new(list.len(), |i: int| list[i]@)
}

/// The archive as pages: those of the entries and those of the maps of
/// content.
#[derive(Debug, PartialEq, Eq)]
pub struct Vault {
    pub entries: Vec<Page>,
    pub mocs: Vec<Page>,
}

/// The mathematical value of a [`Vault`].
pub ghost struct VaultData {
    pub entries: Seq<PageData>,
    pub mocs: Seq<PageData>,
}

impl View for Vault {
    type V = VaultData;

    open spec fn view(&self) -> VaultData {
        VaultData { entries: page_data(self.entries@), mocs: page_data(self.mocs@) }
    }
}

/// The entities of the container `db` that are exported: all of them, in
/// the order `order`, where no tags are given; else those that the search
/// for the tags finds.
pub open spec fn chosen(
    t: Tree,
    order: Seq<Seq<char>>,
    db: Path,
    key: Seq<char>,
    strict: bool,
    tags: Option<Seq<Seq<char>>>,
) -> Result<Seq<Seq<char>>, StoreError> {
    match tags {
        None => Ok(order),
        Some(wanted) => selected_stored(wanted, order, db, key, t, strict, order.len()),
    }
}

/// The pages of the first `n` of the entries `uids`.
pub open spec fn entry_pages(t: Tree, uids: Seq<Seq<char>>, n: nat) -> Result<
    Seq<PageData>,
    StoreError,
>
    decreases n,
{
    if n == 0 {
        Ok(Seq::empty())
    } else {
        match entry_pages(t, uids, (n - 1) as nat) {
            Err(e) => Err(e),
            Ok(first) => match stored_entry_error(t, entries_dir().push(uids[n - 1])) {
                Some(e) => Err(e),
                None => Ok(
                    first.push(
                        PageData {
                            uid: uids[n - 1],
                            lines: entry_page(
                                stored_entry_data(t, entries_dir().push(uids[n - 1]), uids[n - 1]),
                            ),
                        },
                    ),
                ),
            },
        }
    }
}

/// The pages of the first `n` of the maps of content `uids`.
pub open spec fn moc_pages(
    t: Tree,
    moc_order: Seq<Seq<char>>,
    entry_order: Seq<Seq<char>>,
    uids: Seq<Seq<char>>,
    n: nat,
) -> Result<Seq<PageData>, StoreError>
    decreases n,
{
    if n == 0 {
        Ok(Seq::empty())
    } else {
        match moc_pages(t, moc_order, entry_order, uids, (n - 1) as nat) {
            Err(e) => Err(e),
            Ok(first) => match moc_exported(
                t,
                stored_moc_error(t, mocs_dir().push(uids[n - 1])),
                stored_moc_data(t, mocs_dir().push(uids[n - 1]), uids[n - 1]),
                moc_order,
                entry_order,
            ) {
                Err(e) => Err(e),
                Ok(page) => Ok(first.push(PageData { uid: uids[n - 1], lines: page })),
            },
        }
    }
}

/// The archive as pages: the entries and the maps of content are chosen,
/// then the pages of the entries are made, then those of the maps of
/// content.
pub open spec fn vault(
    t: Tree,
    moc_order: Seq<Seq<char>>,
    entry_order: Seq<Seq<char>>,
    strict: bool,
    tags: Option<Seq<Seq<char>>>,
) -> Result<VaultData, StoreError> {
    match chosen(t, entry_order, entries_dir(), "tags"@, strict, tags) {
        Err(e) => Err(e),
        Ok(entries) => match chosen(t, moc_order, mocs_dir(), "groups"@, strict, tags) {
            Err(e) => Err(e),
            Ok(mocs) => match entry_pages(t, entries, entries.len()) {
                Err(e) => Err(e),
                Ok(entry_list) => match moc_pages(t, moc_order, entry_order, mocs, mocs.len()) {
                    Err(e) => Err(e),
                    Ok(moc_list) => Ok(VaultData { entries: entry_list, mocs: moc_list }),
                },
            },
        },
    }
}

/// Once a page cannot be made, making more of them fails alike.
proof fn lemma_entry_pages_error(t: Tree, uids: Seq<Seq<char>>, n: nat, m: nat)
    requires
        n <= m,
        entry_pages(t, uids, n) is Err,
    ensures
        entry_pages(t, uids, m) == entry_pages(t, uids, n),
    decreases m,
{
    if n < m {
        lemma_entry_pages_error(t, uids, n, (m - 1) as nat);
    }
}

/// Once a page cannot be made, making more of them fails alike.
proof fn lemma_moc_pages_error(
    t: Tree,
    moc_order: Seq<Seq<char>>,
    entry_order: Seq<Seq<char>>,
    uids: Seq<Seq<char>>,
    n: nat,
    m: nat,
)
    requires
        n <= m,
        moc_pages(t, moc_order, entry_order, uids, n) is Err,
    ensures
        moc_pages(t, moc_order, entry_order, uids, m) == moc_pages(
            t,
            moc_order,
            entry_order,
            uids,
            n,
        ),
    decreases m,
{
    if n < m {
        lemma_moc_pages_error(t, moc_order, entry_order, uids, n, (m - 1) as nat);
    }
}

/// The entries that are exported.
fn choose_entries(archive: &Archive, home: &Home, strict: bool, tags: &Option<Vec<String>>) -> (r:
    Result<Vec<String>, StoreError>)
    requires
        home.archive is Some,
    ensures
        match r {
            Ok(v) => chosen(
                home.archive->0@,
                home.archive->0.child_order(entries_dir()),
                entries_dir(),
                "tags"@,
                strict,
                texts_in(*tags),
            ) == Ok::<Seq<Seq<char>>, StoreError>(lines(v@)),
            Err(e) => chosen(
                home.archive->0@,
                home.archive->0.child_order(entries_dir()),
                entries_dir(),
                "tags"@,
                strict,
                texts_in(*tags),
            ) == Err::<Seq<Seq<char>>, StoreError>(e),
        },
{
    let store = match &home.archive {
        Some(s) => s,
        None => {
            return Err(StoreError::NotFound);
        },
    };
    let entries = archive.list_entries(home);
    match tags {
        None => {
            let mut out: Vec<String> = Vec::new();
            let mut i: usize = 0;
            while i < entries.len()
                invariant
                    i <= entries.len(),
                    out@.len() == i,
                    forall|j: int| 0 <= j < i ==> out@[j]@ == entries@[j].uid@,
                decreases entries.len() - i,
            {
                out.push(entries[i].uid.clone());
                i += 1;
            }
            assert(lines(out@) =~= crate::archive::entry_uids(entries@));
            Ok(out)
        },
        Some(wanted) => {
            proof {
                lemma_selected_stored(
                    lines(wanted@),
                    entries@,
                    crate::archive::entry_uids(entries@),
                    entries_dir(),
                    "tags"@,
                    store@,
                    strict,
                    entries@.len(),
                );
            }
            if strict {
                search_strict(wanted, entries, store)
            } else {
                search(wanted, entries, store)
            }
        },
    }
}

/// The maps of content that are exported.
fn choose_mocs(archive: &Archive, home: &Home, strict: bool, tags: &Option<Vec<String>>) -> (r:
    Result<Vec<String>, StoreError>)
    requires
        home.archive is Some,
    ensures
        match r {
            Ok(v) => chosen(
                home.archive->0@,
                home.archive->0.child_order(mocs_dir()),
                mocs_dir(),
                "groups"@,
                strict,
                texts_in(*tags),
            ) == Ok::<Seq<Seq<char>>, StoreError>(lines(v@)),
            Err(e) => chosen(
                home.archive->0@,
                home.archive->0.child_order(mocs_dir()),
                mocs_dir(),
                "groups"@,
                strict,
                texts_in(*tags),
            ) == Err::<Seq<Seq<char>>, StoreError>(e),
        },
{
    let store = match &home.archive {
        Some(s) => s,
        None => {
            return Err(StoreError::NotFound);
        },
    };
    let mocs = archive.list_mocs(home);
    match tags {
        None => {
            let mut out: Vec<String> = Vec::new();
            let mut i: usize = 0;
            while i < mocs.len()
                invariant
                    i <= mocs.len(),
                    out@.len() == i,
                    forall|j: int| 0 <= j < i ==> out@[j]@ == mocs@[j].uid@,
                decreases mocs.len() - i,
            {
                out.push(mocs[i].uid.clone());
                i += 1;
            }
            assert(lines(out@) =~= crate::archive::moc_uids(mocs@));
            Ok(out)
        },
        Some(wanted) => {
            proof {
                lemma_selected_stored(
                    lines(wanted@),
                    mocs@,
                    crate::archive::moc_uids(mocs@),
                    mocs_dir(),
                    "groups"@,
                    store@,
                    strict,
                    mocs@.len(),
                );
            }
            if strict {
                search_strict(wanted, mocs, store)
            } else {
                search(wanted, mocs, store)
            }
        },
    }
}

/// The archive as pages of markdown: the pages of all entries and maps of
/// content where no tags are given, else of those that have every one of
/// the tags, if `strict`, or one of them.
pub fn export_md(archive: &Archive, home: &Home, strict: bool, tags: Option<Vec<String>>) -> (r:
    Result<Vault, ArchiveError>)
    ensures
        match home.archive {
            None => outcome(r) == Some(Failure::NotActive),
            Some(s) => match vault(
                s@,
                s.child_order(mocs_dir()),
                s.child_order(entries_dir()),
                strict,
                texts_in(tags),
            ) {
                Ok(v) => r matches Ok(x) && x@ == v,
                Err(e) => outcome(r) == Some(Failure::Store(e)),
            },
        },
{
    let store = match &home.archive {
        Some(s) => s,
        None => {
            return Err(ArchiveError::NotActive);
        },
    };
    let entry_uids = match choose_entries(archive, home, strict, &tags) {
        Ok(v) => v,
        Err(e) => {
            return Err(ArchiveError::Store(e));
        },
    };
    let moc_uids = match choose_mocs(archive, home, strict, &tags) {
        Ok(v) => v,
        Err(e) => {
            return Err(ArchiveError::Store(e));
        },
    };
    let ghost mo = store.child_order(mocs_dir());
    let ghost eo = store.child_order(entries_dir());
    let top = Container::root();
    let entries_dir_handle = top.child("entries");
    let mocs_dir_handle = top.child("mocs");
    let mut entries: Vec<Page> = Vec::new();
    let mut i: usize = 0;
    assert(page_data(entries@) =~= Seq::<PageData>::empty());
    while i < entry_uids.len()
        invariant
            i <= entry_uids.len(),
            home.archive == Some(*store),
            entries_dir_handle@ == entries_dir(),
            mo == store.child_order(mocs_dir()),
            eo == store.child_order(entries_dir()),
            chosen(store@, eo, entries_dir(), "tags"@, strict, texts_in(tags)) == Ok::<
                Seq<Seq<char>>,
                StoreError,
            >(lines(entry_uids@)),
            chosen(store@, mo, mocs_dir(), "groups"@, strict, texts_in(tags)) == Ok::<
                Seq<Seq<char>>,
                StoreError,
            >(lines(moc_uids@)),
            entry_pages(store@, lines(entry_uids@), i as nat) == Ok::<Seq<PageData>, StoreError>(
                page_data(entries@),
            ),
        decreases entry_uids.len() - i,
    {
        let uid = entry_uids[i].clone();
        assert(lines(entry_uids@)[i as int] == uid@);
        let mut entry = Entry::load_lazy(uid.clone(), entries_dir_handle.child(uid.as_str()));
        proof {
            lemma_clear_entry(entry, store@);
        }
        let ghost before = page_data(entries@);
        match export_entry(&mut entry, store) {
            Ok(page) => {
                let made = Page { uid, lines: page };
                entries.push(made);
                assert(page_data(entries@) =~= before.push(made@));
            },
            Err(e) => {
                proof {
                    lemma_entry_pages_error(
                        store@,
                        lines(entry_uids@),
                        (i + 1) as nat,
                        entry_uids@.len(),
                    );
                }
                return Err(ArchiveError::Store(e));
            },
        }
        i += 1;
    }
    let mut mocs: Vec<Page> = Vec::new();
    let mut k: usize = 0;
    assert(page_data(mocs@) =~= Seq::<PageData>::empty());
    while k < moc_uids.len()
        invariant
            k <= moc_uids.len(),
            home.archive == Some(*store),
            mocs_dir_handle@ == mocs_dir(),
            mo == store.child_order(mocs_dir()),
            eo == store.child_order(entries_dir()),
            chosen(store@, eo, entries_dir(), "tags"@, strict, texts_in(tags)) == Ok::<
                Seq<Seq<char>>,
                StoreError,
            >(lines(entry_uids@)),
            chosen(store@, mo, mocs_dir(), "groups"@, strict, texts_in(tags)) == Ok::<
                Seq<Seq<char>>,
                StoreError,
            >(lines(moc_uids@)),
            entry_pages(store@, lines(entry_uids@), entry_uids@.len()) == Ok::<
                Seq<PageData>,
                StoreError,
            >(page_data(entries@)),
            moc_pages(store@, mo, eo, lines(moc_uids@), k as nat) == Ok::<
                Seq<PageData>,
                StoreError,
            >(page_data(mocs@)),
        decreases moc_uids.len() - k,
    {
        let uid = moc_uids[k].clone();
        assert(lines(moc_uids@)[k as int] == uid@);
        let mut moc = MOC::load_lazy(uid.clone(), mocs_dir_handle.child(uid.as_str()));
        proof {
            lemma_clear_moc(moc, store@);
        }
        let ghost before = page_data(mocs@);
        match export_moc(&mut moc, archive, home) {
            Ok(page) => {
                let made = Page { uid, lines: page };
                mocs.push(made);
                assert(page_data(mocs@) =~= before.push(made@));
            },
            Err(e) => {
                proof {
                    lemma_moc_pages_error(
                        store@,
                        mo,
                        eo,
                        lines(moc_uids@),
                        (k + 1) as nat,
                        moc_uids@.len(),
                    );
                }
                return Err(e);
            },
        }
        k += 1;
    }
    Ok(Vault { entries, mocs })
}

} // verus!
