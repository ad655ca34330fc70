use diary_cli::archive::{Archive, ArchiveError, Home};
use diary_cli::document::Files;
use diary_cli::entry::{EntryFields, SectionFields};
use diary_cli::export::{
    export_entry, export_md, export_moc, gather_members, joined, split_lines, trim_newlines,
    write_entry, Gathered, Member,
};
use diary_cli::keys::decimal;
use diary_cli::store::StoreError;

fn strings(list: &[&str]) -> Vec<String> {
    list.iter().map(|x| String::from(*x)).collect()
}

fn example() -> (Archive, Home) {
    let mut home = Home { archive: None, backup: None };
    let mut archive = Archive::init_with(&mut home, 1).unwrap();
    let none = Files::none();
    let first = "[entry]\nuid = 'e1'\ntitle = 'First'\ndescription = 'The first'\ntags = ['x', 'y']\nnotes = ['n1', 'n2']\ndate = 2023-08-21\n[[section]]\ntitle = 'Morning'\nnotes = ['early']\ncontents = \"one\\ntwo\\n\\n\"\n[[section]]\ntitle = 'Evening'\nnotes = []\ncontents = ''\n";
    let second = "section = []\n[entry]\nuid = 'e2'\ntitle = 'Second'\ndescription = 'The \"second\"'\ntags = ['x']\nnotes = ['a \"note\"']\ndate = 2023-08-15\n";
    let map = "is-moc = true\n[moc]\nuid = 'm1'\ntitle = 'Map'\ndescription = 'A map'\ngroups = ['x', 'top']\nnotes = ['mn']\n[[collection]]\ntitle = 'All x'\nnotes = ['cn']\ninclude = ['x']\n[[collection]]\ntitle = 'Both'\nnotes = []\ninclude = ['x', 'y']\n";
    archive.commit(&mut home, first, "e", &none).unwrap();
    archive.commit(&mut home, second, "e", &none).unwrap();
    archive.commit(&mut home, map, "m", &none).unwrap();
    (archive, home)
}

#[test]
fn text_is_trimmed_and_split_at_line_ends() {
    assert_eq!(trim_newlines("a\nb\n\n"), "a\nb");
    assert_eq!(trim_newlines("\n\n"), "");
    assert_eq!(trim_newlines(""), "");
    assert_eq!(trim_newlines("\na \n "), "\na \n ");
    assert_eq!(split_lines("a\nb"), strings(&["a", "b"]));
    assert_eq!(split_lines("a\n\nb\n"), strings(&["a", "", "b", ""]));
    assert_eq!(split_lines(""), strings(&[""]));
    assert_eq!(split_lines("\n"), strings(&["", ""]));
    assert_eq!(split_lines("käse\nbrot"), strings(&["käse", "brot"]));
    assert_eq!(joined("# ", "title"), "# title");
    assert_eq!(decimal(0), "0");
    assert_eq!(decimal(1234567), "1234567");
}

#[test]
fn entry_page_is_laid_out() {
    let (archive, home) = example();
    let store = home.archive.as_ref().unwrap();
    let mut entry = archive.get_entry(&home, String::from("e1")).unwrap();
    let page = export_entry(&mut entry, store).unwrap();
    assert_eq!(
        page,
        strings(&[
            "---",
            "tags: diary-cli, x, y",
            "---",
            "# First",
            "---",
            "**Description:** The first",
            "## Notes",
            "- n1",
            "- n2",
            "- #### Morning",
            "\t- early",
            "- #### Evening",
            "---",
            "### Morning",
            "> one",
            "> two",
            "### Evening",
            "> ",
        ])
    );
    let mut lost = archive.get_entry(&home, String::from("e1")).unwrap();
    lost.container = lost.container.child("nowhere");
    assert_eq!(export_entry(&mut lost, store), Err(StoreError::NotFound));
}

#[test]
fn entry_page_of_no_sections() {
    let fields = EntryFields {
        uid: String::from("u"),
        title: String::from("T"),
        description: String::from("D"),
        date: [1, 1, 2000],
        notes: vec![],
        tags: vec![],
        sections: vec![],
    };
    assert_eq!(
        write_entry(&fields),
        strings(&["---", "tags: diary-cli", "---", "# T", "---", "**Description:** D", "## Notes", "---"])
    );
    let fields = EntryFields {
        sections: vec![SectionFields {
            title: String::from("S"),
            content: String::from("\n"),
            notes: vec![],
        }],
        ..fields
    };
    assert_eq!(write_entry(&fields)[7..], strings(&["- #### S", "---", "### S", "> "]));
}

#[test]
fn collection_members_are_read_for_the_page() {
    let (archive, home) = example();
    assert_eq!(
        gather_members(&archive, &strings(&["x"]), &home),
        Ok(Gathered {
            mocs: vec![Member {
                uid: String::from("m1"),
                title: String::from("Map"),
                description: String::from("A map"),
                notes: strings(&["mn"]),
            }],
            entries: vec![
                Member {
                    uid: String::from("e2"),
                    title: String::from("Second"),
                    description: String::from("The \"second\""),
                    notes: strings(&["a \"note\""]),
                },
                Member {
                    uid: String::from("e1"),
                    title: String::from("First"),
                    description: String::from("The first"),
                    notes: strings(&["n1", "n2"]),
                },
            ],
        })
    );
    let nothing = Home { archive: None, backup: None };
    assert_eq!(gather_members(&archive, &strings(&["x"]), &nothing), Err(ArchiveError::NotActive));
}

#[test]
fn moc_page_is_laid_out() {
    let (archive, home) = example();
    let mut moc = archive.get_moc(&home, String::from("m1")).unwrap();
    let page = export_moc(&mut moc, &archive, &home).unwrap();
    assert_eq!(
        page,
        strings(&[
            "---",
            "tags: diary-cli, x, top",
            "---",
            "# Map",
            "---",
            "**Description:** A map",
            "## Notes",
            "- mn",
            "- #### All x",
            "\t- cn",
            "- #### Both",
            "---",
            "## All x",
            "1. \\[[Map](m1)\\] A map `notes: [\"mn\"]`",
            "1. \\[[Second](e2)\\] The \"second\" `notes: [\"a \\\"note\\\"\"]`",
            "2. \\[[First](e1)\\] The first `notes: [\"n1\", \"n2\"]`",
            "## Both",
            "1. \\[[First](e1)\\] The first `notes: [\"n1\", \"n2\"]`",
        ])
    );
}

#[test]
fn vault_holds_the_pages_that_are_chosen() {
    let (archive, home) = example();
    let vault = export_md(&archive, &home, false, None).unwrap();
    let mut entries: Vec<&str> = vault.entries.iter().map(|p| p.uid.as_str()).collect();
    entries.sort();
    assert_eq!(entries, vec!["e1", "e2"]);
    assert_eq!(vault.mocs.len(), 1);
    assert_eq!(vault.mocs[0].uid, "m1");
    assert_eq!(vault.mocs[0].lines[3], "# Map");
    let vault = export_md(&archive, &home, true, Some(strings(&["x", "y"]))).unwrap();
    assert_eq!(vault.entries.len(), 1);
    assert_eq!(vault.entries[0].uid, "e1");
    assert_eq!(vault.entries[0].lines[3], "# First");
    assert_eq!(vault.mocs, vec![]);
    let vault = export_md(&archive, &home, false, Some(strings(&["top", "y"]))).unwrap();
    assert_eq!(vault.entries.len(), 1);
    assert_eq!(vault.mocs.len(), 1);
    let nothing = Home { archive: None, backup: None };
    assert_eq!(export_md(&archive, &nothing, false, None), Err(ArchiveError::NotActive));
}
