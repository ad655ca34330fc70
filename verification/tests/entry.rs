use diary_cli::document::{Fault, Field, Files, Invalid, Problem};
use diary_cli::entry::{Entry, Section};
use diary_cli::parse::parse_document;
use diary_cli::search::Searchable;
use diary_cli::store::{Container, Store, StoreError};

fn example(example_path: &str) -> String {
    format!(
        "
        [entry]
        uid = 'example'
        title = 'Example Entry Title'
        description = 'Example Entry Description'
        tags = [ '2023', 'entry', 'term1' ]
        notes = [ 'entry-note1', 'entry-note2', 'entry-note3', 'entry-note4' ]
        date = 2023-08-21

        [[section]]
        title = 'Example Section Title'
        notes = [ 'note1', 'note2', 'note3' ]
        path = '{example_path}'

        [[section]]
        title = 'Second'
        notes = []
        contents = 'inline'
    "
    )
}

fn example_files(example_path: &str) -> Files {
    Files { listed: vec![(String::from(example_path), String::from("example content of a file"))] }
}

fn strings(list: &[&str]) -> Vec<String> {
    list.iter().map(|x| String::from(*x)).collect()
}

#[test]
fn isol_entry() {
    let mut store = Store::new();
    let container = store.child_container(&Container::root(), "Entry").unwrap();
    let example_path = String::from("/tmp/example-path.txt");
    let toml = example(&example_path);

    // Store
    let mut entry = Entry::new(
        &parse_document(&toml).unwrap(),
        "example-entry.toml",
        &container,
        &example_files(&example_path),
        &mut store,
    )
    .unwrap();

    // Load
    entry.clear_cache();
    entry.title(&store).unwrap();
    entry.description(&store).unwrap();
    entry.tags(&store).unwrap();
    entry.notes(&store).unwrap();
    entry.date(&store).unwrap();
    entry.sections(&store).unwrap();
    let mut first = Section::load_lazy(entry.sections(&store).unwrap()[0].container.duplicate());
    first.fill_cache(&store).unwrap();
}

#[test]
fn entry_is_read_back_as_it_was_given() {
    let mut store = Store::new();
    let database = store.child_container(&Container::root(), "entries").unwrap();
    let path = "/tmp/example-path.txt";
    let doc = parse_document(&example(path)).unwrap();
    let mut entry =
        Entry::new(&doc, "example-entry.toml", &database, &example_files(path), &mut store)
            .unwrap();
    assert_eq!(entry.uid, "example");
    assert_eq!(entry.container, database.child("example"));
    assert!(entry.title.is_none() && entry.sections.is_none() && entry.date.is_none());
    entry.clear_cache();
    assert_eq!(entry.title(&store).unwrap(), "Example Entry Title");
    assert_eq!(entry.description(&store).unwrap(), "Example Entry Description");
    assert_eq!(entry.tags(&store).unwrap(), &strings(&["2023", "entry", "term1"]));
    assert_eq!(
        entry.notes(&store).unwrap(),
        &strings(&["entry-note1", "entry-note2", "entry-note3", "entry-note4"])
    );
    assert_eq!(entry.date(&store).unwrap(), &[21, 8, 2023]);
    let handles: Vec<Container> =
        entry.sections(&store).unwrap().iter().map(|s| s.container.duplicate()).collect();
    assert_eq!(handles.len(), 2);
    assert_eq!(handles[1], database.child("example").child("sections").child("1"));
    let mut first = Section::load_lazy(handles[0].duplicate());
    assert_eq!(first.title(&store).unwrap(), "Example Section Title");
    assert_eq!(first.content(&store).unwrap(), "example content of a file");
    assert_eq!(first.notes(&store).unwrap(), &strings(&["note1", "note2", "note3"]));
    let mut second = Section::load_lazy(handles[1].duplicate());
    assert_eq!(second.title(&store).unwrap(), "Second");
    assert_eq!(second.content(&store).unwrap(), "inline");
    assert_eq!(second.notes(&store).unwrap(), &Vec::<String>::new());
}

#[test]
fn entry_replaces_an_entry_of_its_uid() {
    let mut store = Store::new();
    let database = store.child_container(&Container::root(), "entries").unwrap();
    let path = "/tmp/example-path.txt";
    let doc = parse_document(&example(path)).unwrap();
    Entry::new(&doc, "e.toml", &database, &example_files(path), &mut store).unwrap();
    let short = "[entry]\nuid = 'example'\ntitle = 't'\ndescription = 'd'\ntags = []\nnotes = []\ndate = 2001-02-03\nsection = []\n";
    let doc = parse_document(&short.replace("section = []\n", "")).unwrap();
    assert!(Entry::new(&doc, "e.toml", &database, &Files::none(), &mut store).is_err());
    let doc = parse_document(&format!("section = []\n{}", short.replace("section = []\n", ""))).unwrap();
    let mut entry = Entry::new(&doc, "e.toml", &database, &Files::none(), &mut store).unwrap();
    assert_eq!(entry.title(&store).unwrap(), "t");
    assert_eq!(entry.date(&store).unwrap(), &[3, 2, 2001]);
    assert_eq!(entry.sections(&store).unwrap().len(), 0);
    let gone = database.child("example").child("sections").child("0");
    assert!(!store.has_container(&gone));
}

fn entry_error(toml: &str) -> Fault {
    let mut store = Store::new();
    let database = store.child_container(&Container::root(), "entries").unwrap();
    let doc = parse_document(toml).unwrap();
    let result = Entry::new(&doc, "e.toml", &database, &Files::none(), &mut store);
    assert_eq!(store.children(&database), Vec::<String>::new());
    match result {
        Ok(_) => panic!("the entry was accepted"),
        Err(e) => e,
    }
}

fn flaw(part: Option<u16>, field: Field, problem: Problem) -> Fault {
    Fault::Invalid(Invalid { entity: String::from("e.toml"), part, field, problem })
}

#[test]
fn entry_input_is_checked_field_by_field() {
    assert_eq!(entry_error("section = []"), flaw(None, Field::Entry, Problem::Missing));
    assert_eq!(entry_error("entry = 1"), flaw(None, Field::Entry, Problem::Mistyped));
    assert_eq!(entry_error("[entry]\ntitle = 't'"), flaw(None, Field::Uid, Problem::Missing));
    assert_eq!(entry_error("[entry]\nuid = 'u'"), flaw(None, Field::Title, Problem::Missing));
    assert_eq!(
        entry_error("[entry]\nuid = 'u'\ntitle = 't'"),
        flaw(None, Field::Description, Problem::Missing)
    );
    let head = "uid = 'u'\ntitle = 't'\ndescription = 'd'\n";
    assert_eq!(
        entry_error(&format!("[entry]\n{head}")),
        flaw(None, Field::Notes, Problem::Missing)
    );
    assert_eq!(
        entry_error(&format!("[entry]\n{head}notes = []")),
        flaw(None, Field::Tags, Problem::Missing)
    );
    assert_eq!(
        entry_error(&format!("[entry]\n{head}notes = []\ntags = []")),
        flaw(None, Field::Section, Problem::Missing)
    );
    assert_eq!(
        entry_error(&format!("section = []\n[entry]\n{head}notes = []\ntags = []")),
        flaw(None, Field::Date, Problem::Missing)
    );
    assert_eq!(
        entry_error(&format!("section = []\n[entry]\n{head}notes = []\ntags = []\ndate = 07:32:00")),
        flaw(None, Field::Date, Problem::NoDate)
    );
    assert_eq!(
        entry_error(&format!("section = []\n[entry]\n{head}notes = []\ntags = []\ndate = '2023'")),
        flaw(None, Field::Date, Problem::Mistyped)
    );
    assert_eq!(
        entry_error(&format!(
            "section = []\n[entry]\n{head}notes = [1]\ntags = [2]\ndate = 2023-01-01"
        )),
        flaw(None, Field::Notes, Problem::Mistyped)
    );
    assert_eq!(
        entry_error(&format!(
            "section = []\n[entry]\n{head}notes = []\ntags = [2]\ndate = 2023-01-01"
        )),
        flaw(None, Field::Tags, Problem::Mistyped)
    );
    assert_eq!(
        entry_error(&format!(
            "section = [1]\n[entry]\n{head}notes = []\ntags = []\ndate = 2023-01-01"
        )),
        flaw(Some(0), Field::Section, Problem::Mistyped)
    );
    assert_eq!(
        entry_error(&format!(
            "[entry]\n{head}notes = []\ntags = []\ndate = 2023-01-01\n[[section]]\ntitle = 'a'\nnotes = []\ncontents = ''\n[[section]]\ntitle = 'b'\nnotes = []"
        )),
        flaw(Some(1), Field::Contents, Problem::Missing)
    );
}

#[test]
fn entry_needs_its_database() {
    let mut store = Store::new();
    let database = Container::root().child("entries");
    let doc = parse_document(&example("p")).unwrap();
    let result = Entry::new(&doc, "e.toml", &database, &example_files("p"), &mut store);
    assert!(matches!(result, Err(Fault::Store(StoreError::NotFound))));
}

#[test]
fn entry_has_the_tags_that_were_given() {
    let mut store = Store::new();
    let database = store.child_container(&Container::root(), "entries").unwrap();
    let doc = parse_document(&example("p")).unwrap();
    let mut entry = Entry::new(&doc, "e.toml", &database, &example_files("p"), &mut store).unwrap();
    assert_eq!(entry.get_uid(), "example");
    assert_eq!(entry.contains_tag(&String::from("entry"), &store), Ok(true));
    assert_eq!(entry.contains_tag(&String::from("term2"), &store), Ok(false));
    let mut lost = Entry::load_lazy(String::from("lost"), database.child("lost"));
    assert_eq!(lost.contains_tag(&String::from("entry"), &store), Err(StoreError::NotFound));
}

#[test]
fn entry_of_too_many_sections_is_refused() {
    let sections: Vec<diary_cli::document::Item> =
        (0..65536u32).map(|_| diary_cli::document::Item::Table(vec![])).collect();
    let result = diary_cli::entry::check_sections(&sections, "e.toml", &Files::none());
    assert_eq!(
        result,
        Err(Invalid {
            entity: String::from("e.toml"),
            part: None,
            field: Field::Section,
            problem: Problem::TooMany,
        })
    );
    let mut store = Store::new();
    let database = store.child_container(&Container::root(), "entries").unwrap();
    let fields = diary_cli::entry::EntryFields {
        uid: String::from("u"),
        title: String::new(),
        description: String::new(),
        date: [1, 1, 2000],
        notes: vec![],
        tags: vec![],
        sections: (0..65536u32)
            .map(|_| diary_cli::entry::SectionFields {
                title: String::new(),
                content: String::new(),
                notes: vec![],
            })
            .collect(),
    };
    assert!(matches!(Entry::compose(fields, &database, &mut store), Err(StoreError::TooLong)));
    assert_eq!(store.children(&database), Vec::<String>::new());
}

#[test]
fn entry_stores_only_what_is_cached() {
    let mut store = Store::new();
    let database = store.child_container(&Container::root(), "entries").unwrap();
    let doc = parse_document(&example("p")).unwrap();
    let mut entry = Entry::new(&doc, "e.toml", &database, &example_files("p"), &mut store).unwrap();
    entry.description = Some(String::from("changed"));
    entry.date = Some([1, 2, 2003]);
    entry.store_lazy(&mut store).unwrap();
    let mut again = Entry::load_lazy(String::from("example"), database.child("example"));
    assert_eq!(again.title(&store).unwrap(), "Example Entry Title");
    assert_eq!(again.description(&store).unwrap(), "changed");
    assert_eq!(again.date(&store).unwrap(), &[1, 2, 2003]);
    assert_eq!(again.tags(&store).unwrap(), &strings(&["2023", "entry", "term1"]));
    assert_eq!(again.sections(&store).unwrap().len(), 2);
}
