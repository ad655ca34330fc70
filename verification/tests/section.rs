use diary_cli::document::{Fault, Field, Files, Invalid, Item, Problem};
use diary_cli::entry::{Section, SectionFields};
use diary_cli::parse::parse_document;
use diary_cli::store::{Container, Scalar, Store, StoreError};

fn files_with(path: &str, text: &str) -> Files {
    Files { listed: vec![(String::from(path), String::from(text))] }
}

fn section_container(store: &mut Store) -> Container {
    store.child_container(&Container::root(), "Section").unwrap()
}

#[test]
fn isol_section() {
    // Setup
    let mut store = Store::new();
    let container = section_container(&mut store);
    let example_path = String::from("/tmp/example-path.txt");
    let files = files_with(&example_path, "example content of a file");
    let toml = format!(
        "
        title = 'Example Title'
        path = '{example_path}'
        notes = [ 'note1', 'note2', 'note3' ]
    "
    );

    // Store
    let mut section = Section::new(
        &parse_document(&toml).unwrap(),
        container,
        "example-entry.toml",
        0,
        &files,
        &mut store,
    )
    .unwrap();

    // Loading the stuff
    section.clear_cache();
    let title = section.title(&store).unwrap().clone();
    let content = section.content(&store).unwrap().clone();
    let notes = section.notes(&store).unwrap();

    assert_eq!(title, "Example Title");
    assert_eq!(content, "example content of a file");
    assert_eq!(notes, &vec![String::from("note1"), String::from("note2"), String::from("note3")]);
}

#[test]
fn section_takes_its_text_from_the_input() {
    let mut store = Store::new();
    let container = section_container(&mut store);
    let doc = parse_document("title = 'T'\ncontents = 'inline text'\nnotes = []").unwrap();
    let mut section =
        Section::new(&doc, container, "e.toml", 3, &Files::none(), &mut store).unwrap();
    assert!(section.title.is_none() && section.content.is_none() && section.notes.is_none());
    assert_eq!(section.content(&store).unwrap(), "inline text");
    assert_eq!(section.notes(&store).unwrap(), &Vec::<String>::new());
    assert_eq!(section.title, None);
    assert_eq!(section.content, Some(String::from("inline text")));
}

fn flaw(part: Option<u16>, field: Field, problem: Problem) -> Fault {
    Fault::Invalid(Invalid { entity: String::from("e.toml"), part, field, problem })
}

fn section_error(toml: &str, files: &Files) -> Fault {
    let mut store = Store::new();
    let container = section_container(&mut store);
    let doc = parse_document(toml).unwrap();
    let result = Section::new(&doc, container.duplicate(), "e.toml", 2, files, &mut store);
    assert_eq!(store.read_data(&container, "title"), Err(StoreError::NotFound));
    match result {
        Ok(_) => panic!("the section was accepted"),
        Err(e) => e,
    }
}

#[test]
fn section_input_is_checked_field_by_field() {
    let none = Files::none();
    assert_eq!(
        section_error("notes = []\ncontents = ''", &none),
        flaw(Some(2), Field::Title, Problem::Missing)
    );
    assert_eq!(
        section_error("title = 1\nnotes = []\ncontents = ''", &none),
        flaw(Some(2), Field::Title, Problem::Mistyped)
    );
    assert_eq!(
        section_error("title = 't'\ncontents = ''", &none),
        flaw(Some(2), Field::Notes, Problem::Missing)
    );
    assert_eq!(
        section_error("title = 't'\nnotes = 'n'\ncontents = ''", &none),
        flaw(Some(2), Field::Notes, Problem::Mistyped)
    );
    assert_eq!(
        section_error("title = 't'\nnotes = []", &none),
        flaw(Some(2), Field::Contents, Problem::Missing)
    );
    assert_eq!(
        section_error("title = 't'\nnotes = []\ncontents = 4", &none),
        flaw(Some(2), Field::Contents, Problem::Mistyped)
    );
    assert_eq!(
        section_error("title = 't'\nnotes = []\npath = 4", &none),
        flaw(Some(2), Field::Path, Problem::Mistyped)
    );
    assert_eq!(
        section_error("title = 't'\nnotes = []\npath = 'gone.txt'\ncontents = 'c'", &none),
        flaw(Some(2), Field::Path, Problem::NoFile)
    );
    assert_eq!(
        section_error("title = 't'\nnotes = ['a', 2]\ncontents = 'c'", &none),
        flaw(Some(2), Field::Notes, Problem::Mistyped)
    );
}

#[test]
fn section_error_names_the_expected_shape() {
    let e = Invalid {
        entity: String::from("e.toml"),
        part: None,
        field: Field::Notes,
        problem: Problem::Mistyped,
    };
    assert_eq!(e.expected(), diary_cli::document::Shape::TextArray);
    let e = Invalid { field: Field::Path, ..e };
    assert_eq!(e.expected(), diary_cli::document::Shape::File);
}

#[test]
fn section_stores_only_what_is_cached() {
    let mut store = Store::new();
    let container = section_container(&mut store);
    let fields = SectionFields {
        title: String::from("old title"),
        content: String::from("old content"),
        notes: vec![String::from("n")],
    };
    let mut section = Section::compose(fields, container.duplicate(), &mut store).unwrap();
    section.title = Some(String::from("new title"));
    section.store_lazy(&mut store).unwrap();
    let mut again = Section::load_lazy(container);
    assert_eq!(again.title(&store).unwrap(), "new title");
    assert_eq!(again.content(&store).unwrap(), "old content");
    assert_eq!(again.notes(&store).unwrap(), &vec![String::from("n")]);
}

#[test]
fn section_cache_answers_before_the_store() {
    let mut store = Store::new();
    let container = section_container(&mut store);
    let mut section = Section::load_lazy(container.duplicate());
    assert_eq!(section.title(&store), Err(StoreError::NotFound));
    assert_eq!(section.fill_cache(&store), Err(StoreError::NotFound));
    store.write_data(&container, "title", Scalar::Text(String::from("stored"))).unwrap();
    assert_eq!(section.title(&store).unwrap(), "stored");
    store.write_data(&container, "title", Scalar::Text(String::from("changed"))).unwrap();
    assert_eq!(section.title(&store).unwrap(), "stored");
    section.clear_cache();
    assert_eq!(section.title(&store).unwrap(), "changed");
    store.write_data(&container, "title", Scalar::U8(1)).unwrap();
    section.clear_cache();
    assert_eq!(section.title(&store), Err(StoreError::WrongType));
}

#[test]
fn section_is_pulled_as_its_input() {
    let mut store = Store::new();
    let container = section_container(&mut store);
    let fields = SectionFields {
        title: String::from("t"),
        content: String::from("c"),
        notes: vec![String::from("n")],
    };
    let mut section = Section::compose(fields, container, &mut store).unwrap();
    let (table, file) = section.pull(12, false, &store).unwrap();
    assert_eq!(
        table,
        vec![
            (String::from("title"), Item::Text(String::from("t"))),
            (String::from("notes"), Item::Array(vec![Item::Text(String::from("n"))])),
            (String::from("path"), Item::Text(String::from("section12.txt"))),
        ]
    );
    assert_eq!(file, Some((String::from("section12.txt"), String::from("c"))));
    assert!(section.title.is_none());
    let (table, file) = section.pull(12, true, &store).unwrap();
    assert_eq!(table[2], (String::from("contents"), Item::Text(String::from("c"))));
    assert_eq!(file, None);
}
