use diary_cli::document::{Fault, Field, Invalid, Problem};
use diary_cli::moc::{Collection, CollectionFields, MOC};
use diary_cli::parse::parse_document;
use diary_cli::search::Searchable;
use diary_cli::store::{Container, Store, StoreError};

const EXAMPLE: &str = "
    [moc]
    uid = 'term1'
    title = 'Term 1'
    description = 'All of term 1'
    groups = [ '2023', 'moc' ]
    notes = [ 'a note' ]

    [[collection]]
    title = 'Entries'
    notes = [ 'n1', 'n2' ]
    include = [ 'term1', 'entry' ]

    [[collection]]
    title = 'Maps'
    notes = []
    include = [ 'moc' ]
";

fn strings(list: &[&str]) -> Vec<String> {
    list.iter().map(|x| String::from(*x)).collect()
}

#[test]
fn moc_is_read_back_as_it_was_given() {
    let mut store = Store::new();
    let database = store.child_container(&Container::root(), "mocs").unwrap();
    let doc = parse_document(EXAMPLE).unwrap();
    let mut moc = MOC::new(&doc, "moc.toml", &database, &mut store).unwrap();
    assert_eq!(moc.uid, "term1");
    assert_eq!(moc.container, database.child("term1"));
    assert!(moc.title.is_none() && moc.tags.is_none() && moc.collections.is_none());
    assert_eq!(moc.title(&store).unwrap(), "Term 1");
    assert_eq!(moc.description(&store).unwrap(), "All of term 1");
    assert_eq!(moc.tags(&store).unwrap(), &strings(&["2023", "moc"]));
    assert_eq!(moc.notes(&store).unwrap(), &strings(&["a note"]));
    let handles: Vec<Container> =
        moc.collections(&store).unwrap().iter().map(|c| c.container.duplicate()).collect();
    assert_eq!(handles.len(), 2);
    let mut first = Collection::load_lazy(handles[0].duplicate());
    assert_eq!(first.title(&store).unwrap(), "Entries");
    assert_eq!(first.notes(&store).unwrap(), &strings(&["n1", "n2"]));
    assert_eq!(first.included(&store).unwrap(), &strings(&["term1", "entry"]));
    let mut second = Collection::load_lazy(handles[1].duplicate());
    second.fill_cache(&store).unwrap();
    assert_eq!(second.title, Some(String::from("Maps")));
    assert_eq!(second.notes, Some(vec![]));
    assert_eq!(second.included, Some(strings(&["moc"])));
    second.clear_cache();
    assert!(second.title.is_none() && second.notes.is_none() && second.included.is_none());
}

#[test]
fn moc_has_the_groups_that_were_given() {
    let mut store = Store::new();
    let database = store.child_container(&Container::root(), "mocs").unwrap();
    let doc = parse_document(EXAMPLE).unwrap();
    let mut moc = MOC::new(&doc, "moc.toml", &database, &mut store).unwrap();
    assert_eq!(moc.get_uid(), "term1");
    assert_eq!(moc.contains_tag(&String::from("moc"), &store), Ok(true));
    assert_eq!(moc.contains_tag(&String::from("entry"), &store), Ok(false));
}

fn moc_error(toml: &str) -> Fault {
    let mut store = Store::new();
    let database = store.child_container(&Container::root(), "mocs").unwrap();
    let doc = parse_document(toml).unwrap();
    let result = MOC::new(&doc, "m.toml", &database, &mut store);
    assert_eq!(store.children(&database), Vec::<String>::new());
    match result {
        Ok(_) => panic!("the map of content was accepted"),
        Err(e) => e,
    }
}

fn flaw(part: Option<u16>, field: Field, problem: Problem) -> Fault {
    Fault::Invalid(Invalid { entity: String::from("m.toml"), part, field, problem })
}

#[test]
fn moc_input_is_checked_field_by_field() {
    assert_eq!(moc_error("collection = []"), flaw(None, Field::Moc, Problem::Missing));
    assert_eq!(moc_error("[moc]\ntitle = 't'"), flaw(None, Field::Uid, Problem::Missing));
    let head = "uid = 'u'\ntitle = 't'\ndescription = 'd'\nnotes = []\n";
    assert_eq!(moc_error(&format!("[moc]\n{head}")), flaw(None, Field::Groups, Problem::Missing));
    assert_eq!(
        moc_error(&format!("[moc]\n{head}groups = []")),
        flaw(None, Field::Collection, Problem::Missing)
    );
    assert_eq!(
        moc_error(&format!("collection = 3\n[moc]\n{head}groups = []")),
        flaw(None, Field::Collection, Problem::Mistyped)
    );
    assert_eq!(
        moc_error(&format!("collection = []\n[moc]\n{head}groups = ['a', true]")),
        flaw(None, Field::Groups, Problem::Mistyped)
    );
    assert_eq!(
        moc_error(&format!("[moc]\n{head}groups = []\n[[collection]]\ntitle = 'c'\nnotes = []")),
        flaw(Some(0), Field::Include, Problem::Missing)
    );
    assert_eq!(
        moc_error(&format!(
            "[moc]\n{head}groups = []\n[[collection]]\ntitle = 'c'\nnotes = []\ninclude = [1]"
        )),
        flaw(Some(0), Field::Include, Problem::Mistyped)
    );
}

#[test]
fn collection_stores_only_what_is_cached() {
    let mut store = Store::new();
    let container = store.child_container(&Container::root(), "Collection").unwrap();
    let fields = CollectionFields {
        title: String::from("old"),
        notes: strings(&["n"]),
        included: strings(&["x", "y"]),
    };
    let mut collection = Collection::compose(fields, container.duplicate(), &mut store).unwrap();
    collection.included = Some(strings(&["z"]));
    collection.store_lazy(&mut store).unwrap();
    let mut again = Collection::load_lazy(container.duplicate());
    assert_eq!(again.title(&store).unwrap(), "old");
    assert_eq!(again.notes(&store).unwrap(), &strings(&["n"]));
    assert_eq!(again.included(&store).unwrap(), &strings(&["z"]));
    let mut lost = Collection::load_lazy(container.child("lost"));
    assert_eq!(lost.fill_cache(&store), Err(StoreError::NotFound));
}
