use diary_cli::document::{
    find, get_array, get_bool, get_date, get_strings, get_table, get_text, Date, Files, Item,
    Problem,
};
use diary_cli::parse::{array_to_date, parse_document, SyntaxError};

#[test]
fn document_is_parsed_into_items() {
    let doc = parse_document(
        "a = 'text'\nb = 3\nc = true\nd = 2023-08-21\ne = 07:32:00\nf = 1.5\ng = [1, 'x']\n[t]\nk = 'v'\n",
    )
    .unwrap();
    assert_eq!(
        doc,
        vec![
            (String::from("a"), Item::Text(String::from("text"))),
            (String::from("b"), Item::Integer(3)),
            (String::from("c"), Item::Bool(true)),
            (String::from("d"), Item::Datetime(Some(Date { year: 2023, month: 8, day: 21 }))),
            (String::from("e"), Item::Datetime(None)),
            (String::from("f"), Item::Float),
            (String::from("g"), Item::Array(vec![Item::Integer(1), Item::Text(String::from("x"))])),
            (
                String::from("t"),
                Item::Table(vec![(String::from("k"), Item::Text(String::from("v")))])
            ),
        ]
    );
    assert_eq!(parse_document("a = "), Err(SyntaxError));
    assert_eq!(parse_document(""), Ok(vec![]));
}

#[test]
fn document_fields_are_picked_by_type() {
    let doc = parse_document("a = 'text'\nc = true\nd = 2023-08-21\ne = 07:32:00\ng = ['x', 'y']\nh = [1]\n[t]\nk = 'v'\n")
        .unwrap();
    assert_eq!(find(&doc, "a"), Some(&Item::Text(String::from("text"))));
    assert_eq!(find(&doc, "z"), None);
    assert_eq!(get_text(&doc, "a"), Ok(String::from("text")));
    assert_eq!(get_text(&doc, "c"), Err(Problem::Mistyped));
    assert_eq!(get_text(&doc, "z"), Err(Problem::Missing));
    assert_eq!(get_bool(&doc, "c"), Ok(true));
    assert_eq!(get_bool(&doc, "a"), Err(Problem::Mistyped));
    assert_eq!(get_date(&doc, "d"), Ok([21, 8, 2023]));
    assert_eq!(get_date(&doc, "e"), Err(Problem::NoDate));
    assert_eq!(get_date(&doc, "a"), Err(Problem::Mistyped));
    assert_eq!(get_date(&doc, "z"), Err(Problem::Missing));
    assert_eq!(get_strings(get_array(&doc, "g").unwrap()), Ok(vec![String::from("x"), String::from("y")]));
    assert_eq!(get_strings(get_array(&doc, "h").unwrap()), Err(Problem::Mistyped));
    assert_eq!(get_array(&doc, "a"), Err(Problem::Mistyped));
    assert_eq!(get_table(&doc, "t").unwrap().len(), 1);
    assert_eq!(get_table(&doc, "g"), Err(Problem::Mistyped));
}

#[test]
fn document_array_of_too_many_strings() {
    let items: Vec<Item> = (0..65536u32).map(|_| Item::Text(String::new())).collect();
    assert_eq!(get_strings(&items), Err(Problem::TooMany));
}

#[test]
fn files_are_read_by_path() {
    let files = Files {
        listed: vec![
            (String::from("a.txt"), String::from("first")),
            (String::from("b.txt"), String::from("b")),
            (String::from("a.txt"), String::from("second")),
        ],
    };
    assert_eq!(files.read(&String::from("a.txt")), Some(String::from("first")));
    assert_eq!(files.read(&String::from("b.txt")), Some(String::from("b")));
    assert_eq!(files.read(&String::from("c.txt")), None);
    assert_eq!(Files::none().read(&String::from("a.txt")), None);
}

#[test]
fn date_is_written_where_the_calendar_has_the_day() {
    assert_eq!(array_to_date(&[21, 8, 2023]), Some(Date { year: 2023, month: 8, day: 21 }));
    assert_eq!(array_to_date(&[29, 2, 2024]), Some(Date { year: 2024, month: 2, day: 29 }));
    assert_eq!(array_to_date(&[1, 1, 0]), Some(Date { year: 0, month: 1, day: 1 }));
    assert_eq!(array_to_date(&[31, 12, 9999]), Some(Date { year: 9999, month: 12, day: 31 }));
    assert_eq!(array_to_date(&[29, 2, 2023]), None);
    assert_eq!(array_to_date(&[1, 1, 10000]), None);
    assert_eq!(array_to_date(&[0, 1, 2023]), None);
    assert_eq!(array_to_date(&[1, 13, 2023]), None);
    assert_eq!(array_to_date(&[100, 1, 2023]), None);
    assert_eq!(array_to_date(&[1, 300, 2023]), None);
}
