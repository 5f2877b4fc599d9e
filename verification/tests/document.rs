use dbpedia_abstracts::document::{
    extract_abstract_from_json, find_abstract, get_abstract, get_json_url, get_resource_url,
    is_english, look_up, look_up_abstract, Lookup,
};
use dbpedia_abstracts::json::{get, parse_document, Json};

const FILM_YEAR: &str = r#"{
  "http://dbpedia.org/resource/1978_in_film": {
    "http://dbpedia.org/ontology/wikiPageWikiLink": [
      { "type": "uri", "value": "http://dbpedia.org/resource/1979_in_film" }
    ]
  },
  "http://dbpedia.org/resource/1979_in_film": {
    "http://www.w3.org/2000/01/rdf-schema#label": [
      { "type": "literal", "value": "1979 in film", "lang": "en" }
    ],
    "http://dbpedia.org/ontology/abstract": [
      { "type": "literal", "value": "1979 au cinéma.", "lang": "fr" },
      { "type": "literal", "value": "The year 1979 in film involved many significant events.", "lang": "en" }
    ]
  }
}"#;

fn text(s: &str) -> Json {
    Json::Text(s.to_string())
}

fn object(entries: Vec<(&str, Json)>) -> Json {
    let mut list = Vec::new();
    for (key, value) in entries {
        list.push((key.to_string(), value));
    }
    Json::Object(list)
}

fn literal(lang: &str, value: &str) -> Json {
    object(vec![("lang", text(lang)), ("value", text(value))])
}

fn film(abstracts: Vec<Json>) -> Json {
    object(vec![(
        "http://dbpedia.org/resource/Film",
        object(vec![("http://dbpedia.org/ontology/abstract", Json::Array(abstracts))]),
    )])
}

#[test]
fn test_get_abstract() {
    assert_eq!(
        get_abstract(FILM_YEAR, "1979_in_film").unwrap(),
        "The year 1979 in film involved many significant events."
    );
}

#[test]
fn test_extract_abstracts_from_json() {
    assert_eq!(
        extract_abstract_from_json(FILM_YEAR, "1979_in_film"),
        "The year 1979 in film involved many significant events."
    );
    assert_eq!(extract_abstract_from_json(FILM_YEAR, "Quo_Vadis_(1951_film)"), "");
}

#[test]
fn the_documents_have_their_addresses() {
    assert_eq!(
        get_json_url("Quo_Vadis_(1951_film)"),
        "https://dbpedia.org/data/Quo_Vadis_(1951_film).json"
    );
    assert_eq!(
        get_resource_url("Quo_Vadis_(1951_film)"),
        "http://dbpedia.org/resource/Quo_Vadis_(1951_film)"
    );
}

#[test]
fn a_text_that_is_no_json_counts_as_an_empty_abstract() {
    assert_eq!(get_abstract("<html>", "Film"), Some(String::new()));
    assert_eq!(get_abstract("", "Film"), Some(String::new()));
    assert!(matches!(look_up_abstract("{", "Film"), Lookup::Malformed(_)));
    assert_eq!(extract_abstract_from_json("<html>", "Film"), "");
    assert_eq!(extract_abstract_from_json("", "Film"), "");
}

#[test]
fn a_document_that_is_no_object_has_no_abstract() {
    assert_eq!(get_abstract("[]", "Film"), None);
    assert_eq!(get_abstract("null", "Film"), None);
    assert_eq!(get_abstract("\"Film\"", "Film"), None);
    assert!(matches!(look_up_abstract("17", "Film"), Lookup::Missing));
    assert_eq!(extract_abstract_from_json("true", "Film"), "");
}

#[test]
fn the_first_english_text_is_found() {
    let root = film(vec![
        literal("de", "Ein Film."),
        literal("EN", "A film."),
        literal("en", "Another film."),
    ]);
    assert_eq!(find_abstract(&root, "Film"), Some("A film.".to_string()));
    assert_eq!(find_abstract(&root, "resource/Film"), Some("A film.".to_string()));
    assert_eq!(find_abstract(&root, "Movie"), None);
}

#[test]
fn items_without_a_language_or_a_text_are_passed_over() {
    let root = film(vec![
        Json::Null,
        text("en"),
        object(vec![("value", text("No language."))]),
        object(vec![("lang", Json::Number), ("value", text("Odd language."))]),
        object(vec![("lang", text("en"))]),
        object(vec![("lang", text("en")), ("value", Json::Bool(true))]),
        literal("en", "At last."),
    ]);
    assert_eq!(find_abstract(&root, "Film"), Some("At last.".to_string()));
}

#[test]
fn a_matching_key_with_another_kind_of_value_is_passed_over() {
    let root = object(vec![
        ("a/Film", text("no object")),
        (
            "b/Film",
            object(vec![
                ("x/abstract", text("no array")),
                ("y/abstract", Json::Array(vec![literal("en", "Found.")])),
            ]),
        ),
    ]);
    assert_eq!(find_abstract(&root, "Film"), Some("Found.".to_string()));
}

#[test]
fn only_the_first_resource_and_its_first_abstracts_are_searched() {
    let root = object(vec![
        ("a/Film", object(vec![])),
        ("b/Film", object(vec![("abstract", Json::Array(vec![literal("en", "Too late.")]))])),
    ]);
    assert_eq!(find_abstract(&root, "Film"), None);
    let root = object(vec![(
        "a/Film",
        object(vec![
            ("x/abstract", Json::Array(vec![literal("fr", "Un film.")])),
            ("y/abstract", Json::Array(vec![literal("en", "Too late.")])),
        ]),
    )]);
    assert_eq!(find_abstract(&root, "Film"), None);
}

#[test]
fn what_the_parser_made_decides_the_lookup() {
    let root = film(vec![literal("en", "A film.")]);
    assert!(matches!(look_up(Ok(root), "Film"), Lookup::Found(t) if t == "A film."));
    let root = film(vec![]);
    let lookup = look_up(Ok(root), "Film");
    assert!(matches!(lookup, Lookup::Missing));
    assert_eq!(lookup.to_abstract(), None);
    let lookup = look_up(parse_document("{]"), "Film");
    assert!(matches!(lookup, Lookup::Malformed(_)));
    assert_eq!(lookup.to_abstract(), Some(String::new()));
}

#[test]
fn english_is_english_in_any_case() {
    assert!(is_english("en"));
    assert!(is_english("EN"));
    assert!(is_english("En"));
    assert!(is_english("eN"));
    assert!(!is_english("und"));
    assert!(!is_english("en-GB"));
    assert!(!is_english(""));
    assert!(!is_english("\u{395}N"));
}

#[test]
fn json_is_read_into_plain_values() {
    let root = parse_document(r#"{"b": [null, true, 1.5, "x\n"], "a": {}}"#).unwrap();
    let entries = root.as_object().unwrap();
    assert_eq!(entries.len(), 2);
    assert_eq!(entries[0].0, "a");
    assert_eq!(entries[1].0, "b");
    assert_eq!(get(entries, "a").unwrap().as_object().unwrap().len(), 0);
    let items = get(entries, "b").unwrap().as_array().unwrap();
    assert!(matches!(items[0], Json::Null));
    assert!(matches!(items[1], Json::Bool(true)));
    assert!(matches!(items[2], Json::Number));
    assert_eq!(items[3].as_str().unwrap(), "x\n");
    assert!(get(entries, "c").is_none());
    assert!(items[3].as_object().is_none());
    assert!(items[3].as_array().is_none());
    assert!(root.as_str().is_none());
    assert!(parse_document("{\"a\": 1,}").is_err());
}

#[test]
fn a_key_that_is_given_twice_is_kept_once() {
    let root = parse_document(r#"{"a": "first", "a": "second"}"#).unwrap();
    let entries = root.as_object().unwrap();
    assert_eq!(entries.len(), 1);
    assert_eq!(get(entries, "a").unwrap().as_str().unwrap(), "second");
}

#[test]
fn the_resource_under_its_own_address_wins_over_a_longer_key() {
    let document = r#"{"http://dbpedia.org/resource/Not_X":{"http://dbpedia.org/ontology/abstract":[{"lang":"en","value":"wrong"}]},"http://dbpedia.org/resource/X":{"http://dbpedia.org/ontology/abstract":[{"lang":"en","value":"right"}]}}"#;
    assert_eq!(get_abstract(document, "X"), Some("right".to_string()));
    assert_eq!(get_abstract(document, "Not_X"), Some("wrong".to_string()));
}

#[test]
fn the_property_of_abstracts_wins_over_a_longer_key() {
    let root = object(vec![(
        "http://dbpedia.org/resource/X",
        object(vec![
            ("http://a.org/abstract", Json::Array(vec![literal("en", "wrong")])),
            ("http://dbpedia.org/ontology/abstract", Json::Array(vec![literal("en", "right")])),
        ]),
    )]);
    assert_eq!(find_abstract(&root, "X"), Some("right".to_string()));
}

#[test]
fn an_exact_key_with_another_kind_of_value_does_not_count() {
    let root = object(vec![
        ("http://dbpedia.org/resource/X", Json::Null),
        (
            "http://de.dbpedia.org/resource/X",
            object(vec![
                ("http://dbpedia.org/ontology/abstract", text("no array")),
                ("http://a.org/abstract", Json::Array(vec![literal("en", "right")])),
            ]),
        ),
    ]);
    assert_eq!(find_abstract(&root, "X"), Some("right".to_string()));
}

#[test]
fn extracting_gives_the_abstract_or_an_empty_text() {
    for document in ["", "{", "null", "{}", FILM_YEAR] {
        for name in ["1979_in_film", "Film"] {
            assert_eq!(
                extract_abstract_from_json(document, name),
                get_abstract(document, name).unwrap_or_default()
            );
        }
    }
}
