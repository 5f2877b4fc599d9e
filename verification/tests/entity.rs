use dbpedia_abstracts::document::get_resource_url;
use dbpedia_abstracts::entity::{
    find_target, find_target_of_key, is_url, read_entities, strip_brackets, Target,
};
use dbpedia_abstracts::harvest::{open_entity, Opening};
use dbpedia_abstracts::output::RecordWriter;
use dbpedia_abstracts::task::{Action, Event};

fn resource(key: &str) -> Option<String> {
    match find_target_of_key(key) {
        Target::Resource(name) => Some(name),
        _ => None,
    }
}

#[test]
fn a_key_names_the_resource_behind_its_last_slash() {
    assert_eq!(
        resource("<http://dbpedia.org/resource/Rust_(programming_language)>").unwrap(),
        "Rust_(programming_language)"
    );
    assert_eq!(resource("http://dbpedia.org/resource/Example").unwrap(), "Example");
    assert_eq!(resource("http://dbpedia.org/resource/").unwrap(), "");
    assert_eq!(resource("http://dbpedia.org/resource/Caf\u{e9}").unwrap(), "Caf\u{e9}");
}

#[test]
fn brackets_come_off_only_in_pairs() {
    assert_eq!(strip_brackets("<a>"), "a");
    assert_eq!(strip_brackets("<<a>>"), "<a>");
    assert_eq!(strip_brackets("<>"), "");
    assert_eq!(strip_brackets("<a"), "<a");
    assert_eq!(strip_brackets("a>"), "a>");
    assert_eq!(strip_brackets("<"), "<");
    assert_eq!(strip_brackets(""), "");
}

#[test]
fn only_absolute_urls_are_urls() {
    assert!(is_url("http://dbpedia.org/resource/Example"));
    assert!(is_url("mailto:someone@dbpedia.org"));
    assert!(!is_url("dbpedia.org/resource/Example"));
    assert!(!is_url(""));
    assert!(!is_url("http://"));
}

#[test]
fn other_keys_name_no_resource() {
    assert!(matches!(find_target_of_key("<Example>"), Target::NotDbpedia(url) if url == "Example"));
    assert!(matches!(
        find_target_of_key("http://example.org/resource/Example"),
        Target::NotDbpedia(url) if url == "http://example.org/resource/Example"
    ));
    assert!(matches!(
        find_target_of_key("<mailto:someone@dbpedia.org>"),
        Target::NoResourceName(url) if url == "mailto:someone@dbpedia.org"
    ));
}

#[test]
fn whether_it_is_a_url_decides_with_the_text() {
    let url = "x/dbpedia.org/y".to_string();
    assert!(matches!(find_target(url.clone(), true), Target::Resource(name) if name == "y"));
    assert!(matches!(find_target(url.clone(), false), Target::NotDbpedia(u) if u == url));
    assert!(matches!(find_target("dbpedia.org".to_string(), true), Target::NoResourceName(_)));
    assert!(matches!(find_target("dbpedia.or/g".to_string(), true), Target::NotDbpedia(_)));
}

#[test]
fn the_entity_list_is_read_entry_by_entry() {
    let mut entries =
        read_entities(r#"{"<http://dbpedia.org/resource/B>": 7, "<http://dbpedia.org/resource/A>": 0}"#)
            .unwrap();
    entries.sort();
    assert_eq!(
        entries,
        vec![
            ("<http://dbpedia.org/resource/A>".to_string(), 0),
            ("<http://dbpedia.org/resource/B>".to_string(), 7),
        ]
    );
    assert!(read_entities("{}").unwrap().is_empty());
    assert!(read_entities("[]").is_err());
    assert!(read_entities(r#"{"a": -1}"#).is_err());
    assert!(read_entities(r#"{"a": "1"}"#).is_err());
}

#[test]
fn an_entity_with_a_resource_opens_with_a_request() {
    match open_entity("<http://dbpedia.org/resource/Example>", 9) {
        Opening::Work { task, action } => {
            assert_eq!(task.resource_name(), "Example");
            assert!(matches!(
                action,
                Action::Request { url, timeout_secs: 10 }
                    if url == "https://dbpedia.org/data/Example.json"
            ));
        }
        Opening::Skip { .. } => panic!("skipped"),
    }
}

#[test]
fn an_entity_without_a_resource_still_gets_a_record() {
    match open_entity("<nowhere>", 9) {
        Opening::Skip { target, action } => {
            assert!(matches!(target, Target::NotDbpedia(url) if url == "nowhere"));
            assert!(matches!(action, Action::Send { id: 9, text } if text.is_empty()));
        }
        Opening::Work { .. } => panic!("worked on"),
    }
}

#[test]
fn the_address_of_a_resource_names_it_with_brackets_and_without() {
    for name in ["Example", "Rust_(programming_language)", "Quo_Vadis_(1951_film)", ""] {
        let url = get_resource_url(name);
        assert_eq!(resource(&url).unwrap(), name);
        assert_eq!(resource(&format!("<{}>", url)).unwrap(), name);
    }
}

#[test]
fn each_entity_has_one_member_in_the_file() {
    let entities = [
        ("<http://dbpedia.org/resource/A>", 3),
        ("nowhere", 1),
        ("http://dbpedia.org/resource/B", 2),
    ];
    let (mut writer, mut file) = RecordWriter::open();
    let mut arrived = Vec::new();
    for (key, id) in entities {
        let mut action = match open_entity(key, id) {
            Opening::Skip { action, .. } => action,
            Opening::Work { mut task, mut action } => {
                let mut reads = 0;
                loop {
                    let event = match action {
                        Action::Request { .. } => Event::Answer(200),
                        Action::ReadBody if reads == 0 => {
                            reads += 1;
                            Event::Body("{}".to_string())
                        }
                        Action::ReadBody => {
                            Event::Body(format!("<p class='lead'>About {}</p>", task.resource_name()))
                        }
                        _ => break,
                    };
                    assert!(task.accepts(&event));
                    action = task.step(event);
                }
                action
            }
        };
        if let Action::Send { id: sent, text } = &mut action {
            assert_eq!(*sent, id);
            arrived.push(*sent);
            file.push_str(&writer.record(id, text));
        } else {
            panic!("no record");
        }
    }
    arrived.sort();
    assert_eq!(arrived, [1, 2, 3]);
    file.push_str(&writer.close());
    assert_eq!(file, r#"{"3":"About A","1":"","2":"About B"}"#);
}
