use dbpedia_abstracts::page::{
    choose_text, extract_abstract_from_page, fits_within, join_texts, MAX_PARSED_BYTES,
};

fn list(texts: Vec<&str>) -> Option<Vec<String>> {
    let mut strings = Vec::new();
    for text in texts {
        strings.push(text.to_string());
    }
    Some(strings)
}

#[test]
fn the_marked_english_text_of_a_page_is_found() {
    let body = r#"<html><body><p class="lead">Lead.</p>
        <span property="dbo:abstract" lang="de">Deutsch.</span>
        <span property="dbo:abstract" lang="en">  The <b>abstract</b>.
        </span></body></html>"#;
    assert_eq!(extract_abstract_from_page(body), "The abstract.");
}

#[test]
fn the_leading_paragraph_stands_in_for_a_missing_mark() {
    let body = r#"<p class="lead big"> About this. </p><p class="lead">More.</p>
        <span property="dbo:abstract" lang="en"> </span>"#;
    assert_eq!(extract_abstract_from_page(body), "About this.");
}

#[test]
fn a_page_without_an_abstract_gives_an_empty_text() {
    assert_eq!(extract_abstract_from_page(""), "");
    assert_eq!(extract_abstract_from_page("<p>Nothing here.</p>"), "");
    assert_eq!(extract_abstract_from_page("no markup at all"), "");
    assert_eq!(extract_abstract_from_page("<p class=\"lead\"> \n </p>"), "");
}

#[test]
fn the_first_marked_text_that_is_not_blank_is_chosen() {
    assert_eq!(choose_text(list(vec!["", " \t", " a ", "b"]), list(vec!["c"])), "a");
    assert_eq!(choose_text(list(vec![" x"]), None), "x");
}

#[test]
fn only_the_first_leading_paragraph_is_looked_at() {
    assert_eq!(choose_text(list(vec![" "]), list(vec![" c\u{a0}", "d"])), "c");
    assert_eq!(choose_text(list(vec![]), list(vec![" ", "d"])), "");
    assert_eq!(choose_text(list(vec![]), list(vec![])), "");
}

#[test]
fn without_a_selection_there_is_no_text() {
    assert_eq!(choose_text(None, list(vec!["c"])), "");
    assert_eq!(choose_text(list(vec![]), None), "");
}

#[test]
fn the_pieces_of_an_element_are_joined_with_nothing_between() {
    let elements = vec![
        vec!["a".to_string(), " b".to_string(), "c ".to_string()],
        vec![],
        vec!["d".to_string()],
    ];
    assert_eq!(join_texts(Some(elements)), list(vec!["a bc ", "", "d"]));
    assert_eq!(join_texts(None), None);
    assert_eq!(
        extract_abstract_from_page("<p class=\"lead\">one<i>two</i><b> three</b></p>"),
        "onetwo three"
    );
}

#[test]
fn a_page_is_measured_as_it_is_parsed() {
    for (html, bytes) in [
        ("a", 1),
        ("\0", 3),
        ("&", 2),
        ("&nGt;", 6),
        ("\u{7f}", 1),
        ("\u{80}", 2),
        ("\u{7ff}", 2),
        ("\u{800}", 3),
        ("\u{ffff}", 3),
        ("\u{10000}", 4),
        ("a\u{e9}&\0", 8),
    ] {
        assert!(fits_within(html, bytes));
        assert!(!fits_within(html, bytes - 1));
    }
    assert!(fits_within("", 0));
    assert!(fits_within("<p>A page.</p>", MAX_PARSED_BYTES));
    assert!(fits_within("<p>A page.</p>", u64::MAX));
}

#[test]
fn a_page_grows_no_further_than_it_is_measured() {
    for inner in ["&nGt;", "&nLt;", "&nGt;&nLt;", "&#0;", "&amp;", "\u{e9}", "plain"] {
        let body = format!(r#"<span property="dbo:abstract" lang="en">{}</span>"#, inner);
        let text = extract_abstract_from_page(&body);
        assert!(!text.is_empty());
        let mut bytes: u64 = 0;
        while !fits_within(inner, bytes) {
            bytes += 1;
        }
        assert!(text.len() as u64 <= bytes);
    }
    let body = r#"<span property="dbo:abstract" lang="en">&nGt;</span>"#;
    assert_eq!(extract_abstract_from_page(body), "\u{226b}\u{20d2}");
}
