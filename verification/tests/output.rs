use dbpedia_abstracts::number::{decimal_text, parse_usize};
use dbpedia_abstracts::options::{read_limit, Limit};
use dbpedia_abstracts::output::RecordWriter;
use dbpedia_abstracts::quote::quote;
use std::collections::HashMap;

fn file(records: &[(u64, &str)]) -> String {
    let (mut writer, mut all) = RecordWriter::open();
    for (id, text) in records {
        all.push_str(&writer.record(*id, text));
    }
    all.push_str(&writer.close());
    all
}

#[test]
fn the_file_is_one_object() {
    assert_eq!(file(&[]), "{}");
    assert_eq!(file(&[(7, "seven")]), r#"{"7":"seven"}"#);
    assert_eq!(file(&[(7, ""), (0, "a\"b"), (10, "c\n")]), r#"{"7":"","0":"a\"b","10":"c\n"}"#);
}

#[test]
fn the_file_reads_back_as_json() {
    let texts = ["", "plain", "quote \" and \\ slash /", "\u{1}\u{1f}\u{7f}\u{e9}\u{1f980}", "}\",{"];
    let mut records = Vec::new();
    for (i, text) in texts.iter().enumerate() {
        records.push((i as u64 * 1000, *text));
    }
    let read: HashMap<String, String> = serde_json::from_str(&file(&records)).unwrap();
    assert_eq!(read.len(), texts.len());
    for (id, text) in records {
        assert_eq!(read[&id.to_string()], text);
    }
}

#[test]
fn a_text_is_written_with_the_escapes_of_json() {
    assert_eq!(quote(""), "\"\"");
    assert_eq!(quote("a/b'c"), "\"a/b'c\"");
    assert_eq!(quote("\""), r#""\"""#);
    assert_eq!(quote("\\"), r#""\\""#);
    assert_eq!(quote("\u{8}\t\n\u{c}\r"), r#""\b\t\n\f\r""#);
    assert_eq!(quote("\u{0}\u{7}\u{b}\u{e}\u{1f}"), r#""\u0000\u0007\u000b\u000e\u001f""#);
    assert_eq!(quote("\u{7f}\u{80}\u{2028}\u{1f980}"), "\"\u{7f}\u{80}\u{2028}\u{1f980}\"");
}

#[test]
fn each_ascii_character_is_written_as_expected() {
    for code in 0u8..128 {
        let c = code as char;
        let expected = match c {
            '"' => "\\\"".to_string(),
            '\\' => "\\\\".to_string(),
            '\u{8}' => "\\b".to_string(),
            '\t' => "\\t".to_string(),
            '\n' => "\\n".to_string(),
            '\u{c}' => "\\f".to_string(),
            '\r' => "\\r".to_string(),
            _ if code < 32 => format!("\\u{:04x}", code),
            _ => c.to_string(),
        };
        assert_eq!(quote(&c.to_string()), format!("\"{}\"", expected));
    }
}

#[test]
fn numbers_are_written_in_decimal() {
    for n in [0, 1, 9, 10, 11, 99, 100, 1234567890, u64::MAX - 1, u64::MAX] {
        assert_eq!(decimal_text(n), n.to_string());
    }
}

#[test]
fn numbers_are_read_as_the_standard_library_reads_them() {
    let texts = [
        "", "+", "-", "0", "-0", "+0", "007", "7", "+7", "++7", " 7", "7 ", "1_000", "0x10", "12a",
        "18446744073709551615", "18446744073709551616", "99999999999999999999999", "1e3", "\u{661}",
        "184467440737095516150", "18446744073709551616x", "+18446744073709551615",
    ];
    for text in texts {
        assert_eq!(parse_usize(text), text.parse::<usize>().ok());
    }
}

#[test]
fn a_written_number_is_read_back() {
    for n in [0usize, 5, 10, 4096, usize::MAX] {
        assert_eq!(parse_usize(&decimal_text(n as u64)), Some(n));
    }
}

fn limit(args: &[&str]) -> Limit {
    let mut list = Vec::new();
    for arg in args {
        list.push(arg.to_string());
    }
    read_limit(&list)
}

#[test]
fn the_limit_comes_from_the_first_argument() {
    assert_eq!(limit(&["program", "25"]), Limit::Given(25));
    assert_eq!(limit(&["program", "25", "3"]).permits(), 25);
    assert_eq!(limit(&["program", "1"]).permits(), 1);
}

#[test]
fn the_limit_is_ten_where_none_is_given() {
    assert_eq!(limit(&["program"]), Limit::NotGiven);
    assert_eq!(limit(&[]), Limit::NotGiven);
    assert_eq!(limit(&["program", "0"]), Limit::Zero);
    assert_eq!(limit(&["program", "many"]), Limit::NotANumber);
    assert_eq!(limit(&["program", "-1"]), Limit::NotANumber);
    assert_eq!(Limit::NotGiven.permits(), 10);
    assert_eq!(Limit::Zero.permits(), 10);
    assert_eq!(Limit::NotANumber.permits(), 10);
}
