//! JSON strings: how a text is written as one, and how it is read back.

use vstd::prelude::*;

verus! {

/// The hexadecimal digit, in lower case, of a number below sixteen.
pub open spec fn hex_digit(d: int) -> char {
    if d < 10 {
        (48 + d) as char
    } else {
        (87 + d) as char
    }
}

/// How a character is written in a JSON string: the quote, the backslash and the control
/// characters are escaped, all others stand for themselves.
pub open spec fn escape(c: char) -> Seq<char> {
    if c == '"' {
        seq!['\\', '"']
    } else if c == '\\' {
        seq!['\\', '\\']
    } else if c == '\u{8}' {
        seq!['\\', 'b']
    } else if c == '\u{9}' {
        seq!['\\', 't']
    } else if c == '\u{a}' {
        seq!['\\', 'n']
    } else if c == '\u{c}' {
        seq!['\\', 'f']
    } else if c == '\u{d}' {
        seq!['\\', 'r']
    } else if (c as int) < 32 {
        seq!['\\', 'u', '0', '0', hex_digit(c as int / 16), hex_digit(c as int % 16)]
    } else {
        seq![c]
    }
}

/// How the characters of a text are written in a JSON string.
pub open spec fn escaped(s: Seq<char>) -> Seq<char>
    decreases s.len(),
{
    if s.len() == 0 {
        Seq::empty()
    } else {
        escape(s[0]) + escaped(s.drop_first())
    }
}

/// A text as a JSON string.
pub open spec fn quoted(s: Seq<char>) -> Seq<char> {
    seq!['"'] + escaped(s) + seq!['"']
}

/// A character other than the quote, the backslash and the 32 control characters is written as
/// it is; the others are written behind a backslash, seven of them with a letter or sign of
/// their own and the rest with their number.
pub proof fn law_how_characters_are_escaped(c: char)
    ensures
        c as u32 >= 32 && c as u32 != 34 && c as u32 != 92 ==> escape(c) == seq![c],
        c as u32 == 34 ==> escape(c) == seq!['\\', '"'],
        c as u32 == 92 ==> escape(c) == seq!['\\', '\\'],
        c as u32 == 8 ==> escape(c) == seq!['\\', 'b'],
        c as u32 == 9 ==> escape(c) == seq!['\\', 't'],
        c as u32 == 10 ==> escape(c) == seq!['\\', 'n'],
        c as u32 == 12 ==> escape(c) == seq!['\\', 'f'],
        c as u32 == 13 ==> escape(c) == seq!['\\', 'r'],
        (c as u32) < 32 && !(8 <= c as u32 <= 10) && !(12 <= c as u32 <= 13) ==> {
            let written = escape(c);
            &&& written.len() == 6
            &&& written.take(4) == seq!['\\', 'u', '0', '0']
            &&& written[4] as u32 == 48 + c as u32 / 16
            &&& c as u32 % 16 < 10 ==> written[5] as u32 == 48 + c as u32 % 16
            &&& c as u32 % 16 >= 10 ==> written[5] as u32 == 97 + (c as u32 % 16 - 10)
        },
{
    if (c as u32) < 32 && !(8 <= c as u32 <= 10) && !(12 <= c as u32 <= 13) {
        assert(escape(c).take(4) =~= seq!['\\', 'u', '0', '0']);
    }
}

/// A text is written character by character between two quotes.
pub proof fn law_texts_are_quoted_piece_by_piece(a: Seq<char>, b: Seq<char>, c: char)
    ensures
        quoted(a) == seq!['"'] + escaped(a) + seq!['"'],
        escaped(Seq::empty()).len() == 0,
        escaped(seq![c]) == escape(c),
        escaped(a + b) == escaped(a) + escaped(b),
    decreases a.len(),
{
    assert(seq![c].drop_first() =~= Seq::<char>::empty());
    assert(escaped(seq![c].drop_first()) =~= Seq::<char>::empty());
    assert(escaped(seq![c]) =~= escape(c));
    if a.len() == 0 {
        assert(a + b =~= b);
        assert(escaped(a) + escaped(b) =~= escaped(b));
    } else {
        assert((a + b).drop_first() =~= a.drop_first() + b);
        law_texts_are_quoted_piece_by_piece(a.drop_first(), b, c);
        assert(escaped(a + b) =~= escaped(a) + escaped(b));
    }
}

/// Calls `serde_json::to_string::<str>`.
///
/// Trusted: it succeeds on every text, and writes the text between quotes with exactly
/// these escapes.
#[verifier::external_body]
fn serialize_text(text: &str) -> (json: Result<String, serde_json::Error>)
    ensures
        match json {
            Ok(written) => written@ == quoted(text@),
            Err(_) => false,
        },
{
    serde_json::to_string::<str>(text)
}

/// Writes a text as a JSON string.
pub fn quote(text: &str) -> (json: String)
    ensures
        json@ == quoted(text@),
{
    match serialize_text(text) {
        Ok(json) => json,
        Err(_) => vstd::pervasive::unreached(),
    }
}

/// The number that a hexadecimal digit stands for.
pub open spec fn hex_value(c: char) -> Option<int> {
    if '0' <= c <= '9' {
        Some(c as int - 48)
    } else if 'a' <= c <= 'f' {
        Some(c as int - 87)
    } else if 'A' <= c <= 'F' {
        Some(c as int - 55)
    } else {
        None
    }
}

/// The first character of the inside of a JSON string, and how long it is written. An
/// escaped half of a surrogate pair is none.
pub open spec fn read_char(s: Seq<char>) -> Option<(char, int)> {
    if s.len() == 0 {
        None
    } else if s[0] != '\\' {
        if (s[0] as int) < 32 || s[0] == '"' {
            None
        } else {
            Some((s[0], 1))
        }
    } else if s.len() < 2 {
        None
    } else if s[1] == '"' || s[1] == '\\' || s[1] == '/' {
        Some((s[1], 2))
    } else if s[1] == 'b' {
        Some(('\u{8}', 2))
    } else if s[1] == 't' {
        Some(('\u{9}', 2))
    } else if s[1] == 'n' {
        Some(('\u{a}', 2))
    } else if s[1] == 'f' {
        Some(('\u{c}', 2))
    } else if s[1] == 'r' {
        Some(('\u{d}', 2))
    } else if s[1] == 'u' && s.len() >= 6 {
        match (hex_value(s[2]), hex_value(s[3]), hex_value(s[4]), hex_value(s[5])) {
            (Some(a), Some(b), Some(c), Some(d)) => {
                let code = a * 4096 + b * 256 + c * 16 + d;
                if 0xd800 <= code <= 0xdfff {
                    None
                } else {
                    Some((code as char, 6))
                }
            },
            _ => None,
        }
    } else {
        None
    }
}

/// The text of a JSON string from behind its opening quote on, and what follows its closing
/// quote.
pub open spec fn read_inside(s: Seq<char>) -> Option<(Seq<char>, Seq<char>)>
    decreases s.len(),
{
    if s.len() == 0 {
        None
    } else if s[0] == '"' {
        Some((Seq::empty(), s.skip(1)))
    } else {
        match read_char(s) {
            Some((c, n)) => match read_inside(s.skip(n)) {
                Some((text, rest)) => Some((seq![c] + text, rest)),
                None => None,
            },
            None => None,
        }
    }
}

/// The text of the JSON string at the front of `s`, and what follows it.
pub open spec fn read_string(s: Seq<char>) -> Option<(Seq<char>, Seq<char>)> {
    if s.len() > 0 && s[0] == '"' {
        read_inside(s.skip(1))
    } else {
        None
    }
}

proof fn lemma_escape_reads_back(c: char, more: Seq<char>)
    ensures
        read_char(escape(c) + more) == Some((c, escape(c).len() as int)),
        escape(c).len() > 0,
        escape(c)[0] != '"',
{
    let s = escape(c) + more;
    if (c as int) < 32 {
        let high = c as int / 16;
        let low = c as int % 16;
        assert(hex_value(hex_digit(high)) == Some(high));
        assert(hex_value(hex_digit(low)) == Some(low));
    }
}

proof fn lemma_inside_reads_back(text: Seq<char>, rest: Seq<char>)
    ensures
        read_inside(escaped(text) + seq!['"'] + rest) == Some((text, rest)),
    decreases text.len(),
{
    let s = escaped(text) + seq!['"'] + rest;
    if text.len() == 0 {
        assert(s.skip(1) =~= rest);
        assert(text =~= Seq::empty());
    } else {
        let c = text[0];
        let more = escaped(text.drop_first()) + seq!['"'] + rest;
        assert(s =~= escape(c) + more);
        lemma_escape_reads_back(c, more);
        assert(s.skip(escape(c).len() as int) =~= more);
        lemma_inside_reads_back(text.drop_first(), rest);
        assert(seq![c] + text.drop_first() =~= text);
    }
}

/// A text is read back from the JSON string that was written for it, whatever follows.
pub proof fn law_quoted_reads_back(text: Seq<char>, rest: Seq<char>)
    ensures
        read_string(quoted(text) + rest) == Some((text, rest)),
{
    let s = quoted(text) + rest;
    assert(s.skip(1) =~= escaped(text) + seq!['"'] + rest);
    lemma_inside_reads_back(text, rest);
}

/// Two different texts are written as different JSON strings.
pub proof fn law_quoted_is_injective(a: Seq<char>, b: Seq<char>)
    ensures
        quoted(a) == quoted(b) ==> a == b,
{
    law_quoted_reads_back(a, Seq::empty());
    law_quoted_reads_back(b, Seq::empty());
}

} // verus!
