//! The page of a resource, and the English abstract in it.

use vstd::prelude::*;
use vstd::string::StringExecFns;

use crate::text::{
    all_white, find_map, law_find_map_is_leftmost, law_trimmed_has_no_white_ends,
    lemma_find_map_step, opt_text, trim, trimmed, white_space,
};

verus! {

/// The elements of a page that are marked as an English abstract.
pub const ABSTRACT_SELECTOR: &'static str = "span[property=\"dbo:abstract\"][lang=\"en\"]";

/// The leading paragraphs of a page, where the abstract stands when nothing is marked.
pub const LEAD_SELECTOR: &'static str = "p.lead";

/// How many bytes one buffer of the HTML parser can grow to.
pub const MAX_PARSED_BYTES: u64 = 0x8000_0000;

/// How many bytes a character of a page can take up in a buffer of the HTML parser: those of
/// its UTF-8 encoding, but three for a NUL, which can become a replacement character, and one
/// more for an ampersand, since a character reference can become one byte longer.
pub open spec fn parsed_width(c: char) -> nat {
    if c == '\0' {
        3
    } else if c == '&' {
        2
    } else if (c as int) < 0x80 {
        1
    } else if (c as int) < 0x800 {
        2
    } else if (c as int) < 0x1_0000 {
        3
    } else {
        4
    }
}

/// How many bytes the characters of a page can take up in a buffer of the HTML parser.
pub open spec fn parsed_bytes(html: Seq<char>) -> nat
    decreases html.len(),
{
    if html.len() == 0 {
        0
    } else {
        parsed_bytes(html.drop_last()) + parsed_width(html.last())
    }
}

/// Whether a page is short enough to be parsed.
pub open spec fn page_fits(html: Seq<char>) -> bool {
    parsed_bytes(html) <= MAX_PARSED_BYTES
}

proof fn lemma_parsed_bytes_grow(html: Seq<char>, i: int)
    requires
        0 <= i <= html.len(),
    ensures
        parsed_bytes(html.take(i)) <= parsed_bytes(html),
    decreases html.len(),
{
    if i < html.len() {
        assert(html.drop_last().take(i) =~= html.take(i));
        lemma_parsed_bytes_grow(html.drop_last(), i);
    } else {
        assert(html.take(i) =~= html);
    }
}

/// Each further character makes a page longer by the bytes of its UTF-8 encoding, a NUL by
/// three and an ampersand by two; a page fits exactly up to two to the 31 bytes.
pub proof fn law_page_is_measured_by_character(html: Seq<char>, c: char)
    ensures
        parsed_bytes(Seq::empty()) == 0,
        parsed_bytes(html.push(c)) == parsed_bytes(html) + {
            let n = c as u32;
            if n == 0 {
                3int
            } else if n == 38 {
                2
            } else if n <= 0x7f {
                1
            } else if n <= 0x7ff {
                2
            } else if n <= 0xffff {
                3
            } else {
                4
            }
        },
        page_fits(html) <==> parsed_bytes(html) <= 2_147_483_648,
{
    assert(html.push(c).drop_last() =~= html);
}

/// A page of up to two to the 29 characters fits, whatever they are.
pub proof fn law_ordinary_pages_fit(html: Seq<char>)
    ensures
        html.len() <= 536_870_912 ==> page_fits(html),
{
    lemma_parsed_bytes_bound(html);
}

proof fn lemma_parsed_bytes_bound(html: Seq<char>)
    ensures
        parsed_bytes(html) <= 4 * html.len(),
    decreases html.len(),
{
    if html.len() > 0 {
        lemma_parsed_bytes_bound(html.drop_last());
    }
}

fn width(c: char) -> (bytes: u64)
    ensures
        bytes == parsed_width(c),
{
    let code: u32 = c as u32;
    if code == 0 {
        3
    } else if c == '&' {
        2
    } else if code < 0x80 {
        1
    } else if code < 0x800 {
        2
    } else if code < 0x1_0000 {
        3
    } else {
        4
    }
}

/// Whether the characters of a page take up no more than so many bytes in a buffer of the
/// HTML parser.
pub fn fits_within(html: &str, limit: u64) -> (fits: bool)
    ensures
        fits == (parsed_bytes(html@) <= limit),
{
    let mut total: u64 = 0;
    for c in iter: html.chars()
        invariant
            iter.seq() == html@,
            total == parsed_bytes(html@.take(iter.index() as int)),
            total <= limit,
    {
        let ghost seen = iter.index() as int;
        proof {
            assert(html@.take(seen + 1).drop_last() =~= html@.take(seen));
            lemma_parsed_bytes_grow(html@, seen + 1);
        }
        let bytes: u64 = width(c);
        if bytes > limit - total {
            return false;
        }
        total = total + bytes;
    }
    assert(html@.take(html@.len() as int) =~= html@);
    true
}

/// The texts of a list of strings.
pub open spec fn texts_model(texts: Seq<String>) -> Seq<Seq<char>> {
    Seq::new(texts.len(), |i: int| texts[i]@)
}

/// The texts of an optional list of strings.
pub open spec fn opt_texts(texts: Option<Vec<String>>) -> Option<Seq<Seq<char>>> {
    match texts {
        Some(list) => Some(texts_model(list@)),
        None => None,
    }
}

/// The pieces of text of some elements.
pub open spec fn pieces_model(elements: Seq<Vec<String>>) -> Seq<Seq<Seq<char>>> {
    Seq::new(elements.len(), |i: int| texts_model(elements[i]@))
}

/// The pieces of text of some elements, where there is a selection of elements.
pub open spec fn opt_pieces(elements: Option<Vec<Vec<String>>>) -> Option<Seq<Seq<Seq<char>>>> {
    match elements {
        Some(list) => Some(pieces_model(list@)),
        None => None,
    }
}

/// Lists of strings stand for lists of texts of the same lengths, with each text in its place.
pub proof fn law_texts_keep_everything(
    texts: Option<Vec<String>>,
    elements: Option<Vec<Vec<String>>>,
    i: int,
    j: int,
)
    ensures
        match texts {
            Some(list) => {
                &&& opt_texts(texts) matches Some(model)
                &&& model.len() == list@.len()
                &&& 0 <= i < list@.len() ==> model[i] == list@[i]@
            },
            None => opt_texts(texts) is None,
        },
        match elements {
            Some(list) => {
                &&& opt_pieces(elements) matches Some(model)
                &&& model.len() == list@.len()
                &&& 0 <= i < list@.len() ==> model[i].len() == list@[i]@.len()
                &&& 0 <= i < list@.len() && 0 <= j < list@[i]@.len() ==> model[i][j]
                    == list@[i]@[j]@
            },
            None => opt_pieces(elements) is None,
        },
{
}

/// What `scraper` finds on a page: the pieces of text below each element that a CSS selector
/// selects, in the order of `scraper::Html::select`; nothing where the selector is no
/// selector.
pub uninterp spec fn selected_pieces(
    html: Seq<char>,
    selector: Seq<char>,
) -> Option<Seq<Seq<Seq<char>>>>;

/// Calls `scraper::Selector::parse` on the selector, `scraper::Html::parse_document` on the
/// page and `scraper::Html::select` with both, and lists the pieces of
/// `scraper::ElementRef::text` for each element that comes out.
///
/// Trusted: the pieces go by the page and the selector alone. The parser of the page keeps
/// it in buffers with 32-bit lengths that grow by powers of two, and panics where one would
/// have to grow beyond half of what 32 bits can count. What is in a buffer comes from the
/// page and is as long as there, but for a NUL, which can become a replacement character of
/// three bytes, and a character reference, which can become one byte longer (`&nGt;` and
/// `&nLt;` do). The parser of the selector recurses without a limit where selectors are
/// nested; the two that are admitted have nothing nested in them.
#[verifier::external_body]
fn select_pieces(html: &str, selector: &str) -> (elements: Option<Vec<Vec<String>>>)
    requires
        page_fits(html@),
        selector@ == ABSTRACT_SELECTOR@ || selector@ == LEAD_SELECTOR@,
    ensures
        opt_pieces(elements) == selected_pieces(html@, selector@),
{
    match scraper::Selector::parse(selector) {
        Ok(wanted) => {
            let page = scraper::Html::parse_document(html);
            let pieces = page.select(&wanted).map(|e| e.text().map(str::to_owned).collect());
            Some(pieces.collect())
        },
        Err(_) => None,
    }
}

/// The texts of some elements: the pieces of each one after the other, with nothing between
/// them.
pub open spec fn joined(elements: Option<Seq<Seq<Seq<char>>>>) -> Option<Seq<Seq<char>>> {
    match elements {
        Some(list) => Some(Seq::new(list.len(), |i: int| list[i].flatten())),
        None => None,
    }
}

/// Each element has one text, all of its pieces one after the other.
pub proof fn law_pieces_are_joined(elements: Seq<Seq<Seq<char>>>, i: int)
    ensures
        joined(None) is None,
        joined(Some(elements)) matches Some(texts) && {
            &&& texts.len() == elements.len()
            &&& 0 <= i < elements.len() ==> texts[i] == elements[i].flatten()
        },
{
}

fn join(pieces: &Vec<String>) -> (text: String)
    ensures
        text@ == texts_model(pieces@).flatten(),
{
    let ghost model = texts_model(pieces@);
    let mut text = String::new();
    let mut i: usize = 0;
    assert(model.skip(0) =~= model);
    assert(text@ + model.flatten() =~= model.flatten());
    while i < pieces.len()
        invariant
            model == texts_model(pieces@),
            i <= pieces@.len(),
            text@ + model.skip(i as int).flatten() == model.flatten(),
        decreases pieces@.len() - i,
    {
        let ghost before = text@;
        assert(model.skip(i as int).drop_first() =~= model.skip(i + 1));
        assert(model.skip(i as int).first() == pieces@[i as int]@);
        text.append(pieces[i].as_str());
        assert(text@ + model.skip(i + 1).flatten() =~= before + model.skip(i as int).flatten());
        i += 1;
    }
    assert(model.skip(i as int).flatten() =~= Seq::empty());
    assert(text@ + Seq::empty() =~= text@);
    text
}

/// Joins the pieces of text of each element.
pub fn join_texts(elements: Option<Vec<Vec<String>>>) -> (texts: Option<Vec<String>>)
    ensures
        opt_texts(texts) == joined(opt_pieces(elements)),
{
    match elements {
        Some(list) => {
            let mut texts: Vec<String> = Vec::new();
            let mut i: usize = 0;
            while i < list.len()
                invariant
                    i <= list@.len(),
                    texts@.len() == i,
                    forall|j: int|
                        0 <= j < i ==> (#[trigger] texts@[j])@ == texts_model(list@[j]@).flatten(),
                decreases list@.len() - i,
            {
                texts.push(join(&list[i]));
                i += 1;
            }
            assert(texts_model(texts@) =~= joined(opt_pieces(elements))->0);
            Some(texts)
        },
        None => None,
    }
}

/// Takes a text that is more than white space, trimmed.
pub open spec fn non_blank() -> spec_fn(Seq<char>) -> Option<Seq<char>> {
    |text: Seq<char>|
        if trimmed(text).len() > 0 {
            Some(trimmed(text))
        } else {
            None
        }
}

/// The abstract of a page, by the texts of its marked elements and of its leading
/// paragraphs: the first marked text that is more than white space, else the first leading
/// paragraph.
pub open spec fn chosen_text(
    marked: Option<Seq<Seq<char>>>,
    leading: Option<Seq<Seq<char>>>,
) -> Seq<char> {
    match marked {
        None => Seq::empty(),
        Some(marked) => match find_map(marked, non_blank()) {
            Some(text) => text,
            None => match leading {
                None => Seq::empty(),
                Some(leading) => if leading.len() > 0 {
                    trimmed(leading[0])
                } else {
                    Seq::empty()
                },
            },
        },
    }
}

fn first_non_blank(texts: &Vec<String>) -> (text: Option<String>)
    ensures
        opt_text(text) == find_map(texts_model(texts@), non_blank()),
{
    let ghost model = texts_model(texts@);
    let mut i: usize = 0;
    assert(model.skip(0) =~= model);
    while i < texts.len()
        invariant
            model == texts_model(texts@),
            i <= texts@.len(),
            find_map(model.skip(i as int), non_blank()) == find_map(model, non_blank()),
        decreases texts@.len() - i,
    {
        proof {
            lemma_find_map_step(model, non_blank(), i as int);
        }
        let text = trim(texts[i].as_str());
        if !text.as_str().is_empty() {
            return Some(text);
        }
        i += 1;
    }
    None
}

/// Chooses the abstract of a page among the texts of its marked elements and of its leading
/// paragraphs.
pub fn choose_text(marked: Option<Vec<String>>, leading: Option<Vec<String>>) -> (text: String)
    ensures
        text@ == chosen_text(opt_texts(marked), opt_texts(leading)),
{
    match marked {
        None => String::new(),
        Some(marked) => match first_non_blank(&marked) {
            Some(text) => text,
            None => match leading {
                None => String::new(),
                Some(leading) => {
                    if leading.len() > 0 {
                        trim(leading[0].as_str())
                    } else {
                        String::new()
                    }
                },
            },
        },
    }
}

/// The abstract of a page, empty where there is none to be had.
pub open spec fn page_text(body: Seq<char>) -> Seq<char> {
    if body.len() == 0 {
        Seq::empty()
    } else {
        chosen_text(
            joined(selected_pieces(body, ABSTRACT_SELECTOR@)),
            joined(selected_pieces(body, LEAD_SELECTOR@)),
        )
    }
}

/// The English abstract in the text of a page, and an empty text where there is none.
pub fn extract_abstract_from_page(body: &str) -> (text: String)
    requires
        page_fits(body@),
    ensures
        text@ == page_text(body@),
{
    if body.is_empty() {
        return String::new();
    }
    choose_text(
        join_texts(select_pieces(body, ABSTRACT_SELECTOR)),
        join_texts(select_pieces(body, LEAD_SELECTOR)),
    )
}

/// The first marked text that is more than white space is the abstract, the whole of it but
/// for the white space at its ends.
pub proof fn law_first_marked_text_is_chosen(
    marked: Seq<Seq<char>>,
    leading: Option<Seq<Seq<char>>>,
    i: int,
)
    requires
        0 <= i < marked.len(),
        exists|n: int| 0 <= n < marked[i].len() && !white_space(#[trigger] marked[i][n]),
        forall|m: int, n: int|
            0 <= m < i && 0 <= n < marked[m].len() ==> white_space(#[trigger] marked[m][n]),
    ensures
        chosen_text(Some(marked), leading) == trimmed(marked[i]),
        chosen_text(Some(marked), leading).len() > 0,
{
    let take = non_blank();
    law_find_map_is_leftmost(marked, take);
    assert(!all_white(marked[i]));
    law_trimmed_has_no_white_ends(marked[i]);
    assert(take(marked[i]) == Some(trimmed(marked[i])));
    let text = find_map(marked, take)->0;
    let k = choose|k: int|
        0 <= k < marked.len() && #[trigger] take(marked[k]) == Some(text) && forall|j: int|
            0 <= j < k ==> #[trigger] take(marked[j]) is None;
    law_trimmed_has_no_white_ends(marked[k]);
    if k < i {
        assert(all_white(marked[k]));
    }
    assert(k == i);
}

/// Where no marked text is more than white space, the first leading paragraph is the
/// abstract, the whole of it but for the white space at its ends; without such a paragraph
/// there is nothing to be had, and without a way to look for marks neither.
pub proof fn law_first_paragraph_stands_in(
    marked: Seq<Seq<char>>,
    leading: Option<Seq<Seq<char>>>,
)
    requires
        forall|m: int, n: int|
            0 <= m < marked.len() && 0 <= n < marked[m].len() ==> white_space(
                #[trigger] marked[m][n],
            ),
    ensures
        leading matches Some(paragraphs) ==> (paragraphs.len() > 0 ==> chosen_text(
            Some(marked),
            leading,
        ) == trimmed(paragraphs[0])),
        leading matches Some(paragraphs) ==> (paragraphs.len() == 0 ==> chosen_text(
            Some(marked),
            leading,
        ).len() == 0),
        leading is None ==> chosen_text(Some(marked), leading).len() == 0,
        chosen_text(None, leading).len() == 0,
{
    let take = non_blank();
    law_find_map_is_leftmost(marked, take);
    if let Some(text) = find_map(marked, take) {
        let k = choose|k: int| 0 <= k < marked.len() && #[trigger] take(marked[k]) == Some(text);
        law_trimmed_has_no_white_ends(marked[k]);
        assert(all_white(marked[k]));
    }
}

/// The abstract of a page goes by its English abstract marks and its leading paragraphs, and
/// an empty page has none.
pub proof fn law_page_is_searched_for_both(body: Seq<char>)
    ensures
        body.len() == 0 ==> page_text(body).len() == 0,
        body.len() > 0 ==> page_text(body) == chosen_text(
            joined(selected_pieces(body, "span[property=\"dbo:abstract\"][lang=\"en\"]"@)),
            joined(selected_pieces(body, "p.lead"@)),
        ),
{
}

/// The whole text of the first marked element with more than white space in it is the
/// abstract of a page, but for the white space at its ends, however many pieces it is in.
pub proof fn law_marked_element_gives_the_abstract(
    body: Seq<char>,
    elements: Seq<Seq<Seq<char>>>,
    i: int,
)
    requires
        body.len() > 0,
        selected_pieces(body, "span[property=\"dbo:abstract\"][lang=\"en\"]"@) == Some(elements),
        0 <= i < elements.len(),
        exists|n: int|
            0 <= n < elements[i].flatten().len() && !white_space(
                #[trigger] elements[i].flatten()[n],
            ),
        forall|m: int, n: int|
            0 <= m < i && 0 <= n < elements[m].flatten().len() ==> white_space(
                #[trigger] elements[m].flatten()[n],
            ),
    ensures
        page_text(body) == trimmed(elements[i].flatten()),
{
    let marked = joined(Some(elements))->0;
    assert(marked[i] == elements[i].flatten());
    let n = choose|n: int|
        0 <= n < elements[i].flatten().len() && !white_space(#[trigger] elements[i].flatten()[n]);
    assert(!white_space(marked[i][n]));
    assert forall|m: int, n: int| 0 <= m < i && 0 <= n < marked[m].len() implies white_space(
        #[trigger] marked[m][n],
    ) by {
        assert(marked[m] == elements[m].flatten());
        assert(white_space(elements[m].flatten()[n]));
    }
    law_first_marked_text_is_chosen(marked, joined(selected_pieces(body, LEAD_SELECTOR@)), i);
}

/// An abstract from a page neither starts nor ends with white space.
pub proof fn law_chosen_text_is_trimmed(
    marked: Option<Seq<Seq<char>>>,
    leading: Option<Seq<Seq<char>>>,
)
    ensures
        trimmed(chosen_text(marked, leading)) == chosen_text(marked, leading),
{
    if let Some(texts) = marked {
        law_find_map_is_leftmost(texts, non_blank());
        match find_map(texts, non_blank()) {
            Some(text) => {
                let i = choose|i: int|
                    0 <= i < texts.len() && #[trigger] non_blank()(texts[i]) == Some(text);
                law_trimmed_has_no_white_ends(texts[i]);
            },
            None => {
                if let Some(paragraphs) = leading {
                    if paragraphs.len() > 0 {
                        law_trimmed_has_no_white_ends(paragraphs[0]);
                    }
                }
            },
        }
    }
}

/// A marked text that is more than white space is never passed over for a leading
/// paragraph: the leading paragraphs then do not matter.
pub proof fn law_marked_text_comes_first(
    marked: Seq<Seq<char>>,
    leading: Option<Seq<Seq<char>>>,
    other: Option<Seq<Seq<char>>>,
    i: int,
)
    requires
        0 <= i < marked.len(),
        !all_white(marked[i]),
    ensures
        chosen_text(Some(marked), leading) == chosen_text(Some(marked), other),
        chosen_text(Some(marked), leading).len() > 0,
{
    law_trimmed_has_no_white_ends(marked[i]);
    law_find_map_is_leftmost(marked, non_blank());
    assert(non_blank()(marked[i]) is Some);
    let text = find_map(marked, non_blank())->0;
    let k = choose|k: int|
        0 <= k < marked.len() && #[trigger] non_blank()(marked[k]) == Some(text);
    assert(text.len() > 0);
}

} // verus!
