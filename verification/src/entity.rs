//! The keys of the entity list, and the resources that they name.

use vstd::prelude::*;
use vstd::string::StrSliceExecFns;

use crate::document::resource_url;
use crate::text::{
    after_last, behind_last, chars_of, contains, last_index, law_after_last_is_the_rest,
    law_occurs_between_two_parts, law_rest_stands_behind_the_last, lemma_last_index_range, occurs,
    occurs_at,
};

verus! {

/// The entity list in a text, if `serde_json::from_str` reads one: a JSON object with a
/// natural number below two to the 64 under each key.
pub uninterp spec fn listed_entities(text: Seq<char>) -> Option<Map<Seq<char>, u64>>;

/// Whether a list has each entry of an entity list once, in some order.
pub open spec fn lists(entries: Seq<(String, u64)>, entities: Map<Seq<char>, u64>) -> bool {
    &&& forall|i: int|
        0 <= i < entries.len() ==> entities.dom().contains((#[trigger] entries[i]).0@)
            && entities[entries[i].0@] == entries[i].1
    &&& forall|i: int, j: int|
        0 <= i < j < entries.len() ==> (#[trigger] entries[i]).0@ != (#[trigger] entries[j]).0@
    &&& forall|key: Seq<char>| #[trigger]
        entities.dom().contains(key) ==> exists|i: int|
            0 <= i < entries.len() && (#[trigger] entries[i]).0@ == key
}

/// A list that has each entry of an entity list once has just the keys of the entity list,
/// each of them in one place, with its own identifier there.
pub proof fn law_list_has_each_entity(
    entries: Seq<(String, u64)>,
    entities: Map<Seq<char>, u64>,
    key: Seq<char>,
)
    requires
        lists(entries, entities),
    ensures
        entities.dom().contains(key) <==> exists|i: int|
            0 <= i < entries.len() && (#[trigger] entries[i]).0@ == key,
        forall|i: int|
            0 <= i < entries.len() && (#[trigger] entries[i]).0@ == key ==> entries[i].1
                == entities[key],
        forall|i: int, j: int|
            0 <= i < entries.len() && 0 <= j < entries.len() && (#[trigger] entries[i]).0@ == (
            #[trigger] entries[j]).0@ ==> i == j,
{
    assert forall|i: int, j: int|
        0 <= i < entries.len() && 0 <= j < entries.len() && (#[trigger] entries[i]).0@ == (
        #[trigger] entries[j]).0@ implies i == j by {
        if i < j {
            assert(entries[i].0@ != entries[j].0@);
        } else if j < i {
            assert(entries[j].0@ != entries[i].0@);
        }
    }
}

/// Calls `serde_json::from_str::<HashMap<String, u64>>` and lists the entries of the map.
///
/// Trusted: the call succeeds or fails by the text alone, and on success the map holds the
/// entity list that the text has. The order of the entries is that of a walk through the
/// map, which is a different one each time.
#[verifier::external_body]
fn parse_entities(text: &str) -> (parsed: Result<Vec<(String, u64)>, serde_json::Error>)
    ensures
        match parsed {
            Ok(entries) => listed_entities(text@) is Some && lists(
                entries@,
                listed_entities(text@)->0,
            ),
            Err(_) => listed_entities(text@) is None,
        },
{
    let entities = serde_json::from_str::<std::collections::HashMap<String, u64>>(text)?;
    Ok(entities.into_iter().collect())
}

/// Reads the entity list: the identifier of each entity under the URL of its resource.
/// The entries come in no particular order.
pub fn read_entities(text: &str) -> (parsed: Result<Vec<(String, u64)>, serde_json::Error>)
    ensures
        match parsed {
            Ok(entries) => listed_entities(text@) is Some && lists(
                entries@,
                listed_entities(text@)->0,
            ),
            Err(_) => listed_entities(text@) is None,
        },
{
    parse_entities(text)
}

/// A key without the angle brackets around it.
pub open spec fn bare_url(key: Seq<char>) -> Seq<char> {
    if key.len() > 0 && key[0] == '<' && key.last() == '>' {
        key.subrange(1, key.len() - 1)
    } else {
        key
    }
}

/// Takes the angle brackets off a key of the form `<http://dbpedia.org/resource/Example>`.
/// A key without brackets on both sides stays as it is.
pub fn strip_brackets(key: &str) -> (url: String)
    ensures
        url@ == bare_url(key@),
{
    let chars = chars_of(key);
    if chars.len() > 0 && chars[0] == '<' && chars[chars.len() - 1] == '>' {
        key.substring_char(1, chars.len() - 1).to_owned()
    } else {
        key.to_owned()
    }
}

/// Whether `url::Url::parse` accepts a text.
pub uninterp spec fn url_parses(text: Seq<char>) -> bool;

/// Calls `url::Url::parse` and keeps only whether it succeeded.
///
/// Trusted: that goes by the text alone.
#[verifier::external_body]
fn parse_url(text: &str) -> (parses: bool)
    ensures
        parses == url_parses(text@),
{
    url::Url::parse(text).is_ok()
}

/// Whether a text is an absolute URL.
pub fn is_url(url_str: &str) -> (valid: bool)
    ensures
        valid == url_parses(url_str@),
{
    parse_url(url_str)
}

/// What the entity list names with a key.
#[derive(Debug)]
pub enum Target {
    /// A resource with this name.
    Resource(String),
    /// This, which is no URL or leads elsewhere.
    NotDbpedia(String),
    /// This URL, which has no last segment to name a resource.
    NoResourceName(String),
}

/// What a [`Target`] says.
pub enum TargetModel {
    Resource(Seq<char>),
    NotDbpedia(Seq<char>),
    NoResourceName(Seq<char>),
}

impl Target {
    /// What this says.
    pub open spec fn model(self) -> TargetModel {
        match self {
            Target::Resource(name) => TargetModel::Resource(name@),
            Target::NotDbpedia(url) => TargetModel::NotDbpedia(url@),
            Target::NoResourceName(url) => TargetModel::NoResourceName(url@),
        }
    }
}

/// What a bare URL names, given whether it is a URL: the resource is named by what stands
/// behind the last slash.
pub open spec fn target_at(url: Seq<char>, valid: bool) -> TargetModel {
    if !valid || !occurs(url, "dbpedia.org"@) {
        TargetModel::NotDbpedia(url)
    } else {
        match after_last(url, '/') {
            Some(name) => TargetModel::Resource(name),
            None => TargetModel::NoResourceName(url),
        }
    }
}

/// Finds what a bare URL names, given whether it is a URL.
pub fn find_target(url: String, valid: bool) -> (target: Target)
    ensures
        target.model() == target_at(url@, valid),
{
    if !valid || !contains(url.as_str(), "dbpedia.org") {
        return Target::NotDbpedia(url);
    }
    match behind_last(url.as_str(), '/') {
        Some(name) => Target::Resource(name),
        None => Target::NoResourceName(url),
    }
}

/// What a key of the entity list names.
pub open spec fn target_of_key(key: Seq<char>) -> TargetModel {
    target_at(bare_url(key), url_parses(bare_url(key)))
}

/// Finds what a key of the entity list names.
pub fn find_target_of_key(key: &str) -> (target: Target)
    ensures
        target.model() == target_of_key(key@),
{
    let url = strip_brackets(key);
    let valid = is_url(url.as_str());
    find_target(url, valid)
}

/// Angle brackets around a URL come off again, and a URL without such brackets of its own
/// names the same thing with them and without.
pub proof fn law_brackets_do_not_matter(url: Seq<char>)
    ensures
        bare_url(seq!['<'] + url + seq!['>']) == url,
        bare_url(url) == url ==> target_of_key(seq!['<'] + url + seq!['>']) == target_of_key(url),
{
    assert(bare_url(seq!['<'] + url + seq!['>']) =~= url);
}

/// Only brackets on both sides come off: any other key is its own URL.
pub proof fn law_other_keys_stay(key: Seq<char>)
    ensures
        (forall|url: Seq<char>| key != #[trigger] (seq!['<'] + url + seq!['>'])) ==> bare_url(key)
            == key,
{
    if bare_url(key) != key {
        let url = key.subrange(1, key.len() - 1);
        assert(key.len() > 1) by {
            if key.len() == 1 {
                assert(key.last() == key[0]);
            }
        }
        assert(key =~= seq!['<'] + url + seq!['>']);
    }
}

/// What a target says is what it is, with the text that it holds.
pub proof fn law_target_keeps_its_text(target: Target)
    ensures
        match target {
            Target::Resource(name) => target.model() == TargetModel::Resource(name@),
            Target::NotDbpedia(url) => target.model() == TargetModel::NotDbpedia(url@),
            Target::NoResourceName(url) => target.model() == TargetModel::NoResourceName(url@),
        },
{
}

/// A text names a resource only where it is a URL with "dbpedia.org" somewhere in it, and the
/// name is then all that stands behind its last slash; it leads elsewhere exactly where it is
/// no such URL, and names no resource exactly where it is one without a slash.
pub proof fn law_only_dbpedia_has_resources(url: Seq<char>, valid: bool)
    ensures
        match target_at(url, valid) {
            TargetModel::Resource(name) => {
                &&& valid
                &&& exists|i: int|
                    0 <= i <= url.len() - 11 && #[trigger] url.subrange(i, (i + 11) as int)
                        == "dbpedia.org"@
                &&& !name.contains('/')
                &&& exists|front: Seq<char>| url == #[trigger] (front + seq!['/'] + name)
            },
            TargetModel::NotDbpedia(other) => {
                &&& other == url
                &&& !valid || forall|i: int|
                    0 <= i <= url.len() - 11 ==> #[trigger] url.subrange(i, (i + 11) as int)
                        != "dbpedia.org"@
            },
            TargetModel::NoResourceName(other) => {
                &&& other == url
                &&& valid
                &&& exists|i: int|
                    0 <= i <= url.len() - 11 && #[trigger] url.subrange(i, (i + 11) as int)
                        == "dbpedia.org"@
                &&& !url.contains('/')
            },
        },
{
    reveal_strlit("dbpedia.org");
    law_after_last_is_the_rest(url, '/');
    lemma_last_index_range(url, '/');
    if occurs(url, "dbpedia.org"@) {
        let i = choose|i: int| occurs_at(url, "dbpedia.org"@, i);
        assert(url.subrange(i, (i + 11) as int) == "dbpedia.org"@);
    } else {
        assert forall|i: int| 0 <= i <= url.len() - 11 implies #[trigger] url.subrange(
            i,
            (i + 11) as int,
        ) != "dbpedia.org"@ by {
            assert(!occurs_at(url, "dbpedia.org"@, i));
        }
    }
    if let Some(name) = after_last(url, '/') {
        let front = url.take(last_index(url, '/'));
        assert(url =~= front + seq!['/'] + name);
    }
}

/// Every URL with "dbpedia.org" somewhere in it names what stands behind its last slash,
/// whatever stands around that.
pub proof fn law_dbpedia_urls_name_resources(url: Seq<char>, front: Seq<char>, name: Seq<char>)
    requires
        exists|a: Seq<char>, b: Seq<char>| url == #[trigger] (a + "dbpedia.org"@ + b),
        url == front + seq!['/'] + name,
        !name.contains('/'),
    ensures
        target_at(url, true) == TargetModel::Resource(name),
        target_at(url, false) == TargetModel::NotDbpedia(url),
{
    law_occurs_between_two_parts(url, "dbpedia.org"@);
    law_rest_stands_behind_the_last(front, '/', name);
}

/// A key names what the URL in it names, and whether that is a URL is what the URL parser
/// says of it.
pub proof fn law_key_names_what_its_url_names(key: Seq<char>)
    ensures
        target_of_key(key) == target_at(bare_url(key), url_parses(bare_url(key))),
        target_of_key(key) is NotDbpedia <==> !url_parses(bare_url(key)) || !exists|
            a: Seq<char>,
            b: Seq<char>,
        | bare_url(key) == #[trigger] (a + "dbpedia.org"@ + b),
        target_of_key(key) is NotDbpedia ==> target_of_key(key) == TargetModel::NotDbpedia(
            bare_url(key),
        ),
{
    law_occurs_between_two_parts(bare_url(key), "dbpedia.org"@);
}

/// The address of a resource names that resource, as long as it is a URL and the name has
/// no slash in it.
pub proof fn law_resource_url_names_the_resource(name: Seq<char>)
    requires
        !name.contains('/'),
    ensures
        url_parses(resource_url(name)) ==> target_of_key(resource_url(name))
            == TargetModel::Resource(name),
{
    reveal_strlit("http://dbpedia.org/resource/");
    reveal_strlit("dbpedia.org");
    let url = resource_url(name);
    assert(url[0] == 'h');
    assert(bare_url(url) == url);
    assert(url.subrange(7, 18) =~= "dbpedia.org"@);
    assert(occurs_at(url, "dbpedia.org"@, 7));
    law_after_last_is_the_rest(url, '/');
    assert(url[27] == '/');
    assert(url.contains('/'));
    let rest = after_last(url, '/')->0;
    lemma_last_index_range(url, '/');
    let k = last_index(url, '/');
    if k > 27 {
        assert(name[k - 28] == '/');
    } else if k < 27 {
        assert(rest[27 - k - 1] == '/');
    }
    assert(rest =~= name);
}

/// The name of a resource has no slash in it.
pub proof fn law_resource_name_has_no_slash(key: Seq<char>)
    ensures
        target_of_key(key) matches TargetModel::Resource(name) ==> !name.contains('/')
            && (seq!['/'] + name).is_suffix_of(bare_url(key)),
{
    law_after_last_is_the_rest(bare_url(key), '/');
}

} // verus!
