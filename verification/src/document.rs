//! The data document of a resource: where it is, and the English abstract in it.

use vstd::prelude::*;
use vstd::string::StringExecFns;
use vstd::utf8::is_ascii_chars;

use crate::json::{
    entries_model, entry_of, get, items_model, parse_document, parsed_json, value_at, Json,
    JsonModel,
};
use crate::text::{
    ascii_lower, ends_with, find_map, law_ascii_lower_by_number, law_find_map_is_leftmost,
    lemma_find_map_step, lowercase, opt_text, same_text,
};

verus! {

/// Where the data document of a resource is.
pub open spec fn json_url(resource_name: Seq<char>) -> Seq<char> {
    "https://dbpedia.org/data/"@ + resource_name + ".json"@
}

/// The address of the data document of a resource.
pub fn get_json_url(resource_name: &str) -> (url: String)
    ensures
        url@ == json_url(resource_name@),
        url@.len() == 25 + resource_name@.len() + 5,
        url@.take(25) == "https://dbpedia.org/data/"@,
        url@.subrange(25, 25 + resource_name@.len() as int) == resource_name@,
        url@.skip(25 + resource_name@.len() as int) == ".json"@,
{
    proof {
        law_data_address(resource_name@);
    }
    let mut url = "https://dbpedia.org/data/".to_owned();
    url.append(resource_name);
    url.append(".json");
    url
}

/// The address of a data document has the whole name of the resource, right behind the
/// directory of the data documents, and ends right behind it with the ending of a JSON file,
/// whatever the name is.
pub proof fn law_data_address(resource_name: Seq<char>)
    ensures
        json_url(resource_name).len() == 25 + resource_name.len() + 5,
        json_url(resource_name).take(25) == "https://dbpedia.org/data/"@,
        json_url(resource_name).subrange(25, 25 + resource_name.len() as int) == resource_name,
        json_url(resource_name).skip(25 + resource_name.len() as int) == ".json"@,
{
    reveal_strlit("https://dbpedia.org/data/");
    reveal_strlit(".json");
    let url = json_url(resource_name);
    assert(url.take(25) =~= "https://dbpedia.org/data/"@);
    assert(url.subrange(25, 25 + resource_name.len() as int) =~= resource_name);
    assert(url.skip(25 + resource_name.len() as int) =~= ".json"@);
}

/// Where the page of a resource is.
pub open spec fn resource_url(resource_name: Seq<char>) -> Seq<char> {
    "http://dbpedia.org/resource/"@ + resource_name
}

/// The address of a resource, which is also the key of its data.
pub fn get_resource_url(resource_name: &str) -> (url: String)
    ensures
        url@ == resource_url(resource_name@),
        url@.len() == 28 + resource_name@.len(),
        url@.take(28) == "http://dbpedia.org/resource/"@,
        url@.skip(28) == resource_name@,
{
    proof {
        law_resource_address(resource_name@);
    }
    let mut url = "http://dbpedia.org/resource/".to_owned();
    url.append(resource_name);
    url
}

/// The address of a resource is its whole name right behind the directory of the resources,
/// whatever the name is.
pub proof fn law_resource_address(resource_name: Seq<char>)
    ensures
        resource_url(resource_name).len() == 28 + resource_name.len(),
        resource_url(resource_name).take(28) == "http://dbpedia.org/resource/"@,
        resource_url(resource_name).skip(28) == resource_name,
{
    reveal_strlit("http://dbpedia.org/resource/");
    let url = resource_url(resource_name);
    assert(url.take(28) =~= "http://dbpedia.org/resource/"@);
    assert(url.skip(28) =~= resource_name);
}

/// Two resources have the same addresses only where they have the same name.
pub proof fn law_addresses_are_told_apart(name: Seq<char>, other: Seq<char>)
    ensures
        json_url(name) == json_url(other) ==> name == other,
        resource_url(name) == resource_url(other) ==> name == other,
{
    law_data_address(name);
    law_data_address(other);
    law_resource_address(name);
    law_resource_address(other);
}

/// Takes an entry whose key ends with the resource name and whose value is an object.
pub open spec fn resource_entry(resource_name: Seq<char>) -> spec_fn(
    (Seq<char>, JsonModel),
) -> Option<Seq<(Seq<char>, JsonModel)>> {
    |entry: (Seq<char>, JsonModel)|
        if resource_name.is_suffix_of(entry.0) && entry.1 is Object {
            Some(entry.1->Object_0)
        } else {
            None
        }
}

/// Takes an entry whose key ends with "abstract" and whose value is an array.
pub open spec fn abstract_entry() -> spec_fn((Seq<char>, JsonModel)) -> Option<Seq<JsonModel>> {
    |entry: (Seq<char>, JsonModel)|
        if "abstract"@.is_suffix_of(entry.0) && entry.1 is Array {
            Some(entry.1->Array_0)
        } else {
            None
        }
}

/// Whether a language tag says English.
pub open spec fn english(tag: Seq<char>) -> bool {
    lowercase(tag) == "en"@
}

/// Takes the text under "value" of an object that has an English tag under "lang".
pub open spec fn english_value() -> spec_fn(JsonModel) -> Option<Seq<char>> {
    |item: JsonModel|
        match item {
            JsonModel::Object(entries) => match (
                value_at(entries, "lang"@),
                value_at(entries, "value"@),
            ) {
                (Some(JsonModel::Text(tag)), Some(JsonModel::Text(text))) => if english(tag) {
                    Some(text)
                } else {
                    None
                },
                _ => None,
            },
            _ => None,
        }
}

/// The property that holds the abstracts of a resource.
pub const ABSTRACT_PROPERTY: &'static str = "http://dbpedia.org/ontology/abstract";

/// The properties of a resource: the object under its own address, or where there is none
/// the first object under a key that ends with its name.
pub open spec fn properties_in(
    resources: Seq<(Seq<char>, JsonModel)>,
    resource_name: Seq<char>,
) -> Option<Seq<(Seq<char>, JsonModel)>> {
    match value_at(resources, resource_url(resource_name)) {
        Some(JsonModel::Object(properties)) => Some(properties),
        _ => find_map(resources, resource_entry(resource_name)),
    }
}

/// The abstracts among the properties of a resource: the array under the property of
/// abstracts, or where there is none the first array under a key that ends with "abstract".
pub open spec fn abstracts_in(properties: Seq<(Seq<char>, JsonModel)>) -> Option<Seq<JsonModel>> {
    match value_at(properties, ABSTRACT_PROPERTY@) {
        Some(JsonModel::Array(abstracts)) => Some(abstracts),
        _ => find_map(properties, abstract_entry()),
    }
}

/// The English abstract of a resource in its data document: the first English text among
/// the abstracts of the resource.
pub open spec fn abstract_in(root: JsonModel, resource_name: Seq<char>) -> Option<Seq<char>> {
    match root {
        JsonModel::Object(resources) => match properties_in(resources, resource_name) {
            Some(properties) => match abstracts_in(properties) {
                Some(abstracts) => find_map(abstracts, english_value()),
                None => None,
            },
            None => None,
        },
        _ => None,
    }
}

/// Where a document has the resource under its address, and that has the property of
/// abstracts, the abstract is the first English text there, whatever else the document has.
pub proof fn law_exact_keys_are_searched(
    resources: Seq<(Seq<char>, JsonModel)>,
    resource_name: Seq<char>,
    properties: Seq<(Seq<char>, JsonModel)>,
    abstracts: Seq<JsonModel>,
)
    requires
        value_at(resources, resource_url(resource_name)) == Some(JsonModel::Object(properties)),
        value_at(properties, ABSTRACT_PROPERTY@) == Some(JsonModel::Array(abstracts)),
    ensures
        properties_in(resources, resource_name) == Some(properties),
        abstract_in(JsonModel::Object(resources), resource_name) == find_map(
            abstracts,
            english_value(),
        ),
{
}

/// The properties of a resource are the object under its own address. Where no object stands
/// there, they are the first object whose key ends with the name of the resource, and there
/// are none exactly where no key of an object ends so.
pub proof fn law_resource_is_found(
    resources: Seq<(Seq<char>, JsonModel)>,
    resource_name: Seq<char>,
)
    ensures
        match value_at(resources, "http://dbpedia.org/resource/"@ + resource_name) {
            Some(JsonModel::Object(properties)) => properties_in(resources, resource_name) == Some(
                properties,
            ),
            _ => match properties_in(resources, resource_name) {
                Some(properties) => exists|i: int|
                    {
                        &&& 0 <= i < resources.len()
                        &&& resource_name.is_suffix_of((#[trigger] resources[i]).0)
                        &&& resources[i].1 == JsonModel::Object(properties)
                        &&& forall|m: int|
                            0 <= m < i ==> !(resource_name.is_suffix_of((#[trigger] resources[m]).0)
                                && resources[m].1 is Object)
                    },
                None => forall|m: int|
                    0 <= m < resources.len() ==> !(resource_name.is_suffix_of(
                        (#[trigger] resources[m]).0,
                    ) && resources[m].1 is Object),
            },
        },
{
    let take = resource_entry(resource_name);
    law_find_map_is_leftmost(resources, take);
    match find_map(resources, take) {
        Some(properties) => {
            let i = choose|i: int|
                0 <= i < resources.len() && #[trigger] take(resources[i]) == Some(properties)
                    && forall|j: int| 0 <= j < i ==> #[trigger] take(resources[j]) is None;
            assert(resources[i].1 == JsonModel::Object(properties));
            assert forall|m: int| 0 <= m < i implies !(resource_name.is_suffix_of(
                (#[trigger] resources[m]).0,
            ) && resources[m].1 is Object) by {
                assert(take(resources[m]) is None);
            }
        },
        None => {
            assert forall|m: int| 0 <= m < resources.len() implies !(resource_name.is_suffix_of(
                (#[trigger] resources[m]).0,
            ) && resources[m].1 is Object) by {
                assert(take(resources[m]) is None);
            }
        },
    }
}

/// The abstracts of a resource are the array under the property of abstracts. Where no array
/// stands there, they are the first array whose key ends with "abstract", and there are none
/// exactly where no key of an array ends so.
pub proof fn law_abstracts_are_found(properties: Seq<(Seq<char>, JsonModel)>)
    ensures
        match value_at(properties, "http://dbpedia.org/ontology/abstract"@) {
            Some(JsonModel::Array(abstracts)) => abstracts_in(properties) == Some(abstracts),
            _ => match abstracts_in(properties) {
                Some(abstracts) => exists|i: int|
                    {
                        &&& 0 <= i < properties.len()
                        &&& "abstract"@.is_suffix_of((#[trigger] properties[i]).0)
                        &&& properties[i].1 == JsonModel::Array(abstracts)
                        &&& forall|m: int|
                            0 <= m < i ==> !("abstract"@.is_suffix_of((#[trigger] properties[m]).0)
                                && properties[m].1 is Array)
                    },
                None => forall|m: int|
                    0 <= m < properties.len() ==> !("abstract"@.is_suffix_of(
                        (#[trigger] properties[m]).0,
                    ) && properties[m].1 is Array),
            },
        },
{
    let take = abstract_entry();
    law_find_map_is_leftmost(properties, take);
    match find_map(properties, take) {
        Some(abstracts) => {
            let i = choose|i: int|
                0 <= i < properties.len() && #[trigger] take(properties[i]) == Some(abstracts)
                    && forall|j: int| 0 <= j < i ==> #[trigger] take(properties[j]) is None;
            assert(properties[i].1 == JsonModel::Array(abstracts));
            assert forall|m: int| 0 <= m < i implies !("abstract"@.is_suffix_of(
                (#[trigger] properties[m]).0,
            ) && properties[m].1 is Array) by {
                assert(take(properties[m]) is None);
            }
        },
        None => {
            assert forall|m: int| 0 <= m < properties.len() implies !("abstract"@.is_suffix_of(
                (#[trigger] properties[m]).0,
            ) && properties[m].1 is Array) by {
                assert(take(properties[m]) is None);
            }
        },
    }
}

/// The English abstract of a resource is the whole text of the first of its abstracts that
/// has a text under "value" and a tag under "lang" that is "en" in lower case; there is no
/// abstract exactly where none of them has both.
pub proof fn law_first_english_text_is_found(root: JsonModel, resource_name: Seq<char>)
    ensures
        root !is Object ==> abstract_in(root, resource_name) is None,
        root matches JsonModel::Object(resources) ==> match properties_in(
            resources,
            resource_name,
        ) {
            None => abstract_in(root, resource_name) is None,
            Some(properties) => match abstracts_in(properties) {
                None => abstract_in(root, resource_name) is None,
                Some(abstracts) => match abstract_in(root, resource_name) {
                    Some(text) => exists|k: int|
                        {
                            &&& 0 <= k < abstracts.len()
                            &&& #[trigger] abstracts[k] matches JsonModel::Object(entries)
                            &&& value_at(entries, "lang"@) matches Some(JsonModel::Text(tag))
                            &&& lowercase(tag) == "en"@
                            &&& value_at(entries, "value"@) == Some(JsonModel::Text(text))
                            &&& forall|m: int|
                                0 <= m < k ==> !{
                                    &&& #[trigger] abstracts[m] matches JsonModel::Object(others)
                                    &&& value_at(others, "lang"@) matches Some(
                                        JsonModel::Text(tag),
                                    )
                                    &&& lowercase(tag) == "en"@
                                    &&& value_at(others, "value"@) matches Some(JsonModel::Text(_))
                                }
                        },
                    None => forall|m: int|
                        0 <= m < abstracts.len() ==> !{
                            &&& #[trigger] abstracts[m] matches JsonModel::Object(others)
                            &&& value_at(others, "lang"@) matches Some(JsonModel::Text(tag))
                            &&& lowercase(tag) == "en"@
                            &&& value_at(others, "value"@) matches Some(JsonModel::Text(_))
                        },
                },
            },
        },
{
    if let JsonModel::Object(resources) = root {
        if let Some(properties) = properties_in(resources, resource_name) {
            if let Some(abstracts) = abstracts_in(properties) {
                let take = english_value();
                law_find_map_is_leftmost(abstracts, take);
                match find_map(abstracts, take) {
                    Some(text) => {
                        let k = choose|k: int|
                            0 <= k < abstracts.len() && #[trigger] take(abstracts[k]) == Some(text)
                                && forall|m: int| 0 <= m < k ==> #[trigger] take(abstracts[m])
                                is None;
                        assert forall|m: int| 0 <= m < k implies !{
                            &&& #[trigger] abstracts[m] matches JsonModel::Object(others)
                            &&& value_at(others, "lang"@) matches Some(JsonModel::Text(tag))
                            &&& lowercase(tag) == "en"@
                            &&& value_at(others, "value"@) matches Some(JsonModel::Text(_))
                        } by {
                            assert(take(abstracts[m]) is None);
                        }
                        assert(abstracts[k] is Object);
                    },
                    None => {
                        assert forall|m: int| 0 <= m < abstracts.len() implies !{
                            &&& #[trigger] abstracts[m] matches JsonModel::Object(others)
                            &&& value_at(others, "lang"@) matches Some(JsonModel::Text(tag))
                            &&& lowercase(tag) == "en"@
                            &&& value_at(others, "value"@) matches Some(JsonModel::Text(_))
                        } by {
                            assert(take(abstracts[m]) is None);
                        }
                    },
                }
            }
        }
    }
}

/// An English text under the exact keys is found: where a document has an object under the
/// address of the resource, that has an array under the property of abstracts, and the `k`th
/// item of the array is the first one with an English tag and a text, that whole text is the
/// abstract.
pub proof fn law_english_text_under_exact_keys_is_found(
    resources: Seq<(Seq<char>, JsonModel)>,
    resource_name: Seq<char>,
    properties: Seq<(Seq<char>, JsonModel)>,
    abstracts: Seq<JsonModel>,
    k: int,
    entries: Seq<(Seq<char>, JsonModel)>,
    tag: Seq<char>,
    text: Seq<char>,
)
    requires
        value_at(resources, "http://dbpedia.org/resource/"@ + resource_name) == Some(
            JsonModel::Object(properties),
        ),
        value_at(properties, "http://dbpedia.org/ontology/abstract"@) == Some(
            JsonModel::Array(abstracts),
        ),
        0 <= k < abstracts.len(),
        abstracts[k] == JsonModel::Object(entries),
        value_at(entries, "lang"@) == Some(JsonModel::Text(tag)),
        lowercase(tag) == "en"@,
        value_at(entries, "value"@) == Some(JsonModel::Text(text)),
        forall|m: int|
            0 <= m < k ==> !{
                &&& #[trigger] abstracts[m] matches JsonModel::Object(others)
                &&& value_at(others, "lang"@) matches Some(JsonModel::Text(other))
                &&& lowercase(other) == "en"@
                &&& value_at(others, "value"@) matches Some(JsonModel::Text(_))
            },
    ensures
        abstract_in(JsonModel::Object(resources), resource_name) == Some(text),
        lookup_in(Some(JsonModel::Object(resources)), resource_name) == LookupModel::Found(text),
        lookup_in(Some(JsonModel::Object(resources)), resource_name).to_abstract() == Some(text),
        lookup_in(Some(JsonModel::Object(resources)), resource_name).text() == text,
{
    let root = JsonModel::Object(resources);
    law_resource_is_found(resources, resource_name);
    law_abstracts_are_found(properties);
    law_first_english_text_is_found(root, resource_name);
    assert(abstracts[k] is Object);
}

/// Nothing else is taken for an abstract: where the array under the exact keys has no item
/// with an English tag and a text, there is none.
pub proof fn law_no_english_text_under_exact_keys(
    resources: Seq<(Seq<char>, JsonModel)>,
    resource_name: Seq<char>,
    properties: Seq<(Seq<char>, JsonModel)>,
    abstracts: Seq<JsonModel>,
)
    requires
        value_at(resources, "http://dbpedia.org/resource/"@ + resource_name) == Some(
            JsonModel::Object(properties),
        ),
        value_at(properties, "http://dbpedia.org/ontology/abstract"@) == Some(
            JsonModel::Array(abstracts),
        ),
        forall|m: int|
            0 <= m < abstracts.len() ==> !{
                &&& #[trigger] abstracts[m] matches JsonModel::Object(others)
                &&& value_at(others, "lang"@) matches Some(JsonModel::Text(other))
                &&& lowercase(other) == "en"@
                &&& value_at(others, "value"@) matches Some(JsonModel::Text(_))
            },
    ensures
        lookup_in(Some(JsonModel::Object(resources)), resource_name) is Missing,
        lookup_in(Some(JsonModel::Object(resources)), resource_name).to_abstract() is None,
        lookup_in(Some(JsonModel::Object(resources)), resource_name).text().len() == 0,
{
    law_resource_is_found(resources, resource_name);
    law_abstracts_are_found(properties);
    law_first_english_text_is_found(JsonModel::Object(resources), resource_name);
}

/// Whether `text` stands in a document as an English abstract of a resource, in the `k`th
/// item under the `j`th property of the `i`th resource.
pub open spec fn stands_at(
    root: JsonModel,
    resource_name: Seq<char>,
    text: Seq<char>,
    i: int,
    j: int,
    k: int,
) -> bool {
    &&& root matches JsonModel::Object(resources)
    &&& 0 <= i < resources.len()
    &&& resource_name.is_suffix_of(resources[i].0)
    &&& resources[i].1 matches JsonModel::Object(properties)
    &&& 0 <= j < properties.len()
    &&& "abstract"@.is_suffix_of(properties[j].0)
    &&& properties[j].1 matches JsonModel::Array(abstracts)
    &&& 0 <= k < abstracts.len()
    &&& abstracts[k] matches JsonModel::Object(entries)
    &&& value_at(entries, "lang"@) matches Some(JsonModel::Text(tag))
    &&& english(tag)
    &&& value_at(entries, "value"@) == Some(JsonModel::Text(text))
}

/// What is found stands in the document: under the resource, under "abstract", marked as
/// English.
pub proof fn law_abstract_stands_in_the_document(root: JsonModel, resource_name: Seq<char>)
    ensures
        abstract_in(root, resource_name) matches Some(text) ==> exists|i: int, j: int, k: int|
            stands_at(root, resource_name, text, i, j, k),
{
    if let Some(text) = abstract_in(root, resource_name) {
        let resources = root->Object_0;
        let properties = properties_in(resources, resource_name)->0;
        let abstracts = abstracts_in(properties)->0;
        let i = lemma_properties_stand(resources, resource_name);
        let j = lemma_abstracts_stand(properties);
        law_find_map_is_leftmost(abstracts, english_value());
        let k = choose|k: int|
            0 <= k < abstracts.len() && #[trigger] english_value()(abstracts[k]) == Some(text);
        assert(stands_at(root, resource_name, text, i, j, k));
    }
}

proof fn lemma_value_stands(entries: Seq<(Seq<char>, JsonModel)>, key: Seq<char>) -> (i: int)
    requires
        value_at(entries, key) is Some,
    ensures
        0 <= i < entries.len(),
        entries[i] == (key, value_at(entries, key)->0),
{
    law_find_map_is_leftmost(entries, entry_of(key));
    choose|i: int|
        0 <= i < entries.len() && #[trigger] entry_of(key)(entries[i]) == value_at(entries, key)
}

proof fn lemma_properties_stand(
    resources: Seq<(Seq<char>, JsonModel)>,
    resource_name: Seq<char>,
) -> (i: int)
    requires
        properties_in(resources, resource_name) is Some,
    ensures
        0 <= i < resources.len(),
        resource_name.is_suffix_of(resources[i].0),
        resources[i].1 == JsonModel::Object(properties_in(resources, resource_name)->0),
{
    let url = resource_url(resource_name);
    match value_at(resources, url) {
        Some(JsonModel::Object(_)) => {
            let start = url.len() - resource_name.len();
            assert(resource_name =~= url.subrange(start, url.len() as int));
            lemma_value_stands(resources, url)
        },
        _ => {
            let take = resource_entry(resource_name);
            law_find_map_is_leftmost(resources, take);
            choose|i: int|
                0 <= i < resources.len() && #[trigger] take(resources[i]) == find_map(
                    resources,
                    take,
                )
        },
    }
}

proof fn lemma_abstracts_stand(properties: Seq<(Seq<char>, JsonModel)>) -> (j: int)
    requires
        abstracts_in(properties) is Some,
    ensures
        0 <= j < properties.len(),
        "abstract"@.is_suffix_of(properties[j].0),
        properties[j].1 == JsonModel::Array(abstracts_in(properties)->0),
{
    match value_at(properties, ABSTRACT_PROPERTY@) {
        Some(JsonModel::Array(_)) => {
            reveal_strlit("http://dbpedia.org/ontology/abstract");
            reveal_strlit("abstract");
            assert("abstract"@ =~= ABSTRACT_PROPERTY@.subrange(28, 36));
            lemma_value_stands(properties, ABSTRACT_PROPERTY@)
        },
        _ => {
            law_find_map_is_leftmost(properties, abstract_entry());
            choose|j: int|
                0 <= j < properties.len() && #[trigger] abstract_entry()(properties[j])
                    == find_map(properties, abstract_entry())
        },
    }
}

/// Whether a language tag says English, in whatever case.
pub fn is_english(tag: &str) -> (yes: bool)
    ensures
        yes == english(tag@),
        yes == (lowercase(tag@) == "en"@),
        is_ascii_chars(tag@) ==> yes == (tag@.map_values(|c: char| ascii_lower(c)) == "en"@),
        is_ascii_chars(tag@) ==> yes == (tag@.len() == 2 && (tag@[0] == 'e' || tag@[0] == 'E') && (
        tag@[1] == 'n' || tag@[1] == 'N')),
{
    let lower = tag.to_lowercase();
    proof {
        reveal_strlit("en");
        if is_ascii_chars(tag@) {
            assert(lower@.len() == tag@.len());
            if tag@.len() == 2 {
                law_ascii_lower_by_number(tag@[0]);
                law_ascii_lower_by_number(tag@[1]);
                assert(lower@[0] == ascii_lower(tag@[0]));
                assert(lower@[1] == ascii_lower(tag@[1]));
                assert(lower@ == "en"@ <==> lower@[0] == 'e' && lower@[1] == 'n') by {
                    if lower@[0] == 'e' && lower@[1] == 'n' {
                        assert(lower@ =~= "en"@);
                    }
                }
                assert(lower@[0] == 'e' <==> tag@[0] == 'e' || tag@[0] == 'E');
                assert(lower@[1] == 'n' <==> tag@[1] == 'n' || tag@[1] == 'N');
            }
        }
    }
    same_text(lower.as_str(), "en")
}

fn find_resource<'a>(
    resources: &'a Vec<(String, Json)>,
    resource_name: &str,
) -> (properties: Option<&'a Vec<(String, Json)>>)
    ensures
        match properties {
            Some(list) => properties_in(entries_model(resources@), resource_name@) == Some(
                entries_model(list@),
            ),
            None => properties_in(entries_model(resources@), resource_name@) is None,
        },
{
    if let Some(value) = get(resources, get_resource_url(resource_name).as_str()) {
        if let Some(properties) = value.as_object() {
            return Some(properties);
        }
    }
    let ghost model = entries_model(resources@);
    let ghost take = resource_entry(resource_name@);
    let mut i: usize = 0;
    assert(model.skip(0) =~= model);
    while i < resources.len()
        invariant
            model == entries_model(resources@),
            take == resource_entry(resource_name@),
            i <= resources@.len(),
            properties_in(model, resource_name@) == find_map(model, take),
            find_map(model.skip(i as int), take) == find_map(model, take),
        decreases resources@.len() - i,
    {
        proof {
            lemma_find_map_step(model, take, i as int);
        }
        let entry = &resources[i];
        if ends_with(entry.0.as_str(), resource_name) {
            if let Some(properties) = entry.1.as_object() {
                return Some(properties);
            }
        }
        i += 1;
    }
    None
}

fn find_abstracts<'a>(properties: &'a Vec<(String, Json)>) -> (abstracts: Option<&'a Vec<Json>>)
    ensures
        match abstracts {
            Some(list) => abstracts_in(entries_model(properties@)) == Some(items_model(list@)),
            None => abstracts_in(entries_model(properties@)) is None,
        },
{
    if let Some(value) = get(properties, ABSTRACT_PROPERTY) {
        if let Some(abstracts) = value.as_array() {
            return Some(abstracts);
        }
    }
    let ghost model = entries_model(properties@);
    let mut i: usize = 0;
    assert(model.skip(0) =~= model);
    while i < properties.len()
        invariant
            model == entries_model(properties@),
            i <= properties@.len(),
            abstracts_in(model) == find_map(model, abstract_entry()),
            find_map(model.skip(i as int), abstract_entry()) == find_map(model, abstract_entry()),
        decreases properties@.len() - i,
    {
        proof {
            lemma_find_map_step(model, abstract_entry(), i as int);
        }
        let entry = &properties[i];
        if ends_with(entry.0.as_str(), "abstract") {
            if let Some(abstracts) = entry.1.as_array() {
                return Some(abstracts);
            }
        }
        i += 1;
    }
    None
}

fn english_text(item: &Json) -> (text: Option<String>)
    ensures
        opt_text(text) == english_value()(item.model()),
{
    match item.as_object() {
        Some(entries) => match get(entries, "lang") {
            Some(lang) => match lang.as_str() {
                Some(tag) => {
                    if is_english(tag.as_str()) {
                        match get(entries, "value") {
                            Some(value) => match value.as_str() {
                                Some(text) => Some(text.clone()),
                                None => None,
                            },
                            None => None,
                        }
                    } else {
                        None
                    }
                },
                None => None,
            },
            None => None,
        },
        None => None,
    }
}

fn find_english(abstracts: &Vec<Json>) -> (text: Option<String>)
    ensures
        opt_text(text) == find_map(items_model(abstracts@), english_value()),
{
    let ghost model = items_model(abstracts@);
    let mut i: usize = 0;
    assert(model.skip(0) =~= model);
    while i < abstracts.len()
        invariant
            model == items_model(abstracts@),
            i <= abstracts@.len(),
            find_map(model.skip(i as int), english_value()) == find_map(model, english_value()),
        decreases abstracts@.len() - i,
    {
        proof {
            lemma_find_map_step(model, english_value(), i as int);
        }
        let found = english_text(&abstracts[i]);
        if found.is_some() {
            return found;
        }
        i += 1;
    }
    None
}

/// The English abstract of a resource in its data document.
pub fn find_abstract(root: &Json, resource_name: &str) -> (text: Option<String>)
    ensures
        opt_text(text) == abstract_in(root.model(), resource_name@),
{
    match root.as_object() {
        Some(resources) => match find_resource(resources, resource_name) {
            Some(properties) => match find_abstracts(properties) {
                Some(abstracts) => find_english(abstracts),
                None => None,
            },
            None => None,
        },
        None => None,
    }
}

/// How looking for an abstract in a data document came out.
#[derive(Debug)]
pub enum Lookup {
    /// The text is no JSON.
    Malformed(serde_json::Error),
    /// The text is JSON without an English abstract of the resource.
    Missing,
    Found(String),
}

/// What a [`Lookup`] says.
pub enum LookupModel {
    Malformed,
    Missing,
    Found(Seq<char>),
}

impl Lookup {
    /// What this says.
    pub open spec fn model(self) -> LookupModel {
        match self {
            Lookup::Malformed(_) => LookupModel::Malformed,
            Lookup::Missing => LookupModel::Missing,
            Lookup::Found(text) => LookupModel::Found(text@),
        }
    }

    /// The abstract, where a text that is no JSON counts as an empty one.
    pub fn to_abstract(&self) -> (text: Option<String>)
        ensures
            opt_text(text) == self.model().to_abstract(),
    {
        match self {
            Lookup::Malformed(_) => Some(String::new()),
            Lookup::Missing => None,
            Lookup::Found(text) => Some(text.clone()),
        }
    }

    /// The text to go on with: empty unless an abstract was found.
    pub fn to_text(&self) -> (text: String)
        ensures
            text@ == self.model().text(),
    {
        match self {
            Lookup::Found(text) => text.clone(),
            _ => String::new(),
        }
    }
}

impl LookupModel {
    /// The abstract, where a text that is no JSON counts as an empty one.
    pub open spec fn to_abstract(self) -> Option<Seq<char>> {
        match self {
            LookupModel::Malformed => Some(Seq::empty()),
            LookupModel::Missing => None,
            LookupModel::Found(text) => Some(text),
        }
    }

    /// The text to go on with: empty unless an abstract was found.
    pub open spec fn text(self) -> Seq<char> {
        match self {
            LookupModel::Found(text) => text,
            _ => Seq::empty(),
        }
    }
}

/// How looking for the abstract of a resource comes out, by what the parser made of its
/// data document.
pub open spec fn lookup_in(parsed: Option<JsonModel>, resource_name: Seq<char>) -> LookupModel {
    match parsed {
        None => LookupModel::Malformed,
        Some(root) => match abstract_in(root, resource_name) {
            Some(text) => LookupModel::Found(text),
            None => LookupModel::Missing,
        },
    }
}

/// A lookup gives back the whole of what was found, whatever it is: the text of the abstract,
/// that there is none, or an empty text for what is no JSON.
pub proof fn law_lookup_gives_what_was_found(parsed: Option<JsonModel>, resource_name: Seq<char>)
    ensures
        match parsed {
            None => {
                &&& lookup_in(parsed, resource_name) is Malformed
                &&& lookup_in(parsed, resource_name).to_abstract() == Some(Seq::<char>::empty())
                &&& lookup_in(parsed, resource_name).text().len() == 0
            },
            Some(root) => {
                &&& lookup_in(parsed, resource_name) !is Malformed
                &&& lookup_in(parsed, resource_name).to_abstract() == abstract_in(
                    root,
                    resource_name,
                )
                &&& match abstract_in(root, resource_name) {
                    Some(text) => lookup_in(parsed, resource_name) == LookupModel::Found(text)
                        && lookup_in(parsed, resource_name).text() == text,
                    None => lookup_in(parsed, resource_name) is Missing && lookup_in(
                        parsed,
                        resource_name,
                    ).text().len() == 0,
                }
            },
        },
{
}

/// How a lookup came out says how it came out, with the text that it holds.
pub proof fn law_lookup_keeps_its_text(lookup: Lookup)
    ensures
        match lookup {
            Lookup::Malformed(_) => lookup.model() is Malformed,
            Lookup::Missing => lookup.model() is Missing,
            Lookup::Found(text) => lookup.model() == LookupModel::Found(text@),
        },
{
}

/// Looks for the abstract of a resource in what the parser made of its data document.
pub fn look_up(parsed: Result<Json, serde_json::Error>, resource_name: &str) -> (lookup: Lookup)
    ensures
        lookup.model() == lookup_in(
            match parsed {
                Ok(root) => Some(root.model()),
                Err(_) => None,
            },
            resource_name@,
        ),
        parsed matches Err(error) ==> lookup == Lookup::Malformed(error),
{
    match parsed {
        Ok(root) => match find_abstract(&root, resource_name) {
            Some(text) => Lookup::Found(text),
            None => Lookup::Missing,
        },
        Err(error) => Lookup::Malformed(error),
    }
}

/// Looks for the abstract of a resource in the text of its data document.
pub fn look_up_abstract(json_str: &str, resource_name: &str) -> (lookup: Lookup)
    ensures
        lookup.model() == lookup_in(parsed_json(json_str@), resource_name@),
        json_str@.len() == 0 ==> lookup is Malformed,
{
    look_up(parse_document(json_str), resource_name)
}

/// The English abstract of a resource in the text of its data document: an empty one where
/// the text is no JSON, none where it is JSON without such an abstract.
pub fn get_abstract(json_str: &str, resource_name: &str) -> (text: Option<String>)
    ensures
        opt_text(text) == lookup_in(parsed_json(json_str@), resource_name@).to_abstract(),
        json_str@.len() == 0 ==> opt_text(text) == Some(Seq::<char>::empty()),
{
    look_up_abstract(json_str, resource_name).to_abstract()
}

/// What [`extract_abstract_from_json`] gives.
pub open spec fn extracted(json_str: Seq<char>, resource_name: Seq<char>) -> Seq<char> {
    if json_str.len() == 0 {
        Seq::empty()
    } else {
        lookup_in(parsed_json(json_str), resource_name).text()
    }
}

/// What is extracted from a text is the whole abstract in it; nothing is extracted from an
/// empty text, from one that is no JSON, and from one without an abstract.
pub proof fn law_extracted_is_the_abstract(json_str: Seq<char>, resource_name: Seq<char>)
    ensures
        json_str.len() == 0 ==> extracted(json_str, resource_name).len() == 0,
        json_str.len() > 0 ==> extracted(json_str, resource_name) == match parsed_json(json_str) {
            Some(root) => match abstract_in(root, resource_name) {
                Some(text) => text,
                None => Seq::empty(),
            },
            None => Seq::empty(),
        },
{
    law_lookup_gives_what_was_found(parsed_json(json_str), resource_name);
}

/// The English abstract of a resource in the text of its data document, and an empty text
/// where there is none to be had: in an empty text, one that is no JSON, or one without
/// such an abstract.
///
/// On every text, the empty one too, this is what [`get_abstract`] gives, or an empty text
/// where that gives none.
pub fn extract_abstract_from_json(json_str: &str, resource_name: &str) -> (text: String)
    ensures
        text@ == extracted(json_str@, resource_name@),
        text@ == match lookup_in(parsed_json(json_str@), resource_name@).to_abstract() {
            Some(found) => found,
            None => Seq::empty(),
        },
{
    match get_abstract(json_str, resource_name) {
        Some(text) => text,
        None => String::new(),
    }
}

} // verus!
