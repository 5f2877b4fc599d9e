//! JSON documents as plain values, and the text of a JSON string.

use vstd::prelude::*;

use crate::text::{find_map, law_find_map_is_leftmost, lemma_find_map_step, same_text};

verus! {

/// A JSON document, as far as the lookups read it.
///
/// An object keeps its entries in the order in which the parser hands them out.
#[derive(Debug)]
pub enum Json {
    Null,
    Bool(bool),
    /// Some number; which one is never asked.
    Number,
    Text(String),
    Array(Vec<Json>),
    Object(Vec<(String, Json)>),
}

/// What a [`Json`] stands for.
pub enum JsonModel {
    Null,
    Bool(bool),
    Number,
    Text(Seq<char>),
    Array(Seq<JsonModel>),
    Object(Seq<(Seq<char>, JsonModel)>),
}

impl Json {
    /// The document that this value stands for.
    pub open spec fn model(self) -> JsonModel
        decreases self,
    {
        match self {
            Json::Null => JsonModel::Null,
            Json::Bool(b) => JsonModel::Bool(b),
            Json::Number => JsonModel::Number,
            Json::Text(s) => JsonModel::Text(s@),
            Json::Array(items) => JsonModel::Array(
                Seq::new(
                    items@.len(),
                    |i: int|
                        if 0 <= i < items@.len() {
                            items@[i].model()
                        } else {
                            JsonModel::Null
                        },
                ),
            ),
            Json::Object(entries) => JsonModel::Object(
                Seq::new(
                    entries@.len(),
                    |i: int|
                        if 0 <= i < entries@.len() {
                            (entries@[i].0@, entries@[i].1.model())
                        } else {
                            (Seq::empty(), JsonModel::Null)
                        },
                ),
            ),
        }
    }
}

/// Whether no two entries of an object have the same key.
pub open spec fn distinct_keys(entries: Seq<(Seq<char>, JsonModel)>) -> bool {
    forall|i: int, j: int|
        0 <= i < j < entries.len() ==> (#[trigger] entries[i]).0 != (#[trigger] entries[j]).0
}

impl JsonModel {
    /// Whether every object in the document has each of its keys once.
    pub open spec fn well_formed(self) -> bool
        decreases self,
    {
        match self {
            JsonModel::Array(items) => forall|i: int|
                0 <= i < items.len() ==> (#[trigger] items[i]).well_formed(),
            JsonModel::Object(entries) => {
                &&& distinct_keys(entries)
                &&& forall|i: int|
                    0 <= i < entries.len() ==> (#[trigger] entries[i]).1.well_formed()
            },
            _ => true,
        }
    }
}

/// The entries that a list of keys and documents stands for.
pub open spec fn entries_model(entries: Seq<(String, Json)>) -> Seq<(Seq<char>, JsonModel)> {
    Seq::new(entries.len(), |i: int| (entries[i].0@, entries[i].1.model()))
}

/// The items that a list of documents stands for.
pub open spec fn items_model(items: Seq<Json>) -> Seq<JsonModel> {
    Seq::new(items.len(), |i: int| items[i].model())
}

/// A value stands for a document of its own kind with the same text, the same items or the
/// same entries, each in its place.
pub proof fn law_json_keeps_everything(json: Json)
    ensures
        match json {
            Json::Null => json.model() is Null,
            Json::Bool(b) => json.model() == JsonModel::Bool(b),
            Json::Number => json.model() is Number,
            Json::Text(text) => json.model() == JsonModel::Text(text@),
            Json::Array(items) => {
                &&& json.model() matches JsonModel::Array(models)
                &&& models.len() == items@.len()
                &&& forall|i: int|
                    0 <= i < items@.len() ==> #[trigger] models[i] == items@[i].model()
            },
            Json::Object(entries) => {
                &&& json.model() matches JsonModel::Object(models)
                &&& models.len() == entries@.len()
                &&& forall|i: int|
                    0 <= i < entries@.len() ==> #[trigger] models[i] == (
                        entries@[i].0@,
                        entries@[i].1.model(),
                    )
            },
        },
{
}

/// A list of keys and documents, or of documents, stands for one of the same length, with
/// each key and each document in its place.
pub proof fn law_lists_keep_everything(entries: Seq<(String, Json)>, items: Seq<Json>, i: int)
    ensures
        entries_model(entries).len() == entries.len(),
        0 <= i < entries.len() ==> entries_model(entries)[i].0 == entries[i].0@
            && entries_model(entries)[i].1 == entries[i].1.model(),
        items_model(items).len() == items.len(),
        0 <= i < items.len() ==> items_model(items)[i] == items[i].model(),
{
}

impl Json {
    /// The entries of an object.
    pub fn as_object(&self) -> (entries: Option<&Vec<(String, Json)>>)
        ensures
            match entries {
                Some(list) => self.model() == JsonModel::Object(entries_model(list@)),
                None => self.model() !is Object,
            },
    {
        match self {
            Json::Object(entries) => {
                assert(self.model()->Object_0 =~= entries_model(entries@));
                Some(entries)
            },
            _ => None,
        }
    }

    /// The items of an array.
    pub fn as_array(&self) -> (items: Option<&Vec<Json>>)
        ensures
            match items {
                Some(list) => self.model() == JsonModel::Array(items_model(list@)),
                None => self.model() !is Array,
            },
    {
        match self {
            Json::Array(items) => {
                assert(self.model()->Array_0 =~= items_model(items@));
                Some(items)
            },
            _ => None,
        }
    }

    /// The text of a string.
    pub fn as_str(&self) -> (text: Option<&String>)
        ensures
            match text {
                Some(t) => self.model() == JsonModel::Text(t@),
                None => self.model() !is Text,
            },
    {
        match self {
            Json::Text(text) => Some(text),
            _ => None,
        }
    }
}

/// Takes an entry with the given key.
pub open spec fn entry_of(key: Seq<char>) -> spec_fn((Seq<char>, JsonModel)) -> Option<JsonModel> {
    |entry: (Seq<char>, JsonModel)|
        if entry.0 == key {
            Some(entry.1)
        } else {
            None
        }
}

/// What stands under a key.
pub open spec fn value_at(
    entries: Seq<(Seq<char>, JsonModel)>,
    key: Seq<char>,
) -> Option<JsonModel> {
    find_map(entries, entry_of(key))
}

/// What stands under a key is the value of the first entry with that very key, and nothing
/// stands there exactly where no entry has it.
pub proof fn law_value_at_is_the_first(entries: Seq<(Seq<char>, JsonModel)>, key: Seq<char>)
    ensures
        match value_at(entries, key) {
            Some(value) => exists|i: int|
                0 <= i < entries.len() && #[trigger] entries[i] == (key, value) && forall|j: int|
                    0 <= j < i ==> (#[trigger] entries[j]).0 != key,
            None => forall|i: int| 0 <= i < entries.len() ==> (#[trigger] entries[i]).0 != key,
        },
{
    let take = entry_of(key);
    law_find_map_is_leftmost(entries, take);
    match value_at(entries, key) {
        Some(value) => {
            let i = choose|i: int|
                0 <= i < entries.len() && #[trigger] take(entries[i]) == Some(value) && forall|
                    j: int,
                | 0 <= j < i ==> #[trigger] take(entries[j]) is None;
            assert(entries[i] == (key, value));
            assert forall|j: int| 0 <= j < i implies (#[trigger] entries[j]).0 != key by {
                assert(take(entries[j]) is None);
            }
        },
        None => {
            assert forall|i: int| 0 <= i < entries.len() implies (#[trigger] entries[i]).0
                != key by {
                assert(take(entries[i]) is None);
            }
        },
    }
}

/// Where each key occurs once, each entry is what stands under its key.
pub proof fn law_value_at_is_the_entry(entries: Seq<(Seq<char>, JsonModel)>, i: int)
    requires
        distinct_keys(entries),
        0 <= i < entries.len(),
    ensures
        value_at(entries, entries[i].0) == Some(entries[i].1),
    decreases entries.len(),
{
    let rest = entries.drop_first();
    if i > 0 {
        assert(entries[0].0 != entries[i].0);
        assert forall|a: int, b: int| 0 <= a < b < rest.len() implies (#[trigger] rest[a]).0 != (
        #[trigger] rest[b]).0 by {
            assert(rest[a] == entries[a + 1]);
            assert(rest[b] == entries[b + 1]);
        }
        assert(rest[i - 1] == entries[i]);
        law_value_at_is_the_entry(rest, i - 1);
    }
}

/// Looks a key up among the entries of an object.
pub fn get<'a>(entries: &'a Vec<(String, Json)>, key: &str) -> (value: Option<&'a Json>)
    ensures
        match value {
            Some(json) => value_at(entries_model(entries@), key@) == Some(json.model()),
            None => value_at(entries_model(entries@), key@) is None,
        },
{
    let ghost model = entries_model(entries@);
    let mut i: usize = 0;
    assert(model.skip(0) =~= model);
    while i < entries.len()
        invariant
            model == entries_model(entries@),
            i <= entries@.len(),
            find_map(model.skip(i as int), entry_of(key@)) == value_at(model, key@),
        decreases entries@.len() - i,
    {
        proof {
            lemma_find_map_step(model, entry_of(key@), i as int);
        }
        let entry = &entries[i];
        if same_text(entry.0.as_str(), key) {
            return Some(&entry.1);
        }
        i += 1;
    }
    None
}

/// The value type of `serde_json`.
#[verifier::external_type_specification]
#[verifier::external_body]
pub struct ExValue(serde_json::Value);

/// The error type of `serde_json`.
#[verifier::external_type_specification]
#[verifier::external_body]
pub struct ExError(serde_json::Error);

/// What a `serde_json::Value` holds, an object's entries in the order in which
/// its map iterates over them.
pub uninterp spec fn held_json(value: serde_json::Value) -> JsonModel;

/// The document that `serde_json::from_str` reads in a text, if it reads one.
pub uninterp spec fn parsed_json(text: Seq<char>) -> Option<JsonModel>;

/// The outermost level of a `serde_json::Value`.
enum Level<'a> {
    Null,
    Bool(bool),
    Number,
    Text(&'a String),
    Array(&'a Vec<serde_json::Value>),
    Object(Vec<(&'a String, &'a serde_json::Value)>),
}

impl<'a> Level<'a> {
    spec fn model(self) -> JsonModel {
        match self {
            Level::Null => JsonModel::Null,
            Level::Bool(b) => JsonModel::Bool(b),
            Level::Number => JsonModel::Number,
            Level::Text(s) => JsonModel::Text(s@),
            Level::Array(items) => JsonModel::Array(
                Seq::new(items@.len(), |i: int| held_json(items@[i])),
            ),
            Level::Object(entries) => JsonModel::Object(
                Seq::new(entries@.len(), |i: int| (entries@[i].0@, held_json(*entries@[i].1))),
            ),
        }
    }

    spec fn keys_once(self) -> bool {
        self.model() matches JsonModel::Object(entries) ==> distinct_keys(entries)
    }
}

/// The outermost level shows the kind of a value, and its text, items or entries in full.
proof fn law_level_keeps_everything(level: Level)
    ensures
        match level {
            Level::Null => level.model() is Null,
            Level::Bool(b) => level.model() == JsonModel::Bool(b),
            Level::Number => level.model() is Number,
            Level::Text(text) => level.model() == JsonModel::Text(text@),
            Level::Array(items) => {
                &&& level.model() matches JsonModel::Array(models)
                &&& models.len() == items@.len()
                &&& forall|i: int|
                    0 <= i < items@.len() ==> #[trigger] models[i] == held_json(items@[i])
            },
            Level::Object(entries) => {
                &&& level.model() matches JsonModel::Object(models)
                &&& models.len() == entries@.len()
                &&& forall|i: int|
                    0 <= i < entries@.len() ==> #[trigger] models[i] == (
                        entries@[i].0@,
                        held_json(*entries@[i].1),
                    )
            },
        },
{
}

/// Calls `serde_json::from_str::<serde_json::Value>`.
///
/// Trusted: the call succeeds or fails by the text alone, and on success the
/// value holds the document that the text has. An empty text has none.
#[verifier::external_body]
fn parse_value(text: &str) -> (parsed: Result<serde_json::Value, serde_json::Error>)
    ensures
        match parsed {
            Ok(value) => parsed_json(text@) == Some(held_json(value)),
            Err(_) => parsed_json(text@) is None,
        },
        text@.len() == 0 ==> parsed is Err,
{
    serde_json::from_str::<serde_json::Value>(text)
}

/// Tells the variants of a `serde_json::Value` apart and lists the entries of
/// an object with `serde_json::Map::iter`.
///
/// Trusted: the level shows what the value holds, and a map has each of its
/// keys once.
#[verifier::external_body]
fn open_value<'a>(value: &'a serde_json::Value) -> (level: Level<'a>)
    ensures
        level.model() == held_json(*value),
        level.keys_once(),
{
    match value {
        serde_json::Value::Null => Level::Null,
        serde_json::Value::Bool(b) => Level::Bool(*b),
        serde_json::Value::Number(_) => Level::Number,
        serde_json::Value::String(s) => Level::Text(s),
        serde_json::Value::Array(items) => Level::Array(items),
        serde_json::Value::Object(entries) => Level::Object(entries.iter().collect()),
    }
}

/// Copies a whole `serde_json::Value` into a [`Json`].
fn to_json(value: &serde_json::Value) -> (json: Json)
    ensures
        json.model() == held_json(*value),
        json.model().well_formed(),
    decreases held_json(*value),
{
    let ghost held = held_json(*value);
    match open_value(value) {
        Level::Null => Json::Null,
        Level::Bool(b) => Json::Bool(b),
        Level::Number => Json::Number,
        Level::Text(s) => Json::Text(s.clone()),
        Level::Array(items) => {
            let mut copied: Vec<Json> = Vec::new();
            let mut i: usize = 0;
            while i < items.len()
                invariant
                    held == held_json(*value),
                    held matches JsonModel::Array(models) && models.len() == items@.len() && (
                    forall|j: int|
                        0 <= j < items@.len() ==> #[trigger] models[j] == held_json(items@[j])),
                    i <= items@.len(),
                    copied@.len() == i,
                    forall|j: int|
                        0 <= j < i ==> (#[trigger] copied@[j]).model() == held_json(items@[j])
                            && copied@[j].model().well_formed(),
                decreases items@.len() - i,
            {
                let ghost models = held->Array_0;
                assert(models[i as int] == held_json(items@[i as int]));
                copied.push(to_json(&items[i]));
                i += 1;
            }
            let json = Json::Array(copied);
            assert(json.model()->Array_0 =~= held->Array_0);
            json
        },
        Level::Object(entries) => {
            let mut copied: Vec<(String, Json)> = Vec::new();
            let mut i: usize = 0;
            while i < entries.len()
                invariant
                    held == held_json(*value),
                    held matches JsonModel::Object(models) && models.len() == entries@.len() && (
                    forall|j: int|
                        0 <= j < entries@.len() ==> #[trigger] models[j] == (
                            entries@[j].0@,
                            held_json(*entries@[j].1),
                        )),
                    i <= entries@.len(),
                    copied@.len() == i,
                    forall|j: int|
                        0 <= j < i ==> (#[trigger] copied@[j]).0@ == entries@[j].0@
                            && copied@[j].1.model() == held_json(*entries@[j].1)
                            && copied@[j].1.model().well_formed(),
                decreases entries@.len() - i,
            {
                let ghost models = held->Object_0;
                assert(models[i as int] == (
                    entries@[i as int].0@,
                    held_json(*entries@[i as int].1),
                ));
                assert(decreases_to!(held => models));
                assert(decreases_to!(models => models[i as int]));
                assert(decreases_to!(models[i as int] => models[i as int].1));
                let entry = &entries[i];
                copied.push((entry.0.clone(), to_json(entry.1)));
                i += 1;
            }
            let json = Json::Object(copied);
            assert(json.model()->Object_0 =~= held->Object_0);
            json
        },
    }
}

/// Reads a JSON text.
///
/// Succeeds exactly on the texts that `serde_json::from_str` accepts; every
/// object of the document that is read has each of its keys once.
pub fn parse_document(text: &str) -> (parsed: Result<Json, serde_json::Error>)
    ensures
        match parsed {
            Ok(json) => parsed_json(text@) == Some(json.model()) && json.model().well_formed(),
            Err(_) => parsed_json(text@) is None,
        },
        text@.len() == 0 ==> parsed is Err,
{
    match parse_value(text) {
        Ok(value) => Ok(to_json(&value)),
        Err(error) => Err(error),
    }
}

} // verus!
