//! JSON values: a plain model of them, reading, writing and redaction.

use crate::text::{
    ascii_lower, contains_text, has_text, lemma_text_le_total, lemma_text_le_transitive, lower_text,
    res_view, same_text, text_le,
};
use vstd::prelude::*;

verus! {

/// A JSON value. A number is kept as its text.
#[derive(Debug)]
pub enum Json {
    Null,
    Bool(bool),
    Number(String),
    Text(String),
    Array(Vec<Json>),
    Object(Vec<(String, Json)>),
}

/// The mathematical form of a JSON value.
pub enum JsonView {
    Null,
    Bool(bool),
    Number(Seq<char>),
    Text(Seq<char>),
    Array(Seq<JsonView>),
    Object(Seq<(Seq<char>, JsonView)>),
}

impl View for Json {
    type V = JsonView;

    open spec fn view(&self) -> JsonView
        decreases self,
    {
        match self {
            Json::Null => JsonView::Null,
            Json::Bool(b) => JsonView::Bool(*b),
            Json::Number(text) => JsonView::Number(text@),
            Json::Text(text) => JsonView::Text(text@),
            Json::Array(items) => JsonView::Array(item_views(items@)),
            Json::Object(entries) => JsonView::Object(entry_views(entries@)),
        }
    }
}

/// The mathematical forms of the elements of an array.
pub open spec fn item_views(items: Seq<Json>) -> Seq<JsonView>
    decreases items,
{
    Seq::new(
        items.len(),
        |i: int|
            if 0 <= i < items.len() {
                items[i].view()
            } else {
                JsonView::Null
            },
    )
}

/// The mathematical forms of the members of an object.
pub open spec fn entry_views(entries: Seq<(String, Json)>) -> Seq<(Seq<char>, JsonView)>
    decreases entries,
{
    Seq::new(
        entries.len(),
        |i: int|
            if 0 <= i < entries.len() {
                (entries[i].0@, entries[i].1.view())
            } else {
                (Seq::empty(), JsonView::Null)
            },
    )
}

/// The elements of an array are viewed one by one.
pub proof fn lemma_array_view(json: Json)
    requires
        json is Array,
    ensures
        json@ is Array,
        json@->Array_0.len() == json->Array_0@.len(),
        forall|i: int|
            #![trigger json@->Array_0[i]]
            0 <= i < json->Array_0@.len() ==> json@->Array_0[i] == json->Array_0@[i]@,
{
    assert(json@->Array_0 == item_views(json->Array_0@));
}

/// The members of an object are viewed one by one.
pub proof fn lemma_object_view(json: Json)
    requires
        json is Object,
    ensures
        json@ is Object,
        json@->Object_0.len() == json->Object_0@.len(),
        forall|i: int|
            #![trigger json@->Object_0[i]]
            0 <= i < json->Object_0@.len() ==> json@->Object_0[i] == (
                json->Object_0@[i].0@,
                json->Object_0@[i].1@,
            ),
{
    assert(json@->Object_0 == entry_views(json->Object_0@));
}

// The outside JSON value

/// `serde_json::Value`, carried but never looked into.
#[verifier::external_type_specification]
#[verifier::external_body]
pub struct ExValue(serde_json::Value);

/// One level of a `serde_json::Value`.
pub enum JsonNode {
    Null,
    Bool(bool),
    Number(String),
    Text(String),
    Array(Vec<serde_json::Value>),
    Object(Vec<(String, serde_json::Value)>),
}

/// What a `serde_json::Value` holds.
pub uninterp spec fn value_json(value: serde_json::Value) -> JsonView;

/// What `serde_json::from_str` reads from a text: a value, or the message of
/// the error.
pub uninterp spec fn json_parse(text: Seq<char>) -> Result<JsonView, Seq<char>>;

/// The beginning of a text up to the end of the value that it begins with, as
/// a stream of `serde_json` over `serde::de::IgnoredAny` skips it, if it begins
/// with one. Numbers may be out of range and values nested to any depth.
pub uninterp spec fn value_prefix(text: Seq<char>) -> Option<Seq<char>>;

/// The form in which `serde_json::Number` writes the number that it reads from
/// a text, if it reads one.
pub uninterp spec fn canonical_number(text: Seq<char>) -> Option<Seq<char>>;

/// What `serde_json::to_string` writes for a value: a text, or the message of
/// the error.
pub uninterp spec fn json_text(value: JsonView) -> Result<Seq<char>, Seq<char>>;

/// The children of an array.
pub open spec fn value_items(items: Seq<serde_json::Value>) -> Seq<JsonView> {
    Seq::new(items.len(), |i: int| value_json(items[i]))
}

/// The members of an object.
pub open spec fn value_entries(
    entries: Seq<(String, serde_json::Value)>,
) -> Seq<(Seq<char>, JsonView)> {
    Seq::new(entries.len(), |i: int| (entries[i].0@, value_json(entries[i].1)))
}

/// What one opened level stands for.
pub open spec fn opened(node: JsonNode) -> JsonView {
    match node {
        JsonNode::Null => JsonView::Null,
        JsonNode::Bool(b) => JsonView::Bool(b),
        JsonNode::Number(text) => JsonView::Number(text@),
        JsonNode::Text(text) => JsonView::Text(text@),
        JsonNode::Array(items) => JsonView::Array(value_items(items@)),
        JsonNode::Object(entries) => JsonView::Object(value_entries(entries@)),
    }
}

/// Members in the order of their keys, with one more member put in: it takes
/// the place of a member with the same key.
pub open spec fn with_member(
    entries: Seq<(Seq<char>, JsonView)>,
    member: (Seq<char>, JsonView),
) -> Seq<(Seq<char>, JsonView)>
    decreases entries.len(),
{
    if entries.len() == 0 {
        seq![member]
    } else if entries.last().0 == member.0 {
        entries.drop_last().push(member)
    } else if crate::text::text_le(entries.last().0, member.0) {
        entries.push(member)
    } else {
        with_member(entries.drop_last(), member).push(entries.last())
    }
}

/// The members of an object as a map that is walked in the order of its keys
/// holds them: of two members with one key, the later.
pub open spec fn as_members(entries: Seq<(Seq<char>, JsonView)>) -> Seq<(Seq<char>, JsonView)>
    decreases entries.len(),
{
    if entries.len() == 0 {
        Seq::empty()
    } else {
        with_member(as_members(entries.drop_last()), entries.last())
    }
}

/// What one level stands for once it is closed, a number apart.
pub open spec fn closed(node: JsonNode) -> JsonView {
    match node {
        JsonNode::Object(entries) => JsonView::Object(as_members(value_entries(entries@))),
        _ => opened(node),
    }
}

/// A number in the form in which it is written, if it is one.
pub open spec fn written_number(canonical: Option<Seq<char>>) -> Option<JsonView> {
    match canonical {
        Some(text) => Some(JsonView::Number(text)),
        None => None,
    }
}

/// Calls `serde_json::from_str`. The contract only names its result.
#[verifier::external_body]
fn read_value(text: &str) -> (result: Result<serde_json::Value, String>)
    ensures
        match result {
            Ok(value) => json_parse(text@) == Ok::<JsonView, Seq<char>>(value_json(value)),
            Err(message) => json_parse(text@) == Err::<JsonView, Seq<char>>(message@),
        },
{
    serde_json::from_str::<serde_json::Value>(text).map_err(|error| error.to_string())
}

/// Takes the first value of `serde_json::Deserializer::into_iter` over
/// `serde::de::IgnoredAny` and splits the text at the `byte_offset` behind it.
/// The contract names where that is; the value is not empty, and the two parts
/// make up the text.
#[verifier::external_body]
pub(crate) fn split_value(text: &str) -> (split: Option<(String, String)>)
    ensures
        match split {
            Some((value, rest)) => {
                &&& value_prefix(text@) == Some(value@)
                &&& value@.len() > 0
                &&& value@ + rest@ == text@
            },
            None => value_prefix(text@) is None,
        },
{
    let source = serde_json::Deserializer::from_str(text);
    let mut values = source.into_iter::<serde::de::IgnoredAny>();
    match values.next() {
        Some(Ok(_)) => {
            let (value, rest) = text.split_at(values.byte_offset());
            Some((value.to_owned(), rest.to_owned()))
        },
        _ => None,
    }
}

/// Takes a `serde_json::Value` apart by one level: each variant becomes the one
/// of the same name, a number becomes what its `to_string` writes, and the
/// children of arrays and objects come out in the order of iteration.
#[verifier::external_body]
fn open_value(value: serde_json::Value) -> (node: JsonNode)
    ensures
        value_json(value) == opened(node),
{
    match value {
        serde_json::Value::Null => JsonNode::Null,
        serde_json::Value::Bool(b) => JsonNode::Bool(b),
        serde_json::Value::Number(number) => JsonNode::Number(number.to_string()),
        serde_json::Value::String(text) => JsonNode::Text(text),
        serde_json::Value::Array(items) => JsonNode::Array(items),
        serde_json::Value::Object(entries) => JsonNode::Object(entries.into_iter().collect()),
    }
}

/// Puts a `serde_json::Value` together from one level: each variant becomes the
/// one of the same name, a number is what `Number::from_str` reads from its
/// text, and `serde_json::Map` keeps its members in the order of their keys,
/// the later of two with one key.
#[verifier::external_body]
fn close_value(node: JsonNode) -> (value: Option<serde_json::Value>)
    ensures
        match node {
            JsonNode::Number(text) => match value {
                Some(value) => written_number(canonical_number(text@)) == Some(value_json(value)),
                None => canonical_number(text@) is None,
            },
            _ => value is Some && value_json(value->0) == closed(node),
        },
{
    match node {
        JsonNode::Null => Some(serde_json::Value::Null),
        JsonNode::Bool(b) => Some(serde_json::Value::Bool(b)),
        JsonNode::Number(text) => text.parse().ok().map(serde_json::Value::Number),
        JsonNode::Text(text) => Some(serde_json::Value::String(text)),
        JsonNode::Array(items) => Some(serde_json::Value::Array(items)),
        JsonNode::Object(entries) => Some(serde_json::Value::Object(entries.into_iter().collect())),
    }
}

/// Calls `serde_json::to_string` on a value. The contract only names its result.
#[verifier::external_body]
fn write_value(value: &serde_json::Value) -> (result: Result<String, String>)
    ensures
        res_view(result) == json_text(value_json(*value)),
{
    serde_json::to_string(value).map_err(|error| error.to_string())
}

// Reading

fn json_of_value(value: serde_json::Value) -> (json: Json)
    ensures
        json@ == value_json(value),
    decreases value_json(value),
{
    let ghost whole = value_json(value);
    match open_value(value) {
        JsonNode::Null => Json::Null,
        JsonNode::Bool(b) => Json::Bool(b),
        JsonNode::Number(text) => Json::Number(text),
        JsonNode::Text(text) => Json::Text(text),
        JsonNode::Array(items) => {
            let mut result: Vec<Json> = Vec::new();
            let ghost all = items@;
            for item in it: items
                invariant
                    it.seq() == all,
                    whole == JsonView::Array(value_items(all)),
                    whole == value_json(value),
                    result@.len() == it.index(),
                    forall|j: int| 0 <= j < it.index() ==> (#[trigger] result@[j])@ == value_json(all[j]),
            {
                proof {
                    assert(whole->Array_0[it.index()] == value_json(item));
                    assert(decreases_to!(whole => whole->Array_0));
                    assert(decreases_to!(whole->Array_0 => whole->Array_0[it.index()]));
                }
                result.push(json_of_value(item));
            }
            let json = Json::Array(result);
            proof {
                assert(json@->Array_0 =~= whole->Array_0);
            }
            json
        },
        JsonNode::Object(entries) => {
            let mut result: Vec<(String, Json)> = Vec::new();
            let ghost all = entries@;
            for entry in it: entries
                invariant
                    it.seq() == all,
                    whole == JsonView::Object(value_entries(all)),
                    whole == value_json(value),
                    result@.len() == it.index(),
                    forall|j: int|
                        0 <= j < it.index() ==> (#[trigger] result@[j]).0@ == all[j].0@
                            && result@[j].1@ == value_json(all[j].1),
            {
                proof {
                    assert(whole->Object_0[it.index()].1 == value_json(entry.1));
                    assert(decreases_to!(whole => whole->Object_0));
                    assert(decreases_to!(whole->Object_0 => whole->Object_0[it.index()]));
                    assert(decreases_to!(whole->Object_0[it.index()] => whole->Object_0[it.index()].1));
                }
                let (key, child) = entry;
                result.push((key, json_of_value(child)));
            }
            let json = Json::Object(result);
            proof {
                assert(json@->Object_0 =~= whole->Object_0);
            }
            json
        },
    }
}

/// Reads a JSON text.
pub fn parse_json(text: &str) -> (result: Result<Json, String>)
    ensures
        res_view(result) == json_parse(text@),
{
    match read_value(text) {
        Ok(value) => Ok(json_of_value(value)),
        Err(message) => Err(message),
    }
}

// Writing

/// The value that is written: numbers in the form in which they are written,
/// members in the order of their keys. None where a number is not one.
pub open spec fn written(json: JsonView) -> Option<JsonView>
    decreases json,
{
    match json {
        JsonView::Number(text) => written_number(canonical_number(text)),
        JsonView::Array(items) => if forall|i: int|
            0 <= i < items.len() ==> written(#[trigger] items[i]) is Some {
            Some(JsonView::Array(written_items(items)))
        } else {
            None
        },
        JsonView::Object(entries) => if forall|i: int|
            0 <= i < entries.len() ==> written((#[trigger] entries[i]).1) is Some {
            Some(JsonView::Object(as_members(written_entries(entries))))
        } else {
            None
        },
        _ => Some(json),
    }
}

/// The elements of an array as they are written.
pub open spec fn written_items(items: Seq<JsonView>) -> Seq<JsonView>
    decreases items,
{
    Seq::new(
        items.len(),
        |i: int|
            if 0 <= i < items.len() {
                written(items[i])->0
            } else {
                JsonView::Null
            },
    )
}

/// The members of an object as they are written.
pub open spec fn written_entries(
    entries: Seq<(Seq<char>, JsonView)>,
) -> Seq<(Seq<char>, JsonView)>
    decreases entries,
{
    Seq::new(
        entries.len(),
        |i: int|
            if 0 <= i < entries.len() {
                (entries[i].0, written(entries[i].1)->0)
            } else {
                (Seq::empty(), JsonView::Null)
            },
    )
}

/// The text of a JSON value, or the message of the error.
pub open spec fn serialized(json: JsonView) -> Result<Seq<char>, Seq<char>> {
    match written(json) {
        Some(value) => json_text(value),
        None => Err("number is not valid JSON"@),
    }
}

fn value_of_json(json: &Json) -> (value: Option<serde_json::Value>)
    ensures
        match value {
            Some(value) => written(json@) == Some(value_json(value)),
            None => written(json@) is None,
        },
    decreases json,
{
    match json {
        Json::Null => close_value(JsonNode::Null),
        Json::Bool(b) => close_value(JsonNode::Bool(*b)),
        Json::Number(text) => close_value(JsonNode::Number(text.clone())),
        Json::Text(text) => close_value(JsonNode::Text(text.clone())),
        Json::Array(items) => {
            let mut result: Vec<serde_json::Value> = Vec::new();
            let mut i: usize = 0;
            while i < items.len()
                invariant
                    json == Json::Array(*items),
                    i <= items@.len(),
                    result@.len() == i,
                    forall|j: int|
                        0 <= j < i ==> written(json@->Array_0[j]) == Some(
                            value_json(#[trigger] result@[j]),
                        ),
                decreases items@.len() - i,
            {
                proof {
                    lemma_array_view(*json);
                    assert(decreases_to!(*json => json->Array_0));
                    assert(decreases_to!(json->Array_0 => json->Array_0[i as int]));
                    assert(json@->Array_0[i as int] == items@[i as int]@);
                }
                match value_of_json(&items[i]) {
                    Some(value) => result.push(value),
                    None => {
                        return None;
                    },
                }
                i = i + 1;
            }
            proof {
                lemma_array_view(*json);
                let children = json@->Array_0;
                assert forall|j: int| 0 <= j < children.len() implies written(
                    #[trigger] children[j],
                ) is Some by {
                    let value = value_json(result@[j]);
                }
                assert(value_items(result@) =~= written_items(children));
            }
            close_value(JsonNode::Array(result))
        },
        Json::Object(entries) => {
            let mut result: Vec<(String, serde_json::Value)> = Vec::new();
            let mut i: usize = 0;
            while i < entries.len()
                invariant
                    json == Json::Object(*entries),
                    i <= entries@.len(),
                    result@.len() == i,
                    forall|j: int|
                        0 <= j < i ==> json@->Object_0[j].0 == (#[trigger] result@[j]).0@ && written(
                            json@->Object_0[j].1,
                        ) == Some(value_json(result@[j].1)),
                decreases entries@.len() - i,
            {
                proof {
                    lemma_object_view(*json);
                    assert(decreases_to!(*json => json->Object_0));
                    assert(decreases_to!(json->Object_0 => json->Object_0[i as int]));
                    assert(decreases_to!(json->Object_0[i as int] => json->Object_0[i as int].1));
                    assert(json@->Object_0[i as int].1 == entries@[i as int].1@);
                    assert(json@->Object_0[i as int].0 == entries@[i as int].0@);
                }
                match value_of_json(&entries[i].1) {
                    Some(value) => result.push((entries[i].0.clone(), value)),
                    None => {
                        return None;
                    },
                }
                i = i + 1;
            }
            proof {
                lemma_object_view(*json);
                let children = json@->Object_0;
                assert forall|j: int| 0 <= j < children.len() implies written(
                    (#[trigger] children[j]).1,
                ) is Some by {
                    let entry = result@[j];
                }
                assert(value_entries(result@) =~= written_entries(children));
            }
            close_value(JsonNode::Object(result))
        },
    }
}

/// Writes a JSON value as a text.
pub fn json_to_text(json: &Json) -> (result: Result<String, String>)
    ensures
        res_view(result) == serialized(json@),
{
    match value_of_json(json) {
        Some(value) => write_value(&value),
        None => Err("number is not valid JSON".to_owned()),
    }
}

// Looking into a value

/// The value of the first member with a key.
pub open spec fn entry_value(entries: Seq<(Seq<char>, JsonView)>, key: Seq<char>) -> Option<JsonView>
    decreases entries.len(),
{
    if entries.len() == 0 {
        None
    } else if entries[0].0 == key {
        Some(entries[0].1)
    } else {
        entry_value(entries.skip(1), key)
    }
}

/// The member of an object with a key; none of any other value.
pub open spec fn member(json: JsonView, key: Seq<char>) -> Option<JsonView> {
    match json {
        JsonView::Object(entries) => entry_value(entries, key),
        _ => None,
    }
}

/// Whether an entry has a key.
pub open spec fn has_key(entry: (Seq<char>, JsonView), key: Seq<char>) -> bool {
    entry.0 == key
}

/// Whether two entries have a key.
pub open spec fn twice_in(entries: Seq<(Seq<char>, JsonView)>, key: Seq<char>) -> bool {
    exists|i: int, j: int|
        0 <= i < j < entries.len() && #[trigger] has_key(entries[i], key) && #[trigger] has_key(
            entries[j],
            key,
        )
}

/// Whether an object has two members with a key.
pub open spec fn repeated(json: JsonView, key: Seq<char>) -> bool {
    json is Object && twice_in(json->Object_0, key)
}

/// The first element of an array; none of any other value.
pub open spec fn first_element(json: JsonView) -> Option<JsonView> {
    match json {
        JsonView::Array(items) => if items.len() > 0 {
            Some(items[0])
        } else {
            None
        },
        _ => None,
    }
}

/// The text that a value is; none of any other value.
pub open spec fn text_value(json: JsonView) -> Option<Seq<char>> {
    match json {
        JsonView::Text(text) => Some(text),
        _ => None,
    }
}

impl Json {
    /// The member of an object with a key.
    pub fn get(&self, key: &str) -> (found: Option<&Json>)
        ensures
            match found {
                Some(value) => member(self@, key@) == Some(value@),
                None => member(self@, key@) is None,
            },
    {
        match self {
            Json::Object(entries) => {
                let ghost all = self@->Object_0;
                let mut i: usize = 0;
                proof {
                    lemma_object_view(*self);
                    assert(all.skip(0) =~= all);
                }
                while i < entries.len()
                    invariant
                        *self == Json::Object(*entries),
                        all == self@->Object_0,
                        i <= entries@.len(),
                        entry_value(all, key@) == entry_value(all.skip(i as int), key@),
                    decreases entries@.len() - i,
                {
                    proof {
                        lemma_object_view(*self);
                        assert(all.skip(i as int)[0] == all[i as int]);
                        assert(all.skip(i as int).skip(1) =~= all.skip(i + 1));
                    }
                    if same_text(entries[i].0.as_str(), key) {
                        return Some(&entries[i].1);
                    }
                    i = i + 1;
                }
                None
            },
            _ => None,
        }
    }

    /// Whether an object has two members with a key.
    pub fn repeats(&self, key: &str) -> (found: bool)
        ensures
            found == repeated(self@, key@),
    {
        match self {
            Json::Object(entries) => {
                let ghost all = self@->Object_0;
                let mut once: bool = false;
                let mut i: usize = 0;
                proof {
                    lemma_object_view(*self);
                }
                while i < entries.len()
                    invariant
                        *self == Json::Object(*entries),
                        self@ == JsonView::Object(all),
                        all.len() == entries@.len(),
                        forall|j: int|
                            0 <= j < all.len() ==> (#[trigger] all[j]).0 == entries@[j].0@,
                        i <= entries@.len(),
                        once == exists|j: int| 0 <= j < i && #[trigger] has_key(all[j], key@),
                        forall|j: int, k: int|
                            0 <= j < k < i ==> !(#[trigger] has_key(all[j], key@) && #[trigger]
                                has_key(all[k], key@)),
                    decreases entries@.len() - i,
                {
                    if same_text(entries[i].0.as_str(), key) {
                        assert(has_key(all[i as int], key@));
                        if once {
                            proof {
                                let j = choose|j: int|
                                    0 <= j < i && #[trigger] has_key(all[j], key@);
                                assert(has_key(all[j], key@) && has_key(all[i as int], key@));
                            }
                            return true;
                        }
                        once = true;
                    }
                    i = i + 1;
                }
                false
            },
            _ => false,
        }
    }

    /// The first element of an array.
    pub fn first(&self) -> (found: Option<&Json>)
        ensures
            match found {
                Some(value) => first_element(self@) == Some(value@),
                None => first_element(self@) is None,
            },
    {
        match self {
            Json::Array(items) => if items.len() > 0 {
                Some(&items[0])
            } else {
                None
            },
            _ => None,
        }
    }

    /// The text that a value is.
    pub fn text(&self) -> (found: Option<String>)
        ensures
            crate::text::opt_view(found) == text_value(self@),
    {
        match self {
            Json::Text(text) => Some(text.clone()),
            _ => None,
        }
    }
}

// Redaction

/// Whether a key names a credential.
pub open spec fn is_sensitive(key: Seq<char>) -> bool {
    let lower = ascii_lower(key);
    ||| has_text(lower, "key"@)
    ||| has_text(lower, "token"@)
    ||| has_text(lower, "secret"@)
    ||| has_text(lower, "authorization"@)
}

/// What stands in place of a credential.
pub open spec fn redaction_mark() -> JsonView {
    JsonView::Text("[REDACTED]"@)
}

/// A value with everything under a sensitive key replaced.
pub open spec fn redacted(json: JsonView) -> JsonView
    decreases json,
{
    match json {
        JsonView::Array(items) => JsonView::Array(redacted_items(items)),
        JsonView::Object(entries) => JsonView::Object(redacted_entries(entries)),
        _ => json,
    }
}

/// The elements of an array, each redacted.
pub open spec fn redacted_items(items: Seq<JsonView>) -> Seq<JsonView>
    decreases items,
{
    Seq::new(
        items.len(),
        |i: int|
            if 0 <= i < items.len() {
                redacted(items[i])
            } else {
                JsonView::Null
            },
    )
}

/// The members of an object: the mark under a sensitive key, and the redacted
/// value under any other.
pub open spec fn redacted_entries(
    entries: Seq<(Seq<char>, JsonView)>,
) -> Seq<(Seq<char>, JsonView)>
    decreases entries,
{
    Seq::new(
        entries.len(),
        |i: int|
            if 0 <= i < entries.len() {
                if is_sensitive(entries[i].0) {
                    (entries[i].0, redaction_mark())
                } else {
                    (entries[i].0, redacted(entries[i].1))
                }
            } else {
                (Seq::empty(), JsonView::Null)
            },
    )
}

fn sensitive(key: &str) -> (res: bool)
    ensures
        res == is_sensitive(key@),
{
    let lower = lower_text(key);
    contains_text(lower.as_str(), "key") || contains_text(lower.as_str(), "token") || contains_text(
        lower.as_str(),
        "secret",
    ) || contains_text(lower.as_str(), "authorization")
}

/// Replaces everything under a sensitive key.
pub fn redact_value(json: Json) -> (result: Json)
    ensures
        result@ == redacted(json@),
    decreases json,
{
    let ghost whole = json;
    match json {
        Json::Array(items) => {
            let ghost all = items;
            let mut result: Vec<Json> = Vec::new();
            for item in it: items
                invariant
                    whole == Json::Array(all),
                    whole == json,
                    it.seq() == all@,
                    result@.len() == it.index(),
                    forall|j: int|
                        0 <= j < it.index() ==> (#[trigger] result@[j])@ == redacted(
                            whole@->Array_0[j],
                        ),
            {
                proof {
                    lemma_array_view(whole);
                    assert(decreases_to!(whole => whole->Array_0));
                    assert(decreases_to!(whole->Array_0 => whole->Array_0[it.index()]));
                    assert(whole@->Array_0[it.index()] == item@);
                }
                result.push(redact_value(item));
            }
            let done = Json::Array(result);
            proof {
                lemma_array_view(whole);
                lemma_array_view(done);
                assert(done@->Array_0 =~= redacted_items(whole@->Array_0));
            }
            done
        },
        Json::Object(entries) => {
            let ghost all = entries;
            let mut result: Vec<(String, Json)> = Vec::new();
            for entry in it: entries
                invariant
                    whole == Json::Object(all),
                    whole == json,
                    it.seq() == all@,
                    result@.len() == it.index(),
                    forall|j: int|
                        0 <= j < it.index() ==> ((#[trigger] result@[j]).0@, result@[j].1@)
                            == redacted_entries(whole@->Object_0)[j],
            {
                proof {
                    lemma_object_view(whole);
                    assert(decreases_to!(whole => whole->Object_0));
                    assert(decreases_to!(whole->Object_0 => whole->Object_0[it.index()]));
                    assert(decreases_to!(whole->Object_0[it.index()] => whole->Object_0[it.index()].1));
                    assert(whole@->Object_0[it.index()] == (entry.0@, entry.1@));
                }
                let (key, child) = entry;
                if sensitive(key.as_str()) {
                    result.push((key, Json::Text("[REDACTED]".to_owned())));
                } else {
                    result.push((key, redact_value(child)));
                }
            }
            let done = Json::Object(result);
            proof {
                lemma_object_view(whole);
                lemma_object_view(done);
                assert(done@->Object_0 =~= redacted_entries(whole@->Object_0));
            }
            done
        },
        other => other,
    }
}

/// Whether nothing but the mark stands under any sensitive key.
pub open spec fn free_of_credentials(json: JsonView) -> bool
    decreases json,
{
    match json {
        JsonView::Array(items) => forall|i: int|
            0 <= i < items.len() ==> free_of_credentials(#[trigger] items[i]),
        JsonView::Object(entries) => forall|i: int|
            0 <= i < entries.len() ==> if is_sensitive((#[trigger] entries[i]).0) {
                entries[i].1 == redaction_mark()
            } else {
                free_of_credentials(entries[i].1)
            },
        _ => true,
    }
}

/// A redacted value holds nothing but the mark under any sensitive key, at any
/// depth.
pub proof fn redaction_removes_every_credential(json: JsonView)
    ensures
        free_of_credentials(redacted(json)),
    decreases json,
{
    match json {
        JsonView::Array(items) => {
            let after = redacted_items(items);
            assert forall|i: int| 0 <= i < after.len() implies free_of_credentials(
                #[trigger] after[i],
            ) by {
                assert(decreases_to!(items => items[i]));
                redaction_removes_every_credential(items[i]);
            }
            assert(redacted(json) == JsonView::Array(after));
        },
        JsonView::Object(entries) => {
            let after = redacted_entries(entries);
            assert forall|i: int| 0 <= i < after.len() implies if is_sensitive(
                (#[trigger] after[i]).0,
            ) {
                after[i].1 == redaction_mark()
            } else {
                free_of_credentials(after[i].1)
            } by {
                assert(decreases_to!(entries => entries[i]));
                redaction_removes_every_credential(entries[i].1);
            }
        },
        _ => {},
    }
}

/// Redaction changes nothing in a value without credentials.
pub proof fn redaction_keeps_the_rest(json: JsonView)
    requires
        free_of_credentials(json),
    ensures
        redacted(json) == json,
    decreases json,
{
    match json {
        JsonView::Array(items) => {
            assert forall|i: int| 0 <= i < items.len() implies redacted_items(items)[i]
                == #[trigger] items[i] by {
                redaction_keeps_the_rest(items[i]);
            }
            assert(redacted_items(items) =~= items);
        },
        JsonView::Object(entries) => {
            assert forall|i: int| 0 <= i < entries.len() implies redacted_entries(entries)[i]
                == #[trigger] entries[i] by {
                if !is_sensitive(entries[i].0) {
                    redaction_keeps_the_rest(entries[i].1);
                }
            }
            assert(redacted_entries(entries) =~= entries);
        },
        _ => {},
    }
}

/// Redacting twice is redacting once.
pub proof fn redaction_is_idempotent(json: JsonView)
    ensures
        redacted(redacted(json)) == redacted(json),
{
    redaction_removes_every_credential(json);
    redaction_keeps_the_rest(redacted(json));
}

/// Which value a member has: the one of the first entry with its key.
pub proof fn members_are_found_by_their_key(
    entries: Seq<(Seq<char>, JsonView)>,
    key: Seq<char>,
    value: JsonView,
)
    ensures
        member(JsonView::Object(entries), key) == Some(value) <==> exists|i: int|
            0 <= i < entries.len() && entries[i].1 == value && #[trigger] has_key(entries[i], key)
                && forall|j: int| 0 <= j < i ==> !has_key(#[trigger] entries[j], key),
        member(JsonView::Object(entries), key) is None <==> forall|i: int|
            0 <= i < entries.len() ==> !has_key(#[trigger] entries[i], key),
        forall|entry: (Seq<char>, JsonView)|
            #[trigger] has_key(entry, key) <==> entry.0 == key,
    decreases entries.len(),
{
    if entries.len() > 0 {
        let rest = entries.skip(1);
        members_are_found_by_their_key(rest, key, value);
        assert(has_key(entries[0], key) == (entries[0].0 == key));
        assert forall|i: int| 0 <= i < rest.len() implies #[trigger] rest[i] == entries[i + 1] by {}
        assert forall|i: int| 0 < i < entries.len() implies #[trigger] entries[i] == rest[i
            - 1] by {}
        if entries[0].0 != key {
            if member(JsonView::Object(entries), key) == Some(value) {
                let k = choose|i: int|
                    0 <= i < rest.len() && rest[i].1 == value && #[trigger] has_key(rest[i], key)
                        && forall|j: int| 0 <= j < i ==> !has_key(#[trigger] rest[j], key);
                assert(has_key(entries[k + 1], key));
                assert forall|j: int| 0 <= j < k + 1 implies !has_key(
                    #[trigger] entries[j],
                    key,
                ) by {
                    if j > 0 {
                        assert(!has_key(rest[j - 1], key));
                    }
                }
            }
            if exists|i: int|
                0 <= i < entries.len() && entries[i].1 == value && #[trigger] has_key(
                    entries[i],
                    key,
                ) && forall|j: int| 0 <= j < i ==> !has_key(#[trigger] entries[j], key) {
                let k = choose|i: int|
                    0 <= i < entries.len() && entries[i].1 == value && #[trigger] has_key(
                        entries[i],
                        key,
                    ) && forall|j: int| 0 <= j < i ==> !has_key(#[trigger] entries[j], key);
                assert(k > 0);
                assert(has_key(rest[k - 1], key));
                assert forall|j: int| 0 <= j < k - 1 implies !has_key(#[trigger] rest[j], key) by {
                    assert(!has_key(entries[j + 1], key));
                }
            }
            if member(JsonView::Object(entries), key) is None {
                assert forall|i: int| 0 <= i < entries.len() implies !has_key(
                    #[trigger] entries[i],
                    key,
                ) by {
                    if i > 0 {
                        assert(!has_key(rest[i - 1], key));
                    }
                }
            }
            if forall|i: int| 0 <= i < entries.len() ==> !has_key(#[trigger] entries[i], key) {
                assert forall|i: int| 0 <= i < rest.len() implies !has_key(
                    #[trigger] rest[i],
                    key,
                ) by {
                    assert(!has_key(entries[i + 1], key));
                }
            }
        } else {
            assert(has_key(entries[0], key));
        }
    }
}

/// Redaction keeps the shape of a value: every list keeps its length and every
/// object its keys, in their order, and what stands under a key that is not
/// sensitive is redacted in turn. Texts, numbers and the like stay.
pub proof fn redaction_keeps_the_shape(json: JsonView)
    ensures
        match json {
            JsonView::Array(items) => redacted(json) matches JsonView::Array(after)
                && after.len() == items.len() && forall|i: int|
                0 <= i < items.len() ==> #[trigger] after[i] == redacted(items[i]),
            JsonView::Object(entries) => redacted(json) matches JsonView::Object(after)
                && after.len() == entries.len() && forall|i: int|
                0 <= i < entries.len() ==> {
                    &&& (#[trigger] after[i]).0 == entries[i].0
                    &&& is_sensitive(entries[i].0) ==> after[i].1 == JsonView::Text("[REDACTED]"@)
                    &&& !is_sensitive(entries[i].0) ==> after[i].1 == redacted(entries[i].1)
                },
            _ => redacted(json) == json,
        },
{
}

/// Which keys are sensitive: those that hold one of four words, in capitals or
/// not.
pub proof fn sensitive_keys_hold_a_word(key: Seq<char>)
    ensures
        is_sensitive(key) <==> exists|word: Seq<char>|
            {
                &&& seq!["key"@, "token"@, "secret"@, "authorization"@].contains(word)
                &&& #[trigger] has_text(ascii_lower(key), word)
            },
{
    let words = seq!["key"@, "token"@, "secret"@, "authorization"@];
    assert(words[0] == "key"@);
    assert(words[1] == "token"@);
    assert(words[2] == "secret"@);
    assert(words[3] == "authorization"@);
    if exists|word: Seq<char>|
        words.contains(word) && #[trigger] has_text(ascii_lower(key), word) {
        let word = choose|word: Seq<char>|
            words.contains(word) && #[trigger] has_text(ascii_lower(key), word);
        let i = choose|i: int| 0 <= i < words.len() && words[i] == word;
        assert(i == 0 || i == 1 || i == 2 || i == 3);
    }
}

/// What is read of the pieces of a value: its first element and its text, if it
/// has them.
pub proof fn pieces_are_read_as_they_are(json: JsonView)
    ensures
        match json {
            JsonView::Array(items) => {
                &&& items.len() > 0 ==> first_element(json) == Some(items[0])
                &&& items.len() == 0 ==> first_element(json) is None
            },
            _ => first_element(json) is None,
        },
        match json {
            JsonView::Text(text) => text_value(json) == Some(text),
            _ => text_value(json) is None,
        },
        json !is Object ==> forall|key: Seq<char>| #[trigger] member(json, key) is None,
{
}

/// Whether the keys of entries rise, so that each is there once.
pub open spec fn keys_rise(entries: Seq<(Seq<char>, JsonView)>) -> bool {
    forall|i: int, j: int|
        0 <= i < j < entries.len() ==> (#[trigger] entries[i]).0 != (#[trigger] entries[j]).0
            && text_le(entries[i].0, entries[j].0)
}

proof fn lemma_pushed_entry(
    entries: Seq<(Seq<char>, JsonView)>,
    entry: (Seq<char>, JsonView),
    key: Seq<char>,
)
    ensures
        entry_value(entries.push(entry), key) == match entry_value(entries, key) {
            Some(value) => Some(value),
            None => if entry.0 == key {
                Some(entry.1)
            } else {
                None
            },
        },
    decreases entries.len(),
{
    let more = entries.push(entry);
    if entries.len() == 0 {
        assert(more.skip(1) =~= Seq::<(Seq<char>, JsonView)>::empty());
        assert(entry_value(more.skip(1), key) is None);
    } else {
        assert(more.skip(1) =~= entries.skip(1).push(entry));
        lemma_pushed_entry(entries.skip(1), entry, key);
    }
}

proof fn lemma_entry_there(entries: Seq<(Seq<char>, JsonView)>, i: int)
    requires
        0 <= i < entries.len(),
    ensures
        entry_value(entries, entries[i].0) is Some,
{
    members_are_found_by_their_key(entries, entries[i].0, entries[i].1);
    assert(has_key(entries[i], entries[i].0));
}

proof fn lemma_entry_place(entries: Seq<(Seq<char>, JsonView)>, key: Seq<char>) -> (i: int)
    requires
        entry_value(entries, key) is Some,
    ensures
        0 <= i < entries.len(),
        entries[i].0 == key,
{
    members_are_found_by_their_key(entries, key, entry_value(entries, key)->0);
    let i = choose|i: int| 0 <= i < entries.len() && #[trigger] has_key(entries[i], key);
    i
}

proof fn lemma_text_le_both(a: Seq<char>, b: Seq<char>)
    requires
        text_le(a, b),
        text_le(b, a),
    ensures
        a == b,
    decreases a.len(),
{
    if a.len() > 0 {
        lemma_text_le_both(a.skip(1), b.skip(1));
        assert(a =~= seq![a[0]] + a.skip(1));
        assert(b =~= seq![b[0]] + b.skip(1));
    } else {
        assert(a =~= b);
    }
}

proof fn lemma_with_member(
    entries: Seq<(Seq<char>, JsonView)>,
    entry: (Seq<char>, JsonView),
    key: Seq<char>,
)
    requires
        keys_rise(entries),
    ensures
        keys_rise(with_member(entries, entry)),
        entry_value(with_member(entries, entry), key) == if key == entry.0 {
            Some(entry.1)
        } else {
            entry_value(entries, key)
        },
    decreases entries.len(),
{
    let after = with_member(entries, entry);
    if entries.len() == 0 {
        assert(after.skip(1) =~= Seq::<(Seq<char>, JsonView)>::empty());
        assert(entry_value(after.skip(1), key) is None);
    } else {
        let front = entries.drop_last();
        let last = entries.last();
        assert(front.push(last) =~= entries);
        assert(keys_rise(front));
        lemma_pushed_entry(front, last, key);
        if last.0 == entry.0 {
            lemma_pushed_entry(front, entry, key);
            if entry_value(front, entry.0) is Some {
                let i = lemma_entry_place(front, entry.0);
                assert(entries[i].0 != entries[entries.len() - 1].0);
            }
        } else if text_le(last.0, entry.0) {
            lemma_pushed_entry(entries, entry, key);
            assert forall|i: int| 0 <= i < entries.len() implies (#[trigger] entries[i]).0
                != entry.0 && text_le(entries[i].0, entry.0) by {
                if i < entries.len() - 1 {
                    assert(text_le(entries[i].0, entries[entries.len() - 1].0));
                    lemma_text_le_transitive(entries[i].0, last.0, entry.0);
                    if entries[i].0 == entry.0 {
                        lemma_text_le_both(last.0, entry.0);
                    }
                }
            }
            if entry_value(entries, entry.0) is Some {
                let i = lemma_entry_place(entries, entry.0);
                assert(entries[i].0 != entry.0);
            }
        } else {
            let inner = with_member(front, entry);
            lemma_with_member(front, entry, key);
            lemma_pushed_entry(inner, last, key);
            lemma_text_le_total(last.0, entry.0);
            assert forall|i: int| 0 <= i < inner.len() implies (#[trigger] inner[i]).0 != last.0
                && text_le(inner[i].0, last.0) by {
                lemma_entry_there(inner, i);
                lemma_with_member(front, entry, inner[i].0);
                if inner[i].0 != entry.0 {
                    let k = lemma_entry_place(front, inner[i].0);
                    assert(entries[k].0 != entries[entries.len() - 1].0);
                    assert(text_le(entries[k].0, entries[entries.len() - 1].0));
                }
            }
            if entry_value(front, last.0) is Some {
                let k = lemma_entry_place(front, last.0);
                assert(entries[k].0 != entries[entries.len() - 1].0);
            }
        }
    }
}

/// Members that are kept by their keys have each key once, in the order of the
/// keys, and what counts is the last value that a key was given.
pub proof fn kept_members_have_their_last_value(
    entries: Seq<(Seq<char>, JsonView)>,
    key: Seq<char>,
    value: JsonView,
)
    ensures
        keys_rise(as_members(entries)),
        entry_value(as_members(entries), key) == Some(value) <==> exists|i: int|
            0 <= i < entries.len() && entries[i].1 == value && #[trigger] has_key(entries[i], key)
                && forall|j: int| i < j < entries.len() ==> !has_key(#[trigger] entries[j], key),
        entry_value(as_members(entries), key) is None <==> forall|i: int|
            0 <= i < entries.len() ==> !has_key(#[trigger] entries[i], key),
    decreases entries.len(),
{
    if entries.len() > 0 {
        let front = entries.drop_last();
        let last = entries.last();
        kept_members_have_their_last_value(front, key, value);
        lemma_with_member(as_members(front), last, key);
        assert forall|i: int| 0 <= i < front.len() implies #[trigger] front[i] == entries[i] by {}
        assert(has_key(entries[entries.len() - 1], key) == (last.0 == key));
        if last.0 != key {
            if entry_value(as_members(entries), key) == Some(value) {
                let k = choose|i: int|
                    0 <= i < front.len() && front[i].1 == value && #[trigger] has_key(
                        front[i],
                        key,
                    ) && forall|j: int| i < j < front.len() ==> !has_key(#[trigger] front[j], key);
                assert(has_key(entries[k], key));
                assert forall|j: int| k < j < entries.len() implies !has_key(
                    #[trigger] entries[j],
                    key,
                ) by {
                    if j < front.len() {
                        assert(!has_key(front[j], key));
                    }
                }
            }
            if exists|i: int|
                0 <= i < entries.len() && entries[i].1 == value && #[trigger] has_key(
                    entries[i],
                    key,
                ) && forall|j: int| i < j < entries.len() ==> !has_key(#[trigger] entries[j], key) {
                let k = choose|i: int|
                    0 <= i < entries.len() && entries[i].1 == value && #[trigger] has_key(
                        entries[i],
                        key,
                    ) && forall|j: int|
                        i < j < entries.len() ==> !has_key(#[trigger] entries[j], key);
                assert(k < front.len());
                assert(has_key(front[k], key));
                assert forall|j: int| k < j < front.len() implies !has_key(
                    #[trigger] front[j],
                    key,
                ) by {
                    assert(!has_key(entries[j], key));
                }
            }
            if entry_value(as_members(entries), key) is None {
                assert forall|i: int| 0 <= i < entries.len() implies !has_key(
                    #[trigger] entries[i],
                    key,
                ) by {
                    if i < front.len() {
                        assert(!has_key(front[i], key));
                    }
                }
            }
            if forall|i: int| 0 <= i < entries.len() ==> !has_key(#[trigger] entries[i], key) {
                assert forall|i: int| 0 <= i < front.len() implies !has_key(
                    #[trigger] front[i],
                    key,
                ) by {
                    assert(!has_key(entries[i], key));
                }
            }
        }
    }
}

/// What is written of a value is that value: every element of a list in its
/// place, every member of an object under its key, and everything else as it is,
/// but for the form of numbers.
pub proof fn written_values_keep_every_part(json: JsonView)
    requires
        written(json) is Some,
    ensures
        match json {
            JsonView::Array(items) => written(json)->0 matches JsonView::Array(after)
                && after.len() == items.len() && forall|i: int|
                0 <= i < items.len() ==> written(items[i]) == Some(#[trigger] after[i]),
            JsonView::Object(entries) => written(json)->0 matches JsonView::Object(after)
                && keys_rise(after) && forall|i: int|
                0 <= i < entries.len() && (forall|j: int|
                    i < j < entries.len() ==> !has_key(#[trigger] entries[j], entries[i].0))
                    ==> entry_value(after, (#[trigger] entries[i]).0) == written(entries[i].1),
            JsonView::Number(text) => written(json)->0 is Number,
            _ => written(json)->0 == json,
        },
{
    if let JsonView::Array(items) = json {
        let after = written_items(items);
        assert(written(json) == Some(JsonView::Array(after)));
        assert forall|i: int| 0 <= i < items.len() implies written(items[i]) == Some(
            #[trigger] after[i],
        ) by {
            assert(written(items[i]) is Some);
        }
    }
    if let JsonView::Object(entries) = json {
        let parts = written_entries(entries);
        let after = as_members(parts);
        kept_members_have_their_last_value(parts, Seq::empty(), JsonView::Null);
        assert forall|i: int|
            0 <= i < entries.len() && (forall|j: int|
                i < j < entries.len() ==> !has_key(
                    #[trigger] entries[j],
                    entries[i].0,
                )) implies entry_value(after, (#[trigger] entries[i]).0) == written(
            entries[i].1,
        ) by {
            let key = entries[i].0;
            kept_members_have_their_last_value(parts, key, parts[i].1);
            assert(has_key(parts[i], key));
            assert forall|j: int| i < j < parts.len() implies !has_key(#[trigger] parts[j], key) by {
                assert(!has_key(entries[j], key));
            }
        }
    }
}

/// A key is repeated exactly if two entries have it.
pub proof fn repeated_keys_are_there_twice(
    entries: Seq<(Seq<char>, JsonView)>,
    key: Seq<char>,
    i: int,
    j: int,
)
    ensures
        0 <= i < j < entries.len() && entries[i].0 == key && entries[j].0 == key ==> repeated(
            JsonView::Object(entries),
            key,
        ),
        (forall|a: int, b: int|
            0 <= a < b < entries.len() ==> (#[trigger] entries[a]).0 != key || (
            #[trigger] entries[b]).0 != key) ==> !repeated(JsonView::Object(entries), key),
        forall|json: JsonView| json !is Object ==> !(#[trigger] repeated(json, key)),
{
    if 0 <= i < j < entries.len() && entries[i].0 == key && entries[j].0 == key {
        assert(has_key(entries[i], key) && has_key(entries[j], key));
    }
    if repeated(JsonView::Object(entries), key) {
        let (a, b) = choose|a: int, b: int|
            0 <= a < b < entries.len() && #[trigger] has_key(entries[a], key)
                && #[trigger] has_key(entries[b], key);
        assert(entries[a].0 == key && entries[b].0 == key);
    }
}

} // verus!
