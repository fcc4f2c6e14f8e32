//! JSON values as the notifier reads them.
//!
//! Parsing is left to `serde_json`; a parsed value is copied into a [`Json`],
//! and everything that looks inside a value works on that type.

use crate::text::same_text;
use vstd::prelude::*;

verus! {

/// A JSON value. The entries of an object stand in the order of its keys.
pub enum Json {
    Null,
    Bool(bool),
    /// A number in its canonical notation, and its value where that is an
    /// integer from 0 to `u64::MAX`.
    Number { text: String, unsigned: Option<u64> },
    Text(String),
    Array(Vec<Json>),
    Object(Vec<(String, Json)>),
}

/// What a JSON value holds.
pub enum JsonView {
    Null,
    Bool(bool),
    Number { text: Seq<char>, unsigned: Option<u64> },
    Text(Seq<char>),
    Array(Seq<JsonView>),
    Object(Seq<(Seq<char>, JsonView)>),
}

/// The view of a value.
pub open spec fn json_view(value: Json) -> JsonView
    decreases value,
{
    match value {
        Json::Null => JsonView::Null,
        Json::Bool(flag) => JsonView::Bool(flag),
        Json::Number { text, unsigned } => JsonView::Number { text: text@, unsigned },
        Json::Text(text) => JsonView::Text(text@),
        Json::Array(values) => JsonView::Array(json_views(values@)),
        Json::Object(entries) => JsonView::Object(entry_views(entries@)),
    }
}

/// The views of some values.
pub open spec fn json_views(values: Seq<Json>) -> Seq<JsonView>
    decreases values,
{
    if values.len() == 0 {
        Seq::empty()
    } else {
        json_views(values.drop_last()).push(json_view(values.last()))
    }
}

/// The views of the entries of an object.
pub open spec fn entry_views(entries: Seq<(String, Json)>) -> Seq<(Seq<char>, JsonView)>
    decreases entries,
{
    if entries.len() == 0 {
        Seq::empty()
    } else {
        entry_views(entries.drop_last()).push((entries.last().0@, json_view(entries.last().1)))
    }
}

impl View for Json {
    type V = JsonView;

    open spec fn view(&self) -> JsonView {
        json_view(*self)
    }
}

/// The view of an array has one view for each value, in order.
pub proof fn lemma_json_views(values: Seq<Json>)
    ensures
        json_views(values).len() == values.len(),
        forall|i: int|
            0 <= i < values.len() ==> #[trigger] json_views(values)[i] == json_view(values[i]),
    decreases values.len(),
{
    if values.len() > 0 {
        lemma_json_views(values.drop_last());
        assert forall|i: int| 0 <= i < values.len() implies #[trigger] json_views(values)[i]
            == json_view(values[i]) by {
            if i < values.len() - 1 {
                assert(json_views(values)[i] == json_views(values.drop_last())[i]);
            }
        }
    }
}

/// The view of an object has one view for each entry, in order.
pub proof fn lemma_entry_views(entries: Seq<(String, Json)>)
    ensures
        entry_views(entries).len() == entries.len(),
        forall|i: int|
            0 <= i < entries.len() ==> #[trigger] entry_views(entries)[i] == (
                entries[i].0@,
                json_view(entries[i].1),
            ),
    decreases entries.len(),
{
    if entries.len() > 0 {
        lemma_entry_views(entries.drop_last());
        assert forall|i: int| 0 <= i < entries.len() implies #[trigger] entry_views(entries)[i] == (
            entries[i].0@,
            json_view(entries[i].1),
        ) by {
            if i < entries.len() - 1 {
                assert(entry_views(entries)[i] == entry_views(entries.drop_last())[i]);
            }
        }
    }
}

/// The length of the longest text in a value, keys aside.
pub open spec fn longest_text(value: JsonView) -> nat
    decreases value,
{
    match value {
        JsonView::Text(text) => text.len(),
        JsonView::Array(values) => longest_in_values(values),
        JsonView::Object(entries) => longest_in_entries(entries),
        _ => 0,
    }
}

/// The length of the longest text in some values.
pub open spec fn longest_in_values(values: Seq<JsonView>) -> nat
    decreases values,
{
    if values.len() == 0 {
        0
    } else {
        larger(longest_in_values(values.drop_last()), longest_text(values.last()))
    }
}

/// The length of the longest text in the values of some entries.
pub open spec fn longest_in_entries(entries: Seq<(Seq<char>, JsonView)>) -> nat
    decreases entries,
{
    if entries.len() == 0 {
        0
    } else {
        larger(longest_in_entries(entries.drop_last()), longest_text(entries.last().1))
    }
}

/// The larger of two numbers.
pub open spec fn larger(left: nat, right: nat) -> nat {
    if left < right {
        right
    } else {
        left
    }
}

/// How much a value holds: a number above that of each value inside it.
pub open spec fn size(value: JsonView) -> nat
    decreases value,
{
    match value {
        JsonView::Array(values) => 1 + size_of_values(values),
        JsonView::Object(entries) => 1 + size_of_entries(entries),
        _ => 1,
    }
}

/// How much some values hold.
pub open spec fn size_of_values(values: Seq<JsonView>) -> nat
    decreases values,
{
    if values.len() == 0 {
        0
    } else {
        size_of_values(values.drop_last()) + size(values.last()) + 1
    }
}

/// How much the values of some entries hold.
pub open spec fn size_of_entries(entries: Seq<(Seq<char>, JsonView)>) -> nat
    decreases entries,
{
    if entries.len() == 0 {
        0
    } else {
        size_of_entries(entries.drop_last()) + size(entries.last().1) + 1
    }
}

/// An element is no larger than the values that it is one of.
pub proof fn lemma_element_bounds(values: Seq<JsonView>, i: int)
    requires
        0 <= i < values.len(),
    ensures
        longest_text(values[i]) <= longest_in_values(values),
        size(values[i]) <= size_of_values(values),
    decreases values.len(),
{
    if i < values.len() - 1 {
        lemma_element_bounds(values.drop_last(), i);
    }
}

/// The value of an entry is no larger than the entries that it is one of.
pub proof fn lemma_entry_bounds(entries: Seq<(Seq<char>, JsonView)>, i: int)
    requires
        0 <= i < entries.len(),
    ensures
        longest_text(entries[i].1) <= longest_in_entries(entries),
        size(entries[i].1) <= size_of_entries(entries),
    decreases entries.len(),
{
    if i < entries.len() - 1 {
        lemma_entry_bounds(entries.drop_last(), i);
    }
}

/// The value that an object has under a key; of two entries with one key, the
/// later one counts.
pub open spec fn field(entries: Seq<(Seq<char>, JsonView)>, key: Seq<char>) -> Option<JsonView>
    decreases entries.len(),
{
    if entries.len() == 0 {
        None
    } else if entries.last().0 == key {
        Some(entries.last().1)
    } else {
        field(entries.drop_last(), key)
    }
}

/// The value under a key is no larger than the object's entries.
pub proof fn lemma_field_bounds(entries: Seq<(Seq<char>, JsonView)>, key: Seq<char>)
    ensures
        field(entries, key) matches Some(value) ==> {
            &&& longest_text(value) <= longest_in_entries(entries)
            &&& size(value) <= size_of_entries(entries)
        },
    decreases entries.len(),
{
    if entries.len() > 0 && entries.last().0 != key {
        lemma_field_bounds(entries.drop_last(), key);
    }
}

/// Looks up a key of an object.
pub fn get<'a>(entries: &'a Vec<(String, Json)>, key: &str) -> (result: Option<&'a Json>)
    ensures
        match result {
            Some(value) => field(entry_views(entries@), key@) == Some(value@),
            None => field(entry_views(entries@), key@) is None,
        },
{
    let mut end: usize = entries.len();
    proof {
        lemma_entry_views(entries@);
        assert(entry_views(entries@).take(end as int) == entry_views(entries@));
    }
    while end > 0
        invariant
            end <= entries.len(),
            entry_views(entries@).len() == entries@.len(),
            forall|i: int|
                0 <= i < entries@.len() ==> #[trigger] entry_views(entries@)[i] == (
                    entries@[i].0@,
                    json_view(entries@[i].1),
                ),
            field(entry_views(entries@), key@) == field(
                entry_views(entries@).take(end as int),
                key@,
            ),
        decreases end,
    {
        let entry = &entries[end - 1];
        proof {
            assert(entry_views(entries@).take(end as int).last() == (
                entry.0@,
                json_view(entry.1),
            ));
            assert(entry_views(entries@).take(end as int).drop_last() =~= entry_views(
                entries@,
            ).take(end - 1));
        }
        if same_text(entry.0.as_str(), key) {
            return Some(&entry.1);
        }
        end = end - 1;
    }
    None
}

/// `serde_json::Value`, carried without looking inside.
#[verifier::external_type_specification]
#[verifier::external_body]
pub struct ExValue(serde_json::Value);

/// What a `serde_json::Value` holds.
pub uninterp spec fn value_model(value: serde_json::Value) -> JsonView;

/// What `serde_json::from_str` makes of a text as a `serde_json::Value`: the value,
/// or nothing where it reports an error.
pub uninterp spec fn parsed_json(text: Seq<char>) -> Option<JsonView>;

/// What `serde_json::to_string` writes for a `serde_json::Value`: the text, or
/// nothing where it reports an error.
pub uninterp spec fn serialized_json(value: JsonView) -> Option<Seq<char>>;

/// One level of a `serde_json::Value`.
pub enum JsonNode {
    Null,
    Bool(bool),
    Number { text: String, unsigned: Option<u64> },
    Text(String),
    Array(Vec<serde_json::Value>),
    Object(Vec<(String, serde_json::Value)>),
}

/// What some values hold.
pub open spec fn value_models(values: Seq<serde_json::Value>) -> Seq<JsonView> {
    values.map_values(|value: serde_json::Value| value_model(value))
}

/// What some entries hold.
pub open spec fn entry_models(entries: Seq<(String, serde_json::Value)>) -> Seq<
    (Seq<char>, JsonView),
> {
    entries.map_values(|entry: (String, serde_json::Value)| (entry.0@, value_model(entry.1)))
}

impl JsonNode {
    /// The value that this is the top level of.
    pub open spec fn model(self) -> JsonView {
        match self {
            JsonNode::Null => JsonView::Null,
            JsonNode::Bool(flag) => JsonView::Bool(flag),
            JsonNode::Number { text, unsigned } => JsonView::Number { text: text@, unsigned },
            JsonNode::Text(text) => JsonView::Text(text@),
            JsonNode::Array(values) => JsonView::Array(value_models(values@)),
            JsonNode::Object(entries) => JsonView::Object(entry_models(entries@)),
        }
    }
}

/// Takes a `serde_json::Value` apart by its variant. A number comes with what
/// `Number::to_string` and `Number::as_u64` give for it, and the entries of a `Map`
/// in the order in which the map hands them out.
#[verifier::external_body]
fn value_node(value: serde_json::Value) -> (node: JsonNode)
    ensures
        node.model() == value_model(value),
{
    match value {
        serde_json::Value::Null => JsonNode::Null,
        serde_json::Value::Bool(flag) => JsonNode::Bool(flag),
        serde_json::Value::Number(number) => {
            JsonNode::Number { text: number.to_string(), unsigned: number.as_u64() }
        },
        serde_json::Value::String(text) => JsonNode::Text(text),
        serde_json::Value::Array(values) => JsonNode::Array(values),
        serde_json::Value::Object(entries) => JsonNode::Object(entries.into_iter().collect()),
    }
}

/// `serde_json::from_str` of a text as a `serde_json::Value`. The outcome depends on the
/// text alone, and each text in the value is shorter than the whole, which has its
/// quotes besides.
#[verifier::external_body]
fn parse_value(text: &str) -> (result: Option<serde_json::Value>)
    ensures
        match result {
            Some(value) => {
                &&& parsed_json(text@) == Some(value_model(value))
                &&& longest_text(value_model(value)) < text@.len()
            },
            None => parsed_json(text@) is None,
        },
{
    serde_json::from_str(text).ok()
}

/// `serde_json::to_string` of a `serde_json::Value`. The outcome depends on what the value
/// holds alone.
#[verifier::external_body]
fn value_text(value: &serde_json::Value) -> (result: Option<String>)
    ensures
        crate::text::opt(result) == serialized_json(value_model(*value)),
{
    serde_json::to_string(value).ok()
}

impl Json {
    /// Copies a `serde_json::Value`.
    pub fn from_value(value: serde_json::Value) -> (result: Json)
        ensures
            result@ == value_model(value),
        decreases size(value_model(value)),
    {
        match value_node(value) {
            JsonNode::Null => Json::Null,
            JsonNode::Bool(flag) => Json::Bool(flag),
            JsonNode::Number { text, unsigned } => Json::Number { text, unsigned },
            JsonNode::Text(text) => Json::Text(text),
            JsonNode::Array(values) => {
                let ghost all = value_models(values@);
                let ghost items = values@;
                let mut result: Vec<Json> = Vec::new();
                for item in it: values
                    invariant
                        it.seq() == items,
                        all == value_models(items),
                        size(value_model(value)) == 1 + size_of_values(all),
                        json_views(result@) == all.take(it.index()),
                {
                    proof {
                        assert(all[it.index()] == value_model(item));
                        lemma_element_bounds(all, it.index());
                    }
                    let copy = Json::from_value(item);
                    let ghost before = result@;
                    result.push(copy);
                    proof {
                        assert(result@.drop_last() =~= before);
                        assert(all.take(it.index() + 1) =~= all.take(it.index()).push(copy@));
                    }
                }
                proof {
                    assert(all.take(all.len() as int) == all);
                }
                Json::Array(result)
            },
            JsonNode::Object(entries) => {
                let ghost all = entry_models(entries@);
                let ghost items = entries@;
                let mut result: Vec<(String, Json)> = Vec::new();
                for entry in it: entries
                    invariant
                        it.seq() == items,
                        all == entry_models(items),
                        size(value_model(value)) == 1 + size_of_entries(all),
                        entry_views(result@) == all.take(it.index()),
                {
                    proof {
                        assert(all[it.index()] == (entry.0@, value_model(entry.1)));
                        lemma_entry_bounds(all, it.index());
                    }
                    let (key, item) = entry;
                    let copy = Json::from_value(item);
                    let ghost before = result@;
                    let ghost added = (key@, copy@);
                    result.push((key, copy));
                    proof {
                        assert(result@.drop_last() =~= before);
                        assert(all.take(it.index() + 1) =~= all.take(it.index()).push(added));
                    }
                }
                proof {
                    assert(all.take(all.len() as int) == all);
                }
                Json::Object(result)
            },
        }
    }
}

/// Parses a text as JSON.
pub fn parse_json(text: &str) -> (result: Option<Json>)
    ensures
        match result {
            Some(value) => {
                &&& parsed_json(text@) == Some(value@)
                &&& longest_text(value@) < text@.len()
            },
            None => parsed_json(text@) is None,
        },
{
    match parse_value(text) {
        Some(value) => Some(Json::from_value(value)),
        None => None,
    }
}

/// The text that a value stands for: a text is itself, anything else its JSON.
pub open spec fn message_text(value: JsonView, serialized: Option<Seq<char>>) -> Option<Seq<char>> {
    match value {
        JsonView::Text(text) => Some(text),
        _ => serialized,
    }
}

/// Reads a value as a message: a text as it stands, anything else as its JSON. There is
/// no message where `serde_json` fails to write that JSON.
pub fn read_message(value: serde_json::Value) -> (result: Option<String>)
    ensures
        crate::text::opt(result) == message_text(
            value_model(value),
            serialized_json(value_model(value)),
        ),
{
    let serialized = value_text(&value);
    match value_node(value) {
        JsonNode::Text(text) => Some(text),
        _ => serialized,
    }
}

/// The value under a key is that of the last entry with the key, and there is none where no
/// entry has the key.
pub proof fn law_last_entry_counts(entries: Seq<(Seq<char>, JsonView)>, key: Seq<char>)
    ensures
        match field(entries, key) {
            Some(value) => exists|i: int|
                0 <= i < entries.len() && #[trigger] entries[i] == (key, value) && forall|k: int|
                    i < k < entries.len() ==> (#[trigger] entries[k]).0 != key,
            None => forall|k: int| 0 <= k < entries.len() ==> (#[trigger] entries[k]).0 != key,
        },
    decreases entries.len(),
{
    if entries.len() > 0 {
        let front = entries.drop_last();
        law_last_entry_counts(front, key);
        assert(forall|k: int| 0 <= k < front.len() ==> #[trigger] entries[k] == front[k]);
        if entries.last().0 == key {
            assert(entries[entries.len() - 1] == (key, entries.last().1));
        } else if let Some(value) = field(front, key) {
            let i = choose|i: int|
                0 <= i < front.len() && #[trigger] front[i] == (key, value) && forall|k: int|
                    i < k < front.len() ==> (#[trigger] front[k]).0 != key;
            assert(entries[i] == (key, value));
        }
    }
}

/// A message that is a string is that string, whatever the JSON for it is; any other message is
/// its JSON.
pub proof fn law_string_message_is_itself(
    value: JsonView,
    text: Seq<char>,
    serialized: Option<Seq<char>>,
)
    ensures
        message_text(JsonView::Text(text), serialized) == Some(text),
        !(value is Text) ==> message_text(value, serialized) == serialized,
{
}

} // verus!
