//! TOML values as the notifier reads them.

use crate::text::same_text;
use vstd::prelude::*;

verus! {

/// A TOML value, without the contents of the kinds that the notifier does not read.
pub enum Toml {
    Text(String),
    Integer(i64),
    Float,
    Boolean(bool),
    Datetime,
    Array(Vec<Toml>),
    Table(Vec<(String, Toml)>),
}

/// What a TOML value holds.
pub enum TomlView {
    Text(Seq<char>),
    Integer(i64),
    Float,
    Boolean(bool),
    Datetime,
    Array(Seq<TomlView>),
    Table(Seq<(Seq<char>, TomlView)>),
}

/// The view of a value.
pub open spec fn toml_view(value: Toml) -> TomlView
    decreases value,
{
    match value {
        Toml::Text(text) => TomlView::Text(text@),
        Toml::Integer(number) => TomlView::Integer(number),
        Toml::Float => TomlView::Float,
        Toml::Boolean(flag) => TomlView::Boolean(flag),
        Toml::Datetime => TomlView::Datetime,
        Toml::Array(values) => TomlView::Array(toml_views(values@)),
        Toml::Table(entries) => TomlView::Table(toml_entry_views(entries@)),
    }
}

/// The views of some values.
pub open spec fn toml_views(values: Seq<Toml>) -> Seq<TomlView>
    decreases values,
{
    if values.len() == 0 {
        Seq::empty()
    } else {
        toml_views(values.drop_last()).push(toml_view(values.last()))
    }
}

/// The views of the entries of a table.
pub open spec fn toml_entry_views(entries: Seq<(String, Toml)>) -> Seq<(Seq<char>, TomlView)>
    decreases entries,
{
    if entries.len() == 0 {
        Seq::empty()
    } else {
        toml_entry_views(entries.drop_last()).push(
            (entries.last().0@, toml_view(entries.last().1)),
        )
    }
}

impl View for Toml {
    type V = TomlView;

    open spec fn view(&self) -> TomlView {
        toml_view(*self)
    }
}

/// The view of an array has one view for each value, in order.
pub proof fn lemma_toml_views(values: Seq<Toml>)
    ensures
        toml_views(values).len() == values.len(),
        forall|i: int|
            0 <= i < values.len() ==> #[trigger] toml_views(values)[i] == toml_view(values[i]),
    decreases values.len(),
{
    if values.len() > 0 {
        let front = values.drop_last();
        lemma_toml_views(front);
        assert forall|i: int| 0 <= i < values.len() implies #[trigger] toml_views(values)[i]
            == toml_view(values[i]) by {
            if i < front.len() {
                assert(toml_views(values)[i] == toml_views(front)[i]);
            }
        }
    }
}

/// The view of a table has one view for each entry, in order.
pub proof fn lemma_toml_entry_views(entries: Seq<(String, Toml)>)
    ensures
        toml_entry_views(entries).len() == entries.len(),
        forall|i: int|
            0 <= i < entries.len() ==> #[trigger] toml_entry_views(entries)[i] == (
                entries[i].0@,
                toml_view(entries[i].1),
            ),
    decreases entries.len(),
{
    if entries.len() > 0 {
        let front = entries.drop_last();
        lemma_toml_entry_views(front);
        assert forall|i: int| 0 <= i < entries.len() implies #[trigger] toml_entry_views(entries)[i]
            == (entries[i].0@, toml_view(entries[i].1)) by {
            if i < front.len() {
                assert(toml_entry_views(entries)[i] == toml_entry_views(front)[i]);
            }
        }
    }
}

/// How much a value holds: a number above that of each value inside it.
pub open spec fn toml_size(value: TomlView) -> nat
    decreases value,
{
    match value {
        TomlView::Array(values) => 1 + toml_values_size(values),
        TomlView::Table(entries) => 1 + toml_entries_size(entries),
        _ => 1,
    }
}

/// How much some values hold.
pub open spec fn toml_values_size(values: Seq<TomlView>) -> nat
    decreases values,
{
    if values.len() == 0 {
        0
    } else {
        toml_values_size(values.drop_last()) + toml_size(values.last())
    }
}

/// How much the values of some entries hold.
pub open spec fn toml_entries_size(entries: Seq<(Seq<char>, TomlView)>) -> nat
    decreases entries,
{
    if entries.len() == 0 {
        0
    } else {
        toml_entries_size(entries.drop_last()) + toml_size(entries.last().1)
    }
}

/// An element holds no more than the values that it is one of.
proof fn lemma_toml_element_size(values: Seq<TomlView>, i: int)
    requires
        0 <= i < values.len(),
    ensures
        toml_size(values[i]) <= toml_values_size(values),
    decreases values.len(),
{
    if i < values.len() - 1 {
        lemma_toml_element_size(values.drop_last(), i);
    }
}

/// The value of an entry holds no more than the entries that it is one of.
proof fn lemma_toml_entry_size(entries: Seq<(Seq<char>, TomlView)>, i: int)
    requires
        0 <= i < entries.len(),
    ensures
        toml_size(entries[i].1) <= toml_entries_size(entries),
    decreases entries.len(),
{
    if i < entries.len() - 1 {
        lemma_toml_entry_size(entries.drop_last(), i);
    }
}

/// The value that a table has under a key; of two entries with one key, the later one
/// counts.
pub open spec fn toml_field(entries: Seq<(Seq<char>, TomlView)>, key: Seq<char>) -> Option<TomlView>
    decreases entries.len(),
{
    if entries.len() == 0 {
        None
    } else if entries.last().0 == key {
        Some(entries.last().1)
    } else {
        toml_field(entries.drop_last(), key)
    }
}

/// Looks up a key of a table.
pub fn get<'a>(entries: &'a Vec<(String, Toml)>, key: &str) -> (result: Option<&'a Toml>)
    ensures
        match result {
            Some(value) => toml_field(toml_entry_views(entries@), key@) == Some(value@),
            None => toml_field(toml_entry_views(entries@), key@) is None,
        },
{
    let ghost all = toml_entry_views(entries@);
    let mut end: usize = entries.len();
    proof {
        lemma_toml_entry_views(entries@);
        assert(all.take(end as int) == all);
    }
    while end > 0
        invariant
            end <= entries.len(),
            all == toml_entry_views(entries@),
            all.len() == entries@.len(),
            toml_field(all, key@) == toml_field(all.take(end as int), key@),
        decreases end,
    {
        let entry = &entries[end - 1];
        proof {
            lemma_toml_entry_views(entries@);
            assert(all.take(end as int).last() == (entry.0@, toml_view(entry.1)));
            assert(all.take(end as int).drop_last() =~= all.take(end - 1));
        }
        if same_text(entry.0.as_str(), key) {
            return Some(&entry.1);
        }
        end = end - 1;
    }
    None
}

/// `toml::Value`, carried without looking inside.
#[verifier::external_type_specification]
#[verifier::external_body]
pub struct ExTomlValue(toml::Value);

/// What a `toml::Value` holds.
pub uninterp spec fn toml_model(value: toml::Value) -> TomlView;

/// What `toml::from_str` makes of a text as a `toml::Value`: the value, or the error that it
/// reports, in words.
pub uninterp spec fn parsed_toml(text: Seq<char>) -> Result<TomlView, Seq<char>>;

/// One level of a `toml::Value`.
pub enum TomlNode {
    Text(String),
    Integer(i64),
    Float,
    Boolean(bool),
    Datetime,
    Array(Vec<toml::Value>),
    Table(Vec<(String, toml::Value)>),
}

/// What some values hold.
pub open spec fn toml_models(values: Seq<toml::Value>) -> Seq<TomlView> {
    values.map_values(|value: toml::Value| toml_model(value))
}

/// What some entries hold.
pub open spec fn toml_entry_models(entries: Seq<(String, toml::Value)>) -> Seq<
    (Seq<char>, TomlView),
> {
    entries.map_values(|entry: (String, toml::Value)| (entry.0@, toml_model(entry.1)))
}

impl TomlNode {
    /// The value that this is the top level of.
    pub open spec fn model(self) -> TomlView {
        match self {
            TomlNode::Text(text) => TomlView::Text(text@),
            TomlNode::Integer(number) => TomlView::Integer(number),
            TomlNode::Float => TomlView::Float,
            TomlNode::Boolean(flag) => TomlView::Boolean(flag),
            TomlNode::Datetime => TomlView::Datetime,
            TomlNode::Array(values) => TomlView::Array(toml_models(values@)),
            TomlNode::Table(entries) => TomlView::Table(toml_entry_models(entries@)),
        }
    }
}

/// Takes a `toml::Value` apart by its variant. The entries of a table come in the order in
/// which its map hands them out; what a float or a datetime is stays behind.
#[verifier::external_body]
fn toml_node(value: toml::Value) -> (node: TomlNode)
    ensures
        node.model() == toml_model(value),
{
    match value {
        toml::Value::String(text) => TomlNode::Text(text),
        toml::Value::Integer(number) => TomlNode::Integer(number),
        toml::Value::Float(_) => TomlNode::Float,
        toml::Value::Boolean(flag) => TomlNode::Boolean(flag),
        toml::Value::Datetime(_) => TomlNode::Datetime,
        toml::Value::Array(values) => TomlNode::Array(values),
        toml::Value::Table(entries) => TomlNode::Table(entries.into_iter().collect()),
    }
}

/// `toml::from_str` of a text as a `toml::Value`, with the error in the words of its `Display`.
/// The outcome depends on the text alone.
#[verifier::external_body]
fn parse_toml_value(text: &str) -> (result: Result<toml::Value, String>)
    ensures
        match result {
            Ok(value) => parsed_toml(text@) == Ok::<TomlView, Seq<char>>(toml_model(value)),
            Err(error) => parsed_toml(text@) == Err::<TomlView, Seq<char>>(error@),
        },
{
    toml::from_str::<toml::Value>(text).map_err(|error| error.to_string())
}

impl Toml {
    /// Copies a `toml::Value`.
    pub fn from_value(value: toml::Value) -> (result: Toml)
        ensures
            result@ == toml_model(value),
        decreases toml_size(toml_model(value)),
    {
        match toml_node(value) {
            TomlNode::Text(text) => Toml::Text(text),
            TomlNode::Integer(number) => Toml::Integer(number),
            TomlNode::Float => Toml::Float,
            TomlNode::Boolean(flag) => Toml::Boolean(flag),
            TomlNode::Datetime => Toml::Datetime,
            TomlNode::Array(values) => {
                let ghost items = values@;
                let ghost all = toml_models(items);
                let mut result: Vec<Toml> = Vec::new();
                for item in it: values
                    invariant
                        it.seq() == items,
                        all == toml_models(items),
                        toml_size(toml_model(value)) == 1 + toml_values_size(all),
                        toml_views(result@) == all.take(it.index()),
                {
                    proof {
                        assert(all[it.index()] == toml_model(item));
                        lemma_toml_element_size(all, it.index());
                    }
                    let copy = Toml::from_value(item);
                    let ghost before = result@;
                    result.push(copy);
                    proof {
                        assert(result@.drop_last() =~= before);
                        assert(all.take(it.index() + 1) =~= all.take(it.index()).push(copy@));
                    }
                }
                proof {
                    assert(all.take(all.len() as int) == all);
                }
                Toml::Array(result)
            },
            TomlNode::Table(entries) => {
                let ghost items = entries@;
                let ghost all = toml_entry_models(items);
                let mut result: Vec<(String, Toml)> = Vec::new();
                for entry in it: entries
                    invariant
                        it.seq() == items,
                        all == toml_entry_models(items),
                        toml_size(toml_model(value)) == 1 + toml_entries_size(all),
                        toml_entry_views(result@) == all.take(it.index()),
                {
                    proof {
                        assert(all[it.index()] == (entry.0@, toml_model(entry.1)));
                        lemma_toml_entry_size(all, it.index());
                    }
                    let (key, item) = entry;
                    let copy = Toml::from_value(item);
                    let ghost before = result@;
                    let ghost added = (key@, copy@);
                    result.push((key, copy));
                    proof {
                        assert(result@.drop_last() =~= before);
                        assert(all.take(it.index() + 1) =~= all.take(it.index()).push(added));
                    }
                }
                proof {
                    assert(all.take(all.len() as int) == all);
                }
                Toml::Table(result)
            },
        }
    }
}

/// Parses a text as a TOML document.
pub fn parse_toml(text: &str) -> (result: Result<Toml, String>)
    ensures
        match result {
            Ok(value) => parsed_toml(text@) == Ok::<TomlView, Seq<char>>(value@),
            Err(error) => parsed_toml(text@) == Err::<TomlView, Seq<char>>(error@),
        },
{
    match parse_toml_value(text) {
        Ok(value) => Ok(Toml::from_value(value)),
        Err(error) => Err(error),
    }
}

/// The value under a key is that of the last entry with the key, and there is none where no
/// entry has the key.
pub proof fn law_last_table_entry_counts(entries: Seq<(Seq<char>, TomlView)>, key: Seq<char>)
    ensures
        match toml_field(entries, key) {
            Some(value) => exists|i: int|
                0 <= i < entries.len() && #[trigger] entries[i] == (key, value) && forall|k: int|
                    i < k < entries.len() ==> (#[trigger] entries[k]).0 != key,
            None => forall|k: int| 0 <= k < entries.len() ==> (#[trigger] entries[k]).0 != key,
        },
    decreases entries.len(),
{
    if entries.len() > 0 {
        let front = entries.drop_last();
        law_last_table_entry_counts(front, key);
        assert(forall|k: int| 0 <= k < front.len() ==> #[trigger] entries[k] == front[k]);
        if entries.last().0 == key {
            assert(entries[entries.len() - 1] == (key, entries.last().1));
        } else if let Some(value) = toml_field(front, key) {
            let i = choose|i: int|
                0 <= i < front.len() && #[trigger] front[i] == (key, value) && forall|k: int|
                    i < k < front.len() ==> (#[trigger] front[k]).0 != key;
            assert(entries[i] == (key, value));
        }
    }
}

} // verus!
