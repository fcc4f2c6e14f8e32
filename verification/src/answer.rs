//! Finds the answer in an assistant message that may be JSON.

use crate::json::{
    entry_views, field, get, json_views, lemma_element_bounds, lemma_entry_bounds,
    lemma_entry_views, lemma_field_bounds, lemma_json_views, longest_in_entries,
    longest_in_values, longest_text, parse_json, parsed_json, size, size_of_entries,
    size_of_values, Json, JsonView,
};
use crate::number::{decimal, decimal_text, is_digit, lemma_decimal_denotes};
use crate::text::{
    after_prefix, all_allowed, append_part, as_deref, before_suffix, begins, chars_of, ends,
    eq_ignore_ascii_case, find_char, join, joined, keep_non_blank, last_position,
    law_first_position, law_joined_shows_each, law_last_position, law_parts_are_taken_off,
    lemma_joined_allowed, lemma_trimmed_allowed, lemma_trimmed_idempotent, lemma_trimmed_length,
    lowered, non_blank, opt, opt_str, position, rfind_char, split_at_char, split_once, starts_with,
    strip_prefix, strip_suffix, text_of, trim, trimmed, views, with_part,
};
use vstd::prelude::*;
use vstd::string::StringExecFns;
use vstd::string::StrSliceExecFns;

verus! {

/// The contents of a Markdown code fence around a whole message, without a leading
/// `json` tag.
pub open spec fn fenced_body(message: Seq<char>) -> Option<Seq<char>> {
    match after_prefix(trimmed(message), "```"@) {
        None => None,
        Some(rest) => match before_suffix(rest, "```"@) {
            None => None,
            Some(inner) => Some(untagged(trimmed(inner))),
        },
    }
}

/// A fenced body without its `json` tag: a first line that reads `json` in any
/// letter case, or the four letters right at the start.
pub open spec fn untagged(body: Seq<char>) -> Seq<char> {
    match split_at_char(body, '\n') {
        Some((language, contents)) if lowered(trimmed(language)) == lowered("json"@) => trimmed(
            contents,
        ),
        _ => match after_prefix(body, "json"@) {
            Some(rest) => trimmed(rest),
            None => body,
        },
    }
}

/// Takes a message out of the Markdown code fence around it.
pub fn fenced_json_body(message: &str) -> (result: Option<&str>)
    ensures
        opt_str(result) == fenced_body(message@),
        result matches Some(body) ==> body@.len() <= trimmed(message@).len(),
{
    match strip_prefix(trim(message), "```") {
        None => None,
        Some(rest) => match strip_suffix(rest, "```") {
            None => None,
            Some(inner) => {
                let body = trim(inner);
                if let Some((language, contents)) = split_once(body, '\n') {
                    if eq_ignore_ascii_case(trim(language), "json") {
                        return Some(trim(contents));
                    }
                }
                match strip_prefix(body, "json") {
                    Some(rest) => Some(trim(rest)),
                    None => Some(body),
                }
            },
        },
    }
}

/// The part of a message from the first opening bracket to the last closing one.
pub open spec fn bracketed(message: Seq<char>, opening: char, closing: char) -> Option<Seq<char>> {
    match (position(message, opening), last_position(message, closing)) {
        (Some(start), Some(end)) => if start <= end {
            Some(message.subrange(start as int, end as int + 1))
        } else {
            None
        },
        _ => None,
    }
}

/// Cuts a message from the first opening bracket to the last closing one.
pub fn bracketed_text(message: &str, opening: char, closing: char) -> (result: Option<String>)
    ensures
        opt(result) == bracketed(message@, opening, closing),
        result matches Some(part) ==> part@.len() <= message@.len(),
{
    let chars = chars_of(message);
    let length = chars.len();
    match find_char(&chars, opening) {
        None => None,
        Some(start) => match rfind_char(&chars, closing) {
            None => None,
            Some(end) => {
                if start <= end {
                    Some(text_of(&chars[start..end + 1]))
                } else {
                    None
                }
            },
        },
    }
}

/// The texts of a message that may be its JSON, best first: the whole message, what a
/// code fence holds, and what stands in braces or square brackets.
pub open spec fn candidates(message: Seq<char>) -> Seq<Seq<char>> {
    let whole = trimmed(message);
    seq![whole] + one(fenced_body(whole)) + one(bracketed(whole, '{', '}')) + one(
        bracketed(whole, '[', ']'),
    )
}

/// A sequence of the value, where there is one.
pub open spec fn one(text: Option<Seq<char>>) -> Seq<Seq<char>> {
    match text {
        Some(text) => seq![text],
        None => Seq::empty(),
    }
}

/// Adds a text to a list, where there is one.
fn push_some(list: &mut Vec<String>, text: Option<String>)
    ensures
        views(final(list)@) == views(old(list)@) + one(opt(text)),
{
    let ghost before = list@;
    match text {
        Some(text) => {
            let ghost added = text@;
            list.push(text);
            proof {
                assert(views(list@) =~= views(before) + seq![added]);
            }
        },
        None => {
            proof {
                assert(views(list@) =~= views(before) + Seq::<Seq<char>>::empty());
            }
        },
    }
}

/// Lists the texts of a message that may be its JSON.
pub fn json_candidates(message: &str) -> (result: Vec<String>)
    ensures
        views(result@) == candidates(message@),
        forall|i: int|
            0 <= i < result@.len() ==> #[trigger] result@[i]@.len() <= trimmed(message@).len(),
{
    let whole = trim(message);
    let mut result: Vec<String> = Vec::new();
    let fenced = match fenced_json_body(whole) {
        Some(body) => Some(body.to_owned()),
        None => None,
    };
    let braces = bracketed_text(whole, '{', '}');
    let brackets = bracketed_text(whole, '[', ']');
    result.push(whole.to_owned());
    proof {
        assert(views(result@) =~= seq![whole@]);
    }
    let ghost parts = (one(opt(fenced)), one(opt(braces)), one(opt(brackets)));
    push_some(&mut result, fenced);
    push_some(&mut result, braces);
    push_some(&mut result, brackets);
    proof {
        lemma_trimmed_length(whole@);
        let all = views(result@);
        assert(all == seq![whole@] + parts.0 + parts.1 + parts.2);
        assert forall|i: int| 0 <= i < result@.len() implies #[trigger] result@[i]@.len()
            <= whole@.len() by {
            assert(all[i] == result@[i]@);
        }
    }
    result
}

/// The first candidate that is JSON, parsed.
pub open spec fn first_parsed(texts: Seq<Seq<char>>) -> Option<JsonView>
    decreases texts.len(),
{
    if texts.len() == 0 {
        None
    } else {
        match parsed_json(texts[0]) {
            Some(value) => Some(value),
            None => first_parsed(texts.drop_first()),
        }
    }
}

/// Parses the JSON in a message.
pub fn parse_json_answer(message: &str) -> (result: Option<Json>)
    ensures
        match result {
            Some(value) => {
                &&& first_parsed(candidates(message@)) == Some(value@)
                &&& longest_text(value@) < trimmed(message@).len()
            },
            None => first_parsed(candidates(message@)) is None,
        },
{
    let texts = json_candidates(message);
    let ghost all = views(texts@);
    let mut i: usize = 0;
    proof {
        assert(all.skip(0) == all);
    }
    while i < texts.len()
        invariant
            i <= texts.len(),
            all == views(texts@),
            first_parsed(all) == first_parsed(all.skip(i as int)),
            forall|k: int|
                0 <= k < texts@.len() ==> #[trigger] texts@[k]@.len() <= trimmed(message@).len(),
            all == candidates(message@),
        decreases texts.len() - i,
    {
        proof {
            assert(all.skip(i as int)[0] == texts@[i as int]@);
            assert(all.skip(i as int).drop_first() =~= all.skip(i + 1));
        }
        match parse_json(texts[i].as_str()) {
            Some(value) => {
                return Some(value);
            },
            None => {},
        }
        i = i + 1;
    }
    None
}

/// A number that counts from zero, written from one, with the period and space
/// that follow it in a list.
pub open spec fn list_mark(index: nat) -> Seq<char> {
    decimal(index + 1) + ". "@
}

/// The text of a finding of a review.
pub open spec fn finding_text(
    index: nat,
    title: Option<Seq<char>>,
    body: Option<Seq<char>>,
    priority: Option<Seq<char>>,
    location: Option<Seq<char>>,
) -> Option<Seq<char>> {
    if title is None && body is None && location is None {
        None
    } else {
        let name = match title {
            Some(title) => title,
            None => "Замечание"@,
        };
        let label = match priority {
            Some(priority) if !begins(name, "[P"@) => "["@ + priority + "] "@ + name,
            _ => name,
        };
        let titled = list_mark(index) + label;
        Some(with_part(with_part(titled, "\n"@, body), "\n📍 "@, location))
    }
}

/// Writes a finding of a review, where it has a title, a body or a location.
pub fn format_finding(
    index: usize,
    title: Option<&str>,
    body: Option<&str>,
    priority: Option<&str>,
    location: Option<&str>,
) -> (result: Option<String>)
    requires
        index < usize::MAX,
    ensures
        opt(result) == finding_text(
            index as nat,
            opt_str(title),
            opt_str(body),
            opt_str(priority),
            opt_str(location),
        ),
{
    if title.is_none() && body.is_none() && location.is_none() {
        return None;
    }
    let name = match title {
        Some(title) => title,
        None => "Замечание",
    };
    let mut label = String::new();
    match priority {
        Some(priority) if !starts_with(name, "[P") => {
            label.append("[");
            label.append(priority);
            label.append("] ");
            label.append(name);
            proof {
                assert(Seq::empty() + "["@ =~= "["@);
            }
        },
        _ => {
            label.append(name);
            proof {
                assert(label@ =~= name@);
            }
        },
    }
    let mut output = decimal_text((index + 1) as u64);
    output.append(". ");
    output.append(label.as_str());
    append_part(&mut output, "\n", body);
    append_part(&mut output, "\n📍 ", location);
    Some(output)
}

/// A priority such as `P2`, from a number or from a text with or without the letter
/// and square brackets.
pub open spec fn priority_text(value: JsonView) -> Option<Seq<char>> {
    match value {
        JsonView::Number { text, unsigned: Some(priority) } => Some(
            "P"@ + decimal(priority as nat),
        ),
        JsonView::Text(text) => {
            let bare = trimmed(text);
            let bare = match after_prefix(bare, "["@) {
                Some(rest) => rest,
                None => bare,
            };
            let bare = match before_suffix(bare, "]"@) {
                Some(rest) => rest,
                None => bare,
            };
            let bare = match after_prefix(bare, "P"@) {
                Some(rest) => rest,
                None => bare,
            };
            if bare.len() > 0 {
                Some("P"@ + bare)
            } else {
                None
            }
        },
        _ => None,
    }
}

/// Reads the priority of a finding.
pub fn format_json_priority(value: &Json) -> (result: Option<String>)
    ensures
        opt(result) == priority_text(value@),
{
    let digits: String;
    let bare: &str = match value {
        Json::Number { text: _, unsigned: Some(priority) } => {
            digits = decimal_text(*priority);
            digits.as_str()
        },
        Json::Text(text) => {
            let bare = trim(text.as_str());
            let bare = match strip_prefix(bare, "[") {
                Some(rest) => rest,
                None => bare,
            };
            let bare = match strip_suffix(bare, "]") {
                Some(rest) => rest,
                None => bare,
            };
            let bare = match strip_prefix(bare, "P") {
                Some(rest) => rest,
                None => bare,
            };
            if bare.is_empty() {
                return None;
            }
            bare
        },
        _ => {
            return None;
        },
    };
    let mut result = "P".to_owned();
    result.append(bare);
    Some(result)
}

/// The length that a number is, where it is one.
pub open spec fn usize_of(value: Option<JsonView>) -> Option<usize> {
    match value {
        Some(JsonView::Number { text, unsigned: Some(number) }) => if number <= usize::MAX {
            Some(number as usize)
        } else {
            None
        },
        _ => None,
    }
}

/// Reads a number as a length.
pub fn json_usize(value: Option<&Json>) -> (result: Option<usize>)
    ensures
        result == usize_of(opt_json(value)),
{
    match value {
        Some(Json::Number { text: _, unsigned: Some(number) }) => {
            if *number <= usize::MAX as u64 {
                Some(*number as usize)
            } else {
                None
            }
        },
        _ => None,
    }
}

/// The view of an optional value.
pub open spec fn opt_json(value: Option<&Json>) -> Option<JsonView> {
    match value {
        Some(value) => Some(value@),
        None => None,
    }
}

/// The first of some keys under which an object has a text.
pub open spec fn first_text(
    entries: Seq<(Seq<char>, JsonView)>,
    keys: Seq<Seq<char>>,
) -> Option<Seq<char>>
    decreases keys.len(),
{
    if keys.len() == 0 {
        None
    } else {
        match field(entries, keys[0]) {
            Some(JsonView::Text(text)) => Some(text),
            _ => first_text(entries, keys.drop_first()),
        }
    }
}

/// The views of some keys.
pub open spec fn key_views(keys: Seq<&str>) -> Seq<Seq<char>> {
    keys.map_values(|key: &str| key@)
}

/// Finds the text under the first of some keys that has one.
fn find_text<'a>(entries: &'a Vec<(String, Json)>, keys: Vec<&str>) -> (result: Option<&'a str>)
    ensures
        opt_str(result) == first_text(entry_views(entries@), key_views(keys@)),
{
    let ghost all = key_views(keys@);
    let mut i: usize = 0;
    proof {
        assert(all.skip(0) == all);
    }
    while i < keys.len()
        invariant
            i <= keys.len(),
            all == key_views(keys@),
            first_text(entry_views(entries@), all) == first_text(
                entry_views(entries@),
                all.skip(i as int),
            ),
        decreases keys.len() - i,
    {
        proof {
            assert(all.skip(i as int)[0] == keys@[i as int]@);
            assert(all.skip(i as int).drop_first() =~= all.skip(i + 1));
        }
        if let Some(Json::Text(text)) = get(entries, keys[i]) {
            return Some(text.as_str());
        }
        i = i + 1;
    }
    None
}

/// The keys under which a location has its file.
pub open spec fn path_keys() -> Seq<Seq<char>> {
    seq!["absolute_file_path"@, "file_path"@, "path"@, "file"@]
}

/// The entries of an object.
pub open spec fn entries_of(value: Option<JsonView>) -> Option<Seq<(Seq<char>, JsonView)>> {
    match value {
        Some(JsonView::Object(entries)) => Some(entries),
        _ => None,
    }
}

/// A place in a file, as `file:first-last`.
pub open spec fn place_text(
    path: Option<Seq<char>>,
    start: Option<usize>,
    end: Option<usize>,
) -> Option<Seq<char>> {
    if path is None && start is None {
        None
    } else {
        let file = match path {
            Some(path) => path,
            None => "строка"@,
        };
        let opened = with_part(file, ":"@, decimal_of(start));
        Some(with_part(opened, "-"@, decimal_of(later(start, end))))
    }
}

/// The decimal notation of an optional number.
pub open spec fn decimal_of(value: Option<usize>) -> Option<Seq<char>> {
    match value {
        Some(value) => Some(decimal(value as nat)),
        None => None,
    }
}

/// The end of a range of lines that does not end on the line where it starts.
pub open spec fn later(start: Option<usize>, end: Option<usize>) -> Option<usize> {
    match (start, end) {
        (Some(start), Some(end)) if end != start => Some(end),
        _ => None,
    }
}

/// Writes a place in a file.
pub fn format_place(path: Option<&str>, start: Option<usize>, end: Option<usize>) -> (result:
    Option<String>)
    ensures
        opt(result) == place_text(opt_str(path), start, end),
{
    if path.is_none() && start.is_none() {
        return None;
    }
    let mut output = match path {
        Some(path) => path.to_owned(),
        None => "строка".to_owned(),
    };
    if let Some(start) = start {
        output.append(":");
        output.append(decimal_text(start as u64).as_str());
        if let Some(end) = end {
            if end != start {
                output.append("-");
                output.append(decimal_text(end as u64).as_str());
            }
        }
    }
    Some(output)
}

/// The location of a finding.
pub open spec fn location_text(value: JsonView) -> Option<Seq<char>> {
    match value {
        JsonView::Object(entries) => {
            let range = entries_of(field(entries, "line_range"@));
            let ranged_start = match range {
                Some(range) => usize_of(field(range, "start"@)),
                None => None,
            };
            let start = match ranged_start {
                Some(start) => Some(start),
                None => usize_of(field(entries, "line"@)),
            };
            let ranged_end = match range {
                Some(range) => usize_of(field(range, "end"@)),
                None => None,
            };
            let end = match ranged_end {
                Some(end) => Some(end),
                None => start,
            };
            place_text(non_blank(first_text(entries, path_keys())), start, end)
        },
        _ => None,
    }
}

/// Reads the location of a finding.
pub fn format_json_location(value: &Json) -> (result: Option<String>)
    ensures
        opt(result) == location_text(value@),
{
    match value {
        Json::Object(entries) => {
            let keys = vec!["absolute_file_path", "file_path", "path", "file"];
            proof {
                assert(key_views(keys@) =~= path_keys());
            }
            let path = keep_non_blank(find_text(entries, keys));
            let mut start: Option<usize> = None;
            let mut end: Option<usize> = None;
            if let Some(Json::Object(range)) = get(entries, "line_range") {
                start = json_usize(get(range, "start"));
                end = json_usize(get(range, "end"));
            }
            if start.is_none() {
                start = json_usize(get(entries, "line"));
            }
            if end.is_none() {
                end = start;
            }
            format_place(path, start, end)
        },
        _ => None,
    }
}

/// The keys under which an envelope may have its answer, best first.
pub open spec fn answer_keys() -> Seq<Seq<char>> {
    seq![
        "answer"@,
        "response"@,
        "message"@,
        "text"@,
        "output_text"@,
        "content"@,
        "result"@,
        "output"@,
        "data"@,
        "choices"@,
        "overall_explanation"@,
        "explanation"@,
        "summary"@,
    ]
}

/// The keys under which a review has its explanation, best first.
pub open spec fn explanation_keys() -> Seq<Seq<char>> {
    seq![
        "overall_explanation"@,
        "explanation"@,
        "summary"@,
        "answer"@,
        "response"@,
        "message"@,
    ]
}

/// The keys under which a finding has its title, best first.
pub open spec fn title_keys() -> Seq<Seq<char>> {
    seq!["title"@, "name"@, "summary"@]
}

/// The keys under which a finding has its body, best first.
pub open spec fn body_keys() -> Seq<Seq<char>> {
    seq!["body"@, "description"@, "details"@, "message"@, "explanation"@]
}

/// The JSON that a text is, as it stands or in a code fence, where it is nothing besides.
pub open spec fn json_of(text: Seq<char>) -> Option<JsonView> {
    match parsed_json(trimmed(text)) {
        Some(value) => Some(value),
        None => match fenced_body(trimmed(text)) {
            Some(body) => parsed_json(body),
            None => None,
        },
    }
}

/// What a text says: the answer in the JSON in it, else itself. JSON that says nothing is not
/// passed on as it stands, except for `null`, which is a word like any other.
pub open spec fn text_answer(text: Seq<char>, nested: Option<Seq<char>>) -> Option<Seq<char>> {
    if trimmed(text).len() == 0 {
        None
    } else {
        match nested {
            Some(answer) => Some(answer),
            None => match json_of(text) {
                Some(value) if value !is Null => None,
                _ => Some(trimmed(text)),
            },
        }
    }
}

/// What an array says: its findings where every element is one, else the answers of its
/// elements, else the findings that there are.
pub open spec fn array_answer(
    count: nat,
    findings: Seq<Seq<char>>,
    answers: Seq<Seq<char>>,
) -> Option<Seq<char>> {
    if findings.len() == count && findings.len() > 0 {
        Some(joined(findings, "\n\n"@))
    } else if answers.len() > 0 {
        Some(joined(answers, "\n"@))
    } else if findings.len() > 0 {
        Some(joined(findings, "\n\n"@))
    } else {
        None
    }
}

/// The part of a review that lists its findings.
pub open spec fn findings_section(count: nat, details: Seq<Seq<char>>) -> Seq<char> {
    if count == 0 {
        "✅ Проблем не найдено."@
    } else {
        let heading = "⚠️ Найдено проблем: "@ + decimal(count) + "."@;
        if details.len() > 0 {
            heading + "\n\nПроблемы:\n\n"@ + joined(details, "\n\n"@)
        } else {
            heading
        }
    }
}

/// The part of a review that sums it up.
pub open spec fn summary_section(
    explanation: Option<Seq<char>>,
    correctness: Option<Seq<char>>,
) -> Option<Seq<char>> {
    match (explanation, correctness) {
        (Some(explanation), _) => Some("📝 Итог:\n\n"@ + explanation),
        (None, Some(correctness)) => Some("📝 Итог: "@ + correctness),
        (None, None) => None,
    }
}

/// What a review says: its findings, counted and listed, and its summary.
pub open spec fn review_text(
    count: Option<nat>,
    details: Seq<Seq<char>>,
    explanation: Option<Seq<char>>,
    correctness: Option<Seq<char>>,
) -> Option<Seq<char>> {
    let summary = summary_section(explanation, correctness);
    match (count, summary) {
        (Some(count), Some(summary)) => Some(
            findings_section(count, details) + "\n\n"@ + summary,
        ),
        (Some(count), None) => Some(findings_section(count, details)),
        (None, Some(summary)) => Some(summary),
        (None, None) => None,
    }
}

/// The texts of a value that is no answer: its own text, or the texts in it where it is JSON
/// that has any; those of its elements; or the longest of those of its entries, of two equally
/// long ones the later.
pub open spec fn leaf_text(value: JsonView) -> Option<Seq<char>>
    decreases longest_text(value), size(value), 1nat,
{
    match value {
        JsonView::Text(text) => match json_of(text) {
            Some(nested) => if nested is Bool || nested is Number || nested is Null
                || longest_text(nested) >= text.len() {
                non_blank(Some(text))
            } else {
                leaf_text(nested)
            },
            None => non_blank(Some(text)),
        },
        JsonView::Array(values) => {
            let texts = leaf_texts(values);
            if texts.len() > 0 {
                Some(joined(texts, "\n"@))
            } else {
                None
            }
        },
        JsonView::Object(entries) => longest_leaf(entries),
        _ => None,
    }
}

/// The texts of some values.
pub open spec fn leaf_texts(values: Seq<JsonView>) -> Seq<Seq<char>>
    decreases longest_in_values(values), size_of_values(values), 2nat,
{
    if values.len() == 0 {
        Seq::empty()
    } else {
        leaf_texts(values.drop_last()) + one(leaf_text(values.last()))
    }
}

/// The longest text of some entries.
pub open spec fn longest_leaf(entries: Seq<(Seq<char>, JsonView)>) -> Option<Seq<char>>
    decreases longest_in_entries(entries), size_of_entries(entries), 2nat,
{
    if entries.len() == 0 {
        None
    } else {
        longer(longest_leaf(entries.drop_last()), leaf_text(entries.last().1))
    }
}

/// The longer of two texts, of two equally long ones the second.
pub open spec fn longer(left: Option<Seq<char>>, right: Option<Seq<char>>) -> Option<Seq<char>> {
    match (left, right) {
        (Some(a), Some(b)) => if a.len() > b.len() {
            left
        } else {
            right
        },
        (None, _) => right,
        (_, None) => left,
    }
}

/// What a JSON value says to a person.
///
/// A text that is itself JSON says what that JSON says. Each text in a parsed value is
/// shorter than its source, so the condition on lengths, which makes the definition
/// well-founded, holds of every text.
pub open spec fn answer(value: JsonView) -> Option<Seq<char>>
    decreases longest_text(value), size(value), 2nat,
{
    match value {
        JsonView::Text(text) => text_answer(
            text,
            match first_parsed(candidates(trimmed(text))) {
                Some(nested) => if longest_text(nested) < text.len() {
                    answer(nested)
                } else {
                    None
                },
                None => None,
            },
        ),
        JsonView::Array(values) => array_answer(values.len(), findings(values), answers(values)),
        JsonView::Object(entries) => match review_answer(entries) {
            Some(answer) => Some(answer),
            None => match first_answer(entries, answer_keys()) {
                Some(answer) => Some(answer),
                None => if entries.len() == 1 {
                    answer(entries[0].1)
                } else if field(entries, "title"@) is Some || field(entries, "body"@) is Some {
                    finding(value, 0)
                } else {
                    leaf_text(value)
                },
            },
        },
        JsonView::Bool(flag) => Some(
            if flag {
                "true"@
            } else {
                "false"@
            },
        ),
        JsonView::Number { text, unsigned } => Some(text),
        JsonView::Null => None,
    }
}

/// What some values say, those left out that say nothing.
pub open spec fn answers(values: Seq<JsonView>) -> Seq<Seq<char>>
    decreases longest_in_values(values), size_of_values(values), 4nat,
{
    if values.len() == 0 {
        Seq::empty()
    } else {
        answers(values.drop_last()) + one(answer(values.last()))
    }
}

/// The findings among some values, numbered by their places.
pub open spec fn findings(values: Seq<JsonView>) -> Seq<Seq<char>>
    decreases longest_in_values(values), size_of_values(values), 4nat,
{
    if values.len() == 0 {
        Seq::empty()
    } else {
        findings(values.drop_last()) + one(finding(values.last(), (values.len() - 1) as nat))
    }
}

/// What an object says under the first of some keys that says anything.
pub open spec fn first_answer(
    entries: Seq<(Seq<char>, JsonView)>,
    keys: Seq<Seq<char>>,
) -> Option<Seq<char>>
    decreases longest_in_entries(entries), size_of_entries(entries), 3 + keys.len(),
{
    if keys.len() == 0 {
        None
    } else {
        proof {
            lemma_field_bounds(entries, keys[0]);
        }
        match field(entries, keys[0]) {
            Some(value) => match answer(value) {
                Some(text) => Some(text),
                None => first_answer(entries, keys.drop_first()),
            },
            None => first_answer(entries, keys.drop_first()),
        }
    }
}

/// What an object says as a review, where it has findings or a summary.
pub open spec fn review_answer(entries: Seq<(Seq<char>, JsonView)>) -> Option<Seq<char>>
    decreases longest_in_entries(entries), size_of_entries(entries), 20nat,
{
    proof {
        lemma_field_bounds(entries, "findings"@);
        lemma_field_bounds(entries, "overall_correctness"@);
    }
    let correctness = match field(entries, "overall_correctness"@) {
        Some(value) => answer(value),
        None => None,
    };
    let explanation = first_answer(entries, explanation_keys());
    match field(entries, "findings"@) {
        Some(JsonView::Array(values)) => review_text(
            Some(values.len()),
            findings(values),
            explanation,
            correctness,
        ),
        _ => review_text(None, Seq::empty(), explanation, correctness),
    }
}

/// What a value says as a finding with a place in a list.
pub open spec fn finding(value: JsonView, index: nat) -> Option<Seq<char>>
    decreases longest_text(value), size(value), 1nat,
{
    match value {
        JsonView::Text(_) => match leaf_text(value) {
            Some(text) => Some(list_mark(index) + text),
            None => None,
        },
        JsonView::Object(entries) => finding_text(
            index,
            first_answer(entries, title_keys()),
            first_answer(entries, body_keys()),
            match field(entries, "priority"@) {
                Some(value) => priority_text(value),
                None => None,
            },
            match field(entries, "code_location"@) {
                Some(value) => location_text(value),
                None => match field(entries, "location"@) {
                    Some(value) => location_text(value),
                    None => None,
                },
            },
        ),
        _ => None,
    }
}

/// Parses a text that is JSON and nothing besides.
pub fn parse_json_text(text: &str) -> (result: Option<Json>)
    ensures
        match result {
            Some(value) => {
                &&& json_of(text@) == Some(value@)
                &&& longest_text(value@) < text@.len()
            },
            None => json_of(text@) is None,
        },
{
    let whole = trim(text);
    match parse_json(whole) {
        Some(value) => Some(value),
        None => {
            proof {
                lemma_trimmed_length(whole@);
            }
            match fenced_json_body(whole) {
                Some(body) => parse_json(body),
                None => None,
            }
        },
    }
}

/// Chooses between a text and the answer nested in it.
pub fn format_text_answer(text: &str, nested: Option<String>) -> (result: Option<String>)
    ensures
        opt(result) == text_answer(text@, opt(nested)),
{
    let whole = trim(text);
    if whole.is_empty() {
        return None;
    }
    match nested {
        Some(answer) => Some(answer),
        None => {
            match parse_json_text(text) {
                None => Some(whole.to_owned()),
                Some(Json::Null) => Some(whole.to_owned()),
                Some(_) => None,
            }
        },
    }
}

/// Writes a review from its parts.
pub fn format_review(
    count: Option<usize>,
    details: &Vec<String>,
    explanation: Option<&str>,
    correctness: Option<&str>,
) -> (result: Option<String>)
    ensures
        opt(result) == review_text(
            match count {
                Some(count) => Some(count as nat),
                None => None,
            },
            views(details@),
            opt_str(explanation),
            opt_str(correctness),
        ),
{
    let mut summary: Option<String> = None;
    if let Some(explanation) = explanation {
        let mut section = "📝 Итог:\n\n".to_owned();
        section.append(explanation);
        summary = Some(section);
    } else if let Some(correctness) = correctness {
        let mut section = "📝 Итог: ".to_owned();
        section.append(correctness);
        summary = Some(section);
    }
    match count {
        None => summary,
        Some(count) => {
            let mut section = if count == 0 {
                "✅ Проблем не найдено.".to_owned()
            } else {
                let mut section = "⚠️ Найдено проблем: ".to_owned();
                section.append(decimal_text(count as u64).as_str());
                section.append(".");
                if details.len() > 0 {
                    section.append("\n\nПроблемы:\n\n");
                    section.append(join(details, "\n\n").as_str());
                }
                section
            };
            if let Some(summary) = summary {
                section.append("\n\n");
                section.append(summary.as_str());
            }
            Some(section)
        },
    }
}

/// Finds the text of a value that is no answer.
pub fn fallback_json_text(value: &Json) -> (result: Option<String>)
    ensures
        opt(result) == leaf_text(value@),
    decreases longest_text(value@), size(value@),
{
    match value {
        Json::Text(text) => {
            if let Some(nested) = parse_json_text(text.as_str()) {
                match &nested {
                    Json::Bool(_) => {},
                    Json::Number { text: _, unsigned: _ } => {},
                    Json::Null => {},
                    _ => {
                        return fallback_json_text(&nested);
                    },
                }
            }
            match keep_non_blank(Some(text.as_str())) {
                Some(text) => Some(text.to_owned()),
                None => None,
            }
        },
        Json::Array(values) => {
            let ghost all = json_views(values@);
            let mut texts: Vec<String> = Vec::new();
            let mut i: usize = 0;
            proof {
                lemma_json_views(values@);
                assert(views(texts@) =~= Seq::<Seq<char>>::empty());
            }
            while i < values.len()
                invariant
                    i <= values.len(),
                    all == json_views(values@),
                    all.len() == values@.len(),
                    size(value@) == 1 + size_of_values(all),
                    longest_text(value@) == longest_in_values(all),
                    views(texts@) == leaf_texts(all.take(i as int)),
                decreases values.len() - i,
            {
                proof {
                    lemma_json_views(values@);
                    lemma_element_bounds(all, i as int);
                    assert(all.take(i + 1).drop_last() =~= all.take(i as int));
                }
                let text = fallback_json_text(&values[i]);
                push_some(&mut texts, text);
                i = i + 1;
            }
            proof {
                assert(all.take(all.len() as int) == all);
                assert(views(texts@).len() == texts@.len());
            }
            if texts.len() > 0 {
                Some(join(&texts, "\n"))
            } else {
                None
            }
        },
        Json::Object(entries) => {
            let ghost all = entry_views(entries@);
            let mut longest: Option<String> = None;
            let mut i: usize = 0;
            proof {
                lemma_entry_views(entries@);
            }
            while i < entries.len()
                invariant
                    i <= entries.len(),
                    all == entry_views(entries@),
                    all.len() == entries@.len(),
                    size(value@) == 1 + size_of_entries(all),
                    longest_text(value@) == longest_in_entries(all),
                    opt(longest) == longest_leaf(all.take(i as int)),
                decreases entries.len() - i,
            {
                proof {
                    lemma_entry_views(entries@);
                    lemma_entry_bounds(all, i as int);
                    assert(all.take(i + 1).drop_last() =~= all.take(i as int));
                }
                let text = fallback_json_text(&entries[i].1);
                longest = match (longest, text) {
                    (Some(left), Some(right)) => if left.as_str().unicode_len()
                        > right.as_str().unicode_len() {
                        Some(left)
                    } else {
                        Some(right)
                    },
                    (None, right) => right,
                    (left, None) => left,
                };
                i = i + 1;
            }
            proof {
                assert(all.take(all.len() as int) == all);
            }
            longest
        },
        _ => None,
    }
}

/// Reads what a JSON value says to a person.
pub fn format_json_answer(value: &Json) -> (result: Option<String>)
    ensures
        opt(result) == answer(value@),
    decreases longest_text(value@), size(value@), 2nat,
{
    match value {
        Json::Text(text) => {
            let mut nested: Option<String> = None;
            let bare = trim(text.as_str());
            proof {
                lemma_trimmed_length(bare@);
            }
            if let Some(inner) = parse_json_answer(bare) {
                nested = format_json_answer(&inner);
            }
            format_text_answer(text.as_str(), nested)
        },
        Json::Array(values) => {
            proof {
                lemma_json_views(values@);
            }
            let findings = format_findings(values);
            if findings.len() == values.len() && findings.len() > 0 {
                return Some(join(&findings, "\n\n"));
            }
            let answers = format_answers(values);
            if answers.len() > 0 {
                return Some(join(&answers, "\n"));
            }
            if findings.len() > 0 {
                Some(join(&findings, "\n\n"))
            } else {
                None
            }
        },
        Json::Object(entries) => {
            proof {
                lemma_entry_views(entries@);
            }
            if let Some(answer) = format_json_review_answer(entries) {
                return Some(answer);
            }
            let keys = vec![
                "answer", "response", "message", "text", "output_text", "content", "result",
                "output", "data", "choices", "overall_explanation", "explanation", "summary",
            ];
            proof {
                assert(key_views(keys@) =~= answer_keys());
            }
            if let Some(answer) = find_answer(entries, &keys) {
                return Some(answer);
            }
            if entries.len() == 1 {
                proof {
                    lemma_entry_bounds(entry_views(entries@), 0);
                }
                return format_json_answer(&entries[0].1);
            }
            if get(entries, "title").is_some() || get(entries, "body").is_some() {
                return format_json_finding(value, 0);
            }
            fallback_json_text(value)
        },
        Json::Bool(flag) => if *flag {
            Some("true".to_owned())
        } else {
            Some("false".to_owned())
        },
        Json::Number { text, unsigned: _ } => Some(text.clone()),
        Json::Null => None,
    }
}

/// Reads what some values say.
fn format_answers(values: &Vec<Json>) -> (result: Vec<String>)
    ensures
        views(result@) == answers(json_views(values@)),
        result@.len() == answers(json_views(values@)).len(),
    decreases longest_in_values(json_views(values@)), size_of_values(json_views(values@)), 4nat,
{
    let ghost all = json_views(values@);
    let mut result: Vec<String> = Vec::new();
    let mut i: usize = 0;
    proof {
        lemma_json_views(values@);
        assert(views(result@) =~= Seq::<Seq<char>>::empty());
    }
    while i < values.len()
        invariant
            i <= values.len(),
            all == json_views(values@),
            all.len() == values@.len(),
            views(result@) == answers(all.take(i as int)),
        decreases values.len() - i,
    {
        proof {
            lemma_json_views(values@);
            lemma_element_bounds(all, i as int);
            assert(all.take(i + 1).drop_last() =~= all.take(i as int));
        }
        let answer = format_json_answer(&values[i]);
        push_some(&mut result, answer);
        i = i + 1;
    }
    proof {
        assert(all.take(all.len() as int) == all);
        assert(views(result@).len() == result@.len());
    }
    result
}

/// Reads the findings among some values.
fn format_findings(values: &Vec<Json>) -> (result: Vec<String>)
    ensures
        views(result@) == findings(json_views(values@)),
        result@.len() == findings(json_views(values@)).len(),
    decreases longest_in_values(json_views(values@)), size_of_values(json_views(values@)), 4nat,
{
    let ghost all = json_views(values@);
    let mut result: Vec<String> = Vec::new();
    let mut i: usize = 0;
    proof {
        lemma_json_views(values@);
        assert(views(result@) =~= Seq::<Seq<char>>::empty());
    }
    while i < values.len()
        invariant
            i <= values.len(),
            all == json_views(values@),
            all.len() == values@.len(),
            views(result@) == findings(all.take(i as int)),
        decreases values.len() - i,
    {
        proof {
            lemma_json_views(values@);
            lemma_element_bounds(all, i as int);
            assert(all.take(i + 1).drop_last() =~= all.take(i as int));
        }
        let finding = format_json_finding(&values[i], i);
        push_some(&mut result, finding);
        i = i + 1;
    }
    proof {
        assert(all.take(all.len() as int) == all);
        assert(views(result@).len() == result@.len());
    }
    result
}

/// Reads what an object says under the first of some keys that says anything.
fn find_answer(entries: &Vec<(String, Json)>, keys: &Vec<&str>) -> (result: Option<String>)
    ensures
        opt(result) == first_answer(entry_views(entries@), key_views(keys@)),
    decreases
            longest_in_entries(entry_views(entries@)),
            size_of_entries(entry_views(entries@)),
            3nat,
{
    let ghost all = key_views(keys@);
    let mut i: usize = 0;
    proof {
        assert(all.skip(0) == all);
    }
    while i < keys.len()
        invariant
            i <= keys.len(),
            all == key_views(keys@),
            first_answer(entry_views(entries@), all) == first_answer(
                entry_views(entries@),
                all.skip(i as int),
            ),
        decreases keys.len() - i,
    {
        proof {
            assert(all.skip(i as int)[0] == keys@[i as int]@);
            assert(all.skip(i as int).drop_first() =~= all.skip(i + 1));
            lemma_field_bounds(entry_views(entries@), keys@[i as int]@);
        }
        if let Some(value) = get(entries, keys[i]) {
            if let Some(answer) = format_json_answer(value) {
                return Some(answer);
            }
        }
        i = i + 1;
    }
    None
}

/// Reads what an object says as a review.
pub fn format_json_review_answer(entries: &Vec<(String, Json)>) -> (result: Option<String>)
    ensures
        opt(result) == review_answer(entry_views(entries@)),
    decreases
            longest_in_entries(entry_views(entries@)),
            size_of_entries(entry_views(entries@)),
            20nat,
{
    proof {
        lemma_field_bounds(entry_views(entries@), "findings"@);
        lemma_field_bounds(entry_views(entries@), "overall_correctness"@);
    }
    let keys = vec![
        "overall_explanation", "explanation", "summary", "answer", "response", "message",
    ];
    proof {
        assert(key_views(keys@) =~= explanation_keys());
    }
    let explanation = find_answer(entries, &keys);
    let correctness = match get(entries, "overall_correctness") {
        Some(value) => format_json_answer(value),
        None => None,
    };
    let mut count: Option<usize> = None;
    let mut details: Vec<String> = Vec::new();
    proof {
        assert(views(details@) =~= Seq::<Seq<char>>::empty());
    }
    if let Some(Json::Array(values)) = get(entries, "findings") {
        proof {
            lemma_json_views(values@);
        }
        count = Some(values.len());
        details = format_findings(values);
    }
    format_review(count, &details, as_deref(&explanation), as_deref(&correctness))
}

/// Reads what a value says as a finding.
pub fn format_json_finding(value: &Json, index: usize) -> (result: Option<String>)
    requires
        index < usize::MAX,
    ensures
        opt(result) == finding(value@, index as nat),
    decreases longest_text(value@), size(value@), 1nat,
{
    match value {
        Json::Text(_) => match fallback_json_text(value) {
            Some(text) => {
                let mut output = decimal_text((index + 1) as u64);
                output.append(". ");
                output.append(text.as_str());
                Some(output)
            },
            None => None,
        },
        Json::Object(entries) => {
            let title_names = vec!["title", "name", "summary"];
            let body_names = vec!["body", "description", "details", "message", "explanation"];
            proof {
                assert(key_views(title_names@) =~= title_keys());
                assert(key_views(body_names@) =~= body_keys());
            }
            let title = find_answer(entries, &title_names);
            let body = find_answer(entries, &body_names);
            let priority = match get(entries, "priority") {
                Some(value) => format_json_priority(value),
                None => None,
            };
            let location = match get(entries, "code_location") {
                Some(value) => format_json_location(value),
                None => match get(entries, "location") {
                    Some(value) => format_json_location(value),
                    None => None,
                },
            };
            format_finding(
                index,
                as_deref(&title),
                as_deref(&body),
                as_deref(&priority),
                as_deref(&location),
            )
        },
        _ => None,
    }
}

/// The answer in an assistant message, where there is one: a blank message has none, a
/// message that is not JSON is its own answer.
pub open spec fn assistant_answer(message: Seq<char>) -> Option<Seq<char>> {
    let whole = trimmed(message);
    if whole.len() == 0 {
        None
    } else {
        match first_parsed(candidates(whole)) {
            Some(value) => answer(value),
            None => Some(whole),
        }
    }
}

/// Finds the answer in an assistant message.
pub fn extract_assistant_answer(message: &str) -> (result: Option<String>)
    ensures
        opt(result) == assistant_answer(message@),
{
    let whole = trim(message);
    if whole.is_empty() {
        return None;
    }
    match parse_json_answer(whole) {
        Some(value) => format_json_answer(&value),
        None => Some(whole.to_owned()),
    }
}

/// A message that is JSON as a whole is answered by what the JSON says; only a message in which
/// no JSON is found is answered by itself.
pub proof fn law_json_is_interpreted(message: Seq<char>)
    requires
        trimmed(message).len() > 0,
    ensures
        parsed_json(trimmed(message)) matches Some(value) ==> assistant_answer(message) == answer(
            value,
        ),
        (forall|i: int|
            0 <= i < candidates(trimmed(message)).len() ==> parsed_json(
                #[trigger] candidates(trimmed(message))[i],
            ) is None) ==> assistant_answer(message) == Some(trimmed(message)),
{
    let whole = trimmed(message);
    let texts = candidates(whole);
    lemma_trimmed_idempotent(message);
    assert(texts[0] == whole);
    if forall|i: int| 0 <= i < texts.len() ==> parsed_json(#[trigger] texts[i]) is None {
        lemma_none_parsed(texts);
    }
}

/// Where none of some texts is JSON, no first one is.
proof fn lemma_none_parsed(texts: Seq<Seq<char>>)
    requires
        forall|i: int| 0 <= i < texts.len() ==> parsed_json(#[trigger] texts[i]) is None,
    ensures
        first_parsed(texts) is None,
    decreases texts.len(),
{
    if texts.len() > 0 {
        let rest = texts.drop_first();
        assert forall|i: int| 0 <= i < rest.len() implies parsed_json(
            #[trigger] rest[i],
        ) is None by {
            assert(rest[i] == texts[i + 1]);
        }
        lemma_none_parsed(rest);
    }
}

/// An envelope that is not known is reduced to the texts in it.
pub proof fn law_unknown_envelope_is_reduced(entries: Seq<(Seq<char>, JsonView)>)
    requires
        entries.len() != 1,
        review_answer(entries) is None,
        first_answer(entries, answer_keys()) is None,
        field(entries, "title"@) is None,
        field(entries, "body"@) is None,
    ensures
        answer(JsonView::Object(entries)) == longest_leaf(entries),
{
}

/// The JSON that a text is, is the first that is found in it.
proof fn lemma_json_is_found_first(text: Seq<char>)
    ensures
        json_of(text) is Some ==> first_parsed(candidates(trimmed(text))) == json_of(text),
{
    let whole = trimmed(text);
    let texts = candidates(whole);
    lemma_trimmed_idempotent(text);
    reveal_with_fuel(first_parsed, 2);
    assert(texts[0] == whole);
    if let Some(body) = fenced_body(whole) {
        assert(texts.drop_first()[0] == body);
    }
}

/// A string that is JSON other than `null` says what that JSON says, and nothing where that says
/// nothing: the JSON itself is not passed on.
pub proof fn law_string_of_json_says_what_the_json_says(text: Seq<char>, value: JsonView)
    requires
        trimmed(text).len() > 0,
        json_of(text) == Some(value),
        longest_text(value) < text.len(),
        value !is Null,
    ensures
        answer(JsonView::Text(text)) == answer(value),
{
    lemma_json_is_found_first(text);
}

/// A string that reads `null` is passed on like any other word, as an answer and among the texts
/// of other JSON.
pub proof fn law_null_is_a_word(text: Seq<char>)
    requires
        trimmed(text).len() > 0,
        json_of(text) == Some(JsonView::Null),
    ensures
        answer(JsonView::Text(text)) == Some(trimmed(text)),
        leaf_text(JsonView::Text(text)) == Some(trimmed(text)),
{
    lemma_json_is_found_first(text);
    assert(answer(JsonView::Null) is None);
}

/// A string that is a JSON object, array or string shows the texts in that JSON, and none where
/// there are none: the JSON itself is not shown.
pub proof fn law_string_of_json_shows_its_texts(text: Seq<char>, value: JsonView)
    requires
        json_of(text) == Some(value),
        longest_text(value) < text.len(),
        value is Object || value is Array || value is Text,
    ensures
        leaf_text(JsonView::Text(text)) == leaf_text(value),
{
}

/// The characters that no notification needs to show of JSON: its braces and quotation marks.
pub open spec fn is_plain_char() -> spec_fn(char) -> bool {
    |c: char| c != '{' && c != '}' && c != '"'
}

/// Whether a text has no braces and no quotation marks.
pub open spec fn plain(s: Seq<char>) -> bool {
    all_allowed(s, is_plain_char())
}

/// Whether an optional text has no braces and no quotation marks.
pub open spec fn opt_plain(s: Option<Seq<char>>) -> bool {
    s matches Some(s) ==> plain(s)
}

/// Whether some texts have no braces and no quotation marks.
pub open spec fn all_plain(texts: Seq<Seq<char>>) -> bool {
    forall|i: int| 0 <= i < texts.len() ==> plain(#[trigger] texts[i])
}

/// Whether no text and no number in a value has braces or quotation marks, nor any in the JSON
/// that a text holds.
pub open spec fn says_plainly(value: JsonView) -> bool
    decreases longest_text(value), size(value), 1nat,
{
    match value {
        JsonView::Text(text) => {
            &&& plain(text)
            &&& match first_parsed(candidates(trimmed(text))) {
                Some(nested) => longest_text(nested) < text.len() ==> says_plainly(nested),
                None => true,
            }
        },
        JsonView::Number { text, unsigned } => plain(text),
        JsonView::Array(values) => values_say_plainly(values),
        JsonView::Object(entries) => entries_say_plainly(entries),
        _ => true,
    }
}

/// Whether some values say plainly what they say.
pub open spec fn values_say_plainly(values: Seq<JsonView>) -> bool
    decreases longest_in_values(values), size_of_values(values), 2nat,
{
    if values.len() == 0 {
        true
    } else {
        values_say_plainly(values.drop_last()) && says_plainly(values.last())
    }
}

/// Whether the values of some entries say plainly what they say.
pub open spec fn entries_say_plainly(entries: Seq<(Seq<char>, JsonView)>) -> bool
    decreases longest_in_entries(entries), size_of_entries(entries), 2nat,
{
    if entries.len() == 0 {
        true
    } else {
        entries_say_plainly(entries.drop_last()) && says_plainly(entries.last().1)
    }
}

/// Two plain texts in one are plain.
proof fn lemma_plain_sum(left: Seq<char>, right: Seq<char>)
    requires
        plain(left),
        plain(right),
    ensures
        plain(left + right),
{
    let allowed = is_plain_char();
    assert forall|i: int| 0 <= i < (left + right).len() implies allowed(
        #[trigger] (left + right)[i],
    ) by {
        if i < left.len() {
            assert(allowed(left[i]));
        } else {
            assert(allowed(right[i - left.len()]));
        }
    }
}

/// A plain text with a plain part added is plain.
proof fn lemma_plain_part(s: Seq<char>, lead: Seq<char>, part: Option<Seq<char>>)
    requires
        plain(s),
        plain(lead),
        opt_plain(part),
    ensures
        plain(with_part(s, lead, part)),
{
    if let Some(part) = part {
        lemma_plain_sum(s, lead);
        lemma_plain_sum(s + lead, part);
    }
}

/// A plain text trimmed is plain.
proof fn lemma_plain_trimmed(s: Seq<char>)
    requires
        plain(s),
    ensures
        plain(trimmed(s)),
{
    lemma_trimmed_allowed(s, is_plain_char());
}

/// Decimal notation is plain.
proof fn lemma_plain_decimal(value: nat)
    ensures
        plain(decimal(value)),
{
    let allowed = is_plain_char();
    lemma_decimal_denotes(value);
    assert forall|i: int| 0 <= i < decimal(value).len() implies allowed(
        #[trigger] decimal(value)[i],
    ) by {
        assert(is_digit(decimal(value)[i]));
    }
}

/// The short texts that answers are put together with are plain.
proof fn lemma_plain_marks()
    ensures
        plain(". "@),
        plain("\n"@),
        plain("\n\n"@),
        plain("\n📍 "@),
        plain("["@),
        plain("] "@),
        plain("P"@),
        plain(":"@),
        plain("-"@),
        plain("."@),
        plain("true"@),
        plain("false"@),
{
    reveal_strlit(". ");
    reveal_strlit("\n");
    reveal_strlit("\n\n");
    reveal_strlit("\n📍 ");
    reveal_strlit("[");
    reveal_strlit("] ");
    reveal_strlit("P");
    reveal_strlit(":");
    reveal_strlit("-");
    reveal_strlit(".");
    reveal_strlit("true");
    reveal_strlit("false");
}

/// The words that answers are put together with are plain.
proof fn lemma_plain_words()
    ensures
        plain("строка"@),
        plain("Замечание"@),
        plain("✅ Проблем не найдено."@),
        plain("⚠️ Найдено проблем: "@),
        plain("\n\nПроблемы:\n\n"@),
        plain("📝 Итог:\n\n"@),
        plain("📝 Итог: "@),
{
    reveal_strlit("строка");
    reveal_strlit("Замечание");
    reveal_strlit("✅ Проблем не найдено.");
    reveal_strlit("⚠️ Найдено проблем: ");
    reveal_strlit("\n\nПроблемы:\n\n");
    reveal_strlit("📝 Итог:\n\n");
    reveal_strlit("📝 Итог: ");
}

/// A priority from a plain value is plain.
proof fn lemma_plain_priority(value: JsonView)
    requires
        says_plainly(value),
    ensures
        opt_plain(priority_text(value)),
{
    lemma_plain_marks();
    match value {
        JsonView::Number { text, unsigned: Some(priority) } => {
            lemma_plain_decimal(priority as nat);
            lemma_plain_sum("P"@, decimal(priority as nat));
        },
        JsonView::Text(text) => {
            lemma_plain_trimmed(text);
            if let Some(rest) = priority_text(value) {
                let bare = rest.skip("P"@.len() as int);
                reveal_strlit("P");
                assert(rest =~= "P"@ + bare);
                lemma_plain_sum("P"@, bare);
            }
        },
        _ => {},
    }
}

/// The first text under some keys of a plain object is plain.
proof fn lemma_plain_first_text(entries: Seq<(Seq<char>, JsonView)>, keys: Seq<Seq<char>>)
    requires
        entries_say_plainly(entries),
    ensures
        opt_plain(first_text(entries, keys)),
    decreases keys.len(),
{
    if keys.len() > 0 {
        lemma_plain_field(entries, keys[0]);
        lemma_plain_first_text(entries, keys.drop_first());
    }
}

/// What a plain object has under a key is plain.
proof fn lemma_plain_field(entries: Seq<(Seq<char>, JsonView)>, key: Seq<char>)
    requires
        entries_say_plainly(entries),
    ensures
        field(entries, key) matches Some(value) ==> says_plainly(value),
    decreases entries.len(),
{
    if entries.len() > 0 {
        lemma_plain_field(entries.drop_last(), key);
    }
}

/// The last value of plain entries is plain.
proof fn lemma_plain_last_entry(entries: Seq<(Seq<char>, JsonView)>)
    requires
        entries_say_plainly(entries),
        entries.len() > 0,
    ensures
        says_plainly(entries[entries.len() - 1].1),
{
}

/// A place in a plain file is plain.
proof fn lemma_plain_place(path: Option<Seq<char>>, start: Option<usize>, end: Option<usize>)
    requires
        opt_plain(path),
    ensures
        opt_plain(place_text(path, start, end)),
{
    lemma_plain_marks();
    lemma_plain_words();
    let file = match path {
        Some(path) => path,
        None => "строка"@,
    };
    if let Some(start) = start {
        lemma_plain_decimal(start as nat);
    }
    if let Some(end) = end {
        lemma_plain_decimal(end as nat);
    }
    let opened = with_part(file, ":"@, decimal_of(start));
    lemma_plain_part(file, ":"@, decimal_of(start));
    lemma_plain_part(opened, "-"@, decimal_of(later(start, end)));
}

/// A location from a plain value is plain.
proof fn lemma_plain_location(value: JsonView)
    requires
        says_plainly(value),
    ensures
        opt_plain(location_text(value)),
{
    if let JsonView::Object(entries) = value {
        lemma_plain_first_text(entries, path_keys());
        if let Some(path) = first_text(entries, path_keys()) {
            lemma_plain_trimmed(path);
        }
        let path = non_blank(first_text(entries, path_keys()));
        assert forall|start: Option<usize>, end: Option<usize>| opt_plain(
            #[trigger] place_text(path, start, end),
        ) by {
            lemma_plain_place(path, start, end);
        }
    }
}

/// A finding of plain parts is plain.
proof fn lemma_plain_finding_text(
    index: nat,
    title: Option<Seq<char>>,
    body: Option<Seq<char>>,
    priority: Option<Seq<char>>,
    location: Option<Seq<char>>,
)
    requires
        opt_plain(title),
        opt_plain(body),
        opt_plain(priority),
        opt_plain(location),
    ensures
        opt_plain(finding_text(index, title, body, priority, location)),
{
    lemma_plain_marks();
    lemma_plain_words();
    lemma_plain_mark(index);
    let name = match title {
        Some(title) => title,
        None => "Замечание"@,
    };
    if let Some(priority) = priority {
        lemma_plain_sum("["@, priority);
        lemma_plain_sum("["@ + priority, "] "@);
        lemma_plain_sum("["@ + priority + "] "@, name);
    }
    let label = match priority {
        Some(priority) if !begins(name, "[P"@) => "["@ + priority + "] "@ + name,
        _ => name,
    };
    let titled = list_mark(index) + label;
    lemma_plain_sum(list_mark(index), label);
    lemma_plain_part(titled, "\n"@, body);
    lemma_plain_part(with_part(titled, "\n"@, body), "\n📍 "@, location);
}

/// The mark of a place in a list is plain.
proof fn lemma_plain_mark(index: nat)
    ensures
        plain(list_mark(index)),
{
    lemma_plain_marks();
    lemma_plain_decimal(index + 1);
    lemma_plain_sum(decimal(index + 1), ". "@);
}

/// Plain texts in one are plain.
proof fn lemma_plain_joined(parts: Seq<Seq<char>>, separator: Seq<char>)
    requires
        all_plain(parts),
        plain(separator),
    ensures
        plain(joined(parts, separator)),
{
    lemma_joined_allowed(parts, separator, is_plain_char());
}

/// A review of plain parts is plain.
proof fn lemma_plain_review_text(
    count: Option<nat>,
    details: Seq<Seq<char>>,
    explanation: Option<Seq<char>>,
    correctness: Option<Seq<char>>,
)
    requires
        all_plain(details),
        opt_plain(explanation),
        opt_plain(correctness),
    ensures
        opt_plain(review_text(count, details, explanation, correctness)),
{
    lemma_plain_marks();
    lemma_plain_words();
    if let Some(explanation) = explanation {
        lemma_plain_sum("📝 Итог:\n\n"@, explanation);
    }
    if let Some(correctness) = correctness {
        lemma_plain_sum("📝 Итог: "@, correctness);
    }
    let summary = summary_section(explanation, correctness);
    assert(opt_plain(summary));
    if let Some(count) = count {
        let counted = "⚠️ Найдено проблем: "@ + decimal(count);
        lemma_plain_decimal(count);
        lemma_plain_sum("⚠️ Найдено проблем: "@, decimal(count));
        lemma_plain_sum(counted, "."@);
        lemma_plain_joined(details, "\n\n"@);
        let opened = counted + "."@ + "\n\nПроблемы:\n\n"@;
        lemma_plain_sum(counted + "."@, "\n\nПроблемы:\n\n"@);
        lemma_plain_sum(opened, joined(details, "\n\n"@));
        let section = findings_section(count, details);
        assert(plain(section));
        lemma_plain_sum(section, "\n\n"@);
        if let Some(summary) = summary {
            lemma_plain_sum(section + "\n\n"@, summary);
        }
    }
}

/// The texts of a plain value are plain.
proof fn lemma_plain_leaf(value: JsonView)
    requires
        says_plainly(value),
    ensures
        opt_plain(leaf_text(value)),
    decreases longest_text(value), size(value), 1nat,
{
    lemma_plain_marks();
    match value {
        JsonView::Text(text) => {
            lemma_plain_trimmed(text);
            lemma_json_is_found_first(text);
            if let Some(nested) = json_of(text) {
                if longest_text(nested) < text.len() {
                    lemma_plain_leaf(nested);
                }
            }
        },
        JsonView::Array(values) => {
            lemma_plain_leaves(values);
            lemma_plain_joined(leaf_texts(values), "\n"@);
        },
        JsonView::Object(entries) => {
            lemma_plain_longest_leaf(entries);
        },
        _ => {},
    }
}

/// The texts of plain values are plain.
proof fn lemma_plain_leaves(values: Seq<JsonView>)
    requires
        values_say_plainly(values),
    ensures
        all_plain(leaf_texts(values)),
    decreases longest_in_values(values), size_of_values(values), 2nat,
{
    if values.len() > 0 {
        lemma_plain_leaves(values.drop_last());
        lemma_plain_leaf(values.last());
    }
}

/// The longest text of plain entries is plain.
proof fn lemma_plain_longest_leaf(entries: Seq<(Seq<char>, JsonView)>)
    requires
        entries_say_plainly(entries),
    ensures
        opt_plain(longest_leaf(entries)),
    decreases longest_in_entries(entries), size_of_entries(entries), 2nat,
{
    if entries.len() > 0 {
        lemma_plain_longest_leaf(entries.drop_last());
        lemma_plain_leaf(entries.last().1);
    }
}

/// What a plain value says is plain.
proof fn lemma_plain_answer(value: JsonView)
    requires
        says_plainly(value),
    ensures
        opt_plain(answer(value)),
    decreases longest_text(value), size(value), 2nat,
{
    lemma_plain_marks();
    match value {
        JsonView::Text(text) => {
            lemma_plain_trimmed(text);
            if let Some(nested) = first_parsed(candidates(trimmed(text))) {
                if longest_text(nested) < text.len() {
                    lemma_plain_answer(nested);
                }
            }
        },
        JsonView::Array(values) => {
            lemma_plain_answers(values);
            lemma_plain_findings(values);
            lemma_plain_joined(findings(values), "\n\n"@);
            lemma_plain_joined(answers(values), "\n"@);
        },
        JsonView::Object(entries) => {
            lemma_plain_review(entries);
            lemma_plain_first_answer(entries, answer_keys());
            if entries.len() == 1 {
                lemma_entry_bounds(entries, 0);
                lemma_plain_last_entry(entries);
                lemma_plain_answer(entries[0].1);
            }
            lemma_plain_finding(value, 0);
            lemma_plain_leaf(value);
        },
        _ => {},
    }
}

/// What plain values say is plain.
proof fn lemma_plain_answers(values: Seq<JsonView>)
    requires
        values_say_plainly(values),
    ensures
        all_plain(answers(values)),
    decreases longest_in_values(values), size_of_values(values), 4nat,
{
    if values.len() > 0 {
        lemma_plain_answers(values.drop_last());
        lemma_plain_answer(values.last());
    }
}

/// The findings among plain values are plain.
proof fn lemma_plain_findings(values: Seq<JsonView>)
    requires
        values_say_plainly(values),
    ensures
        all_plain(findings(values)),
    decreases longest_in_values(values), size_of_values(values), 4nat,
{
    if values.len() > 0 {
        lemma_plain_findings(values.drop_last());
        lemma_plain_finding(values.last(), (values.len() - 1) as nat);
    }
}

/// What a plain object says under some keys is plain.
proof fn lemma_plain_first_answer(entries: Seq<(Seq<char>, JsonView)>, keys: Seq<Seq<char>>)
    requires
        entries_say_plainly(entries),
    ensures
        opt_plain(first_answer(entries, keys)),
    decreases longest_in_entries(entries), size_of_entries(entries), 3 + keys.len(),
{
    if keys.len() > 0 {
        lemma_field_bounds(entries, keys[0]);
        lemma_plain_field(entries, keys[0]);
        if let Some(value) = field(entries, keys[0]) {
            lemma_plain_answer(value);
        }
        lemma_plain_first_answer(entries, keys.drop_first());
    }
}

/// What a plain object says as a review is plain.
proof fn lemma_plain_review(entries: Seq<(Seq<char>, JsonView)>)
    requires
        entries_say_plainly(entries),
    ensures
        opt_plain(review_answer(entries)),
    decreases longest_in_entries(entries), size_of_entries(entries), 20nat,
{
    lemma_field_bounds(entries, "findings"@);
    lemma_field_bounds(entries, "overall_correctness"@);
    lemma_plain_field(entries, "findings"@);
    lemma_plain_field(entries, "overall_correctness"@);
    let correctness = match field(entries, "overall_correctness"@) {
        Some(value) => answer(value),
        None => None,
    };
    if let Some(value) = field(entries, "overall_correctness"@) {
        lemma_plain_answer(value);
    }
    lemma_plain_first_answer(entries, explanation_keys());
    let explanation = first_answer(entries, explanation_keys());
    match field(entries, "findings"@) {
        Some(JsonView::Array(values)) => {
            lemma_plain_findings(values);
            lemma_plain_review_text(
                Some(values.len()),
                findings(values),
                explanation,
                correctness,
            );
        },
        _ => {
            lemma_plain_review_text(None, Seq::empty(), explanation, correctness);
        },
    }
}

/// What a plain value says as a finding is plain.
proof fn lemma_plain_finding(value: JsonView, index: nat)
    requires
        says_plainly(value),
    ensures
        opt_plain(finding(value, index)),
    decreases longest_text(value), size(value), 1nat,
{
    match value {
        JsonView::Text(_) => {
            lemma_plain_leaf(value);
            lemma_plain_mark(index);
            if let Some(text) = leaf_text(value) {
                lemma_plain_sum(list_mark(index), text);
            }
        },
        JsonView::Object(entries) => {
            lemma_plain_first_answer(entries, title_keys());
            lemma_plain_first_answer(entries, body_keys());
            lemma_plain_field(entries, "priority"@);
            lemma_plain_field(entries, "code_location"@);
            lemma_plain_field(entries, "location"@);
            let priority = match field(entries, "priority"@) {
                Some(value) => priority_text(value),
                None => None,
            };
            if let Some(value) = field(entries, "priority"@) {
                lemma_plain_priority(value);
            }
            if let Some(value) = field(entries, "code_location"@) {
                lemma_plain_location(value);
            }
            if let Some(value) = field(entries, "location"@) {
                lemma_plain_location(value);
            }
            let location = match field(entries, "code_location"@) {
                Some(value) => location_text(value),
                None => match field(entries, "location"@) {
                    Some(value) => location_text(value),
                    None => None,
                },
            };
            lemma_plain_finding_text(
                index,
                first_answer(entries, title_keys()),
                first_answer(entries, body_keys()),
                priority,
                location,
            );
        },
        _ => {},
    }
}

/// The answer to a message in which JSON is found has no braces and no quotation marks, unless a
/// text or number in that JSON has some: what JSON adds to the texts in it is not sent.
pub proof fn law_answer_is_no_json(message: Seq<char>, value: JsonView)
    requires
        first_parsed(candidates(trimmed(message))) == Some(value),
        says_plainly(value),
    ensures
        assistant_answer(message) matches Some(text) ==> plain(text),
{
    lemma_plain_answer(value);
}

/// A message that stands in a code fence is taken out of it: a first line that reads `json` in
/// any letter case, or these letters right at the front, are left out too.
pub proof fn law_fence_is_taken_off(message: Seq<char>, inner: Seq<char>)
    requires
        trimmed(message) == "```"@ + inner + "```"@,
    ensures
        fenced_body(message) == match split_at_char(trimmed(inner), '\n') {
            Some((language, contents)) if lowered(trimmed(language)) == "json"@ => Some(
                trimmed(contents),
            ),
            _ => match after_prefix(trimmed(inner), "json"@) {
                Some(rest) => Some(trimmed(rest)),
                None => Some(trimmed(inner)),
            },
        },
{
    let whole = trimmed(message);
    reveal_strlit("json");
    assert(lowered("json"@) =~= "json"@);
    assert(whole =~= "```"@ + (inner + "```"@));
    law_parts_are_taken_off(whole, "```"@, inner + "```"@);
    law_parts_are_taken_off(inner + "```"@, "```"@, inner);
}

/// Only a message that begins and ends with three backticks stands in a code fence.
pub proof fn law_fence_has_two_ends(message: Seq<char>)
    ensures
        fenced_body(message) is None <==> forall|inner: Seq<char>|
            trimmed(message) != #[trigger] ("```"@ + inner + "```"@),
{
    let whole = trimmed(message);
    if fenced_body(message) is None {
        assert forall|inner: Seq<char>| whole != #[trigger] ("```"@ + inner + "```"@) by {
            if whole == "```"@ + inner + "```"@ {
                law_fence_is_taken_off(message, inner);
            }
        }
    } else {
        let rest = after_prefix(whole, "```"@)->0;
        let inner = before_suffix(rest, "```"@)->0;
        law_parts_are_taken_off(whole, "```"@, rest);
        law_parts_are_taken_off(rest, "```"@, inner);
        assert(whole =~= "```"@ + inner + "```"@);
    }
}

/// What stands in brackets goes from the first that opens to the last that closes, and there is
/// such a part wherever one that opens stands before one that closes.
pub proof fn law_brackets_reach_far(message: Seq<char>, opening: char, closing: char)
    ensures
        match bracketed(message, opening, closing) {
            Some(part) => exists|i: int, j: int|
                0 <= i <= j < message.len() && #[trigger] message.subrange(i, j + 1) == part
                    && message[i] == opening && message[j] == closing && (forall|k: int|
                    0 <= k < i ==> #[trigger] message[k] != opening) && (forall|k: int|
                    j < k < message.len() ==> #[trigger] message[k] != closing),
            None => forall|i: int, j: int|
                0 <= i <= j < message.len() ==> !(#[trigger] message[i] == opening
                    && #[trigger] message[j] == closing),
        },
{
    law_first_position(message, opening);
    law_last_position(message, closing);
    if let Some(part) = bracketed(message, opening, closing) {
        let i = position(message, opening)->0 as int;
        let j = last_position(message, closing)->0 as int;
        assert(message.subrange(i, j + 1) == part);
    }
}

/// The answer to a message is what the JSON in it says: the whole message as JSON, else what a
/// code fence holds, else what stands in braces, else what stands in square brackets, whichever
/// of these is JSON first. A message without JSON is its own answer, and a blank one has none.
pub proof fn law_json_is_looked_for_in_turn(message: Seq<char>)
    ensures
        ({
            let whole = trimmed(message);
            let fenced = fenced_body(whole);
            let braces = bracketed(whole, '{', '}');
            let squares = bracketed(whole, '[', ']');
            if whole.len() == 0 {
                assistant_answer(message) is None
            } else if parsed_json(whole) is Some {
                assistant_answer(message) == answer(parsed_json(whole)->0)
            } else if fenced is Some && parsed_json(fenced->0) is Some {
                assistant_answer(message) == answer(parsed_json(fenced->0)->0)
            } else if braces is Some && parsed_json(braces->0) is Some {
                assistant_answer(message) == answer(parsed_json(braces->0)->0)
            } else if squares is Some && parsed_json(squares->0) is Some {
                assistant_answer(message) == answer(parsed_json(squares->0)->0)
            } else {
                assistant_answer(message) == Some(whole)
            }
        }),
{
    lemma_trimmed_idempotent(message);
    lemma_first_candidate(trimmed(message));
}

/// The first candidate of a trimmed message that is JSON, one by one.
proof fn lemma_first_candidate(whole: Seq<char>)
    requires
        trimmed(whole) == whole,
    ensures
        ({
            let fenced = fenced_body(whole);
            let braces = bracketed(whole, '{', '}');
            let squares = bracketed(whole, '[', ']');
            first_parsed(candidates(whole)) == if parsed_json(whole) is Some {
                parsed_json(whole)
            } else if fenced is Some && parsed_json(fenced->0) is Some {
                parsed_json(fenced->0)
            } else if braces is Some && parsed_json(braces->0) is Some {
                parsed_json(braces->0)
            } else if squares is Some {
                parsed_json(squares->0)
            } else {
                None
            }
        }),
{
    let one_fenced = one(fenced_body(whole));
    let one_brace = one(bracketed(whole, '{', '}'));
    let one_square = one(bracketed(whole, '[', ']'));
    assert(candidates(whole) =~= seq![whole] + (one_fenced + (one_brace + one_square)));
    lemma_first_of_one(Some(whole), one_fenced + (one_brace + one_square));
    lemma_first_of_one(fenced_body(whole), one_brace + one_square);
    lemma_first_of_one(bracketed(whole, '{', '}'), one_square);
    lemma_first_of_one(bracketed(whole, '[', ']'), Seq::empty());
    assert(one_square + Seq::empty() =~= one_square);
}

/// The first text that is JSON, where at most one stands in front of others.
proof fn lemma_first_of_one(text: Option<Seq<char>>, others: Seq<Seq<char>>)
    ensures
        first_parsed(one(text) + others) == if text is Some && parsed_json(text->0) is Some {
            parsed_json(text->0)
        } else {
            first_parsed(others)
        },
{
    if let Some(text) = text {
        assert((one(Some(text)) + others)[0] == text);
        assert((one(Some(text)) + others).drop_first() =~= others);
    } else {
        assert(one(text) + others =~= others);
    }
}

/// A text is JSON where it is so without the white space around it, or else without the code
/// fence around it.
pub proof fn law_json_may_stand_in_a_fence(text: Seq<char>)
    ensures
        parsed_json(trimmed(text)) is Some ==> json_of(text) == parsed_json(trimmed(text)),
        parsed_json(trimmed(text)) is None && fenced_body(trimmed(text)) is Some ==> json_of(text)
            == parsed_json(fenced_body(trimmed(text))->0),
        parsed_json(trimmed(text)) is None && fenced_body(trimmed(text)) is None ==> json_of(
            text,
        ) is None,
{
}

/// A text says what the JSON in it says, where that says anything; else it says itself without
/// the white space around it, and a blank text says nothing.
pub proof fn law_text_says_its_answer_or_itself(text: Seq<char>)
    ensures
        trimmed(text).len() == 0 ==> answer(JsonView::Text(text)) is None,
        trimmed(text).len() > 0 && first_parsed(candidates(trimmed(text))) is None ==> answer(
            JsonView::Text(text),
        ) == Some(trimmed(text)),
        (trimmed(text).len() > 0 && (first_parsed(candidates(trimmed(text))) matches Some(value)
            && longest_text(value) < text.len() && answer(value) is Some)) ==> answer(
            JsonView::Text(text),
        ) == answer(first_parsed(candidates(trimmed(text)))->0),
        (trimmed(text).len() > 0 && json_of(text) is None && (first_parsed(
            candidates(trimmed(text)),
        ) matches Some(value) && answer(value) is None)) ==> answer(JsonView::Text(text)) == Some(
            trimmed(text),
        ),
{
    lemma_json_is_found_first(text);
    lemma_trimmed_idempotent(text);
}

/// A truth value and a number say themselves, and `null` says nothing.
pub proof fn law_plain_values_say_themselves(text: Seq<char>, unsigned: Option<u64>)
    ensures
        answer(JsonView::Bool(true)) == Some("true"@),
        answer(JsonView::Bool(false)) == Some("false"@),
        answer(JsonView::Number { text, unsigned }) == Some(text),
        answer(JsonView::Null) is None,
{
}

/// The findings of some values are those of each value that can be written as one, in their
/// order and each under the number of its place.
pub proof fn law_findings_add_up(values: Seq<JsonView>, value: JsonView)
    ensures
        findings(Seq::empty()) == Seq::<Seq<char>>::empty(),
        findings(values.push(value)) == match finding(value, values.len()) {
            Some(text) => findings(values).push(text),
            None => findings(values),
        },
{
    assert(values.push(value).drop_last() =~= values);
    assert(findings(values.push(value)) =~= match finding(value, values.len()) {
        Some(text) => findings(values).push(text),
        None => findings(values),
    });
}

/// What some values say is what each of them says that says anything, in their order.
pub proof fn law_answers_add_up(values: Seq<JsonView>, value: JsonView)
    ensures
        answers(Seq::empty()) == Seq::<Seq<char>>::empty(),
        answers(values.push(value)) == match answer(value) {
            Some(text) => answers(values).push(text),
            None => answers(values),
        },
{
    assert(values.push(value).drop_last() =~= values);
    assert(answers(values.push(value)) =~= match answer(value) {
        Some(text) => answers(values).push(text),
        None => answers(values),
    });
}

/// As many findings as values means that each value is one.
proof fn lemma_all_are_findings(values: Seq<JsonView>)
    ensures
        findings(values).len() <= values.len(),
        findings(values).len() == values.len() <==> forall|i: int|
            0 <= i < values.len() ==> finding(#[trigger] values[i], i as nat) is Some,
    decreases values.len(),
{
    if values.len() > 0 {
        let front = values.drop_last();
        lemma_all_are_findings(front);
        assert(forall|i: int| 0 <= i < front.len() ==> #[trigger] front[i] == values[i]);
        if findings(values).len() == values.len() {
            assert forall|i: int| 0 <= i < values.len() implies finding(
                #[trigger] values[i],
                i as nat,
            ) is Some by {
                if i < front.len() {
                    assert(finding(front[i], i as nat) is Some);
                }
            }
        }
        if forall|i: int|
            0 <= i < values.len() ==> finding(#[trigger] values[i], i as nat) is Some {
            assert forall|i: int| 0 <= i < front.len() implies finding(
                #[trigger] front[i],
                i as nat,
            ) is Some by {
                assert(finding(values[i], i as nat) is Some);
            }
            assert(finding(values[values.len() - 1], (values.len() - 1) as nat) is Some);
        }
    }
}

/// No finding or answer among some values means that none of them is or says one.
proof fn lemma_any_says(values: Seq<JsonView>)
    ensures
        answers(values).len() > 0 <==> exists|i: int|
            0 <= i < values.len() && answer(#[trigger] values[i]) is Some,
    decreases values.len(),
{
    if values.len() > 0 {
        let front = values.drop_last();
        lemma_any_says(front);
        assert(forall|i: int| 0 <= i < front.len() ==> #[trigger] front[i] == values[i]);
        if answers(front).len() > 0 {
            let i = choose|i: int| 0 <= i < front.len() && answer(#[trigger] front[i]) is Some;
            assert(answer(values[i]) is Some);
        }
        if answer(values.last()) is Some {
            assert(answer(values[values.len() - 1]) is Some);
        }
        if exists|i: int| 0 <= i < values.len() && answer(#[trigger] values[i]) is Some {
            let i = choose|i: int| 0 <= i < values.len() && answer(#[trigger] values[i]) is Some;
            if i < front.len() {
                assert(answer(front[i]) is Some);
            }
        }
    }
}

/// An array each value of which can be written as a finding says these findings, with an empty
/// line between each two; any other says what its values say, one on a line, and where they say
/// nothing, the findings that there are.
pub proof fn law_array_says_findings_or_answers(values: Seq<JsonView>)
    ensures
        ({
            let all = forall|i: int|
                0 <= i < values.len() ==> finding(#[trigger] values[i], i as nat) is Some;
            let some = exists|i: int|
                0 <= i < values.len() && answer(#[trigger] values[i]) is Some;
            &&& values.len() == 0 ==> answer(JsonView::Array(values)) is None
            &&& values.len() > 0 && all ==> answer(JsonView::Array(values)) == Some(
                joined(findings(values), "\n\n"@),
            )
            &&& !all && some ==> answer(JsonView::Array(values)) == Some(
                joined(answers(values), "\n"@),
            )
            &&& !all && !some && findings(values).len() > 0 ==> answer(JsonView::Array(values))
                == Some(joined(findings(values), "\n\n"@))
            &&& !some && findings(values).len() == 0 ==> answer(JsonView::Array(values)) is None
        }),
{
    lemma_all_are_findings(values);
    lemma_any_says(values);
}

/// What an object says under a key.
pub open spec fn said(entries: Seq<(Seq<char>, JsonView)>, key: Seq<char>) -> Option<Seq<char>> {
    match field(entries, key) {
        Some(value) => answer(value),
        None => None,
    }
}

/// The first of some keys that says something decides.
proof fn lemma_first_that_says(
    entries: Seq<(Seq<char>, JsonView)>,
    keys: Seq<Seq<char>>,
    i: int,
)
    requires
        0 <= i <= keys.len(),
        forall|j: int| 0 <= j < i ==> said(entries, #[trigger] keys[j]) is None,
        i < keys.len() ==> said(entries, keys[i]) is Some,
    ensures
        first_answer(entries, keys) == if i < keys.len() {
            said(entries, keys[i])
        } else {
            None
        },
    decreases keys.len(),
{
    if i > 0 {
        let rest = keys.drop_first();
        assert(said(entries, keys[0]) is None);
        assert forall|j: int| 0 <= j < i - 1 implies said(entries, #[trigger] rest[j]) is None by {
            assert(rest[j] == keys[j + 1]);
        }
        lemma_first_that_says(entries, rest, i - 1);
    }
}

/// Some key says something first, or none says anything.
proof fn lemma_some_key_is_first(entries: Seq<(Seq<char>, JsonView)>, keys: Seq<Seq<char>>) -> (i:
    int)
    ensures
        0 <= i <= keys.len(),
        forall|j: int| 0 <= j < i ==> said(entries, #[trigger] keys[j]) is None,
        i < keys.len() ==> said(entries, keys[i]) is Some,
    decreases keys.len(),
{
    if keys.len() == 0 || said(entries, keys[0]) is Some {
        0
    } else {
        let rest = keys.drop_first();
        let i = lemma_some_key_is_first(entries, rest);
        assert forall|j: int| 0 <= j < i + 1 implies said(entries, #[trigger] keys[j]) is None by {
            if j > 0 {
                assert(keys[j] == rest[j - 1]);
            }
        }
        i + 1
    }
}

/// What the first of six texts is that is there.
pub open spec fn first_of_six(
    a: Option<Seq<char>>,
    b: Option<Seq<char>>,
    c: Option<Seq<char>>,
    d: Option<Seq<char>>,
    e: Option<Seq<char>>,
    f: Option<Seq<char>>,
) -> Option<Seq<char>> {
    if a is Some {
        a
    } else if b is Some {
        b
    } else if c is Some {
        c
    } else if d is Some {
        d
    } else if e is Some {
        e
    } else {
        f
    }
}

/// The explanation of a review stands under the first of the keys `overall_explanation`,
/// `explanation`, `summary`, `answer`, `response` and `message` that says something.
proof fn lemma_explanation(entries: Seq<(Seq<char>, JsonView)>)
    ensures
        first_answer(entries, explanation_keys()) == first_of_six(
            said(entries, "overall_explanation"@),
            said(entries, "explanation"@),
            said(entries, "summary"@),
            said(entries, "answer"@),
            said(entries, "response"@),
            said(entries, "message"@),
        ),
{
    let keys = explanation_keys();
    let i = lemma_some_key_is_first(entries, keys);
    lemma_first_that_says(entries, keys, i);
    assert(keys.len() == 6);
    assert(keys[0] == "overall_explanation"@ && keys[1] == "explanation"@ && keys[2] == "summary"@);
    assert(keys[3] == "answer"@ && keys[4] == "response"@ && keys[5] == "message"@);
}

/// What an object says, one step of the search for it.
proof fn lemma_object_answer(entries: Seq<(Seq<char>, JsonView)>)
    ensures
        review_answer(entries) is Some ==> answer(JsonView::Object(entries)) == review_answer(
            entries,
        ),
        review_answer(entries) is None && first_answer(entries, answer_keys()) is Some ==> answer(
            JsonView::Object(entries),
        ) == first_answer(entries, answer_keys()),
        review_answer(entries) is None && first_answer(entries, answer_keys()) is None ==> answer(
            JsonView::Object(entries),
        ) == if entries.len() == 1 {
            answer(entries[0].1)
        } else if field(entries, "title"@) is Some || field(entries, "body"@) is Some {
            finding(JsonView::Object(entries), 0)
        } else {
            longest_leaf(entries)
        },
{
    if entries.len() == 1 {
        lemma_entry_bounds(entries, 0);
    }
    let reduced = leaf_text(JsonView::Object(entries));
    assert(reduced == longest_leaf(entries));
}

/// What an object says as a review, from its parts.
proof fn lemma_review_parts(entries: Seq<(Seq<char>, JsonView)>)
    ensures
        review_answer(entries) == match field(entries, "findings"@) {
            Some(JsonView::Array(values)) => review_text(
                Some(values.len()),
                findings(values),
                first_answer(entries, explanation_keys()),
                said(entries, "overall_correctness"@),
            ),
            _ => review_text(
                None,
                Seq::empty(),
                first_answer(entries, explanation_keys()),
                said(entries, "overall_correctness"@),
            ),
        },
{
    lemma_field_bounds(entries, "findings"@);
    lemma_field_bounds(entries, "overall_correctness"@);
}

/// An object says that it is a review where it lists findings, says how correct the change is, or
/// explains itself. It then says how many findings it lists, each that can be written, and how it
/// sums up: by its explanation, else by its word on correctness.
pub proof fn law_review_is_written_out(entries: Seq<(Seq<char>, JsonView)>)
    ensures
        ({
            let explanation = first_of_six(
                said(entries, "overall_explanation"@),
                said(entries, "explanation"@),
                said(entries, "summary"@),
                said(entries, "answer"@),
                said(entries, "response"@),
                said(entries, "message"@),
            );
            let correctness = said(entries, "overall_correctness"@);
            let end = if explanation is Some {
                "📝 Итог:\n\n"@ + explanation->0
            } else {
                "📝 Итог: "@ + correctness->0
            };
            let has_end = explanation is Some || correctness is Some;
            match field(entries, "findings"@) {
                Some(JsonView::Array(values)) => {
                    let counted = if values.len() == 0 {
                        "✅ Проблем не найдено."@
                    } else if findings(values).len() == 0 {
                        "⚠️ Найдено проблем: "@ + decimal(values.len()) + "."@
                    } else {
                        "⚠️ Найдено проблем: "@ + decimal(values.len()) + "."@
                            + "\n\nПроблемы:\n\n"@ + joined(findings(values), "\n\n"@)
                    };
                    answer(JsonView::Object(entries)) == Some(
                        if has_end {
                            counted + "\n\n"@ + end
                        } else {
                            counted
                        },
                    )
                },
                _ => has_end ==> answer(JsonView::Object(entries)) == Some(end),
            }
        }),
{
    lemma_explanation(entries);
    lemma_review_parts(entries);
    lemma_object_answer(entries);
}

/// Whether an object is no review: it lists no findings, says nothing on how correct the change
/// is, and explains nothing.
pub open spec fn is_no_review(entries: Seq<(Seq<char>, JsonView)>) -> bool {
    &&& !(field(entries, "findings"@) matches Some(JsonView::Array(_)))
    &&& said(entries, "overall_correctness"@) is None
    &&& said(entries, "overall_explanation"@) is None
    &&& said(entries, "explanation"@) is None
    &&& said(entries, "summary"@) is None
    &&& said(entries, "answer"@) is None
    &&& said(entries, "response"@) is None
    &&& said(entries, "message"@) is None
}

/// An object that is no review says what stands under the first of the keys `text`,
/// `output_text`, `content`, `result`, `output`, `data` and `choices` that says something,
/// however many other entries it has and whatever they hold.
pub proof fn law_object_says_its_answer(entries: Seq<(Seq<char>, JsonView)>)
    requires
        is_no_review(entries),
    ensures
        ({
            let text = said(entries, "text"@);
            let output_text = said(entries, "output_text"@);
            let content = said(entries, "content"@);
            let result = said(entries, "result"@);
            let output = said(entries, "output"@);
            let data = said(entries, "data"@);
            let choices = said(entries, "choices"@);
            let whole = answer(JsonView::Object(entries));
            &&& text is Some ==> whole == text
            &&& text is None && output_text is Some ==> whole == output_text
            &&& text is None && output_text is None && content is Some ==> whole == content
            &&& text is None && output_text is None && content is None && result is Some ==> whole
                == result
            &&& text is None && output_text is None && content is None && result is None
                && output is Some ==> whole == output
            &&& text is None && output_text is None && content is None && result is None
                && output is None && data is Some ==> whole == data
            &&& text is None && output_text is None && content is None && result is None
                && output is None && data is None && choices is Some ==> whole == choices
        }),
{
    lemma_explanation(entries);
    lemma_review_parts(entries);
    lemma_object_answer(entries);
    lemma_answer_keys();
    let keys = answer_keys();
    let i = lemma_some_key_is_first(entries, keys);
    lemma_first_that_says(entries, keys, i);
}

/// The keys of an answer, one by one.
proof fn lemma_answer_keys()
    ensures
        answer_keys().len() == 13,
        answer_keys()[0] == "answer"@,
        answer_keys()[1] == "response"@,
        answer_keys()[2] == "message"@,
        answer_keys()[3] == "text"@,
        answer_keys()[4] == "output_text"@,
        answer_keys()[5] == "content"@,
        answer_keys()[6] == "result"@,
        answer_keys()[7] == "output"@,
        answer_keys()[8] == "data"@,
        answer_keys()[9] == "choices"@,
        answer_keys()[10] == "overall_explanation"@,
        answer_keys()[11] == "explanation"@,
        answer_keys()[12] == "summary"@,
{
}

/// Whether an object says nothing under any key that an answer is looked for under.
pub open spec fn says_nothing_known(entries: Seq<(Seq<char>, JsonView)>) -> bool {
    &&& is_no_review(entries)
    &&& said(entries, "text"@) is None
    &&& said(entries, "output_text"@) is None
    &&& said(entries, "content"@) is None
    &&& said(entries, "result"@) is None
    &&& said(entries, "output"@) is None
    &&& said(entries, "data"@) is None
    &&& said(entries, "choices"@) is None
}

/// An object that says nothing under a key that is known says what its only entry says; where it
/// has others, it is written as a finding where it has a title or a body, and else says the
/// longest of the texts of its entries, of two equally long ones the later.
pub proof fn law_unknown_object_is_reduced(entries: Seq<(Seq<char>, JsonView)>)
    requires
        says_nothing_known(entries),
    ensures
        ({
            let whole = answer(JsonView::Object(entries));
            let is_finding = field(entries, "title"@) is Some || field(entries, "body"@) is Some;
            &&& entries.len() == 1 ==> whole == answer(entries[0].1)
            &&& entries.len() != 1 && is_finding ==> whole == finding(
                JsonView::Object(entries),
                0,
            )
            &&& entries.len() != 1 && !is_finding && whole is None ==> forall|i: int|
                0 <= i < entries.len() ==> leaf_text((#[trigger] entries[i]).1) is None
            &&& entries.len() != 1 && !is_finding && whole is Some ==> exists|i: int|
                0 <= i < entries.len() && leaf_text((#[trigger] entries[i]).1) == whole && (forall|
                    j: int,
                |
                    0 <= j < entries.len() ==> (leaf_text((#[trigger] entries[j]).1) matches Some(
                        other,
                    ) ==> other.len() <= whole->0.len() && (j > i ==> other.len()
                        < whole->0.len())))
        }),
{
    lemma_explanation(entries);
    lemma_review_parts(entries);
    lemma_object_answer(entries);
    lemma_answer_keys();
    let keys = answer_keys();
    let i = lemma_some_key_is_first(entries, keys);
    lemma_first_that_says(entries, keys, i);
    lemma_longest_leaf(entries);
}

/// The longest text of some entries is that of one of them, no entry has a longer one, and no
/// later entry one as long.
proof fn lemma_longest_leaf(entries: Seq<(Seq<char>, JsonView)>)
    ensures
        match longest_leaf(entries) {
            None => forall|i: int|
                0 <= i < entries.len() ==> leaf_text((#[trigger] entries[i]).1) is None,
            Some(text) => exists|i: int|
                0 <= i < entries.len() && leaf_text((#[trigger] entries[i]).1) == Some(text) && (
                forall|j: int|
                    0 <= j < entries.len() ==> (leaf_text((#[trigger] entries[j]).1) matches Some(
                        other,
                    ) ==> other.len() <= text.len() && (j > i ==> other.len() < text.len()))),
        },
    decreases entries.len(),
{
    if entries.len() > 0 {
        let front = entries.drop_last();
        let n = front.len() as int;
        lemma_longest_leaf(front);
        assert(forall|i: int| 0 <= i < n ==> #[trigger] front[i] == entries[i]);
        if let Some(text) = longest_leaf(entries) {
            let last = leaf_text(entries[n].1);
            if last == Some(text) {
                assert forall|j: int| 0 <= j < entries.len() implies (leaf_text(
                    (#[trigger] entries[j]).1,
                ) matches Some(other) ==> other.len() <= text.len() && (j > n ==> other.len()
                    < text.len())) by {
                    if j < n {
                        assert(front[j] == entries[j]);
                    }
                }
                assert(leaf_text(entries[n].1) == Some(text));
            } else {
                assert(longest_leaf(front) == Some(text));
                let i = choose|i: int|
                    0 <= i < front.len() && leaf_text((#[trigger] front[i]).1) == Some(text) && (
                    forall|j: int|
                        0 <= j < front.len() ==> (leaf_text((#[trigger] front[j]).1) matches Some(
                            other,
                        ) ==> other.len() <= text.len() && (j > i ==> other.len() < text.len())));
                assert(leaf_text(entries[i].1) == Some(text));
                assert forall|j: int| 0 <= j < entries.len() implies (leaf_text(
                    (#[trigger] entries[j]).1,
                ) matches Some(other) ==> other.len() <= text.len() && (j > i ==> other.len()
                    < text.len())) by {
                    if j < n {
                        assert(front[j] == entries[j]);
                    }
                }
            }
        } else {
            assert forall|i: int| 0 <= i < entries.len() implies leaf_text(
                (#[trigger] entries[i]).1,
            ) is None by {
                if i < n {
                    assert(front[i] == entries[i]);
                }
            }
        }
    }
}

/// The texts of a value that is no answer: a text that is no JSON is itself, unless it is blank;
/// an array has the texts of its values, one on a line; a truth value, a number and `null` have
/// none.
pub proof fn law_texts_are_left_of_a_value(
    text: Seq<char>,
    values: Seq<JsonView>,
    value: JsonView,
)
    ensures
        json_of(text) is None ==> leaf_text(JsonView::Text(text)) == if trimmed(text).len() > 0 {
            Some(trimmed(text))
        } else {
            None
        },
        leaf_text(JsonView::Array(values)) == if leaf_texts(values).len() > 0 {
            Some(joined(leaf_texts(values), "\n"@))
        } else {
            None
        },
        leaf_texts(Seq::empty()) == Seq::<Seq<char>>::empty(),
        leaf_texts(values.push(value)) == match leaf_text(value) {
            Some(one) => leaf_texts(values).push(one),
            None => leaf_texts(values),
        },
        value is Bool || value is Number || value is Null ==> leaf_text(value) is None,
{
    assert(values.push(value).drop_last() =~= values);
    assert(leaf_texts(values.push(value)) =~= match leaf_text(value) {
        Some(one) => leaf_texts(values).push(one),
        None => leaf_texts(values),
    });
}

/// A text with a truth value or a number in it is a text like any other.
pub proof fn law_word_among_texts_is_kept(text: Seq<char>)
    requires
        trimmed(text).len() > 0,
        json_of(text) matches Some(value) && (value is Bool || value is Number),
    ensures
        leaf_text(JsonView::Text(text)) == Some(trimmed(text)),
{
}

/// What the first of three texts is that is there.
pub open spec fn first_of_three(
    a: Option<Seq<char>>,
    b: Option<Seq<char>>,
    c: Option<Seq<char>>,
) -> Option<Seq<char>> {
    if a is Some {
        a
    } else if b is Some {
        b
    } else {
        c
    }
}

/// A finding is written under the number of its place, counted from one: a text as it is; an
/// object with its title or a word for it, its priority in square brackets unless the title
/// begins with one, its body on the next line and its location on the line behind. Without a
/// title, body or location there is nothing to write, nor for any other value.
pub proof fn law_finding_is_written(value: JsonView, index: nat)
    ensures
        match value {
            JsonView::Text(_) => match leaf_text(value) {
                Some(text) => finding(value, index) == Some(decimal(index + 1) + ". "@ + text),
                None => finding(value, index) is None,
            },
            JsonView::Object(entries) => {
                let title = first_of_three(
                    said(entries, "title"@),
                    said(entries, "name"@),
                    said(entries, "summary"@),
                );
                let body = first_of_six(
                    said(entries, "body"@),
                    said(entries, "description"@),
                    said(entries, "details"@),
                    said(entries, "message"@),
                    said(entries, "explanation"@),
                    None,
                );
                let priority = match field(entries, "priority"@) {
                    Some(value) => priority_text(value),
                    None => None,
                };
                let location = match (field(entries, "code_location"@), field(
                    entries,
                    "location"@,
                )) {
                    (Some(value), _) => location_text(value),
                    (None, Some(value)) => location_text(value),
                    (None, None) => None,
                };
                let name = if title is Some {
                    title->0
                } else {
                    "Замечание"@
                };
                let labelled = if priority is Some && !begins(name, "[P"@) {
                    decimal(index + 1) + ". "@ + ("["@ + priority->0 + "] "@ + name)
                } else {
                    decimal(index + 1) + ". "@ + name
                };
                &&& title is None && body is None && location is None ==> finding(
                    value,
                    index,
                ) is None
                &&& title is Some && body is None && location is None ==> finding(value, index)
                    == Some(labelled)
                &&& body is Some && location is None ==> finding(value, index) == Some(
                    labelled + "\n"@ + body->0,
                )
                &&& body is None && location is Some ==> finding(value, index) == Some(
                    labelled + "\n📍 "@ + location->0,
                )
                &&& body is Some && location is Some ==> finding(value, index) == Some(
                    labelled + "\n"@ + body->0 + "\n📍 "@ + location->0,
                )
            },
            _ => finding(value, index) is None,
        },
{
    if let JsonView::Object(entries) = value {
        let titles = title_keys();
        let t = lemma_some_key_is_first(entries, titles);
        lemma_first_that_says(entries, titles, t);
        assert(titles.len() == 3 && titles[0] == "title"@ && titles[1] == "name"@ && titles[2]
            == "summary"@);
        let bodies = body_keys();
        let b = lemma_some_key_is_first(entries, bodies);
        lemma_first_that_says(entries, bodies, b);
        assert(bodies.len() == 5 && bodies[0] == "body"@ && bodies[1] == "description"@
            && bodies[2] == "details"@ && bodies[3] == "message"@ && bodies[4] == "explanation"@);
    }
}

/// A priority is the letter `P` and what it counts: a number, or a text without white space
/// around it and without the square brackets and the letter that it may come with.
pub proof fn law_priority_is_written(
    text: Seq<char>,
    opened: bool,
    lettered: bool,
    level: Seq<char>,
    closed: bool,
    number: u64,
)
    requires
        ({
            let letter = if lettered {
                "P"@
            } else {
                Seq::empty()
            };
            let inside = letter + level;
            let ended = if closed {
                inside + "]"@
            } else {
                inside
            };
            &&& trimmed(text) == if opened {
                "["@ + ended
            } else {
                ended
            }
            &&& !opened ==> !begins(ended, "["@)
            &&& !closed ==> !ends(inside, "]"@)
            &&& !lettered ==> !begins(level, "P"@)
        }),
    ensures
        priority_text(JsonView::Text(text)) == if level.len() > 0 {
            Some("P"@ + level)
        } else {
            None
        },
        priority_text(JsonView::Number { text, unsigned: Some(number) }) == Some(
            "P"@ + decimal(number as nat),
        ),
{
    let letter = if lettered {
        "P"@
    } else {
        Seq::empty()
    };
    let inside = letter + level;
    let ended = if closed {
        inside + "]"@
    } else {
        inside
    };
    if opened {
        law_parts_are_taken_off("["@ + ended, "["@, ended);
    } else {
        law_parts_are_taken_off(ended, "["@, ended);
    }
    if closed {
        law_parts_are_taken_off(ended, "]"@, inside);
    } else {
        law_parts_are_taken_off(inside, "]"@, inside);
    }
    if lettered {
        law_parts_are_taken_off(inside, "P"@, level);
    } else {
        assert(inside =~= level);
        law_parts_are_taken_off(level, "P"@, level);
    }
}

/// No other value is a priority.
pub proof fn law_other_values_are_no_priority(value: JsonView)
    requires
        match value {
            JsonView::Text(_) => false,
            JsonView::Number { unsigned, .. } => unsigned is None,
            _ => true,
        },
    ensures
        priority_text(value) is None,
{
}

/// The first text under some keys.
proof fn lemma_first_text(entries: Seq<(Seq<char>, JsonView)>)
    ensures
        first_text(entries, path_keys()) == first_of_six(
            text_under(entries, "absolute_file_path"@),
            text_under(entries, "file_path"@),
            text_under(entries, "path"@),
            text_under(entries, "file"@),
            None,
            None,
        ),
{
    let keys = path_keys();
    assert(keys.drop_first() =~= seq!["file_path"@, "path"@, "file"@]);
    assert(keys.drop_first().drop_first() =~= seq!["path"@, "file"@]);
    assert(keys.drop_first().drop_first().drop_first() =~= seq!["file"@]);
    assert(keys.drop_first().drop_first().drop_first().drop_first() =~= Seq::empty());
    reveal_with_fuel(first_text, 5);
}

/// The text that an object has under a key.
pub open spec fn text_under(entries: Seq<(Seq<char>, JsonView)>, key: Seq<char>) -> Option<
    Seq<char>,
> {
    match field(entries, key) {
        Some(JsonView::Text(text)) => Some(text),
        _ => None,
    }
}

/// The length that an object has under a key: a number that is not negative and that a length
/// can be.
pub open spec fn length_under(entries: Seq<(Seq<char>, JsonView)>, key: Seq<char>) -> Option<
    usize,
> {
    match field(entries, key) {
        Some(JsonView::Number { unsigned: Some(number), .. }) if number <= usize::MAX => Some(
            number as usize,
        ),
        _ => None,
    }
}

/// A location names its file by the first text under `absolute_file_path`, `file_path`, `path`
/// and `file`, and its lines by its range, or else the one line that it names: both ends where
/// they differ, and only a word for a line where there is no file.
pub proof fn law_location_is_written(entries: Seq<(Seq<char>, JsonView)>)
    ensures
        ({
            let named = first_of_six(
                text_under(entries, "absolute_file_path"@),
                text_under(entries, "file_path"@),
                text_under(entries, "path"@),
                text_under(entries, "file"@),
                None,
                None,
            );
            let path = if named is Some && trimmed(named->0).len() > 0 {
                Some(trimmed(named->0))
            } else {
                None
            };
            let (first, last) = match field(entries, "line_range"@) {
                Some(JsonView::Object(range)) => (
                    length_under(range, "start"@),
                    length_under(range, "end"@),
                ),
                _ => (None, None),
            };
            let start = if first is Some {
                first
            } else {
                length_under(entries, "line"@)
            };
            let file = if path is Some {
                path->0
            } else {
                "строка"@
            };
            let placed = location_text(JsonView::Object(entries));
            &&& path is None && start is None ==> placed is None
            &&& path is Some && start is None ==> placed == path
            &&& start is Some && (last is None || last == start) ==> placed == Some(
                file + ":"@ + decimal(start->0 as nat),
            )
            &&& start is Some && last is Some && last != start ==> placed == Some(
                file + ":"@ + decimal(start->0 as nat) + "-"@ + decimal(last->0 as nat),
            )
        }),
{
    lemma_first_text(entries);
}

/// Only an object is a location.
pub proof fn law_only_objects_are_locations(value: JsonView)
    requires
        !(value is Object),
    ensures
        location_text(value) is None,
{
}

/// Whether a text stands in another at an index.
pub open spec fn stands_at(s: Seq<char>, part: Seq<char>, at: int) -> bool {
    0 <= at && at + part.len() <= s.len() && s.subrange(at, at + part.len()) == part
}

/// What stands in a text stands in it also with more around it.
proof fn lemma_stands_in_more(
    front: Seq<char>,
    s: Seq<char>,
    back: Seq<char>,
    part: Seq<char>,
    at: int,
)
    requires
        stands_at(s, part, at),
    ensures
        stands_at(front + s + back, part, front.len() + at),
{
    let whole = front + s + back;
    assert(whole.subrange(front.len() + at, front.len() + at + part.len()) =~= s.subrange(
        at,
        at + part.len(),
    ));
}

/// What stands between two texts stands behind the first of them.
proof fn lemma_stands_between(front: Seq<char>, part: Seq<char>, back: Seq<char>)
    ensures
        stands_at(front + part + back, part, front.len() as int),
{
    let n = front.len() as int;
    assert((front + part + back).subrange(n, n + part.len()) =~= part);
}

/// One of some texts joined stands in them.
proof fn lemma_joined_holds(parts: Seq<Seq<char>>, separator: Seq<char>, a: int) -> (at: int)
    requires
        0 <= a < parts.len(),
    ensures
        stands_at(joined(parts, separator), parts[a], at),
{
    let lead = if a > 0 {
        joined(parts.take(a), separator) + separator
    } else {
        Seq::<char>::empty()
    };
    let tail = if a < parts.len() - 1 {
        separator + joined(parts.skip(a + 1), separator)
    } else {
        Seq::<char>::empty()
    };
    law_joined_shows_each(parts, separator, a);
    lemma_stands_between(lead, parts[a], tail);
    lead.len() as int
}

/// Two of some texts joined stand in them one behind the other.
proof fn lemma_joined_in_order(
    parts: Seq<Seq<char>>,
    separator: Seq<char>,
    a: int,
    b: int,
) -> (at: (int, int))
    requires
        0 <= a < b < parts.len(),
    ensures
        stands_at(joined(parts, separator), parts[a], at.0),
        stands_at(joined(parts, separator), parts[b], at.1),
        at.0 + parts[a].len() <= at.1,
{
    let front = parts.take(b);
    let before = joined(front, separator);
    let lead = before + separator;
    let tail = if b < parts.len() - 1 {
        separator + joined(parts.skip(b + 1), separator)
    } else {
        Seq::<char>::empty()
    };
    law_joined_shows_each(parts, separator, b);
    lemma_stands_between(lead, parts[b], tail);
    let p = lemma_joined_holds(front, separator, a);
    lemma_stands_in_more(Seq::empty(), before, separator + parts[b] + tail, parts[a], p);
    assert(Seq::<char>::empty() + before + (separator + parts[b] + tail) =~= lead + parts[b]
        + tail);
    (p, lead.len() as int)
}

/// The finding of a value is among the findings, behind those of the values before it.
proof fn lemma_finding_is_there(values: Seq<JsonView>, i: int)
    requires
        0 <= i < values.len(),
        finding(values[i], i as nat) is Some,
    ensures
        findings(values.take(i)).len() < findings(values).len(),
        findings(values)[findings(values.take(i)).len() as int] == finding(
            values[i],
            i as nat,
        )->0,
        findings(values.take(i + 1)).len() == findings(values.take(i)).len() + 1,
        findings(values.take(i + 1)).len() <= findings(values).len(),
    decreases values.len(),
{
    let front = values.drop_last();
    if i == values.len() - 1 {
        assert(values.take(i) =~= front);
        assert(values.take(i + 1) =~= values);
    } else {
        assert(front.take(i) =~= values.take(i));
        assert(front.take(i + 1) =~= values.take(i + 1));
        lemma_finding_is_there(front, i);
    }
}

/// Fewer values have no more findings.
proof fn lemma_findings_grow(values: Seq<JsonView>, i: int, j: int)
    requires
        0 <= i <= j <= values.len(),
    ensures
        findings(values.take(i)).len() <= findings(values.take(j)).len(),
    decreases j,
{
    if i < j {
        lemma_findings_grow(values, i, j - 1);
        assert(values.take(j).drop_last() =~= values.take(j - 1));
    }
}

/// What a review says around its findings.
proof fn lemma_review_holds_findings(
    entries: Seq<(Seq<char>, JsonView)>,
    values: Seq<JsonView>,
) -> (around: (Seq<char>, Seq<char>))
    requires
        field(entries, "findings"@) == Some(JsonView::Array(values)),
        findings(values).len() > 0,
    ensures
        answer(JsonView::Object(entries)) == Some(
            around.0 + joined(findings(values), "\n\n"@) + around.1,
        ),
{
    law_review_is_written_out(entries);
    lemma_all_are_findings(values);
    let front = "⚠️ Найдено проблем: "@ + decimal(values.len()) + "."@ + "\n\nПроблемы:\n\n"@;
    let all = joined(findings(values), "\n\n"@);
    let text = answer(JsonView::Object(entries))->0;
    assert(text.take((front + all).len() as int) =~= front + all);
    let back = text.skip((front + all).len() as int);
    assert(text =~= front + all + back);
    (front, back)
}

/// Every finding of a review that can be written stands in what the review says.
pub proof fn law_every_finding_is_told(
    entries: Seq<(Seq<char>, JsonView)>,
    values: Seq<JsonView>,
    i: int,
)
    requires
        field(entries, "findings"@) == Some(JsonView::Array(values)),
        0 <= i < values.len(),
    ensures
        finding(values[i], i as nat) matches Some(text) ==> (answer(
            JsonView::Object(entries),
        ) matches Some(told) && exists|at: int| #[trigger] stands_at(told, text, at)),
{
    if let Some(text) = finding(values[i], i as nat) {
        lemma_finding_is_there(values, i);
        let parts = findings(values);
        let a = findings(values.take(i)).len() as int;
        let (front, back) = lemma_review_holds_findings(entries, values);
        let at = lemma_joined_holds(parts, "\n\n"@, a);
        lemma_stands_in_more(front, joined(parts, "\n\n"@), back, text, at);
        assert(stands_at(answer(JsonView::Object(entries))->0, text, front.len() + at));
    }
}

/// The findings of a review stand in what it says in their order, each behind the end of the one
/// before.
pub proof fn law_findings_are_told_in_order(
    entries: Seq<(Seq<char>, JsonView)>,
    values: Seq<JsonView>,
    i: int,
    j: int,
)
    requires
        field(entries, "findings"@) == Some(JsonView::Array(values)),
        0 <= i < j < values.len(),
        finding(values[i], i as nat) is Some,
        finding(values[j], j as nat) is Some,
    ensures
        answer(JsonView::Object(entries)) matches Some(told) && exists|p: int, q: int|
            #[trigger] stands_at(told, finding(values[i], i as nat)->0, p) && #[trigger] stands_at(
                told,
                finding(values[j], j as nat)->0,
                q,
            ) && p + finding(values[i], i as nat)->0.len() <= q,
{
    lemma_finding_is_there(values, i);
    lemma_finding_is_there(values, j);
    lemma_findings_grow(values, i + 1, j);
    let parts = findings(values);
    let a = findings(values.take(i)).len() as int;
    let b = findings(values.take(j)).len() as int;
    let (front, back) = lemma_review_holds_findings(entries, values);
    let (p, q) = lemma_joined_in_order(parts, "\n\n"@, a, b);
    lemma_stands_in_more(front, joined(parts, "\n\n"@), back, parts[a], p);
    lemma_stands_in_more(front, joined(parts, "\n\n"@), back, parts[b], q);
    let told = answer(JsonView::Object(entries))->0;
    assert(stands_at(told, finding(values[i], i as nat)->0, front.len() + p));
    assert(stands_at(told, finding(values[j], j as nat)->0, front.len() + q));
}

} // verus!
