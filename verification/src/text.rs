//! Character-level text operations.
//!
//! A text is the sequence of its Unicode scalar values.

use vstd::prelude::*;
use vstd::string::StringExecFns;
use vstd::string::StrSliceExecFns;

verus! {

/// `String::push` adds one character at the end.
pub assume_specification[ String::push ](text: &mut String, character: char)
    ensures
        final(text)@ == old(text)@.push(character),
;

/// The Unicode `White_Space` property.
pub open spec fn is_white_space(c: char) -> bool {
    ||| '\u{9}' <= c <= '\u{d}'
    ||| c == ' '
    ||| c == '\u{85}'
    ||| c == '\u{a0}'
    ||| c == '\u{1680}'
    ||| '\u{2000}' <= c <= '\u{200a}'
    ||| c == '\u{2028}'
    ||| c == '\u{2029}'
    ||| c == '\u{202f}'
    ||| c == '\u{205f}'
    ||| c == '\u{3000}'
}

/// Whether a character has the `White_Space` property.
pub fn white_space(c: char) -> (result: bool)
    ensures
        result == is_white_space(c),
{
    ('\u{9}' <= c && c <= '\u{d}') || c == ' ' || c == '\u{85}' || c == '\u{a0}' || c == '\u{1680}'
        || ('\u{2000}' <= c && c <= '\u{200a}') || c == '\u{2028}' || c == '\u{2029}' || c
        == '\u{202f}' || c == '\u{205f}' || c == '\u{3000}'
}

/// The Unicode general category `Cc`.
pub open spec fn is_control_char(c: char) -> bool {
    ||| c <= '\u{1f}'
    ||| '\u{7f}' <= c <= '\u{9f}'
}

/// Whether a character is a control character.
pub fn control_char(c: char) -> (result: bool)
    ensures
        result == is_control_char(c),
{
    c <= '\u{1f}' || ('\u{7f}' <= c && c <= '\u{9f}')
}

/// The characters of a text.
pub fn chars_of(text: &str) -> (chars: Vec<char>)
    ensures
        chars@ == text@,
{
    let mut chars: Vec<char> = Vec::new();
    for c in it: text.chars()
        invariant
            it.seq() == text@,
            chars@ == it.seq().take(it.index()),
    {
        chars.push(c);
    }
    chars
}

/// The text made of some characters.
pub fn text_of(chars: &[char]) -> (text: String)
    ensures
        text@ == chars@,
{
    let mut text = String::new();
    let mut i: usize = 0;
    while i < chars.len()
        invariant
            i <= chars.len(),
            text@ == chars@.take(i as int),
        decreases chars.len() - i,
    {
        text.push(chars[i]);
        i = i + 1;
    }
    text
}

/// The view of an optional text.
pub open spec fn opt(text: Option<String>) -> Option<Seq<char>> {
    match text {
        Some(text) => Some(text@),
        None => None,
    }
}

/// The view of an optional borrowed text.
pub open spec fn opt_str(text: Option<&str>) -> Option<Seq<char>> {
    match text {
        Some(text) => Some(text@),
        None => None,
    }
}

/// Borrows an optional text.
pub fn as_deref(text: &Option<String>) -> (result: Option<&str>)
    ensures
        opt_str(result) == opt(*text),
{
    match text {
        Some(text) => Some(text.as_str()),
        None => None,
    }
}

/// Copies an optional text.
pub fn copy_opt(text: &Option<String>) -> (result: Option<String>)
    ensures
        opt(result) == opt(*text),
{
    match text {
        Some(text) => Some(text.clone()),
        None => None,
    }
}

/// Whether two texts are equal.
pub fn same_text(left: &str, right: &str) -> (result: bool)
    ensures
        result == (left@ == right@),
{
    left.to_owned() == right.to_owned()
}

/// A text without its leading white space.
pub open spec fn trim_start(s: Seq<char>) -> Seq<char>
    decreases s.len(),
{
    if s.len() > 0 && is_white_space(s[0]) {
        trim_start(s.drop_first())
    } else {
        s
    }
}

/// A text without its trailing white space.
pub open spec fn trim_end(s: Seq<char>) -> Seq<char>
    decreases s.len(),
{
    if s.len() > 0 && is_white_space(s.last()) {
        trim_end(s.drop_last())
    } else {
        s
    }
}

/// A text without the white space at both ends.
pub open spec fn trimmed(s: Seq<char>) -> Seq<char> {
    trim_end(trim_start(s))
}

/// Trimming again changes nothing.
pub proof fn lemma_trimmed_idempotent(s: Seq<char>)
    ensures
        trimmed(trimmed(s)) == trimmed(s),
{
    lemma_trim_start_stops(s);
    lemma_trim_end_stops(trim_start(s));
}

/// What is left of a text without leading white space does not begin with white space.
proof fn lemma_trim_start_stops(s: Seq<char>)
    ensures
        trim_start(s).len() > 0 ==> !is_white_space(trim_start(s)[0]),
    decreases s.len(),
{
    if s.len() > 0 && is_white_space(s[0]) {
        lemma_trim_start_stops(s.drop_first());
    }
}

/// What is left of a text without trailing white space does not end with white space, and
/// begins as the text does.
proof fn lemma_trim_end_stops(s: Seq<char>)
    ensures
        trim_end(s).len() > 0 ==> !is_white_space(trim_end(s).last()),
        trim_end(s).len() > 0 ==> trim_end(s)[0] == s[0],
        trim_end(s).len() <= s.len(),
    decreases s.len(),
{
    if s.len() > 0 && is_white_space(s.last()) {
        lemma_trim_end_stops(s.drop_last());
    }
}

/// A text with a character that is no white space is not blank.
pub proof fn lemma_not_blank(s: Seq<char>, i: int)
    requires
        0 <= i < s.len(),
        !is_white_space(s[i]),
    ensures
        trimmed(s).len() > 0,
{
    lemma_trim_start_keeps(s, i);
    lemma_trim_start_stops(s);
    lemma_trim_end_keeps(trim_start(s));
}

/// Of a text with a character that is no white space something is left without leading white
/// space.
proof fn lemma_trim_start_keeps(s: Seq<char>, i: int)
    requires
        0 <= i < s.len(),
        !is_white_space(s[i]),
    ensures
        trim_start(s).len() > 0,
    decreases s.len(),
{
    if is_white_space(s[0]) {
        lemma_trim_start_keeps(s.drop_first(), i - 1);
    }
}

/// Of a text that does not begin with white space something is left without trailing white
/// space.
proof fn lemma_trim_end_keeps(s: Seq<char>)
    requires
        s.len() > 0,
        !is_white_space(s[0]),
    ensures
        trim_end(s).len() > 0,
    decreases s.len(),
{
    if is_white_space(s.last()) {
        lemma_trim_end_keeps(s.drop_last());
    }
}

/// Trimming does not lengthen a text.
pub proof fn lemma_trimmed_length(s: Seq<char>)
    ensures
        trim_start(s).len() <= s.len(),
        trim_end(s).len() <= s.len(),
        trimmed(s).len() <= s.len(),
{
    lemma_trim_start_length(s);
    lemma_trim_end_length(s);
    lemma_trim_end_length(trim_start(s));
}

/// Leading white space taken off does not lengthen a text.
proof fn lemma_trim_start_length(s: Seq<char>)
    ensures
        trim_start(s).len() <= s.len(),
    decreases s.len(),
{
    if s.len() > 0 && is_white_space(s[0]) {
        lemma_trim_start_length(s.drop_first());
    }
}

/// Trailing white space taken off does not lengthen a text.
proof fn lemma_trim_end_length(s: Seq<char>)
    ensures
        trim_end(s).len() <= s.len(),
    decreases s.len(),
{
    if s.len() > 0 && is_white_space(s.last()) {
        lemma_trim_end_length(s.drop_last());
    }
}

/// The part of a text between its first and last non-blank characters.
pub fn trim(text: &str) -> (result: &str)
    ensures
        result@ == trimmed(text@),
        result@.len() <= text@.len(),
{
    let chars = chars_of(text);
    let mut start: usize = 0;
    proof {
        assert(chars@.skip(0) == chars@);
    }
    while start < chars.len() && white_space(chars[start])
        invariant
            start <= chars.len(),
            trim_start(chars@) == trim_start(chars@.skip(start as int)),
        decreases chars.len() - start,
    {
        proof {
            assert(chars@.skip(start as int).drop_first() == chars@.skip(start + 1));
        }
        start = start + 1;
    }
    let mut end: usize = chars.len();
    proof {
        assert(chars@.skip(start as int) == chars@.subrange(start as int, end as int));
    }
    while start < end && white_space(chars[end - 1])
        invariant
            start <= end <= chars.len(),
            trimmed(chars@) == trim_end(chars@.subrange(start as int, end as int)),
        decreases end,
    {
        proof {
            assert(chars@.subrange(start as int, end as int).drop_last() == chars@.subrange(
                start as int,
                end - 1,
            ));
        }
        end = end - 1;
    }
    text.substring_char(start, end)
}

/// A text trimmed, where anything is left of it.
pub open spec fn non_blank(s: Option<Seq<char>>) -> Option<Seq<char>> {
    match s {
        Some(s) => if trimmed(s).len() > 0 {
            Some(trimmed(s))
        } else {
            None
        },
        None => None,
    }
}

/// Trims an optional text and drops it when it is blank.
pub fn keep_non_blank(text: Option<&str>) -> (result: Option<&str>)
    ensures
        opt_str(result) == non_blank(opt_str(text)),
        result matches Some(kept) ==> kept@.len() <= text->0@.len(),
{
    match text {
        Some(text) => {
            let kept = trim(text);
            if kept.is_empty() {
                None
            } else {
                Some(kept)
            }
        },
        None => None,
    }
}

/// The ASCII lower case of a character.
pub open spec fn ascii_lower(c: char) -> char {
    if 'A' <= c <= 'Z' {
        (c as u8 + 32) as u8 as char
    } else {
        c
    }
}

/// A text with its ASCII letters in lower case.
pub open spec fn lowered(s: Seq<char>) -> Seq<char> {
    s.map_values(|c: char| ascii_lower(c))
}

/// Puts the ASCII letters of a text in lower case.
pub fn to_ascii_lowercase(text: &str) -> (result: String)
    ensures
        result@ == lowered(text@),
{
    let mut result = String::new();
    for c in it: text.chars()
        invariant
            it.seq() == text@,
            result@ == lowered(text@.take(it.index())),
    {
        let lower = if 'A' <= c && c <= 'Z' {
            ((c as u8) + 32) as char
        } else {
            c
        };
        proof {
            assert(lowered(text@.take(it.index())).push(ascii_lower(c)) =~= lowered(
                text@.take(it.index() + 1),
            ));
        }
        result.push(lower);
    }
    proof {
        assert(text@.take(text@.len() as int) == text@);
    }
    result
}

/// Whether two texts are equal up to the case of ASCII letters.
pub fn eq_ignore_ascii_case(left: &str, right: &str) -> (result: bool)
    ensures
        result == (lowered(left@) == lowered(right@)),
{
    to_ascii_lowercase(left) == to_ascii_lowercase(right)
}

/// The index of the first occurrence of a character.
pub open spec fn position(s: Seq<char>, c: char) -> Option<nat>
    decreases s.len(),
{
    if s.len() == 0 {
        None
    } else if s[0] == c {
        Some(0)
    } else {
        match position(s.drop_first(), c) {
            Some(i) => Some(i + 1),
            None => None,
        }
    }
}

/// The index of the last occurrence of a character.
pub open spec fn last_position(s: Seq<char>, c: char) -> Option<nat>
    decreases s.len(),
{
    if s.len() == 0 {
        None
    } else if s.last() == c {
        Some((s.len() - 1) as nat)
    } else {
        last_position(s.drop_last(), c)
    }
}

/// An index that `position` gives is inside the text and holds the character.
pub proof fn lemma_position_in_range(s: Seq<char>, c: char)
    ensures
        position(s, c) matches Some(i) ==> i < s.len() && s[i as int] == c,
    decreases s.len(),
{
    if s.len() > 0 && s[0] != c {
        lemma_position_in_range(s.drop_first(), c);
    }
}

/// A character is first found right after a text that does not hold it.
pub proof fn lemma_position_after(prefix: Seq<char>, c: char, rest: Seq<char>)
    requires
        position(prefix, c) is None,
    ensures
        position(prefix + seq![c] + rest, c) == Some(prefix.len()),
    decreases prefix.len(),
{
    let whole = prefix + seq![c] + rest;
    if prefix.len() > 0 {
        assert(whole.drop_first() =~= prefix.drop_first() + seq![c] + rest);
        lemma_position_after(prefix.drop_first(), c, rest);
    }
}

/// Finds the first occurrence of a character.
pub fn find_char(chars: &Vec<char>, c: char) -> (result: Option<usize>)
    ensures
        match result {
            Some(i) => position(chars@, c) == Some(i as nat) && i < chars@.len(),
            None => position(chars@, c) is None,
        },
{
    let mut i: usize = 0;
    proof {
        assert(chars@.skip(0) == chars@);
    }
    while i < chars.len()
        invariant
            i <= chars.len(),
            position(chars@, c) == match position(chars@.skip(i as int), c) {
                Some(k) => Some(k + i as nat),
                None => None,
            },
        decreases chars.len() - i,
    {
        if chars[i] == c {
            return Some(i);
        }
        proof {
            assert(chars@.skip(i as int).drop_first() == chars@.skip(i + 1));
        }
        i = i + 1;
    }
    None
}

/// Finds the last occurrence of a character.
pub fn rfind_char(chars: &Vec<char>, c: char) -> (result: Option<usize>)
    ensures
        match result {
            Some(i) => last_position(chars@, c) == Some(i as nat) && i < chars@.len(),
            None => last_position(chars@, c) is None,
        },
{
    let mut end: usize = chars.len();
    proof {
        assert(chars@.take(end as int) == chars@);
    }
    while end > 0
        invariant
            end <= chars.len(),
            last_position(chars@, c) == last_position(chars@.take(end as int), c),
        decreases end,
    {
        if chars[end - 1] == c {
            return Some(end - 1);
        }
        proof {
            assert(chars@.take(end as int).drop_last() == chars@.take(end - 1));
        }
        end = end - 1;
    }
    None
}

/// A text cut at the first occurrence of a character, which is left out.
pub open spec fn split_at_char(s: Seq<char>, c: char) -> Option<(Seq<char>, Seq<char>)> {
    match position(s, c) {
        Some(i) => Some((s.take(i as int), s.skip(i as int + 1))),
        None => None,
    }
}

/// Cuts a text at the first occurrence of a character.
pub fn split_once(text: &str, c: char) -> (result: Option<(&str, &str)>)
    ensures
        match result {
            Some((before, after)) => split_at_char(text@, c) == Some((before@, after@))
                && before@.len() + after@.len() < text@.len(),
            None => split_at_char(text@, c) is None,
        },
{
    let chars = chars_of(text);
    let length = chars.len();
    match find_char(&chars, c) {
        Some(i) => {
            let before = text.substring_char(0, i);
            let after = text.substring_char(i + 1, length);
            proof {
                assert(before@ =~= text@.take(i as int));
                assert(after@ =~= text@.skip(i + 1));
            }
            Some((before, after))
        },
        None => None,
    }
}

/// Whether a text begins with another.
pub open spec fn begins(s: Seq<char>, prefix: Seq<char>) -> bool {
    prefix.len() <= s.len() && s.take(prefix.len() as int) == prefix
}

/// Whether a text ends with another.
pub open spec fn ends(s: Seq<char>, suffix: Seq<char>) -> bool {
    suffix.len() <= s.len() && s.skip(s.len() - suffix.len()) == suffix
}

/// What follows a prefix, where the text begins with it.
pub open spec fn after_prefix(s: Seq<char>, prefix: Seq<char>) -> Option<Seq<char>> {
    if begins(s, prefix) {
        Some(s.skip(prefix.len() as int))
    } else {
        None
    }
}

/// What precedes a suffix, where the text ends with it.
pub open spec fn before_suffix(s: Seq<char>, suffix: Seq<char>) -> Option<Seq<char>> {
    if ends(s, suffix) {
        Some(s.take(s.len() - suffix.len()))
    } else {
        None
    }
}

/// Takes a prefix off a text.
pub fn strip_prefix<'a>(text: &'a str, prefix: &str) -> (result: Option<&'a str>)
    ensures
        opt_str(result) == after_prefix(text@, prefix@),
        result matches Some(rest) ==> rest@.len() <= text@.len(),
{
    let length = text.unicode_len();
    let cut = prefix.unicode_len();
    if cut <= length && same_text(text.substring_char(0, cut), prefix) {
        proof {
            assert(text@.subrange(0, cut as int) =~= text@.take(cut as int));
            assert(text@.subrange(cut as int, length as int) =~= text@.skip(cut as int));
        }
        Some(text.substring_char(cut, length))
    } else {
        proof {
            if cut <= length {
                assert(text@.subrange(0, cut as int) =~= text@.take(cut as int));
            }
        }
        None
    }
}

/// Takes a suffix off a text.
pub fn strip_suffix<'a>(text: &'a str, suffix: &str) -> (result: Option<&'a str>)
    ensures
        opt_str(result) == before_suffix(text@, suffix@),
        result matches Some(rest) ==> rest@.len() <= text@.len(),
{
    let length = text.unicode_len();
    let cut = suffix.unicode_len();
    if cut <= length && same_text(text.substring_char(length - cut, length), suffix) {
        proof {
            assert(text@.subrange(length - cut, length as int) =~= text@.skip(length - cut));
            assert(text@.subrange(0, length - cut) =~= text@.take(length - cut));
        }
        Some(text.substring_char(0, length - cut))
    } else {
        proof {
            if cut <= length {
                assert(text@.subrange(length - cut, length as int) =~= text@.skip(length - cut));
            }
        }
        None
    }
}

/// Whether a text begins with another.
pub fn starts_with(text: &str, prefix: &str) -> (result: bool)
    ensures
        result == begins(text@, prefix@),
{
    strip_prefix(text, prefix).is_some()
}

/// Whether a text ends with another.
pub fn ends_with(text: &str, suffix: &str) -> (result: bool)
    ensures
        result == ends(text@, suffix@),
{
    strip_suffix(text, suffix).is_some()
}

/// Whether a text occurs in another at an index.
pub open spec fn occurs_at(s: Seq<char>, part: Seq<char>, i: int) -> bool {
    0 <= i && i + part.len() <= s.len() && s.subrange(i, i + part.len()) == part
}

/// Whether a text occurs in another.
pub open spec fn occurs(s: Seq<char>, part: Seq<char>) -> bool {
    exists|i: int| occurs_at(s, part, i)
}

/// Whether some characters occur in others at an index.
pub fn found_at(chars: &Vec<char>, part: &Vec<char>, i: usize) -> (result: bool)
    requires
        i <= chars@.len(),
    ensures
        result == occurs_at(chars@, part@, i as int),
{
    if part.len() > chars.len() - i {
        return false;
    }
    let mut k: usize = 0;
    while k < part.len()
        invariant
            k <= part.len(),
            i + part.len() <= chars.len(),
            forall|j: int| 0 <= j < k ==> #[trigger] part@[j] == chars@[i + j],
        decreases part.len() - k,
    {
        if chars[i + k] != part[k] {
            proof {
                assert(chars@.subrange(i as int, i + part@.len())[k as int] == chars@[i + k]);
            }
            return false;
        }
        k = k + 1;
    }
    proof {
        assert(chars@.subrange(i as int, i + part@.len()) =~= part@);
    }
    true
}

/// Whether a text occurs in another.
pub fn contains(text: &str, part: &str) -> (result: bool)
    ensures
        result == occurs(text@, part@),
{
    let chars = chars_of(text);
    let sought = chars_of(part);
    let mut i: usize = 0;
    while i <= chars.len()
        invariant
            i <= chars.len() + 1,
            chars@ == text@,
            sought@ == part@,
            forall|j: int| 0 <= j < i ==> !occurs_at(text@, part@, j),
        decreases chars.len() + 1 - i,
    {
        if found_at(&chars, &sought, i) {
            return true;
        }
        if i == chars.len() {
            return false;
        }
        i = i + 1;
    }
    false
}

/// A text with each occurrence of a part replaced, from left to right.
pub open spec fn replaced(s: Seq<char>, part: Seq<char>, by: Seq<char>) -> Seq<char>
    decreases s.len(),
{
    if part.len() == 0 || s.len() < part.len() {
        s
    } else if begins(s, part) {
        by + replaced(s.skip(part.len() as int), part, by)
    } else {
        seq![s[0]] + replaced(s.drop_first(), part, by)
    }
}

/// Replaces each occurrence of a non-empty part of a text.
pub fn replace(text: &str, part: &str, by: &str) -> (result: String)
    requires
        part@.len() > 0,
    ensures
        result@ == replaced(text@, part@, by@),
{
    let chars = chars_of(text);
    let sought = chars_of(part);
    let mut result = String::new();
    let mut i: usize = 0;
    proof {
        assert(chars@.skip(0) == chars@);
    }
    while i < chars.len()
        invariant
            i <= chars.len(),
            chars@ == text@,
            sought@ == part@,
            part@.len() > 0,
            replaced(text@, part@, by@) == result@ + replaced(text@.skip(i as int), part@, by@),
        decreases chars.len() - i,
    {
        let ghost rest = text@.skip(i as int);
        if found_at(&chars, &sought, i) {
            proof {
                assert(rest.take(part@.len() as int) == text@.subrange(i as int, i + part@.len()));
                assert(rest.skip(part@.len() as int) == text@.skip(i + part@.len()));
                assert(result@ + (by@ + replaced(text@.skip(i + part@.len()), part@, by@)) =~= (
                result@ + by@) + replaced(text@.skip(i + part@.len()), part@, by@));
            }
            result.append(by);
            i = i + sought.len();
        } else {
            let c = chars[i];
            proof {
                if part@.len() <= rest.len() {
                    assert(rest.take(part@.len() as int) == text@.subrange(
                        i as int,
                        i + part@.len(),
                    ));
                    assert(rest.drop_first() == text@.skip(i + 1));
                    assert(result@ + (seq![c] + replaced(text@.skip(i + 1), part@, by@))
                        =~= result@.push(c) + replaced(text@.skip(i + 1), part@, by@));
                } else {
                    assert(result@ + rest =~= result@.push(c) + text@.skip(i + 1));
                }
            }
            result.push(c);
            i = i + 1;
        }
    }
    proof {
        assert(result@ + text@.skip(i as int) =~= result@);
    }
    result
}

/// Whether a part, laid over a marker at some shift, agrees with it wherever the two
/// overlap, and they do overlap.
pub open spec fn straddles(part: Seq<char>, marker: Seq<char>) -> bool {
    exists|shift: int| #[trigger] agrees_at(part, marker, shift)
}

/// Whether a part laid over a marker at a shift overlaps it and agrees with it there.
pub open spec fn agrees_at(part: Seq<char>, marker: Seq<char>, shift: int) -> bool {
    &&& -part.len() < shift < marker.len()
    &&& forall|k: int|
        0 <= k < part.len() && 0 <= shift + k < marker.len() ==> #[trigger] part[k]
            == marker[shift + k]
}

/// The front of a text with replacements is the front of the text, unless a marker
/// reaches into it.
proof fn lemma_replaced_front(s: Seq<char>, part: Seq<char>, by: Seq<char>, n: int)
    requires
        part.len() > 0,
        0 <= n <= replaced(s, part, by).len(),
    ensures
        (n <= s.len() && s.take(n) == replaced(s, part, by).take(n)) || exists|j: int|
            #[trigger] marker_from(replaced(s, part, by), by, j, n),
    decreases s.len(),
{
    let out = replaced(s, part, by);
    if s.len() < part.len() || n == 0 {
        assert(s.take(n) =~= out.take(n));
    } else if begins(s, part) {
        assert(marker_from(out, by, 0, n));
    } else {
        let rest = replaced(s.drop_first(), part, by);
        lemma_replaced_front(s.drop_first(), part, by, n - 1);
        if n - 1 <= s.drop_first().len() && s.drop_first().take(n - 1) == rest.take(n - 1) {
            assert forall|k: int| 0 <= k < n implies s[k] == out[k] by {
                if k > 0 {
                    assert(s.drop_first().take(n - 1)[k - 1] == rest.take(n - 1)[k - 1]);
                }
            }
            assert(s.take(n) =~= out.take(n));
        } else {
            let j = choose|j: int| #[trigger] marker_from(rest, by, j, n - 1);
            assert forall|k: int|
                j + 1 <= k < n && k - (j + 1) < by.len() implies #[trigger] out[k] == by[k - (j
                + 1)] by {
                assert(out[k] == rest[k - 1]);
            }
            assert(marker_from(out, by, j + 1, n));
        }
    }
}

/// Whether a marker starts at an index below `n` of a text, as far as the first `n`
/// characters show.
spec fn marker_from(s: Seq<char>, marker: Seq<char>, j: int, n: int) -> bool {
    &&& 0 <= j < n
    &&& forall|k: int| j <= k < n && k - j < marker.len() ==> #[trigger] s[k] == marker[k - j]
}

/// A part that cannot lie across the marker put in its place does not occur after all its
/// occurrences were replaced.
pub proof fn law_replaced_part_is_gone(s: Seq<char>, part: Seq<char>, by: Seq<char>)
    requires
        part.len() > 0,
        by.len() > 0,
        !straddles(part, by),
    ensures
        !occurs(replaced(s, part, by), part),
    decreases s.len(),
{
    let out = replaced(s, part, by);
    if occurs(out, part) {
        let i = choose|i: int| occurs_at(out, part, i);
        let n = part.len() as int;
        assert forall|k: int| 0 <= k < n implies out[i + k] == #[trigger] part[k] by {
            assert(out.subrange(i, i + n)[k] == part[k]);
        }
        if s.len() < part.len() {
        } else if begins(s, part) {
            let rest = replaced(s.skip(n), part, by);
            if i < by.len() {
                assert(agrees_at(part, by, i));
            } else {
                assert(rest.subrange(i - by.len(), i - by.len() + n) =~= part);
                assert(occurs_at(rest, part, i - by.len()));
                law_replaced_part_is_gone(s.skip(n), part, by);
            }
        } else {
            let rest = replaced(s.drop_first(), part, by);
            if i > 0 {
                assert(rest.subrange(i - 1, i - 1 + n) =~= part);
                assert(occurs_at(rest, part, i - 1));
                law_replaced_part_is_gone(s.drop_first(), part, by);
            } else {
                lemma_replaced_front(s, part, by, n);
                assert(out.take(n) =~= part);
                let j = choose|j: int| #[trigger] marker_from(out, by, j, n);
                assert(agrees_at(part, by, -j)) by {
                    assert forall|k: int|
                        0 <= k < part.len() && 0 <= -j + k < by.len() implies #[trigger] part[k]
                        == by[-j + k] by {
                        assert(out[k] == by[k - j]);
                        assert(out[0 + k] == part[k]);
                    }
                }
            }
        }
    }
}

/// A text without its control characters.
pub open spec fn without_controls(s: Seq<char>) -> Seq<char> {
    s.filter(|c: char| !is_control_char(c))
}

/// Takes the control characters out of a text.
pub fn remove_controls(text: &str) -> (result: String)
    ensures
        result@ == without_controls(text@),
{
    let mut result = String::new();
    proof {
        reveal(Seq::filter);
    }
    for c in it: text.chars()
        invariant
            it.seq() == text@,
            result@ == without_controls(text@.take(it.index())),
    {
        proof {
            reveal(Seq::filter);
            assert(text@.take(it.index() + 1).drop_last() =~= text@.take(it.index()));
        }
        if !control_char(c) {
            result.push(c);
        }
    }
    proof {
        assert(text@.take(text@.len() as int) == text@);
    }
    result
}

/// No control character is left in a text without control characters.
pub proof fn law_no_control_is_left(s: Seq<char>)
    ensures
        forall|i: int|
            0 <= i < without_controls(s).len() ==> !is_control_char(
                #[trigger] without_controls(s)[i],
            ),
    decreases s.len(),
{
    reveal(Seq::filter);
    if s.len() > 0 {
        law_no_control_is_left(s.drop_last());
    }
}

/// The characters at the end of a text that follow its last white space.
pub open spec fn open_word(s: Seq<char>) -> Seq<char>
    decreases s.len(),
{
    if s.len() == 0 || is_white_space(s.last()) {
        Seq::empty()
    } else {
        open_word(s.drop_last()).push(s.last())
    }
}

/// The words of a text that white space follows.
pub open spec fn closed_words(s: Seq<char>) -> Seq<Seq<char>>
    decreases s.len(),
{
    if s.len() == 0 {
        Seq::empty()
    } else if is_white_space(s.last()) && open_word(s.drop_last()).len() > 0 {
        closed_words(s.drop_last()).push(open_word(s.drop_last()))
    } else {
        closed_words(s.drop_last())
    }
}

/// The maximal runs of non-blank characters of a text.
pub open spec fn words(s: Seq<char>) -> Seq<Seq<char>> {
    if open_word(s).len() > 0 {
        closed_words(s).push(open_word(s))
    } else {
        closed_words(s)
    }
}

/// Whether each character of a text is allowed.
pub open spec fn all_allowed(s: Seq<char>, allowed: spec_fn(char) -> bool) -> bool {
    forall|i: int| 0 <= i < s.len() ==> allowed(#[trigger] s[i])
}

/// A trimmed text is made of the characters of the text.
pub proof fn lemma_trimmed_allowed(s: Seq<char>, allowed: spec_fn(char) -> bool)
    requires
        all_allowed(s, allowed),
    ensures
        all_allowed(trimmed(s), allowed),
{
    lemma_trim_start_allowed(s, allowed);
    lemma_trim_end_allowed(trim_start(s), allowed);
}

/// A text without leading white space is made of the characters of the text.
proof fn lemma_trim_start_allowed(s: Seq<char>, allowed: spec_fn(char) -> bool)
    requires
        all_allowed(s, allowed),
    ensures
        all_allowed(trim_start(s), allowed),
    decreases s.len(),
{
    if s.len() > 0 && is_white_space(s[0]) {
        lemma_trim_start_allowed(s.drop_first(), allowed);
    }
}

/// A text without trailing white space is made of the characters of the text.
proof fn lemma_trim_end_allowed(s: Seq<char>, allowed: spec_fn(char) -> bool)
    requires
        all_allowed(s, allowed),
    ensures
        all_allowed(trim_end(s), allowed),
    decreases s.len(),
{
    if s.len() > 0 && is_white_space(s.last()) {
        lemma_trim_end_allowed(s.drop_last(), allowed);
    }
}

/// The words of a text are made of its characters.
pub proof fn lemma_words_allowed(s: Seq<char>, allowed: spec_fn(char) -> bool)
    requires
        all_allowed(s, allowed),
    ensures
        all_allowed(open_word(s), allowed),
        forall|i: int| 0 <= i < words(s).len() ==> all_allowed(#[trigger] words(s)[i], allowed),
        forall|i: int|
            0 <= i < closed_words(s).len() ==> all_allowed(#[trigger] closed_words(s)[i], allowed),
    decreases s.len(),
{
    if s.len() > 0 {
        let front = s.drop_last();
        lemma_words_allowed(front, allowed);
        assert forall|i: int| 0 <= i < closed_words(s).len() implies all_allowed(
            #[trigger] closed_words(s)[i],
            allowed,
        ) by {
            if i < closed_words(front).len() {
                assert(closed_words(s)[i] == closed_words(front)[i]);
            }
        }
    }
    assert forall|i: int| 0 <= i < words(s).len() implies all_allowed(
        #[trigger] words(s)[i],
        allowed,
    ) by {
        if i < closed_words(s).len() {
            assert(words(s)[i] == closed_words(s)[i]);
        }
    }
}

/// Joined texts are made of their characters and those of the separator.
pub proof fn lemma_joined_allowed(
    parts: Seq<Seq<char>>,
    separator: Seq<char>,
    allowed: spec_fn(char) -> bool,
)
    requires
        all_allowed(separator, allowed),
        forall|i: int| 0 <= i < parts.len() ==> all_allowed(#[trigger] parts[i], allowed),
    ensures
        all_allowed(joined(parts, separator), allowed),
    decreases parts.len(),
{
    if parts.len() > 1 {
        lemma_joined_allowed(parts.drop_last(), separator, allowed);
    }
}

/// The views of some texts.
pub open spec fn views(texts: Seq<String>) -> Seq<Seq<char>> {
    texts.map_values(|text: String| text@)
}

/// Splits a text at its white space.
pub fn split_whitespace(text: &str) -> (result: Vec<String>)
    ensures
        views(result@) == words(text@),
{
    let mut result: Vec<String> = Vec::new();
    let mut word = String::new();
    proof {
        assert(views(result@) =~= Seq::<Seq<char>>::empty());
    }
    for c in it: text.chars()
        invariant
            it.seq() == text@,
            views(result@) == closed_words(text@.take(it.index())),
            word@ == open_word(text@.take(it.index())),
    {
        let ghost seen = text@.take(it.index());
        proof {
            assert(text@.take(it.index() + 1) =~= seen.push(c));
            assert(seen.push(c).drop_last() =~= seen);
        }
        if white_space(c) {
            if !word.as_str().is_empty() {
                let ghost before = result@;
                let ghost closed = word@;
                result.push(word);
                word = String::new();
                proof {
                    assert(views(result@) =~= views(before).push(closed));
                }
            }
        } else {
            word.push(c);
        }
    }
    proof {
        assert(text@.take(text@.len() as int) == text@);
    }
    if !word.as_str().is_empty() {
        let ghost before = result@;
        let ghost last = word@;
        result.push(word);
        proof {
            assert(views(result@) =~= views(before).push(last));
        }
    }
    result
}

/// A text followed by a lead and a part, where there is a part.
pub open spec fn with_part(s: Seq<char>, lead: Seq<char>, part: Option<Seq<char>>) -> Seq<char> {
    match part {
        Some(part) => s + lead + part,
        None => s,
    }
}

/// Adds a lead and a part to a text, where there is a part.
pub fn append_part(text: &mut String, lead: &str, part: Option<&str>)
    ensures
        final(text)@ == with_part(old(text)@, lead@, opt_str(part)),
{
    match part {
        Some(part) => {
            text.append(lead);
            text.append(part);
        },
        None => {},
    }
}

/// Some texts in one, with a separator between each two.
pub open spec fn joined(parts: Seq<Seq<char>>, separator: Seq<char>) -> Seq<char>
    decreases parts.len(),
{
    if parts.len() == 0 {
        Seq::empty()
    } else if parts.len() == 1 {
        parts[0]
    } else {
        joined(parts.drop_last(), separator) + separator + parts.last()
    }
}

/// Puts some texts in one, with a separator between each two.
pub fn join(parts: &Vec<String>, separator: &str) -> (result: String)
    ensures
        result@ == joined(views(parts@), separator@),
{
    let mut result = String::new();
    let mut i: usize = 0;
    let ghost all = views(parts@);
    while i < parts.len()
        invariant
            i <= parts.len(),
            all == views(parts@),
            result@ == joined(all.take(i as int), separator@),
        decreases parts.len() - i,
    {
        proof {
            assert(all.take(i + 1).drop_last() =~= all.take(i as int));
            assert(all[i as int] == parts@[i as int]@);
            if i == 0 {
                assert(result@ + parts@[0]@ =~= parts@[0]@);
            }
        }
        if i > 0 {
            result.append(separator);
        }
        result.append(parts[i].as_str());
        i = i + 1;
    }
    proof {
        assert(all.take(all.len() as int) == all);
    }
    result
}

/// The characters that count as white space are the 25 that Unicode lists.
pub proof fn law_white_space_is_listed(c: char)
    ensures
        is_white_space(c) <==> {
            let code = c as u32;
            ||| code == 9 || code == 10 || code == 11 || code == 12 || code == 13 || code == 32
            ||| code == 133 || code == 160 || code == 5760
            ||| 8192 <= code && code <= 8202
            ||| code == 8232 || code == 8233 || code == 8239 || code == 8287 || code == 12288
        },
{
}

/// The control characters are the codes below 32 and those from 127 to 159.
pub proof fn law_control_is_listed(c: char)
    ensures
        is_control_char(c) <==> (c as u32) < 32 || 127 <= (c as u32) <= 159,
{
}

/// Taking off leading white space leaves the rest of the text, from its first character that is
/// no white space.
proof fn lemma_trim_start_cut(s: Seq<char>) -> (a: int)
    ensures
        0 <= a <= s.len(),
        trim_start(s) == s.skip(a),
        forall|i: int| 0 <= i < a ==> is_white_space(#[trigger] s[i]),
    decreases s.len(),
{
    if s.len() > 0 && is_white_space(s[0]) {
        let rest = s.drop_first();
        let a = lemma_trim_start_cut(rest);
        assert(rest.skip(a) =~= s.skip(a + 1));
        assert forall|i: int| 0 <= i < a + 1 implies is_white_space(#[trigger] s[i]) by {
            if i > 0 {
                assert(rest[i - 1] == s[i]);
            }
        }
        a + 1
    } else {
        assert(s.skip(0) =~= s);
        0
    }
}

/// Taking off trailing white space leaves the front of the text, up to its last character that
/// is no white space.
proof fn lemma_trim_end_cut(s: Seq<char>) -> (b: int)
    ensures
        0 <= b <= s.len(),
        trim_end(s) == s.take(b),
        forall|i: int| b <= i < s.len() ==> is_white_space(#[trigger] s[i]),
    decreases s.len(),
{
    if s.len() > 0 && is_white_space(s.last()) {
        let rest = s.drop_last();
        let b = lemma_trim_end_cut(rest);
        assert(rest.take(b) =~= s.take(b));
        assert forall|i: int| b <= i < s.len() implies is_white_space(#[trigger] s[i]) by {
            if i < rest.len() {
                assert(rest[i] == s[i]);
            }
        }
        b
    } else {
        assert(s.take(s.len() as int) =~= s);
        s.len() as int
    }
}

/// A trimmed text is one piece of the text: all that was cut off on either side is white space,
/// and it neither begins nor ends with white space itself.
pub proof fn law_trimmed_is_the_middle(s: Seq<char>)
    ensures
        exists|a: int, b: int|
            0 <= a <= b <= s.len() && #[trigger] s.subrange(a, b) == trimmed(s) && (forall|i: int|
                0 <= i < a || b <= i < s.len() ==> is_white_space(#[trigger] s[i])) && (a < b
                ==> !is_white_space(s[a]) && !is_white_space(s[b - 1])),
{
    let a = lemma_trim_start_cut(s);
    let rest = s.skip(a);
    let b = lemma_trim_end_cut(rest);
    lemma_trim_start_stops(s);
    lemma_trim_end_stops(rest);
    assert(rest.take(b) =~= s.subrange(a, a + b));
    assert forall|i: int| 0 <= i < a || a + b <= i < s.len() implies is_white_space(
        #[trigger] s[i],
    ) by {
        if i >= a {
            assert(rest[i - a] == s[i]);
        }
    }
    if b > 0 {
        assert(rest.take(b)[0] == s[a]);
        assert(rest.take(b).last() == s[a + b - 1]);
        assert(trim_start(s)[0] == s[a]);
    }
    assert(s.subrange(a, a + b) == trimmed(s));
}

/// White space around a text changes nothing once it is trimmed, and a text that neither begins
/// nor ends with white space is left as it is.
pub proof fn law_trimming_takes_off_white_space(front: Seq<char>, s: Seq<char>, back: Seq<char>)
    requires
        forall|i: int| 0 <= i < front.len() ==> is_white_space(#[trigger] front[i]),
        forall|i: int| 0 <= i < back.len() ==> is_white_space(#[trigger] back[i]),
        s.len() > 0 ==> !is_white_space(s[0]) && !is_white_space(s[s.len() - 1]),
    ensures
        trimmed(front + s + back) == s,
{
    let whole = front + s + back;
    law_trimmed_is_the_middle(whole);
    let (a, b) = choose|a: int, b: int|
        0 <= a <= b <= whole.len() && #[trigger] whole.subrange(a, b) == trimmed(whole) && (forall|
            i: int,
        |
            0 <= i < a || b <= i < whole.len() ==> is_white_space(#[trigger] whole[i])) && (a < b
            ==> !is_white_space(whole[a]) && !is_white_space(whole[b - 1]));
    let n = front.len() as int;
    let m = n + s.len();
    assert(forall|i: int| 0 <= i < n ==> #[trigger] whole[i] == front[i]);
    assert(forall|i: int| m <= i < whole.len() ==> #[trigger] whole[i] == back[i - m]);
    if s.len() > 0 {
        assert(whole[n] == s[0]);
        assert(whole[m - 1] == s[s.len() - 1]);
        assert(a == n);
        assert(b == m);
        assert(whole.subrange(a, b) =~= s);
    } else {
        if a < b {
            assert(is_white_space(whole[a]));
        }
        assert(whole.subrange(a, b) =~= s);
    }
}

/// An optional text is dropped exactly where it is missing or made of white space alone; else it
/// is kept without the white space around it.
pub proof fn law_only_blank_is_dropped(s: Option<Seq<char>>)
    ensures
        non_blank(s) is None <==> (s matches Some(text) ==> forall|i: int|
            0 <= i < text.len() ==> is_white_space(#[trigger] text[i])),
        non_blank(s) matches Some(kept) ==> kept == trimmed(s->0),
{
    if let Some(text) = s {
        if forall|i: int| 0 <= i < text.len() ==> is_white_space(#[trigger] text[i]) {
            law_trimming_takes_off_white_space(text, Seq::empty(), Seq::empty());
            assert(text + Seq::empty() + Seq::empty() =~= text);
        } else {
            let i = choose|i: int| 0 <= i < text.len() && !is_white_space(#[trigger] text[i]);
            lemma_not_blank(text, i);
        }
    }
}

/// Lower case changes the letters from `A` to `Z`, each to the letter 32 codes on, and nothing
/// else.
pub proof fn law_lower_case_moves_capitals(s: Seq<char>, i: int)
    requires
        0 <= i < s.len(),
    ensures
        lowered(s).len() == s.len(),
        lowered(s)[i] as u32 == if 65 <= s[i] as u32 && s[i] as u32 <= 90 {
            (s[i] as u32 + 32) as u32
        } else {
            s[i] as u32
        },
{
    lemma_capital_code(s[i]);
}

/// The lower case of a character by its code.
proof fn lemma_capital_code(c: char)
    ensures
        ascii_lower(c) as u32 == if 65 <= c as u32 && c as u32 <= 90 {
            (c as u32 + 32) as u32
        } else {
            c as u32
        },
{
    if 'A' <= c <= 'Z' {
        let small = c as u8;
        assert(small == c as u32);
        assert(((small + 32) as u8) == c as u32 + 32);
    }
}

/// The first occurrence of a character is found wherever there is one: what stands before it
/// does not hold the character.
pub proof fn law_first_position(s: Seq<char>, c: char)
    ensures
        match position(s, c) {
            Some(i) => i < s.len() && s[i as int] == c && forall|k: int|
                0 <= k < i ==> #[trigger] s[k] != c,
            None => forall|k: int| 0 <= k < s.len() ==> #[trigger] s[k] != c,
        },
    decreases s.len(),
{
    if s.len() > 0 && s[0] != c {
        let rest = s.drop_first();
        law_first_position(rest, c);
        assert(forall|k: int| 0 < k < s.len() ==> #[trigger] s[k] == rest[k - 1]);
    }
}

/// The last occurrence of a character is found wherever there is one: what stands after it does
/// not hold the character.
pub proof fn law_last_position(s: Seq<char>, c: char)
    ensures
        match last_position(s, c) {
            Some(i) => i < s.len() && s[i as int] == c && forall|k: int|
                i < k < s.len() ==> #[trigger] s[k] != c,
            None => forall|k: int| 0 <= k < s.len() ==> #[trigger] s[k] != c,
        },
    decreases s.len(),
{
    if s.len() > 0 && s.last() != c {
        let rest = s.drop_last();
        law_last_position(rest, c);
        assert(forall|k: int| 0 <= k < rest.len() ==> #[trigger] s[k] == rest[k]);
    }
}

/// A text with a character is cut right where the character first stands, and a text without it
/// is not cut.
pub proof fn law_cut_at_first(front: Seq<char>, c: char, back: Seq<char>)
    requires
        !front.contains(c),
    ensures
        split_at_char(front + seq![c] + back, c) == Some((front, back)),
        split_at_char(front, c) is None,
{
    let whole = front + seq![c] + back;
    law_first_position(front, c);
    if let Some(i) = position(front, c) {
        assert(front.contains(front[i as int]));
    }
    lemma_position_after(front, c, back);
    assert(whole.take(front.len() as int) =~= front);
    assert(whole.skip(front.len() as int + 1) =~= back);
}

/// What follows a prefix is found exactly where the text is the prefix and that, and what
/// precedes a suffix where it is that and the suffix.
pub proof fn law_parts_are_taken_off(s: Seq<char>, part: Seq<char>, rest: Seq<char>)
    ensures
        after_prefix(s, part) == Some(rest) <==> s == part + rest,
        before_suffix(s, part) == Some(rest) <==> s == rest + part,
        after_prefix(s, part) is Some <==> begins(s, part),
        before_suffix(s, part) is Some <==> ends(s, part),
{
    let after = part + rest;
    let before = rest + part;
    assert(after.take(part.len() as int) =~= part);
    assert(after.skip(part.len() as int) =~= rest);
    assert(before.skip(rest.len() as int) =~= part);
    assert(before.take(rest.len() as int) =~= rest);
    if begins(s, part) {
        assert(s =~= part + s.skip(part.len() as int));
    }
    if ends(s, part) {
        assert(s =~= s.take(s.len() - part.len()) + part);
    }
}

/// Control characters are left out one by one: two texts in one are left with what each is left
/// with, and a single character stays unless it is a control character.
pub proof fn law_controls_are_left_out(left: Seq<char>, right: Seq<char>, c: char)
    ensures
        without_controls(left + right) == without_controls(left) + without_controls(right),
        without_controls(seq![c]) == if (c as u32) < 32 || 127 <= (c as u32) <= 159 {
            Seq::<char>::empty()
        } else {
            seq![c]
        },
    decreases right.len(),
{
    reveal(Seq::filter);
    assert(without_controls(Seq::empty()) =~= Seq::<char>::empty());
    assert(seq![c].drop_last() =~= Seq::empty());
    assert(without_controls(seq![c]) =~= if is_control_char(c) {
        Seq::<char>::empty()
    } else {
        seq![c]
    });
    if right.len() == 0 {
        assert(left + right =~= left);
        assert(without_controls(left) + without_controls(right) =~= without_controls(left));
    } else {
        law_controls_are_left_out(left, right.drop_last(), c);
        assert((left + right).drop_last() =~= left + right.drop_last());
        assert(without_controls(left + right) =~= without_controls(left) + without_controls(right));
    }
}

/// The words of a text up to an index, as the text goes on behind white space.
proof fn lemma_words_go_on(left: Seq<char>, c: char, right: Seq<char>)
    requires
        is_white_space(c),
    ensures
        open_word(left + seq![c] + right) == open_word(right),
        closed_words(left + seq![c] + right) == words(left) + closed_words(right),
    decreases right.len(),
{
    let whole = left + seq![c] + right;
    if right.len() == 0 {
        assert(whole =~= left.push(c));
        assert(left.push(c).drop_last() =~= left);
        assert(words(left) + closed_words(right) =~= words(left));
    } else {
        let fewer = right.drop_last();
        lemma_words_go_on(left, c, fewer);
        assert(whole.drop_last() =~= left + seq![c] + fewer);
        assert(whole.last() == right.last());
        assert(closed_words(whole) =~= words(left) + closed_words(right));
    }
}

/// White space ends one word and the next begins behind it: the words of a text with white
/// space in it are those of what stands before and those of what stands after.
pub proof fn law_white_space_parts_words(left: Seq<char>, c: char, right: Seq<char>)
    requires
        is_white_space(c),
    ensures
        words(left + seq![c] + right) == words(left) + words(right),
{
    lemma_words_go_on(left, c, right);
    assert(words(left + seq![c] + right) =~= words(left) + words(right));
}

/// A text without white space is one word, and nothing where it is empty.
pub proof fn law_word_is_whole(word: Seq<char>)
    requires
        forall|i: int| 0 <= i < word.len() ==> !is_white_space(#[trigger] word[i]),
    ensures
        words(word) == if word.len() > 0 {
            seq![word]
        } else {
            Seq::<Seq<char>>::empty()
        },
{
    lemma_word_stays_open(word);
    assert(words(word) =~= if word.len() > 0 {
        seq![word]
    } else {
        Seq::<Seq<char>>::empty()
    });
}

/// A text without white space is all open.
proof fn lemma_word_stays_open(word: Seq<char>)
    requires
        forall|i: int| 0 <= i < word.len() ==> !is_white_space(#[trigger] word[i]),
    ensures
        open_word(word) == word,
        closed_words(word) == Seq::<Seq<char>>::empty(),
    decreases word.len(),
{
    if word.len() > 0 {
        let front = word.drop_last();
        assert forall|i: int| 0 <= i < front.len() implies !is_white_space(#[trigger] front[i]) by {
            assert(front[i] == word[i]);
        }
        lemma_word_stays_open(front);
        assert(front.push(word.last()) =~= word);
        assert(!is_white_space(word[word.len() - 1]));
    }
}

/// Texts are joined with the separator between each two of them and nowhere else: one text is
/// itself, none is nothing, and two runs of texts are joined by one more separator.
pub proof fn law_separator_stands_between(
    left: Seq<Seq<char>>,
    right: Seq<Seq<char>>,
    text: Seq<char>,
    separator: Seq<char>,
)
    ensures
        joined(Seq::empty(), separator) == Seq::<char>::empty(),
        joined(seq![text], separator) == text,
        left.len() > 0 && right.len() > 0 ==> joined(left + right, separator) == joined(
            left,
            separator,
        ) + separator + joined(right, separator),
    decreases right.len(),
{
    if left.len() > 0 && right.len() > 0 {
        let fewer = right.drop_last();
        assert((left + right).drop_last() =~= left + fewer);
        assert((left + right).last() == right.last());
        if right.len() == 1 {
            assert(left + fewer =~= left);
        } else {
            law_separator_stands_between(left, fewer, text, separator);
            assert(joined(left + right, separator) =~= joined(left, separator) + separator
                + joined(right, separator));
        }
    }
}

/// Each of some texts stands in them joined, all those in front of it joined before it and all
/// those behind it after it.
pub proof fn law_joined_shows_each(parts: Seq<Seq<char>>, separator: Seq<char>, i: int)
    requires
        0 <= i < parts.len(),
    ensures
        joined(parts, separator) == (if i > 0 {
            joined(parts.take(i), separator) + separator
        } else {
            Seq::empty()
        }) + parts[i] + (if i < parts.len() - 1 {
            separator + joined(parts.skip(i + 1), separator)
        } else {
            Seq::empty()
        }),
{
    let front = parts.take(i);
    let back = parts.skip(i + 1);
    let one = seq![parts[i]];
    law_separator_stands_between(front, one, parts[i], separator);
    law_separator_stands_between(one, back, parts[i], separator);
    law_separator_stands_between(front, one + back, parts[i], separator);
    assert(parts =~= front + (one + back));
    if i == 0 {
        assert(parts =~= one + back);
    }
    if i == parts.len() - 1 {
        assert(one + back =~= one);
        assert(parts =~= front + one);
        if i == 0 {
            assert(parts =~= one);
        }
    }
    assert(joined(parts, separator) =~= (if i > 0 {
        joined(parts.take(i), separator) + separator
    } else {
        Seq::empty()
    }) + parts[i] + (if i < parts.len() - 1 {
        separator + joined(parts.skip(i + 1), separator)
    } else {
        Seq::empty()
    }));
}

/// The first occurrence of a part is replaced, and then what follows it; a text in which the
/// part does not occur is left as it is.
pub proof fn law_first_occurrence_is_replaced(
    front: Seq<char>,
    part: Seq<char>,
    back: Seq<char>,
    by: Seq<char>,
)
    requires
        part.len() > 0,
        forall|i: int|
            0 <= i < front.len() ==> (#[trigger] (front + part + back).skip(i)).take(
                part.len() as int,
            ) != part,
    ensures
        replaced(front + part + back, part, by) == front + by + replaced(back, part, by),
    decreases front.len(),
{
    let whole = front + part + back;
    if front.len() == 0 {
        assert(whole.take(part.len() as int) =~= part);
        assert(whole.skip(part.len() as int) =~= back);
        assert(front + by + replaced(back, part, by) =~= by + replaced(back, part, by));
    } else {
        let rest = front.drop_first();
        assert(whole.skip(0) =~= whole);
        assert(whole.drop_first() =~= rest + part + back);
        assert forall|i: int| 0 <= i < rest.len() implies (#[trigger] (rest + part + back).skip(
            i,
        )).take(part.len() as int) != part by {
            assert(whole.skip(i + 1) =~= (rest + part + back).skip(i));
        }
        law_first_occurrence_is_replaced(rest, part, back, by);
        assert(seq![whole[0]] + (rest + by + replaced(back, part, by)) =~= front + by + replaced(
            back,
            part,
            by,
        ));
    }
}

/// A text in which a part does not occur is left as it is when the part is replaced.
pub proof fn law_absent_part_changes_nothing(s: Seq<char>, part: Seq<char>, by: Seq<char>)
    requires
        part.len() == 0 || forall|i: int|
            0 <= i <= s.len() - part.len() ==> (#[trigger] s.skip(i)).take(part.len() as int)
                != part,
    ensures
        replaced(s, part, by) == s,
    decreases s.len(),
{
    if part.len() > 0 && s.len() >= part.len() {
        let rest = s.drop_first();
        assert(s.skip(0) =~= s);
        assert forall|i: int| 0 <= i <= rest.len() - part.len() implies (#[trigger] rest.skip(
            i,
        )).take(part.len() as int) != part by {
            assert(s.skip(i + 1) =~= rest.skip(i));
        }
        law_absent_part_changes_nothing(rest, part, by);
        assert(seq![s[0]] + rest =~= s);
    }
}

} // verus!
