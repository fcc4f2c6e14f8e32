//! The `Stop` hook in the configuration of Codex.

use crate::error::{outcome, AppError, AppErrorView};
use crate::number::{
    decimal, decimal_text, hex_char, hex_digit, hex_value, law_hex_digits_are_listed,
};
use crate::text::{
    begins, contains, control_char, ends, ends_with, eq_ignore_ascii_case, is_control_char,
    lemma_not_blank, lowered, non_blank, occurs, occurs_at, opt, same_text, trim, trimmed,
};
use crate::toml_value::{
    get, lemma_toml_views, parse_toml, parsed_toml, toml_field, toml_view, toml_views, Toml,
    TomlView,
};
use vstd::prelude::*;
use vstd::string::StringExecFns;

verus! {

/// The seconds that Codex gives the hook.
pub const HOOK_TIMEOUT_SECONDS: u64 = 10;

/// Ends the name of the copy that is kept of a changed file.
pub const BACKUP_SUFFIX: &'static str = ".codex-telegram-notify.bak";

/// Whether two commands are the same. File systems that ignore case make commands ignore it
/// too.
pub open spec fn commands_match(left: Seq<char>, right: Seq<char>, ignore_case: bool) -> bool {
    if ignore_case {
        lowered(left) == lowered(right)
    } else {
        left == right
    }
}

/// Whether two commands are the same.
pub fn same_command(left: &str, right: &str, ignore_case: bool) -> (result: bool)
    ensures
        result == commands_match(left@, right@, ignore_case),
{
    if ignore_case {
        eq_ignore_ascii_case(left, right)
    } else {
        same_text(left, right)
    }
}

/// Whether a value is a table that runs a command.
pub open spec fn runs_command(entry: TomlView, command: Seq<char>, ignore_case: bool) -> bool {
    match entry {
        TomlView::Table(entries) => {
            &&& toml_field(entries, "type"@) == Some(TomlView::Text("command"@))
            &&& toml_field(entries, "command"@) matches Some(TomlView::Text(value))
                && commands_match(value, command, ignore_case)
        },
        _ => false,
    }
}

/// Whether one of some values runs a command.
pub open spec fn any_runs(entries: Seq<TomlView>, command: Seq<char>, ignore_case: bool) -> bool {
    exists|i: int| 0 <= i < entries.len() && #[trigger] runs_command(entries[i], command, ignore_case)
}

/// Whether one of the entries under `hooks.Stop` runs a command. They are read in order, and
/// the first that runs it or is not shaped as it must be decides.
pub open spec fn stop_runs(entries: Seq<TomlView>, command: Seq<char>, ignore_case: bool) -> Result<
    bool,
    AppErrorView,
>
    decreases entries.len(),
{
    if entries.len() == 0 {
        Ok(false)
    } else {
        let rest = entries.drop_first();
        match entries[0] {
            TomlView::Table(entry) => match toml_field(entry, "hooks"@) {
                None => stop_runs(rest, command, ignore_case),
                Some(TomlView::Array(hooks)) => if any_runs(hooks, command, ignore_case) {
                    Ok(true)
                } else {
                    stop_runs(rest, command, ignore_case)
                },
                Some(_) => Err(
                    AppErrorView::Config(
                        "Codex configuration has an invalid hooks.Stop.hooks array"@,
                    ),
                ),
            },
            _ => Err(
                AppErrorView::Config("Codex configuration has an invalid hooks.Stop entry"@),
            ),
        }
    }
}

/// Whether a configuration runs a command when Codex stops.
pub open spec fn document_runs(document: TomlView, command: Seq<char>, ignore_case: bool) -> Result<
    bool,
    AppErrorView,
> {
    match document {
        TomlView::Table(entries) => match toml_field(entries, "hooks"@) {
            None => Ok(false),
            Some(TomlView::Table(hooks)) => match toml_field(hooks, "Stop"@) {
                None => Ok(false),
                Some(TomlView::Array(stop)) => stop_runs(stop, command, ignore_case),
                Some(_) => Err(
                    AppErrorView::Config("Codex configuration has an invalid hooks.Stop array"@),
                ),
            },
            Some(_) => Err(
                AppErrorView::Config("Codex configuration has an invalid hooks table"@),
            ),
        },
        _ => Ok(false),
    }
}

/// Whether the text of a configuration runs a command when Codex stops.
pub open spec fn contents_run(contents: Seq<char>, command: Seq<char>, ignore_case: bool) -> Result<
    bool,
    AppErrorView,
> {
    if trimmed(contents).len() == 0 {
        Ok(false)
    } else {
        match parsed_toml(contents) {
            Ok(document) => document_runs(document, command, ignore_case),
            Err(error) => Err(
                AppErrorView::Config("Codex configuration contains invalid TOML: "@ + error),
            ),
        }
    }
}

/// Whether an optional value is a given text.
fn is_text(value: Option<&Toml>, text: &str) -> (result: bool)
    ensures
        result == match value {
            Some(value) => value@ == TomlView::Text(text@),
            None => false,
        },
{
    match value {
        Some(Toml::Text(value)) => same_text(value.as_str(), text),
        _ => false,
    }
}

/// Whether a value is a table that runs a command.
fn entry_runs(entry: &Toml, command: &str, ignore_case: bool) -> (result: bool)
    ensures
        result == runs_command(entry@, command@, ignore_case),
{
    match entry {
        Toml::Table(entries) => {
            let is_command = is_text(get(entries, "type"), "command");
            let matches = match get(entries, "command") {
                Some(Toml::Text(value)) => same_command(value.as_str(), command, ignore_case),
                _ => false,
            };
            is_command && matches
        },
        _ => false,
    }
}

/// Whether one of some values runs a command.
fn some_entry_runs(entries: &Vec<Toml>, command: &str, ignore_case: bool) -> (result: bool)
    ensures
        result == any_runs(toml_views(entries@), command@, ignore_case),
{
    let ghost all = toml_views(entries@);
    proof {
        lemma_toml_views(entries@);
    }
    let mut i: usize = 0;
    while i < entries.len()
        invariant
            i <= entries.len(),
            all == toml_views(entries@),
            all.len() == entries@.len(),
            forall|k: int| 0 <= k < all.len() ==> #[trigger] all[k] == toml_view(entries@[k]),
            forall|k: int|
                0 <= k < i ==> !#[trigger] runs_command(all[k], command@, ignore_case),
        decreases entries.len() - i,
    {
        if entry_runs(&entries[i], command, ignore_case) {
            proof {
                assert(runs_command(all[i as int], command@, ignore_case));
            }
            return true;
        }
        i = i + 1;
    }
    false
}

/// Whether a parsed configuration runs a command when Codex stops.
pub fn document_has_hook(document: &Toml, command: &str, ignore_case: bool) -> (result: Result<
    bool,
    AppError,
>)
    ensures
        outcome(result) == document_runs(document@, command@, ignore_case),
{
    let hooks = match document {
        Toml::Table(entries) => match get(entries, "hooks") {
            Some(hooks) => hooks,
            None => {
                return Ok(false);
            },
        },
        _ => {
            return Ok(false);
        },
    };
    let stop = match hooks {
        Toml::Table(entries) => match get(entries, "Stop") {
            Some(stop) => stop,
            None => {
                return Ok(false);
            },
        },
        _ => {
            return Err(
                AppError::Config("Codex configuration has an invalid hooks table".to_owned()),
            );
        },
    };
    match stop {
        Toml::Array(entries) => stop_entries_run(entries, command, ignore_case),
        _ => Err(
            AppError::Config("Codex configuration has an invalid hooks.Stop array".to_owned()),
        ),
    }
}

/// Whether one of the entries under `hooks.Stop` runs a command.
fn stop_entries_run(entries: &Vec<Toml>, command: &str, ignore_case: bool) -> (result: Result<
    bool,
    AppError,
>)
    ensures
        outcome(result) == stop_runs(toml_views(entries@), command@, ignore_case),
{
    let ghost all = toml_views(entries@);
    proof {
        lemma_toml_views(entries@);
        assert(all.skip(0) == all);
    }
    let mut i: usize = 0;
    while i < entries.len()
        invariant
            i <= entries.len(),
            all == toml_views(entries@),
            all.len() == entries@.len(),
            forall|k: int| 0 <= k < all.len() ==> #[trigger] all[k] == toml_view(entries@[k]),
            stop_runs(all, command@, ignore_case) == stop_runs(
                all.skip(i as int),
                command@,
                ignore_case,
            ),
        decreases entries.len() - i,
    {
        proof {
            assert(all.skip(i as int)[0] == all[i as int]);
            assert(all.skip(i as int).drop_first() =~= all.skip(i + 1));
        }
        match &entries[i] {
            Toml::Table(entry) => match get(entry, "hooks") {
                None => {},
                Some(Toml::Array(hooks)) => {
                    if some_entry_runs(hooks, command, ignore_case) {
                        return Ok(true);
                    }
                },
                Some(_) => {
                    return Err(
                        AppError::Config(
                            "Codex configuration has an invalid hooks.Stop.hooks array".to_owned(),
                        ),
                    );
                },
            },
            _ => {
                return Err(
                    AppError::Config(
                        "Codex configuration has an invalid hooks.Stop entry".to_owned(),
                    ),
                );
            },
        }
        i = i + 1;
    }
    Ok(false)
}

/// Whether the text of a configuration runs a command when Codex stops.
pub fn has_command_hook(contents: &str, command: &str, ignore_case: bool) -> (result: Result<
    bool,
    AppError,
>)
    ensures
        outcome(result) == contents_run(contents@, command@, ignore_case),
{
    if trim(contents).is_empty() {
        return Ok(false);
    }
    match parse_toml(contents) {
        Ok(document) => document_has_hook(&document, command, ignore_case),
        Err(error) => {
            let mut message = "Codex configuration contains invalid TOML: ".to_owned();
            message.append(error.as_str());
            Err(AppError::Config(message))
        },
    }
}

/// How a character stands in a quoted TOML string.
pub open spec fn toml_escape(c: char) -> Seq<char> {
    if c == '\\' {
        seq!['\\', '\\']
    } else if c == '"' {
        seq!['\\', '"']
    } else if c == '\n' {
        seq!['\\', 'n']
    } else if c == '\r' {
        seq!['\\', 'r']
    } else if c == '\t' {
        seq!['\\', 't']
    } else if is_control_char(c) {
        seq!['\\', 'u', '0', '0', hex_char(c as nat / 16), hex_char(c as nat % 16)]
    } else {
        seq![c]
    }
}

/// How a text stands between the quotes of a TOML string.
pub open spec fn toml_escaped(s: Seq<char>) -> Seq<char>
    decreases s.len(),
{
    if s.len() == 0 {
        Seq::empty()
    } else {
        toml_escaped(s.drop_last()) + toml_escape(s.last())
    }
}

/// A text as a TOML string.
pub open spec fn toml_string(s: Seq<char>) -> Seq<char> {
    "\""@ + toml_escaped(s) + "\""@
}

/// Writes how a character stands in a quoted TOML string.
fn write_toml_escape(c: char) -> (result: String)
    ensures
        result@ == toml_escape(c),
{
    let mut result = String::new();
    if c == '\\' {
        result.push('\\');
        result.push('\\');
    } else if c == '"' {
        result.push('\\');
        result.push('"');
    } else if c == '\n' {
        result.push('\\');
        result.push('n');
    } else if c == '\r' {
        result.push('\\');
        result.push('r');
    } else if c == '\t' {
        result.push('\\');
        result.push('t');
    } else if control_char(c) {
        let code = c as u8;
        result.push('\\');
        result.push('u');
        result.push('0');
        result.push('0');
        result.push(hex_digit(code / 16));
        result.push(hex_digit(code % 16));
    } else {
        result.push(c);
    }
    proof {
        assert(result@ =~= toml_escape(c));
    }
    result
}

/// Writes a text as a TOML string.
pub fn quote_toml_string(value: &str) -> (result: String)
    ensures
        result@ == toml_string(value@),
{
    let mut escaped = String::new();
    for c in it: value.chars()
        invariant
            it.seq() == value@,
            escaped@ == toml_escaped(value@.take(it.index())),
    {
        proof {
            assert(value@.take(it.index() + 1).drop_last() =~= value@.take(it.index()));
        }
        escaped.append(write_toml_escape(c).as_str());
    }
    proof {
        assert(value@.take(value@.len() as int) == value@);
    }
    let mut result = "\"".to_owned();
    result.append(escaped.as_str());
    result.append("\"");
    result
}

/// How the lines of a text end.
pub open spec fn line_ending(contents: Seq<char>) -> Seq<char> {
    if occurs(contents, "\r\n"@) {
        "\r\n"@
    } else {
        "\n"@
    }
}

/// A text ready to be followed by a new section: its last line closed, and an empty line.
pub open spec fn closed_section(contents: Seq<char>) -> Seq<char> {
    if contents.len() == 0 {
        contents
    } else if ends(contents, "\n"@) {
        contents + line_ending(contents)
    } else {
        contents + line_ending(contents) + line_ending(contents)
    }
}

/// A configuration followed by a hook that runs a command when Codex stops.
pub open spec fn with_hook(contents: Seq<char>, command: Seq<char>) -> Seq<char> {
    let eol = line_ending(contents);
    closed_section(contents) + "[[hooks.Stop]]"@ + eol + eol + "[[hooks.Stop.hooks]]"@ + eol
        + "type = \"command\""@ + eol + "command = "@ + toml_string(command) + eol + "timeout = "@
        + decimal(HOOK_TIMEOUT_SECONDS as nat) + eol
}

/// Adds a hook that runs a command when Codex stops.
///
/// The text is stated to the letter. What the TOML parser makes of it is not: that depends on
/// how the contents are written, since the parser refuses a section for `hooks.Stop` where the
/// contents give that key as an inline array.
pub fn append_hook(contents: &str, command: &str) -> (result: String)
    ensures
        result@ == with_hook(contents@, command@),
{
    let eol: &str = if contains(contents, "\r\n") {
        "\r\n"
    } else {
        "\n"
    };
    let mut updated = contents.to_owned();
    if !contents.is_empty() {
        if !ends_with(contents, "\n") {
            updated.append(eol);
        }
        updated.append(eol);
    }
    updated.append("[[hooks.Stop]]");
    updated.append(eol);
    updated.append(eol);
    updated.append("[[hooks.Stop.hooks]]");
    updated.append(eol);
    updated.append("type = \"command\"");
    updated.append(eol);
    updated.append("command = ");
    updated.append(quote_toml_string(command).as_str());
    updated.append(eol);
    updated.append("timeout = ");
    updated.append(decimal_text(HOOK_TIMEOUT_SECONDS).as_str());
    updated.append(eol);
    updated
}

/// What installing the hook writes, if anything.
pub open spec fn installed(contents: Seq<char>, command: Seq<char>, ignore_case: bool) -> Result<
    Option<Seq<char>>,
    AppErrorView,
> {
    match contents_run(contents, command, ignore_case) {
        Ok(true) => Ok(None),
        Ok(false) => Ok(Some(with_hook(contents, command))),
        Err(error) => Err(error),
    }
}

/// The view of what installing the hook writes.
pub open spec fn plan_outcome(result: Result<Option<String>, AppError>) -> Result<
    Option<Seq<char>>,
    AppErrorView,
> {
    match result {
        Ok(text) => Ok(opt(text)),
        Err(error) => Err(error@),
    }
}

/// Decides what installing the hook writes: nothing where the hook is there, else the
/// configuration with the hook. The contents are parsed before the hook is added, and what is
/// written is not parsed again.
pub fn plan_install(contents: &str, command: &str, ignore_case: bool) -> (result: Result<
    Option<String>,
    AppError,
>)
    ensures
        plan_outcome(result) == installed(contents@, command@, ignore_case),
{
    match has_command_hook(contents, command, ignore_case) {
        Ok(present) => if present {
            Ok(None)
        } else {
            Ok(Some(append_hook(contents, command)))
        },
        Err(error) => Err(error),
    }
}

/// The name of the copy that is kept of a changed file.
pub fn backup_name(file_name: &str) -> (result: String)
    ensures
        result@ == file_name@ + BACKUP_SUFFIX@,
        result@ == file_name@ + ".codex-telegram-notify.bak"@,
{
    let mut result = file_name.to_owned();
    result.append(BACKUP_SUFFIX);
    result
}

/// A text trimmed, where anything is left of it.
pub fn non_empty_trimmed(value: String) -> (result: Option<String>)
    ensures
        opt(result) == non_blank(Some(value@)),
{
    let kept = trim(value.as_str());
    if kept.is_empty() {
        None
    } else {
        Some(kept.to_owned())
    }
}

/// The reasoning effort that `model_reasoning_effort` in the configuration of Codex sets.
pub fn codex_effort(setting: Option<String>) -> (result: Option<String>)
    ensures
        opt(result) == non_blank(opt(setting)),
{
    match setting {
        Some(effort) => non_empty_trimmed(effort),
        None => None,
    }
}

/// The character that an escape of two characters stands for.
pub open spec fn short_escape(c: char) -> Option<char> {
    if c == '\\' || c == '"' {
        Some(c)
    } else if c == 'n' {
        Some('\n')
    } else if c == 'r' {
        Some('\r')
    } else if c == 't' {
        Some('\t')
    } else {
        None
    }
}

/// The number that four hexadecimal digits denote.
pub open spec fn hex_number(s: Seq<char>) -> nat {
    hex_value(s[0]) * 4096 + hex_value(s[1]) * 256 + hex_value(s[2]) * 16 + hex_value(s[3])
}

/// A character in front of a text that is there.
pub open spec fn followed_by(c: char, rest: Option<Seq<char>>) -> Option<Seq<char>> {
    match rest {
        Some(rest) => Some(seq![c] + rest),
        None => None,
    }
}

/// The text that the inside of a TOML string denotes. A bare quote or control character is no
/// part of one.
pub open spec fn toml_unescaped(s: Seq<char>) -> Option<Seq<char>>
    decreases s.len(),
{
    if s.len() == 0 {
        Some(Seq::empty())
    } else if s[0] == '\\' {
        if s.len() >= 2 && short_escape(s[1]) is Some {
            followed_by(short_escape(s[1])->0, toml_unescaped(s.skip(2)))
        } else if s.len() >= 6 && s[1] == 'u' {
            followed_by(hex_number(s.subrange(2, 6)) as char, toml_unescaped(s.skip(6)))
        } else {
            None
        }
    } else if s[0] == '"' || is_control_char(s[0]) {
        None
    } else {
        followed_by(s[0], toml_unescaped(s.drop_first()))
    }
}

/// Escaping goes through a text from its front as well as from its end.
proof fn lemma_escaped_front(s: Seq<char>)
    requires
        s.len() > 0,
    ensures
        toml_escaped(s) == toml_escape(s[0]) + toml_escaped(s.drop_first()),
    decreases s.len(),
{
    if s.len() == 1 {
        assert(s.drop_last() =~= Seq::empty());
        assert(s.drop_first() =~= Seq::empty());
        assert(toml_escaped(s) =~= toml_escape(s[0]) + toml_escaped(s.drop_first()));
    } else {
        lemma_escaped_front(s.drop_last());
        let middle = s.drop_last().drop_first();
        assert(s.drop_first().drop_last() =~= middle);
        assert(toml_escaped(s.drop_first()) == toml_escaped(middle) + toml_escape(s.last()));
        assert(toml_escaped(s) =~= toml_escape(s[0]) + toml_escaped(s.drop_first()));
    }
}

/// The code of a control character has two hexadecimal digits.
proof fn lemma_control_code(c: char)
    requires
        is_control_char(c),
    ensures
        c as nat == c as int,
        c as nat / 16 < 16,
        ((c as nat) as char) == c,
{
}

/// A hexadecimal digit has the value that it was written for, and is no control character.
proof fn lemma_hex_digit(value: nat)
    requires
        value < 16,
    ensures
        hex_value(hex_char(value)) == value,
        !is_control_char(hex_char(value)),
{
}

/// Writing a text as a TOML string and reading the string gives the text back.
pub proof fn law_toml_string_reads_back(s: Seq<char>)
    ensures
        toml_unescaped(toml_escaped(s)) == Some(s),
    decreases s.len(),
{
    if s.len() > 0 {
        let c = s[0];
        let rest = toml_escaped(s.drop_first());
        let all = toml_escaped(s);
        lemma_escaped_front(s);
        law_toml_string_reads_back(s.drop_first());
        assert(seq![c] + s.drop_first() =~= s);
        let escape = toml_escape(c);
        if escape.len() == 1 {
            assert(all.drop_first() =~= rest);
            assert(all[0] == c);
        } else if escape.len() == 2 {
            assert(all.skip(2) =~= rest);
            assert(all[0] == '\\' && all[1] == escape[1]);
            assert(short_escape(escape[1]) == Some(c));
        } else {
            let code = c as nat;
            assert(all.skip(6) =~= rest);
            lemma_control_code(c);
            lemma_hex_digit(code / 16);
            lemma_hex_digit(code % 16);
            let digits = all.subrange(2, 6);
            assert(all[0] == '\\' && all[1] == 'u');
            assert(digits =~= seq!['0', '0', hex_char(code / 16), hex_char(code % 16)]);
            assert(hex_value('0') == 0);
            assert(hex_number(digits) == code);
            assert(short_escape('u') is None);
        }
    } else {
        assert(s =~= Seq::empty());
    }
}

/// No control character stands in a TOML string.
pub proof fn law_toml_string_has_no_controls(s: Seq<char>)
    ensures
        forall|i: int|
            0 <= i < toml_string(s).len() ==> !is_control_char(#[trigger] toml_string(s)[i]),
    decreases s.len(),
{
    reveal_strlit("\"");
    if s.len() > 0 {
        law_toml_string_has_no_controls(s.drop_last());
        let before = toml_string(s.drop_last());
        let code = s.last() as nat;
        if is_control_char(s.last()) {
            lemma_control_code(s.last());
            lemma_hex_digit(code / 16);
            lemma_hex_digit(code % 16);
        }
        assert forall|i: int| 0 <= i < toml_string(s).len() implies !is_control_char(
            #[trigger] toml_string(s)[i],
        ) by {
            let length = toml_escaped(s.drop_last()).len();
            if i <= length {
                assert(toml_string(s)[i] == before[i]);
            } else if i < toml_string(s).len() - 1 {
                assert(toml_string(s)[i] == toml_escape(s.last())[i - 1 - length]);
            }
        }
    }
}

/// What follows a text does not change how it begins.
proof fn lemma_still_begins(s: Seq<char>, prefix: Seq<char>, more: Seq<char>)
    requires
        begins(s, prefix),
    ensures
        begins(s + more, prefix),
{
    assert((s + more).take(prefix.len() as int) =~= s.take(prefix.len() as int));
}

/// A configuration with the hook begins as it does up to the header of the hook.
proof fn lemma_hook_begins(contents: Seq<char>, command: Seq<char>, prefix: Seq<char>)
    requires
        begins(closed_section(contents) + "[[hooks.Stop]]"@, prefix),
    ensures
        begins(with_hook(contents, command), prefix),
{
    let eol = line_ending(contents);
    let s1 = closed_section(contents) + "[[hooks.Stop]]"@ + eol;
    lemma_still_begins(closed_section(contents) + "[[hooks.Stop]]"@, prefix, eol);
    let s2 = s1 + eol + "[[hooks.Stop.hooks]]"@ + eol;
    lemma_still_begins(s1, prefix, eol);
    lemma_still_begins(s1 + eol, prefix, "[[hooks.Stop.hooks]]"@);
    lemma_still_begins(s1 + eol + "[[hooks.Stop.hooks]]"@, prefix, eol);
    let s3 = s2 + "type = \"command\""@ + eol;
    lemma_still_begins(s2, prefix, "type = \"command\""@);
    lemma_still_begins(s2 + "type = \"command\""@, prefix, eol);
    let s4 = s3 + "command = "@ + toml_string(command) + eol;
    lemma_still_begins(s3, prefix, "command = "@);
    lemma_still_begins(s3 + "command = "@, prefix, toml_string(command));
    lemma_still_begins(s3 + "command = "@ + toml_string(command), prefix, eol);
    let number = decimal(HOOK_TIMEOUT_SECONDS as nat);
    lemma_still_begins(s4, prefix, "timeout = "@);
    lemma_still_begins(s4 + "timeout = "@, prefix, number);
    lemma_still_begins(s4 + "timeout = "@ + number, prefix, eol);
}

/// A configuration with the hook begins with the configuration as it was.
pub proof fn law_install_keeps_contents(contents: Seq<char>, command: Seq<char>)
    ensures
        begins(with_hook(contents, command), contents),
{
    let eol = line_ending(contents);
    assert(contents.take(contents.len() as int) == contents);
    if contents.len() > 0 {
        lemma_still_begins(contents, contents, eol);
        lemma_still_begins(contents + eol, contents, eol);
    }
    lemma_still_begins(closed_section(contents), contents, "[[hooks.Stop]]"@);
    lemma_hook_begins(contents, command, contents);
}

/// Nothing is written where the hook is there, and where it is not, only what follows the
/// configuration as it was.
pub proof fn law_install_only_appends(contents: Seq<char>, command: Seq<char>, ignore_case: bool)
    ensures
        contents_run(contents, command, ignore_case) == Ok::<bool, AppErrorView>(true)
            ==> installed(contents, command, ignore_case) == Ok::<
            Option<Seq<char>>,
            AppErrorView,
        >(None),
        installed(contents, command, ignore_case) matches Ok(Some(text)) ==> begins(text, contents),
{
    law_install_keeps_contents(contents, command);
}

/// A configuration with the hook is not blank.
proof fn lemma_hook_is_visible(contents: Seq<char>, command: Seq<char>)
    ensures
        trimmed(with_hook(contents, command)).len() > 0,
{
    let headed = closed_section(contents) + "[[hooks.Stop]]"@;
    let at = closed_section(contents).len() as int;
    reveal_strlit("[[hooks.Stop]]");
    assert(headed.take(headed.len() as int) == headed);
    lemma_hook_begins(contents, command, headed);
    assert(with_hook(contents, command).take(headed.len() as int)[at] == headed[at]);
    assert(headed[at] == '[');
    lemma_not_blank(with_hook(contents, command), at);
}

/// The entries under `hooks.Stop`, none where there is no such key, where they are an array.
pub open spec fn stop_entries(document: TomlView) -> Option<Seq<TomlView>> {
    match document {
        TomlView::Table(entries) => match toml_field(entries, "hooks"@) {
            None => Some(Seq::empty()),
            Some(TomlView::Table(hooks)) => match toml_field(hooks, "Stop"@) {
                None => Some(Seq::empty()),
                Some(TomlView::Array(stop)) => Some(stop),
                Some(_) => None,
            },
            Some(_) => None,
        },
        _ => Some(Seq::empty()),
    }
}

/// The entries under `hooks.Stop` of the text of a configuration, where it can be read.
pub open spec fn stop_entries_of(contents: Seq<char>) -> Option<Seq<TomlView>> {
    if trimmed(contents).len() == 0 {
        Some(Seq::empty())
    } else {
        match parsed_toml(contents) {
            Ok(document) => stop_entries(document),
            Err(_) => None,
        }
    }
}

/// Whether an entry is what the lines of the hook say: one command, the one that the string
/// after `command` denotes.
pub open spec fn is_written_entry(entry: TomlView, command: Seq<char>) -> bool {
    match entry {
        TomlView::Table(fields) => match toml_field(fields, "hooks"@) {
            Some(TomlView::Array(hooks)) => {
                &&& hooks.len() == 1
                &&& match hooks[0] {
                    TomlView::Table(hook) => {
                        &&& toml_field(hook, "type"@) == Some(TomlView::Text("command"@))
                        &&& toml_field(hook, "command"@) matches Some(TomlView::Text(text))
                            && toml_unescaped(toml_escaped(command)) == Some(text)
                        &&& toml_field(hook, "timeout"@) == Some(
                            TomlView::Integer(HOOK_TIMEOUT_SECONDS as i64),
                        )
                    },
                    _ => false,
                }
            },
            _ => false,
        },
        _ => false,
    }
}

/// An entry that the lines of the hook say runs the command, after any entries that are shaped
/// as they must be.
proof fn lemma_written_entry_runs(
    entries: Seq<TomlView>,
    entry: TomlView,
    command: Seq<char>,
    ignore_case: bool,
)
    requires
        stop_runs(entries, command, ignore_case) is Ok,
        is_written_entry(entry, command),
    ensures
        stop_runs(entries.push(entry), command, ignore_case) == Ok::<bool, AppErrorView>(true),
    decreases entries.len(),
{
    let all = entries.push(entry);
    if entries.len() == 0 {
        law_toml_string_reads_back(command);
        if let TomlView::Table(fields) = entry {
            if let Some(TomlView::Array(hooks)) = toml_field(fields, "hooks"@) {
                assert(runs_command(hooks[0], command, ignore_case));
                assert(any_runs(hooks, command, ignore_case));
            }
        }
        assert(all[0] == entry);
    } else {
        assert(all[0] == entries[0]);
        assert(all.drop_first() =~= entries.drop_first().push(entry));
        if stop_runs(entries.drop_first(), command, ignore_case) is Ok {
            lemma_written_entry_runs(entries.drop_first(), entry, command, ignore_case);
        }
    }
}

/// Where a configuration can be read, and with the hook has one more entry under `hooks.Stop`,
/// namely what the lines of the hook say, the hook is found in it, and a second installation
/// writes nothing. That the parser reads the added lines so is a condition here, since it does
/// not do so of every configuration: one with an inline array for `hooks.Stop` is refused.
pub proof fn law_second_install_writes_nothing(
    contents: Seq<char>,
    command: Seq<char>,
    ignore_case: bool,
)
    requires
        contents_run(contents, command, ignore_case) is Ok,
        stop_entries_of(with_hook(contents, command)) matches Some(after) && {
            &&& after.len() > 0
            &&& stop_entries_of(contents) == Some(after.drop_last())
            &&& is_written_entry(after.last(), command)
        },
    ensures
        contents_run(with_hook(contents, command), command, ignore_case) == Ok::<
            bool,
            AppErrorView,
        >(true),
        installed(with_hook(contents, command), command, ignore_case) == Ok::<
            Option<Seq<char>>,
            AppErrorView,
        >(None),
{
    let after = stop_entries_of(with_hook(contents, command))->0;
    let entries = after.drop_last();
    lemma_hook_is_visible(contents, command);
    assert(stop_runs(entries, command, ignore_case) == contents_run(
        contents,
        command,
        ignore_case,
    ));
    lemma_written_entry_runs(entries, after.last(), command, ignore_case);
    assert(entries.push(after.last()) =~= after);
}

/// Commands are compared as they stand, or up to the case of ASCII letters where file names are.
pub proof fn law_commands_are_compared(left: Seq<char>, right: Seq<char>)
    ensures
        commands_match(left, right, false) <==> left == right,
        commands_match(left, right, true) <==> lowered(left) == lowered(right),
{
}

/// Whether a value is a hook of the kind `command` that runs a command.
pub open spec fn is_command_hook(hook: TomlView, command: Seq<char>, ignore_case: bool) -> bool {
    hook matches TomlView::Table(fields) && {
        &&& toml_field(fields, "type"@) == Some(TomlView::Text("command"@))
        &&& toml_field(fields, "command"@) matches Some(TomlView::Text(text)) && if ignore_case {
            lowered(text) == lowered(command)
        } else {
            text == command
        }
    }
}

/// Whether an entry under `hooks.Stop` is a table whose hooks, if it has any, are an array.
pub open spec fn is_stop_entry(entry: TomlView) -> bool {
    entry matches TomlView::Table(fields) && (toml_field(fields, "hooks"@) matches Some(hooks)
        ==> hooks is Array)
}

/// Whether an entry under `hooks.Stop` has a hook that runs a command.
pub open spec fn entry_has_hook(entry: TomlView, command: Seq<char>, ignore_case: bool) -> bool {
    entry matches TomlView::Table(fields) && (toml_field(fields, "hooks"@) matches Some(
        TomlView::Array(hooks),
    ) && exists|k: int|
        0 <= k < hooks.len() && is_command_hook(#[trigger] hooks[k], command, ignore_case))
}

/// An entry has a hook that runs a command where one of its values does.
proof fn lemma_entry_has_hook(hooks: Seq<TomlView>, command: Seq<char>, ignore_case: bool)
    ensures
        any_runs(hooks, command, ignore_case) <==> exists|k: int|
            0 <= k < hooks.len() && is_command_hook(#[trigger] hooks[k], command, ignore_case),
{
    assert forall|k: int| 0 <= k < hooks.len() implies runs_command(
        #[trigger] hooks[k],
        command,
        ignore_case,
    ) == is_command_hook(hooks[k], command, ignore_case) by {}
    if any_runs(hooks, command, ignore_case) {
        let k = choose|k: int|
            0 <= k < hooks.len() && #[trigger] runs_command(hooks[k], command, ignore_case);
        assert(is_command_hook(hooks[k], command, ignore_case));
    }
    if exists|k: int|
        0 <= k < hooks.len() && is_command_hook(#[trigger] hooks[k], command, ignore_case) {
        let k = choose|k: int|
            0 <= k < hooks.len() && is_command_hook(#[trigger] hooks[k], command, ignore_case);
        assert(runs_command(hooks[k], command, ignore_case));
    }
}

/// The hook is found among the entries under `hooks.Stop` exactly where one of them has it and
/// all those before that one are shaped as they must be, in whichever entry and at whichever
/// place it stands there; it is found missing where all are shaped so and none has it.
pub proof fn law_hook_is_found_in_any_entry(
    entries: Seq<TomlView>,
    command: Seq<char>,
    ignore_case: bool,
)
    ensures
        stop_runs(entries, command, ignore_case) == Ok::<bool, AppErrorView>(true) <==> exists|
            i: int,
        |
            0 <= i < entries.len() && entry_has_hook(#[trigger] entries[i], command, ignore_case)
                && forall|k: int| 0 <= k < i ==> is_stop_entry(#[trigger] entries[k]),
        stop_runs(entries, command, ignore_case) == Ok::<bool, AppErrorView>(false) <==> forall|
            i: int,
        |
            0 <= i < entries.len() ==> is_stop_entry(#[trigger] entries[i]) && !entry_has_hook(
                entries[i],
                command,
                ignore_case,
            ),
    decreases entries.len(),
{
    if entries.len() > 0 {
        let rest = entries.drop_first();
        law_hook_is_found_in_any_entry(rest, command, ignore_case);
        assert(forall|i: int| 0 <= i < rest.len() ==> #[trigger] rest[i] == entries[i + 1]);
        let has = entry_has_hook(entries[0], command, ignore_case);
        if let TomlView::Table(fields) = entries[0] {
            if let Some(TomlView::Array(hooks)) = toml_field(fields, "hooks"@) {
                lemma_entry_has_hook(hooks, command, ignore_case);
            }
        }
        if has {
            assert(is_stop_entry(entries[0]));
            assert(entry_has_hook(entries[0], command, ignore_case));
        } else if is_stop_entry(entries[0]) {
            if stop_runs(rest, command, ignore_case) == Ok::<bool, AppErrorView>(true) {
                let i = choose|i: int|
                    0 <= i < rest.len() && entry_has_hook(#[trigger] rest[i], command, ignore_case)
                        && forall|k: int| 0 <= k < i ==> is_stop_entry(#[trigger] rest[k]);
                assert(entry_has_hook(entries[i + 1], command, ignore_case));
                assert forall|k: int| 0 <= k < i + 1 implies is_stop_entry(
                    #[trigger] entries[k],
                ) by {
                    if k > 0 {
                        assert(is_stop_entry(rest[k - 1]));
                    }
                }
            }
            assert forall|i: int|
                0 <= i < entries.len() && entry_has_hook(
                    #[trigger] entries[i],
                    command,
                    ignore_case,
                ) && (forall|k: int| 0 <= k < i ==> is_stop_entry(#[trigger] entries[k])) implies
                stop_runs(rest, command, ignore_case) == Ok::<bool, AppErrorView>(true) by {
                assert(i > 0);
                assert(entry_has_hook(rest[i - 1], command, ignore_case));
                assert forall|k: int| 0 <= k < i - 1 implies is_stop_entry(#[trigger] rest[k]) by {
                    assert(is_stop_entry(entries[k + 1]));
                }
            }
            if forall|i: int|
                0 <= i < entries.len() ==> is_stop_entry(#[trigger] entries[i]) && !entry_has_hook(
                    entries[i],
                    command,
                    ignore_case,
                ) {
                assert forall|i: int| 0 <= i < rest.len() implies is_stop_entry(
                    #[trigger] rest[i],
                ) && !entry_has_hook(rest[i], command, ignore_case) by {
                    assert(is_stop_entry(entries[i + 1]));
                }
            }
            if stop_runs(rest, command, ignore_case) == Ok::<bool, AppErrorView>(false) {
                assert forall|i: int| 0 <= i < entries.len() implies is_stop_entry(
                    #[trigger] entries[i],
                ) && !entry_has_hook(entries[i], command, ignore_case) by {
                    if i > 0 {
                        assert(is_stop_entry(rest[i - 1]));
                    }
                }
            }
        } else {
            assert(stop_runs(entries, command, ignore_case) is Err);
            assert(!is_stop_entry(entries[0]));
        }
    }
}

/// The first entry under `hooks.Stop` that is not shaped as it must be, where none before it has
/// the hook, is what the failure is about.
pub proof fn law_bad_entry_is_named(
    entries: Seq<TomlView>,
    command: Seq<char>,
    ignore_case: bool,
    i: int,
)
    requires
        0 <= i < entries.len(),
        !is_stop_entry(entries[i]),
        forall|k: int|
            0 <= k < i ==> is_stop_entry(#[trigger] entries[k]) && !entry_has_hook(
                entries[k],
                command,
                ignore_case,
            ),
    ensures
        stop_runs(entries, command, ignore_case) == Err::<bool, _>(
            AppErrorView::Config(
                if entries[i] is Table {
                    "Codex configuration has an invalid hooks.Stop.hooks array"@
                } else {
                    "Codex configuration has an invalid hooks.Stop entry"@
                },
            ),
        ),
    decreases entries.len(),
{
    if i > 0 {
        let rest = entries.drop_first();
        assert(is_stop_entry(entries[0]));
        assert(rest[i - 1] == entries[i]);
        if let TomlView::Table(fields) = entries[0] {
            if let Some(TomlView::Array(hooks)) = toml_field(fields, "hooks"@) {
                lemma_entry_has_hook(hooks, command, ignore_case);
                assert(!entry_has_hook(entries[0], command, ignore_case));
            }
        }
        assert forall|k: int| 0 <= k < i - 1 implies is_stop_entry(#[trigger] rest[k])
            && !entry_has_hook(rest[k], command, ignore_case) by {
            assert(is_stop_entry(entries[k + 1]));
        }
        law_bad_entry_is_named(rest, command, ignore_case, i - 1);
    }
}

/// The hook is looked for under `hooks` and there under `Stop`: where either is missing, it is
/// missing, and where either is not shaped as it must be, the failure says which.
pub proof fn law_hook_is_looked_for_under_stop(
    document: Seq<(Seq<char>, TomlView)>,
    command: Seq<char>,
    ignore_case: bool,
)
    ensures
        ({
            let found = document_runs(TomlView::Table(document), command, ignore_case);
            match toml_field(document, "hooks"@) {
                None => found == Ok::<bool, AppErrorView>(false),
                Some(TomlView::Table(hooks)) => match toml_field(hooks, "Stop"@) {
                    None => found == Ok::<bool, AppErrorView>(false),
                    Some(TomlView::Array(entries)) => found == stop_runs(
                        entries,
                        command,
                        ignore_case,
                    ),
                    Some(_) => found == Err::<bool, _>(
                        AppErrorView::Config(
                            "Codex configuration has an invalid hooks.Stop array"@,
                        ),
                    ),
                },
                Some(_) => found == Err::<bool, _>(
                    AppErrorView::Config("Codex configuration has an invalid hooks table"@),
                ),
            }
        }),
{
}

/// A blank configuration has no hook, one that is no TOML is refused, and any other is searched.
pub proof fn law_configuration_is_searched(
    contents: Seq<char>,
    command: Seq<char>,
    ignore_case: bool,
)
    ensures
        trimmed(contents).len() == 0 ==> contents_run(contents, command, ignore_case) == Ok::<
            bool,
            AppErrorView,
        >(false),
        trimmed(contents).len() > 0 ==> match parsed_toml(contents) {
            Ok(document) => contents_run(contents, command, ignore_case) == document_runs(
                document,
                command,
                ignore_case,
            ),
            Err(error) => contents_run(contents, command, ignore_case) == Err::<bool, _>(
                AppErrorView::Config("Codex configuration contains invalid TOML: "@ + error),
            ),
        },
{
}

/// The hook is written behind an empty line as the documentation shows it, with the line ends
/// that the configuration has.
pub proof fn law_hook_is_written(contents: Seq<char>, command: Seq<char>)
    ensures
        ({
            let eol = if exists|i: int|
                0 <= i && i + 2 <= contents.len() && #[trigger] contents.subrange(i, i + 2)
                    == "\r\n"@ {
                "\r\n"@
            } else {
                "\n"@
            };
            let gap = if contents.len() == 0 {
                Seq::empty()
            } else if contents.last() == '\n' {
                eol
            } else {
                eol + eol
            };
            with_hook(contents, command) == contents + gap + "[[hooks.Stop]]"@ + eol + eol
                + "[[hooks.Stop.hooks]]"@ + eol + "type = \"command\""@ + eol + "command = "@
                + toml_string(command) + eol + "timeout = "@ + decimal(10) + eol
        }),
{
    reveal_strlit("\r\n");
    reveal_strlit("\n");
    if occurs(contents, "\r\n"@) {
        let i = choose|i: int| occurs_at(contents, "\r\n"@, i);
        assert(contents.subrange(i, i + 2) == "\r\n"@);
    }
    if exists|i: int|
        0 <= i && i + 2 <= contents.len() && #[trigger] contents.subrange(i, i + 2) == "\r\n"@ {
        let i = choose|i: int|
            0 <= i && i + 2 <= contents.len() && #[trigger] contents.subrange(i, i + 2)
                == "\r\n"@;
        assert(occurs_at(contents, "\r\n"@, i));
    }
    let eol = line_ending(contents);
    if contents.len() > 0 {
        if contents.last() == '\n' {
            assert(contents.skip(contents.len() - 1) =~= "\n"@);
        } else if ends(contents, "\n"@) {
            assert(contents.skip(contents.len() - 1)[0] == '\n');
        }
        assert(contents + eol + eol =~= contents + (eol + eol));
    } else {
        assert(contents + Seq::<char>::empty() =~= contents);
    }
}

/// A configuration without the hook gets it, one with it is left alone, and one that cannot be
/// searched is not touched.
pub proof fn law_hook_is_installed_where_missing(
    contents: Seq<char>,
    command: Seq<char>,
    ignore_case: bool,
)
    ensures
        match contents_run(contents, command, ignore_case) {
            Ok(present) => installed(contents, command, ignore_case) == Ok::<
                Option<Seq<char>>,
                AppErrorView,
            >(
                if present {
                    None
                } else {
                    Some(with_hook(contents, command))
                },
            ),
            Err(error) => installed(contents, command, ignore_case) == Err::<
                Option<Seq<char>>,
                AppErrorView,
            >(error),
        },
{
}

/// A string is written between quotes, character by character: a backslash and a quote behind a
/// backslash, a line end, a carriage return and a tab by their letters, any other control
/// character by its code in four hexadecimal digits, and all else as it is.
pub proof fn law_string_is_written_by_characters(s: Seq<char>, c: char)
    ensures
        toml_string(Seq::empty()) == "\"\""@,
        toml_string(s.push(c)) == toml_string(s).drop_last() + toml_escape(c) + "\""@,
        toml_escape('\\') == seq!['\\', '\\'],
        toml_escape('"') == seq!['\\', '"'],
        toml_escape('\n') == seq!['\\', 'n'],
        toml_escape('\r') == seq!['\\', 'r'],
        toml_escape('\t') == seq!['\\', 't'],
        is_control_char(c) && c != '\n' && c != '\r' && c != '\t' ==> toml_escape(c)
            == "\\u00"@.push("0123456789ABCDEF"@[c as int / 16]).push(
            "0123456789ABCDEF"@[c as int % 16],
        ),
        !is_control_char(c) && c != '\\' && c != '"' ==> toml_escape(c) == seq![c],
{
    reveal_strlit("\"");
    reveal_strlit("\"\"");
    reveal_strlit("\\u00");
    assert(toml_string(Seq::empty()) =~= "\"\""@);
    assert(s.push(c).drop_last() =~= s);
    assert(toml_string(s).drop_last() =~= "\""@ + toml_escaped(s));
    assert(toml_string(s.push(c)) =~= toml_string(s).drop_last() + toml_escape(c) + "\""@);
    if is_control_char(c) {
        lemma_control_code(c);
        law_hex_digits_are_listed(c as nat / 16);
        law_hex_digits_are_listed(c as nat % 16);
        if c != '\n' && c != '\r' && c != '\t' {
            assert(toml_escape(c) =~= "\\u00"@.push("0123456789ABCDEF"@[c as int / 16]).push(
                "0123456789ABCDEF"@[c as int % 16],
            ));
        }
    }
}

} // verus!
