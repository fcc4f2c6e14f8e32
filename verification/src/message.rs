//! The texts of notifications.

use crate::answer::{assistant_answer, extract_assistant_answer};
use crate::hook::HookPayload;
use crate::number::{decimal, decimal_text};
use crate::text::{
    append_part, as_deref, keep_non_blank, non_blank, opt, opt_str, trimmed, with_part,
};
use vstd::prelude::*;
use vstd::string::StringExecFns;
use vstd::string::StrSliceExecFns;

verus! {

/// Stands for a project whose name is not known.
pub const UNKNOWN_PROJECT: &'static str = "Проект не определён";

/// Stands for an assistant message that is missing or blank.
pub const EMPTY_MESSAGE: &'static str =
    "Codex завершил выполнение, но итоговое сообщение не получено.";

/// Ends a text that was cut short.
pub const TRUNCATION_SUFFIX: &'static str = "\n…\n\n[сообщение сокращено]";

/// A text cut to a number of characters, with a mark at its end where that fits.
pub open spec fn truncated(s: Seq<char>, max_length: nat) -> Seq<char> {
    if s.len() <= max_length {
        s
    } else if max_length <= TRUNCATION_SUFFIX@.len() {
        s.take(max_length as int)
    } else {
        s.take(max_length - TRUNCATION_SUFFIX@.len()) + TRUNCATION_SUFFIX@
    }
}

/// Cuts a text to a number of characters.
pub fn truncate_unicode(value: &str, max_length: usize) -> (result: String)
    ensures
        result@ == truncated(value@, max_length as nat),
{
    let length = value.unicode_len();
    if length <= max_length {
        return value.to_owned();
    }
    let suffix_length = TRUNCATION_SUFFIX.unicode_len();
    if max_length <= suffix_length {
        let cut = value.substring_char(0, max_length);
        proof {
            assert(cut@ =~= value@.take(max_length as int));
        }
        return cut.to_owned();
    }
    let prefix = value.substring_char(0, max_length - suffix_length);
    proof {
        assert(prefix@ =~= value@.take(max_length - suffix_length));
    }
    let mut output = prefix.to_owned();
    output.append(TRUNCATION_SUFFIX);
    output
}

/// What `std::path::Path::file_name` gives for a path, on the platform that the program is
/// built for, with each character that is not Unicode replaced.
pub uninterp spec fn path_file_name(path: Seq<char>) -> Option<Seq<char>>;

/// `std::path::Path::file_name`. The outcome depends on the path alone.
#[verifier::external_body]
fn file_name(path: &str) -> (result: Option<String>)
    ensures
        opt(result) == path_file_name(path@),
{
    std::path::Path::new(path).file_name().map(|name| name.to_string_lossy().into_owned())
}

/// The name of the project in a directory: the last component of its path, unless that
/// is missing or blank.
pub open spec fn project_of(cwd: Option<Seq<char>>) -> Option<Seq<char>> {
    match cwd {
        Some(path) => non_blank(path_file_name(path)),
        None => None,
    }
}

/// Finds the name of the project in a directory.
pub fn project_name(path: &str) -> (result: Option<String>)
    ensures
        opt(result) == project_of(Some(path@)),
{
    let name = file_name(path);
    match keep_non_blank(as_deref(&name)) {
        Some(name) => Some(name.to_owned()),
        None => None,
    }
}

/// The head of a notification: what happened, the project, and the model with its effort.
pub open spec fn heading(
    title: Seq<char>,
    project: Option<Seq<char>>,
    model: Option<Seq<char>>,
    effort: Option<Seq<char>>,
) -> Seq<char> {
    let label = match project {
        Some(name) => name,
        None => UNKNOWN_PROJECT@,
    };
    let opened = title + "\n\n📁 "@ + label + "\n"@;
    match non_blank(model) {
        Some(model) => {
            let named = opened + "🤖 "@ + model;
            let rated = match non_blank(effort) {
                Some(effort) => named + " ("@ + effort + ")"@,
                None => named,
            };
            rated + "\n"@
        },
        None => opened,
    }
}

/// Writes the head of a notification.
fn write_heading(title: &str, project: Option<&str>, model: Option<&str>, effort: Option<&str>) -> (
result: String)
    ensures
        result@ == heading(title@, opt_str(project), opt_str(model), opt_str(effort)),
{
    let mut output = title.to_owned();
    output.append("\n\n📁 ");
    match project {
        Some(name) => {
            output.append(name);
        },
        None => {
            output.append(UNKNOWN_PROJECT);
        },
    }
    output.append("\n");
    if let Some(model) = keep_non_blank(model) {
        output.append("🤖 ");
        output.append(model);
        if let Some(effort) = keep_non_blank(effort) {
            output.append(" (");
            output.append(effort);
            output.append(")");
        }
        output.append("\n");
    }
    output
}

/// The notification that a turn is complete.
pub open spec fn turn_text(
    project: Option<Seq<char>>,
    model: Option<Seq<char>>,
    effort: Option<Seq<char>>,
    answer: Option<Seq<char>>,
) -> Seq<char> {
    heading("✅ Codex завершил выполнение"@, project, model, effort) + "\n"@ + match answer {
        Some(answer) => answer,
        None => EMPTY_MESSAGE@,
    }
}

/// Writes the notification that a turn is complete.
pub fn compose_notification(
    project: Option<&str>,
    model: Option<&str>,
    effort: Option<&str>,
    answer: Option<&str>,
    max_length: usize,
) -> (result: String)
    ensures
        result@ == truncated(
            turn_text(opt_str(project), opt_str(model), opt_str(effort), opt_str(answer)),
            max_length as nat,
        ),
{
    let mut output = write_heading("✅ Codex завершил выполнение", project, model, effort);
    output.append("\n");
    match answer {
        Some(answer) => {
            output.append(answer);
        },
        None => {
            output.append(EMPTY_MESSAGE);
        },
    }
    truncate_unicode(output.as_str(), max_length)
}

/// The answer in an optional assistant message.
pub open spec fn answer_of(message: Option<Seq<char>>) -> Option<Seq<char>> {
    match message {
        Some(message) => assistant_answer(message),
        None => None,
    }
}

/// The notification for a hook payload.
pub open spec fn notification(payload: HookPayload, max_length: nat) -> Seq<char> {
    truncated(
        turn_text(
            project_of(opt(payload.cwd)),
            opt(payload.model),
            opt(payload.effort),
            answer_of(opt(payload.last_assistant_message)),
        ),
        max_length,
    )
}

/// Writes the notification for a hook payload.
pub fn build_notification(payload: &HookPayload, max_length: usize) -> (result: String)
    ensures
        result@ == notification(*payload, max_length as nat),
{
    let project = match &payload.cwd {
        Some(path) => project_name(path.as_str()),
        None => None,
    };
    let answer = match &payload.last_assistant_message {
        Some(message) => extract_assistant_answer(message.as_str()),
        None => None,
    };
    compose_notification(
        as_deref(&project),
        as_deref(&payload.model),
        as_deref(&payload.effort),
        as_deref(&answer),
        max_length,
    )
}

/// The line of a review notification that counts its findings.
pub open spec fn findings_line(findings: Option<usize>) -> Seq<char> {
    match findings {
        Some(count) => if count == 0 {
            "\n✅ Проблем не найдено."@
        } else {
            "\n⚠️ Найдено проблем: "@ + decimal(count as nat) + "."@
        },
        None => "\n✅ Результат проверки получен."@,
    }
}

/// The notification that a review is complete.
pub open spec fn review_notification(
    project: Option<Seq<char>>,
    model: Option<Seq<char>>,
    effort: Option<Seq<char>>,
    findings: Option<usize>,
    details: Option<Seq<char>>,
    explanation: Option<Seq<char>>,
) -> Seq<char> {
    let counted = heading("🔎 Проверка изменений завершена"@, project, model, effort)
        + findings_line(findings);
    let detailed = with_part(counted, "\n\n⚠️ Проблемы:\n\n"@, non_blank(details));
    let lead = if non_blank(details) is Some {
        "\n\n📝 Итог:\n\n"@
    } else {
        "\n\n"@
    };
    with_part(detailed, lead, non_blank(explanation))
}

/// Writes the notification that a review of a project is complete.
pub fn compose_review_notification(
    project: Option<&str>,
    model: Option<&str>,
    effort: Option<&str>,
    findings: Option<usize>,
    finding_details: Option<&str>,
    explanation: Option<&str>,
    max_length: usize,
) -> (result: String)
    ensures
        result@ == truncated(
            review_notification(
                opt_str(project),
                opt_str(model),
                opt_str(effort),
                findings,
                opt_str(finding_details),
                opt_str(explanation),
            ),
            max_length as nat,
        ),
{
    let mut output = write_heading("🔎 Проверка изменений завершена", project, model, effort);
    let line = match findings {
        Some(count) => if count == 0 {
            "\n✅ Проблем не найдено.".to_owned()
        } else {
            let mut line = "\n⚠️ Найдено проблем: ".to_owned();
            line.append(decimal_text(count as u64).as_str());
            line.append(".");
            line
        },
        None => "\n✅ Результат проверки получен.".to_owned(),
    };
    output.append(line.as_str());
    let details = keep_non_blank(finding_details);
    append_part(&mut output, "\n\n⚠️ Проблемы:\n\n", details);
    let lead = if details.is_some() {
        "\n\n📝 Итог:\n\n"
    } else {
        "\n\n"
    };
    append_part(&mut output, lead, keep_non_blank(explanation));
    truncate_unicode(output.as_str(), max_length)
}

/// Writes the notification that a review is complete, with the details of its findings.
pub fn build_review_notification_with_findings(
    cwd: Option<&str>,
    model: Option<&str>,
    effort: Option<&str>,
    findings: Option<usize>,
    finding_details: Option<&str>,
    explanation: Option<&str>,
    max_length: usize,
) -> (result: String)
    ensures
        result@ == truncated(
            review_notification(
                project_of(opt_str(cwd)),
                opt_str(model),
                opt_str(effort),
                findings,
                opt_str(finding_details),
                opt_str(explanation),
            ),
            max_length as nat,
        ),
{
    let project = match cwd {
        Some(path) => project_name(path),
        None => None,
    };
    compose_review_notification(
        as_deref(&project),
        model,
        effort,
        findings,
        finding_details,
        explanation,
        max_length,
    )
}

/// Writes the notification that a review is complete.
pub fn build_review_notification(
    cwd: Option<&str>,
    model: Option<&str>,
    effort: Option<&str>,
    findings: Option<usize>,
    explanation: Option<&str>,
    max_length: usize,
) -> (result: String)
    ensures
        result@ == truncated(
            review_notification(
                project_of(opt_str(cwd)),
                opt_str(model),
                opt_str(effort),
                findings,
                None,
                opt_str(explanation),
            ),
            max_length as nat,
        ),
{
    build_review_notification_with_findings(
        cwd,
        model,
        effort,
        findings,
        None,
        explanation,
        max_length,
    )
}

/// A text cut short is no longer than asked, and all of it that is not the mark comes
/// from the front of the text.
pub proof fn law_truncation_bounds(s: Seq<char>, max_length: nat)
    ensures
        truncated(s, max_length).len() == if s.len() <= max_length {
            s.len()
        } else {
            max_length
        },
        exists|kept: int|
            0 <= kept <= s.len() && (#[trigger] s.take(kept) == truncated(s, max_length) || s.take(
                kept,
            ) + TRUNCATION_SUFFIX@ == truncated(s, max_length)),
{
    if s.len() <= max_length {
        assert(s.take(s.len() as int) == truncated(s, max_length));
    } else if max_length <= TRUNCATION_SUFFIX@.len() {
        assert(s.take(max_length as int) == truncated(s, max_length));
    } else {
        assert(s.take(max_length - TRUNCATION_SUFFIX@.len()) + TRUNCATION_SUFFIX@ == truncated(
            s,
            max_length,
        ));
    }
}

/// Cutting a text again to the same length changes nothing.
pub proof fn law_truncation_is_idempotent(s: Seq<char>, max_length: nat)
    ensures
        truncated(truncated(s, max_length), max_length) == truncated(s, max_length),
{
    law_truncation_bounds(s, max_length);
}

/// No notification is longer than the configured length.
pub proof fn law_notification_fits(payload: HookPayload, max_length: nat)
    ensures
        notification(payload, max_length).len() <= max_length,
{
    law_truncation_bounds(
        turn_text(
            project_of(opt(payload.cwd)),
            opt(payload.model),
            opt(payload.effort),
            answer_of(opt(payload.last_assistant_message)),
        ),
        max_length,
    );
}

/// A text that is too long is cut at the front so that with the mark it has exactly the length
/// asked for; where the mark does not fit, only the front is left. A text that is not too long
/// stays as it is.
pub proof fn law_long_text_is_cut(s: Seq<char>, max_length: nat)
    ensures
        s.len() <= max_length ==> truncated(s, max_length) == s,
        s.len() > max_length && max_length > "\n…\n\n[сообщение сокращено]"@.len() ==> truncated(
            s,
            max_length,
        ) == s.take(max_length - "\n…\n\n[сообщение сокращено]"@.len())
            + "\n…\n\n[сообщение сокращено]"@,
        s.len() > max_length && max_length <= "\n…\n\n[сообщение сокращено]"@.len() ==> truncated(
            s,
            max_length,
        ) == s.take(max_length as int),
        "\n…\n\n[сообщение сокращено]"@.len() == 25,
{
    reveal_strlit("\n…\n\n[сообщение сокращено]");
}

/// The project is the last component of the directory without white space around it, and none
/// where that is missing or blank.
pub proof fn law_project_is_the_last_component(cwd: Option<Seq<char>>)
    ensures
        match cwd {
            Some(path) => match path_file_name(path) {
                Some(name) if trimmed(name).len() > 0 => project_of(cwd) == Some(trimmed(name)),
                _ => project_of(cwd) is None,
            },
            None => project_of(cwd) is None,
        },
{
}

/// A notification is headed by its title, the project, and the model with its effort in brackets:
/// no model, no effort, and a blank one counts as none.
pub proof fn law_heading_names_the_run(
    title: Seq<char>,
    project: Option<Seq<char>>,
    model: Option<Seq<char>>,
    effort: Option<Seq<char>>,
)
    ensures
        ({
            let name = if project is Some {
                project->0
            } else {
                "Проект не определён"@
            };
            let opened = title + "\n\n📁 "@ + name + "\n"@;
            match (model, effort) {
                (Some(model), Some(effort)) if trimmed(model).len() > 0 && trimmed(effort).len()
                    > 0 => heading(title, project, Some(model), Some(effort)) == opened + "🤖 "@
                    + trimmed(model) + " ("@ + trimmed(effort) + ")"@ + "\n"@,
                (Some(model), _) if trimmed(model).len() > 0 => heading(
                    title,
                    project,
                    Some(model),
                    effort,
                ) == opened + "🤖 "@ + trimmed(model) + "\n"@,
                _ => heading(title, project, model, effort) == opened,
            }
        }),
{
}

/// The notification of a turn is its heading, an empty line and the answer, or a sentence in its
/// place where there is none.
pub proof fn law_turn_is_told_with_its_answer(
    project: Option<Seq<char>>,
    model: Option<Seq<char>>,
    effort: Option<Seq<char>>,
    answer: Seq<char>,
)
    ensures
        turn_text(project, model, effort, Some(answer)) == heading(
            "✅ Codex завершил выполнение"@,
            project,
            model,
            effort,
        ) + "\n"@ + answer,
        turn_text(project, model, effort, None) == heading(
            "✅ Codex завершил выполнение"@,
            project,
            model,
            effort,
        ) + "\n"@ + "Codex завершил выполнение, но итоговое сообщение не получено."@,
{
}

/// The notification for a payload tells its turn: the project of its directory, its model and
/// effort, and the answer in its message, cut to the length asked for.
pub proof fn law_payload_is_told(payload: HookPayload, max_length: nat)
    ensures
        notification(payload, max_length) == truncated(
            turn_text(
                match payload.cwd {
                    Some(path) => project_of(Some(path@)),
                    None => None,
                },
                opt(payload.model),
                opt(payload.effort),
                match payload.last_assistant_message {
                    Some(message) => assistant_answer(message@),
                    None => None,
                },
            ),
            max_length,
        ),
{
}

/// The notification of a review counts the findings, tells them apart from a review without any
/// and from one that was not understood, and adds the details and the explanation where they are
/// not blank.
pub proof fn law_review_is_told_with_its_outcome(
    project: Option<Seq<char>>,
    model: Option<Seq<char>>,
    effort: Option<Seq<char>>,
    findings: Option<usize>,
    details: Option<Seq<char>>,
    explanation: Option<Seq<char>>,
)
    ensures
        ({
            let told = review_notification(project, model, effort, findings, details, explanation);
            let headed = heading("🔎 Проверка изменений завершена"@, project, model, effort);
            let counted = match findings {
                None => headed + "\n✅ Результат проверки получен."@,
                Some(count) => if count > 0 {
                    headed + ("\n⚠️ Найдено проблем: "@ + decimal(count as nat) + "."@)
                } else {
                    headed + "\n✅ Проблем не найдено."@
                },
            };
            let has_details = details matches Some(text) && trimmed(text).len() > 0;
            let has_explanation = explanation matches Some(text) && trimmed(text).len() > 0;
            let detailed = counted + "\n\n⚠️ Проблемы:\n\n"@ + trimmed(details->0);
            &&& !has_details && !has_explanation ==> told == counted
            &&& !has_details && has_explanation ==> told == counted + "\n\n"@ + trimmed(
                explanation->0,
            )
            &&& has_details && !has_explanation ==> told == detailed
            &&& has_details && has_explanation ==> told == detailed + "\n\n📝 Итог:\n\n"@ + trimmed(
                explanation->0,
            )
        }),
{
}

} // verus!
