//! The background watcher as a service of the operating system.

use crate::config::{in_force, ConfigFile, ConfigStore, Environment};
use crate::error::{outcome, AppError, AppErrorView};
use crate::text::{as_deref, keep_non_blank, non_blank, opt, trim, trimmed, views};
use vstd::prelude::*;
use vstd::string::StringExecFns;

verus! {

/// The name of the service.
pub const SERVICE_NAME: &'static str = "codex-telegram-notify-review";

/// The name of the task in the Windows Task Scheduler.
pub const TASK_NAME: &'static str = "Codex Telegram Notify Review Watcher";

/// Whether the watcher can be installed: its bot and chat must be saved, not only set in the
/// environment, and the configuration in force must be fit to send with.
pub open spec fn installable(file: ConfigFile, environment: Environment) -> Result<
    (),
    AppErrorView,
> {
    if non_blank(opt(file.bot_token)) is None || file.chat_id is None {
        Err(
            AppErrorView::Config(
                "The daemon needs a saved Telegram configuration. Run setup first."@,
            ),
        )
    } else {
        match in_force(file, environment) {
            Err(error) => Err(error),
            Ok(settings) => match settings.runtime() {
                Err(error) => Err(error),
                Ok(_) => Ok(()),
            },
        }
    }
}

/// Checks whether the watcher can be installed.
pub fn validate_install_prerequisites(file: &ConfigFile, environment: &Environment) -> (result:
    Result<(), AppError>)
    ensures
        outcome(result) == installable(*file, *environment),
{
    if keep_non_blank(as_deref(&file.bot_token)).is_none() || file.chat_id.is_none() {
        return Err(
            AppError::Config(
                "The daemon needs a saved Telegram configuration. Run setup first.".to_owned(),
            ),
        );
    }
    match ConfigStore::effective(file, environment) {
        Err(error) => Err(error),
        Ok(settings) => match settings.runtime() {
            Err(error) => Err(error),
            Ok(_) => Ok(()),
        },
    }
}

/// The failure on a platform without a service manager that is known.
pub fn unsupported_platform() -> (error: AppError)
    ensures
        error@ == AppErrorView::Config(
            "Daemon installation is currently supported on Linux and Windows only"@,
        ),
{
    AppError::Config(
        "Daemon installation is currently supported on Linux and Windows only".to_owned(),
    )
}

/// The environment variables that say how to reach the network.
pub fn proxy_variables() -> (names: Vec<String>)
    ensures
        views(names@) == seq![
            "HTTP_PROXY"@,
            "HTTPS_PROXY"@,
            "ALL_PROXY"@,
            "NO_PROXY"@,
            "http_proxy"@,
            "https_proxy"@,
            "all_proxy"@,
            "no_proxy"@,
        ],
{
    let names = vec![
        "HTTP_PROXY".to_owned(),
        "HTTPS_PROXY".to_owned(),
        "ALL_PROXY".to_owned(),
        "NO_PROXY".to_owned(),
        "http_proxy".to_owned(),
        "https_proxy".to_owned(),
        "all_proxy".to_owned(),
        "no_proxy".to_owned(),
    ];
    proof {
        assert(views(names@) =~= seq![
            "HTTP_PROXY"@,
            "HTTPS_PROXY"@,
            "ALL_PROXY"@,
            "NO_PROXY"@,
            "http_proxy"@,
            "https_proxy"@,
            "all_proxy"@,
            "no_proxy"@,
        ]);
    }
    names
}

/// The view of some variables that are set.
pub open spec fn variable_views(variables: Seq<(String, String)>) -> Seq<(Seq<char>, Seq<char>)> {
    variables.map_values(|variable: (String, String)| (variable.0@, variable.1@))
}

/// The variables among some that are set, and not to nothing.
pub open spec fn variables_set(variables: Seq<(String, Option<String>)>) -> Seq<
    (Seq<char>, Seq<char>),
>
    decreases variables.len(),
{
    if variables.len() == 0 {
        Seq::empty()
    } else {
        let rest = variables_set(variables.drop_last());
        match opt(variables.last().1) {
            Some(value) if value.len() > 0 => rest.push((variables.last().0@, value)),
            _ => rest,
        }
    }
}

/// Keeps the variables that are set, and not to nothing.
pub fn keep_set_variables(variables: Vec<(String, Option<String>)>) -> (result: Vec<
    (String, String),
>)
    ensures
        variable_views(result@) == variables_set(variables@),
{
    let ghost all = variables@;
    let mut result: Vec<(String, String)> = Vec::new();
    proof {
        assert(variable_views(result@) =~= Seq::<(Seq<char>, Seq<char>)>::empty());
    }
    for variable in it: variables
        invariant
            it.seq() == all,
            variable_views(result@) == variables_set(all.take(it.index())),
    {
        proof {
            assert(all.take(it.index() + 1).drop_last() =~= all.take(it.index()));
        }
        let (name, value) = variable;
        if let Some(value) = value {
            if !value.as_str().is_empty() {
                let ghost before = result@;
                let ghost added = (name@, value@);
                result.push((name, value));
                proof {
                    assert(variable_views(result@) =~= variable_views(before).push(added));
                }
            }
        }
    }
    proof {
        assert(all.take(all.len() as int) == all);
    }
    result
}

/// How a character stands in a quoted argument of a systemd unit.
pub open spec fn unit_escape(c: char) -> Seq<char> {
    if c == '\\' || c == '"' {
        seq!['\\', c]
    } else {
        seq![c]
    }
}

/// How a text stands between the quotes of an argument.
pub open spec fn unit_escaped(s: Seq<char>) -> Seq<char>
    decreases s.len(),
{
    if s.len() == 0 {
        Seq::empty()
    } else {
        unit_escaped(s.drop_last()) + unit_escape(s.last())
    }
}

/// A text as a quoted argument.
pub open spec fn unit_argument(s: Seq<char>) -> Seq<char> {
    "\""@ + unit_escaped(s) + "\""@
}

/// Writes a text as a quoted argument of a systemd unit.
pub fn quote_systemd_argument(value: &str) -> (result: String)
    ensures
        result@ == unit_argument(value@),
{
    let mut escaped = String::new();
    for c in it: value.chars()
        invariant
            it.seq() == value@,
            escaped@ == unit_escaped(value@.take(it.index())),
    {
        let ghost before = escaped@;
        proof {
            assert(value@.take(it.index() + 1).drop_last() =~= value@.take(it.index()));
        }
        if c == '\\' || c == '"' {
            escaped.push('\\');
        }
        escaped.push(c);
        proof {
            assert(escaped@ =~= before + unit_escape(c));
        }
    }
    proof {
        assert(value@.take(value@.len() as int) == value@);
    }
    let mut result = "\"".to_owned();
    result.append(escaped.as_str());
    result.append("\"");
    result
}

/// The lines of a systemd unit that set variables.
pub open spec fn environment_lines(variables: Seq<(Seq<char>, Seq<char>)>) -> Seq<char>
    decreases variables.len(),
{
    if variables.len() == 0 {
        Seq::empty()
    } else {
        let (name, value) = variables.last();
        environment_lines(variables.drop_last()) + "Environment="@ + unit_argument(
            name + "="@ + value,
        ) + "\n"@
    }
}

/// Writes the lines of a systemd unit that set variables.
fn write_environment(variables: &[(String, String)]) -> (result: String)
    ensures
        result@ == environment_lines(variable_views(variables@)),
{
    let ghost all = variable_views(variables@);
    let mut result = String::new();
    let mut i: usize = 0;
    while i < variables.len()
        invariant
            i <= variables.len(),
            all == variable_views(variables@),
            result@ == environment_lines(all.take(i as int)),
        decreases variables.len() - i,
    {
        proof {
            assert(all.take(i + 1).drop_last() =~= all.take(i as int));
            assert(all.take(i + 1).last() == (variables@[i as int].0@, variables@[i as int].1@));
        }
        let mut assignment = variables[i].0.clone();
        assignment.append("=");
        assignment.append(variables[i].1.as_str());
        result.append("Environment=");
        result.append(quote_systemd_argument(assignment.as_str()).as_str());
        result.append("\n");
        i = i + 1;
    }
    proof {
        assert(all.take(all.len() as int) == all);
    }
    result
}

/// The systemd unit of the watcher.
pub open spec fn unit_text(
    executable: Seq<char>,
    codex_home: Seq<char>,
    variables: Seq<(Seq<char>, Seq<char>)>,
) -> Seq<char> {
    "[Unit]\nDescription=Codex Telegram Notify review watcher\nAfter=default.target\n\n[Service]\nType=simple\n"@
        + environment_lines(variables) + "ExecStart="@ + unit_argument(executable)
        + " daemon run --codex-home "@ + unit_argument(codex_home)
        + "\nRestart=always\nRestartSec=5\n\n[Install]\nWantedBy=default.target\n"@
}

/// Writes the systemd unit of the watcher.
pub fn render_unit(executable: &str, codex_home: &str, proxy_environment: &[(String, String)]) -> (
result: String)
    ensures
        result@ == unit_text(executable@, codex_home@, variable_views(proxy_environment@)),
{
    let mut unit =
        "[Unit]\nDescription=Codex Telegram Notify review watcher\nAfter=default.target\n\n[Service]\nType=simple\n".to_owned();
    unit.append(write_environment(proxy_environment).as_str());
    unit.append("ExecStart=");
    unit.append(quote_systemd_argument(executable).as_str());
    unit.append(" daemon run --codex-home ");
    unit.append(quote_systemd_argument(codex_home).as_str());
    unit.append("\nRestart=always\nRestartSec=5\n\n[Install]\nWantedBy=default.target\n");
    unit
}

/// The name of the systemd unit of the watcher.
pub fn unit_file_name() -> (name: String)
    ensures
        name@ == SERVICE_NAME@ + ".service"@,
        name@ == "codex-telegram-notify-review"@ + ".service"@,
{
    let mut name = SERVICE_NAME.to_owned();
    name.append(".service");
    name
}

/// What the task of the Windows Task Scheduler runs.
pub fn task_action(executable: &str, codex_home: &str) -> (action: String)
    ensures
        action@ == "\""@ + executable@ + "\" daemon run --codex-home \""@ + codex_home@ + "\""@,
{
    let mut action = "\"".to_owned();
    action.append(executable);
    action.append("\" daemon run --codex-home \"");
    action.append(codex_home);
    action.append("\"");
    action
}

/// How a command failed: what it said, else how it ended.
pub open spec fn command_failure(
    command: Seq<char>,
    stderr: Seq<char>,
    status: Seq<char>,
) -> Seq<char> {
    if trimmed(stderr).len() == 0 {
        command + " exited with status "@ + status
    } else {
        command + " failed: "@ + trimmed(stderr)
    }
}

/// Says how a command failed.
pub fn format_command_error(command: &str, stderr: &str, status: &str) -> (message: String)
    ensures
        message@ == command_failure(command@, stderr@, status@),
{
    let said = trim(stderr);
    let mut message = command.to_owned();
    if said.is_empty() {
        message.append(" exited with status ");
        message.append(status);
    } else {
        message.append(" failed: ");
        message.append(said);
    }
    message
}

/// Whether a command succeeded, and if not, what it said: on its error output where that is
/// not blank, else on its output.
pub open spec fn command_outcome(
    command: Seq<char>,
    success: bool,
    stderr: Seq<char>,
    stdout: Seq<char>,
) -> Result<(), AppErrorView> {
    if success {
        Ok(())
    } else {
        let said = if trimmed(stderr).len() > 0 {
            trimmed(stderr)
        } else {
            trimmed(stdout)
        };
        Err(AppErrorView::Config(command + " failed: "@ + said))
    }
}

/// Checks that a command succeeded.
pub fn ensure_success(command: &str, success: bool, stderr: &str, stdout: &str) -> (result: Result<
    (),
    AppError,
>)
    ensures
        outcome(result) == command_outcome(command@, success, stderr@, stdout@),
{
    if success {
        return Ok(());
    }
    let stderr = trim(stderr);
    let said = if !stderr.is_empty() {
        stderr
    } else {
        trim(stdout)
    };
    let mut message = command.to_owned();
    message.append(" failed: ");
    message.append(said);
    Err(AppError::Config(message))
}

/// The text that the inside of a quoted argument denotes: a backslash stands for what follows
/// it, and a bare quote is no part of one.
pub open spec fn unit_unescaped(s: Seq<char>) -> Option<Seq<char>>
    decreases s.len(),
{
    if s.len() == 0 {
        Some(Seq::empty())
    } else if s[0] == '"' {
        None
    } else if s[0] == '\\' {
        if s.len() == 1 {
            None
        } else {
            match unit_unescaped(s.skip(2)) {
                Some(rest) => Some(seq![s[1]] + rest),
                None => None,
            }
        }
    } else {
        match unit_unescaped(s.drop_first()) {
            Some(rest) => Some(seq![s[0]] + rest),
            None => None,
        }
    }
}

/// Escaping goes through a text from its front as well as from its end.
proof fn lemma_escaped_front(s: Seq<char>)
    requires
        s.len() > 0,
    ensures
        unit_escaped(s) == unit_escape(s[0]) + unit_escaped(s.drop_first()),
    decreases s.len(),
{
    if s.len() == 1 {
        assert(s.drop_last() =~= Seq::empty());
        assert(s.drop_first() =~= Seq::empty());
        assert(unit_escaped(s) =~= unit_escape(s[0]) + unit_escaped(s.drop_first()));
    } else {
        lemma_escaped_front(s.drop_last());
        assert(s.drop_first().drop_last() =~= s.drop_last().drop_first());
        assert(unit_escaped(s) =~= unit_escape(s[0]) + unit_escaped(s.drop_first()));
    }
}

/// Quoting an argument and reading it gives the argument back: a path with spaces, quotes or
/// backslashes stays one argument.
pub proof fn law_argument_reads_back(s: Seq<char>)
    ensures
        unit_unescaped(unit_escaped(s)) == Some(s),
    decreases s.len(),
{
    if s.len() == 0 {
        assert(s =~= Seq::empty());
    } else {
        let all = unit_escaped(s);
        let rest = unit_escaped(s.drop_first());
        lemma_escaped_front(s);
        law_argument_reads_back(s.drop_first());
        assert(seq![s[0]] + s.drop_first() =~= s);
        if s[0] == '\\' || s[0] == '"' {
            assert(all.skip(2) =~= rest);
            assert(all[0] == '\\' && all[1] == s[0]);
        } else {
            assert(all.drop_first() =~= rest);
            assert(all[0] == s[0]);
        }
    }
}

/// A watcher is installed only where its bot and chat are saved.
pub proof fn law_install_needs_saved_configuration(file: ConfigFile, environment: Environment)
    ensures
        installable(file, environment) is Ok ==> opt(file.bot_token) is Some && file.chat_id is Some,
{
}

/// A watcher can be installed exactly where a bot token that is not blank and a chat are saved,
/// and the configuration in force has what sending takes.
pub proof fn law_install_is_possible_where_saved(file: ConfigFile, environment: Environment)
    ensures
        ({
            let saved = (file.bot_token matches Some(token) && trimmed(token@).len() > 0)
                && file.chat_id is Some;
            &&& !saved ==> installable(file, environment) == Err::<(), _>(
                AppErrorView::Config(
                    "The daemon needs a saved Telegram configuration. Run setup first."@,
                ),
            )
            &&& saved ==> match in_force(file, environment) {
                Err(error) => installable(file, environment) == Err::<(), _>(error),
                Ok(settings) => match settings.runtime() {
                    Err(error) => installable(file, environment) == Err::<(), _>(error),
                    Ok(_) => installable(file, environment) == Ok::<(), AppErrorView>(()),
                },
            }
        }),
{
}

/// Variables are kept in their order exactly where they are set to something.
pub proof fn law_set_variables_are_kept(
    variables: Seq<(String, Option<String>)>,
    name: String,
    value: Option<String>,
)
    ensures
        variables_set(Seq::empty()) == Seq::<(Seq<char>, Seq<char>)>::empty(),
        variables_set(variables.push((name, value))) == match value {
            Some(text) if text@.len() > 0 => variables_set(variables).push((name@, text@)),
            _ => variables_set(variables),
        },
{
    assert(variables.push((name, value)).drop_last() =~= variables);
}

/// An argument stands between quotes, with a backslash in front of each backslash and quote in it
/// and nothing else changed.
pub proof fn law_argument_is_quoted(s: Seq<char>, c: char)
    ensures
        unit_argument(Seq::empty()) == "\"\""@,
        c == '\\' || c == '"' ==> unit_argument(s.push(c)) == unit_argument(s).drop_last()
            + seq!['\\', c] + "\""@,
        c != '\\' && c != '"' ==> unit_argument(s.push(c)) == unit_argument(s).drop_last()
            + seq![c] + "\""@,
{
    reveal_strlit("\"");
    reveal_strlit("\"\"");
    assert(unit_argument(Seq::empty()) =~= "\"\""@);
    assert(s.push(c).drop_last() =~= s);
    assert(unit_argument(s).drop_last() =~= "\""@ + unit_escaped(s));
    assert(unit_argument(s.push(c)) =~= unit_argument(s).drop_last() + unit_escape(c) + "\""@);
}

/// Each variable has a line of its own in the unit, in their order.
pub proof fn law_variables_have_lines(
    variables: Seq<(Seq<char>, Seq<char>)>,
    name: Seq<char>,
    value: Seq<char>,
)
    ensures
        environment_lines(Seq::empty()) == Seq::<char>::empty(),
        environment_lines(variables.push((name, value))) == environment_lines(variables)
            + "Environment="@ + unit_argument(name + "="@ + value) + "\n"@,
{
    assert(variables.push((name, value)).drop_last() =~= variables);
}

/// The unit runs the watcher in the home directory of Codex with the variables that are given,
/// and starts it again five seconds after it ends.
pub proof fn law_unit_runs_the_watcher(
    executable: Seq<char>,
    codex_home: Seq<char>,
    variables: Seq<(Seq<char>, Seq<char>)>,
)
    ensures
        unit_text(executable, codex_home, variables)
            == "[Unit]\nDescription=Codex Telegram Notify review watcher\nAfter=default.target\n\n[Service]\nType=simple\n"@
            + environment_lines(variables) + "ExecStart="@ + unit_argument(executable)
            + " daemon run --codex-home "@ + unit_argument(codex_home)
            + "\nRestart=always\nRestartSec=5\n\n[Install]\nWantedBy=default.target\n"@,
{
}

/// A command that failed is told with what it said on its error output, else with how it ended.
pub proof fn law_failed_command_is_told(command: Seq<char>, stderr: Seq<char>, status: Seq<char>)
    ensures
        trimmed(stderr).len() > 0 ==> command_failure(command, stderr, status) == command
            + " failed: "@ + trimmed(stderr),
        trimmed(stderr).len() == 0 ==> command_failure(command, stderr, status) == command
            + " exited with status "@ + status,
{
}

/// A command that succeeded is no failure whatever it said; one that did not is told with what it
/// said on its error output, or where that is blank, on its output.
pub proof fn law_command_is_judged_by_success(
    command: Seq<char>,
    stderr: Seq<char>,
    stdout: Seq<char>,
)
    ensures
        command_outcome(command, true, stderr, stdout) == Ok::<(), AppErrorView>(()),
        command_outcome(command, false, stderr, stdout) == Err::<(), _>(
            AppErrorView::Config(
                command + " failed: "@ + if trimmed(stderr).len() == 0 {
                    trimmed(stdout)
                } else {
                    trimmed(stderr)
                },
            ),
        ),
{
}

} // verus!
