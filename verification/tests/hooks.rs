use codex_telegram_notify::codex_hook::{
    append_hook, backup_name, codex_effort, has_command_hook, non_empty_trimmed, plan_install,
    quote_toml_string, same_command,
};
use codex_telegram_notify::config::{BotToken, ConfigFile, ConfigStore, Environment, RuntimeConfig};
use codex_telegram_notify::daemon::{
    ensure_success, format_command_error, keep_set_variables, proxy_variables,
    quote_systemd_argument, render_unit, task_action, unit_file_name, unsupported_platform,
    validate_install_prerequisites,
};
use codex_telegram_notify::error::AppError;
use codex_telegram_notify::hook::{
    deserialize_assistant_message, hook_step, notify_request, plan_notification, plan_test,
    probe_record, report_failure, require_codex_home, telegram_failure, FailureReport,
    HookFailure, HookPayload, HookStep,
};
use codex_telegram_notify::telegram::TelegramError;

fn payload(event: Option<&str>) -> HookPayload {
    HookPayload {
        session_id: Some("session".to_string()),
        cwd: Some("/tmp/my-project".to_string()),
        hook_event_name: event.map(|name| name.to_string()),
        model: None,
        effort: None,
        turn_id: Some("turn".to_string()),
        agent_id: None,
        agent_type: None,
        last_assistant_message: Some("Готово ✅".to_string()),
    }
}

fn runtime() -> RuntimeConfig {
    RuntimeConfig {
        bot_token: BotToken::new("123:secret".to_string()),
        chat_id: -100,
        max_length: 3500,
        timeout_seconds: 5,
        silent: true,
    }
}

fn no_environment() -> Environment {
    Environment {
        bot_token: None,
        chat_id: None,
        enabled: None,
        max_length: None,
        timeout: None,
        silent: None,
        always_success: None,
    }
}

fn saved() -> ConfigFile {
    ConfigFile {
        bot_token: Some("1:x".to_string()),
        chat_id: Some(8),
        ..ConfigFile::default()
    }
}

const COMMAND: &str = r"C:\Users\BroneKot\.cargo\bin\codex-telegram-notify.exe";

#[test]
fn appends_after_repeated_keys_and_keeps_toml_valid() {
    let contents = "[mcp_servers.node_repl.env]\nNODE_REPL_TRUSTED_CODE_PATHS = 'C:\\\\Users\\\\BroneKot\\\\.codex'\nCODEX_HOME = 'C:\\\\Users\\\\BroneKot\\\\.codex'\n\n[shell_environment_policy.set]\nNODE_REPL_TRUSTED_CODE_PATHS = 'C:\\\\Users\\\\BroneKot\\\\.codex'\n";
    let command = r"C:\Users\BroneKot\.cargo\bin\codex-telegram-notify.exe";
    let updated = append_hook(contents, command);

    assert!(
        updated.rfind("NODE_REPL_TRUSTED_CODE_PATHS").unwrap()
            < updated.find("[[hooks.Stop]]").unwrap()
    );
    assert_eq!(updated.matches("[[hooks.Stop]]").count(), 1);
    assert!(has_command_hook(&updated, command, false).expect("valid TOML"));
}

#[test]
fn does_not_duplicate_an_existing_command_hook() {
    let contents = "[hooks]\n[[hooks.Stop]]\n[[hooks.Stop.hooks]]\ntype = \"command\"\ncommand = \"C:\\\\Users\\\\BroneKot\\\\.cargo\\\\bin\\\\codex-telegram-notify.exe\"\ntimeout = 10\n";
    let command = r"C:\Users\BroneKot\.cargo\bin\codex-telegram-notify.exe";
    assert!(has_command_hook(contents, command, false).expect("valid TOML"));
}

#[test]
fn writes_the_documented_hook() {
    assert_eq!(
        append_hook("", "/home/user/.cargo/bin/codex-telegram-notify"),
        "[[hooks.Stop]]\n\n[[hooks.Stop.hooks]]\ntype = \"command\"\ncommand = \"/home/user/.cargo/bin/codex-telegram-notify\"\ntimeout = 10\n"
    );
    assert!(append_hook("a = 1", "c").starts_with("a = 1\n\n[[hooks.Stop]]\n"));
    assert!(append_hook("a = 1\n", "c").starts_with("a = 1\n\n[[hooks.Stop]]\n"));
    assert!(append_hook("a = 1\r\n", "c").starts_with("a = 1\r\n\r\n[[hooks.Stop]]\r\n\r\n"));
}

#[test]
fn installs_once() {
    let updated = match plan_install("model = \"test\"\n", COMMAND, false) {
        Ok(Some(updated)) => updated,
        _ => panic!("the hook is to be written"),
    };
    assert!(updated.starts_with("model = \"test\"\n"));
    assert!(matches!(plan_install(&updated, COMMAND, false), Ok(None)));
    let odd = "a \\ \" \n \u{1} b";
    let twice = append_hook(&updated, odd);
    assert!(has_command_hook(&twice, odd, false).unwrap());
    assert!(matches!(plan_install(&twice, odd, false), Ok(None)));
    assert!(matches!(plan_install(&twice, COMMAND, false), Ok(None)));
    assert!(matches!(plan_install(&updated, "other", false), Ok(Some(_))));
    assert!(matches!(plan_install(&updated, &COMMAND.to_uppercase(), true), Ok(None)));
    assert!(matches!(plan_install(&updated, &COMMAND.to_uppercase(), false), Ok(Some(_))));
    assert_eq!(backup_name("config.toml"), "config.toml.codex-telegram-notify.bak");
}

#[test]
fn a_section_does_not_extend_an_inline_array() {
    let updated = match plan_install("[hooks]\nStop = []\n", COMMAND, false) {
        Ok(Some(updated)) => updated,
        _ => panic!("the hook is to be written"),
    };
    assert_eq!(updated, append_hook("[hooks]\nStop = []\n", COMMAND));
    assert!(plan_install(&updated, COMMAND, false).is_err());
}

#[test]
fn looks_only_at_stop_commands() {
    assert!(!has_command_hook("  \n", "c", false).unwrap());
    assert!(!has_command_hook("model = 1", "c", false).unwrap());
    assert!(!has_command_hook("[hooks]\nOther = 1", "c", false).unwrap());
    assert!(!has_command_hook("[[hooks.Stop]]\nmatcher = \"c\"", "c", false).unwrap());
    let other = "[[hooks.Stop]]\n[[hooks.Stop.hooks]]\ntype = \"prompt\"\ncommand = \"c\"\n";
    assert!(!has_command_hook(other, "c", false).unwrap());
    let second = "[[hooks.Stop]]\nhooks = [1, {type = \"command\", command = 5}]\n[[hooks.Stop]]\nhooks = [{type = \"command\", command = \"c\"}]\n";
    assert!(has_command_hook(second, "c", false).unwrap());
    assert!(same_command("A", "a", true) && !same_command("A", "a", false));
}

#[test]
fn refuses_configurations_of_another_shape() {
    let message = |contents: &str| match has_command_hook(contents, "c", false) {
        Ok(_) => panic!("the configuration was accepted"),
        Err(error) => error.message().to_string(),
    };
    assert!(message("= 1").starts_with("Codex configuration contains invalid TOML: "));
    assert!(message("= 1").len() > "Codex configuration contains invalid TOML: ".len());
    assert_eq!(message("hooks = 1"), "Codex configuration has an invalid hooks table");
    assert_eq!(
        message("[hooks]\nStop = true"),
        "Codex configuration has an invalid hooks.Stop array"
    );
    assert_eq!(
        message("[hooks]\nStop = [1.5]"),
        "Codex configuration has an invalid hooks.Stop entry"
    );
    assert_eq!(
        message("[[hooks.Stop]]\nhooks = 1979-05-27"),
        "Codex configuration has an invalid hooks.Stop.hooks array"
    );
}

#[test]
fn quotes_toml_strings() {
    assert_eq!(quote_toml_string("a\\b\"c\n\r\t\u{1}\u{9f}é"), "\"a\\\\b\\\"c\\n\\r\\t\\u0001\\u009Fé\"");
    let odd = "x\\\"\n\r\t\u{0}\u{1f}\u{7f}\u{85}💡";
    let document = format!("k = {}", quote_toml_string(odd));
    let value: toml::Value = toml::from_str(&document).expect("valid TOML");
    assert_eq!(value.get("k").and_then(toml::Value::as_str), Some(odd));
}

#[test]
fn reads_model_reasoning_effort_from_codex_config() {
    let config = r#"
            model = "gpt-5.6-luna"
            model_reasoning_effort = " max "
        "#;
    let parsed: toml::Value = toml::from_str(config).expect("config");
    let setting = parsed
        .get("model_reasoning_effort")
        .and_then(toml::Value::as_str)
        .map(|value| value.to_string());
    assert_eq!(setting.clone().and_then(non_empty_trimmed), Some("max".to_string()));
    assert_eq!(codex_effort(setting), Some("max".to_string()));
    assert_eq!(non_empty_trimmed(" \n".to_string()), None);
    assert_eq!(codex_effort(Some(" ".to_string())), None);
    assert_eq!(codex_effort(None), None);
}

#[test]
fn accepts_object_as_last_assistant_message() {
    let payload: serde_json::Value = serde_json::from_str(
        r#"{
                "hook_event_name": "Stop",
                "last_assistant_message": {"answer": "done"}
            }"#,
    )
    .expect("payload");
    let message = payload.get("last_assistant_message").cloned();
    assert_eq!(
        deserialize_assistant_message(message).unwrap().as_deref(),
        Some(r#"{"answer":"done"}"#)
    );
    assert_eq!(deserialize_assistant_message(None).unwrap(), None);
    let plain = serde_json::Value::String("done".to_string());
    assert_eq!(deserialize_assistant_message(Some(plain)).unwrap().as_deref(), Some("done"));
}

#[test]
fn sends_only_stop_payload_content_to_the_api() {
    let request = notify_request(&payload(Some("Stop")), &runtime());
    assert_eq!(request.chat_id, -100);
    assert!(request.text.contains("my-project"));
    assert!(request.text.contains("Готово ✅"));
    assert!(request.disable_notification);
    assert!(!request.text.contains("session"));
    assert!(!request.text.contains("turn"));
}

#[test]
fn only_stop_events_are_notified() {
    assert_eq!(hook_step(&payload(Some("SubagentStop"))), HookStep::Ignore);
    assert_eq!(hook_step(&payload(Some("Stop"))), HookStep::ReadEffort);
    assert_eq!(hook_step(&payload(None)), HookStep::ReadEffort);
    let mut rated = payload(Some("Stop"));
    rated.effort = Some(" ".to_string());
    assert_eq!(hook_step(&rated), HookStep::ReadEffort);
    rated.effort = Some("high".to_string());
    assert_eq!(hook_step(&rated), HookStep::Notify);
}

#[test]
fn a_payload_becomes_a_message() {
    let settings = ConfigStore::effective(&saved(), &no_environment());
    match plan_notification(&payload(Some("Stop")), settings, true) {
        Ok(Some(message)) => {
            assert_eq!(message.request.chat_id, 8);
            assert_eq!(message.config.bot_token.as_str(), "1:x");
            assert!(message.request.text.ends_with("Готово ✅"));
        }
        _ => panic!("there is a message"),
    }
    let mut off = ConfigFile::default();
    off.enabled = false;
    let settings = ConfigStore::effective(&off, &no_environment());
    assert!(matches!(plan_notification(&payload(None), settings, true), Ok(None)));
    let settings = ConfigStore::effective(&ConfigFile::default(), &no_environment());
    match plan_notification(&payload(None), settings, false) {
        Err(failure) => {
            assert_eq!(failure.error.message(), "Telegram bot token is not configured. Run setup.");
            assert!(!failure.always_success);
        }
        _ => panic!("there is no token"),
    }
    let broken = Err(AppError::Config("broken".to_string()));
    match plan_notification(&payload(None), broken, true) {
        Err(failure) => assert!(failure.always_success && failure.error.message() == "broken"),
        _ => panic!("there is no configuration"),
    }
}

#[test]
fn failures_reach_codex_only_where_asked() {
    let failure = |always_success| HookFailure {
        error: telegram_failure(&TelegramError::Network),
        always_success,
    };
    match report_failure(failure(true)) {
        FailureReport::Logged(error) => assert_eq!(error.exit_code(), 3),
        FailureReport::Fatal(_) => panic!("the failure is hidden"),
    }
    match report_failure(failure(false)) {
        FailureReport::Fatal(error) => {
            assert_eq!(error.message(), "network error while contacting Telegram")
        }
        FailureReport::Logged(_) => panic!("the failure is not hidden"),
    }
}

#[test]
fn probes_leave_the_message_out() {
    let mut stopped = payload(Some("SubagentStop"));
    stopped.agent_type = Some("review".to_string());
    let record = probe_record(stopped, 99).expect("record");
    assert_eq!(record.recorded_at_unix, 99);
    assert_eq!(record.hook_event_name.as_deref(), Some("SubagentStop"));
    assert_eq!(record.agent_type.as_deref(), Some("review"));
    assert_eq!(record.cwd.as_deref(), Some("/tmp/my-project"));
    assert!(probe_record(payload(Some("Stop")), 99).is_none());
    assert!(probe_record(payload(None), 99).is_none());
    assert_eq!(require_codex_home(Some(3)).unwrap(), 3);
    match require_codex_home::<i32>(None) {
        Ok(_) => panic!("there is no home"),
        Err(error) => assert_eq!(error.message(), "Unable to determine Codex home directory"),
    }
}

#[test]
fn a_test_needs_a_configuration() {
    let settings = ConfigStore::effective(&saved(), &no_environment()).ok().unwrap();
    match plan_test(&settings) {
        Ok(message) => {
            assert_eq!(message.request.chat_id, 8);
            assert_eq!(
                message.request.text,
                "🧪 Codex Telegram Notify\n\nТестовое уведомление успешно отправлено."
            );
        }
        Err(error) => panic!("{}", error.message()),
    }
    let settings = ConfigStore::effective(&ConfigFile::default(), &no_environment()).ok().unwrap();
    match plan_test(&settings) {
        Ok(_) => panic!("there is no configuration"),
        Err(error) => assert_eq!(
            error.message(),
            "Configuration not found.\n\nRun:\ncodex-telegram-notify setup"
        ),
    }
}

#[test]
fn quotes_binary_paths_for_systemd() {
    let unit = render_unit("/home/user/Codex Tools/codex", "/home/user/.codex", &[]);
    assert!(unit.contains(
        "ExecStart=\"/home/user/Codex Tools/codex\" daemon run --codex-home \"/home/user/.codex\""
    ));
}

#[test]
fn writes_proxy_environment_to_systemd_unit() {
    let proxy_environment = vec![(
        "HTTPS_PROXY".to_string(),
        "http://proxy.example:8080".to_string(),
    )];
    let unit = render_unit("/home/user/codex", "/home/user/.codex", &proxy_environment);
    assert!(unit.contains("Environment=\"HTTPS_PROXY=http://proxy.example:8080\""));
}

#[test]
fn writes_a_whole_systemd_unit() {
    let variables = vec![("A".to_string(), "\"".to_string()), ("B".to_string(), "\\".to_string())];
    assert_eq!(
        render_unit("/x", "/y", &variables),
        "[Unit]\nDescription=Codex Telegram Notify review watcher\nAfter=default.target\n\n[Service]\nType=simple\nEnvironment=\"A=\\\"\"\nEnvironment=\"B=\\\\\"\nExecStart=\"/x\" daemon run --codex-home \"/y\"\nRestart=always\nRestartSec=5\n\n[Install]\nWantedBy=default.target\n"
    );
    assert_eq!(quote_systemd_argument("a\"b\\"), "\"a\\\"b\\\\\"");
    assert_eq!(unit_file_name(), "codex-telegram-notify-review.service");
    assert_eq!(task_action("C:\\x.exe", "C:\\y"), "\"C:\\x.exe\" daemon run --codex-home \"C:\\y\"");
}

#[test]
fn keeps_variables_that_are_set() {
    let names = proxy_variables();
    assert_eq!(names.len(), 8);
    assert_eq!(names[0], "HTTP_PROXY");
    assert_eq!(names[7], "no_proxy");
    let found = vec![
        ("A".to_string(), Some("1".to_string())),
        ("B".to_string(), None),
        ("C".to_string(), Some(String::new())),
        ("D".to_string(), Some("2".to_string())),
    ];
    assert_eq!(
        keep_set_variables(found),
        vec![("A".to_string(), "1".to_string()), ("D".to_string(), "2".to_string())]
    );
}

#[test]
fn a_watcher_needs_a_saved_configuration() {
    let environment = no_environment();
    assert!(validate_install_prerequisites(&saved(), &environment).is_ok());
    let message = |file: &ConfigFile, environment: &Environment| {
        match validate_install_prerequisites(file, environment) {
            Ok(()) => panic!("the watcher can be installed"),
            Err(error) => error.message().to_string(),
        }
    };
    let mut set = no_environment();
    set.bot_token = Some("1:x".to_string());
    set.chat_id = Some("8".to_string());
    assert_eq!(
        message(&ConfigFile::default(), &set),
        "The daemon needs a saved Telegram configuration. Run setup first."
    );
    let mut bad = no_environment();
    bad.timeout = Some("soon".to_string());
    assert_eq!(
        message(&saved(), &bad),
        "Environment variable CODEX_TELEGRAM_TIMEOUT has an invalid value"
    );
    let mut emptied = no_environment();
    emptied.bot_token = Some(" ".to_string());
    assert_eq!(message(&saved(), &emptied), "Telegram bot token is empty. Run setup.");
    assert_eq!(
        unsupported_platform().message(),
        "Daemon installation is currently supported on Linux and Windows only"
    );
}

#[test]
fn commands_that_fail_are_reported() {
    assert_eq!(
        format_command_error("systemctl", " no unit \n", "exit status: 5"),
        "systemctl failed: no unit"
    );
    assert_eq!(
        format_command_error("systemctl", " ", "exit status: 5"),
        "systemctl exited with status exit status: 5"
    );
    assert!(ensure_success("schtasks", true, "x", "y").is_ok());
    let message = |stderr: &str, stdout: &str| {
        match ensure_success("schtasks", false, stderr, stdout) {
            Ok(()) => panic!("the command failed"),
            Err(error) => error.message().to_string(),
        }
    };
    assert_eq!(message(" bad ", "out"), "schtasks failed: bad");
    assert_eq!(message(" ", " out "), "schtasks failed: out");
}
