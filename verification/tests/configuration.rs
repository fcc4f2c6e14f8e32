use codex_telegram_notify::cli::{run_config, ConfigAction, ConfigCommand};
use codex_telegram_notify::config::{
    format_get, format_show, mask_token, normalize_key, parse_bool, set_value, temporary_name,
    validate_file_values, BotToken, ConfigFile, ConfigStore, EffectiveConfig, Environment,
};
use codex_telegram_notify::error::AppError;
use std::path::PathBuf;

fn no_environment() -> Environment {
    Environment {
        bot_token: None,
        chat_id: None,
        enabled: None,
        max_length: None,
        timeout: None,
        silent: None,
        always_success: None,
    }
}

fn saved() -> ConfigFile {
    ConfigFile {
        bot_token: Some("111:file".to_string()),
        chat_id: Some(1),
        ..ConfigFile::default()
    }
}

fn message_of<T>(result: Result<T, AppError>) -> String {
    match result {
        Ok(_) => panic!("a failure was expected"),
        Err(error) => error.message().to_string(),
    }
}

fn effective(file: &ConfigFile, environment: &Environment) -> EffectiveConfig {
    match ConfigStore::effective(file, environment) {
        Ok(settings) => settings,
        Err(error) => panic!("{}", error.message()),
    }
}

#[test]
fn masks_only_the_secret_part_of_a_token() {
    assert_eq!(mask_token("123456:ABC"), "123456:************");
    assert_eq!(mask_token("ABC"), "************");
    assert_eq!(mask_token(""), "<not set>");
}

#[test]
fn masks_a_token_without_a_prefix() {
    assert_eq!(mask_token(":secret"), "************");
    assert_eq!(mask_token("a:b:c"), "a:************");
    assert_eq!(BotToken::new("7:x".to_string()).masked(), "7:************");
    assert!(BotToken::new(String::new()).is_empty());
    assert_eq!(BotToken::new("7:x".to_string()).clone().as_str(), "7:x");
}

#[test]
fn set_value_rejects_bot_tokens() {
    let mut config = ConfigFile::default();
    let error = set_value(&mut config, "bot-token", "123456:secret").unwrap_err();
    assert!(error.message().contains("setup"));
    assert!(config.bot_token.is_none());
}

#[test]
fn validates_length_and_timeout() {
    let mut config = ConfigFile::default();
    assert!(set_value(&mut config, "max-length", "4096").is_ok());
    assert!(set_value(&mut config, "max-length", "4097").is_err());
    assert!(set_value(&mut config, "timeout", "0").is_err());
}

#[test]
fn names_the_limits_that_are_not_met() {
    let mut config = ConfigFile::default();
    config.max_length = 0;
    assert_eq!(
        message_of(validate_file_values(&config)),
        "max-length must be between 1 and 4096"
    );
    config.max_length = 1;
    config.timeout_seconds = 0;
    assert_eq!(
        message_of(validate_file_values(&config)),
        "timeout must be greater than zero"
    );
    config.timeout_seconds = 1;
    assert!(validate_file_values(&config).is_ok());
}

#[test]
fn environment_values_override_file_values() {
    let environment = Environment {
        bot_token: Some("999:environment".to_string()),
        chat_id: Some("-100".to_string()),
        enabled: Some("false".to_string()),
        max_length: Some("4000".to_string()),
        timeout: Some("9".to_string()),
        silent: Some("true".to_string()),
        always_success: Some("false".to_string()),
    };
    let effective = effective(&saved(), &environment);
    assert_eq!(
        effective.bot_token.as_ref().map(BotToken::as_str),
        Some("999:environment")
    );
    assert_eq!(effective.chat_id, Some(-100));
    assert!(!effective.enabled);
    assert_eq!(effective.max_length, 4000);
    assert_eq!(effective.timeout_seconds, 9);
    assert!(effective.silent);
    assert!(!effective.always_success);
}

#[test]
fn file_values_hold_without_an_environment() {
    let mut file = saved();
    file.bot_token = Some("  111:file\n".to_string());
    let effective = effective(&file, &no_environment());
    assert_eq!(
        effective.bot_token.as_ref().map(BotToken::as_str),
        Some("111:file")
    );
    assert_eq!(effective.chat_id, Some(1));
    assert!(effective.enabled);
    assert_eq!(effective.max_length, 3500);
    assert_eq!(effective.timeout_seconds, 5);
    assert!(!effective.silent);
    assert!(effective.always_success);
}

#[test]
fn rejects_environment_values_that_cannot_be_read() {
    let mut environment = no_environment();
    environment.chat_id = Some("chat".to_string());
    assert_eq!(
        message_of(ConfigStore::effective(&saved(), &environment)),
        "Environment variable CODEX_TELEGRAM_CHAT_ID has an invalid value"
    );
    let mut environment = no_environment();
    environment.max_length = Some("-1".to_string());
    assert_eq!(
        message_of(ConfigStore::effective(&saved(), &environment)),
        "Environment variable CODEX_TELEGRAM_MAX_LENGTH has an invalid value"
    );
    let mut environment = no_environment();
    environment.silent = Some("maybe".to_string());
    assert_eq!(
        message_of(ConfigStore::effective(&saved(), &environment)),
        "CODEX_TELEGRAM_SILENT must be true or false"
    );
    let mut environment = no_environment();
    environment.max_length = Some("5000".to_string());
    assert_eq!(
        message_of(ConfigStore::effective(&saved(), &environment)),
        "max_length must be between 1 and 4096"
    );
    let mut environment = no_environment();
    environment.timeout = Some("0".to_string());
    assert_eq!(
        message_of(ConfigStore::effective(&saved(), &environment)),
        "timeout_seconds must be greater than zero"
    );
}

#[test]
fn sending_takes_a_token_and_a_chat() {
    let ready = effective(&saved(), &no_environment());
    let runtime = match ready.runtime() {
        Ok(runtime) => runtime,
        Err(error) => panic!("{}", error.message()),
    };
    assert_eq!(runtime.bot_token.as_str(), "111:file");
    assert_eq!(runtime.chat_id, 1);
    assert_eq!(runtime.max_length, 3500);
    assert_eq!(runtime.timeout_seconds, 5);
    assert!(!runtime.silent);

    let nothing = effective(&ConfigFile::default(), &no_environment());
    assert_eq!(
        message_of(nothing.runtime()),
        "Telegram bot token is not configured. Run setup."
    );
    let mut blank = saved();
    blank.bot_token = Some("  ".to_string());
    assert_eq!(
        message_of(effective(&blank, &no_environment()).runtime()),
        "Telegram bot token is empty. Run setup."
    );
    let mut no_chat = saved();
    no_chat.chat_id = None;
    assert_eq!(
        message_of(effective(&no_chat, &no_environment()).runtime()),
        "Telegram chat_id is not configured. Run setup."
    );
}

#[test]
fn nothing_is_sent_while_notifications_are_off() {
    let mut file = ConfigFile::default();
    file.enabled = false;
    let settings = effective(&file, &no_environment());
    assert!(matches!(settings.runtime_if_enabled(), Ok(None)));
    assert!(matches!(
        effective(&saved(), &no_environment()).runtime_if_enabled(),
        Ok(Some(_))
    ));
}

#[test]
fn shows_settings_without_the_secret() {
    let settings = effective(&saved(), &no_environment());
    assert_eq!(
        format_show(&settings),
        "bot_token = \"111:************\"\nchat_id = 1\nenabled = true\nsilent = false\nmax_length = 3500\ntimeout_seconds = 5\nalways_success = true"
    );
    let unset = effective(&ConfigFile::default(), &no_environment());
    assert!(format_show(&unset).starts_with("bot_token = \"<not set>\"\nchat_id = <not set>\n"));
}

#[test]
fn shows_one_setting() {
    let settings = effective(&saved(), &no_environment());
    assert_eq!(format_get(&settings, "bot-token").unwrap(), "111:************");
    assert_eq!(format_get(&settings, "chat-id").unwrap(), "1");
    assert_eq!(format_get(&settings, "enabled").unwrap(), "true");
    assert_eq!(format_get(&settings, "silent").unwrap(), "false");
    assert_eq!(format_get(&settings, "max_length").unwrap(), "3500");
    assert_eq!(format_get(&settings, "timeout").unwrap(), "5");
    assert_eq!(format_get(&settings, "always-success").unwrap(), "true");
    assert_eq!(
        message_of(format_get(&settings, "colour")),
        "Unknown configuration key: colour"
    );
}

#[test]
fn a_setting_reads_back_as_it_was_set() {
    let mut file = saved();
    assert!(set_value(&mut file, "chat-id", "-1001234567890").is_ok());
    assert_eq!(file.chat_id, Some(-1001234567890));
    assert!(set_value(&mut file, "silent", " TRUE ").is_ok());
    assert!(set_value(&mut file, "enabled", "false").is_ok());
    assert!(set_value(&mut file, "always_success", "false").is_ok());
    assert!(set_value(&mut file, "max-length", "+7").is_ok());
    assert!(set_value(&mut file, "timeout-seconds", "12").is_ok());
    let settings = effective(&file, &no_environment());
    assert_eq!(format_get(&settings, "chat-id").unwrap(), "-1001234567890");
    assert_eq!(format_get(&settings, "silent").unwrap(), "true");
    assert_eq!(format_get(&settings, "enabled").unwrap(), "false");
    assert_eq!(format_get(&settings, "always-success").unwrap(), "false");
    assert_eq!(format_get(&settings, "max-length").unwrap(), "7");
    assert_eq!(format_get(&settings, "timeout").unwrap(), "12");
    assert_eq!(file.bot_token.as_deref(), Some("111:file"));
}

#[test]
fn a_value_that_cannot_be_read_changes_nothing() {
    let mut file = saved();
    assert_eq!(
        message_of(set_value(&mut file, "chat-id", "9223372036854775808")),
        "chat-id must be a signed 64-bit integer"
    );
    assert!(set_value(&mut file, "chat-id", "9223372036854775807").is_ok());
    assert!(set_value(&mut file, "chat-id", "-9223372036854775808").is_ok());
    assert_eq!(file.chat_id, Some(i64::MIN));
    assert_eq!(
        message_of(set_value(&mut file, "max-length", "many")),
        "max-length must be an integer"
    );
    assert_eq!(
        message_of(set_value(&mut file, "timeout", "-1")),
        "timeout must be an integer"
    );
    assert_eq!(
        message_of(set_value(&mut file, "silent", "no")),
        "silent must be true or false"
    );
    assert_eq!(
        message_of(set_value(&mut file, "always-success", "")),
        "always-success must be true or false"
    );
    assert_eq!(
        message_of(set_value(&mut file, "colour", "red")),
        "Unknown configuration key: colour"
    );
    assert_eq!(file.max_length, 3500);
    assert_eq!(file.timeout_seconds, 5);
    assert!(!file.silent);
}

#[test]
fn keys_have_several_spellings() {
    assert_eq!(normalize_key("bot-token"), "bot_token");
    assert_eq!(normalize_key("bot_token"), "bot_token");
    assert_eq!(normalize_key("chat-id"), "chat_id");
    assert_eq!(normalize_key("timeout"), "timeout_seconds");
    assert_eq!(normalize_key("timeout-seconds"), "timeout_seconds");
    assert_eq!(normalize_key("max-length"), "max_length");
    assert_eq!(normalize_key("always-success"), "always_success");
    assert_eq!(normalize_key("other"), "other");
    assert!(parse_bool("x", "True").unwrap());
    assert_eq!(message_of(parse_bool("x", "1")), "x must be true or false");
}

#[test]
fn failures_are_hidden_unless_told_otherwise() {
    assert!(ConfigStore::always_success_best_effort(None, None));
    assert!(!ConfigStore::always_success_best_effort(None, Some("false")));
    let mut file = ConfigFile::default();
    file.always_success = false;
    assert!(!ConfigStore::always_success_best_effort(Some(&file), None));
    assert!(ConfigStore::always_success_best_effort(Some(&file), Some("true")));
    assert!(!ConfigStore::always_success_best_effort(Some(&file), Some("perhaps")));
}

#[test]
fn a_store_keeps_its_path() {
    let store = ConfigStore::from_path(PathBuf::from("/tmp/config.toml"));
    assert_eq!(store.path(), &PathBuf::from("/tmp/config.toml"));
    assert_eq!(temporary_name("config.toml", 42), ".config.toml.42.tmp");
}

#[test]
fn exit_codes_tell_failures_apart() {
    assert_eq!(AppError::Config(String::new()).exit_code(), 1);
    assert_eq!(AppError::Cancelled(String::new()).exit_code(), 1);
    assert_eq!(AppError::Payload(String::new()).exit_code(), 2);
    assert_eq!(AppError::Telegram(String::new()).exit_code(), 3);
}

#[test]
fn configuration_commands_print_save_or_remove() {
    let environment = no_environment();
    match run_config(ConfigCommand::Show, Ok(saved()), &environment) {
        Ok(ConfigAction::Print(text)) => assert!(text.contains("max_length = 3500")),
        _ => panic!("show prints"),
    }
    let get = ConfigCommand::Get { key: "chat-id".to_string() };
    match run_config(get, Ok(saved()), &environment) {
        Ok(ConfigAction::Print(text)) => assert_eq!(text, "1"),
        _ => panic!("get prints"),
    }
    let change = ConfigCommand::Change {
        key: "chat-id".to_string(),
        value: "-5".to_string(),
    };
    match run_config(change, Ok(saved()), &environment) {
        Ok(ConfigAction::Save(file)) => {
            assert_eq!(file.chat_id, Some(-5));
            assert_eq!(file.bot_token.as_deref(), Some("111:file"));
        }
        _ => panic!("a change is saved"),
    }
    let refused = ConfigCommand::Change {
        key: "max-length".to_string(),
        value: "4097".to_string(),
    };
    assert_eq!(
        message_of(run_config(refused, Ok(saved()), &environment)),
        "max-length must be between 1 and 4096"
    );
}

#[test]
fn a_broken_configuration_can_still_be_removed() {
    let broken = || Err(AppError::Config("broken".to_string()));
    let environment = no_environment();
    assert!(matches!(
        run_config(ConfigCommand::Reset, broken(), &environment),
        Ok(ConfigAction::Remove)
    ));
    assert_eq!(
        message_of(run_config(ConfigCommand::Show, broken(), &environment)),
        "broken"
    );
}
