//! The configuration: its file, the environment that overrides it, and what it shows.

use crate::error::{outcome, AppError, AppErrorView};
use crate::number::{
    decimal, decimal_text, law_signed_decimal_reads_back, parse_i64, parse_u64, parse_usize,
    parsed_i64, parsed_unsigned, signed_decimal, signed_decimal_text,
};
use crate::text::{
    law_cut_at_first, lemma_position_after, lowered, opt, opt_str, position, same_text,
    split_at_char, split_once, to_ascii_lowercase, trim, trimmed,
};
use vstd::prelude::*;
use vstd::string::StringExecFns;

verus! {

/// The length of a notification unless configured otherwise.
pub const DEFAULT_MAX_LENGTH: usize = 3500;

/// The length of the longest text that Telegram takes.
pub const MAX_TELEGRAM_LENGTH: usize = 4096;

/// The seconds to wait for Telegram unless configured otherwise.
pub const DEFAULT_TIMEOUT_SECONDS: u64 = 5;

/// The secret that identifies a bot.
pub struct BotToken(String);

impl View for BotToken {
    type V = Seq<char>;

    closed spec fn view(&self) -> Seq<char> {
        self.0@
    }
}

impl BotToken {
    pub fn new(value: String) -> (token: Self)
        ensures
            token@ == value@,
    {
        BotToken(value)
    }

    pub fn as_str(&self) -> (value: &str)
        ensures
            value@ == self@,
    {
        self.0.as_str()
    }

    pub fn is_empty(&self) -> (empty: bool)
        ensures
            empty == (self@.len() == 0),
    {
        self.0.as_str().is_empty()
    }

    /// The token with its secret part hidden.
    pub fn masked(&self) -> (text: String)
        ensures
            text@ == masked_token(self@),
    {
        mask_token(self.0.as_str())
    }
}

impl Clone for BotToken {
    fn clone(&self) -> (token: Self)
        ensures
            token@ == self@,
    {
        BotToken(self.0.clone())
    }
}

/// A token as it is shown: what stands before its first colon, and asterisks.
pub open spec fn masked_token(token: Seq<char>) -> Seq<char> {
    if token.len() == 0 {
        "<not set>"@
    } else {
        match split_at_char(token, ':') {
            Some((prefix, _)) => if prefix.len() > 0 {
                prefix + ":************"@
            } else {
                "************"@
            },
            None => "************"@,
        }
    }
}

/// Hides the secret part of a token.
pub fn mask_token(token: &str) -> (text: String)
    ensures
        text@ == masked_token(token@),
{
    if token.is_empty() {
        return "<not set>".to_owned();
    }
    if let Some((prefix, _)) = split_once(token, ':') {
        if !prefix.is_empty() {
            let mut text = prefix.to_owned();
            text.append(":************");
            return text;
        }
    }
    "************".to_owned()
}

/// The configuration file.
pub struct ConfigFile {
    pub bot_token: Option<String>,
    pub chat_id: Option<i64>,
    pub enabled: bool,
    pub max_length: usize,
    pub timeout_seconds: u64,
    pub silent: bool,
    pub always_success: bool,
}

impl Default for ConfigFile {
    fn default() -> (config: Self)
        ensures
            config == (ConfigFile {
                bot_token: None,
                chat_id: None,
                enabled: true,
                max_length: DEFAULT_MAX_LENGTH,
                timeout_seconds: DEFAULT_TIMEOUT_SECONDS,
                silent: false,
                always_success: true,
            }),
            config.max_length == 3500,
            config.timeout_seconds == 5,
    {
        ConfigFile {
            bot_token: None,
            chat_id: None,
            enabled: true,
            max_length: DEFAULT_MAX_LENGTH,
            timeout_seconds: DEFAULT_TIMEOUT_SECONDS,
            silent: false,
            always_success: true,
        }
    }
}

/// The configuration in force.
pub struct EffectiveConfig {
    pub bot_token: Option<BotToken>,
    pub chat_id: Option<i64>,
    pub enabled: bool,
    pub max_length: usize,
    pub timeout_seconds: u64,
    pub silent: bool,
    pub always_success: bool,
}

/// What a configuration in force holds.
pub struct EffectiveView {
    pub bot_token: Option<Seq<char>>,
    pub chat_id: Option<i64>,
    pub enabled: bool,
    pub max_length: usize,
    pub timeout_seconds: u64,
    pub silent: bool,
    pub always_success: bool,
}

impl View for EffectiveConfig {
    type V = EffectiveView;

    open spec fn view(&self) -> EffectiveView {
        EffectiveView {
            bot_token: match self.bot_token {
                Some(token) => Some(token@),
                None => None,
            },
            chat_id: self.chat_id,
            enabled: self.enabled,
            max_length: self.max_length,
            timeout_seconds: self.timeout_seconds,
            silent: self.silent,
            always_success: self.always_success,
        }
    }
}

/// What sending a message takes.
pub struct RuntimeConfig {
    pub bot_token: BotToken,
    pub chat_id: i64,
    pub max_length: usize,
    pub timeout_seconds: u64,
    pub silent: bool,
}

/// What a `RuntimeConfig` holds.
pub struct RuntimeView {
    pub bot_token: Seq<char>,
    pub chat_id: i64,
    pub max_length: usize,
    pub timeout_seconds: u64,
    pub silent: bool,
}

impl View for RuntimeConfig {
    type V = RuntimeView;

    open spec fn view(&self) -> RuntimeView {
        RuntimeView {
            bot_token: self.bot_token@,
            chat_id: self.chat_id,
            max_length: self.max_length,
            timeout_seconds: self.timeout_seconds,
            silent: self.silent,
        }
    }
}

/// The view of what a runtime configuration comes from.
pub open spec fn runtime_outcome(result: Result<RuntimeConfig, AppError>) -> Result<
    RuntimeView,
    AppErrorView,
> {
    match result {
        Ok(config) => Ok(config@),
        Err(error) => Err(error@),
    }
}

/// The view of what an effective configuration comes from.
pub open spec fn effective_outcome(result: Result<EffectiveConfig, AppError>) -> Result<
    EffectiveView,
    AppErrorView,
> {
    match result {
        Ok(config) => Ok(config@),
        Err(error) => Err(error@),
    }
}

/// Whether a length and a timeout are allowed, with the texts that name them in the
/// failure.
pub open spec fn limits_checked(
    max_length: usize,
    timeout_seconds: u64,
    length_name: Seq<char>,
    timeout_name: Seq<char>,
) -> Result<(), AppErrorView> {
    if max_length == 0 || max_length > MAX_TELEGRAM_LENGTH {
        Err(
            AppErrorView::Config(
                length_name + " must be between 1 and "@ + decimal(MAX_TELEGRAM_LENGTH as nat),
            ),
        )
    } else if timeout_seconds == 0 {
        Err(AppErrorView::Config(timeout_name + " must be greater than zero"@))
    } else {
        Ok(())
    }
}

/// Checks a length and a timeout.
fn check_limits(max_length: usize, timeout_seconds: u64, length_name: &str, timeout_name: &str) -> (
result: Result<(), AppError>)
    ensures
        outcome(result) == limits_checked(
            max_length,
            timeout_seconds,
            length_name@,
            timeout_name@,
        ),
{
    if max_length == 0 || max_length > MAX_TELEGRAM_LENGTH {
        let mut message = length_name.to_owned();
        message.append(" must be between 1 and ");
        message.append(decimal_text(MAX_TELEGRAM_LENGTH as u64).as_str());
        return Err(AppError::Config(message));
    }
    if timeout_seconds == 0 {
        let mut message = timeout_name.to_owned();
        message.append(" must be greater than zero");
        return Err(AppError::Config(message));
    }
    Ok(())
}

impl EffectiveView {
    /// Whether the limits are met.
    pub open spec fn validated(self) -> Result<(), AppErrorView> {
        limits_checked(self.max_length, self.timeout_seconds, "max_length"@, "timeout_seconds"@)
    }

    /// What sending takes, where everything for it is there.
    pub open spec fn runtime(self) -> Result<RuntimeView, AppErrorView> {
        match self.validated() {
            Err(error) => Err(error),
            Ok(_) => match (self.bot_token, self.chat_id) {
                (None, _) => Err(
                    AppErrorView::Config("Telegram bot token is not configured. Run setup."@),
                ),
                (Some(token), _) if token.len() == 0 => Err(
                    AppErrorView::Config("Telegram bot token is empty. Run setup."@),
                ),
                (Some(_), None) => Err(
                    AppErrorView::Config("Telegram chat_id is not configured. Run setup."@),
                ),
                (Some(token), Some(chat_id)) => Ok(
                    RuntimeView {
                        bot_token: token,
                        chat_id,
                        max_length: self.max_length,
                        timeout_seconds: self.timeout_seconds,
                        silent: self.silent,
                    },
                ),
            },
        }
    }

    /// What sending takes, unless notifications are off.
    pub open spec fn runtime_if_enabled(self) -> Result<Option<RuntimeView>, AppErrorView> {
        if !self.enabled {
            Ok(None)
        } else {
            match self.runtime() {
                Ok(runtime) => Ok(Some(runtime)),
                Err(error) => Err(error),
            }
        }
    }
}

impl EffectiveConfig {
    /// Checks the limits.
    pub fn validate(&self) -> (result: Result<(), AppError>)
        ensures
            outcome(result) == self@.validated(),
    {
        check_limits(self.max_length, self.timeout_seconds, "max_length", "timeout_seconds")
    }

    /// Collects what sending a message takes.
    pub fn runtime(&self) -> (result: Result<RuntimeConfig, AppError>)
        ensures
            runtime_outcome(result) == self@.runtime(),
    {
        match self.validate() {
            Err(error) => {
                return Err(error);
            },
            Ok(()) => {},
        }
        match &self.bot_token {
            None => Err(
                AppError::Config("Telegram bot token is not configured. Run setup.".to_owned()),
            ),
            Some(token) => {
                if token.is_empty() {
                    return Err(
                        AppError::Config("Telegram bot token is empty. Run setup.".to_owned()),
                    );
                }
                match self.chat_id {
                    None => Err(
                        AppError::Config(
                            "Telegram chat_id is not configured. Run setup.".to_owned(),
                        ),
                    ),
                    Some(chat_id) => Ok(
                        RuntimeConfig {
                            bot_token: token.clone(),
                            chat_id,
                            max_length: self.max_length,
                            timeout_seconds: self.timeout_seconds,
                            silent: self.silent,
                        },
                    ),
                }
            },
        }
    }

    /// Collects what sending a message takes, unless notifications are off.
    pub fn runtime_if_enabled(&self) -> (result: Result<Option<RuntimeConfig>, AppError>)
        ensures
            match result {
                Ok(Some(runtime)) => self@.runtime_if_enabled() == Ok::<
                    Option<RuntimeView>,
                    AppErrorView,
                >(Some(runtime@)),
                Ok(None) => self@.runtime_if_enabled() == Ok::<Option<RuntimeView>, AppErrorView>(
                    None,
                ),
                Err(error) => self@.runtime_if_enabled() == Err::<
                    Option<RuntimeView>,
                    AppErrorView,
                >(error@),
            },
    {
        if !self.enabled {
            return Ok(None);
        }
        match self.runtime() {
            Ok(runtime) => Ok(Some(runtime)),
            Err(error) => Err(error),
        }
    }
}

/// The name of a setting, from any of the spellings that the command line takes.
pub open spec fn normalized(key: Seq<char>) -> Seq<char> {
    if key == "bot-token"@ || key == "bot_token"@ {
        "bot_token"@
    } else if key == "chat-id"@ || key == "chat_id"@ {
        "chat_id"@
    } else if key == "max-length"@ || key == "max_length"@ {
        "max_length"@
    } else if key == "timeout"@ || key == "timeout-seconds"@ || key == "timeout_seconds"@ {
        "timeout_seconds"@
    } else if key == "always-success"@ || key == "always_success"@ {
        "always_success"@
    } else {
        key
    }
}

/// Brings the spelling of a setting to its name.
pub fn normalize_key<'a>(key: &'a str) -> (name: &'a str)
    ensures
        name@ == normalized(key@),
{
    if same_text(key, "bot-token") || same_text(key, "bot_token") {
        "bot_token"
    } else if same_text(key, "chat-id") || same_text(key, "chat_id") {
        "chat_id"
    } else if same_text(key, "max-length") || same_text(key, "max_length") {
        "max_length"
    } else if same_text(key, "timeout") || same_text(key, "timeout-seconds") || same_text(
        key,
        "timeout_seconds",
    ) {
        "timeout_seconds"
    } else if same_text(key, "always-success") || same_text(key, "always_success") {
        "always_success"
    } else {
        key
    }
}

/// The truth value that a text names, in any letter case and with white space around it.
pub open spec fn bool_of(value: Seq<char>) -> Option<bool> {
    if lowered(trimmed(value)) == "true"@ {
        Some(true)
    } else if lowered(trimmed(value)) == "false"@ {
        Some(false)
    } else {
        None
    }
}

/// What reading a truth value for a setting comes to.
pub open spec fn parsed_bool(name: Seq<char>, value: Seq<char>) -> Result<bool, AppErrorView> {
    match bool_of(value) {
        Some(flag) => Ok(flag),
        None => Err(AppErrorView::Config(name + " must be true or false"@)),
    }
}

/// Reads a truth value for a setting.
pub fn parse_bool(name: &str, value: &str) -> (result: Result<bool, AppError>)
    ensures
        outcome(result) == parsed_bool(name@, value@),
{
    let lower = to_ascii_lowercase(trim(value));
    if same_text(lower.as_str(), "true") {
        Ok(true)
    } else if same_text(lower.as_str(), "false") {
        Ok(false)
    } else {
        let mut message = name.to_owned();
        message.append(" must be true or false");
        Err(AppError::Config(message))
    }
}

/// The failure to find a setting.
pub open spec fn unknown_key(key: Seq<char>) -> AppErrorView {
    AppErrorView::Config("Unknown configuration key: "@ + key)
}

/// Reports a setting that does not exist.
fn unknown_key_error(key: &str) -> (error: AppError)
    ensures
        error@ == unknown_key(key@),
{
    let mut message = "Unknown configuration key: ".to_owned();
    message.append(key);
    AppError::Config(message)
}

/// A configuration file with one setting changed, its limits unchecked.
pub open spec fn assigned(config: ConfigFile, key: Seq<char>, value: Seq<char>) -> Result<
    ConfigFile,
    AppErrorView,
> {
    let name = normalized(key);
    if name == "bot_token"@ {
        Err(
            AppErrorView::Config(
                "Setting bot-token via CLI is disabled; use setup or CODEX_TELEGRAM_BOT_TOKEN"@,
            ),
        )
    } else if name == "chat_id"@ {
        match parsed_i64(value) {
            Some(id) => Ok(ConfigFile { chat_id: Some(id as i64), ..config }),
            None => Err(AppErrorView::Config("chat-id must be a signed 64-bit integer"@)),
        }
    } else if name == "enabled"@ {
        match parsed_bool("enabled"@, value) {
            Ok(enabled) => Ok(ConfigFile { enabled, ..config }),
            Err(error) => Err(error),
        }
    } else if name == "silent"@ {
        match parsed_bool("silent"@, value) {
            Ok(silent) => Ok(ConfigFile { silent, ..config }),
            Err(error) => Err(error),
        }
    } else if name == "max_length"@ {
        match parsed_unsigned(value, usize::MAX as nat) {
            Some(length) => Ok(ConfigFile { max_length: length as usize, ..config }),
            None => Err(AppErrorView::Config("max-length must be an integer"@)),
        }
    } else if name == "timeout_seconds"@ {
        match parsed_unsigned(value, u64::MAX as nat) {
            Some(seconds) => Ok(ConfigFile { timeout_seconds: seconds as u64, ..config }),
            None => Err(AppErrorView::Config("timeout must be an integer"@)),
        }
    } else if name == "always_success"@ {
        match parsed_bool("always-success"@, value) {
            Ok(always_success) => Ok(ConfigFile { always_success, ..config }),
            Err(error) => Err(error),
        }
    } else {
        Err(unknown_key(key))
    }
}

/// Whether the limits of a configuration file are met.
pub open spec fn file_checked(config: ConfigFile) -> Result<(), AppErrorView> {
    limits_checked(config.max_length, config.timeout_seconds, "max-length"@, "timeout"@)
}

/// Changes one setting of a configuration file.
///
/// A value that can be read is put in place even where the limits then turn out not to
/// be met; a value that cannot be read leaves the file as it was.
pub fn set_value(config: &mut ConfigFile, key: &str, value: &str) -> (result: Result<(), AppError>)
    ensures
        match assigned(*old(config), key@, value@) {
            Ok(changed) => *final(config) == changed && outcome(result) == file_checked(changed),
            Err(error) => *final(config) == *old(config) && outcome(result) == Err::<(), _>(error),
        },
{
    let name = normalize_key(key);
    if same_text(name, "bot_token") {
        return Err(
            AppError::Config(
                "Setting bot-token via CLI is disabled; use setup or CODEX_TELEGRAM_BOT_TOKEN".to_owned(),
            ),
        );
    } else if same_text(name, "chat_id") {
        match parse_i64(value) {
            Some(id) => {
                config.chat_id = Some(id);
            },
            None => {
                return Err(
                    AppError::Config("chat-id must be a signed 64-bit integer".to_owned()),
                );
            },
        }
    } else if same_text(name, "enabled") {
        match parse_bool("enabled", value) {
            Ok(enabled) => {
                config.enabled = enabled;
            },
            Err(error) => {
                return Err(error);
            },
        }
    } else if same_text(name, "silent") {
        match parse_bool("silent", value) {
            Ok(silent) => {
                config.silent = silent;
            },
            Err(error) => {
                return Err(error);
            },
        }
    } else if same_text(name, "max_length") {
        match parse_usize(value) {
            Some(length) => {
                config.max_length = length;
            },
            None => {
                return Err(AppError::Config("max-length must be an integer".to_owned()));
            },
        }
    } else if same_text(name, "timeout_seconds") {
        match parse_u64(value) {
            Some(seconds) => {
                config.timeout_seconds = seconds;
            },
            None => {
                return Err(AppError::Config("timeout must be an integer".to_owned()));
            },
        }
    } else if same_text(name, "always_success") {
        match parse_bool("always-success", value) {
            Ok(always_success) => {
                config.always_success = always_success;
            },
            Err(error) => {
                return Err(error);
            },
        }
    } else {
        return Err(unknown_key_error(key));
    }
    validate_file_values(config)
}

/// Checks the limits of a configuration file.
pub fn validate_file_values(config: &ConfigFile) -> (result: Result<(), AppError>)
    ensures
        outcome(result) == file_checked(*config),
{
    check_limits(config.max_length, config.timeout_seconds, "max-length", "timeout")
}

/// A truth value in words.
pub open spec fn bool_text(flag: bool) -> Seq<char> {
    if flag {
        "true"@
    } else {
        "false"@
    }
}

/// Puts a truth value in words.
fn write_bool(flag: bool) -> (text: String)
    ensures
        text@ == bool_text(flag),
{
    if flag {
        "true".to_owned()
    } else {
        "false".to_owned()
    }
}

/// A token as it is shown, where there is one.
pub open spec fn shown_token(token: Option<Seq<char>>) -> Seq<char> {
    match token {
        Some(token) => masked_token(token),
        None => "<not set>"@,
    }
}

/// A chat as it is shown, where there is one.
pub open spec fn shown_chat(chat_id: Option<i64>) -> Seq<char> {
    match chat_id {
        Some(chat_id) => signed_decimal(chat_id as int),
        None => "<not set>"@,
    }
}

/// Shows a token.
fn show_token(token: &Option<BotToken>) -> (text: String)
    ensures
        text@ == shown_token(
            match *token {
                Some(token) => Some(token@),
                None => None,
            },
        ),
{
    match token {
        Some(token) => token.masked(),
        None => "<not set>".to_owned(),
    }
}

/// Shows a chat.
fn show_chat(chat_id: Option<i64>) -> (text: String)
    ensures
        text@ == shown_chat(chat_id),
{
    match chat_id {
        Some(chat_id) => signed_decimal_text(chat_id),
        None => "<not set>".to_owned(),
    }
}

impl EffectiveView {
    /// All settings, one on a line.
    pub open spec fn shown(self) -> Seq<char> {
        "bot_token = \""@ + shown_token(self.bot_token) + "\"\nchat_id = "@ + shown_chat(
            self.chat_id,
        ) + "\nenabled = "@ + bool_text(self.enabled) + "\nsilent = "@ + bool_text(self.silent)
            + "\nmax_length = "@ + decimal(self.max_length as nat) + "\ntimeout_seconds = "@
            + decimal(self.timeout_seconds as nat) + "\nalways_success = "@ + bool_text(
            self.always_success,
        )
    }

    /// One setting.
    pub open spec fn setting(self, key: Seq<char>) -> Result<Seq<char>, AppErrorView> {
        let name = normalized(key);
        if name == "bot_token"@ {
            Ok(shown_token(self.bot_token))
        } else if name == "chat_id"@ {
            Ok(shown_chat(self.chat_id))
        } else if name == "enabled"@ {
            Ok(bool_text(self.enabled))
        } else if name == "silent"@ {
            Ok(bool_text(self.silent))
        } else if name == "max_length"@ {
            Ok(decimal(self.max_length as nat))
        } else if name == "timeout_seconds"@ {
            Ok(decimal(self.timeout_seconds as nat))
        } else if name == "always_success"@ {
            Ok(bool_text(self.always_success))
        } else {
            Err(unknown_key(key))
        }
    }
}

/// Shows all settings.
pub fn format_show(config: &EffectiveConfig) -> (text: String)
    ensures
        text@ == config@.shown(),
{
    let mut text = "bot_token = \"".to_owned();
    text.append(show_token(&config.bot_token).as_str());
    text.append("\"\nchat_id = ");
    text.append(show_chat(config.chat_id).as_str());
    text.append("\nenabled = ");
    text.append(write_bool(config.enabled).as_str());
    text.append("\nsilent = ");
    text.append(write_bool(config.silent).as_str());
    text.append("\nmax_length = ");
    text.append(decimal_text(config.max_length as u64).as_str());
    text.append("\ntimeout_seconds = ");
    text.append(decimal_text(config.timeout_seconds).as_str());
    text.append("\nalways_success = ");
    text.append(write_bool(config.always_success).as_str());
    text
}

/// The view of a text or a failure.
pub open spec fn text_outcome(result: Result<String, AppError>) -> Result<Seq<char>, AppErrorView> {
    match result {
        Ok(text) => Ok(text@),
        Err(error) => Err(error@),
    }
}

/// Shows one setting.
pub fn format_get(config: &EffectiveConfig, key: &str) -> (result: Result<String, AppError>)
    ensures
        text_outcome(result) == config@.setting(key@),
{
    let name = normalize_key(key);
    if same_text(name, "bot_token") {
        Ok(show_token(&config.bot_token))
    } else if same_text(name, "chat_id") {
        Ok(show_chat(config.chat_id))
    } else if same_text(name, "enabled") {
        Ok(write_bool(config.enabled))
    } else if same_text(name, "silent") {
        Ok(write_bool(config.silent))
    } else if same_text(name, "max_length") {
        Ok(decimal_text(config.max_length as u64))
    } else if same_text(name, "timeout_seconds") {
        Ok(decimal_text(config.timeout_seconds))
    } else if same_text(name, "always_success") {
        Ok(write_bool(config.always_success))
    } else {
        Err(unknown_key_error(key))
    }
}

/// The environment variables that override the configuration file, as they stand.
pub struct Environment {
    /// `CODEX_TELEGRAM_BOT_TOKEN`
    pub bot_token: Option<String>,
    /// `CODEX_TELEGRAM_CHAT_ID`
    pub chat_id: Option<String>,
    /// `CODEX_TELEGRAM_ENABLED`
    pub enabled: Option<String>,
    /// `CODEX_TELEGRAM_MAX_LENGTH`
    pub max_length: Option<String>,
    /// `CODEX_TELEGRAM_TIMEOUT`
    pub timeout: Option<String>,
    /// `CODEX_TELEGRAM_SILENT`
    pub silent: Option<String>,
    /// `CODEX_TELEGRAM_ALWAYS_SUCCESS`
    pub always_success: Option<String>,
}

/// The failure to read a number from an environment variable.
pub open spec fn invalid_variable(name: Seq<char>) -> AppErrorView {
    AppErrorView::Config("Environment variable "@ + name + " has an invalid value"@)
}

/// Reports an environment variable that does not hold a number.
fn invalid_variable_error(name: &str) -> (error: AppError)
    ensures
        error@ == invalid_variable(name@),
{
    let mut message = "Environment variable ".to_owned();
    message.append(name);
    message.append(" has an invalid value");
    AppError::Config(message)
}

/// A token: that of the environment before that of the file, trimmed.
pub open spec fn token_in_force(variable: Option<Seq<char>>, file: Option<Seq<char>>) -> Option<
    Seq<char>,
> {
    match (variable, file) {
        (Some(value), _) => Some(trimmed(value)),
        (None, Some(value)) => Some(trimmed(value)),
        (None, None) => None,
    }
}

/// A chat: that of the environment before that of the file.
pub open spec fn chat_in_force(variable: Option<Seq<char>>, file: Option<i64>) -> Result<
    Option<i64>,
    AppErrorView,
> {
    match variable {
        Some(value) => match parsed_i64(value) {
            Some(id) => Ok(Some(id as i64)),
            None => Err(invalid_variable("CODEX_TELEGRAM_CHAT_ID"@)),
        },
        None => Ok(file),
    }
}

/// A truth value: that of the environment before that of the file.
pub open spec fn bool_in_force(name: Seq<char>, variable: Option<Seq<char>>, file: bool) -> Result<
    bool,
    AppErrorView,
> {
    match variable {
        Some(value) => parsed_bool(name, value),
        None => Ok(file),
    }
}

/// A number: that of the environment before that of the file.
pub open spec fn number_in_force(
    name: Seq<char>,
    variable: Option<Seq<char>>,
    file: nat,
    max: nat,
) -> Result<nat, AppErrorView> {
    match variable {
        Some(value) => match parsed_unsigned(value, max) {
            Some(number) => Ok(number),
            None => Err(invalid_variable(name)),
        },
        None => Ok(file),
    }
}

/// Chooses the token.
fn override_token(variable: &Option<String>, file: &Option<String>) -> (token: Option<BotToken>)
    ensures
        token_in_force(opt(*variable), opt(*file)) == match token {
            Some(token) => Some(token@),
            None => None,
        },
{
    match variable {
        Some(value) => Some(BotToken::new(trim(value.as_str()).to_owned())),
        None => match file {
            Some(value) => Some(BotToken::new(trim(value.as_str()).to_owned())),
            None => None,
        },
    }
}

/// Chooses the chat.
fn override_chat(variable: &Option<String>, file: Option<i64>) -> (result: Result<
    Option<i64>,
    AppError,
>)
    ensures
        outcome(result) == chat_in_force(opt(*variable), file),
{
    match variable {
        Some(value) => match parse_i64(value.as_str()) {
            Some(id) => Ok(Some(id)),
            None => Err(invalid_variable_error("CODEX_TELEGRAM_CHAT_ID")),
        },
        None => Ok(file),
    }
}

/// Chooses a truth value.
fn override_bool(name: &str, variable: &Option<String>, file: bool) -> (result: Result<
    bool,
    AppError,
>)
    ensures
        outcome(result) == bool_in_force(name@, opt(*variable), file),
{
    match variable {
        Some(value) => parse_bool(name, value.as_str()),
        None => Ok(file),
    }
}

/// Chooses a number.
fn override_number(name: &str, variable: &Option<String>, file: u64) -> (result: Result<
    u64,
    AppError,
>)
    ensures
        match result {
            Ok(number) => number_in_force(name@, opt(*variable), file as nat, u64::MAX as nat)
                == Ok::<nat, AppErrorView>(number as nat),
            Err(error) => number_in_force(name@, opt(*variable), file as nat, u64::MAX as nat)
                == Err::<nat, AppErrorView>(error@),
        },
{
    match variable {
        Some(value) => match parse_u64(value.as_str()) {
            Some(number) => Ok(number),
            None => Err(invalid_variable_error(name)),
        },
        None => Ok(file),
    }
}

/// Chooses a length.
fn override_length(name: &str, variable: &Option<String>, file: usize) -> (result: Result<
    usize,
    AppError,
>)
    ensures
        match result {
            Ok(length) => number_in_force(name@, opt(*variable), file as nat, usize::MAX as nat)
                == Ok::<nat, AppErrorView>(length as nat),
            Err(error) => number_in_force(name@, opt(*variable), file as nat, usize::MAX as nat)
                == Err::<nat, AppErrorView>(error@),
        },
{
    match variable {
        Some(value) => match parse_usize(value.as_str()) {
            Some(length) => Ok(length),
            None => Err(invalid_variable_error(name)),
        },
        None => Ok(file),
    }
}

/// The first failure among the environment variables, in the order in which they are
/// read.
pub open spec fn first_bad_variable(file: ConfigFile, environment: Environment) -> Option<
    AppErrorView,
> {
    if let Err(error) = chat_in_force(opt(environment.chat_id), file.chat_id) {
        Some(error)
    } else if let Err(error) = bool_in_force(
        "CODEX_TELEGRAM_ENABLED"@,
        opt(environment.enabled),
        file.enabled,
    ) {
        Some(error)
    } else if let Err(error) = number_in_force(
        "CODEX_TELEGRAM_MAX_LENGTH"@,
        opt(environment.max_length),
        file.max_length as nat,
        usize::MAX as nat,
    ) {
        Some(error)
    } else if let Err(error) = number_in_force(
        "CODEX_TELEGRAM_TIMEOUT"@,
        opt(environment.timeout),
        file.timeout_seconds as nat,
        u64::MAX as nat,
    ) {
        Some(error)
    } else if let Err(error) = bool_in_force(
        "CODEX_TELEGRAM_SILENT"@,
        opt(environment.silent),
        file.silent,
    ) {
        Some(error)
    } else if let Err(error) = bool_in_force(
        "CODEX_TELEGRAM_ALWAYS_SUCCESS"@,
        opt(environment.always_success),
        file.always_success,
    ) {
        Some(error)
    } else {
        None
    }
}

/// The settings in force, where every environment variable can be read.
pub open spec fn settings_in_force(file: ConfigFile, environment: Environment) -> EffectiveView {
    EffectiveView {
        bot_token: token_in_force(opt(environment.bot_token), opt(file.bot_token)),
        chat_id: chat_in_force(opt(environment.chat_id), file.chat_id)->Ok_0,
        enabled: bool_in_force(
            "CODEX_TELEGRAM_ENABLED"@,
            opt(environment.enabled),
            file.enabled,
        )->Ok_0,
        max_length: number_in_force(
            "CODEX_TELEGRAM_MAX_LENGTH"@,
            opt(environment.max_length),
            file.max_length as nat,
            usize::MAX as nat,
        )->Ok_0 as usize,
        timeout_seconds: number_in_force(
            "CODEX_TELEGRAM_TIMEOUT"@,
            opt(environment.timeout),
            file.timeout_seconds as nat,
            u64::MAX as nat,
        )->Ok_0 as u64,
        silent: bool_in_force(
            "CODEX_TELEGRAM_SILENT"@,
            opt(environment.silent),
            file.silent,
        )->Ok_0,
        always_success: bool_in_force(
            "CODEX_TELEGRAM_ALWAYS_SUCCESS"@,
            opt(environment.always_success),
            file.always_success,
        )->Ok_0,
    }
}

/// The configuration in force: the settings, unless a variable cannot be read or a limit
/// is not met.
pub open spec fn in_force(file: ConfigFile, environment: Environment) -> Result<
    EffectiveView,
    AppErrorView,
> {
    match first_bad_variable(file, environment) {
        Some(error) => Err(error),
        None => match settings_in_force(file, environment).validated() {
            Err(error) => Err(error),
            Ok(_) => Ok(settings_in_force(file, environment)),
        },
    }
}

/// The name of the configuration file.
pub const CONFIG_FILE_NAME: &'static str = "config.toml";

/// The name under which a file is written before it takes the place of another.
pub fn temporary_name(file_name: &str, process_id: u32) -> (name: String)
    ensures
        name@ == "."@ + file_name@ + "."@ + decimal(process_id as nat) + ".tmp"@,
{
    let mut name = ".".to_owned();
    name.append(file_name);
    name.append(".");
    name.append(decimal_text(process_id as u64).as_str());
    name.append(".tmp");
    name
}

/// `std::path::PathBuf`, carried without looking inside.
#[verifier::external_type_specification]
#[verifier::external_body]
pub struct ExPathBuf(std::path::PathBuf);

/// Where the configuration file is, and what it means.
pub struct ConfigStore {
    path: std::path::PathBuf,
}

impl ConfigStore {
    /// Where the configuration file is.
    pub closed spec fn location(self) -> std::path::PathBuf {
        self.path
    }

    pub fn from_path(path: std::path::PathBuf) -> (store: Self)
        ensures
            store.location() == path,
    {
        ConfigStore { path }
    }

    pub fn path(&self) -> (path: &std::path::PathBuf)
        ensures
            *path == self.location(),
    {
        &self.path
    }

    /// Puts the environment over the configuration file.
    pub fn effective(file: &ConfigFile, environment: &Environment) -> (result: Result<
        EffectiveConfig,
        AppError,
    >)
        ensures
            effective_outcome(result) == in_force(*file, *environment),
    {
        let bot_token = override_token(&environment.bot_token, &file.bot_token);
        let chat_id = match override_chat(&environment.chat_id, file.chat_id) {
            Ok(chat_id) => chat_id,
            Err(error) => {
                return Err(error);
            },
        };
        let enabled = match override_bool(
            "CODEX_TELEGRAM_ENABLED",
            &environment.enabled,
            file.enabled,
        ) {
            Ok(flag) => flag,
            Err(error) => {
                return Err(error);
            },
        };
        let max_length: usize = match override_length(
            "CODEX_TELEGRAM_MAX_LENGTH",
            &environment.max_length,
            file.max_length,
        ) {
            Ok(length) => length,
            Err(error) => {
                return Err(error);
            },
        };
        let timeout_seconds: u64 = match override_number(
            "CODEX_TELEGRAM_TIMEOUT",
            &environment.timeout,
            file.timeout_seconds,
        ) {
            Ok(seconds) => seconds,
            Err(error) => {
                return Err(error);
            },
        };
        let silent = match override_bool(
            "CODEX_TELEGRAM_SILENT",
            &environment.silent,
            file.silent,
        ) {
            Ok(flag) => flag,
            Err(error) => {
                return Err(error);
            },
        };
        let always_success = match override_bool(
            "CODEX_TELEGRAM_ALWAYS_SUCCESS",
            &environment.always_success,
            file.always_success,
        ) {
            Ok(flag) => flag,
            Err(error) => {
                return Err(error);
            },
        };
        let effective = EffectiveConfig {
            bot_token,
            chat_id,
            enabled,
            max_length,
            timeout_seconds,
            silent,
            always_success,
        };
        match effective.validate() {
            Ok(()) => Ok(effective),
            Err(error) => Err(error),
        }
    }

    /// Whether failures are to be hidden from Codex, as far as that can be told: the
    /// environment decides where it can be read, then the file where it could be loaded.
    pub fn always_success_best_effort(file: Option<&ConfigFile>, variable: Option<&str>) -> (result:
        bool)
        ensures
            result == hides_failures(file, opt_str(variable)),
    {
        if let Some(value) = variable {
            if let Ok(flag) = parse_bool("CODEX_TELEGRAM_ALWAYS_SUCCESS", value) {
                return flag;
            }
        }
        match file {
            Some(file) => file.always_success,
            None => true,
        }
    }
}

/// Whether failures are to be hidden from Codex.
pub open spec fn hides_failures(file: Option<&ConfigFile>, variable: Option<Seq<char>>) -> bool {
    let saved = match file {
        Some(file) => file.always_success,
        None => true,
    };
    match variable {
        Some(value) => match bool_of(value) {
            Some(flag) => flag,
            None => saved,
        },
        None => saved,
    }
}

/// No command-line setting changes the token.
pub proof fn law_set_keeps_token(config: ConfigFile, key: Seq<char>, value: Seq<char>)
    ensures
        assigned(config, key, value) matches Ok(changed) ==> changed.bot_token
            == config.bot_token,
{
}

/// Setting the token from the command line is refused under both of its spellings.
pub proof fn law_set_refuses_token(config: ConfigFile, key: Seq<char>, value: Seq<char>)
    requires
        key == "bot-token"@ || key == "bot_token"@,
    ensures
        assigned(config, key, value) is Err,
{
}

/// A setting changes nothing but the field that its key names.
pub proof fn law_set_changes_one_field(config: ConfigFile, key: Seq<char>, value: Seq<char>)
    ensures
        assigned(config, key, value) matches Ok(changed) ==> {
            let name = normalized(key);
            &&& changed.bot_token == config.bot_token
            &&& name != "chat_id"@ ==> changed.chat_id == config.chat_id
            &&& name != "enabled"@ ==> changed.enabled == config.enabled
            &&& name != "silent"@ ==> changed.silent == config.silent
            &&& name != "max_length"@ ==> changed.max_length == config.max_length
            &&& name != "timeout_seconds"@ ==> changed.timeout_seconds == config.timeout_seconds
            &&& name != "always_success"@ ==> changed.always_success == config.always_success
        },
{
}

/// The text under which a setting is shown after a value was given for it: the value in
/// its plain notation.
pub open spec fn plain_notation(key: Seq<char>, value: Seq<char>) -> Seq<char> {
    let name = normalized(key);
    if name == "chat_id"@ {
        signed_decimal(parsed_i64(value)->0)
    } else if name == "max_length"@ {
        decimal(parsed_unsigned(value, usize::MAX as nat)->0)
    } else if name == "timeout_seconds"@ {
        decimal(parsed_unsigned(value, u64::MAX as nat)->0)
    } else {
        bool_text(bool_of(value)->0)
    }
}

/// An environment without any of the variables.
pub open spec fn is_silent_environment(environment: Environment) -> bool {
    &&& environment.bot_token is None
    &&& environment.chat_id is None
    &&& environment.enabled is None
    &&& environment.max_length is None
    &&& environment.timeout is None
    &&& environment.silent is None
    &&& environment.always_success is None
}

/// What is set under a key is what is shown under it, as long as no environment variable
/// stands in the way and the limits are met.
pub proof fn law_setting_reads_back(
    config: ConfigFile,
    environment: Environment,
    key: Seq<char>,
    value: Seq<char>,
)
    requires
        is_silent_environment(environment),
        assigned(config, key, value) is Ok,
        file_checked(assigned(config, key, value)->Ok_0) is Ok,
    ensures
        in_force(assigned(config, key, value)->Ok_0, environment) matches Ok(effective)
            && effective.setting(key) == Ok::<Seq<char>, AppErrorView>(plain_notation(key, value)),
{
    let changed = assigned(config, key, value)->Ok_0;
    assert(first_bad_variable(changed, environment) is None);
    let effective = settings_in_force(changed, environment);
    assert(effective.validated() is Ok);
    assert(in_force(changed, environment) is Ok);
    reveal_strlit("enabled");
    reveal_strlit("silent");
    reveal_strlit("max_length");
    reveal_strlit("timeout_seconds");
    reveal_strlit("always_success");
    assert("enabled"@.len() == 7 && "silent"@.len() == 6 && "max_length"@.len() == 10);
    assert("timeout_seconds"@.len() == 15 && "always_success"@.len() == 14);
}

/// A chat identifier of any sign written in decimal is stored as it is.
pub proof fn law_chat_id_is_stored(config: ConfigFile, id: i64)
    ensures
        assigned(config, "chat-id"@, signed_decimal(id as int)) == Ok::<ConfigFile, AppErrorView>(
            ConfigFile { chat_id: Some(id), ..config },
        ),
{
    law_signed_decimal_reads_back(id);
    reveal_strlit("chat-id");
    reveal_strlit("chat_id");
    reveal_strlit("bot-token");
    reveal_strlit("bot_token");
    assert("chat-id"@.len() != "bot-token"@.len());
    assert("chat-id"@.len() != "bot_token"@.len());
    assert("chat_id"@.len() != "bot_token"@.len());
}

/// What is shown of a token with a colon does not depend on what follows the colon.
pub proof fn law_mask_hides_secret(prefix: Seq<char>, left: Seq<char>, right: Seq<char>)
    requires
        position(prefix, ':') is None,
    ensures
        masked_token(prefix + seq![':'] + left) == masked_token(prefix + seq![':'] + right),
{
    lemma_position_after(prefix, ':', left);
    lemma_position_after(prefix, ':', right);
    assert((prefix + seq![':'] + left).take(prefix.len() as int) =~= prefix);
    assert((prefix + seq![':'] + right).take(prefix.len() as int) =~= prefix);
}

/// What is shown of a token without a colon does not depend on the token.
pub proof fn law_mask_hides_plain_secret(left: Seq<char>, right: Seq<char>)
    requires
        left.len() > 0,
        right.len() > 0,
        position(left, ':') is None,
        position(right, ':') is None,
    ensures
        masked_token(left) == masked_token(right),
{
}

/// Neither showing all settings nor showing one of them depends on what follows the colon
/// of the token.
pub proof fn law_shown_settings_hide_secret(
    config: EffectiveView,
    key: Seq<char>,
    prefix: Seq<char>,
    left: Seq<char>,
    right: Seq<char>,
)
    requires
        position(prefix, ':') is None,
    ensures
        ({
            let one = EffectiveView { bot_token: Some(prefix + seq![':'] + left), ..config };
            let other = EffectiveView { bot_token: Some(prefix + seq![':'] + right), ..config };
            one.shown() == other.shown() && one.setting(key) == other.setting(key)
        }),
{
    law_mask_hides_secret(prefix, left, right);
}

/// A variable that is set decides its setting, whatever the file says, and a setting
/// without a variable is that of the file.
pub proof fn law_environment_overrides_file(file: ConfigFile, environment: Environment)
    ensures
        in_force(file, environment) matches Ok(effective) ==> {
            &&& effective.bot_token == match (environment.bot_token, file.bot_token) {
                (Some(value), _) => Some(trimmed(value@)),
                (None, Some(value)) => Some(trimmed(value@)),
                (None, None) => None,
            }
            &&& match environment.chat_id {
                Some(value) => effective.chat_id is Some && parsed_i64(value@) == Some(
                    effective.chat_id->0 as int,
                ),
                None => effective.chat_id == file.chat_id,
            }
            &&& match environment.enabled {
                Some(value) => bool_of(value@) == Some(effective.enabled),
                None => effective.enabled == file.enabled,
            }
            &&& match environment.max_length {
                Some(value) => parsed_unsigned(value@, usize::MAX as nat) == Some(
                    effective.max_length as nat,
                ),
                None => effective.max_length == file.max_length,
            }
            &&& match environment.timeout {
                Some(value) => parsed_unsigned(value@, u64::MAX as nat) == Some(
                    effective.timeout_seconds as nat,
                ),
                None => effective.timeout_seconds == file.timeout_seconds,
            }
            &&& match environment.silent {
                Some(value) => bool_of(value@) == Some(effective.silent),
                None => effective.silent == file.silent,
            }
            &&& match environment.always_success {
                Some(value) => bool_of(value@) == Some(effective.always_success),
                None => effective.always_success == file.always_success,
            }
        },
{
}

/// Whatever the file and the environment hold, a message is only sent with a token, at
/// most as long as Telegram takes, and with time to send it.
pub proof fn law_runtime_is_usable(file: ConfigFile, environment: Environment)
    ensures
        in_force(file, environment) matches Ok(effective) ==> {
            &&& 1 <= effective.max_length <= MAX_TELEGRAM_LENGTH
            &&& effective.timeout_seconds > 0
            &&& effective.runtime() matches Ok(runtime) ==> {
                &&& runtime.bot_token.len() > 0
                &&& 1 <= runtime.max_length <= MAX_TELEGRAM_LENGTH
                &&& runtime.timeout_seconds > 0
            }
        },
{
}

/// The spellings of the settings differ.
proof fn lemma_spellings_differ()
    ensures
        "bot_token"@.len() == 9 && "bot-token"@.len() == 9,
        "chat_id"@.len() == 7 && "chat-id"@.len() == 7 && "enabled"@.len() == 7 && "timeout"@.len()
            == 7,
        "silent"@.len() == 6,
        "max_length"@.len() == 10 && "max-length"@.len() == 10,
        "timeout_seconds"@.len() == 15 && "timeout-seconds"@.len() == 15,
        "always_success"@.len() == 14 && "always-success"@.len() == 14,
        "chat_id"@[0] == 'c' && "chat-id"@[0] == 'c' && "enabled"@[0] == 'e' && "timeout"@[0]
            == 't',
        "chat-id"@ != "chat_id"@,
        "enabled"@ != "timeout"@,
        "enabled"@ != "chat_id"@,
        "enabled"@ != "chat-id"@,
        "timeout"@ != "chat_id"@,
        "timeout"@ != "chat-id"@,
{
    reveal_strlit("bot_token");
    reveal_strlit("bot-token");
    reveal_strlit("chat_id");
    reveal_strlit("chat-id");
    reveal_strlit("enabled");
    reveal_strlit("timeout");
    reveal_strlit("silent");
    reveal_strlit("max_length");
    reveal_strlit("max-length");
    reveal_strlit("timeout_seconds");
    reveal_strlit("timeout-seconds");
    reveal_strlit("always_success");
    reveal_strlit("always-success");
    assert("chat-id"@[4] == '-' && "chat_id"@[4] == '_');
    assert("enabled"@[0] == 'e' && "timeout"@[0] == 't' && "chat_id"@[0] == 'c' && "chat-id"@[0]
        == 'c');
}

/// What is sent goes out with the settings in force: where a configuration yields what sending
/// takes, its bot, chat, length, time and silence are those of the configuration.
pub proof fn law_sending_uses_the_settings(settings: EffectiveView)
    ensures
        settings.runtime() matches Ok(runtime) ==> {
            &&& settings.bot_token == Some(runtime.bot_token)
            &&& settings.chat_id == Some(runtime.chat_id)
            &&& runtime.max_length == settings.max_length
            &&& runtime.timeout_seconds == settings.timeout_seconds
            &&& runtime.silent == settings.silent
        },
{
}

/// A configuration yields what sending takes exactly where it has a bot token that is not empty,
/// a chat, a length from 1 to 4096 and some time; where it is without the first of these in the
/// order length, time, token, chat, the failure says which.
pub proof fn law_sending_takes_bot_and_chat(settings: EffectiveView)
    ensures
        settings.runtime() is Ok <==> {
            &&& settings.bot_token matches Some(token) && token.len() > 0
            &&& settings.chat_id is Some
            &&& 1 <= settings.max_length <= 4096
            &&& settings.timeout_seconds >= 1
        },
        !(1 <= settings.max_length <= 4096) ==> settings.runtime() == Err::<RuntimeView, _>(
            AppErrorView::Config("max_length"@ + " must be between 1 and "@ + decimal(4096)),
        ),
        1 <= settings.max_length <= 4096 && settings.timeout_seconds == 0 ==> settings.runtime()
            == Err::<RuntimeView, _>(
            AppErrorView::Config("timeout_seconds"@ + " must be greater than zero"@),
        ),
        1 <= settings.max_length <= 4096 && settings.timeout_seconds > 0 && settings.bot_token is None
            ==> settings.runtime() == Err::<RuntimeView, _>(
            AppErrorView::Config("Telegram bot token is not configured. Run setup."@),
        ),
        1 <= settings.max_length <= 4096 && settings.timeout_seconds > 0 && (
        settings.bot_token matches Some(token) && token.len() == 0) ==> settings.runtime() == Err::<
            RuntimeView,
            _,
        >(AppErrorView::Config("Telegram bot token is empty. Run setup."@)),
        1 <= settings.max_length <= 4096 && settings.timeout_seconds > 0 && (
        settings.bot_token matches Some(token) && token.len() > 0) && settings.chat_id is None
            ==> settings.runtime() == Err::<RuntimeView, _>(
            AppErrorView::Config("Telegram chat_id is not configured. Run setup."@),
        ),
{
}

/// With notifications off there is nothing to send with, and no failure; with them on there is
/// what the configuration yields.
pub proof fn law_switch_decides_on_sending(settings: EffectiveView)
    ensures
        !settings.enabled ==> settings.runtime_if_enabled() == Ok::<
            Option<RuntimeView>,
            AppErrorView,
        >(None),
        settings.enabled ==> match settings.runtime() {
            Ok(runtime) => settings.runtime_if_enabled() == Ok::<Option<RuntimeView>, AppErrorView>(
                Some(runtime),
            ),
            Err(error) => settings.runtime_if_enabled() == Err::<
                Option<RuntimeView>,
                AppErrorView,
            >(error),
        },
{
}

/// A configuration is in force exactly where every variable that is set can be read and the
/// length and time that result are allowed.
pub proof fn law_in_force_where_all_is_read(file: ConfigFile, environment: Environment)
    ensures
        in_force(file, environment) is Ok <==> {
            &&& environment.chat_id matches Some(value) ==> parsed_i64(value@) is Some
            &&& environment.enabled matches Some(value) ==> bool_of(value@) is Some
            &&& environment.silent matches Some(value) ==> bool_of(value@) is Some
            &&& environment.always_success matches Some(value) ==> bool_of(value@) is Some
            &&& match environment.max_length {
                Some(value) => parsed_unsigned(value@, usize::MAX as nat) matches Some(length)
                    && 1 <= length <= 4096,
                None => 1 <= file.max_length <= 4096,
            }
            &&& match environment.timeout {
                Some(value) => parsed_unsigned(value@, u64::MAX as nat) matches Some(seconds)
                    && seconds >= 1,
                None => file.timeout_seconds >= 1,
            }
        },
{
    if let Some(value) = environment.max_length {
        if let Some(length) = parsed_unsigned(value@, usize::MAX as nat) {
            assert(length <= usize::MAX);
        }
    }
    if let Some(value) = environment.timeout {
        if let Some(seconds) = parsed_unsigned(value@, u64::MAX as nat) {
            assert(seconds <= u64::MAX);
        }
    }
}

/// A truth value is the word for it in any letter case, with white space around it or not, and
/// nothing else is one.
pub proof fn law_truth_values_are_words(value: Seq<char>)
    ensures
        bool_of(value) == Some(true) <==> lowered(trimmed(value)) == "true"@,
        bool_of(value) == Some(false) <==> lowered(trimmed(value)) == "false"@,
{
    reveal_strlit("true");
    reveal_strlit("false");
    assert("true"@.len() != "false"@.len());
}

/// Each setting can be changed under each of its spellings, to the value that the text denotes,
/// with every other setting as it was; a text that denotes none is refused. The token and keys
/// that are not known are refused.
pub proof fn law_setting_takes_its_value(config: ConfigFile, key: Seq<char>, value: Seq<char>)
    ensures
        key == "chat-id"@ || key == "chat_id"@ ==> match parsed_i64(value) {
            Some(id) => assigned(config, key, value) == Ok::<ConfigFile, AppErrorView>(
                ConfigFile { chat_id: Some(id as i64), ..config },
            ),
            None => assigned(config, key, value) == Err::<ConfigFile, _>(
                AppErrorView::Config("chat-id must be a signed 64-bit integer"@),
            ),
        },
        key == "max-length"@ || key == "max_length"@ ==> match parsed_unsigned(
            value,
            usize::MAX as nat,
        ) {
            Some(length) => assigned(config, key, value) == Ok::<ConfigFile, AppErrorView>(
                ConfigFile { max_length: length as usize, ..config },
            ),
            None => assigned(config, key, value) == Err::<ConfigFile, _>(
                AppErrorView::Config("max-length must be an integer"@),
            ),
        },
        key == "timeout"@ || key == "timeout-seconds"@ || key == "timeout_seconds"@
            ==> match parsed_unsigned(value, u64::MAX as nat) {
            Some(seconds) => assigned(config, key, value) == Ok::<ConfigFile, AppErrorView>(
                ConfigFile { timeout_seconds: seconds as u64, ..config },
            ),
            None => assigned(config, key, value) == Err::<ConfigFile, _>(
                AppErrorView::Config("timeout must be an integer"@),
            ),
        },
        key == "enabled"@ ==> match bool_of(value) {
            Some(flag) => assigned(config, key, value) == Ok::<ConfigFile, AppErrorView>(
                ConfigFile { enabled: flag, ..config },
            ),
            None => assigned(config, key, value) == Err::<ConfigFile, _>(
                AppErrorView::Config("enabled"@ + " must be true or false"@),
            ),
        },
        key == "silent"@ ==> match bool_of(value) {
            Some(flag) => assigned(config, key, value) == Ok::<ConfigFile, AppErrorView>(
                ConfigFile { silent: flag, ..config },
            ),
            None => assigned(config, key, value) == Err::<ConfigFile, _>(
                AppErrorView::Config("silent"@ + " must be true or false"@),
            ),
        },
        key == "always-success"@ || key == "always_success"@ ==> match bool_of(value) {
            Some(flag) => assigned(config, key, value) == Ok::<ConfigFile, AppErrorView>(
                ConfigFile { always_success: flag, ..config },
            ),
            None => assigned(config, key, value) == Err::<ConfigFile, _>(
                AppErrorView::Config("always-success"@ + " must be true or false"@),
            ),
        },
        key == "bot-token"@ || key == "bot_token"@ ==> assigned(config, key, value) == Err::<
            ConfigFile,
            _,
        >(
            AppErrorView::Config(
                "Setting bot-token via CLI is disabled; use setup or CODEX_TELEGRAM_BOT_TOKEN"@,
            ),
        ),
        !is_known_key(key) ==> assigned(config, key, value) == Err::<ConfigFile, _>(
            AppErrorView::Config("Unknown configuration key: "@ + key),
        ),
{
    lemma_spellings_differ();
}

/// Whether a key is a spelling of a setting.
pub open spec fn is_known_key(key: Seq<char>) -> bool {
    ||| key == "bot-token"@ || key == "bot_token"@ || key == "chat-id"@ || key == "chat_id"@
    ||| key == "enabled"@ || key == "silent"@ || key == "max-length"@ || key == "max_length"@
    ||| key == "timeout"@ || key == "timeout-seconds"@ || key == "timeout_seconds"@
    ||| key == "always-success"@ || key == "always_success"@
}

/// A changed file is accepted exactly where its length is from 1 to 4096 and it gives some time.
pub proof fn law_file_limits(config: ConfigFile)
    ensures
        file_checked(config) is Ok <==> 1 <= config.max_length <= 4096 && config.timeout_seconds
            >= 1,
        !(1 <= config.max_length <= 4096) ==> file_checked(config) == Err::<(), _>(
            AppErrorView::Config("max-length"@ + " must be between 1 and "@ + decimal(4096)),
        ),
        1 <= config.max_length <= 4096 && config.timeout_seconds == 0 ==> file_checked(config)
            == Err::<(), _>(AppErrorView::Config("timeout"@ + " must be greater than zero"@)),
{
}

/// A truth value in words.
pub open spec fn word_for(flag: bool) -> Seq<char> {
    if flag {
        "true"@
    } else {
        "false"@
    }
}

/// Each setting is shown under each of its spellings: a number in decimal, a truth value in
/// words, a token with its secret hidden, and what is missing as such.
pub proof fn law_setting_is_shown(settings: EffectiveView, key: Seq<char>)
    ensures
        key == "chat-id"@ || key == "chat_id"@ ==> settings.setting(key) == Ok::<_, AppErrorView>(
            match settings.chat_id {
                Some(id) => signed_decimal(id as int),
                None => "<not set>"@,
            },
        ),
        key == "max-length"@ || key == "max_length"@ ==> settings.setting(key) == Ok::<
            _,
            AppErrorView,
        >(decimal(settings.max_length as nat)),
        key == "timeout"@ || key == "timeout-seconds"@ || key == "timeout_seconds"@
            ==> settings.setting(key) == Ok::<_, AppErrorView>(
            decimal(settings.timeout_seconds as nat),
        ),
        key == "enabled"@ ==> settings.setting(key) == Ok::<_, AppErrorView>(
            word_for(settings.enabled),
        ),
        key == "silent"@ ==> settings.setting(key) == Ok::<_, AppErrorView>(
            word_for(settings.silent),
        ),
        key == "always-success"@ || key == "always_success"@ ==> settings.setting(key) == Ok::<
            _,
            AppErrorView,
        >(word_for(settings.always_success)),
        key == "bot-token"@ || key == "bot_token"@ ==> settings.setting(key) == Ok::<
            _,
            AppErrorView,
        >(
            match settings.bot_token {
                Some(token) => masked_token(token),
                None => "<not set>"@,
            },
        ),
        !is_known_key(key) ==> settings.setting(key) == Err::<Seq<char>, _>(
            AppErrorView::Config("Unknown configuration key: "@ + key),
        ),
{
    lemma_spellings_differ();
}

/// All settings are shown one on a line, each as it is shown by itself.
pub proof fn law_all_settings_are_shown(settings: EffectiveView)
    ensures
        settings.shown() == "bot_token = \""@ + settings.setting("bot_token"@)->Ok_0
            + "\"\nchat_id = "@ + settings.setting("chat_id"@)->Ok_0 + "\nenabled = "@
            + settings.setting("enabled"@)->Ok_0 + "\nsilent = "@ + settings.setting(
            "silent"@,
        )->Ok_0 + "\nmax_length = "@ + settings.setting("max_length"@)->Ok_0
            + "\ntimeout_seconds = "@ + settings.setting("timeout_seconds"@)->Ok_0
            + "\nalways_success = "@ + settings.setting("always_success"@)->Ok_0,
{
    lemma_spellings_differ();
    law_setting_is_shown(settings, "bot_token"@);
    law_setting_is_shown(settings, "chat_id"@);
    law_setting_is_shown(settings, "enabled"@);
    law_setting_is_shown(settings, "silent"@);
    law_setting_is_shown(settings, "max_length"@);
    law_setting_is_shown(settings, "timeout_seconds"@);
    law_setting_is_shown(settings, "always_success"@);
}

/// Of a token is shown what stands before its first colon, where anything does, and twelve
/// asterisks; of an empty one, that it is not set.
pub proof fn law_mask_shows_the_front(front: Seq<char>, secret: Seq<char>)
    requires
        !front.contains(':'),
    ensures
        masked_token(front + seq![':'] + secret) == if front.len() > 0 {
            front + ":************"@
        } else {
            "************"@
        },
        masked_token(front) == if front.len() > 0 {
            "************"@
        } else {
            "<not set>"@
        },
{
    law_cut_at_first(front, ':', secret);
}

/// Failures are hidden from Codex as the variable says where it can be read, else as the file
/// says where it could be loaded, else always.
pub proof fn law_variable_decides_on_failures(file: Option<&ConfigFile>, variable: Option<Seq<char>>)
    ensures
        match (variable, file) {
            (Some(value), _) if bool_of(value) is Some => hides_failures(file, variable)
                == bool_of(value)->0,
            (_, Some(file)) => hides_failures(Some(file), variable) == file.always_success,
            _ => hides_failures(file, variable),
        },
{
}

/// What is sent is no longer than the variable for the length says, or else the file.
pub proof fn law_length_in_force_is_used(file: ConfigFile, environment: Environment)
    ensures
        in_force(file, environment) matches Ok(settings) ==> (
        settings.runtime() matches Ok(runtime) ==> match environment.max_length {
            Some(value) => parsed_unsigned(value@, usize::MAX as nat) == Some(
                runtime.max_length as nat,
            ),
            None => runtime.max_length == file.max_length,
        }),
{
    law_environment_overrides_file(file, environment);
}

/// The failure to read a variable names the variable: the first that cannot be read, in the order
/// chat, switch, length, time, silence, hiding of failures.
pub proof fn law_unreadable_variable_is_named(file: ConfigFile, environment: Environment)
    ensures
        ({
            let chat = environment.chat_id matches Some(value) && parsed_i64(value@) is None;
            let enabled = environment.enabled matches Some(value) && bool_of(value@) is None;
            let length = environment.max_length matches Some(value) && parsed_unsigned(
                value@,
                usize::MAX as nat,
            ) is None;
            let timeout = environment.timeout matches Some(value) && parsed_unsigned(
                value@,
                u64::MAX as nat,
            ) is None;
            let silent = environment.silent matches Some(value) && bool_of(value@) is None;
            let hiding = environment.always_success matches Some(value) && bool_of(value@) is None;
            let front = "Environment variable "@;
            let back = " has an invalid value"@;
            if chat {
                in_force(file, environment) == Err::<EffectiveView, _>(
                    AppErrorView::Config(front + "CODEX_TELEGRAM_CHAT_ID"@ + back),
                )
            } else if enabled {
                in_force(file, environment) == Err::<EffectiveView, _>(
                    AppErrorView::Config("CODEX_TELEGRAM_ENABLED"@ + " must be true or false"@),
                )
            } else if length {
                in_force(file, environment) == Err::<EffectiveView, _>(
                    AppErrorView::Config(front + "CODEX_TELEGRAM_MAX_LENGTH"@ + back),
                )
            } else if timeout {
                in_force(file, environment) == Err::<EffectiveView, _>(
                    AppErrorView::Config(front + "CODEX_TELEGRAM_TIMEOUT"@ + back),
                )
            } else if silent {
                in_force(file, environment) == Err::<EffectiveView, _>(
                    AppErrorView::Config("CODEX_TELEGRAM_SILENT"@ + " must be true or false"@),
                )
            } else if hiding {
                in_force(file, environment) == Err::<EffectiveView, _>(
                    AppErrorView::Config(
                        "CODEX_TELEGRAM_ALWAYS_SUCCESS"@ + " must be true or false"@,
                    ),
                )
            } else {
                true
            }
        }),
{
}

} // verus!
