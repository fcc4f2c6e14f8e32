//! What a Codex hook event leads to.

use crate::config::{
    in_force, law_environment_overrides_file, ConfigFile, EffectiveConfig, EffectiveView,
    Environment, RuntimeConfig, RuntimeView,
};
use crate::error::{outcome, AppError, AppErrorView};
use crate::json::{message_text, read_message, serialized_json, value_model, JsonView};
use crate::message::{build_notification, law_notification_fits, notification};
use crate::number::parsed_unsigned;
use crate::setup::{test_request, TEST_MESSAGE};
use crate::telegram::{
    SendMessageRequest, SendMessageView, TelegramError, TelegramErrorView,
};
use crate::text::{as_deref, keep_non_blank, non_blank, opt, same_text, trimmed};
use vstd::prelude::*;

verus! {

/// The name of the file that diagnostics of subagents go to.
pub const PROBE_FILE_NAME: &'static str = "codex-telegram-notify-subagent-events.jsonl";

/// What Codex hands to a hook.
pub struct HookPayload {
    pub session_id: Option<String>,
    pub cwd: Option<String>,
    pub hook_event_name: Option<String>,
    pub model: Option<String>,
    pub effort: Option<String>,
    pub turn_id: Option<String>,
    pub agent_id: Option<String>,
    pub agent_type: Option<String>,
    pub last_assistant_message: Option<String>,
}

/// A failure of the hook, and whether Codex is not to learn of it.
pub struct HookFailure {
    pub error: AppError,
    pub always_success: bool,
}

/// What a `HookFailure` holds.
pub struct HookFailureView {
    pub error: AppErrorView,
    pub always_success: bool,
}

impl View for HookFailure {
    type V = HookFailureView;

    open spec fn view(&self) -> HookFailureView {
        HookFailureView { error: self.error@, always_success: self.always_success }
    }
}

/// The assistant message in a payload: a string as it is, anything else as compact JSON.
pub open spec fn payload_message(value: Option<serde_json::Value>) -> Result<
    Option<Seq<char>>,
    AppErrorView,
> {
    match value {
        None => Ok(None),
        Some(value) => {
            let model = value_model(value);
            match message_text(model, serialized_json(model)) {
                Some(text) => Ok(Some(text)),
                None => Err(AppErrorView::Payload("Hook payload is not valid JSON"@)),
            }
        },
    }
}

/// Reads the assistant message in a payload.
pub fn deserialize_assistant_message(value: Option<serde_json::Value>) -> (result: Result<
    Option<String>,
    AppError,
>)
    ensures
        match result {
            Ok(text) => payload_message(value) == Ok::<Option<Seq<char>>, AppErrorView>(opt(text)),
            Err(error) => payload_message(value) == Err::<Option<Seq<char>>, AppErrorView>(error@),
        },
{
    match value {
        None => Ok(None),
        Some(value) => match read_message(value) {
            Some(text) => Ok(Some(text)),
            None => Err(AppError::Payload("Hook payload is not valid JSON".to_owned())),
        },
    }
}

/// What to do about a payload.
#[derive(Debug, Clone, Copy, PartialEq, Eq, Structural)]
pub enum HookStep {
    /// The event is none that is notified.
    Ignore,
    /// The effort is missing: look for it in the configuration of Codex.
    ReadEffort,
    /// Load the configuration and notify.
    Notify,
}

/// What a payload leads to. An event that is not named counts as `Stop`.
pub open spec fn step_for(payload: HookPayload) -> HookStep {
    let event = opt(payload.hook_event_name);
    if event is Some && event != Some("Stop"@) {
        HookStep::Ignore
    } else if non_blank(opt(payload.effort)) is None {
        HookStep::ReadEffort
    } else {
        HookStep::Notify
    }
}

/// Decides what to do about a payload.
pub fn hook_step(payload: &HookPayload) -> (step: HookStep)
    ensures
        step == step_for(*payload),
{
    if let Some(event) = &payload.hook_event_name {
        if !same_text(event.as_str(), "Stop") {
            return HookStep::Ignore;
        }
    }
    if keep_non_blank(as_deref(&payload.effort)).is_none() {
        HookStep::ReadEffort
    } else {
        HookStep::Notify
    }
}

/// A message and what sending it takes.
pub struct Notification {
    pub config: RuntimeConfig,
    pub request: SendMessageRequest,
}

/// What a `Notification` holds.
pub struct NotificationView {
    pub config: RuntimeView,
    pub request: SendMessageView,
}

impl View for Notification {
    type V = NotificationView;

    open spec fn view(&self) -> NotificationView {
        NotificationView { config: self.config@, request: self.request@ }
    }
}

/// The message that notifies a payload.
pub open spec fn payload_request(payload: HookPayload, config: RuntimeView) -> SendMessageView {
    SendMessageView {
        chat_id: config.chat_id,
        text: notification(payload, config.max_length as nat),
        disable_notification: config.silent,
    }
}

/// Writes the message that notifies a payload.
pub fn notify_request(payload: &HookPayload, config: &RuntimeConfig) -> (request:
    SendMessageRequest)
    ensures
        request@ == payload_request(*payload, config@),
{
    SendMessageRequest {
        chat_id: config.chat_id,
        text: build_notification(payload, config.max_length),
        disable_notification: config.silent,
    }
}

/// What the configuration makes of a payload: a message, nothing where notifications are off,
/// or a failure.
pub open spec fn planned(
    payload: HookPayload,
    settings: Result<EffectiveView, AppErrorView>,
    always_success: bool,
) -> Result<Option<NotificationView>, HookFailureView> {
    match settings {
        Err(error) => Err(HookFailureView { error, always_success }),
        Ok(settings) => match settings.runtime_if_enabled() {
            Err(error) => Err(HookFailureView { error, always_success }),
            Ok(None) => Ok(None),
            Ok(Some(config)) => Ok(
                Some(NotificationView { config, request: payload_request(payload, config) }),
            ),
        },
    }
}

/// The view of a configuration in force, or of why there is none.
pub open spec fn settings_view(settings: Result<EffectiveConfig, AppError>) -> Result<
    EffectiveView,
    AppErrorView,
> {
    match settings {
        Ok(settings) => Ok(settings@),
        Err(error) => Err(error@),
    }
}

/// Decides on the message for a payload.
pub fn plan_notification(
    payload: &HookPayload,
    settings: Result<EffectiveConfig, AppError>,
    always_success: bool,
) -> (result: Result<Option<Notification>, HookFailure>)
    ensures
        match result {
            Ok(Some(message)) => planned(*payload, settings_view(settings), always_success) == Ok::<
                Option<NotificationView>,
                HookFailureView,
            >(Some(message@)),
            Ok(None) => planned(*payload, settings_view(settings), always_success) == Ok::<
                Option<NotificationView>,
                HookFailureView,
            >(None),
            Err(failure) => planned(*payload, settings_view(settings), always_success) == Err::<
                Option<NotificationView>,
                HookFailureView,
            >(failure@),
        },
{
    match settings {
        Err(error) => Err(HookFailure { error, always_success }),
        Ok(settings) => match settings.runtime_if_enabled() {
            Err(error) => Err(HookFailure { error, always_success }),
            Ok(None) => Ok(None),
            Ok(Some(config)) => {
                let request = notify_request(payload, &config);
                Ok(Some(Notification { config, request }))
            },
        },
    }
}

/// How a failed request ends a command.
pub open spec fn delivery_failure(error: TelegramErrorView) -> AppErrorView {
    AppErrorView::Telegram(error.user_message())
}

/// Turns a failed request into the failure of a command.
pub fn telegram_failure(error: &TelegramError) -> (result: AppError)
    ensures
        result@ == delivery_failure(error@),
{
    AppError::Telegram(error.user_message())
}

/// What becomes of a failure of the hook.
pub enum FailureReport {
    /// It is written down, and Codex is told of success.
    Logged(AppError),
    /// Codex is told.
    Fatal(AppError),
}

/// What becomes of a failure, seen from outside.
pub enum FailureReportView {
    Logged(AppErrorView),
    Fatal(AppErrorView),
}

impl View for FailureReport {
    type V = FailureReportView;

    open spec fn view(&self) -> FailureReportView {
        match self {
            FailureReport::Logged(error) => FailureReportView::Logged(error@),
            FailureReport::Fatal(error) => FailureReportView::Fatal(error@),
        }
    }
}

/// What becomes of a failure.
pub open spec fn report_of(failure: HookFailureView) -> FailureReportView {
    if failure.always_success {
        FailureReportView::Logged(failure.error)
    } else {
        FailureReportView::Fatal(failure.error)
    }
}

/// Decides what becomes of a failure.
pub fn report_failure(failure: HookFailure) -> (report: FailureReport)
    ensures
        report@ == report_of(failure@),
{
    if failure.always_success {
        FailureReport::Logged(failure.error)
    } else {
        FailureReport::Fatal(failure.error)
    }
}

/// What is kept for diagnosis of an event of a subagent.
pub struct ProbeRecord {
    pub recorded_at_unix: u64,
    pub hook_event_name: Option<String>,
    pub session_id: Option<String>,
    pub turn_id: Option<String>,
    pub agent_id: Option<String>,
    pub agent_type: Option<String>,
    pub cwd: Option<String>,
    pub model: Option<String>,
}

/// What is kept of a payload: only where a subagent stopped, and never its message.
pub open spec fn probe_of(payload: HookPayload, recorded_at_unix: u64) -> Option<ProbeRecord> {
    if opt(payload.hook_event_name) == Some("SubagentStop"@) {
        Some(
            ProbeRecord {
                recorded_at_unix,
                hook_event_name: payload.hook_event_name,
                session_id: payload.session_id,
                turn_id: payload.turn_id,
                agent_id: payload.agent_id,
                agent_type: payload.agent_type,
                cwd: payload.cwd,
                model: payload.model,
            },
        )
    } else {
        None
    }
}

/// Takes out of a payload what is kept for diagnosis.
pub fn probe_record(payload: HookPayload, recorded_at_unix: u64) -> (record: Option<ProbeRecord>)
    ensures
        record == probe_of(payload, recorded_at_unix),
{
    let stopped = match &payload.hook_event_name {
        Some(event) => same_text(event.as_str(), "SubagentStop"),
        None => false,
    };
    if stopped {
        Some(
            ProbeRecord {
                recorded_at_unix,
                hook_event_name: payload.hook_event_name,
                session_id: payload.session_id,
                turn_id: payload.turn_id,
                agent_id: payload.agent_id,
                agent_type: payload.agent_type,
                cwd: payload.cwd,
                model: payload.model,
            },
        )
    } else {
        None
    }
}

/// Requires that the home directory of Codex was found.
pub fn require_codex_home<T>(codex_home: Option<T>) -> (result: Result<T, AppError>)
    ensures
        outcome(result) == match codex_home {
            Some(path) => Ok::<T, AppErrorView>(path),
            None => Err(AppErrorView::Config("Unable to determine Codex home directory"@)),
        },
{
    match codex_home {
        Some(path) => Ok(path),
        None => Err(AppError::Config("Unable to determine Codex home directory".to_owned())),
    }
}

/// The test notification that a configuration leads to.
pub open spec fn planned_test(settings: EffectiveView) -> Result<NotificationView, AppErrorView> {
    if settings.bot_token is None || settings.chat_id is None {
        Err(
            AppErrorView::Config(
                "Configuration not found.\n\nRun:\ncodex-telegram-notify setup"@,
            ),
        )
    } else {
        match settings.runtime() {
            Err(error) => Err(error),
            Ok(config) => Ok(
                NotificationView {
                    config,
                    request: SendMessageView {
                        chat_id: config.chat_id,
                        text: TEST_MESSAGE@,
                        disable_notification: config.silent,
                    },
                },
            ),
        }
    }
}

/// Decides on a test notification.
pub fn plan_test(settings: &EffectiveConfig) -> (result: Result<Notification, AppError>)
    ensures
        match result {
            Ok(message) => planned_test(settings@) == Ok::<NotificationView, AppErrorView>(
                message@,
            ),
            Err(error) => planned_test(settings@) == Err::<NotificationView, AppErrorView>(error@),
        },
{
    if settings.bot_token.is_none() || settings.chat_id.is_none() {
        return Err(
            AppError::Config(
                "Configuration not found.\n\nRun:\ncodex-telegram-notify setup".to_owned(),
            ),
        );
    }
    match settings.runtime() {
        Err(error) => Err(error),
        Ok(config) => {
            let request = test_request(config.chat_id, config.silent);
            Ok(Notification { config, request })
        },
    }
}

/// Only `Stop` is notified: any other event that is named is ignored.
pub proof fn law_only_stop_is_notified(payload: HookPayload)
    ensures
        step_for(payload) != HookStep::Ignore <==> (opt(payload.hook_event_name) is None || opt(
            payload.hook_event_name,
        ) == Some("Stop"@)),
{
}

/// A message depends on nothing in a payload but its directory, model, effort and assistant
/// message.
pub proof fn law_message_holds_only_the_turn(
    left: HookPayload,
    right: HookPayload,
    settings: Result<EffectiveView, AppErrorView>,
    always_success: bool,
)
    requires
        opt(left.cwd) == opt(right.cwd),
        opt(left.model) == opt(right.model),
        opt(left.effort) == opt(right.effort),
        opt(left.last_assistant_message) == opt(right.last_assistant_message),
    ensures
        planned(left, settings, always_success) == planned(right, settings, always_success),
{
}

/// With failures hidden, no failure reaches Codex; without, every failure does.
pub proof fn law_failures_are_hidden(failure: HookFailureView)
    ensures
        report_of(failure) is Logged <==> failure.always_success,
{
}

/// Nothing is sent while notifications are off.
pub proof fn law_disabled_sends_nothing(
    payload: HookPayload,
    settings: EffectiveView,
    always_success: bool,
)
    requires
        !settings.enabled,
    ensures
        planned(payload, Ok(settings), always_success) == Ok::<
            Option<NotificationView>,
            HookFailureView,
        >(None),
{
}

/// What is kept for diagnosis does not depend on the assistant message.
pub proof fn law_probe_leaves_message_out(
    payload: HookPayload,
    message: Option<String>,
    recorded_at_unix: u64,
)
    ensures
        probe_of(
            HookPayload { last_assistant_message: message, ..payload },
            recorded_at_unix,
        ) == probe_of(payload, recorded_at_unix),
{
}

/// A payload for which there is something to notify leads to a look for the effort exactly where
/// it has none that is not blank.
pub proof fn law_missing_effort_is_looked_for(payload: HookPayload)
    ensures
        step_for(payload) == HookStep::ReadEffort <==> (match payload.hook_event_name {
            Some(event) => event@ == "Stop"@,
            None => true,
        }) && (match payload.effort {
            Some(effort) => trimmed(effort@).len() == 0,
            None => true,
        }),
        step_for(payload) == HookStep::Notify <==> (match payload.hook_event_name {
            Some(event) => event@ == "Stop"@,
            None => true,
        }) && (payload.effort matches Some(effort) && trimmed(effort@).len() > 0),
{
}

/// What is sent for a payload goes to the chat of the configuration, silently where that says so,
/// through its bot and within its time, and tells the payload in at most as many characters as it
/// allows.
pub proof fn law_payload_is_sent_as_configured(
    payload: HookPayload,
    settings: EffectiveView,
    always_success: bool,
)
    ensures
        planned(payload, Ok(settings), always_success) matches Ok(Some(message)) ==> {
            &&& settings.enabled
            &&& settings.bot_token == Some(message.config.bot_token)
            &&& settings.chat_id == Some(message.config.chat_id)
            &&& message.config.timeout_seconds == settings.timeout_seconds
            &&& message.config.max_length == settings.max_length
            &&& message.config.silent == settings.silent
            &&& settings.chat_id == Some(message.request.chat_id)
            &&& message.request.disable_notification == settings.silent
            &&& message.request.text.len() <= settings.max_length
            &&& message.request.text == notification(payload, settings.max_length as nat)
        },
{
    law_notification_fits(payload, settings.max_length as nat);
}

/// The message for a payload goes to the chat, silently or not, and with the length that sending
/// is to use.
pub proof fn law_message_goes_where_it_should(payload: HookPayload, config: RuntimeView)
    ensures
        payload_request(payload, config).chat_id == config.chat_id,
        payload_request(payload, config).disable_notification == config.silent,
        payload_request(payload, config).text == notification(payload, config.max_length as nat),
        payload_request(payload, config).text.len() <= config.max_length,
{
    law_notification_fits(payload, config.max_length as nat);
}

/// Every payload is sent where notifications are on and the configuration has all that sending
/// takes; a configuration that does not is the failure, with the word on hiding it passed on.
pub proof fn law_payload_is_sent_or_fails(
    payload: HookPayload,
    settings: EffectiveView,
    error: AppErrorView,
    always_success: bool,
)
    ensures
        planned(payload, Err(error), always_success) == Err::<Option<NotificationView>, _>(
            HookFailureView { error, always_success },
        ),
        settings.enabled ==> match settings.runtime() {
            Ok(_) => planned(payload, Ok(settings), always_success) matches Ok(Some(_)),
            Err(error) => planned(payload, Ok(settings), always_success) == Err::<
                Option<NotificationView>,
                _,
            >(HookFailureView { error, always_success }),
        },
{
}

/// No text that is sent for a payload is longer than the variable for the length says, or else
/// the file.
pub proof fn law_sent_text_keeps_to_the_setting(
    payload: HookPayload,
    file: ConfigFile,
    environment: Environment,
    always_success: bool,
)
    ensures
        planned(payload, in_force(file, environment), always_success) matches Ok(Some(message))
            ==> match environment.max_length {
            Some(value) => parsed_unsigned(value@, usize::MAX as nat) matches Some(length)
                && message.request.text.len() <= length,
            None => message.request.text.len() <= file.max_length,
        },
{
    law_environment_overrides_file(file, environment);
    if let Ok(settings) = in_force(file, environment) {
        law_payload_is_sent_as_configured(payload, settings, always_success);
    }
}

/// A failure is reported as it is, whether it is hidden or not.
pub proof fn law_failure_is_reported_as_it_is(error: AppErrorView)
    ensures
        report_of(HookFailureView { error, always_success: true }) == FailureReportView::Logged(
            error,
        ),
        report_of(HookFailureView { error, always_success: false }) == FailureReportView::Fatal(
            error,
        ),
{
}

/// A request that failed ends a command with that failure in words.
pub proof fn law_failed_request_is_told(error: TelegramErrorView)
    ensures
        delivery_failure(error) == AppErrorView::Telegram(error.user_message()),
{
}

/// Events are kept for diagnosis exactly where a subagent stopped, with their time and where they
/// come from.
pub proof fn law_subagent_stop_is_kept(payload: HookPayload, recorded_at_unix: u64)
    ensures
        match payload.hook_event_name {
            Some(event) if event@ == "SubagentStop"@ => probe_of(
                payload,
                recorded_at_unix,
            ) matches Some(record) && {
                &&& record.recorded_at_unix == recorded_at_unix
                &&& record.hook_event_name == payload.hook_event_name
                &&& record.session_id == payload.session_id
                &&& record.turn_id == payload.turn_id
                &&& record.agent_id == payload.agent_id
                &&& record.agent_type == payload.agent_type
                &&& record.cwd == payload.cwd
                &&& record.model == payload.model
            },
            _ => probe_of(payload, recorded_at_unix) is None,
        },
{
}

/// A test is sent as configured, even with notifications off, where there are a bot and a chat
/// that can be sent with; without a bot or chat the failure says to run setup.
pub proof fn law_test_is_sent_as_configured(settings: EffectiveView)
    ensures
        settings.bot_token is None || settings.chat_id is None ==> planned_test(settings) == Err::<
            NotificationView,
            _,
        >(
            AppErrorView::Config(
                "Configuration not found.\n\nRun:\ncodex-telegram-notify setup"@,
            ),
        ),
        settings.bot_token is Some && settings.chat_id is Some ==> match settings.runtime() {
            Err(error) => planned_test(settings) == Err::<NotificationView, _>(error),
            Ok(config) => planned_test(settings) matches Ok(message) && {
                &&& message.config == config
                &&& settings.chat_id == Some(message.request.chat_id)
                &&& message.request.disable_notification == settings.silent
                &&& message.request.text
                    == "🧪 Codex Telegram Notify\n\nТестовое уведомление успешно отправлено."@
            },
        },
{
}

/// The message of a payload is missing only where it is missing there; a string is passed on as
/// it is, and anything else as its JSON.
pub proof fn law_message_is_passed_on(value: serde_json::Value)
    ensures
        payload_message(None) == Ok::<Option<Seq<char>>, AppErrorView>(None),
        match value_model(value) {
            JsonView::Text(text) => payload_message(Some(value)) == Ok::<
                Option<Seq<char>>,
                AppErrorView,
            >(Some(text)),
            model => match serialized_json(model) {
                Some(text) => payload_message(Some(value)) == Ok::<
                    Option<Seq<char>>,
                    AppErrorView,
                >(Some(text)),
                None => payload_message(Some(value)) == Err::<Option<Seq<char>>, _>(
                    AppErrorView::Payload("Hook payload is not valid JSON"@),
                ),
            },
        },
{
}

} // verus!
