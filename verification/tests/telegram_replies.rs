use codex_telegram_notify::config::BotToken;
use codex_telegram_notify::telegram::{
    endpoint, is_retryable_transport, post_step, read_response, redact_secret, sanitize_error_text,
    status_code, ApiResponse, BotUser, PostEvent, PostStep, TelegramError, TransportError, Update,
    RETRY_DELAY_NANOS,
};

fn token() -> BotToken {
    BotToken::new("123:secret".to_string())
}

fn rejected(description: Option<&str>, error_code: Option<i64>) -> ApiResponse<BotUser> {
    ApiResponse {
        ok: false,
        result: None,
        description: description.map(|text| text.to_string()),
        error_code,
    }
}

#[test]
fn sends_get_me_request_and_parses_response() {
    assert_eq!(
        endpoint("https://api.telegram.org//", &token(), "getMe"),
        "https://api.telegram.org/bot123:secret/getMe"
    );
    let reply = ApiResponse {
        ok: true,
        result: Some(BotUser {
            id: 123,
            is_bot: true,
            first_name: "Codex".to_string(),
            last_name: None,
            username: Some("codex_bot".to_string()),
        }),
        description: None,
        error_code: None,
    };
    let bot = read_response(Some(reply), 200, &token()).expect("getMe");
    assert_eq!(bot.username.as_deref(), Some("codex_bot"));
}

#[test]
fn parses_an_empty_get_updates_result() {
    let reply: ApiResponse<Vec<Update>> = ApiResponse {
        ok: true,
        result: Some(Vec::new()),
        description: None,
        error_code: None,
    };
    let updates = read_response(Some(reply), 200, &token()).expect("getUpdates");
    assert!(updates.is_empty());
}

#[test]
fn turns_invalid_token_into_api_error_without_exposing_url() {
    let error = read_response(Some(rejected(Some("Unauthorized"), Some(401))), 401, &token())
        .unwrap_err();
    assert!(error.is_authentication_error());
    assert!(!error.user_message().contains("secret"));
    assert_eq!(error.user_message(), "Telegram API error (401): Unauthorized");
}

#[test]
fn hides_the_token_in_descriptions() {
    let error = read_response(
        Some(rejected(Some("no bot 123:secret, 123:secret!"), None)),
        404,
        &token(),
    )
    .unwrap_err();
    assert_eq!(
        error.user_message(),
        "Telegram API error (404): no bot [REDACTED], [REDACTED]!"
    );
    assert_eq!(redact_secret("aaa", ""), "aaa");
    assert_eq!(redact_secret("aaa", "aa"), "[REDACTED]a");
}

#[test]
fn replies_without_a_result_are_invalid() {
    let empty: ApiResponse<BotUser> = ApiResponse {
        ok: true,
        result: None,
        description: None,
        error_code: None,
    };
    assert!(matches!(
        read_response(Some(empty), 200, &token()),
        Err(TelegramError::InvalidResponse)
    ));
    let unparsed: Option<ApiResponse<BotUser>> = None;
    let error = read_response(unparsed, 200, &token()).unwrap_err();
    assert_eq!(error.user_message(), "Telegram returned an invalid response");
    let error = read_response(Some(rejected(None, None)), 200, &token()).unwrap_err();
    assert_eq!(error.user_message(), "Telegram API error: request rejected");
}

#[test]
fn failures_have_words() {
    assert_eq!(
        TelegramError::Network.user_message(),
        "network error while contacting Telegram"
    );
    assert_eq!(
        TelegramError::Timeout.user_message(),
        "request to Telegram timed out"
    );
    assert!(!TelegramError::Timeout.is_authentication_error());
    let other = TelegramError::Api { code: Some(400), description: "x".to_string() };
    assert!(!other.is_authentication_error());
    assert_eq!(status_code(200), None);
    assert_eq!(status_code(299), None);
    assert_eq!(status_code(199), Some(199));
    assert_eq!(status_code(404), Some(404));
}

#[test]
fn descriptions_become_one_short_line() {
    assert_eq!(sanitize_error_text(" a\u{1b}[31m  b\n c "), "a[31m b c");
    assert_eq!(sanitize_error_text("\u{7}\n "), "request rejected");
    assert_eq!(sanitize_error_text(&"ж".repeat(300)), "ж".repeat(200));
}

#[test]
fn a_request_is_sent_again_at_most_once() {
    let failed = TransportError { timeout: false, connect: true, request: false };
    let enough = RETRY_DELAY_NANOS + 1;
    assert!(matches!(
        post_step(false, PostEvent::SendFailed(failed), enough).1,
        PostStep::RetryAfterDelay
    ));
    assert!(matches!(
        post_step(true, PostEvent::SendFailed(failed), enough).1,
        PostStep::Fail(TelegramError::Network)
    ));
    assert!(matches!(
        post_step(false, PostEvent::SendFailed(failed), RETRY_DELAY_NANOS).1,
        PostStep::Fail(TelegramError::Network)
    ));
    assert!(matches!(
        post_step(false, PostEvent::Received { status: 503 }, enough).1,
        PostStep::RetryAfterDelay
    ));
    assert!(matches!(
        post_step(true, PostEvent::Received { status: 503 }, enough).1,
        PostStep::ReadReply
    ));
    assert!(matches!(
        post_step(false, PostEvent::BodyFailed, enough).1,
        PostStep::RetryAfterDelay
    ));
    assert!(matches!(
        post_step(true, PostEvent::BodyFailed, enough).1,
        PostStep::Fail(TelegramError::Network)
    ));
}

#[test]
fn the_retry_is_used_up_by_being_taken() {
    let enough = RETRY_DELAY_NANOS + 1;
    assert!(!post_step(false, PostEvent::Ready, enough).0);
    assert!(post_step(false, PostEvent::BodyFailed, enough).0);
    assert!(!post_step(false, PostEvent::BodyFailed, 1).0);
    assert!(post_step(true, PostEvent::Ready, enough).0);

    let mut used = false;
    let mut sent = 0;
    for event in [
        PostEvent::Ready,
        PostEvent::Received { status: 500 },
        PostEvent::Ready,
        PostEvent::Received { status: 500 },
    ] {
        let (next, step) = post_step(used, event, enough);
        used = next;
        if matches!(step, PostStep::Send) {
            sent += 1;
        }
    }
    assert_eq!(sent, 2);
}

#[test]
fn time_that_is_up_ends_a_request() {
    assert!(matches!(
        post_step(false, PostEvent::Ready, 0).1,
        PostStep::Fail(TelegramError::Timeout)
    ));
    assert!(matches!(post_step(false, PostEvent::Ready, 1).1, PostStep::Send));
    assert!(matches!(
        post_step(false, PostEvent::SendTimedOut, 0).1,
        PostStep::Fail(TelegramError::Timeout)
    ));
    assert!(matches!(
        post_step(false, PostEvent::BodyTimedOut, 0).1,
        PostStep::Fail(TelegramError::Timeout)
    ));
    let slow = TransportError { timeout: true, connect: false, request: true };
    assert!(matches!(
        post_step(true, PostEvent::SendFailed(slow), 5).1,
        PostStep::Fail(TelegramError::Timeout)
    ));
    let odd = TransportError { timeout: false, connect: false, request: false };
    assert!(!is_retryable_transport(&odd));
    assert!(matches!(
        post_step(false, PostEvent::SendFailed(odd), u128::MAX).1,
        PostStep::Fail(TelegramError::Network)
    ));
    assert!(matches!(
        post_step(false, PostEvent::Received { status: 200 }, u128::MAX).1,
        PostStep::ReadReply
    ));
}
