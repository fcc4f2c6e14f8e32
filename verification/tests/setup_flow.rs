use codex_telegram_notify::config::{BotToken, ConfigFile};
use codex_telegram_notify::error::AppError;
use codex_telegram_notify::setup::{
    after_line, baseline_request, bot_display_name, candidate_from_update, candidate_line,
    chat_display_name, choose_candidate, clean_terminal_text, is_start_command, line_wait,
    next_offset, read_token, setup_api_error, sole_candidate, ChatCandidate, SetupTest, SetupWait,
    WaitEvent, CHAT_COLLECTION_NANOS, NANOS_PER_SECOND, SETUP_TIMEOUT_NANOS, TEST_MESSAGE,
};
use codex_telegram_notify::telegram::{BotUser, Chat, Message, TelegramError, Update};

fn update(id: i64, chat_type: &str, chat_id: i64, text: &str) -> Update {
    Update {
        update_id: id,
        message: Some(Message {
            chat: Chat {
                id: chat_id,
                chat_type: chat_type.to_string(),
                title: Some("Codex Dev".to_string()),
                username: None,
                first_name: Some("BroneKot".to_string()),
                last_name: None,
            },
            text: Some(text.to_string()),
        }),
    }
}

fn candidate(id: i64) -> ChatCandidate {
    ChatCandidate {
        id,
        name: format!("chat {id}"),
        chat_type: "group".to_string(),
    }
}

#[test]
fn accepts_private_group_and_supergroup_start_messages() {
    for (kind, id) in [("private", 1), ("group", -2), ("supergroup", -3)] {
        let result = candidate_from_update(&update(10, kind, id, "/start"), Some("bot"));
        assert_eq!(result.expect("candidate").id, id);
    }
}

#[test]
fn filters_commands_for_another_bot() {
    assert!(
        candidate_from_update(&update(10, "group", -2, "/start@other"), Some("bot")).is_none()
    );
    assert!(candidate_from_update(&update(10, "group", -2, "/start@bot"), Some("bot")).is_some());
    assert!(candidate_from_update(&update(10, "group", -2, "hello"), Some("bot")).is_none());
}

#[test]
fn ignores_unsupported_chat_types_and_advances_offset() {
    assert!(candidate_from_update(&update(10, "channel", -4, "/start"), None).is_none());
    let updates = vec![
        update(10, "private", 1, "hello"),
        update(14, "private", 1, "/start"),
    ];
    assert_eq!(next_offset(None, &updates), Some(15));
    assert_eq!(next_offset(Some(20), &updates), Some(20));
}

#[test]
fn offsets_do_not_overflow() {
    let updates = vec![update(i64::MAX, "private", 1, "x"), update(3, "private", 1, "y")];
    assert_eq!(next_offset(None, &updates), Some(i64::MAX));
    assert_eq!(next_offset(Some(7), &Vec::new()), Some(7));
    assert_eq!(next_offset(None, &Vec::new()), None);
}

#[test]
fn recognises_the_start_command() {
    assert!(is_start_command("  /START now", None));
    assert!(is_start_command("/start@BOT", Some("bot")));
    assert!(!is_start_command("/start@bot", None));
    assert!(!is_start_command("/started", Some("bot")));
    assert!(!is_start_command("start", Some("bot")));
    assert!(!is_start_command("", Some("bot")));
    assert!(!is_start_command("/start@bot@more", Some("bot")));
}

#[test]
fn names_chats_and_bots() {
    let mut chat = update(1, "private", 42, "").message.unwrap().chat;
    assert_eq!(chat_display_name(&chat), "BroneKot");
    chat.last_name = Some("Last\u{1b}".to_string());
    assert_eq!(chat_display_name(&chat), "BroneKot Last");
    chat.first_name = None;
    assert_eq!(chat_display_name(&chat), "Last");
    chat.last_name = Some(String::new());
    assert_eq!(chat_display_name(&chat), "42");
    chat.username = Some("kot".to_string());
    assert_eq!(chat_display_name(&chat), "@kot");
    chat.chat_type = "group".to_string();
    assert_eq!(chat_display_name(&chat), "Codex Dev");
    chat.title = None;
    assert_eq!(chat_display_name(&chat), "@kot");

    let mut bot = BotUser {
        id: 1,
        is_bot: true,
        first_name: "Codex".to_string(),
        last_name: Some("Bot".to_string()),
        username: Some("codex\u{7}_bot".to_string()),
    };
    assert_eq!(bot_display_name(&bot), "@codex_bot");
    bot.username = Some(String::new());
    assert_eq!(bot_display_name(&bot), "Codex Bot");
    bot.last_name = None;
    assert_eq!(bot_display_name(&bot), "Codex");
    assert_eq!(clean_terminal_text("a\u{9b}b\nc"), "abc");
}

#[test]
fn tokens_are_trimmed_and_not_empty() {
    assert_eq!(read_token(" 1:x \n").unwrap().as_str(), "1:x");
    match read_token("  ") {
        Ok(_) => panic!("a blank token was read"),
        Err(error) => assert_eq!(error.message(), "Telegram bot token cannot be empty"),
    }
}

#[test]
fn a_refused_token_is_explained() {
    let refused = TelegramError::Api { code: Some(401), description: "Unauthorized".to_string() };
    assert_eq!(
        setup_api_error(refused).message(),
        "Telegram отклонил bot token. Проверьте токен, полученный у BotFather."
    );
    let error = setup_api_error(TelegramError::Timeout);
    assert_eq!(error.message(), "request to Telegram timed out");
    assert_eq!(error.exit_code(), 3);
}

#[test]
fn setup_ignores_baseline_updates_and_saves_after_test_send() {
    assert_eq!(baseline_request().offset, Some(-1));
    assert_eq!(baseline_request().timeout, Some(0));
    let baseline = vec![update(100, "private", 111, "/start")];
    let mut wait = SetupWait::begin(&baseline, 1000);
    let poll = wait.next_poll(1000).expect("first poll");
    assert_eq!(poll.timeout_seconds, 15);
    assert_eq!(poll.wait_nanos, SETUP_TIMEOUT_NANOS);
    let request = wait.request(&poll);
    assert_eq!(request.offset, Some(101));
    assert_eq!(request.limit, Some(100));
    assert_eq!(request.timeout, Some(15));

    let found = vec![update(101, "supergroup", -100222, "/start@codex_bot")];
    let event = WaitEvent::Replied(Ok(found));
    assert!(!wait.after_event(event, Some("codex_bot"), 2000).unwrap());
    let poll = wait.next_poll(2000).expect("collecting");
    assert_eq!(poll.timeout_seconds, 2);
    let later = 2000 + CHAT_COLLECTION_NANOS;
    let event = WaitEvent::Replied(Ok(Vec::new()));
    assert!(wait.after_event(event, Some("codex_bot"), later).unwrap());

    let candidates = match wait.finish() {
        Ok(candidates) => candidates,
        Err(error) => panic!("{}", error.message()),
    };
    let chosen = sole_candidate(&candidates).expect("one chat");
    let previous = ConfigFile { silent: true, max_length: 77, ..ConfigFile::default() };
    let test = SetupTest::new(BotToken::new("123:secret".to_string()), &chosen, previous);
    let sent = test.request();
    assert_eq!(sent.chat_id, -100222);
    assert_eq!(sent.text, TEST_MESSAGE);
    assert!(sent.disable_notification);
    let saved = match test.after_send(Ok(())) {
        Ok(saved) => saved,
        Err(error) => panic!("{}", error.message()),
    };
    assert_eq!(saved.bot_token.as_deref(), Some("123:secret"));
    assert_eq!(saved.chat_id, Some(-100222));
    assert_eq!(saved.max_length, 77);
    assert!(saved.silent);
}

#[test]
fn nothing_is_saved_where_the_test_fails() {
    let token = BotToken::new("1:x".to_string());
    let test = SetupTest::new(token, &candidate(5), ConfigFile::default());
    match test.after_send(Err(TelegramError::Network)) {
        Ok(_) => panic!("saved without a test"),
        Err(error) => assert_eq!(error.message(), "network error while contacting Telegram"),
    }
}

#[test]
fn each_chat_is_listed_once() {
    let mut wait = SetupWait::begin(&Vec::new(), 0);
    let updates = vec![
        update(1, "private", 1, "/start"),
        update(2, "group", -2, "/start"),
        update(3, "private", 1, "/start"),
        update(4, "private", 9, "hello"),
    ];
    assert!(!wait.after_event(WaitEvent::Replied(Ok(updates)), None, 10).unwrap());
    let ids: Vec<i64> = wait.candidates.iter().map(|found| found.id).collect();
    assert_eq!(ids, vec![1, -2]);
    assert_eq!(wait.offset, Some(5));
    let again = vec![update(5, "group", -2, "/start")];
    assert!(!wait.after_event(WaitEvent::Replied(Ok(again)), None, 20).unwrap());
    assert_eq!(wait.candidates.len(), 2);
    assert_eq!(wait.quiet_deadline, Some(10 + CHAT_COLLECTION_NANOS));
    assert!(sole_candidate(&wait.candidates).is_none());
}

#[test]
fn waiting_ends_at_the_deadline() {
    let wait = SetupWait::begin(&Vec::new(), 5);
    assert!(wait.next_poll(5 + SETUP_TIMEOUT_NANOS).is_none());
    let last = wait.next_poll(5 + SETUP_TIMEOUT_NANOS - 1).expect("poll");
    assert_eq!(last.timeout_seconds, 1);
    assert_eq!(last.wait_nanos, 1);
    let near = wait.next_poll(5 + SETUP_TIMEOUT_NANOS - 7 * NANOS_PER_SECOND).expect("poll");
    assert_eq!(near.timeout_seconds, 7);
    match wait.finish() {
        Ok(_) => panic!("no chat was found"),
        Err(error) => {
            assert_eq!(error.message(), "No /start message received within 5 minutes");
            assert!(matches!(error, AppError::Cancelled(_)));
        }
    }
}

#[test]
fn collecting_ends_after_a_quiet_while() {
    let mut wait = SetupWait::begin(&Vec::new(), 0);
    let found = vec![update(1, "private", 1, "/start")];
    assert!(!wait.after_event(WaitEvent::Replied(Ok(found)), None, 0).unwrap());
    assert_eq!(wait.next_poll(1).expect("poll").timeout_seconds, 1);
    assert!(wait.next_poll(CHAT_COLLECTION_NANOS).is_none());
    wait.quiet_deadline = None;
    assert_eq!(wait.next_poll(9).expect("poll").timeout_seconds, 2);
}

#[test]
fn waiting_can_fail_or_be_cancelled() {
    let mut wait = SetupWait::begin(&Vec::new(), 0);
    assert!(wait.after_event(WaitEvent::DeadlinePassed, None, 0).unwrap());
    match wait.after_event(WaitEvent::Interrupted, None, 0) {
        Ok(_) => panic!("the wait goes on"),
        Err(error) => assert_eq!(error.message(), "Setup cancelled"),
    }
    match wait.after_event(WaitEvent::Replied(Err(TelegramError::Network)), None, 0) {
        Ok(_) => panic!("the wait goes on"),
        Err(error) => assert_eq!(error.exit_code(), 3),
    }
}

#[test]
fn chats_are_chosen_by_number() {
    let candidates = vec![candidate(10), candidate(20)];
    assert_eq!(choose_candidate(&candidates, " 2 \n"), Some(candidate(20)));
    assert_eq!(choose_candidate(&candidates, "1"), Some(candidate(10)));
    assert_eq!(choose_candidate(&candidates, "0"), None);
    assert_eq!(after_line(&candidates, Some("0")).unwrap(), None);
    assert_eq!(choose_candidate(&candidates, "3"), None);
    assert_eq!(choose_candidate(&candidates, "two"), None);
    assert_eq!(candidate_line(2, &candidates[1]), "2. chat 20 — group — 20");
    assert_eq!(after_line(&candidates, Some("9")).unwrap(), None);
    assert_eq!(after_line(&candidates, Some("2")).unwrap(), Some(candidate(20)));
    assert_eq!(line_wait(10, 4).unwrap(), 6);
    assert!(line_wait(10, 10).is_err());
    match after_line(&candidates, None) {
        Ok(_) => panic!("there is no more input"),
        Err(error) => assert_eq!(error.message(), "Setup cancelled"),
    }
}
