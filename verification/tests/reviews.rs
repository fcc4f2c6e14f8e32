use codex_telegram_notify::config::{BotToken, RuntimeConfig};
use codex_telegram_notify::lines::{complete_length, split_lines};
use codex_telegram_notify::order::comes_before;
use codex_telegram_notify::review_watcher::{
    apply_record, is_session_file_name, next_file_offset, normalize_explanation, resume_offset,
    review_request, review_text, summarize_review, EventMessagePayload, ReviewResult,
    ReviewSummary, ReviewWatcher, SessionFileState, SessionMetaPayload, SessionPayload,
    SessionRecord, SessionSource, TurnContextPayload, WatcherState,
};
use codex_telegram_notify::telegram::TelegramError;

fn text(value: &str) -> Option<String> {
    Some(value.to_string())
}

fn meta(id: &str, subagent: &str) -> SessionRecord {
    SessionRecord {
        record_type: "session_meta".to_string(),
        payload: Some(SessionPayload {
            meta: Some(SessionMetaPayload {
                id: text(id),
                session_id: text("parent-session"),
                parent_thread_id: None,
                cwd: text("/home/user/project"),
                source: Some(SessionSource { subagent: text(subagent) }),
            }),
            context: None,
            event: None,
        }),
    }
}

fn context(model: Option<&str>) -> SessionRecord {
    SessionRecord {
        record_type: "turn_context".to_string(),
        payload: Some(SessionPayload {
            meta: None,
            context: Some(TurnContextPayload {
                cwd: text("/elsewhere"),
                model: model.map(|name| name.to_string()),
                effort: text("max"),
            }),
            event: None,
        }),
    }
}

fn complete(message: &str, findings: Option<usize>, explanation: Option<&str>) -> SessionRecord {
    SessionRecord {
        record_type: "event_msg".to_string(),
        payload: Some(SessionPayload {
            meta: None,
            context: None,
            event: Some(EventMessagePayload {
                event_type: text("task_complete"),
                turn_id: text("turn-review"),
                last_agent_message: text(message),
                result: Some(ReviewResult {
                    findings,
                    overall_explanation: explanation.map(|words| words.to_string()),
                }),
            }),
        }),
    }
}

fn watcher() -> ReviewWatcher {
    ReviewWatcher::new(WatcherState::new())
}

#[test]
fn detects_completed_review_and_ignores_regular_session() {
    let mut watcher = watcher();
    let done = || complete("{\"findings\":[],\"overall_explanation\":\"Всё хорошо.\"}", Some(0), Some("Всё хорошо."));
    let review = vec![meta("review-1", "review"), context(Some("gpt-5.6-luna")), done()];
    let regular = vec![meta("regular-1", "cli"), done()];
    watcher.scan_file("rollout-review.jsonl", 0, b"a\nb\nc\n", review, false);
    watcher.scan_file("rollout-regular.jsonl", 0, b"a\nb\n", regular, false);
    let pending = watcher.pending();
    assert_eq!(pending.len(), 1);
    assert_eq!(pending[0].review_id, "review-1");
    assert_eq!(pending[0].model.as_deref(), Some("gpt-5.6-luna"));
    assert_eq!(pending[0].effort.as_deref(), Some("max"));
    assert_eq!(pending[0].findings, Some(0));
    assert_eq!(pending[0].explanation.as_deref(), Some("Всё хорошо."));
    assert_eq!(pending[0].cwd.as_deref(), Some("/home/user/project"));
    assert!(watcher.is_dirty());
}

#[test]
fn waits_for_a_partial_last_line() {
    let mut watcher = watcher();
    watcher.scan_file("f", 0, b"meta\n", vec![meta("review-2", "review")], false);
    assert!(watcher.pending().is_empty());
    assert_eq!(watcher.offset("f"), 5);

    let partial = b"task";
    assert!(split_lines(partial).is_empty());
    watcher.scan_file("f", 5, partial, Vec::new(), false);
    assert!(watcher.pending().is_empty());
    assert_eq!(watcher.offset("f"), 5);

    let whole = b"task\n";
    assert_eq!(split_lines(whole), vec![b"task".to_vec()]);
    watcher.scan_file("f", 5, whole, vec![complete("{\"findings\":[{}]}", Some(1), None)], false);
    let pending = watcher.pending();
    assert_eq!(pending.len(), 1);
    assert_eq!(pending[0].findings, Some(1));
    assert_eq!(watcher.offset("f"), 10);
}

#[test]
fn suppresses_existing_reviews_only_on_first_run() {
    let mut watcher = watcher();
    let records = vec![meta("review-3", "review"), complete("{\"findings\":[]}", Some(0), None)];
    watcher.scan_file("rollout-review.jsonl", 0, b"a\nb\n", records, true);
    assert!(watcher.pending().is_empty());
    assert!(watcher.is_dirty());
    let saved = watcher.state().files().clone();
    watcher.mark_saved();
    assert!(!watcher.is_dirty());

    let mut restarted = ReviewWatcher::new(WatcherState::from_files(saved));
    let offset = restarted.offset("rollout-review.jsonl");
    assert_eq!(offset, 4);
    restarted.scan_file("rollout-review.jsonl", offset, b"", Vec::new(), false);
    assert!(restarted.pending().is_empty());
    assert!(!restarted.is_dirty());

    let records = vec![meta("review-4", "review"), complete("{}", None, None)];
    restarted.scan_file("new", 0, b"a\nb\n", records, false);
    assert_eq!(restarted.pending().len(), 1);
}

#[test]
fn a_review_is_notified_once() {
    let mut watcher = watcher();
    let records = vec![meta("review-5", "review"), complete("done", Some(2), None)];
    watcher.scan_file("b", 0, b"x\n", records, false);
    let review = watcher.next_pending().expect("pending review");
    assert_eq!(review.file, "b");
    assert_eq!(vec![review.summary.clone()], watcher.pending());
    match watcher.after_send(&review, Err(TelegramError::Timeout)) {
        Ok(()) => panic!("the message was not sent"),
        Err(error) => assert_eq!(error.message(), "request to Telegram timed out"),
    }
    assert_eq!(watcher.pending().len(), 1);
    watcher.mark_saved();
    assert!(watcher.after_send(&review, Ok(())).is_ok());
    assert!(watcher.is_dirty());
    assert!(watcher.pending().is_empty());
    watcher.scan_file("b", 2, b"y\n", vec![complete("again", Some(9), None)], false);
    assert!(watcher.pending().is_empty());
    let state = watcher.state().get("b").expect("known file");
    assert!(state.notified);
    assert_eq!(state.completion.as_ref().unwrap().findings, Some(2));
}

#[test]
fn a_file_that_became_shorter_is_read_again() {
    let mut watcher = watcher();
    watcher.scan_file("f", 0, b"0123456789\n", Vec::new(), false);
    assert_eq!(watcher.offset("f"), 11);
    assert_eq!(resume_offset(watcher.offset("f"), 4), 0);
    watcher.scan_file("f", 0, b"ab\nc", Vec::new(), false);
    assert_eq!(watcher.offset("f"), 3);
}

#[test]
fn a_review_in_several_files_is_sent_once() {
    let mut watcher = watcher();
    let review = |id: &str| vec![meta(id, "review"), complete("done", Some(1), None)];
    watcher.scan_file("a", 0, b"x\n", review("same"), false);
    watcher.scan_file("b", 0, b"x\n", review("other"), false);
    watcher.scan_file("c", 0, b"x\n", review("same"), false);
    let ids: Vec<String> = watcher.pending().iter().map(|review| review.review_id.clone()).collect();
    assert_eq!(ids, vec!["same", "other"]);

    let mut sent = Vec::new();
    while let Some(review) = watcher.next_pending() {
        sent.push(review.summary.review_id.clone());
        assert!(watcher.after_send(&review, Ok(())).is_ok());
    }
    assert_eq!(sent, vec!["same", "other"]);
    assert!(watcher.state().get("a").unwrap().notified);
    assert!(watcher.state().get("c").unwrap().notified);

    watcher.scan_file("d", 0, b"x\n", review("same"), false);
    assert!(watcher.next_pending().is_none());
    assert!(watcher.pending().is_empty());
    watcher.scan_file("e", 0, b"x\n", review("new"), false);
    assert_eq!(watcher.next_pending().unwrap().summary.review_id, "new");
}

fn unidentified(findings: usize) -> Vec<SessionRecord> {
    let mut description = meta("id", "review");
    let mut done = complete("done", Some(findings), None);
    if let Some(SessionPayload { meta: Some(meta), .. }) = &mut description.payload {
        meta.id = None;
    }
    if let Some(SessionPayload { event: Some(event), .. }) = &mut done.payload {
        event.turn_id = None;
    }
    vec![description, done]
}

#[test]
fn reviews_without_identifiers_are_told_apart_by_their_files() {
    let mut watcher = watcher();
    watcher.scan_file("a", 0, b"x\n", unidentified(1), false);
    watcher.scan_file("b", 0, b"x\n", unidentified(2), false);
    let pending = watcher.pending();
    assert_eq!(pending.len(), 2);
    assert_eq!(pending[0].review_id, "unknown-review");
    assert_eq!(pending[1].review_id, "unknown-review");

    let first = watcher.next_pending().expect("first review");
    assert_eq!((first.file.as_str(), first.summary.findings), ("a", Some(1)));
    assert!(watcher.after_send(&first, Ok(())).is_ok());
    assert!(watcher.state().get("a").unwrap().notified);
    assert!(!watcher.state().get("b").unwrap().notified);

    let second = watcher.next_pending().expect("second review");
    assert_eq!((second.file.as_str(), second.summary.findings), ("b", Some(2)));
    assert!(watcher.after_send(&second, Ok(())).is_ok());
    assert!(watcher.next_pending().is_none());
}

#[test]
fn a_review_without_identifier_is_pending_whatever_was_notified() {
    let mut first = watcher();
    first.scan_file("a", 0, b"x\n", unidentified(1), true);
    assert!(first.pending().is_empty());
    assert!(first.state().get("a").unwrap().notified);

    let saved = first.state().files().clone();
    let mut watcher = ReviewWatcher::new(WatcherState::from_files(saved));
    watcher.scan_file("b", 0, b"x\n", unidentified(2), false);
    let review = watcher.next_pending().expect("new review");
    assert_eq!((review.file.as_str(), review.summary.findings), ("b", Some(2)));
    assert_eq!(watcher.pending().len(), 1);
    watcher.mark_notified(&review);
    assert!(watcher.pending().is_empty());
    assert!(watcher.is_dirty());
}

#[test]
fn a_saved_state_is_restored() {
    let mut first = watcher();
    let review = |id: &str| vec![meta(id, "review"), complete("done", Some(1), None)];
    first.scan_file("b", 0, b"x\n", review("one"), true);
    first.scan_file("a", 0, b"x\n", review("two"), true);
    assert!(first.pending().is_empty());
    let saved: Vec<(String, SessionFileState)> = first.state().files().clone();
    let mut restarted = ReviewWatcher::new(WatcherState::from_files(saved));
    restarted.scan_file("a", 2, b"", Vec::new(), false);
    restarted.scan_file("b", 2, b"half", Vec::new(), false);
    assert!(restarted.pending().is_empty());
    assert!(restarted.next_pending().is_none());
    assert_eq!(restarted.offset("b"), 2);
    let twice = vec![
        ("f".to_string(), SessionFileState::default()),
        ("f".to_string(), SessionFileState { offset: 9, ..SessionFileState::default() }),
    ];
    let state = WatcherState::from_files(twice);
    assert_eq!(state.files().len(), 1);
    assert_eq!(state.get("f").unwrap().offset, 9);
}

#[test]
fn pending_reviews_come_in_the_order_of_their_files() {
    let mut watcher = watcher();
    for name in ["b", "a/z", "a", "ю", "c"] {
        let records = vec![meta(name, "review"), complete("x", None, None)];
        watcher.scan_file(name, 0, b"x\n", records, false);
    }
    let order: Vec<String> = watcher.pending().iter().map(|review| review.review_id.clone()).collect();
    assert_eq!(order, vec!["a", "a/z", "b", "c", "ю"]);
    let names: Vec<&str> = watcher.state().files().iter().map(|file| file.0.as_str()).collect();
    assert_eq!(names, vec!["a", "a/z", "b", "c", "ю"]);
    assert!(watcher.state().get("d").is_none());
    assert!(comes_before("a", "a/z") && !comes_before("b", "a/z") && !comes_before("b", "b"));
}

#[test]
fn turns_fill_in_what_the_session_left_out() {
    let mut state = SessionFileState::default();
    apply_record(&mut state, context(Some("ignored")));
    assert!(state.model.is_none());
    let mut description = meta("id", "review");
    if let Some(SessionPayload { meta: Some(meta), .. }) = &mut description.payload {
        meta.cwd = None;
        meta.session_id = None;
        meta.parent_thread_id = text("thread");
        meta.id = None;
    }
    apply_record(&mut state, description);
    assert!(state.is_review);
    assert_eq!(state.parent_session_id.as_deref(), Some("thread"));
    apply_record(&mut state, context(Some("first")));
    apply_record(&mut state, context(None));
    assert_eq!(state.cwd.as_deref(), Some("/elsewhere"));
    assert_eq!(state.model.as_deref(), Some("first"));
    apply_record(&mut state, complete("text", None, None));
    assert_eq!(state.completion.as_ref().unwrap().review_id, "turn-review");
}

#[test]
fn other_records_change_nothing() {
    let mut state = SessionFileState::default();
    apply_record(&mut state, meta("id", "review"));
    let empty = SessionRecord { record_type: "event_msg".to_string(), payload: None };
    apply_record(&mut state, empty);
    let mut other = complete("x", None, None);
    other.record_type = "response_item".to_string();
    apply_record(&mut state, other);
    let mut progress = complete("x", None, None);
    if let Some(SessionPayload { event: Some(event), .. }) = &mut progress.payload {
        event.event_type = text("agent_message");
    }
    apply_record(&mut state, progress);
    assert!(state.completion.is_none());
    let mut anonymous = complete("x", None, None);
    if let Some(SessionPayload { event: Some(event), .. }) = &mut anonymous.payload {
        event.turn_id = None;
    }
    state.review_id = None;
    apply_record(&mut state, anonymous);
    assert_eq!(state.completion.as_ref().unwrap().review_id, "unknown-review");
}

#[test]
fn reviews_are_summed_up() {
    assert_eq!(summarize_review(None, None), (None, None));
    assert_eq!(summarize_review(Some("  "), None), (None, None));
    assert_eq!(summarize_review(Some(" plain "), None), (None, text("plain")));
    let result = ReviewResult { findings: Some(3), overall_explanation: text(" why ") };
    assert_eq!(summarize_review(Some("{}"), Some(result)), (Some(3), text("why")));
    let result = ReviewResult { findings: None, overall_explanation: text(" ") };
    assert_eq!(summarize_review(Some("{}"), Some(result)), (None, None));
    assert_eq!(normalize_explanation(&"z".repeat(2000)).unwrap().chars().count(), 1000);
    assert_eq!(review_text(Some("\u{2003}{} ")), Some("{}"));
}

#[test]
fn lines_are_complete_at_a_newline() {
    assert_eq!(split_lines(b"a\n\nbc\nd"), vec![b"a".to_vec(), b"bc".to_vec()]);
    assert_eq!(complete_length(b"a\n\nbc\nd"), 6);
    assert_eq!(complete_length(b"abc"), 0);
    assert_eq!(complete_length(b""), 0);
    let first = b"one\ntw";
    let rest = b"two\nthree\n";
    let mut lines = split_lines(first);
    lines.extend(split_lines(rest));
    assert_eq!(lines, split_lines(b"one\ntwo\nthree\n"));
    assert_eq!(complete_length(first) + complete_length(rest), 14);
}

#[test]
fn files_are_read_on_from_where_they_were_left() {
    assert_eq!(resume_offset(10, 20), 10);
    assert_eq!(resume_offset(20, 20), 20);
    assert_eq!(resume_offset(21, 20), 0);
    assert_eq!(next_file_offset(10, b"ab\n"), 13);
    assert_eq!(next_file_offset(10, b"ab\nc"), 13);
    assert_eq!(next_file_offset(0, b"ab\nc"), 3);
    assert_eq!(next_file_offset(0, b"abc"), 0);
    assert_eq!(next_file_offset(u64::MAX, b"ab\n"), u64::MAX);
}

#[test]
fn session_files_have_a_name_of_their_own() {
    assert!(is_session_file_name("rollout-2026.jsonl"));
    assert!(is_session_file_name("rollout-.jsonl"));
    assert!(!is_session_file_name("rollout-2026.json"));
    assert!(!is_session_file_name("old-rollout-1.jsonl"));
}

#[test]
fn reviews_are_put_in_a_message() {
    let summary = ReviewSummary {
        review_id: "r".to_string(),
        cwd: text("/a/project"),
        model: text("m"),
        effort: None,
        findings: Some(0),
        explanation: text("fine"),
    };
    let config = RuntimeConfig {
        bot_token: BotToken::new("1:x".to_string()),
        chat_id: -7,
        max_length: 3500,
        timeout_seconds: 5,
        silent: true,
    };
    let request = review_request(&summary, &config);
    assert_eq!(request.chat_id, -7);
    assert!(request.disable_notification);
    assert_eq!(
        request.text,
        "🔎 Проверка изменений завершена\n\n📁 project\n🤖 m\n\n✅ Проблем не найдено.\n\nfine"
    );
}
