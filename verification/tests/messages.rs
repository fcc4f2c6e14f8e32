use codex_telegram_notify::answer::{
    extract_assistant_answer, fenced_json_body, format_json_location, format_json_priority,
    format_place, parse_json_answer, parse_json_text,
};
use codex_telegram_notify::hook::HookPayload;
use codex_telegram_notify::json::{parse_json, read_message, Json};
use codex_telegram_notify::message::{
    build_notification, build_review_notification, build_review_notification_with_findings,
    compose_notification, project_name, truncate_unicode, EMPTY_MESSAGE,
};

fn payload() -> HookPayload {
    HookPayload {
        session_id: None,
        cwd: Some("/home/user/проекты/моя-папка".to_string()),
        hook_event_name: Some("Stop".to_string()),
        model: Some("gpt-5.6-sol".to_string()),
        effort: Some("high".to_string()),
        turn_id: None,
        agent_id: None,
        agent_type: None,
        last_assistant_message: Some("Готово 🚀".to_string()),
    }
}

#[test]
fn formats_project_model_and_unicode_message() {
    let result = build_notification(&payload(), 3500);
    assert!(result.contains("📁 моя-папка"));
    assert!(result.contains("🤖 gpt-5.6-sol (high)"));
    assert!(result.contains("Готово 🚀"));
}

#[test]
fn formats_a_whole_notification() {
    assert_eq!(
        build_notification(&payload(), 3500),
        "✅ Codex завершил выполнение\n\n📁 моя-папка\n🤖 gpt-5.6-sol (high)\n\nГотово 🚀"
    );
    assert_eq!(
        compose_notification(Some("p"), Some(" m "), Some(" "), None, 3500),
        "✅ Codex завершил выполнение\n\n📁 p\n🤖 m\n\nCodex завершил выполнение, но итоговое сообщение не получено."
    );
}

#[test]
fn extracts_answer_from_review_json_in_stop_message() {
    let mut payload = payload();
    payload.last_assistant_message = Some(
        "{\"findings\":[{\"title\":\"[P2] Исправить обработку ответа\",\"body\":\"Тело проблемы должно попасть в уведомление.\",\"priority\":2,\"code_location\":{\"absolute_file_path\":\"/home/user/project/src/lib.rs\",\"line_range\":{\"start\":12,\"end\":14}}}],\"overall_explanation\":\"Патч требует доработки.\"}"
            .to_string(),
    );

    let result = build_notification(&payload, 3500);
    assert!(result.contains("Проблемы:"));
    assert!(result.contains("[P2] Исправить обработку ответа"));
    assert!(result.contains("Тело проблемы должно попасть в уведомление."));
    assert!(result.contains("📍 /home/user/project/src/lib.rs:12-14"));
    assert!(result.contains("Патч требует доработки."));
    assert!(!result.contains("\"findings\""));
}

#[test]
fn extracts_answer_from_fenced_and_nested_json_formats() {
    let cases = [
        (
            "```json\n{\"answer\":\"Ответ из fenced JSON\"}\n```",
            "Ответ из fenced JSON",
        ),
        (
            "{\"type\":\"message\",\"role\":\"assistant\",\"content\":[{\"type\":\"output_text\",\"text\":\"Ответ из content\"}]}",
            "Ответ из content",
        ),
        (
            "{\"result\":{\"response\":\"Ответ из вложенной обёртки\"}}",
            "Ответ из вложенной обёртки",
        ),
        (
            "{\"meta\":{\"kind\":\"event\"},\"payload\":{\"value\":\"Ответ из неизвестной обёртки\"}}",
            "Ответ из неизвестной обёртки",
        ),
    ];

    for (raw, expected) in cases {
        let mut payload = payload();
        payload.last_assistant_message = Some(raw.to_string());
        let result = build_notification(&payload, 3500);
        assert!(result.contains(expected), "message was: {result}");
        assert!(!result.contains("\"answer\""));
        assert!(!result.contains("\"meta\""));
    }
}

#[test]
fn formats_review_without_findings() {
    let result = build_review_notification(
        Some("/home/user/project"),
        Some("gpt-5.6-luna"),
        Some("max"),
        Some(0),
        Some("Изменения выглядят корректно."),
        3500,
    );
    assert!(result.contains("Проверка изменений завершена"));
    assert!(result.contains("🤖 gpt-5.6-luna (max)"));
    assert!(result.contains("Проблем не найдено"));
    assert!(result.contains("Изменения выглядят корректно"));
}

#[test]
fn formats_review_findings_before_overall_explanation() {
    let result = build_review_notification_with_findings(
        Some("/home/user/project"),
        None,
        None,
        Some(1),
        Some("1. [P1] Исправить обработку ответа\nПроблема описана здесь."),
        Some("Патч требует доработки."),
        3500,
    );
    assert!(result.contains("Проблемы:"));
    assert!(result.contains("Проблема описана здесь."));
    assert!(result.contains("Итог:"));
    assert!(
        result.find("Проблема описана здесь.").unwrap()
            < result.find("Патч требует доработки.").unwrap()
    );
}

#[test]
fn formats_whole_review_notifications() {
    assert_eq!(
        build_review_notification(Some("/a/b"), None, None, Some(3), Some("ok"), 3500),
        "🔎 Проверка изменений завершена\n\n📁 b\n\n⚠️ Найдено проблем: 3.\n\nok"
    );
    assert_eq!(
        build_review_notification(None, None, Some("max"), None, Some(" "), 3500),
        "🔎 Проверка изменений завершена\n\n📁 Проект не определён\n\n✅ Результат проверки получен."
    );
    assert_eq!(
        build_review_notification_with_findings(
            Some("/a/b"),
            Some("m"),
            Some("e"),
            Some(1),
            Some("d"),
            Some("x"),
            3500
        ),
        "🔎 Проверка изменений завершена\n\n📁 b\n🤖 m (e)\n\n⚠️ Найдено проблем: 1.\n\n⚠️ Проблемы:\n\nd\n\n📝 Итог:\n\nx"
    );
}

#[test]
fn omits_missing_model_and_uses_missing_message_fallback() {
    let mut payload = payload();
    payload.cwd = None;
    payload.model = None;
    payload.effort = None;
    payload.last_assistant_message = Some("  \n ".to_string());
    let result = build_notification(&payload, 3500);
    assert!(result.contains("📁 Проект не определён"));
    assert!(!result.contains("🤖"));
    assert!(result.contains(EMPTY_MESSAGE));
}

#[test]
fn truncates_without_splitting_unicode() {
    let result = truncate_unicode("Привет 🚀 мир", 8);
    assert_eq!(result.chars().count(), 8);
    assert!(result.is_char_boundary(result.len()));
}

#[test]
fn adds_truncation_marker_when_it_fits() {
    let result = truncate_unicode("0123456789", 40);
    assert_eq!(result, "0123456789");

    let result = truncate_unicode(&"x".repeat(100), 40);
    assert!(result.ends_with("[сообщение сокращено]"));
    assert_eq!(result.chars().count(), 40);
}

#[test]
fn truncates_at_the_length_of_the_marker() {
    let marker = "\n…\n\n[сообщение сокращено]";
    let length = marker.chars().count();
    let text = "y".repeat(100);
    assert_eq!(truncate_unicode(&text, length), "y".repeat(length));
    assert_eq!(truncate_unicode(&text, length + 1), format!("y{marker}"));
    assert_eq!(truncate_unicode(&text, 0), "");
    let cut = truncate_unicode(&text, 50);
    assert_eq!(truncate_unicode(&cut, 50), cut);
}

#[test]
fn no_notification_is_longer_than_configured() {
    let mut payload = payload();
    payload.last_assistant_message = Some("я".repeat(5000));
    assert_eq!(build_notification(&payload, 3500).chars().count(), 3500);
    assert_eq!(build_notification(&payload, 1).chars().count(), 1);
}

#[test]
fn a_project_is_the_last_part_of_a_path() {
    assert_eq!(project_name("/home/user/project/"), Some("project".to_string()));
    assert_eq!(project_name("relative"), Some("relative".to_string()));
    assert_eq!(project_name("/"), None);
    assert_eq!(project_name("/home/ "), None);
}

#[test]
fn takes_messages_out_of_code_fences() {
    assert_eq!(fenced_json_body("```JSON \n {} \n```"), Some("{}"));
    assert_eq!(fenced_json_body("```json{}```"), Some("{}"));
    assert_eq!(fenced_json_body("``` {} ```"), Some("{}"));
    assert_eq!(fenced_json_body("{}"), None);
}

#[test]
fn finds_json_inside_prose() {
    assert_eq!(
        extract_assistant_answer("Here: {\"text\": \"yes\"} done"),
        Some("yes".to_string())
    );
    assert_eq!(
        extract_assistant_answer("list [\"a\", \"b\"] end"),
        Some("1. a\n\n2. b".to_string())
    );
    assert_eq!(
        extract_assistant_answer("not } json {"),
        Some("not } json {".to_string())
    );
    assert!(parse_json_answer("nothing here").is_none());
    assert!(matches!(parse_json_answer(" 7 "), Some(Json::Number { .. })));
}

#[test]
fn answers_come_from_every_kind_of_value() {
    let answer = |text: &str| extract_assistant_answer(text);
    assert_eq!(answer(""), None);
    assert_eq!(answer("null"), None);
    assert_eq!(answer("true"), Some("true".to_string()));
    assert_eq!(answer("-12.50"), Some("-12.5".to_string()));
    assert_eq!(answer("\"  text \""), Some("text".to_string()));
    assert_eq!(answer("\" \""), None);
    assert_eq!(answer("[1, null, \"x\"]"), Some("1\nx".to_string()));
    assert_eq!(
        answer("{\"only\": {\"text\": \"deep\"}}"),
        Some("deep".to_string())
    );
    assert_eq!(
        answer("{\"answer\": \"{\\\"text\\\": \\\"inner\\\"}\"}"),
        Some("📝 Итог:\n\ninner".to_string())
    );
    assert_eq!(
        answer("{\"body\": \"b\", \"extra\": 1}"),
        Some("1. Замечание\nb".to_string())
    );
    assert_eq!(
        answer("{\"a\": \"short\", \"b\": [\"one\", \"two\"], \"c\": 5}"),
        Some("one\ntwo".to_string())
    );
    assert_eq!(
        answer("{\"a\": \"12345\", \"b\": \"54321\"}"),
        Some("54321".to_string())
    );
}

#[test]
fn json_that_says_nothing_is_not_passed_on() {
    let answer = |text: &str| extract_assistant_answer(text);
    assert_eq!(answer("{}"), None);
    assert_eq!(answer("\"{}\""), None);
    assert_eq!(answer("\" [] \""), None);
    assert_eq!(answer("null"), None);
    assert_eq!(answer("\"null\""), Some("null".to_string()));
    assert_eq!(answer("\" null \""), Some("null".to_string()));
    assert_eq!(
        answer("{\"answer\": \"null\", \"count\": 1}"),
        Some("📝 Итог:\n\nnull".to_string())
    );
    assert_eq!(answer("{\"a\": \"null\", \"b\": 1}"), Some("null".to_string()));
    assert_eq!(answer("[\"null\"]"), Some("1. null".to_string()));
    assert_eq!(answer("\"```json\\n{}\\n```\""), None);
    assert_eq!(answer("{\"answer\": \"{\\\"a\\\": null}\"}"), None);
    assert_eq!(answer("\"{\\\"text\\\": \\\"in\\\"}\""), Some("in".to_string()));
    assert_eq!(answer("\"print {} here\""), Some("print {} here".to_string()));
    assert_eq!(answer("{\"answer\": \"{}\", \"count\": 1}"), None);
    assert_eq!(
        answer("{\"a\": \"{\\\"k\\\": \\\"v\\\"}\", \"b\": 1}"),
        Some("v".to_string())
    );
    assert_eq!(answer("{\"a\": \"5\", \"b\": {}}"), Some("5".to_string()));
    assert_eq!(answer("[\"{}\"]"), None);
    assert!(parse_json_text(" {} ").is_some() && parse_json_text("```{}```").is_some());
    assert!(parse_json_text("a {} b").is_none());
}

#[test]
fn reviews_are_written_out() {
    assert_eq!(
        extract_assistant_answer("{\"findings\": [], \"overall_correctness\": \"correct\"}"),
        Some("✅ Проблем не найдено.\n\n📝 Итог: correct".to_string())
    );
    assert_eq!(
        extract_assistant_answer(
            "{\"findings\": [{\"name\": \"n\", \"priority\": \"[P1]\", \"location\": {\"file\": \"f\", \"line\": 3}}, 5], \"summary\": \"s\"}"
        ),
        Some(
            "⚠️ Найдено проблем: 2.\n\nПроблемы:\n\n1. [P1] n\n📍 f:3\n\n📝 Итог:\n\ns".to_string()
        )
    );
}

#[test]
fn reads_priorities() {
    let priority = |text: &str| format_json_priority(&parse_json(text).unwrap());
    assert_eq!(priority("0"), Some("P0".to_string()));
    assert_eq!(priority("\" [P3] \""), Some("P3".to_string()));
    assert_eq!(priority("\"high\""), Some("Phigh".to_string()));
    assert_eq!(priority("\"P\""), None);
    assert_eq!(priority("-1"), None);
    assert_eq!(priority("true"), None);
}

#[test]
fn reads_locations() {
    let location = |text: &str| format_json_location(&parse_json(text).unwrap());
    assert_eq!(
        location("{\"path\": \" a.rs \", \"line_range\": {\"start\": 4, \"end\": 4}}"),
        Some("a.rs:4".to_string())
    );
    assert_eq!(
        location("{\"file_path\": \"a.rs\", \"line\": 9, \"line_range\": {\"end\": 12}}"),
        Some("a.rs:9-12".to_string())
    );
    assert_eq!(location("{\"line\": 2}"), Some("строка:2".to_string()));
    assert_eq!(location("{\"path\": 5}"), None);
    assert_eq!(location("7"), None);
    assert_eq!(format_place(Some("f"), None, Some(3)), Some("f".to_string()));
}

#[test]
fn messages_are_texts_or_compact_json() {
    let value = |text: &str| serde_json::from_str::<serde_json::Value>(text).unwrap();
    assert_eq!(read_message(value("\"plain\"")), Some("plain".to_string()));
    assert_eq!(
        read_message(value("{ \"b\" : [1, null], \"a\" : true }")),
        Some("{\"a\":true,\"b\":[1,null]}".to_string())
    );
}
