use meetly_core::app::tool_trace::{
    normalized_trace_id, query_shown, request_timing_line, safe_log_text, tool_label, tool_query,
    tool_result_summary, tool_trace_id, MAX_TRACE_ID_CHARS,
};
use meetly_core::json::{json_array, json_object, json_text, no_members, parse, with_member, Json};

fn object(members: &[(&str, Json)]) -> Json {
    let mut all = no_members();
    for (key, value) in members {
        all = with_member(all, key, meetly_core::json::copy_json(value));
    }
    json_object(all)
}

#[test]
fn log_helpers_bound_content_and_sanitize_trace_ids() {
    assert_eq!(
        normalized_trace_id(Some("voice-ask-123\nforged")),
        Some("voice-ask-123forged".to_string())
    );
    assert_eq!(safe_log_text("one\ntwo\tthree", 64), "one two three");
    assert_eq!(safe_log_text("abcdef", 3), "abc...");
}

#[test]
fn tool_trace_helpers_expose_query_and_readable_sources() {
    assert_eq!(
        tool_query("web_search", r#"{"query":" Paperboy latest ","limit":3}"#),
        Some("Paperboy latest".to_string())
    );
    let results = json_array(vec![
        object(&[
            ("title", json_text("Paperboy")),
            ("url", json_text("https://example.com/paperboy")),
        ]),
        object(&[
            ("title", json_text("Release notes")),
            ("url", json_text("https://example.com/releases")),
        ]),
    ]);
    let summary = tool_result_summary(&object(&[("results", results)])).unwrap();

    assert_eq!(
        summary,
        "Paperboy\nhttps://example.com/paperboy\n\nRelease notes\nhttps://example.com/releases"
    );
    assert_eq!(
        tool_result_summary(&object(&[("error", json_text("Search unavailable"))])),
        Some("Search unavailable".to_string())
    );
}

#[test]
fn identifiers_are_safe_and_stable() {
    let long = "é".repeat(5) + &"ab_-".repeat(60);
    let id = normalized_trace_id(Some(&long)).unwrap();
    assert_eq!(id.chars().count(), MAX_TRACE_ID_CHARS);
    assert_eq!(normalized_trace_id(Some(&id)), Some(id.clone()));
    assert_eq!(normalized_trace_id(Some("  \u{3000}/ ")), None);
    assert_eq!(normalized_trace_id(None), None);
    assert_eq!(tool_trace_id("run", 2, "call/7"), "run-tool-2-call7");
    assert_eq!(tool_trace_id("run", 2, "//"), "run-tool-2-call");
}

#[test]
fn logged_text_stays_on_one_line() {
    let line = safe_log_text("a\r\nb\tc\nd", 5);
    assert_eq!(line, "a  b ...");
    assert!(!line.contains('\n'));
    assert_eq!(safe_log_text("", 0), "");
    assert_eq!(safe_log_text("x", 0), "...");
}

#[test]
fn queries_of_other_tools_are_not_shown() {
    assert_eq!(tool_query("shell", r#"{"query":"x"}"#), None);
    assert_eq!(tool_query("web_search", r#"{"query":"  "}"#), None);
    assert_eq!(tool_query("web_search", "no json"), None);
    assert_eq!(query_shown("web_search", parse(r#"{"query":7}"#)), None);
    assert_eq!(tool_label("web_search"), "搜索网页");
    assert_eq!(tool_label("shell"), "使用工具");
}

#[test]
fn results_without_an_address_are_not_shown() {
    let nameless = object(&[("url", json_text(" https://a.example "))]);
    let lost = object(&[("title", json_text("lost"))]);
    let output = object(&[("results", json_array(vec![lost, nameless]))]);
    assert_eq!(
        tool_result_summary(&output).unwrap(),
        "https://a.example\nhttps://a.example"
    );
    let only_lost = object(&[(
        "results",
        json_array(vec![object(&[("title", json_text("lost"))])]),
    )]);
    assert_eq!(tool_result_summary(&only_lost), None);
    assert_eq!(
        tool_result_summary(&object(&[("results", json_array(vec![]))])).unwrap(),
        "没有找到可用结果"
    );
    assert_eq!(tool_result_summary(&Json::Null), None);
}

#[test]
fn only_five_results_are_shown() {
    let many: Vec<Json> = (0..7)
        .map(|i| object(&[("url", json_text(&format!("u{}", i)))]))
        .collect();
    let summary = tool_result_summary(&object(&[("results", json_array(many))])).unwrap();
    assert_eq!(summary, "u0\nu0\n\nu1\nu1\n\nu2\nu2\n\nu3\nu3\n\nu4\nu4");
}

#[test]
fn requests_are_timed() {
    assert_eq!(
        request_timing_line("m\n1", 100, Some(130), 250, "ok"),
        "[agent-llm] timing model=m 1 outcome=ok total_ms=150 ttft_ms=30"
    );
    assert_eq!(
        request_timing_line("m", 100, None, 90, "failed"),
        "[agent-llm] timing model=m outcome=failed total_ms=0 ttft_ms=n/a"
    );
}
