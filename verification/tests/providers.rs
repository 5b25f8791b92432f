use meetly_core::json::{from_value, get_of, item_at, parse, Json};
use meetly_core::providers::config::{
    default_config_for, default_llm_config, default_stt_config, infer_legacy_provider,
    provider_descriptors, ProviderConfig, ProviderId, ProviderKind,
};
use meetly_core::providers::credentials::{resolve, ResolvedCredentials};
use meetly_core::providers::llm::openai_compatible::{
    after_whole_reply, conversation_json, first_transport, parse_non_stream_response,
    parse_sse_content, prose_as_suggestion, request_failed, settle_suggestion, streaming_failed,
    strip_json_code_fence, OpenAiCompatibleLlm, ReplyStep, Transport, MAX_BULLETS,
    TEMPERATURE_TEXT,
};
use meetly_core::providers::llm::{
    connection_report, normalize_kind, registered_for_llm, AssistantSuggestion, ChatMessage,
    ChatRole, LlmCapabilities, RejectedEndpoints, ThinkingControl,
};
use meetly_core::providers::retry::{error_number_of, requires_streaming_retry};
use meetly_core::providers::sse::{data_lines, read_stream, StreamOutcome};

/// Reads a suggestion from the text of a JSON object.
fn read_suggestion(text: &str) -> Option<AssistantSuggestion> {
    let value: serde_json::Value = serde_json::from_str(text).ok()?;
    let object = value.as_object()?;
    let answer = object.get("answer")?.as_str()?.to_string();
    let mut bullets = Vec::new();
    if let Some(list) = object.get("bullets") {
        for bullet in list.as_array()? {
            bullets.push(bullet.as_str()?.to_string());
        }
    }
    let clarifying_question = match object.get("clarifyingQuestion") {
        None | Some(serde_json::Value::Null) => None,
        Some(question) => Some(question.as_str()?.to_string()),
    };
    let kind = match object.get("kind") {
        None => String::new(),
        Some(kind) => kind.as_str()?.to_string(),
    };
    Some(AssistantSuggestion { answer, bullets, clarifying_question, kind })
}

fn parse_suggestion(content: &str) -> AssistantSuggestion {
    settle_suggestion(read_suggestion(&strip_json_code_fence(content)), content)
}

fn config(provider_id: ProviderId) -> ProviderConfig {
    ProviderConfig {
        provider_id,
        base_url: "https://x.example/v1".to_string(),
        model: "m".to_string(),
        vision_model: None,
        mmproj_path: None,
    }
}

#[test]
fn legacy_mimo_stt_config_is_migrated_at_the_storage_boundary() {
    assert_eq!(
        infer_legacy_provider(
            ProviderKind::Stt,
            "https://api.xiaomimimo.com/v1/chat/completions",
            "mimo-v2.5-asr",
        ),
        ProviderId::XiaomiMimo
    );
    assert_eq!(
        infer_legacy_provider(
            ProviderKind::Llm,
            "https://api.deepseek.com/chat/completions",
            "deepseek-chat",
        ),
        ProviderId::OpenAiCompatible
    );
}

#[test]
fn provider_choices_are_independent_per_kind() {
    assert_eq!(provider_descriptors(ProviderKind::Stt).len(), 3);
    assert_eq!(provider_descriptors(ProviderKind::Llm).len(), 1);
    assert!(!ProviderId::XiaomiMimo.supports(ProviderKind::Llm));
    assert!(!ProviderId::LocalQwen3Asr.supports(ProviderKind::Llm));
    assert!(ProviderId::LocalQwen3Asr.supports(ProviderKind::Stt));
}

#[test]
fn vision_model_falls_back_to_the_text_model() {
    let mut config = default_llm_config();
    assert_eq!(config.effective_vision_model(), config.model);

    config.vision_model = Some("   ".to_string());
    assert_eq!(config.effective_vision_model(), config.model);

    config.vision_model = Some(" opus-5 ".to_string());
    assert_eq!(config.effective_vision_model(), "opus-5");
}

#[test]
fn non_stream_verdict_is_remembered_per_endpoint() {
    let copilot = "https://copilot.tencent.com/v2/chat/completions";
    let other = "https://api.siliconflow.cn/v1/chat/completions";
    let mut memory = RejectedEndpoints::new();

    // Unknown endpoints must still be probed: assuming they need streaming
    // would break every provider that only supports non-streaming.
    assert!(!memory.non_stream_known_unsupported(copilot));
    assert!(!memory.non_stream_known_unsupported(other));

    memory.remember_non_stream_rejected(copilot);

    assert!(memory.non_stream_known_unsupported(copilot));
    // One gateway's incompatibility says nothing about another's.
    assert!(!memory.non_stream_known_unsupported(other));
}

#[test]
fn parse_suggestion_normalizes_behavioral_kind() {
    let suggestion = parse_suggestion(
        r#"{"kind":"behavioral","answer":"这题只能用你自己的真实经历。","bullets":[],"clarifyingQuestion":null}"#,
    );
    assert_eq!(suggestion.kind, "behavioral");
}

#[test]
fn parse_suggestion_defaults_missing_kind_to_knowledge() {
    let suggestion =
        parse_suggestion(r#"{"answer":"HashMap 底层是数组加链表加红黑树。","bullets":[]}"#);
    assert_eq!(suggestion.kind, "knowledge");
}

#[test]
fn parse_suggestion_survives_unknown_kind_value() {
    let suggestion = parse_suggestion(
        r#"{"kind":" behavioural ","answer":"挑一个你真的做过的项目。","bullets":[]}"#,
    );
    assert_eq!(suggestion.kind, "behavioral");
    assert_eq!(suggestion.answer, "挑一个你真的做过的项目。");
}

#[test]
fn prose_fallback_is_never_treated_as_coaching() {
    assert_eq!(prose_as_suggestion("随便一段散文。").kind, "knowledge");
}

#[test]
fn parse_suggestion_keeps_coding_kind_and_indentation() {
    let suggestion = parse_suggestion(
        "{\"kind\":\"coding\",\"answer\":\"分治，平均 O(n log n)。\\n```java\\npublic void sort(int[] a) {\\n    if (a == null) {\\n        return;\\n    }\\n}\\n```\",\"bullets\":[]}",
    );
    assert_eq!(suggestion.kind, "coding");
    assert!(suggestion.answer.contains("\n    if (a == null) {"));
    assert!(suggestion.answer.contains("\n        return;"));
}

#[test]
fn normalize_kind_maps_coding_synonyms() {
    assert_eq!(normalize_kind(Some("coding")), "coding");
    assert_eq!(normalize_kind(Some(" Coding ")), "coding");
    assert_eq!(normalize_kind(Some("代码题")), "coding");
    assert_eq!(normalize_kind(Some("手撕代码")), "coding");
}

#[test]
fn normalize_kind_maps_design_synonyms() {
    assert_eq!(normalize_kind(Some("design")), "design");
    assert_eq!(normalize_kind(Some("system_design")), "design");
    assert_eq!(normalize_kind(Some("系统设计题")), "design");
    assert_eq!(normalize_kind(Some("架构方案")), "design");
}

#[test]
fn normalize_kind_prefers_behavioral_when_a_story_mentions_code() {
    assert_eq!(normalize_kind(Some("behavioral 经历 代码")), "behavioral");
    assert_eq!(normalize_kind(Some("行为题(涉及代码)")), "behavioral");
}

#[test]
fn parse_suggestion_accepts_json_code_fence() {
    let suggestion = parse_suggestion(
        r#"```json
{"answer":"可以这样说","bullets":["追问一","追问二"],"clarifyingQuestion":null}
```"#,
    );

    assert_eq!(suggestion.answer, "可以这样说");
    assert_eq!(suggestion.bullets, vec!["追问一", "追问二"]);
    assert_eq!(suggestion.clarifying_question, None);
}

#[test]
fn parse_suggestion_keeps_all_design_outline_points() {
    let suggestion = parse_suggestion(
        r#"{"kind":"design","answer":"一句总览","bullets":["一","二","三","四","五"],"clarifyingQuestion":null}"#,
    );
    assert_eq!(suggestion.kind, "design");
    assert_eq!(suggestion.bullets, vec!["一", "二", "三", "四", "五"]);
}

#[test]
fn prose_fallback_keeps_the_paragraph_whole() {
    let prose = "HashMap 底层是数组加链表：key 算哈希后对数组长度取模定位到桶，\
所以平均读写是 O(1)；多个 key 撞到同一个桶就叫冲突，用链表串起来，冲突多了会退化成 \
O(n)。Java 8 之后链表超过 8 会转成红黑树，把最坏情况压到 O(log n)。";

    let suggestion = parse_suggestion(prose);
    assert_eq!(suggestion.answer, prose);
    assert!(suggestion.bullets.is_empty());
    assert!(suggestion.answer.contains("；"));
    assert!(suggestion.answer.contains("O(1)；"));
}

#[test]
fn prose_fallback_leaves_short_answers_alone() {
    let suggestion = parse_suggestion("有的。我用过 Redis 做分布式锁。");
    assert_eq!(suggestion.answer, "有的。我用过 Redis 做分布式锁。");
    assert!(suggestion.bullets.is_empty());
}

#[test]
fn prose_fallback_never_invents_structure() {
    let prose = "结论先行。第一点。第二点。第三点。第四点。第五点。第六点。";
    let suggestion = parse_suggestion(prose);
    assert_eq!(suggestion.answer, prose);
    assert!(suggestion.bullets.is_empty());
}

#[test]
fn parse_suggestion_still_caps_beyond_contract() {
    let suggestion = parse_suggestion(
        r#"{"answer":"结论","bullets":["一","二","三","四","五","六"],"clarifyingQuestion":null}"#,
    );
    assert_eq!(suggestion.bullets.len(), MAX_BULLETS);
}

#[test]
fn retries_only_copilot_non_stream_error() {
    assert!(requires_streaming_retry(
        400,
        r#"{"code":11101,"msg":"Non-stream chat request is currently not supported"}"#,
    ));
    assert!(requires_streaming_retry(
        400,
        r#"{"error":{"code":"11101","message":"stream required"}}"#,
    ));
    assert!(requires_streaming_retry(
        400,
        "Non-stream chat request is currently not supported",
    ));
    assert!(!requires_streaming_retry(401, r#"{"code":11101}"#));
    assert!(!requires_streaming_retry(
        400,
        r#"{"code":10001,"msg":"invalid api key"}"#,
    ));
}

#[test]
fn joins_openai_compatible_sse_deltas() {
    let response = "data: {\"choices\":[{\"delta\":{\"role\":\"assistant\"}}]}\n\ndata: {\"choices\":[{\"delta\":{\"content\":\"你好，\"}}]}\n\ndata: {\"choices\":[{\"delta\":{\"content\":\"世界\"}}]}\n\ndata: [DONE]\n\n";

    assert_eq!(parse_sse_content(response).unwrap(), "你好，世界");
}

#[test]
fn kinds_are_known_and_stable() {
    for raw in ["", "whatever", "System Design", "算法", "行为", "代码 设计"] {
        let kind = normalize_kind(Some(raw));
        assert!(["behavioral", "knowledge", "design", "coding"].contains(&kind.as_str()));
        assert_eq!(normalize_kind(Some(&kind)), kind);
    }
    assert_eq!(normalize_kind(None), "knowledge");
}

#[test]
fn default_settings_suit_their_kind() {
    assert_eq!(ProviderKind::Stt.as_str(), "stt");
    assert_eq!(ProviderKind::Llm.as_str(), "llm");
    assert_eq!(default_stt_config().provider_id.as_str(), "openai_compatible");
    for kind in [ProviderKind::Stt, ProviderKind::Llm] {
        let config = default_config_for(kind);
        assert!(config.provider_id.supports(kind));
        assert!(config.vision_model.is_none());
        for descriptor in provider_descriptors(kind) {
            assert!(descriptor.id.supports(kind));
        }
    }
    assert_eq!(
        infer_legacy_provider(ProviderKind::Stt, "https://x.example", "MIMO-V2.5-asr"),
        ProviderId::XiaomiMimo
    );
}

#[test]
fn credentials_need_a_key() {
    let resolved = resolve(
        config(ProviderId::OpenAiCompatible),
        Some("SECRET-REDACTED".to_string()),
        ProviderKind::Llm,
    )
    .ok()
    .unwrap();
    assert_eq!(resolved.model, "m");
    assert_eq!(resolved.vision_model, "m");
    assert_eq!(resolved.api_key, "SECRET-REDACTED");
    assert!(resolve(config(ProviderId::OpenAiCompatible), None, ProviderKind::Llm).is_err());
    assert_eq!(
        resolve(config(ProviderId::OpenAiCompatible), None, ProviderKind::Stt).err().unwrap(),
        "No API key configured for stt"
    );
}

#[test]
fn a_request_holds_the_conversation() {
    let llm = OpenAiCompatibleLlm::new(ResolvedCredentials {
        provider_id: ProviderId::OpenAiCompatible,
        base_url: "https://api.deepseek.com".to_string(),
        model: "chat".to_string(),
        vision_model: "see".to_string(),
        api_key: "k".to_string(),
    });
    assert_eq!(llm.id(), ProviderId::OpenAiCompatible);
    let messages = vec![
        ChatMessage::user("hi".to_string()),
        ChatMessage::assistant("hello".to_string()),
    ];
    let body = llm.request_body("sys", &messages, TEMPERATURE_TEXT, false, true);
    assert_eq!(body.get("model"), Some(&Json::Text("chat".to_string())));
    assert_eq!(body.get("stream"), Some(&Json::Bool(true)));
    assert_eq!(body.get("temperature"), Some(&Json::Single(0.3_f32.to_bits())));
    assert_eq!(
        get_of(item_at(body.get("messages"), 2), "role"),
        Some(&Json::Text("assistant".to_string()))
    );
    assert_eq!(conversation_json("sys", &messages).len(), 3);
    assert_eq!(ChatRole::User.as_str(), "user");
    assert_eq!(ChatRole::Assistant.as_str(), "assistant");
}

#[test]
fn refused_endpoints_are_streamed_from_then_on() {
    let url = "https://x.example";
    let mut memory = RejectedEndpoints::new();
    assert_eq!(first_transport(&memory, url, false), Transport::Whole);
    assert_eq!(first_transport(&memory, url, true), Transport::Stream);
    assert_eq!(after_whole_reply(&mut memory, url, 200, "{}"), ReplyStep::Read);
    assert_eq!(after_whole_reply(&mut memory, url, 500, "{\"code\":11101}"), ReplyStep::Fail);
    assert_eq!(first_transport(&memory, url, false), Transport::Whole);
    assert_eq!(
        after_whole_reply(&mut memory, url, 400, "{\"code\":11101}"),
        ReplyStep::RetryStreaming
    );
    assert_eq!(first_transport(&memory, url, false), Transport::Stream);
    assert_eq!(first_transport(&memory, "https://y.example", false), Transport::Whole);
}

#[test]
fn failures_are_told_with_their_status() {
    assert!(request_failed("500", "oops").contains("500"));
    assert!(request_failed("500", "oops").contains("oops"));
    assert!(streaming_failed("502", "gone").contains("502"));
}

#[test]
fn whole_replies_hold_their_content() {
    let reply = parse(r#"{"choices":[{"message":{"content":" hi "}}]}"#).unwrap();
    assert_eq!(parse_non_stream_response(&reply).unwrap(), "hi");
    assert!(parse_non_stream_response(&parse("{}").unwrap()).is_err());
    assert!(parse_sse_content("data: {broken").is_err());
}

#[test]
fn lines_without_data_are_ignored() {
    let payload = ": comment\nevent: x\ndata: {\"choices\":[{\"delta\":{\"content\":\"a\"}}]}\r\nid: 3\ndata:\ndata: [DONE]\n  data: {\"choices\":[{\"delta\":{\"content\":\"b\"}}]}\n";
    let all = data_lines(payload);
    assert_eq!(read_stream(&all, true), StreamOutcome::Text("ab".to_string()));
}

#[test]
fn errors_in_a_stream_are_heeded_where_wanted() {
    let payload = "data: {\"error\":{\"code\":\"bad\",\"message\":\"no\"}}\n";
    let all = data_lines(payload);
    assert_eq!(
        read_stream(&all, true),
        StreamOutcome::Rejected { code: "bad".to_string(), message: "no".to_string() }
    );
    assert_eq!(read_stream(&all, false), StreamOutcome::Text(String::new()));
    assert_eq!(read_stream(&data_lines("data: {x\n"), true), StreamOutcome::Invalid);
}

#[test]
fn error_numbers_are_found_in_either_place() {
    assert_eq!(error_number_of(&parse(r#"{"code":7}"#).unwrap()), Some(7));
    assert_eq!(error_number_of(&parse(r#"{"error":{"code":"8"}}"#).unwrap()), Some(8));
    assert_eq!(error_number_of(&parse(r#"{"error":{"code":"x"}}"#).unwrap()), None);
}

#[test]
fn connections_are_reported() {
    assert!(registered_for_llm(ProviderId::OpenAiCompatible).is_ok());
    assert!(registered_for_llm(ProviderId::XiaomiMimo).is_err());
    let capabilities = LlmCapabilities {
        supports_streaming: true,
        thinking_control: ThinkingControl::ProviderSpecific,
    };
    let report = connection_report(ProviderId::OpenAiCompatible, Ok(capabilities));
    assert!(report.success);
    let report = connection_report(ProviderId::OpenAiCompatible, Err("offline".to_string()));
    assert!(!report.success);
    assert_eq!(report.message, "offline");
}

#[test]
fn json_keeps_the_kinds_of_its_numbers() {
    let json = parse(r#"[7, -7, 7.5, 18446744073709551615, true, null, "x", {"a": []}]"#).unwrap();
    assert_eq!(json.item(0).unwrap().as_u64(), Some(7));
    assert_eq!(json.item(0).unwrap().as_i64(), Some(7));
    assert_eq!(json.item(1).unwrap().as_i64(), Some(-7));
    assert_eq!(json.item(1).unwrap().as_u64(), None);
    assert_eq!(json.item(2), Some(&Json::Fraction("7.5".to_string())));
    assert_eq!(json.item(2).unwrap().as_i64(), None);
    assert_eq!(json.item(3).unwrap().as_u64(), Some(u64::MAX));
    assert_eq!(json.item(3).unwrap().as_i64(), None);
    assert_eq!(json.item(4), Some(&Json::Bool(true)));
    assert_eq!(json.item(5), Some(&Json::Null));
    assert_eq!(json.item(6).unwrap().as_str(), Some("x"));
    assert_eq!(json.item(7).unwrap().get("a").unwrap().as_array().unwrap().len(), 0);
    assert_eq!(json.item(8), None);
    assert!(parse("{").is_none());
}

#[test]
fn json_of_a_value_is_that_of_its_text() {
    let text = r#"{"b":[1,{"c":"d"}],"a":null}"#;
    let value: serde_json::Value = serde_json::from_str(text).unwrap();
    assert_eq!(from_value(&value), parse(text).unwrap());
}
