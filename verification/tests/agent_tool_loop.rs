use meetly_core::app::agent_tool_loop::{
    agent_request_failed, agent_streaming_failed, answer_of, apply_provider_request_options,
    completion_body, completion_from_sse, error_output, generated_trace_id, is_openai_reasoner,
    reasoning_switch, reply_from_stream, set_switch, streaming_body, supports_vision,
    vision_messages, vision_request, web_search_tool, with_web_search_prompt, AgentRun,
    AgentWorkflow, CallStep, CompletionMessage, CompletionTuning, ReasoningSwitch, RunStep, ToolCall, ToolFunction, MAX_AGENT_STEPS,
    SHORT_QUERY_SKIP_TOOLS_CHARS, WEB_SEARCH_SYSTEM_PROMPT,
};
use meetly_core::app::search_policy::{
    last_user_message_chars, SearchArguments, SearchRequirement, CURRENT_INFORMATION_FRESHNESS_DAYS,
};
use meetly_core::json::{get_of, item_at, json_object, json_text, no_members, with_member, Json};
use meetly_core::providers::config::ProviderId;
use meetly_core::providers::credentials::ResolvedCredentials;
use meetly_core::providers::llm::ChatMessage;
use meetly_core::providers::retry::requires_streaming_retry;
use meetly_core::providers::sse::StreamOutcome;

fn user(content: &str) -> ChatMessage {
    ChatMessage::user(content.to_string())
}

fn text(value: &str) -> Json {
    Json::Text(value.to_string())
}

fn at<'a>(json: &'a Json, path: &[&str]) -> Option<&'a Json> {
    let mut found = Some(json);
    for key in path {
        found = get_of(found, key);
    }
    found
}

fn message(role: &str, content: &str) -> Json {
    json_object(with_member(
        with_member(no_members(), "role", json_text(role)),
        "content",
        json_text(content),
    ))
}

fn call(id: &str, name: &str, arguments: &str) -> ToolCall {
    ToolCall {
        id: id.to_string(),
        kind: "function".to_string(),
        function: ToolFunction { name: name.to_string(), arguments: arguments.to_string() },
    }
}

fn reply(content: Option<&str>, tool_calls: Vec<ToolCall>) -> Vec<CompletionMessage> {
    vec![CompletionMessage { content: content.map(|text| text.to_string()), tool_calls }]
}

const LONG_QUESTION: &str = "帮我搜一下世界杯最近的新闻，并且说明各支球队目前的名次、积分和接下来的比赛安排";

fn general_run(question: &str) -> AgentRun {
    AgentRun::start(
        AgentWorkflow::FnGeneral,
        ProviderId::OpenAiCompatible,
        Some("run-1"),
        5,
        true,
        "2026-07-17",
        "be brief",
        &vec![user(question)],
    )
    .unwrap()
}

#[test]
fn tool_schema_requires_query_and_disallows_extra_fields() {
    let tool = web_search_tool();
    let parameters = at(&tool, &["function", "parameters"]).unwrap();
    assert_eq!(parameters.get("additionalProperties"), Some(&Json::Bool(false)));
    assert_eq!(item_at(parameters.get("required"), 0), Some(&text("query")));
}

#[test]
fn streaming_retry_matches_only_copilot_non_stream_error() {
    assert!(requires_streaming_retry(
        400,
        r#"{"error":{"code":"11101","message":"stream required"}}"#,
    ));
    assert!(!requires_streaming_retry(400, r#"{"error":{"code":"invalid_model"}}"#));
    assert!(!requires_streaming_retry(401, r#"{"code":11101}"#));
}

#[test]
fn streaming_completion_joins_content_deltas() {
    let payload = "data: {\"choices\":[{\"delta\":{\"role\":\"assistant\"}}]}\n\ndata: {\"choices\":[{\"delta\":{\"content\":\"2\"}}]}\n\ndata: [DONE]\n\n";
    let completion = completion_from_sse(payload).unwrap();
    assert_eq!(completion.content.as_deref(), Some("2"));
}

#[test]
fn agent_request_omits_tool_fields_when_registry_is_empty() {
    let body = completion_body(
        "model",
        &vec![message("user", "hi")],
        &vec![],
        false,
        &CompletionTuning::default_text(),
    );
    assert!(body.get("tools").is_none());
    assert!(body.get("tool_choice").is_none());
    assert_eq!(get_of(item_at(body.get("messages"), 0), "content"), Some(&text("hi")));
}

#[test]
fn agent_request_registers_available_tools() {
    let tools = vec![web_search_tool()];
    let body = completion_body("model", &vec![], &tools, false, &CompletionTuning::default_text());
    let tool = item_at(body.get("tools"), 0).unwrap();
    assert_eq!(at(tool, &["function", "name"]), Some(&text("web_search")));
    assert_eq!(body.get("tool_choice"), Some(&text("auto")));
}

#[test]
fn current_information_forces_web_search() {
    let tools = vec![web_search_tool()];
    let body = completion_body("model", &vec![], &tools, true, &CompletionTuning::default_text());

    assert_eq!(at(&body, &["tool_choice", "type"]), Some(&text("function")));
    assert_eq!(at(&body, &["tool_choice", "function", "name"]), Some(&text("web_search")));
}

#[test]
fn voice_tuning_caps_max_tokens_and_streams() {
    let body = completion_body("model", &vec![], &vec![], false, &CompletionTuning::voice());
    assert_eq!(body.get("stream"), Some(&Json::Bool(true)));
    assert_eq!(body.get("temperature"), Some(&Json::Single(0.2_f32.to_bits())));
    assert_eq!(body.get("max_tokens"), Some(&Json::Unsigned(350)));
}

#[test]
fn text_tuning_omits_max_tokens() {
    let body = completion_body("model", &vec![], &vec![], false, &CompletionTuning::default_text());
    assert_eq!(body.get("stream"), Some(&Json::Bool(false)));
    assert_eq!(body.get("temperature"), Some(&Json::Single(0.3_f32.to_bits())));
    assert!(body.get("max_tokens").is_none());
}

#[test]
fn short_user_query_skips_tool_loop() {
    assert!(last_user_message_chars(&vec![user("今天怎么样")]) < SHORT_QUERY_SKIP_TOOLS_CHARS);
    assert!(
        last_user_message_chars(&vec![user(
            "这个项目的核心难点是什么？请从架构、并发、数据一致性三方面分析"
        )]) >= SHORT_QUERY_SKIP_TOOLS_CHARS
    );
}

#[test]
fn web_search_prompt_includes_current_date() {
    let prompt = with_web_search_prompt("general prompt", "2026-07-17");

    assert!(prompt.contains("current local date is 2026-07-17"));
    assert!(prompt.contains(WEB_SEARCH_SYSTEM_PROMPT));
}

#[test]
fn deepseek_tool_requests_disable_thinking_mode() {
    let body = completion_body(
        "model",
        &vec![],
        &vec![web_search_tool()],
        true,
        &CompletionTuning::default_text(),
    );
    let body = apply_provider_request_options(
        "https://api.deepseek.com/chat/completions",
        "deepseek-chat",
        true,
        body,
    );

    assert_eq!(at(&body, &["thinking", "type"]), Some(&text("disabled")));
    assert_eq!(at(&body, &["tool_choice", "function", "name"]), Some(&text("web_search")));

    let ordinary_body = completion_body(
        "model",
        &vec![],
        &vec![web_search_tool()],
        false,
        &CompletionTuning::default_text(),
    );
    let ordinary_body = apply_provider_request_options(
        "https://api.deepseek.com/chat/completions",
        "deepseek-chat",
        false,
        ordinary_body,
    );
    assert!(ordinary_body.get("thinking").is_none());
}

#[test]
fn voice_tuning_disables_reasoning_but_text_keeps_it() {
    assert!(CompletionTuning::voice().disable_reasoning);
    assert!(!CompletionTuning::default_text().disable_reasoning);
}

#[test]
fn reasoning_options_apply_per_provider_only_when_requested() {
    let plain = || {
        completion_body("model", &vec![], &vec![], false, &CompletionTuning::default_text())
    };

    // SiliconFlow: enable_thinking only when disable_reasoning is set.
    let url = "https://api.siliconflow.cn/v1/chat/completions";
    let sf = apply_provider_request_options(url, "qwen3", false, plain());
    assert!(sf.get("enable_thinking").is_none());

    let sf_on = apply_provider_request_options(url, "qwen3", true, plain());
    assert_eq!(sf_on.get("enable_thinking"), Some(&Json::Bool(false)));

    // OpenAI reasoner: reasoning_effort low; non-reasoner: nothing emitted.
    let url = "https://api.openai.com/v1/chat/completions";
    let o1 = apply_provider_request_options(url, "o3-mini", true, plain());
    assert_eq!(o1.get("reasoning_effort"), Some(&text("low")));

    let gpt4 = apply_provider_request_options(url, "gpt-4o", true, plain());
    assert!(gpt4.get("reasoning_effort").is_none());
}

#[test]
fn workflow_identity_is_explicit() {
    assert_eq!(AgentWorkflow::MeetingCoach.as_str(), "meeting_coach");
    assert_eq!(AgentWorkflow::FnGeneral.as_str(), "fn_general");
    assert_ne!(AgentWorkflow::MeetingCoach, AgentWorkflow::FnGeneral);
}

#[test]
fn provider_names_are_compared_in_lower_case() {
    let body =
        completion_body("model", &vec![], &vec![], false, &CompletionTuning::default_text());
    let body = apply_provider_request_options("https://API.OPENAI.com", "O3-Mini", true, body);
    assert_eq!(body.get("reasoning_effort"), Some(&text("low")));
    assert!(!is_openai_reasoner("O3-Mini"));
    assert!(is_openai_reasoner("gpt-5-nano"));
}

#[test]
fn a_reasoning_switch_is_set_once() {
    assert_eq!(reasoning_switch("https://deepseek.example", "o1"), ReasoningSwitch::Thinking);
    assert_eq!(reasoning_switch("https://x.example", "llama"), ReasoningSwitch::Unknown);
    let body = json_object(with_member(no_members(), "enable_thinking", Json::Bool(true)));
    let body = set_switch(body, ReasoningSwitch::EnableThinking);
    assert_eq!(
        body,
        json_object(with_member(no_members(), "enable_thinking", Json::Bool(false)))
    );
}

#[test]
fn streams_without_an_answer_are_refused() {
    assert_eq!(
        completion_from_sse("data: [DONE]\n").unwrap_err(),
        "LLM streaming response contained no text content."
    );
    assert_eq!(
        completion_from_sse("data: {oops\n").unwrap_err(),
        "LLM streaming response contained an invalid SSE event."
    );
    let answer = reply_from_stream(StreamOutcome::Text("  ok \n".to_string())).unwrap();
    assert_eq!(answer.content.as_deref(), Some("ok"));
    assert!(answer.tool_calls.is_empty());
}

#[test]
fn failed_requests_are_told() {
    assert_eq!(agent_request_failed("503"), "LLM request failed: 503");
    assert_eq!(agent_streaming_failed("503"), "LLM streaming retry failed: 503");
}

#[test]
fn an_answer_is_the_first_reply_that_is_not_blank() {
    assert_eq!(answer_of(&reply(Some(" yes "), vec![])).unwrap(), " yes ");
    assert_eq!(
        answer_of(&reply(Some(" \n"), vec![])).unwrap_err(),
        "LLM response did not contain an answer."
    );
    assert_eq!(
        answer_of(&vec![]).unwrap_err(),
        "LLM response missing choices[0].message"
    );
}

#[test]
fn an_image_is_sent_with_its_question() {
    let messages = vision_messages("look", "AAAA", "image/jpeg", "what is this?");
    assert_eq!(messages.len(), 2);
    assert_eq!(messages[0], message("system", "look"));
    let parts = messages[1].get("content").unwrap();
    assert_eq!(parts.item(0).unwrap().get("text"), Some(&text("what is this?")));
    assert_eq!(
        at(parts.item(1).unwrap(), &["image_url", "url"]),
        Some(&text("data:image/jpeg;base64,AAAA"))
    );
    assert!(supports_vision(ProviderId::OpenAiCompatible).is_ok());
    assert_eq!(
        supports_vision(ProviderId::XiaomiMimo).unwrap_err(),
        format!("Provider {} does not support vision yet.", ProviderId::XiaomiMimo.as_str())
    );
}

#[test]
fn a_run_is_named_by_its_caller_or_by_the_time() {
    assert_eq!(generated_trace_id(AgentWorkflow::FnGeneral, 42), "fn_general-42");
    let run = AgentRun::start(
        AgentWorkflow::MeetingCoach,
        ProviderId::OpenAiCompatible,
        Some(" \n "),
        42,
        true,
        "2026-07-17",
        "be brief",
        &vec![user("hello")],
    )
    .unwrap();
    assert_eq!(run.trace_id, "meeting_coach-42");
    assert_eq!(general_run("hi").trace_id, "run-1");
}

#[test]
fn a_run_needs_a_provider_that_knows_tools() {
    let refused = AgentRun::start(
        AgentWorkflow::MeetingCoach,
        ProviderId::LocalQwen3Asr,
        None,
        0,
        false,
        "",
        "",
        &vec![],
    );
    assert_eq!(
        refused.err().unwrap(),
        format!(
            "Provider {} does not support Meeting Coach Agent tools yet.",
            ProviderId::LocalQwen3Asr.as_str()
        )
    );
}

#[test]
fn a_short_question_gets_no_tools() {
    let run = general_run("搜一下天气");
    assert!(!run.can_search);
    assert_eq!(run.requirement, SearchRequirement::Optional);
    assert_eq!(run.messages[0], message("system", "be brief"));
    assert!(run.request("https://x.example", "m").get("tools").is_none());
}

#[test]
fn a_fresh_question_has_to_be_searched() {
    let mut run = general_run(LONG_QUESTION);
    assert!(run.can_search);
    assert_eq!(
        run.requirement,
        SearchRequirement::Required {
            freshness_days: Some(CURRENT_INFORMATION_FRESHNESS_DAYS)
        }
    );
    let body = run.request("https://x.example", "m");
    assert_eq!(at(&body, &["tool_choice", "function", "name"]), Some(&text("web_search")));

    match run.take_reply(reply(Some("I think so"), vec![])) {
        RunStep::Failed(message) => assert_eq!(
            message,
            "Current information required web_search, but the model did not call it."
        ),
        other => panic!("{:?}", other),
    }
}

#[test]
fn a_run_searches_once_and_answers() {
    let mut run = general_run(LONG_QUESTION);
    let before = run.messages.len();
    let search = call("c1", "web_search", r#"{"query":"world cup standings","limit":2}"#);
    let again = call("c2", "web_search", r#"{"query":"world cup schedule"}"#);
    let other = call("c3", "shell", "{}");
    let calls = match run.take_reply(reply(None, vec![search, again, other])) {
        RunStep::Tools(calls) => calls,
        step => panic!("{:?}", step),
    };
    assert_eq!(run.messages.len(), before + 1);
    assert_eq!(run.messages[before].get("content"), Some(&Json::Null));
    assert_eq!(
        at(item_at(run.messages[before].get("tool_calls"), 0).unwrap(), &["function", "name"]),
        Some(&text("web_search"))
    );

    match run.take_call(&calls[0]) {
        CallStep::Search(request) => {
            assert_eq!(request.query, "world cup standings");
            assert_eq!(request.limit, 2);
            assert_eq!(request.freshness_days, Some(CURRENT_INFORMATION_FRESHNESS_DAYS));
        }
        step => panic!("{:?}", step),
    }
    match run.take_call(&calls[1]) {
        CallStep::Reply(output) => assert_eq!(
            output,
            error_output("Search limit reached. Answer using the existing search result.")
        ),
        step => panic!("{:?}", step),
    }
    match run.take_call(&calls[2]) {
        CallStep::Reply(output) => assert_eq!(output, error_output("Unknown tool.")),
        step => panic!("{:?}", step),
    }

    run.take_output(&calls[0], "{\"results\":[]}");
    let told = run.messages.last().unwrap();
    assert_eq!(told.get("role"), Some(&text("tool")));
    assert_eq!(told.get("tool_call_id"), Some(&text("c1")));
    assert_eq!(told.get("content"), Some(&text("{\"results\":[]}")));

    assert!(run.end_step().is_ok());
    let body = run.request("https://x.example", "m");
    assert_eq!(body.get("tool_choice"), Some(&text("auto")));
    match run.take_reply(reply(Some("second place"), vec![])) {
        RunStep::Answer(answer) => assert_eq!(answer, "second place"),
        step => panic!("{:?}", step),
    }
}

#[test]
fn a_refused_query_is_told_to_the_model() {
    let run = general_run(LONG_QUESTION);
    let arguments = Ok(SearchArguments { query: "sk-abcdef".to_string(), limit: 3 });
    match run.judge_search(arguments) {
        CallStep::Reply(output) => assert_eq!(
            output,
            error_output("web_search query contains private or credential-shaped data.")
        ),
        step => panic!("{:?}", step),
    }
    match run.judge_search(Err("broken".to_string())) {
        CallStep::Reply(output) => assert_eq!(output, error_output("broken")),
        step => panic!("{:?}", step),
    }
}

#[test]
fn a_run_ends_after_its_last_step() {
    let mut run = general_run(LONG_QUESTION);
    for _ in 1..MAX_AGENT_STEPS {
        assert!(run.end_step().is_ok());
    }
    assert_eq!(run.end_step().unwrap_err(), "Fn General Agent exceeded its tool step limit.");
}

#[test]
fn a_run_keeps_its_first_messages() {
    let mut run = general_run(LONG_QUESTION);
    let prompt = with_web_search_prompt("be brief", "2026-07-17");
    let search = call("c1", "web_search", "{}");
    run.take_reply(reply(Some("let me look"), vec![search.clone()]));
    run.take_output(&search, "{}");
    assert_eq!(run.messages[0], message("system", &prompt));
    assert_eq!(run.messages[1], message("user", LONG_QUESTION));
    assert_eq!(run.messages[2].get("content"), Some(&text("let me look")));
}

#[test]
fn calls_are_traced() {
    let run = general_run(LONG_QUESTION);
    let search = call("c/1", "web_search", r#"{"query":" cup "}"#);
    let started = run.call_started(&search, 7);
    assert_eq!(started.run_id, "run-1");
    assert_eq!(started.trace_id, "run-1-tool-1-c1");
    assert_eq!(started.name, "web_search");
    assert_eq!(started.label, "搜索网页");
    assert_eq!(started.status, "running");
    assert_eq!(started.query.as_deref(), Some("cup"));
    assert_eq!((started.created_at, started.completed_at), (7, None));

    let finished = run.call_finished(&search, &error_output("no network"), 7, 9);
    assert_eq!(finished.status, "error");
    assert_eq!(finished.content.as_deref(), Some("no network"));
    assert_eq!((finished.created_at, finished.completed_at), (7, Some(9)));

    let empty = json_object(with_member(no_members(), "results", Json::Array(vec![])));
    let finished = run.call_finished(&search, &empty, 7, 9);
    assert_eq!(finished.status, "completed");
    assert_eq!(finished.content.as_deref(), Some("没有找到可用结果"));
}

#[test]
fn a_streamed_run_is_short_and_does_not_reason() {
    let run = AgentRun::start(
        AgentWorkflow::MeetingCoach,
        ProviderId::OpenAiCompatible,
        None,
        0,
        true,
        "2026-07-17",
        "be brief",
        &vec![user(LONG_QUESTION)],
    )
    .unwrap();
    assert_eq!(run.requirement, SearchRequirement::Optional);
    let body = run.request("https://api.DeepSeek.com", "deepseek-chat");
    assert_eq!(body.get("max_tokens"), Some(&Json::Unsigned(350)));
    assert_eq!(at(&body, &["thinking", "type"]), Some(&text("disabled")));
    assert_eq!(body.get("tool_choice"), Some(&text("auto")));
}

#[test]
fn a_whole_request_becomes_a_streamed_one() {
    let members = with_member(no_members(), "model", json_text("m"));
    let body = json_object(with_member(members, "stream", Json::Bool(false)));
    let changed = streaming_body(body);
    assert_eq!(changed.get("stream"), Some(&Json::Bool(true)));
    assert_eq!(changed.get("model"), Some(&text("m")));
    let added = streaming_body(json_object(no_members()));
    assert_eq!(added.get("stream"), Some(&Json::Bool(true)));
}

#[test]
fn a_question_about_an_image_goes_to_the_model_that_sees() {
    let credentials = ResolvedCredentials {
        provider_id: ProviderId::OpenAiCompatible,
        base_url: "https://api.deepseek.com/chat".to_string(),
        model: "reads".to_string(),
        vision_model: "sees".to_string(),
        api_key: "key".to_string(),
    };
    let body = vision_request(&credentials, "look", "AAAA", "image/jpeg", "what is this?");
    assert_eq!(body.get("model"), Some(&text("sees")));
    assert_eq!(
        body.get("messages"),
        Some(&Json::Array(vision_messages("look", "AAAA", "image/jpeg", "what is this?")))
    );
    assert_eq!(body.get("stream"), Some(&Json::Bool(false)));
    for absent in ["tools", "tool_choice", "max_tokens", "thinking"] {
        assert_eq!(body.get(absent), None);
    }
}
