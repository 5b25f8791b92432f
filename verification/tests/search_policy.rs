use meetly_core::app::search_policy::{
    contains_sensitive_token, current_spoken_request, detect_search_requirement,
    extract_tagged_values, judge_query, looks_private, mentions_credential, normalize_for_overlap,
    parse_search_arguments, requirement_of, search_arguments_of, trim_marks, SearchArguments,
    SearchPolicy, SearchRequirement, CURRENT_INFORMATION_FRESHNESS_DAYS, DEFAULT_SEARCH_LIMIT,
};
use meetly_core::providers::llm::ChatMessage;

fn user(content: &str) -> ChatMessage {
    ChatMessage::user(content.to_string())
}

fn chars(text: &str) -> Vec<char> {
    text.chars().collect()
}

#[test]
fn parses_and_bounds_search_arguments() {
    assert_eq!(
        parse_search_arguments(r#"{"query":"  latest Rust release  ","limit":9}"#).unwrap(),
        SearchArguments {
            query: "latest Rust release".to_string(),
            limit: 5,
        }
    );
}

#[test]
fn rejects_empty_or_invalid_search_arguments() {
    assert!(parse_search_arguments("not-json").is_err());
    assert!(parse_search_arguments(r#"{"query":" "}"#).is_err());
}

#[test]
fn detects_explicit_and_fresh_search_requests() {
    assert_eq!(
        detect_search_requirement(&vec![user("帮我搜一下世界杯最近的新闻")]),
        SearchRequirement::Required {
            freshness_days: Some(CURRENT_INFORMATION_FRESHNESS_DAYS),
        }
    );
    assert_eq!(
        detect_search_requirement(&vec![user("look up Rust ownership")]),
        SearchRequirement::Required {
            freshness_days: None,
        }
    );
}

#[test]
fn detects_current_request_without_mistaking_context_wrapper() {
    let wrapped = "The user selected this text as shared context for the conversation:\n\
<selected_text>current market news</selected_text>\n\n\
Current spoken request:\n解释这段话";

    assert_eq!(
        detect_search_requirement(&vec![user(wrapped)]),
        SearchRequirement::Optional
    );
    assert_eq!(
        detect_search_requirement(&vec![user("最近世界杯发生了什么事情？")]),
        SearchRequirement::Required {
            freshness_days: Some(CURRENT_INFORMATION_FRESHNESS_DAYS),
        }
    );
}

#[test]
fn search_policy_rejects_selected_text_and_identifiers() {
    let policy = SearchPolicy::from_messages(&vec![user(
        "<selected_text>Confidential launch plan for Project Aurora</selected_text>",
    )]);

    assert!(policy
        .validate("Confidential launch plan for Project Aurora")
        .is_err());
    assert!(policy.validate("customer@example.com roadmap").is_err());
    assert!(policy.validate("exa-secret-token").is_err());
    assert!(policy.validate("Project Aurora market news").is_ok());
}

#[test]
fn search_policy_rejects_large_verbatim_message_passages() {
    let passage = "This is a deliberately long private meeting passage that must never be copied verbatim into a public search query.";
    let policy = SearchPolicy::from_messages(&vec![user(passage)]);

    assert!(policy.validate(passage).is_err());
    assert!(policy.validate("public market overview").is_ok());
}

#[test]
fn refusals_say_why() {
    let query = chars("confidentiallaunchplan");
    let none: Vec<Vec<char>> = vec![];
    let private = judge_query(true, &query, &none, &none).unwrap_err();
    let selected = judge_query(false, &query, &vec![query.clone()], &none).unwrap_err();
    assert_ne!(private, selected);
    let long = chars(&"a".repeat(48));
    let verbatim = judge_query(false, &long, &none, &vec![long.clone()]).unwrap_err();
    assert_ne!(verbatim, selected);
    let shorter = chars(&"a".repeat(47));
    assert!(judge_query(false, &shorter, &none, &vec![long]).is_ok());
    let short = chars("elevenchars");
    assert!(judge_query(false, &short, &vec![short.clone()], &none).is_ok());
}

#[test]
fn quoted_selections_are_refused_however_they_are_spaced() {
    let policy = SearchPolicy::from_messages(&vec![user(
        "<selected_text>Quarterly Numbers 2026</selected_text>",
    )]);
    assert!(policy.validate("quarterly  NUMBERS\n2026").is_err());
    assert!(policy.validate("why do the Quarterly Numbers 2026 matter").is_err());
    assert!(policy.validate("numbers").is_ok());
}

#[test]
fn passages_are_refused_however_they_are_spaced() {
    let passage = "We agreed to move the launch to the third week of October and to tell nobody before that.";
    let policy = SearchPolicy::from_messages(&vec![user(passage)]);
    assert!(policy
        .validate("MOVE the launch to the third week of October  and to tell nobody")
        .is_err());
}

#[test]
fn overlap_ignores_case_and_space() {
    assert_eq!(normalize_for_overlap(&chars(" A\tb İ ")), chars("abi\u{307}"));
    let mut joined = normalize_for_overlap(&chars("One "));
    joined.extend(normalize_for_overlap(&chars(" Two")));
    assert_eq!(normalize_for_overlap(&chars("One  Two")), joined);
}

#[test]
fn tagged_values_are_found_in_order() {
    assert_eq!(
        extract_tagged_values("<t>a</t> <t> b </t><t>open", "t"),
        vec!["a".to_string(), "b".to_string()]
    );
    assert!(extract_tagged_values("nothing", "t").is_empty());
}

#[test]
fn credentials_and_private_tokens_are_recognised() {
    assert!(mentions_credential("authorization: basic"));
    assert!(mentions_credential("my api_key"));
    assert!(mentions_credential("apikey=1"));
    assert!(mentions_credential("bearer abc"));
    assert!(!mentions_credential("bear market"));
    assert!(looks_private(&chars("sk-1")));
    assert!(looks_private(&chars("exa-1")));
    assert!(looks_private(&chars("me@example.com")));
    assert!(!looks_private(&chars("@example.com")));
    assert!(!looks_private(&chars("me@example")));
    assert!(contains_sensitive_token("write to (me@example.com), please"));
    assert!(contains_sensitive_token("BEARER abc"));
    assert!(!contains_sensitive_token("rust ownership rules"));
}

#[test]
fn marks_around_a_token_are_trimmed() {
    let token = chars("(a,b)");
    let kept = [false, true, false, true, false];
    assert_eq!(trim_marks(&token, &kept), &['a', ',', 'b']);
    assert_eq!(trim_marks(&token, &[false; 5]), &[] as &[char]);
}

#[test]
fn search_arguments_have_defaults_and_bounds() {
    let plain = parse_search_arguments(r#"{"query":"rust"}"#).unwrap();
    assert_eq!((plain.query.as_str(), plain.limit), ("rust", DEFAULT_SEARCH_LIMIT));
    assert_eq!(parse_search_arguments(r#"{"query":"rust","limit":0}"#).unwrap().limit, 1);
    let long = format!("{{\"query\":\"{}\"}}", "x".repeat(400));
    assert_eq!(parse_search_arguments(&long).unwrap().query.len(), 300);
    assert_eq!(
        search_arguments_of(None).unwrap_err(),
        "web_search arguments were not valid JSON."
    );
}

#[test]
fn only_the_current_request_counts() {
    assert_eq!(
        current_spoken_request("old\nCurrent spoken request:\nmiddle\nCurrent spoken request:\n new "),
        "new"
    );
    assert_eq!(current_spoken_request(" whole "), "whole");
    assert_eq!(requirement_of("explain ownership"), SearchRequirement::Optional);
    assert!(!SearchRequirement::Optional.is_required());
    let fresh = SearchRequirement::Required { freshness_days: Some(14) };
    assert!(fresh.is_required());
    assert_eq!(fresh.freshness_days(), Some(14));
    assert_eq!(SearchRequirement::Optional.freshness_days(), None);
    let answered = vec![
        user("latest news please"),
        ChatMessage::assistant("here is the latest news".to_string()),
        user("thanks, explain ownership"),
    ];
    assert_eq!(detect_search_requirement(&answered), SearchRequirement::Optional);
    assert_eq!(detect_search_requirement(&vec![]), SearchRequirement::Optional);
}
