use meetly_core::app::agent_tool_loop::AgentWorkflow;
use meetly_core::app::prompt_orchestrator::{
    build_system_prompt, build_user_message, FEW_SHOT_EXAMPLE, INTERVIEW_JSON_OUTPUT_CONTRACT,
    INTERVIEW_OUTPUT_RULES, KNOWLEDGE_GROUNDING_RULES,
};
use meetly_core::app::voice_agent::{coach_workflow, workflow_for_mode};
use meetly_core::audio::transcript::TranscriptSegmentDto;
use meetly_core::domain::AssistantMode;

const MODES: [AssistantMode; 5] = [
    AssistantMode::General,
    AssistantMode::Interview,
    AssistantMode::Interviewer,
    AssistantMode::Meeting,
    AssistantMode::Sales,
];

fn segment(text: &str, end_ms: u64) -> TranscriptSegmentDto {
    TranscriptSegmentDto {
        id: "test".to_string(),
        source: "system".to_string(),
        speaker: "interviewer".to_string(),
        text: text.to_string(),
        start_ms: end_ms.saturating_sub(1000),
        end_ms,
    }
}

#[test]
fn coach_and_voice_interview_use_the_same_meeting_coach_workflow() {
    assert_eq!(coach_workflow(), workflow_for_mode(AssistantMode::Interview));
}

#[test]
fn voice_general_mode_uses_the_distinct_fn_general_workflow() {
    assert_eq!(workflow_for_mode(AssistantMode::General), AgentWorkflow::FnGeneral);
    assert_ne!(workflow_for_mode(AssistantMode::General), coach_workflow());
}

#[test]
fn build_user_message_formats_relative_timestamps() {
    let segments = vec![segment("hello", 1_000), segment("world", 5_000)];
    let message = build_user_message(&segments);
    assert_eq!(
        message,
        "The user is in a live meeting. The app has been continuously \
transcribing the recent conversation below. Infer what the user should say \
now, using only this meeting context.\n\nRecent transcript:\n[-4s] hello\n[-0s] world"
    );
}

#[test]
fn build_user_message_empty_input_returns_empty_string() {
    assert_eq!(build_user_message(&vec![]), "");
}

#[test]
fn every_mode_prompt_mentions_json_contract() {
    for mode in [
        AssistantMode::General,
        AssistantMode::Interview,
        AssistantMode::Interviewer,
        AssistantMode::Meeting,
        AssistantMode::Sales,
    ] {
        let prompt = build_system_prompt(mode);
        assert!(prompt.contains("JSON object"));
    }
}

#[test]
fn every_mode_prompt_forbids_meta_advice() {
    for mode in [
        AssistantMode::General,
        AssistantMode::Interview,
        AssistantMode::Interviewer,
        AssistantMode::Meeting,
        AssistantMode::Sales,
    ] {
        let prompt = build_system_prompt(mode);
        assert!(prompt.contains("SELF_JUDGE_RULE") || prompt.contains("meta-advice"));
    }
}

#[test]
fn interview_contract_gives_design_its_own_outline_shape() {
    assert!(INTERVIEW_OUTPUT_RULES.contains("kind = \"design\""));
    assert!(INTERVIEW_OUTPUT_RULES.contains("3-5 primary design points"));
    assert!(INTERVIEW_OUTPUT_RULES.contains("state is stored"));
    assert!(INTERVIEW_JSON_OUTPUT_CONTRACT.contains("\"design\""));
    assert!(INTERVIEW_JSON_OUTPUT_CONTRACT.contains("3-5 distinct primary design points"));
}

/// The rules state criteria and hold no answer to a particular question.
#[test]
fn output_rules_state_criteria_not_memorised_answers() {
    const LEAKED_CASE_MATERIAL: &[&str] = &[
        "红黑树",
        "中奖",
        "奖品",
        "堆排序",
        "快排",
        "30%",
        "user_id",
        "幸运值",
        "九宫格",
        "格子",
        "签到",
        "排行榜",
        "Redis",
        "消息队列",
        "MySQL",
    ];

    for needle in LEAKED_CASE_MATERIAL {
        assert!(!INTERVIEW_OUTPUT_RULES.contains(needle), "{}", needle);
        assert!(!INTERVIEW_JSON_OUTPUT_CONTRACT.contains(needle), "{}", needle);
    }
}

#[test]
fn trimmed_grounding_rules_are_under_120_tokens() {
    let word_count = KNOWLEDGE_GROUNDING_RULES.split_whitespace().count();
    assert!(word_count <= 100, "{} words", word_count);
}

#[test]
fn every_prompt_is_different() {
    for a in MODES {
        for b in MODES {
            assert_eq!(build_system_prompt(a) == build_system_prompt(b), a == b);
        }
    }
    assert!(build_system_prompt(AssistantMode::Interview).contains(FEW_SHOT_EXAMPLE));
}

#[test]
fn the_newest_segment_is_now() {
    let segments = vec![segment("early", 500), segment("mid", 7_000), segment("late", 9_500)];
    assert!(build_user_message(&segments).ends_with("\n[-9s] early\n[-2s] mid\n[-0s] late"));
    // What ends after the last segment is no older than it.
    let segments = vec![segment("later", 9_000), segment("last", 5_000)];
    assert!(build_user_message(&segments).ends_with("\n[-0s] later\n[-0s] last"));
}

#[test]
fn live_modes_are_coached() {
    for mode in [AssistantMode::Interviewer, AssistantMode::Meeting, AssistantMode::Sales] {
        assert_eq!(workflow_for_mode(mode), AgentWorkflow::MeetingCoach);
    }
}
