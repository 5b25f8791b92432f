use meetly_core::audio::wav::encode_wav;
use meetly_core::json::{get_of, item_at, json_array, json_object, json_text, no_members, parse, with_member, Json};
use meetly_core::providers::config::{ProviderConfig, ProviderId};
use meetly_core::providers::credentials::ResolvedCredentials;
use meetly_core::providers::sse::StreamOutcome;
use meetly_core::providers::stt::audio_normalization::{
    file_extension, mime_subtype, silence_probe_wav, ClipDecoder, PacketEvent, PacketStep,
    TARGET_SAMPLE_RATE,
};
use meetly_core::providers::stt::data_url::{
    audio_base64, audio_data_url, MAX_AUDIO_DATA_URL_BYTES,
};
use meetly_core::providers::stt::local::{
    clean_transcript, parse_content, wait_step, LocalQwen3AsrStt, ServerStep, WaitStep,
};
use meetly_core::providers::stt::mimo::{parse_transcript, MimoStt};
use meetly_core::providers::stt::openai_compatible::{
    no_transcript_message, parse_json_transcript, parse_sse_transcript,
    requires_chat_audio_streaming_retry, response_preview, settle_transcript, suits_chat_audio,
    OpenAiCompatibleStt,
};
use meetly_core::providers::stt::text_guard::{
    analyse, is_degenerate, is_significant, repetition_ratio, significant_chars, RepetitionSpan,
};
use meetly_core::providers::stt::{
    build_from_config, strip_asr_text_tags, stt_connection_report, untag, AsrExecutionMode,
    BatchAsrRequest, SttChoice, SttProvider, EMPTY_TRANSCRIPT_MESSAGE,
};

fn text(value: &str) -> Json {
    Json::Text(value.to_string())
}

fn reply(content: &str) -> Json {
    let message = json_object(with_member(no_members(), "content", json_text(content)));
    let choice = json_object(with_member(no_members(), "message", message));
    json_object(with_member(no_members(), "choices", json_array(vec![choice])))
}

fn credentials(provider_id: ProviderId) -> ResolvedCredentials {
    ResolvedCredentials {
        provider_id,
        base_url: "https://api.xiaomimimo.com/v1/chat/completions".to_string(),
        model: "mimo-v2.5-asr".to_string(),
        vision_model: "mimo-v2.5-asr".to_string(),
        api_key: "secret".to_string(),
    }
}

fn config(provider_id: ProviderId) -> ProviderConfig {
    ProviderConfig {
        provider_id,
        base_url: "http://127.0.0.1:8080/".to_string(),
        model: "/models/asr.gguf".to_string(),
        vision_model: None,
        mmproj_path: Some("/models/mmproj.gguf".to_string()),
    }
}

fn share(span: RepetitionSpan) -> f64 {
    if span.significant == 0 {
        0.0
    } else {
        span.covered as f64 / span.significant as f64
    }
}

fn ratio(text: &str) -> f64 {
    let (covered, significant) = repetition_ratio(text);
    if significant == 0 {
        0.0
    } else {
        covered as f64 / significant as f64
    }
}

#[test]
fn three_minute_wav_fits_mimo_base64_limit() {
    let bytes =
        encode_wav(TARGET_SAMPLE_RATE, &vec![0; TARGET_SAMPLE_RATE as usize * 180]).unwrap();
    let encoded_size = "data:audio/wav;base64,".len() + bytes.len().div_ceil(3) * 4;
    assert!(encoded_size < 10_000_000);
    assert_eq!(audio_data_url(&bytes).unwrap().len(), encoded_size);
}

#[test]
fn local_strips_asr_text_markup() {
    assert_eq!(
        clean_transcript("language Chinese<asr_text>你好，面试助手。</asr_text>"),
        "你好，面试助手。"
    );
}

#[test]
fn falls_back_to_raw_when_no_markup() {
    assert_eq!(clean_transcript("你好世界"), "你好世界");
}

#[test]
fn parses_chat_completions_content() {
    let body = reply("你好");
    assert_eq!(parse_content(&body), Ok("你好".to_string()));
}

#[test]
fn builds_mimo_chat_completions_audio_body() {
    let provider = MimoStt::new(credentials(ProviderId::XiaomiMimo));
    let body = provider.request_body("data:audio/wav;base64,AAAA");
    assert_eq!(body.get("model"), Some(&text("mimo-v2.5-asr")));
    let content = get_of(item_at(body.get("messages"), 0), "content");
    assert_eq!(get_of(item_at(content, 0), "type"), Some(&text("input_audio")));
    assert!(
        get_of(item_at(content, 1), "type") == Some(&text("text"))
            && get_of(item_at(content, 1), "text")
                .and_then(|part| part.as_str())
                .unwrap_or("")
                .contains("只输出转写文本"),
    );
    assert_eq!(get_of(body.get("asr_options"), "language"), Some(&text("auto")));
}

#[test]
fn parses_mimo_transcript() {
    let body = reply(" 你好世界 ");
    assert_eq!(parse_transcript(&body), Ok("你好世界".to_string()));
}

#[test]
fn mimo_strips_asr_text_markup() {
    assert_eq!(
        strip_asr_text_tags("language Chinese<asr_text>你好，面试助手。</asr_text>"),
        "你好，面试助手。"
    );
}

#[test]
fn openai_compatible_retries_only_copilot_non_stream_error() {
    assert!(requires_chat_audio_streaming_retry(
        400,
        r#"{"code":11101,"msg":"Non-stream chat request is currently not supported"}"#,
    ));
    assert!(requires_chat_audio_streaming_retry(
        400,
        r#"{"error":{"code":"11101","message":"stream required"}}"#,
    ));
    assert!(!requires_chat_audio_streaming_retry(
        400,
        r#"{"code":10001,"msg":"invalid api key"}"#,
    ));
    assert!(!requires_chat_audio_streaming_retry(401, r#"{"code":11101}"#));
}

#[test]
fn retries_on_body_format_rejections() {
    assert!(requires_chat_audio_streaming_retry(
        400,
        r#"{"error":{"code":"invalid_request_error","message":"Required body invalid, please check the request body format."}}"#,
    ));
    // Endpoint-level mismatches also warrant the chat retry.
    assert!(requires_chat_audio_streaming_retry(404, "not found"));
    assert!(requires_chat_audio_streaming_retry(415, "unsupported media type"));
    // Auth/quota problems must not be masked by a doomed retry.
    assert!(!requires_chat_audio_streaming_retry(429, "rate limited"));
}

#[test]
fn joins_streaming_audio_transcript_deltas() {
    let payload = "data: {\"choices\":[{\"delta\":{\"role\":\"assistant\"}}]}\n\ndata: {\"choices\":[{\"delta\":{\"content\":\"第一句。\"}}]}\n\ndata: {\"choices\":[{\"delta\":{\"content\":\"第二句。\"}}]}\n\ndata: [DONE]\n\n";
    assert_eq!(parse_sse_transcript(payload), Ok("第一句。第二句。".to_string()));
}

#[test]
fn reports_an_in_stream_error_instead_of_an_empty_transcript() {
    let payload = "data: {\"error\":{\"code\":\"invalid_parameter_error\",\"message\":\"<400> InternalError.Algo.InvalidParameter: The dedicated task `asr` ... does not support this input.\",\"type\":\"invalid_request_error\"}}\n\n";
    let error = parse_sse_transcript(payload).unwrap_err();
    assert!(error.starts_with("ASR provider rejected the request in-stream"), "{}", error);
    assert!(error.contains("InvalidParameter"), "{}", error);
}

#[test]
fn reads_plain_json_when_streaming_is_ignored() {
    let payload = r#"{"choices":[{"message":{"content":"你好，面试助手。"}}]}"#;
    assert_eq!(parse_sse_transcript(payload), Ok("你好，面试助手。".to_string()));
}

#[test]
fn reads_json_content_typed_as_parts() {
    let payload = r#"{"choices":[{"message":{"content":[{"type":"text","text":"第一段。"}]}}]}"#;
    assert_eq!(parse_sse_transcript(payload), Ok("第一段。".to_string()));
}

#[test]
fn reports_empty_payload_instead_of_guessing() {
    assert_eq!(response_preview("", 300), "<empty response body>");
    assert_eq!(response_preview("  \n data: x ", 300), "data: x");
    // Long payloads are cut, not dumped whole into the UI.
    assert!(response_preview(&"a".repeat(5_000), 300).len() <= 300);
}

#[test]
fn streaming_payload_strips_asr_text_markup() {
    let payload = "data: {\"choices\":[{\"delta\":{\"content\":\"language Chinese<asr_text>\"}}]}\n\ndata: {\"choices\":[{\"delta\":{\"content\":\"你好，面试助手。\"}}]}\n\ndata: {\"choices\":[{\"delta\":{\"content\":\"</asr_text>\"}}]}\n\ndata: [DONE]\n\n";
    assert_eq!(parse_sse_transcript(payload), Ok("你好，面试助手。".to_string()));
}

#[test]
fn detects_a_short_loop() {
    let looped = "哎呦喂！我天哪！".repeat(12);
    assert!(is_degenerate(&looped));
    assert!(ratio(&looped) > 0.9);
}

#[test]
fn detects_a_whole_sentence_loop() {
    let looped = "请你做一个自我介绍".repeat(8);
    assert!(is_degenerate(&looped));
}

#[test]
fn detects_a_single_character_loop() {
    let looped = "啊".repeat(80);
    assert!(is_degenerate(&looped));
}

#[test]
fn ignores_whitespace_and_punctuation_jitter() {
    // Same words, punctuation alternating: still one loop.
    let looped = "好的，好的.好的，好的.".repeat(6);
    assert!(is_degenerate(&looped));
}

#[test]
fn catches_a_loop_whose_first_unit_has_an_extra_character() {
    let looped = "嗯嗯嗯，昨天去哪里了？昨天去哪里？昨天去哪里？昨天去哪里？昨天去哪里？";
    assert!(is_degenerate(looped), "ratio was {:.3}", ratio(looped));
}

#[test]
fn keeps_normal_interview_speech() {
    let normal = "我们先聊一下项目吧，你在 qzone 后端主要负责哪一块？".to_string()
        + "我主要负责相册写入链路，也就是 photo 和 media data writer 这两个服务，"
        + "日常做得比较多的是错误码映射和限流组件的接入。";
    assert!(!is_degenerate(&normal));
}

#[test]
fn keeps_short_answers_with_repeated_words() {
    assert!(!is_degenerate("这个这个，我觉得可以。"));
    assert!(!is_degenerate("对对对"));
}

#[test]
fn treats_very_short_text_as_clean() {
    assert_eq!(share(analyse("你好")), 0.0);
    assert!(!is_degenerate("你好"));
    assert!(!is_degenerate(""));
}

#[test]
fn reports_where_the_loop_starts() {
    let looped = "请介绍一下你自己".to_string() + &"不知道".repeat(30);
    let span = analyse(&looped);
    assert!(share(span) > 0.6, "ratio was {}", share(span));
    assert_eq!(span.period, 3);
    assert_eq!(span.start, 8);
}

#[test]
fn clean_text_is_never_touched() {
    assert!(!is_degenerate("你好，请问有什么可以帮您？"));
    assert!(is_degenerate(&"啊".repeat(80)));
}

#[test]
fn long_partially_looped_transcript_is_degenerate() {
    let looped = "面试官你好".to_string() + &"我不知道啊".repeat(30);
    assert!(is_degenerate(&looped));
}

#[test]
fn marks_do_not_change_what_is_a_loop() {
    assert!(is_significant('好'));
    assert!(!is_significant('，'));
    assert!(!is_significant(' '));
    assert_eq!(significant_chars("a，b c!"), vec!['a', 'b', 'c']);
    let plain = "请介绍一下你自己不知道不知道不知道不知道";
    let marked = "请介绍，一下你自己。不 知道！不知道？不知道不知道";
    assert_eq!(analyse(plain), analyse(marked));
    assert_eq!(is_degenerate(plain), is_degenerate(marked));
}

#[test]
fn base64_is_that_of_its_bytes() {
    assert_eq!(audio_base64(&b"".to_vec()), "");
    assert_eq!(audio_base64(&b"f".to_vec()), "Zg==");
    assert_eq!(audio_base64(&b"fo".to_vec()), "Zm8=");
    assert_eq!(audio_base64(&b"foo".to_vec()), "Zm9v");
    assert_eq!(audio_base64(&vec![0xfb, 0xff, 0xfe]), "+//+");
    assert_eq!(audio_data_url(&b"foo".to_vec()).unwrap(), "data:audio/wav;base64,Zm9v");
    assert!(audio_data_url(&vec![0; MAX_AUDIO_DATA_URL_BYTES]).is_none());
}

#[test]
fn requests_that_are_too_large_are_refused() {
    let huge = vec![0u8; MAX_AUDIO_DATA_URL_BYTES];
    assert!(MimoStt::new(credentials(ProviderId::XiaomiMimo)).request(&huge).is_err());
    let provider = OpenAiCompatibleStt::new(credentials(ProviderId::OpenAiCompatible));
    assert!(provider.chat_audio_request(&huge).is_err());
    let body = provider.chat_audio_request(&b"foo".to_vec()).unwrap();
    assert_eq!(body.get("stream"), Some(&Json::Bool(true)));
}

#[test]
fn providers_say_what_they_are() {
    let mimo = MimoStt::new(credentials(ProviderId::XiaomiMimo));
    assert_eq!(mimo.id(), ProviderId::XiaomiMimo);
    assert_eq!(mimo.capabilities().execution_mode, AsrExecutionMode::Batch);
    let openai = OpenAiCompatibleStt::new(credentials(ProviderId::OpenAiCompatible));
    assert_eq!(openai.id(), ProviderId::OpenAiCompatible);
    let local = LocalQwen3AsrStt::new(config(ProviderId::LocalQwen3Asr));
    assert_eq!(local.id(), ProviderId::LocalQwen3Asr);
    let request = BatchAsrRequest::new(vec![1, 2], "a.wav", "audio/wav");
    assert_eq!(request.audio_bytes, vec![1, 2]);
    assert_eq!(request.filename, "a.wav");
    assert_eq!(request.mime_type, "audio/wav");
}

#[test]
fn settings_choose_the_recogniser() {
    let key = Some("SECRET-REDACTED".to_string());
    assert!(matches!(
        build_from_config(config(ProviderId::LocalQwen3Asr), None),
        Ok(SttChoice::Local(_))
    ));
    assert!(matches!(
        build_from_config(config(ProviderId::XiaomiMimo), key.clone()),
        Ok(SttChoice::Mimo(_))
    ));
    assert!(matches!(
        build_from_config(config(ProviderId::OpenAiCompatible), key),
        Ok(SttChoice::OpenAiCompatible(_))
    ));
    assert!(build_from_config(config(ProviderId::XiaomiMimo), None).is_err());
}

#[test]
fn recognisers_are_reported() {
    assert!(stt_connection_report(ProviderId::XiaomiMimo, Ok(())).success);
    let report = stt_connection_report(ProviderId::XiaomiMimo, Err("offline".to_string()));
    assert!(!report.success);
    assert_eq!(report.message, "offline");
}

#[test]
fn a_local_server_is_started_once() {
    let local = LocalQwen3AsrStt::new(config(ProviderId::LocalQwen3Asr));
    assert_eq!(local.spawn_step(true), ServerStep::Keep);
    assert_eq!(local.spawn_step(false), ServerStep::Start);
    let mut bare = config(ProviderId::LocalQwen3Asr);
    bare.mmproj_path = None;
    assert!(matches!(LocalQwen3AsrStt::new(bare).spawn_step(false), ServerStep::Fail(_)));
    assert!(local.server_arguments().contains(&"/models/asr.gguf".to_string()));
    assert!(local.health_url().ends_with("/health"));
    assert!(local.completions_url().ends_with("/chat/completions"));
    assert_eq!(wait_step(true, 0), WaitStep::Ready);
    assert_eq!(wait_step(false, 0), WaitStep::AskAgain(500));
    assert!(matches!(wait_step(false, 60_000), WaitStep::Fail(_)));
}

#[test]
fn replies_without_content_are_refused() {
    assert!(parse_content(&Json::Null).is_err());
    assert!(parse_transcript(&Json::Null).is_err());
}

#[test]
fn markup_that_does_not_end_is_kept() {
    assert_eq!(strip_asr_text_tags(" <asr_text>open "), "<asr_text>open");
    let chars: Vec<char> = "x<asr_text> in </asr_text>y".chars().collect();
    assert_eq!(untag(&chars), "in");
}

#[test]
fn other_refusals_stand() {
    assert!(!suits_chat_audio(500, &None, "oops", "oops"));
    assert!(!suits_chat_audio(403, &None, "body format", "body format"));
    assert!(suits_chat_audio(405, &None, "", ""));
}

#[test]
fn transcripts_are_settled() {
    assert_eq!(
        settle_transcript(StreamOutcome::Text(" hi ".to_string()), true, None).unwrap(),
        "hi"
    );
    assert_eq!(
        settle_transcript(StreamOutcome::Text(String::new()), false, Some(reply("yes"))).unwrap(),
        "yes"
    );
    let empty = settle_transcript(StreamOutcome::Text(String::new()), true, None).unwrap_err();
    assert_eq!(empty, EMPTY_TRANSCRIPT_MESSAGE);
    assert!(settle_transcript(StreamOutcome::Invalid, true, None).is_err());
    assert_eq!(
        parse_json_transcript(r#"{"choices":[{"delta":{"content":" t "}}]}"#).as_deref(),
        Some(" t ")
    );
    assert_eq!(parse_json_transcript(r#"{"choices":[{"text":"t"}]}"#).as_deref(), Some("t"));
    assert_eq!(parse_json_transcript("nope"), None);
    assert!(no_transcript_message("nothing", "  data: x").contains("data: x"));
    assert!(parse("{}").is_some());
}

#[test]
fn clips_are_decoded_at_one_rate() {
    assert!(ClipDecoder::start(&vec![]).is_err());
    let mut decoder = ClipDecoder::start(&vec![1]).unwrap();
    assert_eq!(decoder.take(PacketEvent::OtherTrack).unwrap(), PacketStep::Skip);
    assert_eq!(decoder.take(PacketEvent::Damaged).unwrap(), PacketStep::Skip);
    assert_eq!(
        decoder.take(PacketEvent::Decoded { rate: 48_000, frames: 10 }).unwrap(),
        PacketStep::Append
    );
    assert!(decoder.take(PacketEvent::Decoded { rate: 44_100, frames: 10 }).is_err());
    assert_eq!(decoder.take(PacketEvent::End).unwrap(), PacketStep::Finish(48_000));

    let mut silent = ClipDecoder::start(&vec![1]).unwrap();
    assert!(silent.take(PacketEvent::End).is_err());
    assert!(ClipDecoder::start(&vec![1]).unwrap().take(PacketEvent::ReadFailed).is_err());
    assert!(ClipDecoder::start(&vec![1]).unwrap().take(PacketEvent::DecodeFailed).is_err());
}

#[test]
fn formats_are_known_by_their_names() {
    assert_eq!(file_extension("clip.tar.MP3"), "MP3");
    assert_eq!(file_extension("clip"), "clip");
    assert_eq!(mime_subtype("audio/webm;codecs=opus").as_deref(), Some("webm"));
    assert_eq!(mime_subtype("audio"), None);
}

#[test]
fn the_probe_is_a_silent_file() {
    let file = silence_probe_wav();
    let mut reader = hound::WavReader::new(std::io::Cursor::new(file)).unwrap();
    assert_eq!(reader.spec().sample_rate, TARGET_SAMPLE_RATE);
    assert_eq!(reader.spec().channels, 1);
    assert_eq!(reader.duration(), 3_200);
    assert!(reader.samples::<i16>().all(|sample| sample.unwrap() == 0));
}

#[test]
fn samples_survive_a_file() {
    let samples = [0i16, 1, -1, i16::MAX, i16::MIN];
    let file = encode_wav(8_000, &samples).unwrap();
    let mut reader = hound::WavReader::new(std::io::Cursor::new(file)).unwrap();
    assert_eq!(reader.spec().bits_per_sample, 16);
    assert_eq!(reader.spec().sample_rate, 8_000);
    let read: Vec<i16> = reader.samples::<i16>().map(|sample| sample.unwrap()).collect();
    assert_eq!(read, samples);
}

#[test]
fn all_recognisers_take_the_markup_off_alike() {
    for raw in [
        "  language Chinese<asr_text> 你好 </asr_text> ",
        "\n<asr_text>open ",
        " </asr_text><asr_text>a</asr_text>\t",
        "  plain  ",
        "",
    ] {
        assert_eq!(clean_transcript(raw), strip_asr_text_tags(raw));
    }
    assert_eq!(clean_transcript("  x<asr_text> 你好 </asr_text> "), "你好");
}
