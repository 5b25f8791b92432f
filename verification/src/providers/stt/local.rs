//! The recogniser that runs on the user's own machine.

use super::data_url::{audio_base64, base64_len, base64_text};
use super::mimo::{instruction_part, instruction_part_json};
use super::openai_compatible::{user_parts, user_parts_json};
use super::{untag, untagged, AsrCapabilities, AsrExecutionMode, SttProvider};
use crate::json::{
    item_of, json_array, json_object, json_text, member, member_from, member_nodes,
    member_of, no_items, no_members, nodes, with_item, with_member, Json, JsonNode,
};
use crate::providers::config::{ProviderConfig, ProviderId};
use crate::providers::llm::openai_compatible::{message_content, message_content_of};
use crate::text::{blank, chars_of, is_blank, join_two};
use vstd::prelude::*;

verus! {

/// The port on which the recogniser listens.
pub const SERVER_PORT: u16 = 8080;

/// How long, in milliseconds, it may take to start.
pub const READY_TIMEOUT_MS: u64 = 60_000;

/// How often, in milliseconds, to ask whether it has started.
pub const READY_POLL_INTERVAL_MS: u64 = 500;

/// The recogniser: where it listens, and the files that it is started with.
pub struct LocalQwen3AsrStt {
    pub base_url: String,
    pub model: String,
    pub mmproj_path: String,
}

impl SttProvider for LocalQwen3AsrStt {
    fn id(&self) -> (id: ProviderId)
        ensures
            id == ProviderId::LocalQwen3Asr,
    {
        ProviderId::LocalQwen3Asr
    }

    fn capabilities(&self) -> (capabilities: AsrCapabilities)
        ensures
            capabilities == (AsrCapabilities {
                execution_mode: AsrExecutionMode::Batch,
                supports_language_hint: false,
                requires_wav_normalization: true,
                max_audio_duration_ms: None,
            }),
    {
        AsrCapabilities {
            execution_mode: AsrExecutionMode::Batch,
            supports_language_hint: false,
            requires_wav_normalization: true,
            max_audio_duration_ms: None,
        }
    }
}

/// What to do about the server.
#[derive(Debug, PartialEq, Eq)]
pub enum ServerStep {
    /// It answers, or one that was started is still alive: nothing.
    Keep,
    /// Start one.
    Start,
    /// Give up, with this message.
    Fail(String),
}

/// What to do while the server is awaited.
#[derive(Debug, PartialEq, Eq)]
pub enum WaitStep {
    Ready,
    /// Ask again after so many milliseconds.
    AskAgain(u64),
    Fail(String),
}

/// The members of a request for the transcript of audio in Base64.
pub open spec fn local_members(audio: Seq<char>) -> Seq<(Seq<char>, JsonNode)> {
    seq![
        (
            "messages"@,
            JsonNode::Array(seq![user_parts(seq![instruction_part(), wav_part(audio)])]),
        ),
        ("max_tokens"@, JsonNode::Unsigned(256)),
        ("temperature"@, JsonNode::Unsigned(0)),
        ("stream"@, JsonNode::Bool(false)),
    ]
}

/// A part of a message that is a WAV file in Base64.
pub open spec fn wav_part(audio: Seq<char>) -> JsonNode {
    JsonNode::Object(
        seq![
            ("type"@, JsonNode::Text("input_audio"@)),
            (
                "input_audio"@,
                JsonNode::Object(
                    seq![("data"@, JsonNode::Text(audio)), ("format"@, JsonNode::Text("wav"@))],
                ),
            ),
        ],
    )
}

impl LocalQwen3AsrStt {
    /// The recogniser that the settings describe.
    pub fn new(config: ProviderConfig) -> (stt: LocalQwen3AsrStt)
        ensures
            stt.base_url == config.base_url,
            stt.model == config.model,
            stt.mmproj_path@ == match config.mmproj_path {
                Some(path) => path@,
                None => Seq::empty(),
            },
    {
        let mmproj_path: String = match config.mmproj_path {
            Some(path) => path,
            None => String::new(),
        };
        LocalQwen3AsrStt { base_url: config.base_url, model: config.model, mmproj_path }
    }

    /// Where to ask whether the server has started.
    pub fn health_url(&self) -> (url: String)
        ensures
            url@ == self.base_url@ + "/health"@,
    {
        join_two(self.base_url.as_str(), "/health")
    }

    /// Where to send a request.
    pub fn completions_url(&self) -> (url: String)
        ensures
            url@ == self.base_url@ + "/v1/chat/completions"@,
    {
        join_two(self.base_url.as_str(), "/v1/chat/completions")
    }

    /// What to do about the server, given whether one that was started is still alive. It takes
    /// both files to start one.
    pub fn spawn_step(&self, alive: bool) -> (step: ServerStep)
        ensures
            step is Keep <==> alive,
            step is Start <==> !alive && !is_blank(self.model@) && !is_blank(self.mmproj_path@),
            step matches ServerStep::Fail(message) ==> message@ == if is_blank(self.model@) {
                "未配置 GGUF 模型路径（model 字段）"@
            } else {
                "未配置 mmproj 音频投影路径"@
            },
    {
        if alive {
            return ServerStep::Keep;
        }
        if blank(self.model.as_str()) {
            return ServerStep::Fail("未配置 GGUF 模型路径（model 字段）".to_owned());
        }
        if blank(self.mmproj_path.as_str()) {
            return ServerStep::Fail("未配置 mmproj 音频投影路径".to_owned());
        }
        ServerStep::Start
    }

    /// The arguments that the server is started with.
    pub fn server_arguments(&self) -> (arguments: Vec<String>)
        ensures
            crate::text::texts(arguments@) == seq![
                "-m"@,
                self.model@,
                "--mmproj"@,
                self.mmproj_path@,
                "-c"@,
                "2048"@,
                "-ngl"@,
                "99"@,
                "--host"@,
                "127.0.0.1"@,
                "--port"@,
                crate::text::decimal(SERVER_PORT as nat),
            ],
    {
        let mut arguments: Vec<String> = Vec::new();
        arguments.push("-m".to_owned());
        arguments.push(self.model.clone());
        arguments.push("--mmproj".to_owned());
        arguments.push(self.mmproj_path.clone());
        arguments.push("-c".to_owned());
        arguments.push("2048".to_owned());
        arguments.push("-ngl".to_owned());
        arguments.push("99".to_owned());
        arguments.push("--host".to_owned());
        arguments.push("127.0.0.1".to_owned());
        arguments.push("--port".to_owned());
        arguments.push(crate::text::decimal_of(SERVER_PORT as u64));
        assert(crate::text::texts(arguments@) =~= seq![
            "-m"@,
            self.model@,
            "--mmproj"@,
            self.mmproj_path@,
            "-c"@,
            "2048"@,
            "-ngl"@,
            "99"@,
            "--host"@,
            "127.0.0.1"@,
            "--port"@,
            crate::text::decimal(SERVER_PORT as nat),
        ]);
        arguments
    }

    /// The body of a request for the transcript of a WAV file.
    pub fn request_body(&self, wav: &Vec<u8>) -> (body: Json)
        requires
            base64_len(wav@.len() as int) <= isize::MAX,
        ensures
            body@ == JsonNode::Object(local_members(base64_text(wav@))),
    {
        let audio: String = audio_base64(wav);
        let data: Vec<(String, Json)> = with_member(
            with_member(no_members(), "data", json_text(audio.as_str())),
            "format",
            json_text("wav"),
        );
        assert(member_nodes(data@) =~= wav_part(audio@)->Object_0[1].1->Object_0);
        let part: Vec<(String, Json)> = with_member(
            with_member(no_members(), "type", json_text("input_audio")),
            "input_audio",
            json_object(data),
        );
        assert(member_nodes(part@) =~= wav_part(audio@)->Object_0);
        let parts: Vec<Json> = with_item(
            with_item(no_items(), instruction_part_json()),
            json_object(part),
        );
        assert(nodes(parts@) =~= seq![instruction_part(), wav_part(audio@)]);
        let messages: Vec<Json> = with_item(no_items(), user_parts_json(parts));
        assert(nodes(messages@) =~= local_members(audio@)[0].1->Array_0);
        let members: Vec<(String, Json)> = with_member(
            with_member(
                with_member(
                    with_member(no_members(), "messages", json_array(messages)),
                    "max_tokens",
                    Json::Unsigned(256),
                ),
                "temperature",
                Json::Unsigned(0),
            ),
            "stream",
            Json::Bool(false),
        );
        assert(member_nodes(members@) =~= local_members(audio@));
        json_object(members)
    }
}

/// What to do while the server is awaited, given whether it answers and how long it has been
/// awaited.
pub fn wait_step(answers: bool, waited_ms: u64) -> (step: WaitStep)
    ensures
        step is Ready <==> answers,
        step is Fail <==> !answers && waited_ms >= READY_TIMEOUT_MS,
        step matches WaitStep::AskAgain(after) ==> after == READY_POLL_INTERVAL_MS,
        step matches WaitStep::Fail(message) ==> message@ == "llama-server 未在超时时间内就绪"@,
{
    if answers {
        WaitStep::Ready
    } else if waited_ms >= READY_TIMEOUT_MS {
        WaitStep::Fail("llama-server 未在超时时间内就绪".to_owned())
    } else {
        WaitStep::AskAgain(READY_POLL_INTERVAL_MS)
    }
}

/// The text in a reply.
pub fn parse_content(body: &Json) -> (content: Result<String, &'static str>)
    ensures
        match message_content(body@) {
            Some(text) => content is Ok && content->Ok_0@ == text,
            None => content is Err && content->Err_0@
                == "llama-server 响应缺少 choices[0].message.content"@,
        },
{
    match message_content_of(body) {
        Some(text) => Ok(text.to_owned()),
        None => Err("llama-server 响应缺少 choices[0].message.content"),
    }
}

/// The transcript without its markup.
pub fn clean_transcript(raw: &str) -> (text: String)
    ensures
        text@ == untagged(raw@),
{
    let chars: Vec<char> = chars_of(raw);
    untag(&chars)
}

/// A request to the local server carries what is asked and then the sound, as a file, in one message
/// of the user; the answer is short, always the same, and not streamed.
pub proof fn law_sound_is_sent_to_the_local_server(audio: Seq<char>)
    ensures
        ({
            let body = JsonNode::Object(local_members(audio));
            let message = item_of(member(body, "messages"@), 0);
            let parts = member_of(message, "content"@);
            let sound = member_of(item_of(parts, 1), "input_audio"@);
            &&& member_of(message, "role"@) == Some(JsonNode::Text("user"@))
            &&& member_of(item_of(parts, 0), "type"@) == Some(JsonNode::Text("text"@))
            &&& member_of(item_of(parts, 1), "type"@) == Some(JsonNode::Text("input_audio"@))
            &&& member_of(sound, "data"@) == Some(JsonNode::Text(audio))
            &&& member_of(sound, "format"@) == Some(JsonNode::Text("wav"@))
            &&& member(body, "max_tokens"@) == Some(JsonNode::Unsigned(256))
            &&& member(body, "temperature"@) == Some(JsonNode::Unsigned(0))
            &&& member(body, "stream"@) == Some(JsonNode::Bool(false))
        }),
        SERVER_PORT == 8080,
        READY_TIMEOUT_MS == 60_000,
        READY_POLL_INTERVAL_MS == 500,
{
    reveal_with_fuel(member_from, 5);
    reveal_strlit("messages");
    reveal_strlit("max_tokens");
    reveal_strlit("temperature");
    reveal_strlit("stream");
    reveal_strlit("role");
    reveal_strlit("content");
    reveal_strlit("type");
    reveal_strlit("input_audio");
    reveal_strlit("data");
    reveal_strlit("format");
    reveal_strlit("text");
    assert("messages"@.len() == 8);
    assert("max_tokens"@.len() == 10);
    assert("temperature"@.len() == 11);
    assert("stream"@.len() == 6);
    assert("role"@.len() == 4);
    assert("content"@.len() == 7);
    assert("type"@.len() == 4);
    assert("input_audio"@.len() == 11);
    assert("data"@.len() == 4);
    assert("format"@.len() == 6);
    assert("text"@.len() == 4);
    assert("temperature"@[0] != "input_audio"@[0]);
    assert("stream"@[0] != "format"@[0]);
    assert("role"@[0] != "type"@[0]);
    assert("role"@[0] != "data"@[0]);
    assert("role"@[0] != "text"@[0]);
    assert("type"@[0] != "data"@[0]);
    assert("type"@[1] != "text"@[1]);
    assert("data"@[0] != "text"@[0]);
}

} // verus!
