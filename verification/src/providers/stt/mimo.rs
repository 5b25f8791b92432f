//! The recogniser of Xiaomi.

use super::data_url::{audio_data_url, audio_url, MAX_AUDIO_DATA_URL_BYTES};
use super::openai_compatible::{audio_part, audio_part_json, user_parts, user_parts_json};
use super::{
    strip_asr_text_tags, untagged, AsrCapabilities, AsrExecutionMode, SttProvider,
    TRANSCRIBE_INSTRUCTION,
};
use crate::json::{
    item_of, json_array, json_object, json_text, member, member_from, member_nodes,
    member_of, no_items, no_members, nodes, with_item, with_member, Json, JsonNode,
};
use crate::providers::config::ProviderId;
use crate::providers::credentials::ResolvedCredentials;
use crate::providers::llm::openai_compatible::{message_content, message_content_of};
use crate::text::trim;
use vstd::prelude::*;

verus! {

/// The recogniser: the endpoint, the model and the key.
pub struct MimoStt {
    pub base_url: String,
    pub model: String,
    pub api_key: String,
}

impl SttProvider for MimoStt {
    fn id(&self) -> (id: ProviderId)
        ensures
            id == ProviderId::XiaomiMimo,
    {
        ProviderId::XiaomiMimo
    }

    fn capabilities(&self) -> (capabilities: AsrCapabilities)
        ensures
            capabilities == (AsrCapabilities {
                execution_mode: AsrExecutionMode::Batch,
                supports_language_hint: true,
                requires_wav_normalization: true,
                max_audio_duration_ms: Some(180_000),
            }),
    {
        AsrCapabilities {
            execution_mode: AsrExecutionMode::Batch,
            supports_language_hint: true,
            requires_wav_normalization: true,
            max_audio_duration_ms: Some(180_000),
        }
    }
}

/// A part of a message that tells the recogniser to write nothing but the transcript.
pub open spec fn instruction_part() -> JsonNode {
    JsonNode::Object(
        seq![
            ("type"@, JsonNode::Text("text"@)),
            ("text"@, JsonNode::Text(TRANSCRIBE_INSTRUCTION@)),
        ],
    )
}

/// A part of a message that tells the recogniser to write nothing but the transcript.
pub fn instruction_part_json() -> (part: Json)
    ensures
        part@ == instruction_part(),
{
    let members: Vec<(String, Json)> = with_member(
        with_member(no_members(), "type", json_text("text")),
        "text",
        json_text(TRANSCRIBE_INSTRUCTION),
    );
    assert(member_nodes(members@) =~= instruction_part()->Object_0);
    json_object(members)
}

/// The members of a request for the transcript of an audio address.
pub open spec fn mimo_members(model: Seq<char>, url: Seq<char>) -> Seq<(Seq<char>, JsonNode)> {
    seq![
        ("model"@, JsonNode::Text(model)),
        (
            "messages"@,
            JsonNode::Array(seq![user_parts(seq![audio_part(url), instruction_part()])]),
        ),
        ("asr_options"@, JsonNode::Object(seq![("language"@, JsonNode::Text("auto"@))])),
        ("stream"@, JsonNode::Bool(false)),
    ]
}

impl MimoStt {
    /// The recogniser that the credentials are for.
    pub fn new(credentials: ResolvedCredentials) -> (stt: MimoStt)
        ensures
            stt.base_url == credentials.base_url,
            stt.model == credentials.model,
            stt.api_key == credentials.api_key,
    {
        MimoStt {
            base_url: credentials.base_url,
            model: credentials.model,
            api_key: credentials.api_key,
        }
    }

    /// The body of a request for the transcript of an audio address.
    pub fn request_body(&self, audio_data_url: &str) -> (body: Json)
        ensures
            body@ == JsonNode::Object(mimo_members(self.model@, audio_data_url@)),
    {
        let parts: Vec<Json> = with_item(
            with_item(no_items(), audio_part_json(audio_data_url)),
            instruction_part_json(),
        );
        assert(nodes(parts@) =~= seq![audio_part(audio_data_url@), instruction_part()]);
        let messages: Vec<Json> = with_item(no_items(), user_parts_json(parts));
        let options: Vec<(String, Json)> = with_member(
            no_members(),
            "language",
            json_text("auto"),
        );
        let ghost expected = mimo_members(self.model@, audio_data_url@);
        assert(nodes(messages@) =~= expected[1].1->Array_0);
        assert(member_nodes(options@) =~= expected[2].1->Object_0);
        let members: Vec<(String, Json)> = with_member(
            with_member(
                with_member(
                    with_member(no_members(), "model", json_text(self.model.as_str())),
                    "messages",
                    json_array(messages),
                ),
                "asr_options",
                json_object(options),
            ),
            "stream",
            Json::Bool(false),
        );
        assert(member_nodes(members@) =~= expected);
        json_object(members)
    }

    /// The request that carries a WAV file, unless the file is too large for one.
    pub fn request(&self, wav: &Vec<u8>) -> (request: Result<Json, String>)
        ensures
            request is Ok <==> audio_url(wav@).len() <= MAX_AUDIO_DATA_URL_BYTES,
            match request {
                Ok(body) => body@ == JsonNode::Object(
                    mimo_members(self.model@, audio_url(wav@)),
                ),
                Err(message) => message@ == "Normalized audio exceeds MiMo's 10 MB Base64 limit."@,
            },
    {
        match audio_data_url(wav) {
            Some(url) => Ok(self.request_body(url.as_str())),
            None => Err("Normalized audio exceeds MiMo's 10 MB Base64 limit.".to_owned()),
        }
    }
}

/// The transcript in a reply.
pub fn parse_transcript(body: &Json) -> (transcript: Result<String, &'static str>)
    ensures
        match message_content(body@) {
            Some(raw) => transcript is Ok && transcript->Ok_0@ == untagged(trim(raw)),
            None => transcript is Err && transcript->Err_0@
                == "MiMo response missing choices[0].message.content"@,
        },
{
    match message_content_of(body) {
        Some(raw) => Ok(strip_asr_text_tags(raw)),
        None => Err("MiMo response missing choices[0].message.content"),
    }
}

/// A request to recognise carries the sound and then what is asked of it, in one message of the user,
/// names the model, leaves the language open and is not streamed.
pub proof fn law_sound_is_sent_with_its_instruction(model: Seq<char>, url: Seq<char>)
    ensures
        ({
            let body = JsonNode::Object(mimo_members(model, url));
            let message = item_of(member(body, "messages"@), 0);
            let parts = member_of(message, "content"@);
            &&& member(body, "model"@) == Some(JsonNode::Text(model))
            &&& member_of(message, "role"@) == Some(JsonNode::Text("user"@))
            &&& member_of(item_of(parts, 0), "type"@) == Some(JsonNode::Text("input_audio"@))
            &&& member_of(member_of(item_of(parts, 0), "input_audio"@), "data"@) == Some(
                JsonNode::Text(url),
            )
            &&& member_of(item_of(parts, 1), "type"@) == Some(JsonNode::Text("text"@))
            &&& member_of(item_of(parts, 1), "text"@) == Some(JsonNode::Text(TRANSCRIBE_INSTRUCTION@))
            &&& member_of(member(body, "asr_options"@), "language"@) == Some(JsonNode::Text("auto"@))
            &&& member(body, "stream"@) == Some(JsonNode::Bool(false))
        }),
{
    reveal_with_fuel(member_from, 5);
    reveal_strlit("model");
    reveal_strlit("messages");
    reveal_strlit("asr_options");
    reveal_strlit("stream");
    reveal_strlit("role");
    reveal_strlit("content");
    reveal_strlit("type");
    reveal_strlit("input_audio");
    reveal_strlit("data");
    reveal_strlit("text");
    reveal_strlit("language");
    assert("model"@.len() == 5);
    assert("messages"@.len() == 8);
    assert("asr_options"@.len() == 11);
    assert("stream"@.len() == 6);
    assert("role"@.len() == 4);
    assert("content"@.len() == 7);
    assert("type"@.len() == 4);
    assert("input_audio"@.len() == 11);
    assert("data"@.len() == 4);
    assert("text"@.len() == 4);
    assert("language"@.len() == 8);
    assert("messages"@[0] != "language"@[0]);
    assert("asr_options"@[0] != "input_audio"@[0]);
    assert("role"@[0] != "type"@[0]);
    assert("role"@[0] != "data"@[0]);
    assert("role"@[0] != "text"@[0]);
    assert("type"@[0] != "data"@[0]);
    assert("type"@[1] != "text"@[1]);
    assert("data"@[0] != "text"@[0]);
}

} // verus!
