//! Recognisers behind the transcription and chat endpoints of OpenAI.

use super::data_url::{audio_data_url, audio_url, MAX_AUDIO_DATA_URL_BYTES};
use super::{
    strip_asr_text_tags, untagged, AsrCapabilities, AsrExecutionMode, SttProvider,
    EMPTY_TRANSCRIPT_MESSAGE,
};
use crate::json::{
    get_of, item_at, item_of, json_array, json_object, json_text, member, member_from,
    member_nodes, member_of, no_items, no_members, nodes, parse, parsed, str_of, text_of,
    with_item, with_member, Json, JsonNode,
};
use crate::providers::config::ProviderId;
use crate::providers::credentials::ResolvedCredentials;
use crate::providers::retry::{refuses_non_stream, says_stream_only};
use crate::providers::sse::{
    data_lines, data_of, read_stream, stream_read, StreamOutcome, StreamRead,
};
use crate::text::{
    blank, chars_of, contains, contains_text, is_blank, is_white, is_whitespace,
    lemma_contains_middle, lemma_trim, lines, lowercase, prefix, string_of, trim,
    trim_chars, trim_end, trim_start, trim_text, views,
};
use vstd::prelude::*;

verus! {

/// The recogniser: the endpoint, the model and the key.
pub struct OpenAiCompatibleStt {
    pub base_url: String,
    pub model: String,
    pub api_key: String,
}

impl SttProvider for OpenAiCompatibleStt {
    fn id(&self) -> (id: ProviderId)
        ensures
            id == ProviderId::OpenAiCompatible,
    {
        ProviderId::OpenAiCompatible
    }

    fn capabilities(&self) -> (capabilities: AsrCapabilities)
        ensures
            capabilities == (AsrCapabilities {
                execution_mode: AsrExecutionMode::Batch,
                supports_language_hint: false,
                requires_wav_normalization: false,
                max_audio_duration_ms: None,
            }),
    {
        AsrCapabilities {
            execution_mode: AsrExecutionMode::Batch,
            supports_language_hint: false,
            requires_wav_normalization: false,
            max_audio_duration_ms: None,
        }
    }
}

// Audio in a chat.

/// A part of a message that is audio.
pub open spec fn audio_part(url: Seq<char>) -> JsonNode {
    JsonNode::Object(
        seq![
            ("type"@, JsonNode::Text("input_audio"@)),
            ("input_audio"@, JsonNode::Object(seq![("data"@, JsonNode::Text(url))])),
        ],
    )
}

/// A message of the user made of parts.
pub open spec fn user_parts(parts: Seq<JsonNode>) -> JsonNode {
    JsonNode::Object(
        seq![("role"@, JsonNode::Text("user"@)), ("content"@, JsonNode::Array(parts))],
    )
}

/// A part of a message that is audio.
pub fn audio_part_json(url: &str) -> (part: Json)
    ensures
        part@ == audio_part(url@),
{
    let data: Vec<(String, Json)> = with_member(no_members(), "data", json_text(url));
    assert(member_nodes(data@) =~= seq![("data"@, JsonNode::Text(url@))]);
    let members: Vec<(String, Json)> = with_member(
        with_member(no_members(), "type", json_text("input_audio")),
        "input_audio",
        json_object(data),
    );
    assert(member_nodes(members@) =~= audio_part(url@)->Object_0);
    json_object(members)
}

/// A message of the user made of parts.
pub fn user_parts_json(parts: Vec<Json>) -> (message: Json)
    ensures
        message@ == user_parts(nodes(parts@)),
{
    let members: Vec<(String, Json)> = with_member(
        with_member(no_members(), "role", json_text("user")),
        "content",
        json_array(parts),
    );
    assert(member_nodes(members@) =~= user_parts(nodes(parts@))->Object_0);
    json_object(members)
}

/// The members of a request for the transcript of an audio address. It holds nothing but the
/// audio: with an instruction beside it, some endpoints refuse the request.
pub open spec fn chat_audio_members(model: Seq<char>, url: Seq<char>) -> Seq<
    (Seq<char>, JsonNode),
> {
    seq![
        ("model"@, JsonNode::Text(model)),
        ("messages"@, JsonNode::Array(seq![user_parts(seq![audio_part(url)])])),
        ("stream"@, JsonNode::Bool(true)),
    ]
}

impl OpenAiCompatibleStt {
    /// The recogniser that the credentials are for.
    pub fn new(credentials: ResolvedCredentials) -> (stt: OpenAiCompatibleStt)
        ensures
            stt.base_url == credentials.base_url,
            stt.model == credentials.model,
            stt.api_key == credentials.api_key,
    {
        OpenAiCompatibleStt {
            base_url: credentials.base_url,
            model: credentials.model,
            api_key: credentials.api_key,
        }
    }

    /// The request that carries a WAV file in a chat, unless the file is too large for one.
    pub fn chat_audio_request(&self, wav: &Vec<u8>) -> (request: Result<Json, String>)
        ensures
            request is Ok <==> audio_url(wav@).len() <= MAX_AUDIO_DATA_URL_BYTES,
            match request {
                Ok(body) => body@ == JsonNode::Object(
                    chat_audio_members(self.model@, audio_url(wav@)),
                ),
                Err(message) => message@
                    == "Normalized audio exceeds the chat-audio Base64 size limit."@,
            },
    {
        let url: String = match audio_data_url(wav) {
            Some(url) => url,
            None => return Err(
                "Normalized audio exceeds the chat-audio Base64 size limit.".to_owned(),
            ),
        };
        let parts: Vec<Json> = with_item(no_items(), audio_part_json(url.as_str()));
        assert(nodes(parts@) =~= seq![audio_part(url@)]);
        let messages: Vec<Json> = with_item(no_items(), user_parts_json(parts));
        assert(nodes(messages@) =~= seq![user_parts(seq![audio_part(url@)])]);
        let members: Vec<(String, Json)> = with_member(
            with_member(
                with_member(no_members(), "model", json_text(self.model.as_str())),
                "messages",
                json_array(messages),
            ),
            "stream",
            Json::Bool(true),
        );
        assert(member_nodes(members@) =~= chat_audio_members(self.model@, url@));
        Ok(json_object(members))
    }
}

// Falling back to the chat.

/// A refused upload is worth repeating as audio in a chat: the endpoint has no uploads, or takes
/// nothing but streams, or complains of the form of the body. `value` is the body read as JSON and
/// `lower` is it in lower case.
pub open spec fn wants_chat_audio(
    status: u16,
    value: Option<JsonNode>,
    body: Seq<char>,
    lower: Seq<char>,
) -> bool {
    ||| status == 404 || status == 405 || status == 415
    ||| status == 400 && (refuses_non_stream(value, body) || contains(
        lower,
        "required body invalid"@,
    ) || contains(lower, "request body format"@))
}

/// Whether a refused upload is worth repeating as audio in a chat, given the body read as JSON and
/// in lower case.
pub fn suits_chat_audio(status: u16, value: &Option<Json>, body: &str, lower: &str) -> (yes: bool)
    ensures
        yes == wants_chat_audio(
            status,
            match value {
                Some(value) => Some(value@),
                None => None,
            },
            body@,
            lower@,
        ),
{
    if status == 404 || status == 405 || status == 415 {
        return true;
    }
    if status != 400 {
        return false;
    }
    if says_stream_only(value, body) {
        return true;
    }
    let chars: Vec<char> = chars_of(lower);
    contains_text(&chars, "required body invalid") || contains_text(&chars, "request body format")
}

/// Whether a refused upload is worth repeating as audio in a chat.
pub fn requires_chat_audio_streaming_retry(status: u16, body: &str) -> (yes: bool)
    ensures
        yes == wants_chat_audio(status, parsed(body@), body@, lowercase(body@)),
{
    let lower: String = body.to_lowercase();
    suits_chat_audio(status, &parse(body), body, lower.as_str())
}

/// Refusals for want of a right or of quota are never repeated.
pub proof fn law_other_refusals_stand(
    status: u16,
    value: Option<JsonNode>,
    body: Seq<char>,
    lower: Seq<char>,
)
    requires
        status == 401 || status == 402 || status == 403 || status == 429 || status >= 500,
    ensures
        !wants_chat_audio(status, value, body, lower),
{
}

// Reading a transcript.

/// The texts of parts, one after another.
pub open spec fn part_texts(parts: Seq<JsonNode>) -> Seq<char>
    decreases parts.len(),
{
    if parts.len() == 0 {
        Seq::empty()
    } else {
        part_texts(parts.drop_last()) + match text_of(member(parts.last(), "text"@)) {
            Some(text) => text,
            None => Seq::empty(),
        }
    }
}

/// Where the text of a choice is: in its message, or else in its delta, or else in itself.
pub open spec fn choice_content(choice: JsonNode) -> Option<JsonNode> {
    match member_of(member(choice, "message"@), "content"@) {
        Some(content) => Some(content),
        None => match member_of(member(choice, "delta"@), "content"@) {
            Some(content) => Some(content),
            None => member(choice, "text"@),
        },
    }
}

/// The transcript in a reply that came in one piece: a text, or the texts of parts.
pub open spec fn whole_transcript(value: JsonNode) -> Option<Seq<char>> {
    match item_of(member(value, "choices"@), 0) {
        Some(choice) => match choice_content(choice) {
            Some(JsonNode::Text(text)) => Some(text),
            Some(JsonNode::Array(parts)) => Some(part_texts(parts)),
            _ => None,
        },
        None => None,
    }
}

/// The transcript that a payload amounts to, given what its stream amounts to, whether any line of
/// it carried data, and what it is read as one JSON value.
pub open spec fn transcript_of(
    read: StreamRead,
    has_data: bool,
    value: Option<JsonNode>,
) -> Result<Seq<char>, Seq<char>> {
    match read {
        StreamRead::Invalid => Err(
            "Chat-audio streaming response contained an invalid SSE event."@,
        ),
        StreamRead::Rejected(code, message) => Err(
            "ASR provider rejected the request in-stream ("@ + code + "): "@ + message,
        ),
        StreamRead::Text(text) => if !is_blank(text) {
            Ok(untagged(trim(text)))
        } else if has_data || value is None {
            Err(EMPTY_TRANSCRIPT_MESSAGE@)
        } else {
            match whole_transcript(value->0) {
                Some(text) => if is_blank(text) {
                    Err(EMPTY_TRANSCRIPT_MESSAGE@)
                } else {
                    Ok(untagged(trim(text)))
                },
                None => Err(EMPTY_TRANSCRIPT_MESSAGE@),
            }
        },
    }
}

/// The result is the given one.
pub open spec fn is_result(
    result: Result<String, String>,
    expected: Result<Seq<char>, Seq<char>>,
) -> bool {
    match expected {
        Ok(text) => result is Ok && result->Ok_0@ == text,
        Err(message) => result is Err && result->Err_0@ == message,
    }
}

/// The transcript in a reply that came in one piece.
pub fn transcript_of_json(value: &Json) -> (text: Option<String>)
    ensures
        match text {
            Some(text) => whole_transcript(value@) == Some(text@),
            None => whole_transcript(value@) is None,
        },
{
    let choice: &Json = match item_at(value.get("choices"), 0) {
        Some(choice) => choice,
        None => return None,
    };
    let content: Option<&Json> = match get_of(choice.get("message"), "content") {
        Some(content) => Some(content),
        None => match get_of(choice.get("delta"), "content") {
            Some(content) => Some(content),
            None => choice.get("text"),
        },
    };
    let content: &Json = match content {
        Some(content) => content,
        None => return None,
    };
    match content.as_str() {
        Some(text) => return Some(text.to_owned()),
        None => {},
    }
    let parts: &Vec<Json> = match content.as_array() {
        Some(parts) => parts,
        None => return None,
    };
    let mut text: String = String::new();
    let mut i: usize = 0;
    assert(text@ =~= part_texts(nodes(parts@).take(0)));
    while i < parts.len()
        invariant
            i <= parts@.len(),
            text@ == part_texts(nodes(parts@).take(i as int)),
        decreases parts@.len() - i,
    {
        assert(nodes(parts@).take(i + 1).drop_last() =~= nodes(parts@).take(i as int));
        assert(nodes(parts@).take(i + 1).last() == parts@[i as int]@);
        match str_of(parts[i].get("text")) {
            Some(part) => text.append(part),
            None => {
                assert(text@ + Seq::<char>::empty() =~= text@);
            },
        }
        i = i + 1;
    }
    assert(nodes(parts@).take(parts@.len() as int) =~= nodes(parts@));
    Some(text)
}

/// The transcript in a payload that is one JSON value.
pub fn parse_json_transcript(payload: &str) -> (text: Option<String>)
    ensures
        ({
            let expected = match parsed(trim(payload@)) {
                Some(value) => whole_transcript(value),
                None => None,
            };
            match text {
                Some(text) => expected == Some(text@),
                None => expected is None,
            }
        }),
{
    let trimmed: String = trim_text(payload);
    match parse(trimmed.as_str()) {
        Some(value) => transcript_of_json(&value),
        None => None,
    }
}

/// Settles a transcript, given what the stream amounts to, whether any line carried data, and what
/// the payload is read as one JSON value.
pub fn settle_transcript(outcome: StreamOutcome, has_data: bool, value: Option<Json>) -> (result:
    Result<String, String>)
    ensures
        is_result(
            result,
            transcript_of(
                outcome@,
                has_data,
                match value {
                    Some(value) => Some(value@),
                    None => None,
                },
            ),
        ),
{
    let text: String = match outcome {
        StreamOutcome::Text(text) => text,
        StreamOutcome::Invalid => return Err(
            "Chat-audio streaming response contained an invalid SSE event.".to_owned(),
        ),
        StreamOutcome::Rejected { code, message } => {
            let mut told: String = "ASR provider rejected the request in-stream (".to_owned();
            told.append(code.as_str());
            told.append("): ");
            told.append(message.as_str());
            return Err(told);
        },
    };
    if !blank(text.as_str()) {
        return Ok(strip_asr_text_tags(text.as_str()));
    }
    if !has_data {
        if let Some(value) = value {
            if let Some(text) = transcript_of_json(&value) {
                if !blank(text.as_str()) {
                    return Ok(strip_asr_text_tags(text.as_str()));
                }
            }
        }
    }
    Err(EMPTY_TRANSCRIPT_MESSAGE.to_owned())
}

/// Reads the transcript from a payload: from the events of a stream, or, where an endpoint ignored
/// that a stream was asked for, from one JSON value.
pub fn parse_sse_transcript(payload: &str) -> (result: Result<String, String>)
    ensures
        is_result(
            result,
            transcript_of(
                stream_read(data_of(lines(payload@)), true),
                data_of(lines(payload@)).len() > 0,
                parsed(trim(payload@)),
            ),
        ),
{
    let all: Vec<Vec<char>> = data_lines(payload);
    let outcome: StreamOutcome = read_stream(&all, true);
    assert(views(all@).len() == all@.len());
    let trimmed: String = trim_text(payload);
    settle_transcript(outcome, all.len() > 0, parse(trimmed.as_str()))
}

// Showing a payload.

/// `s` with each white space as a blank.
pub open spec fn blanks(s: Seq<char>) -> Seq<char> {
    Seq::new(
        s.len(),
        |i: int|
            if is_white(s[i]) {
                ' '
            } else {
                s[i]
            },
    )
}

/// The head of a payload on one line.
pub open spec fn preview(payload: Seq<char>, limit: nat) -> Seq<char> {
    let head = trim(prefix(blanks(payload), limit));
    if head.len() == 0 {
        "<empty response body>"@
    } else {
        head
    }
}

/// The head of a payload on one line.
pub fn response_preview(payload: &str, limit: usize) -> (head: String)
    ensures
        head@ == preview(payload@, limit as nat),
{
    let chars: Vec<char> = chars_of(payload);
    let mut shown: Vec<char> = Vec::new();
    let mut i: usize = 0;
    while i < chars.len() && i < limit
        invariant
            i <= chars@.len(),
            i <= limit,
            shown@ == blanks(chars@).take(i as int),
        decreases chars@.len() - i,
    {
        shown.push(
            if is_whitespace(chars[i]) {
                ' '
            } else {
                chars[i]
            },
        );
        assert(shown@ =~= blanks(chars@).take(i + 1));
        i = i + 1;
    }
    assert(shown@ =~= prefix(blanks(chars@), limit as nat));
    let head: &[char] = trim_chars(&shown);
    if head.len() == 0 {
        "<empty response body>".to_owned()
    } else {
        string_of(head)
    }
}

/// What is shown of a payload is no longer than the limit, or says that there is nothing to show.
pub proof fn law_previews_are_bounded(payload: Seq<char>, limit: nat)
    ensures
        preview(payload, limit).len() <= limit || preview(payload, limit)
            == "<empty response body>"@,
{
    lemma_trim(prefix(blanks(payload), limit));
}

/// What is told of a payload without a transcript.
pub fn no_transcript_message(message: &str, payload: &str) -> (told: String)
    ensures
        told@ == message@ + " Response head: "@ + preview(payload@, 300),
{
    let mut told: String = message.to_owned();
    told.append(" Response head: ");
    told.append(response_preview(payload, 300).as_str());
    told
}

// What is asked and what is heard.

/// A request in a chat carries the sound in one message of the user, names the model and is streamed.
pub proof fn law_sound_is_sent_in_a_chat(model: Seq<char>, url: Seq<char>)
    ensures
        ({
            let body = JsonNode::Object(chat_audio_members(model, url));
            let message = item_of(member(body, "messages"@), 0);
            let part = item_of(member_of(message, "content"@), 0);
            &&& member(body, "model"@) == Some(JsonNode::Text(model))
            &&& member_of(message, "role"@) == Some(JsonNode::Text("user"@))
            &&& member_of(part, "type"@) == Some(JsonNode::Text("input_audio"@))
            &&& member_of(member_of(part, "input_audio"@), "data"@) == Some(JsonNode::Text(url))
            &&& member(body, "stream"@) == Some(JsonNode::Bool(true))
        }),
{
    reveal_with_fuel(member_from, 4);
    reveal_strlit("model");
    reveal_strlit("messages");
    reveal_strlit("stream");
    reveal_strlit("role");
    reveal_strlit("content");
    reveal_strlit("type");
    reveal_strlit("input_audio");
    reveal_strlit("data");
    assert("model"@.len() == 5);
    assert("messages"@.len() == 8);
    assert("stream"@.len() == 6);
    assert("role"@.len() == 4);
    assert("content"@.len() == 7);
    assert("type"@.len() == 4);
    assert("input_audio"@.len() == 11);
    assert("data"@.len() == 4);
    assert("role"@[0] != "type"@[0]);
    assert("role"@[0] != "data"@[0]);
    assert("type"@[0] != "data"@[0]);
}

/// Sound is sent once more in a chat where the endpoint does not know the request, or refuses its
/// form, in any of the words that are known for that.
pub proof fn law_unknown_forms_are_sent_in_a_chat(
    value: Option<JsonNode>,
    body: Seq<char>,
    lower: Seq<char>,
    a: Seq<char>,
    b: Seq<char>,
)
    ensures
        wants_chat_audio(404, value, body, lower),
        wants_chat_audio(405, value, body, lower),
        wants_chat_audio(415, value, body, lower),
        refuses_non_stream(value, body) ==> wants_chat_audio(400, value, body, lower),
        wants_chat_audio(400, value, body, a + "required body invalid"@ + b),
        wants_chat_audio(400, value, body, a + "request body format"@ + b),
        !refuses_non_stream(value, body) && !contains(lower, "required body invalid"@) && !contains(
            lower,
            "request body format"@,
        ) ==> !wants_chat_audio(400, value, body, lower),
        !wants_chat_audio(200, value, body, lower),
{
    lemma_contains_middle(a, "required body invalid"@, b);
    lemma_contains_middle(a, "request body format"@, b);
}

/// What a choice says is what its message says, or else its piece, or else its text.
pub proof fn law_what_a_choice_says(
    choice: JsonNode,
    message: JsonNode,
    delta: JsonNode,
    content: JsonNode,
)
    ensures
        member(choice, "message"@) == Some(message) && member(message, "content"@) == Some(content)
            ==> choice_content(choice) == Some(content),
        member(choice, "message"@) is None && member(choice, "delta"@) == Some(delta) && member(
            delta,
            "content"@,
        ) == Some(content) ==> choice_content(choice) == Some(content),
        member(choice, "message"@) is None && member(choice, "delta"@) is None ==> choice_content(
            choice,
        ) == member(choice, "text"@),
{
}

/// The texts of parts are joined in order, each as it is, and a part without one adds nothing.
pub proof fn law_texts_of_parts_are_joined(
    a: Seq<JsonNode>,
    part: JsonNode,
    text: Seq<char>,
    b: Seq<JsonNode>,
)
    ensures
        part_texts(a + b) == part_texts(a) + part_texts(b),
        member(part, "text"@) == Some(JsonNode::Text(text)) ==> part_texts(seq![part]) == text,
        member(part, "text"@) is None ==> part_texts(seq![part]).len() == 0,
    decreases b.len(),
{
    let none = Seq::<JsonNode>::empty();
    assert(part_texts(none) =~= Seq::<char>::empty());
    assert(seq![part].drop_last() =~= none);
    assert(seq![part].last() == part);
    assert(Seq::<char>::empty() + text =~= text);
    if b.len() == 0 {
        assert(a + b =~= a);
        assert(part_texts(a) + part_texts(b) =~= part_texts(a));
    } else {
        law_texts_of_parts_are_joined(a, part, text, b.drop_last());
        assert((a + b).drop_last() =~= a + b.drop_last());
        assert(part_texts(a + b) =~= part_texts(a) + part_texts(b));
    }
}

/// The transcript of a whole reply is that of its first choice, in one text or in parts.
pub proof fn law_whole_replies_are_read(
    value: JsonNode,
    choices: Seq<JsonNode>,
    text: Seq<char>,
    parts: Seq<JsonNode>,
)
    requires
        member(value, "choices"@) == Some(JsonNode::Array(choices)),
    ensures
        choices.len() > 0 && choice_content(choices[0]) == Some(JsonNode::Text(text))
            ==> whole_transcript(value) == Some(text),
        choices.len() > 0 && choice_content(choices[0]) == Some(JsonNode::Array(parts))
            ==> whole_transcript(value) == Some(part_texts(parts)),
        choices.len() > 0 && choice_content(choices[0]) is None ==> whole_transcript(value) is None,
        choices.len() == 0 ==> whole_transcript(value) is None,
{
}

/// What was heard is the text of the stream, without its markup; or, where the reply was no stream,
/// the text of the whole reply. Where nothing was said, and where the provider refused, that is told.
pub proof fn law_what_was_heard(
    text: Seq<char>,
    code: Seq<char>,
    message: Seq<char>,
    has_data: bool,
    value: Option<JsonNode>,
    whole: JsonNode,
    said: Seq<char>,
)
    ensures
        !is_blank(text) ==> transcript_of(StreamRead::Text(text), has_data, value) == Ok::<
            Seq<char>,
            Seq<char>,
        >(untagged(trim(text))),
        transcript_of(StreamRead::Rejected(code, message), has_data, value) == Err::<
            Seq<char>,
            Seq<char>,
        >("ASR provider rejected the request in-stream ("@ + code + "): "@ + message),
        transcript_of(StreamRead::Invalid, has_data, value) is Err,
        is_blank(text) && has_data ==> transcript_of(StreamRead::Text(text), has_data, value) is Err,
        is_blank(text) && whole_transcript(whole) == Some(said) && !is_blank(said) ==> transcript_of(
            StreamRead::Text(text),
            false,
            Some(whole),
        ) == Ok::<Seq<char>, Seq<char>>(untagged(trim(said))),
        is_blank(text) ==> transcript_of(StreamRead::Text(text), false, None) is Err,
{
}

/// The start of a reply is shown as it is, on one line, and is cut only where it is too long.
pub proof fn law_the_start_of_a_reply_is_shown(payload: Seq<char>, limit: nat, i: int)
    requires
        payload.len() > 0,
        !is_white(payload[0]),
        !is_white(payload.last()),
    ensures
        payload.len() <= limit ==> preview(payload, limit).len() == payload.len(),
        payload.len() <= limit && 0 <= i < payload.len() ==> preview(payload, limit)[i] == if is_white(
            payload[i],
        ) {
            ' '
        } else {
            payload[i]
        },
        preview(Seq::empty(), limit) == "<empty response body>"@,
{
    let line = blanks(payload);
    assert(line[0] == payload[0] && line.last() == payload.last());
    if payload.len() <= limit {
        assert(trim(line) == line);
    }
    assert(blanks(Seq::<char>::empty()).len() == 0);
    assert(trim(prefix(blanks(Seq::<char>::empty()), limit)).len() == 0);
}

/// A result is what was to be told: the text, or the reason why there is none.
pub proof fn law_results_are_what_was_to_be_told(
    result: Result<String, String>,
    told: Seq<char>,
)
    ensures
        is_result(result, Ok(told)) <==> result is Ok && result->Ok_0@ == told,
        is_result(result, Err(told)) <==> result is Err && result->Err_0@ == told,
{
}

/// No other reply makes a clip be sent in a chat.
pub proof fn law_other_replies_stand(
    status: u16,
    value: Option<JsonNode>,
    body: Seq<char>,
    lower: Seq<char>,
)
    requires
        status != 400 && status != 404 && status != 405 && status != 415,
    ensures
        !wants_chat_audio(status, value, body, lower),
{
}

/// Where the message of a choice says nothing, what it adds is looked at, and then the choice itself.
pub proof fn law_where_a_choice_says_it(choice: JsonNode, message: JsonNode, delta: JsonNode)
    requires
        member(choice, "message"@) == Some(message),
        member(message, "content"@) is None,
        member(choice, "delta"@) == Some(delta),
    ensures
        member(delta, "content"@) is Some ==> choice_content(choice) == member(delta, "content"@),
        member(delta, "content"@) is None ==> choice_content(choice) == member(choice, "text"@),
{
}

} // verus!
