//! The adapter for endpoints that take the chat completion requests of OpenAI.

use super::{
    kind_label, kind_of, normalize_kind, AssistantSuggestion, ChatMessage, ChatRole,
    KIND_KNOWLEDGE, LlmCapabilities, RejectedEndpoints, ThinkingControl,
};
use crate::json::{
    get_of, item_at, item_of, json_array, json_object, json_text, member, member_from,
    member_nodes, member_of, no_items, no_members, nodes, parsed, str_of, text_of,
    with_item, with_member, Json, JsonNode,
};
use crate::providers::config::ProviderId;
use crate::providers::credentials::ResolvedCredentials;
use crate::providers::retry::{is_success, refuses_non_stream, requires_streaming_retry};
use crate::providers::sse::{
    data_lines, data_of, read_stream, stream_read, StreamOutcome, StreamRead,
};
use crate::text::{
    blank, chars_of, contains, contains_text, is_blank, is_white, law_stripped_texts, lines,
    occurs_at, starts_with, string_of, strip_prefix, strip_prefix_text, strip_suffix,
    strip_suffix_text, trim, trim_chars, trim_end, trim_start, trim_start_chars, trim_text,
};
use vstd::prelude::*;

verus! {

// Requests.

/// The bits of three tenths in single precision: how freely the model may word an answer.
pub const TEMPERATURE_TEXT: u32 = 0x3e99_999a;

/// A message as a request carries it.
pub open spec fn message_node(role: Seq<char>, content: Seq<char>) -> JsonNode {
    JsonNode::Object(
        seq![("role"@, JsonNode::Text(role)), ("content"@, JsonNode::Text(content))],
    )
}

/// The messages of a conversation as a request carries them.
pub open spec fn chat_nodes(messages: Seq<ChatMessage>) -> Seq<JsonNode> {
    messages.map_values(|message: ChatMessage| message_node(message.role.name(), message.content@))
}

/// The messages of a request: the system prompt first, then the conversation.
pub open spec fn conversation(system_prompt: Seq<char>, messages: Seq<ChatMessage>) -> Seq<
    JsonNode,
> {
    seq![message_node("system"@, system_prompt)] + chat_nodes(messages)
}

/// A message as a request carries it.
pub fn message_json(role: &str, content: &str) -> (json: Json)
    ensures
        json@ == message_node(role@, content@),
{
    let members: Vec<(String, Json)> = with_member(
        with_member(no_members(), "role", json_text(role)),
        "content",
        json_text(content),
    );
    assert(member_nodes(members@) =~= message_node(role@, content@)->Object_0);
    json_object(members)
}

/// The messages of a request: the system prompt first, then the conversation.
pub fn conversation_json(system_prompt: &str, messages: &Vec<ChatMessage>) -> (items: Vec<Json>)
    ensures
        nodes(items@) == conversation(system_prompt@, messages@),
{
    let mut items: Vec<Json> = with_item(no_items(), message_json("system", system_prompt));
    let mut i: usize = 0;
    assert(nodes(items@) =~= conversation(system_prompt@, messages@.take(0)));
    while i < messages.len()
        invariant
            i <= messages@.len(),
            nodes(items@) == conversation(system_prompt@, messages@.take(i as int)),
        decreases messages@.len() - i,
    {
        let message: Json = message_json(
            messages[i].role.as_str(),
            messages[i].content.as_str(),
        );
        items = with_item(items, message);
        assert(nodes(items@) =~= conversation(system_prompt@, messages@.take(i + 1)));
        i = i + 1;
    }
    assert(messages@.take(messages@.len() as int) =~= messages@);
    items
}

/// The members of a request; the last one where the reasoning step is switched off.
pub open spec fn request_members(
    model: Seq<char>,
    messages: Seq<JsonNode>,
    temperature: u32,
    stream: bool,
    thinking_off: bool,
) -> Seq<(Seq<char>, JsonNode)> {
    let members = seq![
        ("model"@, JsonNode::Text(model)),
        ("messages"@, JsonNode::Array(messages)),
        ("temperature"@, JsonNode::Single(temperature)),
        ("stream"@, JsonNode::Bool(stream)),
    ];
    if thinking_off {
        members.push(("enable_thinking"@, JsonNode::Bool(false)))
    } else {
        members
    }
}

/// The adapter: the endpoint, the model and the key.
pub struct OpenAiCompatibleLlm {
    pub base_url: String,
    pub model: String,
    pub api_key: String,
}

impl OpenAiCompatibleLlm {
    /// The model that the credentials are for.
    pub fn new(credentials: ResolvedCredentials) -> (llm: OpenAiCompatibleLlm)
        ensures
            llm.base_url == credentials.base_url,
            llm.model == credentials.model,
            llm.api_key == credentials.api_key,
    {
        OpenAiCompatibleLlm {
            base_url: credentials.base_url,
            model: credentials.model,
            api_key: credentials.api_key,
        }
    }

    /// Which provider this is.
    pub fn id(&self) -> (id: ProviderId)
        ensures
            id == ProviderId::OpenAiCompatible,
    {
        ProviderId::OpenAiCompatible
    }

    /// What the model can do.
    pub fn capabilities(&self) -> (capabilities: LlmCapabilities)
        ensures
            capabilities.supports_streaming,
            capabilities.thinking_control == if contains(self.base_url@, "siliconflow"@) {
                ThinkingControl::ProviderSpecific
            } else {
                ThinkingControl::Unsupported
            },
    {
        let url: Vec<char> = chars_of(self.base_url.as_str());
        LlmCapabilities {
            supports_streaming: true,
            thinking_control: if contains_text(&url, "siliconflow") {
                ThinkingControl::ProviderSpecific
            } else {
                ThinkingControl::Unsupported
            },
        }
    }

    /// The body of a request. The reasoning step is switched off only where the endpoint knows the
    /// switch.
    pub fn request_body(
        &self,
        system_prompt: &str,
        messages: &Vec<ChatMessage>,
        temperature: u32,
        disable_reasoning: bool,
        stream: bool,
    ) -> (body: Json)
        ensures
            body@ == JsonNode::Object(
                request_members(
                    self.model@,
                    conversation(system_prompt@, messages@),
                    temperature,
                    stream,
                    disable_reasoning && contains(self.base_url@, "siliconflow"@),
                ),
            ),
    {
        let mut members: Vec<(String, Json)> = no_members();
        members = with_member(members, "model", json_text(self.model.as_str()));
        members = with_member(
            members,
            "messages",
            json_array(conversation_json(system_prompt, messages)),
        );
        members = with_member(members, "temperature", Json::Single(temperature));
        members = with_member(members, "stream", Json::Bool(stream));
        let url: Vec<char> = chars_of(self.base_url.as_str());
        if disable_reasoning && contains_text(&url, "siliconflow") {
            members = with_member(members, "enable_thinking", Json::Bool(false));
        }
        assert(member_nodes(members@) =~= request_members(
            self.model@,
            conversation(system_prompt@, messages@),
            temperature,
            stream,
            disable_reasoning && contains(self.base_url@, "siliconflow"@),
        ));
        json_object(members)
    }
}

// Choosing between an answer in one piece and a stream.

/// How an answer is asked for.
#[derive(Debug, Clone, Copy, PartialEq, Eq, Structural)]
pub enum Transport {
    /// In one piece.
    Whole,
    /// As a stream.
    Stream,
}

/// How to ask first, given the endpoints that are known to take nothing but streams: as a stream
/// where that is wanted or the endpoint is one of those.
pub open spec fn chosen_transport(
    stream_only: Set<Seq<char>>,
    base_url: Seq<char>,
    stream: bool,
) -> Transport {
    if stream || stream_only.contains(base_url) {
        Transport::Stream
    } else {
        Transport::Whole
    }
}

/// How to ask first.
pub fn first_transport(memory: &RejectedEndpoints, base_url: &str, stream: bool) -> (transport:
    Transport)
    ensures
        transport == chosen_transport(memory@, base_url@, stream),
{
    if stream || memory.non_stream_known_unsupported(base_url) {
        Transport::Stream
    } else {
        Transport::Whole
    }
}

/// What to do with a reply.
#[derive(Debug, Clone, Copy, PartialEq, Eq, Structural)]
pub enum ReplyStep {
    /// Read the answer.
    Read,
    /// Send the request once more, as a stream.
    RetryStreaming,
    /// Give up.
    Fail,
}

/// What to do with a reply to a request for an answer in one piece. An endpoint that refuses every
/// such request is remembered, so that the round trip is paid once.
pub fn after_whole_reply(
    memory: &mut RejectedEndpoints,
    base_url: &str,
    status: u16,
    body: &str,
) -> (step: ReplyStep)
    requires
        old(memory).wf(),
    ensures
        final(memory).wf(),
        step == if is_success(status) {
            ReplyStep::Read
        } else if status == 400 && refuses_non_stream(parsed(body@), body@) {
            ReplyStep::RetryStreaming
        } else {
            ReplyStep::Fail
        },
        final(memory)@ == if step == ReplyStep::RetryStreaming {
            old(memory)@.insert(base_url@)
        } else {
            old(memory)@
        },
{
    if 200 <= status && status < 300 {
        return ReplyStep::Read;
    }
    if requires_streaming_retry(status, body) {
        memory.remember_non_stream_rejected(base_url);
        return ReplyStep::RetryStreaming;
    }
    ReplyStep::Fail
}

/// Once an endpoint has been remembered, requests to it are streams, and requests to any other
/// endpoint are asked for as they were before.
pub proof fn law_refused_endpoints_are_streamed(
    before: Set<Seq<char>>,
    base_url: Seq<char>,
    other: Seq<char>,
    stream: bool,
)
    ensures
        chosen_transport(before.insert(base_url), base_url, stream) == Transport::Stream,
        other != base_url ==> chosen_transport(before.insert(base_url), other, stream)
            == chosen_transport(before, other, stream),
{
}

/// What is told of a request that failed.
pub fn request_failed(status: &str, body: &str) -> (message: String)
    ensures
        message@ == "LLM request failed: "@ + status@ + " "@ + body@,
{
    let mut message: String = "LLM request failed: ".to_owned();
    message.append(status);
    message.append(" ");
    message.append(body);
    message
}

/// What is told of a streaming request that failed.
pub fn streaming_failed(status: &str, body: &str) -> (message: String)
    ensures
        message@ == "LLM streaming retry failed: "@ + status@ + " "@ + body@,
{
    let mut message: String = "LLM streaming retry failed: ".to_owned();
    message.append(status);
    message.append(" ");
    message.append(body);
    message
}

// Answers.

/// The answer in a reply that came in one piece: `choices[0].message.content`.
pub open spec fn message_content(value: JsonNode) -> Option<Seq<char>> {
    text_of(member_of(member_of(item_of(member(value, "choices"@), 0), "message"@), "content"@))
}

/// The answer in a reply that came in one piece.
pub fn message_content_of(value: &Json) -> (content: Option<&str>)
    ensures
        match content {
            Some(content) => message_content(value@) == Some(content@),
            None => message_content(value@) is None,
        },
{
    str_of(get_of(get_of(item_at(value.get("choices"), 0), "message"), "content"))
}

/// The trimmed answer in a reply that came in one piece.
pub fn parse_non_stream_response(value: &Json) -> (content: Result<String, String>)
    ensures
        match message_content(value@) {
            Some(text) => content is Ok && content->Ok_0@ == trim(text),
            None => content is Err && content->Err_0@
                == "LLM response missing choices[0].message.content"@,
        },
{
    match message_content_of(value) {
        Some(content) => Ok(trim_text(content)),
        None => Err("LLM response missing choices[0].message.content".to_owned()),
    }
}

/// The answer that a stream amounts to.
pub fn settle_stream(outcome: StreamOutcome) -> (content: Result<String, String>)
    ensures
        match outcome@ {
            StreamRead::Text(text) => if is_blank(text) {
                content is Err && content->Err_0@
                    == "LLM streaming response contained no choices[0].delta.content"@
            } else {
                content is Ok && content->Ok_0@ == trim(text)
            },
            _ => content is Err && content->Err_0@
                == "LLM streaming response contained an invalid SSE event"@,
        },
{
    match outcome {
        StreamOutcome::Text(text) => if blank(text.as_str()) {
            Err("LLM streaming response contained no choices[0].delta.content".to_owned())
        } else {
            Ok(trim_text(text.as_str()))
        },
        _ => Err("LLM streaming response contained an invalid SSE event".to_owned()),
    }
}

/// Joins the events of a finished stream into one answer.
pub fn parse_sse_content(payload: &str) -> (content: Result<String, String>)
    ensures
        match stream_read(data_of(lines(payload@)), false) {
            StreamRead::Text(text) => if is_blank(text) {
                content is Err && content->Err_0@
                    == "LLM streaming response contained no choices[0].delta.content"@
            } else {
                content is Ok && content->Ok_0@ == trim(text)
            },
            _ => content is Err && content->Err_0@
                == "LLM streaming response contained an invalid SSE event"@,
        },
{
    let all: Vec<Vec<char>> = data_lines(payload);
    settle_stream(read_stream(&all, false))
}

// Suggestions.

/// The most bullets that any kind of answer promises. It is a ceiling against a model that does
/// not stop, not a length to aim at.
pub const MAX_BULLETS: usize = 5;

/// What stands inside a code fence around the whole of a text, or the trimmed text where there is
/// none.
pub open spec fn unfenced(content: Seq<char>) -> Seq<char> {
    let trimmed = trim(content);
    match strip_prefix(trimmed, "```"@) {
        Some(rest) => {
            let unlabelled = match strip_prefix(rest, "json"@) {
                Some(rest) => rest,
                None => match strip_prefix(rest, "JSON"@) {
                    Some(rest) => rest,
                    None => rest,
                },
            };
            let body = trim_start(unlabelled);
            match strip_suffix(body, "```"@) {
                Some(inner) => trim(inner),
                None => trim(body),
            }
        },
        None => trimmed,
    }
}

/// Takes a JSON code fence off a text.
pub fn strip_json_code_fence(content: &str) -> (inner: String)
    ensures
        inner@ == unfenced(content@),
{
    let chars: Vec<char> = chars_of(content);
    let trimmed: &[char] = trim_chars(&chars);
    match strip_prefix_text(trimmed, "```") {
        Some(rest) => {
            let unlabelled: &[char] = match strip_prefix_text(rest, "json") {
                Some(rest) => rest,
                None => match strip_prefix_text(rest, "JSON") {
                    Some(rest) => rest,
                    None => rest,
                },
            };
            let body: &[char] = trim_start_chars(unlabelled);
            match strip_suffix_text(body, "```") {
                Some(inner) => string_of(trim_chars(inner)),
                None => string_of(trim_chars(body)),
            }
        },
        None => string_of(trimmed),
    }
}

/// `suggestion` is a reply in prose: one paragraph to say, whole, and never coaching.
pub open spec fn is_prose(suggestion: AssistantSuggestion, text: Seq<char>) -> bool {
    &&& suggestion.answer@ == trim(text)
    &&& suggestion.bullets@.len() == 0
    &&& suggestion.clarifying_question is None
    &&& suggestion.kind@ == KIND_KNOWLEDGE@
}

/// Keeps a reply in prose as one paragraph.
pub fn prose_as_suggestion(text: &str) -> (suggestion: AssistantSuggestion)
    ensures
        is_prose(suggestion, text@),
{
    AssistantSuggestion {
        answer: trim_text(text),
        bullets: Vec::new(),
        clarifying_question: None,
        kind: KIND_KNOWLEDGE.to_owned(),
    }
}

/// Settles what the model replied, given the suggestion that the unfenced reply reads as, if any.
/// A reply that reads as none is prose.
pub fn settle_suggestion(read: Option<AssistantSuggestion>, content: &str) -> (suggestion:
    AssistantSuggestion)
    ensures
        match read {
            Some(read) => {
                &&& suggestion.answer == read.answer
                &&& suggestion.bullets@ == if read.bullets@.len() <= MAX_BULLETS {
                    read.bullets@
                } else {
                    read.bullets@.take(MAX_BULLETS as int)
                }
                &&& suggestion.clarifying_question == read.clarifying_question
                &&& suggestion.kind@ == kind_of(kind_label(Some(read.kind@)))
            },
            None => is_prose(suggestion, content@),
        },
        suggestion.bullets@.len() <= MAX_BULLETS,
{
    match read {
        Some(read) => {
            let mut bullets: Vec<String> = read.bullets;
            bullets.truncate(MAX_BULLETS);
            let kind: String = normalize_kind(Some(read.kind.as_str()));
            AssistantSuggestion {
                answer: read.answer,
                bullets,
                clarifying_question: read.clarifying_question,
                kind,
            }
        },
        None => prose_as_suggestion(content),
    }
}

// What a request and a reply say.

/// A conversation starts with the prompt and goes on with every message, in order, with who said it
/// and what.
pub proof fn law_conversations_are_sent_in_order(
    system_prompt: Seq<char>,
    messages: Seq<ChatMessage>,
    i: int,
)
    requires
        0 <= i < messages.len(),
    ensures
        ({
            let sent = conversation(system_prompt, messages);
            &&& sent.len() == messages.len() + 1
            &&& member(sent[0], "role"@) == Some(JsonNode::Text("system"@))
            &&& member(sent[0], "content"@) == Some(JsonNode::Text(system_prompt))
            &&& member(sent[i + 1], "content"@) == Some(JsonNode::Text(messages[i].content@))
            &&& messages[i].role == ChatRole::User ==> member(sent[i + 1], "role"@) == Some(
                JsonNode::Text("user"@),
            )
            &&& messages[i].role == ChatRole::Assistant ==> member(sent[i + 1], "role"@) == Some(
                JsonNode::Text("assistant"@),
            )
        }),
        conversation(system_prompt, Seq::empty()).len() == 1,
{
    reveal_with_fuel(member_from, 3);
    reveal_strlit("role");
    reveal_strlit("content");
    assert("role"@.len() == 4);
    assert("content"@.len() == 7);
}

/// A request says what is asked: the model, all messages, how free the answer may be and whether it
/// is streamed, and that there is to be no thinking exactly where that is wanted.
pub proof fn law_a_request_says_what_is_asked(
    model: Seq<char>,
    messages: Seq<JsonNode>,
    temperature: u32,
    stream: bool,
    thinking_off: bool,
)
    ensures
        ({
            let body = JsonNode::Object(
                request_members(model, messages, temperature, stream, thinking_off),
            );
            &&& member(body, "model"@) == Some(JsonNode::Text(model))
            &&& member(body, "messages"@) == Some(JsonNode::Array(messages))
            &&& member(body, "temperature"@) == Some(JsonNode::Single(temperature))
            &&& member(body, "stream"@) == Some(JsonNode::Bool(stream))
            &&& thinking_off ==> member(body, "enable_thinking"@) == Some(JsonNode::Bool(false))
            &&& !thinking_off ==> member(body, "enable_thinking"@) is None
        }),
{
    reveal_with_fuel(member_from, 6);
    reveal_strlit("model");
    reveal_strlit("messages");
    reveal_strlit("temperature");
    reveal_strlit("stream");
    reveal_strlit("enable_thinking");
    assert("model"@.len() == 5);
    assert("messages"@.len() == 8);
    assert("temperature"@.len() == 11);
    assert("stream"@.len() == 6);
    assert("enable_thinking"@.len() == 15);
}

/// The answer of a whole reply is the text of its first choice, and there is none where that choice,
/// or its text, is missing.
pub proof fn law_answers_are_those_of_the_first_choice(
    value: JsonNode,
    choices: Seq<JsonNode>,
    message: JsonNode,
    text: Seq<char>,
)
    ensures
        member(value, "choices"@) == Some(JsonNode::Array(choices)) && choices.len() > 0 && member(
            choices[0],
            "message"@,
        ) == Some(message) && member(message, "content"@) == Some(JsonNode::Text(text))
            ==> message_content(value) == Some(text),
        member(value, "choices"@) is None ==> message_content(value) is None,
        member(value, "choices"@) == Some(JsonNode::Array(choices)) && choices.len() == 0
            ==> message_content(value) is None,
{
}

/// A request is streamed where that is wanted and where the endpoint takes no other, and is whole
/// otherwise.
pub proof fn law_how_a_request_is_sent(stream_only: Set<Seq<char>>, base_url: Seq<char>)
    ensures
        chosen_transport(stream_only, base_url, true) == Transport::Stream,
        stream_only.contains(base_url) ==> chosen_transport(stream_only, base_url, false)
            == Transport::Stream,
        !stream_only.contains(base_url) ==> chosen_transport(stream_only, base_url, false)
            == Transport::Whole,
{
}

/// A fence of code around an answer comes off, with its label or without one, and what stands inside
/// stays as it is but for white space at its ends. An answer without a fence stays too.
pub proof fn law_fences_come_off(inner: Seq<char>, plain: Seq<char>)
    requires
        inner.len() > 0,
        !is_white(inner[0]) && !is_white(inner.last()),
        inner[0] != 'j' && inner[0] != 'J',
    ensures
        unfenced("```json\n"@ + inner + "\n```"@) == inner,
        unfenced("```\n"@ + inner + "\n```"@) == inner,
        !starts_with(trim(plain), "```"@) ==> unfenced(plain) == trim(plain),
{
    reveal_strlit("```json\n");
    reveal_strlit("```\n");
    reveal_strlit("\n```");
    reveal_strlit("```");
    reveal_strlit("json");
    reveal_strlit("JSON");
    let tail = inner + "\n```"@;
    assert(tail[0] == inner[0] && tail.last() == '`');
    let labelled = "```json\n"@ + inner + "\n```"@;
    let bare = "```\n"@ + inner + "\n```"@;
    lemma_trim_nothing(labelled);
    lemma_trim_nothing(bare);
    law_stripped_texts("json\n"@ + tail, "```"@);
    reveal_strlit("json\n");
    reveal_strlit("\n");
    assert(labelled =~= "```"@ + ("json\n"@ + tail));
    law_stripped_texts("\n"@ + tail, "json"@);
    assert("json\n"@ + tail =~= "json"@ + ("\n"@ + tail));
    let body = "\n"@ + tail;
    assert(trim_start(body) == tail) by {
        assert(body.skip(1) =~= tail);
        assert(is_white(body[0]));
        assert(trim_start(tail) == tail);
    }
    law_stripped_texts(inner + "\n"@, "```"@);
    assert(tail =~= (inner + "\n"@) + "```"@);
    assert(trim(inner + "\n"@) == inner) by {
        let s = inner + "\n"@;
        assert(s[0] == inner[0]);
        assert(trim_start(s) == s);
        assert(s.last() == '\n');
        assert(s.drop_last() =~= inner);
        assert(trim_end(inner) == inner);
    }
    law_stripped_texts("\n"@ + tail, "```"@);
    assert(bare =~= "```"@ + ("\n"@ + tail));
    assert(!starts_with(body, "json"@)) by {
        if starts_with(body, "json"@) {
            assert(body.subrange(0, 4)[0] == body[0]);
        }
    }
    assert(!starts_with(body, "JSON"@)) by {
        if starts_with(body, "JSON"@) {
            assert(body.subrange(0, 4)[0] == body[0]);
        }
    }
}

proof fn lemma_trim_nothing(s: Seq<char>)
    requires
        s.len() > 0,
        !is_white(s[0]),
        !is_white(s.last()),
    ensures
        trim(s) == s,
{
}

/// Prose is an answer of its own: the text, trimmed, without points and without a question, about
/// knowledge. No answer keeps more than five points.
pub proof fn law_prose_is_an_answer(suggestion: AssistantSuggestion, text: Seq<char>)
    requires
        is_prose(suggestion, text),
    ensures
        suggestion.answer@ == trim(text),
        suggestion.bullets@.len() == 0,
        suggestion.clarifying_question is None,
        suggestion.kind@ == "knowledge"@,
        MAX_BULLETS == 5,
{
}

/// A label in capital letters comes off as well, and so does a fence that is not closed.
pub proof fn law_open_fences_come_off(inner: Seq<char>)
    requires
        inner.len() > 0,
        !is_white(inner[0]) && !is_white(inner.last()),
        inner.last() != '`',
    ensures
        unfenced("```JSON\n"@ + inner + "\n```"@) == inner,
        unfenced("```json\n"@ + inner) == inner,
{
    reveal_strlit("```JSON\n");
    reveal_strlit("```json\n");
    reveal_strlit("\n```");
    reveal_strlit("```");
    reveal_strlit("json");
    reveal_strlit("JSON");
    reveal_strlit("json\n");
    reveal_strlit("JSON\n");
    reveal_strlit("\n");
    let tail = inner + "\n```"@;
    assert(tail[0] == inner[0] && tail.last() == '`');
    let capital = "```JSON\n"@ + inner + "\n```"@;
    lemma_trim_nothing(capital);
    let rest = "JSON\n"@ + tail;
    law_stripped_texts(rest, "```"@);
    assert(capital =~= "```"@ + rest);
    assert(!starts_with(rest, "json"@)) by {
        if starts_with(rest, "json"@) {
            assert(rest.subrange(0, 4)[0] == rest[0]);
        }
    }
    law_stripped_texts("\n"@ + tail, "JSON"@);
    assert(rest =~= "JSON"@ + ("\n"@ + tail));
    let body = "\n"@ + tail;
    assert(trim_start(body) == tail) by {
        assert(body.skip(1) =~= tail);
        assert(is_white(body[0]));
        assert(trim_start(tail) == tail);
    }
    law_stripped_texts(inner + "\n"@, "```"@);
    assert(tail =~= (inner + "\n"@) + "```"@);
    assert(trim(inner + "\n"@) == inner) by {
        let s = inner + "\n"@;
        assert(s[0] == inner[0]);
        assert(trim_start(s) == s);
        assert(s.last() == '\n');
        assert(s.drop_last() =~= inner);
        assert(trim_end(inner) == inner);
    }
    let open = "```json\n"@ + inner;
    lemma_trim_nothing(open);
    law_stripped_texts("json\n"@ + inner, "```"@);
    assert(open =~= "```"@ + ("json\n"@ + inner));
    law_stripped_texts("\n"@ + inner, "json"@);
    assert("json\n"@ + inner =~= "json"@ + ("\n"@ + inner));
    let content = "\n"@ + inner;
    assert(trim_start(content) == inner) by {
        assert(content.skip(1) =~= inner);
        assert(is_white(content[0]));
        assert(trim_start(inner) == inner);
    }
    assert(strip_suffix(inner, "```"@) is None) by {
        if occurs_at(inner, "```"@, inner.len() - 3) {
            assert(inner.subrange(inner.len() - 3, inner.len() as int)[2] == inner.last());
        }
    }
    lemma_trim_nothing(inner);
}

/// A reply whose first choice has no message, or no text in it, has no answer.
pub proof fn law_replies_without_an_answer(value: JsonNode, choices: Seq<JsonNode>, message: JsonNode)
    requires
        member(value, "choices"@) == Some(JsonNode::Array(choices)),
        choices.len() > 0,
    ensures
        member(choices[0], "message"@) is None ==> message_content(value) is None,
        member(choices[0], "message"@) == Some(message) && (member(message, "content"@) is None
            || member(message, "content"@)->0 !is Text) ==> message_content(value) is None,
{
}

} // verus!
