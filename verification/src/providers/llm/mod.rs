//! Language model providers: messages, suggestions and what is remembered of endpoints.

pub mod openai_compatible;

use crate::providers::config::{DiagnosticResult, ProviderId};
use crate::text::{
    ascii_lower_chars, ascii_lowered, chars_of, contains, contains_text, lemma_lacks_char,
    occurs_at, same_text, texts, trim, trim_chars,
};
use vstd::prelude::*;

verus! {

// Endpoints that accept no request without streaming.

/// The endpoints that have refused a request without streaming, each once.
///
/// Some gateways answer every such request with an error, and asking them anew costs a round trip
/// each time. The verdict is kept per endpoint, by its address alone, and only as long as the
/// program runs.
pub struct RejectedEndpoints {
    endpoints: Vec<String>,
}

impl RejectedEndpoints {
    /// The addresses that are remembered.
    pub closed spec fn view(&self) -> Set<Seq<char>> {
        texts(self.endpoints@).to_set()
    }

    /// No address is kept twice.
    pub closed spec fn wf(&self) -> bool {
        texts(self.endpoints@).no_duplicates()
    }

    /// Nothing is known yet of any endpoint.
    pub fn new() -> (memory: RejectedEndpoints)
        ensures
            memory.wf(),
            memory@ == Set::<Seq<char>>::empty(),
    {
        let memory: RejectedEndpoints = RejectedEndpoints { endpoints: Vec::new() };
        assert(memory@ =~= Set::empty());
        memory
    }

    /// Whether the endpoint is known to need streaming, so that asking without it is pure loss.
    pub fn non_stream_known_unsupported(&self, base_url: &str) -> (known: bool)
        ensures
            known == self@.contains(base_url@),
    {
        let mut i: usize = 0;
        while i < self.endpoints.len()
            invariant
                i <= self.endpoints@.len(),
                forall|j: int| 0 <= j < i ==> texts(self.endpoints@)[j] != base_url@,
            decreases self.endpoints@.len() - i,
        {
            if same_text(self.endpoints[i].as_str(), base_url) {
                assert(texts(self.endpoints@)[i as int] == base_url@);
                return true;
            }
            i = i + 1;
        }
        false
    }

    /// Remembers that the endpoint refused a request without streaming.
    pub fn remember_non_stream_rejected(&mut self, base_url: &str)
        requires
            old(self).wf(),
        ensures
            final(self).wf(),
            final(self)@ == old(self)@.insert(base_url@),
    {
        if !self.non_stream_known_unsupported(base_url) {
            let ghost before = texts(self.endpoints@);
            self.endpoints.push(base_url.to_owned());
            let ghost after = texts(self.endpoints@);
            proof {
                assert(after =~= before.push(base_url@));
                assert(before.to_set().insert(base_url@) =~= after.to_set()) by {
                    assert forall|url: Seq<char>|
                        before.to_set().insert(base_url@).contains(url) implies after.contains(
                        url,
                    ) by {
                        if url == base_url@ {
                            assert(after[before.len() as int] == url);
                        } else {
                            let i = before.index_of(url);
                            assert(after[i] == url);
                        }
                    }
                }
            }
        } else {
            assert(self@.insert(base_url@) =~= self@);
        }
    }
}

/// How long, in seconds, to wait for a connection.
pub const LLM_CONNECT_TIMEOUT: u64 = 5;

/// How long, in seconds, to wait for the first byte of an answer. A strong model that reads a
/// screenshot takes its time.
pub const LLM_FIRST_BYTE_TIMEOUT: u64 = 90;

/// How long, in seconds, a started stream may be silent. It has to outlast a pause for thought
/// between two tokens; there is no limit on the whole answer.
pub const LLM_STREAM_IDLE_TIMEOUT: u64 = 90;

/// How long, in seconds, to wait for an answer that comes in one piece.
pub const LLM_NON_STREAM_TOTAL_TIMEOUT: u64 = 90;

// Suggestions.

/// What the assistant suggests to say.
#[derive(Debug, Clone)]
pub struct AssistantSuggestion {
    pub answer: String,
    pub bullets: Vec<String>,
    pub clarifying_question: Option<String>,
    /// One of the kinds below once the suggestion has been settled. A text and no enumeration, so
    /// that an unexpected value costs the label and not the answer.
    pub kind: String,
}

/// The kind of a question whose answer is the candidate's own story: the answer is coaching.
pub const KIND_BEHAVIORAL: &'static str = "behavioral";

/// The kind of a question with a standard answer, to be read out.
pub const KIND_KNOWLEDGE: &'static str = "knowledge";

/// The kind of a question that wants an outline: the answer frames it, the bullets are its points.
pub const KIND_DESIGN: &'static str = "design";

/// The kind of a question that wants code on the screen.
pub const KIND_CODING: &'static str = "coding";

/// The label that a kind is read from: trimmed, in small letters, empty where it is missing.
pub open spec fn kind_label(raw: Option<Seq<char>>) -> Seq<char> {
    match raw {
        Some(raw) => ascii_lowered(trim(raw)),
        None => Seq::empty(),
    }
}

/// The label speaks of the candidate's own history.
pub open spec fn is_behavioral(label: Seq<char>) -> bool {
    contains(label, "behav"@) || contains(label, "行为"@) || contains(label, "经历"@) || contains(
        label,
        "因人而异"@,
    )
}

/// The label speaks of code.
pub open spec fn is_coding(label: Seq<char>) -> bool {
    contains(label, "cod"@) || contains(label, "代码"@) || contains(label, "手撕"@)
}

/// The label speaks of design.
pub open spec fn is_design(label: Seq<char>) -> bool {
    contains(label, "design"@) || contains(label, "设计"@) || contains(label, "架构"@) || contains(
        label,
        "方案"@,
    )
}

/// The kind that a label stands for. A story that mentions code is a story, and a label that says
/// nothing known is knowledge.
pub open spec fn kind_of(label: Seq<char>) -> Seq<char> {
    if is_behavioral(label) {
        KIND_BEHAVIORAL@
    } else if is_coding(label) {
        KIND_CODING@
    } else if is_design(label) {
        KIND_DESIGN@
    } else {
        KIND_KNOWLEDGE@
    }
}

/// Maps what the model wrote onto the known kinds.
pub fn normalize_kind(raw: Option<&str>) -> (kind: String)
    ensures
        kind@ == kind_of(
            kind_label(
                match raw {
                    Some(raw) => Some(raw@),
                    None => None,
                },
            ),
        ),
{
    let label: Vec<char> = match raw {
        Some(raw) => {
            let chars: Vec<char> = chars_of(raw);
            ascii_lower_chars(trim_chars(&chars))
        },
        None => Vec::new(),
    };
    if contains_text(&label, "behav") || contains_text(&label, "行为") || contains_text(
        &label,
        "经历",
    ) || contains_text(&label, "因人而异") {
        return KIND_BEHAVIORAL.to_owned();
    }
    if contains_text(&label, "cod") || contains_text(&label, "代码") || contains_text(
        &label,
        "手撕",
    ) {
        return KIND_CODING.to_owned();
    }
    if contains_text(&label, "design") || contains_text(&label, "设计") || contains_text(
        &label,
        "架构",
    ) || contains_text(&label, "方案") {
        return KIND_DESIGN.to_owned();
    }
    KIND_KNOWLEDGE.to_owned()
}

/// A kind is always one of the four known ones.
pub proof fn law_kind_is_known(label: Seq<char>)
    ensures
        ({
            let kind = kind_of(label);
            kind == KIND_BEHAVIORAL@ || kind == KIND_CODING@ || kind == KIND_DESIGN@ || kind
                == KIND_KNOWLEDGE@
        }),
{
}

/// A known kind is read as itself.
pub proof fn law_kind_is_stable(label: Seq<char>)
    ensures
        kind_of(kind_label(Some(kind_of(label)))) == kind_of(label),
{
    reveal_strlit("behavioral");
    reveal_strlit("knowledge");
    reveal_strlit("design");
    reveal_strlit("coding");
    reveal_strlit("behav");
    reveal_strlit("cod");
    reveal_strlit("行为");
    reveal_strlit("经历");
    reveal_strlit("因人而异");
    reveal_strlit("代码");
    reveal_strlit("手撕");
    reveal_strlit("设计");
    reveal_strlit("架构");
    reveal_strlit("方案");
    let kind = kind_of(label);
    assert(trim(kind) == kind);
    assert(ascii_lowered(kind) =~= kind);
    if kind == KIND_BEHAVIORAL@ {
        assert(kind.subrange(0, 5) =~= "behav"@);
        assert(occurs_at(kind, "behav"@, 0));
    } else {
        lemma_lacks_char(kind, "behav"@, 0);
        lemma_lacks_char(kind, "行为"@, 0);
        lemma_lacks_char(kind, "经历"@, 0);
        lemma_lacks_char(kind, "因人而异"@, 0);
        if kind == KIND_CODING@ {
            assert(kind.subrange(0, 3) =~= "cod"@);
            assert(occurs_at(kind, "cod"@, 0));
        } else {
            lemma_lacks_char(kind, "cod"@, 0);
            lemma_lacks_char(kind, "代码"@, 0);
            lemma_lacks_char(kind, "手撕"@, 0);
            if kind == KIND_DESIGN@ {
                assert(kind.subrange(0, 6) =~= "design"@);
                assert(occurs_at(kind, "design"@, 0));
            } else {
                lemma_lacks_char(kind, "design"@, 2);
                lemma_lacks_char(kind, "设计"@, 0);
                lemma_lacks_char(kind, "架构"@, 0);
                lemma_lacks_char(kind, "方案"@, 0);
            }
        }
    }
}

// Messages.

/// Who has said something in a conversation.
#[derive(Debug, Clone, Copy, PartialEq, Eq, Structural)]
pub enum ChatRole {
    User,
    Assistant,
}

impl ChatRole {
    /// The name of the role in a request.
    pub open spec fn name(self) -> Seq<char> {
        match self {
            ChatRole::User => "user"@,
            ChatRole::Assistant => "assistant"@,
        }
    }

    /// The name of the role in a request.
    pub fn as_str(self) -> (name: &'static str)
        ensures
            name@ == self.name(),
    {
        match self {
            ChatRole::User => "user",
            ChatRole::Assistant => "assistant",
        }
    }
}

/// One message of a conversation.
#[derive(Debug, Clone)]
pub struct ChatMessage {
    pub role: ChatRole,
    pub content: String,
}

impl ChatMessage {
    /// A message of the user.
    pub fn user(content: String) -> (message: ChatMessage)
        ensures
            message == (ChatMessage { role: ChatRole::User, content }),
    {
        ChatMessage { role: ChatRole::User, content }
    }

    /// A message of the assistant.
    pub fn assistant(content: String) -> (message: ChatMessage)
        ensures
            message == (ChatMessage { role: ChatRole::Assistant, content }),
    {
        ChatMessage { role: ChatRole::Assistant, content }
    }
}

// Capabilities.

/// Whether the reasoning of a model can be controlled.
#[derive(Debug, Clone, Copy, PartialEq, Eq, Structural)]
pub enum ThinkingControl {
    Unsupported,
    ProviderSpecific,
}

/// What a model can do.
#[derive(Debug, Clone, Copy, PartialEq, Eq, Structural)]
pub struct LlmCapabilities {
    pub supports_streaming: bool,
    pub thinking_control: ThinkingControl,
}

/// The provider is one that the language model settings know.
pub fn registered_for_llm(provider_id: ProviderId) -> (registered: Result<(), String>)
    ensures
        registered is Ok <==> provider_id == ProviderId::OpenAiCompatible,
        registered matches Err(message) ==> message@ == "Provider "@ + provider_id.name()
            + " is not registered for LLM."@,
{
    match provider_id {
        ProviderId::OpenAiCompatible => Ok(()),
        _ => {
            let mut message: String = "Provider ".to_owned();
            message.append(provider_id.as_str());
            message.append(" is not registered for LLM.");
            Err(message)
        },
    }
}

/// The name of a truth value.
pub open spec fn bool_name(b: bool) -> Seq<char> {
    if b {
        "true"@
    } else {
        "false"@
    }
}

/// The name of a thinking control.
pub open spec fn thinking_name(control: ThinkingControl) -> Seq<char> {
    match control {
        ThinkingControl::Unsupported => "Unsupported"@,
        ThinkingControl::ProviderSpecific => "ProviderSpecific"@,
    }
}

/// The report of a connection test: that the endpoint answered and what it can do, or what went
/// wrong.
pub fn connection_report(
    provider_id: ProviderId,
    outcome: Result<LlmCapabilities, String>,
) -> (report: DiagnosticResult)
    ensures
        report.success == (outcome is Ok),
        match outcome {
            Ok(capabilities) => report.message@ == provider_id.name() + " 模型接口可访问（流式="@
                + bool_name(capabilities.supports_streaming) + "，思维链="@ + thinking_name(
                capabilities.thinking_control,
            ) + "）。"@,
            Err(message) => report.message@ == message@,
        },
{
    match outcome {
        Ok(capabilities) => {
            let mut message: String = provider_id.as_str().to_owned();
            message.append(" 模型接口可访问（流式=");
            message.append(
                if capabilities.supports_streaming {
                    "true"
                } else {
                    "false"
                },
            );
            message.append("，思维链=");
            message.append(
                match capabilities.thinking_control {
                    ThinkingControl::Unsupported => "Unsupported",
                    ThinkingControl::ProviderSpecific => "ProviderSpecific",
                },
            );
            message.append("）。");
            DiagnosticResult { success: true, message }
        },
        Err(message) => DiagnosticResult { success: false, message },
    }
}

// What a kind is known by.

/// A question about the person comes before one for code, that before one for a design, and what is
/// none of them is one of knowledge. Each is known by any of its words, wherever they stand.
pub proof fn law_kinds_are_known_by_their_words(label: Seq<char>)
    ensures
        ({
            let personal = contains(label, "behav"@) || contains(label, "行为"@) || contains(
                label,
                "经历"@,
            ) || contains(label, "因人而异"@);
            let code = contains(label, "cod"@) || contains(label, "代码"@) || contains(
                label,
                "手撕"@,
            );
            let design = contains(label, "design"@) || contains(label, "设计"@) || contains(
                label,
                "架构"@,
            ) || contains(label, "方案"@);
            &&& personal ==> kind_of(label) == "behavioral"@
            &&& !personal && code ==> kind_of(label) == "coding"@
            &&& !personal && !code && design ==> kind_of(label) == "design"@
            &&& !personal && !code && !design ==> kind_of(label) == "knowledge"@
        }),
{
}

/// A label is looked at in small letters and trimmed, and nothing is looked at where there is none.
pub proof fn law_labels_are_looked_at_in_small(raw: Seq<char>)
    ensures
        kind_label(Some(raw)).len() == trim(raw).len(),
        forall|i: int|
            0 <= i < trim(raw).len() ==> #[trigger] kind_label(Some(raw))[i] as int == if 65
                <= trim(raw)[i] as int <= 90 {
                trim(raw)[i] as int + 32
            } else {
                trim(raw)[i] as int
            },
        kind_label(None).len() == 0,
        ChatRole::User.name() == "user"@,
        ChatRole::Assistant.name() == "assistant"@,
{
}

/// What a provider can do is told by these words.
pub proof fn law_capabilities_are_told_in_words()
    ensures
        bool_name(true) == "true"@,
        bool_name(false) == "false"@,
        thinking_name(ThinkingControl::Unsupported) == "Unsupported"@,
        thinking_name(ThinkingControl::ProviderSpecific) == "ProviderSpecific"@,
{
}

} // verus!
