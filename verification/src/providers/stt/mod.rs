//! Speech-to-text providers.

pub mod audio_normalization;
pub mod data_url;
pub mod local;
pub mod mimo;
pub mod openai_compatible;
pub mod text_guard;

use self::local::LocalQwen3AsrStt;
use self::mimo::MimoStt;
use self::openai_compatible::OpenAiCompatibleStt;
use crate::providers::config::{DiagnosticResult, ProviderConfig, ProviderId, ProviderKind};
use crate::providers::credentials::{resolve, ResolvedCredentials};
use crate::text::{
    chars_of, find, find_chars, is_white, join_two, lead, lemma_find_before_white,
    lemma_find_behind, lemma_find_from, lemma_find_trimmed, lemma_trim_part, string_of,
    trim, trim_chars,
};
use vstd::prelude::*;
use vstd::slice::slice_subrange;

verus! {

/// How a recogniser takes sound.
#[derive(Debug, Clone, Copy, PartialEq, Eq, Structural)]
pub enum AsrExecutionMode {
    Batch,
}

/// What a recogniser can do and needs.
#[derive(Debug, Clone, Copy, PartialEq, Eq, Structural)]
pub struct AsrCapabilities {
    pub execution_mode: AsrExecutionMode,
    pub supports_language_hint: bool,
    pub requires_wav_normalization: bool,
    pub max_audio_duration_ms: Option<u64>,
}

/// A clip to be recognised.
pub struct BatchAsrRequest {
    pub audio_bytes: Vec<u8>,
    pub filename: String,
    pub mime_type: String,
}

impl BatchAsrRequest {
    /// A request with the given recording.
    pub fn new(audio_bytes: Vec<u8>, filename: &str, mime_type: &str) -> (request: BatchAsrRequest)
        ensures
            request.audio_bytes == audio_bytes,
            request.filename@ == filename@,
            request.mime_type@ == mime_type@,
    {
        BatchAsrRequest {
            audio_bytes,
            filename: filename.to_owned(),
            mime_type: mime_type.to_owned(),
        }
    }
}

/// A recogniser.
pub trait SttProvider {
    fn id(&self) -> (id: ProviderId)
        ensures
            id.serves(ProviderKind::Stt),
    ;

    fn capabilities(&self) -> AsrCapabilities;
}

/// What is told of a recognition without any text.
pub const EMPTY_TRANSCRIPT_MESSAGE: &'static str =
    "Chat-audio streaming response contained no transcript text.";

/// What is asked of a recogniser that also chats.
pub const TRANSCRIBE_INSTRUCTION: &'static str = "请转写这段音频，只输出转写文本，不要任何解释。";

// Markup around a transcript.

/// A transcript without the markup that some recognisers put around it, trimmed. What stands
/// outside the first pair of marks is no speech; without a whole pair, all is.
pub open spec fn untagged(raw: Seq<char>) -> Seq<char> {
    let open = "<asr_text>"@;
    let close = "</asr_text>"@;
    match find(raw, open) {
        Some(start) => {
            let after = raw.skip(start + open.len());
            match find(after, close) {
                Some(end) => trim(after.take(end)),
                None => trim(raw),
            }
        },
        None => trim(raw),
    }
}

/// Takes the markup off a transcript.
pub fn untag(chars: &[char]) -> (text: String)
    ensures
        text@ == untagged(chars@),
{
    let open: Vec<char> = chars_of("<asr_text>");
    let close: Vec<char> = chars_of("</asr_text>");
    proof {
        lemma_find_from(chars@, open@, 0);
    }
    match find_chars(chars, &open, 0) {
        Some(start) => {
            assert(chars@.len() == chars.len());
            let from: usize = start + open.len();
            let after: &[char] = slice_subrange(chars, from, chars.len());
            assert(after@ =~= chars@.skip(from as int));
            proof {
                lemma_find_from(after@, close@, 0);
            }
            match find_chars(after, &close, 0) {
                Some(end) => {
                    assert(after@.subrange(0, end as int) =~= after@.take(end as int));
                    string_of(trim_chars(slice_subrange(after, 0, end)))
                },
                None => string_of(trim_chars(chars)),
            }
        },
        None => string_of(trim_chars(chars)),
    }
}

/// The trimmed transcript without its markup.
pub fn strip_asr_text_tags(raw: &str) -> (text: String)
    ensures
        text@ == untagged(trim(raw@)),
{
    let chars: Vec<char> = chars_of(raw);
    untag(trim_chars(&chars))
}

/// All recognisers take the markup off alike: it makes no difference whether a transcript is trimmed
/// before its marks are looked for.
pub proof fn law_markup_comes_off_alike(raw: Seq<char>)
    ensures
        untagged(trim(raw)) == untagged(raw),
{
    let open = "<asr_text>"@;
    let close = "</asr_text>"@;
    reveal_strlit("<asr_text>");
    reveal_strlit("</asr_text>");
    let kept = trim(raw);
    lemma_trim_part(raw);
    lemma_find_trimmed(raw, open);
    lemma_find_from(raw, open, 0);
    if let Some(start) = find(raw, open) {
        let after = raw.skip(start + open.len());
        let n = kept.len() - (start - lead(raw)) - open.len();
        let part = raw.subrange(start, start + open.len());
        assert(part[open.len() - 1] == raw[start + open.len() - 1]);
        assert(part[0] == raw[start]);
        assert(kept.skip(start - lead(raw) + open.len()) =~= after.take(n));
        assert forall|i: int| n <= i < after.len() implies is_white(#[trigger] after[i]) by {
            assert(after[i] == raw[start + open.len() + i]);
        }
        lemma_find_before_white(after, n, close);
        lemma_find_from(after.take(n), close, 0);
        if let Some(end) = find(after, close) {
            assert(after.take(n).take(end) =~= after.take(end));
        }
    }
}

// Choosing a recogniser.

/// The recogniser that the settings name.
pub enum SttChoice {
    Local(LocalQwen3AsrStt),
    OpenAiCompatible(OpenAiCompatibleStt),
    Mimo(MimoStt),
}

impl SttChoice {
    /// Which provider this is.
    pub open spec fn provider(&self) -> ProviderId {
        match self {
            SttChoice::Local(_) => ProviderId::LocalQwen3Asr,
            SttChoice::OpenAiCompatible(_) => ProviderId::OpenAiCompatible,
            SttChoice::Mimo(_) => ProviderId::XiaomiMimo,
        }
    }
}

/// Builds the recogniser that the settings name. Only the local one needs no key.
pub fn build_from_config(config: ProviderConfig, api_key: Option<String>) -> (choice: Result<
    SttChoice,
    String,
>)
    ensures
        choice is Ok <==> config.provider_id == ProviderId::LocalQwen3Asr || api_key is Some,
        match choice {
            Ok(choice) => {
                &&& choice.provider() == config.provider_id
                &&& match choice {
                    SttChoice::Local(stt) => {
                        &&& stt.base_url@ == config.base_url@
                        &&& stt.model@ == config.model@
                        &&& stt.mmproj_path@ == match config.mmproj_path {
                            Some(path) => path@,
                            None => Seq::empty(),
                        }
                    },
                    SttChoice::OpenAiCompatible(stt) => {
                        &&& stt.base_url@ == config.base_url@
                        &&& stt.model@ == config.model@
                        &&& stt.api_key@ == api_key->0@
                    },
                    SttChoice::Mimo(stt) => {
                        &&& stt.base_url@ == config.base_url@
                        &&& stt.model@ == config.model@
                        &&& stt.api_key@ == api_key->0@
                    },
                }
            },
            Err(message) => message@ == "No API key configured for "@ + ProviderKind::Stt.name(),
        },
{
    if config.provider_id == ProviderId::LocalQwen3Asr {
        return Ok(SttChoice::Local(LocalQwen3AsrStt::new(config)));
    }
    let credentials: ResolvedCredentials = match resolve(config, api_key, ProviderKind::Stt) {
        Ok(credentials) => credentials,
        Err(message) => return Err(message),
    };
    match credentials.provider_id {
        ProviderId::XiaomiMimo => Ok(SttChoice::Mimo(MimoStt::new(credentials))),
        _ => Ok(SttChoice::OpenAiCompatible(OpenAiCompatibleStt::new(credentials))),
    }
}

/// The report of a connection test.
pub fn stt_connection_report(provider_id: ProviderId, outcome: Result<(), String>) -> (report:
    DiagnosticResult)
    ensures
        report.success == (outcome is Ok),
        match outcome {
            Ok(_) => report.message@ == provider_id.name()
                + " 接口可访问，并已接受语音转写测试请求。"@,
            Err(message) => report.message@ == message@,
        },
{
    match outcome {
        Ok(()) => DiagnosticResult {
            success: true,
            message: join_two(
                provider_id.as_str(),
                " 接口可访问，并已接受语音转写测试请求。",
            ),
        },
        Err(message) => DiagnosticResult { success: false, message },
    }
}

// What is left of a transcript.

/// Of a transcript with marks only what stands between them is speech, whatever stands around them;
/// without marks all of it is. White space at the ends is none.
pub proof fn law_speech_stands_between_the_marks(a: Seq<char>, said: Seq<char>, b: Seq<char>)
    requires
        !a.contains('<'),
        !said.contains('<'),
    ensures
        untagged(a + "<asr_text>"@ + said + "</asr_text>"@ + b) == trim(said),
        untagged(said) == trim(said),
        untagged(a + "<asr_text>"@ + said) == trim(a + "<asr_text>"@ + said),
{
    let open = "<asr_text>"@;
    let close = "</asr_text>"@;
    reveal_strlit("<asr_text>");
    reveal_strlit("</asr_text>");
    let rest = said + close + b;
    let s = a + open + said + close + b;
    assert(s =~= a + open + rest);
    lemma_find_behind(a, open, rest);
    assert(s.skip((a.len() + open.len()) as int) =~= rest);
    lemma_find_behind(said, close, b);
    assert(rest.take(said.len() as int) =~= said);
    lemma_find_behind(said, open, b);
    lemma_find_behind(a, open, said);
    assert((a + open + said).skip((a.len() + open.len()) as int) =~= said);
}

} // verus!
