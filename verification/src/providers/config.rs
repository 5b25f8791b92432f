//! Which provider serves which purpose, and how it is reached.

use crate::text::{
    ascii_lowered, blank, chars_of, contains, contains_text, is_blank, is_white,
    lemma_contains_middle, lemma_trim, same_ignoring_ascii_case, trim, trim_text,
};
use vstd::prelude::*;

verus! {

/// What a provider is used for.
#[derive(Debug, Clone, Copy, PartialEq, Eq, Structural)]
pub enum ProviderKind {
    Stt,
    Llm,
}

impl ProviderKind {
    /// The name of the kind.
    pub open spec fn name(self) -> Seq<char> {
        match self {
            ProviderKind::Stt => "stt"@,
            ProviderKind::Llm => "llm"@,
        }
    }

    /// The name of the kind.
    pub fn as_str(&self) -> (name: &'static str)
        ensures
            name@ == self.name(),
    {
        match self {
            ProviderKind::Stt => "stt",
            ProviderKind::Llm => "llm",
        }
    }
}

/// A provider.
#[derive(Debug, Clone, Copy, PartialEq, Eq, Structural)]
pub enum ProviderId {
    OpenAiCompatible,
    XiaomiMimo,
    LocalQwen3Asr,
}

impl ProviderId {
    /// The name of the provider.
    pub open spec fn name(self) -> Seq<char> {
        match self {
            ProviderId::OpenAiCompatible => "openai_compatible"@,
            ProviderId::XiaomiMimo => "xiaomi_mimo"@,
            ProviderId::LocalQwen3Asr => "local_qwen3_asr"@,
        }
    }

    /// The name of the provider.
    pub fn as_str(&self) -> (name: &'static str)
        ensures
            name@ == self.name(),
    {
        match self {
            ProviderId::OpenAiCompatible => "openai_compatible",
            ProviderId::XiaomiMimo => "xiaomi_mimo",
            ProviderId::LocalQwen3Asr => "local_qwen3_asr",
        }
    }

    /// The provider can serve the given purpose.
    pub open spec fn serves(self, kind: ProviderKind) -> bool {
        self == ProviderId::OpenAiCompatible || kind == ProviderKind::Stt
    }

    /// Whether the provider can serve the given purpose.
    pub fn supports(self, kind: ProviderKind) -> (yes: bool)
        ensures
            yes == self.serves(kind),
    {
        match self {
            ProviderId::OpenAiCompatible => true,
            ProviderId::XiaomiMimo => kind == ProviderKind::Stt,
            ProviderId::LocalQwen3Asr => kind == ProviderKind::Stt,
        }
    }
}

/// How a provider is reached.
#[derive(Debug, Clone)]
pub struct ProviderConfig {
    pub provider_id: ProviderId,
    pub base_url: String,
    pub model: String,
    /// The model for screenshots, where it differs from `model`. A live answer has to be quick,
    /// while a screenshot is worth waiting for a stronger model. Nothing, or a blank text, means
    /// that `model` serves both.
    pub vision_model: Option<String>,
    pub mmproj_path: Option<String>,
}

/// The model for image input: the trimmed vision model, or the text model where that is missing
/// or blank.
pub open spec fn vision_model_of(vision_model: Option<Seq<char>>, model: Seq<char>) -> Seq<char> {
    match vision_model {
        Some(name) => if is_blank(name) {
            model
        } else {
            trim(name)
        },
        None => model,
    }
}

/// The text of an optional string.
pub open spec fn opt_text(s: Option<String>) -> Option<Seq<char>> {
    match s {
        Some(s) => Some(s@),
        None => None,
    }
}

impl ProviderConfig {
    /// The model to use for image input. A vision model that is unset or blank falls back to the
    /// text model, so that it can never break screenshots.
    pub fn effective_vision_model(&self) -> (model: String)
        ensures
            model@ == vision_model_of(opt_text(self.vision_model), self.model@),
    {
        match &self.vision_model {
            Some(name) => if blank(name.as_str()) {
                self.model.clone()
            } else {
                trim_text(name.as_str())
            },
            None => self.model.clone(),
        }
    }
}

/// The model for image input is blank only where the text model is.
pub proof fn law_vision_model_is_never_lost(vision_model: Option<Seq<char>>, model: Seq<char>)
    ensures
        is_blank(vision_model_of(vision_model, model)) ==> is_blank(model),
{
    match vision_model {
        Some(name) => {
            lemma_trim(name);
            if !is_blank(name) {
                assert(!is_white(trim(name)[0]));
            }
        },
        None => {},
    }
}

/// What the settings page shows of a provider.
#[derive(Debug, Clone)]
pub struct ProviderDescriptor {
    pub id: ProviderId,
    pub display_name: &'static str,
    pub description: &'static str,
    pub default_base_url: &'static str,
    pub default_model: &'static str,
}

/// The default endpoint of the OpenAI-compatible provider.
pub open spec fn default_base_url(kind: ProviderKind) -> Seq<char> {
    match kind {
        ProviderKind::Stt => "https://api.siliconflow.cn/v1/audio/transcriptions"@,
        ProviderKind::Llm => "https://api.siliconflow.cn/v1/chat/completions"@,
    }
}

/// The default model of the OpenAI-compatible provider.
pub open spec fn default_model(kind: ProviderKind) -> Seq<char> {
    match kind {
        ProviderKind::Stt => "FunAudioLLM/SenseVoiceSmall"@,
        ProviderKind::Llm => "Qwen/Qwen3-32B"@,
    }
}

/// The descriptor holds these texts.
pub open spec fn describes(
    descriptor: ProviderDescriptor,
    id: ProviderId,
    display_name: Seq<char>,
    description: Seq<char>,
    base_url: Seq<char>,
    model: Seq<char>,
) -> bool {
    &&& descriptor.id == id
    &&& descriptor.display_name@ == display_name
    &&& descriptor.description@ == description
    &&& descriptor.default_base_url@ == base_url
    &&& descriptor.default_model@ == model
}

/// The providers that can serve the given purpose.
pub fn provider_descriptors(kind: ProviderKind) -> (descriptors: Vec<ProviderDescriptor>)
    ensures
        descriptors@.len() == if kind == ProviderKind::Stt {
            3int
        } else {
            1
        },
        describes(
            descriptors@[0],
            ProviderId::OpenAiCompatible,
            "OpenAI 兼容"@,
            match kind {
                ProviderKind::Stt => "兼容 Whisper 的分段上传转写接口"@,
                ProviderKind::Llm => "兼容 OpenAI 的对话补全接口"@,
            },
            default_base_url(kind),
            default_model(kind),
        ),
        kind == ProviderKind::Stt ==> describes(
            descriptors@[1],
            ProviderId::XiaomiMimo,
            "小米 MiMo"@,
            "MiMo-V2.5-ASR 音频转写接口"@,
            "https://api.xiaomimimo.com/v1/chat/completions"@,
            "mimo-v2.5-asr"@,
        ),
        kind == ProviderKind::Stt ==> describes(
            descriptors@[2],
            ProviderId::LocalQwen3Asr,
            "本地 Qwen3-ASR"@,
            "本地 llama.cpp 离线转写，低延迟"@,
            "http://127.0.0.1:8080"@,
            ""@,
        ),
        forall|i: int| 0 <= i < descriptors@.len() ==> (#[trigger] descriptors@[i]).id.serves(kind),
        forall|id: ProviderId| #[trigger]
            id.serves(kind) ==> exists|i: int|
                0 <= i < descriptors@.len() && (#[trigger] descriptors@[i]).id == id,
{
    let mut descriptors: Vec<ProviderDescriptor> = Vec::new();
    descriptors.push(
        ProviderDescriptor {
            id: ProviderId::OpenAiCompatible,
            display_name: "OpenAI 兼容",
            description: match kind {
                ProviderKind::Stt => "兼容 Whisper 的分段上传转写接口",
                ProviderKind::Llm => "兼容 OpenAI 的对话补全接口",
            },
            default_base_url: match kind {
                ProviderKind::Stt => "https://api.siliconflow.cn/v1/audio/transcriptions",
                ProviderKind::Llm => "https://api.siliconflow.cn/v1/chat/completions",
            },
            default_model: match kind {
                ProviderKind::Stt => "FunAudioLLM/SenseVoiceSmall",
                ProviderKind::Llm => "Qwen/Qwen3-32B",
            },
        },
    );
    assert(descriptors@[0].id == ProviderId::OpenAiCompatible);
    if kind == ProviderKind::Stt {
        descriptors.push(
            ProviderDescriptor {
                id: ProviderId::XiaomiMimo,
                display_name: "小米 MiMo",
                description: "MiMo-V2.5-ASR 音频转写接口",
                default_base_url: "https://api.xiaomimimo.com/v1/chat/completions",
                default_model: "mimo-v2.5-asr",
            },
        );
        descriptors.push(
            ProviderDescriptor {
                id: ProviderId::LocalQwen3Asr,
                display_name: "本地 Qwen3-ASR",
                description: "本地 llama.cpp 离线转写，低延迟",
                default_base_url: "http://127.0.0.1:8080",
                default_model: "",
            },
        );
        assert(descriptors@[1].id == ProviderId::XiaomiMimo);
        assert(descriptors@[2].id == ProviderId::LocalQwen3Asr);
    }
    descriptors
}

/// `config` is the configuration in use before the user has chosen one.
pub open spec fn is_default_config(config: ProviderConfig, kind: ProviderKind) -> bool {
    &&& config.provider_id == ProviderId::OpenAiCompatible
    &&& config.base_url@ == default_base_url(kind)
    &&& config.model@ == default_model(kind)
    &&& config.vision_model is None
    &&& config.mmproj_path is None
}

/// The speech-to-text configuration in use before the user has chosen one.
pub fn default_stt_config() -> (config: ProviderConfig)
    ensures
        is_default_config(config, ProviderKind::Stt),
{
    ProviderConfig {
        provider_id: ProviderId::OpenAiCompatible,
        base_url: "https://api.siliconflow.cn/v1/audio/transcriptions".to_owned(),
        model: "FunAudioLLM/SenseVoiceSmall".to_owned(),
        vision_model: None,
        mmproj_path: None,
    }
}

/// The language model configuration in use before the user has chosen one.
pub fn default_llm_config() -> (config: ProviderConfig)
    ensures
        is_default_config(config, ProviderKind::Llm),
{
    ProviderConfig {
        provider_id: ProviderId::OpenAiCompatible,
        base_url: "https://api.siliconflow.cn/v1/chat/completions".to_owned(),
        model: "Qwen/Qwen3-32B".to_owned(),
        vision_model: None,
        mmproj_path: None,
    }
}

/// The configuration of the given kind in use before the user has chosen one.
pub fn default_config_for(kind: ProviderKind) -> (config: ProviderConfig)
    ensures
        is_default_config(config, kind),
{
    match kind {
        ProviderKind::Stt => default_stt_config(),
        ProviderKind::Llm => default_llm_config(),
    }
}

/// The provider that a configuration without one was written for.
pub open spec fn legacy_provider(
    kind: ProviderKind,
    base_url: Seq<char>,
    model: Seq<char>,
) -> ProviderId {
    if kind == ProviderKind::Stt && (contains(base_url, "xiaomimimo.com"@) || ascii_lowered(model)
        == ascii_lowered("mimo-v2.5-asr"@)) {
        ProviderId::XiaomiMimo
    } else {
        ProviderId::OpenAiCompatible
    }
}

/// Infers the provider of a configuration that was saved without one.
pub fn infer_legacy_provider(kind: ProviderKind, base_url: &str, model: &str) -> (id: ProviderId)
    ensures
        id == legacy_provider(kind, base_url@, model@),
        id.serves(kind),
{
    let url: Vec<char> = chars_of(base_url);
    if kind == ProviderKind::Stt && (contains_text(&url, "xiaomimimo.com")
        || same_ignoring_ascii_case(model, "mimo-v2.5-asr")) {
        ProviderId::XiaomiMimo
    } else {
        ProviderId::OpenAiCompatible
    }
}

/// What a connection test found.
#[derive(Debug, Clone)]
pub struct DiagnosticResult {
    pub success: bool,
    pub message: String,
}

// What providers are known by.

/// Every provider serves speech, and only the compatible one serves answers. Each is known by its own
/// name.
pub proof fn law_providers_and_what_they_serve(id: ProviderId)
    ensures
        id.serves(ProviderKind::Stt),
        id.serves(ProviderKind::Llm) <==> id == ProviderId::OpenAiCompatible,
        ProviderId::OpenAiCompatible.name() == "openai_compatible"@,
        ProviderId::XiaomiMimo.name() == "xiaomi_mimo"@,
        ProviderId::LocalQwen3Asr.name() == "local_qwen3_asr"@,
        ProviderKind::Stt.name() == "stt"@,
        ProviderKind::Llm.name() == "llm"@,
{
}

/// The model for images is the one that is set for them, trimmed, and the model for texts where none
/// is set.
pub proof fn law_the_model_that_sees(set: Seq<char>, model: Seq<char>)
    ensures
        !is_blank(set) ==> vision_model_of(Some(set), model) == trim(set),
        is_blank(set) ==> vision_model_of(Some(set), model) == model,
        vision_model_of(None, model) == model,
{
}

/// An old setting names the provider by its address or by its model, in small or large letters, and
/// only for speech.
pub proof fn law_old_settings_are_understood(
    a: Seq<char>,
    b: Seq<char>,
    base_url: Seq<char>,
    model: Seq<char>,
)
    ensures
        legacy_provider(ProviderKind::Stt, a + "xiaomimimo.com"@ + b, model)
            == ProviderId::XiaomiMimo,
        legacy_provider(ProviderKind::Stt, base_url, "mimo-v2.5-asr"@) == ProviderId::XiaomiMimo,
        ascii_lowered(model) == "mimo-v2.5-asr"@ ==> legacy_provider(
            ProviderKind::Stt,
            base_url,
            model,
        ) == ProviderId::XiaomiMimo,
        !contains(base_url, "xiaomimimo.com"@) && ascii_lowered(model) != "mimo-v2.5-asr"@
            ==> legacy_provider(ProviderKind::Stt, base_url, model) == ProviderId::OpenAiCompatible,
        legacy_provider(ProviderKind::Llm, base_url, model) == ProviderId::OpenAiCompatible,
{
    lemma_contains_middle(a, "xiaomimimo.com"@, b);
    reveal_strlit("mimo-v2.5-asr");
    assert(ascii_lowered("mimo-v2.5-asr"@) =~= "mimo-v2.5-asr"@);
}

/// Where nothing is set, each kind is served by its own endpoint and model.
pub proof fn law_each_kind_has_its_defaults()
    ensures
        default_base_url(ProviderKind::Stt) == "https://api.siliconflow.cn/v1/audio/transcriptions"@,
        default_base_url(ProviderKind::Llm) == "https://api.siliconflow.cn/v1/chat/completions"@,
        default_model(ProviderKind::Stt) == "FunAudioLLM/SenseVoiceSmall"@,
        default_model(ProviderKind::Llm) == "Qwen/Qwen3-32B"@,
{
}

/// What stands for a provider is what it was described by, each in its place.
pub proof fn law_descriptors_say_what_they_describe(
    descriptor: ProviderDescriptor,
    id: ProviderId,
    display_name: Seq<char>,
    description: Seq<char>,
    base_url: Seq<char>,
    model: Seq<char>,
)
    requires
        describes(descriptor, id, display_name, description, base_url, model),
    ensures
        descriptor.id == id,
        descriptor.display_name@ == display_name,
        descriptor.description@ == description,
        descriptor.default_base_url@ == base_url,
        descriptor.default_model@ == model,
{
}

/// What is configured at first is the compatible provider with the address and the model of the kind,
/// and neither a model that sees nor a projection.
pub proof fn law_what_is_configured_at_first(config: ProviderConfig, kind: ProviderKind)
    requires
        is_default_config(config, kind),
    ensures
        config.provider_id == ProviderId::OpenAiCompatible,
        kind == ProviderKind::Stt ==> config.base_url@
            == "https://api.siliconflow.cn/v1/audio/transcriptions"@ && config.model@
            == "FunAudioLLM/SenseVoiceSmall"@,
        kind == ProviderKind::Llm ==> config.base_url@
            == "https://api.siliconflow.cn/v1/chat/completions"@ && config.model@
            == "Qwen/Qwen3-32B"@,
        config.vision_model is None,
        config.mmproj_path is None,
{
}

} // verus!
