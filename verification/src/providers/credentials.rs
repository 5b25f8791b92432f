//! A provider configuration with its key.

use super::config::{opt_text, vision_model_of, ProviderConfig, ProviderId, ProviderKind};
use crate::text::join_two;
use vstd::prelude::*;

verus! {

/// A provider configuration with its key attached. Nothing else holds both, and it is never
/// written out or logged.
pub struct ResolvedCredentials {
    pub provider_id: ProviderId,
    pub base_url: String,
    pub model: String,
    /// The model for requests that carry an image, never missing.
    pub vision_model: String,
    pub api_key: String,
}

/// Attaches the saved key to a configuration, or tells that there is none.
pub fn resolve(
    config: ProviderConfig,
    api_key: Option<String>,
    kind: ProviderKind,
) -> (resolved: Result<ResolvedCredentials, String>)
    ensures
        resolved is Ok <==> api_key is Some,
        match resolved {
            Ok(credentials) => {
                &&& credentials.provider_id == config.provider_id
                &&& credentials.base_url@ == config.base_url@
                &&& credentials.model@ == config.model@
                &&& credentials.vision_model@ == vision_model_of(
                    opt_text(config.vision_model),
                    config.model@,
                )
                &&& credentials.api_key@ == api_key->0@
            },
            Err(message) => message@ == "No API key configured for "@ + kind.name(),
        },
{
    match api_key {
        Some(api_key) => {
            let vision_model: String = config.effective_vision_model();
            Ok(
                ResolvedCredentials {
                    provider_id: config.provider_id,
                    base_url: config.base_url,
                    model: config.model,
                    vision_model,
                    api_key,
                },
            )
        },
        None => Err(join_two("No API key configured for ", kind.as_str())),
    }
}

} // verus!
