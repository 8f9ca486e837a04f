//! The settings of the inference engine.

use vstd::prelude::*;

use crate::inference::api::ApiProvider;
use crate::text::{text, text_eq};

verus! {

/// Which backend to use, and how to reach it.
pub struct InferenceSettings {
    /// "local", "openai", "anthropic", "gemini" or "custom"; empty before anything was
    /// configured.
    backend: String,
    api_key: String,
    model_id: String,
    base_url: String,
    /// The model that Anthropic is asked for where none is configured.
    anthropic_model: String,
}

/// What the settings hold.
pub struct SettingsView {
    pub backend: Seq<char>,
    pub api_key: Seq<char>,
    pub model_id: Seq<char>,
    pub base_url: Seq<char>,
    pub anthropic_model: Seq<char>,
}

impl View for InferenceSettings {
    type V = SettingsView;

    closed spec fn view(&self) -> SettingsView {
        SettingsView {
            backend: self.backend@,
            api_key: self.api_key@,
            model_id: self.model_id@,
            base_url: self.base_url@,
            anthropic_model: self.anthropic_model@,
        }
    }
}

/// The backend in use: "local" before any was configured.
pub open spec fn backend_in_use(s: SettingsView) -> Seq<char> {
    if s.backend.len() == 0 {
        "local"@
    } else {
        s.backend
    }
}

/// The provider of a backend name.
pub open spec fn provider_of(backend: Seq<char>) -> ApiProvider {
    if backend == "openai"@ {
        ApiProvider::OpenAi
    } else if backend == "anthropic"@ {
        ApiProvider::Anthropic
    } else if backend == "gemini"@ {
        ApiProvider::Gemini
    } else {
        ApiProvider::Custom
    }
}

/// The model to use: as configured, else the provider's default.
pub open spec fn model_in_use(s: SettingsView, provider: ApiProvider) -> Seq<char> {
    if s.model_id.len() > 0 {
        s.model_id
    } else {
        match provider {
            ApiProvider::OpenAi => "gpt-4o"@,
            ApiProvider::Anthropic => s.anthropic_model,
            ApiProvider::Gemini => "gemini-pro"@,
            ApiProvider::Custom => "default"@,
        }
    }
}

impl InferenceSettings {
    /// Nothing is configured but the model that Anthropic is asked for by default.
    pub fn new(anthropic_model: &str) -> (r: Self)
        ensures
            r@ == (SettingsView {
                backend: Seq::empty(),
                api_key: Seq::empty(),
                model_id: Seq::empty(),
                base_url: Seq::empty(),
                anthropic_model: anthropic_model@,
            }),
    {
        InferenceSettings {
            backend: String::new(),
            api_key: String::new(),
            model_id: String::new(),
            base_url: String::new(),
            anthropic_model: text(anthropic_model),
        }
    }
}

/// The currently configured backend name.
pub fn get_current_backend(settings: &InferenceSettings) -> (r: String)
    ensures
        r@ == backend_in_use(settings@),
{
    if settings.backend.as_str().is_empty() {
        text("local")
    } else {
        settings.backend.clone()
    }
}

/// The settings for a given backend name: key, model, address and provider.
pub fn get_api_settings(settings: &InferenceSettings, backend: &str) -> (r: (String, String, String, ApiProvider))
    ensures
        r.0@ == settings@.api_key,
        r.1@ == model_in_use(settings@, provider_of(backend@)),
        r.2@ == settings@.base_url,
        r.3 == provider_of(backend@),
{
    let provider = if text_eq(backend, "openai") {
        ApiProvider::OpenAi
    } else if text_eq(backend, "anthropic") {
        ApiProvider::Anthropic
    } else if text_eq(backend, "gemini") {
        ApiProvider::Gemini
    } else {
        ApiProvider::Custom
    };
    let model_id = if settings.model_id.as_str().is_empty() {
        match provider {
            ApiProvider::OpenAi => text("gpt-4o"),
            ApiProvider::Anthropic => settings.anthropic_model.clone(),
            ApiProvider::Gemini => text("gemini-pro"),
            ApiProvider::Custom => text("default"),
        }
    } else {
        settings.model_id.clone()
    };
    (settings.api_key.clone(), model_id, settings.base_url.clone(), provider)
}

/// Set the inference backend.
pub fn configure(settings: &mut InferenceSettings, backend: &str, api_key: &str, model_id: &str, base_url: &str)
    ensures
        final(settings)@ == (SettingsView {
            backend: backend@,
            api_key: api_key@,
            model_id: model_id@,
            base_url: base_url@,
            anthropic_model: old(settings)@.anthropic_model,
        }),
{
    settings.backend = text(backend);
    settings.api_key = text(api_key);
    settings.model_id = text(model_id);
    settings.base_url = text(base_url);
}

} // verus!
