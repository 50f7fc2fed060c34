//! Settings.
use vstd::prelude::*;
use crate::number;
use crate::text;
use crate::text::same;

verus! {

/// Who serves the language model.
#[derive(Clone)]
pub enum LLMProvider {
    OpenAI,
    Custom { base_url: String },
}

impl LLMProvider {
    /// The name of a provider.
    pub open spec fn label_text(&self) -> Seq<char> {
        match self {
            LLMProvider::OpenAI => "openai"@,
            LLMProvider::Custom { .. } => "custom"@,
        }
    }

    /// The name of a provider.
    pub fn label(&self) -> (r: &'static str)
        ensures
            r@ == self.label_text(),
    {
        match self {
            LLMProvider::OpenAI => "openai",
            LLMProvider::Custom { .. } => "custom",
        }
    }

    /// Whether a provider is not the usual one.
    pub fn is_custom(&self) -> (r: bool)
        ensures
            r == (self is Custom),
    {
        match self {
            LLMProvider::OpenAI => false,
            LLMProvider::Custom { .. } => true,
        }
    }

    /// The same provider.
    pub fn duplicate(&self) -> (r: LLMProvider)
        ensures
            r == *self,
    {
        match self {
            LLMProvider::OpenAI => LLMProvider::OpenAI,
            LLMProvider::Custom { base_url } => LLMProvider::Custom { base_url: base_url.clone() },
        }
    }
}

/// Which language model is asked.
#[derive(Clone)]
pub struct LLMSettings {
    pub provider: LLMProvider,
    pub api_key: String,
    pub model: String,
}

/// What is wrong with settings.
#[derive(Debug, Clone, Copy, PartialEq, Eq, Structural)]
pub enum ConfigError {
    /// The model has no name.
    EmptyModel,
    /// There is no key for OpenAI.
    EmptyOpenAIKey,
    /// There is no key for the provider.
    EmptyCustomKey,
}

impl ConfigError {
    /// The message of an error.
    pub open spec fn message_text(&self) -> Seq<char> {
        match self {
            ConfigError::EmptyModel => "Model name 不可為空"@,
            ConfigError::EmptyOpenAIKey => "OPENAI_API_KEY is empty"@,
            ConfigError::EmptyCustomKey => "自定義 API Key 不可為空"@,
        }
    }

    /// The message of an error.
    pub fn message(&self) -> (r: &'static str)
        ensures
            r@ == self.message_text(),
    {
        match self {
            ConfigError::EmptyModel => "Model name 不可為空",
            ConfigError::EmptyOpenAIKey => "OPENAI_API_KEY is empty",
            ConfigError::EmptyCustomKey => "自定義 API Key 不可為空",
        }
    }
}

impl LLMSettings {
    /// What tells the replies of a model apart in a cache.
    pub open spec fn key_text(&self) -> Seq<char> {
        match self.provider {
            LLMProvider::OpenAI => "openai:"@ + self.model@,
            LLMProvider::Custom { base_url } => "custom:"@ + base_url@ + ":"@ + self.model@,
        }
    }

    /// What tells the replies of a model apart in a cache.
    pub fn cache_key(&self) -> (r: String)
        ensures
            r@ == self.key_text(),
    {
        match &self.provider {
            LLMProvider::OpenAI => text::concat2("openai:", &self.model),
            LLMProvider::Custom { base_url } => text::concat4("custom:", base_url, ":", &self.model),
        }
    }

    /// The settings with another model, whose name is not blank.
    pub fn with_model(&self, model: &str) -> (r: Result<LLMSettings, ConfigError>)
        ensures
            r is Err == (text::trimmed(model@).len() == 0),
            r matches Err(e) ==> e == ConfigError::EmptyModel,
            r matches Ok(s) ==> s.model@ == model@ && s.provider == self.provider && s.api_key@
                == self.api_key@,
    {
        if text::is_empty(&text::trim(model)) {
            return Err(ConfigError::EmptyModel);
        }
        Ok(
            LLMSettings {
                provider: self.provider.duplicate(),
                api_key: self.api_key.clone(),
                model: model.to_owned(),
            },
        )
    }
}

/// Settings that differ in the provider's kind or, for one kind, in the model alone have
/// different keys.
pub proof fn keys_tell_models_apart(a: LLMSettings, b: LLMSettings)
    requires
        a.key_text() == b.key_text(),
    ensures
        a.provider is OpenAI == b.provider is OpenAI,
        a.provider == b.provider ==> a.model@ == b.model@,
{
    reveal_strlit("openai:");
    reveal_strlit("custom:");
    reveal_strlit(":");
    let ka = a.key_text();
    let kb = b.key_text();
    assert(ka[0] == kb[0]);
    if a.provider is OpenAI {
        assert(ka[0] == "openai:"@[0]);
    } else {
        assert(ka[0] == "custom:"@[0]);
    }
    if b.provider is OpenAI {
        assert(kb[0] == "openai:"@[0]);
    } else {
        assert(kb[0] == "custom:"@[0]);
    }
    if a.provider == b.provider {
        let n = ka.len() - a.model@.len();
        assert(a.model@ =~= ka.skip(n));
        assert(b.model@ =~= kb.skip(n));
    }
}

/// All settings.
pub struct Config {
    pub llm: LLMSettings,
    pub max_results: usize,
}

// ── Input ──────────────────────────────────────────────────────────────────────

/// How a number of results was entered.
#[derive(Debug, Clone, Copy, PartialEq, Eq, Structural)]
pub enum MaxResultsInput {
    Valid(usize),
    /// The number is zero.
    TooSmall,
    /// The input is no number.
    NotANumber,
}

/// Reads a number of results, which is at least one.
pub fn parse_max_results(input: &str) -> (r: MaxResultsInput)
    ensures
        match number::parsed_within(text::trimmed(input@), usize::MAX as nat) {
            Some(n) => if n >= 1 {
                r == MaxResultsInput::Valid(n as usize)
            } else {
                r == MaxResultsInput::TooSmall
            },
            None => r == MaxResultsInput::NotANumber,
        },
{
    match number::parse_usize(&text::trim(input)) {
        Some(n) => if n >= 1 {
            MaxResultsInput::Valid(n)
        } else {
            MaxResultsInput::TooSmall
        },
        None => MaxResultsInput::NotANumber,
    }
}

/// The choice of provider that is not the usual one.
pub const CUSTOM_LABEL: &'static str = "自定義 API";

/// Whether the choice of provider is not the usual one.
pub fn is_custom_label(label: &str) -> (r: bool)
    ensures
        r == (label@ == CUSTOM_LABEL@),
{
    same(label, CUSTOM_LABEL)
}

/// The models of OpenAI that are offered.
pub const OPENAI_MODEL_CHOICES: [&'static str; 2] = [
    "基礎模型  (gpt-5-mini-2025-08-07)",
    "進階模型  (gpt-5.4-2026-03-05)",
];

/// The model that was chosen.
pub fn openai_model(label: &str) -> (r: &'static str)
    ensures
        r@ == (if text::holds(label@, "進階"@) {
            "gpt-5.4-2026-03-05"@
        } else {
            "gpt-5-mini-2025-08-07"@
        }),
{
    if text::contains(label, "進階") {
        "gpt-5.4-2026-03-05"
    } else {
        "gpt-5-mini-2025-08-07"
    }
}

/// The settings for OpenAI; the key must not be blank.
pub fn openai_settings(label: &str, key: &str) -> (r: Result<LLMSettings, ConfigError>)
    ensures
        r is Err == (text::trimmed(key@).len() == 0),
        r matches Err(e) ==> e == ConfigError::EmptyOpenAIKey,
        r matches Ok(s) ==> s.provider is OpenAI && s.api_key@ == text::trimmed(key@) && s.model@
            == (if text::holds(label@, "進階"@) {
            "gpt-5.4-2026-03-05"@
        } else {
            "gpt-5-mini-2025-08-07"@
        }),
{
    let key = text::trim(key);
    if text::is_empty(&key) {
        return Err(ConfigError::EmptyOpenAIKey);
    }
    Ok(
        LLMSettings {
            provider: LLMProvider::OpenAI,
            api_key: key,
            model: openai_model(label).to_owned(),
        },
    )
}

/// The scheme of an address, as `Url::parse` of the url crate reads it; `None` where it is no
/// address.
pub uninterp spec fn url_scheme(s: Seq<char>) -> Option<Seq<char>>;

/// `reqwest::Url::parse`, and `Url::scheme` of what it gives: a function of the text alone; a
/// failure is handed on as `None`.
#[verifier::external_body]
pub(crate) fn parse_scheme(s: &str) -> (r: Option<String>)
    ensures
        text::opt(r) == url_scheme(s@),
{
    reqwest::Url::parse(s).ok().map(|u| u.scheme().to_string())
}

/// How an address was entered.
#[derive(Debug, Clone, Copy, PartialEq, Eq, Structural)]
pub enum UrlInput {
    Valid,
    /// The scheme is not one of the web.
    WrongScheme,
    /// The input is no address.
    NotAUrl,
}

/// How an address was entered, by its scheme.
pub open spec fn scheme_verdict(scheme: Option<Seq<char>>) -> UrlInput {
    match scheme {
        Some(s) => if s == "http"@ || s == "https"@ {
            UrlInput::Valid
        } else {
            UrlInput::WrongScheme
        },
        None => UrlInput::NotAUrl,
    }
}

/// How an address was entered, by its scheme.
pub fn check_scheme(scheme: Option<&str>) -> (r: UrlInput)
    ensures
        r == scheme_verdict(text::opt_str(scheme)),
{
    match scheme {
        Some(s) => if same(s, "http") || same(s, "https") {
            UrlInput::Valid
        } else {
            UrlInput::WrongScheme
        },
        None => UrlInput::NotAUrl,
    }
}

/// How an address was entered.
pub fn check_base_url(input: &str) -> (r: UrlInput)
    ensures
        r == scheme_verdict(url_scheme(text::trimmed(input@))),
{
    match parse_scheme(&text::trim(input)) {
        Some(s) => check_scheme(Some(s.as_str())),
        None => check_scheme(None),
    }
}

/// Whether a name was entered.
pub fn is_model_name(input: &str) -> (r: bool)
    ensures
        r == (text::trimmed(input@).len() > 0),
{
    !text::is_empty(&text::trim(input))
}

/// The settings for another provider; the key must not be blank.
pub fn custom_settings(base_url: &str, api_key: &str, model: &str) -> (r: Result<
    LLMSettings,
    ConfigError,
>)
    ensures
        r is Err == (text::trimmed(api_key@).len() == 0),
        r matches Err(e) ==> e == ConfigError::EmptyCustomKey,
        r matches Ok(s) ==> {
            &&& s.provider matches LLMProvider::Custom { base_url: b }
            &&& b@ == text::without_suffixes(text::trimmed(base_url@), "/"@)
            &&& s.api_key@ == text::trimmed(api_key@)
            &&& s.model@ == text::trimmed(model@)
        },
{
    let key = text::trim(api_key);
    if text::is_empty(&key) {
        return Err(ConfigError::EmptyCustomKey);
    }
    proof {
        reveal_strlit("/");
    }
    Ok(
        LLMSettings {
            provider: LLMProvider::Custom {
                base_url: text::trim_end_matches(&text::trim(base_url), "/"),
            },
            api_key: key,
            model: text::trim(model),
        },
    )
}

// ── Laws ─────────────────────────────────────────────────────────────────────

/// An address is taken where its scheme is one of the web, and only there.
pub proof fn web_addresses_are_taken(scheme: Option<Seq<char>>)
    ensures
        scheme_verdict(scheme) is Valid <==> scheme == Some("http"@) || scheme == Some("https"@),
        scheme_verdict(scheme) is NotAUrl <==> scheme is None,
{
}

/// The key of settings names the model, and for another provider its address.
pub proof fn keys_name_the_model(s: LLMSettings)
    ensures
        text::ends(s.key_text(), s.model@),
        s.provider matches LLMProvider::Custom { base_url } ==> text::holds(
            s.key_text(),
            base_url@,
        ),
{
    broadcast use {text::holds_in_front, text::holds_at_end};

    let k = s.key_text();
    assert(k.subrange(k.len() - s.model@.len(), k.len() as int) =~= s.model@);
}

} // verus!
