//! Asking a language model.
use news_lab::config::{
    check_base_url, check_scheme, custom_settings, is_custom_label, is_model_name, openai_model,
    openai_settings, parse_max_results, ConfigError, LLMProvider, LLMSettings, MaxResultsInput,
    UrlInput,
};
use news_lab::llm::{
    env_u32, env_u64, legacy_timeout_error, model_prices, next_wait, read_legacy_reply,
    read_reply, should_fallback_to_max_tokens, timeout_error, wait_before, Asking, CallOutcome,
    LlmStep, Reply, Usage,
};

#[test]
fn fallback_detection_works() {
    assert!(should_fallback_to_max_tokens(
        "unknown field `max_completion_tokens` in request"
    ));
    assert!(should_fallback_to_max_tokens(
        "invalid parameter: max completion tokens unsupported"
    ));
    assert!(!should_fallback_to_max_tokens("rate limit exceeded"));
}

#[test]
fn env_parsing_defaults_on_invalid_values() {
    assert_eq!(env_u64(Some("45"), 60), 45);
    assert_eq!(env_u32(Some("2"), 3), 2);

    assert_eq!(env_u64(Some("0"), 60), 60);
    assert_eq!(env_u32(Some("bad"), 3), 3);
    assert_eq!(env_u64(None, 60), 60);
    assert_eq!(env_u32(Some("4294967296"), 3), 3);
    assert_eq!(env_u64(Some(" 7 "), 60), 7);
}

fn reply(content: Option<&str>) -> Reply {
    Reply {
        has_choice: true,
        content: content.map(|s| s.to_string()),
        reason: "Some(\"Length\")".to_string(),
    }
}

#[test]
fn pauses_double_up_to_a_limit() {
    let waits: Vec<u64> = (0..10).map(wait_before).collect();
    assert_eq!(waits, vec![0, 1, 2, 4, 8, 16, 32, 64, 64, 64]);
}

#[test]
fn waits_end_with_the_time() {
    assert_eq!(next_wait(0, 3600, 10), Some(10));
    assert_eq!(next_wait(3595, 3600, 10), Some(5));
    assert_eq!(next_wait(3600, 3600, 10), None);
    assert_eq!(next_wait(0, 5, 0), Some(1));
}

#[test]
fn failures_are_followed_by_further_requests() {
    let (mut a, step) = Asking::start(3);
    assert!(matches!(step, LlmStep::Call { wait_secs: 0 }));
    let step = a.on_call(false, CallOutcome::Failed("net".to_string()));
    assert!(matches!(step, LlmStep::Call { wait_secs: 1 }));
    let step = a.on_call(false, CallOutcome::Replied(reply(Some("  "))));
    assert!(matches!(step, LlmStep::Call { wait_secs: 2 }));
    let step = a.on_call(false, CallOutcome::Failed("last".to_string()));
    assert!(matches!(step, LlmStep::Fail(e) if e == "last"));
}

#[test]
fn replies_end_the_asking() {
    let (mut a, _) = Asking::start(0);
    let step = a.on_call(false, CallOutcome::Replied(reply(Some("hi"))));
    assert!(matches!(step, LlmStep::Done(t) if t == "hi"));
    let step = a.on_call(true, CallOutcome::NotBuilt("bad".to_string()));
    assert!(matches!(step, LlmStep::Fail(e) if e == "bad"));
    let (mut a, _) = Asking::start(0);
    let step = a.on_call(false, CallOutcome::Failed("one".to_string()));
    assert!(matches!(step, LlmStep::Fail(e) if e == "one"));
}

#[test]
fn custom_servers_are_asked_with_the_older_limit() {
    let (mut a, _) = Asking::start(2);
    let err = || CallOutcome::Failed("Unknown field max_completion_tokens".to_string());
    assert!(matches!(a.on_call(true, err()), LlmStep::CallLegacy));
    let failed = CallOutcome::Failed("x".to_string());
    assert!(matches!(a.on_legacy(failed), LlmStep::Call { wait_secs: 1 }));
    assert!(matches!(a.on_call(false, err()), LlmStep::Fail(_)));
    let fine = CallOutcome::Replied(reply(Some("fine")));
    assert!(matches!(a.on_legacy(fine), LlmStep::Done(t) if t == "fine"));
    let (mut a, _) = Asking::start(3);
    let bad = CallOutcome::NotBuilt("bad".to_string());
    assert!(matches!(a.on_legacy(bad), LlmStep::Call { wait_secs: 1 }));
    let blank = || CallOutcome::Replied(reply(Some(" \n")));
    assert!(matches!(a.on_legacy(blank()), LlmStep::Call { wait_secs: 2 }));
    assert!(matches!(
        a.on_legacy(blank()),
        LlmStep::Fail(e) if e == "LLM 回傳空內容（legacy max_tokens）"
    ));
}

#[test]
fn replies_without_text_are_errors() {
    let none = Reply { has_choice: false, content: None, reason: String::new() };
    assert_eq!(read_reply(none).unwrap_err(), "API 回傳 0 個 choices");
    assert_eq!(
        read_reply(reply(None)).unwrap_err(),
        "LLM 回傳空內容（finish_reason=Some(\"Length\")）"
    );
    assert_eq!(read_legacy_reply(reply(None)).unwrap_err(), "LLM 回傳空內容（legacy max_tokens）");
    let none = Reply { has_choice: false, content: None, reason: String::new() };
    assert_eq!(read_legacy_reply(none).unwrap_err(), "API 回傳 0 個 choices");
    assert_eq!(read_legacy_reply(reply(Some("a"))).unwrap(), "a");
}

#[test]
fn messages_where_the_time_is_up() {
    assert_eq!(
        timeout_error(60, "openai", "m", 0, 3),
        "LLM 請求逾時（60s，provider=openai，model=m，attempt=1/3)"
    );
    assert_eq!(
        legacy_timeout_error(60, "custom", "m"),
        "LLM 請求逾時（legacy max_tokens，60s，provider=custom，model=m）"
    );
}

#[test]
fn tokens_are_counted() {
    let mut u = Usage::new();
    u.count(3, 4);
    u.count(10, 20);
    assert_eq!((u.prompt, u.completion), (13, 24));
    u.prompt = u64::MAX;
    u.count(2, 0);
    assert_eq!(u.prompt, 1);
}

#[test]
fn prices_of_models() {
    assert_eq!(model_prices("gpt-4o-mini"), (15, 60));
    assert_eq!(model_prices("gpt-4o"), (250, 1000));
    assert_eq!(model_prices("gpt-4-turbo"), (1000, 3000));
    assert_eq!(model_prices("o1-mini"), (300, 1200));
    assert_eq!(model_prices("gpt-5-mini-2025-08-07"), (1500, 6000));
    assert_eq!(model_prices("other"), (250, 1000));
}

fn settings(provider: LLMProvider) -> LLMSettings {
    LLMSettings { provider, api_key: "k".to_string(), model: "m".to_string() }
}

#[test]
fn settings_have_keys() {
    assert_eq!(settings(LLMProvider::OpenAI).cache_key(), "openai:m");
    let custom = LLMProvider::Custom { base_url: "http://h/v1".to_string() };
    assert_eq!(custom.label(), "custom");
    assert!(custom.is_custom());
    assert_eq!(settings(custom).cache_key(), "custom:http://h/v1:m");
    let s = settings(LLMProvider::OpenAI).with_model("x").ok().unwrap();
    assert_eq!(s.model, "x");
    assert_eq!(s.api_key, "k");
    assert_eq!(
        settings(LLMProvider::OpenAI).with_model("  ").err(),
        Some(ConfigError::EmptyModel)
    );
}

#[test]
fn inputs_of_settings() {
    assert_eq!(parse_max_results(" 10 "), MaxResultsInput::Valid(10));
    assert_eq!(parse_max_results("0"), MaxResultsInput::TooSmall);
    assert_eq!(parse_max_results("ten"), MaxResultsInput::NotANumber);
    assert_eq!(check_base_url(" https://example.com/v1 "), UrlInput::Valid);
    assert_eq!(check_base_url("ftp://example.com"), UrlInput::WrongScheme);
    assert_eq!(check_base_url("example"), UrlInput::NotAUrl);
    assert_eq!(check_scheme(Some("http")), UrlInput::Valid);
    assert_eq!(check_scheme(None), UrlInput::NotAUrl);
    assert!(is_custom_label("自定義 API"));
    assert!(is_model_name(" m ") && !is_model_name(" "));
    assert_eq!(openai_model("進階模型"), "gpt-5.4-2026-03-05");
    let s = openai_settings("基礎模型", " key ").ok().unwrap();
    assert_eq!((s.api_key.as_str(), s.model.as_str()), ("key", "gpt-5-mini-2025-08-07"));
    assert_eq!(openai_settings("x", " ").err(), Some(ConfigError::EmptyOpenAIKey));
    let s = custom_settings(" http://h/v1// ", " k ", " m ").ok().unwrap();
    assert!(matches!(s.provider, LLMProvider::Custom { base_url } if base_url == "http://h/v1"));
    assert_eq!(custom_settings("u", " ", "m").err(), Some(ConfigError::EmptyCustomKey));
    assert_eq!(ConfigError::EmptyModel.message(), "Model name 不可為空");
}
