use edgequake::safety_limits::{
    check_api_key, choose_provider, concurrency_setting, default_model_for_lowercase,
    default_model_for_provider, is_local_provider, required_api_key, secs_per_page_for_provider,
    size_of_setting, vision_limits, vision_outer_timeout_secs, vision_page_timeout_secs,
    ProviderChoice, SafetyLimitsConfig, ABSOLUTE_MAX_TOKENS,
};

#[test]
fn limits_are_brought_within_bounds() {
    let low = SafetyLimitsConfig::new(0, 1);
    assert_eq!((low.max_tokens, low.timeout_secs), (1, 10));
    let high = SafetyLimitsConfig::new(1_000_000, 100_000);
    assert_eq!((high.max_tokens, high.timeout_secs), (32768, 600));
    let kept = SafetyLimitsConfig::new(2000, 60);
    assert_eq!((kept.max_tokens, kept.timeout_secs), (2000, 60));
    assert!(kept.log_enforcement);
    assert!(!kept.without_logging().log_enforcement);
}

#[test]
fn presets_have_their_values() {
    let d = SafetyLimitsConfig::default();
    assert_eq!((d.max_tokens, d.timeout_secs), (8192, 600));
    let s = SafetyLimitsConfig::strict();
    assert_eq!((s.max_tokens, s.timeout_secs), (1024, 30));
    let p = SafetyLimitsConfig::permissive();
    assert_eq!((p.max_tokens, p.timeout_secs), (32768, 600));
}

#[test]
fn settings_are_parsed_or_defaulted() {
    let c = SafetyLimitsConfig::from_settings(Some("4096"), Some("45"));
    assert_eq!((c.max_tokens, c.timeout_secs), (4096, 45));
    let c = SafetyLimitsConfig::from_settings(Some("many"), None);
    assert_eq!((c.max_tokens, c.timeout_secs), (8192, 600));
    let c = SafetyLimitsConfig::from_settings(Some("+7"), Some(" 45"));
    assert_eq!((c.max_tokens, c.timeout_secs), (7, 600));
    assert_eq!(size_of_setting(Some("99999999999999999999"), 3), 3);
    assert_eq!(concurrency_setting(Some("0"), 3), 1);
    assert_eq!(concurrency_setting(Some("x"), 3), 3);
    assert_eq!(concurrency_setting(Some("12"), 3), 12);
}

#[test]
fn requests_are_cut_down_to_the_limit() {
    let c = SafetyLimitsConfig::new(1000, 60);
    assert_eq!(c.apply_token_limit(None), 1000);
    assert_eq!(c.apply_token_limit(Some(10)), 10);
    assert_eq!(c.apply_token_limit(Some(5000)), 1000);
    assert!(c.apply_token_limit(Some(usize::MAX)) <= ABSOLUTE_MAX_TOKENS);
    assert!(c.logs_clamp(Some(5000)));
    assert!(!c.logs_clamp(Some(1000)));
    assert!(!c.logs_clamp(None));
    assert!(!c.without_logging().logs_clamp(Some(5000)));
}

#[test]
fn keys_are_asked_for_by_name() {
    assert_eq!(required_api_key("openai"), Some(("OPENAI_API_KEY", "OpenAI")));
    assert_eq!(required_api_key("anthropic"), Some(("ANTHROPIC_API_KEY", "Anthropic")));
    assert_eq!(required_api_key("gemini"), Some(("GEMINI_API_KEY", "Gemini")));
    assert_eq!(required_api_key("mistral"), Some(("MISTRAL_API_KEY", "Mistral")));
    assert_eq!(required_api_key("xai"), Some(("XAI_API_KEY", "xAI")));
    assert_eq!(required_api_key("openrouter"), Some(("OPENROUTER_API_KEY", "OpenRouter")));
    assert_eq!(required_api_key("ollama"), None);
    assert_eq!(check_api_key("ollama", None), Ok(()));
    assert_eq!(check_api_key("xai", Some("k")), Ok(()));
    let message = "XAI_API_KEY is not set. To use the xAI provider, set the environment variable and restart the server. Alternatively, select the Ollama provider which runs locally.";
    assert_eq!(check_api_key("xai", None), Err(message.to_string()));
    assert_eq!(check_api_key("xai", Some(" \n")), Err(message.to_string()));
}

#[test]
fn compatible_servers_get_their_own_limit() {
    let url = || Some("http://h".to_string());
    let choice = choose_provider("openai-compatible", Some("90"), url(), Some(String::new()));
    assert!(matches!(
        choice,
        ProviderChoice::Compatible { base_url, timeout_secs: 90, api_key: None }
            if base_url == "http://h"
    ));
    let choice = choose_provider("openai-compatible", Some("90"), url(), Some("k".to_string()));
    assert!(matches!(
        choice,
        ProviderChoice::Compatible { api_key: Some(k), .. } if k == "k"
    ));
    assert!(matches!(
        choose_provider("openai", Some("90"), url(), None),
        ProviderChoice::Standard
    ));
    assert!(matches!(
        choose_provider("openai-compatible", Some("soon"), url(), None),
        ProviderChoice::Standard
    ));
    assert!(matches!(
        choose_provider("openai-compatible", Some("90"), None, None),
        ProviderChoice::Standard
    ));
}

#[test]
fn local_providers_get_more_time() {
    assert!(is_local_provider("Ollama"));
    assert!(is_local_provider("LM_Studio"));
    assert!(!is_local_provider("openai"));
    assert_eq!(secs_per_page_for_provider("ollama", None), 30);
    assert_eq!(secs_per_page_for_provider("openai", None), 8);
    assert_eq!(secs_per_page_for_provider("openai", Some("2")), 5);
    assert_eq!(secs_per_page_for_provider("openai", Some("17")), 17);
    assert_eq!(vision_page_timeout_secs("ollama", None), 600);
    assert_eq!(vision_page_timeout_secs("openai", None), 120);
    assert_eq!(vision_page_timeout_secs("openai", Some("1")), 10);
    assert_eq!(vision_limits("openai", Some("5000")).timeout_secs, 5000);
    assert_eq!(vision_limits("openai", None).max_tokens, 8192);
}

#[test]
fn a_whole_document_takes_as_long_as_its_pages() {
    assert_eq!(vision_outer_timeout_secs("openai", 0, None), 120);
    assert_eq!(vision_outer_timeout_secs("openai", 10, None), 200);
    assert_eq!(vision_outer_timeout_secs("ollama", 10, None), 420);
    assert_eq!(vision_outer_timeout_secs("ollama", usize::MAX, None), 86_400);
    let mut last = 0;
    for pages in [1, 2, 50, 2875, 2876, 2877, 100_000] {
        let t = vision_outer_timeout_secs("ollama", pages, None);
        assert!(t >= last);
        last = t;
    }
}

#[test]
fn providers_have_default_models() {
    let default_model = |name: &str| default_model_for_provider(name, "configured");
    assert_eq!(default_model("OpenAI"), "gpt-4.1-nano");
    assert_eq!(default_model("gemini"), "gemini-2.5-flash");
    assert_eq!(default_model("XAI"), "grok-4-1-fast");
    assert_eq!(default_model("openrouter"), "openai/gpt-4o-mini");
    assert_eq!(default_model("ollama"), "gemma3:12b");
    assert_eq!(default_model("LM-Studio"), "gemma-3n-e4b-it");
    assert_eq!(default_model("minimax"), "MiniMax-M2.7");
    assert_eq!(default_model("moc\u{212a}"), "mock-model");
    assert_eq!(default_model("Anthropic"), "configured");
    assert_eq!(default_model_for_lowercase("nobody", "configured"), "gpt-4.1-nano");
}
