use edgequake::tasks::{
    and_mark, cat, cat3, cat4, ensure_v1_suffix, figure_embedding_address,
    figure_reading_possible, is_scoped, mark, reads_as_uuid, require_workspace,
    resolve_accept_unofficial, resolve_embedding_base_url, resolve_table_classification_llm,
    resolve_workspace_llm, size_of_number, vector_table_pattern, workspace_short_id,
    workspace_uuid, FailureKind, Hosts, ModelChoice, ModelsConfig, ProviderConfig, TaskFailure,
    WorkspaceLookup, WorkspaceModels,
};

fn models() -> WorkspaceModels {
    WorkspaceModels {
        llm_provider: "ollama".to_string(),
        llm_model: "gemma3:12b".to_string(),
        embedding_provider: "openai".to_string(),
        embedding_model: "text-embedding-3-small".to_string(),
        algorithm_analysis_llm_provider: None,
        algorithm_analysis_llm_model: None,
        algorithm_extraction_llm_provider: None,
        algorithm_extraction_llm_model: None,
        algorithm_review_mode: None,
        accept_unofficial_implementations: None,
    }
}

fn found() -> WorkspaceLookup {
    WorkspaceLookup::Found { models: models() }
}

fn hosts() -> Hosts {
    Hosts {
        lmstudio: Some("http://lm:1234/".to_string()),
        ollama: None,
    }
}

fn configured(base_url: Option<&str>, env: Option<&str>, vision: Option<bool>) -> Option<ModelsConfig> {
    Some(ModelsConfig {
        provider: Some(ProviderConfig {
            base_url: base_url.map(String::from),
            base_url_env: env.map(String::from),
        }),
        supports_vision: vision,
    })
}

#[test]
fn texts_are_joined() {
    assert_eq!(cat("a", "b"), "ab");
    assert_eq!(cat3("a", "", "c"), "ac");
    assert_eq!(cat4("ä", "b", "c", "d"), "äbcd");
}

#[test]
fn progress_marks_come_in_order() {
    let marks = and_mark(mark("reading", 1, 10), "completed", 2, 100);
    assert_eq!(marks.len(), 2);
    assert_eq!((marks[0].stage, marks[0].step, marks[0].percent), ("reading", 1, 10));
    assert_eq!((marks[1].stage, marks[1].step, marks[1].percent), ("completed", 2, 100));
}

#[test]
fn failures_carry_their_kind() {
    let f = TaskFailure::new(FailureKind::NotFound, "gone".to_string());
    assert_eq!(f.kind, FailureKind::NotFound);
    assert_eq!(f.message, "gone");
}

#[test]
fn negative_numbers_wrap_round() {
    assert_eq!(size_of_number(7), 7);
    assert_eq!(size_of_number(0), 0);
    assert_eq!(size_of_number(-1), usize::MAX);
    assert_eq!(size_of_number(-5), (-5i32) as usize);
    assert_eq!(size_of_number(i32::MIN), i32::MIN as usize);
}

#[test]
fn the_default_workspace_is_not_looked_up() {
    assert!(!is_scoped(""));
    assert!(!is_scoped("default"));
    assert!(is_scoped("Default"));
    assert!(is_scoped("3f2504e0-4f89-11d3-9a0c-0305e82c3301"));
}

#[test]
fn uuids_are_read() {
    let id = 0x3f2504e0_4f89_11d3_9a0c_0305e82c3301u128;
    assert!(reads_as_uuid("3f2504e0-4f89-11d3-9a0c-0305e82c3301"));
    assert!(!reads_as_uuid("default"));
    assert_eq!(workspace_uuid("3F2504E0-4F89-11D3-9A0C-0305E82C3301"), Ok(id));
    let e = workspace_uuid("no \"id\"").unwrap_err();
    assert!(e.starts_with("invalid workspace_id \"no \\\"id\\\"\": "), "{e}");
    assert!(e.len() > "invalid workspace_id \"no \\\"id\\\"\": ".len());
}

#[test]
fn vector_tables_are_named_after_the_workspace() {
    let id = 0x3f2504e0_4f89_11d3_9a0c_0305e82c3301u128;
    assert_eq!(workspace_short_id(id), "3f2504e0");
    assert_eq!(workspace_short_id(0x1), "00000000");
    assert_eq!(vector_table_pattern(id), "eq_%_ws_3f2504e0_vectors");
}

#[test]
fn a_workspace_brings_its_model() {
    let named = resolve_workspace_llm(&found());
    assert!(matches!(
        named,
        ModelChoice::Named { provider, model } if provider == "ollama" && model == "gemma3:12b"
    ));
    assert!(matches!(
        resolve_workspace_llm(&WorkspaceLookup::Missing),
        ModelChoice::ServerDefault
    ));
    assert!(matches!(
        resolve_workspace_llm(&WorkspaceLookup::NoService),
        ModelChoice::ServerDefault
    ));
    let failed = WorkspaceLookup::Failed { error: "down".to_string() };
    assert!(matches!(resolve_workspace_llm(&failed), ModelChoice::ServerDefault));
    assert!(matches!(
        resolve_table_classification_llm("default", &found()),
        ModelChoice::ServerDefault
    ));
    assert!(matches!(
        resolve_table_classification_llm("w", &found()),
        ModelChoice::Named { .. }
    ));
}

#[test]
fn unofficial_candidates_need_consent() {
    assert!(!resolve_accept_unofficial(&found()));
    assert!(!resolve_accept_unofficial(&WorkspaceLookup::NoService));
    let mut m = models();
    m.accept_unofficial_implementations = Some(true);
    assert!(resolve_accept_unofficial(&WorkspaceLookup::Found { models: m.clone() }));
    m.accept_unofficial_implementations = Some(false);
    assert!(!resolve_accept_unofficial(&WorkspaceLookup::Found { models: m }));
}

#[test]
fn a_required_workspace_must_be_there() {
    let id = 0x3f2504e0_4f89_11d3_9a0c_0305e82c3301u128;
    assert_eq!(require_workspace(id, found()).unwrap().llm_provider, "ollama");
    assert_eq!(
        require_workspace(id, WorkspaceLookup::NoService).unwrap_err(),
        "no workspace_service"
    );
    assert_eq!(
        require_workspace(id, WorkspaceLookup::Failed { error: "x".to_string() }).unwrap_err(),
        "get_workspace: x"
    );
    assert_eq!(
        require_workspace(id, WorkspaceLookup::Missing).unwrap_err(),
        "workspace 3f2504e0-4f89-11d3-9a0c-0305e82c3301 not found"
    );
}

#[test]
fn the_version_suffix_is_added_once() {
    assert_eq!(ensure_v1_suffix("http://h:1"), "http://h:1/v1");
    assert_eq!(ensure_v1_suffix("http://h:1///"), "http://h:1/v1");
    assert_eq!(ensure_v1_suffix("http://h:1/v1/"), "http://h:1/v1");
    let once = ensure_v1_suffix("http://h:1/api/");
    assert_eq!(ensure_v1_suffix(&once), once);
}

#[test]
fn embedding_addresses_are_resolved_in_order() {
    let h = hosts();
    assert_eq!(
        resolve_embedding_base_url(&configured(Some("http://a/"), Some("http://b"), None), "x", &h),
        Ok("http://a/".to_string())
    );
    assert_eq!(
        resolve_embedding_base_url(&configured(None, Some("http://b/"), None), "x", &h),
        Ok("http://b/v1".to_string())
    );
    assert_eq!(
        resolve_embedding_base_url(&configured(None, None, None), "LM-Studio", &h),
        Ok("http://lm:1234/v1".to_string())
    );
    assert_eq!(
        resolve_embedding_base_url(&configured(None, None, None), "openai", &h),
        Ok("https://api.openai.com/v1".to_string())
    );
    assert_eq!(
        resolve_embedding_base_url(&configured(None, None, None), "ollama", &h).unwrap_err(),
        "provider ollama has no base_url and no env-var fallback resolved"
    );
    assert_eq!(
        resolve_embedding_base_url(&None, "x", &h).unwrap_err(),
        "no models_config"
    );
    let nobody = Some(ModelsConfig { provider: None, supports_vision: None });
    assert_eq!(
        resolve_embedding_base_url(&nobody, "x", &h).unwrap_err(),
        "provider x not in models.toml"
    );
}

#[test]
fn figures_are_embedded_by_models_that_see() {
    let h = hosts();
    let seeing = configured(Some("http://a"), None, Some(true));
    assert_eq!(
        figure_embedding_address(&seeing, "p", "m", &h),
        Ok(Some("http://a".to_string()))
    );
    let blind = configured(Some("http://a"), None, Some(false));
    assert_eq!(figure_embedding_address(&blind, "p", "m", &h), Ok(None));
    let unlisted = configured(Some("http://a"), None, None);
    assert_eq!(
        figure_embedding_address(&unlisted, "p", "m", &h).unwrap_err(),
        "model m not in provider p"
    );
    let nowhere = configured(None, None, Some(true));
    assert_eq!(
        figure_embedding_address(&nowhere, "p", "m", &h).unwrap_err(),
        "provider p has no base_url and no env-var fallback resolved; set `base_url` in models.toml or the provider's *_HOST env var"
    );
    assert_eq!(figure_reading_possible(&seeing, "p", "m"), Ok(true));
    assert_eq!(figure_reading_possible(&blind, "p", "m"), Ok(false));
    assert_eq!(
        figure_reading_possible(&unlisted, "p", "m").unwrap_err(),
        "model m not in provider p"
    );
    assert_eq!(figure_reading_possible(&None, "p", "m").unwrap_err(), "no models_config");
}
