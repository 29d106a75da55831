use lam_tui::agent_config::{
    default_path, key_variable, sections, AgentConfig, AgentConfigError, AgentSource, FileConfig,
    ProviderSection,
};

fn section(enabled: bool) -> ProviderSection {
    ProviderSection { enabled, api_key: None, api_key_env: None, functions: None, base_url: None }
}

/// Loads a configuration in an environment without any variable.
fn load(exa: Option<ProviderSection>, parallel: Option<ProviderSection>) -> (AgentConfig, Vec<String>) {
    let (exa, parallel) =
        sections("config.toml", AgentSource::Parsed(FileConfig { exa, parallel })).unwrap();
    AgentConfig::load("config.toml".to_owned(), &exa, None, &parallel, None)
}

#[test]
fn missing_file_soft_skips_when_using_inline_disabled_sections() {
    let (config, warnings) = load(Some(section(false)), Some(section(false)));
    assert!(config.exa.is_none());
    assert!(config.parallel.is_none());
    assert!(warnings.is_empty());
    assert!(!config.has_search());
}

#[test]
fn parses_keys_and_function_allowlist() {
    let exa = ProviderSection {
        api_key: Some("exa-test".to_owned()),
        functions: Some(vec!["search".to_owned(), "context".to_owned()]),
        ..section(true)
    };
    let parallel =
        ProviderSection { api_key: Some("parallel-test".to_owned()), ..section(false) };
    let (config, warnings) = load(Some(exa), Some(parallel));
    assert!(warnings.is_empty());
    let exa = config.exa.as_ref().expect("exa configured");
    assert_eq!(exa.api_key, "exa-test");
    let functions = exa.functions.unwrap();
    assert!(functions.search);
    assert!(functions.context);
    assert!(!functions.answer);
    assert!(config.parallel.is_none());
    assert!(config.has_search());
}

#[test]
fn rejects_both_api_key_fields() {
    let exa = ProviderSection {
        api_key: Some("a".to_owned()),
        api_key_env: Some("B".to_owned()),
        ..section(true)
    };
    let (config, warnings) = load(Some(exa), None);
    assert!(config.exa.is_none());
    assert!(warnings.iter().any(|w| w.contains("only one of")));
}

#[test]
fn missing_env_key_soft_skips_provider() {
    let exa = ProviderSection {
        api_key_env: Some("LAM_TEST_MISSING_EXA_KEY_XYZ_NEVER_SET".to_owned()),
        ..section(true)
    };
    let (config, warnings) = load(Some(exa), Some(section(false)));
    assert!(config.exa.is_none());
    assert!(warnings.iter().any(|w| w.contains("Exa")));
}

#[test]
fn sections_that_are_left_out_look_for_the_conventional_variable() {
    let (exa, parallel) = sections("config.toml", AgentSource::Missing).unwrap();
    assert_eq!(key_variable(&exa, "unused"), "EXA_API_KEY");
    assert_eq!(key_variable(&parallel, "unused"), "PARALLEL_API_KEY");
    assert_eq!(key_variable(&section(true), "EXA_API_KEY"), "EXA_API_KEY");
    let (config, warnings) =
        AgentConfig::load("config.toml".to_owned(), &exa, Some("k"), &parallel, Some("  "));
    assert_eq!(config.exa.unwrap().api_key, "k");
    assert_eq!(
        warnings,
        ["Parallel search not configured (set [parallel] api_key_env / PARALLEL_API_KEY)."]
    );
}

#[test]
fn unknown_functions_are_reported() {
    let parallel = ProviderSection {
        api_key: Some("k".to_owned()),
        functions: Some(vec!["extract".to_owned(), "dig".to_owned()]),
        ..section(true)
    };
    let (_, warnings) = load(Some(section(false)), Some(parallel));
    assert_eq!(
        warnings,
        ["Parallel search skipped: invalid agent configuration: unknown parallel function `dig`; expected one of search, extract"]
    );
}

#[test]
fn files_that_cannot_be_used_are_errors() {
    let unreadable = sections("c", AgentSource::Unreadable("denied".to_owned())).unwrap_err();
    assert_eq!(unreadable.message(), "could not read agent configuration at `c`: denied");
    let malformed = sections("c", AgentSource::Malformed("line 1".to_owned())).unwrap_err();
    assert_eq!(malformed.message(), "could not parse agent configuration at `c`: line 1");
    assert_eq!(default_path(Some("/home/me")).unwrap(), "/home/me/.lam/config.toml");
    assert_eq!(default_path(None), Err(AgentConfigError::HomeUnavailable));
}
