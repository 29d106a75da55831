use lam_tui::config::{
    add_builtin_codex_provider, default_path, unique_provider_name, validate, validate_model_id,
    validate_provider_name, ConfigError, ConfigSource, Field, LoadedConfig, ModelConfig,
    ProviderConfig, ProviderProtocol, ProvidersConfig, Setting,
};

const VALID: &str = r#"
default_model = "openai/gpt-5"

[[providers]]
name = "openai"
type = "openai-responses"
api_key = "test-key"

[[providers.models]]
id = "gpt-5"
name = "GPT-5"
context_window = 400000
efforts = ["none", "low", "medium", "high", "xhigh", "max"]

[[providers.models]]
id = "gpt-5-mini"
name = "GPT-5 mini"
context_window = 128000
efforts = ["low", "medium", "high"]
"#;

fn text_of(table: &toml::Table, name: &str) -> Option<String> {
    table.get(name).and_then(|value| value.as_str()).map(str::to_owned)
}

fn fields_of(table: &toml::Table) -> Vec<Field> {
    table
        .iter()
        .map(|(name, value)| Field {
            name: name.clone(),
            value: match value {
                toml::Value::Table(inner) => Setting::Table(fields_of(inner)),
                toml::Value::String(s) => Setting::Value(format!("\"{s}\"")),
                other => Setting::Value(other.to_string()),
            },
        })
        .collect()
}

fn model_of(table: &toml::Table) -> ModelConfig {
    ModelConfig {
        id: text_of(table, "id").unwrap(),
        name: text_of(table, "name").unwrap(),
        context_window: table["context_window"].as_integer().unwrap() as u64,
        efforts: table["efforts"]
            .as_array()
            .unwrap()
            .iter()
            .map(|effort| effort.as_str().unwrap().to_owned())
            .collect(),
        extra_body: table
            .get("extra_body")
            .and_then(|body| body.as_table())
            .map_or_else(Vec::new, fields_of),
    }
}

fn provider_of(table: &toml::Table) -> ProviderConfig {
    ProviderConfig {
        name: text_of(table, "name").unwrap(),
        protocol: match table["type"].as_str().unwrap() {
            "openai-responses" => ProviderProtocol::OpenaiResponses,
            "openai-codex" => ProviderProtocol::OpenaiCodex,
            "openai-chat-completions" => ProviderProtocol::OpenaiChatCompletions,
            "xai-supergrok" => ProviderProtocol::XaiSupergrok,
            other => panic!("{other}"),
        },
        api_base: text_of(table, "api_base"),
        api_key: text_of(table, "api_key"),
        api_key_env: text_of(table, "api_key_env"),
        effort_path: text_of(table, "effort_path"),
        models: table["models"]
            .as_array()
            .unwrap()
            .iter()
            .map(|model| model_of(model.as_table().unwrap()))
            .collect(),
    }
}

fn config_of(source: &str) -> ProvidersConfig {
    let table: toml::Table = toml::from_str(source).unwrap();
    ProvidersConfig {
        default_model: text_of(&table, "default_model").unwrap(),
        providers: table["providers"]
            .as_array()
            .unwrap()
            .iter()
            .map(|provider| provider_of(provider.as_table().unwrap()))
            .collect(),
    }
}

#[test]
fn parses_grouped_models_and_finds_default() {
    let config = config_of(VALID);
    let (models, default) = validate(&config).unwrap();
    assert_eq!(models.len(), 2);
    assert_eq!(models[default].registry_id, "openai/gpt-5");
    assert_eq!(models[1].display_name, "GPT-5 mini");
}

#[test]
fn signed_in_codex_is_added_to_the_default_provider_catalog() {
    let loaded = LoadedConfig::from_source(
        "/home/providers.toml".to_owned(),
        ConfigSource::Parsed(config_of(VALID)),
        true,
    )
    .unwrap();
    assert_eq!(loaded.config.providers.len(), 2);
    assert!(loaded.models.iter().any(|model| model.registry_id == "codex/gpt-5.6-sol"));
    assert!(loaded.models.iter().any(|model| model.registry_id == "codex/gpt-5.6-terra"));
    assert_eq!(loaded.models[loaded.default_index].registry_id, "openai/gpt-5");
}

#[test]
fn signed_in_codex_can_start_without_a_provider_file() {
    let loaded = LoadedConfig::from_source(
        "/home/providers.toml".to_owned(),
        ConfigSource::Missing("No such file or directory".to_owned()),
        true,
    )
    .unwrap();
    assert_eq!(loaded.config.providers.len(), 1);
    assert_eq!(loaded.models.len(), 3);
    assert_eq!(loaded.models[loaded.default_index].registry_id, "codex/gpt-5.6-terra");
}

#[test]
fn configured_codex_provider_is_not_added_twice() {
    let mut config = config_of(
        &VALID
            .replace("type = \"openai-responses\"", "type = \"openai-codex\"")
            .replace("api_key = \"test-key\"\n", ""),
    );
    add_builtin_codex_provider(&mut config);
    assert_eq!(config.providers.len(), 1);
}

#[test]
fn parses_model_specific_request_options() {
    let source = VALID.replace(
        "efforts = [\"none\", \"low\", \"medium\", \"high\", \"xhigh\", \"max\"]",
        "efforts = [\"none\", \"low\", \"medium\", \"high\", \"xhigh\", \"max\"]\n\n[providers.models.extra_body]\nreasoning_history = \"interleaved\"",
    );
    let config = config_of(&source);
    let field = &config.providers[0].models[0].extra_body[0];
    assert_eq!(field.name, "reasoning_history");
    assert!(matches!(&field.value, Setting::Value(json) if json == "\"interleaved\""));
}

#[test]
fn defaults_effort_path_by_protocol_and_rejects_legacy_effort_body() {
    let config = config_of(VALID);
    assert_eq!(
        config.providers[0].resolved_effort_path().unwrap(),
        ["reasoning", "effort"]
    );
    let source = VALID.replace(
        "efforts = [\"none\", \"low\", \"medium\", \"high\", \"xhigh\", \"max\"]",
        "efforts = [\"none\", \"low\", \"medium\", \"high\", \"xhigh\", \"max\"]\n\n[providers.models.extra_body.reasoning]\neffort = \"high\"",
    );
    let config = config_of(&source);
    assert!(validate(&config)
        .unwrap_err()
        .message()
        .contains("use its efforts list instead"));
}

#[test]
fn rejects_empty_or_duplicate_efforts() {
    for efforts in ["[]", "[\"high\", \"high\"]"] {
        let source = VALID.replacen(
            "[\"none\", \"low\", \"medium\", \"high\", \"xhigh\", \"max\"]",
            efforts,
            1,
        );
        assert!(validate(&config_of(&source)).is_err());
    }
}

#[test]
fn accepts_provider_native_model_paths() {
    let source = VALID.replace(
        "gpt-5\"\nname = \"GPT-5\"",
        "accounts/fireworks/models/deepseek-v4-flash-0731\"\nname = \"GPT-5\"",
    );
    let source = source.replace(
        "default_model = \"openai/gpt-5\"",
        "default_model = \"openai/accounts/fireworks/models/deepseek-v4-flash-0731\"",
    );
    let config = config_of(&source);
    let (models, default) = validate(&config).unwrap();
    assert_eq!(
        models[default].model,
        "accounts/fireworks/models/deepseek-v4-flash-0731"
    );
}

#[test]
fn rejects_unknown_default_model() {
    let source = VALID.replace("openai/gpt-5\"", "openai/missing\"");
    assert!(validate(&config_of(&source)).unwrap_err().message().contains("is not present"));
}

#[test]
fn rejects_duplicate_provider_names() {
    let duplicate = r#"
[[providers]]
name = "openai"
type = "openai-chat-completions"

[[providers.models]]
id = "other"
name = "Other"
context_window = 1000
efforts = ["high"]
"#;
    let source = format!("{VALID}\n{duplicate}");
    assert!(validate(&config_of(&source))
        .unwrap_err()
        .message()
        .contains("configured more than once"));
}

#[test]
fn missing_api_key_env_is_not_a_config_error() {
    let source = VALID.replace(
        r#"api_key = "test-key""#,
        r#"api_key_env = "LAM_TEST_MISSING_PROVIDER_KEY_XYZ""#,
    );
    let config = config_of(&source);
    validate(&config).expect("missing env key must not fail config load");
    let err = config.providers[0].resolved_api_key(None).unwrap_err();
    assert!(matches!(err, ConfigError::MissingEnvironmentKey { .. }));
}

#[test]
fn codex_subscription_rejects_api_keys() {
    let source = VALID
        .replace("type = \"openai-responses\"", "type = \"openai-codex\"")
        .replace("api_key = \"test-key\"", "api_key = \"must-not-be-here\"");
    assert!(validate(&config_of(&source))
        .unwrap_err()
        .message()
        .contains("must not set api_key"));
}

#[test]
fn unreadable_and_malformed_files_are_told_apart() {
    let path = "/home/providers.toml".to_owned();
    let unreadable =
        LoadedConfig::from_source(path.clone(), ConfigSource::Unreadable("denied".to_owned()), true);
    assert_eq!(
        unreadable.unwrap_err().message(),
        "could not read provider configuration at `/home/providers.toml`: denied"
    );
    let malformed =
        LoadedConfig::from_source(path.clone(), ConfigSource::Malformed("line 1".to_owned()), true);
    assert_eq!(
        malformed.unwrap_err().message(),
        "could not parse provider configuration at `/home/providers.toml`: line 1"
    );
    let missing =
        LoadedConfig::from_source(path, ConfigSource::Missing("not found".to_owned()), false);
    assert_eq!(
        missing.unwrap_err().message(),
        "could not read provider configuration at `/home/providers.toml`: not found"
    );
    assert_eq!(
        ConfigError::HomeUnavailable.message(),
        "could not determine the home directory for ~/.lam/providers.toml"
    );
}

#[test]
fn names_and_model_ids_are_checked() {
    assert!(validate_provider_name("open-ai.2_x").is_ok());
    assert!(validate_provider_name("").is_err());
    assert!(validate_provider_name("a/b").is_err());
    assert!(validate_model_id("accounts/models/x").is_ok());
    assert!(validate_model_id("").is_err());
}

fn provider_named(name: &str) -> ProviderConfig {
    ProviderConfig { name: name.to_owned(), ..config_of(VALID).providers.remove(0) }
}

#[test]
fn taken_provider_names_are_numbered() {
    let mut config = config_of(VALID);
    assert_eq!(unique_provider_name(&config, "codex"), "codex");
    config.providers[0].name = "codex".to_owned();
    assert_eq!(unique_provider_name(&config, "codex"), "codex-subscription");
    config.providers.push(provider_named("codex-subscription"));
    assert_eq!(unique_provider_name(&config, "codex"), "codex-subscription-2");
    config.providers.push(provider_named("codex-subscription-2"));
    assert_eq!(unique_provider_name(&config, "codex"), "codex-subscription-3");
}

#[test]
fn keys_come_from_the_file_or_from_the_environment() {
    let mut config = config_of(VALID);
    let provider = &mut config.providers[0];
    assert_eq!(provider.resolved_api_key(None).unwrap().as_deref(), Some("test-key"));
    provider.api_key = None;
    assert_eq!(provider.resolved_api_key(Some("ignored")).unwrap(), None);
    provider.api_key_env = Some("OPENAI_KEY".to_owned());
    assert_eq!(provider.resolved_api_key(Some("k")).unwrap().as_deref(), Some("k"));
    assert_eq!(
        provider.resolved_api_key(None).unwrap_err().message(),
        "provider `openai` expects API key environment variable `OPENAI_KEY`"
    );
    provider.api_key = Some("both".to_owned());
    assert!(provider.validate_api_key_fields().is_err());
}

#[test]
fn the_provider_file_is_below_the_home_directory() {
    assert_eq!(default_path(Some("/home/me")).unwrap(), "/home/me/.lam/providers.toml");
    assert_eq!(default_path(Some("/")).unwrap(), "/.lam/providers.toml");
    assert_eq!(default_path(None).unwrap_err(), ConfigError::HomeUnavailable);
}
