use codex_switch::catalog_entry::CodexCatalogToolProfile;
use codex_switch::config_fields::extract_codex_experimental_bearer_token;
use codex_switch::error::AppError;
use codex_switch::json::{parse_json, Json};
use codex_switch::live_catalog::prepare_codex_config_text_with_model_catalog;
use codex_switch::live_config::{
    prepare_codex_provider_live_config, restore_codex_settings_for_backfill,
    strip_codex_mcp_servers_from_settings,
};
use codex_switch::model_specs::SlotTable;
use codex_switch::routed_catalog::{CapabilityTable, CatalogSources, ProxyTemplate};

fn json(text: &str) -> Json {
    parse_json(text).expect("JSON text")
}

fn settings_with_config(config: &str) -> Json {
    let mut settings = json(r#"{ "auth": {} }"#);
    settings.insert("config", Json::string(config));
    settings
}

fn no_slots() -> SlotTable {
    SlotTable { rows: Vec::new() }
}

fn no_sources() -> CatalogSources {
    CatalogSources {
        native_template: json("{}"),
        proxy_template: ProxyTemplate::Failed(AppError::Message("no template".to_string())),
        static_template: None,
        vendor_models: Vec::new(),
        capabilities: CapabilityTable { rows: Vec::new() },
    }
}


#[test]
fn strip_mcp_servers_from_settings_removes_table_and_legacy_form() {
    let mut settings = json(r##"{
        "auth": { "OPENAI_API_KEY": "sk-test" },
        "config": "# user comment\nmodel = \"gpt-5.5\"\n\n[mcp_servers.echo]\ntype = \"stdio\"\ncommand = \"echo\"\n\n[mcp.servers.legacy]\ncommand = \"noop\"\n"
    }"##);
    strip_codex_mcp_servers_from_settings(&mut settings).expect("strip mcp");
    let config = settings
        .get("config")
        .and_then(|v| v.as_str())
        .expect("config text");
    assert!(!config.contains("mcp_servers"), "got: {config}");
    assert!(
        !config.contains("[mcp"),
        "legacy [mcp.servers] gone: {config}"
    );
    assert!(config.contains("# user comment"), "comments preserved");
    assert!(config.contains("model = \"gpt-5.5\""));
}

#[test]
fn strip_mcp_servers_from_settings_is_noop_without_mcp() {
    let original = "# comment\nmodel = \"gpt-5.5\"\n";
    let mut settings = settings_with_config(original);
    strip_codex_mcp_servers_from_settings(&mut settings).expect("strip mcp");
    assert_eq!(
        settings.get("config").and_then(|v| v.as_str()),
        Some(original),
        "config text must be byte-identical when nothing is stripped"
    );
}

#[test]
fn prepare_provider_live_config_rejects_key_without_config() {
    let err = prepare_codex_provider_live_config(&json(r#"{"OPENAI_API_KEY": "sk-test"}"#), "")
        .expect_err("empty config with API key should not truncate live config");

    assert!(
        err.message().contains("config.toml"),
        "error should explain missing config.toml, got: {}",
        err.message()
    );
}

#[test]
fn prepare_provider_live_config_uses_top_level_token_for_reserved_provider() {
    let input = r#"model_provider = "openai"
model = "gpt-5"
"#;

    let output =
        prepare_codex_provider_live_config(&json(r#"{"OPENAI_API_KEY": "sk-test"}"#), input)
            .expect("prepare live config");
    let parsed: toml::Value = toml::from_str(&output).expect("parse output");

    assert_eq!(
        parsed
            .get("experimental_bearer_token")
            .and_then(|v| v.as_str()),
        Some("sk-test")
    );
    assert!(
        parsed.get("model_providers").is_none(),
        "reserved provider tables should not be synthesized"
    );
}

#[test]
fn prepare_provider_live_config_does_not_create_incomplete_provider_table() {
    let input = r#"model_provider = "vendor_x"
model = "gpt-5"
"#;

    let output =
        prepare_codex_provider_live_config(&json(r#"{"OPENAI_API_KEY": "sk-test"}"#), input)
            .expect("prepare live config");
    let parsed: toml::Value = toml::from_str(&output).expect("parse output");

    assert_eq!(
        parsed
            .get("experimental_bearer_token")
            .and_then(|v| v.as_str()),
        Some("sk-test")
    );
    assert!(
        parsed.get("model_providers").is_none(),
        "missing provider tables should not be synthesized without endpoint fields"
    );
}

#[test]
fn prepare_provider_live_config_preserves_custom_provider_id() {
    let input = r#"model_provider = "vendor_alpha"
model = "gpt-5.4"
profile = "work"

[model_providers.vendor_alpha]
name = "Vendor Alpha"
base_url = "https://alpha.example/v1"
wire_api = "responses"

[profiles.work]
model_provider = "vendor_alpha"
model = "gpt-5.4"
"#;

    let result =
        prepare_codex_provider_live_config(&json(r#"{"OPENAI_API_KEY": "sk-test"}"#), input)
            .expect("prepare live config");
    let parsed: toml::Value = toml::from_str(&result).unwrap();

    assert_eq!(
        parsed.get("model_provider").and_then(|v| v.as_str()),
        Some("vendor_alpha")
    );
    assert!(
        parsed
            .get("model_providers")
            .and_then(|v| v.get("custom"))
            .is_none(),
        "provider writes should not force custom provider ids"
    );
    assert_eq!(
        parsed
            .get("model_providers")
            .and_then(|v| v.get("vendor_alpha"))
            .and_then(|v| v.get("experimental_bearer_token"))
            .and_then(|v| v.as_str()),
        Some("sk-test")
    );
    assert_eq!(
        parsed
            .get("profiles")
            .and_then(|v| v.get("work"))
            .and_then(|v| v.get("model_provider"))
            .and_then(|v| v.as_str()),
        Some("vendor_alpha"),
        "profile provider references should be preserved"
    );
}

#[test]
fn backfill_preserves_live_model_provider_id() {
    let mut live_settings = settings_with_config(r#"model_provider = "vendor_beta"

[model_providers.vendor_beta]
name = "Vendor Beta"
base_url = "https://beta.example/v1"
wire_api = "responses"
"#);
    let template_settings = settings_with_config(r#"model_provider = "custom"

[model_providers.custom]
name = "Custom"
base_url = "https://custom.example/v1"
wire_api = "responses"
"#);

    restore_codex_settings_for_backfill(&mut live_settings, &template_settings, false).unwrap();
    let config = live_settings.get("config").and_then(Json::as_str).unwrap();
    let parsed: toml::Value = toml::from_str(config).unwrap();

    assert_eq!(
        parsed.get("model_provider").and_then(|v| v.as_str()),
        Some("vendor_beta")
    );
    assert!(
        parsed
            .get("model_providers")
            .and_then(|v| v.get("vendor_beta"))
            .is_some(),
        "backfill should not rewrite user-selected provider tables"
    );
}

#[test]
fn anthropic_profile_disables_web_search_without_catalog() {
    // The hosted tool is of no use to an Anthropic provider, with or
    // without a catalog.
    let config = "model = \"sonnet-4-6\"\n";
    let settings = json("{}");

    let anthropic = prepare_codex_config_text_with_model_catalog(
        &settings,
        &no_slots(),
        config,
        CodexCatalogToolProfile::Anthropic,
        None,
        &no_sources(),
    )
    .unwrap()
    .config;
    let parsed: toml::Value = toml::from_str(&anthropic).unwrap();
    assert_eq!(
        parsed.get("web_search").and_then(|v| v.as_str()),
        Some("disabled"),
        "Anthropic profile must disable web_search even with no catalog"
    );

    // ProxyChat on the same no-catalog path must NOT add a disable line.
    let proxy = prepare_codex_config_text_with_model_catalog(
        &settings,
        &no_slots(),
        config,
        CodexCatalogToolProfile::ProxyChat,
        None,
        &no_sources(),
    )
    .unwrap()
    .config;
    let parsed: toml::Value = toml::from_str(&proxy).unwrap();
    assert!(
        parsed.get("web_search").is_none(),
        "ProxyChat profile must not disable web_search on the no-catalog path"
    );
}

#[test]
fn the_api_key_is_the_token_of_the_live_config() {
    for config in [
        "model = \"m\"\n",
        "model_provider = \"openai\"\n",
        "model_provider = \"relay\"\n",
        "model_provider = \"relay\"\n[model_providers.relay]\nname = \"Relay\"\n",
        "model_provider = \"relay\"\nmodel_providers = { relay = { name = \"Relay\" } }\n",
        "model_provider = \"relay\"\n[model_providers.relay]\nexperimental_bearer_token = \"old\"\n",
    ] {
        let auth = json(r#"{ "OPENAI_API_KEY": " sk-new " }"#);
        let out = prepare_codex_provider_live_config(&auth, config).expect("config");
        assert_eq!(
            extract_codex_experimental_bearer_token(&out).as_deref(),
            Some("sk-new"),
            "{config}"
        );
    }
}
