use codex_switch::config_merge::{
    merge_codex_app_level_config, merge_codex_plugin_sections, normalize_codex_config_text,
};


#[test]
fn merge_plugin_sections_carries_plugins_and_marketplaces_over() {
    let existing = r#"model = "gpt-5.4"

[marketplaces.echobird-cn]
source_type = "github"
source = "https://github.com/echobird-cn/codex-plugins"

[plugins."github@echobird-cn"]
enabled = true
"#;
    let new_config = r#"model_provider = "custom"
model = "deepseek-v4-flash"

[model_providers.custom]
name = "deepseek"
base_url = "https://api.deepseek.com"
"#;

    let merged = merge_codex_plugin_sections(existing, new_config).expect("merge");
    let parsed: toml::Value = toml::from_str(&merged).expect("parse merged");

    // Provider state from the new config is intact.
    assert_eq!(
        parsed.get("model").and_then(|v| v.as_str()),
        Some("deepseek-v4-flash")
    );

    // Plugin/marketplace state from the existing config is preserved.
    let marketplace = parsed
        .get("marketplaces")
        .and_then(|v| v.get("echobird-cn"))
        .and_then(|v| v.get("source_type"))
        .and_then(|v| v.as_str());
    assert_eq!(marketplace, Some("github"));
    let enabled = parsed
        .get("plugins")
        .and_then(|v| v.get("github@echobird-cn"))
        .and_then(|v| v.get("enabled"))
        .and_then(|v| v.as_bool());
    assert_eq!(enabled, Some(true));
}

#[test]
fn merge_plugin_sections_merges_entries_and_keeps_new_entry_authoritative() {
    let existing = r#"[marketplaces.openai-primary-runtime]
source_type = "local"
source = "C:/old-runtime"

[marketplaces.echobird-cn]
source_type = "github"
source = "https://github.com/echobird-cn/codex-plugins"

[plugins."github@echobird-cn"]
enabled = true

[plugins."pdf@openai-primary-runtime"]
enabled = false
"#;
    let new_config = r#"model = "gpt-5.4"

[marketplaces.openai-primary-runtime]
source_type = "local"
source = "C:/new-runtime"

[plugins."pdf@openai-primary-runtime"]
enabled = true
"#;
    let merged = merge_codex_plugin_sections(existing, new_config).expect("merge");
    let parsed: toml::Value = toml::from_str(&merged).expect("parse merged");
    let plugins = parsed
        .get("plugins")
        .and_then(|v| v.as_table())
        .expect("plugins table");
    let marketplaces = parsed
        .get("marketplaces")
        .and_then(|v| v.as_table())
        .expect("marketplaces table");

    // Unrelated registrations from the live config survive.
    assert!(plugins.contains_key("github@echobird-cn"));
    assert!(marketplaces.contains_key("echobird-cn"));
    // A same-name entry explicitly supplied by the new config wins.
    assert_eq!(
        plugins
            .get("pdf@openai-primary-runtime")
            .and_then(|v| v.get("enabled"))
            .and_then(|v| v.as_bool()),
        Some(true)
    );
    assert_eq!(
        marketplaces
            .get("openai-primary-runtime")
            .and_then(|v| v.get("source"))
            .and_then(|v| v.as_str()),
        Some("C:/new-runtime")
    );
}

#[test]
fn merge_plugin_sections_is_noop_without_existing_plugin_state() {
    let existing = "model = \"gpt-5.4\"\n";
    let new_config = "model = \"deepseek-v4-flash\"\n";
    let merged = merge_codex_plugin_sections(existing, new_config).expect("merge");
    assert_eq!(merged, new_config);
}

#[test]
fn merge_plugin_sections_tolerates_invalid_existing_config() {
    let existing = "this is not [[[ valid toml";
    let new_config = "model = \"deepseek-v4-flash\"\n";
    let merged = merge_codex_plugin_sections(existing, new_config).expect("merge");
    assert_eq!(merged, new_config);
}

#[test]
fn merge_plugin_sections_ignores_non_table_plugin_state() {
    let existing = "plugins = [\"a\"]\n";
    let new_config = "model = \"deepseek-v4-flash\"\n";
    let merged = merge_codex_plugin_sections(existing, new_config).expect("merge");
    let parsed: toml::Value = toml::from_str(&merged).expect("parse merged");
    assert!(parsed.get("plugins").is_none());
}

#[test]
fn merge_app_level_config_carries_shared_keys_and_tables() {
    let existing = r#"model_provider = "old"
model = "gpt-5.4"
sqlite_home = "C:/Users/test/.cc-switch/codex/state"
model_context_window = 200_000
web_search = "live"

[model_providers.old]
name = "Old"
base_url = "https://old.example/v1"

[tui]
notifications = false
theme = "dark"

[approval_policy]
allow = ["Bash(git*)"]
"#;
    let new_config = r#"model_provider = "new"
model = "gpt-5.5"

[model_providers.new]
name = "New"
base_url = "https://new.example/v1"
"#;

    let merged =
        merge_codex_app_level_config(existing, new_config).expect("merge app-level config");
    let parsed: toml::Value = toml::from_str(&merged).expect("parse merged");

    // Provider-owned keys come from the new config.
    assert_eq!(
        parsed.get("model_provider").and_then(toml::Value::as_str),
        Some("new")
    );
    assert_eq!(
        parsed.get("model").and_then(toml::Value::as_str),
        Some("gpt-5.5")
    );
    assert!(parsed.get("model_providers").is_some());
    assert!(parsed["model_providers"].get("old").is_none());

    // App-level shared keys are carried over.
    assert_eq!(
        parsed.get("sqlite_home").and_then(toml::Value::as_str),
        Some("C:/Users/test/.cc-switch/codex/state")
    );
    assert_eq!(
        parsed
            .get("model_context_window")
            .and_then(toml::Value::as_integer),
        Some(200_000)
    );
    assert_eq!(
        parsed.get("web_search").and_then(toml::Value::as_str),
        Some("live"),
        "a user's legacy web_search value is migrated and kept as app-level config"
    );
    assert_eq!(
        parsed["tui"]
            .get("notifications")
            .and_then(toml::Value::as_bool),
        Some(false)
    );
    assert_eq!(
        parsed["tui"].get("theme").and_then(toml::Value::as_str),
        Some("dark")
    );
    assert_eq!(
        parsed["approval_policy"]["allow"][0].as_str(),
        Some("Bash(git*)")
    );
}

#[test]
fn merge_app_level_config_never_carries_provider_owned_keys() {
    let existing = r#"model_provider = "old"
model = "gpt-4o"
base_url = "https://old.example/v1"
experimental_bearer_token = "sk-old-secret"
model_catalog_json = "cc-switch-model-catalog.json"
web_search = "disabled"

[model_providers.old]
name = "Old"
base_url = "https://old.example/v1"
experimental_bearer_token = "sk-old-table-secret"

[mcp_servers.echo]
command = "npx"
args = ["echo-server"]
"#;
    let new_config = r#"model_provider = "new"
model = "gpt-5.5"

[model_providers.new]
name = "New"
base_url = "https://new.example/v1"
"#;

    let merged =
        merge_codex_app_level_config(existing, new_config).expect("merge app-level config");
    let parsed: toml::Value = toml::from_str(&merged).expect("parse merged");

    assert_eq!(
        parsed.get("model_provider").and_then(toml::Value::as_str),
        Some("new")
    );
    assert_eq!(
        parsed.get("model").and_then(toml::Value::as_str),
        Some("gpt-5.5")
    );
    assert!(parsed["model_providers"].get("old").is_none());
    assert!(parsed.get("experimental_bearer_token").is_none());
    assert!(parsed.get("model_catalog_json").is_none());
    assert!(
        parsed.get("web_search").is_none(),
        "cc-switch's disabled sentinel must not leak across routes"
    );
    assert!(
        parsed.get("mcp_servers").is_none(),
        "MCP is DB-managed and re-projected on switch"
    );
    assert_eq!(
        parsed["model_providers"]["new"]["base_url"]
            .as_str()
            .unwrap_or_default(),
        "https://new.example/v1"
    );
}

#[test]
fn merge_app_level_config_new_config_wins_and_missing_keys_carried() {
    let existing = r#"sqlite_home = "C:/state"
model_context_window = 64_000

[tui]
notifications = false
theme = "dark"
"#;
    let new_config = r#"model_provider = "new"
model = "gpt-5.5"

[tui]
notifications = true
"#;

    let merged =
        merge_codex_app_level_config(existing, new_config).expect("merge app-level config");
    let parsed: toml::Value = toml::from_str(&merged).expect("parse merged");

    assert_eq!(
        parsed["tui"]
            .get("notifications")
            .and_then(toml::Value::as_bool),
        Some(true),
        "the new config's own [tui] wins over the existing live file"
    );
    assert_eq!(
        parsed["tui"].get("theme").and_then(toml::Value::as_str),
        Some("dark"),
        "app-level keys missing from the new config are still carried"
    );
    assert_eq!(
        parsed.get("sqlite_home").and_then(toml::Value::as_str),
        Some("C:/state")
    );
    assert_eq!(
        parsed
            .get("model_context_window")
            .and_then(toml::Value::as_integer),
        Some(64_000)
    );
}

#[test]
fn merge_app_level_config_tolerates_invalid_existing_config() {
    let merged =
        merge_codex_app_level_config("[broken", "model = \"gpt-5.5\"\n").expect("merge");
    assert_eq!(merged, "model = \"gpt-5.5\"\n");
}

#[test]
fn normalize_codex_config_migrates_legacy_web_search_without_touching_plugins() {
    let input = r#"web_search = "enabled"

[plugins.example]
enabled = true
"#;
    let normalized = normalize_codex_config_text(input).expect("normalize config");
    let parsed: toml::Value = toml::from_str(&normalized).expect("parse normalized config");

    assert_eq!(
        parsed.get("web_search").and_then(toml::Value::as_str),
        Some("live")
    );
    assert_eq!(
        parsed["plugins"]["example"]
            .get("enabled")
            .and_then(toml::Value::as_bool),
        Some(true),
        "plugin enabled flags must not be mistaken for Codex web_search"
    );
}

#[test]
fn normalize_codex_config_keeps_current_web_search_modes() {
    for mode in ["disabled", "cached", "indexed", "live"] {
        let input = format!("web_search = \"{mode}\"\n");
        let normalized = normalize_codex_config_text(&input).expect("normalize config");
        let parsed: toml::Value = toml::from_str(&normalized).expect("parse config");
        assert_eq!(
            parsed.get("web_search").and_then(toml::Value::as_str),
            Some(mode)
        );
    }
}
