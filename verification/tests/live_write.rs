use codex_switch::auth::{
    clear_stale_codex_live_auth_after_official_switch, codex_auth_has_login_material,
    codex_auth_has_oauth_login_material, extract_codex_api_key, extract_codex_auth_api_key,
};
use codex_switch::catalog_entry::CodexCatalogToolProfile;
use codex_switch::config_fields::{
    extract_codex_experimental_bearer_token, remove_codex_experimental_bearer_token,
    remove_codex_experimental_bearer_token_if, set_codex_experimental_bearer_token,
    set_codex_model_catalog_json_field, set_codex_native_web_search_field, update_codex_toml_field,
    validate_config_toml,
};
use codex_switch::config_merge::{
    merge_codex_app_level_config, normalize_codex_config_text,
    normalize_codex_config_text_best_effort,
};
use codex_switch::error::AppError;
use codex_switch::json::{parse_json, Json};
use codex_switch::live_catalog::{
    should_disable_web_search, write_codex_provider_live_with_catalog, ProviderWrite,
};
use codex_switch::live_config::{
    apply_codex_unified_session_bucket_to_settings, next_live_step,
    read_and_validate_codex_config_text, read_codex_config_text, read_codex_live_settings,
    restore_codex_provider_token_for_backfill, restore_codex_settings_for_backfill,
    write_codex_config_text_preserving_plugins, write_codex_live_atomic,
    write_codex_live_config_atomic, write_codex_live_for_provider, LiveStep, LiveWrite,
};
use codex_switch::model_specs::SlotTable;
use codex_switch::official_route::{
    apply_codex_official_proxy_route, codex_config_has_official_proxy_route,
    remove_codex_official_proxy_route,
};
use codex_switch::routed_catalog::{CapabilityTable, CatalogSources, ProxyTemplate};
use codex_switch::toml_value::{
    codex_top_level_model, extract_codex_base_url, extract_codex_top_level_u64,
};

fn json(text: &str) -> Json {
    parse_json(text).expect("JSON text")
}

fn table(text: &str) -> toml::Value {
    toml::from_str(text).expect("TOML text")
}

#[test]
fn live_write_merges_app_level_config_from_existing_file() {
    let existing = r#"model_provider = "old"
model = "gpt-4o"
sqlite_home = "C:/Users/test/.cc-switch/codex/state"
web_search = "enabled"

[model_providers.old]
name = "Old"
base_url = "https://old.example/v1"

[tui]
notifications = false

[plugins]
my-plugin = { path = "~/.codex/plugins/my-plugin" }
"#;
    let new_config = r#"model_provider = "new"
model = "gpt-5.5"

[model_providers.new]
name = "New"
base_url = "https://new.example/v1"
"#;
    let live = write_codex_live_atomic(existing, Some(new_config), "config.toml")
        .expect("write live config for new provider");
    let parsed = table(&live);
    assert_eq!(
        parsed.get("model_provider").and_then(toml::Value::as_str),
        Some("new")
    );
    assert_eq!(
        parsed.get("model").and_then(toml::Value::as_str),
        Some("gpt-5.5")
    );
    assert!(parsed["model_providers"].get("old").is_none());
    assert_eq!(
        parsed.get("sqlite_home").and_then(toml::Value::as_str),
        Some("C:/Users/test/.cc-switch/codex/state")
    );
    assert_eq!(
        parsed.get("web_search").and_then(toml::Value::as_str),
        Some("live")
    );
    assert_eq!(
        parsed["tui"]
            .get("notifications")
            .and_then(toml::Value::as_bool),
        Some(false)
    );
    assert!(
        parsed.get("plugins").is_some(),
        "user-installed plugin registrations must survive the switch"
    );
    let only_config = write_codex_live_config_atomic(existing, Some(new_config), "config.toml")
        .expect("write the config alone");
    assert_eq!(table(&only_config), parsed);
    let rebuilt = write_codex_config_text_preserving_plugins(existing, new_config)
        .expect("write a rebuilt config");
    assert_eq!(table(&rebuilt), parsed);
}

#[test]
fn read_codex_config_text_repairs_legacy_web_search_on_disk() {
    let legacy = r#"web_search = "enabled"

[plugins.example]
enabled = true
"#;
    let read = read_codex_config_text(Some(legacy));
    assert!(read.rewrite, "the repaired text is written back");
    let parsed = table(&read.text);
    assert_eq!(
        parsed.get("web_search").and_then(toml::Value::as_str),
        Some("live")
    );
    assert_eq!(
        parsed["plugins"]["example"]
            .get("enabled")
            .and_then(toml::Value::as_bool),
        Some(true)
    );
    let clean = read_codex_config_text(Some("web_search = \"live\"\n"));
    assert!(!clean.rewrite);
    assert_eq!(clean.text, "web_search = \"live\"\n");
    let missing = read_codex_config_text(None);
    assert!(!missing.rewrite);
    assert_eq!(missing.text, "");
    assert!(read_and_validate_codex_config_text(Some("[broken")).is_err());
    assert!(read_and_validate_codex_config_text(Some(legacy)).is_ok());
}

#[test]
fn clear_stale_auth_skipped_when_official_login_disabled() {
    let stale = json(r#"{ "OPENAI_API_KEY": "sk-third-party" }"#);
    let none = json("{}");
    assert!(
        !clear_stale_codex_live_auth_after_official_switch(false, &none, Some(&stale)),
        "aggregate mode must not delete auth.json"
    );
    assert!(
        clear_stale_codex_live_auth_after_official_switch(true, &none, Some(&stale)),
        "official login mode still clears stale third-party auth"
    );
    assert!(!clear_stale_codex_live_auth_after_official_switch(
        true, &none, None
    ));
}

#[test]
fn each_kind_of_error_comes_from_its_input() {
    match write_codex_live_atomic("", Some("a = 1\na = 2\n"), "/c/config.toml") {
        Err(e) => assert!(e.message().starts_with("Invalid Codex config.toml: ")),
        Ok(text) => panic!("{text}"),
    }
    match normalize_codex_config_text("web_search = \"enabled\"\n[broken") {
        Err(AppError::Message(message)) => {
            assert!(message.starts_with("Invalid Codex config.toml: "))
        }
        other => panic!("{other:?}"),
    }
    match prepare_without_config() {
        Err(AppError::Localized { key, zh, en }) => {
            assert!(!key.is_empty() && !zh.is_empty());
            assert!(en.contains("config.toml"));
        }
        other => panic!("{other:?}"),
    }
    assert!(validate_config_toml("[broken").is_err());
    assert!(validate_config_toml("").is_ok());
    assert_eq!(
        normalize_codex_config_text_best_effort("[broken".to_string()),
        "[broken"
    );
}

fn prepare_without_config() -> Result<String, AppError> {
    codex_switch::live_config::prepare_codex_provider_live_config(
        &json(r#"{ "OPENAI_API_KEY": "sk" }"#),
        " ",
    )
}

#[test]
fn a_failed_config_write_puts_the_login_back() {
    let step = next_live_step(LiveStep::WriteAuth, true, true);
    assert!(matches!(step, LiveStep::WriteConfig));
    assert!(matches!(
        next_live_step(LiveStep::WriteConfig, true, true),
        LiveStep::Done
    ));
    assert!(matches!(
        next_live_step(LiveStep::WriteConfig, false, true),
        LiveStep::RestoreAuth
    ));
    assert!(matches!(
        next_live_step(LiveStep::WriteConfig, false, false),
        LiveStep::DeleteAuth
    ));
    assert!(matches!(
        next_live_step(LiveStep::RestoreAuth, true, true),
        LiveStep::Failed
    ));
    assert!(matches!(
        next_live_step(LiveStep::WriteAuth, false, true),
        LiveStep::Failed
    ));
}

#[test]
fn written_fields_are_read_back() {
    let config = "model_provider = \"p\"\n\n[model_providers.p]\nname = \"P\"\n";
    let with_url = update_codex_toml_field(config, "base_url", " https://x/v1 ").unwrap();
    assert_eq!(
        extract_codex_base_url(&with_url).as_deref(),
        Some("https://x/v1")
    );
    let with_model = update_codex_toml_field(&with_url, "model", "m").unwrap();
    assert_eq!(codex_top_level_model(&with_model).as_deref(), Some("m"));
    assert_eq!(codex_top_level_model("model = \"  \"\n"), None);
    assert_eq!(
        extract_codex_top_level_u64("model_context_window = 42\n", "model_context_window"),
        Some(42)
    );
    assert_eq!(
        extract_codex_top_level_u64("model_context_window = -1\n", "model_context_window"),
        None
    );
    assert!(update_codex_toml_field("[broken", "model", "m").is_err());
    assert!(update_codex_toml_field(config, "no_such_field", "m").is_err());
}

#[test]
fn tokens_are_written_read_and_removed() {
    let config = "model_provider = \"p\"\n\n[model_providers.p]\nname = \"P\"\n";
    let with_token = set_codex_experimental_bearer_token(config, "t1").unwrap();
    assert_eq!(
        extract_codex_experimental_bearer_token(&with_token).as_deref(),
        Some("t1")
    );
    assert_eq!(
        table(&with_token)["model_providers"]["p"]["experimental_bearer_token"].as_str(),
        Some("t1")
    );
    let kept =
        remove_codex_experimental_bearer_token_if(&with_token, |token: &str| token == "other")
            .unwrap();
    assert_eq!(
        extract_codex_experimental_bearer_token(&kept).as_deref(),
        Some("t1")
    );
    let removed = remove_codex_experimental_bearer_token(&with_token).unwrap();
    assert_eq!(extract_codex_experimental_bearer_token(&removed), None);
    assert!(set_codex_experimental_bearer_token("[broken", "t").is_err());
}

#[test]
fn the_web_search_switch_is_read_back() {
    let off = set_codex_native_web_search_field("model = \"m\"\n", true).unwrap();
    assert_eq!(
        table(&off).get("web_search").and_then(|v| v.as_str()),
        Some("disabled")
    );
    let on = set_codex_native_web_search_field(&off, false).unwrap();
    assert_eq!(table(&on), table("model = \"m\"\n"));
    assert!(should_disable_web_search(
        CodexCatalogToolProfile::Anthropic,
        false,
        ""
    ));
    assert!(!should_disable_web_search(
        CodexCatalogToolProfile::ProxyChat,
        true,
        ""
    ));
    let pointed = set_codex_model_catalog_json_field("", Some("/x/any.json")).unwrap();
    assert_eq!(
        table(&pointed)
            .get("model_catalog_json")
            .and_then(|v| v.as_str()),
        Some("cc-switch-model-catalog.json")
    );
    let unpointed = set_codex_model_catalog_json_field(&pointed, None).unwrap();
    assert!(table(&unpointed).get("model_catalog_json").is_none());
}

#[test]
fn applying_the_route_keeps_the_rest_and_removing_it_undoes_it() {
    let config = "model = \"m\"\napproval = \"never\"\n\n[tui]\ntheme = \"dark\"\n";
    let routed = apply_codex_official_proxy_route(config, "http://127.0.0.1:1/v1").unwrap();
    assert!(codex_config_has_official_proxy_route(&routed));
    let mut expected = table(config);
    let mut read = table(&routed);
    let read = read.as_table_mut().unwrap();
    read.remove("model_provider");
    read.remove("model_providers");
    assert_eq!(read, expected.as_table_mut().unwrap());
    let removed = remove_codex_official_proxy_route(&routed).unwrap();
    assert!(!codex_config_has_official_proxy_route(&removed));
    assert_eq!(table(&removed), table(config));
}

#[test]
fn merging_keeps_what_the_new_config_says() {
    let merged = merge_codex_app_level_config(
        "model = \"old\"\n[tui]\ntheme = \"dark\"\nbell = 1\n",
        "model = \"new\"\n[tui]\ntheme = \"light\"\n",
    )
    .unwrap();
    assert_eq!(
        table(&merged),
        table("model = \"new\"\n[tui]\ntheme = \"light\"\nbell = 1\n")
    );
}

#[test]
fn keys_and_logins_are_told_apart() {
    let key = json(r#"{ "OPENAI_API_KEY": " sk " }"#);
    assert_eq!(extract_codex_auth_api_key(&key).as_deref(), Some("sk"));
    assert_eq!(
        extract_codex_api_key(Some(&key), None).as_deref(),
        Some("sk")
    );
    assert_eq!(
        extract_codex_api_key(None, Some("experimental_bearer_token = \"t\"\n")).as_deref(),
        Some("t")
    );
    assert_eq!(extract_codex_api_key(None, None), None);
    assert!(codex_auth_has_login_material(&key));
    assert!(!codex_auth_has_oauth_login_material(&key));
    let oauth = json(r#"{ "tokens": { "access_token": "t" } }"#);
    assert!(codex_auth_has_oauth_login_material(&oauth));
}

#[test]
fn settings_get_their_key_back_from_the_config() {
    let mut settings = json(r#"{ "auth": {} }"#);
    settings.insert(
        "config",
        Json::string("model_provider = \"p\"\n\n[model_providers.p]\nname = \"P\"\nexperimental_bearer_token = \"t\"\n"),
    );
    let template = json(r#"{ "auth": { "OPENAI_API_KEY": "old" } }"#);
    restore_codex_provider_token_for_backfill(&mut settings, &template).unwrap();
    assert_eq!(
        settings.get("auth").and_then(|auth| auth.get_str("OPENAI_API_KEY")),
        Some("t")
    );
    assert!(!settings
        .get_str("config")
        .unwrap()
        .contains("experimental_bearer_token"));
    restore_codex_settings_for_backfill(&mut settings, &template, true).unwrap();
}

#[test]
fn official_settings_go_into_the_shared_bucket_where_the_user_wants_it() {
    let mut settings = json(r#"{ "config": "" }"#);
    apply_codex_unified_session_bucket_to_settings(Some("official"), true, &mut settings).unwrap();
    assert!(settings
        .get_str("config")
        .unwrap()
        .contains("model_provider = \"custom\""));
    let mut settings = json(r#"{ "config": "" }"#);
    apply_codex_unified_session_bucket_to_settings(Some("custom"), true, &mut settings).unwrap();
    assert_eq!(settings.get_str("config"), Some(""));
    apply_codex_unified_session_bucket_to_settings(Some("official"), false, &mut settings).unwrap();
    assert_eq!(settings.get_str("config"), Some(""));
}

#[test]
fn live_settings_are_read_from_either_file() {
    let auth = json(r#"{ "OPENAI_API_KEY": "sk" }"#);
    let read = read_codex_live_settings(Some(&auth), true, "model = \"m\"\n").unwrap();
    assert_eq!(
        read.get("auth").and_then(|auth| auth.get_str("OPENAI_API_KEY")),
        Some("sk")
    );
    assert_eq!(read.get_str("config"), Some("model = \"m\"\n"));
    assert!(read_codex_live_settings(None, true, "model = \"m\"\n").is_ok());
    assert!(read_codex_live_settings(None, false, "").is_err());
}

fn no_sources() -> CatalogSources {
    CatalogSources {
        native_template: json(r#"{ "slug": "native" }"#),
        proxy_template: ProxyTemplate::Ready(json(r#"{ "slug": "gpt-5.5" }"#)),
        static_template: None,
        vendor_models: Vec::new(),
        capabilities: CapabilityTable { rows: Vec::new() },
    }
}

fn switched(category: Option<&str>, settings: &str, keep_official_auth: bool) -> ProviderWrite {
    write_codex_provider_live_with_catalog(
        &json(settings),
        &SlotTable { rows: Vec::new() },
        category,
        &json(r#"{ "OPENAI_API_KEY": "sk" }"#),
        Some("model_provider = \"p\"\nmodel = \"m\"\n\n[model_providers.p]\nname = \"P\"\n"),
        CodexCatalogToolProfile::ProxyChat,
        None,
        &no_sources(),
        false,
        keep_official_auth,
    )
    .expect("prepare the switch")
}

#[test]
fn a_switch_writes_the_catalog_and_points_to_it() {
    let write = switched(
        Some("custom"),
        r#"{ "modelCatalog": { "models": [{ "model": "m" }] } }"#,
        false,
    );
    assert!(write.catalog.is_some());
    match write.live.expect("live files") {
        LiveWrite::AuthAndConfig(Some(config)) => assert_eq!(
            table(&config)
                .get("model_catalog_json")
                .and_then(|v| v.as_str()),
            Some("cc-switch-model-catalog.json")
        ),
        other => panic!("{other:?}"),
    }
    let kept = switched(Some("custom"), "{}", true);
    assert!(kept.catalog.is_none());
    match kept.live.expect("live files") {
        LiveWrite::ConfigOnly(config) => assert_eq!(
            table(&config)["model_providers"]["p"]["experimental_bearer_token"].as_str(),
            Some("sk")
        ),
        other => panic!("{other:?}"),
    }
}

#[test]
fn an_official_login_is_written_as_it_is() {
    let auth = json(r#"{ "tokens": { "access_token": "t" } }"#);
    match write_codex_live_for_provider(Some("official"), &auth, Some("model = \"m\"\n"), false, true)
        .expect("official write")
    {
        LiveWrite::AuthAndConfig(Some(config)) => assert_eq!(config, "model = \"m\"\n"),
        other => panic!("{other:?}"),
    }
}
