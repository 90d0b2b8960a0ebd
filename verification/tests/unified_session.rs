use codex_switch::json::{parse_json, Json};
use codex_switch::live_config::strip_codex_unified_session_bucket_from_settings;
use codex_switch::official_route::{
    apply_codex_official_proxy_route_with_auth, codex_config_has_official_proxy_route,
    remove_codex_official_proxy_route, CC_SWITCH_CODEX_MODEL_PROVIDER_ID,
    CC_SWITCH_CODEX_OFFICIAL_PROXY_PROVIDER_ID,
};
use codex_switch::unified_session::{
    inject_codex_unified_session_bucket, strip_codex_unified_session_bucket,
};

fn json(text: &str) -> Json {
    parse_json(text).expect("JSON text")
}


#[test]
fn unified_session_bucket_injects_for_empty_official_config() {
    let injected = inject_codex_unified_session_bucket("").expect("inject");
    let doc: toml::Table = toml::from_str(&injected).expect("parse injected config");

    assert_eq!(
        doc.get("model_provider").and_then(|v| v.as_str()),
        Some(CC_SWITCH_CODEX_MODEL_PROVIDER_ID)
    );
    let custom = doc["model_providers"][CC_SWITCH_CODEX_MODEL_PROVIDER_ID]
        .as_table()
        .expect("custom provider table");
    assert_eq!(custom.get("name").and_then(|v| v.as_str()), Some("OpenAI"));
    assert_eq!(
        custom.get("requires_openai_auth").and_then(|v| v.as_bool()),
        Some(true)
    );
    assert_eq!(
        custom.get("supports_websockets").and_then(|v| v.as_bool()),
        Some(true)
    );
    assert_eq!(
        custom.get("wire_api").and_then(|v| v.as_str()),
        Some("responses")
    );
}

#[test]
fn unified_session_bucket_preserves_other_keys_and_explicit_routing() {
    let with_catalog = "model_catalog_json = \"cc-switch-model-catalog.json\"\n";
    let injected = inject_codex_unified_session_bucket(with_catalog).expect("inject");
    assert!(injected.contains("model_catalog_json"));
    assert!(injected.contains("model_provider = \"custom\""));

    let explicit = "model_provider = \"openai_https\"\n";
    let unchanged = inject_codex_unified_session_bucket(explicit).expect("inject");
    assert_eq!(unchanged, explicit);
}

#[test]
fn unified_session_bucket_skips_conflicting_custom_table() {
    let stale = r#"[model_providers.custom]
name = "Relay"
base_url = "https://relay.example/v1"
"#;
    let unchanged = inject_codex_unified_session_bucket(stale).expect("inject");
    assert_eq!(unchanged, stale);

    let injected_once = inject_codex_unified_session_bucket("").expect("inject");
    let reinjected = inject_codex_unified_session_bucket(&injected_once).expect("re-inject");
    assert_eq!(reinjected, injected_once);
}

#[test]
fn unified_session_bucket_strip_round_trips_injection() {
    let injected = inject_codex_unified_session_bucket("").expect("inject");
    let stripped = strip_codex_unified_session_bucket(&injected).expect("strip");
    assert_eq!(stripped.trim(), "");

    let with_catalog = "model_catalog_json = \"cc-switch-model-catalog.json\"\n";
    let injected = inject_codex_unified_session_bucket(with_catalog).expect("inject");
    let stripped = strip_codex_unified_session_bucket(&injected).expect("strip");
    assert_eq!(stripped, with_catalog);
}

#[test]
fn unified_session_bucket_strip_keeps_third_party_custom_entry() {
    let third_party = r#"model_provider = "custom"

[model_providers.custom]
name = "Relay"
base_url = "https://relay.example/v1"
wire_api = "responses"
requires_openai_auth = true
"#;
    let untouched = strip_codex_unified_session_bucket(third_party).expect("strip");
    assert_eq!(untouched, third_party);
}

#[test]
fn unified_session_bucket_converts_cc_switch_official_proxy_route_to_custom() {
    let official_route = r#"model_provider = "cc-switch-official"

[model_providers."cc-switch-official"]
name = "OpenAI"
base_url = "http://127.0.0.1:15721/v1"
requires_openai_auth = true
supports_websockets = false
wire_api = "responses"
"#;
    let injected = inject_codex_unified_session_bucket(official_route).expect("inject");
    let doc: toml::Value = toml::from_str(&injected).expect("parse injected");
    assert_eq!(
        doc.get("model_provider").and_then(|v| v.as_str()),
        Some(CC_SWITCH_CODEX_MODEL_PROVIDER_ID)
    );
    assert!(doc["model_providers"]
        .get(CC_SWITCH_CODEX_OFFICIAL_PROXY_PROVIDER_ID)
        .is_none());
    let custom = &doc["model_providers"][CC_SWITCH_CODEX_MODEL_PROVIDER_ID];
    assert_eq!(custom["name"].as_str(), Some("OpenAI"));
    assert_eq!(
        custom["base_url"].as_str(),
        Some("http://127.0.0.1:15721/v1")
    );
    assert_eq!(custom["wire_api"].as_str(), Some("responses"));

    // strip round-trips back to the canonical cc-switch-owned route.
    let stripped = strip_codex_unified_session_bucket(&injected).expect("strip");
    let stripped_doc: toml::Value = toml::from_str(&stripped).expect("parse stripped");
    assert_eq!(
        stripped_doc.get("model_provider").and_then(|v| v.as_str()),
        Some(CC_SWITCH_CODEX_OFFICIAL_PROXY_PROVIDER_ID)
    );
    assert!(stripped_doc["model_providers"]
        .get(CC_SWITCH_CODEX_MODEL_PROVIDER_ID)
        .is_none());
    assert_eq!(
        stripped_doc["model_providers"][CC_SWITCH_CODEX_OFFICIAL_PROXY_PROVIDER_ID]["base_url"]
            .as_str(),
        Some("http://127.0.0.1:15721/v1")
    );
}

#[test]
fn unified_session_bucket_overwrites_stale_custom_table_when_converting_official_route() {
    // A previous third-party provider (e.g. deepseek) leaves its
    // [model_providers.custom] table behind; the takeover projection keeps
    // it. Converting the cc-switch official route to "custom" must replace
    // that stale table with the official proxy route, otherwise
    // model_provider = "custom" would route to the old endpoint.
    let third_party_live = r#"model_provider = "custom"
model = "deepseek-v4-flash"
model_catalog_json = "cc-switch-model-catalog.json"

[model_providers.custom]
name = "deepseek"
base_url = "https://api.deepseek.com"
wire_api = "responses"
requires_openai_auth = true
"#;
    let projected = apply_codex_official_proxy_route_with_auth(
        third_party_live,
        "http://127.0.0.1:15721/v1",
        true,
    )
    .expect("project official route");
    let projected_doc: toml::Value = toml::from_str(&projected).expect("parse projected");
    assert_eq!(
        projected_doc.get("model_provider").and_then(|v| v.as_str()),
        Some(CC_SWITCH_CODEX_OFFICIAL_PROXY_PROVIDER_ID)
    );

    let injected = inject_codex_unified_session_bucket(&projected).expect("inject");
    let doc: toml::Value = toml::from_str(&injected).expect("parse injected");
    assert_eq!(
        doc.get("model_provider").and_then(|v| v.as_str()),
        Some(CC_SWITCH_CODEX_MODEL_PROVIDER_ID)
    );
    let custom = &doc["model_providers"][CC_SWITCH_CODEX_MODEL_PROVIDER_ID];
    assert_eq!(custom["name"].as_str(), Some("OpenAI"));
    assert_eq!(
        custom["base_url"].as_str(),
        Some("http://127.0.0.1:15721/v1")
    );
    assert!(doc["model_providers"]
        .get(CC_SWITCH_CODEX_OFFICIAL_PROXY_PROVIDER_ID)
        .is_none());

    // strip round-trips back to the canonical cc-switch-owned route.
    let stripped = strip_codex_unified_session_bucket(&injected).expect("strip");
    let stripped_doc: toml::Value = toml::from_str(&stripped).expect("parse stripped");
    assert_eq!(
        stripped_doc.get("model_provider").and_then(|v| v.as_str()),
        Some(CC_SWITCH_CODEX_OFFICIAL_PROXY_PROVIDER_ID)
    );
    assert_eq!(
        stripped_doc["model_providers"][CC_SWITCH_CODEX_OFFICIAL_PROXY_PROVIDER_ID]["base_url"]
            .as_str(),
        Some("http://127.0.0.1:15721/v1")
    );
}

#[test]
fn unified_session_bucket_official_proxy_route_detection_and_cleanup() {
    let official_route = r#"model_provider = "cc-switch-official"

[model_providers."cc-switch-official"]
name = "OpenAI"
base_url = "http://127.0.0.1:15721/v1"
requires_openai_auth = true
supports_websockets = false
wire_api = "responses"
"#;
    let injected = inject_codex_unified_session_bucket(official_route).expect("inject");
    // The unified custom route is still recognized as cc-switch-owned takeover.
    assert!(codex_config_has_official_proxy_route(&injected));

    let cleaned = remove_codex_official_proxy_route(&injected).expect("clean");
    let cleaned_doc: toml::Value = toml::from_str(&cleaned).expect("parse cleaned");
    assert!(cleaned_doc.get("model_provider").is_none());
    assert!(cleaned_doc.get("model_providers").is_none());

    // The canonical (non-unified) cc-switch-official route still detects + cleans.
    assert!(codex_config_has_official_proxy_route(official_route));
    let cleaned = remove_codex_official_proxy_route(official_route).expect("clean");
    let cleaned_doc: toml::Value = toml::from_str(&cleaned).expect("parse cleaned");
    assert!(cleaned_doc.get("model_provider").is_none());
    assert!(cleaned_doc.get("model_providers").is_none());
}

#[test]
fn unified_session_bucket_strip_from_settings_only_touches_config() {
    let injected = inject_codex_unified_session_bucket("").expect("inject");
    let mut settings = json(r#"{ "auth": { "tokens": { "access_token": "secret" } } }"#);
    settings.insert("config", Json::string(&injected));
    strip_codex_unified_session_bucket_from_settings(&mut settings).expect("strip settings");
    assert_eq!(
        settings
            .get("config")
            .and_then(|v| v.as_str())
            .map(str::trim),
        Some("")
    );
    assert!(settings
        .get("auth")
        .and_then(|v| v.get("tokens"))
        .and_then(|v| v.get("access_token"))
        .is_some());
}

#[test]
fn an_entry_in_braces_under_the_shared_id_is_not_activated() {
    let foreign = "model_providers = { custom = { name = \"Relay\", base_url = \"https://relay.example/v1\" } }\n";
    assert_eq!(inject_codex_unified_session_bucket(foreign).expect("config"), foreign);
    let mixed = "[model_providers]\ncustom = { name = \"Relay\" }\n";
    assert_eq!(inject_codex_unified_session_bucket(mixed).expect("config"), mixed);
    for odd in ["model_providers = 42\n", "[model_providers]\ncustom = 1\n"] {
        assert_eq!(inject_codex_unified_session_bucket(odd).expect("config"), odd);
    }
}

#[test]
fn a_table_of_providers_in_braces_is_moved_and_moved_back() {
    let config = "model_providers = { relay = { name = \"Relay\" } }\n";
    let moved = inject_codex_unified_session_bucket(config).expect("config");
    let tree: toml::Value = toml::from_str(&moved).expect("TOML");
    assert_eq!(tree["model_provider"].as_str(), Some("custom"));
    assert_eq!(tree["model_providers"]["custom"]["name"].as_str(), Some("OpenAI"));
    assert_eq!(tree["model_providers"]["relay"]["name"].as_str(), Some("Relay"));
    let back = strip_codex_unified_session_bucket(&moved).expect("config");
    let tree: toml::Value = toml::from_str(&back).expect("TOML");
    let first: toml::Value = toml::from_str(config).expect("TOML");
    assert_eq!(tree, first);
}
