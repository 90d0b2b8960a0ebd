use codex_switch::official_route::{
    apply_codex_official_proxy_route, apply_codex_official_proxy_route_with_auth,
    codex_config_has_official_proxy_route, remove_codex_official_proxy_route,
    CC_SWITCH_CODEX_OFFICIAL_PROXY_PROVIDER_ID,
};


#[test]
fn official_proxy_route_uses_native_auth_and_local_responses_provider() {
    let input = r#"model = "gpt-5.4"
experimental_bearer_token = "PROXY_MANAGED"

[mcp_servers.example]
command = "example"
"#;
    let output = apply_codex_official_proxy_route(input, "http://127.0.0.1:15721/v1")
        .expect("apply official proxy route");
    let doc: toml::Value = toml::from_str(&output).expect("parse output");

    assert_eq!(
        doc.get("model_provider").and_then(toml::Value::as_str),
        Some(CC_SWITCH_CODEX_OFFICIAL_PROXY_PROVIDER_ID)
    );
    assert!(doc.get("experimental_bearer_token").is_none());
    assert!(
        doc.get("mcp_servers").is_some(),
        "unrelated config survives"
    );

    let provider = &doc["model_providers"][CC_SWITCH_CODEX_OFFICIAL_PROXY_PROVIDER_ID];
    assert_eq!(
        provider.get("base_url").and_then(toml::Value::as_str),
        Some("http://127.0.0.1:15721/v1")
    );
    assert_eq!(
        provider
            .get("requires_openai_auth")
            .and_then(toml::Value::as_bool),
        Some(true)
    );
    assert_eq!(
        provider
            .get("supports_websockets")
            .and_then(toml::Value::as_bool),
        Some(false)
    );
    assert!(codex_config_has_official_proxy_route(&output));
}

#[test]
fn official_proxy_route_aggregate_mode_injects_bearer_placeholder() {
    let output =
        apply_codex_official_proxy_route_with_auth("", "http://127.0.0.1:15721/v1", false)
            .expect("apply aggregate route");
    let doc: toml::Value = toml::from_str(&output).expect("parse output");

    assert_eq!(
        doc.get("model_provider").and_then(toml::Value::as_str),
        Some(CC_SWITCH_CODEX_OFFICIAL_PROXY_PROVIDER_ID)
    );
    let provider = &doc["model_providers"][CC_SWITCH_CODEX_OFFICIAL_PROXY_PROVIDER_ID];
    assert_eq!(
        provider
            .get("requires_openai_auth")
            .and_then(toml::Value::as_bool),
        Some(false)
    );
    assert_eq!(
        provider
            .get("experimental_bearer_token")
            .and_then(toml::Value::as_str),
        Some("PROXY_MANAGED")
    );

    let cleaned = remove_codex_official_proxy_route(&output).expect("clean aggregate route");
    let cleaned_doc: toml::Value = toml::from_str(&cleaned).expect("parse cleaned");
    assert!(cleaned_doc.get("model_provider").is_none());
    assert!(!cleaned.contains("experimental_bearer_token"));
}

#[test]
fn official_proxy_route_cleanup_only_removes_owned_provider() {
    let projected =
        apply_codex_official_proxy_route("model = \"gpt-5.4\"\n", "http://127.0.0.1:15721/v1")
            .expect("project");
    let cleaned = remove_codex_official_proxy_route(&projected).expect("clean");
    let doc: toml::Value = toml::from_str(&cleaned).expect("parse cleaned");
    assert!(doc.get("model_provider").is_none());
    assert!(doc.get("model_providers").is_none());
    assert_eq!(
        doc.get("model").and_then(toml::Value::as_str),
        Some("gpt-5.4")
    );
}

#[test]
fn official_proxy_route_rejects_non_table_model_providers_without_panicking() {
    for input in [
        "model_providers = 3\n",
        "[[model_providers]]\nname = \"broken\"\n",
    ] {
        let result = apply_codex_official_proxy_route(input, "http://127.0.0.1:15721/v1");
        assert!(result.is_err());
    }
}

#[test]
fn official_proxy_route_normalizes_inline_tables_and_cleans_stale_placeholder() {
    let input = r#"model_provider = "rightcode"
model_providers = { rightcode = { name = "RightCode", experimental_bearer_token = "PROXY_MANAGED" } }
"#;
    let projected = apply_codex_official_proxy_route(input, "http://127.0.0.1:15721/v1")
        .expect("project inline provider table");
    let projected_doc: toml::Value = toml::from_str(&projected).expect("parse projected");
    assert!(projected_doc["model_providers"]["rightcode"]
        .get("experimental_bearer_token")
        .is_none());
    assert!(projected_doc["model_providers"]
        .get(CC_SWITCH_CODEX_OFFICIAL_PROXY_PROVIDER_ID)
        .is_some());

    let cleaned = remove_codex_official_proxy_route(&projected).expect("clean projected");
    let cleaned_doc: toml::Value = toml::from_str(&cleaned).expect("parse cleaned");
    assert!(cleaned_doc.get("model_provider").is_none());
    assert!(cleaned_doc["model_providers"].get("rightcode").is_some());
    assert!(cleaned_doc["model_providers"]
        .get(CC_SWITCH_CODEX_OFFICIAL_PROXY_PROVIDER_ID)
        .is_none());
}

#[test]
fn a_route_in_braces_is_not_recognised() {
    let config = "model_provider = \"cc-switch-official\"\nmodel_providers = { cc-switch-official = { name = \"OpenAI\", wire_api = \"responses\", base_url = \"http://127.0.0.1:1\", supports_websockets = false } }\n";
    assert!(!codex_config_has_official_proxy_route(config));
    let routed = apply_codex_official_proxy_route(config, "http://127.0.0.1:2").expect("routed");
    assert!(codex_config_has_official_proxy_route(&routed));
}
