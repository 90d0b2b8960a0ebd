use codex_switch::config_fields::{
    codex_native_gateway_rejects_web_search, extract_codex_experimental_bearer_token,
    remove_codex_experimental_bearer_token_if, remove_codex_toml_base_url_if,
    set_codex_experimental_bearer_token, set_codex_model_catalog_json_field,
    set_codex_native_web_search_field, update_codex_toml_field, validate_config_toml,
    CC_SWITCH_CODEX_MODEL_CATALOG_FILENAME,
};
use codex_switch::toml_value::extract_codex_base_url;


#[test]
fn extract_base_url_prefers_active_provider_section() {
    let input = r#"model_provider = "azure"

[model_providers.azure]
base_url = "https://azure.example.com/v1"

[model_providers.other]
base_url = "https://other.example.com/v1"
"#;

    assert_eq!(
        extract_codex_base_url(input).as_deref(),
        Some("https://azure.example.com/v1")
    );
}

#[test]
fn extract_base_url_falls_back_to_top_level_only() {
    let top_level = r#"base_url = "https://top-level.example.com/v1""#;
    assert_eq!(
        extract_codex_base_url(top_level).as_deref(),
        Some("https://top-level.example.com/v1")
    );
}

#[test]
fn extract_base_url_ignores_non_active_provider_sections() {
    let mismatched = r#"model_provider = "openai"

[model_providers.custom]
base_url = "https://leftover.example.com/v1"
"#;
    assert_eq!(extract_codex_base_url(mismatched), None);

    let no_active = r#"[model_providers.any]
base_url = "https://single.example.com/v1"
"#;
    assert_eq!(extract_codex_base_url(no_active), None);
}

#[test]
fn extract_bearer_uses_top_level_token_for_reserved_provider() {
    let input = r#"model_provider = "openai"
experimental_bearer_token = "top-level-key"

[model_providers.openai]
experimental_bearer_token = "stale-table-key"
"#;

    assert_eq!(
        extract_codex_experimental_bearer_token(input).as_deref(),
        Some("top-level-key")
    );
}

#[test]
fn base_url_writes_into_correct_model_provider_section() {
    let input = r#"model_provider = "any"
model = "gpt-5.1-codex"

[model_providers.any]
name = "any"
wire_api = "responses"
"#;

    let result = update_codex_toml_field(input, "base_url", "https://example.com/v1").unwrap();
    let parsed: toml::Value = toml::from_str(&result).unwrap();

    let base_url = parsed
        .get("model_providers")
        .and_then(|v| v.get("any"))
        .and_then(|v| v.get("base_url"))
        .and_then(|v| v.as_str())
        .expect("base_url should be in model_providers.any");
    assert_eq!(base_url, "https://example.com/v1");

    // Should NOT have top-level base_url
    assert!(parsed.get("base_url").is_none());

    // wire_api preserved
    let wire_api = parsed
        .get("model_providers")
        .and_then(|v| v.get("any"))
        .and_then(|v| v.get("wire_api"))
        .and_then(|v| v.as_str());
    assert_eq!(wire_api, Some("responses"));
}

#[test]
fn wire_api_writes_into_correct_model_provider_section() {
    let input = r#"model_provider = "chat_only"
model = "gpt-5.1-codex"

[model_providers.chat_only]
name = "Chat Only"
base_url = "https://example.com/v1"
wire_api = "chat"
"#;

    let result = update_codex_toml_field(input, "wire_api", "responses").unwrap();
    let parsed: toml::Value = toml::from_str(&result).unwrap();

    let provider = parsed
        .get("model_providers")
        .and_then(|v| v.get("chat_only"))
        .expect("model_providers.chat_only should exist");

    assert_eq!(
        provider.get("wire_api").and_then(|v| v.as_str()),
        Some("responses")
    );
    assert_eq!(
        provider.get("base_url").and_then(|v| v.as_str()),
        Some("https://example.com/v1")
    );
    assert!(parsed.get("wire_api").is_none());
}

#[test]
fn base_url_creates_section_when_missing() {
    let input = r#"model_provider = "custom"
model = "gpt-4"
"#;

    let result = update_codex_toml_field(input, "base_url", "https://custom.api/v1").unwrap();
    let parsed: toml::Value = toml::from_str(&result).unwrap();

    let base_url = parsed
        .get("model_providers")
        .and_then(|v| v.get("custom"))
        .and_then(|v| v.get("base_url"))
        .and_then(|v| v.as_str())
        .expect("should create section and set base_url");
    assert_eq!(base_url, "https://custom.api/v1");
}

#[test]
fn base_url_falls_back_to_top_level_without_model_provider() {
    let input = r#"model = "gpt-4"
"#;

    let result = update_codex_toml_field(input, "base_url", "https://fallback.api/v1").unwrap();
    let parsed: toml::Value = toml::from_str(&result).unwrap();

    let base_url = parsed
        .get("base_url")
        .and_then(|v| v.as_str())
        .expect("should set top-level base_url");
    assert_eq!(base_url, "https://fallback.api/v1");
}

#[test]
fn base_url_writes_into_inline_table_provider_section() {
    let input = r#"model_provider = "any"
model_providers = { any = { name = "any", base_url = "https://old.api/v1", wire_api = "responses" } }
"#;

    let result = update_codex_toml_field(input, "base_url", "https://new.api/v1").unwrap();
    let parsed: toml::Value = toml::from_str(&result).unwrap();

    assert_eq!(
        parsed["model_providers"]["any"]["base_url"].as_str(),
        Some("https://new.api/v1"),
        "must update the provider section, not a top-level field"
    );
    assert!(
        parsed.get("base_url").is_none(),
        "must not leak a top-level base_url fallback"
    );
    assert_eq!(
        parsed["model_providers"]["any"]["wire_api"].as_str(),
        Some("responses"),
        "sibling fields must survive"
    );
}

#[test]
fn clearing_base_url_removes_only_from_correct_section() {
    let input = r#"model_provider = "any"

[model_providers.any]
name = "any"
base_url = "https://old.api/v1"
wire_api = "responses"

[mcp_servers.context7]
command = "npx"
"#;

    let result = update_codex_toml_field(input, "base_url", "").unwrap();
    let parsed: toml::Value = toml::from_str(&result).unwrap();

    // base_url removed from model_providers.any
    let any_section = parsed
        .get("model_providers")
        .and_then(|v| v.get("any"))
        .expect("model_providers.any should exist");
    assert!(any_section.get("base_url").is_none());

    // wire_api preserved
    assert_eq!(
        any_section.get("wire_api").and_then(|v| v.as_str()),
        Some("responses")
    );

    // mcp_servers untouched
    assert!(parsed.get("mcp_servers").is_some());
}

#[test]
fn model_field_operates_on_top_level() {
    let input = r#"model_provider = "any"
model = "gpt-4"

[model_providers.any]
name = "any"
"#;

    let result = update_codex_toml_field(input, "model", "gpt-5").unwrap();
    let parsed: toml::Value = toml::from_str(&result).unwrap();
    assert_eq!(parsed.get("model").and_then(|v| v.as_str()), Some("gpt-5"));

    // Clear model
    let result2 = update_codex_toml_field(&result, "model", "").unwrap();
    let parsed2: toml::Value = toml::from_str(&result2).unwrap();
    assert!(parsed2.get("model").is_none());
}

#[test]
fn preserves_comments_and_whitespace() {
    let input = r#"# My Codex config
model_provider = "any"
model = "gpt-4"

# Provider section
[model_providers.any]
name = "any"
base_url = "https://old.api/v1"
"#;

    let result = update_codex_toml_field(input, "base_url", "https://new.api/v1").unwrap();

    // Comments should be preserved
    assert!(result.contains("# My Codex config"));
    assert!(result.contains("# Provider section"));
}

#[test]
fn does_not_misplace_when_profiles_section_follows() {
    let input = r#"model_provider = "any"

[model_providers.any]
name = "any"
base_url = "https://old.api/v1"

[profiles.default]
model = "gpt-4"
"#;

    let result = update_codex_toml_field(input, "base_url", "https://new.api/v1").unwrap();
    let parsed: toml::Value = toml::from_str(&result).unwrap();

    // base_url in correct section
    let base_url = parsed
        .get("model_providers")
        .and_then(|v| v.get("any"))
        .and_then(|v| v.get("base_url"))
        .and_then(|v| v.as_str());
    assert_eq!(base_url, Some("https://new.api/v1"));

    // profiles section untouched
    let profile_model = parsed
        .get("profiles")
        .and_then(|v| v.get("default"))
        .and_then(|v| v.get("model"))
        .and_then(|v| v.as_str());
    assert_eq!(profile_model, Some("gpt-4"));
}

#[test]
fn remove_base_url_if_predicate() {
    let input = r#"model_provider = "any"

[model_providers.any]
name = "any"
base_url = "http://127.0.0.1:5000/v1"
wire_api = "responses"
"#;

    let result =
        remove_codex_toml_base_url_if(input, |url| url.starts_with("http://127.0.0.1"));
    let parsed: toml::Value = toml::from_str(&result).unwrap();

    let any_section = parsed
        .get("model_providers")
        .and_then(|v| v.get("any"))
        .unwrap();
    assert!(any_section.get("base_url").is_none());
    assert_eq!(
        any_section.get("wire_api").and_then(|v| v.as_str()),
        Some("responses")
    );
}

#[test]
fn remove_base_url_if_keeps_non_matching() {
    let input = r#"model_provider = "any"

[model_providers.any]
base_url = "https://production.api/v1"
"#;

    let result =
        remove_codex_toml_base_url_if(input, |url| url.starts_with("http://127.0.0.1"));
    let parsed: toml::Value = toml::from_str(&result).unwrap();

    let base_url = parsed
        .get("model_providers")
        .and_then(|v| v.get("any"))
        .and_then(|v| v.get("base_url"))
        .and_then(|v| v.as_str());
    assert_eq!(base_url, Some("https://production.api/v1"));
}

#[test]
fn set_catalog_json_recognizes_uppercase_owned_filename() {
    let config_text = r#"model_catalog_json = "C:/Users/me/.codex/CC-SWITCH-MODEL-CATALOG.JSON"
"#;
    let result =
        set_codex_model_catalog_json_field(config_text, Some("ignored")).unwrap();
    let parsed: toml::Value = toml::from_str(&result).unwrap();
    assert_eq!(
        parsed.get("model_catalog_json").and_then(|v| v.as_str()),
        Some(CC_SWITCH_CODEX_MODEL_CATALOG_FILENAME),
        "an uppercase owned filename must be normalized to the canonical name"
    );

    // None arm: the uppercase pointer is still cc-switch-owned and must be removed.
    let result = set_codex_model_catalog_json_field(config_text, None).unwrap();
    let parsed: toml::Value = toml::from_str(&result).unwrap();
    assert!(
        parsed.get("model_catalog_json").is_none(),
        "removing the catalog must drop an uppercase owned pointer"
    );
}

#[test]
fn model_catalog_json_field_writes_relative_filename() {
    let input = r#"model_provider = "any"

[model_providers.any]
name = "any"
"#;
    let catalog_path = "/tmp/cc-switch-model-catalog.json";

    let result = set_codex_model_catalog_json_field(input, Some(catalog_path)).unwrap();
    let parsed: toml::Value = toml::from_str(&result).unwrap();
    assert_eq!(
        parsed
            .get("model_catalog_json")
            .and_then(|value| value.as_str()),
        Some(CC_SWITCH_CODEX_MODEL_CATALOG_FILENAME)
    );
    assert!(
        parsed
            .get("model_providers")
            .and_then(|value| value.get("any"))
            .and_then(|value| value.get("model_catalog_json"))
            .is_none(),
        "model_catalog_json should stay top-level"
    );
}

#[test]
fn validate_config_toml_accepts_legacy_web_search_mode() {
    validate_config_toml("web_search = \"enabled\"\n")
        .expect("legacy web_search should be migrated before validation");
}

#[test]
fn native_web_search_field_disables_at_top_level() {
    // Native `/responses` gateways reject the web_search tool, so the
    // NativeResponses profile must write the top-level disable line even
    // when sections are present (it must NOT land inside a section).
    let input = r#"model_provider = "custom"

[model_providers.custom]
name = "xiaomi_mimo"
"#;
    let result = set_codex_native_web_search_field(input, true).unwrap();
    let parsed: toml::Value = toml::from_str(&result).unwrap();
    assert_eq!(
        parsed.get("web_search").and_then(|value| value.as_str()),
        Some("disabled")
    );
    assert!(
        parsed
            .get("model_providers")
            .and_then(|value| value.get("custom"))
            .and_then(|value| value.get("web_search"))
            .is_none(),
        "web_search should stay top-level"
    );
}

#[test]
fn native_web_search_field_removes_own_sentinel_when_not_disabled() {
    // Switching away from a native provider must re-enable web search by
    // removing cc-switch's own "disabled" sentinel.
    let input = r#"model = "gpt-5.5"
web_search = "disabled"
"#;
    let result = set_codex_native_web_search_field(input, false).unwrap();
    let parsed: toml::Value = toml::from_str(&result).unwrap();
    assert!(
        parsed.get("web_search").is_none(),
        "cc-switch's disabled sentinel should be removed when not native"
    );
}

#[test]
fn native_web_search_field_migrates_legacy_user_value() {
    // A user's old enabled preference remains enabled semantically, but is
    // emitted using the enum accepted by current Codex.
    let input = r#"web_search = "enabled"
"#;
    let result = set_codex_native_web_search_field(input, false).unwrap();
    let parsed: toml::Value = toml::from_str(&result).unwrap();
    assert_eq!(
        parsed.get("web_search").and_then(|value| value.as_str()),
        Some("live"),
        "legacy enabled mode must be migrated without disabling search"
    );
}

#[test]
fn web_search_blacklist_disables_only_known_reject_gateways() {
    let cfg = |model: &str, base_url: &str| {
        format!(
            "model_provider = \"custom\"\nmodel = \"{model}\"\n\n[model_providers.custom]\nname = \"x\"\nbase_url = \"{base_url}\"\nwire_api = \"responses\"\n"
        )
    };

    // Blacklisted by host (first-party reject gateways) → disable.
    for (model, host) in [
        ("mimo-v2.5-pro", "https://api.xiaomimimo.com/v1"),
        ("mimo-v2.5", "https://token-plan-cn.xiaomimimo.com/v1"),
        ("LongCat-2.0", "https://api.longcat.chat/openai/v1"),
        ("MiniMax-M3", "https://api.minimax.io/v1"),
        ("MiniMax-M3", "https://api.minimaxi.com/v1"),
    ] {
        assert!(
            codex_native_gateway_rejects_web_search(&cfg(model, host)),
            "{host} should be blacklisted"
        );
    }

    // Blacklisted by MODEL brand even on an aggregator host (SiliconFlow
    // fronting a reject vendor's model) → disable.
    for (model, host) in [
        ("MiniMax-M3", "https://api.siliconflow.cn/v1"),
        ("MiniMaxAI/MiniMax-M3", "https://api.siliconflow.cn/v1"),
        ("mimo-v2.5-pro", "https://some-aggregator.example/v1"),
        (
            "qwen/qwen3-coder-plus",
            "https://some-aggregator.example/v1",
        ),
    ] {
        assert!(
            codex_native_gateway_rejects_web_search(&cfg(model, host)),
            "{model} @ {host} should be blacklisted by model brand"
        );
    }

    // Qwen3-Coder is blacklisted by model, not by DashScope host. This keeps
    // general Qwen models that support built-in web_search on the same host
    // enabled while protecting the native qwen3-coder-plus preset.
    assert!(codex_native_gateway_rejects_web_search(&cfg(
        "qwen3-coder-plus",
        "https://dashscope.aliyuncs.com/compatible-mode/v1",
    )));
    assert!(!codex_native_gateway_rejects_web_search(&cfg(
        "qwen3.7-plus",
        "https://dashscope.aliyuncs.com/compatible-mode/v1",
    )));

    // NOT blacklisted → keep Codex default (relays/GPT, DouBao, general Qwen,
    // and any unknown provider incl. an aggregator serving a non-reject model).
    for (model, host) in [
        ("gpt-5.5", "https://www.packyapi.com/v1"),
        ("gpt-5-codex", "https://aihubmix.com/v1"),
        (
            "doubao-seed-2-1-pro-260628",
            "https://ark.cn-beijing.volces.com/api/v3",
        ),
        ("Pro/moonshotai/Kimi-K2.6", "https://api.siliconflow.cn/v1"),
    ] {
        assert!(
            !codex_native_gateway_rejects_web_search(&cfg(model, host)),
            "{model} @ {host} should NOT be blacklisted"
        );
    }
}

#[test]
fn set_catalog_json_field_writes_filename_ignoring_unc_path() {
    let input = r#"model_provider = "custom"
model = "glm-5"
"#;
    // Simulate a WSL UNC path as cc-switch would see it on Windows;
    // the function now writes just the relative filename.
    let unc_path =
        r"\\wsl.localhost\Ubuntu\home\user\.codex\cc-switch-model-catalog.json";

    let result = set_codex_model_catalog_json_field(input, Some(unc_path)).unwrap();
    let parsed: toml::Value = toml::from_str(&result).unwrap();

    let written_path = parsed
        .get("model_catalog_json")
        .and_then(|v| v.as_str())
        .expect("model_catalog_json should be set");
    assert_eq!(
        written_path, CC_SWITCH_CODEX_MODEL_CATALOG_FILENAME,
        "should write only the relative filename, not the UNC path"
    );
}

#[test]
fn set_catalog_json_field_writes_filename_for_any_path() {
    let input = r#"model_provider = "custom"
model = "glm-5"
"#;
    let regular_path = "/home/user/.codex/cc-switch-model-catalog.json";

    let result = set_codex_model_catalog_json_field(input, Some(regular_path)).unwrap();
    let parsed: toml::Value = toml::from_str(&result).unwrap();

    assert_eq!(
        parsed.get("model_catalog_json").and_then(|v| v.as_str()),
        Some(CC_SWITCH_CODEX_MODEL_CATALOG_FILENAME),
        "should write only the relative filename, not the full path"
    );
}

#[test]
fn set_catalog_json_none_removes_cc_switch_owned_by_filename() {
    // After the WSL fix, TOML may contain a Linux-style path.
    // The None arm must still remove it (file_name match catches any format).
    let input = r#"model_catalog_json = "/home/user/.codex/cc-switch-model-catalog.json"
"#;
    let result = set_codex_model_catalog_json_field(input, None).unwrap();
    let parsed: toml::Value = toml::from_str(&result).unwrap();
    assert!(
        parsed.get("model_catalog_json").is_none(),
        "None arm should remove cc-switch-owned field regardless of path format"
    );
}

#[test]
fn set_catalog_json_none_preserves_user_owned_catalog() {
    let input = r#"model_catalog_json = "/Users/me/.codex/my-custom-catalog.json"
"#;
    let result = set_codex_model_catalog_json_field(input, None).unwrap();
    let parsed: toml::Value = toml::from_str(&result).unwrap();
    assert_eq!(
        parsed.get("model_catalog_json").and_then(|v| v.as_str()),
        Some("/Users/me/.codex/my-custom-catalog.json"),
        "None arm should NOT remove user-owned catalog"
    );
}

#[test]
fn set_catalog_json_some_preserves_user_owned_catalog() {
    // When CC Switch-KP generates a catalog (Some arm), it must still respect a
    // user-managed external catalog file instead of clobbering it with the
    // cc-switch-owned filename. Only an absent or cc-switch-owned pointer is
    // claimed; this mirrors the None arm's ownership rule.
    let input = r#"model_provider = "custom"
model = "glm-5"
model_catalog_json = "/Users/me/.codex/my-custom-catalog.json"
"#;
    let catalog_path = "/tmp/cc-switch-model-catalog.json";
    let result = set_codex_model_catalog_json_field(input, Some(catalog_path)).unwrap();
    let parsed: toml::Value = toml::from_str(&result).unwrap();
    assert_eq!(
        parsed.get("model_catalog_json").and_then(|v| v.as_str()),
        Some("/Users/me/.codex/my-custom-catalog.json"),
        "Some arm should NOT clobber a user-owned catalog (full path)"
    );
}

#[test]
fn set_catalog_json_some_preserves_user_owned_relative_filename() {
    // A bare custom filename (no directory component) is also user-owned
    // and must be preserved by the Some arm.
    let input = r#"model_provider = "custom"
model = "glm-5"
model_catalog_json = "my-custom-catalog.json"
"#;
    let catalog_path = "/tmp/cc-switch-model-catalog.json";
    let result = set_codex_model_catalog_json_field(input, Some(catalog_path)).unwrap();
    let parsed: toml::Value = toml::from_str(&result).unwrap();
    assert_eq!(
        parsed.get("model_catalog_json").and_then(|v| v.as_str()),
        Some("my-custom-catalog.json"),
        "Some arm should NOT clobber a relative user-owned catalog"
    );
}

#[test]
fn an_address_leaves_the_active_section_in_braces() {
    let config = "model_provider = \"any\"\nmodel_providers = { any = { name = \"any\", base_url = \"http://127.0.0.1:5000/v1\" } }\n";
    let out = remove_codex_toml_base_url_if(config, |url| url.starts_with("http://127.0.0.1"));
    let tree: toml::Value = toml::from_str(&out).expect("TOML");
    assert_eq!(tree["model_provider"].as_str(), Some("any"));
    assert_eq!(tree["model_providers"]["any"]["name"].as_str(), Some("any"));
    assert!(tree["model_providers"]["any"].get("base_url").is_none());
    assert_eq!(extract_codex_base_url(&out), None);
}

#[test]
fn a_written_address_is_found() {
    for config in [
        "",
        "model_provider = \"a\"\n",
        "model_provider = \"a\"\nmodel_providers = { a = { name = \"A\" } }\n",
        "model_provider = \"a\"\nmodel_providers.a.name = \"A\"\n",
        "model_provider = \"a\"\nmodel_providers = { a = 5 }\n",
        "model_provider = \"a\"\nmodel_providers = 5\n",
        "[model_providers.b]\nbase_url = \"https://b.example\"\n",
    ] {
        let out = update_codex_toml_field(config, "base_url", "  https://x.example/v1 ")
            .expect("config");
        assert_eq!(
            extract_codex_base_url(&out).as_deref(),
            Some("https://x.example/v1"),
            "{config}"
        );
    }
}

#[test]
fn a_token_in_braces_is_passed_over() {
    let config = "model_provider = \"any\"\nexperimental_bearer_token = \"top\"\nmodel_providers = { any = { name = \"any\", experimental_bearer_token = \"t\" } }\n";
    assert_eq!(
        extract_codex_experimental_bearer_token(config).as_deref(),
        Some("top")
    );
    let out = remove_codex_experimental_bearer_token_if(config, |_| true).expect("config");
    assert_eq!(extract_codex_experimental_bearer_token(&out), None);
    assert!(out.contains("experimental_bearer_token = \"t\""));
    let out = set_codex_experimental_bearer_token(&out, "new").expect("config");
    assert_eq!(
        extract_codex_experimental_bearer_token(&out).as_deref(),
        Some("new")
    );
    assert!(out.contains("experimental_bearer_token = \"t\""));
}
