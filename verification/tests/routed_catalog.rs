use codex_switch::catalog_entry::{CodexCatalogToolProfile, ImageInputCapability};
use codex_switch::catalog_ids::{
    codex_custom_catalog_model_ids, codex_custom_catalog_whitelist_model_ids,
    codex_provider_separator_model_id,
};
use codex_switch::json::{parse_json, print_json, Json};
use codex_switch::model_specs::{codex_custom_model_entries, SlotTable};
use codex_switch::routed_catalog::{
    codex_custom_catalog_entries, BoundProvider, CapabilityRow, CapabilityTable, CatalogSources,
    ProxyTemplate,
};
use serde_json::Value;

fn json(text: &str) -> Json {
    parse_json(text).expect("JSON text")
}

fn value(json: &Json) -> Value {
    serde_json::from_str(&print_json(json)).expect("printed JSON")
}

fn val(text: &str) -> Value {
    serde_json::from_str(text).expect("JSON text")
}

fn slots() -> SlotTable {
    SlotTable {
        rows: vec![("my-deepseek[1M]".to_string(), "my-deepseek".to_string())],
    }
}

fn row(
    model: &str,
    declared: Option<&[&str]>,
    capability: ImageInputCapability,
) -> CapabilityRow {
    CapabilityRow {
        model: model.to_string(),
        declared: declared.map(|kinds| kinds.iter().map(|kind| kind.to_string()).collect()),
        capability,
    }
}

fn provider(
    id: &str,
    name: &str,
    config: Option<&str>,
    profile: CodexCatalogToolProfile,
    default_model: Option<&str>,
    rows: Vec<CapabilityRow>,
) -> BoundProvider {
    BoundProvider {
        id: id.to_string(),
        name: name.to_string(),
        config: config.map(str::to_string),
        profile,
        default_model: default_model.map(str::to_string),
        capabilities: CapabilityTable { rows },
    }
}

fn static_template() -> Json {
    json(
        r#"{
            "slug": "gpt-5.5",
            "display_name": "GPT-5.5",
            "base_instructions": "You are Codex.",
            "model_messages": {},
            "context_window": 272000,
            "supports_reasoning_summaries": true,
            "supports_parallel_tool_calls": true,
            "supports_search_tool": true,
            "supports_image_detail_original": true,
            "web_search_tool_type": "text_and_image"
        }"#,
    )
}

fn native_template() -> Json {
    json(
        r#"{
            "slug": "native",
            "display_name": "native",
            "description": "native",
            "shell_type": "shell_command",
            "base_instructions": "You are Codex, a coding agent.",
            "default_reasoning_level": "medium",
            "supported_reasoning_levels": [
                { "effort": "low", "description": "Fast" },
                { "effort": "medium", "description": "Balanced" }
            ],
            "supports_parallel_tool_calls": true,
            "input_modalities": ["text"]
        }"#,
    )
}

fn vendor_models() -> Vec<Json> {
    let mut models = Vec::new();
    for (slug, name) in [
        ("deepseek-v4-flash", "DeepSeek-V4-Flash"),
        ("deepseek-v4-pro", "DeepSeek-V4-Pro"),
    ] {
        let mut model = json(
            r#"{
                "base_instructions": "You are Codex, an agent based on GPT-5.",
                "apply_patch_tool_type": "freeform",
                "context_window": 1048576,
                "max_context_window": 1048576,
                "default_reasoning_level": "high",
                "supported_reasoning_levels": [
                    { "effort": "low" }, { "effort": "high" }, { "effort": "max" }
                ],
                "supports_search_tool": true,
                "web_search_tool_type": "text",
                "supports_reasoning_summaries": true,
                "input_modalities": ["text", "image"],
                "model_messages": {},
                "priority": 1
            }"#,
        );
        model.insert("slug", Json::string(slug));
        model.insert("display_name", Json::string(name));
        models.push(model);
    }
    models
}

fn sources() -> CatalogSources {
    let mut proxy_template = static_template();
    proxy_template.insert("apply_patch_tool_type", Json::string("freeform"));
    CatalogSources {
        native_template: native_template(),
        proxy_template: ProxyTemplate::Ready(proxy_template),
        static_template: Some(static_template()),
        vendor_models: vendor_models(),
        capabilities: CapabilityTable {
            rows: vec![row(
                "gpt-5.2",
                Some(&["text"]),
                ImageInputCapability::Unsupported,
            )],
        },
    }
}

const DEEPSEEK_NATIVE_CONFIG: &str = r#"model = "deepseek-v4-flash"
model_provider = "custom"

[model_providers.custom]
name = "deepseek"
base_url = "https://api.deepseek.com"
wire_api = "responses"
"#;


#[test]
fn aggregate_catalog_uses_each_bound_providers_tool_profile() {
    let chat = provider(
        "chat-provider",
        "Chat Provider",
        None,
        CodexCatalogToolProfile::ProxyChat,
        None,
        Vec::new(),
    );
    let native = provider(
        "native-provider",
        "Native Provider",
        None,
        CodexCatalogToolProfile::NativeResponses,
        None,
        Vec::new(),
    );

    let settings = json(r#"{
        "codexCustomModels": [
            {
                "model": "gpt-5.4-mini",
                "providerId": "chat-provider",
                "upstreamModel": "chat-model"
            },
            {
                "model": "gpt-5.2",
                "providerId": "native-provider",
                "upstreamModel": "native-model"
            }
        ]
    }"#);

    let providers = vec![chat, native];
    let entries = codex_custom_catalog_entries(
        &settings,
        &slots(),
        "",
        CodexCatalogToolProfile::NativeResponses,
        Some(&providers),
        &sources(),
    )
    .expect("build aggregate catalog entries");
    let entries: Vec<Value> = entries.iter().map(value).collect();
    let chat_entry = entries
        .iter()
        .find(|entry| entry.get("slug") == Some(&val(r#""gpt-5.4-mini""#)))
        .expect("chat model entry");
    let native_entry = entries
        .iter()
        .find(|entry| entry.get("slug") == Some(&val(r#""gpt-5.2""#)))
        .expect("native model entry");
    assert_eq!(
        chat_entry
            .get("apply_patch_tool_type")
            .and_then(|value| value.as_str()),
        Some("freeform"),
        "a Chat route must keep the freeform apply_patch surface"
    );
    assert!(
        native_entry.get("apply_patch_tool_type").is_none(),
        "a native Responses route must suppress freeform apply_patch"
    );
}

#[test]
fn aggregate_catalog_adds_provider_separator_as_a_separate_model() {
    let deepseek = provider(
        "deepseek-provider",
        "DeepSeek",
        None,
        CodexCatalogToolProfile::NativeResponses,
        None,
        Vec::new(),
    );
    let glm = provider(
        "glm-provider",
        "GLM",
        None,
        CodexCatalogToolProfile::NativeResponses,
        None,
        Vec::new(),
    );
    let settings = json(r#"{
        "codexCustomModels": [
            {
                "model": "deepseek-v4",
                "providerId": "deepseek-provider",
                "upstreamModel": "deepseek-v4",
                "displayName": "DeepSeek V4"
            },
            {
                "model": "deepseek-v3",
                "providerId": "deepseek-provider",
                "upstreamModel": "deepseek-v3",
                "displayName": "DeepSeek V3"
            },
            {
                "model": "glm-5",
                "providerId": "glm-provider",
                "upstreamModel": "glm-5",
                "displayName": "GLM-5"
            }
        ]
    }"#);
    let providers = vec![deepseek, glm];

    let entries = codex_custom_catalog_entries(
        &settings,
        &slots(),
        "",
        CodexCatalogToolProfile::NativeResponses,
        Some(&providers),
        &sources(),
    )
    .expect("build provider-grouped catalog entries");
    let entries: Vec<Value> = entries.iter().map(value).collect();

    assert_eq!(entries.len(), 5);
    assert_eq!(
        entries[0].get("display_name").and_then(Value::as_str),
        Some("------ DeepSeek ------")
    );
    assert_eq!(
        entries[0].get("slug"),
        Some(&Value::String(codex_provider_separator_model_id(
            "deepseek-provider"
        )))
    );
    assert_eq!(
        entries[1].get("display_name").and_then(Value::as_str),
        Some("DeepSeek V4")
    );
    assert_eq!(
        entries[2].get("display_name").and_then(Value::as_str),
        Some("DeepSeek V3")
    );
    assert_eq!(
        entries[3].get("display_name").and_then(Value::as_str),
        Some("------ GLM ------")
    );
    assert_eq!(
        entries[4].get("display_name").and_then(Value::as_str),
        Some("GLM-5")
    );
}

#[test]
fn aggregate_catalog_preserves_bound_providers_official_vendor_capabilities() {
    let provider = provider(
        "deepseek-provider",
        "DeepSeek Provider",
        Some(DEEPSEEK_NATIVE_CONFIG),
        CodexCatalogToolProfile::NativeResponses,
        Some("deepseek-v4-pro"),
        Vec::new(),
    );
    let settings = json(r#"{
        "codexCustomModels": [{
            "model": "gpt-5.2",
            "providerId": "deepseek-provider",
            "upstreamModel": "deepseek-v4-pro"
        }]
    }"#);
    let providers = vec![provider];

    let entries = codex_custom_catalog_entries(
        &settings,
        &slots(),
        "",
        CodexCatalogToolProfile::NativeResponses,
        Some(&providers),
        &sources(),
    )
    .expect("build aggregate catalog entries");
    let entries: Vec<Value> = entries.iter().map(value).collect();

    let entry = &entries[1];
    assert_eq!(entry.get("slug"), Some(&val(r#""gpt-5.2""#)));
    assert_eq!(entry.get("display_name"), Some(&val(r#""gpt-5.2""#)));
    assert_eq!(entry.get("apply_patch_tool_type"), Some(&val(r#""freeform""#)));
    assert!(entry
        .get("base_instructions")
        .and_then(Value::as_str)
        .is_some_and(|text| text.starts_with("You are Codex, an agent based on GPT-5")));
    assert_eq!(entry.get("context_window"), Some(&val("1048576")));
}

#[test]
fn aggregate_vendor_catalog_preserves_case_sensitive_public_slot_identity() {
    let provider = provider(
        "deepseek-provider",
        "DeepSeek Provider",
        Some(DEEPSEEK_NATIVE_CONFIG),
        CodexCatalogToolProfile::NativeResponses,
        Some("deepseek-v4-pro"),
        Vec::new(),
    );
    let settings = json(r#"{
        "codexCustomModels": [{
            "model": "DEEPSEEK-V4-PRO",
            "providerId": "deepseek-provider"
        }]
    }"#);
    let providers = vec![provider];

    let entries = codex_custom_catalog_entries(
        &settings,
        &slots(),
        "",
        CodexCatalogToolProfile::NativeResponses,
        Some(&providers),
        &sources(),
    )
    .expect("build aggregate catalog entries");
    let entries: Vec<Value> = entries.iter().map(value).collect();

    assert_eq!(entries[1].get("slug"), Some(&val(r#""DEEPSEEK-V4-PRO""#)));
    assert_eq!(
        entries[1].get("display_name"),
        Some(&val(r#""DEEPSEEK-V4-PRO""#))
    );
}

#[test]
fn aggregate_catalog_uses_bound_providers_default_context_window() {
    let provider = provider(
        "native-provider",
        "Native Provider",
        Some("model = \"native-model\"\nmodel_context_window = 262144\n"),
        CodexCatalogToolProfile::NativeResponses,
        Some("native-model"),
        Vec::new(),
    );
    let settings = json(r#"{
        "codexCustomModels": [{
            "model": "gpt-5.2",
            "providerId": "native-provider",
            "upstreamModel": "native-model"
        }]
    }"#);
    let providers = vec![provider];

    let entries = codex_custom_catalog_entries(
        &settings,
        &slots(),
        "model_context_window = 999999\n",
        CodexCatalogToolProfile::NativeResponses,
        Some(&providers),
        &sources(),
    )
    .expect("build aggregate catalog entries");
    let entries: Vec<Value> = entries.iter().map(value).collect();

    assert_eq!(entries[0].get("context_window"), Some(&val("262144")));
    assert_eq!(entries[0].get("max_context_window"), Some(&val("262144")));
}

#[test]
fn aggregate_catalog_omits_mapping_when_bound_provider_is_missing() {
    let settings = json(r#"{
        "codexCustomModels": [{
            "model": "gpt-5.2",
            "providerId": "deleted-provider",
            "upstreamModel": "deepseek-v4-flash"
        }]
    }"#);
    let providers: Vec<BoundProvider> = Vec::new();

    let entries = codex_custom_catalog_entries(
        &settings,
        &slots(),
        "",
        CodexCatalogToolProfile::NativeResponses,
        Some(&providers),
        &sources(),
    )
    .expect("build aggregate catalog entries");
    let entries: Vec<Value> = entries.iter().map(value).collect();

    assert!(
        entries.is_empty(),
        "a stale mapping must not advertise an unroutable slot"
    );
}

#[test]
fn aggregate_catalog_infers_modalities_from_the_actual_upstream_model() {
    let provider = provider(
        "deepseek-provider",
        "DeepSeek Provider",
        Some("model = \"deepseek-v4-flash\""),
        CodexCatalogToolProfile::NativeResponses,
        Some("deepseek-v4-flash"),
        vec![row("deepseek-v4-flash", None, ImageInputCapability::Supported)],
    );
    let settings = json(r#"{
        "codexCustomModels": [{
            "model": "gpt-5.2",
            "providerId": "deepseek-provider",
            "upstreamModel": "deepseek-v4-flash"
        }]
    }"#);
    let providers = vec![provider];

    let entries = codex_custom_catalog_entries(
        &settings,
        &slots(),
        "",
        CodexCatalogToolProfile::NativeResponses,
        Some(&providers),
        &sources(),
    )
    .expect("build aggregate catalog entries");
    let entries: Vec<Value> = entries.iter().map(value).collect();

    assert_eq!(entries[1].get("slug"), Some(&val(r#""gpt-5.2""#)));
    assert_eq!(
        entries[1].get("input_modalities"),
        Some(&val(r#"["text", "image"]"#)),
        "capabilities must follow the routed upstream model, not the public slot"
    );
}

#[test]
fn aggregate_catalog_infers_modalities_from_the_bound_providers_default_model() {
    let provider = provider(
        "deepseek-provider",
        "DeepSeek Provider",
        Some("model = \"deepseek-v4-flash\""),
        CodexCatalogToolProfile::NativeResponses,
        Some("deepseek-v4-flash"),
        vec![row("deepseek-v4-flash", None, ImageInputCapability::Supported)],
    );
    let settings = json(r#"{
        "codexCustomModels": [{
            "model": "gpt-5.2",
            "providerId": "deepseek-provider"
        }]
    }"#);
    let providers = vec![provider];

    let entries = codex_custom_catalog_entries(
        &settings,
        &slots(),
        "",
        CodexCatalogToolProfile::NativeResponses,
        Some(&providers),
        &sources(),
    )
    .expect("build aggregate catalog entries");
    let entries: Vec<Value> = entries.iter().map(value).collect();

    assert_eq!(
        entries[1].get("input_modalities"),
        Some(&val(r#"["text", "image"]"#)),
        "an omitted upstream override must inherit the bound provider's routed model"
    );
}

#[test]
fn aggregate_catalog_prefers_bound_provider_declared_modalities() {
    let provider = provider(
        "declared-provider",
        "Declared Provider",
        Some("model = \"custom-text-upstream\""),
        CodexCatalogToolProfile::NativeResponses,
        Some("custom-text-upstream"),
        vec![row("custom-text-upstream", None, ImageInputCapability::Unsupported)],
    );
    let settings = json(r#"{
        "codexCustomModels": [{
            "model": "gpt-5.2",
            "providerId": "declared-provider",
            "upstreamModel": "custom-text-upstream"
        }]
    }"#);
    let providers = vec![provider];

    let entries = codex_custom_catalog_entries(
        &settings,
        &slots(),
        "",
        CodexCatalogToolProfile::NativeResponses,
        Some(&providers),
        &sources(),
    )
    .expect("build aggregate catalog entries");
    let entries: Vec<Value> = entries.iter().map(value).collect();

    assert_eq!(
        entries[1].get("input_modalities"),
        Some(&val(r#"["text"]"#)),
        "the bound provider's explicit capability declaration must win"
    );
}

#[test]
fn custom_model_entries_parse_preserves_cross_provider_duplicates() {
    let settings = json(r#"{
        "codexCustomModels": [
            {
                "model": "my-deepseek",
                "providerId": "prov-1",
                "upstreamModel": "deepseek-chat",
                "displayName": "DeepSeek via cc-switch",
                "contextWindow": 128000,
                "inputModalities": ["text"]
            },
            {
                "model": "my-deepseek",
                "providerId": "prov-2"
            },
            {
                "model": "  ",
                "providerId": "prov-3"
            },
            {
                "model": "snake-case",
                "provider_id": "prov-4",
                "upstream_model": "deepseek-reasoner"
            },
            {
                "model": "my-deepseek[1M]",
                "providerId": "prov-5"
            }
        ]
    }"#);
    let entries = codex_custom_model_entries(&settings, &slots());
    assert_eq!(
        entries.len(),
        4,
        "empty model ids are skipped, but the same model under different providers is kept"
    );
    assert_eq!(entries[0].model, "my-deepseek");
    assert_eq!(entries[0].provider_id, "prov-1");
    assert_eq!(entries[0].upstream_model.as_deref(), Some("deepseek-chat"));
    assert_eq!(entries[0].context_window, Some(128_000));
    assert_eq!(
        entries[0].input_modalities.as_deref(),
        Some(&["text".to_string()][..])
    );
    assert_eq!(entries[1].model, "my-deepseek");
    assert_eq!(entries[1].provider_id, "prov-2");
    assert_eq!(entries[2].model, "snake-case");
    assert_eq!(entries[2].provider_id, "prov-4");
    assert_eq!(entries[3].model, "my-deepseek[1M]");
    assert_eq!(entries[3].provider_id, "prov-5");
    assert_eq!(
        entries[2].upstream_model.as_deref(),
        Some("deepseek-reasoner")
    );
}

#[test]
fn custom_catalog_model_ids_keep_same_model_per_provider_selectable() {
    let settings = json(r#"{
        "codexCustomModels": [
            {
                "model": "deepseek-v4",
                "providerId": "provider-a",
                "displayName": "DeepSeek V4"
            },
            {
                "model": "deepseek-v4",
                "providerId": "provider-b",
                "displayName": "DeepSeek V4"
            },
            {
                "model": "deepseek-v3",
                "providerId": "provider-b"
            }
        ]
    }"#);
    let entries = codex_custom_model_entries(&settings, &slots());
    let ids = codex_custom_catalog_model_ids(&entries, &slots());

    assert_eq!(ids.len(), 3);
    assert_eq!(ids[0], "deepseek-v4");
    assert_ne!(ids[1], ids[0]);
    assert!(ids[1].starts_with("deepseek-v4--cc-switch-provider-provider-b-"));
    assert_eq!(ids[2], "deepseek-v3");

    let whitelist = codex_custom_catalog_whitelist_model_ids(&settings, &slots());
    assert!(whitelist.contains(&ids[0]));
    assert!(whitelist.contains(&ids[1]));
    assert!(whitelist.contains(&ids[2]));
}

#[test]
fn custom_model_entries_parse_route_chain() {
    let settings = json(r#"{
        "codexCustomModels": [
            {
                "model": "gpt-5.2",
                "routes": [
                    { "providerId": "p1", "upstreamModel": "model-a" },
                    { "provider_id": "p2", "upstream_model": "model-b" }
                ]
            }
        ]
    }"#);
    let entries = codex_custom_model_entries(&settings, &slots());
    assert_eq!(entries.len(), 1);
    assert_eq!(entries[0].provider_id, "p1");
    assert_eq!(entries[0].upstream_model.as_deref(), Some("model-a"));
    assert_eq!(entries[0].routes.len(), 2);
    assert_eq!(entries[0].routes[0].provider_id, "p1");
    assert_eq!(
        entries[0].routes[0].upstream_model.as_deref(),
        Some("model-a")
    );
    assert_eq!(entries[0].routes[1].provider_id, "p2");
    assert_eq!(
        entries[0].routes[1].upstream_model.as_deref(),
        Some("model-b")
    );
}
