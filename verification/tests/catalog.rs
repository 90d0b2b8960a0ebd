use codex_switch::catalog::{
    build_simplified_catalog_from_texts, codex_model_catalog_from_settings,
    codex_model_catalog_from_specs, simplify_catalog,
};
use codex_switch::catalog_entry::{
    codex_catalog_model_entry, codex_vendor_catalog_model_entry, fill_template_fields_from_static,
    CodexCatalogToolProfile, ImageInputCapability,
};
use codex_switch::error::AppError;
use codex_switch::json::{parse_json, print_json, Json};
use codex_switch::live_catalog::{read_codex_model_catalog_simplified_from_live, CatalogFile};
use codex_switch::model_specs::{codex_catalog_model_specs, CodexCatalogModelSpec, SlotTable};
use codex_switch::routed_catalog::{
    codex_official_vendor_catalog_models, CapabilityRow, CapabilityTable, CatalogSources,
    ProxyTemplate,
};
use serde_json::Value;

fn json(text: &str) -> Json {
    parse_json(text).expect("JSON text")
}

fn value(json: &Json) -> Value {
    serde_json::from_str(&print_json(json)).expect("printed JSON")
}

fn val(text: &str) -> Value {
    serde_json::from_str(text).expect("JSON text")
}

fn no_slots() -> SlotTable {
    SlotTable { rows: Vec::new() }
}

fn capability(model: &str, declared: &[&str], capability: ImageInputCapability) -> CapabilityRow {
    CapabilityRow {
        model: model.to_string(),
        declared: Some(declared.iter().map(|kind| kind.to_string()).collect()),
        capability,
    }
}

fn capabilities() -> CapabilityTable {
    CapabilityTable {
        rows: vec![
            capability(
                "deepseek-v4-flash",
                &["text", "image"],
                ImageInputCapability::Supported,
            ),
            capability("custom-text-alias", &["text"], ImageInputCapability::Unsupported),
            capability(
                "MiniMax-M3",
                &["text", "image"],
                ImageInputCapability::Supported,
            ),
        ],
    }
}

fn static_template() -> Json {
    json(
        r#"{
            "slug": "gpt-5.5",
            "display_name": "GPT-5.5",
            "base_instructions": "You are Codex.",
            "model_messages": {},
            "context_window": 272000,
            "supports_reasoning_summaries": true,
            "supports_parallel_tool_calls": true,
            "supports_search_tool": true,
            "supports_image_detail_original": true,
            "web_search_tool_type": "text_and_image"
        }"#,
    )
}

fn native_template() -> Json {
    json(
        r#"{
            "slug": "native",
            "display_name": "native",
            "description": "native",
            "shell_type": "shell_command",
            "base_instructions": "You are Codex, a coding agent.",
            "default_reasoning_level": "medium",
            "supported_reasoning_levels": [
                { "effort": "low", "description": "Fast" },
                { "effort": "medium", "description": "Balanced" }
            ],
            "supports_parallel_tool_calls": true,
            "input_modalities": ["text"]
        }"#,
    )
}

fn vendor_models() -> Vec<Json> {
    let mut models = Vec::new();
    for (slug, name) in [
        ("deepseek-v4-flash", "DeepSeek-V4-Flash"),
        ("deepseek-v4-pro", "DeepSeek-V4-Pro"),
    ] {
        let mut model = json(
            r#"{
                "base_instructions": "You are Codex, an agent based on GPT-5.",
                "apply_patch_tool_type": "freeform",
                "context_window": 1048576,
                "max_context_window": 1048576,
                "default_reasoning_level": "high",
                "supported_reasoning_levels": [
                    { "effort": "low" }, { "effort": "high" }, { "effort": "max" }
                ],
                "supports_search_tool": true,
                "web_search_tool_type": "text",
                "supports_reasoning_summaries": true,
                "input_modalities": ["text", "image"],
                "model_messages": {},
                "priority": 1
            }"#,
        );
        model.insert("slug", Json::string(slug));
        model.insert("display_name", Json::string(name));
        models.push(model);
    }
    models
}

fn sources() -> CatalogSources {
    CatalogSources {
        native_template: native_template(),
        proxy_template: ProxyTemplate::Failed(AppError::Message("no template".to_string())),
        static_template: Some(static_template()),
        vendor_models: vendor_models(),
        capabilities: capabilities(),
    }
}

const DEEPSEEK_NATIVE_CONFIG: &str = r#"model = "deepseek-v4-flash"
model_provider = "custom"

[model_providers.custom]
name = "deepseek"
base_url = "https://api.deepseek.com"
wire_api = "responses"
"#;


#[test]
fn catalog_tool_profile_from_api_format() {
    assert_eq!(
        CodexCatalogToolProfile::from_api_format(Some("anthropic")),
        CodexCatalogToolProfile::Anthropic
    );
    assert_eq!(
        CodexCatalogToolProfile::from_api_format(Some("openai_responses")),
        CodexCatalogToolProfile::NativeResponses
    );
    assert_eq!(
        CodexCatalogToolProfile::from_api_format(Some("openai_chat")),
        CodexCatalogToolProfile::ProxyChat
    );
    assert_eq!(
        CodexCatalogToolProfile::from_api_format(None),
        CodexCatalogToolProfile::ProxyChat
    );
}

#[test]
fn dynamic_template_backfills_parser_required_fields_from_static() {
    // Simulate a template cloned from a models_cache.json written by a
    // Codex build whose ModelInfo lacks parser-side required fields such
    // as `supports_reasoning_summaries` (codex >= 0.144.5 rejects the
    // whole catalog file without it).
    let mut template = json(r#"{
        "slug": "gpt-5.5",
        "context_window": 272000,
        "supports_parallel_tool_calls": false
    }"#);
    fill_template_fields_from_static(&mut template, Some(&static_template()));

    assert_eq!(
        template
            .get("supports_reasoning_summaries")
            .and_then(Json::as_bool),
        Some(true)
    );
    // Keys already present in the dynamic template are never overwritten.
    assert_eq!(
        template
            .get("supports_parallel_tool_calls")
            .and_then(Json::as_bool),
        Some(false)
    );
    assert_eq!(
        template.get("context_window").and_then(Json::as_u64),
        Some(272_000)
    );
    // Optional capability fields must NOT be backfilled: for the catalog
    // parser "missing" means the parser default, not the static
    // template's value.
    assert!(template.get("supports_search_tool").is_none());
    assert!(template.get("supports_image_detail_original").is_none());
    assert!(template.get("web_search_tool_type").is_none());
}

#[test]
fn proxy_chat_catalog_entries_carry_reasoning_summaries_flag() {
    // End to end: a stale dynamic template, once backfilled, must yield
    // catalog entries codex 0.144.5+ can parse.
    let mut template = json(r#"{ "slug": "gpt-5.5" }"#);
    fill_template_fields_from_static(&mut template, Some(&static_template()));
    let specs = vec![CodexCatalogModelSpec {
        model: "k3".to_string(),
        display_name: Some("Kimi K3".to_string()),
        context_window: Some(262_144),
        supports_parallel_tool_calls: None,
        input_modalities: None,
        base_instructions: None,
    }];
    let catalog = value(&codex_model_catalog_from_specs(
        &specs,
        &template,
        CodexCatalogToolProfile::ProxyChat,
        128_000,
        &capabilities(),
    ));
    assert_eq!(
        catalog["models"][0]
            .get("supports_reasoning_summaries")
            .and_then(Value::as_bool),
        Some(true)
    );
}

#[test]
fn codex_model_catalog_uses_provider_models_and_context() {
    let template = json(r#"{
        "slug": "gpt-5.5",
        "display_name": "GPT-5.5",
        "description": "Frontier model",
        "base_instructions": "gpt-5.5 base instructions",
        "model_messages": {
            "instructions_template": "gpt-5.5 instructions template",
            "instructions_variables": {
                "personality_default": "",
                "personality_friendly": "",
                "personality_pragmatic": ""
            }
        },
        "additional_speed_tiers": ["fast"],
        "service_tiers": [
            {
                "id": "priority",
                "name": "Fast",
                "description": "1.5x speed, increased usage"
            }
        ],
        "availability_nux": {
            "message": "GPT-5.5 is now available."
        },
        "upgrade": {
            "target": "gpt-5.5"
        },
        "context_window": 272000,
        "max_context_window": 272000
    }"#);
    let settings = json(r#"{
        "modelCatalog": {
            "models": [
                {
                    "model": "deepseek-v4-flash",
                    "displayName": "DeepSeek V4 Flash",
                    "contextWindow": "64000"
                },
                {
                    "model": "kimi-k2",
                    "display_name": "Kimi K2"
                }
            ]
        }
    }"#);
    let specs = codex_catalog_model_specs(&settings);
    let catalog = value(&codex_model_catalog_from_specs(
        &specs,
        &template,
        CodexCatalogToolProfile::ProxyChat,
        128_000,
        &capabilities(),
    ));
    let models = catalog
        .get("models")
        .and_then(|value| value.as_array())
        .expect("models should be an array");

    assert_eq!(models.len(), 2);
    assert_eq!(
        models[0].get("slug").and_then(|value| value.as_str()),
        Some("deepseek-v4-flash")
    );
    assert_eq!(
        models[0]
            .get("context_window")
            .and_then(|value| value.as_u64()),
        Some(64_000)
    );
    assert_eq!(
        models[1]
            .get("context_window")
            .and_then(|value| value.as_u64()),
        Some(128_000)
    );
    assert!(
        models[0].get("model_messages").is_some(),
        "Codex requires model_messages in custom catalogs"
    );
    assert_eq!(
        models[0]
            .get("base_instructions")
            .and_then(|value| value.as_str()),
        Some("gpt-5.5 base instructions")
    );
    assert_eq!(
        models[0].get("model_messages"),
        value(&template).get("model_messages"),
        "custom catalog entries should keep the gpt-5.5 agent template"
    );
    assert_eq!(
        models[0].get("additional_speed_tiers"),
        Some(&val("[]")),
        "generated third-party entries should not inherit OpenAI speed tiers"
    );
    assert!(
        models[0]
            .get("availability_nux")
            .is_some_and(|value| value.is_null()),
        "generated third-party entries should not inherit GPT-5.5 launch messaging"
    );
}

#[test]
fn native_responses_profile_suppresses_apply_patch_and_keeps_shell() {
    // Native (direct) /responses providers must NOT emit a freeform
    // apply_patch (type=="custom") tool — gateways like MiMo reject it.
    // The native profile uses the bundled clean template and relies on
    // shell_type="shell_command" for edits, plus per-row overrides.
    let settings = json(r#"{
        "modelCatalog": {
            "models": [
                {
                    "model": "MiniMax-M3",
                    "displayName": "MiniMax-M3",
                    "contextWindow": 1000000,
                    "supportsParallelToolCalls": true,
                    "inputModalities": ["text", "image"],
                    "baseInstructions": "You are Codex, a coding agent based on MiniMax-M3."
                }
            ]
        }
    }"#);

    let catalog = codex_model_catalog_from_settings(
        &settings,
        &no_slots(),
        "",
        CodexCatalogToolProfile::NativeResponses,
        None,
        &sources(),
    )
    .expect("native catalog generation should not error")
    .expect("non-empty modelCatalog must yield a catalog");
    let catalog = value(&catalog);

    let entry = &catalog["models"][0];
    assert_eq!(
        entry.get("slug").and_then(|v| v.as_str()),
        Some("MiniMax-M3")
    );
    assert_eq!(
        entry.get("shell_type").and_then(|v| v.as_str()),
        Some("shell_command"),
        "native entries edit via shell, not the custom apply_patch tool"
    );
    assert!(
        entry.get("apply_patch_tool_type").is_none(),
        "native entries must NOT declare a freeform apply_patch tool"
    );
    // `base_instructions` is REQUIRED by Codex's catalog parser, so it must
    // be present — and the per-row official override must win over the
    // template default.
    assert_eq!(
        entry.get("base_instructions").and_then(|v| v.as_str()),
        Some("You are Codex, a coding agent based on MiniMax-M3."),
        "per-row baseInstructions override must apply (and field must exist)"
    );
    assert!(
        entry.get("model_messages").is_none(),
        "native entries must not carry the gpt-5.5 model_messages persona text"
    );
    assert_eq!(
        entry.get("supports_parallel_tool_calls"),
        Some(&val("true")),
        "per-row supportsParallelToolCalls override must apply"
    );
    assert_eq!(
        entry.get("input_modalities"),
        Some(&val(r#"["text", "image"]"#)),
        "per-row inputModalities override must apply"
    );
    assert_eq!(
        entry.get("context_window").and_then(|v| v.as_u64()),
        Some(1_000_000)
    );
}

#[test]
fn catalog_entry_emits_camel_case_aliases_for_desktop() {
    let template = native_template();
    let spec = CodexCatalogModelSpec {
        model: "deepseek-v4-flash".to_string(),
        display_name: Some("DeepSeek V4 Flash".to_string()),
        context_window: Some(1_000_000),
        supports_parallel_tool_calls: Some(false),
        input_modalities: Some(vec!["text".to_string()]),
        base_instructions: Some("You are Codex, a coding agent.".to_string()),
    };
    let entry = codex_catalog_model_entry(
        &template,
        &spec,
        0,
        CodexCatalogToolProfile::NativeResponses,
        128_000,
        ImageInputCapability::Unsupported,
    );
    let entry = value(&entry);

    // snake_case (CLI / codex-rs ModelInfo) must stay intact.
    assert_eq!(entry.get("display_name"), Some(&val(r#""DeepSeek V4 Flash""#)));
    assert_eq!(entry.get("context_window"), Some(&val("1000000")));
    assert!(entry.get("supported_reasoning_levels").is_some());

    // camelCase (desktop >= 0.144 app-server protocol) must be present too.
    assert_eq!(entry.get("displayName"), Some(&val(r#""DeepSeek V4 Flash""#)));
    assert_eq!(entry.get("contextWindow"), Some(&val("1000000")));
    assert_eq!(entry.get("maxContextWindow"), Some(&val("1000000")));
    assert_eq!(entry.get("inputModalities"), Some(&val(r#"["text"]"#)));
    assert_eq!(
        entry.get("defaultReasoningEffort"),
        entry.get("default_reasoning_level"),
    );
    assert_eq!(entry.get("supportsParallelToolCalls"), Some(&val("false")),);
    let efforts = entry
        .get("supportedReasoningEfforts")
        .and_then(Value::as_array)
        .expect("camelCase reasoning efforts must exist");
    assert!(!efforts.is_empty());
    assert!(
        efforts
            .iter()
            .all(|level| level.get("reasoningEffort").is_some()),
        "camelCase efforts must use the reasoningEffort key"
    );
    assert!(
        efforts.iter().all(|level| level.get("effort").is_none()),
        "camelCase efforts must not carry the snake_case effort key"
    );
}

#[test]
fn vendor_catalog_entry_emits_camel_case_aliases() {
    let vendor_models = vendor_models();
    assert!(!vendor_models.is_empty());
    let spec = CodexCatalogModelSpec {
        model: "deepseek-v4-flash".to_string(),
        display_name: None,
        context_window: None,
        supports_parallel_tool_calls: None,
        input_modalities: None,
        base_instructions: None,
    };
    let entry = value(&codex_vendor_catalog_model_entry(
        &vendor_models,
        &spec,
        0,
        None,
        Some(&static_template()),
    ));
    assert_eq!(entry.get("displayName"), entry.get("display_name"));
    assert_eq!(entry.get("contextWindow"), entry.get("context_window"));
    assert!(
        entry.get("supportedReasoningEfforts").is_some(),
        "vendor entries must expose camelCase reasoning efforts"
    );
}

#[test]
fn vendor_catalog_alias_selects_template_by_upstream_model() {
    let vendor_models = vec![
        json(r#"{
            "slug": "vendor-flash",
            "display_name": "Vendor Flash",
            "description": "Vendor Flash",
            "vendor_capability": "flash"
        }"#),
        json(r#"{
            "slug": "vendor-pro",
            "display_name": "Vendor Pro",
            "description": "Vendor Pro",
            "vendor_capability": "pro"
        }"#),
    ];
    let spec = CodexCatalogModelSpec {
        model: "gpt-5.2".to_string(),
        display_name: None,
        context_window: None,
        supports_parallel_tool_calls: None,
        input_modalities: None,
        base_instructions: None,
    };

    let entry = value(&codex_vendor_catalog_model_entry(
        &vendor_models,
        &spec,
        0,
        Some("vendor-pro"),
        None,
    ));

    assert_eq!(entry.get("slug"), Some(&val(r#""gpt-5.2""#)));
    assert_eq!(entry.get("vendor_capability"), Some(&val(r#""pro""#)));
}

#[test]
fn catalog_infers_image_input_independently_of_tool_profile() {
    // Start from a deliberately text-only template to prove that every
    // profile overwrites template defaults with shared capability logic.
    let template = json(r#"{
        "input_modalities": ["text"],
        "apply_patch_tool_type": "freeform"
    }"#);
    let specs = vec![
        CodexCatalogModelSpec {
            model: "gpt-5.4".to_string(),
            display_name: Some("GPT 5.4".to_string()),
            context_window: Some(128_000),
            supports_parallel_tool_calls: None,
            input_modalities: None,
            base_instructions: None,
        },
        CodexCatalogModelSpec {
            model: "deepseek/deepseek-v4-pro".to_string(),
            display_name: Some("DeepSeek V4 Pro".to_string()),
            context_window: Some(128_000),
            supports_parallel_tool_calls: None,
            input_modalities: None,
            base_instructions: None,
        },
        CodexCatalogModelSpec {
            model: "glm-5.2v".to_string(),
            display_name: Some("GLM 5.2V".to_string()),
            context_window: Some(128_000),
            supports_parallel_tool_calls: None,
            input_modalities: None,
            base_instructions: None,
        },
        CodexCatalogModelSpec {
            model: "deepseek-v4-flash".to_string(),
            display_name: Some("Explicit Visual Override".to_string()),
            context_window: Some(128_000),
            supports_parallel_tool_calls: None,
            input_modalities: Some(vec!["text".to_string(), "image".to_string()]),
            base_instructions: None,
        },
        CodexCatalogModelSpec {
            model: "custom-text-alias".to_string(),
            display_name: Some("Explicit Text Override".to_string()),
            context_window: Some(128_000),
            supports_parallel_tool_calls: None,
            input_modalities: Some(vec!["text".to_string()]),
            base_instructions: None,
        },
    ];

    for profile in [
        CodexCatalogToolProfile::ProxyChat,
        CodexCatalogToolProfile::NativeResponses,
        CodexCatalogToolProfile::Anthropic,
    ] {
        let catalog = value(&codex_model_catalog_from_specs(
        &specs,
        &template,
        profile,
        128_000,
        &capabilities(),
    ));
        let models = catalog["models"].as_array().expect("models array");
        let modalities = |slug: &str| {
            models
                .iter()
                .find(|entry| entry["slug"] == slug)
                .and_then(|entry| entry.get("input_modalities"))
                .cloned()
                .unwrap_or(Value::Null)
        };

        assert_eq!(modalities("gpt-5.4"), val(r#"["text", "image"]"#));
        assert_eq!(
            modalities("deepseek/deepseek-v4-pro"),
            val(r#"["text", "image"]"#),
            "DeepSeek V4 accepts image input and must fail open"
        );
        assert_eq!(modalities("glm-5.2v"), val(r#"["text", "image"]"#));
        assert_eq!(
            modalities("deepseek-v4-flash"),
            val(r#"["text", "image"]"#),
            "explicit provider metadata must win over inferred capabilities"
        );
        assert_eq!(modalities("custom-text-alias"), val(r#"["text"]"#));
    }
}

#[test]
fn native_responses_catalog_always_carries_base_instructions() {
    // Regression guard for the "missing field `base_instructions`" parse
    // error: Codex refuses to load a model catalog whose entries lack
    // base_instructions. Synthesized presets carry no per-row override, so
    // the entry MUST inherit the template's neutral default rather than
    // dropping the field entirely.
    let settings = json(r#"{
        "modelCatalog": { "models": [{ "model": "qwen3-coder-plus" }] }
    }"#);

    let catalog = codex_model_catalog_from_settings(
        &settings,
        &no_slots(),
        "",
        CodexCatalogToolProfile::NativeResponses,
        None,
        &sources(),
    )
    .expect("native catalog generation should not error")
    .expect("non-empty modelCatalog must yield a catalog");
    let catalog = value(&catalog);

    let base = catalog["models"][0]
        .get("base_instructions")
        .and_then(|v| v.as_str());
    assert!(
        base.is_some_and(|s| !s.trim().is_empty()),
        "every native entry must carry a non-empty base_instructions (Codex requires it)"
    );
}

#[test]
fn deepseek_host_native_catalog_mirrors_official_entries() {
    // DeepSeek publishes an official Codex models.json (freeform
    // apply_patch + GPT-5 harness + low/high/max reasoning levels). For a
    // deepseek.com native provider the generated catalog must mirror it
    // verbatim instead of the stripped neutral template — the harness
    // tells the model to use apply_patch, so stripping the tool while
    // keeping the harness would be self-inconsistent.
    let settings = json(r#"{
        "modelCatalog": {
            "models": [
                { "model": "deepseek-v4-flash", "displayName": "DeepSeek V4 Flash" },
                { "model": "deepseek-v4-pro", "contextWindow": 500000 }
            ]
        }
    }"#);

    let catalog = codex_model_catalog_from_settings(
        &settings,
        &no_slots(),
        DEEPSEEK_NATIVE_CONFIG,
        CodexCatalogToolProfile::NativeResponses,
        None,
        &sources(),
    )
    .expect("vendor catalog generation should not error")
    .expect("non-empty modelCatalog must yield a catalog");
    let catalog = value(&catalog);

    let flash = &catalog["models"][0];
    assert_eq!(
        flash.get("slug").and_then(|v| v.as_str()),
        Some("deepseek-v4-flash")
    );
    assert_eq!(
        flash.get("apply_patch_tool_type").and_then(|v| v.as_str()),
        Some("freeform"),
        "official DeepSeek entries keep the freeform apply_patch grant"
    );
    assert!(
        flash
            .get("base_instructions")
            .and_then(|v| v.as_str())
            .is_some_and(|s| s.starts_with("You are Codex, an agent based on GPT-5")),
        "official GPT-5 harness must survive verbatim"
    );
    let efforts: Vec<&str> = flash["supported_reasoning_levels"]
        .as_array()
        .expect("official reasoning levels array")
        .iter()
        .filter_map(|level| level.get("effort").and_then(|v| v.as_str()))
        .collect();
    assert_eq!(efforts, vec!["low", "high", "max"]);
    assert_eq!(flash.get("supports_search_tool"), Some(&val("true")));
    assert_eq!(
        flash.get("web_search_tool_type").and_then(|v| v.as_str()),
        Some("text")
    );
    assert_eq!(
        flash.get("supports_reasoning_summaries"),
        Some(&val("true"))
    );
    assert_eq!(
        flash.get("input_modalities"),
        Some(&val(r#"["text", "image"]"#))
    );
    assert!(
        flash.get("model_messages").is_some(),
        "official entries are mirrored verbatim, incl. model_messages"
    );
    // No explicit contextWindow on the row: the official 1m window must
    // survive instead of being clobbered by the 128k default.
    assert_eq!(
        flash.get("context_window").and_then(|v| v.as_u64()),
        Some(1_048_576)
    );
    // Explicit user display name still wins over the official one.
    assert_eq!(
        flash.get("display_name").and_then(|v| v.as_str()),
        Some("DeepSeek V4 Flash")
    );

    let pro = &catalog["models"][1];
    assert_eq!(
        pro.get("slug").and_then(|v| v.as_str()),
        Some("deepseek-v4-pro")
    );
    // Explicit user context window override wins…
    assert_eq!(
        pro.get("context_window").and_then(|v| v.as_u64()),
        Some(500_000)
    );
    assert_eq!(
        pro.get("max_context_window").and_then(|v| v.as_u64()),
        Some(500_000)
    );
    // …while the untouched official display name is kept.
    assert_eq!(
        pro.get("display_name").and_then(|v| v.as_str()),
        Some("DeepSeek-V4-Pro")
    );
}

#[test]
fn deepseek_official_catalog_unknown_model_clones_flagship() {
    // A user-added model id the official file doesn't know keeps the
    // gateway's capability profile (clone of the flagship entry) without
    // impersonating it: own slug/name, demoted priority, and the official
    // context window rather than the 128k synthetic default.
    let settings = json(r#"{
        "modelCatalog": { "models": [{ "model": "deepseek-v4-lite" }] }
    }"#);

    let catalog = codex_model_catalog_from_settings(
        &settings,
        &no_slots(),
        DEEPSEEK_NATIVE_CONFIG,
        CodexCatalogToolProfile::NativeResponses,
        None,
        &sources(),
    )
    .expect("vendor catalog generation should not error")
    .expect("non-empty modelCatalog must yield a catalog");
    let catalog = value(&catalog);

    let entry = &catalog["models"][0];
    assert_eq!(
        entry.get("slug").and_then(|v| v.as_str()),
        Some("deepseek-v4-lite")
    );
    assert_eq!(
        entry.get("display_name").and_then(|v| v.as_str()),
        Some("deepseek-v4-lite")
    );
    assert!(
        entry
            .get("priority")
            .and_then(|v| v.as_u64())
            .is_some_and(|p| p >= 1000),
        "clones must sort after official entries"
    );
    assert_eq!(
        entry.get("apply_patch_tool_type").and_then(|v| v.as_str()),
        Some("freeform")
    );
    assert_eq!(
        entry.get("context_window").and_then(|v| v.as_u64()),
        Some(1_048_576),
        "absent contextWindow keeps the flagship's official window"
    );
    assert!(entry
        .get("base_instructions")
        .and_then(|v| v.as_str())
        .is_some_and(|s| !s.trim().is_empty()));
}

#[test]
fn official_vendor_catalog_gated_by_native_profile_and_host() {
    // The official mirror grants capabilities, so it is for the native
    // `/responses` profile on the vendor's own host alone.
    assert!(codex_official_vendor_catalog_models(
        DEEPSEEK_NATIVE_CONFIG,
        CodexCatalogToolProfile::NativeResponses,
        &vendor_models()
    ));

    for profile in [
        CodexCatalogToolProfile::ProxyChat,
        CodexCatalogToolProfile::Anthropic,
    ] {
        assert!(
            !codex_official_vendor_catalog_models(DEEPSEEK_NATIVE_CONFIG, profile, &vendor_models()),
            "only the NativeResponses profile may mirror the official catalog"
        );
    }

    let minimax_config = r#"model = "MiniMax-M3"
model_provider = "custom"

[model_providers.custom]
name = "minimax"
base_url = "https://api.minimaxi.com/v1"
wire_api = "responses"
"#;
    assert!(
        !codex_official_vendor_catalog_models(minimax_config, CodexCatalogToolProfile::NativeResponses, &vendor_models()),
        "non-DeepSeek native hosts keep the neutral template"
    );
    assert!(
        !codex_official_vendor_catalog_models("", CodexCatalogToolProfile::NativeResponses, &vendor_models())
    );
}

#[test]
fn proxy_chat_profile_still_keeps_apply_patch() {
    // Regression guard for Mode A: the proxy-chat profile must keep the
    // freeform apply_patch tool (the proxy rewrites custom<->function).
    let template = native_template();
    let specs = vec![CodexCatalogModelSpec {
        model: "x".to_string(),
        display_name: Some("x".to_string()),
        context_window: Some(128_000),
        supports_parallel_tool_calls: None,
        input_modalities: None,
        base_instructions: None,
    }];
    // Using a gpt-5.5-shaped template under ProxyChat must NOT strip
    // apply_patch_tool_type. (The native template lacks it, so synthesize
    // one with the field present to prove ProxyChat leaves it intact.)
    let mut proxy_template = template;
    proxy_template.insert("apply_patch_tool_type", Json::string("freeform"));
    let catalog = value(&codex_model_catalog_from_specs(
        &specs,
        &proxy_template,
        CodexCatalogToolProfile::ProxyChat,
        128_000,
        &capabilities(),
    ));
    assert_eq!(
        catalog["models"][0]
            .get("apply_patch_tool_type")
            .and_then(|v| v.as_str()),
        Some("freeform"),
        "ProxyChat must preserve apply_patch_tool_type (no native stripping)"
    );
}

#[test]
fn build_simplified_catalog_round_trips_user_input() {
    let config = "";
    let catalog = r#"{
        "models": [
            { "slug": "deepseek-v4-pro", "display_name": "deepseek-v4-pro", "context_window": 1000000 },
            { "slug": "deepseek-v4-flash", "display_name": "DeepSeek Flash", "context_window": 1000000 }
        ]
    }"#;
    let result = value(&build_simplified_catalog_from_texts(config, catalog, &capabilities()).expect("entries found"));
    let models = result
        .get("models")
        .and_then(|m| m.as_array())
        .expect("models array");
    assert_eq!(models.len(), 2);

    // First entry: display_name == slug → displayName squashed; explicit
    // context_window != default 128_000 → preserved.
    assert_eq!(
        models[0].get("model").and_then(|v| v.as_str()),
        Some("deepseek-v4-pro")
    );
    assert!(models[0].get("displayName").is_none());
    assert_eq!(
        models[0].get("contextWindow").and_then(|v| v.as_u64()),
        Some(1_000_000)
    );

    // Second entry: display_name distinct from slug → preserved.
    assert_eq!(
        models[1].get("displayName").and_then(|v| v.as_str()),
        Some("DeepSeek Flash")
    );
}

#[test]
fn build_simplified_catalog_squashes_default_context_window() {
    // Default fallback is 128_000 when config.toml has no model_context_window.
    let catalog = r#"{
        "models": [{ "slug": "kimi", "display_name": "kimi", "context_window": 128000 }]
    }"#;
    let result = value(&build_simplified_catalog_from_texts("", catalog, &capabilities()).expect("entry"));
    let entry = &result.get("models").unwrap().as_array().unwrap()[0];
    assert!(
        entry.get("contextWindow").is_none(),
        "default 128_000 should be squashed so the form shows blank, matching the user's blank input"
    );
}

#[test]
fn build_simplified_catalog_respects_explicit_model_context_window() {
    // When config.toml sets model_context_window, that becomes the default fallback.
    let config = r#"model_context_window = 200000
"#;
    let catalog = r#"{
        "models": [
            { "slug": "a", "display_name": "a", "context_window": 200000 },
            { "slug": "b", "display_name": "b", "context_window": 500000 }
        ]
    }"#;
    let result = value(&build_simplified_catalog_from_texts(config, catalog, &capabilities()).expect("entries"));
    let models = result.get("models").unwrap().as_array().unwrap();
    // Matches default → squashed.
    assert!(models[0].get("contextWindow").is_none());
    // Different from default → preserved.
    assert_eq!(
        models[1].get("contextWindow").and_then(|v| v.as_u64()),
        Some(500_000)
    );
}

#[test]
fn build_simplified_catalog_squashes_inferred_modalities_and_keeps_overrides() {
    let catalog = r#"{
        "models": [
            { "slug": "gpt-5.4", "input_modalities": ["text", "image"] },
            { "slug": "deepseek-v4-pro", "input_modalities": ["text"] },
            { "slug": "gpt-text-override", "input_modalities": ["text"] },
            { "slug": "deepseek-v4-flash", "input_modalities": ["text", "image"] }
        ]
    }"#;

    let result = value(&build_simplified_catalog_from_texts("", catalog, &capabilities()).expect("entries"));
    let models = result.get("models").unwrap().as_array().unwrap();

    assert!(
        models[0].get("inputModalities").is_none(),
        "GPT text+image is inferred and must not become a sticky hidden override"
    );
    assert_eq!(
        models[1].get("inputModalities"),
        Some(&val(r#"["text"]"#)),
        "explicit text-only override must round-trip for an image-capable model"
    );
    assert_eq!(
        models[2].get("inputModalities"),
        Some(&val(r#"["text"]"#)),
        "an unknown model explicitly forced to text-only must round-trip"
    );
    assert!(
        models[3].get("inputModalities").is_none(),
        "default image support is inferred and must not become a sticky hidden override"
    );
}

#[test]
fn build_simplified_catalog_returns_none_when_unparseable() {
    assert!(build_simplified_catalog_from_texts("", "not json", &capabilities()).is_none());
    assert!(build_simplified_catalog_from_texts("", "{}", &capabilities()).is_none());
    assert!(
        build_simplified_catalog_from_texts("", r#"{"models": []}"#, &capabilities()).is_none(),
        "empty models array should yield None so the field is not inserted at all"
    );
    assert!(
        build_simplified_catalog_from_texts(
            "",
            r#"{"models": [{"display_name": "no slug"}]}"#, &capabilities())
        .is_none(),
        "entries lacking slug are skipped; a fully-skipped catalog yields None"
    );
}

#[test]
fn saving_what_was_read_back_writes_the_same_catalog() {
    let settings = json(
        r#"{ "modelCatalog": { "models": [
            { "model": " MiniMax-M3 ", "displayName": "M3", "contextWindow": "64000",
              "inputModalities": ["text", "image"] },
            { "model": "custom-text-alias", "display_name": "custom-text-alias",
              "inputModalities": ["text"] },
            { "model": "MiniMax-M3", "displayName": "listed twice" },
            { "model": "plain", "contextWindow": 128000, "supportsParallelToolCalls": false }
        ] } }"#,
    );
    for profile in [
        CodexCatalogToolProfile::ProxyChat,
        CodexCatalogToolProfile::NativeResponses,
    ] {
        let first = codex_model_catalog_from_specs(
            &codex_catalog_model_specs(&settings),
            &native_template(),
            profile,
            128_000,
            &capabilities(),
        );
        let rows = simplify_catalog(Some(&first), 128_000, &capabilities()).expect("rows");
        let names: Vec<Value> = value(&rows)["models"]
            .as_array()
            .expect("models")
            .iter()
            .map(|row| row["model"].clone())
            .collect();
        assert_eq!(names, ["MiniMax-M3", "custom-text-alias", "plain"]);
        assert_eq!(value(&rows)["models"][0]["displayName"], "M3");
        assert_eq!(value(&rows)["models"][0]["contextWindow"], 64_000);
        assert_eq!(value(&rows)["models"][1].get("displayName"), None);
        assert_eq!(value(&rows)["models"][2].get("contextWindow"), None);
        let mut read_back = Json::object();
        read_back.insert("modelCatalog", rows);
        let again = codex_model_catalog_from_specs(
            &codex_catalog_model_specs(&read_back),
            &native_template(),
            profile,
            128_000,
            &capabilities(),
        );
        assert_eq!(value(&again), value(&first));
    }
}

#[test]
fn own_settings_go_before_those_of_the_vendor() {
    let specs = codex_catalog_model_specs(&json(
        r#"{ "modelCatalog": { "models": [
            { "model": "deepseek-v4-pro", "displayName": "Mine", "contextWindow": 4096,
              "supportsParallelToolCalls": false, "inputModalities": ["text", "image"],
              "baseInstructions": "  Be brief. " }
        ] } }"#,
    ));
    let entry = value(&codex_vendor_catalog_model_entry(
        &vendor_models(),
        &specs[0],
        3,
        None,
        None,
    ));
    assert_eq!(entry["slug"], "deepseek-v4-pro");
    assert_eq!(entry["display_name"], "Mine");
    assert_eq!(entry["context_window"], 4096);
    assert_eq!(entry["max_context_window"], 4096);
    assert_eq!(entry["supports_parallel_tool_calls"], false);
    assert_eq!(entry["input_modalities"], val(r#"["text", "image"]"#));
    assert_eq!(entry["base_instructions"], "Be brief.");
}

#[test]
fn a_value_that_a_template_has_is_not_filled_in() {
    let mut template = json(r#"{ "supports_reasoning_summaries": false }"#);
    fill_template_fields_from_static(&mut template, Some(&static_template()));
    assert_eq!(value(&template), val(r#"{ "supports_reasoning_summaries": false }"#));
}

#[test]
fn only_a_catalog_that_can_be_read_is_simplified() {
    let read = |file: CatalogFile| {
        read_codex_model_catalog_simplified_from_live(
            "model_context_window = 64000",
            &file,
            &capabilities(),
        )
    };
    for file in [
        CatalogFile::NotOurs,
        CatalogFile::Missing,
        CatalogFile::Unreadable,
        CatalogFile::Text("{".to_string()),
    ] {
        assert!(read(file).is_none());
    }
    let text = r#"{ "models": [{ "slug": "plain", "context_window": 64000 },
        { "slug": "wide", "context_window": 128000 }] }"#;
    let rows = read(CatalogFile::Text(text.to_string())).expect("rows");
    assert_eq!(
        value(&rows),
        val(r#"{ "models": [{ "model": "plain" },
            { "model": "wide", "contextWindow": 128000 }] }"#)
    );
}

#[test]
fn a_vendor_entry_has_the_id_that_was_asked_for() {
    let vendor = vec![json(r#"{ "slug": "vendor-pro", "display_name": "Vendor Pro" }"#)];
    let specs = codex_catalog_model_specs(&json(
        r#"{ "modelCatalog": { "models": [{ "model": "VENDOR-PRO" }] } }"#,
    ));
    let entry = value(&codex_vendor_catalog_model_entry(&vendor, &specs[0], 0, None, None));
    assert_eq!(entry["slug"], "VENDOR-PRO");
    assert_eq!(entry["model"], "VENDOR-PRO");
    assert_eq!(entry["display_name"], "Vendor Pro");
}
