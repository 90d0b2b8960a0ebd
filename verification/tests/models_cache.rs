use codex_switch::cache_plan::{
    restore_or_clear_codex_official_models_cache, write_codex_models_cache_for_aggregate,
    write_codex_models_cache_for_official_login, write_codex_models_cache_for_provider,
    write_models_cache_json_with_client_version, CacheAction, CachePlan, CacheProvider, CacheState,
};
use codex_switch::catalog_entry::CodexCatalogToolProfile;
use codex_switch::catalog_ids::codex_provider_separator_model_id;
use codex_switch::json::{parse_json, print_json, Json};
use codex_switch::model_specs::SlotTable;
use codex_switch::models_cache::{
    apply_codex_official_model_display_prefix, codex_cache_has_legacy_custom_models,
    codex_cache_is_reliable_official_baseline, codex_model_label_key,
    codex_models_cache_needs_takeover_cleanup, merge_codex_custom_catalog_entries,
    CODEX_OFFICIAL_MODELS_MERGED_KEY,
};
use codex_switch::moment::Moment;
use codex_switch::official_baseline::{
    age_state, capture_forwarded_codex_official_models_baseline,
    codex_official_baseline_capture_state, codex_official_baseline_with_capture_time,
    CodexOfficialBaselineCaptureState, CODEX_OFFICIAL_BASELINE_CAPTURED_AT_KEY,
    CODEX_OFFICIAL_BASELINE_STATE_KEY,
};
use codex_switch::routed_catalog::{
    codex_custom_catalog_entries, BoundProvider, CapabilityTable, CatalogSources, ProxyTemplate,
};
use serde_json::Value;

// 2026-08-20T00:00:00Z
const NOW: i64 = 1_787_184_000;

fn json(text: &str) -> Json {
    parse_json(text).expect("JSON text")
}

fn value(json: &Json) -> Value {
    serde_json::from_str(&print_json(json)).expect("printed JSON")
}

fn val(text: &str) -> Value {
    serde_json::from_str(text).expect("JSON text")
}

fn from_value(value: &Value) -> Json {
    json(&value.to_string())
}

fn moment(secs: i64) -> Moment {
    Moment { secs, nanos: 0 }
}

fn no_slots() -> SlotTable {
    SlotTable { rows: Vec::new() }
}

fn template() -> Json {
    json(r#"{ "slug": "native", "display_name": "native", "base_instructions": "You are Codex." }"#)
}

fn sources() -> CatalogSources {
    CatalogSources {
        native_template: template(),
        proxy_template: ProxyTemplate::Ready(template()),
        static_template: None,
        vendor_models: Vec::new(),
        capabilities: CapabilityTable { rows: Vec::new() },
    }
}

/// The two files that the plans speak of.
struct Files {
    live: Option<Value>,
    saved: Option<Value>,
}

impl Files {
    fn with(live: Option<&str>, saved: Option<&str>) -> Files {
        Files {
            live: live.map(val),
            saved: saved.map(val),
        }
    }

    fn state(&self, detected: Option<&str>) -> CacheState {
        CacheState {
            live: self.live.as_ref().map(from_value),
            saved: self.saved.as_ref().map(from_value),
            detected_version: detected.map(str::to_string),
            now: moment(NOW),
        }
    }

    fn apply(&mut self, plan: CachePlan) -> Result<(), String> {
        for action in &plan.actions {
            match action {
                CacheAction::WriteBaseline(baseline) => self.saved = Some(value(baseline)),
                CacheAction::RemoveLive => self.live = None,
                CacheAction::WriteLive(live) => self.live = Some(value(live)),
            }
        }
        match plan.error {
            Some(error) => Err(error.message()),
            None => Ok(()),
        }
    }

    fn entries(
        settings: &Json,
        providers: Option<&Vec<BoundProvider>>,
    ) -> Result<Vec<Json>, codex_switch::error::AppError> {
        codex_custom_catalog_entries(
            settings,
            &no_slots(),
            "",
            CodexCatalogToolProfile::NativeResponses,
            providers,
            &sources(),
        )
    }

    fn aggregate(&mut self, settings: &Json) -> Result<(), String> {
        let entries = Files::entries(settings, None);
        let plan =
            write_codex_models_cache_for_aggregate(&self.state(None), settings, &no_slots(), entries);
        self.apply(plan)
    }

    fn official_login(
        &mut self,
        settings: &Json,
        providers: Option<&Vec<BoundProvider>>,
    ) -> Result<(), String> {
        let entries = Files::entries(settings, providers);
        let plan = write_codex_models_cache_for_official_login(
            &self.state(None),
            settings,
            &no_slots(),
            entries,
        );
        self.apply(plan)
    }

    fn restore(&mut self) -> Result<(), String> {
        let plan = restore_or_clear_codex_official_models_cache(&self.state(None));
        self.apply(plan)
    }

    fn provider(&mut self, official: bool, settings: &str, config: &str) -> Result<(), String> {
        let provider = CacheProvider {
            official,
            settings: json(settings),
            profile: CodexCatalogToolProfile::NativeResponses,
        };
        let plan = write_codex_models_cache_for_provider(
            &self.state(None),
            &provider,
            config,
            &no_slots(),
            None,
            &sources(),
        );
        self.apply(plan)
    }

    fn live(&self) -> &Value {
        self.live.as_ref().expect("a live cache")
    }

    fn saved(&self) -> &Value {
        self.saved.as_ref().expect("a saved list")
    }
}

fn slugs(cache: &Value) -> Vec<String> {
    cache
        .get("models")
        .and_then(Value::as_array)
        .into_iter()
        .flatten()
        .filter_map(|model| model.get("slug").and_then(Value::as_str))
        .map(str::to_string)
        .collect()
}

fn is_own(cache: &Value) -> bool {
    cache
        .get("etag")
        .and_then(Value::as_str)
        .is_some_and(|etag| etag.starts_with("W/\"cc-switch-"))
}

#[test]
fn official_display_prefix_is_idempotent_and_covers_slug_fallback() {
    let mut models = vec![
        json(
            r#"{
                "slug": "gpt-5.6-luna",
                "display_name": "官方-gpt-5.6-luna",
                "displayName": "官方-gpt-5.6-luna"
            }"#,
        ),
        json(r#"{ "slug": "gpt-5.6-terra" }"#),
    ];
    apply_codex_official_model_display_prefix(&mut models);
    assert_eq!(
        models[0].get("display_name").and_then(Json::as_str),
        Some("官方-gpt-5.6-luna"),
        "already-prefixed names must not be double-prefixed"
    );
    assert_eq!(
        models[1].get("display_name").and_then(Json::as_str),
        Some("官方-gpt-5.6-terra"),
        "entries without a display name must fall back to the prefixed slug"
    );
    assert_eq!(
        models[1].get("displayName").and_then(Json::as_str),
        Some("官方-gpt-5.6-terra"),
        "slug fallback must fill both display field spellings"
    );
}

#[test]
fn forwarded_catalog_with_cc_switch_body_etag_cannot_be_laundered() {
    let captured = capture_forwarded_codex_official_models_baseline(
        &json(
            r#"{
                "etag": "W/\"cc-switch-merged-1\"",
                "models": [{"slug": "custom-slot"}]
            }"#,
        ),
        "0.147.0",
        Some("W/\"official-http-etag\""),
        &moment(NOW),
    );

    assert!(captured.is_none());
}

#[test]
fn official_baseline_capture_state_has_exact_ttl_boundaries() {
    // 2026-08-04T12:00:00Z
    let now = moment(1_785_844_800);
    let state_for = |captured_at: &str| {
        let mut cache = Json::object();
        cache.insert("cc_switch_captured_at", json(captured_at));
        codex_official_baseline_capture_state(&cache, &now)
    };

    assert!(
        codex_official_baseline_capture_state(&json("{}"), &now)
            == CodexOfficialBaselineCaptureState::Missing
    );
    assert!(
        state_for(r#""2026-08-04T11:55:01Z""#) == CodexOfficialBaselineCaptureState::Fresh,
        "299 seconds must remain fresh"
    );
    assert!(
        state_for(r#""2026-08-04T11:55:00Z""#) == CodexOfficialBaselineCaptureState::Expired,
        "300 seconds is the exact expiry boundary"
    );
    assert!(
        state_for(r#""2026-08-04T11:54:59Z""#) == CodexOfficialBaselineCaptureState::Expired,
        "301 seconds must be expired"
    );
    assert!(state_for(r#""not-a-timestamp""#) == CodexOfficialBaselineCaptureState::Invalid);
    assert!(state_for("42") == CodexOfficialBaselineCaptureState::Invalid);
    assert!(
        state_for(r#""2026-08-04T12:01:01Z""#) == CodexOfficialBaselineCaptureState::Invalid,
        "capture times beyond the clock-skew allowance must be quarantined"
    );
}

#[test]
fn write_codex_models_cache_for_aggregate_refreshes_cache() {
    let mut files = Files::with(
        Some(
            r#"{
                "fetched_at": "2026-08-01T00:00:00.000000000Z",
                "etag": "W/\"old\"",
                "client_version": "0.146.0",
                "models": [{
                    "slug": "gpt-5.5",
                    "display_name": "GPT-5.5",
                    "context_window": 400000
                }]
            }"#,
        ),
        None,
    );
    let settings = json(
        r#"{
            "enableOfficialLogin": false,
            "codexCustomModels": [{
                "model": "deepseek-v4-flash",
                "providerId": "deepseek",
                "displayName": "DeepSeek V4 Flash",
                "contextWindow": 131072
            }]
        }"#,
    );
    files
        .aggregate(&settings)
        .expect("aggregate cache write must succeed");

    let written = files.live();
    assert_eq!(
        written.get("fetched_at").and_then(Value::as_str),
        Some("2026-08-20T00:00:00.000000000Z")
    );
    assert_eq!(
        slugs(written),
        vec![
            codex_provider_separator_model_id("deepseek"),
            "deepseek-v4-flash".to_string(),
        ],
        "the provider divider and mapped custom model should remain"
    );
    assert!(
        is_own(written),
        "aggregate rewrites must be marked as cc-switch-owned"
    );
}

#[test]
fn models_cache_uses_detected_codex_version_when_cache_is_missing() {
    let mut files = Files::with(None, None);
    let plan = write_models_cache_json_with_client_version(
        &files.state(Some("codex-cli 0.147.3-alpha.2")),
        vec![json(r#"{ "slug": "gpt-5.2" }"#)],
    );
    files
        .apply(plan)
        .expect("write cache with detected Codex version");
    assert_eq!(
        files.live().get("client_version").and_then(Value::as_str),
        Some("0.147.3")
    );
}

#[test]
fn models_cache_prefers_detected_codex_version_after_upgrade() {
    let mut files = Files::with(
        Some(r#"{ "client_version": "0.146.0", "models": [] }"#),
        None,
    );
    let plan = write_models_cache_json_with_client_version(
        &files.state(Some("codex-cli 0.147.0")),
        vec![json(r#"{ "slug": "gpt-5.2" }"#)],
    );
    files
        .apply(plan)
        .expect("rewrite cache for upgraded Codex");
    assert_eq!(
        files.live().get("client_version").and_then(Value::as_str),
        Some("0.147.0")
    );
}

#[test]
fn models_cache_refuses_to_invent_client_version() {
    let mut files = Files::with(None, None);
    let plan = write_models_cache_json_with_client_version(
        &files.state(None),
        vec![json(r#"{ "slug": "gpt-5.2" }"#)],
    );
    assert!(
        files.apply(plan).is_err(),
        "missing client version must fail closed"
    );
    assert!(
        files.live.is_none(),
        "an unverifiable cache must not be published"
    );
}

#[test]
fn write_codex_models_cache_for_aggregate_builds_from_custom_mappings_only() {
    let mut files = Files::with(
        Some(
            r#"{
                "fetched_at": "2026-08-01T00:00:00.000000000Z",
                "etag": "W/\"old\"",
                "client_version": "0.146.0",
                "models": [
                    {"slug": "gpt-5.5", "display_name": "GPT-5.5"},
                    {"slug": "gpt-5.4", "display_name": "GPT-5.4"},
                    {"slug": "deepseek-v4-pro", "display_name": "DeepSeek V4 Pro"}
                ]
            }"#,
        ),
        None,
    );
    let settings = json(
        r#"{
            "enableOfficialLogin": false,
            "codexCustomModels": [
                {
                    "model": "gpt-5.2",
                    "providerId": "deepseek",
                    "upstreamModel": "deepseek-v4-flash",
                    "displayName": "DeepSeek V4 Flash",
                    "contextWindow": 131072
                },
                {
                    "model": "gpt-5.5",
                    "providerId": "glm",
                    "upstreamModel": "glm-5",
                    "displayName": "GLM-5",
                    "contextWindow": 131072
                }
            ]
        }"#,
    );
    files
        .aggregate(&settings)
        .expect("aggregate cache write must succeed");
    assert_eq!(
        slugs(files.live()),
        vec![
            codex_provider_separator_model_id("deepseek"),
            "gpt-5.2".to_string(),
            codex_provider_separator_model_id("glm"),
            "gpt-5.5".to_string(),
        ],
        "provider dividers and mapped carrier slots remain, stale official entries cleared"
    );
}

#[test]
fn aggregate_rewrite_updates_existing_official_baseline_before_overwrite() {
    let mut files = Files::with(
        Some(
            r#"{
                "fetched_at": "2026-08-04T00:00:00Z",
                "etag": "W/\"official-new\"",
                "client_version": "0.146.0",
                "models": [{"slug": "gpt-5.5", "display_name": "GPT-5.5"}]
            }"#,
        ),
        Some(
            r#"{
                "fetched_at": "2026-08-01T00:00:00Z",
                "etag": "W/\"official-old\"",
                "client_version": "0.146.0",
                "cc_switch_captured_at": "2026-08-01T00:00:00Z",
                "models": [{"slug": "gpt-5.4", "display_name": "GPT-5.4"}]
            }"#,
        ),
    );
    let settings = json(
        r#"{
            "enableOfficialLogin": false,
            "codexCustomModels": [{
                "model": "gpt-5.2",
                "providerId": "deepseek",
                "upstreamModel": "deepseek-v4-flash"
            }]
        }"#,
    );
    files.aggregate(&settings).expect("write aggregate cache");
    assert_eq!(
        files
            .saved()
            .pointer("/models/0/slug")
            .and_then(Value::as_str),
        Some("gpt-5.5"),
        "a clean official cache observed before aggregate rewrite must replace the old baseline"
    );
}

#[test]
fn write_codex_models_cache_for_provider_rebuilds_for_regular_provider() {
    let mut files = Files::with(
        Some(
            r#"{
                "fetched_at": "2026-08-01T00:00:00.000000000Z",
                "etag": "W/\"old\"",
                "client_version": "0.146.0",
                "models": [
                    {"slug": "gpt-5.5", "display_name": "GPT-5.5"},
                    {"slug": "gpt-5.2", "display_name": "DeepSeek V4 Flash"},
                    {"slug": "deepseek-v4-pro", "display_name": "DeepSeek V4 Pro"}
                ]
            }"#,
        ),
        None,
    );
    files
        .provider(
            false,
            r#"{
                "modelCatalog": {
                    "models": [
                        {"model": "deepseek-v4-flash", "displayName": "DeepSeek V4 Flash", "contextWindow": 1048576},
                        {"model": "deepseek-v4-pro", "displayName": "DeepSeek V4 Pro", "contextWindow": 1048576}
                    ]
                },
                "config": "model_provider = \"custom\"\nmodel = \"deepseek-v4-flash\"\n[model_providers.custom]\nbase_url = \"https://api.deepseek.com\"\nwire_api = \"responses\"\n"
            }"#,
            "",
        )
        .expect("rebuild must succeed");
    assert_eq!(
        slugs(files.live()),
        vec!["deepseek-v4-flash", "deepseek-v4-pro"],
        "regular provider cache must contain only its own catalog"
    );
    assert!(
        is_own(files.live()),
        "regular-provider rewrites must be marked as cc-switch-owned"
    );
}

#[test]
fn write_codex_models_cache_for_official_login_merges_custom_entries() {
    let stale = r#"{
        "fetched_at": "2026-08-01T00:00:00.000000000Z",
        "etag": "W/\"old\"",
        "client_version": "0.146.0",
        "models": [{"slug": "gpt-5.5", "display_name": "GPT-5.5"}]
    }"#;
    let settings = r#"{
        "enableOfficialLogin": true,
        "codexCustomModels": [{
            "model": "gpt-5.2",
            "providerId": "deepseek",
            "upstreamModel": "deepseek-v4-flash",
            "displayName": "DeepSeek V4 Flash"
        }]
    }"#;
    let mut files = Files::with(Some(stale), Some(stale));
    files
        .provider(true, settings, "")
        .expect("official-login aggregation write must succeed");
    let written = slugs(files.live());
    assert!(
        written.contains(&"gpt-5.5".to_string()),
        "official model must be preserved under official login: {written:?}"
    );
    assert!(
        written.contains(&"gpt-5.2".to_string()),
        "custom model must be merged into the desktop cache: {written:?}"
    );
    assert!(
        is_own(files.live()),
        "official-login aggregation must mark the rendered cache as cc-switch-owned"
    );
    assert_eq!(
        slugs(files.saved()),
        vec!["gpt-5.5"],
        "the sidecar must retain the clean official catalog without custom entries"
    );

    files
        .provider(true, settings, "")
        .expect("repeated official-login aggregation must reuse the saved baseline");
    let repeated = slugs(files.live());
    assert!(repeated.contains(&"gpt-5.5".to_string()));
    assert!(repeated.contains(&"gpt-5.2".to_string()));
}

#[test]
fn official_login_render_prefixes_official_display_names_and_keeps_custom_unchanged() {
    let official = r#"{
        "fetched_at": "2026-08-13T00:00:00.000000000Z",
        "etag": "W/\"official\"",
        "client_version": "0.147.0",
        "models": [
            {"slug": "gpt-5.6-sol", "display_name": "gpt-5.6-sol", "displayName": "gpt-5.6-sol"},
            {"slug": "gpt-5.5", "display_name": "GPT-5.5"}
        ]
    }"#;
    let settings = json(
        r#"{
            "enableOfficialLogin": true,
            "codexCustomModels": [{
                "model": "deepseek-v4-flash",
                "providerId": "deepseek",
                "upstreamModel": "deepseek-v4-flash",
                "displayName": "DeepSeek V4 Flash"
            }]
        }"#,
    );
    let mut files = Files::with(Some(official), Some(official));
    files
        .official_login(&settings, None)
        .expect("render official-login cache with display prefix");

    let models = files.live()["models"].as_array().expect("models array");
    let with_slug = |slug: &str| {
        models
            .iter()
            .find(|model| model.get("slug").and_then(Value::as_str) == Some(slug))
            .expect("entry rendered")
    };
    let sol = with_slug("gpt-5.6-sol");
    assert_eq!(
        sol.get("display_name").and_then(Value::as_str),
        Some("官方-gpt-5.6-sol"),
        "official display_name must carry the official prefix"
    );
    assert_eq!(
        sol.get("displayName").and_then(Value::as_str),
        Some("官方-gpt-5.6-sol"),
        "official displayName must carry the official prefix"
    );
    assert_eq!(
        with_slug("gpt-5.5")
            .get("display_name")
            .and_then(Value::as_str),
        Some("官方-GPT-5.5"),
        "single-field official entries must also be prefixed"
    );
    assert_eq!(
        with_slug("deepseek-v4-flash")
            .get("displayName")
            .and_then(Value::as_str),
        Some("DeepSeek V4 Flash"),
        "custom entries must keep their own display name"
    );
    assert_eq!(
        files
            .saved()
            .pointer("/models/0/display_name")
            .and_then(Value::as_str),
        Some("gpt-5.6-sol"),
        "the saved official baseline must stay clean (no prefix)"
    );
}

#[test]
fn official_login_cache_omits_official_slot_with_missing_custom_provider() {
    let official = r#"{
        "fetched_at": "2026-08-11T00:00:00Z",
        "etag": "W/\"official\"",
        "client_version": "0.147.0",
        "models": [
            {"slug": "gpt-5.5", "display_name": "GPT-5.5"},
            {"slug": "gpt-5.2", "display_name": "GPT-5.2"}
        ]
    }"#;
    let settings = json(
        r#"{
            "enableOfficialLogin": true,
            "codexCustomModels": [{
                "model": "gpt-5.2",
                "providerId": "deleted-provider",
                "upstreamModel": "deepseek-v4-flash"
            }]
        }"#,
    );
    let mut files = Files::with(Some(official), Some(official));
    files
        .official_login(&settings, Some(&Vec::new()))
        .expect("render official-login cache");
    assert_eq!(
        slugs(files.live()),
        vec!["gpt-5.5"],
        "a missing custom binding must also suppress its colliding official slot"
    );
    assert!(
        is_own(files.live()),
        "suppressing a colliding official row must mark the cache as rewritten"
    );
}

#[test]
fn official_login_cache_preserves_clean_baseline_for_missing_noncolliding_provider() {
    let official = r#"{
        "fetched_at": "2026-08-11T00:00:00Z",
        "etag": "W/\"official\"",
        "client_version": "0.147.0",
        "models": [{"slug": "gpt-5.5", "display_name": "GPT-5.5"}]
    }"#;
    let settings = json(
        r#"{
            "enableOfficialLogin": true,
            "codexCustomModels": [{
                "model": "custom-only-slot",
                "providerId": "deleted-provider"
            }]
        }"#,
    );
    let mut files = Files::with(Some(official), Some(official));
    files
        .official_login(&settings, Some(&Vec::new()))
        .expect("process official-login cache");
    assert_eq!(
        files.live(),
        &val(official),
        "a skipped noncolliding mapping must not rewrite a clean official cache"
    );
}

#[test]
fn write_codex_models_cache_for_official_login_preserves_trusted_official_cache() {
    let stale = r#"{
        "fetched_at": "2026-08-01T00:00:00.000000000Z",
        "etag": "W/\"old\"",
        "client_version": "0.146.0",
        "models": [{"slug": "gpt-5.5", "display_name": "GPT-5.5"}]
    }"#;
    let mut files = Files::with(Some(stale), Some(stale));
    files
        .provider(true, r#"{ "enableOfficialLogin": true }"#, "")
        .expect("trusted official cache handling must not error");
    assert_eq!(
        files.live()["models"].as_array().map(|models| models.len()),
        Some(1),
        "trusted official cache must be preserved without custom models"
    );
}

#[test]
fn official_login_without_custom_models_restores_saved_baseline() {
    let mut files = Files::with(
        Some(
            r#"{
                "fetched_at": "2026-08-04T00:00:00Z",
                "etag": "W/\"cc-switch-1754265600\"",
                "client_version": "0.146.0",
                "models": [{"slug": "deepseek-v4", "display_name": "DeepSeek V4"}]
            }"#,
        ),
        Some(
            r#"{
                "fetched_at": "2026-08-03T00:00:00Z",
                "etag": "W/\"official-clean\"",
                "client_version": "0.146.0",
                "models": [{"slug": "gpt-5.5", "display_name": "GPT-5.5"}]
            }"#,
        ),
    );
    files
        .provider(true, r#"{ "enableOfficialLogin": true }"#, "")
        .expect("restore official baseline");
    assert_eq!(
        files
            .live()
            .pointer("/models/0/slug")
            .and_then(Value::as_str),
        Some("gpt-5.5"),
        "switching back to plain official login must replace the fresh rendered cache"
    );
    assert_eq!(
        files.live().get("etag").and_then(Value::as_str),
        Some("W/\"official-clean\"")
    );
}

#[test]
fn write_codex_models_cache_for_provider_aggregate_delegates_to_merge() {
    let mut files = Files::with(
        Some(
            r#"{
                "fetched_at": "2026-08-01T00:00:00.000000000Z",
                "etag": "W/\"old\"",
                "client_version": "0.146.0",
                "models": [{"slug": "gpt-5.5", "display_name": "GPT-5.5"}]
            }"#,
        ),
        None,
    );
    files
        .provider(
            true,
            r#"{
                "enableOfficialLogin": false,
                "codexCustomModels": [{
                    "model": "deepseek-v4-flash",
                    "providerId": "deepseek",
                    "displayName": "DeepSeek V4 Flash",
                    "contextWindow": 131072
                }]
            }"#,
            "",
        )
        .expect("aggregate write must succeed");
    let written = slugs(files.live());
    assert!(
        !written.contains(&"gpt-5.5".to_string()),
        "stale official entries must be cleared in aggregate mode: {written:?}"
    );
    assert!(
        written.contains(&"deepseek-v4-flash".to_string()),
        "custom model must be present in aggregate mode: {written:?}"
    );
}

#[test]
fn write_codex_models_cache_for_official_login_clears_without_official_baseline() {
    let mut files = Files::with(
        Some(
            r#"{
                "fetched_at": "2026-08-01T00:00:00.000000000Z",
                "etag": "W/\"old\"",
                "client_version": "0.146.0",
                "models": []
            }"#,
        ),
        None,
    );
    let settings = json(
        r#"{
            "enableOfficialLogin": true,
            "codexCustomModels": [{
                "model": "gpt-5.2",
                "providerId": "deepseek",
                "upstreamModel": "deepseek-v4-flash",
                "displayName": "DeepSeek V4 Flash"
            }]
        }"#,
    );
    files
        .official_login(&settings, None)
        .expect("clear must not error");
    assert!(
        files.live.is_none(),
        "an unusable cache must be removed so Codex can fetch an official baseline"
    );
}

#[test]
fn write_codex_models_cache_for_official_login_removes_aggregate_leftover_cache() {
    let mut files = Files::with(
        Some(
            r#"{
                "fetched_at": "2026-08-01T00:00:00.000000000Z",
                "etag": "W/\"cc-switch-1754000000\"",
                "client_version": "0.146.0",
                "models": [{"slug": "gpt-5.2", "display_name": "DeepSeek V4 Flash"}]
            }"#,
        ),
        None,
    );
    let settings = json(
        r#"{
            "enableOfficialLogin": true,
            "codexCustomModels": [{
                "model": "gpt-5.5",
                "providerId": "glm",
                "upstreamModel": "glm-5",
                "displayName": "GLM-5"
            }]
        }"#,
    );
    files
        .official_login(&settings, None)
        .expect("clear must not error");
    assert!(
        files.live.is_none(),
        "a fresh aggregate cache must be removed so official login refetches immediately"
    );
}

#[test]
fn official_login_quarantines_unmarked_legacy_cache_until_official_refetch() {
    let mut files = Files::with(
        Some(
            r#"{
                "fetched_at": "2026-08-03T17:00:00Z",
                "etag": "W/\"official-etag-preserved-by-legacy-cc-switch\"",
                "client_version": "0.146.0",
                "models": [
                    {"slug": "gpt-5.5", "display_name": "GPT-5.5"},
                    {"slug": "gpt-5.2", "display_name": "DeepSeek V4 Flash"}
                ]
            }"#,
        ),
        None,
    );
    let settings = json(
        r#"{
            "enableOfficialLogin": true,
            "codexCustomModels": [{
                "model": "gpt-5.2",
                "providerId": "deepseek",
                "upstreamModel": "deepseek-v4-flash",
                "displayName": "DeepSeek V4 Flash"
            }]
        }"#,
    );
    files
        .official_login(&settings, None)
        .expect("quarantine legacy cache");
    assert!(
        files.live.is_none(),
        "an unmarked pre-sidecar cache must be removed so Codex fetches a clean official catalog"
    );

    files.live = Some(val(
        r#"{
            "fetched_at": "2026-08-04T01:00:00Z",
            "etag": "W/\"official-refetched\"",
            "client_version": "0.146.0",
            "models": [
                {"slug": "gpt-5.5", "display_name": "GPT-5.5"},
                {"slug": "gpt-5.2", "display_name": "GPT-5.2"}
            ]
        }"#,
    ));
    files
        .official_login(&settings, None)
        .expect("merge after official refetch");
    assert_eq!(
        files
            .saved()
            .pointer("/models/1/display_name")
            .and_then(Value::as_str),
        Some("GPT-5.2"),
        "the clean sidecar must come from the refetched official catalog"
    );
    assert_eq!(
        files
            .live()
            .pointer("/models/1/display_name")
            .and_then(Value::as_str),
        Some("DeepSeek V4 Flash"),
        "the rendered cache must still apply the current custom mapping"
    );
}

#[test]
fn official_login_does_not_capture_proxy_merged_catalog_as_baseline() {
    let mut files = Files::with(
        Some(
            r#"{
                "fetched_at": "2026-08-09T00:00:00Z",
                "etag": "W/\"official-new\"",
                "client_version": "0.147.0",
                "cc_switch_merged": true,
                "models": [
                    {"slug": "gpt-5.5", "display_name": "GPT-5.5"},
                    {"slug": "gpt-5.2", "display_name": "DeepSeek V4 Flash"}
                ]
            }"#,
        ),
        Some(
            r#"{
                "fetched_at": "2026-08-08T00:00:00Z",
                "etag": "W/\"official-old\"",
                "client_version": "0.147.0",
                "cc_switch_captured_at": "2026-08-20T00:00:00Z",
                "models": [{"slug": "gpt-5.5", "display_name": "GPT-5.5"}]
            }"#,
        ),
    );
    let settings = json(
        r#"{
            "enableOfficialLogin": true,
            "codexCustomModels": [{
                "model": "gpt-5.2",
                "providerId": "deepseek",
                "upstreamModel": "deepseek-v4-flash",
                "displayName": "DeepSeek V4 Flash"
            }]
        }"#,
    );
    files
        .official_login(&settings, None)
        .expect("render official-login cache");
    assert_eq!(
        slugs(files.saved()),
        vec!["gpt-5.5"],
        "a proxy-merged catalog must never become the official baseline"
    );
}

#[test]
fn forwarded_official_catalog_replaces_awaiting_baseline_before_merge() {
    let clean_catalog = r#"{
        "models": [{"slug": "gpt-5.5", "display_name": "GPT-5.5"}]
    }"#;
    let baseline = capture_forwarded_codex_official_models_baseline(
        &json(clean_catalog),
        "0.147.0",
        Some("W/\"official-catalog\""),
        &moment(NOW),
    )
    .expect("capture clean forwarded catalog");
    let baseline = value(&baseline);
    assert_eq!(baseline["models"], val(clean_catalog)["models"]);
    assert_eq!(baseline["client_version"], "0.147.0");
    assert_eq!(baseline["etag"], "W/\"official-catalog\"");
    assert!(baseline.get("fetched_at").and_then(Value::as_str).is_some());
    assert!(baseline
        .get(CODEX_OFFICIAL_BASELINE_CAPTURED_AT_KEY)
        .and_then(Value::as_str)
        .is_some());
    assert!(baseline.get(CODEX_OFFICIAL_MODELS_MERGED_KEY).is_none());
    assert!(baseline.get(CODEX_OFFICIAL_BASELINE_STATE_KEY).is_none());
}

#[test]
fn forwarded_merged_catalog_cannot_replace_the_official_baseline() {
    let captured = capture_forwarded_codex_official_models_baseline(
        &json(
            r#"{
                "cc_switch_merged": true,
                "models": [{"slug": "custom-slot"}]
            }"#,
        ),
        "0.147.0",
        Some("W/\"cc-switch-merged\""),
        &moment(NOW),
    );
    assert!(captured.is_none());
}

#[test]
fn official_login_expires_saved_baseline_instead_of_refreshing_it_forever() {
    let mut files = Files::with(
        Some(
            r#"{
                "fetched_at": "2026-08-20T00:00:00Z",
                "etag": "W/\"cc-switch-recent\"",
                "client_version": "0.146.0",
                "models": [{"slug": "gpt-5.5"}, {"slug": "gpt-5.2"}]
            }"#,
        ),
        Some(
            r#"{
                "fetched_at": "2026-08-01T00:00:00Z",
                "etag": "W/\"official-old\"",
                "client_version": "0.146.0",
                "cc_switch_captured_at": "2026-08-01T00:00:00Z",
                "models": [{"slug": "gpt-5.5"}]
            }"#,
        ),
    );
    let settings = json(
        r#"{
            "enableOfficialLogin": true,
            "codexCustomModels": [{
                "model": "gpt-5.2",
                "providerId": "deepseek",
                "upstreamModel": "deepseek-v4-flash"
            }]
        }"#,
    );
    files
        .official_login(&settings, None)
        .expect("expire official baseline");
    assert!(
        files.live.is_none(),
        "an expired clean baseline must remove the fresh rendered cache so Codex refetches"
    );
    assert_eq!(
        files.saved().get("cc_switch_state").and_then(Value::as_str),
        Some("awaiting_official_refresh"),
        "the expired baseline must not be reused by the next 240-second refresh"
    );
}

#[test]
fn repeated_same_official_snapshot_does_not_extend_baseline_ttl() {
    let mut files = Files::with(
        Some(
            r#"{
                "fetched_at": "2026-08-01T00:00:00Z",
                "etag": "W/\"official-unchanged\"",
                "client_version": "0.146.0",
                "models": [{"slug": "gpt-5.5"}]
            }"#,
        ),
        Some(
            r#"{
                "fetched_at": "2026-08-01T00:00:00Z",
                "etag": "W/\"official-unchanged\"",
                "client_version": "0.146.0",
                "models": [{"slug": "gpt-5.5"}],
                "cc_switch_captured_at": "2026-08-01T00:00:00Z"
            }"#,
        ),
    );
    files
        .restore()
        .expect("expire unchanged official snapshot");
    assert!(
        files.live.is_none(),
        "re-observing the same official fingerprint must not reset its capture time"
    );
}

#[test]
fn invalid_official_baseline_capture_time_forces_refetch() {
    for (case, captured_at) in [
        ("malformed", "not-a-timestamp"),
        ("far-future", "2099-01-01T00:00:00Z"),
    ] {
        let mut files = Files::with(
            Some(
                r#"{
                    "fetched_at": "2026-08-20T00:00:00Z",
                    "etag": "W/\"cc-switch-recent\"",
                    "models": [{"slug": "gpt-5.5"}]
                }"#,
            ),
            Some(&format!(
                r#"{{
                    "fetched_at": "2026-08-04T00:00:00Z",
                    "etag": "W/\"official-stale\"",
                    "cc_switch_captured_at": "{captured_at}",
                    "models": [{{"slug": "gpt-5.5"}}]
                }}"#
            )),
        );
        files.restore().expect("handle invalid capture time");
        assert!(
            files.live.is_none(),
            "{case} capture time must quarantine the sidecar and force an official refetch"
        );
    }
}

#[test]
fn write_codex_models_cache_derives_single_entry_from_top_level_model() {
    let mut files = Files::with(
        Some(r#"{ "client_version": "0.146.0", "models": [] }"#),
        None,
    );
    let config_text = "model_provider = \"custom\"\nmodel = \"deepseek-v4-flash\"\n[model_providers.custom]\nbase_url = \"https://api.deepseek.com\"\nwire_api = \"responses\"\n";
    files
        .provider(false, "{}", config_text)
        .expect("write must succeed");
    let models = files.live()["models"].as_array().expect("models array");
    assert_eq!(models.len(), 1, "single entry derived from top-level model");
    assert_eq!(
        models[0].get("slug").and_then(Value::as_str),
        Some("deepseek-v4-flash"),
        "derived entry carries the configured model slug"
    );
}

#[test]
fn a_first_list_without_a_saved_one_waits() {
    let mut files = Files::with(
        Some(
            r#"{
                "fetched_at": "2026-08-19T00:00:00Z",
                "etag": "W/\"official\"",
                "client_version": "0.146.0",
                "models": [{"slug": "gpt-5.5"}]
            }"#,
        ),
        None,
    );
    files.restore().expect("restore");
    assert!(files.live.is_none());
    assert_eq!(
        files.saved().get("cc_switch_state").and_then(Value::as_str),
        Some("awaiting_official_refresh")
    );
    files.live = Some(val(
        r#"{
            "fetched_at": "2026-08-20T00:00:00Z",
            "etag": "W/\"newer\"",
            "client_version": "0.146.0",
            "models": [{"slug": "gpt-5.6"}]
        }"#,
    ));
    files.restore().expect("restore");
    assert_eq!(slugs(files.saved()), vec!["gpt-5.6"]);
    assert_eq!(slugs(files.live()), vec!["gpt-5.6"]);
}

#[test]
fn capture_times_are_read_back() {
    let now = Moment {
        secs: NOW,
        nanos: 987_654_321,
    };
    let taken = codex_official_baseline_with_capture_time(&json(r#"{ "models": [] }"#), &now);
    assert!(taken
        .get_str("cc_switch_captured_at")
        .unwrap()
        .starts_with("2026-08-20T00:00:00"));
    for (later, expected) in [
        (0, CodexOfficialBaselineCaptureState::Fresh),
        (299, CodexOfficialBaselineCaptureState::Fresh),
        (300, CodexOfficialBaselineCaptureState::Expired),
        (-60, CodexOfficialBaselineCaptureState::Fresh),
        (-61, CodexOfficialBaselineCaptureState::Invalid),
    ] {
        let at = Moment {
            secs: NOW + later,
            nanos: 987_654_321,
        };
        assert!(
            codex_official_baseline_capture_state(&taken, &at) == expected,
            "{later}"
        );
        assert!(age_state(later) == expected, "{later}");
    }
}

#[test]
fn routed_models_take_the_slots_of_their_names() {
    let mut models = vec![
        json(r#"{ "slug": "a", "display_name": "A" }"#),
        json(r#"{ "slug": "b", "display_name": "B" }"#),
    ];
    let settings =
        json(r#"{ "codexCustomModels": [{ "model": "b", "providerId": "p" }, { "model": "c", "providerId": "p" }] }"#);
    let custom = vec![
        json(r#"{ "slug": "b", "display_name": "routed" }"#),
        json(r#"{ "slug": "c", "display_name": "C" }"#),
    ];
    assert!(merge_codex_custom_catalog_entries(
        &mut models,
        &settings,
        &custom,
        &no_slots()
    ));
    let names: Vec<&str> = models
        .iter()
        .map(|model| model.get_str("display_name").unwrap())
        .collect();
    assert_eq!(names, vec!["A", "routed", "C"]);
}

#[test]
fn own_caches_are_told_from_official_ones() {
    let official = json(r#"{ "etag": "W/\"x\"", "models": [{ "slug": "gpt-5.5" }] }"#);
    let own = json(r#"{ "etag": "W/\"cc-switch-1\"", "models": [{ "slug": "gpt-5.5" }] }"#);
    let merged = json(r#"{ "cc_switch_merged": true, "models": [{ "slug": "gpt-5.5" }] }"#);
    let empty = json(r#"{ "models": [] }"#);
    assert!(codex_cache_is_reliable_official_baseline(&official));
    assert!(!codex_cache_is_reliable_official_baseline(&own));
    assert!(!codex_cache_is_reliable_official_baseline(&merged));
    assert!(!codex_cache_is_reliable_official_baseline(&empty));
    assert!(codex_models_cache_needs_takeover_cleanup(
        false,
        Some(&own),
        None,
        &no_slots()
    ));
    assert!(!codex_models_cache_needs_takeover_cleanup(
        false,
        Some(&official),
        None,
        &no_slots()
    ));
    assert!(codex_models_cache_needs_takeover_cleanup(
        true,
        Some(&empty),
        None,
        &no_slots()
    ));
    assert!(!codex_models_cache_needs_takeover_cleanup(
        false,
        Some(&empty),
        None,
        &no_slots()
    ));
    assert!(codex_models_cache_needs_takeover_cleanup(
        true,
        None,
        None,
        &no_slots()
    ));
}

#[test]
fn labels_are_compared_without_marks_and_case() {
    assert_eq!(codex_model_label_key(" DeepSeek-V4 Flash! "), "deepseekv4flash");
    assert_eq!(codex_model_label_key("\u{c4}-\u{3a3} 7"), "\u{e4}\u{3c3}7");
    let settings = json(
        r#"{ "codexCustomModels": [{ "model": "gpt-5.2", "providerId": "p", "displayName": "DeepSeek V4 Flash" }] }"#,
    );
    let cache = json(r#"{ "models": [{ "slug": "gpt-5.2", "display_name": "DeepSeek V4 Flash" }] }"#);
    let other = json(r#"{ "models": [{ "slug": "gpt-5.2", "display_name": "GPT-5.2" }] }"#);
    assert!(codex_cache_has_legacy_custom_models(
        &cache,
        Some(&settings),
        &no_slots()
    ));
    assert!(!codex_cache_has_legacy_custom_models(
        &other,
        Some(&settings),
        &no_slots()
    ));
    let same = json(
        r#"{ "codexCustomModels": [{ "model": "gpt-5.2", "providerId": "p", "displayName": "GPT 5.2" }] }"#,
    );
    let cache = json(r#"{ "models": [{ "slug": "gpt-5.2", "display_name": "GPT 5.2" }] }"#);
    assert!(!codex_cache_has_legacy_custom_models(
        &cache,
        Some(&same),
        &no_slots()
    ));
    let late = json(r#"{ "models": [{ "slug": "x", "priority": 1000 }] }"#);
    assert!(codex_cache_has_legacy_custom_models(&late, None, &no_slots()));
}
