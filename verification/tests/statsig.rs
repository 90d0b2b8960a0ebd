use codex_switch::json::{parse_json, print_json, Json};
use codex_switch::statsig_codec::{
    decode_codex_desktop_statsig_wrapper, encode_codex_desktop_statsig_wrapper,
    CodexDesktopStatsigWrapperEncoding,
};
use codex_switch::statsig_models::{
    codex_desktop_statsig_available_model_ids, codex_desktop_statsig_has_all_models,
    codex_desktop_statsig_has_only_models_config, codex_model_ids_from_settings,
    merge_codex_desktop_statsig_available_models, CODEX_DESKTOP_STATSIG_MODELS_CONFIG_ID,
};
use codex_switch::statsig_pins::{
    codex_desktop_leveldb_origin_for_marker, codex_desktop_statsig_cache_key_from_leveldb_key,
    pin_codex_desktop_statsig_last_modified_cache_keys,
    unpin_codex_desktop_statsig_last_modified_cache_keys,
    CODEX_DESKTOP_STATSIG_LAST_MODIFIED_KEY_MARKER,
};
use codex_switch::statsig_sync::{
    sync_codex_desktop_available_models_cache_path_with_mode, CodexDesktopCachePinPolicy, RawEntry,
};
use rusty_leveldb::LdbIterator;
use serde_json::Value;
use std::collections::HashSet;

fn json(text: &str) -> Json {
    parse_json(text).expect("JSON text")
}

fn value(json: &Json) -> Value {
    serde_json::from_str(&print_json(json)).expect("printed JSON")
}

fn texts(list: &[&str]) -> Vec<String> {
    list.iter().map(|text| text.to_string()).collect()
}

fn set(list: &[&str]) -> HashSet<String> {
    texts(list).into_iter().collect()
}

fn available(wrapper: &Json) -> Option<HashSet<String>> {
    codex_desktop_statsig_available_model_ids(wrapper).map(|ids| ids.into_iter().collect())
}

fn wrapper(source: &str, data: &str) -> Json {
    let mut wrapper = Json::object();
    wrapper.insert("source", Json::string(source));
    wrapper.insert("data", Json::string(data));
    wrapper
}

fn models_data(models: &str, more: &str) -> String {
    format!(
        r#"{{"dynamic_configs":{{"{CODEX_DESKTOP_STATSIG_MODELS_CONFIG_ID}":{{"value":{{"available_models":{models}}}}}{more}}}}}"#
    )
}

#[test]
fn codex_desktop_statsig_merge_appends_models_without_duplicates() {
    let data = models_data(r#"["gpt-5.5", "gpt-5.6-sol"]"#, "");
    let mut wrapper = wrapper("NetworkNotModified", &data);
    let models = vec![
        "gpt-5.6-sol".to_string(),
        "gpt-5.6-terra".to_string(),
        "gpt-5.6-luna".to_string(),
    ];

    assert!(merge_codex_desktop_statsig_available_models(
        &mut wrapper,
        &models
    ));
    assert_eq!(
        available(&wrapper),
        Some(set(&["gpt-5.5", "gpt-5.6-sol", "gpt-5.6-terra", "gpt-5.6-luna"]))
    );
    assert!(!merge_codex_desktop_statsig_available_models(
        &mut wrapper,
        &models
    ));

    let next_models = vec!["gpt-5.6-sol".to_string(), "gpt-5.6-orbit".to_string()];
    assert!(merge_codex_desktop_statsig_available_models(
        &mut wrapper,
        &next_models
    ));
    assert_eq!(
        available(&wrapper),
        Some(set(&["gpt-5.5", "gpt-5.6-sol", "gpt-5.6-orbit"]))
    );

    assert!(merge_codex_desktop_statsig_available_models(
        &mut wrapper,
        &Vec::new()
    ));
    assert_eq!(available(&wrapper), Some(set(&["gpt-5.5", "gpt-5.6-sol"])));
}

#[test]
fn codex_desktop_statsig_merge_skips_entries_without_models_config() {
    let data = r#"{"dynamic_configs":{"unrelated-config":{"value":{"enabled":true}}}}"#;
    let mut wrapper = wrapper("NetworkNotModified", data);
    let original = value(&wrapper);

    assert!(!merge_codex_desktop_statsig_available_models(
        &mut wrapper,
        &vec!["gpt-5.6-sol".to_string()]
    ));
    assert_eq!(value(&wrapper), original);
}

#[test]
fn codex_desktop_statsig_pin_rejects_sibling_evaluation_collections() {
    let data = format!(
        r#"{{
            "dynamic_configs": {{
                "{CODEX_DESKTOP_STATSIG_MODELS_CONFIG_ID}": {{
                    "value": {{ "available_models": ["gpt-5.5"] }}
                }}
            }},
            "feature_gates": {{ "unrelated-gate": {{ "value": true }} }},
            "layer_configs": {{ "unrelated-layer": {{ "value": {{ "enabled": true }} }} }}
        }}"#
    );
    let wrapper = wrapper("Network", &data);

    assert!(
        !codex_desktop_statsig_has_only_models_config(&wrapper),
        "evaluation bundles with sibling collections must not be future-pinned"
    );
}

#[test]
fn codex_desktop_statsig_wrapper_round_trips_utf16le_values() {
    let wrapper = wrapper("NetworkNotModified", "{}");
    let text = serde_json::to_string(&value(&wrapper)).unwrap();
    let mut encoded = vec![1];
    for unit in text.encode_utf16() {
        encoded.extend_from_slice(&unit.to_le_bytes());
    }

    let decoded = decode_codex_desktop_statsig_wrapper(&encoded).unwrap();
    assert_eq!(decoded.prefix, Some(1));
    assert_eq!(
        decoded.encoding,
        CodexDesktopStatsigWrapperEncoding::Utf16Le
    );
    assert_eq!(value(&decoded.value), value(&wrapper));
    assert_eq!(
        encode_codex_desktop_statsig_wrapper(decoded.prefix, decoded.encoding, &decoded.value),
        encoded
    );
}

#[test]
fn codex_desktop_statsig_pin_keeps_custom_cache_newer_than_network_refresh() {
    let mut last_modified = json(
        r#"{
            "statsig.cached.evaluations.custom": 1000,
            "statsig.cached.evaluations.network": 2000
        }"#,
    );
    let cache_keys = vec!["statsig.cached.evaluations.custom".to_string()];

    assert!(pin_codex_desktop_statsig_last_modified_cache_keys(
        &mut last_modified,
        &cache_keys,
        10_000,
    ));
    let last_modified = value(&last_modified);
    assert!(
        last_modified["statsig.cached.evaluations.custom"]
            .as_i64()
            .unwrap()
            > last_modified["statsig.cached.evaluations.network"]
                .as_i64()
                .unwrap()
    );
}

fn all_entries(db: &mut rusty_leveldb::DB) -> Vec<RawEntry> {
    let mut iter = db.new_iter().expect("iterate leveldb");
    let mut entries = Vec::new();
    while let Some((key, value)) = LdbIterator::next(&mut iter) {
        entries.push(RawEntry {
            key: key.to_vec(),
            value: value.to_vec(),
        });
    }
    entries
}

#[test]
fn codex_desktop_statsig_leveldb_sync_updates_cached_models() {
    let options = rusty_leveldb::in_memory();
    let mut db = rusty_leveldb::DB::open("leveldb", options.clone()).expect("open leveldb");
    let key = b"_https://codex\x00statsig.cached.evaluations.active".to_vec();
    let last_modified_key = b"_https://codex\x00statsig.last_modified_time.evaluations".to_vec();
    let data = models_data(
        r#"["gpt-5.5"]"#,
        r#", "unrelated-feature": { "value": { "enabled": true } }"#,
    );
    let seeded = encode_codex_desktop_statsig_wrapper(
        Some(1),
        CodexDesktopStatsigWrapperEncoding::Utf8,
        &wrapper("Network", &data),
    );
    db.put(&key, &seeded).expect("seed cache");
    let last_modified_value = encode_codex_desktop_statsig_wrapper(
        Some(1),
        CodexDesktopStatsigWrapperEncoding::Utf8,
        &json(r#"{ "statsig.cached.evaluations.active": 1000 }"#),
    );
    db.put(&last_modified_key, &last_modified_value)
        .expect("seed last modified cache");

    let result = sync_codex_desktop_available_models_cache_path_with_mode(
        &all_entries(&mut db),
        &vec!["gpt-5.6-sol".to_string(), "gpt-5.6-terra".to_string()],
        CodexDesktopCachePinPolicy::Reconcile,
        1_000_000,
    );
    assert_eq!(result.updates.len(), 1);
    assert!(
        !result.ready_model_cache,
        "a shared dynamic-config bundle must not be treated as safely pinned"
    );
    assert!(
        result.requires_short_retry,
        "a shared dynamic-config bundle needs short maintenance retries"
    );
    for update in &result.updates {
        db.put(&update.key, &update.value).expect("write update");
    }
    db.close().expect("close leveldb");

    let mut db = rusty_leveldb::DB::open("leveldb", options).expect("reopen leveldb");
    let updated = db.get(&key).expect("read updated cache").to_vec();
    let updated = decode_codex_desktop_statsig_wrapper(&updated).unwrap().value;
    assert_eq!(
        available(&updated),
        Some(set(&["gpt-5.5", "gpt-5.6-sol", "gpt-5.6-terra"]))
    );
    let data = serde_json::from_str::<Value>(updated.get_str("data").unwrap()).unwrap();
    assert_eq!(
        data["dynamic_configs"]["unrelated-feature"]["value"]["enabled"],
        true
    );

    let last_modified_value = db
        .get(&last_modified_key)
        .expect("read updated last modified cache")
        .to_vec();
    let last_modified = decode_codex_desktop_statsig_wrapper(&last_modified_value)
        .unwrap()
        .value;
    assert_eq!(
        last_modified
            .get("statsig.cached.evaluations.active")
            .and_then(|time| time.as_i64()),
        Some(1_000)
    );
    db.close().expect("close leveldb");
}

#[test]
fn an_isolated_list_is_pinned_and_given_back() {
    let key = b"_https://codex\x00statsig.cached.evaluations.active".to_vec();
    let times_key = b"_https://codex\x00statsig.last_modified_time.evaluations".to_vec();
    let seeded = encode_codex_desktop_statsig_wrapper(
        Some(1),
        CodexDesktopStatsigWrapperEncoding::Utf16Le,
        &wrapper("Network", &models_data(r#"["gpt-5.5"]"#, "")),
    );
    let times = encode_codex_desktop_statsig_wrapper(
        None,
        CodexDesktopStatsigWrapperEncoding::Utf8,
        &json(r#"{ "statsig.cached.evaluations.active": 1000 }"#),
    );
    let mut entries = vec![
        RawEntry {
            key: key.clone(),
            value: seeded,
        },
        RawEntry {
            key: times_key.clone(),
            value: times,
        },
    ];

    let plan = sync_codex_desktop_available_models_cache_path_with_mode(
        &entries,
        &texts(&["gpt-5.6-sol"]),
        CodexDesktopCachePinPolicy::Reconcile,
        5_000,
    );
    assert!(plan.ready_model_cache);
    assert!(!plan.requires_short_retry);
    assert_eq!(plan.updates.len(), 2);
    for update in plan.updates {
        for entry in entries.iter_mut() {
            if entry.key == update.key {
                entry.value = update.value.clone();
            }
        }
    }
    let stored = decode_codex_desktop_statsig_wrapper(&entries[0].value).unwrap();
    assert_eq!(stored.encoding, CodexDesktopStatsigWrapperEncoding::Utf16Le);
    assert_eq!(available(&stored.value), Some(set(&["gpt-5.5", "gpt-5.6-sol"])));
    let times = decode_codex_desktop_statsig_wrapper(&entries[1].value).unwrap();
    assert_eq!(times.prefix, None);
    assert_eq!(
        times
            .value
            .get("statsig.cached.evaluations.active")
            .and_then(|time| time.as_i64()),
        Some(2_592_005_000)
    );

    let plan = sync_codex_desktop_available_models_cache_path_with_mode(
        &entries,
        &Vec::new(),
        CodexDesktopCachePinPolicy::Reconcile,
        9_000,
    );
    let mut keys: Vec<Vec<u8>> = plan.updates.iter().map(|update| update.key.clone()).collect();
    keys.sort();
    assert_eq!(keys, vec![key.clone(), times_key.clone()]);
    for update in &plan.updates {
        let stored = decode_codex_desktop_statsig_wrapper(&update.value).unwrap();
        if update.key == key {
            assert_eq!(available(&stored.value), Some(set(&["gpt-5.5"])));
        } else {
            assert_eq!(
                stored
                    .value
                    .get("statsig.cached.evaluations.active")
                    .and_then(|time| time.as_i64()),
                Some(9_000)
            );
        }
    }
}

#[test]
fn preserving_changes_no_time() {
    let entries = vec![
        RawEntry {
            key: b"_https://codex\x00statsig.cached.evaluations.active".to_vec(),
            value: encode_codex_desktop_statsig_wrapper(
                Some(1),
                CodexDesktopStatsigWrapperEncoding::Utf8,
                &wrapper("Network", &models_data(r#"["gpt-5.5"]"#, "")),
            ),
        },
        RawEntry {
            key: b"_https://codex\x00statsig.last_modified_time.evaluations".to_vec(),
            value: encode_codex_desktop_statsig_wrapper(
                Some(1),
                CodexDesktopStatsigWrapperEncoding::Utf8,
                &json(r#"{ "statsig.cached.evaluations.active": 1000 }"#),
            ),
        },
    ];
    let plan = sync_codex_desktop_available_models_cache_path_with_mode(
        &entries,
        &texts(&["gpt-5.6-sol"]),
        CodexDesktopCachePinPolicy::Preserve,
        5_000,
    );
    assert_eq!(plan.updates.len(), 1);
    assert_eq!(plan.updates[0].key, entries[0].key);
}

#[test]
fn other_bytes_are_no_stored_value() {
    assert!(decode_codex_desktop_statsig_wrapper(&vec![]).is_none());
    assert!(decode_codex_desktop_statsig_wrapper(&vec![1]).is_none());
    assert!(decode_codex_desktop_statsig_wrapper(&b"\x01not json".to_vec()).is_none());
    assert!(decode_codex_desktop_statsig_wrapper(&vec![0xff, 0xfe, 0xfd]).is_none());
    let plain = decode_codex_desktop_statsig_wrapper(&b"{\"a\":1}".to_vec()).unwrap();
    assert_eq!(plain.prefix, None);
    assert_eq!(plain.encoding, CodexDesktopStatsigWrapperEncoding::Utf8);
    assert_eq!(plain.value.get("a").and_then(|n| n.as_u64()), Some(1));
}

#[test]
fn texts_beyond_the_basic_plane_are_kept() {
    for encoding in [
        CodexDesktopStatsigWrapperEncoding::Utf8,
        CodexDesktopStatsigWrapperEncoding::Utf16Le,
    ] {
        let stored = wrapper("Network", "\u{1f600} \u{4e2d}\u{6587} \" \\ \u{1}");
        let bytes = encode_codex_desktop_statsig_wrapper(Some(0), encoding, &stored);
        assert_eq!(bytes[0], 0);
        let read = decode_codex_desktop_statsig_wrapper(&bytes).unwrap();
        assert_eq!(read.prefix, Some(0));
        assert_eq!(read.encoding, encoding);
        assert_eq!(value(&read.value), value(&stored));
    }
}

#[test]
fn keys_are_read_from_storage_keys() {
    let key = "_https://codex\u{0}statsig.cached.evaluations.active";
    assert_eq!(
        codex_desktop_statsig_cache_key_from_leveldb_key(key).as_deref(),
        Some("statsig.cached.evaluations.active")
    );
    assert_eq!(
        codex_desktop_statsig_cache_key_from_leveldb_key("_https://codex\u{0}other"),
        None
    );
    assert_eq!(
        codex_desktop_leveldb_origin_for_marker(key, "statsig.cached.evaluations"),
        codex_desktop_leveldb_origin_for_marker(
            "_https://codex\u{0}statsig.last_modified_time.evaluations",
            CODEX_DESKTOP_STATSIG_LAST_MODIFIED_KEY_MARKER,
        )
    );
    assert!(codex_desktop_leveldb_origin_for_marker(key, "no such marker").is_none());
}

#[test]
fn a_pinned_time_is_put_back() {
    let keys = texts(&["a"]);
    let mut times = json(r#"{ "a": 5, "b": 6 }"#);
    assert!(pin_codex_desktop_statsig_last_modified_cache_keys(&mut times, &keys, 100));
    assert_eq!(times.get("a").and_then(|t| t.as_i64()), Some(2_592_000_100));
    assert_eq!(times.get("b").and_then(|t| t.as_i64()), Some(6));
    assert!(unpin_codex_desktop_statsig_last_modified_cache_keys(&mut times, &keys, 200));
    assert_eq!(times.get("a").and_then(|t| t.as_i64()), Some(200));
    assert!(!unpin_codex_desktop_statsig_last_modified_cache_keys(&mut times, &keys, 200));
    assert!(!pin_codex_desktop_statsig_last_modified_cache_keys(
        &mut times,
        &Vec::new(),
        100
    ));
}

#[test]
fn model_ids_are_read_from_settings_and_lists() {
    let settings = json(
        r#"{ "modelCatalog": { "models": [
            { "model": " a " }, { "model": "b" }, { "model": "a" }, { "model": "" }
        ] } }"#,
    );
    assert_eq!(codex_model_ids_from_settings(&settings), texts(&["a", "b"]));
    let stored = wrapper("Network", &models_data(r#"["a", "b"]"#, ""));
    assert!(codex_desktop_statsig_has_all_models(&stored, &texts(&["b", "a"])));
    assert!(!codex_desktop_statsig_has_all_models(&stored, &texts(&["c"])));
    assert!(codex_desktop_statsig_has_only_models_config(&stored));
    assert!(available(&wrapper("Network", "no data")).is_none());
}

#[test]
fn taking_out_undoes_putting_in() {
    let data = models_data(r#"["gpt-5", "own", 7]"#, "");
    let first = wrapper("network", &data);
    let mut merged = json(&print_json(&first));
    assert!(merge_codex_desktop_statsig_available_models(
        &mut merged,
        &texts(&["own", "extra", "extra"])
    ));
    assert!(merge_codex_desktop_statsig_available_models(&mut merged, &texts(&[])));
    let (mut before, mut after) = (value(&first), value(&merged));
    for wrapper in [&mut before, &mut after] {
        let data: Value =
            serde_json::from_str(wrapper["data"].as_str().expect("data")).expect("JSON");
        wrapper["data"] = data;
    }
    assert_eq!(after, before);
}
