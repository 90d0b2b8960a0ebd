use codex_switch::catalog::{
    codex_single_model_cache_entry, find_codex_model_template, load_codex_model_catalog_template,
    CODEX_MODEL_CATALOG_TEMPLATE_SLUG,
};
use codex_switch::catalog_entry::CodexCatalogToolProfile;
use codex_switch::catalog_ids::{codex_provider_id_parts, codex_provider_separator_model_id};
use codex_switch::error::AppError;
use codex_switch::json::{parse_json, print_json, Json};
use codex_switch::model_specs::{
    codex_catalog_model_specs, codex_custom_models_nonempty, codex_official_login_enabled,
    parse_codex_positive_u64, SlotTable,
};
use codex_switch::paths::{
    delete_codex_provider_config, get_codex_auth_path, get_codex_config_dir, get_codex_config_path,
    get_codex_model_catalog_path, get_codex_provider_paths, Location,
};
use codex_switch::routed_catalog::{CapabilityTable, CatalogSources, ProxyTemplate};
use codex_switch::text::{
    decimal_text, hex_text, is_text_le, join_list, last_segment, parse_u64, split_text, split_words,
    str_starts_with, without_trailing_slashes,
};
use codex_switch::toml_doc::{parse_toml, Toml};

fn json(text: &str) -> Json {
    parse_json(text).expect("JSON text")
}

fn texts(list: &[&str]) -> Vec<String> {
    list.iter().map(|text| text.to_string()).collect()
}

#[test]
fn json_values_are_printed_and_read_back() {
    let text = r#"{"a":[1,-2,true,null,"x\n中"],"b":{}}"#;
    let value = json(text);
    assert!(json(&print_json(&value)).equals(&value));
    assert_eq!(print_json(&value), text);
    assert!(json("1.5").equals(&json(&print_json(&json("1.5")))));
    assert!(parse_json("{").is_none());
    assert!(parse_json("1\u{0}").is_none());
    assert!(!json("1").equals(&json("-1")));
    assert!(json(r#"{"a":1,"b":2}"#).equals(&json(r#"{"b":2,"a":1}"#)));
    assert_eq!(json("18446744073709551615").as_u64(), Some(u64::MAX));
    assert_eq!(json("-5").as_i64(), Some(-5));
    assert_eq!(json("-5").as_u64(), None);
}

#[test]
fn objects_keep_one_value_for_a_key() {
    let mut value = json(r#"{"a":1}"#);
    value.insert("a", Json::string("x"));
    value.insert("b", Json::number(7));
    assert_eq!(value.get_str("a"), Some("x"));
    assert_eq!(value.get("b").and_then(|n| n.as_u64()), Some(7));
    value.remove("a");
    assert!(value.get("a").is_none());
    assert_eq!(value.keys(), texts(&["b"]));
}

#[test]
fn toml_trees_tell_tables_from_tables_in_braces() {
    let tree = parse_toml("a = \"x\"\nb = { c = 1 }\n\n[d]\ne = true\n").expect("TOML text");
    assert_eq!(tree.get_str("a"), Some("x"));
    assert!(matches!(tree.get("b"), Some(Toml::Inline(_))));
    assert!(matches!(tree.get("d"), Some(Toml::Table(_))));
    assert!(tree.get("d").is_some_and(|d| d.get_bool("e") == Some(true)));
    assert!(matches!(
        tree.get("b").and_then(|b| b.get("c")),
        Some(Toml::Integer(1))
    ));
    assert!(parse_toml("[broken").is_none());
}

#[test]
fn texts_are_taken_apart_and_joined() {
    assert_eq!(split_text("a/b//c", '/'), texts(&["a", "b", "", "c"]));
    assert_eq!(split_words("  a \t b\u{a0}c "), texts(&["a", "b", "c"]));
    assert_eq!(join_list(&texts(&["a", "b"]), ", "), "a, b");
    assert_eq!(last_segment("a/b/c"), "c");
    assert_eq!(last_segment("c"), "c");
    assert_eq!(without_trailing_slashes("a/b//"), "a/b");
    assert!(str_starts_with("abc", "ab"));
    assert!(is_text_le("a", "b") && is_text_le("a", "a") && !is_text_le("b", "a"));
    assert_eq!(parse_u64("0042"), Some(42));
    assert_eq!(parse_u64("18446744073709551615"), Some(u64::MAX));
    assert_eq!(parse_u64("18446744073709551616"), None);
    assert_eq!(parse_u64("4x"), None);
    assert_eq!(decimal_text(0), "0");
    assert_eq!(decimal_text(1_203), "1203");
    assert_eq!(hex_text(0xab), "00000000000000ab");
}

#[test]
fn ids_of_separators_differ_between_providers() {
    let (slug, hash) = codex_provider_id_parts("My Provider!");
    assert!(slug
        .chars()
        .all(|c| c.is_ascii_alphanumeric() || c == '-'));
    assert_ne!(hash, codex_provider_id_parts("my provider?").1);
    assert_ne!(
        codex_provider_separator_model_id("a b"),
        codex_provider_separator_model_id("a-b")
    );
    assert_eq!(
        codex_provider_separator_model_id("a b"),
        codex_provider_separator_model_id("a b")
    );
}

#[test]
fn settings_are_read_for_models() {
    let settings = json(
        r#"{ "modelCatalog": { "models": [
            { "model": " a ", "contextWindow": "64000" }, { "model": "a" }, { "model": "" }, 7
        ] } }"#,
    );
    let specs = codex_catalog_model_specs(&settings);
    assert_eq!(specs.len(), 1);
    assert_eq!(specs[0].model, "a");
    assert_eq!(specs[0].context_window, Some(64_000));
    assert_eq!(parse_codex_positive_u64(Some(&json("5"))), Some(5));
    assert_eq!(parse_codex_positive_u64(Some(&json("0"))), None);
    assert_eq!(parse_codex_positive_u64(Some(&json(r#"" 7 ""#))), Some(7));
    assert_eq!(parse_codex_positive_u64(None), None);
    assert!(codex_official_login_enabled(&json("{}")));
    assert!(!codex_official_login_enabled(&json(
        r#"{ "enableOfficialLogin": false }"#
    )));
    let slots = SlotTable { rows: Vec::new() };
    assert!(!codex_custom_models_nonempty(&settings, &slots));
    assert!(codex_custom_models_nonempty(
        &json(r#"{ "codexCustomModels": [{ "model": "m", "providerId": "p" }] }"#),
        &slots
    ));
}

#[test]
fn a_template_is_looked_for_in_order() {
    let catalog = json(r#"{ "models": [{ "slug": "x" }, { "slug": "gpt-5.5", "n": 1 }] }"#);
    let found = find_codex_model_template(&catalog).expect("a template");
    assert_eq!(found.get_str("slug"), Some(CODEX_MODEL_CATALOG_TEMPLATE_SLUG));
    assert!(find_codex_model_template(&json(r#"{ "models": [] }"#)).is_none());

    let from = |slug: &str| {
        let mut value = Json::object();
        value.insert("slug", Json::string(slug));
        value
    };
    let slug = |r: Result<Json, AppError>| r.unwrap().get_str("slug").unwrap().to_string();
    assert_eq!(
        slug(load_codex_model_catalog_template(
            Some(from("cache")),
            Some(from("cli")),
            Some(&from("static"))
        )),
        "cache"
    );
    assert_eq!(
        slug(load_codex_model_catalog_template(
            None,
            Some(from("cli")),
            Some(&from("static"))
        )),
        "cli"
    );
    assert_eq!(
        slug(load_codex_model_catalog_template(
            None,
            None,
            Some(&from("static"))
        )),
        "static"
    );
    assert!(load_codex_model_catalog_template(None, None, None).is_err());
}

#[test]
fn a_single_model_gets_an_entry() {
    let sources = CatalogSources {
        native_template: json(r#"{ "slug": "native" }"#),
        proxy_template: ProxyTemplate::Failed(AppError::Message("none".to_string())),
        static_template: None,
        vendor_models: Vec::new(),
        capabilities: CapabilityTable { rows: Vec::new() },
    };
    let entry = codex_single_model_cache_entry(
        "m",
        CodexCatalogToolProfile::NativeResponses,
        "model_context_window = 7\n",
        &sources,
    )
    .expect("an entry");
    assert_eq!(entry.get_str("slug"), Some("m"));
    assert_eq!(entry.get("context_window").and_then(|n| n.as_u64()), Some(7));
    assert!(codex_single_model_cache_entry(
        "m",
        CodexCatalogToolProfile::ProxyChat,
        "",
        &sources
    )
    .is_none());
}

#[test]
fn files_have_their_places() {
    let dir = get_codex_config_dir(None, "/home/me");
    assert_eq!(dir.base, "/home/me");
    assert_eq!(dir.below, texts(&[".codex"]));
    assert_eq!(get_codex_config_dir(Some("/d"), "/home/me").base, "/d");
    let name = |location: Location| location.below.last().cloned().unwrap();
    assert_eq!(name(get_codex_auth_path(&dir)), "auth.json");
    assert_eq!(name(get_codex_config_path(&dir)), "config.toml");
    assert_eq!(
        name(get_codex_model_catalog_path(&dir)),
        "cc-switch-model-catalog.json"
    );
    let (auth, config) = get_codex_provider_paths(&dir, "id", None);
    assert_eq!(name(auth), "auth-id.json");
    assert_eq!(name(config), "config-id.toml");
    let gone = delete_codex_provider_config(&dir, "id", "n");
    assert_eq!(
        gone.into_iter().map(name).collect::<Vec<String>>(),
        texts(&["auth-n.json", "config-n.toml"])
    );
}

#[test]
fn the_two_zeros_are_equal() {
    assert!(json("0.0").equals(&json("-0.0")));
    assert!(json(r#"{"a":[0.0]}"#).equals(&json(r#"{"a":[-0.0]}"#)));
    assert!(!json("0.0").equals(&json("0.5")));
    assert!(!json("0.0").equals(&json("0")));
    assert_eq!(print_json(&json("-0.0")), "-0.0");
}

#[test]
fn separators_of_providers_that_differ_in_one_letter_differ() {
    assert_ne!(
        codex_provider_separator_model_id("a.b"),
        codex_provider_separator_model_id("a-b")
    );
}
