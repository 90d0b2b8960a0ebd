use codex_switch::config_fields::{
    extract_codex_experimental_bearer_token, set_codex_experimental_bearer_token,
    set_codex_model_catalog_json_field, update_codex_toml_field,
};
use codex_switch::json::parse_json;
use codex_switch::live_catalog::cc_switch_catalog_pointer;
use codex_switch::live_config::{
    prepare_codex_provider_live_config, write_codex_config_text_preserving_plugins,
};
use codex_switch::official_route::{
    apply_codex_official_proxy_route, remove_codex_official_proxy_route,
};
use codex_switch::toml_doc::{can_be_written, parse_toml, Toml, UNWRITABLE_MESSAGE};
use codex_switch::toml_value::extract_codex_base_url;
use codex_switch::unified_session::{
    inject_codex_unified_session_bucket, strip_codex_unified_session_bucket,
};

/// A value without the order of entries and without braces.
fn plain(value: &Toml) -> String {
    match value {
        Toml::Table(entries) | Toml::Inline(entries) => {
            let mut parts: Vec<String> = entries
                .iter()
                .map(|(key, value)| format!("{key:?}={}", plain(value)))
                .collect();
            parts.sort();
            format!("{{{}}}", parts.join(","))
        }
        Toml::List(items) => {
            let parts: Vec<String> = items.iter().map(plain).collect();
            format!("[{}]", parts.join(","))
        }
        other => format!("{other:?}"),
    }
}

fn at(text: &str, path: &[&str]) -> Option<String> {
    let tree = parse_toml(text)?;
    let mut value = &tree;
    for name in path {
        value = value.get(name)?;
    }
    Some(plain(value))
}

const LISTS: &str = "dates = [1979-05-27T07:32:00Z, 07:32:00]\nratio = -0.50e1\nmixed = [ 1, \"x\", { b = { c = 1.5 }, a = [] } ] # kept\n\n[[job]]\nname = \"one\"\nsteps.first = 1\n\n[job.env]\nA = \"1\"\n\n[[job.part]]\nn = 1\n\n[[job.part]]\nn = 2\n\n[[job]]\nname = \"two\"\n";

#[test]
fn trees_show_what_is_in_arrays() {
    let tree = parse_toml(LISTS).expect("TOML text");
    assert!(matches!(tree.get("ratio"), Some(Toml::Written(text)) if text == "-0.50e1"));
    match tree.get("dates") {
        Some(Toml::List(items)) => {
            assert_eq!(items.len(), 2);
            assert!(matches!(&items[0], Toml::Written(text) if text == "1979-05-27T07:32:00Z"));
            assert!(matches!(&items[1], Toml::Written(text) if text == "07:32:00"));
        }
        other => panic!("{other:?}"),
    }
    match tree.get("job") {
        Some(Toml::List(items)) => {
            assert_eq!(items.len(), 2);
            assert_eq!(items[0].get_str("name"), Some("one"));
            assert_eq!(items[1].get_str("name"), Some("two"));
            assert!(matches!(items[0].get("part"), Some(Toml::List(parts)) if parts.len() == 2));
        }
        other => panic!("{other:?}"),
    }
    assert_eq!(
        at(LISTS, &["mixed"]).as_deref(),
        Some("[Integer(1),Str(\"x\"),{\"a\"=[],\"b\"={\"c\"=Written(\"1.5\")}}]")
    );
}

#[test]
fn arrays_dates_and_numbers_survive_a_write() {
    let new_config = "model = \"m\"\nlimits = [0.25, 2]\n";
    let existing = format!("{LISTS}\n[plugins.p]\nwhen = 2024-01-01\ntags = [{{ x = 1 }}]\n");
    let out = write_codex_config_text_preserving_plugins(&existing, new_config).expect("written");
    for key in ["dates", "ratio", "mixed", "job"] {
        assert_eq!(at(&out, &[key]), at(LISTS, &[key]), "{key}");
    }
    assert_eq!(at(&out, &["limits"]), at(new_config, &["limits"]));
    assert_eq!(at(&out, &["plugins", "p"]), at(&existing, &["plugins", "p"]));
}

#[test]
fn arrays_survive_the_move_to_the_shared_id_and_back() {
    let moved = inject_codex_unified_session_bucket(LISTS).expect("moved");
    assert_ne!(moved, LISTS);
    let back = strip_codex_unified_session_bucket(&moved).expect("moved back");
    assert_eq!(at(&back, &[]), at(LISTS, &[]));
}

#[test]
fn arrays_survive_where_a_table_loses_its_braces() {
    let config = "model_providers = { x = { list = [ { b = { c = 1.5 }, a = 2 }, { a = 3 } ], day = 2024-01-01, one.two = [[1], []] } }\n";
    let routed = apply_codex_official_proxy_route(config, "http://127.0.0.1:1/").expect("routed");
    let path = ["model_providers", "x"];
    assert_eq!(at(&routed, &path), at(config, &path));
    let back = remove_codex_official_proxy_route(&routed).expect("taken out");
    assert_eq!(at(&back, &path), at(config, &path));
}

#[test]
fn arrays_of_tables_survive_where_a_table_gets_braces() {
    let existing = "[plugins.p]\nk = 0.5\n\n[[plugins.p.step]]\nn = 1\nsub.a = [1.0]\n\n[[plugins.p.step]]\nn = 2\n";
    let new_config = "plugins = { q = { on = true } }\n";
    let out = write_codex_config_text_preserving_plugins(existing, new_config).expect("written");
    assert_eq!(at(&out, &["plugins", "p"]), at(existing, &["plugins", "p"]));
    assert_eq!(at(&out, &["plugins", "q"]), at(new_config, &["plugins", "q"]));
}

#[test]
fn strings_with_too_many_quotes_are_refused() {
    let config = "model_provider = \"x\"\n\n[model_providers.x]\nbase_url = \"u\"\n";
    for quote in ["'", "\""] {
        let most = format!("a{}b{0}", quote.repeat(255));
        let too_many = format!("a{}b", quote.repeat(256));
        assert!(can_be_written(&most));
        assert!(!can_be_written(&too_many));

        let out = update_codex_toml_field(config, "base_url", &most).expect("written");
        assert_eq!(extract_codex_base_url(&out).as_deref(), Some(most.as_str()));
        assert_eq!(
            update_codex_toml_field(config, "base_url", &too_many),
            Err(UNWRITABLE_MESSAGE.to_string())
        );

        let out = set_codex_experimental_bearer_token(config, &most).expect("written");
        assert_eq!(
            extract_codex_experimental_bearer_token(&out).as_deref(),
            Some(most.as_str())
        );
        for refused in [
            set_codex_experimental_bearer_token(config, &too_many),
            apply_codex_official_proxy_route(config, &too_many),
        ] {
            match refused {
                Err(error) => assert_eq!(error.message(), UNWRITABLE_MESSAGE),
                Ok(text) => panic!("{text}"),
            }
        }
    }
    let escaped = format!(
        "experimental_bearer_token = \"a{}b\"\n",
        "\\u0022".repeat(256)
    );
    let login = parse_json("{}").expect("JSON text");
    match prepare_codex_provider_live_config(&login, &escaped) {
        Err(error) => assert_eq!(error.message(), UNWRITABLE_MESSAGE),
        Ok(text) => panic!("{text}"),
    }
}

#[test]
fn a_catalog_of_the_users_own_is_left_alone_on_a_drive_too() {
    let own = "model_catalog_json = \"C:/me/my-own.json\"\n";
    assert_eq!(cc_switch_catalog_pointer(own), None);
    let kept = set_codex_model_catalog_json_field(own, Some("x")).expect("config");
    assert_eq!(kept, own);
    let kept = set_codex_model_catalog_json_field(own, None).expect("config");
    assert_eq!(kept, own);

    let generated = "model_catalog_json = \"C:/me/Cc-Switch-Model-Catalog.json\"\n";
    assert_eq!(
        cc_switch_catalog_pointer(generated).as_deref(),
        Some("C:/me/Cc-Switch-Model-Catalog.json")
    );
    assert_eq!(
        set_codex_model_catalog_json_field(generated, None).expect("config"),
        ""
    );
    for pointer in [
        "/a/cc-switch-model-catalog.json/",
        "/a//cc-switch-model-catalog.json/.",
        "./cc-switch-model-catalog.json",
    ] {
        let config = format!("model_catalog_json = \"{pointer}\"\n");
        assert_eq!(cc_switch_catalog_pointer(&config).as_deref(), Some(pointer));
    }
    for pointer in [
        "/cc-switch-model-catalog.json/..",
        "/a/x-cc-switch-model-catalog.json",
        "..",
        "/",
    ] {
        let config = format!("model_catalog_json = \"{pointer}\"\n");
        assert_eq!(cc_switch_catalog_pointer(&config), None);
    }
}
