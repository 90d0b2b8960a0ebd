use codex_switch::config_fields::{
    is_cc_switch_catalog_filename, CC_SWITCH_CODEX_MODEL_CATALOG_FILENAME,
};
use codex_switch::live_catalog::{
    cc_switch_catalog_pointer, fits_catalog_limit, resolve_cc_switch_catalog_path, stands_alone,
    CatalogFacts, CatalogPath, MAX_CODEX_CATALOG_BYTES,
};
use codex_switch::paths::{path_is_within, PathPart};
use std::path::{Component, Path, PathBuf};

/// The parts of a path.
fn parts(path: &Path) -> Vec<PathPart> {
    path.components()
        .map(|part| match part {
            Component::ParentDir => PathPart::Parent,
            Component::CurDir => PathPart::Current,
            Component::Normal(name) => PathPart::Name(name.as_encoded_bytes().to_vec()),
            start => PathPart::Start(start.as_os_str().as_encoded_bytes().to_vec()),
        })
        .collect()
}

/// The catalog path of a config in a directory without files.
fn resolve(config_text: &str, base: &Path) -> Option<PathBuf> {
    let pointer = cc_switch_catalog_pointer(config_text)?;
    let path = if stands_alone(&pointer, Path::new(&pointer).is_absolute()) {
        PathBuf::from(&pointer)
    } else {
        base.join(&pointer)
    };
    let facts = CatalogFacts {
        base: parts(base),
        path: parts(&path),
        exists: false,
        real_base: parts(base),
        leads_to: None,
    };
    match resolve_cc_switch_catalog_path(&facts) {
        CatalogPath::AsGiven => Some(path),
        _ => None,
    }
}

#[test]
fn resolve_catalog_accepts_case_insensitive_owned_filename() {
    let config_text = r#"model_catalog_json = "C:/Users/me/.codex/CC-SWITCH-MODEL-CATALOG.JSON"
"#;
    let base_dir = PathBuf::from("C:/Users/me/.codex");
    let result = resolve(config_text, &base_dir);
    assert!(
        result.as_ref().is_some_and(|path| {
            is_cc_switch_catalog_filename(path.file_name().and_then(|name| name.to_str()))
        }),
        "uppercase catalog filename must still be recognized as cc-switch-owned"
    );
}

#[test]
fn resolve_catalog_path_returns_none_when_config_missing_field() {
    let base = PathBuf::from("/tmp/.codex");
    assert!(resolve("", &base).is_none());
    assert!(
        resolve("model = \"gpt-5\"", &base).is_none(),
        "no model_catalog_json field should yield None"
    );
}

#[test]
fn resolve_catalog_path_accepts_cc_switch_owned_file() {
    let base = PathBuf::from("/tmp/.codex");
    let config = r#"model_catalog_json = "/tmp/.codex/cc-switch-model-catalog.json"
"#;
    let resolved = resolve(config, &base).expect("path resolves");
    assert_eq!(resolved, base.join(CC_SWITCH_CODEX_MODEL_CATALOG_FILENAME));
}

#[test]
fn resolve_catalog_path_rejects_user_owned_external_file() {
    let base = PathBuf::from("/tmp/.codex");
    let config = r#"model_catalog_json = "/Users/me/.codex/my-handwritten-catalog.json"
"#;
    assert!(
        resolve(config, &base).is_none(),
        "external catalog files should be left alone"
    );
}

#[test]
fn resolve_catalog_finds_relative_filename() {
    let config_text = r#"model_provider = "custom"
model_catalog_json = "cc-switch-model-catalog.json"
"#;
    let base_dir = PathBuf::from("/home/user/.codex");
    let result = resolve(config_text, &base_dir);
    assert_eq!(
        result,
        Some(base_dir.join(CC_SWITCH_CODEX_MODEL_CATALOG_FILENAME)),
        "relative filename should resolve under base_dir for file I/O"
    );
}

#[test]
fn resolve_catalog_rejects_absolute_path_outside_config_dir() {
    let config_text = r#"model_catalog_json = "/tmp/secret/cc-switch-model-catalog.json"
"#;
    let base_dir = PathBuf::from("/home/user/.codex");
    let result = resolve(config_text, &base_dir);
    assert_eq!(
        result, None,
        "absolute path outside ~/.codex must not be accepted"
    );
}

#[test]
fn resolve_catalog_accepts_absolute_path_inside_config_dir() {
    let config_text = r#"model_catalog_json = "/home/user/.codex/cc-switch-model-catalog.json"
"#;
    let base_dir = PathBuf::from("/home/user/.codex");
    let result = resolve(config_text, &base_dir);
    assert_eq!(
        result,
        Some(base_dir.join(CC_SWITCH_CODEX_MODEL_CATALOG_FILENAME)),
        "absolute path inside ~/.codex should be accepted"
    );
}

#[test]
fn resolve_catalog_rejects_traversal_to_parent_directory() {
    let config_text = r#"model_catalog_json = "../cc-switch-model-catalog.json"
"#;
    let base_dir = PathBuf::from("/home/user/.codex");
    let result = resolve(config_text, &base_dir);
    assert_eq!(
        result, None,
        "relative traversal outside ~/.codex must not be accepted"
    );
}

/// A catalog file in a directory, and where it leads.
fn found(real: Option<&str>) -> CatalogFacts {
    CatalogFacts {
        base: parts(Path::new("/home/user/.codex")),
        path: parts(Path::new("/home/user/.codex/link/cc-switch-model-catalog.json")),
        exists: true,
        real_base: parts(Path::new("/private/home/user/.codex")),
        leads_to: real.map(|real| parts(Path::new(real))),
    }
}

#[test]
fn resolve_catalog_rejects_symlink_escaping_config_dir() {
    let outside = found(Some("/etc/cc-switch-model-catalog.json"));
    assert!(resolve_cc_switch_catalog_path(&outside) == CatalogPath::Refused);
    assert!(resolve_cc_switch_catalog_path(&found(None)) == CatalogPath::Refused);
}

#[test]
fn resolve_catalog_accepts_real_file_inside_config_dir() {
    let inside = found(Some("/private/home/user/.codex/cc-switch-model-catalog.json"));
    assert!(resolve_cc_switch_catalog_path(&inside) == CatalogPath::Real);
}

#[test]
fn a_path_lies_in_a_directory_by_where_it_goes() {
    let within =
        |base: &str, path: &str| path_is_within(&parts(Path::new(base)), &parts(Path::new(path)));
    assert!(within("/a/b", "/a/b"));
    assert!(within("/a/b", "/a/b/c"));
    assert!(within("/a/b", "/a/x/../b/./c"));
    assert!(within("/a/./b", "/../a/b/c"));
    assert!(within("/a/x/../b", "/a/b/c"));
    assert!(!within("/a/b", "/a/b/.."));
    assert!(!within("/a/b", "/a/b/../c"));
    assert!(!within("/a/b", "/a/bc"));
    assert!(!within("/a/b", "a/b"));
}

#[test]
fn read_limited_string_rejects_oversized_file() {
    assert!(
        !fits_catalog_limit(MAX_CODEX_CATALOG_BYTES + 1, MAX_CODEX_CATALOG_BYTES),
        "file larger than MAX_CODEX_CATALOG_BYTES must be rejected"
    );
    assert!(fits_catalog_limit(
        MAX_CODEX_CATALOG_BYTES,
        MAX_CODEX_CATALOG_BYTES
    ));
    assert_eq!(MAX_CODEX_CATALOG_BYTES, 33_554_432);
}
