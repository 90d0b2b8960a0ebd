use codex_switch::cli::{
    bundled_models_arguments, codex_cli_candidates, detect_codex_cli_client_version,
    environment_candidates, home_candidates, newest_first, parse_codex_cli_client_version,
    resolve_codex_client_version, version_directories, version_to_write, CliRun,
};
use codex_switch::json::{parse_json, Json};

fn json(text: &str) -> Json {
    parse_json(text).expect("JSON text")
}

fn texts(list: &[&str]) -> Vec<String> {
    list.iter().map(|text| text.to_string()).collect()
}

#[test]
fn codex_cli_candidates_are_non_empty() {
    let candidates = codex_cli_candidates(false, &Vec::new());
    assert!(
        candidates.iter().any(|candidate| candidate == "codex"),
        "codex CLI candidates must include the PATH entry"
    );
}

#[test]
fn codex_cli_candidates_include_chatgpt_desktop_binary() {
    assert!(
        codex_cli_candidates(true, &Vec::new()).iter().any(|candidate| {
            candidate == "/Applications/ChatGPT.app/Contents/Resources/codex"
        }),
        "fresh desktop-only installs need the bundled Codex version for cache validation"
    );
}

#[test]
fn codex_bundled_models_command_uses_expected_program_and_args() {
    assert_eq!(codex_cli_candidates(false, &Vec::new())[0], "codex");
    assert_eq!(
        bundled_models_arguments(),
        ["debug", "models", "--bundled"]
    );
}

#[test]
fn codex_cli_candidates_deduplicate_entries() {
    let candidate = "/home/me/.volta/bin/codex".to_string();
    let candidates = codex_cli_candidates(
        false,
        &vec![candidate.clone(), "codex".to_string(), candidate.clone()],
    );
    assert_eq!(
        candidates.iter().filter(|path| **path == candidate).count(),
        1,
        "duplicate candidates should be removed"
    );
    assert_eq!(candidates.iter().filter(|path| *path == "codex").count(), 1);
}

#[test]
fn codex_client_version_parser_rejects_malformed_output() {
    assert_eq!(
        parse_codex_cli_client_version("codex-cli 0.147.3-alpha.2"),
        Some("0.147.3".to_string())
    );
    assert_eq!(parse_codex_cli_client_version("codex-cli dev"), None);
    assert_eq!(parse_codex_cli_client_version("0.147"), None);
    assert_eq!(parse_codex_cli_client_version(""), None);
}

#[test]
fn the_first_run_with_a_version_counts() {
    let run = |success: bool, stdout: &str, stderr: &str| CliRun {
        success,
        stdout: stdout.to_string(),
        stderr: stderr.to_string(),
    };
    assert_eq!(
        detect_codex_cli_client_version(&vec![
            run(false, "codex-cli 0.1.2", ""),
            run(true, "unknown", ""),
            run(true, "codex-cli 0.3.4", ""),
            run(true, "codex-cli 0.5.6", ""),
        ])
        .as_deref(),
        Some("0.3.4")
    );
    assert_eq!(detect_codex_cli_client_version(&Vec::new()), None);
}

#[test]
fn a_version_is_taken_from_the_cache_only_without_a_detected_one() {
    let cache = json(r#"{ "client_version": "0.146.0" }"#);
    assert_eq!(
        resolve_codex_client_version(Some("0.147.0".to_string()), Some(&cache)).as_deref(),
        Some("0.147.0")
    );
    assert_eq!(
        resolve_codex_client_version(None, Some(&cache)).as_deref(),
        Some("0.146.0")
    );
    assert_eq!(resolve_codex_client_version(None, None), None);
    assert_eq!(
        version_to_write(Some("codex-cli 0.147.0"), &cache).as_deref(),
        Some("0.147.0")
    );
    assert_eq!(
        version_to_write(None, &cache).as_deref(),
        Some("0.146.0")
    );
    assert_eq!(version_to_write(None, &json("{}")), None);
}

#[test]
fn newer_version_directories_come_first() {
    assert_eq!(
        newest_first(&texts(&["v20.1.0", "v22.14.0", "v18.0.0"])),
        texts(&["v22.14.0", "v20.1.0", "v18.0.0"])
    );
}

#[test]
fn candidates_are_looked_for_below_the_home_directory() {
    let home = home_candidates();
    assert!(home.contains(&".volta/bin/codex".to_string()));
    assert!(home.contains(&".asdf/shims/codex".to_string()));
    assert!(home.contains(&".local/share/mise/shims/codex".to_string()));
    assert!(!environment_candidates().is_empty());
    let directories = version_directories(None);
    assert!(directories
        .iter()
        .any(|(directory, below)| directory == ".nvm/versions/node" && below == "bin/codex"));
    assert!(directories.iter().any(|(directory, below)| {
        directory == ".local/share/fnm/node-versions" && below == "installation/bin/codex"
    }));
}
