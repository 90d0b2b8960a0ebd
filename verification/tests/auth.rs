use codex_switch::auth::{
    codex_auth_credentials_from_value, codex_auth_has_credential_login_material,
    codex_live_auth_is_stale_third_party_residue, should_restore_codex_provider_token_for_backfill,
};
use codex_switch::json::{parse_json, Json};

fn json(text: &str) -> Json {
    parse_json(text).expect("JSON text")
}


#[test]
fn credential_login_material_only_counts_real_credentials() {
    assert!(codex_auth_has_credential_login_material(&json(r#"{
        "tokens": { "access_token": "t" }
    }"#)));
    assert!(codex_auth_has_credential_login_material(&json(r#"{
        "tokens": { "refresh_token": "r" }
    }"#)));
    assert!(codex_auth_has_credential_login_material(&json(r#"{
        "personal_access_token": "pat"
    }"#)));

    // API key and pure metadata are not credentials in this predicate's
    // sense — they must not shield a stale key from cleanup.
    assert!(!codex_auth_has_credential_login_material(&json(r#"{
        "OPENAI_API_KEY": "sk-x"
    }"#)));
    assert!(!codex_auth_has_credential_login_material(&json(r#"{
        "OPENAI_API_KEY": "sk-x",
        "last_refresh": "2026-01-01T00:00:00Z",
        "tokens": { "account_id": "acct-meta-only" }
    }"#)));
    assert!(!codex_auth_has_credential_login_material(&json("{}")));
}

#[test]
fn codex_auth_credentials_parse_token_and_optional_account_id() {
    let credentials = codex_auth_credentials_from_value(&json(r#"{
        "tokens": {
            "access_token": "  official-token  ",
            "account_id": "  workspace-123  "
        }
    }"#))
    .expect("parse Codex auth credentials");

    assert_eq!(credentials.access_token, "official-token");
    assert_eq!(credentials.account_id.as_deref(), Some("workspace-123"));

    let personal = codex_auth_credentials_from_value(&json(r#"{
        "tokens": {
            "access_token": "personal-token",
            "account_id": "   "
        }
    }"#))
    .expect("parse personal-account credentials");
    assert_eq!(personal.account_id, None);
}

#[test]
fn stale_third_party_residue_detection() {
    // Shapes a preserve-off third-party switch leaves behind: cleared.
    assert!(codex_live_auth_is_stale_third_party_residue(&json(r#"{
        "OPENAI_API_KEY": "sk-third-party"
    }"#)));
    assert!(codex_live_auth_is_stale_third_party_residue(&json(r#"{
        "auth_mode": "apikey",
        "OPENAI_API_KEY": "sk-third-party"
    }"#)));
    assert!(codex_live_auth_is_stale_third_party_residue(&json(r#"{
        "OPENAI_API_KEY": "sk-third-party",
        "last_refresh": "2026-01-01T00:00:00Z",
        "tokens": { "account_id": "acct-meta-only" }
    }"#)));

    // Anything carrying a real credential must survive untouched.
    assert!(!codex_live_auth_is_stale_third_party_residue(&json(r#"{
        "OPENAI_API_KEY": "sk-x",
        "tokens": { "access_token": "t" }
    }"#)));
    assert!(!codex_live_auth_is_stale_third_party_residue(&json(r#"{
        "auth_mode": "chatgpt",
        "OPENAI_API_KEY": null,
        "tokens": { "access_token": "official-oauth-token" }
    }"#)));

    // Nothing to clear.
    assert!(!codex_live_auth_is_stale_third_party_residue(&json("{}")));
    assert!(!codex_live_auth_is_stale_third_party_residue(&json(r#"{
        "OPENAI_API_KEY": ""
    }"#)));
}

#[test]
fn should_not_restore_provider_token_for_oauth_only_template() {
    let oauth_template = json(r#"{
        "auth": {
            "auth_mode": "chatgpt",
            "tokens": {
                "access_token": "oauth-access"
            }
        }
    }"#);
    let api_key_template = json(r#"{
        "auth": {
            "OPENAI_API_KEY": "sk-test"
        }
    }"#);

    assert!(
        !should_restore_codex_provider_token_for_backfill(Some("custom"), &oauth_template),
        "OAuth-only templates should not backfill bearer tokens into OPENAI_API_KEY"
    );
    assert!(
        should_restore_codex_provider_token_for_backfill(Some("custom"), &api_key_template),
        "custom API-key providers should still restore provider bearer tokens"
    );
    assert!(
        !should_restore_codex_provider_token_for_backfill(Some("official"), &api_key_template),
        "official providers should never restore third-party bearer tokens"
    );
}
