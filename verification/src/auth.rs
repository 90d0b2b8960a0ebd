//! What is in Codex's `auth.json`: logins, keys, and what is left behind.

use crate::config_fields::extract_codex_experimental_bearer_token;
use crate::json::{Json, JsonView};
use crate::text::str_eq;
use crate::{config_fields, json, text};
use vstd::prelude::*;
use vstd::string::*;

verus! {

/// The credentials that the official model list is fetched with.
#[derive(Debug)]
pub struct CodexAuthCredentials {
    pub access_token: String,
    pub account_id: Option<String>,
}

/// A string member, trimmed, where it is not blank.
pub open spec fn trimmed_member(value: JsonView, key: Seq<char>) -> Option<Seq<char>> {
    match value.get_text(key) {
        Some(t) => if text::is_blank(t) {
            None
        } else {
            Some(text::trim(t))
        },
        None => None,
    }
}

/// A string member, trimmed, where it is not blank.
pub fn get_trimmed<'a>(value: &'a Json, key: &str) -> (r: Option<&'a str>)
    ensures
        text::slice_text(r) == trimmed_member(value@, key@),
{
    match value.get_str(key) {
        Some(t) => {
            let t = t.trim();
            if t.is_empty() {
                None
            } else {
                Some(t)
            }
        },
        None => None,
    }
}

/// The token and the account of a login, where there is a token.
pub open spec fn credentials(value: JsonView) -> Option<(Seq<char>, Option<Seq<char>>)> {
    match value.get("tokens"@) {
        Some(tokens) => match trimmed_member(tokens, "access_token"@) {
            Some(token) => Some((token, trimmed_member(tokens, "account_id"@))),
            None => None,
        },
        None => None,
    }
}

/// The credentials of a login, where there is a token.
pub fn codex_auth_credentials_from_value(value: &Json) -> (r: Option<CodexAuthCredentials>)
    ensures
        match r {
            Some(c) => credentials(value@) == Some(
                (c.access_token@, text::text_of(c.account_id)),
            ),
            None => credentials(value@) is None,
        },
{
    let tokens = match value.get("tokens") {
        Some(tokens) => tokens,
        None => {
            return None;
        },
    };
    match get_trimmed(tokens, "access_token") {
        Some(token) => {
            let account_id = match get_trimmed(tokens, "account_id") {
                Some(id) => Some(id.to_owned()),
                None => None,
            };
            Some(CodexAuthCredentials { access_token: token.to_owned(), account_id })
        },
        None => None,
    }
}

/// The API key of a login file.
pub fn extract_codex_auth_api_key(auth: &Json) -> (r: Option<String>)
    ensures
        text::text_of(r) == trimmed_member(auth@, "OPENAI_API_KEY"@),
{
    match get_trimmed(auth, "OPENAI_API_KEY") {
        Some(key) => Some(key.to_owned()),
        None => None,
    }
}

/// The API key of a provider: of its login file, else the bearer token of its config.
pub open spec fn api_key(auth: Option<JsonView>, config: Option<Seq<char>>) -> Option<Seq<char>> {
    let own = match auth {
        Some(auth) => trimmed_member(auth, "OPENAI_API_KEY"@),
        None => None,
    };
    if own is Some {
        own
    } else {
        match config {
            Some(config) => config_fields::bearer_token(config),
            None => None,
        }
    }
}

/// The API key of a provider: of its login file, else the bearer token of its config.
pub fn extract_codex_api_key(auth: Option<&Json>, config_text: Option<&str>) -> (r: Option<String>)
    ensures
        text::text_of(r) == api_key(json::ref_view(auth), text::slice_text(config_text)),
{
    if let Some(auth) = auth {
        if let Some(key) = extract_codex_auth_api_key(auth) {
            return Some(key);
        }
    }
    match config_text {
        Some(config_text) => extract_codex_experimental_bearer_token(config_text),
        None => None,
    }
}

/// Whether a value is more than nothing: no null, no blank string, no empty array or object.
pub open spec fn is_present(value: JsonView) -> bool {
    match value {
        JsonView::Null => false,
        JsonView::Str(s) => !text::is_blank(s),
        JsonView::Array(items) => items.len() > 0,
        JsonView::Object(map) => exists|key: Seq<char>| #[trigger] map.dom().contains(key),
        _ => true,
    }
}

/// Whether a value is more than nothing.
pub fn is_present_value(value: &Json) -> (r: bool)
    ensures
        r == is_present(value@),
{
    match value {
        Json::Null => false,
        Json::Str(s) => !s.as_str().trim().is_empty(),
        Json::Array(items) => {
            proof {
                json::lemma_items_view(items@);
            }
            items.len() > 0
        },
        Json::Object(_) => {
            let keys = value.keys();
            let map = Ghost(value@->Object_0);
            proof {
                assert forall|key: Seq<char>| #[trigger] map@.dom().contains(key) implies text::texts(
                    keys@,
                ).contains(key) by {
                    assert(value@.get(key) is Some);
                }
            }
            if keys.len() > 0 {
                proof {
                    let first = text::texts(keys@)[0];
                    assert(text::texts(keys@).contains(first));
                    assert(value@.get(first) is Some);
                    assert(map@.dom().contains(first));
                }
                true
            } else {
                false
            }
        },
        _ => true,
    }
}

/// Whether a member of a login file is material to log in with: a key that is a string, or
/// anything else but the mode.
pub open spec fn is_login_member(key: Seq<char>, value: JsonView) -> bool {
    if key == "auth_mode"@ {
        false
    } else if key == "OPENAI_API_KEY"@ {
        value.text() matches Some(t) && !text::is_blank(t)
    } else {
        is_present(value)
    }
}

/// Whether a login file holds material to log in with.
pub open spec fn has_login(auth: JsonView) -> bool {
    exists|key: Seq<char>|
        (#[trigger] auth.get(key)) matches Some(value) && is_login_member(key, value)
}

/// Whether a login file holds material to log in with.
pub fn codex_auth_has_login_material(auth: &Json) -> (r: bool)
    ensures
        r == has_login(auth@),
{
    let keys = auth.keys();
    let mut i: usize = 0;
    while i < keys.len()
        invariant
            i <= keys@.len(),
            forall|key: Seq<char>|
                (#[trigger] auth@.get(key)) is Some <==> text::texts(keys@).contains(key),
            forall|j: int|
                0 <= j < i ==> !(auth@.get((#[trigger] keys@[j])@) matches Some(value)
                    && is_login_member(keys@[j]@, value)),
        decreases keys@.len() - i,
    {
        let key = keys[i].as_str();
        if let Some(value) = auth.get(key) {
            let found = if str_eq(key, "auth_mode") {
                false
            } else if str_eq(key, "OPENAI_API_KEY") {
                match value.as_str() {
                    Some(t) => !t.trim().is_empty(),
                    None => false,
                }
            } else {
                is_present_value(value)
            };
            if found {
                assert(auth@.get(key@) matches Some(value) && is_login_member(key@, value));
                return true;
            }
        }
        i += 1;
    }
    proof {
        assert forall|key: Seq<char>| !((#[trigger] auth@.get(key)) matches Some(value)
            && is_login_member(key, value)) by {
            if auth@.get(key) is Some {
                let list = text::texts(keys@);
                let j = choose|j: int| 0 <= j < list.len() && list[j] == key;
                assert(keys@[j]@ == key);
            }
        }
    }
    false
}

/// Whether a login file holds material of another kind than an API key.
pub open spec fn has_oauth(auth: JsonView) -> bool {
    exists|key: Seq<char>|
        (#[trigger] auth.get(key)) matches Some(value) && key != "auth_mode"@ && key
            != "OPENAI_API_KEY"@ && is_present(value)
}

/// Whether a login file holds material of another kind than an API key.
pub fn codex_auth_has_oauth_login_material(auth: &Json) -> (r: bool)
    ensures
        r == has_oauth(auth@),
{
    let keys = auth.keys();
    let mut i: usize = 0;
    while i < keys.len()
        invariant
            i <= keys@.len(),
            forall|key: Seq<char>|
                (#[trigger] auth@.get(key)) is Some <==> text::texts(keys@).contains(key),
            forall|j: int|
                0 <= j < i ==> !(auth@.get((#[trigger] keys@[j])@) matches Some(value) && keys@[j]@
                    != "auth_mode"@ && keys@[j]@ != "OPENAI_API_KEY"@ && is_present(value)),
        decreases keys@.len() - i,
    {
        let key = keys[i].as_str();
        if let Some(value) = auth.get(key) {
            if !str_eq(key, "auth_mode") && !str_eq(key, "OPENAI_API_KEY") && is_present_value(
                value,
            ) {
                assert(auth@.get(key@) matches Some(value) && is_present(value));
                return true;
            }
        }
        i += 1;
    }
    proof {
        assert forall|key: Seq<char>| !((#[trigger] auth@.get(key)) matches Some(value) && key
            != "auth_mode"@ && key != "OPENAI_API_KEY"@ && is_present(value)) by {
            if auth@.get(key) is Some {
                let list = text::texts(keys@);
                let j = choose|j: int| 0 <= j < list.len() && list[j] == key;
                assert(keys@[j]@ == key);
            }
        }
    }
    false
}

/// Whether a member is there and is more than nothing.
pub open spec fn has_member(value: JsonView, key: Seq<char>) -> bool {
    value.get(key) matches Some(member) && is_present(member)
}

/// Whether a login file holds a credential that Codex itself logs in with ahead of an API key:
/// a token, or another first-class carrier. Metadata does not count.
pub open spec fn has_credential(auth: JsonView) -> bool {
    ||| has_member(auth, "personal_access_token"@)
    ||| has_member(auth, "agent_identity"@)
    ||| has_member(auth, "bedrock_api_key"@)
    ||| (auth.get("tokens"@) matches Some(tokens) && {
        ||| has_member(tokens, "id_token"@)
        ||| has_member(tokens, "access_token"@)
        ||| has_member(tokens, "refresh_token"@)
    })
}

/// Whether a member is there and is more than nothing.
fn member_present(value: &Json, key: &str) -> (r: bool)
    ensures
        r == has_member(value@, key@),
{
    match value.get(key) {
        Some(member) => is_present_value(member),
        None => false,
    }
}

/// Whether a login file holds a credential that Codex itself logs in with ahead of an API key.
pub fn codex_auth_has_credential_login_material(auth: &Json) -> (r: bool)
    ensures
        r == has_credential(auth@),
{
    if member_present(auth, "personal_access_token") || member_present(auth, "agent_identity")
        || member_present(auth, "bedrock_api_key") {
        return true;
    }
    match auth.get("tokens") {
        Some(tokens) => member_present(tokens, "id_token") || member_present(
            tokens,
            "access_token",
        ) || member_present(tokens, "refresh_token"),
        None => false,
    }
}

/// Whether a live login file is what a third-party provider has left behind: an API key, and no
/// credential next to it.
pub open spec fn is_residue(live_auth: JsonView) -> bool {
    !has_credential(live_auth) && trimmed_member(live_auth, "OPENAI_API_KEY"@) is Some
}

/// Whether a live login file is what a third-party provider has left behind.
pub fn codex_live_auth_is_stale_third_party_residue(live_auth: &Json) -> (r: bool)
    ensures
        r == is_residue(live_auth@),
{
    if codex_auth_has_credential_login_material(live_auth) {
        return false;
    }
    get_trimmed(live_auth, "OPENAI_API_KEY").is_some()
}

/// Whether the login file of the official provider is deleted after a switch to it.
pub open spec fn clears_login(
    official_login_enabled: bool,
    db_auth: JsonView,
    live_auth: Option<JsonView>,
) -> bool {
    official_login_enabled && !has_login(db_auth) && (live_auth matches Some(live) && is_residue(
        live,
    ))
}

/// Whether the login file of the official provider is deleted after a switch to it: where its own
/// login is used, where the stored provider has no login of its own to write, and where the live
/// file is what a third-party provider has left behind. Without a file there is nothing to delete.
pub fn clear_stale_codex_live_auth_after_official_switch(
    official_login_enabled: bool,
    db_auth: &Json,
    live_auth: Option<&Json>,
) -> (r: bool)
    ensures
        r == clears_login(official_login_enabled, db_auth@, json::ref_view(live_auth)),
{
    if !official_login_enabled || codex_auth_has_login_material(db_auth) {
        return false;
    }
    match live_auth {
        Some(live_auth) => codex_live_auth_is_stale_third_party_residue(live_auth),
        None => false,
    }
}

/// Whether a live token goes back into the stored provider: not for an official one, nor where the
/// stored login is another than an API key.
pub open spec fn restores_token(category: Option<Seq<char>>, template: JsonView) -> bool {
    if category == Some("official"@) {
        false
    } else {
        match template.get("auth"@) {
            Some(auth) => !has_oauth(auth) || trimmed_member(auth, "OPENAI_API_KEY"@) is Some,
            None => true,
        }
    }
}

/// Whether a live token goes back into the stored provider.
pub fn should_restore_codex_provider_token_for_backfill(
    category: Option<&str>,
    template_settings: &Json,
) -> (r: bool)
    ensures
        r == restores_token(text::slice_text(category), template_settings@),
{
    if let Some(category) = category {
        if str_eq(category, "official") {
            return false;
        }
    }
    match template_settings.get("auth") {
        Some(auth) => !codex_auth_has_oauth_login_material(auth) || extract_codex_auth_api_key(
            auth,
        ).is_some(),
        None => true,
    }
}

/// What a third-party provider leaves behind is never a login of another kind that Codex itself
/// uses, so deleting it loses none.
pub proof fn law_residue_is_no_login(live_auth: JsonView)
    ensures
        is_residue(live_auth) ==> !has_credential(live_auth),
        has_credential(live_auth) ==> has_oauth(live_auth),
        has_oauth(live_auth) ==> has_login(live_auth),
{
    reveal_strlit("auth_mode");
    reveal_strlit("OPENAI_API_KEY");
    reveal_strlit("personal_access_token");
    reveal_strlit("agent_identity");
    reveal_strlit("bedrock_api_key");
    reveal_strlit("tokens");
    assert("auth_mode"@.len() == 9);
    assert("OPENAI_API_KEY"@.len() == 14);
    assert("personal_access_token"@.len() == 21);
    assert("agent_identity"@.len() == 14);
    assert("agent_identity"@[0] != "OPENAI_API_KEY"@[0]);
    assert("bedrock_api_key"@.len() == 15);
    assert("tokens"@.len() == 6);
    if has_credential(live_auth) {
        match live_auth.get("tokens"@) {
            Some(tokens) => {
                let map = tokens->Object_0;
                if has_member(tokens, "id_token"@) {
                    assert(map.dom().contains("id_token"@));
                }
                if has_member(tokens, "access_token"@) {
                    assert(map.dom().contains("access_token"@));
                }
                if has_member(tokens, "refresh_token"@) {
                    assert(map.dom().contains("refresh_token"@));
                }
            },
            None => {},
        }
    }
    if has_oauth(live_auth) {
        let key = choose|key: Seq<char>|
            (#[trigger] live_auth.get(key)) matches Some(value) && key != "auth_mode"@ && key
                != "OPENAI_API_KEY"@ && is_present(value);
        assert(live_auth.get(key) matches Some(value) && is_login_member(key, value));
    }
}

} // verus!
