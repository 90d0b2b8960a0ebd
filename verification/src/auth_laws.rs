//! What counts as a login, and what a login file is deleted for.

use crate::json::JsonView;
use crate::{auth, config_fields, text};
use vstd::prelude::*;
use vstd::string::*;

verus! {

/// Whether a member is a string with more than white space in it.
pub open spec fn says_something(value: JsonView, key: Seq<char>) -> bool {
    value.get(key) matches Some(JsonView::Str(t)) && !text::is_blank(t)
}

/// Whether a member says nothing: it is missing, null, a blank string, or an array or an object
/// without anything in it.
pub open spec fn says_nothing(value: JsonView, key: Seq<char>) -> bool {
    match value.get(key) {
        None => true,
        Some(JsonView::Null) => true,
        Some(JsonView::Str(t)) => text::is_blank(t),
        Some(JsonView::Array(items)) => items.len() == 0,
        Some(JsonView::Object(map)) => forall|k: Seq<char>| !#[trigger] map.dom().contains(k),
        _ => false,
    }
}

/// The names of the members differ.
proof fn lemma_login_names()
    ensures
        "auth_mode"@ != "OPENAI_API_KEY"@,
        "tokens"@ != "OPENAI_API_KEY"@,
        "tokens"@ != "auth_mode"@,
        "personal_access_token"@ != "OPENAI_API_KEY"@,
        "personal_access_token"@ != "auth_mode"@,
        "agent_identity"@ != "OPENAI_API_KEY"@,
        "agent_identity"@ != "auth_mode"@,
        "bedrock_api_key"@ != "OPENAI_API_KEY"@,
        "bedrock_api_key"@ != "auth_mode"@,
{
    reveal_strlit("auth_mode");
    reveal_strlit("OPENAI_API_KEY");
    reveal_strlit("tokens");
    reveal_strlit("personal_access_token");
    reveal_strlit("agent_identity");
    reveal_strlit("bedrock_api_key");
    assert("auth_mode"@.len() == 9);
    assert("OPENAI_API_KEY"@.len() == 14);
    assert("tokens"@.len() == 6);
    assert("personal_access_token"@.len() == 21);
    assert("agent_identity"@.len() == 14);
    assert("agent_identity"@[0] != "OPENAI_API_KEY"@[0]);
    assert("bedrock_api_key"@.len() == 15);
}

/// A member either says nothing or counts.
proof fn lemma_present(value: JsonView, key: Seq<char>)
    ensures
        auth::has_member(value, key) == !says_nothing(value, key),
{
    match value.get(key) {
        Some(JsonView::Object(map)) => {
            if exists|k: Seq<char>| #[trigger] map.dom().contains(k) {
                let k = choose|k: Seq<char>| #[trigger] map.dom().contains(k);
                assert(map.dom().contains(k));
            }
        },
        _ => {},
    }
}

/// A login file with a token is a login, whatever else is in it: it holds a credential, it is not
/// what a third-party provider has left behind, and it is never deleted.
pub proof fn law_a_file_with_a_token_stays(
    live: JsonView,
    tokens: JsonView,
    enabled: bool,
    stored: JsonView,
)
    requires
        live.get("tokens"@) == Some(tokens),
        says_something(tokens, "id_token"@) || says_something(tokens, "access_token"@)
            || says_something(tokens, "refresh_token"@),
    ensures
        auth::has_credential(live),
        !auth::is_residue(live),
        !auth::clears_login(enabled, stored, Some(live)),
        auth::has_oauth(live),
        auth::has_login(live),
{
    lemma_login_names();
    lemma_present(tokens, "id_token"@);
    lemma_present(tokens, "access_token"@);
    lemma_present(tokens, "refresh_token"@);
    let map = tokens->Object_0;
    assert(map.dom().contains("id_token"@) || map.dom().contains("access_token"@)
        || map.dom().contains("refresh_token"@));
    assert(auth::is_present(tokens));
    assert(live.get("tokens"@) matches Some(value) && auth::is_present(value));
    assert(live.get("tokens"@) matches Some(value) && auth::is_login_member("tokens"@, value));
}

/// A login file with another carrier of a login stays too, whatever else is in it.
pub proof fn law_a_file_with_a_carrier_stays(live: JsonView, enabled: bool, stored: JsonView)
    requires
        !says_nothing(live, "personal_access_token"@) || !says_nothing(live, "agent_identity"@)
            || !says_nothing(live, "bedrock_api_key"@),
    ensures
        auth::has_credential(live),
        !auth::is_residue(live),
        !auth::clears_login(enabled, stored, Some(live)),
{
    lemma_present(live, "personal_access_token"@);
    lemma_present(live, "agent_identity"@);
    lemma_present(live, "bedrock_api_key"@);
}

/// A login file is what a third-party provider has left behind exactly where it has an API key that is
/// a string with something in it, and neither a token nor another carrier of a login.
pub proof fn law_residue_is_a_key_alone(live: JsonView)
    ensures
        auth::is_residue(live) <==> {
            &&& says_something(live, "OPENAI_API_KEY"@)
            &&& says_nothing(live, "personal_access_token"@)
            &&& says_nothing(live, "agent_identity"@)
            &&& says_nothing(live, "bedrock_api_key"@)
            &&& live.get("tokens"@) matches Some(tokens) ==> says_nothing(tokens, "id_token"@)
                && says_nothing(tokens, "access_token"@) && says_nothing(tokens, "refresh_token"@)
        },
{
    lemma_present(live, "personal_access_token"@);
    lemma_present(live, "agent_identity"@);
    lemma_present(live, "bedrock_api_key"@);
    match live.get("tokens"@) {
        Some(tokens) => {
            lemma_present(tokens, "id_token"@);
            lemma_present(tokens, "access_token"@);
            lemma_present(tokens, "refresh_token"@);
        },
        None => {},
    }
}

/// The file is deleted exactly where the official login is used, the stored provider has no login of
/// its own, and the file is there and is what a third-party provider has left behind.
pub proof fn law_only_residue_is_deleted(
    enabled: bool,
    stored: JsonView,
    live: Option<JsonView>,
)
    ensures
        auth::clears_login(enabled, stored, live) ==> enabled && live is Some && says_something(
            live->Some_0,
            "OPENAI_API_KEY"@,
        ),
        !enabled ==> !auth::clears_login(enabled, stored, live),
        live is None ==> !auth::clears_login(enabled, stored, live),
        auth::clears_login(enabled, stored, live) ==> forall|key: Seq<char>|
            key != "auth_mode"@ ==> !#[trigger] says_something(stored, key),
        enabled && (forall|key: Seq<char>| #[trigger] stored.get(key) is None) && (live matches Some(
            file,
        ) && says_something(file, "OPENAI_API_KEY"@) && says_nothing(
            file,
            "personal_access_token"@,
        ) && says_nothing(file, "agent_identity"@) && says_nothing(file, "bedrock_api_key"@)
            && file.get("tokens"@) is None) ==> auth::clears_login(enabled, stored, live),
{
    match live {
        Some(file) => law_residue_is_a_key_alone(file),
        None => {},
    }
    assert forall|key: Seq<char>|
        key != "auth_mode"@ && #[trigger] says_something(stored, key) implies auth::has_login(
        stored,
    ) by {
        assert(stored.get(key) matches Some(value) && auth::is_login_member(key, value));
    }
}

/// Only the credentials and the key count: two login files that agree in them are both deleted or both
/// kept, whatever else they hold.
pub proof fn law_other_members_do_not_count(
    a: JsonView,
    b: JsonView,
    enabled: bool,
    stored: JsonView,
)
    requires
        a.get("tokens"@) == b.get("tokens"@),
        a.get("personal_access_token"@) == b.get("personal_access_token"@),
        a.get("agent_identity"@) == b.get("agent_identity"@),
        a.get("bedrock_api_key"@) == b.get("bedrock_api_key"@),
    ensures
        auth::has_credential(a) == auth::has_credential(b),
        a.get("OPENAI_API_KEY"@) == b.get("OPENAI_API_KEY"@) ==> auth::is_residue(a)
            == auth::is_residue(b) && auth::clears_login(enabled, stored, Some(a))
            == auth::clears_login(enabled, stored, Some(b)),
{
}

/// A login file holds material to log in with exactly where its key is a string with something in it,
/// or where a member other than the key and the mode says something.
pub proof fn law_what_a_login_is(file: JsonView)
    ensures
        auth::has_oauth(file) <==> exists|key: Seq<char>|
            key != "auth_mode"@ && key != "OPENAI_API_KEY"@ && !#[trigger] says_nothing(file, key),
        auth::has_login(file) <==> says_something(file, "OPENAI_API_KEY"@) || exists|key: Seq<char>|
            key != "auth_mode"@ && key != "OPENAI_API_KEY"@ && !#[trigger] says_nothing(file, key),
{
    lemma_login_names();
    assert forall|key: Seq<char>| #[trigger] says_nothing(file, key) || auth::has_member(file, key) by {
        lemma_present(file, key);
    }
    assert forall|key: Seq<char>|
        key != "auth_mode"@ && key != "OPENAI_API_KEY"@ && (#[trigger] file.get(key) matches Some(
            value,
        ) && auth::is_present(value)) implies !says_nothing(file, key) by {
        lemma_present(file, key);
    }
    if exists|key: Seq<char>|
        key != "auth_mode"@ && key != "OPENAI_API_KEY"@ && !#[trigger] says_nothing(file, key) {
        let key = choose|key: Seq<char>|
            key != "auth_mode"@ && key != "OPENAI_API_KEY"@ && !#[trigger] says_nothing(file, key);
        lemma_present(file, key);
        assert(file.get(key) matches Some(value) && auth::is_present(value));
        assert(file.get(key) matches Some(value) && auth::is_login_member(key, value));
    }
    if says_something(file, "OPENAI_API_KEY"@) {
        assert(file.get("OPENAI_API_KEY"@) matches Some(value) && auth::is_login_member(
            "OPENAI_API_KEY"@,
            value,
        ));
    }
    if auth::has_login(file) {
        let key = choose|key: Seq<char>|
            (#[trigger] file.get(key)) matches Some(value) && auth::is_login_member(key, value);
        assert(file.get(key) matches Some(value) && auth::is_login_member(key, value));
        if key != "OPENAI_API_KEY"@ {
            lemma_present(file, key);
            assert(!says_nothing(file, key));
        }
    }
    if auth::has_oauth(file) {
        let key = choose|key: Seq<char>|
            (#[trigger] file.get(key)) matches Some(value) && key != "auth_mode"@ && key
                != "OPENAI_API_KEY"@ && auth::is_present(value);
        lemma_present(file, key);
        assert(!says_nothing(file, key));
    }
}

/// The API key of a provider is the one of its login file, trimmed; only where that is no string with
/// something in it, the bearer token of its config counts.
pub proof fn law_the_key_of_the_login_goes_first(
    login: Option<JsonView>,
    config: Option<Seq<char>>,
)
    ensures
        login matches Some(file) ==> says_something(file, "OPENAI_API_KEY"@) ==> auth::api_key(
            login,
            config,
        ) == Some(text::trim(file.get_text("OPENAI_API_KEY"@)->Some_0)),
        (login is None || !says_something(login->Some_0, "OPENAI_API_KEY"@)) ==> auth::api_key(
            login,
            config,
        ) == match config {
            Some(config) => config_fields::bearer_token(config),
            None => None,
        },
        auth::api_key(login, config) matches Some(key) ==> key.len() > 0,
{
}

/// The credentials of a login are its access token and its account, both trimmed; there are none
/// exactly where the token is no string with something in it.
pub proof fn law_credentials_are_the_token_and_the_account(file: JsonView)
    ensures
        auth::credentials(file) is Some <==> (file.get("tokens"@) matches Some(tokens)
            && says_something(tokens, "access_token"@)),
        auth::credentials(file) matches Some((token, account)) ==> {
            let tokens = file.get("tokens"@)->Some_0;
            &&& token == text::trim(tokens.get_text("access_token"@)->Some_0)
            &&& account is Some <==> says_something(tokens, "account_id"@)
            &&& account matches Some(id) ==> id == text::trim(
                tokens.get_text("account_id"@)->Some_0,
            )
        },
{
}

/// A live token goes back into the stored provider exactly where that is not an official one, and
/// where its login has a key or nothing but the mode.
pub proof fn law_when_a_token_goes_back(category: Option<Seq<char>>, template: JsonView)
    ensures
        category == Some("official"@) ==> !auth::restores_token(category, template),
        category != Some("official"@) && template.get("auth"@) is None ==> auth::restores_token(
            category,
            template,
        ),
        category != Some("official"@) && (template.get("auth"@) matches Some(login)
            && says_something(login, "OPENAI_API_KEY"@)) ==> auth::restores_token(
            category,
            template,
        ),
        category != Some("official"@) && (template.get("auth"@) matches Some(login)
            && !says_something(login, "OPENAI_API_KEY"@)) ==> (auth::restores_token(
            category,
            template,
        ) <==> forall|key: Seq<char>|
            key != "auth_mode"@ && key != "OPENAI_API_KEY"@ ==> #[trigger] says_nothing(
                template.get("auth"@)->Some_0,
                key,
            )),
{
    match template.get("auth"@) {
        Some(login) => law_what_a_login_is(login),
        None => {},
    }
}

} // verus!
