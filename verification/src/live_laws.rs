//! What a switch to a provider writes, and what goes back into the stored provider.

use crate::auth_laws::{says_nothing, says_something};
use crate::catalog_entry::CodexCatalogToolProfile;
use crate::error::ErrorView;
use crate::json::JsonView;
use crate::live_config::{LiveStep, LiveWriteView};
use crate::toml_doc::TomlView;
use crate::{
    auth_laws, config_fields, live_catalog, live_config, model_specs, text, toml_doc, toml_value,
    unified_session,
};
use vstd::prelude::*;
use vstd::string::*;

verus! {

/// Whether a login file says something beside the mode.
pub open spec fn is_login(auth: JsonView) -> bool {
    says_something(auth, "OPENAI_API_KEY"@) || exists|key: Seq<char>|
        key != "auth_mode"@ && key != "OPENAI_API_KEY"@ && !#[trigger] says_nothing(auth, key)
}

/// A switch writes the login file of a provider that is not official exactly where the official login
/// is not to be kept, and that of an official one exactly where it holds a login. Where it writes
/// both, the config goes in as it is.
pub proof fn law_which_files_are_written(
    category: Option<Seq<char>>,
    auth: JsonView,
    config: Option<Seq<char>>,
    keep_official_auth: bool,
)
    ensures
        category != Some("official"@) && !keep_official_auth ==> live_config::provider_write(
            category,
            auth,
            config,
            false,
            keep_official_auth,
        ) == Ok::<LiveWriteView, ErrorView>(LiveWriteView::AuthAndConfig(config)),
        category == Some("official"@) && is_login(auth) ==> live_config::provider_write(
            category,
            auth,
            config,
            false,
            keep_official_auth,
        ) == Ok::<LiveWriteView, ErrorView>(LiveWriteView::AuthAndConfig(config)),
        (category != Some("official"@) && keep_official_auth || category == Some("official"@)
            && !is_login(auth)) ==> (live_config::provider_write(
            category,
            auth,
            config,
            false,
            keep_official_auth,
        ) matches Ok(done) ==> done is ConfigOnly),
{
    auth_laws::law_what_a_login_is(auth);
}

/// Only the official provider is moved to the shared id, and only where one history is wanted; any
/// other switch is not touched by the wish.
pub proof fn law_only_the_official_provider_is_moved(
    category: Option<Seq<char>>,
    auth: JsonView,
    config: Option<Seq<char>>,
    unify: bool,
    keep_official_auth: bool,
)
    ensures
        category != Some("official"@) ==> live_config::provider_write(
            category,
            auth,
            config,
            unify,
            keep_official_auth,
        ) == live_config::provider_write(category, auth, config, false, keep_official_auth),
        category == Some("official"@) && unify ==> (unified_session::injected(
            match config {
                Some(config) => config,
                None => Seq::empty(),
            },
        ) matches Ok(moved) ==> live_config::provider_write(
            category,
            auth,
            config,
            unify,
            keep_official_auth,
        ) == live_config::provider_write(
            category,
            auth,
            Some(moved),
            false,
            keep_official_auth,
        )),
{
}

/// A provider without a key, neither in its login nor in its config, has its config written as it is.
pub proof fn law_without_a_key_the_config_stays(auth: JsonView, config: Seq<char>)
    requires
        !says_something(auth, "OPENAI_API_KEY"@),
        config_fields::bearer_token(config) is None,
    ensures
        live_config::live_config(auth, config) == Ok::<Seq<char>, ErrorView>(config),
{
}

/// What goes back into the stored provider: the token of the live config becomes the key of the login
/// that was stored, the config loses it, and everything else stays. Without a token nothing changes.
pub proof fn law_the_token_goes_back_into_the_login(
    settings: JsonView,
    template: JsonView,
    key: Seq<char>,
)
    ensures
        live_config::restored(settings, template) matches Ok(after) ==> {
            &&& key != "config"@ && key != "auth"@ ==> after.get(key) == settings.get(key)
            &&& settings.get_text("config"@) is None ==> after == settings
            &&& settings.get_text("config"@) matches Some(config) ==> {
                &&& config_fields::bearer_token(config) is None ==> after == settings
                &&& config_fields::bearer_token(config) matches Some(token) ==> {
                    &&& config_fields::without_any_token(config) == (match after.get_text("config"@) {
                        Some(cleaned) => Ok::<Seq<char>, ErrorView>(cleaned),
                        None => config_fields::without_any_token(config),
                    })
                    &&& after.get_text("config"@) is Some
                    &&& after.get("auth"@) matches Some(login) && login.get("OPENAI_API_KEY"@)
                        == Some(JsonView::Str(token)) && (key != "OPENAI_API_KEY"@ ==> (
                    match template.get("auth"@) {
                        Some(JsonView::Object(map)) => login.get(key) == JsonView::Object(map).get(
                            key,
                        ),
                        _ => login.get(key) is None,
                    }))
                }
            }
        },
{
    reveal_strlit("config");
    reveal_strlit("auth");
    assert("config"@.len() == 6);
    assert("auth"@.len() == 4);
}

/// The live settings hold the login file and the config as they are; without a login file an empty one
/// stands for it, and only without either there are none.
pub proof fn law_live_settings_hold_both(
    auth: Option<JsonView>,
    has_config: bool,
    config: Seq<char>,
    key: Seq<char>,
)
    ensures
        live_config::live_settings(auth, has_config, config) is Err <==> auth is None
            && !has_config,
        live_config::live_settings(auth, has_config, config) matches Ok(settings) ==> {
            &&& settings.get("config"@) == Some(JsonView::Str(config))
            &&& auth is Some ==> settings.get("auth"@) == auth
            &&& auth is None ==> (settings.get("auth"@) matches Some(JsonView::Object(map))
                && map.dom() =~= Set::<Seq<char>>::empty())
            &&& key != "config"@ && key != "auth"@ ==> settings.get(key) is None
        },
{
    reveal_strlit("config");
    reveal_strlit("auth");
    assert("config"@.len() == 6);
    assert("auth"@.len() == 4);
}

/// Writing the two files goes through both where all goes well, and never leaves the new login file
/// behind a config that could not be written.
pub proof fn law_both_files_or_neither(had_auth: bool)
    ensures
        live_config::live_step_after(LiveStep::WriteAuth, true, had_auth) is WriteConfig,
        live_config::live_step_after(LiveStep::WriteConfig, true, had_auth) is Done,
        live_config::live_step_after(LiveStep::WriteAuth, false, had_auth) is Failed,
        live_config::live_step_after(LiveStep::WriteConfig, false, true) is RestoreAuth,
        live_config::live_step_after(LiveStep::WriteConfig, false, false) is DeleteAuth,
        live_config::live_step_after(LiveStep::RestoreAuth, true, had_auth) is Failed,
        live_config::live_step_after(LiveStep::RestoreAuth, false, had_auth) is Failed,
        live_config::live_step_after(LiveStep::DeleteAuth, true, had_auth) is Failed,
        live_config::live_step_after(LiveStep::DeleteAuth, false, had_auth) is Failed,
{
}

/// The web search tool is turned off for every Anthropic gateway, for none behind the proxy, and for a
/// gateway that Codex talks to itself only with a catalog, and where its address is one that rejects
/// it.
pub proof fn law_when_the_web_search_is_turned_off(has_catalog: bool, config: Seq<char>)
    ensures
        live_catalog::disables_web_search(CodexCatalogToolProfile::Anthropic, has_catalog, config),
        !live_catalog::disables_web_search(CodexCatalogToolProfile::ProxyChat, has_catalog, config),
        !live_catalog::disables_web_search(CodexCatalogToolProfile::NativeResponses, false, config),
        toml_value::toml_values(config) is None ==> !live_catalog::disables_web_search(
            CodexCatalogToolProfile::NativeResponses,
            has_catalog,
            config,
        ),
        toml_value::toml_values(config) matches Some(tree) ==> live_catalog::disables_web_search(
            CodexCatalogToolProfile::NativeResponses,
            true,
            config,
        ) == config_fields::rejects_web_search(tree),
{
}

/// Settings say what the catalog is exactly where they have one, even an empty one, or routed models.
pub proof fn law_when_settings_say_what_the_catalog_is(
    settings: JsonView,
    slots: model_specs::SlotTable,
)
    ensures
        settings.get("modelCatalog"@) is Some ==> live_catalog::says_catalog(settings, slots),
        settings.get("modelCatalog"@) is None && !(settings.get("codexCustomModels"@) matches Some(
            JsonView::Array(_),
        )) ==> !live_catalog::says_catalog(settings, slots),
{
}

/// In the settings of a provider only the config is changed, and only for the official provider with
/// shared sessions: to what moving it gives. Settings of any other provider stay.
pub proof fn law_settings_are_moved_in_their_config(
    category: Option<Seq<char>>,
    unify: bool,
    settings: JsonView,
    config: Seq<char>,
    key: Seq<char>,
)
    requires
        settings is Object,
        settings.get("config"@) == Some(JsonView::Str(config)),
    ensures
        ({
            let after = live_config::moved_settings(category, unify, settings);
            &&& category != Some("official"@) || !unify ==> after == Ok::<JsonView, ErrorView>(
                settings,
            )
            &&& category == Some("official"@) && unify ==> {
                &&& after is Ok <==> unified_session::injected(config) is Ok
                &&& after is Ok ==> after->Ok_0.get("config"@) == Some(
                    JsonView::Str(unified_session::injected(config)->Ok_0),
                )
                &&& after is Err ==> after->Err_0 == unified_session::injected(config)->Err_0
            }
            &&& after is Ok && key != "config"@ ==> after->Ok_0.get(key) == settings.get(key)
        }),
{
}

/// Moving settings back changes their config alone, to what taking the shared id out gives.
pub proof fn law_settings_are_moved_back_in_their_config(
    settings: JsonView,
    config: Seq<char>,
    key: Seq<char>,
)
    requires
        settings is Object,
        settings.get("config"@) == Some(JsonView::Str(config)),
    ensures
        ({
            let after = live_config::moved_back(settings);
            &&& after is Ok <==> unified_session::stripped(config) is Ok
            &&& after is Ok ==> after->Ok_0.get("config"@) == Some(
                JsonView::Str(unified_session::stripped(config)->Ok_0),
            )
            &&& after is Ok && key != "config"@ ==> after->Ok_0.get(key) == settings.get(key)
        }),
{
}

/// Taking the servers out of settings changes their config alone, and settings without a config stay.
pub proof fn law_servers_are_taken_out_of_the_config(
    settings: JsonView,
    config: Seq<char>,
    key: Seq<char>,
)
    requires
        settings is Object,
    ensures
        settings.get_text("config"@) is None ==> live_config::settings_without_mcp(settings) == Ok::<
            JsonView,
            ErrorView,
        >(settings) && live_config::moved_back(settings) == Ok::<JsonView, ErrorView>(settings),
        settings.get("config"@) == Some(JsonView::Str(config)) ==> {
            let after = live_config::settings_without_mcp(settings);
            &&& after is Ok <==> live_config::without_mcp(config) is Ok
            &&& after is Ok ==> after->Ok_0.get("config"@) == Some(
                JsonView::Str(live_config::without_mcp(config)->Ok_0),
            )
            &&& after is Ok && key != "config"@ ==> after->Ok_0.get(key) == settings.get(key)
        },
        !text::occurs(config, "mcp"@) ==> live_config::without_mcp(config) == Ok::<
            Seq<char>,
            ErrorView,
        >(config),
{
}

/// A config points to a catalog with one field, where that is a text that says something.
pub proof fn law_where_a_config_points_to(config: Seq<char>, tree: TomlView)
    requires
        toml_doc::toml_tree(config) == Some(tree),
    ensures
        ({
            let pointer = tree.get("model_catalog_json"@);
            let says = pointer is Some && pointer->Some_0 is Str && !text::is_blank(
                pointer->Some_0->Str_0,
            );
            &&& says ==> live_catalog::catalog_pointer(config) == Some(
                text::trim(pointer->Some_0->Str_0),
            )
            &&& !says ==> live_catalog::catalog_pointer(config) is None
        }),
{
}

/// What is prepared for a switch is the catalog, and the config with a pointer to it where there is
/// one, and with its web search turned off where the gateway rejects it. An error on the way is the
/// result.
pub proof fn law_what_is_prepared(
    catalog: Result<Option<JsonView>, ErrorView>,
    config: Seq<char>,
    profile: CodexCatalogToolProfile,
    name: Option<Seq<char>>,
)
    ensures
        ({
            let done = live_catalog::prepared(catalog, config, profile, name);
            let has = catalog->Ok_0 is Some;
            let pointed = config_fields::with_catalog(config, has, name);
            let written = config_fields::with_web_search(
                pointed->Ok_0,
                live_catalog::disables_web_search(profile, has, pointed->Ok_0),
            );
            &&& catalog is Err ==> done is Err && done->Err_0 == catalog->Err_0
            &&& catalog is Ok && pointed is Err ==> done is Err && done->Err_0 == pointed->Err_0
            &&& catalog is Ok && pointed is Ok && written is Err ==> done is Err && done->Err_0
                == written->Err_0
            &&& catalog is Ok && pointed is Ok && written is Ok ==> done is Ok && done->Ok_0.catalog
                == catalog->Ok_0 && done->Ok_0.config == written->Ok_0
        }),
{
}

} // verus!
