//! The text that is written to the live `config.toml`, and what goes back into
//! the stored provider.

use crate::auth::{codex_auth_has_login_material, extract_codex_auth_api_key};
use crate::config_fields::{
    extract_codex_experimental_bearer_token, remove_codex_experimental_bearer_token,
    set_codex_experimental_bearer_token, validate_config_toml,
};
use crate::config_merge::{
    merge_codex_app_level_config, merge_codex_plugin_sections, normalize_codex_config_text,
    normalize_codex_config_text_best_effort,
};
use crate::error::{AppError, ErrorView};
use crate::json::{Json, JsonView};
use crate::text::{str_contains, str_eq};
use crate::toml_doc::{
    document_tree, edited, parse_config, path1, root_path, EditView, Toml, TomlEdit, TomlView,
};
use crate::toml_value::check_table;
use crate::unified_session::{
    inject_codex_unified_session_bucket, strip_codex_unified_session_bucket,
};
use crate::{
    auth, config_fields, config_merge, error, field_laws, json, merge_laws, text, toml_doc,
    toml_model, toml_value, unified_session,
};
use vstd::prelude::*;
use vstd::string::*;

verus! {

/// The live text for a new config: with the application's settings and the registered plugins of
/// the old one.
pub open spec fn merged(existing: Seq<char>, new: Seq<char>) -> Result<Seq<char>, ErrorView> {
    match config_merge::with_app_level(existing, new) {
        Ok(text) => config_merge::with_plugins(existing, text),
        Err(e) => Err(e),
    }
}

/// The live text for a new config, after its legacy values were replaced.
pub open spec fn preserved(existing: Seq<char>, config: Seq<char>) -> Result<Seq<char>, ErrorView> {
    match config_merge::normalized(config) {
        Ok(text) => merged(existing, text),
        Err(e) => Err(e),
    }
}

/// The text of a new config; none stands for an empty one.
pub open spec fn config_or_empty(config: Option<Seq<char>>) -> Seq<char> {
    match config {
        Some(config) => config,
        None => Seq::empty(),
    }
}

/// A new config that was found to be TOML; none stands for an empty one.
pub open spec fn checked(config: Option<Seq<char>>, path: Seq<char>) -> Result<
    Seq<char>,
    ErrorView,
> {
    let cleaned = match config {
        Some(config) => config_merge::normalized(config),
        None => Ok(Seq::empty()),
    };
    match cleaned {
        Ok(text) => match toml_value::table_error(text) {
            Some(detail) => if text::is_blank(text) {
                Ok(text)
            } else {
                Err(ErrorView::Toml { path, detail })
            },
            None => Ok(text),
        },
        Err(e) => Err(e),
    }
}

/// The live text for a new config, with the application's settings and the registered plugins of
/// the old one.
fn merge_live(existing_config: &str, config_text: &str) -> (r: Result<String, AppError>)
    ensures
        error::text_result(r) == merged(existing_config@, config_text@),
        config_merge::normalize_holds(config_text@),
        r matches Ok(out) ==> merge_laws::keeps_both(existing_config@, config_text@, out@),
{
    match merge_codex_app_level_config(existing_config, config_text) {
        Ok(text) => {
            let r = merge_codex_plugin_sections(existing_config, text.as_str());
            proof {
                if let Ok(out) = &r {
                    merge_laws::law_a_written_config_keeps_both(
                        existing_config@,
                        config_text@,
                        out@,
                    );
                }
            }
            r
        },
        Err(e) => Err(e),
    }
}

/// The text to write for a rebuilt config, with the application's settings and the plugins that
/// are registered in the live file. Every writer of a whole config goes through here. Where it is
/// TOML, it keeps every setting of the new config, and those of the application and the plugins of
/// the old one as far as the new one leaves room for them.
pub fn write_codex_config_text_preserving_plugins(existing_config: &str, config_text: &str) -> (r:
    Result<String, AppError>)
    ensures
        error::text_result(r) == preserved(existing_config@, config_text@),
        config_merge::normalize_holds(config_text@),
        r matches Ok(out) ==> merge_laws::keeps_both(existing_config@, config_text@, out@),
{
    match normalize_codex_config_text(config_text) {
        Ok(text) => {
            let r = merge_live(existing_config, text.as_str());
            proof {
                if let Ok(out) = &r {
                    merge_laws::lemma_kept_through_normalizing(
                        existing_config@,
                        config_text@,
                        text@,
                        out@,
                    );
                }
            }
            r
        },
        Err(e) => Err(e),
    }
}

/// A new config that was found to be TOML; none stands for an empty one.
fn checked_config(config_text: Option<&str>, config_path: &str) -> (r: Result<String, AppError>)
    ensures
        error::text_result(r) == checked(text::slice_text(config_text), config_path@),
        config_text matches Some(config) ==> config_merge::normalize_holds(config@),
{
    let text = match config_text {
        Some(config_text) => match normalize_codex_config_text(config_text) {
            Ok(text) => text,
            Err(e) => {
                return Err(e);
            },
        },
        None => String::new(),
    };
    if !text.as_str().trim().is_empty() {
        if let Err(detail) = check_table(text.as_str()) {
            return Err(AppError::Toml { path: config_path.to_owned(), detail });
        }
    }
    assert(text@ =~= text@ + Seq::<char>::empty());
    Ok(text)
}

/// The text to write to the live config when only it is written. The login file stays.
pub fn write_codex_live_config_atomic(
    existing_config: &str,
    config_text: Option<&str>,
    config_path: &str,
) -> (r: Result<String, AppError>)
    ensures
        error::text_result(r) == match checked(text::slice_text(config_text), config_path@) {
            Ok(text) => preserved(existing_config@, text),
            Err(e) => Err(e),
        },
        r matches Ok(out) ==> merge_laws::keeps_both(
            existing_config@,
            config_or_empty(text::slice_text(config_text)),
            out@,
        ),
{
    match checked_config(config_text, config_path) {
        Ok(text) => {
            let r = write_codex_config_text_preserving_plugins(existing_config, text.as_str());
            proof {
                if let (Some(config), Ok(out)) = (config_text, &r) {
                    merge_laws::lemma_kept_through_normalizing(
                        existing_config@,
                        config@,
                        text@,
                        out@,
                    );
                }
            }
            r
        },
        Err(e) => Err(e),
    }
}

/// The text to write to the live config when the login file is written too.
pub fn write_codex_live_atomic(
    existing_config: &str,
    config_text: Option<&str>,
    config_path: &str,
) -> (r: Result<String, AppError>)
    ensures
        error::text_result(r) == match checked(text::slice_text(config_text), config_path@) {
            Ok(text) => merged(existing_config@, text),
            Err(e) => Err(e),
        },
        r matches Ok(out) ==> merge_laws::keeps_both(
            existing_config@,
            config_or_empty(text::slice_text(config_text)),
            out@,
        ),
{
    match checked_config(config_text, config_path) {
        Ok(text) => {
            let r = merge_live(existing_config, text.as_str());
            proof {
                if let (Some(config), Ok(out)) = (config_text, &r) {
                    merge_laws::lemma_kept_through_normalizing(
                        existing_config@,
                        config@,
                        text@,
                        out@,
                    );
                }
            }
            r
        },
        Err(e) => Err(e),
    }
}

/// One step of writing the login file and the config, the second after the first.
#[derive(Debug)]
pub enum LiveStep {
    WriteAuth,
    WriteConfig,
    /// The config could not be written: put the old login file back.
    RestoreAuth,
    /// The config could not be written, and there was no login file before: take the new one away.
    DeleteAuth,
    Done,
    /// The error of the write that failed is returned.
    Failed,
}

/// The step after another. `ok` says whether the step went well, `had_auth` whether there was a
/// login file before. What becomes of putting the old state back is not looked at.
pub open spec fn live_step_after(step: LiveStep, ok: bool, had_auth: bool) -> LiveStep {
    match step {
        LiveStep::WriteAuth => if ok {
            LiveStep::WriteConfig
        } else {
            LiveStep::Failed
        },
        LiveStep::WriteConfig => if ok {
            LiveStep::Done
        } else if had_auth {
            LiveStep::RestoreAuth
        } else {
            LiveStep::DeleteAuth
        },
        LiveStep::RestoreAuth => LiveStep::Failed,
        LiveStep::DeleteAuth => LiveStep::Failed,
        LiveStep::Done => LiveStep::Done,
        LiveStep::Failed => LiveStep::Failed,
    }
}

/// The step after another.
pub fn next_live_step(step: LiveStep, ok: bool, had_auth: bool) -> (r: LiveStep)
    ensures
        r == live_step_after(step, ok, had_auth),
{
    match step {
        LiveStep::WriteAuth => if ok {
            LiveStep::WriteConfig
        } else {
            LiveStep::Failed
        },
        LiveStep::WriteConfig => if ok {
            LiveStep::Done
        } else if had_auth {
            LiveStep::RestoreAuth
        } else {
            LiveStep::DeleteAuth
        },
        LiveStep::RestoreAuth => LiveStep::Failed,
        LiveStep::DeleteAuth => LiveStep::Failed,
        LiveStep::Done => LiveStep::Done,
        LiveStep::Failed => LiveStep::Failed,
    }
}

/// A config that could not be written never leaves the new login file in place, and no failure
/// ends as a success.
pub proof fn law_failed_config_write_is_undone(had_auth: bool, ok: bool)
    ensures
        ({
            let undo = live_step_after(LiveStep::WriteConfig, false, had_auth);
            &&& had_auth ==> undo is RestoreAuth
            &&& !had_auth ==> undo is DeleteAuth
            &&& live_step_after(undo, ok, had_auth) is Failed
        }),
        live_step_after(LiveStep::WriteAuth, false, had_auth) is Failed,
        live_step_after(LiveStep::Failed, ok, had_auth) is Failed,
{
}

/// What was read of the live config.
#[derive(Debug)]
pub struct LiveConfig {
    /// The text, with its legacy values replaced; empty where there is no file.
    pub text: String,
    /// Whether the file is to be rewritten with that text.
    pub rewrite: bool,
}

/// What was read of the live config. A file with legacy values is repaired before Codex reads it
/// again.
pub fn read_codex_config_text(raw: Option<&str>) -> (r: LiveConfig)
    ensures
        match text::slice_text(raw) {
            Some(raw) => r.text@ == config_merge::normalized_or_same(raw) && r.rewrite == (r.text@
                != raw),
            None => r.text@.len() == 0 && !r.rewrite,
        },
{
    match raw {
        Some(raw) => {
            let text = normalize_codex_config_text_best_effort(raw.to_owned());
            let rewrite = !str_eq(text.as_str(), raw);
            LiveConfig { text, rewrite }
        },
        None => LiveConfig { text: String::new(), rewrite: false },
    }
}

/// What was read of the live config, where it passes the check.
pub fn read_and_validate_codex_config_text(raw: Option<&str>) -> (r: Result<LiveConfig, AppError>)
    ensures
        ({
            let text = match text::slice_text(raw) {
                Some(raw) => config_merge::normalized_or_same(raw),
                None => Seq::empty(),
            };
            match r {
                Ok(config) => config_fields::config_check(text) is Ok && config.text@ == text
                    && config.rewrite == (text::slice_text(raw) is Some && text::slice_text(raw)
                    != Some(text)),
                Err(e) => config_fields::config_check(text) == Err::<(), ErrorView>(e@),
            }
        }),
{
    let config = read_codex_config_text(raw);
    assert(raw is None ==> config.text@ =~= Seq::<char>::empty());
    match validate_config_toml(config.text.as_str()) {
        Ok(()) => Ok(config),
        Err(e) => Err(e),
    }
}

/// The live settings: the login file and the config, where there is one of them.
pub open spec fn live_settings(
    auth: Option<JsonView>,
    has_config: bool,
    config: Seq<char>,
) -> Result<JsonView, ErrorView> {
    if auth is None && !has_config {
        Err(
            ErrorView::Localized {
                key: "codex.live.missing"@,
                zh: "Codex 配置文件不存在"@,
                en: "Codex configuration is missing"@,
            },
        )
    } else {
        let auth = match auth {
            Some(auth) => auth,
            None => JsonView::empty_object(),
        };
        Ok(
            JsonView::empty_object().put("auth"@, auth).put("config"@, JsonView::Str(config)),
        )
    }
}

/// The live settings: the login file, or an empty one, and the config. With neither there is no
/// live installation; an empty config counts as one.
pub fn read_codex_live_settings(auth: Option<&Json>, has_config: bool, config_text: &str) -> (r:
    Result<Json, AppError>)
    ensures
        match r {
            Ok(settings) => live_settings(json::ref_view(auth), has_config, config_text@) == Ok::<
                JsonView,
                ErrorView,
            >(settings@),
            Err(e) => live_settings(json::ref_view(auth), has_config, config_text@) == Err::<
                JsonView,
                ErrorView,
            >(e@),
        },
{
    if auth.is_none() && !has_config {
        return Err(
            AppError::Localized {
                key: "codex.live.missing".to_owned(),
                zh: "Codex 配置文件不存在".to_owned(),
                en: "Codex configuration is missing".to_owned(),
            },
        );
    }
    let auth = match auth {
        Some(auth) => auth.clone(),
        None => Json::object(),
    };
    let mut settings = Json::object();
    settings.insert("auth", auth);
    settings.insert("config", Json::string(config_text));
    Ok(settings)
}

/// The settings with their config replaced, where it became another.
pub open spec fn with_config(settings: JsonView, old: Seq<char>, new: Seq<char>) -> JsonView {
    if new == old {
        settings
    } else {
        settings.put("config"@, JsonView::Str(new))
    }
}

/// The config of settings; empty where there is none.
pub open spec fn config_of(settings: JsonView) -> Seq<char> {
    match settings.get_text("config"@) {
        Some(config) => config,
        None => Seq::empty(),
    }
}

/// The settings of a provider once the official one was moved to the shared id.
pub open spec fn moved_settings(
    category: Option<Seq<char>>,
    unify_session_history: bool,
    settings: JsonView,
) -> Result<JsonView, ErrorView> {
    if category != Some("official"@) || !unify_session_history {
        Ok(settings)
    } else {
        match unified_session::injected(config_of(settings)) {
            Ok(text) => Ok(with_config(settings, config_of(settings), text)),
            Err(e) => Err(e),
        }
    }
}

/// Moves the config of an official provider's settings to the shared id, where that is wanted. A
/// text that is not TOML leaves the settings and returns the error.
pub fn apply_codex_unified_session_bucket_to_settings(
    category: Option<&str>,
    unify_session_history: bool,
    settings: &mut Json,
) -> (r: Result<(), AppError>)
    ensures
        match moved_settings(text::slice_text(category), unify_session_history, old(settings)@) {
            Ok(after) => r is Ok && final(settings)@ == after,
            Err(e) => error::unit_result(r) == Err::<(), ErrorView>(e) && final(settings)@ == old(
                settings,
            )@,
        },
{
    let is_official = match category {
        Some(category) => str_eq(category, "official"),
        None => false,
    };
    if !is_official || !unify_session_history {
        return Ok(());
    }
    let config_text = match settings.get_str("config") {
        Some(config) => config.to_owned(),
        None => String::new(),
    };
    assert(config_text@ =~= config_of(settings@));
    match inject_codex_unified_session_bucket(config_text.as_str()) {
        Ok(injected) => {
            if !str_eq(injected.as_str(), config_text.as_str()) {
                settings.insert("config", Json::Str(injected));
            }
            Ok(())
        },
        Err(e) => Err(e),
    }
}

/// The settings of a provider once what was written for the shared id was taken out.
pub open spec fn moved_back(settings: JsonView) -> Result<JsonView, ErrorView> {
    match settings.get_text("config"@) {
        None => Ok(settings),
        Some(config) => match unified_session::stripped(config) {
            Ok(text) => Ok(with_config(settings, config, text)),
            Err(e) => Err(e),
        },
    }
}

/// Takes the shared id out of the config of settings before they are stored.
pub fn strip_codex_unified_session_bucket_from_settings(settings: &mut Json) -> (r: Result<
    (),
    AppError,
>)
    ensures
        match moved_back(old(settings)@) {
            Ok(after) => r is Ok && final(settings)@ == after,
            Err(e) => error::unit_result(r) == Err::<(), ErrorView>(e) && final(settings)@ == old(
                settings,
            )@,
        },
{
    let config_text = match settings.get_str("config") {
        Some(config) => config.to_owned(),
        None => {
            return Ok(());
        },
    };
    match strip_codex_unified_session_bucket(config_text.as_str()) {
        Ok(stripped) => {
            if !str_eq(stripped.as_str(), config_text.as_str()) {
                settings.insert("config", Json::Str(stripped));
            }
            Ok(())
        },
        Err(e) => Err(e),
    }
}

/// The changes that take the MCP servers out of a config: the table itself, the servers in a form
/// that older versions wrote, and what is left empty by that.
pub open spec fn mcp_edits(tree: TomlView) -> Seq<EditView> {
    let head = seq![EditView::Remove { path: toml_doc::root(), key: "mcp_servers"@ }];
    match tree.get("mcp"@) {
        Some(mcp) => match mcp.entries() {
            Some(entries) => {
                let cleaned = head.push(EditView::Remove { path: seq!["mcp"@], key: "servers"@ });
                if has_no_other(entries, "servers"@) {
                    cleaned.push(EditView::Remove { path: toml_doc::root(), key: "mcp"@ })
                } else {
                    cleaned
                }
            },
            None => head,
        },
        None => head,
    }
}

/// Whether the entries have no other key than one.
pub open spec fn has_no_other(entries: Seq<(Seq<char>, TomlView)>, key: Seq<char>) -> bool {
    forall|i: int| 0 <= i < entries.len() ==> (#[trigger] entries[i]).0 == key
}

/// Whether a config has MCP servers, in either form.
pub open spec fn has_mcp_servers(tree: TomlView) -> bool {
    ||| tree.get("mcp_servers"@) is Some
    ||| tree.get("mcp"@) matches Some(mcp) && mcp.get("servers"@) is Some
}

/// The changes that take the MCP servers out of a config; `None` where it has none.
pub fn plan_strip_mcp(tree: &Toml) -> (r: Option<Vec<TomlEdit>>)
    ensures
        match r {
            Some(edits) => has_mcp_servers(tree@) && toml_doc::edits_view(edits@) == mcp_edits(
                tree@,
            ),
            None => !has_mcp_servers(tree@),
        },
{
    let mut changed = tree.get("mcp_servers").is_some();
    let mut edits: Vec<TomlEdit> = Vec::new();
    edits.push(TomlEdit::Remove { path: root_path(), key: "mcp_servers".to_owned() });
    if let Some(mcp) = tree.get("mcp") {
        if mcp.get("servers").is_some() {
            changed = true;
        }
        if let Some(entries) = mcp.entries() {
            edits.push(TomlEdit::Remove { path: path1("mcp"), key: "servers".to_owned() });
            let mut alone = true;
            let mut i: usize = 0;
            let ghost views = toml_doc::entries_view(entries@);
            proof {
                toml_doc::lemma_entries_view(entries@);
            }
            while i < entries.len()
                invariant
                    i <= entries@.len(),
                    views.len() == entries@.len(),
                    forall|j: int|
                        0 <= j < views.len() ==> (#[trigger] views[j]).0 == entries@[j].0@,
                    alone == forall|j: int| 0 <= j < i ==> (#[trigger] views[j]).0 == "servers"@,
                decreases entries@.len() - i,
            {
                assert(views[i as int].0 == entries@[i as int].0@);
                if !str_eq(entries[i].0.as_str(), "servers") {
                    alone = false;
                }
                i += 1;
            }
            assert(alone == has_no_other(views, "servers"@));
            if alone {
                edits.push(TomlEdit::Remove { path: root_path(), key: "mcp".to_owned() });
            }
        }
    }
    assert(toml_doc::edits_view(edits@) =~= mcp_edits(tree@));
    if changed {
        Some(edits)
    } else {
        None
    }
}

/// The config of settings without its MCP servers; one that has none as it is.
pub open spec fn without_mcp(config: Seq<char>) -> Result<Seq<char>, ErrorView> {
    if !text::occurs(config, "mcp"@) {
        Ok(config)
    } else {
        match toml_doc::toml_tree(config) {
            None => Err(toml_doc::invalid_config(config)),
            Some(tree) => if has_mcp_servers(tree) {
                Ok(toml_doc::toml_printed(config, mcp_edits(tree)))
            } else {
                Ok(config)
            },
        }
    }
}

/// Whether a config has no MCP servers, where it is TOML.
pub open spec fn reads_no_mcp(config: Seq<char>) -> bool {
    toml_doc::toml_tree(config) matches Some(tree) ==> !has_mcp_servers(tree)
}

/// The settings of a provider without the MCP servers in its config.
pub open spec fn settings_without_mcp(settings: JsonView) -> Result<JsonView, ErrorView> {
    match settings.get_text("config"@) {
        None => Ok(settings),
        Some(config) => match without_mcp(config) {
            Ok(text) => Ok(settings.put("config"@, JsonView::Str(text))),
            Err(e) => Err(e),
        },
    }
}

/// Takes the MCP servers out of the config of settings before they are stored: they are kept
/// elsewhere and written into every live config anew.
pub fn strip_codex_mcp_servers_from_settings(settings: &mut Json) -> (r: Result<(), AppError>)
    ensures
        match settings_without_mcp(old(settings)@) {
            Ok(after) => r is Ok && final(settings)@ == after,
            Err(e) => error::unit_result(r) == Err::<(), ErrorView>(e) && final(settings)@ == old(
                settings,
            )@,
        },
        r is Ok ==> (old(settings)@.get_text("config"@) matches Some(config) ==> text::occurs(
            config,
            "mcp"@,
        ) ==> reads_no_mcp(final(settings)@.get_text("config"@)->Some_0)),
{
    let config_text = match settings.get_str("config") {
        Some(config) => config.to_owned(),
        None => {
            return Ok(());
        },
    };
    proof {
        let map = settings@->Object_0;
        assert(map.insert("config"@, JsonView::Str(config_text@)) =~= map);
    }
    if !str_contains(config_text.as_str(), "mcp") {
        return Ok(());
    }
    let doc = match parse_config(config_text.as_str()) {
        Ok(doc) => doc,
        Err(e) => {
            return Err(e);
        },
    };
    let tree = document_tree(&doc);
    match plan_strip_mcp(&tree) {
        Some(edits) => {
            let out = edited(doc, &edits);
            proof {
                match toml_doc::toml_tree(out@) {
                    Some(read) => field_laws::law_stripped_servers_are_not_read(tree@, read),
                    None => {},
                }
            }
            settings.insert("config", Json::Str(out));
        },
        None => {},
    }
    Ok(())
}

/// The live config of a provider: with its API key written into it as a bearer token.
pub open spec fn live_config(auth: JsonView, config: Seq<char>) -> Result<Seq<char>, ErrorView> {
    match auth::api_key(Some(auth), Some(config)) {
        Some(token) => config_fields::with_token(config, token),
        None => Ok(config),
    }
}

/// The live config of a provider. Its API key is kept in the stored login and goes into the live
/// config as a bearer token, so that the login file can stay as it is.
pub fn prepare_codex_provider_live_config(auth: &Json, config_text: &str) -> (r: Result<
    String,
    AppError,
>)
    ensures
        error::text_result(r) == live_config(auth@, config_text@),
        r matches Ok(out) ==> (auth::api_key(Some(auth@), Some(config_text@)) matches Some(token)
            ==> config_fields::reads_token(config_text@, out@, token)),
{
    let token = match extract_codex_auth_api_key(auth) {
        Some(token) => Some(token),
        None => extract_codex_experimental_bearer_token(config_text),
    };
    match token {
        Some(token) => set_codex_experimental_bearer_token(config_text, token.as_str()),
        None => Ok(config_text.to_owned()),
    }
}

/// The API key of a provider is the token that is found in its live config, wherever that is TOML and
/// shows the name of the token, as it does where the config had none. `out` is the live config, and
/// what is known of it is what preparing it promises.
pub proof fn law_the_api_key_is_found_in_the_live_config(
    auth: JsonView,
    config: Seq<char>,
    out: Seq<char>,
)
    requires
        toml_doc::toml_tree(config) is Some,
        auth::api_key(Some(auth), Some(config)) is Some,
        live_config(auth, config) == Ok::<Seq<char>, ErrorView>(out),
        config_fields::reads_token(config, out, auth::api_key(Some(auth), Some(config))->Some_0),
        toml_doc::toml_tree(out) is Some,
        text::occurs(out, "experimental_bearer_token"@) || toml_model::at(
            toml_doc::toml_tree(config)->Some_0,
            config_fields::token_place(toml_doc::toml_tree(config)->Some_0),
        ) is None,
    ensures
        config_fields::bearer_token(out) == auth::api_key(Some(auth), Some(config)),
        toml_model::differs_only_at(
            toml_doc::toml_tree(out)->Some_0,
            toml_doc::toml_tree(config)->Some_0,
            config_fields::token_place(toml_doc::toml_tree(config)->Some_0),
        ),
{
    match auth.get_text("OPENAI_API_KEY"@) {
        Some(t) => text::lemma_trimmed(t),
        None => {},
    }
    match toml_doc::toml_tree(config) {
        Some(tree) => match config_fields::raw_token(tree) {
            Some(t) => text::lemma_trimmed(t),
            None => {},
        },
        None => {},
    }
}

/// The settings of a stored provider with a live token lifted back into its login.
pub open spec fn restored(settings: JsonView, template: JsonView) -> Result<JsonView, ErrorView> {
    match settings.get_text("config"@) {
        None => Ok(settings),
        Some(config) => match config_fields::bearer_token(config) {
            None => Ok(settings),
            Some(token) => match config_fields::without_any_token(config) {
                Err(e) => Err(e),
                Ok(cleaned) => {
                    let login = match template.get("auth"@) {
                        Some(JsonView::Object(map)) => JsonView::Object(map),
                        _ => JsonView::empty_object(),
                    };
                    Ok(
                        settings.put("config"@, JsonView::Str(cleaned)).put(
                            "auth"@,
                            login.put("OPENAI_API_KEY"@, JsonView::Str(token)),
                        ),
                    )
                },
            },
        },
    }
}

/// Lifts a live token back into the login of the stored provider, so that generated tokens do not
/// stay in stored configs. Without a token nothing changes.
pub fn restore_codex_provider_token_for_backfill(
    settings: &mut Json,
    template_settings: &Json,
) -> (r: Result<(), AppError>)
    ensures
        match restored(old(settings)@, template_settings@) {
            Ok(after) => r is Ok && final(settings)@ == after,
            Err(e) => error::unit_result(r) == Err::<(), ErrorView>(e) && final(settings)@ == old(
                settings,
            )@,
        },
{
    let config_text = match settings.get_str("config") {
        Some(config) => config.to_owned(),
        None => {
            return Ok(());
        },
    };
    let token = match extract_codex_experimental_bearer_token(config_text.as_str()) {
        Some(token) => token,
        None => {
            return Ok(());
        },
    };
    let cleaned = match remove_codex_experimental_bearer_token(config_text.as_str()) {
        Ok(cleaned) => cleaned,
        Err(e) => {
            return Err(e);
        },
    };
    settings.insert("config", Json::Str(cleaned));
    let mut login = match template_settings.get("auth") {
        Some(auth) => if auth.is_object() {
            auth.clone()
        } else {
            Json::object()
        },
        None => Json::object(),
    };
    login.insert("OPENAI_API_KEY", Json::Str(token));
    settings.insert("auth", login);
    Ok(())
}

/// Lifts a live token back into the login of the stored provider, where that is wanted.
pub fn restore_codex_settings_for_backfill(
    settings: &mut Json,
    template_settings: &Json,
    restore_provider_token: bool,
) -> (r: Result<(), AppError>)
    ensures
        if restore_provider_token {
            match restored(old(settings)@, template_settings@) {
                Ok(after) => r is Ok && final(settings)@ == after,
                Err(e) => error::unit_result(r) == Err::<(), ErrorView>(e) && final(settings)@
                    == old(settings)@,
            }
        } else {
            r is Ok && final(settings)@ == old(settings)@
        },
{
    if restore_provider_token {
        restore_codex_provider_token_for_backfill(settings, template_settings)
    } else {
        Ok(())
    }
}

/// What a switch to a provider writes.
#[derive(Debug)]
pub enum LiveWrite {
    /// The login file and the config, through [`write_codex_live_atomic`].
    AuthAndConfig(Option<String>),
    /// The config alone, through [`write_codex_live_config_atomic`].
    ConfigOnly(String),
}

/// What a [`LiveWrite`] stands for.
pub enum LiveWriteView {
    AuthAndConfig(Option<Seq<char>>),
    ConfigOnly(Seq<char>),
}

impl LiveWrite {
    pub open spec fn view(&self) -> LiveWriteView {
        match self {
            LiveWrite::AuthAndConfig(config) => LiveWriteView::AuthAndConfig(
                text::text_of(*config),
            ),
            LiveWrite::ConfigOnly(config) => LiveWriteView::ConfigOnly(config@),
        }
    }
}

/// Whether a switch writes the login file: for an official provider that has a login of its own,
/// and for a third-party one unless the official login is to be kept.
pub open spec fn writes_auth(official: bool, auth: JsonView, keep_official_auth: bool) -> bool {
    if official {
        auth::has_login(auth)
    } else {
        !keep_official_auth
    }
}

/// What a switch to a provider writes, of a config that was moved to the shared id where that is
/// wanted.
pub open spec fn live_write(
    official: bool,
    auth: JsonView,
    config: Option<Seq<char>>,
    keep_official_auth: bool,
) -> Result<LiveWriteView, ErrorView> {
    if writes_auth(official, auth, keep_official_auth) {
        Ok(LiveWriteView::AuthAndConfig(config))
    } else {
        let config = match config {
            Some(config) => config,
            None => Seq::empty(),
        };
        match live_config(auth, config) {
            Ok(text) => Ok(LiveWriteView::ConfigOnly(text)),
            Err(e) => Err(e),
        }
    }
}

/// The config of a switch: an official provider's is moved to the shared id, where one history is
/// wanted.
pub open spec fn moved_config(
    official: bool,
    config: Option<Seq<char>>,
    unify_session_history: bool,
) -> Result<Option<Seq<char>>, ErrorView> {
    if official && unify_session_history {
        match unified_session::injected(
            match config {
                Some(config) => config,
                None => Seq::empty(),
            },
        ) {
            Ok(text) => Ok(Some(text)),
            Err(e) => Err(e),
        }
    } else {
        Ok(config)
    }
}

/// What a switch to a provider writes.
pub open spec fn provider_write(
    category: Option<Seq<char>>,
    auth: JsonView,
    config: Option<Seq<char>>,
    unify_session_history: bool,
    keep_official_auth: bool,
) -> Result<LiveWriteView, ErrorView> {
    let official = category == Some("official"@);
    match moved_config(official, config, unify_session_history) {
        Err(e) => Err(e),
        Ok(config) => live_write(official, auth, config, keep_official_auth),
    }
}

/// What a result of a switch stands for.
pub open spec fn provider_write_result(r: Result<LiveWrite, AppError>) -> Result<
    LiveWriteView,
    ErrorView,
> {
    match r {
        Ok(done) => Ok(done@),
        Err(e) => Err(e@),
    }
}

/// What a switch to a provider writes. An official provider is moved to the shared id first, where
/// one history is wanted.
pub fn write_codex_live_for_provider(
    category: Option<&str>,
    auth: &Json,
    config_text: Option<&str>,
    unify_session_history: bool,
    keep_official_auth: bool,
) -> (r: Result<LiveWrite, AppError>)
    ensures
        provider_write_result(r) == provider_write(
            text::slice_text(category),
            auth@,
            text::slice_text(config_text),
            unify_session_history,
            keep_official_auth,
        ),
{
    let is_official = match category {
        Some(category) => str_eq(category, "official"),
        None => false,
    };
    let mut config: Option<String> = match config_text {
        Some(config_text) => Some(config_text.to_owned()),
        None => None,
    };
    if is_official && unify_session_history {
        let before = match &config {
            Some(config) => config.clone(),
            None => String::new(),
        };
        assert(config is None ==> before@ =~= Seq::<char>::empty());
        match inject_codex_unified_session_bucket(before.as_str()) {
            Ok(injected) => {
                config = Some(injected);
            },
            Err(e) => {
                return Err(e);
            },
        }
    }
    let with_auth = if is_official {
        codex_auth_has_login_material(auth)
    } else {
        !keep_official_auth
    };
    if with_auth {
        return Ok(LiveWrite::AuthAndConfig(config));
    }
    let text = match config {
        Some(config) => config,
        None => String::new(),
    };
    assert(config is None ==> text@ =~= Seq::<char>::empty());
    match prepare_codex_provider_live_config(auth, text.as_str()) {
        Ok(live) => Ok(LiveWrite::ConfigOnly(live)),
        Err(e) => Err(e),
    }
}

} // verus!
