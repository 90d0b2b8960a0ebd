//! The official provider behind the local proxy, and under the shared
//! provider id that all conversations can have in common.
//!
//! Both are written into `config.toml` in a form that is recognised again, so
//! that it can be taken out without touching what the user has set up.

use crate::error::{AppError, ErrorView};
use crate::text::{str_eq, without_trailing_slashes};
use crate::toml_doc::{
    document_tree, edited, parse_config, parse_document, path1, path2, root_path, try_edited, EditView,
    Toml, TomlEdit, TomlView,
};
use crate::{error, route_laws, text, toml_doc, toml_model};
use vstd::prelude::*;
use vstd::string::*;

verus! {

/// The provider id that third-party providers run under.
pub const CC_SWITCH_CODEX_MODEL_PROVIDER_ID: &'static str = "custom";

/// The provider id of the official provider while it is routed through the local proxy. A
/// provider of the user's own on a local address cannot be mistaken for it.
pub const CC_SWITCH_CODEX_OFFICIAL_PROXY_PROVIDER_ID: &'static str = "cc-switch-official";

/// The token that stands in config files for credentials that the proxy holds.
pub const CODEX_PROXY_AUTH_PLACEHOLDER: &'static str = "PROXY_MANAGED";

/// The path to a provider's table.
pub open spec fn provider_path(id: Seq<char>) -> Seq<Seq<char>> {
    seq!["model_providers"@, id]
}

/// The table of a provider. It and the table of providers may be in braces.
pub open spec fn provider_table(tree: TomlView, id: Seq<char>) -> Option<TomlView> {
    match tree.get("model_providers"@) {
        Some(providers) => match providers.get(id) {
            Some(table) => if table.is_table_like() {
                Some(table)
            } else {
                None
            },
            None => None,
        },
        None => None,
    }
}

/// The table of a provider, where neither it nor the table of providers is in braces.
pub open spec fn open_table(tree: TomlView, id: Seq<char>) -> Option<TomlView> {
    match tree.get("model_providers"@) {
        Some(providers) => if providers is Table {
            match providers.get(id) {
                Some(table) => if table is Table {
                    Some(table)
                } else {
                    None
                },
                None => None,
            }
        } else {
            None
        },
        None => None,
    }
}

/// Whether a table has the form of the official provider behind the proxy.
pub open spec fn matches_route(table: TomlView) -> bool {
    &&& table.get_text("name"@) == Some("OpenAI"@)
    &&& table.get_text("wire_api"@) == Some("responses"@)
    &&& table.get_text("base_url"@) matches Some(url) && !text::is_blank(url)
    &&& table.get_bool("supports_websockets"@) == Some(false)
}

/// Whether a table has exactly the entries of the official provider under the shared id.
pub open spec fn matches_unified(table: TomlView) -> bool {
    &&& table.entries() matches Some(entries) && entries.len() == 4
    &&& table.get_text("name"@) == Some("OpenAI"@)
    &&& table.get_bool("requires_openai_auth"@) == Some(true)
    &&& table.get_bool("supports_websockets"@) == Some(true)
    &&& table.get_text("wire_api"@) == Some("responses"@)
}

/// Whether a config runs the official provider through the proxy.
pub open spec fn has_route(tree: TomlView) -> bool {
    match tree.get_text("model_provider"@) {
        Some(id) => {
            &&& id == CC_SWITCH_CODEX_OFFICIAL_PROXY_PROVIDER_ID@ || id
                == CC_SWITCH_CODEX_MODEL_PROVIDER_ID@
            &&& open_table(tree, id) matches Some(table) && matches_route(table)
        },
        None => false,
    }
}

/// The changes that write the official provider's table under `id`.
pub open spec fn official_table_edits(
    id: Seq<char>,
    base_url: Option<Seq<char>>,
    websockets: bool,
    openai_auth: bool,
) -> Seq<EditView> {
    let path = provider_path(id);
    let fields = seq![
        EditView::InsertTable { path: seq!["model_providers"@], key: id },
        EditView::AssignStr { path, key: "name"@, value: "OpenAI"@ },
        EditView::AssignBool { path, key: "requires_openai_auth"@, on: openai_auth },
        EditView::AssignBool { path, key: "supports_websockets"@, on: websockets },
        EditView::AssignStr { path, key: "wire_api"@, value: "responses"@ },
    ];
    match base_url {
        Some(url) => fields.push(
            EditView::AssignStr { path, key: "base_url"@, value: text::trim_slashes(url) },
        ),
        None => fields,
    }
}

/// Whether a provider's table carries the proxy's placeholder token.
pub open spec fn has_placeholder(item: TomlView) -> bool {
    item.get_text("experimental_bearer_token"@) == Some(CODEX_PROXY_AUTH_PLACEHOLDER@)
}

/// The changes that take the placeholder token out of every provider but `skip`.
pub open spec fn placeholder_edits(
    providers: Seq<(Seq<char>, TomlView)>,
    skip: Option<Seq<char>>,
) -> Seq<EditView>
    decreases providers.len(),
{
    if providers.len() == 0 {
        Seq::empty()
    } else {
        let front = placeholder_edits(providers.drop_last(), skip);
        let (id, item) = providers.last();
        if skip != Some(id) && has_placeholder(item) {
            front.push(
                EditView::Remove { path: provider_path(id), key: "experimental_bearer_token"@ },
            )
        } else {
            front
        }
    }
}

/// The error for a table of providers that is no table.
pub open spec fn providers_error() -> ErrorView {
    ErrorView::Message("Invalid Codex config.toml: model_providers must be a table"@)
}

/// Whether the table of providers is there and is no table.
pub open spec fn providers_broken(tree: TomlView) -> bool {
    tree.get("model_providers"@) matches Some(item) && !item.is_table_like()
}

/// The first changes that route the official provider through the proxy.
pub open spec fn route_head() -> Seq<EditView> {
    seq![
        EditView::Remove { path: toml_doc::root(), key: "experimental_bearer_token"@ },
        EditView::AssignStr {
            path: toml_doc::root(),
            key: "model_provider"@,
            value: CC_SWITCH_CODEX_OFFICIAL_PROXY_PROVIDER_ID@,
        },
        EditView::Retable { key: "model_providers"@ },
    ]
}

/// The changes that route the official provider through the proxy.
pub open spec fn route_edits(
    tree: TomlView,
    base_url: Seq<char>,
    openai_auth: bool,
) -> Seq<EditView> {
    let cleaned = route_head() + placeholder_edits(
        toml_model::moved_entries(tree.get("model_providers"@)),
        None,
    );
    let routed = cleaned + official_table_edits(
        CC_SWITCH_CODEX_OFFICIAL_PROXY_PROVIDER_ID@,
        Some(base_url),
        false,
        openai_auth,
    );
    if openai_auth {
        routed
    } else {
        routed.push(
            EditView::AssignStr {
                path: provider_path(CC_SWITCH_CODEX_OFFICIAL_PROXY_PROVIDER_ID@),
                key: "experimental_bearer_token"@,
                value: CODEX_PROXY_AUTH_PLACEHOLDER@,
            },
        )
    }
}

/// A config with the official provider routed through the proxy.
pub open spec fn routed(config: Seq<char>, base_url: Seq<char>, openai_auth: bool) -> Result<
    Seq<char>,
    ErrorView,
> {
    match toml_doc::toml_tree(config) {
        None => Err(toml_doc::invalid_config(config)),
        Some(tree) => if providers_broken(tree) {
            Err(providers_error())
        } else {
            toml_doc::written(config, route_edits(tree, base_url, openai_auth))
        },
    }
}

/// Whether the active route is the proxy's own, under its own id or under the shared one.
pub open spec fn owns_route(tree: TomlView) -> bool {
    let id = tree.get_text("model_provider"@);
    ||| id == Some(CC_SWITCH_CODEX_OFFICIAL_PROXY_PROVIDER_ID@)
    ||| id == Some(CC_SWITCH_CODEX_MODEL_PROVIDER_ID@) && (open_table(
        tree,
        CC_SWITCH_CODEX_MODEL_PROVIDER_ID@,
    ) matches Some(table) && matches_route(table))
}

/// Whether the providers are no others than `id`.
pub open spec fn only_provider(providers: Seq<(Seq<char>, TomlView)>, id: Seq<char>) -> bool {
    forall|i: int| 0 <= i < providers.len() ==> (#[trigger] providers[i]).0 == id
}

/// The first changes that take the proxy's own route out, where there are providers.
pub open spec fn unroute_head(id: Seq<char>) -> Seq<EditView> {
    seq![
        EditView::Remove { path: toml_doc::root(), key: "model_provider"@ },
        EditView::Retable { key: "model_providers"@ },
        EditView::Remove { path: seq!["model_providers"@], key: id },
    ]
}

/// The changes that take the proxy's own route out.
pub open spec fn unroute_edits(tree: TomlView) -> Seq<EditView> {
    match tree.get("model_providers"@) {
        None => seq![EditView::Remove { path: toml_doc::root(), key: "model_provider"@ }],
        Some(item) => {
            let providers = toml_model::moved_entries(Some(item));
            let id = tree.get_text("model_provider"@)->Some_0;
            let cleaned = unroute_head(id) + placeholder_edits(providers, Some(id));
            if only_provider(providers, id) {
                cleaned.push(
                    EditView::Remove { path: toml_doc::root(), key: "model_providers"@ },
                )
            } else {
                cleaned
            }
        },
    }
}

/// A config without the proxy's own route; any other config as it is.
pub open spec fn unrouted(config: Seq<char>) -> Result<Seq<char>, ErrorView> {
    match toml_doc::toml_tree(config) {
        None => Err(toml_doc::invalid_config(config)),
        Some(tree) => if !owns_route(tree) {
            Ok(config)
        } else if providers_broken(tree) {
            Err(providers_error())
        } else {
            Ok(toml_doc::toml_printed(config, unroute_edits(tree)))
        },
    }
}

/// The table of a provider. It and the table of providers may be in braces.
pub fn find_provider_table<'a>(tree: &'a Toml, id: &str) -> (r: Option<&'a Toml>)
    ensures
        toml_doc::ref_view(r) == provider_table(tree@, id@),
{
    match tree.get("model_providers") {
        Some(providers) => match providers.get(id) {
            Some(table) => if table.is_table_like() {
                Some(table)
            } else {
                None
            },
            None => None,
        },
        None => None,
    }
}

/// The table of a provider, where neither it nor the table of providers is in braces.
pub fn find_open_table<'a>(tree: &'a Toml, id: &str) -> (r: Option<&'a Toml>)
    ensures
        toml_doc::ref_view(r) == open_table(tree@, id@),
{
    let providers = match tree.get("model_providers") {
        Some(providers) => providers,
        None => {
            return None;
        },
    };
    if let Toml::Table(_) = providers {
        if let Some(table) = providers.get(id) {
            if let Toml::Table(_) = table {
                return Some(table);
            }
        }
    }
    None
}

/// Whether a table has the form of the official provider behind the proxy.
pub fn table_matches_codex_official_proxy_route(table: &Toml) -> (r: bool)
    ensures
        r == matches_route(table@),
{
    let named = match table.get_str("name") {
        Some(name) => str_eq(name, "OpenAI"),
        None => false,
    };
    let wired = match table.get_str("wire_api") {
        Some(wire_api) => str_eq(wire_api, "responses"),
        None => false,
    };
    let addressed = match table.get_str("base_url") {
        Some(url) => !url.trim().is_empty(),
        None => false,
    };
    let without_websockets = match table.get_bool("supports_websockets") {
        Some(on) => !on,
        None => false,
    };
    named && wired && addressed && without_websockets
}

/// Whether a table has exactly the entries of the official provider under the shared id.
pub fn table_matches_codex_unified_official_provider(table: &Toml) -> (r: bool)
    ensures
        r == matches_unified(table@),
{
    let four = match table.entries() {
        Some(entries) => {
            proof {
                toml_doc::lemma_entries_view(entries@);
            }
            entries.len() == 4
        },
        None => false,
    };
    let named = match table.get_str("name") {
        Some(name) => str_eq(name, "OpenAI"),
        None => false,
    };
    let authenticated = match table.get_bool("requires_openai_auth") {
        Some(on) => on,
        None => false,
    };
    let websockets = match table.get_bool("supports_websockets") {
        Some(on) => on,
        None => false,
    };
    let wired = match table.get_str("wire_api") {
        Some(wire_api) => str_eq(wire_api, "responses"),
        None => false,
    };
    four && named && authenticated && websockets && wired
}

/// Whether a config tree runs the official provider through the proxy.
pub fn tree_has_official_proxy_route(tree: &Toml) -> (r: bool)
    ensures
        r == has_route(tree@),
{
    match tree.get_str("model_provider") {
        Some(id) => {
            if !str_eq(id, CC_SWITCH_CODEX_OFFICIAL_PROXY_PROVIDER_ID) && !str_eq(
                id,
                CC_SWITCH_CODEX_MODEL_PROVIDER_ID,
            ) {
                return false;
            }
            match find_open_table(tree, id) {
                Some(table) => table_matches_codex_official_proxy_route(table),
                None => false,
            }
        },
        None => false,
    }
}

/// Whether a live config runs the official provider through the proxy. Under the shared id it
/// does so too: the route keeps its form there.
pub fn codex_config_has_official_proxy_route(config_text: &str) -> (r: bool)
    ensures
        r == match toml_doc::toml_tree(config_text@) {
            Some(tree) => has_route(tree),
            None => false,
        },
{
    match parse_document(config_text) {
        Ok(doc) => tree_has_official_proxy_route(&document_tree(&doc)),
        Err(_) => false,
    }
}

/// Appends the changes that write the official provider's table under `id`.
pub(crate) fn push_official_table(
    edits: &mut Vec<TomlEdit>,
    id: &str,
    base_url: Option<&str>,
    websockets: bool,
    openai_auth: bool,
)
    ensures
        toml_doc::edits_view(final(edits)@) == toml_doc::edits_view(old(edits)@)
            + official_table_edits(id@, text::slice_text(base_url), websockets, openai_auth),
{
    let ghost start = toml_doc::edits_view(edits@);
    edits.push(TomlEdit::InsertTable { path: path1("model_providers"), key: id.to_owned() });
    edits.push(
        TomlEdit::AssignStr {
            path: path2("model_providers", id),
            key: "name".to_owned(),
            value: "OpenAI".to_owned(),
        },
    );
    edits.push(
        TomlEdit::AssignBool {
            path: path2("model_providers", id),
            key: "requires_openai_auth".to_owned(),
            on: openai_auth,
        },
    );
    edits.push(
        TomlEdit::AssignBool {
            path: path2("model_providers", id),
            key: "supports_websockets".to_owned(),
            on: websockets,
        },
    );
    edits.push(
        TomlEdit::AssignStr {
            path: path2("model_providers", id),
            key: "wire_api".to_owned(),
            value: "responses".to_owned(),
        },
    );
    if let Some(url) = base_url {
        edits.push(
            TomlEdit::AssignStr {
                path: path2("model_providers", id),
                key: "base_url".to_owned(),
                value: without_trailing_slashes(url),
            },
        );
    }
    assert(toml_doc::edits_view(edits@) =~= start + official_table_edits(
        id@,
        text::slice_text(base_url),
        websockets,
        openai_auth,
    ));
}

/// Appends the changes that take the placeholder token out of every provider but `skip`.
fn push_placeholder_removals(
    edits: &mut Vec<TomlEdit>,
    providers: &Vec<(String, Toml)>,
    skip: Option<&str>,
)
    ensures
        toml_doc::edits_view(final(edits)@) == toml_doc::edits_view(old(edits)@)
            + placeholder_edits(toml_doc::entries_view(providers@), text::slice_text(skip)),
{
    let ghost start = toml_doc::edits_view(edits@);
    let ghost views = toml_doc::entries_view(providers@);
    let ghost skipped = text::slice_text(skip);
    let mut i: usize = 0;
    assert(start + placeholder_edits(views.take(0), skipped) =~= start);
    while i < providers.len()
        invariant
            i <= providers@.len(),
            views == toml_doc::entries_view(providers@),
            skipped == text::slice_text(skip),
            toml_doc::edits_view(edits@) == start + placeholder_edits(
                views.take(i as int),
                skipped,
            ),
        decreases providers@.len() - i,
    {
        proof {
            toml_doc::lemma_entries_view(providers@);
            assert(views.take(i + 1).drop_last() =~= views.take(i as int));
            assert(views.take(i + 1).last() == views[i as int]);
        }
        let ghost before = toml_doc::edits_view(edits@);
        let id = providers[i].0.as_str();
        let skipping = match skip {
            Some(skip) => str_eq(skip, id),
            None => false,
        };
        let marked = match providers[i].1.get_str("experimental_bearer_token") {
            Some(token) => str_eq(token, CODEX_PROXY_AUTH_PLACEHOLDER),
            None => false,
        };
        if !skipping && marked {
            edits.push(
                TomlEdit::Remove {
                    path: path2("model_providers", id),
                    key: "experimental_bearer_token".to_owned(),
                },
            );
            assert(toml_doc::edits_view(edits@) =~= before.push(edits@.last()@));
        }
        i += 1;
        assert(toml_doc::edits_view(edits@) =~= start + placeholder_edits(
            views.take(i as int),
            skipped,
        ));
    }
    proof {
        toml_doc::lemma_entries_view(providers@);
        assert(views.take(i as int) =~= views);
    }
}

/// Whether the providers are no others than `id`.
pub(crate) fn has_only_provider(tree: &Toml, id: &str) -> (r: bool)
    ensures
        r == only_provider(toml_model::moved_entries(tree@.get("model_providers"@)), id@),
{
    let providers = match tree.get("model_providers") {
        Some(item) => match item.entries() {
            Some(providers) => providers,
            None => {
                return true;
            },
        },
        None => {
            return true;
        },
    };
    proof {
        toml_doc::lemma_entries_view(providers@);
    }
    let ghost views = toml_doc::entries_view(providers@);
    let mut i: usize = 0;
    while i < providers.len()
        invariant
            i <= providers@.len(),
            views.len() == providers@.len(),
            views == toml_model::moved_entries(tree@.get("model_providers"@)),
            forall|j: int| 0 <= j < views.len() ==> (#[trigger] views[j]).0 == providers@[j].0@,
            forall|j: int| 0 <= j < i ==> (#[trigger] views[j]).0 == id@,
        decreases providers@.len() - i,
    {
        assert(views[i as int].0 == providers@[i as int].0@);
        if !str_eq(providers[i].0.as_str(), id) {
            return false;
        }
        i += 1;
    }
    true
}

/// The error for a table of providers that is no table.
fn broken_providers() -> (r: AppError)
    ensures
        r@ == providers_error(),
{
    AppError::Message("Invalid Codex config.toml: model_providers must be a table".to_owned())
}

/// The changes that route the official provider through the proxy.
pub fn plan_official_proxy_route(
    tree: &Toml,
    proxy_base_url: &str,
    requires_openai_auth: bool,
) -> (r: Result<Vec<TomlEdit>, AppError>)
    ensures
        match r {
            Ok(edits) => !providers_broken(tree@) && toml_doc::edits_view(edits@) == route_edits(
                tree@,
                proxy_base_url@,
                requires_openai_auth,
            ),
            Err(e) => providers_broken(tree@) && e@ == providers_error(),
        },
{
    let mut edits: Vec<TomlEdit> = Vec::new();
    edits.push(
        TomlEdit::Remove { path: root_path(), key: "experimental_bearer_token".to_owned() },
    );
    edits.push(
        TomlEdit::AssignStr {
            path: root_path(),
            key: "model_provider".to_owned(),
            value: CC_SWITCH_CODEX_OFFICIAL_PROXY_PROVIDER_ID.to_owned(),
        },
    );
    edits.push(TomlEdit::Retable { key: "model_providers".to_owned() });
    assert(toml_doc::edits_view(edits@) =~= route_head());
    match tree.get("model_providers") {
        Some(item) => match item.entries() {
            Some(providers) => {
                push_placeholder_removals(&mut edits, providers, None);
            },
            None => {
                return Err(broken_providers());
            },
        },
        None => {},
    }
    let ghost cleaned = toml_doc::edits_view(edits@);
    assert(cleaned =~= route_head() + placeholder_edits(
        toml_model::moved_entries(tree@.get("model_providers"@)),
        None,
    ));
    push_official_table(
        &mut edits,
        CC_SWITCH_CODEX_OFFICIAL_PROXY_PROVIDER_ID,
        Some(proxy_base_url),
        false,
        requires_openai_auth,
    );
    if !requires_openai_auth {
        broadcast use toml_doc::lemma_edits_push;

        edits.push(
            TomlEdit::AssignStr {
                path: path2("model_providers", CC_SWITCH_CODEX_OFFICIAL_PROXY_PROVIDER_ID),
                key: "experimental_bearer_token".to_owned(),
                value: CODEX_PROXY_AUTH_PLACEHOLDER.to_owned(),
            },
        );
    }
    assert(toml_doc::edits_view(edits@) =~= route_edits(
        tree@,
        proxy_base_url@,
        requires_openai_auth,
    ));
    Ok(edits)
}

/// Whether a config in which a route was written has it, where it is TOML again and something is
/// left of the proxy's address without its trailing slashes.
pub open spec fn reads_route(out: Seq<char>, base_url: Seq<char>) -> bool {
    toml_doc::toml_tree(out) matches Some(read) ==> !text::is_blank(text::trim_slashes(base_url))
        ==> has_route(read)
}

/// Whether a config whose own route was taken out has none, where it is TOML again.
pub open spec fn loses_route(config: Seq<char>, out: Seq<char>) -> bool {
    toml_doc::toml_tree(config) matches Some(tree) ==> owns_route(tree) ==> {
        &&& toml_doc::holds(config, unroute_edits(tree))
        &&& (toml_doc::toml_tree(out) matches Some(read) ==> !has_route(read))
    }
}

/// A config with the official provider routed through the proxy. With `requires_openai_auth` off,
/// a placeholder token stands in for the login that Codex would otherwise ask for.
pub fn apply_codex_official_proxy_route_with_auth(
    config_text: &str,
    proxy_base_url: &str,
    requires_openai_auth: bool,
) -> (r: Result<String, AppError>)
    ensures
        error::text_result(r) == routed(config_text@, proxy_base_url@, requires_openai_auth),
        r is Ok ==> toml_doc::holds(
            config_text@,
            route_edits(
                toml_doc::toml_tree(config_text@)->Some_0,
                proxy_base_url@,
                requires_openai_auth,
            ),
        ),
        r matches Ok(out) ==> reads_route(out@, proxy_base_url@),
{
    let doc = match parse_config(config_text) {
        Ok(doc) => doc,
        Err(e) => {
            return Err(e);
        },
    };
    let tree = document_tree(&doc);
    match plan_official_proxy_route(&tree, proxy_base_url, requires_openai_auth) {
        Ok(edits) => {
            let out = match try_edited(doc, &edits) {
                Ok(out) => out,
                Err(e) => {
                    return Err(e);
                },
            };
            proof {
                match toml_doc::toml_tree(out@) {
                    Some(read) => {
                        if !text::is_blank(text::trim_slashes(proxy_base_url@)) {
                            route_laws::law_applied_route_is_recognised(
                                tree@,
                                proxy_base_url@,
                                requires_openai_auth,
                                read,
                            );
                        }
                    },
                    None => {},
                }
            }
            Ok(out)
        },
        Err(e) => Err(e),
    }
}

/// A config with the official provider routed through the proxy, with the login that Codex itself
/// holds.
pub fn apply_codex_official_proxy_route(config_text: &str, proxy_base_url: &str) -> (r: Result<
    String,
    AppError,
>)
    ensures
        error::text_result(r) == routed(config_text@, proxy_base_url@, true),
        r matches Ok(out) ==> reads_route(out@, proxy_base_url@),
{
    apply_codex_official_proxy_route_with_auth(config_text, proxy_base_url, true)
}

/// The changes that take the proxy's own route out; `None` where the route is not its own.
pub fn plan_remove_official_proxy_route(tree: &Toml) -> (r: Result<Option<Vec<TomlEdit>>, AppError>)
    ensures
        match r {
            Ok(None) => !owns_route(tree@),
            Ok(Some(edits)) => owns_route(tree@) && !providers_broken(tree@)
                && toml_doc::edits_view(edits@) == unroute_edits(tree@),
            Err(e) => owns_route(tree@) && providers_broken(tree@) && e@ == providers_error(),
        },
{
    let id = match tree.get_str("model_provider") {
        Some(id) => id,
        None => {
            return Ok(None);
        },
    };
    if !str_eq(id, CC_SWITCH_CODEX_OFFICIAL_PROXY_PROVIDER_ID) {
        if !str_eq(id, CC_SWITCH_CODEX_MODEL_PROVIDER_ID) {
            return Ok(None);
        }
        match find_open_table(tree, CC_SWITCH_CODEX_MODEL_PROVIDER_ID) {
            Some(table) => {
                if !table_matches_codex_official_proxy_route(table) {
                    return Ok(None);
                }
            },
            None => {
                return Ok(None);
            },
        }
    }
    let mut edits: Vec<TomlEdit> = Vec::new();
    edits.push(TomlEdit::Remove { path: root_path(), key: "model_provider".to_owned() });
    match tree.get("model_providers") {
        Some(item) => match item.entries() {
            Some(providers) => {
                edits.push(TomlEdit::Retable { key: "model_providers".to_owned() });
                edits.push(
                    TomlEdit::Remove { path: path1("model_providers"), key: id.to_owned() },
                );
                assert(toml_doc::edits_view(edits@) =~= unroute_head(id@));
                push_placeholder_removals(&mut edits, providers, Some(id));
                let alone = has_only_provider(tree, id);
                if alone {
                    broadcast use toml_doc::lemma_edits_push;

                    edits.push(
                        TomlEdit::Remove { path: root_path(), key: "model_providers".to_owned() },
                    );
                }
            },
            None => {
                return Err(broken_providers());
            },
        },
        None => {},
    }
    assert(toml_doc::edits_view(edits@) =~= unroute_edits(tree@));
    Ok(Some(edits))
}

/// Taking placeholder tokens out sets nothing.
proof fn lemma_placeholder_edits_set_nothing(
    providers: Seq<(Seq<char>, TomlView)>,
    skip: Option<Seq<char>>,
)
    ensures
        toml_doc::are_writable(placeholder_edits(providers, skip)),
    decreases providers.len(),
{
    if providers.len() > 0 {
        lemma_placeholder_edits_set_nothing(providers.drop_last(), skip);
    }
}

/// Taking a route out sets nothing.
proof fn lemma_unroute_edits_set_nothing(tree: TomlView)
    ensures
        toml_doc::are_writable(unroute_edits(tree)),
{
    lemma_placeholder_edits_set_nothing(
        toml_model::moved_entries(tree.get("model_providers"@)),
        Some(tree.get_text("model_provider"@)->Some_0),
    );
}

/// What the official provider's table is written with can be written, where it has no address.
pub proof fn lemma_official_table_is_writable(id: Seq<char>, websockets: bool, openai_auth: bool)
    ensures
        toml_doc::are_writable(official_table_edits(id, None, websockets, openai_auth)),
{
    broadcast use toml_doc::lemma_short_is_writable;

    reveal_strlit("OpenAI");
    reveal_strlit("responses");
}

/// A config without the proxy's own route. A last resort where no backup is at hand: any other
/// route, and every other provider, stays.
pub fn remove_codex_official_proxy_route(config_text: &str) -> (r: Result<String, AppError>)
    ensures
        error::text_result(r) == unrouted(config_text@),
        r matches Ok(out) ==> loses_route(config_text@, out@),
{
    let doc = match parse_config(config_text) {
        Ok(doc) => doc,
        Err(e) => {
            return Err(e);
        },
    };
    let tree = document_tree(&doc);
    match plan_remove_official_proxy_route(&tree) {
        Ok(Some(edits)) => {
            proof {
                lemma_unroute_edits_set_nothing(tree@);
            }
            let out = edited(doc, &edits);
            proof {
                match toml_doc::toml_tree(out@) {
                    Some(read) => {
                        route_laws::law_removing_the_route_leaves_the_rest(
                            tree@,
                            read,
                            seq!["model_provider"@],
                        );
                    },
                    None => {},
                }
            }
            Ok(out)
        },
        Ok(None) => Ok(config_text.to_owned()),
        Err(e) => Err(e),
    }
}

} // verus!
