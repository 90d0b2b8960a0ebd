//! What is read from a config, and what a change to it leaves alone.

use crate::error::ErrorView;
use crate::toml_doc::{EditView, TomlView};
use crate::{
    config_fields, config_merge, live_config, official_route, text, toml_doc, toml_model,
    toml_value, unified_session,
};
use vstd::prelude::*;
use vstd::string::*;

verus! {

/// Whether a value is a string that has more than white space in it.
pub open spec fn is_filled(value: Option<TomlView>) -> bool {
    value matches Some(TomlView::Str(t)) && !text::is_blank(t)
}

/// A provider is one of Codex's own exactly where its id, without the white space around it and
/// whatever its case, is one of six; a blank id is none at all.
pub proof fn law_which_providers_are_codex_own(id: Seq<char>)
    ensures
        ({
            let name = text::lower(text::trim(id));
            config_fields::is_custom_id(id) <==> {
                &&& !text::is_blank(id)
                &&& name != text::lower("amazon-bedrock"@)
                &&& name != text::lower("openai"@)
                &&& name != text::lower("ollama"@)
                &&& name != text::lower("lmstudio"@)
                &&& name != text::lower("oss"@)
                &&& name != text::lower("ollama-chat"@)
            }
        }),
{
}

/// The active provider is the one that the config names, without the white space around its id.
pub proof fn law_the_active_provider(tree: TomlView)
    ensures
        is_filled(tree.get("model_provider"@)) ==> config_fields::active_provider(tree) == Some(
            text::trim(tree.get("model_provider"@)->Some_0->Str_0),
        ),
        !is_filled(tree.get("model_provider"@)) ==> config_fields::active_provider(tree) is None,
{
}

/// Which token is read from a config: where a provider that is not one of Codex's own is active and
/// its table has a token, that one; else the one at the top level. A blank one is none.
pub proof fn law_which_token_is_read(tree: TomlView, id: Seq<char>, table: TomlView)
    ensures
        config_fields::active_provider(tree) == Some(id) && config_fields::is_custom_id(id)
            && official_route::open_table(tree, id) == Some(table) && is_filled(
            table.get("experimental_bearer_token"@),
        ) ==> config_fields::token_of(tree) == Some(
            text::trim(table.get("experimental_bearer_token"@)->Some_0->Str_0),
        ),
        (config_fields::active_provider(tree) is None || config_fields::active_provider(tree)
            == Some(id) && (!config_fields::is_custom_id(id) || official_route::open_table(tree, id)
            is None || official_route::open_table(tree, id) == Some(table) && table.get(
            "experimental_bearer_token"@,
        ) is None)) ==> {
            &&& is_filled(tree.get("experimental_bearer_token"@)) ==> config_fields::token_of(tree)
                == Some(text::trim(tree.get("experimental_bearer_token"@)->Some_0->Str_0))
            &&& !is_filled(tree.get("experimental_bearer_token"@)) ==> config_fields::token_of(tree)
                is None
        },
{
}

/// The table of a provider is the one under its id, where neither it nor what it is in stands in
/// braces; in braces or not, it is found for its address.
pub proof fn law_the_table_of_a_provider(tree: TomlView, id: Seq<char>)
    ensures
        official_route::open_table(tree, id) is Some <==> (tree.get("model_providers"@) matches Some(
            providers,
        ) && providers is Table && (providers.get(id) matches Some(table) && table is Table)),
        official_route::provider_table(tree, id) is Some <==> (tree.get("model_providers"@) matches Some(
            providers,
        ) && (providers.get(id) matches Some(table) && table.is_table_like())),
        official_route::open_table(tree, id) matches Some(table) ==> tree.get(
            "model_providers"@,
        )->Some_0.get(id) == Some(table),
        official_route::provider_table(tree, id) matches Some(table) ==> tree.get(
            "model_providers"@,
        )->Some_0.get(id) == Some(table),
{
}

/// A config runs the official provider through the proxy exactly where its active provider is one of
/// two, and the table of it has the official name, the responses API, an address that is not blank,
/// and no websockets.
pub proof fn law_what_the_route_is(tree: TomlView)
    ensures
        official_route::has_route(tree) <==> exists|id: Seq<char>| #[trigger]
            is_route_under(tree, id),
{
    if official_route::has_route(tree) {
        assert(is_route_under(tree, tree.get_text("model_provider"@)->Some_0));
    }
}

/// Whether the proxy's route stands under an id that is the active one.
pub open spec fn is_route_under(tree: TomlView, id: Seq<char>) -> bool {
    &&& id == "cc-switch-official"@ || id == "custom"@
    &&& tree.get("model_provider"@) == Some(TomlView::Str(id))
    &&& official_route::open_table(tree, id) matches Some(table) && is_route_table(table)
}

/// Whether a table is that of the proxy's route.
pub open spec fn is_route_table(table: TomlView) -> bool {
    &&& table.get("name"@) == Some(TomlView::Str("OpenAI"@))
    &&& table.get("wire_api"@) == Some(TomlView::Str("responses"@))
    &&& is_filled(table.get("base_url"@))
    &&& table.get("supports_websockets"@) == Some(TomlView::Bool(false))
}

/// Whether a table is the one that is written for the shared id.
pub open spec fn is_unified_table(table: TomlView) -> bool {
    &&& table.entries() matches Some(entries) && entries.len() == 4
    &&& table.get("name"@) == Some(TomlView::Str("OpenAI"@))
    &&& table.get("requires_openai_auth"@) == Some(TomlView::Bool(true))
    &&& table.get("supports_websockets"@) == Some(TomlView::Bool(true))
    &&& table.get("wire_api"@) == Some(TomlView::Str("responses"@))
}

/// The route is the proxy's own, and so is taken out, under its own id always, and under the shared id
/// exactly where the table there is that of the route. Any other config stays as it is.
pub proof fn law_which_route_is_taken_out(config: Seq<char>, tree: TomlView)
    requires
        toml_doc::toml_tree(config) == Some(tree),
    ensures
        tree.get("model_provider"@) != Some(TomlView::Str("cc-switch-official"@)) && tree.get(
            "model_provider"@,
        ) != Some(TomlView::Str("custom"@)) ==> official_route::unrouted(config) == Ok::<
            Seq<char>,
            ErrorView,
        >(config),
        tree.get("model_provider"@) == Some(TomlView::Str("custom"@)) && !(
        official_route::open_table(tree, "custom"@) matches Some(table) && is_route_table(table))
            ==> official_route::unrouted(config) == Ok::<Seq<char>, ErrorView>(config),
        tree.get("model_provider"@) == Some(TomlView::Str("cc-switch-official"@))
            ==> official_route::owns_route(tree),
        tree.get("model_provider"@) == Some(TomlView::Str("custom"@)) && (
        official_route::open_table(tree, "custom"@) matches Some(table) && is_route_table(table))
            ==> official_route::owns_route(tree),
{
    lemma_ids();
}

proof fn lemma_ids()
    ensures
        "cc-switch-official"@ != "custom"@,
{
    reveal_strlit("cc-switch-official");
    reveal_strlit("custom");
    assert("custom"@.len() == 6);
    assert("cc-switch-official"@.len() == 18);
}

/// A config is left alone by the move to the shared id exactly where it names another provider than
/// the proxy's own route, or where something of the user's own stands under that id.
pub proof fn law_which_configs_are_moved(config: Seq<char>, tree: TomlView)
    requires
        toml_doc::toml_tree(config) == Some(tree),
    ensures
        (tree.get("model_provider"@) matches Some(TomlView::Str(id)) && id
            != "cc-switch-official"@) ==> unified_session::injected(config) == Ok::<
            Seq<char>,
            ErrorView,
        >(config),
        tree.get("model_provider"@) == Some(TomlView::Str("cc-switch-official"@)) && !(
        official_route::open_table(tree, "cc-switch-official"@) matches Some(table)
            && is_route_table(table)) ==> unified_session::injected(config) == Ok::<
            Seq<char>,
            ErrorView,
        >(config),
        tree.get("model_provider"@) is None && (tree.get("model_providers"@) matches Some(providers)
            && (providers.get("custom"@) matches Some(table) && !is_unified_table(table)))
            ==> unified_session::injected(config) == Ok::<Seq<char>, ErrorView>(config),
        tree.get("model_provider"@) is None && tree.get("model_providers"@) is None
            ==> unified_session::can_inject(tree),
        tree.get("model_provider"@) is None && (tree.get("model_providers"@) matches Some(providers)
            && providers.is_table_like() && (providers.get("custom"@) is None || (providers.get(
            "custom"@,
        ) matches Some(table) && is_unified_table(table)))) ==> unified_session::can_inject(tree),
{
    lemma_ids();
}

/// Only what was written for the shared id is taken out again: a config stays as it is where another
/// provider is active, or where the table under that id is neither of the two that are written there.
pub proof fn law_only_what_was_written_is_taken_out(config: Seq<char>, tree: TomlView)
    requires
        toml_doc::toml_tree(config) == Some(tree),
    ensures
        tree.get("model_provider"@) != Some(TomlView::Str("custom"@)) ==> unified_session::stripped(
            config,
        ) == Ok::<Seq<char>, ErrorView>(config),
        tree.get("model_provider"@) == Some(TomlView::Str("custom"@)) && !(
        official_route::provider_table(tree, "custom"@) matches Some(table) && (is_unified_table(
            table,
        ) || is_route_table(table))) ==> unified_session::stripped(config) == Ok::<
            Seq<char>,
            ErrorView,
        >(config),
        tree.get("model_provider"@) == Some(TomlView::Str("custom"@)) && (
        official_route::provider_table(tree, "custom"@) matches Some(table) && (is_unified_table(
            table,
        ) || is_route_table(table))) ==> unified_session::strip_edits(tree) is Some,
{
}

/// A gateway rejects the web search tool exactly where its address has the name of one of four in it,
/// or where the name of the model, behind its last slash, starts with one of four, whatever the case.
pub proof fn law_which_gateways_reject_the_web_search(tree: TomlView)
    ensures
        config_fields::rejects_web_search(tree) <==> {
            ||| (toml_value::base_url_of(tree) matches Some(url) && {
                ||| text::occurs(text::lower(url), "xiaomimimo.com"@)
                ||| text::occurs(text::lower(url), "longcat.chat"@)
                ||| text::occurs(text::lower(url), "minimax.io"@)
                ||| text::occurs(text::lower(url), "minimaxi.com"@)
            })
            ||| (toml_value::model_of(tree) matches Some(model) && {
                let name = text::after_last_slash(text::lower(model));
                ||| "mimo"@.is_prefix_of(name)
                ||| "longcat"@.is_prefix_of(name)
                ||| "minimax"@.is_prefix_of(name)
                ||| "qwen3-coder"@.is_prefix_of(name)
            })
        },
{
}

/// What is read from a config for its model and its address: the model without the white space around
/// it; the address of the active provider, and only where it has none the one at the top level.
pub proof fn law_the_model_and_the_address(tree: TomlView, id: Seq<char>)
    ensures
        is_filled(tree.get("model"@)) ==> toml_value::model_of(tree) == Some(
            text::trim(tree.get("model"@)->Some_0->Str_0),
        ),
        !is_filled(tree.get("model"@)) ==> toml_value::model_of(tree) is None,
        tree.get("model_provider"@) == Some(TomlView::Str(id)) && (tree.get("model_providers"@) matches Some(
            providers,
        ) && (providers.get(id) matches Some(table) && (table.get("base_url"@) matches Some(
            TomlView::Str(_),
        )))) ==> toml_value::base_url_of(tree) == Some(
            tree.get("model_providers"@)->Some_0.get(id)->Some_0.get("base_url"@)->Some_0->Str_0,
        ),
        !(tree.get("model_provider"@) is Some) || tree.get("model_providers"@) is None ==> (
        match tree.get("base_url"@) {
            Some(TomlView::Str(url)) => toml_value::base_url_of(tree) == Some(url),
            _ => toml_value::base_url_of(tree) is None,
        }),
{
}

/// A whole number of a config counts where it is above zero.
pub proof fn law_a_number_counts_above_zero(tree: TomlView, field: Seq<char>)
    ensures
        tree.get(field) matches Some(TomlView::Integer(n)) ==> toml_value::positive_of(tree, field)
            == (if n > 0 {
            Some(n as u64)
        } else {
            None
        }),
        !(tree.get(field) matches Some(TomlView::Integer(_))) ==> toml_value::positive_of(
            tree,
            field,
        ) is None,
{
}

/// After the catalog pointer was set, or taken out, the config points to the generated catalog exactly
/// where there is one and the pointer was missing or the application's own; a pointer of the user's
/// own stays as it was, and so does every other setting. `name` is the file name that the pointer had.
pub proof fn law_the_catalog_pointer_reads_back(
    tree: TomlView,
    has_catalog: bool,
    name: Option<Seq<char>>,
    read: TomlView,
    path: Seq<Seq<char>>,
)
    requires
        tree is Table,
        toml_model::same_settings(
            read,
            toml_model::applied_all(tree, config_fields::catalog_edits(tree, has_catalog, name)),
        ),
        path.len() > 0,
    ensures
        ({
            let pointer = tree.get_text("model_catalog_json"@);
            let own = name matches Some(name) && text::lower(name) == text::lower(
                "cc-switch-model-catalog.json"@,
            );
            &&& has_catalog && (pointer is None || own) ==> read.get_text("model_catalog_json"@)
                == Some("cc-switch-model-catalog.json"@)
            &&& !has_catalog && pointer is Some && own ==> read.get_text("model_catalog_json"@)
                is None
            &&& pointer is Some && !own ==> read.get_text("model_catalog_json"@) == pointer
            &&& !has_catalog && pointer is None ==> read.get_text("model_catalog_json"@) is None
            &&& path[0] != "model_catalog_json"@ ==> toml_model::setting(read, path)
                == toml_model::setting(tree, path)
        }),
{
    let key = "model_catalog_json"@;
    let value = "cc-switch-model-catalog.json"@;
    let edits = config_fields::catalog_edits(tree, has_catalog, name);
    let model = toml_model::applied_all(tree, edits);
    let none = Seq::<EditView>::empty();
    toml_model::lemma_at1(read, key);
    toml_model::lemma_at1(model, key);
    toml_model::lemma_at1(tree, key);
    assert(toml_model::setting(read, seq![key]) == toml_model::setting(model, seq![key]));
    assert(toml_model::at(read, seq![key]) is Some ==> toml_model::at(model, seq![key]) is Some);
    assert(toml_model::setting(read, path) == toml_model::setting(model, path));
    if edits.len() == 0 {
        assert(edits =~= none);
    } else if has_catalog {
        let edit = EditView::AssignStr { path: toml_doc::root(), key, value };
        assert(edits =~= none.push(edit));
        toml_model::lemma_applied_push(tree, none, edit);
        assert(model == toml_model::with_entry(tree, key, TomlView::Str(value)));
        toml_model::lemma_get_with(tree, key, TomlView::Str(value), key);
        toml_model::lemma_setting_with(tree, key, TomlView::Str(value), path);
    } else {
        let edit = EditView::Remove { path: toml_doc::root(), key };
        assert(edits =~= none.push(edit));
        toml_model::lemma_applied_push(tree, none, edit);
        assert(model == toml_model::without_entry(tree, key));
        toml_model::lemma_get_without(tree, key, key);
        toml_model::lemma_setting_without(tree, key, path);
    }
}

/// Taking the MCP servers out leaves every setting that is none of theirs.
pub proof fn law_other_settings_stay_without_the_servers(
    tree: TomlView,
    read: TomlView,
    path: Seq<Seq<char>>,
)
    requires
        tree is Table,
        toml_model::same_settings(
            read,
            toml_model::applied_all(tree, live_config::mcp_edits(tree)),
        ),
        path.len() > 0,
        path[0] != "mcp_servers"@,
        path[0] == "mcp"@ ==> path.len() == 1 || path[1] != "servers"@,
    ensures
        toml_model::setting(read, path) == toml_model::setting(tree, path),
{
    let none = Seq::<EditView>::empty();
    let edits = live_config::mcp_edits(tree);
    let model = toml_model::applied_all(tree, edits);
    let e0 = EditView::Remove { path: toml_doc::root(), key: "mcp_servers"@ };
    let e1 = EditView::Remove { path: seq!["mcp"@], key: "servers"@ };
    let e2 = EditView::Remove { path: toml_doc::root(), key: "mcp"@ };
    let t0 = toml_model::without_entry(tree, "mcp_servers"@);
    toml_model::lemma_applied_push(tree, none, e0);
    toml_model::lemma_setting_without(tree, "mcp_servers"@, path);
    assert(none.push(e0) =~= seq![e0]);
    assert(toml_model::applied_all(tree, seq![e0]) == t0);
    assert(toml_model::setting(read, path) == toml_model::setting(model, path));
    reveal_strlit("mcp_servers");
    reveal_strlit("mcp");
    assert("mcp_servers"@.len() == 11);
    assert("mcp"@.len() == 3);
    toml_model::lemma_get_without(tree, "mcp_servers"@, "mcp"@);
    match tree.get("mcp"@) {
        Some(mcp) => match mcp.entries() {
            Some(entries) => {
                let change = |t: TomlView| toml_model::without_entry(t, "servers"@);
                toml_model::lemma_applied_push(tree, seq![e0], e1);
                toml_model::lemma_edit_at1(t0, "mcp"@, change);
                let cleaned = toml_model::without_entry(mcp, "servers"@);
                let t1 = toml_model::with_entry(t0, "mcp"@, cleaned);
                toml_model::lemma_setting_with(t0, "mcp"@, cleaned, path);
                let rest = path.drop_first();
                if path[0] == "mcp"@ {
                    assert(path.first() == path[0]);
                    assert(toml_model::setting(t0, path) == toml_model::setting(mcp, rest));
                    if rest.len() > 0 {
                        assert(rest[0] == path[1]);
                        toml_model::lemma_setting_without(mcp, "servers"@, rest);
                    }
                }
                assert(toml_model::setting(t1, path) == toml_model::setting(tree, path));
                if live_config::has_no_other(entries, "servers"@) {
                    assert(edits =~= seq![e0].push(e1).push(e2));
                    toml_model::lemma_applied_push(tree, seq![e0].push(e1), e2);
                    toml_model::lemma_setting_without(t1, "mcp"@, path);
                    if path[0] == "mcp"@ && rest.len() > 0 {
                        lemma_only_entry(entries, "servers"@, path[1]);
                        assert(rest.first() == rest[0]);
                        assert(mcp.get(path[1]) is None);
                        assert(toml_model::at(mcp, rest) is None);
                    }
                } else {
                    assert(edits =~= seq![e0].push(e1));
                }
            },
            None => {
                assert(edits =~= seq![e0]);
            },
        },
        None => {
            assert(edits =~= seq![e0]);
        },
    }
}

/// Where all entries have one key, nothing is under another.
proof fn lemma_only_entry(entries: Seq<(Seq<char>, TomlView)>, key: Seq<char>, other: Seq<char>)
    requires
        forall|i: int| 0 <= i < entries.len() ==> (#[trigger] entries[i]).0 == key,
        other != key,
    ensures
        toml_doc::find(entries, other) is None,
    decreases entries.len(),
{
    if entries.len() > 0 {
        lemma_only_entry(entries.drop_last(), key, other);
        assert(entries[entries.len() - 1].0 == key);
    }
}

/// A config without the text of a server in it stays as it is, and so does one without servers.
pub proof fn law_configs_without_servers_stay(config: Seq<char>, tree: TomlView)
    requires
        toml_doc::toml_tree(config) == Some(tree),
        tree.get("mcp_servers"@) is None,
        tree.get("mcp"@) matches Some(mcp) ==> mcp.get("servers"@) is None,
    ensures
        live_config::without_mcp(config) == Ok::<Seq<char>, ErrorView>(config),
{
}

/// A blank config passes the check; any other does where it is TOML, and is a table of values once its
/// legacy values were replaced.
pub proof fn law_which_configs_pass(config: Seq<char>)
    ensures
        text::is_blank(config) ==> config_fields::config_check(config) is Ok,
        !text::is_blank(config) && toml_doc::toml_tree(config) is None
            ==> config_fields::config_check(config) is Err,
        !text::is_blank(config) ==> (config_fields::config_check(config) is Ok <==> (
        config_merge::normalized(config) matches Ok(text) && toml_value::table_error(text) is None)),
{
}

/// Only the legacy value of the web search is replaced, and only by the value of the same meaning.
pub proof fn law_what_is_replaced(tree: TomlView)
    ensures
        tree.get("web_search"@) != Some(TomlView::Str("enabled"@)) ==> config_merge::normalize_edits(
            tree,
        ).len() == 0,
        tree.get("web_search"@) == Some(TomlView::Str("enabled"@)) ==> config_merge::normalize_edits(
            tree,
        ) == seq![
            EditView::AssignStr { path: toml_doc::root(), key: "web_search"@, value: "live"@ },
        ],
{
}

/// A config without the text of a token stays as it is when tokens are taken out, and so does a blank
/// one; any other loses what is read as its tokens.
pub proof fn law_when_tokens_are_taken_out(config: Seq<char>, tree: TomlView)
    requires
        toml_doc::toml_tree(config) == Some(tree),
    ensures
        ({
            let edits = config_fields::token_removals(
                tree,
                config_fields::provider_token(tree) is Some,
                config_fields::top_level_token(tree) is Some,
            );
            let stays = text::is_blank(config) || !text::occurs(
                config,
                "experimental_bearer_token"@,
            );
            &&& stays ==> config_fields::without_any_token(config) == Ok::<Seq<char>, ErrorView>(
                config,
            )
            &&& !stays ==> config_fields::without_any_token(config) == Ok::<Seq<char>, ErrorView>(
                toml_doc::toml_printed(config, edits),
            )
        }),
        !text::occurs(config, "experimental_bearer_token"@) ==> config_fields::bearer_token(config)
            is None,
        text::occurs(config, "experimental_bearer_token"@) ==> config_fields::bearer_token(config)
            == config_fields::token_of(tree),
{
}

/// Which tokens stand in a config: that of the table of its active provider, and that of the top
/// level.
pub proof fn law_which_tokens_stand_in_a_config(tree: TomlView, id: Seq<char>, table: TomlView)
    requires
        config_fields::active_provider(tree) == Some(id),
        official_route::open_table(tree, id) == Some(table),
    ensures
        config_fields::provider_token(tree) is Some <==> (table.get(
            "experimental_bearer_token"@,
        ) matches Some(value) && value is Str),
        config_fields::top_level_token(tree) is Some <==> (tree.get(
            "experimental_bearer_token"@,
        ) matches Some(value) && value is Str),
{
}

/// A table that held nothing but the servers goes with them.
pub proof fn law_an_empty_table_goes_with_its_servers(
    tree: TomlView,
    read: TomlView,
    entries: Seq<(Seq<char>, TomlView)>,
)
    requires
        tree is Table,
        tree.get("mcp"@) matches Some(mcp) && mcp.entries() == Some(entries),
        forall|i: int| 0 <= i < entries.len() ==> (#[trigger] entries[i]).0 == "servers"@,
        toml_model::same_settings(
            read,
            toml_model::applied_all(tree, live_config::mcp_edits(tree)),
        ),
    ensures
        read.get("mcp"@) is None,
{
    let none = Seq::<EditView>::empty();
    let e0 = EditView::Remove { path: toml_doc::root(), key: "mcp_servers"@ };
    let e1 = EditView::Remove { path: seq!["mcp"@], key: "servers"@ };
    let e2 = EditView::Remove { path: toml_doc::root(), key: "mcp"@ };
    let edits = live_config::mcp_edits(tree);
    let model = toml_model::applied_all(tree, edits);
    assert(live_config::has_no_other(entries, "servers"@));
    assert(edits =~= none.push(e0).push(e1).push(e2));
    toml_model::lemma_applied_push(tree, none, e0);
    toml_model::lemma_applied_push(tree, none.push(e0), e1);
    toml_model::lemma_applied_push(tree, none.push(e0).push(e1), e2);
    let before = toml_model::applied_all(tree, none.push(e0).push(e1));
    let t0 = toml_model::without_entry(tree, "mcp_servers"@);
    let change = |t: TomlView| toml_model::without_entry(t, "servers"@);
    toml_model::lemma_edit_at1(t0, "mcp"@, change);
    assert(model == toml_model::without_entry(before, "mcp"@));
    toml_model::lemma_get_without(before, "mcp"@, "mcp"@);
    toml_model::lemma_at1(read, "mcp"@);
    toml_model::lemma_at1(model, "mcp"@);
    assert(toml_model::at(read, seq!["mcp"@]) is Some ==> toml_model::at(model, seq!["mcp"@])
        is Some);
}

} // verus!
