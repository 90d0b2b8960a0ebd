//! One conversation history for the official provider and all others.
//!
//! Codex keeps a history per provider id. To share one, the official provider
//! is written into `config.toml` under the id that the others run under, in a
//! form that is recognised and taken out again before the text is stored.

use crate::error::{AppError, ErrorView};
use crate::official_route::{
    find_open_table, find_provider_table, push_official_table, table_matches_codex_official_proxy_route,
    table_matches_codex_unified_official_provider, CC_SWITCH_CODEX_MODEL_PROVIDER_ID,
    CC_SWITCH_CODEX_OFFICIAL_PROXY_PROVIDER_ID,
};
use crate::text::{str_contains, str_eq};
use crate::toml_doc::{
    document_tree, edited, parse_config, path1, root_path, EditView, Toml, TomlEdit, TomlView,
};
use crate::{error, official_route, text, toml_doc, toml_model};
use vstd::prelude::*;
use vstd::string::*;

verus! {

/// The shared provider id.
pub open spec fn shared() -> Seq<char> {
    CC_SWITCH_CODEX_MODEL_PROVIDER_ID@
}

/// The id of the official provider behind the proxy.
pub open spec fn official() -> Seq<char> {
    CC_SWITCH_CODEX_OFFICIAL_PROXY_PROVIDER_ID@
}

/// Whether the active provider is the official one behind the proxy, under its own id.
pub open spec fn runs_official_route(tree: TomlView) -> bool {
    &&& tree.get_text("model_provider"@) == Some(official())
    &&& official_route::open_table(tree, official()) matches Some(table)
        && official_route::matches_route(table)
}

/// Whether something of the user's own stands under the shared id, in a table in braces or not:
/// anything but the official provider's table. What is no table at all has no place for it either.
pub open spec fn shared_id_taken(tree: TomlView) -> bool {
    match tree.get("model_providers"@) {
        Some(providers) => !providers.is_table_like() || (providers.get(shared()) matches Some(item)
            && !official_route::matches_unified(item)),
        None => false,
    }
}

/// Whether a config can be moved to the shared id: it runs the official provider, and no table of
/// the user's own would become active by it.
pub open spec fn can_inject(tree: TomlView) -> bool {
    match tree.get_text("model_provider"@) {
        Some(_) => runs_official_route(tree),
        None => !shared_id_taken(tree),
    }
}

/// The change that makes the shared id the active one.
pub open spec fn activate_shared() -> EditView {
    EditView::AssignStr { path: toml_doc::root(), key: "model_provider"@, value: shared() }
}

/// The changes that move a config to the shared id.
pub open spec fn inject_edits(tree: TomlView) -> Seq<EditView> {
    if runs_official_route(tree) {
        seq![
            EditView::Rename { path: seq!["model_providers"@], from: official(), to: shared() },
            activate_shared(),
        ]
    } else {
        match tree.get("model_providers"@) {
            None => seq![
                activate_shared(),
                EditView::AssignTable { key: "model_providers"@, implicit: true },
            ] + official_route::official_table_edits(shared(), None, true, true),
            Some(providers) => if providers.get(shared()) is None {
                seq![activate_shared()] + official_route::official_table_edits(
                    shared(),
                    None,
                    true,
                    true,
                )
            } else {
                seq![activate_shared()]
            },
        }
    }
}

/// A config moved to the shared id; one that cannot be moved as it is.
pub open spec fn injected(config: Seq<char>) -> Result<Seq<char>, ErrorView> {
    match toml_doc::toml_tree(config) {
        None => Err(toml_doc::invalid_config(config)),
        Some(tree) => if can_inject(tree) {
            Ok(toml_doc::toml_printed(config, inject_edits(tree)))
        } else {
            Ok(config)
        },
    }
}

/// The changes that take the shared id out again; `None` where the table under it is not the one
/// that was written there.
pub open spec fn strip_edits(tree: TomlView) -> Option<Seq<EditView>> {
    if tree.get_text("model_provider"@) != Some(shared()) {
        None
    } else {
        match official_route::provider_table(tree, shared()) {
            None => None,
            Some(table) => if official_route::matches_unified(table) {
                let cleaned = seq![
                    EditView::Remove { path: toml_doc::root(), key: "model_provider"@ },
                    EditView::Remove { path: seq!["model_providers"@], key: shared() },
                ];
                if official_route::only_provider(
                    toml_model::moved_entries(tree.get("model_providers"@)),
                    shared(),
                ) {
                    Some(
                        cleaned.push(
                            EditView::Remove { path: toml_doc::root(), key: "model_providers"@ },
                        ),
                    )
                } else {
                    Some(cleaned)
                }
            } else if official_route::matches_route(table) {
                Some(
                    seq![
                        EditView::Remove { path: toml_doc::root(), key: "model_provider"@ },
                        EditView::Rename {
                            path: seq!["model_providers"@],
                            from: shared(),
                            to: official(),
                        },
                        EditView::AssignStr {
                            path: toml_doc::root(),
                            key: "model_provider"@,
                            value: official(),
                        },
                    ],
                )
            } else {
                None
            },
        }
    }
}

/// A config with the shared id taken out again; one that was not moved there as it is.
pub open spec fn stripped(config: Seq<char>) -> Result<Seq<char>, ErrorView> {
    if !text::occurs(config, "model_provider"@) {
        Ok(config)
    } else {
        match toml_doc::toml_tree(config) {
            None => Err(toml_doc::invalid_config(config)),
            Some(tree) => match strip_edits(tree) {
                Some(edits) => Ok(toml_doc::toml_printed(config, edits)),
                None => Ok(config),
            },
        }
    }
}

/// The changes that move a config to the shared id; `None` where it cannot be moved. A provider
/// that the user has chosen is never replaced, and a table of the user's own under the shared id
/// is never made active.
pub fn plan_inject_unified_session(tree: &Toml) -> (r: Option<Vec<TomlEdit>>)
    ensures
        match r {
            Some(edits) => can_inject(tree@) && toml_doc::edits_view(edits@) == inject_edits(tree@),
            None => !can_inject(tree@),
        },
{
    let mut edits: Vec<TomlEdit> = Vec::new();
    if let Some(current) = tree.get_str("model_provider") {
        if !str_eq(current, CC_SWITCH_CODEX_OFFICIAL_PROXY_PROVIDER_ID) {
            return None;
        }
        match find_open_table(tree, CC_SWITCH_CODEX_OFFICIAL_PROXY_PROVIDER_ID) {
            Some(table) => {
                if !table_matches_codex_official_proxy_route(table) {
                    return None;
                }
            },
            None => {
                return None;
            },
        }
        edits.push(
            TomlEdit::Rename {
                path: path1("model_providers"),
                from: CC_SWITCH_CODEX_OFFICIAL_PROXY_PROVIDER_ID.to_owned(),
                to: CC_SWITCH_CODEX_MODEL_PROVIDER_ID.to_owned(),
            },
        );
        edits.push(
            TomlEdit::AssignStr {
                path: root_path(),
                key: "model_provider".to_owned(),
                value: CC_SWITCH_CODEX_MODEL_PROVIDER_ID.to_owned(),
            },
        );
        assert(toml_doc::edits_view(edits@) =~= inject_edits(tree@));
        return Some(edits);
    }
    if let Some(providers) = tree.get("model_providers") {
        if !providers.is_table_like() {
            return None;
        }
        if let Some(item) = providers.get(CC_SWITCH_CODEX_MODEL_PROVIDER_ID) {
            if !table_matches_codex_unified_official_provider(item) {
                return None;
            }
        }
    }
    edits.push(
        TomlEdit::AssignStr {
            path: root_path(),
            key: "model_provider".to_owned(),
            value: CC_SWITCH_CODEX_MODEL_PROVIDER_ID.to_owned(),
        },
    );
    assert(toml_doc::edits_view(edits@) =~= seq![activate_shared()]);
    match tree.get("model_providers") {
        None => {
            edits.push(
                TomlEdit::AssignTable { key: "model_providers".to_owned(), implicit: true },
            );
            assert(toml_doc::edits_view(edits@) =~= seq![
                activate_shared(),
                EditView::AssignTable { key: "model_providers"@, implicit: true },
            ]);
            push_official_table(&mut edits, CC_SWITCH_CODEX_MODEL_PROVIDER_ID, None, true, true);
        },
        Some(providers) => {
            if providers.get(CC_SWITCH_CODEX_MODEL_PROVIDER_ID).is_none() {
                push_official_table(
                    &mut edits,
                    CC_SWITCH_CODEX_MODEL_PROVIDER_ID,
                    None,
                    true,
                    true,
                );
            }
        },
    }
    assert(toml_doc::edits_view(edits@) =~= inject_edits(tree@));
    Some(edits)
}

/// What a move to the shared id or back sets can be written.
proof fn lemma_moves_are_writable(tree: TomlView)
    ensures
        toml_doc::are_writable(inject_edits(tree)),
        strip_edits(tree) matches Some(edits) ==> toml_doc::are_writable(edits),
{
    broadcast use toml_doc::lemma_short_is_writable;

    reveal_strlit("custom");
    reveal_strlit("cc-switch-official");
    official_route::lemma_official_table_is_writable(shared(), true, true);
}

/// A config moved to the shared id, where it runs the official provider; any other as it is.
pub fn inject_codex_unified_session_bucket(config_text: &str) -> (r: Result<String, AppError>)
    ensures
        error::text_result(r) == injected(config_text@),
        inject_holds(config_text@),
{
    let doc = match parse_config(config_text) {
        Ok(doc) => doc,
        Err(e) => {
            return Err(e);
        },
    };
    let tree = document_tree(&doc);
    match plan_inject_unified_session(&tree) {
        Some(edits) => {
            proof {
                lemma_moves_are_writable(tree@);
            }
            Ok(edited(doc, &edits))
        },
        None => Ok(config_text.to_owned()),
    }
}

/// The changes that take the shared id out again; `None` where the table under it is not the one
/// that was written there.
pub fn plan_strip_unified_session(tree: &Toml) -> (r: Option<Vec<TomlEdit>>)
    ensures
        match r {
            Some(edits) => strip_edits(tree@) == Some(toml_doc::edits_view(edits@)),
            None => strip_edits(tree@) is None,
        },
{
    match tree.get_str("model_provider") {
        Some(id) => {
            if !str_eq(id, CC_SWITCH_CODEX_MODEL_PROVIDER_ID) {
                return None;
            }
        },
        None => {
            return None;
        },
    }
    let table = match find_provider_table(tree, CC_SWITCH_CODEX_MODEL_PROVIDER_ID) {
        Some(table) => table,
        None => {
            return None;
        },
    };
    let mut edits: Vec<TomlEdit> = Vec::new();
    if table_matches_codex_unified_official_provider(table) {
        edits.push(TomlEdit::Remove { path: root_path(), key: "model_provider".to_owned() });
        edits.push(
            TomlEdit::Remove {
                path: path1("model_providers"),
                key: CC_SWITCH_CODEX_MODEL_PROVIDER_ID.to_owned(),
            },
        );
        let ghost cleaned = seq![
            EditView::Remove { path: toml_doc::root(), key: "model_provider"@ },
            EditView::Remove { path: seq!["model_providers"@], key: shared() },
        ];
        assert(toml_doc::edits_view(edits@) =~= cleaned);
        if official_route::has_only_provider(tree, CC_SWITCH_CODEX_MODEL_PROVIDER_ID) {
            edits.push(TomlEdit::Remove { path: root_path(), key: "model_providers".to_owned() });
            assert(toml_doc::edits_view(edits@) =~= cleaned.push(
                EditView::Remove { path: toml_doc::root(), key: "model_providers"@ },
            ));
        }
        return Some(edits);
    }
    if table_matches_codex_official_proxy_route(table) {
        edits.push(TomlEdit::Remove { path: root_path(), key: "model_provider".to_owned() });
        edits.push(
            TomlEdit::Rename {
                path: path1("model_providers"),
                from: CC_SWITCH_CODEX_MODEL_PROVIDER_ID.to_owned(),
                to: CC_SWITCH_CODEX_OFFICIAL_PROXY_PROVIDER_ID.to_owned(),
            },
        );
        edits.push(
            TomlEdit::AssignStr {
                path: root_path(),
                key: "model_provider".to_owned(),
                value: CC_SWITCH_CODEX_OFFICIAL_PROXY_PROVIDER_ID.to_owned(),
            },
        );
        assert(toml_doc::edits_view(edits@) =~= strip_edits(tree@)->Some_0);
        return Some(edits);
    }
    None
}

/// Whether a config that was moved to the shared id holds what it should.
pub open spec fn inject_holds(config: Seq<char>) -> bool {
    toml_doc::toml_tree(config) matches Some(tree) ==> can_inject(tree) ==> toml_doc::holds(
        config,
        inject_edits(tree),
    )
}

/// Whether a config with the shared id taken out again holds what it should.
pub open spec fn strip_holds(config: Seq<char>) -> bool {
    &&& toml_doc::is_well_formed(config)
    &&& toml_doc::toml_tree(config) matches Some(tree) ==> (strip_edits(tree) matches Some(edits)
        ==> toml_doc::holds(config, edits))
}

/// An entry of the user's own under the shared id is never made active: a config that has one, in
/// braces or not, and that does not run the official provider behind the proxy, stays as it is.
pub proof fn law_an_entry_of_the_users_own_is_never_activated(config: Seq<char>, tree: TomlView)
    requires
        toml_doc::toml_tree(config) == Some(tree),
        tree.get("model_providers"@) matches Some(providers) && (providers.get(
            shared(),
        ) matches Some(item) && !official_route::matches_unified(item)),
        !runs_official_route(tree),
    ensures
        injected(config) == Ok::<Seq<char>, ErrorView>(config),
{
}

/// A config with the shared id taken out again. Only the exact form that was written is taken out;
/// third-party tables, and tables of the user's own, stay.
pub fn strip_codex_unified_session_bucket(config_text: &str) -> (r: Result<String, AppError>)
    ensures
        error::text_result(r) == stripped(config_text@),
        text::occurs(config_text@, "model_provider"@) ==> strip_holds(config_text@),
{
    if !str_contains(config_text, "model_provider") {
        return Ok(config_text.to_owned());
    }
    let doc = match parse_config(config_text) {
        Ok(doc) => doc,
        Err(e) => {
            return Err(e);
        },
    };
    let tree = document_tree(&doc);
    match plan_strip_unified_session(&tree) {
        Some(edits) => {
            proof {
                lemma_moves_are_writable(tree@);
            }
            Ok(edited(doc, &edits))
        },
        None => Ok(config_text.to_owned()),
    }
}

} // verus!
