//! What holds of single fields of a config once they were written, and of all the others.

use crate::config_merge::{
    CODEX_WEB_SEARCH_DISABLED, CODEX_WEB_SEARCH_FIELD, CODEX_WEB_SEARCH_LEGACY_ENABLED,
    CODEX_WEB_SEARCH_LIVE,
};
use crate::toml_doc::{EditView, TomlView};
use crate::{
    config_fields, config_merge, live_config, official_route, text, toml_doc, toml_model,
    toml_value,
};
use vstd::prelude::*;
use vstd::string::*;

verus! {

/// A text of the top level is read as it was written.
proof fn lemma_same_text(read: TomlView, model: TomlView, key: Seq<char>)
    requires
        toml_model::same_settings(read, model),
    ensures
        read.get_text(key) == model.get_text(key),
{
    toml_model::lemma_at1(read, key);
    toml_model::lemma_at1(model, key);
    assert(toml_model::setting(read, seq![key]) == toml_model::setting(model, seq![key]));
    assert(toml_model::at(read, seq![key]) is Some ==> toml_model::at(model, seq![key]) is Some);
}

/// One change at the top level.
proof fn lemma_root_assign(tree: TomlView, key: Seq<char>, value: Seq<char>, edits: Seq<EditView>)
    requires
        edits == seq![EditView::AssignStr { path: toml_doc::root(), key, value }],
    ensures
        toml_model::applied_all(tree, edits) == toml_model::edit_at(
            tree,
            toml_doc::root(),
            |t: TomlView| toml_model::with_entry(t, key, TomlView::Str(value)),
        ),
        tree is Table ==> toml_model::applied_all(tree, edits) == toml_model::with_entry(
            tree,
            key,
            TomlView::Str(value),
        ),
{
    let edit = EditView::AssignStr { path: toml_doc::root(), key, value };
    assert(edits =~= Seq::<EditView>::empty().push(edit));
    toml_model::lemma_applied_push(tree, Seq::empty(), edit);
}

/// One removal at the top level.
proof fn lemma_root_remove(tree: TomlView, key: Seq<char>, edits: Seq<EditView>)
    requires
        edits == seq![EditView::Remove { path: toml_doc::root(), key }],
        tree is Table,
    ensures
        toml_model::applied_all(tree, edits) == toml_model::without_entry(tree, key),
{
    let edit = EditView::Remove { path: toml_doc::root(), key };
    assert(edits =~= Seq::<EditView>::empty().push(edit));
    toml_model::lemma_applied_push(tree, Seq::empty(), edit);
}

/// A config after its web search switch was written: turned off it says so; not turned off it does
/// not, and a value of the user's own stays. All other settings stay.
pub proof fn law_the_web_search_switch_reads_back(
    tree: TomlView,
    disable: bool,
    read: TomlView,
    path: Seq<Seq<char>>,
)
    requires
        tree is Table,
        toml_model::same_settings(
            read,
            toml_model::applied_all(tree, config_fields::web_search_edits(tree, disable)),
        ),
        path.len() > 0,
    ensures
        (read.get_text(CODEX_WEB_SEARCH_FIELD@) == Some(CODEX_WEB_SEARCH_DISABLED@)) == disable,
        !disable && tree.get_text(CODEX_WEB_SEARCH_FIELD@) != Some(CODEX_WEB_SEARCH_DISABLED@)
            ==> read.get_text(CODEX_WEB_SEARCH_FIELD@) == tree.get_text(CODEX_WEB_SEARCH_FIELD@),
        path[0] != CODEX_WEB_SEARCH_FIELD@ ==> toml_model::setting(read, path)
            == toml_model::setting(tree, path),
{
    let key = CODEX_WEB_SEARCH_FIELD@;
    let edits = config_fields::web_search_edits(tree, disable);
    let model = toml_model::applied_all(tree, edits);
    lemma_same_text(read, model, key);
    assert(toml_model::setting(read, path) == toml_model::setting(model, path));
    if disable {
        lemma_root_assign(tree, key, CODEX_WEB_SEARCH_DISABLED@, edits);
        toml_model::lemma_get_with(tree, key, TomlView::Str(CODEX_WEB_SEARCH_DISABLED@), key);
        toml_model::lemma_setting_with(
            tree,
            key,
            TomlView::Str(CODEX_WEB_SEARCH_DISABLED@),
            path,
        );
    } else if tree.get_text(key) == Some(CODEX_WEB_SEARCH_DISABLED@) {
        lemma_root_remove(tree, key, edits);
        toml_model::lemma_get_without(tree, key, key);
        toml_model::lemma_setting_without(tree, key, path);
    }
}

/// Replacing legacy values makes a search that was turned on in the old way one that is turned on
/// in the new way, and leaves every other value and every other setting as it is.
pub proof fn law_normalizing_changes_the_legacy_value_alone(
    tree: TomlView,
    read: TomlView,
    path: Seq<Seq<char>>,
)
    requires
        tree is Table,
        toml_model::same_settings(
            read,
            toml_model::applied_all(tree, config_merge::normalize_edits(tree)),
        ),
        path.len() > 0,
    ensures
        read.get_text(CODEX_WEB_SEARCH_FIELD@) == (if tree.get_text(CODEX_WEB_SEARCH_FIELD@)
            == Some(CODEX_WEB_SEARCH_LEGACY_ENABLED@) {
            Some(CODEX_WEB_SEARCH_LIVE@)
        } else {
            tree.get_text(CODEX_WEB_SEARCH_FIELD@)
        }),
        path[0] != CODEX_WEB_SEARCH_FIELD@ ==> toml_model::setting(read, path)
            == toml_model::setting(tree, path),
{
    let key = CODEX_WEB_SEARCH_FIELD@;
    let edits = config_merge::normalize_edits(tree);
    let model = toml_model::applied_all(tree, edits);
    lemma_same_text(read, model, key);
    assert(toml_model::setting(read, path) == toml_model::setting(model, path));
    if tree.get_text(key) == Some(CODEX_WEB_SEARCH_LEGACY_ENABLED@) {
        lemma_root_assign(tree, key, CODEX_WEB_SEARCH_LIVE@, edits);
        toml_model::lemma_get_with(tree, key, TomlView::Str(CODEX_WEB_SEARCH_LIVE@), key);
        toml_model::lemma_setting_with(tree, key, TomlView::Str(CODEX_WEB_SEARCH_LIVE@), path);
    }
}

proof fn lemma_token_keys()
    ensures
        "model_provider"@ != "model_providers"@,
        "model_provider"@ != "experimental_bearer_token"@,
        "model_providers"@ != "experimental_bearer_token"@,
{
    reveal_strlit("model_provider");
    reveal_strlit("model_providers");
    reveal_strlit("experimental_bearer_token");
    assert("model_provider"@.len() == 14);
    assert("model_providers"@.len() == 15);
    assert("experimental_bearer_token"@.len() == 25);
}

/// The table of a provider, and what is in it, by paths.
proof fn lemma_provider_at(tree: TomlView, id: Seq<char>, key: Seq<char>)
    ensures
        toml_model::at(tree, seq!["model_providers"@, id, key]) == match tree.get(
            "model_providers"@,
        ) {
            Some(providers) => match providers.get(id) {
                Some(table) => table.get(key),
                None => None,
            },
            None => None,
        },
        toml_model::at(tree, seq!["model_providers"@, id]) == match tree.get("model_providers"@) {
            Some(providers) => providers.get(id),
            None => None,
        },
        toml_model::at(tree, seq!["model_providers"@]) == tree.get("model_providers"@),
{
    toml_model::lemma_at3(tree, "model_providers"@, id, key);
    toml_model::lemma_at2(tree, "model_providers"@, id);
    toml_model::lemma_at1(tree, "model_providers"@);
}

/// The table of a provider is read as one, where anything is read of it.
proof fn lemma_same_provider(
    read: TomlView,
    model: TomlView,
    edits: Seq<EditView>,
    id: Seq<char>,
    key: Seq<char>,
)
    requires
        model is Table,
        toml_model::same_settings(read, model),
        toml_model::keeps_braces(read, model, edits),
        forall|i: int| 0 <= i < edits.len() ==> toml_model::adds_by_name(#[trigger] edits[i]),
    ensures
        ({
            let own = official_route::open_table(model, id);
            let found = official_route::open_table(read, id);
            &&& own is Some && own->Some_0.get(key) is Some
                && !own->Some_0.get(key)->Some_0.is_table_like() ==> found is Some
                && found->Some_0.get(key) == own->Some_0.get(key)
            &&& own is Some && found is Some && found->Some_0.get(key) is Some
                ==> own->Some_0.get(key) is Some
        }),
{
    lemma_provider_at(read, id, key);
    lemma_provider_at(model, id, key);
    let whole = seq!["model_providers"@, id, key];
    let table = seq!["model_providers"@, id];
    let top = seq!["model_providers"@];
    assert(toml_model::all_tables(model, table) && toml_model::all_tables(model, top)
        || official_route::open_table(model, id) is None) by {
        reveal_with_fuel(toml_model::all_tables, 3);
        assert(table.drop_first() =~= seq![id]);
        assert(seq![id].drop_first() =~= Seq::<Seq<char>>::empty());
        assert(top.drop_first() =~= Seq::<Seq<char>>::empty());
    }
    assert(toml_model::at(read, top) is Some ==> toml_model::at(model, top) is Some);
    assert(toml_model::setting(read, whole) == toml_model::setting(model, whole));
    assert(toml_model::at(read, whole) is Some ==> toml_model::at(model, whole) is Some);
    assert(toml_model::at(read, table) is Some ==> toml_model::at(model, table) is Some);
}

/// Where there is no table of a provider none is read.
proof fn lemma_no_table_read(
    tree: TomlView,
    model: TomlView,
    edits: Seq<EditView>,
    read: TomlView,
    id: Seq<char>,
)
    requires
        toml_model::same_settings(read, model),
        toml_model::keeps_braces(read, model, edits),
        forall|i: int| 0 <= i < edits.len() ==> toml_model::adds_by_name(#[trigger] edits[i]),
        model.get("model_providers"@) == tree.get("model_providers"@),
        official_route::open_table(tree, id) is None,
    ensures
        official_route::open_table(read, id) is None,
{
    lemma_provider_at(read, id, id);
    lemma_provider_at(model, id, id);
    let table = seq!["model_providers"@, id];
    let top = seq!["model_providers"@];
    assert(toml_model::setting(read, table) == toml_model::setting(model, table));
    assert(toml_model::setting(read, top) == toml_model::setting(model, top));
    assert(toml_model::at(read, table) is Some ==> toml_model::at(model, table) is Some);
    assert(toml_model::at(read, top) is Some ==> toml_model::at(model, top) is Some);
}

/// A bearer token that was written into a config is the one that is read from it, and nothing but
/// the token changes: no other setting, and no table is made.
pub proof fn law_a_written_token_is_read(tree: TomlView, token: Seq<char>, read: TomlView)
    requires
        tree is Table,
        !text::is_blank(token),
        toml_model::same_settings(
            read,
            toml_model::applied_all(tree, config_fields::token_edits(tree, token)),
        ),
        toml_model::keeps_braces(
            read,
            toml_model::applied_all(tree, config_fields::token_edits(tree, token)),
            config_fields::token_edits(tree, token),
        ),
    ensures
        config_fields::token_of(read) == Some(text::trim(token)),
        toml_model::at(read, config_fields::token_place(tree)) == Some(TomlView::Str(token)),
        toml_model::differs_only_at(read, tree, config_fields::token_place(tree)),
{
    lemma_token_keys();
    let key = "experimental_bearer_token"@;
    let mp = "model_providers"@;
    let edits = config_fields::token_edits(tree, token);
    let model = toml_model::applied_all(tree, edits);
    let edit = EditView::AssignStr { path: config_fields::token_path(tree), key, value: token };
    assert(edits =~= Seq::<EditView>::empty().push(edit));
    toml_model::lemma_applied_push(tree, Seq::empty(), edit);
    let change = |t: TomlView| toml_model::with_entry(t, key, TomlView::Str(token));
    assert(toml_model::touches_only(change, key)) by {
        assert forall|t: TomlView| t.is_table_like() implies (#[trigger] change(t)).is_table_like()
            && forall|k: Seq<char>| k != key ==> #[trigger] change(t).get(k) == t.get(k) by {
            assert forall|k: Seq<char>| k != key implies #[trigger] change(t).get(k) == t.get(k) by {
                toml_model::lemma_get_with(t, key, TomlView::Str(token), k);
            }
        }
    }
    toml_model::lemma_edit_differs_only_there(
        read,
        tree,
        config_fields::token_path(tree),
        key,
        change,
    );
    lemma_same_text(read, model, "model_provider"@);
    lemma_same_text(read, model, key);
    match config_fields::active_provider(tree) {
        Some(id) => {
            if config_fields::is_custom_id(id) && official_route::open_table(tree, id) is Some {
                let providers = tree.get(mp)->Some_0;
                let own = providers.get(id)->Some_0;
                toml_model::lemma_edit_at2(tree, mp, id, change);
                toml_model::lemma_edit_at1(providers, id, change);
                let new_own = toml_model::with_entry(own, key, TomlView::Str(token));
                let new_providers = toml_model::with_entry(providers, id, new_own);
                assert(model == toml_model::with_entry(tree, mp, new_providers));
                toml_model::lemma_get_with(own, key, TomlView::Str(token), key);
                toml_model::lemma_get_with(providers, id, new_own, id);
                toml_model::lemma_get_with(tree, mp, new_providers, mp);
                toml_model::lemma_get_with(tree, mp, new_providers, "model_provider"@);
                lemma_same_provider(read, model, edits, id, key);
                lemma_provider_at(read, id, key);
                assert(config_fields::token_place(tree) =~= seq![mp, id, key]);
            } else {
                lemma_root_token(tree, read, token);
                if config_fields::is_custom_id(id) {
                    lemma_no_table_read(tree, model, edits, read, id);
                }
            }
        },
        None => {
            lemma_root_token(tree, read, token);
        },
    }
}

/// A token at the top level.
proof fn lemma_root_token(tree: TomlView, read: TomlView, token: Seq<char>)
    requires
        tree is Table,
        config_fields::token_path(tree) == toml_doc::root(),
        toml_model::same_settings(
            read,
            toml_model::applied_all(tree, config_fields::token_edits(tree, token)),
        ),
    ensures
        ({
            let key = "experimental_bearer_token"@;
            let model = toml_model::applied_all(tree, config_fields::token_edits(tree, token));
            &&& model == toml_model::with_entry(tree, key, TomlView::Str(token))
            &&& model.get_text(key) == Some(token)
            &&& model.get("model_provider"@) == tree.get("model_provider"@)
            &&& model.get("model_providers"@) == tree.get("model_providers"@)
        }),
        toml_model::at(read, config_fields::token_place(tree)) == Some(TomlView::Str(token)),
{
    lemma_token_keys();
    let key = "experimental_bearer_token"@;
    let edits = config_fields::token_edits(tree, token);
    let model = toml_model::applied_all(tree, edits);
    lemma_root_assign(tree, key, token, edits);
    toml_model::lemma_get_with(tree, key, TomlView::Str(token), key);
    toml_model::lemma_get_with(tree, key, TomlView::Str(token), "model_provider"@);
    toml_model::lemma_get_with(tree, key, TomlView::Str(token), "model_providers"@);
    assert(config_fields::token_place(tree) =~= seq![key]);
    toml_model::lemma_at1(model, key);
    toml_model::lemma_read_setting(read, model, seq![key]);
}

/// Once the tokens were taken out of a config none is read from it.
pub proof fn law_removed_tokens_are_not_read(tree: TomlView, read: TomlView)
    requires
        tree is Table,
        toml_model::same_settings(
            read,
            toml_model::applied_all(
                tree,
                config_fields::token_removals(
                    tree,
                    config_fields::provider_token(tree) is Some,
                    config_fields::top_level_token(tree) is Some,
                ),
            ),
        ),
        ({
            let edits = config_fields::token_removals(
                tree,
                config_fields::provider_token(tree) is Some,
                config_fields::top_level_token(tree) is Some,
            );
            toml_model::keeps_braces(read, toml_model::applied_all(tree, edits), edits)
        }),
    ensures
        config_fields::token_of(read) is None,
{
    lemma_token_keys();
    let key = "experimental_bearer_token"@;
    let mp = "model_providers"@;
    let own = config_fields::provider_token(tree) is Some;
    let top = config_fields::top_level_token(tree) is Some;
    let edits = config_fields::token_removals(tree, own, top);
    let model = toml_model::applied_all(tree, edits);
    let none = Seq::<EditView>::empty();
    let change = |t: TomlView| toml_model::without_entry(t, key);
    let id = config_fields::active_provider(tree)->Some_0;
    let first = if own {
        let edit = EditView::Remove { path: official_route::provider_path(id), key };
        let providers = tree.get(mp)->Some_0;
        let table = providers.get(id)->Some_0;
        toml_model::lemma_applied_push(tree, none, edit);
        toml_model::lemma_edit_at2(tree, mp, id, change);
        toml_model::lemma_edit_at1(providers, id, change);
        let new_table = toml_model::without_entry(table, key);
        let new_providers = toml_model::with_entry(providers, id, new_table);
        toml_model::lemma_get_without(table, key, key);
        toml_model::lemma_get_with(providers, id, new_table, id);
        toml_model::lemma_get_with(tree, mp, new_providers, mp);
        toml_model::lemma_get_with(tree, mp, new_providers, key);
        toml_model::lemma_get_with(tree, mp, new_providers, "model_provider"@);
        assert(none.push(edit) =~= seq![edit]);
        toml_model::with_entry(tree, mp, new_providers)
    } else {
        tree
    };
    let first_edits = if own {
        seq![EditView::Remove { path: official_route::provider_path(id), key }]
    } else {
        none
    };
    assert(toml_model::applied_all(tree, first_edits) == first);
    if top {
        let edit = EditView::Remove { path: toml_doc::root(), key };
        assert(edits =~= first_edits.push(edit));
        toml_model::lemma_applied_push(tree, first_edits, edit);
        assert(model == toml_model::without_entry(first, key));
        toml_model::lemma_get_without(first, key, key);
        toml_model::lemma_get_without(first, key, mp);
        toml_model::lemma_get_without(first, key, "model_provider"@);
    } else {
        assert(edits =~= first_edits);
    }
    assert(model.get("model_provider"@) == tree.get("model_provider"@));
    assert(model.get_text(key) is None);
    lemma_same_text(read, model, "model_provider"@);
    lemma_same_text(read, model, key);
    match config_fields::active_provider(tree) {
        Some(id) => {
            if official_route::open_table(tree, id) is None {
                lemma_no_table_read(tree, model, edits, read, id);
            } else {
                lemma_same_provider(read, model, edits, id, key);
                lemma_provider_at(read, id, key);
                lemma_provider_at(model, id, key);
                let whole = seq![mp, id, key];
                assert(toml_model::setting(read, whole) == toml_model::setting(model, whole));
            }
        },
        None => {},
    }
}

/// A field of the top level that was set is read as it was set, trimmed; one that was set to nothing
/// is gone. All other settings stay.
pub proof fn law_a_written_field_is_read(
    tree: TomlView,
    field: Seq<char>,
    value: Seq<char>,
    read: TomlView,
    path: Seq<Seq<char>>,
)
    requires
        tree is Table,
        config_fields::is_root_field(field),
        toml_model::same_settings(
            read,
            toml_model::applied_all(tree, config_fields::field_edits(tree, field, value)->Some_0),
        ),
        path.len() > 0,
    ensures
        text::is_blank(value) ==> read.get(field) is None,
        !text::is_blank(value) ==> read.get(field) == Some(TomlView::Str(text::trim(value))),
        path[0] != field ==> toml_model::setting(read, path) == toml_model::setting(tree, path),
{
    reveal_strlit("model");
    reveal_strlit("model_catalog_json");
    reveal_strlit("base_url");
    reveal_strlit("wire_api");
    assert("model"@.len() == 5);
    assert("model_catalog_json"@.len() == 18);
    assert("base_url"@.len() == 8);
    assert("wire_api"@.len() == 8);
    let edits = config_fields::field_edits(tree, field, value)->Some_0;
    let model = toml_model::applied_all(tree, edits);
    let trimmed = text::trim(value);
    toml_model::lemma_at1(read, field);
    toml_model::lemma_at1(model, field);
    assert(toml_model::setting(read, path) == toml_model::setting(model, path));
    assert(toml_model::setting(read, seq![field]) == toml_model::setting(model, seq![field]));
    assert(toml_model::at(read, seq![field]) is Some ==> toml_model::at(model, seq![field]) is Some);
    if trimmed.len() == 0 {
        lemma_root_remove(tree, field, edits);
        toml_model::lemma_get_without(tree, field, field);
        toml_model::lemma_setting_without(tree, field, path);
    } else {
        lemma_root_assign(tree, field, trimmed, edits);
        toml_model::lemma_get_with(tree, field, TomlView::Str(trimmed), field);
        toml_model::lemma_setting_with(tree, field, TomlView::Str(trimmed), path);
    }
}

/// A field of the active provider that was set is read as it was set, trimmed, from the table of
/// that provider, which is made where it is missing.
pub proof fn law_a_written_provider_field_is_read(
    tree: TomlView,
    field: Seq<char>,
    value: Seq<char>,
    read: TomlView,
)
    requires
        tree is Table,
        config_fields::is_routed_field(field),
        !text::is_blank(value),
        tree.get_text("model_provider"@) is Some,
        match tree.get("model_providers"@) {
            Some(providers) => providers.is_table_like() ==> match providers.get(
                tree.get_text("model_provider"@)->Some_0,
            ) {
                Some(provider) => provider.is_table_like(),
                None => true,
            },
            None => true,
        },
        toml_model::same_settings(
            read,
            toml_model::applied_all(tree, config_fields::field_edits(tree, field, value)->Some_0),
        ),
    ensures
        toml_model::at(
            read,
            seq!["model_providers"@, tree.get_text("model_provider"@)->Some_0, field],
        ) == Some(TomlView::Str(text::trim(value))),
{
    let mp = "model_providers"@;
    let id = tree.get_text("model_provider"@)->Some_0;
    let trimmed = text::trim(value);
    let edits = config_fields::field_edits(tree, field, value)->Some_0;
    let model = toml_model::applied_all(tree, edits);
    let none = Seq::<EditView>::empty();
    let whole = seq![mp, id, field];
    let make_all = EditView::AssignTable { key: mp, implicit: false };
    let make_own = EditView::InsertTable { path: seq![mp], key: id };
    let set = EditView::InsertStr {
        path: official_route::provider_path(id),
        key: field,
        value: trimmed,
    };
    let empty = TomlView::Table(Seq::empty());
    let has_all = tree.get(mp) is Some && tree.get(mp)->Some_0.is_table_like();
    let has_own = has_all && tree.get(mp)->Some_0.get(id) is Some;
    let t0 = if has_all {
        tree
    } else {
        toml_model::lemma_get_with(tree, mp, empty, mp);
        toml_model::with_entry(tree, mp, empty)
    };
    let providers0 = t0.get(mp)->Some_0;
    let add = |t: TomlView| toml_model::with_entry(t, id, empty);
    let t1 = if has_own {
        t0
    } else {
        toml_model::lemma_edit_at1(t0, mp, add);
        let filled = toml_model::with_entry(providers0, id, empty);
        toml_model::lemma_get_with(providers0, id, empty, id);
        toml_model::lemma_get_with(t0, mp, filled, mp);
        toml_model::with_entry(t0, mp, filled)
    };
    let providers1 = t1.get(mp)->Some_0;
    let own1 = providers1.get(id)->Some_0;
    let put = |t: TomlView| toml_model::with_entry(t, field, TomlView::Str(trimmed));
    toml_model::lemma_edit_at2(t1, mp, id, put);
    toml_model::lemma_edit_at1(providers1, id, put);
    let new_own = toml_model::with_entry(own1, field, TomlView::Str(trimmed));
    let new_providers = toml_model::with_entry(providers1, id, new_own);
    toml_model::lemma_get_with(own1, field, TomlView::Str(trimmed), field);
    toml_model::lemma_get_with(providers1, id, new_own, id);
    toml_model::lemma_get_with(t1, mp, new_providers, mp);
    if has_own {
        assert(edits =~= none.push(set));
        toml_model::lemma_applied_push(tree, none, set);
    } else if has_all {
        assert(edits =~= none.push(make_own).push(set));
        toml_model::lemma_applied_push(tree, none, make_own);
        toml_model::lemma_applied_push(tree, none.push(make_own), set);
    } else {
        assert(edits =~= none.push(make_all).push(make_own).push(set));
        toml_model::lemma_applied_push(tree, none, make_all);
        toml_model::lemma_applied_push(tree, none.push(make_all), make_own);
        toml_model::lemma_applied_push(tree, none.push(make_all).push(make_own), set);
    }
    assert(model == toml_model::with_entry(t1, mp, new_providers));
    lemma_provider_at(model, id, field);
    lemma_provider_at(read, id, field);
    toml_model::lemma_read_setting(read, model, whole);
}

/// An address that was written is the one that is read, trimmed: whether a provider is active or
/// not, has a table or not, and whether that is in braces or not.
pub proof fn law_a_written_address_is_read(tree: TomlView, value: Seq<char>, read: TomlView)
    requires
        tree is Table,
        !text::is_blank(value),
        toml_model::same_settings(
            read,
            toml_model::applied_all(
                tree,
                config_fields::field_edits(tree, "base_url"@, value)->Some_0,
            ),
        ),
    ensures
        toml_value::base_url_of(read) == Some(text::trim(value)),
{
    let field = "base_url"@;
    let mp = "model_providers"@;
    let trimmed = text::trim(value);
    let edits = config_fields::field_edits(tree, field, value)->Some_0;
    let model = toml_model::applied_all(tree, edits);
    lemma_address_keys();
    lemma_same_text(read, model, "model_provider"@);
    lemma_same_text(read, model, field);
    match tree.get_text("model_provider"@) {
        None => {
            lemma_root_assign(tree, field, trimmed, edits);
            toml_model::lemma_get_with(tree, field, TomlView::Str(trimmed), field);
            toml_model::lemma_get_with(tree, field, TomlView::Str(trimmed), "model_provider"@);
        },
        Some(id) => {
            let blocked = tree.get(mp) matches Some(providers) && providers.is_table_like() && (
            providers.get(id) matches Some(provider) && !provider.is_table_like());
            if blocked {
                let set = TomlView::Str(trimmed);
                lemma_root_assign(tree, field, trimmed, edits);
                toml_model::lemma_get_with(tree, field, set, field);
                toml_model::lemma_get_with(tree, field, set, "model_provider"@);
                toml_model::lemma_get_with(tree, field, set, mp);
                lemma_provider_at(read, id, field);
                lemma_provider_at(model, id, field);
                let whole = seq![mp, id, field];
                assert(toml_model::at(read, whole) is Some ==> toml_model::at(model, whole) is Some);
            } else {
                law_a_written_provider_field_is_read(tree, field, value, read);
                lemma_field_keeps_choice(tree, field, value);
                lemma_provider_at(read, id, field);
            }
        },
    }
}

/// The address that was written into a config is the one that is found in it, trimmed, wherever the
/// new text is read for its values at all. `out` is the text that was written, and what is known of
/// it is what writing and finding promise.
pub proof fn law_a_written_address_is_found(config: Seq<char>, value: Seq<char>, out: Seq<char>)
    requires
        !text::is_blank(value),
        config_fields::with_field(config, "base_url"@, value) == Ok::<Seq<char>, Seq<char>>(out),
        config_fields::reads_address(out, "base_url"@, value),
        toml_value::reads_alike(out),
        toml_doc::toml_tree(out) matches Some(read) ==> toml_value::has_plain_keys(read),
    ensures
        toml_value::toml_values(out) matches Some(values) ==> toml_value::base_url_of(values)
            == Some(text::trim(value)),
{
    match (toml_value::toml_values(out), toml_doc::toml_tree(out)) {
        (Some(values), Some(read)) => {
            toml_value::lemma_same_values(values, read, "model"@);
        },
        _ => {},
    }
}

/// Taking an entry out of a table touches nothing else in it.
proof fn lemma_removal_touches_only(key: Seq<char>)
    ensures
        toml_model::touches_only(|t: TomlView| toml_model::without_entry(t, key), key),
{
    let change = |t: TomlView| toml_model::without_entry(t, key);
    assert forall|t: TomlView| t.is_table_like() implies (#[trigger] change(t)).is_table_like()
        && forall|k: Seq<char>| k != key ==> #[trigger] change(t).get(k) == t.get(k) by {
        assert forall|k: Seq<char>| k != key implies #[trigger] change(t).get(k) == t.get(k) by {
            toml_model::lemma_get_without(t, key, k);
        }
    }
}

/// Addresses that were taken out are not read any more, from the active provider's table, in braces
/// or not, or from the top level. All other settings stay.
pub proof fn law_removed_addresses_are_not_read(
    tree: TomlView,
    own: bool,
    top: bool,
    read: TomlView,
)
    requires
        tree is Table,
        own ==> config_fields::provider_base_url(tree) is Some,
        toml_model::same_settings(
            read,
            toml_model::applied_all(tree, config_fields::base_url_removals(tree, own, top)),
        ),
    ensures
        own ==> config_fields::provider_base_url(read) is None,
        top ==> read.get("base_url"@) is None,
        forall|path: Seq<Seq<char>>|
            !(own && config_fields::address_place(tree).is_prefix_of(path)) && !(top && seq![
                "base_url"@,
            ].is_prefix_of(path)) ==> #[trigger] toml_model::setting(read, path)
                == toml_model::setting(tree, path),
{
    lemma_address_keys();
    let key = "base_url"@;
    let mp = "model_providers"@;
    let none = Seq::<EditView>::empty();
    let id = tree.get_text("model_provider"@)->Some_0;
    let change = |t: TomlView| toml_model::without_entry(t, key);
    lemma_removal_touches_only(key);
    let own_path = official_route::provider_path(id);
    let e0 = EditView::Remove { path: own_path, key };
    let e1 = EditView::Remove { path: toml_doc::root(), key };
    let edits = config_fields::base_url_removals(tree, own, top);
    let first_edits = if own {
        seq![e0]
    } else {
        none
    };
    let first = toml_model::applied_all(tree, first_edits);
    let model = toml_model::applied_all(tree, edits);
    let whole = seq![mp, id, key];
    let choice = seq!["model_provider"@];
    if own {
        assert(seq![e0] =~= none.push(e0));
        toml_model::lemma_applied_push(tree, none, e0);
        assert(first == toml_model::edit_at(tree, own_path, change));
        let providers = tree.get(mp)->Some_0;
        let table = providers.get(id)->Some_0;
        toml_model::lemma_edit_at2(tree, mp, id, change);
        toml_model::lemma_edit_at1(providers, id, change);
        let new_table = toml_model::without_entry(table, key);
        let new_providers = toml_model::with_entry(providers, id, new_table);
        toml_model::lemma_get_without(table, key, key);
        toml_model::lemma_get_with(providers, id, new_table, id);
        toml_model::lemma_get_with(tree, mp, new_providers, mp);
        lemma_provider_at(first, id, key);
        assert(own_path.push(key) =~= whole);
        assert(toml_model::at(first, whole) is None);
    } else {
        assert(first == tree);
    }
    if top {
        assert(edits =~= first_edits.push(e1));
        toml_model::lemma_applied_push(tree, first_edits, e1);
        assert(model == toml_model::edit_at(first, toml_doc::root(), change));
        assert(toml_doc::root().push(key) =~= seq![key]);
        assert(first is Table);
        toml_model::lemma_get_without(first, key, key);
        toml_model::lemma_at1(model, key);
        toml_model::lemma_at1(read, key);
        assert(toml_model::at(read, seq![key]) is Some ==> toml_model::at(model, seq![key]) is Some);
    } else {
        assert(edits =~= first_edits);
    }
    assert forall|path: Seq<Seq<char>>|
        !(own && whole.is_prefix_of(path)) && !(top && seq![key].is_prefix_of(
            path,
        )) implies #[trigger] toml_model::setting(read, path) == toml_model::setting(tree, path)
        && (toml_model::at(model, path) is Some == toml_model::at(tree, path) is Some) by {
        assert(toml_model::setting(read, path) == toml_model::setting(model, path));
        if own {
            toml_model::lemma_edit_elsewhere(tree, own_path, key, change, path);
        }
        if top {
            toml_model::lemma_edit_elsewhere(first, toml_doc::root(), key, change, path);
        }
    }
    if own {
        if top {
            assert(whole[0] != key);
            assert(seq![key][0] == key);
            toml_model::lemma_edit_elsewhere(first, toml_doc::root(), key, change, whole);
        }
        assert(toml_model::at(read, whole) is Some ==> toml_model::at(model, whole) is Some);
        lemma_provider_at(read, id, key);
        assert(choice[0] == "model_provider"@);
        assert(whole[0] == mp);
        assert(seq![key][0] == key);
        toml_model::lemma_at1(read, "model_provider"@);
        toml_model::lemma_at1(tree, "model_provider"@);
        assert(toml_model::setting(read, choice) == toml_model::setting(tree, choice));
    }
}

proof fn lemma_address_keys()
    ensures
        "base_url"@ != "model_provider"@,
        "base_url"@ != "model_providers"@,
        "model_provider"@ != "model_providers"@,
{
    reveal_strlit("base_url");
    reveal_strlit("model_provider");
    reveal_strlit("model_providers");
    assert("base_url"@.len() == 8);
    assert("model_provider"@.len() == 14);
    assert("model_providers"@.len() == 15);
}

/// A change at or below the table of providers leaves the choice of the provider.
proof fn lemma_keeps_choice(tree: TomlView, edit: EditView)
    requires
        tree is Table,
        match edit {
            EditView::AssignTable { key, .. } => key == "model_providers"@,
            EditView::InsertTable { path, .. } => path.len() > 0 && path[0] == "model_providers"@,
            EditView::InsertStr { path, .. } => path.len() > 0 && path[0] == "model_providers"@,
            _ => false,
        },
    ensures
        toml_model::applied(tree, edit) is Table,
        toml_model::applied(tree, edit).get("model_provider"@) == tree.get("model_provider"@),
{
    lemma_address_keys();
    broadcast use toml_model::lemma_get_with;

}

/// Setting a field of a provider leaves the choice of the provider.
proof fn lemma_field_keeps_choice(tree: TomlView, field: Seq<char>, value: Seq<char>)
    requires
        tree is Table,
        config_fields::is_routed_field(field),
        !text::is_blank(value),
        tree.get_text("model_provider"@) matches Some(id) && !(tree.get("model_providers"@) matches Some(
            providers,
        ) && providers.is_table_like() && (providers.get(id) matches Some(provider)
            && !provider.is_table_like())),
    ensures
        toml_model::applied_all(
            tree,
            config_fields::field_edits(tree, field, value)->Some_0,
        ).get("model_provider"@) == tree.get("model_provider"@),
{
    let mp = "model_providers"@;
    let id = tree.get_text("model_provider"@)->Some_0;
    let edits = config_fields::field_edits(tree, field, value)->Some_0;
    let none = Seq::<EditView>::empty();
    let make_all = EditView::AssignTable { key: mp, implicit: false };
    let make_own = EditView::InsertTable { path: seq![mp], key: id };
    let set = EditView::InsertStr {
        path: official_route::provider_path(id),
        key: field,
        value: text::trim(value),
    };
    let has_all = tree.get(mp) is Some && tree.get(mp)->Some_0.is_table_like();
    let has_own = has_all && tree.get(mp)->Some_0.get(id) is Some;
    if has_own {
        assert(edits =~= none.push(set));
        toml_model::lemma_applied_push(tree, none, set);
        lemma_keeps_choice(tree, set);
    } else if has_all {
        assert(edits =~= none.push(make_own).push(set));
        toml_model::lemma_applied_push(tree, none, make_own);
        toml_model::lemma_applied_push(tree, none.push(make_own), set);
        lemma_keeps_choice(tree, make_own);
        lemma_keeps_choice(toml_model::applied(tree, make_own), set);
    } else {
        assert(edits =~= none.push(make_all).push(make_own).push(set));
        toml_model::lemma_applied_push(tree, none, make_all);
        toml_model::lemma_applied_push(tree, none.push(make_all), make_own);
        toml_model::lemma_applied_push(tree, none.push(make_all).push(make_own), set);
        let t0 = toml_model::applied(tree, make_all);
        let t1 = toml_model::applied(t0, make_own);
        lemma_keeps_choice(tree, make_all);
        lemma_keeps_choice(t0, make_own);
        lemma_keeps_choice(t1, set);
    }
}

/// Once the MCP servers were taken out of a config none are read from it.
pub proof fn law_stripped_servers_are_not_read(tree: TomlView, read: TomlView)
    requires
        tree is Table,
        toml_model::same_settings(
            read,
            toml_model::applied_all(tree, live_config::mcp_edits(tree)),
        ),
    ensures
        !live_config::has_mcp_servers(read),
{
    reveal_strlit("mcp_servers");
    reveal_strlit("mcp");
    assert("mcp_servers"@.len() == 11);
    assert("mcp"@.len() == 3);
    let none = Seq::<EditView>::empty();
    let edits = live_config::mcp_edits(tree);
    let model = toml_model::applied_all(tree, edits);
    let e0 = EditView::Remove { path: toml_doc::root(), key: "mcp_servers"@ };
    let e1 = EditView::Remove { path: seq!["mcp"@], key: "servers"@ };
    let e2 = EditView::Remove { path: toml_doc::root(), key: "mcp"@ };
    let t0 = toml_model::without_entry(tree, "mcp_servers"@);
    toml_model::lemma_applied_push(tree, none, e0);
    toml_model::lemma_get_without(tree, "mcp_servers"@, "mcp_servers"@);
    toml_model::lemma_get_without(tree, "mcp_servers"@, "mcp"@);
    assert(none.push(e0) =~= seq![e0]);
    assert(toml_model::applied_all(tree, seq![e0]) == t0);
    toml_model::lemma_at1(read, "mcp_servers"@);
    toml_model::lemma_at1(model, "mcp_servers"@);
    toml_model::lemma_at2(read, "mcp"@, "servers"@);
    toml_model::lemma_at2(model, "mcp"@, "servers"@);
    let path = seq!["mcp"@, "servers"@];
    assert(toml_model::at(read, path) is Some ==> toml_model::at(model, path) is Some);
    assert(toml_model::at(read, seq!["mcp_servers"@]) is Some ==> toml_model::at(
        model,
        seq!["mcp_servers"@],
    ) is Some);
    match tree.get("mcp"@) {
        Some(mcp) => match mcp.entries() {
            Some(entries) => {
                let change = |t: TomlView| toml_model::without_entry(t, "servers"@);
                toml_model::lemma_applied_push(tree, seq![e0], e1);
                toml_model::lemma_edit_at1(t0, "mcp"@, change);
                let cleaned = toml_model::without_entry(mcp, "servers"@);
                let t1 = toml_model::with_entry(t0, "mcp"@, cleaned);
                toml_model::lemma_get_without(mcp, "servers"@, "servers"@);
                toml_model::lemma_get_with(t0, "mcp"@, cleaned, "mcp"@);
                toml_model::lemma_get_with(t0, "mcp"@, cleaned, "mcp_servers"@);
                if live_config::has_no_other(entries, "servers"@) {
                    assert(edits =~= seq![e0].push(e1).push(e2));
                    toml_model::lemma_applied_push(tree, seq![e0].push(e1), e2);
                    toml_model::lemma_get_without(t1, "mcp"@, "mcp"@);
                    toml_model::lemma_get_without(t1, "mcp"@, "mcp_servers"@);
                } else {
                    assert(edits =~= seq![e0].push(e1));
                }
            },
            None => {
                assert(edits =~= seq![e0]);
            },
        },
        None => {
            assert(edits =~= seq![e0]);
        },
    }
}

/// Where a token is written: into the table of the active provider, where that is none of Codex's own
/// and has one, and else at the top level.
pub proof fn law_where_a_token_is_written(tree: TomlView)
    ensures
        ({
            let active = config_fields::active_provider(tree);
            let own = active is Some && config_fields::is_custom_id(active->Some_0)
                && official_route::open_table(tree, active->Some_0) is Some;
            &&& own ==> config_fields::token_place(tree) == seq![
                "model_providers"@,
                active->Some_0,
                "experimental_bearer_token"@,
            ]
            &&& !own ==> config_fields::token_place(tree) == seq!["experimental_bearer_token"@]
        }),
{
    let active = config_fields::active_provider(tree);
    let key = "experimental_bearer_token"@;
    assert(toml_doc::root().push(key) =~= seq![key]);
    if active is Some {
        assert(official_route::provider_path(active->Some_0).push(key) =~= seq![
            "model_providers"@,
            active->Some_0,
            key,
        ]);
    }
}

/// Taking tokens out takes out those that were asked for, and leaves every other setting.
pub proof fn law_removed_tokens_leave_the_rest(
    tree: TomlView,
    own: bool,
    top: bool,
    read: TomlView,
    path: Seq<Seq<char>>,
)
    requires
        tree is Table,
        own ==> config_fields::active_provider(tree) is Some,
        toml_model::same_settings(
            read,
            toml_model::applied_all(tree, config_fields::token_removals(tree, own, top)),
        ),
        own ==> !seq![
            "model_providers"@,
            config_fields::active_provider(tree)->Some_0,
            "experimental_bearer_token"@,
        ].is_prefix_of(path),
        top ==> !seq!["experimental_bearer_token"@].is_prefix_of(path),
    ensures
        toml_model::setting(read, path) == toml_model::setting(tree, path),
{
    let key = "experimental_bearer_token"@;
    let none = Seq::<EditView>::empty();
    let id = config_fields::active_provider(tree)->Some_0;
    let change = |t: TomlView| toml_model::without_entry(t, key);
    lemma_removal_touches_only(key);
    let own_path = official_route::provider_path(id);
    let e0 = EditView::Remove { path: own_path, key };
    let e1 = EditView::Remove { path: toml_doc::root(), key };
    let edits = config_fields::token_removals(tree, own, top);
    let first_edits = if own {
        seq![e0]
    } else {
        none
    };
    let first = toml_model::applied_all(tree, first_edits);
    let model = toml_model::applied_all(tree, edits);
    if own {
        assert(seq![e0] =~= none.push(e0));
        toml_model::lemma_applied_push(tree, none, e0);
        assert(first == toml_model::edit_at(tree, own_path, change));
        assert(own_path.push(key) =~= seq!["model_providers"@, id, key]);
        toml_model::lemma_edit_elsewhere(tree, own_path, key, change, path);
    } else {
        assert(first == tree);
    }
    if top {
        assert(edits =~= first_edits.push(e1));
        toml_model::lemma_applied_push(tree, first_edits, e1);
        assert(model == toml_model::edit_at(first, toml_doc::root(), change));
        assert(toml_doc::root().push(key) =~= seq![key]);
        toml_model::lemma_edit_elsewhere(first, toml_doc::root(), key, change, path);
    } else {
        assert(edits =~= first_edits);
    }
    assert(toml_model::setting(read, path) == toml_model::setting(model, path));
}

/// Four fields of a config can be set, and any other is an error that names it.
pub proof fn law_which_fields_can_be_set(
    config: Seq<char>,
    tree: TomlView,
    field: Seq<char>,
    value: Seq<char>,
)
    requires
        toml_doc::toml_tree(config) == Some(tree),
    ensures
        ({
            let known = field == "base_url"@ || field == "wire_api"@ || field == "model"@ || field
                == "model_catalog_json"@;
            &&& known <==> config_fields::field_edits(tree, field, value) is Some
            &&& !known ==> config_fields::with_field(config, field, value) == Err::<
                Seq<char>,
                Seq<char>,
            >("unsupported field: "@ + field)
        }),
{
}

/// Setting a field of the active provider leaves every other setting, and a blank value takes the
/// field out.
pub proof fn law_a_provider_field_leaves_the_rest(
    tree: TomlView,
    id: Seq<char>,
    field: Seq<char>,
    value: Seq<char>,
    read: TomlView,
    path: Seq<Seq<char>>,
)
    requires
        tree is Table,
        field == "base_url"@ || field == "wire_api"@,
        tree.get("model_provider"@) == Some(TomlView::Str(id)),
        tree.get("model_providers"@) matches Some(providers) && providers.is_table_like() && (
        providers.get(id) matches Some(provider) && provider.is_table_like()),
        toml_model::same_settings(
            read,
            toml_model::applied_all(tree, config_fields::field_edits(tree, field, value)->Some_0),
        ),
    ensures
        !seq!["model_providers"@, id, field].is_prefix_of(path) ==> toml_model::setting(read, path)
            == toml_model::setting(tree, path),
        text::is_blank(value) ==> toml_model::at(read, seq!["model_providers"@, id, field]) is None,
{
    let mp = "model_providers"@;
    let trimmed = text::trim(value);
    let edits = config_fields::field_edits(tree, field, value)->Some_0;
    let model = toml_model::applied_all(tree, edits);
    let none = Seq::<EditView>::empty();
    let own_path = official_route::provider_path(id);
    let whole = seq![mp, id, field];
    assert(own_path.push(field) =~= whole);
    let put = |t: TomlView| toml_model::with_entry(t, field, TomlView::Str(trimmed));
    let take = |t: TomlView| toml_model::without_entry(t, field);
    let edit = config_fields::provider_field_edit(id, field, trimmed);
    assert(edits =~= none.push(edit));
    toml_model::lemma_applied_push(tree, none, edit);
    lemma_removal_touches_only(field);
    assert(toml_model::touches_only(put, field)) by {
        assert forall|t: TomlView| t.is_table_like() implies (#[trigger] put(t)).is_table_like()
            && forall|k: Seq<char>| k != field ==> #[trigger] put(t).get(k) == t.get(k) by {
            assert forall|k: Seq<char>| k != field implies #[trigger] put(t).get(k) == t.get(k) by {
                toml_model::lemma_get_with(t, field, TomlView::Str(trimmed), k);
            }
        }
    }
    assert(toml_model::setting(read, path) == toml_model::setting(model, path));
    if trimmed.len() == 0 {
        assert(model == toml_model::edit_at(tree, own_path, take));
        if !whole.is_prefix_of(path) {
            toml_model::lemma_edit_elsewhere(tree, own_path, field, take, path);
        }
        let providers = tree.get(mp)->Some_0;
        let table = providers.get(id)->Some_0;
        toml_model::lemma_edit_at2(tree, mp, id, take);
        toml_model::lemma_edit_at1(providers, id, take);
        let new_table = toml_model::without_entry(table, field);
        let new_providers = toml_model::with_entry(providers, id, new_table);
        toml_model::lemma_get_without(table, field, field);
        toml_model::lemma_get_with(providers, id, new_table, id);
        toml_model::lemma_get_with(tree, mp, new_providers, mp);
        lemma_provider_at(model, id, field);
        assert(toml_model::at(read, whole) is Some ==> toml_model::at(model, whole) is Some);
    } else {
        assert(model == toml_model::edit_at(tree, own_path, put));
        if !whole.is_prefix_of(path) {
            toml_model::lemma_edit_elsewhere(tree, own_path, field, put, path);
        }
    }
}

/// Without an active provider a field is set at the top level, a blank value takes it out, and every
/// other setting stays.
pub proof fn law_without_a_provider_a_field_is_set_at_the_top(
    tree: TomlView,
    field: Seq<char>,
    value: Seq<char>,
    read: TomlView,
    path: Seq<Seq<char>>,
)
    requires
        tree is Table,
        field == "base_url"@ || field == "wire_api"@,
        tree.get("model_provider"@) is None,
        toml_model::same_settings(
            read,
            toml_model::applied_all(tree, config_fields::field_edits(tree, field, value)->Some_0),
        ),
        path.len() > 0,
    ensures
        text::is_blank(value) ==> read.get(field) is None,
        !text::is_blank(value) ==> read.get(field) == Some(TomlView::Str(text::trim(value))),
        path[0] != field ==> toml_model::setting(read, path) == toml_model::setting(tree, path),
{
    let trimmed = text::trim(value);
    let edits = config_fields::field_edits(tree, field, value)->Some_0;
    let model = toml_model::applied_all(tree, edits);
    let none = Seq::<EditView>::empty();
    let edit = config_fields::root_field_edit(field, trimmed);
    assert(edits =~= none.push(edit));
    toml_model::lemma_applied_push(tree, none, edit);
    toml_model::lemma_at1(read, field);
    toml_model::lemma_at1(model, field);
    assert(toml_model::setting(read, path) == toml_model::setting(model, path));
    assert(toml_model::at(read, seq![field]) is Some ==> toml_model::at(model, seq![field]) is Some);
    if trimmed.len() == 0 {
        assert(model == toml_model::without_entry(tree, field));
        toml_model::lemma_get_without(tree, field, field);
        toml_model::lemma_setting_without(tree, field, path);
    } else {
        assert(model == toml_model::with_entry(tree, field, TomlView::Str(trimmed)));
        toml_model::lemma_get_with(tree, field, TomlView::Str(trimmed), field);
        toml_model::lemma_setting_with(tree, field, TomlView::Str(trimmed), path);
        toml_model::lemma_read_setting(read, model, seq![field]);
    }
}

/// What a gateway's web search is set to is spelt as Codex reads it, and every other setting stays.
pub proof fn law_how_the_web_search_is_spelt(
    tree: TomlView,
    disable: bool,
    read: TomlView,
    path: Seq<Seq<char>>,
)
    requires
        tree is Table,
        toml_model::same_settings(
            read,
            toml_model::applied_all(tree, config_fields::web_search_edits(tree, disable)),
        ),
        path.len() > 0,
    ensures
        disable ==> read.get_text("web_search"@) == Some("disabled"@),
        !disable ==> read.get_text("web_search"@) == (if tree.get_text("web_search"@) == Some(
            "disabled"@,
        ) {
            None
        } else {
            tree.get_text("web_search"@)
        }),
        path[0] != "web_search"@ ==> toml_model::setting(read, path) == toml_model::setting(
            tree,
            path,
        ),
{
    law_the_web_search_switch_reads_back(tree, disable, read, path);
    let edits = config_fields::web_search_edits(tree, disable);
    let model = toml_model::applied_all(tree, edits);
    lemma_same_text(read, model, "web_search"@);
    if !disable && tree.get_text("web_search"@) == Some("disabled"@) {
        lemma_root_remove(tree, "web_search"@, edits);
        toml_model::lemma_get_without(tree, "web_search"@, "web_search"@);
    }
}

} // verus!
