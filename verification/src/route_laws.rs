//! What holds of the official provider's route across its functions.

use crate::error::ErrorView;
use crate::official_route::{
    CC_SWITCH_CODEX_MODEL_PROVIDER_ID, CC_SWITCH_CODEX_OFFICIAL_PROXY_PROVIDER_ID,
    CODEX_PROXY_AUTH_PLACEHOLDER,
};
use crate::toml_doc::{EditView, TomlView};
use crate::{official_route, text, toml_doc, toml_model, unified_session};
use vstd::prelude::*;
use vstd::string::*;

verus! {

broadcast use {
    toml_model::lemma_get_with,
    toml_model::lemma_get_without,
    toml_model::lemma_applied_push,
    toml_model::lemma_applied_append,
};

/// The keys that the route is made of differ from one another.
proof fn lemma_keys()
    ensures
        "model_provider"@ != "model_providers"@,
        "model_provider"@ != "experimental_bearer_token"@,
        "model_providers"@ != "experimental_bearer_token"@,
        "name"@ != "requires_openai_auth"@,
        "name"@ != "supports_websockets"@,
        "name"@ != "wire_api"@,
        "name"@ != "base_url"@,
        "name"@ != "experimental_bearer_token"@,
        "requires_openai_auth"@ != "supports_websockets"@,
        "requires_openai_auth"@ != "wire_api"@,
        "requires_openai_auth"@ != "base_url"@,
        "requires_openai_auth"@ != "experimental_bearer_token"@,
        "supports_websockets"@ != "wire_api"@,
        "supports_websockets"@ != "base_url"@,
        "supports_websockets"@ != "experimental_bearer_token"@,
        "wire_api"@ != "base_url"@,
        "wire_api"@ != "experimental_bearer_token"@,
        "base_url"@ != "experimental_bearer_token"@,
        CC_SWITCH_CODEX_MODEL_PROVIDER_ID@ != CC_SWITCH_CODEX_OFFICIAL_PROXY_PROVIDER_ID@,
{
    reveal_strlit("model_provider");
    reveal_strlit("model_providers");
    reveal_strlit("experimental_bearer_token");
    reveal_strlit("name");
    reveal_strlit("requires_openai_auth");
    reveal_strlit("supports_websockets");
    reveal_strlit("wire_api");
    reveal_strlit("base_url");
    reveal_strlit("custom");
    reveal_strlit("cc-switch-official");
    assert("model_provider"@.len() == 14);
    assert("model_providers"@.len() == 15);
    assert("experimental_bearer_token"@.len() == 25);
    assert("name"@.len() == 4);
    assert("requires_openai_auth"@.len() == 20);
    assert("supports_websockets"@.len() == 19);
    assert("wire_api"@.len() == 8);
    assert("base_url"@.len() == 8);
    assert("wire_api"@[0] != "base_url"@[0]);
    assert("custom"@.len() == 6);
    assert("cc-switch-official"@.len() == 18);
}

/// Whether `tree` has a table of providers.
spec fn has_providers(tree: TomlView) -> bool {
    tree is Table && (tree.get("model_providers"@) matches Some(providers)
        && providers.is_table_like())
}

/// The table of a provider after a change to it: the other providers, and the rest of the root,
/// stay.
proof fn lemma_provider_edit(
    tree: TomlView,
    id: Seq<char>,
    change: spec_fn(TomlView) -> TomlView,
)
    requires
        has_providers(tree),
    ensures
        ({
            let r = toml_model::edit_at(tree, official_route::provider_path(id), change);
            let providers = tree.get("model_providers"@)->Some_0;
            let after = r.get("model_providers"@)->Some_0;
            &&& has_providers(r)
            &&& (after is Table) == (providers is Table)
            &&& forall|k: Seq<char>| k != "model_providers"@ ==> #[trigger] r.get(k) == tree.get(k)
            &&& forall|k: Seq<char>| k != id ==> #[trigger] after.get(k) == providers.get(k)
            &&& (providers.get(id) matches Some(table) && table.is_table_like()) ==> after.get(id)
                == Some(change(providers.get(id)->Some_0))
        }),
{
    let providers = tree.get("model_providers"@)->Some_0;
    toml_model::lemma_edit_at2(tree, "model_providers"@, id, change);
    toml_model::lemma_edit_at1(providers, id, change);
}

/// What the table of the official provider holds after it was written.
proof fn lemma_official_table(
    tree: TomlView,
    id: Seq<char>,
    base_url: Option<Seq<char>>,
    websockets: bool,
    openai_auth: bool,
)
    requires
        has_providers(tree),
    ensures
        ({
            let r = toml_model::applied_all(
                tree,
                official_route::official_table_edits(id, base_url, websockets, openai_auth),
            );
            let providers = tree.get("model_providers"@)->Some_0;
            let after = r.get("model_providers"@)->Some_0;
            let table = after.get(id)->Some_0;
            &&& has_providers(r)
            &&& (after is Table) == (providers is Table)
            &&& forall|k: Seq<char>| k != "model_providers"@ ==> #[trigger] r.get(k) == tree.get(k)
            &&& forall|k: Seq<char>| k != id ==> #[trigger] after.get(k) == providers.get(k)
            &&& after.get(id) is Some
            &&& table is Table
            &&& table.get("name"@) == Some(TomlView::Str("OpenAI"@))
            &&& table.get("requires_openai_auth"@) == Some(TomlView::Bool(openai_auth))
            &&& table.get("supports_websockets"@) == Some(TomlView::Bool(websockets))
            &&& table.get("wire_api"@) == Some(TomlView::Str("responses"@))
            &&& match base_url {
                Some(url) => table.get("base_url"@) == Some(
                    TomlView::Str(text::trim_slashes(url)),
                ),
                None => table.get("base_url"@) is None,
            }
            &&& forall|k: Seq<char>|
                k != "name"@ && k != "requires_openai_auth"@ && k != "supports_websockets"@ && k
                    != "wire_api"@ && k != "base_url"@ ==> (#[trigger] table.get(k)) is None
        }),
{
    lemma_keys();
    let path = official_route::provider_path(id);
    let e0 = EditView::InsertTable { path: seq!["model_providers"@], key: id };
    let e1 = EditView::AssignStr { path, key: "name"@, value: "OpenAI"@ };
    let e2 = EditView::AssignBool { path, key: "requires_openai_auth"@, on: openai_auth };
    let e3 = EditView::AssignBool { path, key: "supports_websockets"@, on: websockets };
    let e4 = EditView::AssignStr { path, key: "wire_api"@, value: "responses"@ };
    let none = Seq::<EditView>::empty();
    let fields = none.push(e0).push(e1).push(e2).push(e3).push(e4);
    let written = official_route::official_table_edits(id, None, websockets, openai_auth);
    assert(written =~= fields);
    let providers = tree.get("model_providers"@)->Some_0;
    let empty = TomlView::Table(Seq::empty());
    let c0 = |t: TomlView| toml_model::with_entry(t, id, TomlView::Table(Seq::empty()));
    let t0 = toml_model::applied(tree, e0);
    toml_model::lemma_edit_at1(tree, "model_providers"@, c0);
    assert(t0.get("model_providers"@) == Some(c0(providers)));
    assert(has_providers(t0));
    assert(forall|k: Seq<char>| (#[trigger] empty.get(k)) is None);
    let c1 = |t: TomlView| toml_model::with_entry(t, "name"@, TomlView::Str("OpenAI"@));
    let c2 = |t: TomlView|
        toml_model::with_entry(t, "requires_openai_auth"@, TomlView::Bool(openai_auth));
    let c3 = |t: TomlView|
        toml_model::with_entry(t, "supports_websockets"@, TomlView::Bool(websockets));
    let c4 = |t: TomlView| toml_model::with_entry(t, "wire_api"@, TomlView::Str("responses"@));
    let t1 = toml_model::applied(t0, e1);
    lemma_provider_edit(t0, id, c1);
    let t2 = toml_model::applied(t1, e2);
    lemma_provider_edit(t1, id, c2);
    let t3 = toml_model::applied(t2, e3);
    lemma_provider_edit(t2, id, c3);
    let t4 = toml_model::applied(t3, e4);
    lemma_provider_edit(t3, id, c4);
    assert(toml_model::applied_all(tree, fields) == t4);
    match base_url {
        Some(url) => {
            let value = text::trim_slashes(url);
            let e5 = EditView::AssignStr { path, key: "base_url"@, value };
            let c5 = |t: TomlView| toml_model::with_entry(t, "base_url"@, TomlView::Str(value));
            assert(official_route::official_table_edits(id, base_url, websockets, openai_auth)
                == written.push(e5));
            lemma_provider_edit(t4, id, c5);
        },
        None => {},
    }
}

/// Whether two providers differ in nothing but the bearer token.
pub open spec fn same_but_token(a: Option<TomlView>, b: Option<TomlView>) -> bool {
    match (a, b) {
        (Some(a), Some(b)) => {
            &&& a.is_table_like() == b.is_table_like()
            &&& (a is Table) == (b is Table)
            &&& !a.is_table_like() ==> a == b
            &&& forall|k: Seq<char>|
                k != "experimental_bearer_token"@ ==> #[trigger] a.get(k) == b.get(k)
        },
        (None, None) => true,
        _ => false,
    }
}

/// Whether none of the entries for a provider carries the placeholder token, or the provider is
/// skipped.
spec fn keeps_token(
    entries: Seq<(Seq<char>, TomlView)>,
    skip: Option<Seq<char>>,
    id: Seq<char>,
) -> bool {
    skip == Some(id) || forall|i: int|
        0 <= i < entries.len() && (#[trigger] entries[i]).0 == id
            ==> !official_route::has_placeholder(entries[i].1)
}

/// Taking placeholder tokens out leaves the rest of the providers, and of the root.
proof fn lemma_placeholder_edits(
    tree: TomlView,
    entries: Seq<(Seq<char>, TomlView)>,
    skip: Option<Seq<char>>,
)
    requires
        has_providers(tree),
    ensures
        ({
            let r = toml_model::applied_all(tree, official_route::placeholder_edits(entries, skip));
            let providers = tree.get("model_providers"@)->Some_0;
            let after = r.get("model_providers"@)->Some_0;
            &&& has_providers(r)
            &&& (after is Table) == (providers is Table)
            &&& forall|k: Seq<char>| k != "model_providers"@ ==> #[trigger] r.get(k) == tree.get(k)
            &&& forall|k: Seq<char>|
                same_but_token(#[trigger] after.get(k), providers.get(k))
            &&& forall|k: Seq<char>|
                keeps_token(entries, skip, k) ==> #[trigger] after.get(k) == providers.get(k)
        }),
    decreases entries.len(),
{
    let providers = tree.get("model_providers"@)->Some_0;
    if entries.len() > 0 {
        let rest = entries.drop_last();
        lemma_placeholder_edits(tree, rest, skip);
        let front = official_route::placeholder_edits(rest, skip);
        let (id, item) = entries.last();
        let change = |t: TomlView| toml_model::without_entry(t, "experimental_bearer_token"@);
        let middle = toml_model::applied_all(tree, front);
        let r = toml_model::applied_all(tree, official_route::placeholder_edits(entries, skip));
        lemma_provider_edit(middle, id, change);
        let before = middle.get("model_providers"@)->Some_0;
        let after = r.get("model_providers"@)->Some_0;
        assert forall|k: Seq<char>| same_but_token(#[trigger] after.get(k), providers.get(k)) by {
            assert(same_but_token(before.get(k), providers.get(k)));
            if k == id && before.get(id) is Some {
                let table = before.get(id)->Some_0;
                if !table.is_table_like() {
                    toml_model::lemma_edit_at2(middle, "model_providers"@, id, change);
                    toml_model::lemma_edit_at1(before, id, change);
                }
            } else if k == id {
                toml_model::lemma_edit_at2(middle, "model_providers"@, id, change);
                toml_model::lemma_edit_at1(before, id, change);
            }
        }
        assert forall|k: Seq<char>| keeps_token(entries, skip, k) implies #[trigger] after.get(k)
            == providers.get(k) by {
            assert(keeps_token(rest, skip, k)) by {
                assert forall|i: int| 0 <= i < rest.len() && (#[trigger] rest[i]).0 == k
                    && skip != Some(k) implies !official_route::has_placeholder(rest[i].1) by {
                    assert(entries[i] == rest[i]);
                }
            }
            assert(before.get(k) == providers.get(k));
            if k == id {
                assert(entries[entries.len() - 1].0 == k);
            }
        }
    } else {
        assert forall|k: Seq<char>| same_but_token(#[trigger] providers.get(k), providers.get(k)) by {}
    }
}

/// Whether a provider among the entries carries the placeholder token.
pub open spec fn has_placeholder_under(
    entries: Seq<(Seq<char>, TomlView)>,
    id: Seq<char>,
) -> bool {
    exists|i: int|
        0 <= i < entries.len() && (#[trigger] entries[i]).0 == id
            && official_route::has_placeholder(entries[i].1)
}

/// Whether the table of a provider, where there is one, has no token.
pub open spec fn has_no_token(item: Option<TomlView>) -> bool {
    item matches Some(table) && table.is_table_like() ==> item->Some_0.get(
        "experimental_bearer_token"@,
    ) is None
}

/// Taking placeholder tokens out leaves none.
proof fn lemma_placeholder_gone(
    tree: TomlView,
    entries: Seq<(Seq<char>, TomlView)>,
    skip: Option<Seq<char>>,
    k: Seq<char>,
)
    requires
        has_providers(tree),
        skip != Some(k),
        has_placeholder_under(entries, k),
    ensures
        ({
            let r = toml_model::applied_all(tree, official_route::placeholder_edits(entries, skip));
            has_no_token(r.get("model_providers"@)->Some_0.get(k))
        }),
    decreases entries.len(),
{
    let i = choose|i: int|
        0 <= i < entries.len() && (#[trigger] entries[i]).0 == k
            && official_route::has_placeholder(entries[i].1);
    let rest = entries.drop_last();
    let (id, item) = entries.last();
    let front = official_route::placeholder_edits(rest, skip);
    let middle = toml_model::applied_all(tree, front);
    let change = |t: TomlView| toml_model::without_entry(t, "experimental_bearer_token"@);
    lemma_placeholder_edits(tree, rest, skip);
    lemma_provider_edit(middle, id, change);
    let before = middle.get("model_providers"@)->Some_0;
    if id == k && official_route::has_placeholder(item) {
        if !(before.get(id) matches Some(table) && table.is_table_like()) {
            toml_model::lemma_edit_at2(middle, "model_providers"@, id, change);
            toml_model::lemma_edit_at1(before, id, change);
        }
    } else {
        assert(i < rest.len());
        assert(rest[i] == entries[i]);
        lemma_placeholder_gone(tree, rest, skip, k);
    }
}

/// What a read text says of a provider whose table was written.
proof fn lemma_read_provider(read: TomlView, model: TomlView, id: Seq<char>)
    requires
        toml_model::same_settings(read, model),
        has_providers(model),
        model.get("model_providers"@)->Some_0.get(id) matches Some(table)
            && table.is_table_like() && table.get("name"@) == Some(TomlView::Str("OpenAI"@)),
    ensures
        has_providers(read) || !(read is Table),
        read.get("model_providers"@) matches Some(providers) && providers.is_table_like(),
        official_route::provider_table(read, id) is Some,
        forall|k: Seq<char>|
            ({
                let table = model.get("model_providers"@)->Some_0.get(id)->Some_0;
                table.get(k) matches Some(v) && !v.is_table_like()
            }) ==> (#[trigger] official_route::provider_table(read, id)->Some_0.get(k))
                == model.get("model_providers"@)->Some_0.get(id)->Some_0.get(k),
        forall|k: Seq<char>|
            (#[trigger] official_route::provider_table(read, id)->Some_0.get(k)) is Some
                ==> model.get("model_providers"@)->Some_0.get(id)->Some_0.get(k) is Some,
{
    let mp = "model_providers"@;
    let table = model.get(mp)->Some_0.get(id)->Some_0;
    toml_model::lemma_at3(model, mp, id, "name"@);
    toml_model::lemma_read_setting(read, model, seq![mp, id, "name"@]);
    toml_model::lemma_at3(read, mp, id, "name"@);
    let found = official_route::provider_table(read, id)->Some_0;
    assert forall|k: Seq<char>|
        (table.get(k) matches Some(v) && !v.is_table_like()) implies (#[trigger] found.get(k))
        == table.get(k) by {
        toml_model::lemma_at3(model, mp, id, k);
        toml_model::lemma_read_setting(read, model, seq![mp, id, k]);
        toml_model::lemma_at3(read, mp, id, k);
    }
    assert forall|k: Seq<char>| (#[trigger] found.get(k)) is Some implies table.get(k) is Some by {
        toml_model::lemma_at3(model, mp, id, k);
        toml_model::lemma_at3(read, mp, id, k);
        assert(toml_model::at(read, seq![mp, id, k]) is Some);
    }
}

/// A config to which the route was applied is recognised as one that has the route, as long as
/// something is left of the proxy's address without its trailing slashes.
pub proof fn law_applied_route_is_recognised(
    tree: TomlView,
    base_url: Seq<char>,
    openai_auth: bool,
    read: TomlView,
)
    requires
        tree is Table,
        !official_route::providers_broken(tree),
        !text::is_blank(text::trim_slashes(base_url)),
        toml_model::same_settings(
            read,
            toml_model::applied_all(
                tree,
                official_route::route_edits(tree, base_url, openai_auth),
            ),
        ),
        toml_model::keeps_braces(
            read,
            toml_model::applied_all(
                tree,
                official_route::route_edits(tree, base_url, openai_auth),
            ),
            official_route::route_edits(tree, base_url, openai_auth),
        ),
    ensures
        official_route::has_route(read),
{
    lemma_keys();
    let id = CC_SWITCH_CODEX_OFFICIAL_PROXY_PROVIDER_ID@;
    let model = toml_model::applied_all(
        tree,
        official_route::route_edits(tree, base_url, openai_auth),
    );
    lemma_routed(tree, base_url, openai_auth);
    lemma_read_provider(read, model, id);
    toml_model::lemma_at1(model, "model_provider"@);
    toml_model::lemma_read_setting(read, model, seq!["model_provider"@]);
    toml_model::lemma_at1(read, "model_provider"@);
    let table = model.get("model_providers"@)->Some_0.get(id)->Some_0;
    let found = official_route::provider_table(read, id)->Some_0;
    assert(found.get("name"@) == table.get("name"@));
    assert(found.get("wire_api"@) == table.get("wire_api"@));
    assert(found.get("base_url"@) == table.get("base_url"@));
    assert(found.get("supports_websockets"@) == table.get("supports_websockets"@));
    lemma_route_edits_stay(tree, base_url, openai_auth);
    lemma_open_table_read(
        read,
        model,
        official_route::route_edits(tree, base_url, openai_auth),
        id,
    );
}

/// The table of a provider that is in no braces is read as one, where it is read.
proof fn lemma_open_table_read(
    read: TomlView,
    model: TomlView,
    edits: Seq<EditView>,
    id: Seq<char>,
)
    requires
        model is Table,
        toml_model::keeps_braces(read, model, edits),
        forall|i: int| 0 <= i < edits.len() ==> toml_model::stays_in_place(#[trigger] edits[i]),
        official_route::open_table(model, id) is Some,
        official_route::provider_table(read, id) is Some,
    ensures
        official_route::open_table(read, id) == official_route::provider_table(read, id),
{
    let mp = "model_providers"@;
    reveal_with_fuel(toml_model::all_tables, 3);
    assert(seq![mp, id].drop_first() =~= seq![id]);
    assert(seq![id].drop_first() =~= Seq::<Seq<char>>::empty());
    assert(seq![mp].drop_first() =~= Seq::<Seq<char>>::empty());
    assert(toml_model::all_tables(model, seq![mp]));
    assert(toml_model::all_tables(model, seq![mp, id]));
    toml_model::lemma_at1(read, mp);
    toml_model::lemma_at2(read, mp, id);
    assert(toml_model::at(read, seq![mp]) is Some);
    assert(toml_model::at(read, seq![mp, id]) is Some);
}

/// Applying the route copies nothing and gives nothing another name.
proof fn lemma_route_edits_stay(tree: TomlView, base_url: Seq<char>, openai_auth: bool)
    ensures
        forall|i: int|
            0 <= i < official_route::route_edits(tree, base_url, openai_auth).len()
                ==> toml_model::stays_in_place(
                #[trigger] official_route::route_edits(tree, base_url, openai_auth)[i],
            ),
{
    lemma_placeholder_edits_stay(
        toml_model::moved_entries(tree.get("model_providers"@)),
        None,
    );
}

/// Taking placeholder tokens out copies nothing and gives nothing another name.
proof fn lemma_placeholder_edits_stay(
    providers: Seq<(Seq<char>, TomlView)>,
    skip: Option<Seq<char>>,
)
    ensures
        forall|i: int|
            0 <= i < official_route::placeholder_edits(providers, skip).len()
                ==> toml_model::stays_in_place(
                #[trigger] official_route::placeholder_edits(providers, skip)[i],
            ),
    decreases providers.len(),
{
    if providers.len() > 0 {
        lemma_placeholder_edits_stay(providers.drop_last(), skip);
        let front = official_route::placeholder_edits(providers.drop_last(), skip);
        let all = official_route::placeholder_edits(providers, skip);
        assert forall|i: int| 0 <= i < all.len() implies toml_model::stays_in_place(
            #[trigger] all[i],
        ) by {
            if i < front.len() {
                assert(all[i] == front[i]);
            }
        }
    }
}

/// What a config holds after the route was applied.
proof fn lemma_routed(tree: TomlView, base_url: Seq<char>, openai_auth: bool)
    requires
        tree is Table,
        !official_route::providers_broken(tree),
    ensures
        ({
            let id = CC_SWITCH_CODEX_OFFICIAL_PROXY_PROVIDER_ID@;
            let r = toml_model::applied_all(
                tree,
                official_route::route_edits(tree, base_url, openai_auth),
            );
            let table = r.get("model_providers"@)->Some_0.get(id)->Some_0;
            &&& has_providers(r)
            &&& r.get("model_provider"@) == Some(TomlView::Str(id))
            &&& forall|k: Seq<char>|
                k != "model_providers"@ && k != "model_provider"@ && k
                    != "experimental_bearer_token"@ ==> #[trigger] r.get(k) == tree.get(k)
            &&& forall|k: Seq<char>|
                k != id ==> same_but_token(
                    #[trigger] r.get("model_providers"@)->Some_0.get(k),
                    toml_doc::find(toml_model::moved_entries(tree.get("model_providers"@)), k),
                )
            &&& forall|k: Seq<char>|
                k != id && keeps_token(
                    toml_model::moved_entries(tree.get("model_providers"@)),
                    None,
                    k,
                ) ==> #[trigger] r.get("model_providers"@)->Some_0.get(k) == toml_doc::find(
                    toml_model::moved_entries(tree.get("model_providers"@)),
                    k,
                )
            &&& r.get("model_providers"@)->Some_0 is Table
            &&& r.get("model_providers"@)->Some_0.get(id) is Some
            &&& table is Table
            &&& table.get("name"@) == Some(TomlView::Str("OpenAI"@))
            &&& table.get("supports_websockets"@) == Some(TomlView::Bool(false))
            &&& table.get("wire_api"@) == Some(TomlView::Str("responses"@))
            &&& table.get("base_url"@) == Some(TomlView::Str(text::trim_slashes(base_url)))
            &&& table.get("requires_openai_auth"@) == Some(TomlView::Bool(openai_auth))
            &&& table.get("experimental_bearer_token"@) == (if openai_auth {
                None
            } else {
                Some(TomlView::Str(CODEX_PROXY_AUTH_PLACEHOLDER@))
            })
            &&& r.get("experimental_bearer_token"@) is None
            &&& forall|k: Seq<char>|
                k != id && has_placeholder_under(
                    toml_model::moved_entries(tree.get("model_providers"@)),
                    k,
                ) ==> has_no_token(#[trigger] r.get("model_providers"@)->Some_0.get(k))
        }),
{
    lemma_keys();
    let id = CC_SWITCH_CODEX_OFFICIAL_PROXY_PROVIDER_ID@;
    let e0 = EditView::Remove { path: toml_doc::root(), key: "experimental_bearer_token"@ };
    let e1 = EditView::AssignStr { path: toml_doc::root(), key: "model_provider"@, value: id };
    let e2 = EditView::Retable { key: "model_providers"@ };
    assert(official_route::route_head() =~= Seq::<EditView>::empty().push(e0).push(e1).push(e2));
    let t0 = toml_model::applied(tree, e0);
    let t1 = toml_model::applied(t0, e1);
    let t2 = toml_model::applied(t1, e2);
    assert(toml_model::applied_all(tree, official_route::route_head()) == t2);
    assert(has_providers(t2));
    let entries = toml_model::moved_entries(tree.get("model_providers"@));
    let moved = TomlView::Table(entries);
    assert(t2.get("model_providers"@) == Some(moved));
    assert(forall|k: Seq<char>| #[trigger] moved.get(k) == toml_doc::find(entries, k));
    lemma_placeholder_edits(t2, entries, None);
    let t3 = toml_model::applied_all(t2, official_route::placeholder_edits(entries, None));
    assert forall|k: Seq<char>| has_placeholder_under(entries, k) implies has_no_token(
        #[trigger] t3.get("model_providers"@)->Some_0.get(k),
    ) by {
        lemma_placeholder_gone(t2, entries, None, k);
    }
    lemma_official_table(t3, id, Some(base_url), false, openai_auth);
    let t4 = toml_model::applied_all(
        t3,
        official_route::official_table_edits(id, Some(base_url), false, openai_auth),
    );
    let change = |t: TomlView|
        toml_model::with_entry(
            t,
            "experimental_bearer_token"@,
            TomlView::Str(CODEX_PROXY_AUTH_PLACEHOLDER@),
        );
    lemma_provider_edit(t4, id, change);
}

/// Whether a path leads to a setting that the route has nothing to do with: neither the choice of
/// the provider, nor the table of the provider `id`, nor another provider's token that is the
/// proxy's placeholder.
pub open spec fn untouched(tree: TomlView, id: Seq<char>, path: Seq<Seq<char>>) -> bool {
    &&& path.len() > 0
    &&& path[0] != "model_provider"@
    &&& path[0] == "model_providers"@ && path.len() > 1 ==> {
        &&& path[1] != id
        &&& path.len() > 2 && path[2] == "experimental_bearer_token"@ ==> (toml_model::at(
            tree,
            seq!["model_providers"@, path[1]],
        ) matches Some(item) ==> !official_route::has_placeholder(item))
    }
}

/// In a list without repeated keys, an entry is the one that is found.
proof fn lemma_find_distinct(entries: Seq<(Seq<char>, TomlView)>, i: int)
    requires
        toml_model::distinct(entries),
        0 <= i < entries.len(),
    ensures
        toml_doc::find(entries, entries[i].0) == Some(entries[i].1),
    decreases entries.len(),
{
    let front = entries.drop_last();
    if i < entries.len() - 1 {
        assert forall|a: int, b: int| 0 <= a < b < front.len() implies (#[trigger] front[a]).0 != (
        #[trigger] front[b]).0 by {
            assert(entries[a].0 != entries[b].0);
        }
        lemma_find_distinct(front, i);
    } else {
        lemma_find_absent(front, entries[i].0);
    }
}

/// A key that no entry has is not found.
proof fn lemma_find_absent(entries: Seq<(Seq<char>, TomlView)>, key: Seq<char>)
    requires
        forall|i: int| 0 <= i < entries.len() ==> (#[trigger] entries[i]).0 != key,
    ensures
        toml_doc::find(entries, key) is None,
    decreases entries.len(),
{
    if entries.len() > 0 {
        lemma_find_absent(entries.drop_last(), key);
    }
}

/// The providers of a tree, as entries without repeated keys.
proof fn lemma_providers_distinct(tree: TomlView)
    requires
        tree is Table,
        toml_model::keys_distinct(tree),
    ensures
        toml_model::distinct(toml_model::moved_entries(tree.get("model_providers"@))),
{
    toml_model::lemma_at1(tree, "model_providers"@);
    assert(match toml_model::at(tree, seq!["model_providers"@]) {
        Some(v) => match v.entries() {
            Some(entries) => toml_model::distinct(entries),
            None => true,
        },
        None => true,
    });
}

/// The settings that a change to some providers leaves as they were.
proof fn lemma_kept(
    tree: TomlView,
    r: TomlView,
    id: Seq<char>,
    skip: Option<Seq<char>>,
    path: Seq<Seq<char>>,
)
    requires
        tree is Table,
        toml_model::keys_distinct(tree),
        !official_route::providers_broken(tree),
        untouched(tree, id, path),
        r is Table,
        path[0] != "model_providers"@ ==> r.get(path[0]) == tree.get(path[0]),
        ({
            let entries = toml_model::moved_entries(tree.get("model_providers"@));
            match r.get("model_providers"@) {
                Some(after) => {
                    &&& after.is_table_like()
                    &&& forall|k: Seq<char>|
                        k != id ==> same_but_token(
                            #[trigger] after.get(k),
                            toml_doc::find(entries, k),
                        )
                    &&& forall|k: Seq<char>|
                        k != id && keeps_token(entries, skip, k) ==> #[trigger] after.get(k)
                            == toml_doc::find(entries, k)
                },
                None => forall|k: Seq<char>|
                    k != id ==> (#[trigger] toml_doc::find(entries, k)) is None,
            }
        }),
    ensures
        toml_model::setting(r, path) == toml_model::setting(tree, path),
{
    let mp = "model_providers"@;
    let entries = toml_model::moved_entries(tree.get(mp));
    lemma_providers_distinct(tree);
    reveal_with_fuel(toml_model::at, 4);
    assert(path.first() == path[0]);
    if path[0] == mp {
        let rest = path.drop_first();
        if rest.len() > 0 {
            let k = path[1];
            assert(rest.first() == k);
            toml_model::lemma_at2(tree, mp, k);
            let tail = rest.drop_first();
            let old_provider = toml_doc::find(entries, k);
            assert(toml_model::at(tree, path) == match old_provider {
                Some(item) => toml_model::at(item, tail),
                None => None,
            });
            if tail.len() > 0 {
                assert(tail.first() == path[2]);
                if path[2] == "experimental_bearer_token"@ {
                    assert(keeps_token(entries, skip, k)) by {
                        assert forall|i: int| 0 <= i < entries.len() && (#[trigger] entries[i]).0
                            == k implies !official_route::has_placeholder(entries[i].1) by {
                            lemma_find_distinct(entries, i);
                        }
                    }
                }
            }
            match r.get(mp) {
                Some(after) => {
                    let new_provider = after.get(k);
                    assert(toml_model::at(r, path) == match new_provider {
                        Some(item) => toml_model::at(item, tail),
                        None => None,
                    });
                    assert(same_but_token(new_provider, old_provider));
                },
                None => {
                    assert(old_provider is None);
                },
            }
        } else {
            assert(toml_model::at(tree, path) == tree.get(mp));
            assert(toml_model::at(r, path) == r.get(mp));
        }
    }
}

/// Applying the route leaves every setting that has nothing to do with it: other providers, with
/// their own tokens, and the rest of the config.
pub proof fn law_applying_the_route_keeps_the_rest(
    tree: TomlView,
    base_url: Seq<char>,
    openai_auth: bool,
    read: TomlView,
    path: Seq<Seq<char>>,
)
    requires
        tree is Table,
        toml_model::keys_distinct(tree),
        !official_route::providers_broken(tree),
        toml_model::same_settings(
            read,
            toml_model::applied_all(
                tree,
                official_route::route_edits(tree, base_url, openai_auth),
            ),
        ),
        untouched(tree, CC_SWITCH_CODEX_OFFICIAL_PROXY_PROVIDER_ID@, path),
        path[0] != "experimental_bearer_token"@,
    ensures
        toml_model::setting(read, path) == toml_model::setting(tree, path),
{
    let id = CC_SWITCH_CODEX_OFFICIAL_PROXY_PROVIDER_ID@;
    let model = toml_model::applied_all(
        tree,
        official_route::route_edits(tree, base_url, openai_auth),
    );
    lemma_routed(tree, base_url, openai_auth);
    lemma_kept(tree, model, id, None, path);
    assert(toml_model::setting(read, path) == toml_model::setting(model, path));
}

/// Taking the proxy's own route out leaves no route, no chosen provider, and every setting that
/// has nothing to do with the route.
pub proof fn law_removing_the_route_leaves_the_rest(
    tree: TomlView,
    read: TomlView,
    path: Seq<Seq<char>>,
)
    requires
        tree is Table,
        toml_model::keys_distinct(tree),
        official_route::owns_route(tree),
        !official_route::providers_broken(tree),
        toml_model::same_settings(
            read,
            toml_model::applied_all(tree, official_route::unroute_edits(tree)),
        ),
    ensures
        !official_route::has_route(read),
        read.get("model_provider"@) is None,
        untouched(tree, tree.get_text("model_provider"@)->Some_0, path) ==> toml_model::setting(
            read,
            path,
        ) == toml_model::setting(tree, path),
{
    lemma_keys();
    let mp = "model_providers"@;
    let id = tree.get_text("model_provider"@)->Some_0;
    let model = toml_model::applied_all(tree, official_route::unroute_edits(tree));
    let none = Seq::<EditView>::empty();
    let e0 = EditView::Remove { path: toml_doc::root(), key: "model_provider"@ };
    let e1 = EditView::Retable { key: mp };
    let e2 = EditView::Remove { path: seq![mp], key: id };
    let entries = toml_model::moved_entries(tree.get(mp));
    let t0 = toml_model::applied(tree, e0);
    if tree.get(mp) is None {
        assert(official_route::unroute_edits(tree) =~= none.push(e0));
        assert(model == t0);
    } else {
        assert(official_route::unroute_head(id) =~= none.push(e0).push(e1).push(e2));
        let t1 = toml_model::applied(t0, e1);
        let t2 = toml_model::applied(t1, e2);
        let change = |t: TomlView| toml_model::without_entry(t, id);
        toml_model::lemma_edit_at1(t1, mp, change);
        let moved = TomlView::Table(entries);
        assert(t1.get(mp) == Some(moved));
        assert(t2.get(mp) == Some(change(moved)));
        assert(has_providers(t2));
        lemma_placeholder_edits(t2, entries, Some(id));
        let t3 = toml_model::applied_all(t2, official_route::placeholder_edits(entries, Some(id)));
        assert(forall|k: Seq<char>| #[trigger] moved.get(k) == toml_doc::find(entries, k));
        if official_route::only_provider(entries, id) {
            let e3 = EditView::Remove { path: toml_doc::root(), key: mp };
            assert(model == toml_model::applied(t3, e3));
            assert forall|k: Seq<char>| k != id implies (#[trigger] toml_doc::find(entries, k)) is None by {
                lemma_find_absent(entries, k);
            }
        } else {
            assert(model == t3);
        }
    }
    assert(model.get("model_provider"@) is None);
    toml_model::lemma_at1(model, "model_provider"@);
    toml_model::lemma_at1(read, "model_provider"@);
    if untouched(tree, id, path) {
        lemma_kept(tree, model, id, Some(id), path);
        assert(toml_model::setting(read, path) == toml_model::setting(model, path));
    }
}

/// A setting that stands two steps or more away from the root.
proof fn lemma_setting_at2(tree: TomlView, path: Seq<Seq<char>>)
    requires
        path.len() >= 2,
    ensures
        toml_model::setting(tree, path) == match tree.get(path[0]) {
            Some(inner) => match inner.get(path[1]) {
                Some(item) => toml_model::setting(item, path.skip(2)),
                None => None,
            },
            None => None,
        },
{
    reveal_with_fuel(toml_model::at, 3);
    assert(path.first() == path[0]);
    assert(path.drop_first().first() == path[1]);
    assert(path.drop_first().drop_first() =~= path.skip(2));
}

/// A setting of the root.
proof fn lemma_setting_at1(tree: TomlView, path: Seq<Seq<char>>)
    requires
        path.len() >= 1,
    ensures
        toml_model::setting(tree, path) == match tree.get(path[0]) {
            Some(item) => toml_model::setting(item, path.skip(1)),
            None => None,
        },
{
    assert(path.first() == path[0]);
    assert(path.drop_first() =~= path.skip(1));
}

/// A found key stands in some entry.
proof fn lemma_found(entries: Seq<(Seq<char>, TomlView)>, key: Seq<char>)
    requires
        toml_doc::find(entries, key) is Some,
    ensures
        exists|i: int| 0 <= i < entries.len() && (#[trigger] entries[i]).0 == key,
    decreases entries.len(),
{
    if toml_doc::find(entries.drop_last(), key) is Some {
        lemma_found(entries.drop_last(), key);
        let i = choose|i: int|
            0 <= i < entries.drop_last().len() && (#[trigger] entries.drop_last()[i]).0 == key;
        assert(entries[i].0 == key);
    } else {
        assert(entries[entries.len() - 1].0 == key);
    }
}

/// Entries without repeated keys that have four keys and no others are four.
proof fn lemma_four_entries(
    entries: Seq<(Seq<char>, TomlView)>,
    a: Seq<char>,
    b: Seq<char>,
    c: Seq<char>,
    d: Seq<char>,
)
    requires
        toml_model::distinct(entries),
        a != b && a != c && a != d && b != c && b != d && c != d,
        toml_doc::find(entries, a) is Some,
        toml_doc::find(entries, b) is Some,
        toml_doc::find(entries, c) is Some,
        toml_doc::find(entries, d) is Some,
        forall|k: Seq<char>|
            (#[trigger] toml_doc::find(entries, k)) is Some ==> k == a || k == b || k == c || k == d,
    ensures
        entries.len() == 4,
{
    let keys = entries.map_values(|e: (Seq<char>, TomlView)| e.0);
    assert(keys.no_duplicates()) by {
        assert forall|i: int, j: int|
            0 <= i < keys.len() && 0 <= j < keys.len() && i != j implies keys[i] != keys[j] by {
            if i < j {
                assert(entries[i].0 != entries[j].0);
            } else {
                assert(entries[j].0 != entries[i].0);
            }
        }
    }
    let four = set![a, b, c, d];
    assert(keys.to_set() =~= four) by {
        assert forall|k: Seq<char>| #[trigger] keys.to_set().contains(k) implies four.contains(k) by {
            let i = choose|i: int| 0 <= i < keys.len() && keys[i] == k;
            lemma_find_distinct(entries, i);
        }
        assert forall|k: Seq<char>| #[trigger] four.contains(k) implies keys.to_set().contains(k) by {
            lemma_found(entries, k);
            let i = choose|i: int| 0 <= i < entries.len() && (#[trigger] entries[i]).0 == k;
            assert(keys[i] == k);
        }
    }
    keys.unique_seq_to_set();
    assert(four.len() == 4);
}

/// Whether a config of the official provider can be moved to the shared id without losing
/// anything: nothing stands under the shared id. The provider is either not chosen at all, or it is
/// the official one behind the proxy.
pub open spec fn moves_without_loss(tree: TomlView) -> bool {
    &&& tree is Table
    &&& tree.get("model_provider"@) is None || unified_session::runs_official_route(tree)
    &&& match tree.get("model_providers"@) {
        Some(providers) => providers.is_table_like() && providers.get(unified_session::shared()) is None,
        None => true,
    }
}

/// What a config holds after it was moved to the shared id.
proof fn lemma_injected(tree: TomlView)
    requires
        moves_without_loss(tree),
    ensures
        unified_session::can_inject(tree),
        ({
            let r = toml_model::applied_all(tree, unified_session::inject_edits(tree));
            let shared = unified_session::shared();
            let official = unified_session::official();
            let providers = r.get("model_providers"@)->Some_0;
            let old_providers = TomlView::Table(
                toml_model::moved_entries(tree.get("model_providers"@)),
            );
            let table = providers.get(shared)->Some_0;
            &&& has_providers(r)
            &&& r.get("model_provider"@) == Some(TomlView::Str(shared))
            &&& forall|k: Seq<char>|
                k != "model_providers"@ && k != "model_provider"@ ==> #[trigger] r.get(k)
                    == tree.get(k)
            &&& forall|k: Seq<char>|
                k != shared && k != official ==> #[trigger] providers.get(k) == old_providers.get(k)
            &&& providers.get(shared) is Some
            &&& table.is_table_like()
            &&& table.get("name"@) == Some(TomlView::Str("OpenAI"@))
            &&& if unified_session::runs_official_route(tree) {
                &&& providers.get(official) is None
                &&& old_providers.get(official) == Some(table)
            } else {
                &&& providers.get(official) == old_providers.get(official)
                &&& table.get("requires_openai_auth"@) == Some(TomlView::Bool(true))
                &&& table.get("supports_websockets"@) == Some(TomlView::Bool(true))
                &&& table.get("wire_api"@) == Some(TomlView::Str("responses"@))
                &&& forall|k: Seq<char>|
                    (#[trigger] table.get(k)) is Some ==> k == "name"@ || k
                        == "requires_openai_auth"@ || k == "supports_websockets"@ || k
                        == "wire_api"@
            }
        }),
{
    lemma_keys();
    let mp = "model_providers"@;
    let shared = unified_session::shared();
    let official = unified_session::official();
    let none = Seq::<EditView>::empty();
    let activate = unified_session::activate_shared();
    if unified_session::runs_official_route(tree) {
        let e0 = EditView::Rename { path: seq![mp], from: official, to: shared };
        assert(unified_session::inject_edits(tree) =~= none.push(e0).push(activate));
        let change = |t: TomlView|
            match t.get(official) {
                Some(item) => toml_model::with_entry(
                    toml_model::without_entry(t, official),
                    shared,
                    item,
                ),
                None => t,
            };
        toml_model::lemma_edit_at1(tree, mp, change);
        let providers = tree.get(mp)->Some_0;
        let t0 = toml_model::applied(tree, e0);
        assert(t0.get(mp) == Some(change(providers)));
        let t1 = toml_model::applied(t0, activate);
        assert(t1 == toml_model::applied_all(tree, unified_session::inject_edits(tree)));
    } else {
        let t0 = toml_model::applied(tree, activate);
        let e1 = EditView::AssignTable { key: mp, implicit: true };
        match tree.get(mp) {
            None => {
                let t1 = toml_model::applied(t0, e1);
                assert(seq![activate, e1] =~= none.push(activate).push(e1));
                assert(toml_model::applied_all(tree, seq![activate, e1]) == t1);
                lemma_official_table(t1, shared, None, true, true);
            },
            Some(providers) => {
                assert(seq![activate] =~= none.push(activate));
                assert(toml_model::applied_all(tree, seq![activate]) == t0);
                lemma_official_table(t0, shared, None, true, true);
            },
        }
    }
}

/// A config that was moved to the shared id and moved back has the settings that it had.
pub proof fn law_stripping_undoes_injecting(
    tree: TomlView,
    moved: TomlView,
    back: TomlView,
    path: Seq<Seq<char>>,
)
    requires
        moves_without_loss(tree),
        moved is Table,
        toml_model::keys_distinct(moved),
        toml_model::same_settings(
            moved,
            toml_model::applied_all(tree, unified_session::inject_edits(tree)),
        ),
        unified_session::strip_edits(moved) matches Some(edits) ==> toml_model::same_settings(
            back,
            toml_model::applied_all(moved, edits),
        ),
        path.len() > 0,
    ensures
        unified_session::can_inject(tree),
        unified_session::strip_edits(moved) is Some,
        toml_model::setting(back, path) == toml_model::setting(tree, path),
{
    lemma_keys();
    lemma_injected(tree);
    let mp = "model_providers"@;
    let shared = unified_session::shared();
    let official = unified_session::official();
    let model = toml_model::applied_all(tree, unified_session::inject_edits(tree));
    lemma_read_provider(moved, model, shared);
    toml_model::lemma_at1(model, "model_provider"@);
    toml_model::lemma_read_setting(moved, model, seq!["model_provider"@]);
    toml_model::lemma_at1(moved, "model_provider"@);
    let table = model.get(mp)->Some_0.get(shared)->Some_0;
    let found = official_route::provider_table(moved, shared)->Some_0;
    let providers = moved.get(mp)->Some_0;
    assert(toml_model::setting(moved, path) == toml_model::setting(model, path));
    lemma_setting_at1(model, path);
    lemma_setting_at1(tree, path);
    lemma_setting_at1(moved, path);
    if unified_session::runs_official_route(tree) {
        lemma_strip_renames(tree, moved, back, path);
    } else {
        assert(found.get("name"@) == table.get("name"@));
        assert(found.get("requires_openai_auth"@) == table.get("requires_openai_auth"@));
        assert(found.get("supports_websockets"@) == table.get("supports_websockets"@));
        assert(found.get("wire_api"@) == table.get("wire_api"@));
        toml_model::lemma_at2(moved, mp, shared);
        assert(toml_model::at(moved, seq![mp, shared]) == Some(found));
        let entries = found.entries()->Some_0;
        assert(toml_model::distinct(entries));
        assert forall|k: Seq<char>| (#[trigger] toml_doc::find(entries, k)) is Some implies k
            == "name"@ || k == "requires_openai_auth"@ || k == "supports_websockets"@ || k
            == "wire_api"@ by {
            assert(found.get(k) is Some);
            assert(table.get(k) is Some);
        }
        lemma_four_entries(
            entries,
            "name"@,
            "requires_openai_auth"@,
            "supports_websockets"@,
            "wire_api"@,
        );
        assert(official_route::matches_unified(found));
        lemma_strip_removes(tree, moved, back, path);
    }
}

/// The name that a moved config shows.
proof fn lemma_choice_name()
    ensures
        toml_model::is_bare("model_provider"@),
{
    reveal_strlit("model_provider");
    let key = "model_provider"@;
    assert forall|i: int| 0 <= i < key.len() implies ({
        let c = #[trigger] key[i];
        'a' <= c <= 'z' || 'A' <= c <= 'Z' || '0' <= c <= '9' || c == '_' || c == '-'
    }) by {
        assert(key.len() == 14);
    }
}

/// Moving a config without a provider to the shared id moves and copies nothing.
proof fn lemma_inject_adds_by_name(tree: TomlView)
    requires
        tree.get("model_provider"@) is None,
    ensures
        forall|i: int|
            0 <= i < unified_session::inject_edits(tree).len() ==> toml_model::adds_by_name(
                #[trigger] unified_session::inject_edits(tree)[i],
            ),
{
    let table = official_route::official_table_edits(unified_session::shared(), None, true, true);
    assert(table.len() == 5);
    assert(forall|i: int| 0 <= i < 5 ==> toml_model::adds_by_name(#[trigger] table[i]));
}

/// A config that was moved to the shared id and moved back has the settings that it had, as a text
/// too: `moved` is the text after moving, `back` the one after moving back, and what is known of them
/// is what moving and moving back promise. A config that had chosen its provider has to show the
/// name of that choice, as it is not looked at otherwise.
pub proof fn law_stripping_undoes_injecting_in_texts(
    config: Seq<char>,
    moved: Seq<char>,
    back: Seq<char>,
)
    requires
        toml_doc::is_well_formed(config),
        toml_doc::toml_tree(config) matches Some(tree) && moves_without_loss(tree) && (tree.get(
            "model_provider"@,
        ) is None || text::occurs(moved, "model_provider"@)),
        unified_session::inject_holds(config),
        unified_session::injected(config) == Ok::<Seq<char>, ErrorView>(moved),
        toml_doc::toml_tree(moved) is Some,
        unified_session::strip_holds(moved),
        unified_session::stripped(moved) == Ok::<Seq<char>, ErrorView>(back),
        toml_doc::toml_tree(back) is Some,
    ensures
        forall|path: Seq<Seq<char>>|
            path.len() > 0 ==> #[trigger] toml_model::setting(
                toml_doc::toml_tree(back)->Some_0,
                path,
            ) == toml_model::setting(toml_doc::toml_tree(config)->Some_0, path),
{
    let tree = toml_doc::toml_tree(config)->Some_0;
    let middle = toml_doc::toml_tree(moved)->Some_0;
    let last = toml_doc::toml_tree(back)->Some_0;
    let edits = unified_session::inject_edits(tree);
    let model = toml_model::applied_all(tree, edits);
    lemma_injected(tree);
    assert(moved == toml_doc::toml_printed(config, edits));
    assert(toml_model::same_settings(middle, model));
    if tree.get("model_provider"@) is None {
        let place = seq!["model_provider"@];
        lemma_choice_name();
        lemma_inject_adds_by_name(tree);
        toml_model::lemma_at1(tree, "model_provider"@);
        toml_model::lemma_at1(model, "model_provider"@);
        toml_model::lemma_read_setting(middle, model, place);
        assert(place.last() == "model_provider"@);
        assert(toml_model::at(middle, place) is Some);
        assert(text::occurs(moved, "model_provider"@));
    }
    assert forall|path: Seq<Seq<char>>| path.len() > 0 implies #[trigger] toml_model::setting(
        last,
        path,
    ) == toml_model::setting(tree, path) by {
        match unified_session::strip_edits(middle) {
            Some(strip) => {
                assert(back == toml_doc::toml_printed(moved, strip));
            },
            None => {},
        }
        law_stripping_undoes_injecting(tree, middle, last, path);
    }
}

/// The settings after the shared id was taken out, where it was written without a route.
proof fn lemma_strip_removes(
    tree: TomlView,
    moved: TomlView,
    back: TomlView,
    path: Seq<Seq<char>>,
)
    requires
        moves_without_loss(tree),
        !unified_session::runs_official_route(tree),
        moved is Table,
        has_providers(moved),
        toml_model::same_settings(
            moved,
            toml_model::applied_all(tree, unified_session::inject_edits(tree)),
        ),
        moved.get_text("model_provider"@) == Some(unified_session::shared()),
        official_route::provider_table(moved, unified_session::shared()) matches Some(found)
            && official_route::matches_unified(found),
        toml_model::same_settings(
            back,
            toml_model::applied_all(moved, unified_session::strip_edits(moved)->Some_0),
        ),
        path.len() > 0,
    ensures
        toml_model::setting(back, path) == toml_model::setting(tree, path),
{
    lemma_keys();
    lemma_injected(tree);
    let mp = "model_providers"@;
    let shared = unified_session::shared();
    let none = Seq::<EditView>::empty();
    let model = toml_model::applied_all(tree, unified_session::inject_edits(tree));
    let providers = moved.get(mp)->Some_0;
    let entries = toml_model::moved_entries(moved.get(mp));
    let edits = unified_session::strip_edits(moved)->Some_0;
    let result = toml_model::applied_all(moved, edits);
    let e0 = EditView::Remove { path: toml_doc::root(), key: "model_provider"@ };
    let e1 = EditView::Remove { path: seq![mp], key: shared };
    let e2 = EditView::Remove { path: toml_doc::root(), key: mp };
    let t0 = toml_model::applied(moved, e0);
    let t1 = toml_model::applied(t0, e1);
    let change = |t: TomlView| toml_model::without_entry(t, shared);
    toml_model::lemma_edit_at1(t0, mp, change);
    assert(t1.get(mp) == Some(change(providers)));
    if official_route::only_provider(entries, shared) {
        assert(edits =~= none.push(e0).push(e1).push(e2));
        assert(result == toml_model::applied(t1, e2));
    } else {
        assert(edits =~= none.push(e0).push(e1));
        assert(result == t1);
    }
    assert(toml_model::setting(back, path) == toml_model::setting(result, path));
    assert(toml_model::setting(moved, path) == toml_model::setting(model, path));
    lemma_setting_at1(result, path);
    lemma_setting_at1(moved, path);
    lemma_setting_at1(model, path);
    lemma_setting_at1(tree, path);
    if path[0] == mp {
        if path.len() == 1 {
            assert(path.skip(1).len() == 0);
        } else {
            lemma_setting_at2(result, path);
            lemma_setting_at2(moved, path);
            lemma_setting_at2(model, path);
            lemma_setting_at2(tree, path);
            if path[1] != shared && official_route::only_provider(entries, shared) {
                lemma_find_absent(entries, path[1]);
            }
        }
    }
}

/// The settings after the shared id was taken out, where the route was written under it.
proof fn lemma_strip_renames(
    tree: TomlView,
    moved: TomlView,
    back: TomlView,
    path: Seq<Seq<char>>,
)
    requires
        moves_without_loss(tree),
        unified_session::runs_official_route(tree),
        moved is Table,
        has_providers(moved),
        toml_model::same_settings(
            moved,
            toml_model::applied_all(tree, unified_session::inject_edits(tree)),
        ),
        moved.get_text("model_provider"@) == Some(unified_session::shared()),
        official_route::provider_table(moved, unified_session::shared()) is Some,
        unified_session::strip_edits(moved) matches Some(edits) ==> toml_model::same_settings(
            back,
            toml_model::applied_all(moved, edits),
        ),
        path.len() > 0,
    ensures
        unified_session::strip_edits(moved) is Some,
        toml_model::setting(back, path) == toml_model::setting(tree, path),
{
    lemma_keys();
    lemma_injected(tree);
    let mp = "model_providers"@;
    let shared = unified_session::shared();
    let official = unified_session::official();
    let none = Seq::<EditView>::empty();
    let model = toml_model::applied_all(tree, unified_session::inject_edits(tree));
    lemma_read_provider(moved, model, shared);
    let table = model.get(mp)->Some_0.get(shared)->Some_0;
    let found = official_route::provider_table(moved, shared)->Some_0;
    assert(found.get("name"@) == table.get("name"@));
    assert(found.get("wire_api"@) == table.get("wire_api"@));
    assert(found.get("base_url"@) == table.get("base_url"@));
    assert(found.get("supports_websockets"@) == table.get("supports_websockets"@));
    assert(official_route::matches_route(found));
    let providers = moved.get(mp)->Some_0;
    let edits = unified_session::strip_edits(moved)->Some_0;
    let result = toml_model::applied_all(moved, edits);
    let e0 = EditView::Remove { path: toml_doc::root(), key: "model_provider"@ };
    let e1 = EditView::Rename { path: seq![mp], from: shared, to: official };
    let e2 = EditView::AssignStr { path: toml_doc::root(), key: "model_provider"@, value: official };
    assert(edits =~= none.push(e0).push(e1).push(e2));
    let t0 = toml_model::applied(moved, e0);
    let t1 = toml_model::applied(t0, e1);
    let change = |t: TomlView|
        match t.get(shared) {
            Some(item) => toml_model::with_entry(
                toml_model::without_entry(t, shared),
                official,
                item,
            ),
            None => t,
        };
    toml_model::lemma_edit_at1(t0, mp, change);
    assert(t1.get(mp) == Some(change(providers)));
    assert(result == toml_model::applied(t1, e2));
    assert(toml_model::setting(back, path) == toml_model::setting(result, path));
    assert(toml_model::setting(moved, path) == toml_model::setting(model, path));
    lemma_setting_at1(result, path);
    lemma_setting_at1(moved, path);
    lemma_setting_at1(model, path);
    lemma_setting_at1(tree, path);
    if path[0] == mp {
        if path.len() == 1 {
            assert(path.skip(1).len() == 0);
        } else {
            lemma_setting_at2(result, path);
            lemma_setting_at2(moved, path);
            lemma_setting_at2(model, path);
            lemma_setting_at2(tree, path);
            if path[1] == official {
                let there = seq![mp, shared] + path.skip(2);
                assert(there.skip(2) =~= path.skip(2));
                assert(toml_model::setting(moved, there) == toml_model::setting(model, there));
                lemma_setting_at2(moved, there);
                lemma_setting_at2(model, there);
            }
        }
    }
}

/// A config to which the route was applied chooses it, and says of it: the official name, the
/// responses API, the proxy's address without the slashes at its end, no websockets, and either the
/// login of OpenAI or the placeholder for a token. The token at the top level is gone.
pub proof fn law_what_an_applied_route_says(
    tree: TomlView,
    base_url: Seq<char>,
    openai_auth: bool,
    read: TomlView,
)
    requires
        tree is Table,
        !official_route::providers_broken(tree),
        toml_model::same_settings(
            read,
            toml_model::applied_all(
                tree,
                official_route::route_edits(tree, base_url, openai_auth),
            ),
        ),
    ensures
        read.get("model_provider"@) == Some(TomlView::Str("cc-switch-official"@)),
        read.get("experimental_bearer_token"@) is None,
        official_route::provider_table(read, "cc-switch-official"@) matches Some(table) && {
            &&& table.get("name"@) == Some(TomlView::Str("OpenAI"@))
            &&& table.get("wire_api"@) == Some(TomlView::Str("responses"@))
            &&& table.get("base_url"@) == Some(TomlView::Str(text::trim_slashes(base_url)))
            &&& table.get("supports_websockets"@) == Some(TomlView::Bool(false))
            &&& table.get("requires_openai_auth"@) == Some(TomlView::Bool(openai_auth))
            &&& openai_auth ==> table.get("experimental_bearer_token"@) is None
            &&& !openai_auth ==> table.get("experimental_bearer_token"@) == Some(
                TomlView::Str("PROXY_MANAGED"@),
            )
        },
{
    lemma_keys();
    let id = "cc-switch-official"@;
    let model = toml_model::applied_all(
        tree,
        official_route::route_edits(tree, base_url, openai_auth),
    );
    lemma_routed(tree, base_url, openai_auth);
    lemma_read_provider(read, model, id);
    toml_model::lemma_at1(model, "model_provider"@);
    toml_model::lemma_read_setting(read, model, seq!["model_provider"@]);
    toml_model::lemma_at1(read, "model_provider"@);
    toml_model::lemma_at1(model, "experimental_bearer_token"@);
    toml_model::lemma_at1(read, "experimental_bearer_token"@);
    assert(toml_model::at(read, seq!["experimental_bearer_token"@]) is Some ==> toml_model::at(
        model,
        seq!["experimental_bearer_token"@],
    ) is Some);
    let table = model.get("model_providers"@)->Some_0.get(id)->Some_0;
    let found = official_route::provider_table(read, id)->Some_0;
    assert(found.get("name"@) == table.get("name"@));
    assert(found.get("wire_api"@) == table.get("wire_api"@));
    assert(found.get("base_url"@) == table.get("base_url"@));
    assert(found.get("supports_websockets"@) == table.get("supports_websockets"@));
    assert(found.get("requires_openai_auth"@) == table.get("requires_openai_auth"@));
    if openai_auth {
        assert(found.get("experimental_bearer_token"@) is Some ==> table.get(
            "experimental_bearer_token"@,
        ) is Some);
    } else {
        assert(found.get("experimental_bearer_token"@) == table.get("experimental_bearer_token"@));
    }
}

/// Applying the route takes the placeholder for a token out of every other provider.
pub proof fn law_no_placeholder_is_left_elsewhere(
    tree: TomlView,
    base_url: Seq<char>,
    openai_auth: bool,
    read: TomlView,
    k: Seq<char>,
)
    requires
        tree is Table,
        !official_route::providers_broken(tree),
        toml_model::same_settings(
            read,
            toml_model::applied_all(
                tree,
                official_route::route_edits(tree, base_url, openai_auth),
            ),
        ),
        k != "cc-switch-official"@,
        tree.get("model_providers"@) matches Some(providers) && (providers.get(k) matches Some(
            table,
        ) && table.get("experimental_bearer_token"@) == Some(TomlView::Str("PROXY_MANAGED"@))),
    ensures
        official_route::provider_table(read, k) matches Some(table) ==> table.get(
            "experimental_bearer_token"@,
        ) is None,
{
    lemma_keys();
    let mp = "model_providers"@;
    let token = "experimental_bearer_token"@;
    let model = toml_model::applied_all(
        tree,
        official_route::route_edits(tree, base_url, openai_auth),
    );
    lemma_routed(tree, base_url, openai_auth);
    let entries = toml_model::moved_entries(tree.get(mp));
    lemma_found_entry(entries, k);
    assert(has_placeholder_under(entries, k));
    let after = model.get(mp)->Some_0.get(k);
    assert(has_no_token(after));
    toml_model::lemma_at3(model, mp, k, token);
    toml_model::lemma_at3(read, mp, k, token);
    assert(toml_model::at(read, seq![mp, k, token]) is Some ==> toml_model::at(
        model,
        seq![mp, k, token],
    ) is Some);
}

/// What is found under a key is what an entry has.
proof fn lemma_found_entry(entries: Seq<(Seq<char>, TomlView)>, key: Seq<char>)
    requires
        toml_doc::find(entries, key) is Some,
    ensures
        exists|i: int|
            0 <= i < entries.len() && (#[trigger] entries[i]).0 == key && Some(entries[i].1)
                == toml_doc::find(entries, key),
    decreases entries.len(),
{
    let front = entries.drop_last();
    if toml_doc::find(front, key) is Some {
        lemma_found_entry(front, key);
        let i = choose|i: int|
            0 <= i < front.len() && (#[trigger] front[i]).0 == key && Some(front[i].1)
                == toml_doc::find(front, key);
        assert(entries[i] == front[i]);
    } else {
        assert(entries[entries.len() - 1].0 == key);
    }
}

/// A config that was moved to the shared id chooses it, and says of it what the official provider is,
/// with the login of OpenAI and with websockets; one that ran through the proxy still does.
pub proof fn law_what_a_moved_config_says(tree: TomlView, read: TomlView)
    requires
        moves_without_loss(tree),
        toml_model::same_settings(
            read,
            toml_model::applied_all(tree, unified_session::inject_edits(tree)),
        ),
    ensures
        read.get("model_provider"@) == Some(TomlView::Str("custom"@)),
        official_route::provider_table(read, "custom"@) matches Some(table) && {
            &&& table.get("name"@) == Some(TomlView::Str("OpenAI"@))
            &&& tree.get("model_provider"@) is None ==> {
                &&& table.get("requires_openai_auth"@) == Some(TomlView::Bool(true))
                &&& table.get("supports_websockets"@) == Some(TomlView::Bool(true))
                &&& table.get("wire_api"@) == Some(TomlView::Str("responses"@))
                &&& table.get("base_url"@) is None
                &&& table.get("experimental_bearer_token"@) is None
            }
        },
{
    lemma_keys();
    lemma_injected(tree);
    let id = "custom"@;
    let model = toml_model::applied_all(tree, unified_session::inject_edits(tree));
    lemma_read_provider(read, model, id);
    toml_model::lemma_at1(model, "model_provider"@);
    toml_model::lemma_read_setting(read, model, seq!["model_provider"@]);
    toml_model::lemma_at1(read, "model_provider"@);
    let table = model.get("model_providers"@)->Some_0.get(id)->Some_0;
    let found = official_route::provider_table(read, id)->Some_0;
    assert(found.get("name"@) == table.get("name"@));
    if tree.get("model_provider"@) is None {
        assert(found.get("requires_openai_auth"@) == table.get("requires_openai_auth"@));
        assert(found.get("supports_websockets"@) == table.get("supports_websockets"@));
        assert(found.get("wire_api"@) == table.get("wire_api"@));
        assert(found.get("base_url"@) is Some ==> table.get("base_url"@) is Some);
        assert(found.get("experimental_bearer_token"@) is Some ==> table.get(
            "experimental_bearer_token"@,
        ) is Some);
    }
}

/// Taking the route out takes the table of its provider with it.
pub proof fn law_the_table_of_the_route_is_gone(tree: TomlView, read: TomlView)
    requires
        tree is Table,
        official_route::owns_route(tree),
        !official_route::providers_broken(tree),
        toml_model::same_settings(
            read,
            toml_model::applied_all(tree, official_route::unroute_edits(tree)),
        ),
    ensures
        ({
            let id = tree.get("model_provider"@)->Some_0->Str_0;
            official_route::provider_table(read, id) is None
        }),
{
    lemma_keys();
    let mp = "model_providers"@;
    let id = tree.get_text("model_provider"@)->Some_0;
    let model = toml_model::applied_all(tree, official_route::unroute_edits(tree));
    let none = Seq::<EditView>::empty();
    let e0 = EditView::Remove { path: toml_doc::root(), key: "model_provider"@ };
    let e1 = EditView::Retable { key: mp };
    let e2 = EditView::Remove { path: seq![mp], key: id };
    let entries = toml_model::moved_entries(tree.get(mp));
    let t0 = toml_model::applied(tree, e0);
    if tree.get(mp) is None {
        assert(official_route::unroute_edits(tree) =~= none.push(e0));
        assert(model == t0);
    } else {
        assert(official_route::unroute_head(id) =~= none.push(e0).push(e1).push(e2));
        let t1 = toml_model::applied(t0, e1);
        let t2 = toml_model::applied(t1, e2);
        let change = |t: TomlView| toml_model::without_entry(t, id);
        toml_model::lemma_edit_at1(t1, mp, change);
        let moved = TomlView::Table(entries);
        assert(t1.get(mp) == Some(moved));
        assert(t2.get(mp) == Some(change(moved)));
        assert(has_providers(t2));
        lemma_placeholder_edits(t2, entries, Some(id));
        let t3 = toml_model::applied_all(t2, official_route::placeholder_edits(entries, Some(id)));
        assert(t3.get(mp)->Some_0.get(id) is None);
        if official_route::only_provider(entries, id) {
            let e3 = EditView::Remove { path: toml_doc::root(), key: mp };
            assert(model == toml_model::applied(t3, e3));
        } else {
            assert(model == t3);
        }
    }
    toml_model::lemma_at2(model, mp, id);
    toml_model::lemma_at2(read, mp, id);
    assert(toml_model::at(read, seq![mp, id]) is Some ==> toml_model::at(model, seq![mp, id])
        is Some);
}

} // verus!
