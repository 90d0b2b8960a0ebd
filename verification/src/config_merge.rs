//! What a freshly generated `config.toml` keeps of the one that it replaces.
//!
//! Switching providers rewrites the file. Routing, credentials and the model
//! catalog come from the new text; everything else that the user or the
//! application has put into the old file is carried over.

use crate::error::{AppError, ErrorView};
use crate::text::str_eq;
use crate::toml_doc::{
    document_tree, edited, extended, parse_config, parse_document, path1, root_path, with_copies,
    CopyView, EditView, Toml, TomlCopy, TomlEdit, TomlView,
};
use crate::{error, text, toml_doc};
use vstd::prelude::*;
use vstd::string::*;

verus! {

/// The top-level key that controls the built-in web search.
pub const CODEX_WEB_SEARCH_FIELD: &'static str = "web_search";

/// The value that turns the web search off. It is also the mark of ownership: a `web_search` key
/// is only ever removed where it has this value.
pub const CODEX_WEB_SEARCH_DISABLED: &'static str = "disabled";

/// The value that older versions wrote for the default mode.
pub const CODEX_WEB_SEARCH_LEGACY_ENABLED: &'static str = "enabled";

/// The value that stands for the default mode now.
pub const CODEX_WEB_SEARCH_LIVE: &'static str = "live";

/// The change that replaces a legacy web search value.
pub open spec fn normalize_edits(tree: TomlView) -> Seq<EditView> {
    if tree.get_text(CODEX_WEB_SEARCH_FIELD@) == Some(CODEX_WEB_SEARCH_LEGACY_ENABLED@) {
        seq![
            EditView::AssignStr {
                path: toml_doc::root(),
                key: CODEX_WEB_SEARCH_FIELD@,
                value: CODEX_WEB_SEARCH_LIVE@,
            },
        ]
    } else {
        Seq::empty()
    }
}

/// A config text with its legacy values replaced.
pub open spec fn normalized(config: Seq<char>) -> Result<Seq<char>, ErrorView> {
    match toml_doc::toml_tree(config) {
        Some(tree) => Ok(toml_doc::toml_printed(config, normalize_edits(tree))),
        None => Err(toml_doc::invalid_config(config)),
    }
}

/// A config text with its legacy values replaced; one that is not TOML as it is.
pub open spec fn normalized_or_same(config: Seq<char>) -> Seq<char> {
    match normalized(config) {
        Ok(text) => text,
        Err(_) => config,
    }
}

/// The change that replaces a legacy web search value. Only the top-level key is looked at, and
/// unknown values are left for Codex to report.
pub fn plan_normalize(tree: &Toml) -> (r: Vec<TomlEdit>)
    ensures
        toml_doc::edits_view(r@) == normalize_edits(tree@),
{
    let mut edits: Vec<TomlEdit> = Vec::new();
    if let Some(value) = tree.get_str(CODEX_WEB_SEARCH_FIELD) {
        if str_eq(value, CODEX_WEB_SEARCH_LEGACY_ENABLED) {
            edits.push(
                TomlEdit::AssignStr {
                    path: root_path(),
                    key: CODEX_WEB_SEARCH_FIELD.to_owned(),
                    value: CODEX_WEB_SEARCH_LIVE.to_owned(),
                },
            );
        }
    }
    assert(toml_doc::edits_view(edits@) =~= normalize_edits(tree@));
    edits
}

/// Whether a config text with its legacy values replaced holds what it should.
pub open spec fn normalize_holds(config: Seq<char>) -> bool {
    toml_doc::toml_tree(config) matches Some(tree) ==> toml_doc::holds(
        config,
        normalize_edits(tree),
    )
}

/// A config text with its legacy values replaced.
pub fn normalize_codex_config_text(config_text: &str) -> (r: Result<String, AppError>)
    ensures
        error::text_result(r) == normalized(config_text@),
        normalize_holds(config_text@),
{
    let doc = match parse_config(config_text) {
        Ok(doc) => doc,
        Err(e) => {
            return Err(e);
        },
    };
    let edits = plan_normalize(&document_tree(&doc));
    proof {
        broadcast use toml_doc::lemma_short_is_writable;

        reveal_strlit("live");
    }
    Ok(edited(doc, &edits))
}

/// A config text with its legacy values replaced; one that is not TOML as it is.
pub fn normalize_codex_config_text_best_effort(config_text: String) -> (r: String)
    ensures
        r@ == normalized_or_same(config_text@),
        normalize_holds(config_text@),
{
    match normalize_codex_config_text(config_text.as_str()) {
        Ok(normalized) => normalized,
        Err(_) => config_text,
    }
}

/// The top-level keys that belong to the provider being written, and to the plugin merge: they
/// never come from the old file.
pub open spec fn is_owned_key(key: Seq<char>) -> bool {
    ||| key == "model"@
    ||| key == "model_provider"@
    ||| key == "model_providers"@
    ||| key == "base_url"@
    ||| key == "wire_api"@
    ||| key == "experimental_bearer_token"@
    ||| key == "model_catalog_json"@
    ||| key == "web_search"@
    ||| key == "mcp_servers"@
    ||| key == "plugins"@
    ||| key == "marketplaces"@
}

/// Whether a top-level entry of the old file stays behind: an owned key, but for a web search
/// value that the user has set.
pub open spec fn stays_behind(key: Seq<char>, item: TomlView) -> bool {
    if key == CODEX_WEB_SEARCH_FIELD@ {
        item.text() == Some(CODEX_WEB_SEARCH_DISABLED@)
    } else {
        is_owned_key(key)
    }
}

/// The copies for the entries that the table `target` at `path` is missing; tables that both have
/// are gone through in turn.
pub open spec fn missing_entries(
    path: Seq<Seq<char>>,
    target: TomlView,
    entries: Seq<(Seq<char>, TomlView)>,
) -> Seq<CopyView>
    decreases entries,
{
    if entries.len() == 0 {
        Seq::empty()
    } else {
        missing_entries(path, target, entries.drop_last()) + missing_entry(
            path,
            target,
            entries.last().0,
            entries.last().1,
        )
    }
}

/// The copies for one entry that the table `target` at `path` may be missing.
pub open spec fn missing_entry(
    path: Seq<Seq<char>>,
    target: TomlView,
    key: Seq<char>,
    item: TomlView,
) -> Seq<CopyView>
    decreases item,
{
    match target.get(key) {
        None => seq![CopyView::Insert { path, key }],
        Some(inner) => if inner.is_table_like() {
            match item {
                TomlView::Table(entries) => missing_entries(path.push(key), inner, entries),
                TomlView::Inline(entries) => missing_entries(path.push(key), inner, entries),
                _ => Seq::empty(),
            }
        } else {
            Seq::empty()
        },
    }
}

/// The copies for one top-level entry of the old file.
pub open spec fn carried_entry(target: TomlView, key: Seq<char>, item: TomlView) -> Seq<CopyView> {
    if stays_behind(key, item) {
        Seq::empty()
    } else if target.get(key) is None {
        seq![CopyView::Assign { key }]
    } else {
        missing_entry(toml_doc::root(), target, key, item)
    }
}

/// The copies for the top-level entries of the old file.
pub open spec fn carried_entries(
    target: TomlView,
    entries: Seq<(Seq<char>, TomlView)>,
) -> Seq<CopyView>
    decreases entries.len(),
{
    if entries.len() == 0 {
        Seq::empty()
    } else {
        carried_entries(target, entries.drop_last()) + carried_entry(
            target,
            entries.last().0,
            entries.last().1,
        )
    }
}

/// The copies that carry the application's settings over into the new file.
pub open spec fn carried(target: TomlView, existing: TomlView) -> Seq<CopyView> {
    match existing.entries() {
        Some(entries) => carried_entries(target, entries),
        None => Seq::empty(),
    }
}

/// The new file with the application's settings of the old one.
pub open spec fn with_app_level(existing: Seq<char>, new: Seq<char>) -> Result<
    Seq<char>,
    ErrorView,
> {
    let existing = normalized_or_same(existing);
    match normalized(new) {
        Err(e) => Err(e),
        Ok(new) => if text::is_blank(existing) {
            Ok(new)
        } else {
            match toml_doc::toml_tree(existing) {
                None => Ok(new),
                Some(existing_tree) => match toml_doc::toml_tree(new) {
                    None => Err(toml_doc::invalid_config(new)),
                    Some(target_tree) => Ok(
                        toml_doc::toml_printed(
                            new,
                            toml_doc::copies_from(carried(target_tree, existing_tree), existing),
                        ),
                    ),
                },
            }
        },
    }
}

/// Whether `key` is a top-level key that never comes from the old file.
fn is_provider_owned_key(key: &str) -> (r: bool)
    ensures
        r == is_owned_key(key@),
{
    str_eq(key, "model") || str_eq(key, "model_provider") || str_eq(key, "model_providers")
        || str_eq(key, "base_url") || str_eq(key, "wire_api") || str_eq(
        key,
        "experimental_bearer_token",
    ) || str_eq(key, "model_catalog_json") || str_eq(key, "web_search") || str_eq(
        key,
        "mcp_servers",
    ) || str_eq(key, "plugins") || str_eq(key, "marketplaces")
}

/// Appends the copies for the entries that the table `target` at `path` is missing.
fn push_missing_entries(
    copies: &mut Vec<TomlCopy>,
    path: &Vec<String>,
    target: &Toml,
    entries: &Vec<(String, Toml)>,
)
    ensures
        toml_doc::copies_view(final(copies)@) == toml_doc::copies_view(old(copies)@)
            + missing_entries(text::texts(path@), target@, toml_doc::entries_view(entries@)),
    decreases entries,
{
    let ghost start = toml_doc::copies_view(copies@);
    let ghost path_view = text::texts(path@);
    let ghost views = toml_doc::entries_view(entries@);
    let mut i: usize = 0;
    assert(start + missing_entries(path_view, target@, views.take(0)) =~= start);
    while i < entries.len()
        invariant
            i <= entries@.len(),
            path_view == text::texts(path@),
            views == toml_doc::entries_view(entries@),
            toml_doc::copies_view(copies@) == start + missing_entries(
                path_view,
                target@,
                views.take(i as int),
            ),
        decreases entries@.len() - i,
    {
        proof {
            toml_doc::lemma_entries_view(entries@);
            assert(views.take(i + 1).drop_last() =~= views.take(i as int));
            assert(views.take(i + 1).last() == views[i as int]);
        }
        let ghost before = toml_doc::copies_view(copies@);
        let key = entries[i].0.as_str();
        let item = &entries[i].1;
        push_missing_entry(copies, path, target, key, item);
        i += 1;
        assert(toml_doc::copies_view(copies@) =~= start + missing_entries(
            path_view,
            target@,
            views.take(i as int),
        ));
    }
    proof {
        toml_doc::lemma_entries_view(entries@);
        assert(views.take(i as int) =~= views);
    }
}

/// Appends the copies for one entry that the table `target` at `path` may be missing.
fn push_missing_entry(
    copies: &mut Vec<TomlCopy>,
    path: &Vec<String>,
    target: &Toml,
    key: &str,
    item: &Toml,
)
    ensures
        toml_doc::copies_view(final(copies)@) == toml_doc::copies_view(old(copies)@)
            + missing_entry(text::texts(path@), target@, key@, item@),
    decreases item,
{
    let ghost start = toml_doc::copies_view(copies@);
    match target.get(key) {
        None => {
            let copy = TomlCopy::Insert { path: text::copy_list(path), key: key.to_owned() };
            proof {
                toml_doc::lemma_copies_push(copies@, copy);
            }
            copies.push(copy);
        },
        Some(inner) => {
            if inner.is_table_like() {
                match item {
                    Toml::Table(entries) => {
                        push_missing_entries(copies, &extended(path, key), inner, entries);
                    },
                    Toml::Inline(entries) => {
                        push_missing_entries(copies, &extended(path, key), inner, entries);
                    },
                    _ => {},
                }
            }
        },
    }
    assert(toml_doc::copies_view(copies@) =~= start + missing_entry(
        text::texts(path@),
        target@,
        key@,
        item@,
    ));
}

/// The copies that carry the application's settings over into the new file.
pub fn plan_carried(target: &Toml, existing: &Toml) -> (r: Vec<TomlCopy>)
    ensures
        toml_doc::copies_view(r@) == carried(target@, existing@),
{
    let mut copies: Vec<TomlCopy> = Vec::new();
    assert(toml_doc::copies_view(copies@) =~= Seq::<CopyView>::empty());
    let entries = match existing.entries() {
        Some(entries) => entries,
        None => {
            return copies;
        },
    };
    let ghost views = toml_doc::entries_view(entries@);
    let mut i: usize = 0;
    while i < entries.len()
        invariant
            i <= entries@.len(),
            views == toml_doc::entries_view(entries@),
            toml_doc::copies_view(copies@) == carried_entries(target@, views.take(i as int)),
        decreases entries@.len() - i,
    {
        proof {
            toml_doc::lemma_entries_view(entries@);
            assert(views.take(i + 1).drop_last() =~= views.take(i as int));
            assert(views.take(i + 1).last() == views[i as int]);
        }
        let ghost before = toml_doc::copies_view(copies@);
        let key = entries[i].0.as_str();
        let item = &entries[i].1;
        let owned = if str_eq(key, CODEX_WEB_SEARCH_FIELD) {
            match item.as_str() {
                Some(value) => str_eq(value, CODEX_WEB_SEARCH_DISABLED),
                None => false,
            }
        } else {
            is_provider_owned_key(key)
        };
        if !owned {
            if target.get(key).is_none() {
                let copy = TomlCopy::Assign { key: key.to_owned() };
                proof {
                    toml_doc::lemma_copies_push(copies@, copy);
                }
                copies.push(copy);
            } else {
                push_missing_entry(&mut copies, &root_path(), target, key, item);
            }
        }
        i += 1;
        assert(toml_doc::copies_view(copies@) =~= before + carried_entry(
            target@,
            views[i - 1].0,
            views[i - 1].1,
        ));
    }
    proof {
        toml_doc::lemma_entries_view(entries@);
        assert(views.take(i as int) =~= views);
    }
    copies
}

/// Whether a file with the application's settings of an old one holds what it should.
pub open spec fn app_level_holds(existing: Seq<char>, new: Seq<char>) -> bool {
    let old = normalized_or_same(existing);
    normalized(new) matches Ok(new) ==> match (toml_doc::toml_tree(old), toml_doc::toml_tree(new)) {
        (Some(old_tree), Some(target)) => text::is_blank(old) || toml_doc::holds(
            new,
            toml_doc::copies_from(carried(target, old_tree), old),
        ),
        _ => true,
    }
}

/// The new file with the application's settings of the old one. Entries that the new file has
/// stay as they are; tables that both have are merged. An old file that is blank or not TOML
/// gives nothing.
pub fn merge_codex_app_level_config(existing_config: &str, new_config: &str) -> (r: Result<
    String,
    AppError,
>)
    ensures
        error::text_result(r) == with_app_level(existing_config@, new_config@),
        app_level_holds(existing_config@, new_config@),
        normalize_holds(existing_config@),
        normalize_holds(new_config@),
{
    let existing_config = normalize_codex_config_text_best_effort(existing_config.to_owned());
    let new_config = match normalize_codex_config_text(new_config) {
        Ok(new_config) => new_config,
        Err(e) => {
            return Err(e);
        },
    };
    if existing_config.as_str().trim().is_empty() {
        return Ok(new_config);
    }
    let existing = match parse_document(existing_config.as_str()) {
        Ok(doc) => doc,
        Err(_) => {
            return Ok(new_config);
        },
    };
    let target = match parse_config(new_config.as_str()) {
        Ok(doc) => doc,
        Err(e) => {
            return Err(e);
        },
    };
    let copies = plan_carried(&document_tree(&target), &document_tree(&existing));
    Ok(with_copies(target, &existing, &copies))
}

/// The copies for the entries of a table of registrations that the new file is missing.
pub open spec fn registrations(
    target: TomlView,
    key: Seq<char>,
    entries: Seq<(Seq<char>, TomlView)>,
) -> Seq<CopyView>
    decreases entries.len(),
{
    if entries.len() == 0 {
        Seq::empty()
    } else {
        let front = registrations(target, key, entries.drop_last());
        if target.get(entries.last().0) is None {
            front.push(CopyView::Insert { path: seq![key], key: entries.last().0 })
        } else {
            front
        }
    }
}

/// The copies for one table of registrations: entry by entry where the new file has the table, the
/// whole table where it has nothing in its place.
pub open spec fn registration_copies(
    target: TomlView,
    existing: TomlView,
    key: Seq<char>,
) -> Seq<CopyView> {
    match existing.get(key) {
        Some(item) => match item.entries() {
            Some(entries) => match target.get(key) {
                Some(table) => if table.is_table_like() {
                    registrations(table, key, entries)
                } else {
                    Seq::empty()
                },
                None => seq![CopyView::Assign { key }],
            },
            None => Seq::empty(),
        },
        None => Seq::empty(),
    }
}

/// The copies that keep plugins and marketplaces registered.
pub open spec fn plugin_copies(target: TomlView, existing: TomlView) -> Seq<CopyView> {
    registration_copies(target, existing, "plugins"@) + registration_copies(
        target,
        existing,
        "marketplaces"@,
    )
}

/// The new file with the plugins and marketplaces of the old one.
pub open spec fn with_plugins(existing: Seq<char>, new: Seq<char>) -> Result<Seq<char>, ErrorView> {
    if text::is_blank(existing) {
        Ok(new)
    } else {
        match toml_doc::toml_tree(existing) {
            None => Ok(new),
            Some(existing_tree) => if existing_tree.get("plugins"@) is None && existing_tree.get(
                "marketplaces"@,
            ) is None {
                Ok(new)
            } else {
                match toml_doc::toml_tree(new) {
                    None => Err(toml_doc::invalid_config(new)),
                    Some(target) => Ok(
                        toml_doc::toml_printed(
                            new,
                            toml_doc::copies_from(plugin_copies(target, existing_tree), existing),
                        ),
                    ),
                }
            },
        }
    }
}

/// Appends the copies for one table of registrations.
fn push_registrations(copies: &mut Vec<TomlCopy>, target: &Toml, existing: &Toml, key: &str)
    ensures
        toml_doc::copies_view(final(copies)@) == toml_doc::copies_view(old(copies)@)
            + registration_copies(target@, existing@, key@),
{
    let ghost start = toml_doc::copies_view(copies@);
    assert(start + Seq::<CopyView>::empty() =~= start);
    let entries = match existing.get(key) {
        Some(item) => match item.entries() {
            Some(entries) => entries,
            None => {
                return;
            },
        },
        None => {
            return;
        },
    };
    match target.get(key) {
        Some(table) => {
            if table.is_table_like() {
                let ghost views = toml_doc::entries_view(entries@);
                let mut i: usize = 0;
                assert(start + registrations(table@, key@, views.take(0)) =~= start);
                while i < entries.len()
                    invariant
                        i <= entries@.len(),
                        views == toml_doc::entries_view(entries@),
                        toml_doc::copies_view(copies@) == start + registrations(
                            table@,
                            key@,
                            views.take(i as int),
                        ),
                    decreases entries@.len() - i,
                {
                    proof {
                        toml_doc::lemma_entries_view(entries@);
                        assert(views.take(i + 1).drop_last() =~= views.take(i as int));
                        assert(views.take(i + 1).last() == views[i as int]);
                    }
                    if table.get(entries[i].0.as_str()).is_none() {
                        let copy = TomlCopy::Insert { path: path1(key), key: entries[i].0.clone() };
                        proof {
                            toml_doc::lemma_copies_push(copies@, copy);
                        }
                        copies.push(copy);
                    }
                    i += 1;
                    assert(toml_doc::copies_view(copies@) =~= start + registrations(
                        table@,
                        key@,
                        views.take(i as int),
                    ));
                }
                proof {
                    toml_doc::lemma_entries_view(entries@);
                    assert(views.take(i as int) =~= views);
                }
            }
        },
        None => {
            let copy = TomlCopy::Assign { key: key.to_owned() };
            proof {
                toml_doc::lemma_copies_push(copies@, copy);
            }
            copies.push(copy);
            assert(toml_doc::copies_view(copies@) =~= start + seq![CopyView::Assign { key: key@ }]);
        },
    }
}

/// The copies that keep plugins and marketplaces registered.
pub fn plan_plugins(target: &Toml, existing: &Toml) -> (r: Vec<TomlCopy>)
    ensures
        toml_doc::copies_view(r@) == plugin_copies(target@, existing@),
{
    let mut copies: Vec<TomlCopy> = Vec::new();
    assert(toml_doc::copies_view(copies@) =~= Seq::<CopyView>::empty());
    push_registrations(&mut copies, target, existing, "plugins");
    push_registrations(&mut copies, target, existing, "marketplaces");
    assert(toml_doc::copies_view(copies@) =~= plugin_copies(target@, existing@));
    copies
}

/// Whether a file with the plugins and marketplaces of an old one holds what it should.
pub open spec fn plugins_hold(existing: Seq<char>, new: Seq<char>) -> bool {
    match (toml_doc::toml_tree(existing), toml_doc::toml_tree(new)) {
        (Some(old_tree), Some(target)) => text::is_blank(existing) || (old_tree.get("plugins"@)
            is None && old_tree.get("marketplaces"@) is None) || toml_doc::holds(
            new,
            toml_doc::copies_from(plugin_copies(target, old_tree), existing),
        ),
        _ => true,
    }
}

/// The new file with the plugins and marketplaces that are registered in the old one. What the new
/// file declares stays as it is. An old file that is blank or not TOML gives nothing.
pub fn merge_codex_plugin_sections(existing_config: &str, new_config: &str) -> (r: Result<
    String,
    AppError,
>)
    ensures
        error::text_result(r) == with_plugins(existing_config@, new_config@),
        plugins_hold(existing_config@, new_config@),
{
    if existing_config.trim().is_empty() {
        return Ok(new_config.to_owned());
    }
    let existing = match parse_document(existing_config) {
        Ok(doc) => doc,
        Err(_) => {
            return Ok(new_config.to_owned());
        },
    };
    let existing_tree = document_tree(&existing);
    if existing_tree.get("plugins").is_none() && existing_tree.get("marketplaces").is_none() {
        return Ok(new_config.to_owned());
    }
    let target = match parse_config(new_config) {
        Ok(doc) => doc,
        Err(e) => {
            return Err(e);
        },
    };
    let copies = plan_plugins(&document_tree(&target), &existing_tree);
    Ok(with_copies(target, &existing, &copies))
}

} // verus!
