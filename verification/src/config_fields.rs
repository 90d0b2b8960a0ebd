//! Single fields of `config.toml`: tokens, addresses, the catalog pointer and
//! the web search switch.

use crate::config_merge::{
    normalize_codex_config_text, CODEX_WEB_SEARCH_DISABLED, CODEX_WEB_SEARCH_FIELD,
};
use crate::error::{AppError, ErrorView};
use crate::official_route::{find_open_table, find_provider_table};
use crate::paths::path_file_name;
use crate::text::{join2, str_contains, str_eq};
use crate::toml_doc::{
    document_tree, edited, parse_config, parse_document, path1, path2, root_path, try_edited, EditView,
    Toml, TomlEdit, TomlView, UNWRITABLE_MESSAGE,
};
use crate::toml_value::check_table;
use crate::{
    config_merge, error, field_laws, official_route, paths, text, toml_doc, toml_model, toml_value,
};
use vstd::prelude::*;
use vstd::string::*;

verus! {

/// The file name of the generated model catalog.
pub const CC_SWITCH_CODEX_MODEL_CATALOG_FILENAME: &'static str = "cc-switch-model-catalog.json";

/// Whether an id is one that Codex keeps for its own providers, whatever its case.
pub open spec fn is_reserved_id(id: Seq<char>) -> bool {
    let id = text::lower(id);
    ||| id == text::lower("amazon-bedrock"@)
    ||| id == text::lower("openai"@)
    ||| id == text::lower("ollama"@)
    ||| id == text::lower("lmstudio"@)
    ||| id == text::lower("oss"@)
    ||| id == text::lower("ollama-chat"@)
}

/// Whether an id stands for a provider that is not one of Codex's own.
pub open spec fn is_custom_id(id: Seq<char>) -> bool {
    !text::is_blank(id) && !is_reserved_id(text::trim(id))
}

/// The id of the active provider, trimmed, where there is one that is not blank.
pub open spec fn active_provider(tree: TomlView) -> Option<Seq<char>> {
    match tree.get_text("model_provider"@) {
        Some(id) => if text::is_blank(id) {
            None
        } else {
            Some(text::trim(id))
        },
        None => None,
    }
}

/// Whether an id stands for a provider that is not one of Codex's own.
pub fn is_custom_codex_model_provider_id(id: &str) -> (r: bool)
    ensures
        r == is_custom_id(id@),
{
    let id = id.trim();
    !id.is_empty() && !("amazon-bedrock".eq_ignore_ascii_case(id) || "openai".eq_ignore_ascii_case(
        id,
    ) || "ollama".eq_ignore_ascii_case(id) || "lmstudio".eq_ignore_ascii_case(id)
        || "oss".eq_ignore_ascii_case(id) || "ollama-chat".eq_ignore_ascii_case(id))
}

/// The id of the active provider.
pub fn active_codex_model_provider_id(tree: &Toml) -> (r: Option<String>)
    ensures
        text::text_of(r) == active_provider(tree@),
{
    match tree.get_str("model_provider") {
        Some(id) => {
            let id = id.trim();
            if id.is_empty() {
                None
            } else {
                Some(id.to_owned())
            }
        },
        None => None,
    }
}

/// The result of checking a config text: a blank one passes, any other must be TOML before and
/// after its legacy values are replaced.
pub open spec fn config_check(config: Seq<char>) -> Result<(), ErrorView> {
    if text::is_blank(config) {
        Ok(())
    } else {
        match config_merge::normalized(config) {
            Err(e) => Err(e),
            Ok(normalized) => match toml_value::table_error(normalized) {
                Some(detail) => Err(ErrorView::Toml { path: "config.toml"@, detail }),
                None => Ok(()),
            },
        }
    }
}

/// Checks a config text.
pub fn validate_config_toml(config_text: &str) -> (r: Result<(), AppError>)
    ensures
        error::unit_result(r) == config_check(config_text@),
{
    if config_text.trim().is_empty() {
        return Ok(());
    }
    let normalized = match normalize_codex_config_text(config_text) {
        Ok(normalized) => normalized,
        Err(e) => {
            return Err(e);
        },
    };
    match check_table(normalized.as_str()) {
        Ok(()) => Ok(()),
        Err(detail) => Err(AppError::Toml { path: "config.toml".to_owned(), detail }),
    }
}

/// The bearer token of the active provider, else the one at the top level, before trimming. A table
/// in braces is passed over.
pub open spec fn raw_token(tree: TomlView) -> Option<Seq<char>> {
    let top = tree.get_text("experimental_bearer_token"@);
    match active_provider(tree) {
        Some(id) => if is_custom_id(id) {
            let own = match official_route::open_table(tree, id) {
                Some(table) => table.get_text("experimental_bearer_token"@),
                None => None,
            };
            if own is Some {
                own
            } else {
                top
            }
        } else {
            top
        },
        None => top,
    }
}

/// The bearer token of the active provider, else the one at the top level, where it is not blank.
pub open spec fn token_of(tree: TomlView) -> Option<Seq<char>> {
    match raw_token(tree) {
        Some(token) => if text::is_blank(token) {
            None
        } else {
            Some(text::trim(token))
        },
        None => None,
    }
}

/// The bearer token of a config.
pub open spec fn bearer_token(config: Seq<char>) -> Option<Seq<char>> {
    if text::occurs(config, "experimental_bearer_token"@) {
        match toml_doc::toml_tree(config) {
            Some(tree) => token_of(tree),
            None => None,
        }
    } else {
        None
    }
}

/// The bearer token of a config tree.
pub fn tree_bearer_token(tree: &Toml) -> (r: Option<String>)
    ensures
        text::text_of(r) == token_of(tree@),
{
    let mut token = tree.get_str("experimental_bearer_token");
    if let Some(id) = active_codex_model_provider_id(tree) {
        if is_custom_codex_model_provider_id(id.as_str()) {
            if let Some(table) = find_open_table(tree, id.as_str()) {
                if let Some(own) = table.get_str("experimental_bearer_token") {
                    token = Some(own);
                }
            }
        }
    }
    match token {
        Some(token) => {
            let token = token.trim();
            if token.is_empty() {
                None
            } else {
                Some(token.to_owned())
            }
        },
        None => None,
    }
}

/// The bearer token of a config: the active provider's own, else the one at the top level.
pub fn extract_codex_experimental_bearer_token(config_text: &str) -> (r: Option<String>)
    ensures
        text::text_of(r) == bearer_token(config_text@),
{
    if !str_contains(config_text, "experimental_bearer_token") {
        return None;
    }
    match parse_document(config_text) {
        Ok(doc) => tree_bearer_token(&document_tree(&doc)),
        Err(_) => None,
    }
}

/// The path to the table that a bearer token is written into: the active provider's, where it is
/// not one of Codex's own and has a table that is not in braces, else the root.
pub open spec fn token_path(tree: TomlView) -> Seq<Seq<char>> {
    match active_provider(tree) {
        Some(id) => if is_custom_id(id) && official_route::open_table(tree, id) is Some {
            official_route::provider_path(id)
        } else {
            toml_doc::root()
        },
        None => toml_doc::root(),
    }
}

/// The change that writes a bearer token.
pub open spec fn token_edits(tree: TomlView, token: Seq<char>) -> Seq<EditView> {
    seq![
        EditView::AssignStr {
            path: token_path(tree),
            key: "experimental_bearer_token"@,
            value: token,
        },
    ]
}

/// The error for a provider without a config to write a token into.
pub open spec fn missing_config_error() -> ErrorView {
    ErrorView::Localized {
        key: "provider.codex.config.missing"@,
        zh: "Codex 第三方供应商缺少 config.toml 配置，无法写入 bearer token"@,
        en: "Codex third-party provider is missing config.toml, cannot write bearer token"@,
    }
}

/// A config with a bearer token written into it.
pub open spec fn with_token(config: Seq<char>, token: Seq<char>) -> Result<Seq<char>, ErrorView> {
    if text::is_blank(config) {
        Err(missing_config_error())
    } else {
        match toml_doc::toml_tree(config) {
            None => Err(toml_doc::invalid_config(config)),
            Some(tree) => toml_doc::written(config, token_edits(tree, token)),
        }
    }
}

/// The change that writes a bearer token.
pub fn plan_bearer_token(tree: &Toml, token: &str) -> (r: Vec<TomlEdit>)
    ensures
        toml_doc::edits_view(r@) == token_edits(tree@, token@),
{
    let mut path = root_path();
    if let Some(id) = active_codex_model_provider_id(tree) {
        if is_custom_codex_model_provider_id(id.as_str()) && find_open_table(
            tree,
            id.as_str(),
        ).is_some() {
            path = path2("model_providers", id.as_str());
        }
    }
    let mut edits: Vec<TomlEdit> = Vec::new();
    edits.push(
        TomlEdit::AssignStr {
            path,
            key: "experimental_bearer_token".to_owned(),
            value: token.to_owned(),
        },
    );
    assert(toml_doc::edits_view(edits@) =~= token_edits(tree@, token@));
    edits
}

/// The place of the entry that a bearer token is written into.
pub open spec fn token_place(tree: TomlView) -> Seq<Seq<char>> {
    token_path(tree).push("experimental_bearer_token"@)
}

/// Whether a token that was written into `config` is the one that is read from `out`, where that is
/// TOML again, and whether the two differ in nothing but that token. A token under a name that is
/// written with escapes is not found; a name that was not there before is written without.
pub open spec fn reads_token(config: Seq<char>, out: Seq<char>, token: Seq<char>) -> bool {
    match (toml_doc::toml_tree(config), toml_doc::toml_tree(out)) {
        (Some(tree), Some(read)) => !text::is_blank(token) ==> {
            &&& token_of(read) == Some(text::trim(token))
            &&& toml_model::differs_only_at(read, tree, token_place(tree))
            &&& toml_model::at(tree, token_place(tree)) is None ==> text::occurs(
                out,
                "experimental_bearer_token"@,
            )
            &&& text::occurs(out, "experimental_bearer_token"@) ==> bearer_token(out) == Some(
                text::trim(token),
            )
        },
        _ => true,
    }
}

/// The name of the token needs no quotes.
proof fn lemma_token_name()
    ensures
        toml_model::is_bare("experimental_bearer_token"@),
{
    reveal_strlit("experimental_bearer_token");
    let key = "experimental_bearer_token"@;
    assert forall|i: int| 0 <= i < key.len() implies ({
        let c = #[trigger] key[i];
        'a' <= c <= 'z' || 'A' <= c <= 'Z' || '0' <= c <= '9' || c == '_' || c == '-'
    }) by {
        assert(key.len() == 25);
    }
}

/// A config with a bearer token written into it.
pub fn set_codex_experimental_bearer_token(config_text: &str, token: &str) -> (r: Result<
    String,
    AppError,
>)
    ensures
        error::text_result(r) == with_token(config_text@, token@),
        r is Ok ==> toml_doc::holds(
            config_text@,
            token_edits(toml_doc::toml_tree(config_text@)->Some_0, token@),
        ),
        r matches Ok(out) ==> reads_token(config_text@, out@, token@),
{
    if config_text.trim().is_empty() {
        return Err(
            AppError::Localized {
                key: "provider.codex.config.missing".to_owned(),
                zh: "Codex 第三方供应商缺少 config.toml 配置，无法写入 bearer token".to_owned(),
                en: "Codex third-party provider is missing config.toml, cannot write bearer token".to_owned(),
            },
        );
    }
    let doc = match parse_config(config_text) {
        Ok(doc) => doc,
        Err(e) => {
            return Err(e);
        },
    };
    let tree = document_tree(&doc);
    let edits = plan_bearer_token(&tree, token);
    let out = match try_edited(doc, &edits) {
        Ok(out) => out,
        Err(e) => {
            return Err(e);
        },
    };
    proof {
        match toml_doc::toml_tree(out@) {
            Some(read) => {
                if !text::is_blank(token@) {
                    field_laws::law_a_written_token_is_read(tree@, token@, read);
                    lemma_token_name();
                    assert(token_place(tree@).last() == "experimental_bearer_token"@);
                    assert(toml_model::at(read, token_place(tree@)) is Some);
                }
            },
            None => {},
        }
    }
    Ok(out)
}

/// The token in the active provider's own table, trimmed.
pub open spec fn provider_token(tree: TomlView) -> Option<Seq<char>> {
    match active_provider(tree) {
        Some(id) => match official_route::open_table(tree, id) {
            Some(table) => match table.get_text("experimental_bearer_token"@) {
                Some(token) => Some(text::trim(token)),
                None => None,
            },
            None => None,
        },
        None => None,
    }
}

/// The token at the top level, trimmed.
pub open spec fn top_level_token(tree: TomlView) -> Option<Seq<char>> {
    match tree.get_text("experimental_bearer_token"@) {
        Some(token) => Some(text::trim(token)),
        None => None,
    }
}

/// The changes that take out the tokens that were judged to go.
pub open spec fn token_removals(tree: TomlView, own: bool, top: bool) -> Seq<EditView> {
    let own_edits = if own {
        seq![
            EditView::Remove {
                path: official_route::provider_path(active_provider(tree)->Some_0),
                key: "experimental_bearer_token"@,
            },
        ]
    } else {
        Seq::empty()
    };
    if top {
        own_edits.push(
            EditView::Remove { path: toml_doc::root(), key: "experimental_bearer_token"@ },
        )
    } else {
        own_edits
    }
}

/// Whether `answer` is what `predicate` can say of an optional text; of none it says no.
pub open spec fn judged<F: Fn(&str) -> bool>(
    predicate: F,
    subject: Option<Seq<char>>,
    answer: bool,
) -> bool {
    match subject {
        Some(subject) => exists|s: &str|
            s@ == subject && #[trigger] call_ensures(predicate, (s,), answer),
        None => !answer,
    }
}

/// The changes that take out the tokens that were judged to go.
pub fn plan_token_removals(tree: &Toml, own: bool, top: bool) -> (r: Vec<TomlEdit>)
    requires
        own ==> active_provider(tree@) is Some,
    ensures
        toml_doc::edits_view(r@) == token_removals(tree@, own, top),
{
    let mut edits: Vec<TomlEdit> = Vec::new();
    if own {
        if let Some(id) = active_codex_model_provider_id(tree) {
            edits.push(
                TomlEdit::Remove {
                    path: path2("model_providers", id.as_str()),
                    key: "experimental_bearer_token".to_owned(),
                },
            );
        }
    }
    if top {
        edits.push(
            TomlEdit::Remove { path: root_path(), key: "experimental_bearer_token".to_owned() },
        );
    }
    assert(toml_doc::edits_view(edits@) =~= token_removals(tree@, own, top));
    edits
}

/// A config without the tokens that were judged to go.
pub open spec fn without_tokens(config: Seq<char>, own: bool, top: bool) -> Result<
    Seq<char>,
    ErrorView,
> {
    match toml_doc::toml_tree(config) {
        None => Err(toml_doc::invalid_config(config)),
        Some(tree) => Ok(toml_doc::toml_printed(config, token_removals(tree, own, top))),
    }
}

/// Whether a config is left alone because no token can be in it.
pub open spec fn has_no_token_text(config: Seq<char>) -> bool {
    text::is_blank(config) || !text::occurs(config, "experimental_bearer_token"@)
}

/// A config without the bearer tokens that `predicate` says to take out: of the active provider's
/// own token and of the one at the top level.
pub fn remove_codex_experimental_bearer_token_if<F: Fn(&str) -> bool>(
    config_text: &str,
    predicate: F,
) -> (r: Result<String, AppError>)
    requires
        forall|s: &str| call_requires(predicate, (s,)),
    ensures
        has_no_token_text(config_text@) ==> error::text_result(r) == Ok::<Seq<char>, ErrorView>(
            config_text@,
        ),
        !has_no_token_text(config_text@) ==> match toml_doc::toml_tree(config_text@) {
            None => error::text_result(r) == Err::<Seq<char>, ErrorView>(
                toml_doc::invalid_config(config_text@),
            ),
            Some(tree) => exists|own: bool, top: bool|
                judged(predicate, provider_token(tree), own) && judged(
                    predicate,
                    top_level_token(tree),
                    top,
                ) && error::text_result(r) == #[trigger] without_tokens(config_text@, own, top)
                    && toml_doc::holds(config_text@, token_removals(tree, own, top)),
        },
{
    if config_text.trim().is_empty() || !str_contains(config_text, "experimental_bearer_token") {
        return Ok(config_text.to_owned());
    }
    let doc = match parse_config(config_text) {
        Ok(doc) => doc,
        Err(e) => {
            return Err(e);
        },
    };
    let tree = document_tree(&doc);
    let mut own = false;
    if let Some(id) = active_codex_model_provider_id(&tree) {
        if let Some(table) = find_open_table(&tree, id.as_str()) {
            if let Some(token) = table.get_str("experimental_bearer_token") {
                own = predicate(token.trim());
            }
        }
    }
    assert(judged(predicate, provider_token(tree@), own));
    let mut top = false;
    if let Some(token) = tree.get_str("experimental_bearer_token") {
        top = predicate(token.trim());
    }
    assert(judged(predicate, top_level_token(tree@), top));
    let edits = plan_token_removals(&tree, own, top);
    let out = edited(doc, &edits);
    assert(Ok::<Seq<char>, ErrorView>(out@) == without_tokens(config_text@, own, top));
    Ok(out)
}

/// A config without the bearer tokens: neither the active provider's own nor the one at the top
/// level.
pub open spec fn without_any_token(config: Seq<char>) -> Result<Seq<char>, ErrorView> {
    if has_no_token_text(config) {
        Ok(config)
    } else {
        match toml_doc::toml_tree(config) {
            None => Err(toml_doc::invalid_config(config)),
            Some(tree) => without_tokens(
                config,
                provider_token(tree) is Some,
                top_level_token(tree) is Some,
            ),
        }
    }
}

/// Whether no token is read from a config, where it is TOML.
pub open spec fn reads_no_token(out: Seq<char>) -> bool {
    toml_doc::toml_tree(out) matches Some(read) ==> token_of(read) is None
}

/// A config without the bearer tokens: neither the active provider's own nor the one at the top
/// level.
pub fn remove_codex_experimental_bearer_token(config_text: &str) -> (r: Result<String, AppError>)
    ensures
        error::text_result(r) == without_any_token(config_text@),
        r matches Ok(out) ==> has_no_token_text(config_text@) || reads_no_token(out@),
{
    let r = remove_codex_experimental_bearer_token_if(config_text, is_any_token);
    proof {
        if !has_no_token_text(config_text@) {
            match (toml_doc::toml_tree(config_text@), error::text_result(r)) {
                (Some(tree), Ok(out)) => {
                    let own = provider_token(tree) is Some;
                    let top = top_level_token(tree) is Some;
                    assert(toml_doc::holds(config_text@, token_removals(tree, own, top)));
                    match toml_doc::toml_tree(out) {
                        Some(read) => field_laws::law_removed_tokens_are_not_read(tree, read),
                        None => {},
                    }
                },
                _ => {},
            }
        }
    }
    r
}

/// Says yes to every token.
fn is_any_token(_token: &str) -> (r: bool)
    ensures
        r,
{
    true
}

/// Whether a file name is that of the generated catalog, whatever its case.
pub open spec fn is_catalog_name(name: Option<Seq<char>>) -> bool {
    name matches Some(name) && text::lower(name) == text::lower(
        CC_SWITCH_CODEX_MODEL_CATALOG_FILENAME@,
    )
}

/// Whether a file name is that of the generated catalog. File systems differ in whether case
/// counts, so it does not here.
pub fn is_cc_switch_catalog_filename(name: Option<&str>) -> (r: bool)
    ensures
        r == is_catalog_name(text::slice_text(name)),
{
    match name {
        Some(name) => name.eq_ignore_ascii_case(CC_SWITCH_CODEX_MODEL_CATALOG_FILENAME),
        None => false,
    }
}

/// The change to the catalog pointer. `name` is the file name of the path that it holds. A pointer
/// to another file is the user's own and stays.
pub open spec fn catalog_edits(
    tree: TomlView,
    has_catalog: bool,
    name: Option<Seq<char>>,
) -> Seq<EditView> {
    let pointer = tree.get_text("model_catalog_json"@);
    if has_catalog && (pointer is None || is_catalog_name(name)) {
        seq![
            EditView::AssignStr {
                path: toml_doc::root(),
                key: "model_catalog_json"@,
                value: CC_SWITCH_CODEX_MODEL_CATALOG_FILENAME@,
            },
        ]
    } else if !has_catalog && pointer is Some && is_catalog_name(name) {
        seq![EditView::Remove { path: toml_doc::root(), key: "model_catalog_json"@ }]
    } else {
        Seq::empty()
    }
}

/// A config with its catalog pointer set or taken out.
pub open spec fn with_catalog(
    config: Seq<char>,
    has_catalog: bool,
    name: Option<Seq<char>>,
) -> Result<Seq<char>, ErrorView> {
    match toml_doc::toml_tree(config) {
        None => Err(toml_doc::invalid_config(config)),
        Some(tree) => Ok(toml_doc::toml_printed(config, catalog_edits(tree, has_catalog, name))),
    }
}

/// Whether `name` can be the file name of the catalog pointer of a config.
pub open spec fn names_pointer(config: Seq<char>, name: Option<Seq<char>>) -> bool {
    toml_doc::toml_tree(config) matches Some(tree) ==> (tree.get_text("model_catalog_json"@) matches Some(
        pointer,
    ) ==> paths::is_file_name(pointer, name))
}

/// The change to the catalog pointer.
pub fn plan_catalog_pointer(tree: &Toml, has_catalog: bool, name: Option<&str>) -> (r: Vec<TomlEdit>)
    ensures
        toml_doc::edits_view(r@) == catalog_edits(tree@, has_catalog, text::slice_text(name)),
{
    let owned = is_cc_switch_catalog_filename(name);
    let pointed = tree.get_str("model_catalog_json").is_some();
    let mut edits: Vec<TomlEdit> = Vec::new();
    if has_catalog {
        if !pointed || owned {
            edits.push(
                TomlEdit::AssignStr {
                    path: root_path(),
                    key: "model_catalog_json".to_owned(),
                    value: CC_SWITCH_CODEX_MODEL_CATALOG_FILENAME.to_owned(),
                },
            );
        }
    } else if pointed && owned {
        edits.push(TomlEdit::Remove { path: root_path(), key: "model_catalog_json".to_owned() });
    }
    assert(toml_doc::edits_view(edits@) =~= catalog_edits(
        tree@,
        has_catalog,
        text::slice_text(name),
    ));
    edits
}

/// A config with its catalog pointer set, where there is a generated catalog, or taken out. What is
/// written is always the name of the catalog's file, whatever its path. Which file name a path ends
/// in is the platform's to say.
pub fn set_codex_model_catalog_json_field(config_text: &str, catalog_path: Option<&str>) -> (r:
    Result<String, AppError>)
    ensures
        exists|name: Option<Seq<char>>|
            names_pointer(config_text@, name) && error::text_result(r) == #[trigger] with_catalog(
                config_text@,
                catalog_path.is_some(),
                name,
            ) && (toml_doc::toml_tree(config_text@) matches Some(tree) ==> toml_doc::holds(
                config_text@,
                catalog_edits(tree, catalog_path.is_some(), name),
            )),
{
    let has_catalog = catalog_path.is_some();
    let doc = match parse_config(config_text) {
        Ok(doc) => doc,
        Err(e) => {
            assert(names_pointer(config_text@, None));
            assert(Err::<Seq<char>, ErrorView>(e@) == with_catalog(config_text@, has_catalog, None));
            return Err(e);
        },
    };
    let tree = document_tree(&doc);
    let name = match tree.get_str("model_catalog_json") {
        Some(pointer) => path_file_name(pointer),
        None => None,
    };
    let ghost seen = text::text_of(name);
    let name_slice = match &name {
        Some(name) => Some(name.as_str()),
        None => None,
    };
    let edits = plan_catalog_pointer(&tree, has_catalog, name_slice);
    proof {
        broadcast use toml_doc::lemma_short_is_writable;

        reveal_strlit("cc-switch-model-catalog.json");
    }
    let out = edited(doc, &edits);
    assert(names_pointer(config_text@, seen));
    assert(Ok::<Seq<char>, ErrorView>(out@) == with_catalog(config_text@, has_catalog, seen));
    Ok(out)
}

/// The change to the web search switch. Only the value that turns it off is ever taken out.
pub open spec fn web_search_edits(tree: TomlView, disable: bool) -> Seq<EditView> {
    if disable {
        seq![
            EditView::AssignStr {
                path: toml_doc::root(),
                key: CODEX_WEB_SEARCH_FIELD@,
                value: CODEX_WEB_SEARCH_DISABLED@,
            },
        ]
    } else if tree.get_text(CODEX_WEB_SEARCH_FIELD@) == Some(CODEX_WEB_SEARCH_DISABLED@) {
        seq![EditView::Remove { path: toml_doc::root(), key: CODEX_WEB_SEARCH_FIELD@ }]
    } else {
        Seq::empty()
    }
}

/// A config with the web search turned off, or no longer turned off.
pub open spec fn with_web_search(config: Seq<char>, disable: bool) -> Result<Seq<char>, ErrorView> {
    match config_merge::normalized(config) {
        Err(e) => Err(e),
        Ok(normalized) => match toml_doc::toml_tree(normalized) {
            None => Err(toml_doc::invalid_config(normalized)),
            Some(tree) => Ok(toml_doc::toml_printed(normalized, web_search_edits(tree, disable))),
        },
    }
}

/// The change to the web search switch.
pub fn plan_web_search(tree: &Toml, disable: bool) -> (r: Vec<TomlEdit>)
    ensures
        toml_doc::edits_view(r@) == web_search_edits(tree@, disable),
{
    let mut edits: Vec<TomlEdit> = Vec::new();
    if disable {
        edits.push(
            TomlEdit::AssignStr {
                path: root_path(),
                key: CODEX_WEB_SEARCH_FIELD.to_owned(),
                value: CODEX_WEB_SEARCH_DISABLED.to_owned(),
            },
        );
    } else if let Some(value) = tree.get_str(CODEX_WEB_SEARCH_FIELD) {
        if str_eq(value, CODEX_WEB_SEARCH_DISABLED) {
            edits.push(
                TomlEdit::Remove { path: root_path(), key: CODEX_WEB_SEARCH_FIELD.to_owned() },
            );
        }
    }
    assert(toml_doc::edits_view(edits@) =~= web_search_edits(tree@, disable));
    edits
}

/// Whether a config has the web search turned off exactly where that was written, where it is TOML
/// again.
pub open spec fn reads_web_search(out: Seq<char>, disable: bool) -> bool {
    toml_doc::toml_tree(out) matches Some(read) ==> (read.get_text(CODEX_WEB_SEARCH_FIELD@)
        == Some(CODEX_WEB_SEARCH_DISABLED@)) == disable
}

/// A config with the web search turned off, or no longer turned off. A value that the user has set
/// is not taken out.
pub fn set_codex_native_web_search_field(config_text: &str, disable: bool) -> (r: Result<
    String,
    AppError,
>)
    ensures
        error::text_result(r) == with_web_search(config_text@, disable),
        r matches Ok(out) ==> reads_web_search(out@, disable),
{
    let normalized = match normalize_codex_config_text(config_text) {
        Ok(normalized) => normalized,
        Err(e) => {
            return Err(e);
        },
    };
    let doc = match parse_config(normalized.as_str()) {
        Ok(doc) => doc,
        Err(e) => {
            return Err(e);
        },
    };
    let tree = document_tree(&doc);
    let edits = plan_web_search(&tree, disable);
    proof {
        broadcast use toml_doc::lemma_short_is_writable;

        reveal_strlit("disabled");
    }
    let out = edited(doc, &edits);
    proof {
        match toml_doc::toml_tree(out@) {
            Some(read) => {
                field_laws::law_the_web_search_switch_reads_back(
                    tree@,
                    disable,
                    read,
                    seq!["model"@],
                );
            },
            None => {},
        }
    }
    Ok(out)
}

/// Whether an address is one of a gateway that rejects the web search tool.
pub open spec fn is_reject_host(base_url: Seq<char>) -> bool {
    let base_url = text::lower(base_url);
    ||| text::occurs(base_url, "xiaomimimo.com"@)
    ||| text::occurs(base_url, "longcat.chat"@)
    ||| text::occurs(base_url, "minimax.io"@)
    ||| text::occurs(base_url, "minimaxi.com"@)
}

/// Whether a model is one whose gateways reject the web search tool, by its name behind the last
/// slash.
pub open spec fn is_reject_model(model: Seq<char>) -> bool {
    let name = text::after_last_slash(text::lower(model));
    ||| "mimo"@.is_prefix_of(name)
    ||| "longcat"@.is_prefix_of(name)
    ||| "minimax"@.is_prefix_of(name)
    ||| "qwen3-coder"@.is_prefix_of(name)
}

/// Whether a config leads to a gateway or to a model that rejects the web search tool.
pub open spec fn rejects_web_search(tree: TomlView) -> bool {
    ||| toml_value::base_url_of(tree) matches Some(url) && is_reject_host(url)
    ||| toml_value::model_of(tree) matches Some(model) && is_reject_model(model)
}

/// Whether a config tree leads to a gateway or to a model that rejects the web search tool.
pub fn tree_rejects_web_search(tree: &Toml) -> (r: bool)
    ensures
        r == rejects_web_search(tree@),
{
    if let Some(url) = toml_value::tree_base_url(tree) {
        let url = url.as_str().to_ascii_lowercase();
        if str_contains(url.as_str(), "xiaomimimo.com") || str_contains(
            url.as_str(),
            "longcat.chat",
        ) || str_contains(url.as_str(), "minimax.io") || str_contains(
            url.as_str(),
            "minimaxi.com",
        ) {
            return true;
        }
    }
    if let Some(model) = toml_value::tree_model(tree) {
        let model = model.as_str().to_ascii_lowercase();
        let name = text::last_segment(model.as_str());
        if text::str_starts_with(name.as_str(), "mimo") || text::str_starts_with(
            name.as_str(),
            "longcat",
        ) || text::str_starts_with(name.as_str(), "minimax") || text::str_starts_with(
            name.as_str(),
            "qwen3-coder",
        ) {
            return true;
        }
    }
    false
}

/// Whether a config leads to a gateway, or to a model behind some gateway, that is known to reject
/// the web search tool. Any other keeps the tool.
pub fn codex_native_gateway_rejects_web_search(config_text: &str) -> (r: bool)
    ensures
        r == match toml_value::toml_values(config_text@) {
            Some(tree) => rejects_web_search(tree),
            None => false,
        },
{
    match toml_value::parse_values(config_text) {
        Some(tree) => tree_rejects_web_search(&tree),
        None => false,
    }
}

/// The change that sets a top-level field to a value, or takes it out for an empty one.
pub open spec fn root_field_edit(field: Seq<char>, value: Seq<char>) -> EditView {
    if value.len() == 0 {
        EditView::Remove { path: toml_doc::root(), key: field }
    } else {
        EditView::AssignStr { path: toml_doc::root(), key: field, value }
    }
}

/// The change that sets a field of a provider to a value, or takes it out for an empty one.
pub open spec fn provider_field_edit(
    id: Seq<char>,
    field: Seq<char>,
    value: Seq<char>,
) -> EditView {
    if value.len() == 0 {
        EditView::Remove { path: official_route::provider_path(id), key: field }
    } else {
        EditView::InsertStr { path: official_route::provider_path(id), key: field, value }
    }
}

/// The changes that set a field of the active provider, for which a missing table of providers, and
/// a missing table of the provider, is made; without a provider, or where something else stands in
/// place of its table, the top-level field is set.
pub open spec fn routed_field_edits(
    tree: TomlView,
    field: Seq<char>,
    value: Seq<char>,
) -> Seq<EditView> {
    let insert = |id: Seq<char>|
        EditView::InsertTable { path: seq!["model_providers"@], key: id };
    match tree.get_text("model_provider"@) {
        None => seq![root_field_edit(field, value)],
        Some(id) => match tree.get("model_providers"@) {
            Some(providers) => if providers.is_table_like() {
                match providers.get(id) {
                    None => seq![insert(id), provider_field_edit(id, field, value)],
                    Some(provider) => if provider.is_table_like() {
                        seq![provider_field_edit(id, field, value)]
                    } else {
                        seq![root_field_edit(field, value)]
                    },
                }
            } else {
                seq![
                    EditView::AssignTable { key: "model_providers"@, implicit: false },
                    insert(id),
                    provider_field_edit(id, field, value),
                ]
            },
            None => seq![
                EditView::AssignTable { key: "model_providers"@, implicit: false },
                insert(id),
                provider_field_edit(id, field, value),
            ],
        },
    }
}

/// Whether a field is one of the active provider's.
pub open spec fn is_routed_field(field: Seq<char>) -> bool {
    field == "base_url"@ || field == "wire_api"@
}

/// Whether a field is one of the top level.
pub open spec fn is_root_field(field: Seq<char>) -> bool {
    field == "model"@ || field == "model_catalog_json"@
}

/// The changes that set a field to a trimmed value; `None` for a field that cannot be set.
pub open spec fn field_edits(tree: TomlView, field: Seq<char>, value: Seq<char>) -> Option<
    Seq<EditView>,
> {
    if is_routed_field(field) {
        Some(routed_field_edits(tree, field, text::trim(value)))
    } else if is_root_field(field) {
        Some(seq![root_field_edit(field, text::trim(value))])
    } else {
        None
    }
}

/// A config with a field set.
pub open spec fn with_field(config: Seq<char>, field: Seq<char>, value: Seq<char>) -> Result<
    Seq<char>,
    Seq<char>,
> {
    match toml_doc::toml_tree(config) {
        None => Err("TOML parse error: "@ + toml_doc::toml_error(config)),
        Some(tree) => match field_edits(tree, field, value) {
            Some(edits) => if toml_doc::are_writable(edits) {
                Ok(toml_doc::toml_printed(config, edits))
            } else {
                Err(toml_doc::UNWRITABLE_MESSAGE@)
            },
            None => Err("unsupported field: "@ + field),
        },
    }
}

/// The change that sets a top-level field.
fn root_field(field: &str, value: &str) -> (r: TomlEdit)
    ensures
        r@ == root_field_edit(field@, value@),
{
    if value.is_empty() {
        TomlEdit::Remove { path: root_path(), key: field.to_owned() }
    } else {
        TomlEdit::AssignStr { path: root_path(), key: field.to_owned(), value: value.to_owned() }
    }
}

/// The change that sets a field of a provider.
fn provider_field(id: &str, field: &str, value: &str) -> (r: TomlEdit)
    ensures
        r@ == provider_field_edit(id@, field@, value@),
{
    if value.is_empty() {
        TomlEdit::Remove { path: path2("model_providers", id), key: field.to_owned() }
    } else {
        TomlEdit::InsertStr {
            path: path2("model_providers", id),
            key: field.to_owned(),
            value: value.to_owned(),
        }
    }
}

/// The changes that set a field; `None` for a field that cannot be set.
pub fn plan_field(tree: &Toml, field: &str, value: &str) -> (r: Option<Vec<TomlEdit>>)
    ensures
        match r {
            Some(edits) => field_edits(tree@, field@, value@) == Some(
                toml_doc::edits_view(edits@),
            ),
            None => field_edits(tree@, field@, value@) is None,
        },
{
    let value = value.trim();
    let mut edits: Vec<TomlEdit> = Vec::new();
    if str_eq(field, "base_url") || str_eq(field, "wire_api") {
        let mut routed = false;
        if let Some(id) = tree.get_str("model_provider") {
            let mut has_table = false;
            let mut has_provider = false;
            let mut blocked = false;
            if let Some(providers) = tree.get("model_providers") {
                if providers.is_table_like() {
                    has_table = true;
                    if let Some(provider) = providers.get(id) {
                        has_provider = true;
                        blocked = !provider.is_table_like();
                    }
                }
            }
            if !blocked {
                if !has_table {
                    edits.push(
                        TomlEdit::AssignTable {
                            key: "model_providers".to_owned(),
                            implicit: false,
                        },
                    );
                }
                if !has_provider {
                    edits.push(
                        TomlEdit::InsertTable {
                            path: path1("model_providers"),
                            key: id.to_owned(),
                        },
                    );
                }
                edits.push(provider_field(id, field, value));
                routed = true;
            }
        }
        if !routed {
            edits.push(root_field(field, value));
        }
        assert(toml_doc::edits_view(edits@) =~= routed_field_edits(tree@, field@, value@));
        Some(edits)
    } else if str_eq(field, "model") || str_eq(field, "model_catalog_json") {
        edits.push(root_field(field, value));
        assert(toml_doc::edits_view(edits@) =~= seq![root_field_edit(field@, value@)]);
        Some(edits)
    } else {
        None
    }
}

/// What a result with two texts stands for.
pub open spec fn plain_result(r: Result<String, String>) -> Result<Seq<char>, Seq<char>> {
    match r {
        Ok(s) => Ok(s@),
        Err(e) => Err(e@),
    }
}

/// Whether an address that was written is the one that is read again, where the text is TOML again.
pub open spec fn reads_address(out: Seq<char>, field: Seq<char>, value: Seq<char>) -> bool {
    toml_doc::toml_tree(out) matches Some(read) ==> field == "base_url"@ && !text::is_blank(value)
        ==> toml_value::base_url_of(read) == Some(text::trim(value))
}

/// A config with a field set: `base_url` and `wire_api` of the active provider, `model` and
/// `model_catalog_json` at the top level. An empty value takes the field out.
pub fn update_codex_toml_field(toml_str: &str, field: &str, value: &str) -> (r: Result<
    String,
    String,
>)
    ensures
        plain_result(r) == with_field(toml_str@, field@, value@),
        r is Ok ==> toml_doc::holds(
            toml_str@,
            field_edits(toml_doc::toml_tree(toml_str@)->Some_0, field@, value@)->Some_0,
        ),
        r matches Ok(out) ==> reads_address(out@, field@, value@),
{
    let doc = match parse_document(toml_str) {
        Ok(doc) => doc,
        Err(message) => {
            return Err(join2("TOML parse error: ", message.as_str()));
        },
    };
    let tree = document_tree(&doc);
    match plan_field(&tree, field, value) {
        Some(edits) => {
            let out = match try_edited(doc, &edits) {
                Ok(out) => out,
                Err(_) => {
                    return Err(UNWRITABLE_MESSAGE.to_owned());
                },
            };
            proof {
                match toml_doc::toml_tree(out@) {
                    Some(read) => {
                        if field@ == "base_url"@ && !text::is_blank(value@) {
                            field_laws::law_a_written_address_is_read(tree@, value@, read);
                        }
                    },
                    None => {},
                }
            }
            Ok(out)
        },
        None => Err(join2("unsupported field: ", field)),
    }
}

/// The address in the active provider's own table.
pub open spec fn provider_base_url(tree: TomlView) -> Option<Seq<char>> {
    match tree.get_text("model_provider"@) {
        Some(id) => match official_route::provider_table(tree, id) {
            Some(table) => table.get_text("base_url"@),
            None => None,
        },
        None => None,
    }
}

/// The place of the address in the active provider's own table.
pub open spec fn address_place(tree: TomlView) -> Seq<Seq<char>> {
    official_route::provider_path(tree.get_text("model_provider"@)->Some_0).push("base_url"@)
}

/// Whether the addresses that were taken out are not read any more, where the text is TOML again.
pub open spec fn loses_addresses(out: Seq<char>, own: bool, top: bool) -> bool {
    toml_doc::toml_tree(out) matches Some(read) ==> {
        &&& own ==> provider_base_url(read) is None
        &&& top ==> read.get("base_url"@) is None
    }
}

/// The changes that take out the addresses that were judged to go.
pub open spec fn base_url_removals(tree: TomlView, own: bool, top: bool) -> Seq<EditView> {
    let own_edits = if own {
        seq![
            EditView::Remove {
                path: official_route::provider_path(tree.get_text("model_provider"@)->Some_0),
                key: "base_url"@,
            },
        ]
    } else {
        Seq::empty()
    };
    if top {
        own_edits.push(EditView::Remove { path: toml_doc::root(), key: "base_url"@ })
    } else {
        own_edits
    }
}

/// The changes that take out the addresses that were judged to go.
pub fn plan_base_url_removals(tree: &Toml, own: bool, top: bool) -> (r: Vec<TomlEdit>)
    requires
        own ==> tree@.get_text("model_provider"@) is Some,
    ensures
        toml_doc::edits_view(r@) == base_url_removals(tree@, own, top),
{
    let mut edits: Vec<TomlEdit> = Vec::new();
    if own {
        if let Some(id) = tree.get_str("model_provider") {
            edits.push(
                TomlEdit::Remove {
                    path: path2("model_providers", id),
                    key: "base_url".to_owned(),
                },
            );
        }
    }
    if top {
        edits.push(TomlEdit::Remove { path: root_path(), key: "base_url".to_owned() });
    }
    assert(toml_doc::edits_view(edits@) =~= base_url_removals(tree@, own, top));
    edits
}

/// A config without the addresses that `predicate` says to take out: of the active provider's own
/// address, whether its table is in braces or not, and of the one at the top level. A text that is
/// not TOML stays as it is.
pub fn remove_codex_toml_base_url_if<F: Fn(&str) -> bool>(toml_str: &str, predicate: F) -> (r:
    String)
    requires
        forall|s: &str| call_requires(predicate, (s,)),
    ensures
        match toml_doc::toml_tree(toml_str@) {
            None => r@ == toml_str@,
            Some(tree) => exists|own: bool, top: bool|
                judged(predicate, provider_base_url(tree), own) && judged(
                    predicate,
                    tree.get_text("base_url"@),
                    top,
                ) && r@ == toml_doc::toml_printed(
                    toml_str@,
                    #[trigger] base_url_removals(tree, own, top),
                ) && toml_doc::holds(toml_str@, base_url_removals(tree, own, top))
                    && loses_addresses(r@, own, top),
        },
{
    let doc = match parse_document(toml_str) {
        Ok(doc) => doc,
        Err(_) => {
            return toml_str.to_owned();
        },
    };
    let tree = document_tree(&doc);
    let mut own = false;
    if let Some(id) = tree.get_str("model_provider") {
        if let Some(table) = find_provider_table(&tree, id) {
            if let Some(url) = table.get_str("base_url") {
                own = predicate(url);
            }
        }
    }
    assert(judged(predicate, provider_base_url(tree@), own));
    let mut top = false;
    if let Some(url) = tree.get_str("base_url") {
        top = predicate(url);
    }
    assert(judged(predicate, tree@.get_text("base_url"@), top));
    let edits = plan_base_url_removals(&tree, own, top);
    let out = edited(doc, &edits);
    assert(out@ == toml_doc::toml_printed(toml_str@, base_url_removals(tree@, own, top)));
    proof {
        match toml_doc::toml_tree(out@) {
            Some(read) => field_laws::law_removed_addresses_are_not_read(tree@, own, top, read),
            None => {},
        }
    }
    out
}

} // verus!
