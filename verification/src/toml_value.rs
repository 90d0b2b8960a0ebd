//! Reading a TOML text for its values alone.

use crate::toml_doc::{Toml, TomlView};
use crate::{text, toml_doc, toml_model};
use vstd::prelude::*;
use vstd::string::*;

verus! {

/// A value of `toml`.
#[verifier::external_type_specification]
#[verifier::external_body]
pub struct ExTomlValue(toml::Value);

/// What a value of `toml` holds. Its tables are all of one kind.
pub uninterp spec fn value_contents(value: toml::Value) -> TomlView;

/// What `toml` reads from a text; `None` where the text is not TOML.
pub uninterp spec fn toml_values(text: Seq<char>) -> Option<TomlView>;

/// What `toml` says of a text that is no table of TOML values; `None` where it is one.
pub uninterp spec fn table_error(text: Seq<char>) -> Option<Seq<char>>;

/// Whether no table has a key by which `toml` would take it for a date.
pub open spec fn has_plain_keys(tree: TomlView) -> bool {
    forall|path: Seq<Seq<char>>|
        path.len() > 0 && (#[trigger] toml_model::at(tree, path)) is Some ==> path.last()
            != "$__toml_private_datetime"@
}

/// The string, the boolean or the whole number at the end of a path; `Other` for any value else that
/// is no table.
pub open spec fn simple_setting(tree: TomlView, path: Seq<Seq<char>>) -> Option<TomlView> {
    match toml_model::setting(tree, path) {
        Some(v) => if v is Str || v is Bool || v is Integer {
            Some(v)
        } else {
            Some(TomlView::Other)
        },
        None => None,
    }
}

/// Whether the values that were read by `toml` are those of the tree that was read by `toml_edit`, as
/// far as they are strings, booleans, whole numbers and tables.
pub open spec fn same_values(values: TomlView, tree: TomlView) -> bool {
    has_plain_keys(tree) ==> {
        &&& forall|path: Seq<Seq<char>>|
            #[trigger] simple_setting(values, path) == simple_setting(tree, path)
        &&& forall|path: Seq<Seq<char>>|
            (#[trigger] toml_model::at(values, path)) is Some == toml_model::at(tree, path) is Some
    }
}

/// `str::parse` for `toml::Value`; the contents depend on the text alone. The text is read by
/// `toml_edit`, so one that has values is TOML there too, and where no key is the one that `toml`
/// keeps for dates, the values are those of its tree. That every TOML text has values is not
/// claimed.
#[verifier::external_body]
fn value_from_text(text: &str) -> (r: Option<toml::Value>)
    ensures
        match r {
            Some(value) => {
                &&& toml_values(text@) == Some(value_contents(value))
                &&& toml_doc::toml_tree(text@) matches Some(tree) && same_values(
                    value_contents(value),
                    tree,
                )
            },
            None => toml_values(text@) is None,
        },
{
    text.parse::<toml::Value>().ok()
}

/// Hands out what a `toml::Value` holds.
#[verifier::external_body]
fn toml_from_value(value: &toml::Value) -> (r: Toml)
    ensures
        r@ == value_contents(*value),
{
    match value {
        toml::Value::Table(table) => Toml::Table(
            table.iter().map(|(k, v)| (k.clone(), toml_from_value(v))).collect()),
        toml::Value::String(s) => Toml::Str(s.clone()),
        toml::Value::Boolean(b) => Toml::Bool(*b),
        toml::Value::Integer(n) => Toml::Integer(*n),
        _ => Toml::Other,
    }
}

/// `toml::from_str` for `toml::Table`; whether it fails, and with which message, depends on the
/// text alone.
#[verifier::external_body]
pub(crate) fn check_table(text: &str) -> (r: Result<(), String>)
    ensures
        match r {
            Ok(()) => table_error(text@) is None,
            Err(message) => table_error(text@) == Some(message@),
        },
{
    toml::from_str::<toml::Table>(text).map(|_| ()).map_err(|e| e.to_string())
}

/// Whether the values of a text, where it has any, are those of its tree.
pub open spec fn reads_alike(text: Seq<char>) -> bool {
    toml_values(text) matches Some(values) ==> (toml_doc::toml_tree(text) matches Some(tree)
        && same_values(values, tree))
}

/// Reads a text for its values.
pub fn parse_values(text: &str) -> (r: Option<Toml>)
    ensures
        match r {
            Some(tree) => toml_values(text@) == Some(tree@),
            None => toml_values(text@) is None,
        },
        reads_alike(text@),
{
    match value_from_text(text) {
        Some(value) => Some(toml_from_value(&value)),
        None => None,
    }
}

/// The text under `model`, trimmed, where there is one that is not blank.
pub open spec fn model_of(tree: TomlView) -> Option<Seq<char>> {
    match tree.get_text("model"@) {
        Some(model) => if text::is_blank(model) {
            None
        } else {
            Some(text::trim(model))
        },
        None => None,
    }
}

/// The active provider's address, else the one at the top level. The tables of providers that are
/// not active are never looked at.
pub open spec fn base_url_of(tree: TomlView) -> Option<Seq<char>> {
    let active = match tree.get_text("model_provider"@) {
        Some(id) => match tree.get("model_providers"@) {
            Some(providers) => match providers.get(id) {
                Some(provider) => provider.get_text("base_url"@),
                None => None,
            },
            None => None,
        },
        None => None,
    };
    if active is Some {
        active
    } else {
        tree.get_text("base_url"@)
    }
}

/// A whole number above zero under `field`.
pub open spec fn positive_of(tree: TomlView, field: Seq<char>) -> Option<u64> {
    match tree.get(field) {
        Some(TomlView::Integer(n)) => if n > 0 {
            Some(n as u64)
        } else {
            None
        },
        _ => None,
    }
}

/// What is read from the values of a text is what is read from its tree.
pub proof fn lemma_same_values(values: TomlView, tree: TomlView, field: Seq<char>)
    requires
        same_values(values, tree),
        has_plain_keys(tree),
    ensures
        model_of(values) == model_of(tree),
        base_url_of(values) == base_url_of(tree),
        positive_of(values, field) == positive_of(tree, field),
{
    lemma_same_entry(values, tree, "model"@);
    lemma_same_entry(values, tree, "base_url"@);
    lemma_same_entry(values, tree, "model_provider"@);
    lemma_same_entry(values, tree, field);
    match tree.get_text("model_provider"@) {
        Some(id) => {
            let path = seq!["model_providers"@, id, "base_url"@];
            toml_model::lemma_at3(values, "model_providers"@, id, "base_url"@);
            toml_model::lemma_at3(tree, "model_providers"@, id, "base_url"@);
            assert(simple_setting(values, path) == simple_setting(tree, path));
        },
        None => {},
    }
}

/// What is read from a text for its values is what is read from its tree.
proof fn lemma_reads_alike(config: Seq<char>, field: Seq<char>)
    requires
        reads_alike(config),
    ensures
        toml_values(config) matches Some(values) ==> (toml_doc::toml_tree(config) matches Some(tree)
            && (has_plain_keys(tree) ==> {
            &&& model_of(values) == model_of(tree)
            &&& base_url_of(values) == base_url_of(tree)
            &&& positive_of(values, field) == positive_of(tree, field)
        })),
{
    match (toml_values(config), toml_doc::toml_tree(config)) {
        (Some(values), Some(tree)) => {
            if has_plain_keys(tree) {
                lemma_same_values(values, tree, field);
            }
        },
        _ => {},
    }
}

/// A value of the top level that is no table is the same in both.
proof fn lemma_same_entry(values: TomlView, tree: TomlView, key: Seq<char>)
    requires
        same_values(values, tree),
        has_plain_keys(tree),
    ensures
        values.get_text(key) == tree.get_text(key),
        positive_of(values, key) == positive_of(tree, key),
{
    toml_model::lemma_at1(values, key);
    toml_model::lemma_at1(tree, key);
    assert(simple_setting(values, seq![key]) == simple_setting(tree, seq![key]));
}

/// The model of a config tree.
pub fn tree_model(tree: &Toml) -> (r: Option<String>)
    ensures
        text::text_of(r) == model_of(tree@),
{
    match tree.get_str("model") {
        Some(model) => {
            let model = model.trim();
            if model.is_empty() {
                None
            } else {
                Some(model.to_owned())
            }
        },
        None => None,
    }
}

/// The address of the active provider of a config tree.
pub fn tree_base_url(tree: &Toml) -> (r: Option<String>)
    ensures
        text::text_of(r) == base_url_of(tree@),
{
    if let Some(id) = tree.get_str("model_provider") {
        if let Some(providers) = tree.get("model_providers") {
            if let Some(provider) = providers.get(id) {
                if let Some(url) = provider.get_str("base_url") {
                    return Some(url.to_owned());
                }
            }
        }
    }
    match tree.get_str("base_url") {
        Some(url) => Some(url.to_owned()),
        None => None,
    }
}

/// A whole number above zero in a config tree.
pub fn tree_positive(tree: &Toml, field: &str) -> (r: Option<u64>)
    ensures
        r == positive_of(tree@, field@),
{
    match tree.get(field) {
        Some(Toml::Integer(n)) => if *n > 0 {
            Some(*n as u64)
        } else {
            None
        },
        _ => None,
    }
}

/// The model of a config.
pub fn codex_top_level_model(config_text: &str) -> (r: Option<String>)
    ensures
        text::text_of(r) == match toml_values(config_text@) {
            Some(tree) => model_of(tree),
            None => None,
        },
        reads_alike(config_text@),
        toml_values(config_text@) is Some ==> (toml_doc::toml_tree(config_text@) matches Some(tree)
            && (has_plain_keys(tree) ==> text::text_of(r) == model_of(tree))),
{
    let values = parse_values(config_text);
    proof {
        lemma_reads_alike(config_text@, "model"@);
    }
    match values {
        Some(tree) => tree_model(&tree),
        None => None,
    }
}

/// The address of the active provider of a config.
pub fn extract_codex_base_url(config_text: &str) -> (r: Option<String>)
    ensures
        text::text_of(r) == match toml_values(config_text@) {
            Some(tree) => base_url_of(tree),
            None => None,
        },
        reads_alike(config_text@),
        toml_values(config_text@) is Some ==> (toml_doc::toml_tree(config_text@) matches Some(tree)
            && (has_plain_keys(tree) ==> text::text_of(r) == base_url_of(tree))),
{
    let values = parse_values(config_text);
    proof {
        lemma_reads_alike(config_text@, "model"@);
    }
    match values {
        Some(tree) => tree_base_url(&tree),
        None => None,
    }
}

/// A whole number above zero at the top level of a config.
pub fn extract_codex_top_level_u64(config_text: &str, field: &str) -> (r: Option<u64>)
    ensures
        r == match toml_values(config_text@) {
            Some(tree) => positive_of(tree, field@),
            None => None,
        },
        reads_alike(config_text@),
        toml_values(config_text@) is Some ==> (toml_doc::toml_tree(config_text@) matches Some(tree)
            && (has_plain_keys(tree) ==> r == positive_of(tree, field@))),
{
    let values = parse_values(config_text);
    proof {
        lemma_reads_alike(config_text@, field@);
    }
    match values {
        Some(tree) => tree_positive(&tree, field),
        None => None,
    }
}

} // verus!
