//! The catalog entries of models that the official provider routes to others.

use crate::catalog_entry::{
    codex_catalog_add_camel_case_aliases, codex_catalog_input_modalities_from_capability,
    codex_catalog_model_entry, codex_vendor_catalog_model_entry, CodexCatalogToolProfile,
    ImageInputCapability,
};
use crate::catalog_ids::{codex_custom_catalog_model_ids, codex_provider_separator_model_id};
use crate::error::{AppError, ErrorView};
use crate::json::{Json, JsonView};
use crate::model_specs::{
    codex_custom_model_entries, CodexCatalogModelSpec, CodexCustomModelEntry, EntryView, SlotTable,
    SpecView,
};
use crate::text::{join2, str_contains, str_eq};
use crate::toml_value::{extract_codex_base_url, extract_codex_top_level_u64};
use crate::{catalog_entry, catalog_ids, json, model_specs, text, toml_value};
use vstd::prelude::*;
use vstd::string::*;

verus! {

/// The context window of a model for which nothing is said.
pub const DEFAULT_CONTEXT_WINDOW: u64 = 128_000;

/// Which models take images: by a model's name and by the kinds of input that its settings
/// declare. Of a model without a row nothing is known.
#[derive(Debug)]
pub struct CapabilityTable {
    pub rows: Vec<CapabilityRow>,
}

/// One row of a [`CapabilityTable`].
#[derive(Debug)]
pub struct CapabilityRow {
    pub model: String,
    pub declared: Option<Vec<String>>,
    pub capability: ImageInputCapability,
}

/// The capability of a model, by the first row for it.
pub open spec fn capability_in(
    rows: Seq<CapabilityRow>,
    model: Seq<char>,
    declared: Option<Seq<Seq<char>>>,
) -> ImageInputCapability
    decreases rows.len(),
{
    if rows.len() == 0 {
        ImageInputCapability::Unknown
    } else if rows[0].model@ == model && model_specs::list_of(rows[0].declared) == declared {
        rows[0].capability
    } else {
        capability_in(rows.drop_first(), model, declared)
    }
}

impl CapabilityTable {
    /// The capability of a model.
    pub open spec fn capability(
        &self,
        model: Seq<char>,
        declared: Option<Seq<Seq<char>>>,
    ) -> ImageInputCapability {
        capability_in(self.rows@, model, declared)
    }

    /// The capability of a model.
    pub fn capability_of(&self, model: &str, declared: &Option<Vec<String>>) -> (r:
        ImageInputCapability)
        ensures
            r == self.capability(model@, model_specs::list_of(*declared)),
    {
        let mut i: usize = 0;
        assert(self.rows@.skip(0) =~= self.rows@);
        while i < self.rows.len()
            invariant
                i <= self.rows@.len(),
                capability_in(self.rows@.skip(i as int), model@, model_specs::list_of(*declared))
                    == self.capability(model@, model_specs::list_of(*declared)),
            decreases self.rows@.len() - i,
        {
            assert(self.rows@.skip(i as int).drop_first() =~= self.rows@.skip(i + 1));
            let row = &self.rows[i];
            if str_eq(row.model.as_str(), model) && same_lists(&row.declared, declared) {
                return row.capability;
            }
            i += 1;
        }
        ImageInputCapability::Unknown
    }
}

/// Whether two optional lists have the same texts.
fn same_lists(a: &Option<Vec<String>>, b: &Option<Vec<String>>) -> (r: bool)
    ensures
        r == (model_specs::list_of(*a) == model_specs::list_of(*b)),
{
    match (a, b) {
        (Some(a), Some(b)) => same_texts(a, b),
        (None, None) => true,
        _ => false,
    }
}

/// Whether two lists have the same texts.
pub(crate) fn same_texts(a: &Vec<String>, b: &Vec<String>) -> (r: bool)
    ensures
        r == (text::texts(a@) == text::texts(b@)),
{
    if a.len() != b.len() {
        assert(text::texts(a@).len() != text::texts(b@).len());
        return false;
    }
    let mut i: usize = 0;
    while i < a.len()
        invariant
            a@.len() == b@.len(),
            i <= a@.len(),
            forall|j: int| 0 <= j < i ==> text::texts(a@)[j] == #[trigger] text::texts(b@)[j],
        decreases a@.len() - i,
    {
        assert(text::texts(a@)[i as int] == a@[i as int]@);
        assert(text::texts(b@)[i as int] == b@[i as int]@);
        if !str_eq(a[i].as_str(), b[i].as_str()) {
            return false;
        }
        i += 1;
    }
    assert(text::texts(a@) =~= text::texts(b@));
    true
}

/// A provider that routed models are bound to, as far as their entries depend on it.
#[derive(Debug)]
pub struct BoundProvider {
    pub id: String,
    pub name: String,
    /// Its config.
    pub config: Option<String>,
    pub profile: CodexCatalogToolProfile,
    /// The model that it asks its upstream for where an entry names none.
    pub default_model: Option<String>,
    /// Which of its models take images.
    pub capabilities: CapabilityTable,
}

/// The first provider with an id.
pub open spec fn provider_with(providers: Seq<BoundProvider>, id: Seq<char>) -> Option<BoundProvider>
    decreases providers.len(),
{
    if providers.len() == 0 {
        None
    } else if providers[0].id@ == id {
        Some(providers[0])
    } else {
        provider_with(providers.drop_first(), id)
    }
}

/// The first provider with an id.
fn find_provider<'a>(providers: &'a Vec<BoundProvider>, id: &str) -> (r: Option<&'a BoundProvider>)
    ensures
        match r {
            Some(provider) => provider_with(providers@, id@) == Some(*provider),
            None => provider_with(providers@, id@) is None,
        },
{
    let mut i: usize = 0;
    assert(providers@.skip(0) =~= providers@);
    while i < providers.len()
        invariant
            i <= providers@.len(),
            provider_with(providers@.skip(i as int), id@) == provider_with(providers@, id@),
        decreases providers@.len() - i,
    {
        assert(providers@.skip(i as int).drop_first() =~= providers@.skip(i + 1));
        if str_eq(providers[i].id.as_str(), id) {
            return Some(&providers[i]);
        }
        i += 1;
    }
    None
}

/// The template for the profile that the proxy converts for, or why there is none.
#[derive(Debug)]
pub enum ProxyTemplate {
    Ready(Json),
    Failed(AppError),
}

/// What a catalog is made from.
#[derive(Debug)]
pub struct CatalogSources {
    /// The template for gateways that take no freeform tools.
    pub native_template: Json,
    /// The template for the profile that the proxy converts for.
    pub proxy_template: ProxyTemplate,
    /// The template that comes with the application.
    pub static_template: Option<Json>,
    /// The models that a vendor publishes for its own gateway.
    pub vendor_models: Vec<Json>,
    pub capabilities: CapabilityTable,
}

/// The entry that stands above a provider's models.
pub open spec fn separator_entry(
    source: JsonView,
    provider_id: Seq<char>,
    provider_name: Seq<char>,
    priority: u64,
) -> JsonView {
    if source is Object {
        let id = JsonView::Str(catalog_ids::separator_id(provider_id));
        let name = JsonView::Str("------ "@ + text::trim(provider_name) + " ------"@);
        catalog_entry::aliased(
            source.put("model"@, id).put("slug"@, id).put("display_name"@, name).put(
                "displayName"@,
                name,
            ).put("description"@, name).put("priority"@, catalog_entry::number(priority)).put(
                "visibility"@,
                JsonView::Str("list"@),
            ),
        )
    } else {
        JsonView::empty_object()
    }
}

/// The entry that stands above a provider's models. A catalog has no headings, so it is an entry of
/// its own, made from a whole one because the application checks its form.
pub fn codex_provider_separator_catalog_entry(
    source_entry: &Json,
    provider_id: &str,
    provider_name: &str,
    priority: u64,
) -> (r: Json)
    ensures
        r@ == separator_entry(
            source_entry@,
            provider_id@,
            provider_name@,
            catalog_entry::place_of(priority as nat),
        ),
{
    if !source_entry.is_object() {
        return Json::object();
    }
    let mut entry = source_entry.clone();
    let id = codex_provider_separator_model_id(provider_id);
    let mut name = join2("------ ", provider_name.trim());
    name.push_str(" ------");
    entry.insert("model", Json::string(id.as_str()));
    entry.insert("slug", Json::string(id.as_str()));
    entry.insert("display_name", Json::string(name.as_str()));
    entry.insert("displayName", Json::string(name.as_str()));
    entry.insert("description", Json::string(name.as_str()));
    entry.insert("priority", Json::number(priority.saturating_add(1000)));
    entry.insert("visibility", Json::string("list"));
    codex_catalog_add_camel_case_aliases(&mut entry);
    entry
}

/// The context window that a config sets for its models.
pub open spec fn config_window(config: Option<Seq<char>>) -> u64 {
    let set = match config {
        Some(config) => match toml_value::toml_values(config) {
            Some(tree) => toml_value::positive_of(tree, "model_context_window"@),
            None => None,
        },
        None => None,
    };
    match set {
        Some(n) => n,
        None => DEFAULT_CONTEXT_WINDOW,
    }
}

/// The context window that a config sets for its models.
pub(crate) fn window_of(config_text: Option<&str>) -> (r: u64)
    ensures
        r == config_window(text::slice_text(config_text)),
{
    let set: Option<u64> = match config_text {
        Some(config_text) => extract_codex_top_level_u64(config_text, "model_context_window"),
        None => None,
    };
    match set {
        Some(n) => n,
        None => DEFAULT_CONTEXT_WINDOW,
    }
}

/// Whether a vendor's own catalog applies: for the gateway itself, told by its address, and for
/// nobody that merely offers the same models. A vendor's entries allow more than the neutral
/// template does.
pub open spec fn uses_vendor(
    config: Seq<char>,
    profile: CodexCatalogToolProfile,
    vendor: Seq<JsonView>,
) -> bool {
    &&& profile == CodexCatalogToolProfile::NativeResponses
    &&& vendor.len() > 0
    &&& toml_value::toml_values(config) matches Some(tree) && (toml_value::base_url_of(
        tree,
    ) matches Some(url) && text::occurs(text::lower(url), "deepseek.com"@))
}

/// Whether a vendor's own catalog applies.
pub fn codex_official_vendor_catalog_models(
    config_text: &str,
    profile: CodexCatalogToolProfile,
    vendor_models: &Vec<Json>,
) -> (r: bool)
    ensures
        r == uses_vendor(config_text@, profile, json::items_view(vendor_models@)),
{
    proof {
        json::lemma_items_view(vendor_models@);
    }
    if profile != CodexCatalogToolProfile::NativeResponses || vendor_models.is_empty() {
        return false;
    }
    match extract_codex_base_url(config_text) {
        Some(url) => str_contains(url.as_str().to_ascii_lowercase().as_str(), "deepseek.com"),
        None => false,
    }
}

/// The model by which it is judged whether an entry takes images.
pub open spec fn capability_model(
    entry: EntryView,
    provider: Option<BoundProvider>,
) -> Option<Seq<char>> {
    if entry.upstream_model is Some {
        entry.upstream_model
    } else {
        match provider {
            Some(provider) => text::text_of(provider.default_model),
            None => None,
        }
    }
}

/// What the catalog says of a routed model.
pub open spec fn routed_spec(
    entry: EntryView,
    id: Seq<char>,
    provider: Option<BoundProvider>,
    sources: CatalogSources,
) -> SpecView {
    SpecView {
        model: id,
        display_name: match entry.display_name {
            Some(name) => if text::is_blank(name) {
                if id != entry.model {
                    Some(entry.model)
                } else {
                    None
                }
            } else {
                Some(name)
            },
            None => if id != entry.model {
                Some(entry.model)
            } else {
                None
            },
        },
        context_window: entry.context_window,
        supports_parallel_tool_calls: entry.supports_parallel_tool_calls,
        input_modalities: if entry.input_modalities is Some {
            entry.input_modalities
        } else {
            match capability_model(entry, provider) {
                Some(model) => Some(
                    catalog_entry::modalities(
                        match provider {
                            Some(provider) => provider.capabilities.capability(model, None),
                            None => sources.capabilities.capability(model, None),
                        },
                    ),
                ),
                None => None,
            }
        },
        base_instructions: entry.base_instructions,
    }
}

/// The template for a profile.
pub open spec fn template_for(
    sources: CatalogSources,
    profile: CodexCatalogToolProfile,
) -> Result<JsonView, ErrorView> {
    match profile {
        CodexCatalogToolProfile::ProxyChat => match sources.proxy_template {
            ProxyTemplate::Ready(template) => Ok(template@),
            ProxyTemplate::Failed(e) => Err(e@),
        },
        _ => Ok(sources.native_template@),
    }
}

/// The catalog entry of a routed model.
#[verifier::opaque]
pub open spec fn routed_entry(
    entry: EntryView,
    id: Seq<char>,
    provider: Option<BoundProvider>,
    fallback: CodexCatalogToolProfile,
    config: Seq<char>,
    priority: u64,
    sources: CatalogSources,
) -> Result<JsonView, ErrorView> {
    let spec = routed_spec(entry, id, provider, sources);
    let profile = match provider {
        Some(provider) => provider.profile,
        None => fallback,
    };
    let bound_config = match provider {
        Some(provider) => text::text_of(provider.config),
        None => None,
    };
    let vendor = json::items_view(sources.vendor_models@);
    if bound_config matches Some(bound) && uses_vendor(bound, profile, vendor) {
        Ok(
            catalog_entry::vendor_entry(
                vendor,
                spec,
                priority,
                capability_model(entry, provider),
                json::option_view(sources.static_template),
            ),
        )
    } else {
        match template_for(sources, profile) {
            Err(e) => Err(e),
            Ok(template) => Ok(
                catalog_entry::model_entry(
                    template,
                    spec,
                    priority,
                    profile,
                    config_window(
                        match provider {
                            Some(_) => bound_config,
                            None => Some(config),
                        },
                    ),
                    sources.capabilities.capability(spec.model, spec.input_modalities),
                ),
            ),
        }
    }
}

/// The name that stands above a provider's models.
pub open spec fn heading_name(entry: EntryView, provider: Option<BoundProvider>) -> Seq<char> {
    match provider {
        Some(provider) => if text::is_blank(provider.name@) {
            entry.provider_id
        } else {
            text::trim(provider.name@)
        },
        None => entry.provider_id,
    }
}

/// The provider of an entry: `None` where the entry is left out because its provider is gone, and
/// `Some(None)` where providers are not looked up at all.
pub open spec fn bound_to(
    entry: EntryView,
    providers: Option<Seq<BoundProvider>>,
) -> Option<Option<BoundProvider>> {
    match providers {
        Some(providers) => match provider_with(providers, entry.provider_id) {
            Some(provider) => Some(Some(provider)),
            None => None,
        },
        None => Some(None),
    }
}

/// Whether a provider has an entry that is not left out among the first `n`.
pub open spec fn heading_written(
    entries: Seq<EntryView>,
    providers: Option<Seq<BoundProvider>>,
    provider_id: Seq<char>,
    n: int,
) -> bool {
    exists|j: int|
        0 <= j < n && (#[trigger] entries[j]).provider_id == provider_id && bound_to(
            entries[j],
            providers,
        ) is Some
}

/// The catalog entries with those of the routed model `i` behind them: its own, and the one that
/// stands above its provider's models where it is the first of them.
pub open spec fn with_routed(
    front: Seq<JsonView>,
    entries: Seq<EntryView>,
    ids: Seq<Seq<char>>,
    providers: Option<Seq<BoundProvider>>,
    fallback: CodexCatalogToolProfile,
    config: Seq<char>,
    sources: CatalogSources,
    i: int,
) -> Result<Seq<JsonView>, ErrorView> {
    match bound_to(entries[i], providers) {
        None => Ok(front),
        Some(provider) => {
            let first = !heading_written(entries, providers, entries[i].provider_id, i);
            let place = front.len() + if first {
                1nat
            } else {
                0nat
            };
            match routed_entry(
                entries[i],
                ids[i],
                provider,
                fallback,
                config,
                catalog_entry::place_of(place),
                sources,
            ) {
                Err(e) => Err(e),
                Ok(entry) => if first {
                    Ok(
                        front.push(
                            separator_entry(
                                entry,
                                entries[i].provider_id,
                                heading_name(entries[i], provider),
                                catalog_entry::place_of(front.len()),
                            ),
                        ).push(entry),
                    )
                } else {
                    Ok(front.push(entry))
                },
            }
        },
    }
}

/// The catalog entries of the first `n` routed models.
pub open spec fn routed_entries(
    entries: Seq<EntryView>,
    ids: Seq<Seq<char>>,
    providers: Option<Seq<BoundProvider>>,
    fallback: CodexCatalogToolProfile,
    config: Seq<char>,
    sources: CatalogSources,
    n: nat,
) -> Result<Seq<JsonView>, ErrorView>
    decreases n,
{
    if n == 0 {
        Ok(Seq::empty())
    } else {
        let i = n - 1;
        match routed_entries(entries, ids, providers, fallback, config, sources, i as nat) {
            Err(e) => Err(e),
            Ok(front) => with_routed(front, entries, ids, providers, fallback, config, sources, i),
        }
    }
}

/// What optional providers stand for.
pub open spec fn providers_seq(providers: Option<&Vec<BoundProvider>>) -> Option<
    Seq<BoundProvider>,
> {
    match providers {
        Some(providers) => Some(providers@),
        None => None,
    }
}

/// The catalog entries of all routed models.
pub open spec fn custom_catalog(
    settings: JsonView,
    slots: SlotTable,
    config: Seq<char>,
    fallback: CodexCatalogToolProfile,
    providers: Option<Seq<BoundProvider>>,
    sources: CatalogSources,
) -> Result<Seq<JsonView>, ErrorView> {
    let entries = model_specs::custom_entries(settings, slots);
    routed_entries(
        entries,
        catalog_ids::catalog_ids(entries, slots),
        providers,
        fallback,
        config,
        sources,
        entries.len(),
    )
}

/// What the catalog says of a routed model.
fn spec_for_routed(
    entry: &CodexCustomModelEntry,
    id: &str,
    provider: Option<&BoundProvider>,
    sources: &CatalogSources,
) -> (r: CodexCatalogModelSpec)
    ensures
        r@ == routed_spec(
            entry@,
            id@,
            match provider {
                Some(p) => Some(*p),
                None => None,
            },
            *sources,
        ),
{
    let mut display_name: Option<String> = None;
    if let Some(name) = &entry.display_name {
        if !name.as_str().trim().is_empty() {
            display_name = Some(name.clone());
        }
    }
    if display_name.is_none() && !str_eq(id, entry.model.as_str()) {
        display_name = Some(entry.model.clone());
    }
    let input_modalities = match &entry.input_modalities {
        Some(kinds) => Some(text::copy_list(kinds)),
        None => match model_for_capability(entry, provider) {
            Some(model) => {
                let capability = match provider {
                    Some(provider) => provider.capabilities.capability_of(model, &None),
                    None => sources.capabilities.capability_of(model, &None),
                };
                Some(codex_catalog_input_modalities_from_capability(capability))
            },
            None => None,
        },
    };
    let base_instructions = match &entry.base_instructions {
        Some(t) => Some(t.clone()),
        None => None,
    };
    CodexCatalogModelSpec {
        model: id.to_owned(),
        display_name,
        context_window: entry.context_window,
        supports_parallel_tool_calls: entry.supports_parallel_tool_calls,
        input_modalities,
        base_instructions,
    }
}

/// The model by which it is judged whether an entry takes images.
fn model_for_capability<'a>(
    entry: &'a CodexCustomModelEntry,
    provider: Option<&'a BoundProvider>,
) -> (r: Option<&'a str>)
    ensures
        text::slice_text(r) == capability_model(
            entry@,
            match provider {
                Some(p) => Some(*p),
                None => None,
            },
        ),
{
    match &entry.upstream_model {
        Some(model) => Some(model.as_str()),
        None => match provider {
            Some(provider) => match &provider.default_model {
                Some(model) => Some(model.as_str()),
                None => None,
            },
            None => None,
        },
    }
}

/// The catalog entry of a routed model.
fn entry_for_routed(
    entry: &CodexCustomModelEntry,
    id: &str,
    provider: Option<&BoundProvider>,
    fallback: CodexCatalogToolProfile,
    config_text: &str,
    priority: u64,
    sources: &CatalogSources,
) -> (r: Result<Json, AppError>)
    ensures
        ({
            let provider = match provider {
                Some(p) => Some(*p),
                None => None,
            };
            let expected = routed_entry(
                entry@,
                id@,
                provider,
                fallback,
                config_text@,
                catalog_entry::place_of(priority as nat),
                *sources,
            );
            match r {
                Ok(made) => expected == Ok::<JsonView, ErrorView>(made@),
                Err(e) => expected == Err::<JsonView, ErrorView>(e@),
            }
        }),
{
    reveal(routed_entry);
    let spec = spec_for_routed(entry, id, provider, sources);
    let profile = match provider {
        Some(provider) => provider.profile,
        None => fallback,
    };
    let bound_config: Option<&str> = match provider {
        Some(provider) => match &provider.config {
            Some(config) => Some(config.as_str()),
            None => None,
        },
        None => None,
    };
    if let Some(bound) = bound_config {
        if codex_official_vendor_catalog_models(bound, profile, &sources.vendor_models) {
            let fallback_template = match &sources.static_template {
                Some(template) => Some(template),
                None => None,
            };
            return Ok(
                codex_vendor_catalog_model_entry(
                    &sources.vendor_models,
                    &spec,
                    priority,
                    model_for_capability(entry, provider),
                    fallback_template,
                ),
            );
        }
    }
    let window = match provider {
        Some(_) => window_of(bound_config),
        None => window_of(Some(config_text)),
    };
    let template = match profile {
        CodexCatalogToolProfile::ProxyChat => match &sources.proxy_template {
            ProxyTemplate::Ready(template) => template,
            ProxyTemplate::Failed(e) => {
                return Err(e.copy());
            },
        },
        _ => &sources.native_template,
    };
    let capability = sources.capabilities.capability_of(
        spec.model.as_str(),
        &spec.input_modalities,
    );
    Ok(codex_catalog_model_entry(template, &spec, priority, profile, window, capability))
}

/// Whether a provider has an entry that is not left out among the first `n`.
fn has_heading(
    entries: &Vec<CodexCustomModelEntry>,
    providers: Option<&Vec<BoundProvider>>,
    provider_id: &str,
    n: usize,
) -> (r: bool)
    requires
        n <= entries@.len(),
    ensures
        r == heading_written(
            model_specs::entries_view(entries@),
            providers_seq(providers),
            provider_id@,
            n as int,
        ),
{
    let ghost views = model_specs::entries_view(entries@);
    let mut j: usize = 0;
    while j < n
        invariant
            n <= entries@.len(),
            j <= n,
            views == model_specs::entries_view(entries@),
            forall|k: int|
                0 <= k < j ==> !((#[trigger] views[k]).provider_id == provider_id@ && bound_to(
                    views[k],
                    providers_seq(providers),
                ) is Some),
        decreases n - j,
    {
        assert(views[j as int] == entries@[j as int]@);
        if str_eq(entries[j].provider_id.as_str(), provider_id) {
            match providers {
                Some(list) => {
                    if find_provider(list, entries[j].provider_id.as_str()).is_some() {
                        return true;
                    }
                },
                None => {
                    return true;
                },
            }
        }
        j += 1;
    }
    false
}

/// Appends the catalog entries of one routed model.
fn push_routed(
    out: &mut Vec<Json>,
    entries: &Vec<CodexCustomModelEntry>,
    ids: &Vec<String>,
    providers: Option<&Vec<BoundProvider>>,
    fallback_profile: CodexCatalogToolProfile,
    config_text: &str,
    sources: &CatalogSources,
    i: usize,
) -> (r: Result<(), AppError>)
    requires
        i < entries@.len(),
        ids@.len() == entries@.len(),
    ensures
        ({
            let expected = with_routed(
                json::items_view(old(out)@),
                model_specs::entries_view(entries@),
                text::texts(ids@),
                providers_seq(providers),
                fallback_profile,
                config_text@,
                *sources,
                i as int,
            );
            match r {
                Ok(()) => expected == Ok::<Seq<JsonView>, ErrorView>(
                    json::items_view(final(out)@),
                ),
                Err(e) => expected == Err::<Seq<JsonView>, ErrorView>(e@),
            }
        }),
{
    broadcast use json::lemma_items_push;

    let ghost views = model_specs::entries_view(entries@);
    proof {
        json::lemma_items_view(out@);
    }
    assert(views[i as int] == entries@[i as int]@);
    assert(text::texts(ids@)[i as int] == ids@[i as int]@);
    let entry = &entries[i];
    let mut provider: Option<&BoundProvider> = None;
    if let Some(list) = providers {
        provider = find_provider(list, entry.provider_id.as_str());
        if provider.is_none() {
            return Ok(());
        }
    }
    let first = !has_heading(entries, providers, entry.provider_id.as_str(), i);
    let place: u64 = (out.len() as u64).saturating_add(
        if first {
            1
        } else {
            0
        },
    );
    let made = match entry_for_routed(
        entry,
        ids[i].as_str(),
        provider,
        fallback_profile,
        config_text,
        place,
        sources,
    ) {
        Ok(made) => made,
        Err(e) => {
            return Err(e);
        },
    };
    if first {
        let name: &str = match provider {
            Some(provider) => {
                let name = provider.name.as_str().trim();
                if name.is_empty() {
                    entry.provider_id.as_str()
                } else {
                    name
                }
            },
            None => entry.provider_id.as_str(),
        };
        let heading = codex_provider_separator_catalog_entry(
            &made,
            entry.provider_id.as_str(),
            name,
            out.len() as u64,
        );
        out.push(heading);
    }
    out.push(made);
    Ok(())
}

/// The catalog entries of all routed models, each provider's behind an entry that stands above
/// them. Models of providers that are gone are left out. Without a list of providers none is
/// looked up.
pub fn codex_custom_catalog_entries(
    settings: &Json,
    slots: &SlotTable,
    config_text: &str,
    fallback_profile: CodexCatalogToolProfile,
    providers: Option<&Vec<BoundProvider>>,
    sources: &CatalogSources,
) -> (r: Result<Vec<Json>, AppError>)
    ensures
        ({
            let expected = custom_catalog(
                settings@,
                *slots,
                config_text@,
                fallback_profile,
                providers_seq(providers),
                *sources,
            );
            match r {
                Ok(made) => expected == Ok::<Seq<JsonView>, ErrorView>(json::items_view(made@)),
                Err(e) => expected == Err::<Seq<JsonView>, ErrorView>(e@),
            }
        }),
{
    let entries = codex_custom_model_entries(settings, slots);
    let ids = codex_custom_catalog_model_ids(&entries, slots);
    let ghost views = model_specs::entries_view(entries@);
    let ghost all = catalog_ids::catalog_ids(views, *slots);
    assert(text::texts(ids@).len() == ids@.len());
    let mut out: Vec<Json> = Vec::new();
    let mut i: usize = 0;
    while i < entries.len()
        invariant
            i <= entries@.len(),
            views == model_specs::entries_view(entries@),
            views == model_specs::custom_entries(settings@, *slots),
            all == catalog_ids::catalog_ids(views, *slots),
            ids@.len() == entries@.len(),
            text::texts(ids@) == all,
            routed_entries(
                views,
                all,
                providers_seq(providers),
                fallback_profile,
                config_text@,
                *sources,
                i as nat,
            ) == Ok::<Seq<JsonView>, ErrorView>(json::items_view(out@)),
        decreases entries@.len() - i,
    {
        if let Err(e) = push_routed(
            &mut out,
            &entries,
            &ids,
            providers,
            fallback_profile,
            config_text,
            sources,
            i,
        ) {
            proof {
                lemma_first_failure(
                    views,
                    all,
                    providers_seq(providers),
                    fallback_profile,
                    config_text@,
                    *sources,
                    (i + 1) as nat,
                    views.len(),
                );
            }
            return Err(e);
        }
        i += 1;
    }
    Ok(out)
}

/// An error among the first entries is the error of all of them.
proof fn lemma_first_failure(
    entries: Seq<EntryView>,
    ids: Seq<Seq<char>>,
    providers: Option<Seq<BoundProvider>>,
    fallback: CodexCatalogToolProfile,
    config: Seq<char>,
    sources: CatalogSources,
    n: nat,
    m: nat,
)
    requires
        n <= m,
        routed_entries(entries, ids, providers, fallback, config, sources, n) is Err,
    ensures
        routed_entries(entries, ids, providers, fallback, config, sources, m)
            == routed_entries(entries, ids, providers, fallback, config, sources, n),
    decreases m,
{
    if n < m {
        lemma_first_failure(
            entries,
            ids,
            providers,
            fallback,
            config,
            sources,
            n,
            (m - 1) as nat,
        );
    }
}

} // verus!
