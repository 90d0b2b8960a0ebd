//! The model catalog that is generated for Codex, and the way back from it to
//! the settings.

use crate::catalog_entry::{
    codex_catalog_input_modalities_from_capability, codex_catalog_model_entry,
    codex_vendor_catalog_model_entry, fill_template_fields_from_static, string_array,
    CodexCatalogToolProfile,
};
use crate::error::{AppError, ErrorView};
use crate::json::{parse_json, Json, JsonView};
use crate::model_specs::{
    codex_catalog_model_specs, codex_custom_models_nonempty, codex_official_login_enabled,
    strings_of, CodexCatalogModelSpec, SlotTable, SpecView,
};
use crate::routed_catalog::{
    codex_custom_catalog_entries, codex_official_vendor_catalog_models, same_texts, window_of,
    BoundProvider, CapabilityTable, CatalogSources, ProxyTemplate,
};
use crate::text::str_eq;
use crate::{auth, catalog_entry, json, model_specs, routed_catalog, text};
use vstd::prelude::*;
use vstd::string::*;

verus! {

/// The model whose entry serves as the template where the proxy converts.
pub const CODEX_MODEL_CATALOG_TEMPLATE_SLUG: &'static str = "gpt-5.5";

/// The catalog with some entries.
pub open spec fn catalog_with(entries: Seq<JsonView>) -> JsonView {
    JsonView::empty_object().put("models"@, JsonView::Array(entries))
}

/// The catalog with some entries.
fn new_catalog(entries: Vec<Json>) -> (r: Json)
    ensures
        r@ == catalog_with(json::items_view(entries@)),
{
    let mut catalog = Json::object();
    catalog.insert("models", Json::Array(entries));
    catalog
}

/// The entries of a provider's own models, made from a template.
pub open spec fn spec_entries(
    specs: Seq<SpecView>,
    template: JsonView,
    profile: CodexCatalogToolProfile,
    window: u64,
    capabilities: CapabilityTable,
) -> Seq<JsonView> {
    Seq::new(
        specs.len(),
        |i: int|
            catalog_entry::model_entry(
                template,
                specs[i],
                catalog_entry::place_of(i as nat),
                profile,
                window,
                capabilities.capability(specs[i].model, specs[i].input_modalities),
            ),
    )
}

/// The entries of a provider's own models, by its vendor's own catalog.
pub open spec fn vendor_entries(
    specs: Seq<SpecView>,
    vendor: Seq<JsonView>,
    fallback: Option<JsonView>,
) -> Seq<JsonView> {
    Seq::new(
        specs.len(),
        |i: int|
            catalog_entry::vendor_entry(vendor, specs[i], catalog_entry::place_of(i as nat), None, fallback),
    )
}

/// The catalog of a provider's own models, made from a template.
pub fn codex_model_catalog_from_specs(
    specs: &Vec<CodexCatalogModelSpec>,
    template: &Json,
    profile: CodexCatalogToolProfile,
    default_context_window: u64,
    capabilities: &CapabilityTable,
) -> (r: Json)
    ensures
        r@ == catalog_with(
            spec_entries(
                model_specs::specs_view(specs@),
                template@,
                profile,
                default_context_window,
                *capabilities,
            ),
        ),
{
    let ghost views = model_specs::specs_view(specs@);
    let ghost expected = spec_entries(
        views,
        template@,
        profile,
        default_context_window,
        *capabilities,
    );
    let mut entries: Vec<Json> = Vec::new();
    let mut i: usize = 0;
    while i < specs.len()
        invariant
            i <= specs@.len(),
            views == model_specs::specs_view(specs@),
            expected == spec_entries(
                views,
                template@,
                profile,
                default_context_window,
                *capabilities,
            ),
            json::items_view(entries@) =~= expected.take(i as int),
        decreases specs@.len() - i,
    {
        broadcast use json::lemma_items_push;

        assert(views[i as int] == specs@[i as int]@);
        let capability = capabilities.capability_of(
            specs[i].model.as_str(),
            &specs[i].input_modalities,
        );
        let entry = codex_catalog_model_entry(
            template,
            &specs[i],
            i as u64,
            profile,
            default_context_window,
            capability,
        );
        entries.push(entry);
        i += 1;
    }
    assert(expected.take(i as int) =~= expected);
    new_catalog(entries)
}

/// The catalog of a provider's own models, by its vendor's own catalog.
fn vendor_catalog(
    specs: &Vec<CodexCatalogModelSpec>,
    vendor_models: &Vec<Json>,
    static_template: Option<&Json>,
) -> (r: Json)
    ensures
        r@ == catalog_with(
            vendor_entries(
                model_specs::specs_view(specs@),
                json::items_view(vendor_models@),
                json::ref_view(static_template),
            ),
        ),
{
    let ghost views = model_specs::specs_view(specs@);
    let ghost expected = vendor_entries(
        views,
        json::items_view(vendor_models@),
        json::ref_view(static_template),
    );
    let mut entries: Vec<Json> = Vec::new();
    let mut i: usize = 0;
    while i < specs.len()
        invariant
            i <= specs@.len(),
            views == model_specs::specs_view(specs@),
            expected == vendor_entries(
                views,
                json::items_view(vendor_models@),
                json::ref_view(static_template),
            ),
            json::items_view(entries@) =~= expected.take(i as int),
        decreases specs@.len() - i,
    {
        broadcast use json::lemma_items_push;

        assert(views[i as int] == specs@[i as int]@);
        let entry = codex_vendor_catalog_model_entry(
            vendor_models,
            &specs[i],
            i as u64,
            None,
            static_template,
        );
        entries.push(entry);
        i += 1;
    }
    assert(expected.take(i as int) =~= expected);
    new_catalog(entries)
}

/// The catalog for a provider's settings: of its routed models, where the official login is off;
/// else of its own models, by its vendor's catalog or made from a template. With the official login
/// on, routed models are merged elsewhere and there is no catalog.
pub open spec fn catalog_for(
    settings: JsonView,
    slots: SlotTable,
    config: Seq<char>,
    profile: CodexCatalogToolProfile,
    providers: Option<Seq<BoundProvider>>,
    sources: CatalogSources,
) -> Result<Option<JsonView>, ErrorView> {
    let specs = model_specs::catalog_specs(settings);
    let vendor = json::items_view(sources.vendor_models@);
    if model_specs::custom_entries(settings, slots).len() > 0 {
        if model_specs::official_login(settings) {
            Ok(None)
        } else {
            match routed_catalog::custom_catalog(
                settings,
                slots,
                config,
                CodexCatalogToolProfile::NativeResponses,
                providers,
                sources,
            ) {
                Ok(entries) => Ok(Some(catalog_with(entries))),
                Err(e) => Err(e),
            }
        }
    } else if specs.len() == 0 {
        Ok(None)
    } else if routed_catalog::uses_vendor(config, profile, vendor) {
        Ok(
            Some(
                catalog_with(
                    vendor_entries(specs, vendor, json::option_view(sources.static_template)),
                ),
            ),
        )
    } else {
        match routed_catalog::template_for(sources, profile) {
            Err(e) => Err(e),
            Ok(template) => Ok(
                Some(
                    catalog_with(
                        spec_entries(
                            specs,
                            template,
                            profile,
                            routed_catalog::config_window(Some(config)),
                            sources.capabilities,
                        ),
                    ),
                ),
            ),
        }
    }
}

/// What a result with an optional catalog stands for.
pub open spec fn catalog_result(r: Result<Option<Json>, AppError>) -> Result<
    Option<JsonView>,
    ErrorView,
> {
    match r {
        Ok(catalog) => Ok(json::option_view(catalog)),
        Err(e) => Err(e@),
    }
}

/// The catalog for a provider's settings.
pub fn codex_model_catalog_from_settings(
    settings: &Json,
    slots: &SlotTable,
    config_text: &str,
    profile: CodexCatalogToolProfile,
    providers: Option<&Vec<BoundProvider>>,
    sources: &CatalogSources,
) -> (r: Result<Option<Json>, AppError>)
    ensures
        catalog_result(r) == catalog_for(
            settings@,
            *slots,
            config_text@,
            profile,
            routed_catalog::providers_seq(providers),
            *sources,
        ),
{
    if codex_custom_models_nonempty(settings, slots) {
        if codex_official_login_enabled(settings) {
            return Ok(None);
        }
        return match codex_custom_catalog_entries(
            settings,
            slots,
            config_text,
            CodexCatalogToolProfile::NativeResponses,
            providers,
            sources,
        ) {
            Ok(entries) => Ok(Some(new_catalog(entries))),
            Err(e) => Err(e),
        };
    }
    let specs = codex_catalog_model_specs(settings);
    assert(model_specs::specs_view(specs@).len() == specs@.len());
    if specs.is_empty() {
        return Ok(None);
    }
    if codex_official_vendor_catalog_models(config_text, profile, &sources.vendor_models) {
        let static_template = match &sources.static_template {
            Some(template) => Some(template),
            None => None,
        };
        return Ok(Some(vendor_catalog(&specs, &sources.vendor_models, static_template)));
    }
    let template = match profile {
        CodexCatalogToolProfile::ProxyChat => match &sources.proxy_template {
            ProxyTemplate::Ready(template) => template,
            ProxyTemplate::Failed(e) => {
                return Err(e.copy());
            },
        },
        _ => &sources.native_template,
    };
    Ok(
        Some(
            codex_model_catalog_from_specs(
                &specs,
                template,
                profile,
                window_of(Some(config_text)),
                &sources.capabilities,
            ),
        ),
    )
}

/// The entry of a model for which there is nothing but its name.
pub open spec fn bare_spec(model: Seq<char>) -> SpecView {
    SpecView {
        model,
        display_name: None,
        context_window: None,
        supports_parallel_tool_calls: None,
        input_modalities: None,
        base_instructions: None,
    }
}

/// The entry of the one model that a config names; `None` where the template for it is missing.
pub open spec fn single_entry(
    model: Seq<char>,
    profile: CodexCatalogToolProfile,
    config: Seq<char>,
    sources: CatalogSources,
) -> Option<JsonView> {
    match routed_catalog::template_for(sources, profile) {
        Ok(template) => Some(
            catalog_entry::model_entry(
                template,
                bare_spec(model),
                1000,
                profile,
                routed_catalog::config_window(Some(config)),
                sources.capabilities.capability(model, None),
            ),
        ),
        Err(_) => None,
    }
}

/// The entry of the one model that a config names.
pub fn codex_single_model_cache_entry(
    model: &str,
    profile: CodexCatalogToolProfile,
    config_text: &str,
    sources: &CatalogSources,
) -> (r: Option<Json>)
    ensures
        json::option_view(r) == single_entry(model@, profile, config_text@, *sources),
{
    let template = match profile {
        CodexCatalogToolProfile::ProxyChat => match &sources.proxy_template {
            ProxyTemplate::Ready(template) => template,
            ProxyTemplate::Failed(_) => {
                return None;
            },
        },
        _ => &sources.native_template,
    };
    let spec = CodexCatalogModelSpec {
        model: model.to_owned(),
        display_name: None,
        context_window: None,
        supports_parallel_tool_calls: None,
        input_modalities: None,
        base_instructions: None,
    };
    let capability = sources.capabilities.capability_of(model, &None);
    Some(
        codex_catalog_model_entry(
            template,
            &spec,
            0,
            profile,
            window_of(Some(config_text)),
            capability,
        ),
    )
}

/// The first entry with the template's name.
pub open spec fn template_among(models: Seq<JsonView>) -> Option<JsonView>
    decreases models.len(),
{
    if models.len() == 0 {
        None
    } else if models[0].get_text("slug"@) == Some(CODEX_MODEL_CATALOG_TEMPLATE_SLUG@) {
        Some(models[0])
    } else {
        template_among(models.drop_first())
    }
}

/// The template in a catalog.
pub open spec fn template_in(catalog: JsonView) -> Option<JsonView> {
    match catalog.get_items("models"@) {
        Some(models) => template_among(models),
        None => None,
    }
}

/// The template in a catalog.
pub fn find_codex_model_template(catalog: &Json) -> (r: Option<Json>)
    ensures
        json::option_view(r) == template_in(catalog@),
{
    let models = match catalog.get_array("models") {
        Some(models) => models,
        None => {
            return None;
        },
    };
    let ghost views = json::items_view(models@);
    let mut i: usize = 0;
    assert(views.skip(0) =~= views);
    proof {
        json::lemma_items_view(models@);
    }
    while i < models.len()
        invariant
            i <= models@.len(),
            views == json::items_view(models@),
            views.len() == models@.len(),
            catalog@.get_items("models"@) == Some(views),
            template_among(views.skip(i as int)) == template_among(views),
        decreases models@.len() - i,
    {
        proof {
            json::lemma_items_view(models@);
            assert(views.skip(i as int)[0] == models@[i as int].view());
            assert(views.skip(i as int).drop_first() =~= views.skip(i + 1));
        }
        if let Some(slug) = models[i].get_str("slug") {
            if str_eq(slug, CODEX_MODEL_CATALOG_TEMPLATE_SLUG) {
                return Some(models[i].clone());
            }
        }
        i += 1;
    }
    None
}

/// The error for a template that is nowhere to be found.
pub open spec fn template_error() -> ErrorView {
    ErrorView::Message(
        "Codex model catalog template `gpt-5.5` not found. Please start Codex once so models_cache.json is available, or ensure the `codex` CLI is on PATH."@,
    )
}

/// The template for the profile that the proxy converts for: of Codex's own cache, else of its
/// command line, both completed from the template that comes with the application; else that one.
pub open spec fn chosen_template(
    from_cache: Option<JsonView>,
    from_cli: Option<JsonView>,
    fallback: Option<JsonView>,
) -> Result<JsonView, ErrorView> {
    match (from_cache, from_cli, fallback) {
        (Some(template), _, _) => Ok(catalog_entry::with_required_fields(template, fallback)),
        (None, Some(template), _) => Ok(catalog_entry::with_required_fields(template, fallback)),
        (None, None, Some(template)) => Ok(template),
        (None, None, None) => Err(template_error()),
    }
}

/// The template for the profile that the proxy converts for.
pub fn load_codex_model_catalog_template(
    from_cache: Option<Json>,
    from_cli: Option<Json>,
    static_template: Option<&Json>,
) -> (r: Result<Json, AppError>)
    ensures
        ({
            let expected = chosen_template(
                json::option_view(from_cache),
                json::option_view(from_cli),
                json::ref_view(static_template),
            );
            match r {
                Ok(template) => expected == Ok::<JsonView, ErrorView>(template@),
                Err(e) => expected == Err::<JsonView, ErrorView>(e@),
            }
        }),
{
    let found = match from_cache {
        Some(template) => Some(template),
        None => from_cli,
    };
    match found {
        Some(template) => {
            let mut template = template;
            fill_template_fields_from_static(&mut template, static_template);
            Ok(template)
        },
        None => match static_template {
            Some(template) => Ok(template.clone()),
            None => Err(
                AppError::Message(
                    "Codex model catalog template `gpt-5.5` not found. Please start Codex once so models_cache.json is available, or ensure the `codex` CLI is on PATH.".to_owned(),
                ),
            ),
        },
    }
}

/// What a generated entry says beyond what it says of any model: the settings that it was made
/// from. `None` for an entry without a name.
pub open spec fn simplified_entry(
    entry: JsonView,
    window: u64,
    capabilities: CapabilityTable,
) -> Option<JsonView> {
    match auth::trimmed_member(entry, "slug"@) {
        None => None,
        Some(model) => {
            let e0 = JsonView::empty_object().put("model"@, JsonView::Str(model));
            let e1 = match auth::trimmed_member(entry, "display_name"@) {
                Some(name) => if name != model {
                    e0.put("displayName"@, JsonView::Str(name))
                } else {
                    e0
                },
                None => e0,
            };
            let e2 = match entry.get("context_window"@) {
                Some(v) => match v.unsigned() {
                    Some(n) => if n > 0 && n != window {
                        e1.put("contextWindow"@, catalog_entry::number(n))
                    } else {
                        e1
                    },
                    None => e1,
                },
                None => e1,
            };
            let e3 = match model_specs::flag(entry.get("supports_parallel_tool_calls"@)) {
                Some(on) => e2.put("supportsParallelToolCalls"@, JsonView::Bool(on)),
                None => e2,
            };
            match entry.get_items("input_modalities"@) {
                Some(items) => {
                    let kinds = model_specs::text_items(items);
                    if kinds.len() > 0 && kinds != catalog_entry::modalities(
                        capabilities.capability(model, None),
                    ) {
                        Some(e3.put("inputModalities"@, catalog_entry::text_array(kinds)))
                    } else {
                        Some(e3)
                    }
                },
                None => Some(e3),
            }
        },
    }
}

/// What the entries with a name say.
pub open spec fn simplified_entries(
    models: Seq<JsonView>,
    window: u64,
    capabilities: CapabilityTable,
) -> Seq<JsonView>
    decreases models.len(),
{
    if models.len() == 0 {
        Seq::empty()
    } else {
        let front = simplified_entries(models.drop_last(), window, capabilities);
        match simplified_entry(models.last(), window, capabilities) {
            Some(entry) => front.push(entry),
            None => front,
        }
    }
}

/// The settings that a generated catalog was made from; `None` where no entry has a name.
pub open spec fn simplified(
    catalog: Option<JsonView>,
    window: u64,
    capabilities: CapabilityTable,
) -> Option<JsonView> {
    match catalog {
        Some(catalog) => match catalog.get_items("models"@) {
            Some(models) => {
                let entries = simplified_entries(models, window, capabilities);
                if entries.len() > 0 {
                    Some(catalog_with(entries))
                } else {
                    None
                }
            },
            None => None,
        },
        None => None,
    }
}

/// What a generated entry says beyond what it says of any model.
fn simplify_entry(entry: &Json, window: u64, capabilities: &CapabilityTable) -> (r: Option<Json>)
    ensures
        json::option_view(r) == simplified_entry(entry@, window, *capabilities),
{
    let model = match auth::get_trimmed(entry, "slug") {
        Some(model) => model,
        None => {
            return None;
        },
    };
    let mut out = Json::object();
    out.insert("model", Json::string(model));
    if let Some(name) = auth::get_trimmed(entry, "display_name") {
        if !str_eq(name, model) {
            out.insert("displayName", Json::string(name));
        }
    }
    if let Some(value) = entry.get("context_window") {
        if let Some(n) = value.as_u64() {
            if n > 0 && n != window {
                out.insert("contextWindow", Json::number(n));
            }
        }
    }
    if let Some(value) = entry.get("supports_parallel_tool_calls") {
        if let Some(on) = value.as_bool() {
            out.insert("supportsParallelToolCalls", Json::Bool(on));
        }
    }
    if let Some(items) = entry.get_array("input_modalities") {
        let kinds = strings_of(items);
        assert(text::texts(kinds@).len() == kinds@.len());
        let inferred = codex_catalog_input_modalities_from_capability(
            capabilities.capability_of(model, &None),
        );
        if !kinds.is_empty() && !same_texts(&kinds, &inferred) {
            out.insert("inputModalities", string_array(&kinds));
        }
    }
    Some(out)
}

/// The settings that a generated catalog was made from. Values that are those of any model are left
/// out, so that what was never set stays so.
pub fn simplify_catalog(catalog: Option<&Json>, window: u64, capabilities: &CapabilityTable) -> (r:
    Option<Json>)
    ensures
        json::option_view(r) == simplified(json::ref_view(catalog), window, *capabilities),
{
    let models = match catalog {
        Some(catalog) => match catalog.get_array("models") {
            Some(models) => models,
            None => {
                return None;
            },
        },
        None => {
            return None;
        },
    };
    let ghost views = json::items_view(models@);
    let mut entries: Vec<Json> = Vec::new();
    let mut i: usize = 0;
    while i < models.len()
        invariant
            i <= models@.len(),
            views == json::items_view(models@),
            json::items_view(entries@) == simplified_entries(
                views.take(i as int),
                window,
                *capabilities,
            ),
        decreases models@.len() - i,
    {
        broadcast use json::lemma_items_push;

        proof {
            json::lemma_items_view(models@);
            assert(views.take(i + 1).drop_last() =~= views.take(i as int));
            assert(views.take(i + 1).last() == models@[i as int].view());
        }
        if let Some(entry) = simplify_entry(&models[i], window, capabilities) {
            entries.push(entry);
        }
        i += 1;
    }
    proof {
        json::lemma_items_view(models@);
        json::lemma_items_view(entries@);
        assert(views.take(i as int) =~= views);
    }
    if entries.is_empty() {
        None
    } else {
        Some(new_catalog(entries))
    }
}

/// The settings that the text of a generated catalog was made from, next to a config.
pub fn build_simplified_catalog_from_texts(
    config_text: &str,
    catalog_text: &str,
    capabilities: &CapabilityTable,
) -> (r: Option<Json>)
    ensures
        json::option_view(r) == simplified(
            json::json_text(catalog_text@),
            routed_catalog::config_window(Some(config_text@)),
            *capabilities,
        ),
{
    match parse_json(catalog_text) {
        Some(catalog) => simplify_catalog(
            Some(&catalog),
            window_of(Some(config_text)),
            capabilities,
        ),
        None => None,
    }
}

} // verus!
