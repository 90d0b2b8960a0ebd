//! One entry of the model catalog that Codex reads.

use crate::json::{Json, JsonView, NumberView};
use crate::model_specs::{CodexCatalogModelSpec, SpecView};
use crate::text::str_eq;
use crate::{json, text};
use vstd::prelude::*;
use vstd::string::*;

verus! {

/// Which tools a generated catalog offers to Codex.
#[derive(Debug, Clone, Copy, PartialEq, Eq, Structural)]
pub enum CodexCatalogToolProfile {
    /// The proxy converts between protocols, so all of Codex's tools stay.
    ProxyChat,
    /// Codex talks to the provider itself, whose gateway rejects freeform tools.
    NativeResponses,
    /// The proxy talks to an Anthropic gateway, and freeform tools are dropped on the way.
    Anthropic,
}

impl CodexCatalogToolProfile {
    /// The profile for an API format.
    pub open spec fn of_format(api_format: Option<Seq<char>>) -> CodexCatalogToolProfile {
        if api_format == Some("anthropic"@) {
            CodexCatalogToolProfile::Anthropic
        } else if api_format == Some("openai_responses"@) {
            CodexCatalogToolProfile::NativeResponses
        } else {
            CodexCatalogToolProfile::ProxyChat
        }
    }

    /// The profile for the API format that a provider's metadata name.
    pub fn from_api_format(api_format: Option<&str>) -> (r: Self)
        ensures
            r == Self::of_format(text::slice_text(api_format)),
    {
        match api_format {
            Some(format) => if str_eq(format, "anthropic") {
                CodexCatalogToolProfile::Anthropic
            } else if str_eq(format, "openai_responses") {
                CodexCatalogToolProfile::NativeResponses
            } else {
                CodexCatalogToolProfile::ProxyChat
            },
            None => CodexCatalogToolProfile::ProxyChat,
        }
    }
}

/// Whether a model takes images.
#[derive(Debug, Clone, Copy, PartialEq, Eq, Structural)]
pub enum ImageInputCapability {
    Supported,
    Unsupported,
    Unknown,
}

/// The kinds of input that a model takes: where it is not known to take text alone, images too.
pub open spec fn modalities(capability: ImageInputCapability) -> Seq<Seq<char>> {
    match capability {
        ImageInputCapability::Unsupported => seq!["text"@],
        _ => seq!["text"@, "image"@],
    }
}

/// The kinds of input that a model takes.
pub fn codex_catalog_input_modalities_from_capability(capability: ImageInputCapability) -> (r: Vec<
    String,
>)
    ensures
        text::texts(r@) == modalities(capability),
{
    let mut out: Vec<String> = Vec::new();
    out.push("text".to_owned());
    if !matches!(capability, ImageInputCapability::Unsupported) {
        out.push("image".to_owned());
    }
    assert(text::texts(out@) =~= modalities(capability));
    out
}

/// An array of strings.
pub open spec fn text_array(list: Seq<Seq<char>>) -> JsonView {
    JsonView::Array(list.map_values(|t: Seq<char>| JsonView::Str(t)))
}

/// An array of strings.
pub fn string_array(list: &Vec<String>) -> (r: Json)
    ensures
        r@ == text_array(text::texts(list@)),
{
    let mut items: Vec<Json> = Vec::new();
    let mut i: usize = 0;
    while i < list.len()
        invariant
            i <= list@.len(),
            json::items_view(items@) =~= text::texts(list@).take(i as int).map_values(
                |t: Seq<char>| JsonView::Str(t),
            ),
        decreases list@.len() - i,
    {
        let item = Json::Str(list[i].clone());
        proof {
            json::lemma_items_push(items@, item);
        }
        items.push(item);
        i += 1;
    }
    assert(text::texts(list@).take(i as int) =~= text::texts(list@));
    Json::Array(items)
}

/// A number.
pub open spec fn number(n: u64) -> JsonView {
    JsonView::Number(NumberView::Unsigned(n))
}

/// An object with the member `src` also under the name `dst`, where nothing has that name.
pub open spec fn with_alias(entry: JsonView, dst: Seq<char>, src: Seq<char>) -> JsonView {
    match (entry.get(dst), entry.get(src)) {
        (None, Some(value)) => entry.put(dst, value),
        _ => entry,
    }
}

/// A reasoning level in the camel case form: with its effort, and with its description where it
/// has one.
pub open spec fn effort_of(level: JsonView) -> Option<JsonView> {
    match level.get("effort"@) {
        Some(effort) => {
            let item = JsonView::empty_object().put("reasoningEffort"@, effort);
            match level.get("description"@) {
                Some(description) => Some(item.put("description"@, description)),
                None => Some(item),
            }
        },
        None => None,
    }
}

/// The reasoning levels in the camel case form: those that have an effort.
pub open spec fn efforts_of(levels: Seq<JsonView>) -> Seq<JsonView>
    decreases levels.len(),
{
    if levels.len() == 0 {
        Seq::empty()
    } else {
        match effort_of(levels.last()) {
            Some(effort) => efforts_of(levels.drop_last()).push(effort),
            None => efforts_of(levels.drop_last()),
        }
    }
}

/// An entry with its reasoning levels also in the camel case form.
pub open spec fn with_efforts(entry: JsonView) -> JsonView {
    if entry.get("supportedReasoningEfforts"@) is Some {
        entry
    } else {
        match entry.get_items("supported_reasoning_levels"@) {
            Some(levels) => if efforts_of(levels).len() > 0 {
                entry.put("supportedReasoningEfforts"@, JsonView::Array(efforts_of(levels)))
            } else {
                entry
            },
            None => entry,
        }
    }
}

/// An entry that has its fields under the names that the command line reads and under those that
/// the desktop application reads.
pub open spec fn aliased(entry: JsonView) -> JsonView {
    let e1 = with_alias(entry, "displayName"@, "display_name"@);
    let e2 = with_alias(e1, "contextWindow"@, "context_window"@);
    let e3 = with_alias(e2, "maxContextWindow"@, "max_context_window"@);
    let e4 = with_alias(e3, "defaultReasoningEffort"@, "default_reasoning_level"@);
    let e5 = with_alias(e4, "inputModalities"@, "input_modalities"@);
    let e6 = with_alias(e5, "baseInstructions"@, "base_instructions"@);
    let e7 = with_alias(e6, "supportsParallelToolCalls"@, "supports_parallel_tool_calls"@);
    let e8 = with_alias(e7, "additionalSpeedTiers"@, "additional_speed_tiers"@);
    let e9 = with_alias(e8, "serviceTiers"@, "service_tiers"@);
    let e10 = with_alias(e9, "availabilityNux"@, "availability_nux"@);
    with_efforts(e10)
}

/// Puts the member `src` also under the name `dst`, where nothing has that name.
fn add_alias(entry: &mut Json, dst: &str, src: &str)
    ensures
        final(entry)@ == with_alias(old(entry)@, dst@, src@),
{
    if entry.get(dst).is_none() {
        let value = match entry.get(src) {
            Some(value) => value.clone(),
            None => {
                return;
            },
        };
        entry.insert(dst, value);
    }
}

/// The reasoning levels in the camel case form.
fn camel_case_efforts(levels: &Vec<Json>) -> (r: Vec<Json>)
    ensures
        json::items_view(r@) == efforts_of(json::items_view(levels@)),
{
    let mut out: Vec<Json> = Vec::new();
    let ghost views = json::items_view(levels@);
    let mut i: usize = 0;
    while i < levels.len()
        invariant
            i <= levels@.len(),
            views == json::items_view(levels@),
            json::items_view(out@) == efforts_of(views.take(i as int)),
        decreases levels@.len() - i,
    {
        proof {
            json::lemma_items_view(levels@);
            assert(views.take(i + 1).drop_last() =~= views.take(i as int));
            assert(views.take(i + 1).last() == levels@[i as int].view());
        }
        if let Some(effort) = levels[i].get("effort") {
            let mut item = Json::object();
            item.insert("reasoningEffort", effort.clone());
            if let Some(description) = levels[i].get("description") {
                item.insert("description", description.clone());
            }
            proof {
                json::lemma_items_push(out@, item);
            }
            out.push(item);
        }
        i += 1;
    }
    proof {
        json::lemma_items_view(levels@);
        assert(views.take(i as int) =~= views);
    }
    out
}

/// Gives an entry its fields under the names that the command line reads and under those that the
/// desktop application reads. Neither minds names that it does not know.
pub fn codex_catalog_add_camel_case_aliases(entry: &mut Json)
    ensures
        final(entry)@ == aliased(old(entry)@),
{
    add_alias(entry, "displayName", "display_name");
    add_alias(entry, "contextWindow", "context_window");
    add_alias(entry, "maxContextWindow", "max_context_window");
    add_alias(entry, "defaultReasoningEffort", "default_reasoning_level");
    add_alias(entry, "inputModalities", "input_modalities");
    add_alias(entry, "baseInstructions", "base_instructions");
    add_alias(entry, "supportsParallelToolCalls", "supports_parallel_tool_calls");
    add_alias(entry, "additionalSpeedTiers", "additional_speed_tiers");
    add_alias(entry, "serviceTiers", "service_tiers");
    add_alias(entry, "availabilityNux", "availability_nux");
    if entry.get("supportedReasoningEfforts").is_none() {
        let mut efforts: Vec<Json> = Vec::new();
        if let Some(levels) = entry.get_array("supported_reasoning_levels") {
            efforts = camel_case_efforts(levels);
        }
        proof {
            json::lemma_items_view(efforts@);
        }
        if !efforts.is_empty() {
            entry.insert("supportedReasoningEfforts", Json::Array(efforts));
        }
    }
}

/// The name that an entry shows: the given one, else the model's id.
pub open spec fn shown_name(spec: SpecView) -> Seq<char> {
    match spec.display_name {
        Some(name) => name,
        None => spec.model,
    }
}

/// A text that is trimmed and not blank.
pub open spec fn filled(value: Option<Seq<char>>) -> Option<Seq<char>> {
    match value {
        Some(t) => if text::is_blank(t) {
            None
        } else {
            Some(text::trim(t))
        },
        None => None,
    }
}

/// A template with a model's own fields in place of its own.
pub open spec fn basic_entry(
    template: JsonView,
    spec: SpecView,
    priority: u64,
    default_context_window: u64,
    capability: ImageInputCapability,
) -> JsonView {
    let name = shown_name(spec);
    let window = match spec.context_window {
        Some(n) => n,
        None => default_context_window,
    };
    template.put("model"@, JsonView::Str(spec.model)).put("slug"@, JsonView::Str(spec.model)).put(
        "display_name"@,
        JsonView::Str(name),
    ).put("description"@, JsonView::Str(name)).put("context_window"@, number(window)).put(
        "max_context_window"@,
        number(window),
    ).put("priority"@, number(priority)).put(
        "additional_speed_tiers"@,
        JsonView::Array(Seq::empty()),
    ).put("service_tiers"@, JsonView::Array(Seq::empty())).put(
        "availability_nux"@,
        JsonView::Null,
    ).put("upgrade"@, JsonView::Null).put("input_modalities"@, text_array(modalities(capability)))
}

/// An entry for a gateway that takes no freeform tools: without what would make Codex offer one.
pub open spec fn without_freeform_tools(entry: JsonView, spec: SpecView) -> JsonView {
    let e1 = entry.without("apply_patch_tool_type"@).without("web_search_tool_type"@).without(
        "tools"@,
    ).without("model_messages"@).put("shell_type"@, JsonView::Str("shell_command"@));
    let e2 = match filled(spec.base_instructions) {
        Some(t) => e1.put("base_instructions"@, JsonView::Str(t)),
        None => e1,
    };
    match spec.supports_parallel_tool_calls {
        Some(on) => e2.put("supports_parallel_tool_calls"@, JsonView::Bool(on)),
        None => e2,
    }
}

/// The catalog entry of a model.
pub open spec fn model_entry(
    template: JsonView,
    spec: SpecView,
    priority: u64,
    profile: CodexCatalogToolProfile,
    default_context_window: u64,
    capability: ImageInputCapability,
) -> JsonView {
    if template is Object {
        let entry = basic_entry(template, spec, priority, default_context_window, capability);
        if profile == CodexCatalogToolProfile::ProxyChat {
            aliased(entry)
        } else {
            aliased(without_freeform_tools(entry, spec))
        }
    } else {
        JsonView::empty_object()
    }
}

/// The text of an optional string, trimmed, where it is not blank.
fn filled_text(value: &Option<String>) -> (r: Option<String>)
    ensures
        text::text_of(r) == filled(text::text_of(*value)),
{
    match value {
        Some(t) => {
            let t = t.as_str().trim();
            if t.is_empty() {
                None
            } else {
                Some(t.to_owned())
            }
        },
        None => None,
    }
}

/// The name that an entry shows.
fn name_to_show(spec: &CodexCatalogModelSpec) -> (r: &str)
    ensures
        r@ == shown_name(spec@),
{
    match &spec.display_name {
        Some(name) => name.as_str(),
        None => spec.model.as_str(),
    }
}

/// The number by which the entry with an index is sorted: behind those of official models, and in
/// order as long as there are numbers.
pub open spec fn place_of(index: nat) -> u64 {
    if index + 1000 > u64::MAX {
        u64::MAX
    } else {
        (index + 1000) as u64
    }
}

/// The catalog entry of a model, made from a template. Whether it takes images is a matter of the
/// model, not of the tools; required fields stay even where freeform tools are taken out.
pub fn codex_catalog_model_entry(
    template: &Json,
    spec: &CodexCatalogModelSpec,
    priority: u64,
    profile: CodexCatalogToolProfile,
    default_context_window: u64,
    capability: ImageInputCapability,
) -> (r: Json)
    ensures
        r@ == model_entry(
            template@,
            spec@,
            place_of(priority as nat),
            profile,
            default_context_window,
            capability,
        ),
{
    if !template.is_object() {
        return Json::object();
    }
    let name = name_to_show(spec);
    let window: u64 = match spec.context_window {
        Some(n) => n,
        None => default_context_window,
    };
    let mut entry = template.clone();
    proof {
        assert(json::items_view(Seq::<Json>::empty()) =~= Seq::<JsonView>::empty());
    }
    entry.insert("model", Json::string(spec.model.as_str()));
    entry.insert("slug", Json::string(spec.model.as_str()));
    entry.insert("display_name", Json::string(name));
    entry.insert("description", Json::string(name));
    entry.insert("context_window", Json::number(window));
    entry.insert("max_context_window", Json::number(window));
    entry.insert("priority", Json::number(priority.saturating_add(1000)));
    entry.insert("additional_speed_tiers", Json::Array(Vec::new()));
    entry.insert("service_tiers", Json::Array(Vec::new()));
    entry.insert("availability_nux", Json::Null);
    entry.insert("upgrade", Json::Null);
    let kinds = codex_catalog_input_modalities_from_capability(capability);
    entry.insert("input_modalities", string_array(&kinds));
    if profile != CodexCatalogToolProfile::ProxyChat {
        entry.remove("apply_patch_tool_type");
        entry.remove("web_search_tool_type");
        entry.remove("tools");
        entry.remove("model_messages");
        entry.insert("shell_type", Json::string("shell_command"));
        if let Some(t) = filled_text(&spec.base_instructions) {
            entry.insert("base_instructions", Json::Str(t));
        }
        if let Some(on) = spec.supports_parallel_tool_calls {
            entry.insert("supports_parallel_tool_calls", Json::Bool(on));
        }
    }
    codex_catalog_add_camel_case_aliases(&mut entry);
    entry
}

/// An entry with the fields that Codex cannot do without, from another template where it lacks
/// them.
pub open spec fn with_required_fields(entry: JsonView, fallback: Option<JsonView>) -> JsonView {
    match fallback {
        Some(fallback) => match (
            entry.get("supports_reasoning_summaries"@),
            fallback.get("supports_reasoning_summaries"@),
        ) {
            (None, Some(value)) => entry.put("supports_reasoning_summaries"@, value),
            _ => entry,
        },
        None => entry,
    }
}

/// Gives an entry the fields that Codex cannot do without. Fields that it may leave out keep their
/// meaning when they are missing, and values that are there stay.
pub fn fill_template_fields_from_static(entry: &mut Json, static_template: Option<&Json>)
    ensures
        final(entry)@ == with_required_fields(old(entry)@, json::ref_view(static_template)),
{
    if let Some(fallback) = static_template {
        if entry.get("supports_reasoning_summaries").is_none() {
            if let Some(value) = fallback.get("supports_reasoning_summaries") {
                entry.insert("supports_reasoning_summaries", value.clone());
            }
        }
    }
}

/// The position of the first vendor entry for a model, whatever the case of its name.
pub open spec fn vendor_match(vendor: Seq<JsonView>, model: Seq<char>) -> Option<int>
    decreases vendor.len(),
{
    if vendor.len() == 0 {
        None
    } else {
        match vendor_match(vendor.drop_last(), model) {
            Some(i) => Some(i),
            None => match vendor.last().get_text("slug"@) {
                Some(slug) => if text::lower(slug) == text::lower(model) {
                    Some(vendor.len() - 1)
                } else {
                    None
                },
                None => None,
            },
        }
    }
}

/// A vendor's entry under the id of a model, with what is said of the model in place of what it says
/// itself; where it is not the vendor's entry for that id, with the name of the model too.
pub open spec fn vendor_fields(
    base: JsonView,
    renamed: bool,
    spec: SpecView,
    priority: u64,
) -> JsonView {
    let name = shown_name(spec);
    let e0 = base.put("model"@, JsonView::Str(spec.model)).put("slug"@, JsonView::Str(spec.model));
    let e1 = if renamed {
        e0.put("display_name"@, JsonView::Str(name)).put("description"@, JsonView::Str(name)).put(
            "priority"@,
            number(priority),
        )
    } else {
        e0
    };
    let e2 = match spec.display_name {
        Some(name) => e1.put("display_name"@, JsonView::Str(name)),
        None => e1,
    };
    let e3 = match spec.context_window {
        Some(n) => e2.put("context_window"@, number(n)).put("max_context_window"@, number(n)),
        None => e2,
    };
    let e4 = match spec.supports_parallel_tool_calls {
        Some(on) => e3.put("supports_parallel_tool_calls"@, JsonView::Bool(on)),
        None => e3,
    };
    let e5 = match spec.input_modalities {
        Some(kinds) => e4.put("input_modalities"@, text_array(kinds)),
        None => e4,
    };
    match filled(spec.base_instructions) {
        Some(t) => e5.put("base_instructions"@, JsonView::Str(t)),
        None => e5,
    }
}

/// The catalog entry of a model by its vendor's own catalog. `alias_of` is the model that a public
/// alias stands for.
pub open spec fn vendor_entry(
    vendor: Seq<JsonView>,
    spec: SpecView,
    priority: u64,
    alias_of: Option<Seq<char>>,
    fallback: Option<JsonView>,
) -> JsonView {
    let wanted = match filled(alias_of) {
        Some(model) => model,
        None => spec.model,
    };
    let matched = vendor_match(vendor, wanted);
    let base = match matched {
        Some(i) => vendor[i],
        None => if vendor.len() > 0 {
            vendor[0]
        } else {
            JsonView::empty_object()
        },
    };
    if base is Object {
        aliased(
            with_required_fields(
                vendor_fields(base, matched is None || alias_of is Some, spec, priority),
                fallback,
            ),
        )
    } else {
        JsonView::empty_object()
    }
}

/// The position of the first vendor entry for a model.
fn find_vendor_entry(vendor_models: &Vec<Json>, model: &str) -> (r: Option<usize>)
    ensures
        match r {
            Some(i) => i < vendor_models@.len() && vendor_match(
                json::items_view(vendor_models@),
                model@,
            ) == Some(i as int),
            None => vendor_match(json::items_view(vendor_models@), model@) is None,
        },
{
    let ghost views = json::items_view(vendor_models@);
    let mut found: Option<usize> = None;
    let mut i: usize = 0;
    while i < vendor_models.len()
        invariant
            i <= vendor_models@.len(),
            views == json::items_view(vendor_models@),
            match found {
                Some(k) => k < i && vendor_match(views.take(i as int), model@) == Some(k as int),
                None => vendor_match(views.take(i as int), model@) is None,
            },
        decreases vendor_models@.len() - i,
    {
        proof {
            json::lemma_items_view(vendor_models@);
            assert(views.take(i + 1).drop_last() =~= views.take(i as int));
            assert(views.take(i + 1).last() == vendor_models@[i as int].view());
        }
        if found.is_none() {
            if let Some(slug) = vendor_models[i].get_str("slug") {
                if slug.eq_ignore_ascii_case(model) {
                    found = Some(i);
                }
            }
        }
        i += 1;
    }
    proof {
        json::lemma_items_view(vendor_models@);
        assert(views.take(i as int) =~= views);
    }
    found
}

/// The catalog entry of a model by its vendor's own catalog. A model that the vendor does not list
/// takes over what its first entry says. The public name is always the given one, and what the
/// settings say of the model goes before what the vendor says.
pub fn codex_vendor_catalog_model_entry(
    vendor_models: &Vec<Json>,
    spec: &CodexCatalogModelSpec,
    priority: u64,
    template_model: Option<&str>,
    static_template: Option<&Json>,
) -> (r: Json)
    ensures
        r@ == vendor_entry(
            json::items_view(vendor_models@),
            spec@,
            place_of(priority as nat),
            text::slice_text(template_model),
            json::ref_view(static_template),
        ),
{
    let wanted: &str = match template_model {
        Some(model) => {
            let model = model.trim();
            if model.is_empty() {
                spec.model.as_str()
            } else {
                model
            }
        },
        None => spec.model.as_str(),
    };
    proof {
        json::lemma_items_view(vendor_models@);
    }
    let matched = find_vendor_entry(vendor_models, wanted);
    let mut entry = match matched {
        Some(i) => vendor_models[i].clone(),
        None => if vendor_models.len() > 0 {
            vendor_models[0].clone()
        } else {
            Json::object()
        },
    };
    if !entry.is_object() {
        return Json::object();
    }
    entry.insert("model", Json::string(spec.model.as_str()));
    entry.insert("slug", Json::string(spec.model.as_str()));
    if matched.is_none() || template_model.is_some() {
        let name = name_to_show(spec);
        entry.insert("display_name", Json::string(name));
        entry.insert("description", Json::string(name));
        entry.insert("priority", Json::number(priority.saturating_add(1000)));
    }
    if let Some(name) = &spec.display_name {
        entry.insert("display_name", Json::string(name.as_str()));
    }
    if let Some(window) = spec.context_window {
        entry.insert("context_window", Json::number(window));
        entry.insert("max_context_window", Json::number(window));
    }
    if let Some(on) = spec.supports_parallel_tool_calls {
        entry.insert("supports_parallel_tool_calls", Json::Bool(on));
    }
    if let Some(kinds) = &spec.input_modalities {
        entry.insert("input_modalities", string_array(kinds));
    }
    if let Some(t) = filled_text(&spec.base_instructions) {
        entry.insert("base_instructions", Json::Str(t));
    }
    fill_template_fields_from_static(&mut entry, static_template);
    codex_catalog_add_camel_case_aliases(&mut entry);
    entry
}

} // verus!
