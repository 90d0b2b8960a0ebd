//! What holds of every generated catalog entry.

use crate::catalog_entry::{CodexCatalogToolProfile, ImageInputCapability};
use crate::json::JsonView;
use crate::model_specs::SpecView;
use crate::routed_catalog::CapabilityTable;
use crate::{catalog, catalog_entry, json, model_specs, models_cache, routed_catalog, text};
use vstd::prelude::*;
use vstd::string::*;

verus! {

/// Whether a name is one that the desktop application reads, and that an entry is given.
pub open spec fn is_second_name(key: Seq<char>) -> bool {
    ||| key == "displayName"@
    ||| key == "contextWindow"@
    ||| key == "maxContextWindow"@
    ||| key == "defaultReasoningEffort"@
    ||| key == "inputModalities"@
    ||| key == "baseInstructions"@
    ||| key == "supportsParallelToolCalls"@
    ||| key == "additionalSpeedTiers"@
    ||| key == "serviceTiers"@
    ||| key == "availabilityNux"@
    ||| key == "supportedReasoningEfforts"@
}

/// The name that the command line reads for one that the desktop application reads.
pub open spec fn is_pair(first: Seq<char>, second: Seq<char>) -> bool {
    ||| first == "display_name"@ && second == "displayName"@
    ||| first == "context_window"@ && second == "contextWindow"@
    ||| first == "max_context_window"@ && second == "maxContextWindow"@
    ||| first == "default_reasoning_level"@ && second == "defaultReasoningEffort"@
    ||| first == "input_modalities"@ && second == "inputModalities"@
    ||| first == "base_instructions"@ && second == "baseInstructions"@
    ||| first == "supports_parallel_tool_calls"@ && second == "supportsParallelToolCalls"@
    ||| first == "additional_speed_tiers"@ && second == "additionalSpeedTiers"@
    ||| first == "service_tiers"@ && second == "serviceTiers"@
    ||| first == "availability_nux"@ && second == "availabilityNux"@
}

/// The names differ.
pub proof fn lemma_second_names()
    ensures
        "displayName"@.len() == 11 && "displayName"@[7] == 'N',
        "contextWindow"@.len() == 13 && "contextWindow"@[7] == 'W',
        "maxContextWindow"@.len() == 16 && "maxContextWindow"@[3] == 'C',
        "defaultReasoningEffort"@.len() == 22 && "defaultReasoningEffort"@[7] == 'R',
        "inputModalities"@.len() == 15 && "inputModalities"@[5] == 'M',
        "baseInstructions"@.len() == 16 && "baseInstructions"@[4] == 'I',
        "supportsParallelToolCalls"@.len() == 25 && "supportsParallelToolCalls"@[8] == 'P',
        "additionalSpeedTiers"@.len() == 20 && "additionalSpeedTiers"@[10] == 'S',
        "serviceTiers"@.len() == 12 && "serviceTiers"@[7] == 'T',
        "availabilityNux"@.len() == 15 && "availabilityNux"@[12] == 'N',
        "supportedReasoningEfforts"@.len() == 25 && "supportedReasoningEfforts"@[9] == 'R',
        "inputModalities"@[0] == 'i' && "availabilityNux"@[0] == 'a',
        "maxContextWindow"@[0] == 'm' && "baseInstructions"@[0] == 'b',
        "supportsParallelToolCalls"@[9] == 'a',
{
    reveal_strlit("displayName");
    reveal_strlit("contextWindow");
    reveal_strlit("maxContextWindow");
    reveal_strlit("defaultReasoningEffort");
    reveal_strlit("inputModalities");
    reveal_strlit("baseInstructions");
    reveal_strlit("supportsParallelToolCalls");
    reveal_strlit("additionalSpeedTiers");
    reveal_strlit("serviceTiers");
    reveal_strlit("availabilityNux");
    reveal_strlit("supportedReasoningEfforts");
}

/// The names that the command line reads are none of those of the desktop application.
pub proof fn lemma_first_names()
    ensures
        !is_second_name("display_name"@),
        !is_second_name("context_window"@),
        !is_second_name("max_context_window"@),
        !is_second_name("default_reasoning_level"@),
        !is_second_name("input_modalities"@),
        !is_second_name("base_instructions"@),
        !is_second_name("supports_parallel_tool_calls"@),
        !is_second_name("additional_speed_tiers"@),
        !is_second_name("service_tiers"@),
        !is_second_name("availability_nux"@),
{
    lemma_second_names();
    reveal_strlit("display_name");
    reveal_strlit("context_window");
    reveal_strlit("max_context_window");
    reveal_strlit("default_reasoning_level");
    reveal_strlit("input_modalities");
    reveal_strlit("base_instructions");
    reveal_strlit("supports_parallel_tool_calls");
    reveal_strlit("additional_speed_tiers");
    reveal_strlit("service_tiers");
    reveal_strlit("availability_nux");
    assert("display_name"@.len() == 12 && "display_name"@[7] == '_');
    assert("context_window"@.len() == 14);
    assert("max_context_window"@.len() == 18);
    assert("default_reasoning_level"@.len() == 23);
    assert("input_modalities"@.len() == 16 && "input_modalities"@[0] == 'i');
    assert("base_instructions"@.len() == 17);
    assert("supports_parallel_tool_calls"@.len() == 28);
    assert("additional_speed_tiers"@.len() == 22 && "additional_speed_tiers"@[0] == 'a');
    assert("service_tiers"@.len() == 13 && "service_tiers"@[0] == 's');
    assert("availability_nux"@.len() == 16 && "availability_nux"@[0] == 'a');
    assert("defaultReasoningEffort"@[0] == 'd') by {
        reveal_strlit("defaultReasoningEffort");
    }
    assert("contextWindow"@[0] == 'c') by {
        reveal_strlit("contextWindow");
    }
}

/// Giving an entry its second names changes nothing under other names.
pub proof fn lemma_aliased_keeps(entry: JsonView, key: Seq<char>)
    requires
        !is_second_name(key),
    ensures
        catalog_entry::aliased(entry).get(key) == entry.get(key),
        catalog_entry::aliased(entry) is Object == entry is Object,
{
}

/// An entry that has a field under the name that the command line reads has it under the one that
/// the desktop application reads too: with the same value, unless it came with one of its own.
pub proof fn law_every_field_has_both_names(entry: JsonView, first: Seq<char>, second: Seq<char>)
    requires
        is_pair(first, second),
        entry.get(first) is Some,
    ensures
        catalog_entry::aliased(entry).get(first) == entry.get(first),
        catalog_entry::aliased(entry).get(second) == (if entry.get(second) is Some {
            entry.get(second)
        } else {
            entry.get(first)
        }),
{
    lemma_second_names();
    lemma_first_names();
    lemma_aliased_keeps(entry, first);
}

/// For a gateway that takes no freeform tools an entry offers none, and edits go through the shell.
pub proof fn law_native_entries_offer_no_freeform_tools(
    template: JsonView,
    spec: SpecView,
    priority: u64,
    profile: CodexCatalogToolProfile,
    window: u64,
    capability: ImageInputCapability,
)
    requires
        template is Object,
        profile != CodexCatalogToolProfile::ProxyChat,
    ensures
        ({
            let entry = catalog_entry::model_entry(
                template,
                spec,
                priority,
                profile,
                window,
                capability,
            );
            &&& entry.get("apply_patch_tool_type"@) is None
            &&& entry.get("web_search_tool_type"@) is None
            &&& entry.get("tools"@) is None
            &&& entry.get("model_messages"@) is None
            &&& entry.get_text("shell_type"@) == Some("shell_command"@)
        }),
{
    lemma_second_names();
    lemma_entry_names();
    let basic = catalog_entry::basic_entry(template, spec, priority, window, capability);
    let clean = catalog_entry::without_freeform_tools(basic, spec);
    lemma_aliased_keeps(clean, "apply_patch_tool_type"@);
    lemma_aliased_keeps(clean, "web_search_tool_type"@);
    lemma_aliased_keeps(clean, "tools"@);
    lemma_aliased_keeps(clean, "model_messages"@);
    lemma_aliased_keeps(clean, "shell_type"@);
}

/// An entry that was made from a template has the id of its model, and a priority by which it is
/// known as one that this application has made.
pub proof fn law_generated_entries_are_known(
    template: JsonView,
    spec: SpecView,
    priority: u64,
    profile: CodexCatalogToolProfile,
    window: u64,
    capability: ImageInputCapability,
)
    requires
        template is Object,
        priority >= 1000,
    ensures
        ({
            let entry = catalog_entry::model_entry(
                template,
                spec,
                priority,
                profile,
                window,
                capability,
            );
            &&& entry.get_text("slug"@) == Some(spec.model)
            &&& models_cache::has_own_priority(entry)
        }),
{
    lemma_second_names();
    lemma_entry_names();
    let basic = catalog_entry::basic_entry(template, spec, priority, window, capability);
    let clean = catalog_entry::without_freeform_tools(basic, spec);
    assert(basic.get("slug"@) == Some(JsonView::Str(spec.model)));
    assert(basic.get("priority"@) == Some(catalog_entry::number(priority)));
    assert(clean.get("slug"@) == basic.get("slug"@));
    assert(clean.get("priority"@) == basic.get("priority"@));
    lemma_aliased_keeps(basic, "slug"@);
    lemma_aliased_keeps(basic, "priority"@);
    lemma_aliased_keeps(clean, "slug"@);
    lemma_aliased_keeps(clean, "priority"@);
}

/// The names that an entry is given differ.
pub proof fn lemma_entry_names()
    ensures
        "slug"@.len() == 4,
        "model"@.len() == 5,
        "tools"@.len() == 5,
        "upgrade"@.len() == 7,
        "priority"@.len() == 8,
        "shell_type"@.len() == 10,
        "description"@.len() == 11,
        "display_name"@.len() == 12,
        "service_tiers"@.len() == 13,
        "context_window"@.len() == 14 && "context_window"@[0] == 'c',
        "model_messages"@.len() == 14 && "model_messages"@[0] == 'm',
        "input_modalities"@.len() == 16 && "input_modalities"@[0] == 'i',
        "availability_nux"@.len() == 16 && "availability_nux"@[0] == 'a',
        "base_instructions"@.len() == 17,
        "max_context_window"@.len() == 18,
        "web_search_tool_type"@.len() == 20 && "web_search_tool_type"@[10] == '_',
        "apply_patch_tool_type"@.len() == 21,
        "additional_speed_tiers"@.len() == 22,
        "supports_parallel_tool_calls"@.len() == 28,
{
    reveal_strlit("slug");
    reveal_strlit("model");
    reveal_strlit("tools");
    reveal_strlit("upgrade");
    reveal_strlit("priority");
    reveal_strlit("shell_type");
    reveal_strlit("description");
    reveal_strlit("display_name");
    reveal_strlit("service_tiers");
    reveal_strlit("context_window");
    reveal_strlit("model_messages");
    reveal_strlit("input_modalities");
    reveal_strlit("availability_nux");
    reveal_strlit("base_instructions");
    reveal_strlit("max_context_window");
    reveal_strlit("web_search_tool_type");
    reveal_strlit("apply_patch_tool_type");
    reveal_strlit("additional_speed_tiers");
    reveal_strlit("supports_parallel_tool_calls");
}

/// The names in a row of a provider's own catalog differ.
proof fn lemma_row_names()
    ensures
        "model"@.len() == 5,
        "displayName"@.len() == 11,
        "display_name"@.len() == 12,
        "contextWindow"@.len() == 13,
        "context_window"@.len() == 14,
        "inputModalities"@.len() == 15,
        "input_modalities"@.len() == 16,
        "baseInstructions"@.len() == 16,
        "base_instructions"@.len() == 17,
        "supportsParallelToolCalls"@.len() == 25,
        "supports_parallel_tool_calls"@.len() == 28,
{
    lemma_second_names();
    lemma_entry_names();
}

/// Whether a model that is said to take what it is judged to take is judged to take it.
pub open spec fn judged_as_declared(spec: SpecView, capabilities: CapabilityTable) -> bool {
    let kinds = catalog_entry::modalities(
        capabilities.capability(spec.model, spec.input_modalities),
    );
    kinds == catalog_entry::modalities(capabilities.capability(spec.model, None)) || kinds
        == catalog_entry::modalities(capabilities.capability(spec.model, Some(kinds)))
}

/// Whether a model is given as settings give one: with a trimmed name that is not blank, and with a
/// name to show and a context window that say something, where it has them.
pub open spec fn well_given(spec: SpecView) -> bool {
    &&& text::trim(spec.model) == spec.model
    &&& !text::is_blank(spec.model)
    &&& (spec.display_name matches Some(name) ==> text::trim(name) == name && !text::is_blank(name))
    &&& (spec.context_window matches Some(n) ==> n > 0)
}

/// What is left of a model's settings once they went through its generated entry: a field that says
/// no more than what would be written without it stays blank.
pub open spec fn kept_settings(
    spec: SpecView,
    entry: JsonView,
    window: u64,
    capability: ImageInputCapability,
    capabilities: CapabilityTable,
) -> SpecView {
    let kinds = catalog_entry::modalities(capability);
    SpecView {
        model: spec.model,
        display_name: if spec.display_name == Some(spec.model) {
            None
        } else {
            spec.display_name
        },
        context_window: if spec.context_window == Some(window) {
            None
        } else {
            spec.context_window
        },
        supports_parallel_tool_calls: model_specs::flag(
            entry.get("supports_parallel_tool_calls"@),
        ),
        input_modalities: if kinds == catalog_entry::modalities(
            capabilities.capability(spec.model, None),
        ) {
            None
        } else {
            Some(kinds)
        },
        base_instructions: None,
    }
}

/// The strings in an array of strings are those that it was made of.
proof fn lemma_text_array(list: Seq<Seq<char>>)
    ensures
        catalog_entry::text_array(list).items() matches Some(items)
            && model_specs::text_items(items) == list,
    decreases list.len(),
{
    let to_json = |t: Seq<char>| JsonView::Str(t);
    let items = list.map_values(to_json);
    if list.len() > 0 {
        lemma_text_array(list.drop_last());
        assert(items.drop_last() =~= list.drop_last().map_values(to_json));
        assert(list.drop_last().push(list.last()) =~= list);
    }
}

/// What a generated entry says of its model.
proof fn lemma_generated_fields(
    template: JsonView,
    spec: SpecView,
    priority: u64,
    profile: CodexCatalogToolProfile,
    window: u64,
    capability: ImageInputCapability,
)
    requires
        template is Object,
    ensures
        ({
            let entry = catalog_entry::model_entry(
                template,
                spec,
                priority,
                profile,
                window,
                capability,
            );
            &&& entry.get("slug"@) == Some(JsonView::Str(spec.model))
            &&& entry.get("display_name"@) == Some(JsonView::Str(catalog_entry::shown_name(spec)))
            &&& entry.get("context_window"@) == Some(
                catalog_entry::number(
                    match spec.context_window {
                        Some(n) => n,
                        None => window,
                    },
                ),
            )
            &&& entry.get("input_modalities"@) == Some(
                catalog_entry::text_array(catalog_entry::modalities(capability)),
            )
            &&& entry.get("supports_parallel_tool_calls"@) == (if profile
                != CodexCatalogToolProfile::ProxyChat && spec.supports_parallel_tool_calls is Some {
                Some(JsonView::Bool(spec.supports_parallel_tool_calls->Some_0))
            } else {
                template.get("supports_parallel_tool_calls"@)
            })
        }),
{
    lemma_first_names();
    lemma_entry_names();
    let basic = catalog_entry::basic_entry(template, spec, priority, window, capability);
    let clean = catalog_entry::without_freeform_tools(basic, spec);
    let entry = if profile == CodexCatalogToolProfile::ProxyChat {
        basic
    } else {
        clean
    };
    assert(!is_second_name("slug"@)) by {
        lemma_second_names();
    }
    lemma_aliased_keeps(entry, "slug"@);
    lemma_aliased_keeps(entry, "display_name"@);
    lemma_aliased_keeps(entry, "context_window"@);
    lemma_aliased_keeps(entry, "input_modalities"@);
    lemma_aliased_keeps(entry, "supports_parallel_tool_calls"@);
}

/// What an entry with the fields of a model gives back.
proof fn lemma_row_reads_back(
    entry: JsonView,
    spec: SpecView,
    window: u64,
    capability: ImageInputCapability,
    capabilities: CapabilityTable,
)
    requires
        well_given(spec),
        entry.get("slug"@) == Some(JsonView::Str(spec.model)),
        entry.get("display_name"@) == Some(JsonView::Str(catalog_entry::shown_name(spec))),
        entry.get("context_window"@) == Some(
            catalog_entry::number(
                match spec.context_window {
                    Some(n) => n,
                    None => window,
                },
            ),
        ),
        entry.get("input_modalities"@) == Some(
            catalog_entry::text_array(catalog_entry::modalities(capability)),
        ),
    ensures
        ({
            let row = catalog::simplified_entry(entry, window, capabilities);
            &&& row is Some
            &&& model_specs::trimmed(row->Some_0.get("model"@)) == Some(spec.model)
            &&& model_specs::spec_of(row->Some_0, spec.model) == kept_settings(
                spec,
                entry,
                window,
                capability,
                capabilities,
            )
        }),
{
    lemma_row_names();
    let kinds = catalog_entry::modalities(capability);
    lemma_text_array(kinds);
    let row = catalog::simplified_entry(entry, window, capabilities)->Some_0;
    let kept = kept_settings(spec, entry, window, capability, capabilities);
    let read = model_specs::spec_of(row, spec.model);
    assert(row.get("base_instructions"@) is None);
    assert(row.get("baseInstructions"@) is None);
    assert(row.get("display_name"@) is None);
    assert(row.get("context_window"@) is None);
    assert(row.get("supports_parallel_tool_calls"@) is None);
    assert(row.get("input_modalities"@) is None);
    assert(read.display_name == kept.display_name);
    assert(read.context_window == kept.context_window);
    assert(read.supports_parallel_tool_calls == kept.supports_parallel_tool_calls);
    assert(read.input_modalities == kept.input_modalities);
}

/// A generated catalog entry gives back what the settings said of its model: the name, the name to
/// show, the context window, the kinds of input and whether tools may be called in parallel. A
/// field that the user left blank, or that says what is written anyway, comes back blank.
pub proof fn law_a_generated_entry_reads_back(
    template: JsonView,
    spec: SpecView,
    priority: u64,
    profile: CodexCatalogToolProfile,
    window: u64,
    capability: ImageInputCapability,
    capabilities: CapabilityTable,
)
    requires
        template is Object,
        well_given(spec),
    ensures
        ({
            let entry = catalog_entry::model_entry(
                template,
                spec,
                priority,
                profile,
                window,
                capability,
            );
            let row = catalog::simplified_entry(entry, window, capabilities);
            &&& row is Some
            &&& model_specs::trimmed(row->Some_0.get("model"@)) == Some(spec.model)
            &&& model_specs::spec_of(row->Some_0, spec.model) == kept_settings(
                spec,
                entry,
                window,
                capability,
                capabilities,
            )
        }),
{
    lemma_generated_fields(template, spec, priority, profile, window, capability);
    let entry = catalog_entry::model_entry(template, spec, priority, profile, window, capability);
    lemma_row_reads_back(entry, spec, window, capability, capabilities);
}

/// Saving what a generated entry gave back writes the same entry again. What is not given back is
/// the model's own instructions, so it has none; and what it is said to take as input has to be
/// what it is judged to take.
pub proof fn law_saving_again_writes_the_same_entry(
    template: JsonView,
    spec: SpecView,
    priority: u64,
    profile: CodexCatalogToolProfile,
    window: u64,
    capabilities: CapabilityTable,
)
    requires
        template is Object,
        well_given(spec),
        profile == CodexCatalogToolProfile::ProxyChat || catalog_entry::filled(
            spec.base_instructions,
        ) is None,
        judged_as_declared(spec, capabilities),
    ensures
        ({
            let capability = capabilities.capability(spec.model, spec.input_modalities);
            let entry = catalog_entry::model_entry(
                template,
                spec,
                priority,
                profile,
                window,
                capability,
            );
            let kept = kept_settings(spec, entry, window, capability, capabilities);
            catalog_entry::model_entry(
                template,
                kept,
                priority,
                profile,
                window,
                capabilities.capability(kept.model, kept.input_modalities),
            ) == entry
        }),
{
    let capability = capabilities.capability(spec.model, spec.input_modalities);
    lemma_generated_fields(template, spec, priority, profile, window, capability);
    lemma_entry_names();
    let entry = catalog_entry::model_entry(template, spec, priority, profile, window, capability);
    let kept = kept_settings(spec, entry, window, capability, capabilities);
    let capability2 = capabilities.capability(kept.model, kept.input_modalities);
    let basic = catalog_entry::basic_entry(template, spec, priority, window, capability);
    assert(catalog_entry::basic_entry(template, kept, priority, window, capability2) == basic);
    if profile != CodexCatalogToolProfile::ProxyChat {
        let clean = catalog_entry::without_freeform_tools(basic, spec);
        let again = catalog_entry::without_freeform_tools(basic, kept);
        assert(clean.get("supports_parallel_tool_calls"@) == entry.get(
            "supports_parallel_tool_calls"@,
        ));
        assert(clean->Object_0 =~= again->Object_0);
    }
}

/// The models that settings give are well given.
proof fn lemma_specs_well_given(items: Seq<JsonView>)
    ensures
        forall|i: int|
            0 <= i < model_specs::specs_of(items).len() ==> well_given(
                #[trigger] model_specs::specs_of(items)[i],
            ),
    decreases items.len(),
{
    if items.len() > 0 {
        lemma_specs_well_given(items.drop_last());
        let item = items.last();
        match item.get_text("model"@) {
            Some(t) => text::lemma_trimmed(t),
            None => {},
        }
        match model_specs::either(item, "displayName"@, "display_name"@) {
            Some(JsonView::Str(t)) => text::lemma_trimmed(t),
            _ => {},
        }
        let front = model_specs::specs_of(items.drop_last());
        let all = model_specs::specs_of(items);
        assert forall|i: int| 0 <= i < all.len() implies well_given(#[trigger] all[i]) by {
            if i < front.len() {
                assert(all[i] == front[i]);
            }
        }
    }
}

/// Rows that name different models give one model each.
proof fn lemma_rows_give_their_models(rows: Seq<JsonView>, specs: Seq<SpecView>)
    requires
        rows.len() == specs.len(),
        forall|i: int|
            0 <= i < rows.len() ==> model_specs::trimmed((#[trigger] rows[i]).get("model"@)) == Some(
                specs[i].model,
            ) && model_specs::spec_of(rows[i], specs[i].model) == specs[i],
        forall|i: int, j: int|
            0 <= i < j < specs.len() ==> (#[trigger] specs[i]).model != (#[trigger] specs[j]).model,
    ensures
        model_specs::specs_of(rows) == specs,
    decreases rows.len(),
{
    if rows.len() > 0 {
        let front = rows.drop_last();
        let before = specs.drop_last();
        assert forall|i: int| 0 <= i < front.len() implies model_specs::trimmed(
            (#[trigger] front[i]).get("model"@),
        ) == Some(before[i].model) && model_specs::spec_of(front[i], before[i].model)
            == before[i] by {
            assert(front[i] == rows[i]);
        }
        lemma_rows_give_their_models(front, before);
        assert(rows[rows.len() - 1] == rows.last());
        assert(!model_specs::lists_model(before, specs.last().model)) by {
            assert forall|i: int| 0 <= i < before.len() implies (#[trigger] before[i]).model
                != specs.last().model by {
                assert(before[i] == specs[i]);
                assert(specs[specs.len() - 1] == specs.last());
            }
        }
        assert(before.push(specs.last()) =~= specs);
    } else {
        assert(specs =~= Seq::<SpecView>::empty());
    }
}

/// Entries that all have a name give one row each.
proof fn lemma_one_row_each(
    entries: Seq<JsonView>,
    window: u64,
    capabilities: CapabilityTable,
)
    requires
        forall|i: int|
            0 <= i < entries.len() ==> catalog::simplified_entry(
                #[trigger] entries[i],
                window,
                capabilities,
            ) is Some,
    ensures
        ({
            let rows = catalog::simplified_entries(entries, window, capabilities);
            &&& rows.len() == entries.len()
            &&& forall|i: int|
                0 <= i < entries.len() ==> Some(#[trigger] rows[i]) == catalog::simplified_entry(
                    entries[i],
                    window,
                    capabilities,
                )
        }),
    decreases entries.len(),
{
    if entries.len() > 0 {
        let front = entries.drop_last();
        assert forall|i: int| 0 <= i < front.len() implies catalog::simplified_entry(
            #[trigger] front[i],
            window,
            capabilities,
        ) is Some by {
            assert(front[i] == entries[i]);
        }
        lemma_one_row_each(front, window, capabilities);
        assert(entries[entries.len() - 1] == entries.last());
    }
}

/// Whether an entry says the same as another of its model's name, the name to show and the context
/// window.
pub open spec fn names_alike(read: JsonView, entry: JsonView) -> bool {
    &&& read.get("slug"@) == entry.get("slug"@)
    &&& read.get("display_name"@) == entry.get("display_name"@)
    &&& read.get("context_window"@) == entry.get("context_window"@)
}

/// What a row says of the name to show: nothing where it is blank, or the model's name anyway.
pub open spec fn row_name(spec: SpecView) -> Option<JsonView> {
    match catalog_entry::filled(spec.display_name) {
        Some(name) => if name != spec.model {
            Some(JsonView::Str(name))
        } else {
            None
        },
        None => None,
    }
}

/// What a row says of the context window: nothing where it is the one of every model.
pub open spec fn row_window(spec: SpecView, window: u64) -> Option<JsonView> {
    match spec.context_window {
        Some(n) => if n != window {
            Some(catalog_entry::number(n))
        } else {
            None
        },
        None => None,
    }
}

/// What an entry with the names of a model gives back of them.
proof fn lemma_names_read_back(
    read: JsonView,
    spec: SpecView,
    window: u64,
    capabilities: CapabilityTable,
)
    requires
        text::trim(spec.model) == spec.model,
        !text::is_blank(spec.model),
        spec.context_window matches Some(n) ==> n > 0,
        read.get("slug"@) == Some(JsonView::Str(spec.model)),
        read.get("display_name"@) == Some(JsonView::Str(catalog_entry::shown_name(spec))),
        read.get("context_window"@) == Some(
            catalog_entry::number(
                match spec.context_window {
                    Some(n) => n,
                    None => window,
                },
            ),
        ),
    ensures
        ({
            let row = catalog::simplified_entry(read, window, capabilities);
            &&& row is Some
            &&& row->Some_0.get("model"@) == Some(JsonView::Str(spec.model))
            &&& row->Some_0.get("displayName"@) == row_name(spec)
            &&& row->Some_0.get("contextWindow"@) == row_window(spec, window)
        }),
{
    lemma_row_names();
}

/// The text of a generated catalog, next to a config, gives back the models that it was made from, in
/// their order: each with its name, its name to show, trimmed, and its context window, the last two
/// where they say something of their own. What is known of the text is what it says of these.
pub proof fn law_the_text_of_a_catalog_gives_its_models_back(
    config: Seq<char>,
    catalog_text: Seq<char>,
    specs: Seq<SpecView>,
    template: JsonView,
    profile: CodexCatalogToolProfile,
    capabilities: CapabilityTable,
)
    requires
        template is Object,
        specs.len() > 0,
        forall|i: int|
            0 <= i < specs.len() ==> text::trim((#[trigger] specs[i]).model) == specs[i].model
                && !text::is_blank(specs[i].model) && (specs[i].context_window matches Some(n)
                ==> n > 0),
        ({
            let window = routed_catalog::config_window(Some(config));
            let entries = catalog::spec_entries(specs, template, profile, window, capabilities);
            json::json_text(catalog_text) matches Some(read) && (read.get_items("models"@) matches Some(
                items,
            ) && items.len() == entries.len() && forall|i: int|
                0 <= i < items.len() ==> names_alike(#[trigger] items[i], entries[i]))
        }),
    ensures
        ({
            let window = routed_catalog::config_window(Some(config));
            catalog::simplified(json::json_text(catalog_text), window, capabilities) matches Some(
                settings,
            ) && (settings.get_items("models"@) matches Some(rows) && rows.len() == specs.len()
                && forall|i: int|
                0 <= i < rows.len() ==> {
                    &&& (#[trigger] rows[i]).get("model"@) == Some(JsonView::Str(specs[i].model))
                    &&& rows[i].get("displayName"@) == row_name(specs[i])
                    &&& rows[i].get("contextWindow"@) == row_window(specs[i], window)
                })
        }),
{
    let window = routed_catalog::config_window(Some(config));
    let entries = catalog::spec_entries(specs, template, profile, window, capabilities);
    let items = json::json_text(catalog_text)->Some_0.get_items("models"@)->Some_0;
    let rows = catalog::simplified_entries(items, window, capabilities);
    assert forall|i: int| 0 <= i < items.len() implies ({
        let row = catalog::simplified_entry(#[trigger] items[i], window, capabilities);
        &&& row is Some
        &&& row->Some_0.get("model"@) == Some(JsonView::Str(specs[i].model))
        &&& row->Some_0.get("displayName"@) == row_name(specs[i])
        &&& row->Some_0.get("contextWindow"@) == row_window(specs[i], window)
    }) by {
        let spec = specs[i];
        lemma_generated_fields(
            template,
            spec,
            catalog_entry::place_of(i as nat),
            profile,
            window,
            capabilities.capability(spec.model, spec.input_modalities),
        );
        assert(names_alike(items[i], entries[i]));
        lemma_names_read_back(items[i], spec, window, capabilities);
    }
    lemma_one_row_each(items, window, capabilities);
    let settings = catalog::catalog_with(rows);
    assert(settings.get("models"@) == Some(JsonView::Array(rows)));
    assert forall|i: int| 0 <= i < rows.len() implies {
        &&& (#[trigger] rows[i]).get("model"@) == Some(JsonView::Str(specs[i].model))
        &&& rows[i].get("displayName"@) == row_name(specs[i])
        &&& rows[i].get("contextWindow"@) == row_window(specs[i], window)
    } by {
        assert(Some(rows[i]) == catalog::simplified_entry(items[i], window, capabilities));
    }
}

/// The settings that are read back from a generated catalog list the same models, in the same
/// order, and the catalog that they are saved to is the same again. Own instructions are not read
/// back, so the models have none; and what a model is said to take as input has to be what it is
/// judged to take.
pub proof fn law_a_generated_catalog_is_saved_again(
    settings: JsonView,
    read_back: JsonView,
    template: JsonView,
    profile: CodexCatalogToolProfile,
    window: u64,
    capabilities: CapabilityTable,
)
    requires
        template is Object,
        model_specs::catalog_specs(settings).len() > 0,
        forall|i: int|
            0 <= i < model_specs::catalog_specs(settings).len() ==> judged_as_declared(
                #[trigger] model_specs::catalog_specs(settings)[i],
                capabilities,
            ) && (profile == CodexCatalogToolProfile::ProxyChat || catalog_entry::filled(
                model_specs::catalog_specs(settings)[i].base_instructions,
            ) is None),
        read_back.get("modelCatalog"@) == catalog::simplified(
            Some(
                catalog::catalog_with(
                    catalog::spec_entries(
                        model_specs::catalog_specs(settings),
                        template,
                        profile,
                        window,
                        capabilities,
                    ),
                ),
            ),
            window,
            capabilities,
        ),
    ensures
        read_back.get("modelCatalog"@) is Some,
        model_specs::catalog_specs(read_back).len() == model_specs::catalog_specs(settings).len(),
        forall|i: int|
            0 <= i < model_specs::catalog_specs(settings).len() ==> (
            #[trigger] model_specs::catalog_specs(read_back)[i]).model
                == model_specs::catalog_specs(settings)[i].model,
        catalog::spec_entries(
            model_specs::catalog_specs(read_back),
            template,
            profile,
            window,
            capabilities,
        ) == catalog::spec_entries(
            model_specs::catalog_specs(settings),
            template,
            profile,
            window,
            capabilities,
        ),
{
    let specs = model_specs::catalog_specs(settings);
    let entries = catalog::spec_entries(specs, template, profile, window, capabilities);
    let rows = catalog::simplified_entries(entries, window, capabilities);
    let kept = Seq::new(
        specs.len(),
        |i: int|
            kept_settings(
                specs[i],
                entries[i],
                window,
                capabilities.capability(specs[i].model, specs[i].input_modalities),
                capabilities,
            ),
    );
    let items = settings.get("modelCatalog"@)->Some_0.get_items("models"@)->Some_0;
    assert(specs == model_specs::specs_of(items));
    lemma_specs_well_given(items);
    assert forall|i: int| 0 <= i < specs.len() implies ({
        let row = catalog::simplified_entry(#[trigger] entries[i], window, capabilities);
        &&& row is Some
        &&& model_specs::trimmed(row->Some_0.get("model"@)) == Some(specs[i].model)
        &&& model_specs::spec_of(row->Some_0, specs[i].model) == kept[i]
    }) by {
        assert(well_given(specs[i]));
        law_a_generated_entry_reads_back(
            template,
            specs[i],
            catalog_entry::place_of(i as nat),
            profile,
            window,
            capabilities.capability(specs[i].model, specs[i].input_modalities),
            capabilities,
        );
    }
    lemma_one_row_each(entries, window, capabilities);
    model_specs::lemma_specs_once(items);
    assert forall|i: int| 0 <= i < rows.len() implies model_specs::trimmed(
        (#[trigger] rows[i]).get("model"@),
    ) == Some(kept[i].model) && model_specs::spec_of(rows[i], kept[i].model) == kept[i] by {
        assert(Some(rows[i]) == catalog::simplified_entry(entries[i], window, capabilities));
    }
    lemma_rows_give_their_models(rows, kept);
    assert(model_specs::catalog_specs(read_back) == kept);
    let again = catalog::spec_entries(kept, template, profile, window, capabilities);
    assert forall|i: int| 0 <= i < specs.len() implies #[trigger] again[i] == entries[i] by {
        assert(well_given(specs[i]));
        law_saving_again_writes_the_same_entry(
            template,
            specs[i],
            catalog_entry::place_of(i as nat),
            profile,
            window,
            capabilities,
        );
    }
    assert(again =~= entries);
}

/// Completing a template gives it the field that Codex refuses to do without, where the other
/// template has it: nothing else is added, and values that are there stay.
pub proof fn law_only_required_fields_are_filled(
    entry: JsonView,
    fallback: Option<JsonView>,
    key: Seq<char>,
)
    requires
        entry is Object,
    ensures
        ({
            let full = catalog_entry::with_required_fields(entry, fallback);
            full.get(key) == (if entry.get(key) is None && key == "supports_reasoning_summaries"@ {
                match fallback {
                    Some(fallback) => fallback.get(key),
                    None => None,
                }
            } else {
                entry.get(key)
            })
        }),
{
}

/// A vendor's entry for a model is one of its entries.
pub proof fn lemma_vendor_match(vendor: Seq<JsonView>, model: Seq<char>)
    ensures
        catalog_entry::vendor_match(vendor, model) matches Some(i) ==> 0 <= i < vendor.len(),
    decreases vendor.len(),
{
    if vendor.len() > 0 {
        lemma_vendor_match(vendor.drop_last(), model);
    }
}

/// What a vendor's entry says of a model.
proof fn lemma_vendor_fields(
    base: JsonView,
    renamed: bool,
    spec: SpecView,
    priority: u64,
    fallback: Option<JsonView>,
)
    requires
        base is Object,
    ensures
        ({
            let entry = catalog_entry::with_required_fields(
                catalog_entry::vendor_fields(base, renamed, spec, priority),
                fallback,
            );
            &&& entry is Object
            &&& spec.display_name is Some ==> entry.get_text("display_name"@) == spec.display_name
            &&& spec.context_window is Some ==> {
                &&& entry.get("context_window"@) == Some(
                    catalog_entry::number(spec.context_window->Some_0),
                )
                &&& entry.get("max_context_window"@) == entry.get("context_window"@)
            }
            &&& spec.supports_parallel_tool_calls is Some ==> model_specs::flag(
                entry.get("supports_parallel_tool_calls"@),
            ) == spec.supports_parallel_tool_calls
            &&& spec.input_modalities is Some ==> entry.get("input_modalities"@) == Some(
                catalog_entry::text_array(spec.input_modalities->Some_0),
            )
            &&& catalog_entry::filled(spec.base_instructions) is Some ==> entry.get_text(
                "base_instructions"@,
            ) == catalog_entry::filled(spec.base_instructions)
            &&& entry.get_text("slug"@) == Some(spec.model)
            &&& entry.get_text("model"@) == Some(spec.model)
            &&& renamed ==> {
                &&& entry.get_text("display_name"@) == Some(catalog_entry::shown_name(spec))
                &&& entry.get("priority"@) == Some(catalog_entry::number(priority))
            }
        }),
{
    lemma_entry_names();
    assert("supports_reasoning_summaries"@.len() == 28 && "supports_reasoning_summaries"@[9]
        == 'r') by {
        reveal_strlit("supports_reasoning_summaries");
    }
    assert("supports_parallel_tool_calls"@[9] == 'p') by {
        reveal_strlit("supports_parallel_tool_calls");
    }
}

/// What a user says of a model goes before what its vendor's catalog says of it. The model is known
/// by its own id, and an alias, or a model that the vendor does not list, by its own name too.
pub proof fn law_own_settings_go_before_the_vendor(
    vendor: Seq<JsonView>,
    spec: SpecView,
    priority: u64,
    alias_of: Option<Seq<char>>,
    fallback: Option<JsonView>,
)
    requires
        forall|i: int| 0 <= i < vendor.len() ==> (#[trigger] vendor[i]) is Object,
    ensures
        ({
            let entry = catalog_entry::vendor_entry(vendor, spec, priority, alias_of, fallback);
            &&& spec.display_name is Some ==> entry.get_text("display_name"@) == spec.display_name
            &&& spec.context_window is Some ==> {
                &&& entry.get("context_window"@) == Some(
                    catalog_entry::number(spec.context_window->Some_0),
                )
                &&& entry.get("max_context_window"@) == entry.get("context_window"@)
            }
            &&& spec.supports_parallel_tool_calls is Some ==> model_specs::flag(
                entry.get("supports_parallel_tool_calls"@),
            ) == spec.supports_parallel_tool_calls
            &&& spec.input_modalities is Some ==> entry.get("input_modalities"@) == Some(
                catalog_entry::text_array(spec.input_modalities->Some_0),
            )
            &&& catalog_entry::filled(spec.base_instructions) is Some ==> entry.get_text(
                "base_instructions"@,
            ) == catalog_entry::filled(spec.base_instructions)
            &&& entry.get_text("slug"@) == Some(spec.model)
            &&& entry.get_text("model"@) == Some(spec.model)
            &&& alias_of is Some || catalog_entry::vendor_match(vendor, spec.model) is None ==> {
                &&& entry.get_text("display_name"@) == Some(catalog_entry::shown_name(spec))
                &&& entry.get("priority"@) == Some(catalog_entry::number(priority))
            }
        }),
{
    let wanted = match catalog_entry::filled(alias_of) {
        Some(model) => model,
        None => spec.model,
    };
    let matched = catalog_entry::vendor_match(vendor, wanted);
    lemma_vendor_match(vendor, wanted);
    let base = match matched {
        Some(i) => vendor[i],
        None => if vendor.len() > 0 {
            vendor[0]
        } else {
            JsonView::empty_object()
        },
    };
    let renamed = matched is None || alias_of is Some;
    lemma_vendor_fields(base, renamed, spec, priority, fallback);
    let full = catalog_entry::with_required_fields(
        catalog_entry::vendor_fields(base, renamed, spec, priority),
        fallback,
    );
    lemma_first_names();
    lemma_entry_names();
    assert(!is_second_name("slug"@) && !is_second_name("model"@) && !is_second_name("priority"@))
        by {
        lemma_second_names();
    }
    lemma_aliased_keeps(full, "slug"@);
    lemma_aliased_keeps(full, "model"@);
    lemma_aliased_keeps(full, "priority"@);
    lemma_aliased_keeps(full, "display_name"@);
    lemma_aliased_keeps(full, "context_window"@);
    lemma_aliased_keeps(full, "max_context_window"@);
    lemma_aliased_keeps(full, "supports_parallel_tool_calls"@);
    lemma_aliased_keeps(full, "input_modalities"@);
    lemma_aliased_keeps(full, "base_instructions"@);
}

/// Whether every reasoning level has an effort.
pub open spec fn all_have_effort(levels: Seq<JsonView>) -> bool {
    forall|i: int| 0 <= i < levels.len() ==> (#[trigger] levels[i]).get("effort"@) is Some
}

/// Whether one list says in the words of the desktop application what another says of reasoning
/// levels: one element for each level, with its effort and, where it has one, its description.
pub open spec fn lists_efforts(efforts: Seq<JsonView>, levels: Seq<JsonView>) -> bool {
    &&& efforts.len() == levels.len()
    &&& forall|i: int|
        0 <= i < levels.len() ==> {
            &&& (#[trigger] efforts[i]).get("reasoningEffort"@) == levels[i].get("effort"@)
            &&& efforts[i].get("description"@) == levels[i].get("description"@)
        }
}

/// Levels that all have an effort are all listed.
proof fn lemma_efforts_listed(levels: Seq<JsonView>)
    requires
        all_have_effort(levels),
    ensures
        lists_efforts(catalog_entry::efforts_of(levels), levels),
    decreases levels.len(),
{
    if levels.len() > 0 {
        let front = levels.drop_last();
        assert forall|i: int| 0 <= i < front.len() implies (#[trigger] front[i]).get("effort"@)
            is Some by {
            assert(front[i] == levels[i]);
        }
        lemma_efforts_listed(front);
        let before = catalog_entry::efforts_of(front);
        let all = catalog_entry::efforts_of(levels);
        assert(levels[levels.len() - 1] == levels.last());
        reveal_strlit("reasoningEffort");
        reveal_strlit("description");
        assert("reasoningEffort"@.len() == 15);
        assert("description"@.len() == 11);
        assert forall|i: int| 0 <= i < levels.len() implies {
            &&& (#[trigger] all[i]).get("reasoningEffort"@) == levels[i].get("effort"@)
            &&& all[i].get("description"@) == levels[i].get("description"@)
        } by {
            if i < front.len() {
                assert(all[i] == before[i]);
                assert(front[i] == levels[i]);
            }
        }
    }
}

/// Where an entry has reasoning levels that all have an effort, and no list of them for the desktop
/// application yet, it is given one with all of them, in their order.
pub proof fn law_every_reasoning_level_is_offered(entry: JsonView, levels: Seq<JsonView>)
    requires
        entry.get("supportedReasoningEfforts"@) is None,
        entry.get("supported_reasoning_levels"@) == Some(JsonView::Array(levels)),
        levels.len() > 0,
        all_have_effort(levels),
    ensures
        catalog_entry::aliased(entry).get_items("supportedReasoningEfforts"@) matches Some(efforts)
            && lists_efforts(efforts, levels),
{
    lemma_second_names();
    reveal_strlit("supported_reasoning_levels");
    assert("supported_reasoning_levels"@.len() == 26);
    lemma_efforts_listed(levels);
}

/// A generated entry offers every reasoning level of its template.
pub proof fn law_generated_entries_offer_every_level(
    template: JsonView,
    spec: SpecView,
    priority: u64,
    profile: CodexCatalogToolProfile,
    window: u64,
    capability: ImageInputCapability,
    levels: Seq<JsonView>,
)
    requires
        template is Object,
        template.get("supportedReasoningEfforts"@) is None,
        template.get("supported_reasoning_levels"@) == Some(JsonView::Array(levels)),
        levels.len() > 0,
        all_have_effort(levels),
    ensures
        catalog_entry::model_entry(
            template,
            spec,
            priority,
            profile,
            window,
            capability,
        ).get_items("supportedReasoningEfforts"@) matches Some(efforts) && lists_efforts(
            efforts,
            levels,
        ),
{
    lemma_second_names();
    lemma_entry_names();
    reveal_strlit("supported_reasoning_levels");
    assert("supported_reasoning_levels"@.len() == 26);
    let basic = catalog_entry::basic_entry(template, spec, priority, window, capability);
    let clean = catalog_entry::without_freeform_tools(basic, spec);
    if profile == CodexCatalogToolProfile::ProxyChat {
        law_every_reasoning_level_is_offered(basic, levels);
    } else {
        law_every_reasoning_level_is_offered(clean, levels);
    }
}

} // verus!
