//! What each member of a catalog entry says, and where it comes from.

use crate::catalog_entry::{CodexCatalogToolProfile, ImageInputCapability};
use crate::json::JsonView;
use crate::model_specs::SpecView;
use crate::routed_catalog::CapabilityTable;
use crate::{catalog, catalog_entry, catalog_laws, text};
use vstd::prelude::*;
use vstd::string::*;

verus! {

/// Whether a member of a generated entry is set, whatever its template has there.
pub open spec fn is_set(key: Seq<char>) -> bool {
    ||| key == "model"@
    ||| key == "slug"@
    ||| key == "display_name"@
    ||| key == "description"@
    ||| key == "context_window"@
    ||| key == "max_context_window"@
    ||| key == "priority"@
    ||| key == "additional_speed_tiers"@
    ||| key == "service_tiers"@
    ||| key == "availability_nux"@
    ||| key == "upgrade"@
    ||| key == "input_modalities"@
}

/// Whether a member of an entry is set, or taken out, for a gateway that takes no freeform tools.
pub open spec fn is_set_for_native(key: Seq<char>) -> bool {
    ||| key == "apply_patch_tool_type"@
    ||| key == "web_search_tool_type"@
    ||| key == "tools"@
    ||| key == "model_messages"@
    ||| key == "shell_type"@
    ||| key == "base_instructions"@
    ||| key == "supports_parallel_tool_calls"@
}

/// The text of a setting that says something, without the white space around it.
pub open spec fn said(value: Option<Seq<char>>) -> Option<Seq<char>> {
    if value is Some && !text::is_blank(value->Some_0) {
        Some(text::trim(value->Some_0))
    } else {
        None
    }
}

/// Where a setting is given, it counts; where not, something else does.
pub open spec fn given_or<A>(value: Option<A>, other: A) -> A {
    if value is Some {
        value->Some_0
    } else {
        other
    }
}

/// The whole number in a member, where it is one.
pub open spec fn whole(value: Option<JsonView>) -> Option<u64> {
    if value is Some && value->Some_0 is Number && value->Some_0->Number_0 is Unsigned {
        Some(value->Some_0->Number_0->Unsigned_0)
    } else {
        None
    }
}

/// A generated entry is about its model: it has the model's id, its name and its window, where they
/// are given, the priority, and no tiers, notices or upgrades of the model that its template is for.
/// It takes images unless the model is known not to.
pub proof fn law_what_a_generated_entry_says(
    template: JsonView,
    spec: SpecView,
    priority: u64,
    profile: CodexCatalogToolProfile,
    window: u64,
    capability: ImageInputCapability,
)
    requires
        template is Object,
    ensures
        ({
            let entry = catalog_entry::model_entry(
                template,
                spec,
                priority,
                profile,
                window,
                capability,
            );
            let name = given_or(spec.display_name, spec.model);
            &&& entry.get("model"@) == Some(JsonView::Str(spec.model))
            &&& entry.get("slug"@) == Some(JsonView::Str(spec.model))
            &&& entry.get("display_name"@) == Some(JsonView::Str(name))
            &&& entry.get("description"@) == Some(JsonView::Str(name))
            &&& whole(entry.get("context_window"@)) == Some(given_or(spec.context_window, window))
            &&& whole(entry.get("max_context_window"@)) == Some(
                given_or(spec.context_window, window),
            )
            &&& whole(entry.get("priority"@)) == Some(priority)
            &&& entry.get("additional_speed_tiers"@) == Some(JsonView::Array(Seq::empty()))
            &&& entry.get("service_tiers"@) == Some(JsonView::Array(Seq::empty()))
            &&& entry.get("availability_nux"@) == Some(JsonView::Null)
            &&& entry.get("upgrade"@) == Some(JsonView::Null)
            &&& takes(entry, !(capability is Unsupported))
        }),
{
    catalog_laws::lemma_second_names();
    catalog_laws::lemma_first_names();
    catalog_laws::lemma_entry_names();
    let basic = catalog_entry::basic_entry(template, spec, priority, window, capability);
    let clean = catalog_entry::without_freeform_tools(basic, spec);
    let entry = if profile == CodexCatalogToolProfile::ProxyChat {
        basic
    } else {
        clean
    };
    assert("description"@[7] == 't') by {
        reveal_strlit("description");
    }
    assert("model"@[0] == 'm' && "tools"@[0] == 't') by {
        reveal_strlit("model");
        reveal_strlit("tools");
    }
    catalog_laws::lemma_aliased_keeps(entry, "model"@);
    catalog_laws::lemma_aliased_keeps(entry, "slug"@);
    catalog_laws::lemma_aliased_keeps(entry, "display_name"@);
    catalog_laws::lemma_aliased_keeps(entry, "description"@);
    catalog_laws::lemma_aliased_keeps(entry, "context_window"@);
    catalog_laws::lemma_aliased_keeps(entry, "max_context_window"@);
    catalog_laws::lemma_aliased_keeps(entry, "priority"@);
    catalog_laws::lemma_aliased_keeps(entry, "additional_speed_tiers"@);
    catalog_laws::lemma_aliased_keeps(entry, "service_tiers"@);
    catalog_laws::lemma_aliased_keeps(entry, "availability_nux"@);
    catalog_laws::lemma_aliased_keeps(entry, "upgrade"@);
    catalog_laws::lemma_aliased_keeps(entry, "input_modalities"@);
}

/// Whether an entry lists text, and images exactly where they are taken.
pub open spec fn takes(entry: JsonView, images: bool) -> bool {
    entry.get_items("input_modalities"@) matches Some(kinds) && {
        &&& kinds.len() == if images {
            2nat
        } else {
            1nat
        }
        &&& kinds[0] == JsonView::Str("text"@)
        &&& images ==> kinds[1] == JsonView::Str("image"@)
    }
}

/// What is not set in a generated entry is as in its template, but for the names that the desktop
/// application reads.
pub proof fn law_the_rest_is_the_templates(
    template: JsonView,
    spec: SpecView,
    priority: u64,
    profile: CodexCatalogToolProfile,
    window: u64,
    capability: ImageInputCapability,
    key: Seq<char>,
)
    requires
        template is Object,
        !is_set(key),
        !catalog_laws::is_second_name(key),
        profile is ProxyChat || !is_set_for_native(key),
    ensures
        catalog_entry::model_entry(template, spec, priority, profile, window, capability).get(key)
            == template.get(key),
{
    let basic = catalog_entry::basic_entry(template, spec, priority, window, capability);
    catalog_laws::lemma_aliased_keeps(basic, key);
    catalog_laws::lemma_aliased_keeps(catalog_entry::without_freeform_tools(basic, spec), key);
}

/// For a gateway that takes no freeform tools, the model's own instructions go before those of the
/// template, where they say something, and so does its own word on parallel calls, where it has one.
pub proof fn law_what_a_native_entry_is_told(
    template: JsonView,
    spec: SpecView,
    priority: u64,
    profile: CodexCatalogToolProfile,
    window: u64,
    capability: ImageInputCapability,
)
    requires
        template is Object,
        profile is NativeResponses || profile is Anthropic,
    ensures
        ({
            let entry = catalog_entry::model_entry(
                template,
                spec,
                priority,
                profile,
                window,
                capability,
            );
            &&& said(spec.base_instructions) is Some ==> entry.get("base_instructions"@) == Some(
                JsonView::Str(said(spec.base_instructions)->Some_0),
            )
            &&& said(spec.base_instructions) is None ==> entry.get("base_instructions"@)
                == template.get("base_instructions"@)
            &&& spec.supports_parallel_tool_calls is Some ==> entry.get(
                "supports_parallel_tool_calls"@,
            ) == Some(JsonView::Bool(spec.supports_parallel_tool_calls->Some_0))
            &&& spec.supports_parallel_tool_calls is None ==> entry.get(
                "supports_parallel_tool_calls"@,
            ) == template.get("supports_parallel_tool_calls"@)
        }),
{
    catalog_laws::lemma_second_names();
    catalog_laws::lemma_first_names();
    catalog_laws::lemma_entry_names();
    let basic = catalog_entry::basic_entry(template, spec, priority, window, capability);
    let clean = catalog_entry::without_freeform_tools(basic, spec);
    catalog_laws::lemma_aliased_keeps(clean, "base_instructions"@);
    catalog_laws::lemma_aliased_keeps(clean, "supports_parallel_tool_calls"@);
}

/// Which tools a model's gateway takes is told from its API: one of Anthropic, one of responses, and
/// any other, or one that is not named, goes through the proxy.
pub proof fn law_which_tools_an_api_takes(api_format: Option<Seq<char>>)
    ensures
        CodexCatalogToolProfile::of_format(api_format) is Anthropic <==> api_format == Some(
            "anthropic"@,
        ),
        CodexCatalogToolProfile::of_format(api_format) is NativeResponses <==> api_format == Some(
            "openai_responses"@,
        ),
        CodexCatalogToolProfile::of_format(api_format) is ProxyChat <==> api_format != Some(
            "anthropic"@,
        ) && api_format != Some("openai_responses"@),
{
    reveal_strlit("anthropic");
    reveal_strlit("openai_responses");
    assert("anthropic"@.len() == 9);
    assert("openai_responses"@.len() == 16);
}

/// The priorities of generated entries start at a thousand and grow with their places.
pub proof fn law_priorities_grow(i: nat, j: nat)
    requires
        i < j,
        j + 1000 <= u64::MAX,
    ensures
        catalog_entry::place_of(0) == 1000,
        catalog_entry::place_of(i) == i + 1000,
        catalog_entry::place_of(i) < catalog_entry::place_of(j),
{
}

/// The efforts of reasoning levels are put together level by level, in their order; a level without
/// an effort has none, and any other has its effort, and its description where it has one.
pub proof fn law_efforts_follow_their_levels(a: Seq<JsonView>, b: Seq<JsonView>, level: JsonView)
    ensures
        catalog_entry::efforts_of(a + b) == catalog_entry::efforts_of(a)
            + catalog_entry::efforts_of(b),
        level.get("effort"@) is None ==> catalog_entry::efforts_of(seq![level]).len() == 0,
        level.get("effort"@) is Some ==> {
            let efforts = catalog_entry::efforts_of(seq![level]);
            &&& efforts.len() == 1
            &&& efforts[0].get("reasoningEffort"@) == level.get("effort"@)
            &&& efforts[0].get("description"@) == level.get("description"@)
        },
    decreases b.len(),
{
    reveal_strlit("reasoningEffort");
    reveal_strlit("description");
    assert("reasoningEffort"@.len() == 15);
    assert("description"@.len() == 11);
    reveal_with_fuel(catalog_entry::efforts_of, 2);
    assert(seq![level].last() == level);
    if b.len() == 0 {
        assert(a + b =~= a);
    } else {
        law_efforts_follow_their_levels(a, b.drop_last(), level);
        assert((a + b).drop_last() =~= a + b.drop_last());
        assert((a + b).last() == b.last());
    }
    assert(catalog_entry::efforts_of(a + b) =~= catalog_entry::efforts_of(a)
        + catalog_entry::efforts_of(b));
}

/// The efforts of an entry that has none yet are those of its levels; an entry without levels is
/// given none, and efforts that it came with stay.
pub proof fn law_where_efforts_come_from(entry: JsonView)
    ensures
        ({
            let second = catalog_entry::aliased(entry).get("supportedReasoningEfforts"@);
            let levels = entry.get_items("supported_reasoning_levels"@);
            &&& entry.get("supportedReasoningEfforts"@) is Some ==> second == entry.get(
                "supportedReasoningEfforts"@,
            )
            &&& entry.get("supportedReasoningEfforts"@) is None && levels is None ==> second is None
            &&& entry is Object && entry.get("supportedReasoningEfforts"@) is None
                && levels is Some && catalog_entry::efforts_of(levels->Some_0).len() > 0 ==> second
                == Some(JsonView::Array(catalog_entry::efforts_of(levels->Some_0)))
        }),
{
    catalog_laws::lemma_second_names();
    reveal_strlit("supported_reasoning_levels");
    assert("supported_reasoning_levels"@.len() == 26);
}

/// A vendor's entry for a model is the first that has the model's id, whatever its case, and there is
/// none exactly where no entry has it.
pub proof fn law_the_first_entry_of_a_vendor_counts(vendor: Seq<JsonView>, model: Seq<char>, k: int)
    requires
        0 <= k < vendor.len(),
    ensures
        ({
            let matched = catalog_entry::vendor_match(vendor, model);
            &&& matched is Some ==> 0 <= matched->Some_0 < vendor.len() && is_entry_of(
                vendor[matched->Some_0],
                model,
            )
            &&& is_entry_of(vendor[k], model) ==> matched is Some && matched->Some_0 <= k
        }),
    decreases vendor.len(),
{
    let front = vendor.drop_last();
    reveal_with_fuel(catalog_entry::vendor_match, 2);
    if front.len() > 0 {
        if k < front.len() {
            law_the_first_entry_of_a_vendor_counts(front, model, k);
        } else {
            law_the_first_entry_of_a_vendor_counts(front, model, 0);
        }
        catalog_laws::lemma_vendor_match(front, model);
    }
}

/// Whether an entry has the id of a model, whatever its case.
pub open spec fn is_entry_of(entry: JsonView, model: Seq<char>) -> bool {
    entry.get("slug"@) matches Some(JsonView::Str(slug)) && text::lower(slug) == text::lower(model)
}

/// What a vendor says of a model is kept where the user says nothing of it: of the model that an
/// alias stands for, and where the vendor does not list the model, of the vendor's first.
pub proof fn law_the_vendor_is_kept(
    vendor: Seq<JsonView>,
    spec: SpecView,
    priority: u64,
    alias_of: Option<Seq<char>>,
    fallback: Option<JsonView>,
    key: Seq<char>,
)
    requires
        vendor.len() > 0,
        forall|i: int| 0 <= i < vendor.len() ==> (#[trigger] vendor[i]) is Object,
        !catalog_laws::is_second_name(key),
        key != "model"@,
        key != "slug"@,
        key == "display_name"@ || key == "description"@ || key == "priority"@ ==> alias_of is None
            && spec.display_name is None && catalog_entry::vendor_match(vendor, spec.model) is Some,
        key == "context_window"@ || key == "max_context_window"@ ==> spec.context_window is None,
        key == "supports_parallel_tool_calls"@ ==> spec.supports_parallel_tool_calls is None,
        key == "input_modalities"@ ==> spec.input_modalities is None,
        key == "base_instructions"@ ==> said(spec.base_instructions) is None,
        key != "supports_reasoning_summaries"@,
    ensures
        ({
            let wanted = if said(alias_of) is Some {
                said(alias_of)->Some_0
            } else {
                spec.model
            };
            let matched = catalog_entry::vendor_match(vendor, wanted);
            let base = if matched is Some {
                vendor[matched->Some_0]
            } else {
                vendor[0]
            };
            catalog_entry::vendor_entry(vendor, spec, priority, alias_of, fallback).get(key)
                == base.get(key)
        }),
{
    let wanted = if said(alias_of) is Some {
        said(alias_of)->Some_0
    } else {
        spec.model
    };
    let matched = catalog_entry::vendor_match(vendor, wanted);
    catalog_laws::lemma_vendor_match(vendor, wanted);
    catalog_laws::lemma_entry_names();
    let base = if matched is Some {
        vendor[matched->Some_0]
    } else {
        vendor[0]
    };
    let renamed = matched is None || alias_of is Some;
    let own = catalog_entry::vendor_fields(base, renamed, spec, priority);
    assert(own.get(key) == base.get(key));
    catalog_laws::lemma_aliased_keeps(catalog_entry::with_required_fields(own, fallback), key);
}

/// A catalog has one entry for each model, in their order: with the model's id, and a priority that
/// grows from a thousand.
pub proof fn law_a_catalog_has_each_model(
    specs: Seq<SpecView>,
    template: JsonView,
    profile: CodexCatalogToolProfile,
    window: u64,
    capabilities: CapabilityTable,
    vendor: Seq<JsonView>,
    fallback: Option<JsonView>,
    i: int,
)
    requires
        template is Object,
        forall|k: int| 0 <= k < vendor.len() ==> (#[trigger] vendor[k]) is Object,
        0 <= i < specs.len() <= u64::MAX - 1000,
    ensures
        ({
            let entries = catalog::spec_entries(specs, template, profile, window, capabilities);
            let vendors = catalog::vendor_entries(specs, vendor, fallback);
            &&& entries.len() == specs.len()
            &&& entries[i].get("slug"@) == Some(JsonView::Str(specs[i].model))
            &&& whole(entries[i].get("priority"@)) == Some((i + 1000) as u64)
            &&& vendors.len() == specs.len()
            &&& vendors[i].get("slug"@) == Some(JsonView::Str(specs[i].model))
        }),
{
    law_what_a_generated_entry_says(
        template,
        specs[i],
        catalog_entry::place_of(i as nat),
        profile,
        window,
        capabilities.capability(specs[i].model, specs[i].input_modalities),
    );
    catalog_laws::law_own_settings_go_before_the_vendor(
        vendor,
        specs[i],
        catalog_entry::place_of(i as nat),
        None,
        fallback,
    );
}

/// The template of a catalog is its first entry for `gpt-5.5`, and there is none exactly where no
/// entry is for that model.
pub proof fn law_the_template_is_known(models: Seq<JsonView>, k: int)
    requires
        0 <= k < models.len(),
        models[k].get("slug"@) == Some(JsonView::Str("gpt-5.5"@)),
        forall|i: int|
            0 <= i < k ==> (#[trigger] models[i]).get("slug"@) != Some(JsonView::Str("gpt-5.5"@)),
    ensures
        catalog::template_among(models) == Some(models[k]),
    decreases models.len(),
{
    assert(catalog::CODEX_MODEL_CATALOG_TEMPLATE_SLUG@ == "gpt-5.5"@);
    if k > 0 {
        assert(models[0].get("slug"@) != Some(JsonView::Str("gpt-5.5"@)));
        assert(models.drop_first()[k - 1] == models[k]);
        law_the_template_is_known(models.drop_first(), k - 1);
    }
}

/// A catalog without an entry for `gpt-5.5` has no template.
pub proof fn law_without_its_model_there_is_no_template(models: Seq<JsonView>)
    requires
        forall|i: int|
            0 <= i < models.len() ==> (#[trigger] models[i]).get("slug"@) != Some(
                JsonView::Str("gpt-5.5"@),
            ),
    ensures
        catalog::template_among(models) is None,
    decreases models.len(),
{
    if models.len() > 0 {
        assert(models[0].get("slug"@) != Some(JsonView::Str("gpt-5.5"@)));
        law_without_its_model_there_is_no_template(models.drop_first());
    }
}

/// The template comes from the cache, then from the command line, then from the application itself,
/// and only where none has one is there an error.
pub proof fn law_where_the_template_comes_from(
    from_cache: Option<JsonView>,
    from_cli: Option<JsonView>,
    fallback: Option<JsonView>,
    key: Seq<char>,
)
    requires
        from_cache matches Some(t) ==> t is Object,
        from_cli matches Some(t) ==> t is Object,
    ensures
        ({
            let chosen = catalog::chosen_template(from_cache, from_cli, fallback);
            &&& chosen is Err <==> from_cache is None && from_cli is None && fallback is None
            &&& from_cache is Some && key != "supports_reasoning_summaries"@ ==> chosen->Ok_0.get(
                key,
            ) == from_cache->Some_0.get(key)
            &&& from_cache is None && from_cli is Some && key != "supports_reasoning_summaries"@
                ==> chosen->Ok_0.get(key) == from_cli->Some_0.get(key)
            &&& from_cache is None && from_cli is None && fallback is Some ==> chosen->Ok_0
                == fallback->Some_0
        }),
{
}

/// A row that is read back from an entry has its model's id, and says no more than what differs from
/// what would be written without it: another name, another window, its word on parallel calls, and
/// what it takes where that is not what the model is judged to take.
pub proof fn law_what_a_row_says(
    entry: JsonView,
    window: u64,
    capabilities: CapabilityTable,
)
    ensures
        ({
            let row = catalog::simplified_entry(entry, window, capabilities);
            let id = said(entry.get_text("slug"@));
            let name = said(entry.get_text("display_name"@));
            let size = whole(entry.get("context_window"@));
            &&& row is Some <==> id is Some
            &&& row is Some ==> {
                let row = row->Some_0;
                &&& row.get("model"@) == Some(JsonView::Str(id->Some_0))
                &&& row.get("displayName"@) == (if name is Some && name != id {
                    Some(JsonView::Str(name->Some_0))
                } else {
                    None
                })
                &&& whole(row.get("contextWindow"@)) == (if size is Some && size->Some_0 > 0 && size
                    != Some(window) {
                    size
                } else {
                    None
                })
                &&& row.get("supportsParallelToolCalls"@) == (match entry.get(
                    "supports_parallel_tool_calls"@,
                ) {
                    Some(JsonView::Bool(on)) => Some(JsonView::Bool(on)),
                    _ => None,
                })
                &&& entry.get_items("input_modalities"@) is None ==> row.get("inputModalities"@)
                    is None
            }
        }),
{
    catalog_laws::lemma_second_names();
    catalog_laws::lemma_entry_names();
}

/// The rows of a catalog are read entry by entry, in their order.
pub proof fn law_rows_follow_their_entries(
    a: Seq<JsonView>,
    b: Seq<JsonView>,
    entry: JsonView,
    window: u64,
    capabilities: CapabilityTable,
)
    ensures
        catalog::simplified_entries(a + b, window, capabilities) == catalog::simplified_entries(
            a,
            window,
            capabilities,
        ) + catalog::simplified_entries(b, window, capabilities),
        ({
            let rows = catalog::simplified_entries(seq![entry], window, capabilities);
            let row = catalog::simplified_entry(entry, window, capabilities);
            &&& row is Some ==> rows.len() == 1 && rows[0] == row->Some_0
            &&& row is None ==> rows.len() == 0
        }),
    decreases b.len(),
{
    reveal_with_fuel(catalog::simplified_entries, 2);
    assert(seq![entry].last() == entry);
    if b.len() == 0 {
        assert(a + b =~= a);
    } else {
        law_rows_follow_their_entries(a, b.drop_last(), entry, window, capabilities);
        assert((a + b).drop_last() =~= a + b.drop_last());
        assert((a + b).last() == b.last());
    }
    assert(catalog::simplified_entries(a + b, window, capabilities)
        =~= catalog::simplified_entries(a, window, capabilities) + catalog::simplified_entries(
        b,
        window,
        capabilities,
    ));
}

/// The template is looked for among the models of a catalog.
pub proof fn law_where_the_template_is_looked_for(found: JsonView, models: Seq<JsonView>)
    ensures
        found.get("models"@) == Some(JsonView::Array(models)) ==> catalog::template_in(found)
            == catalog::template_among(models),
        found.get_items("models"@) is None ==> catalog::template_in(found) is None,
{
}

/// A catalog is read back as the rows of its models, and as nothing where it gives no row.
pub proof fn law_what_a_catalog_gives_back(
    found: JsonView,
    models: Seq<JsonView>,
    window: u64,
    capabilities: CapabilityTable,
)
    requires
        found.get("models"@) == Some(JsonView::Array(models)),
    ensures
        ({
            let rows = catalog::simplified_entries(models, window, capabilities);
            let back = catalog::simplified(Some(found), window, capabilities);
            &&& catalog::simplified(None, window, capabilities) is None
            &&& rows.len() == 0 ==> back is None
            &&& rows.len() > 0 ==> back is Some && back->Some_0.get("models"@) == Some(
                JsonView::Array(rows),
            )
        }),
{
}

} // verus!
