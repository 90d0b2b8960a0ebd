//! What is read from the settings of a provider.

use crate::json::{JsonView, NumberView};
use crate::model_specs::{EntryView, RouteView, SlotTable, SpecView};
use crate::{model_specs, text};
use vstd::prelude::*;
use vstd::string::*;

verus! {

/// The member with the first name; only where there is none, the one with the second.
pub open spec fn under(item: JsonView, a: Seq<char>, b: Seq<char>) -> Option<JsonView> {
    if item.get(a) is Some {
        item.get(a)
    } else {
        item.get(b)
    }
}

/// Whether a member that was found is a string with more than white space in it, which is `t` without
/// the white space around it.
pub open spec fn is_text(value: Option<JsonView>, t: Seq<char>) -> bool {
    value matches Some(JsonView::Str(s)) && !text::is_blank(s) && t == text::trim(s)
}

/// Whether an optional text is what a member that was found says.
pub open spec fn matches_text(found: Option<Seq<char>>, value: Option<JsonView>) -> bool {
    match found {
        Some(t) => is_text(value, t),
        None => forall|t: Seq<char>| !is_text(value, t),
    }
}

/// Whether an optional number is what a member that was found says: a whole number above zero, as a
/// number or in a string.
pub open spec fn matches_number(found: Option<u64>, value: Option<JsonView>) -> bool {
    match value {
        Some(JsonView::Number(NumberView::Unsigned(n))) => found == (if n > 0 {
            Some(n)
        } else {
            None::<u64>
        }),
        Some(JsonView::Str(s)) => match text::parsed_u64(text::trim(s)) {
            Some(n) => found == (if n > 0 {
                Some(n)
            } else {
                None::<u64>
            }),
            None => found is None,
        },
        _ => found is None,
    }
}

/// Whether an optional boolean is what a member that was found says.
pub open spec fn matches_flag(found: Option<bool>, value: Option<JsonView>) -> bool {
    match value {
        Some(JsonView::Bool(b)) => found == Some(b),
        _ => found is None,
    }
}

/// Whether an optional list is what a member that was found says: all of its strings.
pub open spec fn matches_list(found: Option<Seq<Seq<char>>>, value: Option<JsonView>) -> bool {
    match value {
        Some(JsonView::Array(items)) => {
            &&& items.len() > 0 && (forall|i: int| 0 <= i < items.len() ==> #[trigger] items[i] is Str)
                ==> (found matches Some(list) && list.len() == items.len() && forall|i: int|
                0 <= i < items.len() ==> #[trigger] list[i] == items[i]->Str_0)
            &&& (found is None <==> forall|i: int|
                0 <= i < items.len() ==> !(#[trigger] items[i] is Str))
        },
        _ => found is None,
    }
}

/// Whether what is known of a model is what a row of settings says of it.
pub open spec fn says_of_model(spec: SpecView, item: JsonView) -> bool {
    &&& is_text(item.get("model"@), spec.model)
    &&& matches_text(spec.display_name, under(item, "displayName"@, "display_name"@))
    &&& matches_number(spec.context_window, under(item, "contextWindow"@, "context_window"@))
    &&& matches_flag(
        spec.supports_parallel_tool_calls,
        under(item, "supportsParallelToolCalls"@, "supports_parallel_tool_calls"@),
    )
    &&& matches_list(spec.input_modalities, under(item, "inputModalities"@, "input_modalities"@))
    &&& matches_text(
        spec.base_instructions,
        under(item, "baseInstructions"@, "base_instructions"@),
    )
}

/// Whether a row is the first that names a model.
pub open spec fn is_first(items: Seq<JsonView>, i: int, model: Seq<char>) -> bool {
    &&& 0 <= i < items.len()
    &&& is_text(items[i].get("model"@), model)
    &&& forall|j: int| 0 <= j < i ==> !is_text((#[trigger] items[j]).get("model"@), model)
}

proof fn lemma_text(value: Option<JsonView>)
    ensures
        matches_text(model_specs::trimmed(value), value),
{
    match value {
        Some(JsonView::Str(s)) => {
            assert(model_specs::trimmed(value) is Some ==> is_text(value, text::trim(s)));
        },
        _ => {},
    }
}

proof fn lemma_list(items: Seq<JsonView>)
    ensures
        (forall|i: int| 0 <= i < items.len() ==> #[trigger] items[i] is Str)
            ==> model_specs::text_items(items).len() == items.len() && forall|i: int|
            0 <= i < items.len() ==> #[trigger] model_specs::text_items(items)[i]
                == items[i]->Str_0,
        model_specs::text_items(items).len() == 0 <==> forall|i: int|
            0 <= i < items.len() ==> !(#[trigger] items[i] is Str),
    decreases items.len(),
{
    if items.len() > 0 {
        let front = items.drop_last();
        lemma_list(front);
        assert(items[items.len() - 1] == items.last());
        let list = model_specs::text_items(items);
        let before = model_specs::text_items(front);
        if forall|i: int| 0 <= i < items.len() ==> #[trigger] items[i] is Str {
            assert forall|i: int| 0 <= i < front.len() implies #[trigger] front[i] is Str by {
                assert(front[i] == items[i]);
            }
            assert forall|i: int| 0 <= i < items.len() implies #[trigger] list[i]
                == items[i]->Str_0 by {
                if i < front.len() {
                    assert(list[i] == before[i]);
                    assert(front[i] == items[i]);
                }
            }
        }
        if list.len() == 0 {
            assert forall|i: int| 0 <= i < items.len() implies !(#[trigger] items[i] is Str) by {
                if i < front.len() {
                    assert(front[i] == items[i]);
                }
            }
        }
        if forall|i: int| 0 <= i < items.len() ==> !(#[trigger] items[i] is Str) {
            assert forall|i: int| 0 <= i < front.len() implies !(#[trigger] front[i] is Str) by {
                assert(front[i] == items[i]);
            }
        }
    }
}

/// What is made of one row.
proof fn lemma_row(item: JsonView, model: Seq<char>)
    requires
        model_specs::trimmed(item.get("model"@)) == Some(model),
    ensures
        says_of_model(model_specs::spec_of(item, model), item),
{
    lemma_text(item.get("model"@));
    lemma_text(under(item, "displayName"@, "display_name"@));
    lemma_text(under(item, "baseInstructions"@, "base_instructions"@));
    match under(item, "inputModalities"@, "input_modalities"@) {
        Some(JsonView::Array(items)) => lemma_list(items),
        _ => {},
    }
}

/// The rows that the models come from.
proof fn lemma_sources(items: Seq<JsonView>) -> (src: Seq<int>)
    ensures
        src.len() == model_specs::specs_of(items).len(),
        forall|k: int|
            0 <= k < src.len() ==> is_first(
                items,
                #[trigger] src[k],
                model_specs::specs_of(items)[k].model,
            ) && says_of_model(model_specs::specs_of(items)[k], items[src[k]]),
        forall|k: int, l: int| 0 <= k < l < src.len() ==> #[trigger] src[k] < #[trigger] src[l],
        forall|i: int, t: Seq<char>|
            0 <= i < items.len() && #[trigger] is_text(items[i].get("model"@), t)
                ==> model_specs::lists_model(model_specs::specs_of(items), t),
    decreases items.len(),
{
    if items.len() == 0 {
        Seq::empty()
    } else {
        let front = items.drop_last();
        let item = items.last();
        let before = lemma_sources(front);
        let specs = model_specs::specs_of(front);
        let all = model_specs::specs_of(items);
        let n = items.len() - 1;
        assert(items[n] == item);
        lemma_text(item.get("model"@));
        let grows = model_specs::trimmed(item.get("model"@)) matches Some(model)
            && !model_specs::lists_model(specs, model);
        let src = if grows {
            before.push(n)
        } else {
            before
        };
        assert forall|k: int| 0 <= k < src.len() implies is_first(
            items,
            #[trigger] src[k],
            all[k].model,
        ) && says_of_model(all[k], items[src[k]]) by {
            if k < before.len() {
                assert(is_first(front, before[k], specs[k].model));
                assert(all[k] == specs[k]);
                assert(front[before[k]] == items[before[k]]);
                assert forall|j: int| 0 <= j < src[k] implies !is_text(
                    (#[trigger] items[j]).get("model"@),
                    all[k].model,
                ) by {
                    assert(front[j] == items[j]);
                }
            } else {
                let model = model_specs::trimmed(item.get("model"@))->Some_0;
                lemma_row(item, model);
                assert forall|j: int| 0 <= j < n implies !is_text(
                    (#[trigger] items[j]).get("model"@),
                    model,
                ) by {
                    assert(front[j] == items[j]);
                    if is_text(front[j].get("model"@), model) {
                        assert(model_specs::lists_model(specs, model));
                    }
                }
            }
        }
        assert forall|k: int, l: int| 0 <= k < l < src.len() implies #[trigger] src[k]
            < #[trigger] src[l] by {
            assert(is_first(front, before[k], specs[k].model));
        }
        assert forall|i: int, t: Seq<char>|
            0 <= i < items.len() && #[trigger] is_text(items[i].get("model"@), t) implies
            model_specs::lists_model(all, t) by {
            if i < n {
                assert(front[i] == items[i]);
                assert(is_text(front[i].get("model"@), t));
                let k = choose|k: int| 0 <= k < specs.len() && (#[trigger] specs[k]).model == t;
                assert(all[k] == specs[k]);
            } else {
                assert(model_specs::trimmed(item.get("model"@)) == Some(t));
                if grows {
                    assert(all[specs.len() as int].model == t);
                }
            }
        }
        src
    }
}

/// Every row of a provider's own catalog that names a model lists it, whatever the other rows are.
pub proof fn law_every_named_model_is_listed(
    settings: JsonView,
    catalog: JsonView,
    items: Seq<JsonView>,
    i: int,
    model: Seq<char>,
)
    requires
        settings.get("modelCatalog"@) == Some(catalog),
        catalog.get("models"@) == Some(JsonView::Array(items)),
        0 <= i < items.len(),
        is_text(items[i].get("model"@), model),
    ensures
        exists|k: int|
            0 <= k < model_specs::catalog_specs(settings).len() && (
            #[trigger] model_specs::catalog_specs(settings)[k]).model == model,
{
    let src = lemma_sources(items);
    let specs = model_specs::catalog_specs(settings);
    assert(model_specs::lists_model(specs, model));
    let k = choose|k: int| 0 <= k < specs.len() && (#[trigger] specs[k]).model == model;
    assert(specs[k].model == model);
}

/// Every listed model comes from the first row that names it and says what that row says, and the
/// models are in the order of those rows.
pub proof fn law_listed_models_say_what_their_rows_say(
    settings: JsonView,
    catalog: JsonView,
    items: Seq<JsonView>,
    k: int,
    l: int,
)
    requires
        settings.get("modelCatalog"@) == Some(catalog),
        catalog.get("models"@) == Some(JsonView::Array(items)),
        0 <= k < model_specs::catalog_specs(settings).len(),
        0 <= l < model_specs::catalog_specs(settings).len(),
    ensures
        exists|i: int, j: int|
            #![trigger is_first(items, i, model_specs::catalog_specs(settings)[k].model), is_first(items, j, model_specs::catalog_specs(settings)[l].model)]
            {
                &&& is_first(items, i, model_specs::catalog_specs(settings)[k].model)
                &&& says_of_model(model_specs::catalog_specs(settings)[k], items[i])
                &&& is_first(items, j, model_specs::catalog_specs(settings)[l].model)
                &&& k < l ==> i < j
            },
{
    let src = lemma_sources(items);
    assert(is_first(items, src[k], model_specs::catalog_specs(settings)[k].model));
    assert(is_first(items, src[l], model_specs::catalog_specs(settings)[l].model));
}

/// Without a catalog of its own a provider lists no models.
pub proof fn law_no_catalog_no_models(settings: JsonView)
    requires
        settings.get("modelCatalog"@) matches Some(catalog) ==> !(catalog.get("models"@) matches Some(
            JsonView::Array(_),
        )),
    ensures
        model_specs::catalog_specs(settings).len() == 0,
{
}

/// Whether a route is what a row of settings says.
pub open spec fn says_of_route(route: RouteView, item: JsonView) -> bool {
    &&& is_text(under(item, "providerId"@, "provider_id"@), route.provider_id)
    &&& matches_text(route.upstream_model, under(item, "upstreamModel"@, "upstream_model"@))
}

/// Routes that all name a provider are all there, in their order.
pub proof fn law_every_route_is_read(item: JsonView, rows: Seq<JsonView>)
    requires
        item.get("routes"@) == Some(JsonView::Array(rows)),
        forall|i: int|
            0 <= i < rows.len() ==> exists|t: Seq<char>| #[trigger]
                is_text(under(#[trigger] rows[i], "providerId"@, "provider_id"@), t),
    ensures
        model_specs::listed_routes(item).len() == rows.len(),
        forall|i: int|
            0 <= i < rows.len() ==> says_of_route(
                #[trigger] model_specs::listed_routes(item)[i],
                rows[i],
            ),
{
    lemma_routes(rows);
}

proof fn lemma_routes(rows: Seq<JsonView>)
    requires
        forall|i: int|
            0 <= i < rows.len() ==> exists|t: Seq<char>| #[trigger]
                is_text(under(#[trigger] rows[i], "providerId"@, "provider_id"@), t),
    ensures
        model_specs::routes_of(rows).len() == rows.len(),
        forall|i: int|
            0 <= i < rows.len() ==> says_of_route(#[trigger] model_specs::routes_of(rows)[i], rows[i]),
    decreases rows.len(),
{
    if rows.len() > 0 {
        let front = rows.drop_last();
        assert forall|i: int| 0 <= i < front.len() implies exists|t: Seq<char>| #[trigger]
            is_text(under(#[trigger] front[i], "providerId"@, "provider_id"@), t) by {
            assert(front[i] == rows[i]);
        }
        lemma_routes(front);
        let row = rows.last();
        assert(rows[rows.len() - 1] == row);
        lemma_text(under(row, "providerId"@, "provider_id"@));
        lemma_text(under(row, "upstreamModel"@, "upstream_model"@));
        let before = model_specs::routes_of(front);
        let all = model_specs::routes_of(rows);
        assert forall|i: int| 0 <= i < rows.len() implies says_of_route(
            #[trigger] all[i],
            rows[i],
        ) by {
            if i < front.len() {
                assert(all[i] == before[i]);
                assert(front[i] == rows[i]);
            }
        }
    }
}

/// A row without routes of its own has the one that it names itself; with routes, what it names itself
/// is not looked at.
pub proof fn law_a_row_is_its_own_route(item: JsonView, provider: Seq<char>)
    ensures
        model_specs::listed_routes(item).len() > 0 ==> model_specs::all_routes(item)
            == model_specs::listed_routes(item),
        model_specs::listed_routes(item).len() == 0 && is_text(
            under(item, "providerId"@, "provider_id"@),
            provider,
        ) ==> model_specs::all_routes(item).len() == 1 && says_of_route(
            model_specs::all_routes(item)[0],
            item,
        ),
        model_specs::listed_routes(item).len() == 0 && (forall|t: Seq<char>|
            !is_text(under(item, "providerId"@, "provider_id"@), t)) ==> model_specs::all_routes(
            item,
        ).len() == 0,
{
    lemma_text(under(item, "providerId"@, "provider_id"@));
    lemma_text(under(item, "upstreamModel"@, "upstream_model"@));
}

/// Whether a routed model is what a row of settings says of it.
pub open spec fn says_of_entry(entry: EntryView, item: JsonView) -> bool {
    &&& is_text(item.get("model"@), entry.model)
    &&& entry.routes == model_specs::all_routes(item)
    &&& entry.routes.len() > 0
    &&& entry.provider_id == entry.routes[0].provider_id
    &&& entry.routes[0].upstream_model is Some ==> entry.upstream_model
        == entry.routes[0].upstream_model
    &&& entry.routes[0].upstream_model is None ==> matches_text(
        entry.upstream_model,
        under(item, "upstreamModel"@, "upstream_model"@),
    )
    &&& matches_text(entry.display_name, under(item, "displayName"@, "display_name"@))
    &&& matches_number(entry.context_window, under(item, "contextWindow"@, "context_window"@))
    &&& matches_flag(
        entry.supports_parallel_tool_calls,
        under(item, "supportsParallelToolCalls"@, "supports_parallel_tool_calls"@),
    )
    &&& matches_list(entry.input_modalities, under(item, "inputModalities"@, "input_modalities"@))
    &&& matches_text(
        entry.base_instructions,
        under(item, "baseInstructions"@, "base_instructions"@),
    )
}

/// The rows that the routed models come from.
proof fn lemma_entry_sources(items: Seq<JsonView>, slots: SlotTable) -> (src: Seq<int>)
    ensures
        src.len() == model_specs::entries_of(items, slots).len(),
        forall|k: int|
            0 <= k < src.len() ==> 0 <= #[trigger] src[k] < items.len() && says_of_entry(
                model_specs::entries_of(items, slots)[k],
                items[src[k]],
            ),
        forall|k: int, l: int| 0 <= k < l < src.len() ==> #[trigger] src[k] < #[trigger] src[l],
        forall|i: int, t: Seq<char>|
            0 <= i < items.len() && #[trigger] is_text(items[i].get("model"@), t)
                && model_specs::all_routes(items[i]).len() > 0 ==> model_specs::slot_taken(
                model_specs::entries_of(items, slots),
                slots,
                model_specs::all_routes(items[i])[0].provider_id,
                t,
            ),
    decreases items.len(),
{
    if items.len() == 0 {
        Seq::empty()
    } else {
        let front = items.drop_last();
        let item = items.last();
        let before = lemma_entry_sources(front, slots);
        let entries = model_specs::entries_of(front, slots);
        let all = model_specs::entries_of(items, slots);
        let n = items.len() - 1;
        assert(items[n] == item);
        lemma_text(item.get("model"@));
        let grows = model_specs::trimmed(item.get("model"@)) matches Some(model)
            && model_specs::all_routes(item).len() > 0 && !model_specs::slot_taken(
            entries,
            slots,
            model_specs::all_routes(item)[0].provider_id,
            model,
        );
        let src = if grows {
            before.push(n)
        } else {
            before
        };
        assert forall|k: int| 0 <= k < src.len() implies 0 <= #[trigger] src[k] < items.len()
            && says_of_entry(all[k], items[src[k]]) by {
            if k < before.len() {
                assert(0 <= before[k] < front.len());
                assert(all[k] == entries[k]);
                assert(front[before[k]] == items[before[k]]);
            } else {
                let model = model_specs::trimmed(item.get("model"@))->Some_0;
                lemma_row(item, model);
                lemma_text(under(item, "upstreamModel"@, "upstream_model"@));
            }
        }
        assert forall|k: int, l: int| 0 <= k < l < src.len() implies #[trigger] src[k]
            < #[trigger] src[l] by {
            assert(0 <= before[k] < front.len());
        }
        assert forall|i: int, t: Seq<char>|
            0 <= i < items.len() && #[trigger] is_text(items[i].get("model"@), t)
                && model_specs::all_routes(items[i]).len() > 0 implies model_specs::slot_taken(
            all,
            slots,
            model_specs::all_routes(items[i])[0].provider_id,
            t,
        ) by {
            if i < n {
                assert(front[i] == items[i]);
                assert(is_text(front[i].get("model"@), t));
                let k = choose|k: int|
                    0 <= k < entries.len() && (#[trigger] entries[k]).provider_id
                        == model_specs::all_routes(items[i])[0].provider_id && slots.slot(
                        entries[k].model,
                    ) == slots.slot(t);
                assert(all[k] == entries[k]);
            } else if grows {
                assert(all[entries.len() as int].model == t);
            } else {
                assert(all == entries);
            }
        }
        src
    }
}

/// Every routed model says what its row says, the models are in the order of their rows, and a row that
/// names a model and a provider is left out only for one with the same provider and the same slot.
pub proof fn law_routed_models_say_what_their_rows_say(
    settings: JsonView,
    slots: SlotTable,
    items: Seq<JsonView>,
    i: int,
    model: Seq<char>,
    k: int,
)
    requires
        settings.get("codexCustomModels"@) == Some(JsonView::Array(items)),
    ensures
        0 <= k < model_specs::custom_entries(settings, slots).len() ==> exists|j: int|
            0 <= j < items.len() && says_of_entry(
                model_specs::custom_entries(settings, slots)[k],
                #[trigger] items[j],
            ),
        0 <= i < items.len() && is_text(items[i].get("model"@), model) && model_specs::all_routes(
            items[i],
        ).len() > 0 ==> exists|l: int|
            0 <= l < model_specs::custom_entries(settings, slots).len() && (
            #[trigger] model_specs::custom_entries(settings, slots)[l]).provider_id
                == model_specs::all_routes(items[i])[0].provider_id && slots.slot(
                model_specs::custom_entries(settings, slots)[l].model,
            ) == slots.slot(model),
{
    let src = lemma_entry_sources(items, slots);
    if 0 <= k < src.len() {
        assert(0 <= src[k] < items.len());
        assert(says_of_entry(model_specs::custom_entries(settings, slots)[k], items[src[k]]));
    }
    if 0 <= i < items.len() && is_text(items[i].get("model"@), model) && model_specs::all_routes(
        items[i],
    ).len() > 0 {
        let entries = model_specs::custom_entries(settings, slots);
        let provider = model_specs::all_routes(items[i])[0].provider_id;
        assert(model_specs::slot_taken(entries, slots, provider, model));
        let l = choose|l: int|
            0 <= l < entries.len() && (#[trigger] entries[l]).provider_id == provider && slots.slot(
                entries[l].model,
            ) == slots.slot(model);
        assert(entries[l].provider_id == provider);
    }
}

/// The official login is used unless the settings say that it is not.
pub proof fn law_the_official_login_is_used_unless_turned_off(settings: JsonView)
    ensures
        model_specs::official_login(settings) <==> settings.get("enableOfficialLogin"@) != Some(
            JsonView::Bool(false),
        ),
{
}

/// A model has the slot that the first row for it gives, and is its own slot without one.
pub proof fn law_a_slot_is_that_of_the_first_row(slots: SlotTable, model: Seq<char>, i: int)
    ensures
        0 <= i < slots.rows@.len() && slots.rows@[i].0@ == model && (forall|j: int|
            0 <= j < i ==> (#[trigger] slots.rows@[j]).0@ != model) ==> slots.slot(model)
            == slots.rows@[i].1@,
        (forall|j: int| 0 <= j < slots.rows@.len() ==> (#[trigger] slots.rows@[j]).0@ != model)
            ==> slots.slot(model) == model,
{
    lemma_slot(slots.rows@, model, i);
}

proof fn lemma_slot(rows: Seq<(String, String)>, model: Seq<char>, i: int)
    ensures
        0 <= i < rows.len() && rows[i].0@ == model && (forall|j: int|
            0 <= j < i ==> (#[trigger] rows[j]).0@ != model) ==> model_specs::slot_in(rows, model)
            == rows[i].1@,
        (forall|j: int| 0 <= j < rows.len() ==> (#[trigger] rows[j]).0@ != model)
            ==> model_specs::slot_in(rows, model) == model,
    decreases rows.len(),
{
    if rows.len() > 0 {
        let rest = rows.drop_first();
        lemma_slot(rest, model, i - 1);
        assert(forall|j: int| 0 <= j < rest.len() ==> rest[j] == rows[j + 1]);
        if 0 < i < rows.len() && (forall|j: int| 0 <= j < i ==> (#[trigger] rows[j]).0@ != model) {
            assert(rows[0].0@ != model);
            assert forall|j: int| 0 <= j < i - 1 implies (#[trigger] rest[j]).0@ != model by {
                assert(rows[j + 1].0@ != model);
            }
        }
        if forall|j: int| 0 <= j < rows.len() ==> (#[trigger] rows[j]).0@ != model {
            assert(rows[0].0@ != model);
            assert forall|j: int| 0 <= j < rest.len() implies (#[trigger] rest[j]).0@ != model by {
                assert(rows[j + 1].0@ != model);
            }
        }
    }
}

} // verus!
