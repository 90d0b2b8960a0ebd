//! What holds of the cache of models whatever is switched to.

use crate::cache_plan::ActionView;
use crate::error::ErrorView;
use crate::json::JsonView;
use crate::model_specs::{EntryView, SlotTable};
use crate::moment::Moment;
use crate::official_baseline::CODEX_OFFICIAL_BASELINE_CAPTURED_AT_KEY;
use crate::{cache_plan, model_specs, models_cache, official_baseline, text};
use vstd::prelude::*;
use vstd::string::*;

verus! {

/// Each waiting entry is one of the entries, and its slot is that of its name.
proof fn lemma_pending_of(entries: Seq<JsonView>, slots: SlotTable)
    ensures
        forall|i: int|
            0 <= i < models_cache::pending_of(entries, slots).len() ==> {
                let p = #[trigger] models_cache::pending_of(entries, slots)[i];
                &&& entries.contains(p.1)
                &&& p.1.get_text("slug"@) is Some
                &&& p.0 == slots.slot(p.1.get_text("slug"@)->Some_0)
            },
        forall|k: int|
            #![trigger entries[k]]
            0 <= k < entries.len() && entries[k].get_text("slug"@) is Some
                ==> models_cache::pending_of(entries, slots).contains(
                (slots.slot(entries[k].get_text("slug"@)->Some_0), entries[k]),
            ),
    decreases entries.len(),
{
    if entries.len() > 0 {
        let front = entries.drop_last();
        lemma_pending_of(front, slots);
        let before = models_cache::pending_of(front, slots);
        let all = models_cache::pending_of(entries, slots);
        assert forall|i: int| 0 <= i < all.len() implies {
            let p = #[trigger] all[i];
            &&& entries.contains(p.1)
            &&& p.1.get_text("slug"@) is Some
            &&& p.0 == slots.slot(p.1.get_text("slug"@)->Some_0)
        } by {
            if i < before.len() {
                assert(all[i] == before[i]);
                let k = choose|k: int| 0 <= k < front.len() && front[k] == before[i].1;
                assert(entries[k] == before[i].1);
            } else {
                assert(entries[entries.len() - 1] == all[i].1);
            }
        }
        assert forall|k: int|
            #![trigger entries[k]]
            0 <= k < entries.len() && entries[k].get_text("slug"@) is Some implies all.contains(
            (slots.slot(entries[k].get_text("slug"@)->Some_0), entries[k]),
        ) by {
            let p = (slots.slot(entries[k].get_text("slug"@)->Some_0), entries[k]);
            if k < front.len() {
                assert(front[k] == entries[k]);
                assert(before.contains(p));
                let i = choose|i: int| 0 <= i < before.len() && before[i] == p;
                assert(all[i] == p);
            } else {
                assert(all[all.len() - 1] == p);
            }
        }
    }
}

/// The first waiting entry for a slot has that slot; where there is none no entry has it.
proof fn lemma_first_pending(pending: Seq<(Seq<char>, JsonView)>, slot: Seq<char>)
    ensures
        match models_cache::first_pending(pending, slot) {
            Some(i) => 0 <= i < pending.len() && pending[i].0 == slot,
            None => forall|i: int| 0 <= i < pending.len() ==> (#[trigger] pending[i]).0 != slot,
        },
    decreases pending.len(),
{
    if pending.len() > 0 {
        let front = pending.drop_last();
        lemma_first_pending(front, slot);
        match models_cache::first_pending(front, slot) {
            Some(i) => {
                assert(front[i] == pending[i]);
            },
            None => {
                assert forall|i: int|
                    0 <= i < pending.len() && pending.last().0 != slot implies (
                #[trigger] pending[i]).0 != slot by {
                    if i < front.len() {
                        assert(front[i] == pending[i]);
                    }
                }
            },
        }
    }
}

/// Whether a model has a name whose slot a routed model takes.
pub open spec fn is_owned(model: JsonView, owned: Seq<EntryView>, slots: SlotTable) -> bool {
    model.get_text("slug"@) matches Some(slug) && models_cache::slot_owned(
        owned,
        slots,
        slots.slot(slug),
    )
}

/// What holds in the middle of a merge: what stays is a waiting entry or a model whose slot is
/// free, and each entry waits or was placed.
spec fn merge_sound(
    models: Seq<JsonView>,
    pending: Seq<(Seq<char>, JsonView)>,
    owned: Seq<EntryView>,
    slots: SlotTable,
    state: models_cache::MergeState,
) -> bool {
    &&& forall|i: int|
        0 <= i < state.kept.len() ==> is_waiting(pending, #[trigger] state.kept[i]) || (
        models.contains(state.kept[i]) && !is_owned(state.kept[i], owned, slots))
    &&& forall|i: int|
        0 <= i < state.pending.len() ==> pending.contains(#[trigger] state.pending[i])
    &&& forall|j: int|
        0 <= j < pending.len() ==> state.pending.contains(#[trigger] pending[j])
            || state.kept.contains(pending[j].1)
    &&& forall|k: int|
        0 <= k < models.len() && !is_owned(#[trigger] models[k], owned, slots) && !has_entry(
            pending,
            models[k],
            slots,
        ) ==> state.kept.contains(models[k])
}

/// Whether a model is one that waits.
spec fn is_waiting(pending: Seq<(Seq<char>, JsonView)>, model: JsonView) -> bool {
    exists|j: int| 0 <= j < pending.len() && (#[trigger] pending[j]).1 == model
}

/// Whether an entry waits for the slot of a model.
pub open spec fn has_entry(
    pending: Seq<(Seq<char>, JsonView)>,
    model: JsonView,
    slots: SlotTable,
) -> bool {
    model.get_text("slug"@) matches Some(slug) && exists|j: int|
        0 <= j < pending.len() && (#[trigger] pending[j]).0 == slots.slot(slug)
}

proof fn lemma_merge_sound(
    models: Seq<JsonView>,
    pending: Seq<(Seq<char>, JsonView)>,
    owned: Seq<EntryView>,
    slots: SlotTable,
)
    ensures
        merge_sound(
            models,
            pending,
            owned,
            slots,
            models_cache::merge_all(models, pending, owned, slots),
        ),
    decreases models.len(),
{
    if models.len() == 0 {
        let state = models_cache::merge_all(models, pending, owned, slots);
        assert forall|j: int| 0 <= j < pending.len() implies state.pending.contains(
            #[trigger] pending[j],
        ) || state.kept.contains(pending[j].1) by {
            assert(state.pending[j] == pending[j]);
        }
    } else {
        let front = models.drop_last();
        let model = models.last();
        lemma_merge_sound(front, pending, owned, slots);
        let before = models_cache::merge_all(front, pending, owned, slots);
        let after = models_cache::merge_all(models, pending, owned, slots);
        lemma_merge_step(front, models, pending, owned, slots, before, after);
    }
}

proof fn lemma_merge_step(
    front: Seq<JsonView>,
    models: Seq<JsonView>,
    pending: Seq<(Seq<char>, JsonView)>,
    owned: Seq<EntryView>,
    slots: SlotTable,
    before: models_cache::MergeState,
    after: models_cache::MergeState,
)
    requires
        models.len() > 0,
        front == models.drop_last(),
        merge_sound(front, pending, owned, slots, before),
        after == models_cache::merge_step(before, models.last(), owned, slots),
    ensures
        merge_sound(models, pending, owned, slots, after),
{
    let model = models.last();
    assert(models[models.len() - 1] == model);
    assert(models.contains(model));
    let slug = model.get_text("slug"@);
    let place = match slug {
        Some(slug) => {
            lemma_first_pending(before.pending, slots.slot(slug));
            models_cache::first_pending(before.pending, slots.slot(slug))
        },
        None => None,
    };
    assert forall|i: int| 0 <= i < after.kept.len() implies is_waiting(
        pending,
        #[trigger] after.kept[i],
    ) || (models.contains(after.kept[i]) && !is_owned(after.kept[i], owned, slots)) by {
        if i < before.kept.len() {
            assert(after.kept[i] == before.kept[i]);
            if !is_waiting(pending, before.kept[i]) {
                let k = choose|k: int| 0 <= k < front.len() && front[k] == before.kept[i];
                assert(models[k] == before.kept[i]);
            }
        } else {
            match place {
                Some(p) => {
                    assert(pending.contains(before.pending[p]));
                    let j = choose|j: int| 0 <= j < pending.len() && pending[j] == before.pending[p];
                    assert(pending[j].1 == after.kept[i]);
                },
                None => {},
            }
        }
    }
    assert forall|i: int| 0 <= i < after.pending.len() implies pending.contains(
        #[trigger] after.pending[i],
    ) by {
        match place {
            Some(p) => {
                if i < p {
                    assert(after.pending[i] == before.pending[i]);
                } else {
                    assert(after.pending[i] == before.pending[i + 1]);
                }
            },
            None => {
                assert(after.pending[i] == before.pending[i]);
            },
        }
    }
    assert forall|j: int| 0 <= j < pending.len() implies after.pending.contains(
        #[trigger] pending[j],
    ) || after.kept.contains(pending[j].1) by {
        if before.kept.contains(pending[j].1) {
            let i = choose|i: int| 0 <= i < before.kept.len() && before.kept[i] == pending[j].1;
            assert(after.kept[i] == pending[j].1);
        } else {
            let i = choose|i: int| 0 <= i < before.pending.len() && before.pending[i] == pending[j];
            match place {
                Some(p) => {
                    if i == p {
                        assert(after.kept[after.kept.len() - 1] == pending[j].1);
                    } else if i < p {
                        assert(after.pending[i] == pending[j]);
                    } else {
                        assert(after.pending[i - 1] == pending[j]);
                    }
                },
                None => {
                    assert(after.pending[i] == pending[j]);
                },
            }
        }
    }
    assert forall|k: int|
        0 <= k < models.len() && !is_owned(#[trigger] models[k], owned, slots) && !has_entry(
            pending,
            models[k],
            slots,
        ) implies after.kept.contains(models[k]) by {
        if k < front.len() {
            assert(front[k] == models[k]);
            let i = choose|i: int| 0 <= i < before.kept.len() && before.kept[i] == models[k];
            assert(after.kept[i] == models[k]);
        } else {
            match place {
                Some(p) => {
                    assert(pending.contains(before.pending[p]));
                    let j = choose|j: int| 0 <= j < pending.len() && pending[j] == before.pending[p];
                    assert(pending[j].0 == slots.slot(slug->Some_0));
                    assert(has_entry(pending, model, slots));
                },
                None => {
                    assert(after.kept[after.kept.len() - 1] == model);
                },
            }
        }
    }
}

/// Of the models that were listed only those stay whose slot no routed model takes: a routed model
/// goes before an official one of the same name, also where its provider is gone.
pub proof fn law_routed_models_take_their_slots(
    models: Seq<JsonView>,
    settings: JsonView,
    entries: Seq<JsonView>,
    slots: SlotTable,
    i: int,
)
    requires
        0 <= i < models_cache::merged_models(models, settings, entries, slots).len(),
    ensures
        ({
            let model = models_cache::merged_models(models, settings, entries, slots)[i];
            entries.contains(model) || (models.contains(model) && !is_owned(
                model,
                model_specs::custom_entries(settings, slots),
                slots,
            ))
        }),
{
    let pending = models_cache::pending_of(entries, slots);
    let owned = model_specs::custom_entries(settings, slots);
    let end = models_cache::merge_end(models, settings, entries, slots);
    lemma_pending_of(entries, slots);
    lemma_merge_sound(models, pending, owned, slots);
    let model = models_cache::merged_models(models, settings, entries, slots)[i];
    if i < end.kept.len() {
        assert(model == end.kept[i]);
        if is_waiting(pending, model) {
            let j = choose|j: int| 0 <= j < pending.len() && (#[trigger] pending[j]).1 == model;
            assert(entries.contains(pending[j].1));
        }
    } else {
        let w = i - end.kept.len();
        assert(model == models_cache::waiting(end.pending)[w]);
        assert(model == end.pending[w].1);
        assert(pending.contains(end.pending[w]));
        let j = choose|j: int| 0 <= j < pending.len() && pending[j] == end.pending[w];
        assert(entries.contains(pending[j].1));
    }
}

/// Each routed model with a name gets into the list.
pub proof fn law_each_routed_model_is_listed(
    models: Seq<JsonView>,
    settings: JsonView,
    entries: Seq<JsonView>,
    slots: SlotTable,
    k: int,
)
    requires
        0 <= k < entries.len(),
        entries[k].get_text("slug"@) is Some,
    ensures
        models_cache::merged_models(models, settings, entries, slots).contains(entries[k]),
{
    let pending = models_cache::pending_of(entries, slots);
    let owned = model_specs::custom_entries(settings, slots);
    let end = models_cache::merge_end(models, settings, entries, slots);
    let all = models_cache::merged_models(models, settings, entries, slots);
    lemma_pending_of(entries, slots);
    lemma_merge_sound(models, pending, owned, slots);
    let p = (slots.slot(entries[k].get_text("slug"@)->Some_0), entries[k]);
    assert(pending.contains(p));
    let j = choose|j: int| 0 <= j < pending.len() && pending[j] == p;
    if end.kept.contains(pending[j].1) {
        let i = choose|i: int| 0 <= i < end.kept.len() && end.kept[i] == pending[j].1;
        assert(all[i] == entries[k]);
    } else {
        let w = choose|w: int| 0 <= w < end.pending.len() && end.pending[w] == pending[j];
        assert(models_cache::waiting(end.pending)[w] == entries[k]);
        assert(all[end.kept.len() + w] == entries[k]);
    }
}

/// A model whose slot no routed model takes, and that no entry replaces, stays.
pub proof fn law_other_models_stay(
    models: Seq<JsonView>,
    settings: JsonView,
    entries: Seq<JsonView>,
    slots: SlotTable,
    k: int,
)
    requires
        0 <= k < models.len(),
        !is_owned(models[k], model_specs::custom_entries(settings, slots), slots),
        !has_entry(models_cache::pending_of(entries, slots), models[k], slots),
    ensures
        models_cache::merged_models(models, settings, entries, slots).contains(models[k]),
{
    let end = models_cache::merge_end(models, settings, entries, slots);
    lemma_merge_sound(
        models,
        models_cache::pending_of(entries, slots),
        model_specs::custom_entries(settings, slots),
        slots,
    );
    let i = choose|i: int| 0 <= i < end.kept.len() && end.kept[i] == models[k];
    assert(models_cache::merged_models(models, settings, entries, slots)[i] == models[k]);
}

proof fn lemma_own_etag(secs: nat)
    ensures
        "W/\"cc-switch-"@.is_prefix_of("W/\"cc-switch-"@ + text::decimal(secs) + "\""@),
{
    let front = "W/\"cc-switch-"@;
    let whole = front + text::decimal(secs) + "\""@;
    assert(whole.subrange(0, front.len() as int) =~= front);
}

proof fn lemma_cache_keys()
    ensures
        "etag"@ != "client_version"@,
        "etag"@ != "models"@,
        "etag"@ != "fetched_at"@,
{
    reveal_strlit("etag");
    reveal_strlit("client_version");
    reveal_strlit("models");
    reveal_strlit("fetched_at");
    assert("etag"@.len() == 4);
    assert("client_version"@.len() == 14);
    assert("models"@.len() == 6);
    assert("fetched_at"@.len() == 10);
}

/// A cache that this application has written is known as such: it is never put aside as an official
/// list, and it has to go when the takeover ends.
pub proof fn law_an_own_cache_is_known(
    models: Seq<JsonView>,
    version: Seq<char>,
    now: Moment,
    baseline_exists: bool,
    settings: Option<JsonView>,
    slots: SlotTable,
)
    ensures
        ({
            let cache = cache_plan::cache_file(models, version, now);
            &&& !models_cache::is_official(cache)
            &&& models_cache::needs_cleanup(baseline_exists, Some(cache), settings, slots)
        }),
{
    lemma_cache_keys();
    lemma_own_etag(now.secs as nat);
    let cache = cache_plan::cache_file(models, version, now);
    assert(cache.get("etag"@) == Some(
        JsonView::Str("W/\"cc-switch-"@ + text::decimal(now.secs as nat) + "\""@),
    ));
}

/// An official cache that nothing was put aside from stays as it is when a takeover ends that never
/// wrote anything: it is told from an own one, unless it lists models in the way of one.
pub proof fn law_an_official_cache_needs_no_cleanup(
    live: JsonView,
    baseline_exists: bool,
    settings: Option<JsonView>,
    slots: SlotTable,
)
    requires
        models_cache::is_official(live),
        !models_cache::has_legacy_models(live, settings, slots),
    ensures
        !models_cache::needs_cleanup(baseline_exists, Some(live), settings, slots),
{
}

/// The cache after some actions.
pub open spec fn live_after(actions: Seq<ActionView>, live: Option<JsonView>) -> Option<JsonView>
    decreases actions.len(),
{
    if actions.len() == 0 {
        live
    } else {
        match actions.last() {
            ActionView::WriteBaseline(_) => live_after(actions.drop_last(), live),
            ActionView::RemoveLive => None,
            ActionView::WriteLive(file) => Some(file),
        }
    }
}

/// Putting the official list back leaves no cache or an official one.
pub proof fn law_restoring_leaves_official_models_only(
    saved: Option<JsonView>,
    live: Option<JsonView>,
    now: Moment,
)
    ensures
        ({
            let list = match live {
                Some(live) => live,
                None => cache_plan::no_models(),
            };
            let plan = cache_plan::restore_plan(saved, list, now);
            live_after(plan.actions, live) matches Some(cache) ==> models_cache::is_official(cache)
        }),
{
    let list = match live {
        Some(live) => live,
        None => cache_plan::no_models(),
    };
    let step = official_baseline::baseline_step(saved, list, now);
    official_baseline::law_the_baseline_is_official(saved, list, now);
    let first = cache_plan::step_actions(step.write);
    reveal_with_fuel(live_after, 3);
    assert(live_after(first, live) == live) by {
        if step.write is Some {
            assert(first.drop_last() =~= Seq::<ActionView>::empty());
        }
    }
}

/// Whether a file that keeps the official list holds the models of a list, or none at all.
pub open spec fn keeps_models_of(file: JsonView, list: JsonView) -> bool {
    file.get("models"@) == list.get("models"@) || official_baseline::is_awaiting(file)
}

/// What is put aside while official and routed models are shown together is the official list as it
/// was fetched: without marks before the names and without routed models.
pub proof fn law_the_official_list_is_put_aside_as_it_is(
    saved: Option<JsonView>,
    live: JsonView,
    settings: JsonView,
    slots: SlotTable,
    entries: Result<Seq<JsonView>, ErrorView>,
    detected: Option<Seq<char>>,
    now: Moment,
    i: int,
)
    requires
        0 <= i < cache_plan::official_login_plan(
            saved,
            live,
            settings,
            slots,
            entries,
            detected,
            now,
        ).actions.len(),
    ensures
        cache_plan::official_login_plan(
            saved,
            live,
            settings,
            slots,
            entries,
            detected,
            now,
        ).actions[i] matches ActionView::WriteBaseline(file) ==> keeps_models_of(file, live) || (
        saved matches Some(saved) && keeps_models_of(file, saved)),
{
    lemma_keeps_models(saved, live, now);
    let step = official_baseline::baseline_step(saved, live, now);
    lemma_keeps_models(cache_plan::saved_after(saved, step.write), live, now);
}

/// A step with the official list keeps its models.
proof fn lemma_keeps_models(saved: Option<JsonView>, live: JsonView, now: Moment)
    ensures
        official_baseline::baseline_step(saved, live, now).write matches Some(file)
            ==> keeps_models_of(file, live) || (saved matches Some(saved) && keeps_models_of(
            file,
            saved,
        )),
{
    reveal_strlit("models");
    reveal_strlit("cc_switch_captured_at");
    reveal_strlit("cc_switch_state");
    reveal_strlit("rejected_fingerprint");
    assert("models"@.len() == 6);
    assert(CODEX_OFFICIAL_BASELINE_CAPTURED_AT_KEY@.len() == 21);
    assert(official_baseline::CODEX_OFFICIAL_BASELINE_STATE_KEY@.len() == 15);
    assert("rejected_fingerprint"@.len() == 20);
}

} // verus!
