//! What holds of the models that the desktop application is told of, and of when it is told.

use crate::json::JsonView;
use crate::paths::LocationView;
use crate::statsig_sync::{CodexDesktopCachePinPolicy, RawView, RecordView, TimesView};
use crate::statsig_worker::{
    CacheSyncView, CodexDesktopCacheRetryOutcome, CodexDesktopCacheSyncResult, PathOutcome,
};
use crate::{
    json, live_catalog, model_specs, statsig_codec, statsig_models, statsig_pins, statsig_sync,
    statsig_worker, text,
};
use vstd::prelude::*;
use vstd::string::*;

verus! {

/// Whether a row names a model.
pub open spec fn names(row: JsonView, id: Seq<char>) -> bool {
    row.get("model"@) matches Some(JsonView::Str(t)) && !text::is_blank(t) && text::trim(t) == id
}

/// Whether a list that is there has a row that names a model.
pub open spec fn lists(rows: Option<JsonView>, id: Seq<char>) -> bool {
    rows matches Some(JsonView::Array(rows)) && has_row(rows, id)
}

/// Whether a row names a model.
pub open spec fn has_row(rows: Seq<JsonView>, id: Seq<char>) -> bool {
    exists|k: int| 0 <= k < rows.len() && names(#[trigger] rows[k], id)
}

proof fn lemma_with_ids(ids: Seq<Seq<char>>, items: Seq<JsonView>, id: Seq<char>)
    requires
        ids.no_duplicates(),
    ensures
        ({
            let all = statsig_models::with_ids(ids, items);
            &&& all.no_duplicates()
            &&& ids.is_prefix_of(all)
            &&& all.contains(id) <==> ids.contains(id) || has_row(items, id)
        }),
    decreases items.len(),
{
    let all = statsig_models::with_ids(ids, items);
    if items.len() > 0 {
        let front = statsig_models::with_ids(ids, items.drop_last());
        lemma_with_ids(ids, items.drop_last(), id);
        assert(has_row(items, id) == (has_row(items.drop_last(), id) || names(items.last(), id))) by {
            if has_row(items.drop_last(), id) {
                let k = choose|k: int|
                    0 <= k < items.drop_last().len() && names(#[trigger] items.drop_last()[k], id);
                assert(names(items[k], id));
            }
            if names(items.last(), id) {
                assert(names(items[items.len() - 1], id));
            }
            if has_row(items, id) {
                let k = choose|k: int| 0 <= k < items.len() && names(#[trigger] items[k], id);
                if k < items.len() - 1 {
                    assert(names(items.drop_last()[k], id));
                }
            }
        }
        assert(all == front || all == front.push(all.last()));
        assert(ids.is_prefix_of(all));
        if all != front {
            assert(front.push(all.last()).contains(id) == (front.contains(id) || id == all.last()))
                by {
                if front.contains(id) {
                    let k = choose|k: int| 0 <= k < front.len() && front[k] == id;
                    assert(front.push(all.last())[k] == id);
                }
                if id == all.last() {
                    assert(front.push(all.last())[front.len() as int] == id);
                }
                if front.push(all.last()).contains(id) {
                    let k = choose|k: int|
                        0 <= k < front.push(all.last()).len() && front.push(all.last())[k] == id;
                    if k < front.len() {
                        assert(front[k] == id);
                    }
                }
            }
        }
    } else {
        assert(!has_row(items, id));
    }
}

/// The desktop application is told of each model that the settings name, in the catalog and among the
/// routed rows, of each once, and of no other; those of the catalog come first.
pub proof fn law_every_model_of_the_settings_is_told(settings: JsonView, id: Seq<char>)
    ensures
        ({
            let ids = statsig_models::model_ids(settings);
            let catalog = if settings.get("modelCatalog"@) is Some {
                settings.get("modelCatalog"@)->Some_0.get("models"@)
            } else {
                None
            };
            &&& ids.contains(id) <==> lists(catalog, id) || lists(
                settings.get("codexCustomModels"@),
                id,
            )
            &&& ids.no_duplicates()
            &&& statsig_models::with_ids(
                Seq::empty(),
                statsig_models::catalog_items(settings),
            ).is_prefix_of(ids)
        }),
{
    let none = Seq::<Seq<char>>::empty();
    let items = statsig_models::catalog_items(settings);
    let rows = statsig_models::custom_items(settings);
    lemma_with_ids(none, items, id);
    lemma_with_ids(statsig_models::with_ids(none, items), rows, id);
}

/// A member of a member, where both are there.
pub open spec fn below(value: Option<JsonView>, key: Seq<char>) -> Option<JsonView> {
    if value is Some {
        value->Some_0.get(key)
    } else {
        None
    }
}

/// Where the models stand in what the desktop application has stored.
pub open spec fn stored_models(data: JsonView) -> Option<JsonView> {
    below(
        below(below(data.get("dynamic_configs"@), "107580212"@), "value"@),
        "available_models"@,
    )
}

/// The stored models are read where their list is, in the text of the wrapper's data; without a list
/// there none are.
pub proof fn law_where_the_stored_models_are(wrapper: JsonView, data: JsonView)
    requires
        wrapper.get("data"@) matches Some(JsonView::Str(t)) && json::json_text(t) == Some(data),
    ensures
        statsig_models::available_ids(wrapper) is Some <==> (stored_models(data) matches Some(list)
            && list is Array),
        stored_models(data) matches Some(JsonView::Array(items)) ==> {
            &&& statsig_models::models_in(data) == Some(items)
            &&& statsig_models::available_ids(wrapper) == Some(
                model_specs::text_items(items),
            )
        },
{
}

/// Whether nothing is stored under a name, or an object without members.
pub open spec fn is_vacant(value: Option<JsonView>) -> bool {
    value is None || (value->Some_0 is Object && forall|name: Seq<char>|
        !#[trigger] value->Some_0->Object_0.dom().contains(name))
}

/// What is stored is of the models alone exactly where it has no gates and no layers, and no
/// configuration but that of the models.
pub proof fn law_what_is_of_the_models_alone(wrapper: JsonView, data: JsonView)
    requires
        wrapper.get("data"@) matches Some(JsonView::Str(t)) && json::json_text(t) == Some(data),
    ensures
        statsig_models::is_isolated(wrapper) <==> {
            &&& is_vacant(data.get("feature_gates"@))
            &&& is_vacant(data.get("layer_configs"@))
            &&& data.get("dynamic_configs"@) matches Some(JsonView::Object(configs)) && forall|
                name: Seq<char>,
            |
                #[trigger] configs.dom().contains(name) <==> name == "107580212"@
        },
{
    assert(statsig_models::data_of(wrapper) == Some(data));
    if data.get("dynamic_configs"@) is Some && data.get("dynamic_configs"@)->Some_0 is Object {
        let configs = data.get("dynamic_configs"@)->Some_0->Object_0;
        let one = set!["107580212"@];
        assert(statsig_models::CODEX_DESKTOP_STATSIG_MODELS_CONFIG_ID@ == "107580212"@);
        if forall|name: Seq<char>|
            #[trigger] configs.dom().contains(name) <==> name == "107580212"@ {
            assert(configs.dom() =~= one);
        }
        if configs.dom() =~= one {
            assert forall|name: Seq<char>| #[trigger]
                configs.dom().contains(name) <==> name == "107580212"@ by {
                assert(one.contains(name) <==> name == "107580212"@);
            }
        }
    }
}

/// A wrapper has all models exactly where each of them is among those that it lists.
pub proof fn law_when_all_models_are_there(wrapper: JsonView, ids: Seq<Seq<char>>, i: int)
    requires
        0 <= i < ids.len(),
    ensures
        statsig_models::has_all(wrapper, ids) ==> (statsig_models::available_ids(
            wrapper,
        ) matches Some(available) && available.contains(ids[i])),
        statsig_models::available_ids(wrapper) matches Some(available) && !available.contains(ids[i])
            ==> !statsig_models::has_all(wrapper, ids),
{
}

/// What was there before stays, item by item and in its order, but for the strings that were added
/// here before.
pub proof fn law_what_was_there_stays(
    a: Seq<JsonView>,
    b: Seq<JsonView>,
    item: JsonView,
    owned: Seq<Seq<char>>,
)
    ensures
        statsig_models::kept_items(a + b, owned) == statsig_models::kept_items(a, owned)
            + statsig_models::kept_items(b, owned),
        item is Str && owned.contains(item->Str_0) ==> statsig_models::kept_items(
            seq![item],
            owned,
        ).len() == 0,
        !(item is Str && owned.contains(item->Str_0)) ==> statsig_models::kept_items(
            seq![item],
            owned,
        ) == seq![item],
    decreases b.len(),
{
    reveal_with_fuel(statsig_models::kept_items, 2);
    assert(seq![item].last() == item);
    assert(seq![item].drop_last() =~= Seq::empty());
    if !(item is Str && owned.contains(item->Str_0)) {
        assert(statsig_models::kept_items(seq![item], owned) =~= seq![item]);
    }
    if b.len() == 0 {
        assert(a + b =~= a);
    } else {
        law_what_was_there_stays(a, b.drop_last(), item, owned);
        assert((a + b).drop_last() =~= a + b.drop_last());
        assert((a + b).last() == b.last());
    }
    assert(statsig_models::kept_items(a + b, owned) =~= statsig_models::kept_items(a, owned)
        + statsig_models::kept_items(b, owned));
}

/// Each model that is not there yet is added, once, and no other.
pub proof fn law_what_is_missing_is_added(
    present: Seq<Seq<char>>,
    ids: Seq<Seq<char>>,
    id: Seq<char>,
)
    ensures
        statsig_models::added_ids(present, ids).contains(id) <==> ids.contains(id)
            && !present.contains(id),
        statsig_models::added_ids(present, ids).no_duplicates(),
    decreases ids.len(),
{
    let all = statsig_models::added_ids(present, ids);
    if ids.len() > 0 {
        let front = statsig_models::added_ids(present, ids.drop_last());
        let last = ids.last();
        law_what_is_missing_is_added(present, ids.drop_last(), id);
        law_what_is_missing_is_added(present, ids.drop_last(), last);
        assert(ids.contains(id) == (ids.drop_last().contains(id) || id == last)) by {
            if ids.drop_last().contains(id) {
                let k = choose|k: int|
                    0 <= k < ids.drop_last().len() && ids.drop_last()[k] == id;
                assert(ids[k] == id);
            }
            if id == last {
                assert(ids[ids.len() - 1] == id);
            }
            if ids.contains(id) {
                let k = choose|k: int| 0 <= k < ids.len() && ids[k] == id;
                if k < ids.len() - 1 {
                    assert(ids.drop_last()[k] == id);
                }
            }
        }
        assert(front.push(last).contains(id) == (front.contains(id) || id == last)) by {
            if front.contains(id) {
                let k = choose|k: int| 0 <= k < front.len() && front[k] == id;
                assert(front.push(last)[k] == id);
            }
            if id == last {
                assert(front.push(last)[front.len() as int] == id);
            }
            if front.push(last).contains(id) {
                let k = choose|k: int|
                    0 <= k < front.push(last).len() && front.push(last)[k] == id;
                if k < front.len() {
                    assert(front[k] == id);
                }
            }
        }
    }
}

/// A merge changes the wrapper in its data and in the mark of what was added, and nowhere else; the
/// mark lists what was added, and is gone where that is nothing.
pub proof fn law_a_merge_touches_nothing_else(
    wrapper: JsonView,
    ids: Seq<Seq<char>>,
    key: Seq<char>,
)
    requires
        wrapper is Object,
    ensures
        key != "data"@ && key != "cc_switch_injected_available_models"@ ==> statsig_models::merged(
            wrapper,
            ids,
        ).get(key) == wrapper.get(key),
        statsig_models::merge_of(wrapper, ids) is None ==> statsig_models::merged(wrapper, ids)
            == wrapper,
        statsig_models::merge_of(wrapper, ids) is Some ==> {
            let merge = statsig_models::merge_of(wrapper, ids)->Some_0;
            let mark = statsig_models::merged(wrapper, ids).get(
                "cc_switch_injected_available_models"@,
            );
            &&& merge.added.len() == 0 ==> mark is None
            &&& merge.added.len() > 0 ==> (mark matches Some(JsonView::Array(items)) && items.len()
                == merge.added.len() && forall|i: int|
                0 <= i < items.len() ==> #[trigger] items[i] == JsonView::Str(merge.added[i]))
        },
{
    reveal_strlit("data");
    reveal_strlit("cc_switch_injected_available_models");
    assert("data"@.len() == 4);
    assert("cc_switch_injected_available_models"@.len() == 35);
}

/// In the data a merge changes the list of the models, and nothing beside it on the way there.
pub proof fn law_a_merge_changes_the_models_alone(
    data: JsonView,
    items: Seq<JsonView>,
    key: Seq<char>,
)
    requires
        statsig_models::models_in(data) is Some,
    ensures
        ({
            let after = statsig_models::with_models(data, items);
            let configs = data.get("dynamic_configs"@);
            let config = below(configs, "107580212"@);
            let configs_after = after.get("dynamic_configs"@);
            let config_after = below(configs_after, "107580212"@);
            &&& stored_models(after) == Some(JsonView::Array(items))
            &&& key != "dynamic_configs"@ ==> after.get(key) == data.get(key)
            &&& key != "107580212"@ ==> below(configs_after, key) == below(configs, key)
            &&& key != "value"@ ==> below(config_after, key) == below(config, key)
            &&& key != "available_models"@ ==> below(below(config_after, "value"@), key) == below(
                below(config, "value"@),
                key,
            )
        }),
{
}

/// A time is set thirty days ahead, as far as there are such times.
pub proof fn law_how_far_times_are_set_ahead(now: i64)
    ensures
        now + 2_592_000_000 <= i64::MAX ==> statsig_pins::pinned_until(now) == now + 2_592_000_000,
        now + 2_592_000_000 > i64::MAX ==> statsig_pins::pinned_until(now) == i64::MAX,
{
}

/// Setting times sets those that were asked for, and no other.
pub proof fn law_which_times_are_set(
    times: JsonView,
    keys: Seq<Seq<char>>,
    now: i64,
    key: Seq<char>,
)
    requires
        times is Object,
    ensures
        ({
            let after = statsig_pins::pinned(times, keys, now);
            let back = statsig_pins::unpinned(times, keys, now);
            &&& after is Object
            &&& back is Object
            &&& !keys.contains(key) ==> after.get(key) == times.get(key) && back.get(key)
                == times.get(key)
            &&& keys.contains(key) ==> statsig_pins::time_of(after, key) == Some(
                statsig_pins::pinned_until(now),
            )
            &&& keys.contains(key) && is_ahead(times, key, now) ==> statsig_pins::time_of(back, key)
                == Some(now)
            &&& keys.contains(key) && !is_ahead(times, key, now) ==> back.get(key) == times.get(key)
        }),
    decreases keys.len(),
{
    if keys.len() > 0 {
        let front = keys.drop_last();
        law_which_times_are_set(times, front, now, key);
        law_which_times_are_set(times, front, now, keys.last());
        assert(keys.contains(key) == (front.contains(key) || key == keys.last())) by {
            if front.contains(key) {
                let k = choose|k: int| 0 <= k < front.len() && front[k] == key;
                assert(keys[k] == key);
            }
            if key == keys.last() {
                assert(keys[keys.len() - 1] == key);
            }
            if keys.contains(key) {
                let k = choose|k: int| 0 <= k < keys.len() && keys[k] == key;
                if k < front.len() {
                    assert(front[k] == key);
                }
            }
        }
    }
}

/// Whether a whole number under a key is later than another.
pub open spec fn is_ahead(times: JsonView, key: Seq<char>, now: i64) -> bool {
    times.get(key) matches Some(value) && (value.integer() matches Some(time) && time > now)
}

/// Text that starts, or ends, with no NUL has none taken off.
proof fn lemma_nul(s: Seq<char>) -> (at: (int, int))
    ensures
        0 <= at.0 <= s.len(),
        0 <= at.1 <= s.len(),
        statsig_pins::trim_nul_end(s) == s.take(at.0),
        forall|k: int| at.0 <= k < s.len() ==> s[k] == '\0',
        at.0 > 0 ==> s[at.0 - 1] != '\0',
        statsig_pins::trim_nul_start(s) == s.skip(at.1),
        forall|k: int| 0 <= k < at.1 ==> s[k] == '\0',
        at.1 < s.len() ==> s[at.1] != '\0',
    decreases s.len(),
{
    let to = if s.len() > 0 && s.last() == '\0' {
        let at = lemma_nul(s.drop_last());
        assert(s.drop_last().take(at.0) =~= s.take(at.0));
        assert forall|k: int| at.0 <= k < s.len() implies s[k] == '\0' by {
            if k < s.len() - 1 {
                assert(s.drop_last()[k] == '\0');
            }
        }
        at.0
    } else {
        assert(s.take(s.len() as int) =~= s);
        s.len() as int
    };
    let from = if s.len() > 0 && s.first() == '\0' {
        let at = lemma_nul(s.drop_first());
        assert(s.drop_first().skip(at.1) =~= s.skip(at.1 + 1));
        assert forall|k: int| 0 <= k < at.1 + 1 implies s[k] == '\0' by {
            if k > 0 {
                assert(s.drop_first()[k - 1] == '\0');
            }
        }
        at.1 + 1
    } else {
        assert(s.skip(0) =~= s);
        0
    };
    (to, from)
}

proof fn lemma_first_marker(key: Seq<char>, marker: Seq<char>, place: int)
    requires
        text::occurs_at(key, marker, place),
        forall|i: int| 0 <= i < place ==> !#[trigger] text::occurs_at(key, marker, i),
    ensures
        statsig_pins::first_at(key, marker) == Some(place),
{
    assert(statsig_pins::is_first_at(key, marker, place));
    let found = statsig_pins::first_at(key, marker)->Some_0;
    assert(statsig_pins::is_first_at(key, marker, found));
    if found < place {
        assert(text::occurs_at(key, marker, found));
    }
    if place < found {
        assert(text::occurs_at(key, marker, place));
    }
}

/// What stands before the first marker in a key is its origin, without the NULs at its end. `at` is
/// where it ends.
pub proof fn law_the_origin_of_a_key(
    key: Seq<char>,
    marker: Seq<char>,
    place: int,
) -> (at: int)
    requires
        text::occurs_at(key, marker, place),
        forall|i: int| 0 <= i < place ==> !#[trigger] text::occurs_at(key, marker, i),
    ensures
        0 <= at <= place,
        statsig_pins::origin_of(key, marker) == Some(key.take(at)),
        forall|k: int| at <= k < place ==> key[k] == '\0',
        at > 0 ==> key[at - 1] != '\0',
{
    lemma_first_marker(key, marker, place);
    let before = key.take(place);
    let at = lemma_nul(before).0;
    assert(before.take(at) =~= key.take(at));
    assert forall|k: int| at <= k < place implies key[k] == '\0' by {
        assert(before[k] == '\0');
    }
    at
}

/// What stands from the first marker of a key on is its name, without the NULs at its end. `at` is
/// where it ends.
pub proof fn law_the_name_of_a_key(key: Seq<char>, marker: Seq<char>, place: int) -> (at: int)
    requires
        text::occurs_at(key, marker, place),
        forall|i: int| 0 <= i < place ==> !#[trigger] text::occurs_at(key, marker, i),
        marker.len() > 0,
        marker[0] != '\0',
    ensures
        place < at <= key.len(),
        statsig_pins::name_from(key, marker) == Some(key.subrange(place, at)),
        forall|k: int| at <= k < key.len() ==> key[k] == '\0',
        key[at - 1] != '\0',
{
    lemma_first_marker(key, marker, place);
    let rest = key.skip(place);
    let from = lemma_nul(rest).1;
    assert(rest[0] == marker[0]) by {
        assert(key.subrange(place, place + marker.len())[0] == key[place]);
    }
    assert(rest.skip(0) =~= rest);
    let to = lemma_nul(rest).0;
    assert(rest.take(to) =~= key.subrange(place, place + to));
    assert forall|k: int| place + to <= k < key.len() implies key[k] == '\0' by {
        assert(rest[k - place] == '\0');
    }
    place + to
}

/// A key without the marker has neither.
pub proof fn law_a_key_without_the_marker_is_passed_over(key: Seq<char>, marker: Seq<char>)
    requires
        !text::occurs(key, marker),
    ensures
        statsig_pins::origin_of(key, marker) is None,
        statsig_pins::name_from(key, marker) is None,
{
    if exists|at: int| statsig_pins::is_first_at(key, marker, at) {
        let at = choose|at: int| statsig_pins::is_first_at(key, marker, at);
        assert(text::occurs_at(key, marker, at));
    }
}

/// What is read of an entry of the storage: its key has the marker of stored evaluations, and its
/// value is one that can be read. It is written again exactly where the merge changes it, with the
/// models merged in, and in the form that it had.
pub proof fn law_what_is_read_of_an_entry(entry: RawView, ids: Seq<Seq<char>>)
    ensures
        ({
            let key = statsig_sync::lossy_text(entry.key);
            let record = statsig_sync::record_of(entry, ids);
            let stored = statsig_codec::decoded(entry.value);
            &&& record is Some <==> statsig_pins::origin_of(key, "statsig.cached.evaluations"@)
                is Some && stored is Some
            &&& record is Some ==> {
                let record = record->Some_0;
                let value = stored->Some_0.value;
                let after = statsig_models::merged(value, ids);
                let models = statsig_models::available_ids(value);
                &&& record.key == entry.key
                &&& Some(record.origin) == statsig_pins::origin_of(
                    key,
                    "statsig.cached.evaluations"@,
                )
                &&& Some(record.name) == statsig_pins::name_from(key, "statsig.cached.evaluations"@)
                &&& record.has_models <==> models is Some
                &&& record.isolated <==> models is Some && statsig_models::is_isolated(value)
                &&& record.update is Some <==> statsig_models::merge_changes(value, ids)
                &&& record.update is Some ==> record.update->Some_0 == statsig_codec::encoded(
                    stored->Some_0.prefix,
                    stored->Some_0.encoding,
                    after,
                )
                &&& record.complete <==> ids.len() > 0 && statsig_models::has_all(after, ids)
            }
        }),
{
}

/// The entries that are written for their models are those that changed, in their order.
pub proof fn law_changed_entries_are_written(
    a: Seq<RawView>,
    b: Seq<RawView>,
    entry: RawView,
    ids: Seq<Seq<char>>,
)
    ensures
        statsig_sync::records_of(a + b, ids) == statsig_sync::records_of(a, ids)
            + statsig_sync::records_of(b, ids),
        statsig_sync::record_of(entry, ids) is None ==> statsig_sync::records_of(
            seq![entry],
            ids,
        ).len() == 0,
        statsig_sync::record_of(entry, ids) is Some ==> statsig_sync::records_of(seq![entry], ids)
            == seq![statsig_sync::record_of(entry, ids)->Some_0],
    decreases b.len(),
{
    reveal_with_fuel(statsig_sync::records_of, 2);
    assert(seq![entry].last() == entry);
    assert(seq![entry].drop_last() =~= Seq::empty());
    if statsig_sync::record_of(entry, ids) is Some {
        assert(statsig_sync::records_of(seq![entry], ids) =~= seq![
            statsig_sync::record_of(entry, ids)->Some_0,
        ]);
    }
    if b.len() == 0 {
        assert(a + b =~= a);
    } else {
        law_changed_entries_are_written(a, b.drop_last(), entry, ids);
        assert((a + b).drop_last() =~= a + b.drop_last());
        assert((a + b).last() == b.last());
    }
    assert(statsig_sync::records_of(a + b, ids) =~= statsig_sync::records_of(a, ids)
        + statsig_sync::records_of(b, ids));
}

/// The updates of records are those that they have, in their order.
pub proof fn law_each_update_is_written(a: Seq<RecordView>, b: Seq<RecordView>, record: RecordView)
    ensures
        statsig_sync::record_updates(a + b) == statsig_sync::record_updates(a)
            + statsig_sync::record_updates(b),
        record.update is None ==> statsig_sync::record_updates(seq![record]).len() == 0,
        record.update is Some ==> statsig_sync::record_updates(seq![record]) == seq![
            RawView { key: record.key, value: record.update->Some_0 },
        ],
    decreases b.len(),
{
    reveal_with_fuel(statsig_sync::record_updates, 2);
    assert(seq![record].last() == record);
    assert(seq![record].drop_last() =~= Seq::empty());
    if record.update is Some {
        assert(statsig_sync::record_updates(seq![record]) =~= seq![
            RawView { key: record.key, value: record.update->Some_0 },
        ]);
    }
    if b.len() == 0 {
        assert(a + b =~= a);
    } else {
        law_each_update_is_written(a, b.drop_last(), record);
        assert((a + b).drop_last() =~= a + b.drop_last());
        assert((a + b).last() == b.last());
    }
    assert(statsig_sync::record_updates(a + b) =~= statsig_sync::record_updates(a)
        + statsig_sync::record_updates(b));
}

/// Which times are set ahead and which are set back: those of an origin whose values are complete and
/// of the models alone are set ahead; those that list models are set back where there are no models to
/// list, or where the value is not of the models alone.
pub proof fn law_which_names_are_set(
    records: Seq<RecordView>,
    origin: Seq<char>,
    ids_empty: bool,
    name: Seq<char>,
)
    ensures
        statsig_sync::pinned_names(records, origin).contains(name) <==> exists|k: int|
            0 <= k < records.len() && goes_ahead(#[trigger] records[k], origin, name),
        statsig_sync::unpinned_names(records, origin, ids_empty).contains(name) <==> exists|k: int|
            0 <= k < records.len() && goes_back(#[trigger] records[k], origin, ids_empty, name),
    decreases records.len(),
{
    let ahead = statsig_sync::pinned_names(records, origin);
    let back = statsig_sync::unpinned_names(records, origin, ids_empty);
    if records.len() > 0 {
        let front = records.drop_last();
        let last = records.last();
        law_which_names_are_set(front, origin, ids_empty, name);
        let ahead_front = statsig_sync::pinned_names(front, origin);
        let back_front = statsig_sync::unpinned_names(front, origin, ids_empty);
        lemma_pushed(ahead_front, last.name, name);
        lemma_pushed(back_front, last.name, name);
        assert(last == records[records.len() - 1]);
        if ahead_front.contains(name) {
            let k = choose|k: int|
                0 <= k < front.len() && goes_ahead(#[trigger] front[k], origin, name);
            assert(goes_ahead(records[k], origin, name));
        }
        if back_front.contains(name) {
            let k = choose|k: int|
                0 <= k < front.len() && goes_back(#[trigger] front[k], origin, ids_empty, name);
            assert(goes_back(records[k], origin, ids_empty, name));
        }
        if exists|k: int|
            0 <= k < records.len() && goes_ahead(#[trigger] records[k], origin, name) {
            let k = choose|k: int|
                0 <= k < records.len() && goes_ahead(#[trigger] records[k], origin, name);
            if k < front.len() {
                assert(goes_ahead(front[k], origin, name));
            }
        }
        if exists|k: int|
            0 <= k < records.len() && goes_back(#[trigger] records[k], origin, ids_empty, name) {
            let k = choose|k: int|
                0 <= k < records.len() && goes_back(#[trigger] records[k], origin, ids_empty, name);
            if k < front.len() {
                assert(goes_back(front[k], origin, ids_empty, name));
            }
        }
    }
}

proof fn lemma_pushed(list: Seq<Seq<char>>, last: Seq<char>, id: Seq<char>)
    ensures
        list.push(last).contains(id) == (list.contains(id) || id == last),
{
    if list.contains(id) {
        let k = choose|k: int| 0 <= k < list.len() && list[k] == id;
        assert(list.push(last)[k] == id);
    }
    if id == last {
        assert(list.push(last)[list.len() as int] == id);
    }
    if list.push(last).contains(id) {
        let k = choose|k: int| 0 <= k < list.push(last).len() && list.push(last)[k] == id;
        if k < list.len() {
            assert(list[k] == id);
        }
    }
}

/// Whether a record has a time that is set ahead.
pub open spec fn goes_ahead(record: RecordView, origin: Seq<char>, name: Seq<char>) -> bool {
    record.origin == origin && record.name == name && record.complete && record.isolated
}

/// Whether a record has a time that is set back.
pub open spec fn goes_back(
    record: RecordView,
    origin: Seq<char>,
    ids_empty: bool,
    name: Seq<char>,
) -> bool {
    record.origin == origin && record.name == name && record.has_models && (ids_empty
        || !record.isolated)
}

/// Where times are kept, no time is written, and the storage is never ready.
pub proof fn law_kept_times_are_not_written(entries: Seq<RawView>, ids: Seq<Seq<char>>, now: i64)
    ensures
        ({
            let plan = statsig_sync::path_plan(
                entries,
                ids,
                CodexDesktopCachePinPolicy::Preserve,
                now,
            );
            &&& plan.updates == statsig_sync::record_updates(statsig_sync::records_of(entries, ids))
            &&& !plan.ready_model_cache
        }),
{
    let records = statsig_sync::records_of(entries, ids);
    assert(statsig_sync::times_updates(Seq::empty()) =~= Seq::empty());
    assert(statsig_sync::record_updates(records) + Seq::<RawView>::empty()
        =~= statsig_sync::record_updates(records));
}

/// A storage is looked at again soon exactly where there are models to list and a value that lists
/// models is not of the models alone.
pub proof fn law_when_a_storage_is_looked_at_again(
    entries: Seq<RawView>,
    ids: Seq<Seq<char>>,
    policy: CodexDesktopCachePinPolicy,
    now: i64,
)
    ensures
        statsig_sync::path_plan(entries, ids, policy, now).requires_short_retry <==> ids.len() > 0
            && exists|i: int|
            0 <= i < statsig_sync::records_of(entries, ids).len() && (
            #[trigger] statsig_sync::records_of(entries, ids)[i]).has_models
                && !statsig_sync::records_of(entries, ids)[i].isolated,
{
    let records = statsig_sync::records_of(entries, ids);
    if statsig_sync::has_shared(records) {
        let i = choose|i: int|
            0 <= i < records.len() && (#[trigger] records[i]).has_models && !records[i].isolated;
        assert(statsig_sync::records_of(entries, ids)[i].has_models);
    }
}

/// The storages of the desktop application below its data: its own and that of its browser, each in
/// the data itself and in its default profile.
pub proof fn law_where_the_storages_are(root: LocationView)
    ensures
        ({
            let list = statsig_worker::storages_below(root);
            &&& list.len() == 4
            &&& list[0] == root.child("Local Storage"@).child("leveldb"@)
            &&& list[1] == root.child("Default"@).child("Local Storage"@).child("leveldb"@)
            &&& list[2] == root.child("Partitions"@).child("codex-browser-app"@).child(
                "Local Storage"@,
            ).child("leveldb"@)
            &&& list[3] == root.child("Default"@).child("Partitions"@).child(
                "codex-browser-app"@,
            ).child("Local Storage"@).child("leveldb"@)
        }),
{
}

/// Where the data is on Linux: below the directory that is set for it, and else below the home.
pub proof fn law_where_the_data_is_on_linux(set: Option<Seq<char>>, home: Seq<char>)
    ensures
        set is Some && set->Some_0.len() > 0 ==> statsig_worker::linux_root(set, home)
            == (LocationView { base: set->Some_0, below: seq!["Codex"@] }),
        set is None || set->Some_0.len() == 0 ==> statsig_worker::linux_root(set, home)
            == (LocationView { base: home, below: seq![".config"@, "Codex"@] }),
{
    assert(Seq::<Seq<char>>::empty().push("Codex"@) =~= seq!["Codex"@]);
    assert(Seq::<Seq<char>>::empty().push(".config"@).push("Codex"@) =~= seq![
        ".config"@,
        "Codex"@,
    ]);
}

/// Which storages are used today: those of a partition, those of the application on the web, and,
/// where the data itself is used, those in a local storage.
pub proof fn law_which_storages_are_used(parts: Seq<Seq<char>>, roots: bool, i: int)
    requires
        0 <= i < parts.len(),
    ensures
        text::lower(parts[i]) == text::lower("Partitions"@) ==> statsig_worker::is_active_layout(
            parts,
            roots,
        ),
        i + 1 < parts.len() && text::lower(parts[i]) == text::lower("web"@) && text::lower(
            parts[i + 1],
        ) == text::lower("Codex"@) ==> statsig_worker::is_active_layout(parts, roots),
        roots && i + 1 < parts.len() && text::lower(parts[i]) == text::lower("Local Storage"@)
            && text::lower(parts[i + 1]) == text::lower("leveldb"@)
            ==> statsig_worker::is_active_layout(parts, roots),
        !roots && (forall|k: int|
            0 <= k < parts.len() ==> text::lower(#[trigger] parts[k]) != text::lower("Partitions"@)
                && text::lower(parts[k]) != text::lower("web"@))
            ==> !statsig_worker::is_active_layout(parts, roots),
{
    if text::lower(parts[i]) == text::lower("Partitions"@) {
        assert(statsig_worker::is_named(parts[i], "Partitions"@));
    }
    if i + 1 < parts.len() {
        if text::lower(parts[i]) == text::lower("web"@) && text::lower(parts[i + 1])
            == text::lower("Codex"@) {
            assert(statsig_worker::is_named(parts[i], "web"@));
            assert(statsig_worker::has_pair(parts, "web"@, "Codex"@));
        }
        if text::lower(parts[i]) == text::lower("Local Storage"@) && text::lower(parts[i + 1])
            == text::lower("leveldb"@) {
            assert(statsig_worker::is_named(parts[i], "Local Storage"@));
            assert(statsig_worker::has_pair(parts, "Local Storage"@, "leveldb"@));
        }
    }
}

/// The package of the application is known by how its name starts, whatever its case.
pub proof fn law_which_packages_are_of_the_application(name: Seq<char>)
    ensures
        statsig_worker::is_codex_package(name) <==> "openai.codex_"@.is_prefix_of(text::lower(name)),
{
}

/// Whether an outcome has an error.
pub open spec fn has_error(outcomes: Seq<PathOutcome>) -> bool {
    exists|i: int| 0 <= i < outcomes.len() && (#[trigger] outcomes[i]).result is Err
}

proof fn lemma_errors(outcomes: Seq<PathOutcome>)
    ensures
        statsig_worker::errors_of(outcomes).len() > 0 <==> has_error(outcomes),
    decreases outcomes.len(),
{
    if outcomes.len() > 0 {
        let front = outcomes.drop_last();
        lemma_errors(front);
        if has_error(front) {
            let i = choose|i: int| 0 <= i < front.len() && (#[trigger] front[i]).result is Err;
            assert(outcomes[i].result is Err);
        }
        if outcomes.last().result is Err {
            assert(outcomes[outcomes.len() - 1].result is Err);
        }
        if has_error(outcomes) {
            let i = choose|i: int|
                0 <= i < outcomes.len() && (#[trigger] outcomes[i]).result is Err;
            if i < front.len() {
                assert(front[i].result is Err);
            }
        }
    }
}

/// Writing the models fails where a storage is locked, and where there are errors and nothing was
/// written. What is found is looked at again where there was an error, and, with models to list, until
/// a storage that is used is ready and none has to be looked at again.
pub proof fn law_what_comes_of_all_storages(outcomes: Seq<PathOutcome>, ids_empty: bool, i: int)
    requires
        statsig_worker::total_updates(outcomes) <= usize::MAX,
    ensures
        ({
            let r = statsig_worker::sync_result(outcomes, ids_empty);
            let total = statsig_worker::total_updates(outcomes);
            &&& !has_error(outcomes) ==> r is Ok
            &&& has_error(outcomes) && total == 0 ==> r is Err
            &&& 0 <= i < statsig_worker::errors_of(outcomes).len() && text::occurs(
                statsig_worker::errors_of(outcomes)[i],
                "Codex Desktop localStorage LevelDB is locked:"@,
            ) ==> r is Err
            &&& r is Ok ==> r->Ok_0.updated_count == total
            &&& r is Ok && has_error(outcomes) ==> r->Ok_0.needs_discovery
            &&& r is Ok && !has_error(outcomes) && ids_empty ==> !r->Ok_0.needs_discovery
            &&& r is Ok && !ids_empty && 0 <= i < outcomes.len() && outcomes[i].active_layout
                && outcomes[i].result is Ok && (!outcomes[i].result->Ok_0.ready_model_cache
                || outcomes[i].result->Ok_0.requires_short_retry) ==> r->Ok_0.needs_discovery
            &&& r is Ok && !ids_empty && (forall|k: int|
                0 <= k < outcomes.len() ==> !(#[trigger] outcomes[k]).active_layout)
                ==> r->Ok_0.needs_discovery
        }),
{
    lemma_errors(outcomes);
    let errors = statsig_worker::errors_of(outcomes);
    if 0 <= i < errors.len() && text::occurs(
        errors[i],
        "Codex Desktop localStorage LevelDB is locked:"@,
    ) {
        assert(statsig_worker::has_locked(errors));
    }
    if 0 <= i < outcomes.len() && outcomes[i].active_layout && outcomes[i].result is Ok {
        assert(statsig_worker::is_read(outcomes[i]));
    }
}

/// What is written is counted storage by storage.
pub proof fn law_updates_are_counted(a: Seq<PathOutcome>, outcome: PathOutcome)
    ensures
        statsig_worker::total_updates(a.push(outcome)) == statsig_worker::total_updates(a) + (
        if outcome.result is Ok {
            outcome.result->Ok_0.updated_count as nat
        } else {
            0
        }),
{
    assert(a.push(outcome).drop_last() =~= a);
}

/// When the worker looks again: never for other models than those at hand; after a week once the
/// models are listed; and else after its delay, which doubles up to half a minute.
pub proof fn law_when_the_worker_looks_again(
    outcome: CodexDesktopCacheRetryOutcome,
    has_custom_catalog: bool,
    delay: u64,
)
    ensures
        ({
            let next = statsig_worker::next_delay(outcome, has_custom_catalog, delay);
            &&& outcome is Superseded ==> next.0 is None
            &&& outcome is Synced && !has_custom_catalog ==> next.0 is None
            &&& outcome is Synced && has_custom_catalog ==> next.0 == Some(604_800u64) && next.1
                == 1
            &&& outcome is Discovering || outcome is Failed ==> next.0 == Some(delay) && next.1 == (
            if delay >= 15 {
                30
            } else {
                2 * delay
            })
        }),
{
}

/// After a first try the worker looks again in a second where something is still to be found, or in a
/// week where models are listed, and not at all where there are none.
pub proof fn law_when_a_first_try_is_followed(
    result: Result<CodexDesktopCacheSyncResult, Seq<char>>,
    ids_empty: bool,
)
    ensures
        result is Err || result->Ok_0.needs_discovery ==> statsig_worker::delay_after(
            result,
            ids_empty,
        ) == Some(1u64),
        result is Ok && !result->Ok_0.needs_discovery && ids_empty ==> statsig_worker::delay_after(
            result,
            ids_empty,
        ) is None,
        result is Ok && !result->Ok_0.needs_discovery && !ids_empty ==> statsig_worker::delay_after(
            result,
            ids_empty,
        ) == Some(604_800u64),
{
}

/// Which models are listed after a restore: those of the settings where they have a catalog; those of
/// a catalog that the config points to, where it could be read; and where the config points elsewhere,
/// those that were added go.
pub proof fn law_what_is_listed_after_a_restore(
    settings: JsonView,
    resolved: bool,
    catalog: Result<Option<JsonView>, ()>,
    config: Seq<char>,
)
    requires
        settings is Object,
        settings.get("config"@) == Some(JsonView::Str(config)),
    ensures
        ({
            let sync = statsig_worker::sync_after_restore(settings, resolved, catalog);
            let own = CacheSyncView::List(statsig_models::model_ids(settings));
            let has_catalog = settings.get("modelCatalog"@) is Some;
            &&& has_catalog ==> sync == own
            &&& !has_catalog && resolved && catalog is Err ==> sync is Invalidate
            &&& !has_catalog && resolved && catalog is Ok && catalog->Ok_0 is Some ==> sync
                == CacheSyncView::List(
                statsig_models::model_ids(settings.put("modelCatalog"@, catalog->Ok_0->Some_0)),
            )
            &&& !has_catalog && resolved && catalog is Ok && catalog->Ok_0 is None ==> sync
                == CacheSyncView::List(Seq::empty())
            &&& !has_catalog && !resolved ==> (sync is RemoveOwned
                <==> live_catalog::catalog_pointer(config) is Some)
            &&& !has_catalog && !resolved && live_catalog::catalog_pointer(config) is None ==> sync
                == own
        }),
{
}

/// After a write the models of the settings are listed, unless they have no catalog and the config
/// points to one that is not the application's own.
pub proof fn law_what_is_listed_after_a_write(
    settings: JsonView,
    config: Option<Seq<char>>,
    resolved: bool,
)
    ensures
        ({
            let sync = statsig_worker::sync_after_write(settings, config, resolved);
            let elsewhere = settings.get("modelCatalog"@) is None && config is Some
                && live_catalog::catalog_pointer(config->Some_0) is Some && !resolved;
            &&& elsewhere ==> sync is RemoveOwned
            &&& !elsewhere ==> sync == CacheSyncView::List(statsig_models::model_ids(settings))
        }),
{
}

/// A stored value may have one byte in front of it, a zero or a one, and is text behind that.
pub proof fn law_what_stands_before_a_stored_value(bytes: Seq<u8>)
    ensures
        bytes.len() > 0 && (bytes[0] == 0 || bytes[0] == 1) ==> statsig_codec::prefix_of(bytes)
            == Some(bytes[0]) && statsig_codec::rest_of(bytes) == bytes.skip(1),
        bytes.len() == 0 || (bytes[0] != 0 && bytes[0] != 1) ==> statsig_codec::prefix_of(bytes)
            is None && statsig_codec::rest_of(bytes) == bytes,
{
}

/// A stored value is read as UTF-8 where that gives one, else as UTF-16 where its bytes come in pairs
/// and that gives one, and not at all else; it is read with what stands before it.
pub proof fn law_how_a_stored_value_is_read(bytes: Seq<u8>)
    ensures
        ({
            let rest = statsig_codec::rest_of(bytes);
            let stored = statsig_codec::decoded(bytes);
            let utf8 = if vstd::utf8::valid_utf8(rest) {
                json::json_text(vstd::utf8::decode_utf8(rest))
            } else {
                None
            };
            let text = statsig_codec::utf16_text(statsig_codec::byte_units(rest));
            let utf16 = if rest.len() % 2 == 0 && text is Some {
                json::json_text(text->Some_0)
            } else {
                None
            };
            &&& utf8 is Some ==> stored is Some && stored->Some_0.value == utf8->Some_0
                && stored->Some_0.encoding is Utf8
            &&& utf8 is None && utf16 is Some ==> stored is Some && stored->Some_0.value
                == utf16->Some_0 && stored->Some_0.encoding is Utf16Le
            &&& utf8 is None && utf16 is None ==> stored is None
            &&& stored is Some ==> stored->Some_0.prefix == statsig_codec::prefix_of(bytes)
        }),
{
}

/// A unit of UTF-16 is stored with its lower byte first, and read so.
pub proof fn law_the_lower_byte_comes_first(units: Seq<u16>, i: int)
    requires
        0 <= i < units.len(),
    ensures
        ({
            let bytes = statsig_codec::unit_bytes(units);
            &&& bytes.len() == 2 * units.len()
            &&& bytes[2 * i] + 256 * bytes[2 * i + 1] == units[i]
            &&& statsig_codec::byte_units(bytes).len() == units.len()
            &&& statsig_codec::byte_units(bytes)[i] == units[i]
        }),
{
    let bytes = statsig_codec::unit_bytes(units);
    let unit = units[i];
    assert((2 * i) / 2 == i && (2 * i) % 2 == 0);
    assert((2 * i + 1) / 2 == i && (2 * i + 1) % 2 == 1);
    assert(bytes[2 * i] == (unit % 256) as u8);
    assert(bytes[2 * i + 1] == (unit / 256) as u8);
    assert(unit % 256 < 256 && unit / 256 < 256);
}

/// A character of UTF-16 is one unit, or two from which its number is read.
pub proof fn law_a_character_in_units(c: char)
    ensures
        ({
            let units = statsig_codec::units_of(c);
            let n = c as int;
            &&& n < 0x1_0000 ==> units.len() == 1 && units[0] == n
            &&& n >= 0x1_0000 ==> units.len() == 2 && 0xd800 <= units[0] < 0xdc00 && 0xdc00
                <= units[1] < 0xe000 && 0x1_0000 + (units[0] - 0xd800) * 0x400 + (units[1] - 0xdc00)
                == n
        }),
{
    let n = c as int;
    assert(n <= 0x10_ffff);
}

/// A storage is ready exactly where a value in it lists models, and for each that does the times of
/// its origin are ready.
pub proof fn law_when_a_storage_is_ready(
    records: Seq<RecordView>,
    times: Seq<TimesView>,
    i: int,
)
    requires
        0 <= i < records.len(),
        records[i].has_models,
    ensures
        statsig_sync::all_ready(records, times) ==> exists|k: int|
            0 <= k < times.len() && (#[trigger] times[k]).ready && times[k].origin
                == records[i].origin,
        (forall|k: int|
            0 <= k < times.len() ==> !((#[trigger] times[k]).ready && times[k].origin
                == records[i].origin)) ==> !statsig_sync::all_ready(records, times),
        (forall|j: int|
            0 <= j < records.len() && (#[trigger] records[j]).has_models ==> exists|k: int|
                0 <= k < times.len() && (#[trigger] times[k]).ready && times[k].origin
                    == records[j].origin) ==> statsig_sync::all_ready(records, times),
{
    if statsig_sync::all_ready(records, times) {
        assert(statsig_sync::is_ready(times, records[i].origin));
        let k = choose|k: int|
            0 <= k < times.len() && (#[trigger] times[k]).ready && times[k].origin
                == records[i].origin;
        assert(times[k].ready);
    }
}

/// A storage without a value that lists models is never ready.
pub proof fn law_a_storage_without_models_is_not_ready(
    records: Seq<RecordView>,
    times: Seq<TimesView>,
)
    requires
        forall|i: int| 0 <= i < records.len() ==> !(#[trigger] records[i]).has_models,
    ensures
        !statsig_sync::all_ready(records, times),
{
}

/// The times of an origin are those in an entry with the marker of times. They are set back first and
/// then ahead, are written where that changes them, and are ready where some are set ahead, and all
/// of those lie ahead.
pub proof fn law_what_becomes_of_the_times(
    entry: RawView,
    records: Seq<RecordView>,
    ids_empty: bool,
    now: i64,
)
    ensures
        ({
            let key = statsig_sync::lossy_text(entry.key);
            let origin = statsig_pins::origin_of(key, "statsig.last_modified_time.evaluations"@);
            let stored = statsig_codec::decoded(entry.value);
            let times = statsig_sync::times_of(entry, records, ids_empty, now);
            &&& times is Some <==> origin is Some && stored is Some
            &&& times is Some ==> {
                let back = statsig_sync::unpinned_names(records, origin->Some_0, ids_empty);
                let ahead = statsig_sync::pinned_names(records, origin->Some_0);
                let value = stored->Some_0.value;
                let first = statsig_pins::unpinned(value, back, now);
                let second = statsig_pins::pinned(first, ahead, now);
                let changes = statsig_pins::unpin_changes(value, back, now)
                    || statsig_pins::pin_changes(first, ahead, now);
                &&& times->Some_0.origin == origin->Some_0
                &&& times->Some_0.update is Some <==> changes
                &&& changes ==> times->Some_0.update->Some_0.key == entry.key
                    && times->Some_0.update->Some_0.value == statsig_codec::encoded(
                    stored->Some_0.prefix,
                    stored->Some_0.encoding,
                    second,
                )
                &&& times->Some_0.ready <==> ahead.len() > 0 && forall|i: int|
                    0 <= i < ahead.len() ==> is_ahead(second, #[trigger] ahead[i], now)
            }
        }),
{
}

/// Times change exactly where one that is set ahead is not at its time yet, or one that is set back
/// lies ahead.
pub proof fn law_when_times_change(
    times: JsonView,
    keys: Seq<Seq<char>>,
    now: i64,
    i: int,
)
    requires
        0 <= i < keys.len(),
        times is Object,
    ensures
        statsig_pins::time_of(times, keys[i]) != Some(statsig_pins::pinned_until(now))
            ==> statsig_pins::pin_changes(times, keys, now),
        is_ahead(times, keys[i], now) ==> statsig_pins::unpin_changes(times, keys, now),
        (forall|k: int|
            0 <= k < keys.len() ==> statsig_pins::time_of(times, #[trigger] keys[k]) == Some(
                statsig_pins::pinned_until(now),
            )) ==> !statsig_pins::pin_changes(times, keys, now),
        (forall|k: int| 0 <= k < keys.len() ==> !is_ahead(times, #[trigger] keys[k], now))
            ==> !statsig_pins::unpin_changes(times, keys, now),
{
    if is_ahead(times, keys[i], now) {
        assert(statsig_pins::is_future(times, keys[i], now));
    }
}

/// The times of entries are read entry by entry, and their updates are written in their order.
pub proof fn law_times_are_read_entry_by_entry(
    entries: Seq<RawView>,
    entry: RawView,
    records: Seq<RecordView>,
    ids_empty: bool,
    now: i64,
)
    ensures
        ({
            let before = statsig_sync::all_times(entries, records, ids_empty, now);
            let after = statsig_sync::all_times(entries.push(entry), records, ids_empty, now);
            let times = statsig_sync::times_of(entry, records, ids_empty, now);
            &&& times is None ==> after == before
            &&& times is Some ==> after == before.push(times->Some_0)
            &&& times is Some && times->Some_0.update is None ==> statsig_sync::times_updates(after)
                == statsig_sync::times_updates(before)
            &&& times is Some && times->Some_0.update is Some ==> statsig_sync::times_updates(after)
                == statsig_sync::times_updates(before).push(times->Some_0.update->Some_0)
        }),
{
    assert(entries.push(entry).drop_last() =~= entries);
    let before = statsig_sync::all_times(entries, records, ids_empty, now);
    let times = statsig_sync::times_of(entry, records, ids_empty, now);
    if times is Some {
        assert(before.push(times->Some_0).drop_last() =~= before);
    }
}

/// A merge that reports no change leaves the wrapper as it was, and one that changes the list of the
/// models, or the mark of what was added, reports it.
pub proof fn law_a_merge_reports_its_changes(wrapper: JsonView, ids: Seq<Seq<char>>)
    requires
        wrapper is Object,
    ensures
        !statsig_models::merge_changes(wrapper, ids) ==> statsig_models::merged(wrapper, ids)
            == wrapper,
        statsig_models::merge_of(wrapper, ids) matches Some(merge) && statsig_models::models_in(
            statsig_models::data_of(wrapper)->Some_0,
        ) != Some(merge.items) ==> statsig_models::merge_changes(wrapper, ids),
        statsig_models::merged(wrapper, ids).get("cc_switch_injected_available_models"@)
            != wrapper.get("cc_switch_injected_available_models"@) ==> statsig_models::merge_changes(
            wrapper,
            ids,
        ),
{
    let key = "cc_switch_injected_available_models"@;
    reveal_strlit("data");
    reveal_strlit("cc_switch_injected_available_models");
    assert("data"@.len() == 4);
    assert(key.len() == 35);
    let map = wrapper->Object_0;
    if map.dom().contains(key) {
        assert(map.insert(key, map[key]) =~= map);
    } else {
        assert(map.remove(key) =~= map);
    }
}

} // verus!
