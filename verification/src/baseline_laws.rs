//! When a list of models is official, how long it counts, and what is written in its place.

use crate::cache_plan::{ActionView, CacheProvider, CacheState};
use crate::catalog_entry::CodexCatalogToolProfile;
use crate::error::ErrorView;
use crate::json::JsonView;
use crate::model_specs::{EntryView, SlotTable};
use crate::moment::Moment;
use crate::routed_catalog::{BoundProvider, CatalogSources};
use crate::{
    cache_plan, catalog, cli, json, model_specs, models_cache, moment, official_baseline,
    routed_catalog, text,
};
use vstd::prelude::*;
use vstd::string::*;

verus! {

/// Whether a cache says that this application has made it, or has merged its models in.
pub open spec fn is_made_here(cache: JsonView) -> bool {
    ||| cache.get("etag"@) matches Some(JsonView::Str(etag)) && "W/\"cc-switch-"@.is_prefix_of(etag)
    ||| cache.get("cc_switch_merged"@) == Some(JsonView::Bool(true))
}

/// Whether a cache lists models.
pub open spec fn lists_models(cache: JsonView) -> bool {
    cache.get("models"@) matches Some(JsonView::Array(models)) && models.len() > 0
}

/// A list is official exactly where it has models and does not say that it was made here.
pub proof fn law_which_lists_are_official(cache: JsonView)
    ensures
        models_cache::is_official(cache) <==> lists_models(cache) && !is_made_here(cache),
        models_cache::has_own_etag(cache) || models_cache::is_merged(cache) <==> is_made_here(
            cache,
        ),
{
}

/// A cache is cleaned up where it was made here, where a model in it has a priority that only
/// generated entries have, or a name that a routed row gave it, and, once a list was put aside, where
/// it is not official or gone.
pub proof fn law_which_caches_are_cleaned_up(
    baseline_exists: bool,
    live: Option<JsonView>,
    settings: Option<JsonView>,
    slots: SlotTable,
    k: int,
    i: int,
)
    ensures
        live is None ==> (models_cache::needs_cleanup(baseline_exists, live, settings, slots)
            <==> baseline_exists),
        live matches Some(cache) && is_made_here(cache) ==> models_cache::needs_cleanup(
            baseline_exists,
            live,
            settings,
            slots,
        ),
        live matches Some(cache) && baseline_exists && !lists_models(cache)
            ==> models_cache::needs_cleanup(baseline_exists, live, settings, slots),
        live is Some && has_generated(live->Some_0, k) ==> models_cache::needs_cleanup(
            baseline_exists,
            live,
            settings,
            slots,
        ),
        live is Some && settings is Some && 0 <= i < model_specs::custom_entries(
            settings->Some_0,
            slots,
        ).len() && has_row_name(
            live->Some_0,
            model_specs::custom_entries(settings->Some_0, slots)[i],
            k,
        ) ==> models_cache::needs_cleanup(baseline_exists, live, settings, slots),
        models_cache::needs_cleanup(baseline_exists, live, settings, slots) ==> live is None
            || is_made_here(live->Some_0) || (baseline_exists && !lists_models(live->Some_0)) || (
        exists|k: int| #[trigger] has_generated(live->Some_0, k)) || (settings is Some && exists|
            k: int,
            i: int,
        |
            0 <= i < model_specs::custom_entries(settings->Some_0, slots).len()
                && #[trigger] has_row_name(
                live->Some_0,
                model_specs::custom_entries(settings->Some_0, slots)[i],
                k,
            )),
{
    if live is Some && lists_models(live->Some_0) {
        let cache = live->Some_0;
        let models = cache.get("models"@)->Some_0->Array_0;
        assert(cache.get_items("models"@) == Some(models));
        if has_generated(cache, k) {
            assert(models_cache::has_own_priority(models[k]));
            let items = cache.get_items("models"@)->Some_0;
            assert(items == models);
            assert(exists|j: int|
                0 <= j < items.len() && models_cache::has_own_priority(#[trigger] items[j]));
        }
        if models_cache::has_legacy_models(cache, settings, slots) {
            if exists|j: int|
                0 <= j < models.len() && models_cache::has_own_priority(#[trigger] models[j]) {
                let j = choose|j: int|
                    0 <= j < models.len() && models_cache::has_own_priority(#[trigger] models[j]);
                assert(has_generated(cache, j));
            } else {
                let rows = model_specs::custom_entries(settings->Some_0, slots);
                let r = choose|r: int|
                    0 <= r < rows.len() && models_cache::is_legacy_entry(models, #[trigger] rows[r]);
                let name = rows[r].display_name->Some_0;
                let j = choose|j: int|
                    0 <= j < models.len() && (#[trigger] models[j]).get_text("slug"@) == Some(
                        rows[r].model,
                    ) && models[j].get_text("display_name"@) == Some(name);
                assert(has_row_name(cache, rows[r], j));
            }
        }
        if settings is Some {
            let rows = model_specs::custom_entries(settings->Some_0, slots);
            if 0 <= i < rows.len() && has_row_name(cache, rows[i], k) {
                assert(models_cache::lists_entry(models, rows[i], rows[i].display_name->Some_0))
                    by {
                    assert(models[k].get_text("slug"@) == Some(rows[i].model));
                }
                assert(models_cache::is_legacy_entry(models, rows[i]));
            }
        }
    }
}

/// Whether a model of a cache has a priority of a thousand or more.
pub open spec fn has_generated(cache: JsonView, k: int) -> bool {
    cache.get("models"@) matches Some(JsonView::Array(models)) && 0 <= k < models.len() && (
    models[k].get("priority"@) matches Some(value) && (value.unsigned() matches Some(n) && n
        >= 1000))
}

/// Whether a model of a cache has the id of a row and the name that the row gives it, where that name
/// is another than the id even without its case and its punctuation.
pub open spec fn has_row_name(cache: JsonView, entry: EntryView, k: int) -> bool {
    cache.get("models"@) matches Some(JsonView::Array(models)) && 0 <= k < models.len()
        && models[k].get("slug"@) == Some(JsonView::Str(entry.model)) && entry.display_name is Some
        && models[k].get("display_name"@) == Some(JsonView::Str(entry.display_name->Some_0))
        && models_cache::label_key(entry.display_name->Some_0) != models_cache::label_key(
        entry.model,
    )
}

/// The key of a label is put together from its characters, in their order: each in lower case, and
/// without what is neither a letter nor a digit.
pub proof fn law_a_label_is_read_by_its_characters(a: Seq<char>, b: Seq<char>, c: char)
    ensures
        models_cache::label_key(a + b) == models_cache::label_key(a) + models_cache::label_key(b),
        models_cache::char_lowercase(c) == seq![c] ==> models_cache::label_key(seq![c]) == (
        if models_cache::char_alphanumeric(c) {
            seq![c]
        } else {
            Seq::empty()
        }),
    decreases b.len(),
{
    if b.len() == 0 {
        assert(a + b =~= a);
        assert(models_cache::label_key(a) + models_cache::label_key(b) =~= models_cache::label_key(
            a,
        ));
    } else {
        law_a_label_is_read_by_its_characters(a, b.drop_last(), c);
        assert((a + b).drop_last() =~= a + b.drop_last());
        let last = models_cache::char_lowercase(b.last()).filter(
            |c: char| models_cache::char_alphanumeric(c),
        );
        assert(models_cache::label_key(a + b) =~= models_cache::label_key(a)
            + models_cache::label_key(b.drop_last()) + last);
        assert(models_cache::label_key(a + b) =~= models_cache::label_key(a)
            + models_cache::label_key(b));
    }
    if models_cache::char_lowercase(c) == seq![c] {
        reveal_with_fuel(models_cache::label_key, 2);
        assert(seq![c].drop_last() =~= Seq::<char>::empty());
        assert(seq![c].last() == c);
        reveal_with_fuel(Seq::filter, 2);
        assert(seq![c].filter(|c: char| models_cache::char_alphanumeric(c)) =~= (
        if models_cache::char_alphanumeric(c) {
            seq![c]
        } else {
            Seq::<char>::empty()
        }));
        assert(Seq::<char>::empty() + seq![c] =~= seq![c]);
    }
}

/// Whether a name says something.
pub open spec fn is_name(name: Option<JsonView>) -> bool {
    name matches Some(JsonView::Str(name)) && !text::is_blank(name)
}

/// A name with the mark of an official model in front of it, unless it has it.
pub open spec fn marked(name: Seq<char>) -> Seq<char> {
    if "官方-"@.is_prefix_of(text::trim(name)) {
        name
    } else {
        "官方-"@ + text::trim(name)
    }
}

/// Official models are marked in their names, and nothing else of them changes. A model without a
/// name is named after its id, where no other value stands in the way.
pub proof fn law_official_models_are_marked(model: JsonView, key: Seq<char>)
    requires
        model is Object,
    ensures
        ({
            let after = models_cache::prefixed(model);
            let first = model.get("display_name"@);
            let second = model.get("displayName"@);
            &&& after is Object
            &&& key != "display_name"@ && key != "displayName"@ ==> after.get(key) == model.get(key)
            &&& is_name(first) ==> after.get("display_name"@) == Some(
                JsonView::Str(marked(first->Some_0->Str_0)),
            )
            &&& is_name(second) ==> after.get("displayName"@) == Some(
                JsonView::Str(marked(second->Some_0->Str_0)),
            )
            &&& is_name(first) && !is_name(second) ==> after.get("displayName"@) == second
            &&& !is_name(first) && is_name(second) ==> after.get("display_name"@) == first
            &&& !is_name(first) && !is_name(second) && is_name(model.get("slug"@)) ==> {
                let name = JsonView::Str("官方-"@ + text::trim(model.get("slug"@)->Some_0->Str_0));
                &&& after.get("display_name"@) == Some(
                    if first is Some {
                        first->Some_0
                    } else {
                        name
                    },
                )
                &&& after.get("displayName"@) == Some(
                    if second is Some {
                        second->Some_0
                    } else {
                        name
                    },
                )
            }
            &&& !is_name(first) && !is_name(second) && !is_name(model.get("slug"@)) ==> after
                == model
        }),
{
    reveal_strlit("display_name");
    reveal_strlit("displayName");
    assert("display_name"@.len() == 12);
    assert("displayName"@.len() == 11);
    assert(models_cache::CODEX_OFFICIAL_MODEL_DISPLAY_PREFIX@ == "官方-"@);
}

/// Two lists are told apart by their tag and by when they were fetched, and by nothing else.
pub proof fn law_lists_are_told_apart(a: JsonView, b: JsonView)
    ensures
        ({
            let x = official_baseline::fingerprint(a);
            let y = official_baseline::fingerprint(b);
            &&& x.get("etag"@) == Some(
                if a.get("etag"@) is Some {
                    a.get("etag"@)->Some_0
                } else {
                    JsonView::Null
                },
            )
            &&& x.get("fetched_at"@) == Some(
                if a.get("fetched_at"@) is Some {
                    a.get("fetched_at"@)->Some_0
                } else {
                    JsonView::Null
                },
            )
            &&& x.get("etag"@) == y.get("etag"@) && x.get("fetched_at"@) == y.get("fetched_at"@)
                ==> x == y
        }),
{
    reveal_strlit("etag");
    reveal_strlit("fetched_at");
    assert("etag"@.len() == 4);
    assert("fetched_at"@.len() == 10);
}

/// A list that was put aside counts for five minutes; one from more than a minute ahead does not.
pub proof fn law_how_long_a_list_counts(age: int)
    ensures
        official_baseline::state_of_age(age) is Fresh <==> -60 <= age < 300,
        official_baseline::state_of_age(age) is Expired <==> age >= 300,
        official_baseline::state_of_age(age) is Invalid <==> age < -60,
{
}

/// The age of a list is told from when it was put aside, where it says so.
pub proof fn law_where_the_age_comes_from(cache: JsonView, now: Moment)
    ensures
        official_baseline::capture_state(cache, now) is Missing <==> cache.get(
            "cc_switch_captured_at"@,
        ) is None,
        cache.get("cc_switch_captured_at"@) matches Some(value) && !(value is Str)
            ==> official_baseline::capture_state(cache, now) is Invalid,
        cache.get("cc_switch_captured_at"@) matches Some(JsonView::Str(t)) ==> (
        match moment::seconds_since(
            cache.get("cc_switch_captured_at"@)->Some_0->Str_0,
            now.secs,
            now.nanos,
        ) {
            None => official_baseline::capture_state(cache, now) is Invalid,
            Some(age) => official_baseline::capture_state(cache, now)
                == official_baseline::state_of_age(age as int),
        }),
{
    match cache.get_text("cc_switch_captured_at"@) {
        Some(t) => match moment::seconds_since(t, now.secs, now.nanos) {
            Some(age) => {
                law_how_long_a_list_counts(age as int);
            },
            None => {},
        },
        None => {},
    }
}

/// Putting a list aside adds when that was, and nothing else.
pub proof fn law_a_list_is_put_aside_as_it_is(cache: JsonView, now: Moment, key: Seq<char>)
    requires
        cache is Object,
    ensures
        ({
            let file = official_baseline::captured(cache, now);
            &&& file.get("cc_switch_captured_at"@) == Some(
                JsonView::Str(moment::rfc3339(now.secs, now.nanos)),
            )
            &&& key != "cc_switch_captured_at"@ ==> file.get(key) == cache.get(key)
            &&& key != "cc_switch_captured_at"@ ==> official_baseline::payload(cache).get(key)
                == cache.get(key)
            &&& official_baseline::payload(cache).get("cc_switch_captured_at"@) is None
        }),
{
}

/// The models of a list that was fetched: under one name, or else under another.
pub open spec fn fetched(catalog: JsonView) -> Option<JsonView> {
    if catalog.get("models"@) is Some && catalog.get("models"@)->Some_0 is Array {
        catalog.get("models"@)
    } else if catalog.get("data"@) is Some && catalog.get("data"@)->Some_0 is Array {
        catalog.get("data"@)
    } else {
        None
    }
}

/// A list that was fetched is put aside exactly where it has models, was not made here, was asked for
/// by a named version, and its tag does not say that it was made here.
pub proof fn law_which_fetched_lists_are_kept(
    catalog: JsonView,
    version: Seq<char>,
    etag: Option<Seq<char>>,
    now: Moment,
)
    requires
        catalog is Object,
    ensures
        official_baseline::forwarded(catalog, version, etag, now) is Some <==> {
            &&& !is_made_here(catalog)
            &&& fetched(catalog) matches Some(JsonView::Array(models)) && models.len() > 0
            &&& !text::is_blank(version)
            &&& !(etag is Some && !text::is_blank(etag->Some_0) && "W/\"cc-switch-"@.is_prefix_of(
                text::trim(etag->Some_0),
            ))
        },
{
    lemma_file_names();
    match official_baseline::fetched_models(catalog) {
        Some(models) => {
            let clean = official_baseline::cleaned(catalog, models, text::trim(version), etag, now);
            assert(clean.get("models"@) == Some(JsonView::Array(models)));
            assert(clean.get("cc_switch_merged"@) is None);
            if etag is Some && !text::is_blank(etag->Some_0) {
                assert(clean.get("etag"@) == Some(JsonView::Str(text::trim(etag->Some_0))));
            } else {
                assert(clean.get("etag"@) == catalog.get("etag"@));
            }
        },
        None => {},
    }
}

proof fn lemma_file_names()
    ensures
        "etag"@.len() == 4 && "data"@.len() == 4 && "etag"@[0] == 'e' && "data"@[0] == 'd',
        "models"@.len() == 6,
        "fetched_at"@.len() == 10,
        "client_version"@.len() == 14,
        "cc_switch_state"@.len() == 15,
        "cc_switch_merged"@.len() == 16,
        "rejected_fingerprint"@.len() == 20,
        "cc_switch_captured_at"@.len() == 21,
{
    reveal_strlit("etag");
    reveal_strlit("data");
    reveal_strlit("models");
    reveal_strlit("fetched_at");
    reveal_strlit("client_version");
    reveal_strlit("cc_switch_state");
    reveal_strlit("cc_switch_merged");
    reveal_strlit("rejected_fingerprint");
    reveal_strlit("cc_switch_captured_at");
}

/// A fetched list that is kept has its models, the version that asked for them and the tag that came
/// with them, and none of the marks of this application; the rest of it stays.
pub proof fn law_what_is_kept_of_a_fetched_list(
    catalog: JsonView,
    version: Seq<char>,
    etag: Option<Seq<char>>,
    now: Moment,
    key: Seq<char>,
)
    requires
        catalog is Object,
        official_baseline::forwarded(catalog, version, etag, now) is Some,
    ensures
        ({
            let file = official_baseline::forwarded(catalog, version, etag, now)->Some_0;
            &&& file.get("models"@) == fetched(catalog)
            &&& file.get("client_version"@) == Some(JsonView::Str(text::trim(version)))
            &&& file.get("fetched_at"@) == Some(
                JsonView::Str(moment::rfc3339_nanos(now.secs, now.nanos)),
            )
            &&& file.get("etag"@) == (if etag is Some && !text::is_blank(etag->Some_0) {
                Some(JsonView::Str(text::trim(etag->Some_0)))
            } else {
                catalog.get("etag"@)
            })
            &&& file.get("data"@) is None
            &&& file.get("cc_switch_merged"@) is None
            &&& file.get("cc_switch_state"@) is None
            &&& file.get("rejected_fingerprint"@) is None
            &&& key != "models"@ && key != "client_version"@ && key != "fetched_at"@ && key
                != "etag"@ && key != "data"@ && key != "cc_switch_merged"@ && key
                != "cc_switch_state"@ && key != "rejected_fingerprint"@ && key
                != "cc_switch_captured_at"@ ==> file.get(key) == catalog.get(key)
        }),
{
    lemma_file_names();
}

/// A first list is never used at once: it is only noted, where it is official, so that the next one
/// can be told from it.
pub proof fn law_a_first_list_is_only_noted(saved: Option<JsonView>, live: JsonView, now: Moment)
    requires
        saved matches Some(file) ==> !models_cache::is_official(file) && file.get(
            "cc_switch_state"@,
        ) != Some(JsonView::Str("awaiting_official_refresh"@)),
    ensures
        ({
            let step = official_baseline::baseline_step(saved, live, now);
            &&& step.ready is None
            &&& step.write is Some <==> models_cache::is_official(live)
            &&& step.write is Some ==> notes(step.write->Some_0, live)
        }),
{
    lemma_file_names();
}

/// Whether a file notes that a list is not to be used.
pub open spec fn notes(file: JsonView, list: JsonView) -> bool {
    &&& file.get("cc_switch_state"@) == Some(JsonView::Str("awaiting_official_refresh"@))
    &&& file.get("rejected_fingerprint"@) == Some(official_baseline::fingerprint(list))
}

/// While a newer list is awaited, an official one is taken exactly where it is another than the one
/// that was noted.
pub proof fn law_a_newer_list_is_taken(saved: JsonView, live: JsonView, now: Moment)
    requires
        !models_cache::is_official(saved),
        saved.get("cc_switch_state"@) == Some(JsonView::Str("awaiting_official_refresh"@)),
    ensures
        ({
            let step = official_baseline::baseline_step(Some(saved), live, now);
            let noted = saved.get("rejected_fingerprint"@);
            let newer = models_cache::is_official(live) && (noted is None || !json::same(
                noted->Some_0,
                official_baseline::fingerprint(live),
            ));
            &&& newer ==> step.ready == Some(live) && step.write == Some(
                official_baseline::captured(live, now),
            )
            &&& !newer ==> step.ready is None && step.write is None
        }),
{
}

/// Beside a list that was put aside an official one is taken where it is another; else the one that
/// was put aside counts while it is fresh, is dated where it was not, and is given up once it is not.
pub proof fn law_which_list_counts(saved: JsonView, live: JsonView, now: Moment)
    requires
        models_cache::is_official(saved),
    ensures
        ({
            let step = official_baseline::baseline_step(Some(saved), live, now);
            let newer = models_cache::is_official(live) && !json::same(
                official_baseline::fingerprint(saved),
                official_baseline::fingerprint(live),
            );
            let state = official_baseline::capture_state(saved, now);
            &&& newer ==> step.ready == Some(live) && step.write == Some(
                official_baseline::captured(live, now),
            )
            &&& !newer && state is Fresh ==> step.ready == Some(official_baseline::payload(saved))
                && step.write is None
            &&& !newer && state is Missing ==> step.ready == Some(official_baseline::payload(saved))
                && step.write == Some(official_baseline::captured(saved, now))
            &&& !newer && (state is Expired || state is Invalid) ==> step.ready is None
                && step.write is Some && notes(step.write->Some_0, saved)
        }),
{
    lemma_file_names();
}

/// A cache that is written here says so, and holds the models, the version and the time.
pub proof fn law_what_a_written_cache_says(models: Seq<JsonView>, version: Seq<char>, now: Moment)
    ensures
        ({
            let file = cache_plan::cache_file(models, version, now);
            &&& file.get("models"@) == Some(JsonView::Array(models))
            &&& file.get("client_version"@) == Some(JsonView::Str(version))
            &&& file.get("fetched_at"@) == Some(
                JsonView::Str(moment::rfc3339_nanos(now.secs, now.nanos)),
            )
            &&& file.get("etag"@) == Some(
                JsonView::Str("W/\"cc-switch-"@ + text::decimal(now.secs as nat) + "\""@),
            )
            &&& forall|key: Seq<char>|
                #[trigger] file.get(key) is Some ==> key == "models"@ || key == "client_version"@
                    || key == "fetched_at"@ || key == "etag"@
        }),
{
    lemma_file_names();
}

/// The version for a cache is the one that was detected, and else the one in the cache; without
/// either nothing is written, and with one the models are, behind what is put aside.
pub proof fn law_a_cache_is_written_for_a_version(
    saved: Option<JsonView>,
    live: JsonView,
    models: Seq<JsonView>,
    detected: Option<Seq<char>>,
    now: Moment,
)
    ensures
        ({
            let plan = cache_plan::write_plan(saved, live, models, detected, now);
            let own = if detected is Some {
                cli::version_in(detected->Some_0)
            } else {
                None
            };
            let kept = if live.get("client_version"@) is Some && live.get("client_version"@)->Some_0
                is Str {
                cli::version_in(live.get("client_version"@)->Some_0->Str_0)
            } else {
                None
            };
            let version = if own is Some {
                own
            } else {
                kept
            };
            let write = official_baseline::baseline_step(saved, live, now).write;
            &&& version is None ==> plan.actions.len() == 0 && plan.error is Some
            &&& version is Some ==> {
                &&& plan.error is None
                &&& plan.actions.len() == if write is Some {
                    2nat
                } else {
                    1nat
                }
                &&& write is Some ==> plan.actions[0] == ActionView::WriteBaseline(write->Some_0)
                &&& plan.actions.last() == ActionView::WriteLive(
                    cache_plan::cache_file(models, version->Some_0, now),
                )
            }
        }),
{
}

/// Going back to the official list takes the cache away where no list counts, writes the list where
/// the cache is not official, and leaves an official cache alone.
pub proof fn law_how_the_official_list_comes_back(
    saved: Option<JsonView>,
    live: JsonView,
    now: Moment,
)
    ensures
        ({
            let plan = cache_plan::restore_plan(saved, live, now);
            let step = official_baseline::baseline_step(saved, live, now);
            &&& plan.error is None
            &&& step.ready is None ==> plan.actions.len() > 0 && plan.actions.last()
                is RemoveLive
            &&& step.ready is Some && !models_cache::is_official(live) ==> plan.actions.len() > 0
                && plan.actions.last() == ActionView::WriteLive(step.ready->Some_0)
            &&& step.ready is Some && models_cache::is_official(live) ==> forall|i: int|
                0 <= i < plan.actions.len() ==> (#[trigger] plan.actions[i]) is WriteBaseline
            &&& step.write is Some ==> plan.actions.len() > 0 && plan.actions[0]
                == ActionView::WriteBaseline(step.write->Some_0)
        }),
{
}

/// With the official login the routed models are merged into the official ones, which are marked;
/// where that changes nothing, the official list is what the cache holds.
pub proof fn law_how_routed_models_join_the_official(
    saved: Option<JsonView>,
    live: JsonView,
    settings: JsonView,
    slots: SlotTable,
    entries: Seq<JsonView>,
    detected: Option<Seq<char>>,
    now: Moment,
    list: JsonView,
    models: Seq<JsonView>,
)
    requires
        official_baseline::baseline_step(saved, live, now).ready == Some(list),
        list.get("models"@) == Some(JsonView::Array(models)),
    ensures
        ({
            let plan = cache_plan::official_login_plan(
                saved,
                live,
                settings,
                slots,
                Ok(entries),
                detected,
                now,
            );
            let official = models_cache::all_prefixed(models);
            let merged = models_cache::merged_models(official, settings, entries, slots);
            let changes = models_cache::merge_changes(official, settings, entries, slots);
            let version = cli::writable_version(detected, live);
            &&& changes && version is Some ==> plan.error is None && plan.actions.len() > 0
                && plan.actions.last() == ActionView::WriteLive(
                cache_plan::cache_file(merged, version->Some_0, now),
            )
            &&& changes && version is None ==> plan.error is Some
            &&& !changes && !models_cache::is_official(live) ==> plan.error is None
                && plan.actions.len() > 0 && plan.actions.last() == ActionView::WriteLive(list)
            &&& !changes && models_cache::is_official(live) ==> plan.error is None && forall|i: int|
                0 <= i < plan.actions.len() ==> (#[trigger] plan.actions[i]) is WriteBaseline
        }),
{
}

/// A merge that reports no change leaves every model as it was, in its place.
pub proof fn law_an_unchanged_list_is_the_same(
    models: Seq<JsonView>,
    settings: JsonView,
    entries: Seq<JsonView>,
    slots: SlotTable,
    i: int,
)
    requires
        !models_cache::merge_changes(models, settings, entries, slots),
        0 <= i < models.len(),
    ensures
        ({
            let merged = models_cache::merged_models(models, settings, entries, slots);
            merged.len() == models.len() && json::same(models[i], merged[i])
        }),
{
    let owned = model_specs::custom_entries(settings, slots);
    lemma_unchanged(models, models_cache::pending_of(entries, slots), owned, slots);
    let end = models_cache::merge_end(models, settings, entries, slots);
    assert(models_cache::waiting(end.pending).len() == 0);
}

proof fn lemma_unchanged(
    models: Seq<JsonView>,
    pending: Seq<(Seq<char>, JsonView)>,
    owned: Seq<EntryView>,
    slots: SlotTable,
)
    requires
        !models_cache::merge_all(models, pending, owned, slots).changed,
    ensures
        ({
            let kept = models_cache::merge_all(models, pending, owned, slots).kept;
            kept.len() == models.len() && forall|i: int|
                0 <= i < models.len() ==> json::same(models[i], #[trigger] kept[i])
        }),
    decreases models.len(),
{
    if models.len() > 0 {
        let front = models_cache::merge_all(models.drop_last(), pending, owned, slots);
        assert(!front.changed);
        lemma_unchanged(models.drop_last(), pending, owned, slots);
        let kept = models_cache::merge_all(models, pending, owned, slots).kept;
        assert forall|i: int| 0 <= i < models.len() implies json::same(
            models[i],
            #[trigger] kept[i],
        ) by {
            if i < models.len() - 1 {
                assert(kept[i] == front.kept[i]);
                assert(models.drop_last()[i] == models[i]);
            }
        }
    }
}

/// A list with nothing routed into it, and no row that owns one of its slots, stays as it is.
pub proof fn law_without_routed_models_a_list_stays(
    models: Seq<JsonView>,
    settings: JsonView,
    slots: SlotTable,
)
    requires
        forall|i: int, j: int|
            0 <= i < models.len() && 0 <= j < model_specs::custom_entries(settings, slots).len()
                ==> !owns_slot(
                #[trigger] model_specs::custom_entries(settings, slots)[j],
                #[trigger] models[i],
                slots,
            ),
    ensures
        models_cache::merged_models(models, settings, Seq::empty(), slots) == models,
        !models_cache::merge_changes(models, settings, Seq::empty(), slots),
{
    let owned = model_specs::custom_entries(settings, slots);
    assert(models_cache::pending_of(Seq::empty(), slots) =~= Seq::empty());
    lemma_nothing_merged(models, owned, slots);
    let end = models_cache::merge_end(models, settings, Seq::empty(), slots);
    assert(end.kept + models_cache::waiting(end.pending) =~= models);
}

/// Whether a row has the slot of a model.
pub open spec fn owns_slot(entry: EntryView, model: JsonView, slots: SlotTable) -> bool {
    model.get("slug"@) matches Some(JsonView::Str(slug)) && slots.slot(slug) == slots.slot(
        entry.model,
    )
}

proof fn lemma_nothing_merged(models: Seq<JsonView>, owned: Seq<EntryView>, slots: SlotTable)
    requires
        forall|i: int, j: int|
            0 <= i < models.len() && 0 <= j < owned.len() ==> !owns_slot(
                #[trigger] owned[j],
                #[trigger] models[i],
                slots,
            ),
    ensures
        ({
            let end = models_cache::merge_all(models, Seq::empty(), owned, slots);
            end.kept == models && end.pending.len() == 0 && !end.changed
        }),
    decreases models.len(),
{
    if models.len() > 0 {
        let front = models.drop_last();
        assert forall|i: int, j: int| 0 <= i < front.len() && 0 <= j < owned.len() implies
            !owns_slot(#[trigger] owned[j], #[trigger] front[i], slots) by {
            assert(front[i] == models[i]);
        }
        lemma_nothing_merged(front, owned, slots);
        let model = models.last();
        assert(model == models[models.len() - 1]);
        if model.get_text("slug"@) is Some {
            let slot = slots.slot(model.get_text("slug"@)->Some_0);
            if models_cache::slot_owned(owned, slots, slot) {
                let j = choose|j: int|
                    0 <= j < owned.len() && slots.slot((#[trigger] owned[j]).model) == slot;
                assert(owns_slot(owned[j], models[models.len() - 1], slots));
            }
        }
        assert(front.push(model) =~= models);
    } else {
        assert(models =~= Seq::empty());
    }
}

/// The cache of a provider other than the official one is made of its catalog, or, without one, of
/// the model that its config names.
pub proof fn law_an_own_cache_is_made_of_its_catalog(
    saved: Option<JsonView>,
    live: JsonView,
    catalog: Result<Option<JsonView>, ErrorView>,
    single: Option<JsonView>,
    detected: Option<Seq<char>>,
    now: Moment,
    models: Seq<JsonView>,
)
    ensures
        ({
            let plan = cache_plan::own_plan(saved, live, catalog, single, detected, now);
            let nothing = plan.actions.len() == 0;
            &&& catalog is Err ==> nothing && plan.error == Some(catalog->Err_0)
            &&& catalog is Ok && catalog->Ok_0 is Some && catalog->Ok_0->Some_0.get("models"@)
                == Some(JsonView::Array(models)) ==> plan == cache_plan::write_plan(
                saved,
                live,
                models,
                detected,
                now,
            )
            &&& catalog is Ok && catalog->Ok_0 is None && single is Some ==> plan
                == cache_plan::write_plan(saved, live, seq![single->Some_0], detected, now)
            &&& catalog is Ok && catalog->Ok_0 is None && single is None ==> nothing && plan.error
                is None
        }),
{
}

/// Without a cache the list is one without models, and an error says why nothing can be written.
pub proof fn law_what_stands_for_a_missing_cache(
    saved: Option<JsonView>,
    live: JsonView,
    models: Seq<JsonView>,
    detected: Option<Seq<char>>,
    now: Moment,
)
    ensures
        cache_plan::no_models().get("models"@) == Some(JsonView::Array(Seq::empty())),
        !models_cache::is_official(cache_plan::no_models()),
        cli::writable_version(detected, live) is None ==> cache_plan::write_plan(
            saved,
            live,
            models,
            detected,
            now,
        ).error == Some(
            ErrorView::Message(
                "Cannot write Codex models cache without a verified Codex client version"@,
            ),
        ),
{
}

/// A model whose slot a row has, but for which nothing was routed, is dropped, and that is a change.
pub proof fn law_a_row_without_its_entry_is_dropped(
    models: Seq<JsonView>,
    model: JsonView,
    owned: Seq<EntryView>,
    slots: SlotTable,
    j: int,
)
    requires
        0 <= j < owned.len(),
        owns_slot(owned[j], model, slots),
    ensures
        ({
            let none = Seq::<(Seq<char>, JsonView)>::empty();
            let before = models_cache::merge_all(models, none, owned, slots);
            let after = models_cache::merge_all(models.push(model), none, owned, slots);
            before.pending.len() == 0 ==> after.kept == before.kept && after.changed
        }),
{
    assert(models.push(model).drop_last() =~= models);
    let none = Seq::<(Seq<char>, JsonView)>::empty();
    let before = models_cache::merge_all(models, none, owned, slots);
    let slot = slots.slot(model.get_text("slug"@)->Some_0);
    assert(slots.slot(owned[j].model) == slot);
    assert(models_cache::slot_owned(owned, slots, slot));
    if before.pending.len() == 0 {
        assert(models_cache::first_pending(before.pending, slot) is None);
    }
}

/// A model for which something was routed is replaced by it where it stands, and the rest waits.
pub proof fn law_a_routed_model_takes_the_place(
    models: Seq<JsonView>,
    model: JsonView,
    pending: Seq<(Seq<char>, JsonView)>,
    owned: Seq<EntryView>,
    slots: SlotTable,
    slug: Seq<char>,
    k: int,
)
    requires
        model.get("slug"@) == Some(JsonView::Str(slug)),
        ({
            let left = models_cache::merge_all(models, pending, owned, slots).pending;
            0 <= k < left.len() && left[k].0 == slots.slot(slug) && forall|i: int|
                0 <= i < k ==> (#[trigger] left[i]).0 != slots.slot(slug)
        }),
    ensures
        ({
            let before = models_cache::merge_all(models, pending, owned, slots);
            let after = models_cache::merge_all(models.push(model), pending, owned, slots);
            &&& after.kept == before.kept.push(before.pending[k].1)
            &&& after.pending == before.pending.remove(k)
            &&& !json::same(model, before.pending[k].1) ==> after.changed
            &&& json::same(model, before.pending[k].1) ==> after.changed == before.changed
        }),
{
    assert(models.push(model).drop_last() =~= models);
    let before = models_cache::merge_all(models, pending, owned, slots);
    lemma_first_pending(before.pending, slots.slot(slug), k);
}

proof fn lemma_first_pending(pending: Seq<(Seq<char>, JsonView)>, slot: Seq<char>, k: int)
    requires
        0 <= k <= pending.len(),
        k < pending.len() ==> pending[k].0 == slot,
        forall|i: int| 0 <= i < k ==> (#[trigger] pending[i]).0 != slot,
    ensures
        models_cache::first_pending(pending, slot) == (if k < pending.len() {
            Some(k)
        } else {
            None
        }),
    decreases pending.len(),
{
    if pending.len() > 0 {
        let front = pending.drop_last();
        if k < pending.len() {
            assert forall|i: int| 0 <= i < k implies (#[trigger] front[i]).0 != slot by {
                assert(front[i] == pending[i]);
            }
            lemma_first_pending(front, slot, k);
        } else {
            assert forall|i: int| 0 <= i < front.len() implies (#[trigger] front[i]).0 != slot by {
                assert(front[i] == pending[i]);
            }
            lemma_first_pending(front, slot, k - 1);
            assert(pending[pending.len() - 1].0 != slot);
        }
    }
}

/// Routed models that are listed alone are listed all, in their order.
pub proof fn law_routed_models_alone_are_the_list(
    settings: JsonView,
    entries: Seq<JsonView>,
    slots: SlotTable,
)
    requires
        forall|i: int| 0 <= i < entries.len() ==> (#[trigger] entries[i]).get_text("slug"@) is Some,
    ensures
        models_cache::merged_models(Seq::empty(), settings, entries, slots) == entries,
{
    let end = models_cache::merge_end(Seq::empty(), settings, entries, slots);
    assert(end.pending == models_cache::pending_of(entries, slots));
    lemma_waiting(entries, slots);
    assert(end.kept + models_cache::waiting(end.pending) =~= entries);
}

proof fn lemma_waiting(entries: Seq<JsonView>, slots: SlotTable)
    requires
        forall|i: int| 0 <= i < entries.len() ==> (#[trigger] entries[i]).get_text("slug"@) is Some,
    ensures
        models_cache::waiting(models_cache::pending_of(entries, slots)) == entries,
    decreases entries.len(),
{
    let pending = models_cache::pending_of(entries, slots);
    if entries.len() > 0 {
        let front = entries.drop_last();
        assert forall|i: int| 0 <= i < front.len() implies (#[trigger] front[i]).get_text("slug"@)
            is Some by {
            assert(front[i] == entries[i]);
        }
        lemma_waiting(front, slots);
        assert(entries[entries.len() - 1].get_text("slug"@) is Some);
        let before = models_cache::pending_of(front, slots);
        assert(models_cache::waiting(pending) =~= models_cache::waiting(before).push(
            entries.last(),
        ));
        assert(front.push(entries.last()) =~= entries);
    }
    assert(models_cache::waiting(pending) =~= entries);
}

/// Which list a provider gets: the official one its routed models alone where the official login is
/// turned off, the two together where there are routed models, and else the official list; any other
/// provider its own.
pub proof fn law_which_list_a_provider_gets(
    state: CacheState,
    provider: CacheProvider,
    config: Seq<char>,
    slots: SlotTable,
    providers: Option<Seq<BoundProvider>>,
    sources: CatalogSources,
)
    ensures
        ({
            let plan = cache_plan::provider_plan(state, provider, config, slots, providers, sources);
            let settings = provider.settings@;
            let saved = json::option_view(state.saved);
            let live = state.live_list();
            let detected = text::text_of(state.detected_version);
            let rows = model_specs::custom_entries(settings, slots);
            let login = model_specs::official_login(settings);
            let routed = routed_catalog::custom_catalog(
                settings,
                slots,
                config,
                CodexCatalogToolProfile::NativeResponses,
                providers,
                sources,
            );
            &&& provider.official && login && rows.len() == 0 ==> plan == cache_plan::restore_plan(
                saved,
                live,
                state.now,
            )
            &&& provider.official && login && rows.len() > 0 ==> plan
                == cache_plan::official_login_plan(
                saved,
                live,
                settings,
                slots,
                routed,
                detected,
                state.now,
            )
            &&& provider.official && !login && routed is Err ==> plan.actions.len() == 0
                && plan.error == Some(routed->Err_0)
            &&& provider.official && !login && routed is Ok ==> plan == cache_plan::write_plan(
                saved,
                live,
                models_cache::merged_models(Seq::empty(), settings, routed->Ok_0, slots),
                detected,
                state.now,
            )
            &&& !provider.official ==> plan == cache_plan::own_plan(
                saved,
                live,
                catalog::catalog_for(settings, slots, config, provider.profile, None, sources),
                cache_plan::configured_entry(config, provider.profile, sources),
                detected,
                state.now,
            )
        }),
{
}

} // verus!
