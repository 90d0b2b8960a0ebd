//! The cache that the desktop application reads its list of models from.

use crate::json::{Json, JsonView};
use crate::model_specs::{codex_custom_model_entries, CodexCustomModelEntry, EntryView, SlotTable};
use crate::text::{chars_of, join2, str_eq, str_starts_with};
use crate::{auth, json, model_specs, text};
use vstd::prelude::*;
use vstd::string::*;

verus! {

/// Marks a list that official models were merged into.
pub const CODEX_OFFICIAL_MODELS_MERGED_KEY: &'static str = "cc_switch_merged";

/// Stands before the names of official models where others are listed next to them.
pub const CODEX_OFFICIAL_MODEL_DISPLAY_PREFIX: &'static str = "官方-";

/// The file that keeps the official models while the cache holds others.
pub const CC_SWITCH_CODEX_OFFICIAL_MODELS_CACHE_FILENAME: &'static str = "cc-switch-official-models-cache.json";

/// The entries that have a name, each with its slot.
pub open spec fn pending_of(entries: Seq<JsonView>, slots: SlotTable) -> Seq<(Seq<char>, JsonView)>
    decreases entries.len(),
{
    if entries.len() == 0 {
        Seq::empty()
    } else {
        let front = pending_of(entries.drop_last(), slots);
        match entries.last().get_text("slug"@) {
            Some(slug) => front.push((slots.slot(slug), entries.last())),
            None => front,
        }
    }
}

/// The first waiting entry for a slot.
pub open spec fn first_pending(
    pending: Seq<(Seq<char>, JsonView)>,
    slot: Seq<char>,
) -> Option<int>
    decreases pending.len(),
{
    if pending.len() == 0 {
        None
    } else {
        match first_pending(pending.drop_last(), slot) {
            Some(i) => Some(i),
            None => if pending.last().0 == slot {
                Some(pending.len() - 1)
            } else {
                None
            },
        }
    }
}

/// How far a merge has come: the models that stay, the entries that still wait, and whether
/// anything changed.
pub struct MergeState {
    pub kept: Seq<JsonView>,
    pub pending: Seq<(Seq<char>, JsonView)>,
    pub changed: bool,
}

/// Whether a routed model takes a slot.
pub open spec fn slot_owned(entries: Seq<EntryView>, slots: SlotTable, slot: Seq<char>) -> bool {
    exists|i: int| 0 <= i < entries.len() && slots.slot((#[trigger] entries[i]).model) == slot
}

/// A merge after one more model: it is replaced by the first entry that waits for its slot; it goes
/// where a routed model takes its slot and has no entry left; else it stays.
pub open spec fn merge_step(
    state: MergeState,
    model: JsonView,
    owned: Seq<EntryView>,
    slots: SlotTable,
) -> MergeState {
    match model.get_text("slug"@) {
        None => MergeState { kept: state.kept.push(model), ..state },
        Some(slug) => {
            let slot = slots.slot(slug);
            match first_pending(state.pending, slot) {
                Some(i) => MergeState {
                    kept: state.kept.push(state.pending[i].1),
                    pending: state.pending.remove(i),
                    changed: state.changed || !json::same(model, state.pending[i].1),
                },
                None => if slot_owned(owned, slots, slot) {
                    MergeState { changed: true, ..state }
                } else {
                    MergeState { kept: state.kept.push(model), ..state }
                },
            }
        },
    }
}

/// A merge after some models.
pub open spec fn merge_all(
    models: Seq<JsonView>,
    pending: Seq<(Seq<char>, JsonView)>,
    owned: Seq<EntryView>,
    slots: SlotTable,
) -> MergeState
    decreases models.len(),
{
    if models.len() == 0 {
        MergeState { kept: Seq::empty(), pending, changed: false }
    } else {
        merge_step(
            merge_all(models.drop_last(), pending, owned, slots),
            models.last(),
            owned,
            slots,
        )
    }
}

/// The entries of those that wait.
pub open spec fn waiting(pending: Seq<(Seq<char>, JsonView)>) -> Seq<JsonView> {
    pending.map_values(|p: (Seq<char>, JsonView)| p.1)
}

/// A merge of routed models into a list: its end state.
pub open spec fn merge_end(
    models: Seq<JsonView>,
    settings: JsonView,
    entries: Seq<JsonView>,
    slots: SlotTable,
) -> MergeState {
    merge_all(
        models,
        pending_of(entries, slots),
        model_specs::custom_entries(settings, slots),
        slots,
    )
}

/// A list after routed models were merged into it.
pub open spec fn merged_models(
    models: Seq<JsonView>,
    settings: JsonView,
    entries: Seq<JsonView>,
    slots: SlotTable,
) -> Seq<JsonView> {
    let end = merge_end(models, settings, entries, slots);
    end.kept + waiting(end.pending)
}

/// Whether a merge of routed models changes a list.
pub open spec fn merge_changes(
    models: Seq<JsonView>,
    settings: JsonView,
    entries: Seq<JsonView>,
    slots: SlotTable,
) -> bool {
    let end = merge_end(models, settings, entries, slots);
    end.changed || end.pending.len() > 0
}

/// What waiting entries stand for.
spec fn pending_view(pending: Seq<(String, Json)>) -> Seq<(Seq<char>, JsonView)> {
    pending.map_values(|p: (String, Json)| (p.0@, p.1@))
}

/// The entries that have a name, each with its slot.
fn pending_entries(entries: &Vec<Json>, slots: &SlotTable) -> (r: Vec<(String, Json)>)
    ensures
        pending_view(r@) == pending_of(json::items_view(entries@), *slots),
{
    let ghost views = json::items_view(entries@);
    let mut out: Vec<(String, Json)> = Vec::new();
    let mut i: usize = 0;
    assert(pending_view(out@) =~= Seq::<(Seq<char>, JsonView)>::empty());
    while i < entries.len()
        invariant
            i <= entries@.len(),
            views == json::items_view(entries@),
            pending_view(out@) == pending_of(views.take(i as int), *slots),
        decreases entries@.len() - i,
    {
        proof {
            json::lemma_items_view(entries@);
            assert(views.take(i + 1).drop_last() =~= views.take(i as int));
            assert(views.take(i + 1).last() == entries@[i as int].view());
        }
        if let Some(slug) = entries[i].get_str("slug") {
            let ghost before = pending_view(out@);
            let item = (slots.slot_of(slug), entries[i].clone());
            out.push(item);
            assert(pending_view(out@) =~= before.push((item.0@, item.1@)));
        }
        i += 1;
    }
    proof {
        json::lemma_items_view(entries@);
        assert(views.take(i as int) =~= views);
    }
    out
}

/// The first waiting entry for a slot.
fn find_pending(pending: &Vec<(String, Json)>, slot: &str) -> (r: Option<usize>)
    ensures
        match r {
            Some(i) => i < pending@.len() && first_pending(pending_view(pending@), slot@) == Some(
                i as int,
            ),
            None => first_pending(pending_view(pending@), slot@) is None,
        },
{
    let ghost views = pending_view(pending@);
    let mut found: Option<usize> = None;
    let mut i: usize = 0;
    while i < pending.len()
        invariant
            i <= pending@.len(),
            views == pending_view(pending@),
            match found {
                Some(k) => k < i && first_pending(views.take(i as int), slot@) == Some(k as int),
                None => first_pending(views.take(i as int), slot@) is None,
            },
        decreases pending@.len() - i,
    {
        proof {
            assert(views.take(i + 1).drop_last() =~= views.take(i as int));
            assert(views.take(i + 1).last() == views[i as int]);
        }
        if found.is_none() && str_eq(pending[i].0.as_str(), slot) {
            found = Some(i);
        }
        i += 1;
    }
    assert(views.take(i as int) =~= views);
    found
}

/// Whether a routed model takes a slot.
fn is_slot_owned(entries: &Vec<CodexCustomModelEntry>, slots: &SlotTable, slot: &str) -> (r: bool)
    ensures
        r == slot_owned(model_specs::entries_view(entries@), *slots, slot@),
{
    let ghost views = model_specs::entries_view(entries@);
    let mut i: usize = 0;
    while i < entries.len()
        invariant
            i <= entries@.len(),
            views == model_specs::entries_view(entries@),
            forall|j: int| 0 <= j < i ==> slots.slot((#[trigger] views[j]).model) != slot@,
        decreases entries@.len() - i,
    {
        assert(views[i as int] == entries@[i as int]@);
        if str_eq(slots.slot_of(entries[i].model.as_str()).as_str(), slot) {
            return true;
        }
        i += 1;
    }
    false
}

/// Merges the entries of routed models into a list, and says whether that changed it. A routed
/// model takes its public name even where its provider is gone: an official model of that name
/// could not be served.
pub fn merge_codex_custom_catalog_entries(
    models: &mut Vec<Json>,
    settings: &Json,
    custom_entries: &Vec<Json>,
    slots: &SlotTable,
) -> (changed: bool)
    ensures
        json::items_view(final(models)@) == merged_models(
            json::items_view(old(models)@),
            settings@,
            json::items_view(custom_entries@),
            *slots,
        ),
        changed == merge_changes(
            json::items_view(old(models)@),
            settings@,
            json::items_view(custom_entries@),
            *slots,
        ),
{
    let owned = codex_custom_model_entries(settings, slots);
    let mut pending = pending_entries(custom_entries, slots);
    let ghost start = pending_view(pending@);
    let ghost views = json::items_view(models@);
    let ghost owned_views = model_specs::entries_view(owned@);
    let mut kept: Vec<Json> = Vec::new();
    let mut changed = false;
    let mut i: usize = 0;
    while i < models.len()
        invariant
            i <= models@.len(),
            views == json::items_view(models@),
            owned_views == model_specs::entries_view(owned@),
            ({
                let state = merge_all(views.take(i as int), start, owned_views, *slots);
                &&& state.kept == json::items_view(kept@)
                &&& state.pending == pending_view(pending@)
                &&& state.changed == changed
            }),
        decreases models@.len() - i,
    {
        broadcast use json::lemma_items_push;

        proof {
            json::lemma_items_view(models@);
            assert(views.take(i + 1).drop_last() =~= views.take(i as int));
            assert(views.take(i + 1).last() == models@[i as int].view());
        }
        let model = &models[i];
        match model.get_str("slug") {
            None => {
                kept.push(model.clone());
            },
            Some(slug) => {
                let slot = slots.slot_of(slug);
                match find_pending(&pending, slot.as_str()) {
                    Some(k) => {
                        let ghost before = pending_view(pending@);
                        let (_, replacement) = pending.remove(k);
                        assert(pending_view(pending@) =~= before.remove(k as int));
                        if !model.equals(&replacement) {
                            changed = true;
                        }
                        kept.push(replacement);
                    },
                    None => {
                        if is_slot_owned(&owned, slots, slot.as_str()) {
                            changed = true;
                        } else {
                            kept.push(model.clone());
                        }
                    },
                }
            },
        }
        i += 1;
    }
    proof {
        json::lemma_items_view(models@);
        assert(views.take(i as int) =~= views);
    }
    if pending.len() > 0 {
        changed = true;
    }
    let ghost rest = pending_view(pending@);
    let ghost placed = json::items_view(kept@);
    let mut j: usize = 0;
    assert(placed + waiting(rest).take(0) =~= placed);
    while j < pending.len()
        invariant
            j <= pending@.len(),
            rest == pending_view(pending@),
            json::items_view(kept@) == placed + waiting(rest).take(j as int),
        decreases pending@.len() - j,
    {
        broadcast use json::lemma_items_push;

        let entry = pending[j].1.clone();
        assert(waiting(rest)[j as int] == pending@[j as int].1@);
        kept.push(entry);
        j += 1;
        assert(json::items_view(kept@) =~= placed + waiting(rest).take(j as int));
    }
    assert(waiting(rest).take(j as int) =~= waiting(rest));
    *models = kept;
    changed
}

/// Whether a name is one that the official prefix goes before: not blank, and without it.
pub open spec fn needs_prefix(name: Option<Seq<char>>) -> bool {
    name matches Some(name) && !text::is_blank(name)
        && !CODEX_OFFICIAL_MODEL_DISPLAY_PREFIX@.is_prefix_of(text::trim(name))
}

/// Whether a name is there.
pub open spec fn has_name(name: Option<Seq<char>>) -> bool {
    name matches Some(name) && !text::is_blank(name)
}

/// A model with the official prefix before one of its names.
pub open spec fn with_prefix(model: JsonView, key: Seq<char>) -> JsonView {
    if needs_prefix(model.get_text(key)) {
        model.put(
            key,
            JsonView::Str(
                CODEX_OFFICIAL_MODEL_DISPLAY_PREFIX@ + text::trim(model.get_text(key)->Some_0),
            ),
        )
    } else {
        model
    }
}

/// A model with a name where there was nothing under that key.
pub open spec fn with_default(model: JsonView, key: Seq<char>, value: JsonView) -> JsonView {
    if model.get(key) is None {
        model.put(key, value)
    } else {
        model
    }
}

/// A model with the official prefix before its names; one without a name gets the prefix and its id
/// for one.
pub open spec fn prefixed(model: JsonView) -> JsonView {
    if has_name(model.get_text("display_name"@)) || has_name(model.get_text("displayName"@)) {
        with_prefix(with_prefix(model, "display_name"@), "displayName"@)
    } else {
        match auth::trimmed_member(model, "slug"@) {
            Some(slug) => {
                let name = JsonView::Str(CODEX_OFFICIAL_MODEL_DISPLAY_PREFIX@ + slug);
                with_default(with_default(model, "display_name"@, name), "displayName"@, name)
            },
            None => model,
        }
    }
}

/// All models with the official prefix before their names.
pub open spec fn all_prefixed(models: Seq<JsonView>) -> Seq<JsonView> {
    models.map_values(|m: JsonView| prefixed(m))
}

/// Whether a name is there.
fn is_named(model: &Json, key: &str) -> (r: bool)
    ensures
        r == has_name(model@.get_text(key@)),
{
    match model.get_str(key) {
        Some(name) => !name.trim().is_empty(),
        None => false,
    }
}

/// Puts the official prefix before one name of a model.
fn add_prefix(model: &mut Json, key: &str)
    ensures
        final(model)@ == with_prefix(old(model)@, key@),
{
    let name = match model.get_str(key) {
        Some(name) => {
            let name = name.trim();
            if name.is_empty() || str_starts_with(name, CODEX_OFFICIAL_MODEL_DISPLAY_PREFIX) {
                return;
            }
            join2(CODEX_OFFICIAL_MODEL_DISPLAY_PREFIX, name)
        },
        None => {
            return;
        },
    };
    model.insert(key, Json::Str(name));
}

/// Puts the official prefix before the names of all models, so that they can be told from models
/// that are routed elsewhere. A name that has it stays; a model without a name gets the prefix and
/// its id for one.
pub fn apply_codex_official_model_display_prefix(models: &mut Vec<Json>)
    ensures
        json::items_view(final(models)@) == all_prefixed(json::items_view(old(models)@)),
{
    let ghost views = json::items_view(models@);
    let mut out: Vec<Json> = Vec::new();
    let mut i: usize = 0;
    proof {
        json::lemma_items_view(models@);
    }
    while i < models.len()
        invariant
            i <= models@.len(),
            views == json::items_view(models@),
            views.len() == models@.len(),
            json::items_view(out@) =~= all_prefixed(views).take(i as int),
        decreases models@.len() - i,
    {
        broadcast use json::lemma_items_push;

        proof {
            json::lemma_items_view(models@);
            assert(views[i as int] == models@[i as int].view());
        }
        let mut model = models[i].clone();
        if is_named(&model, "display_name") || is_named(&model, "displayName") {
            add_prefix(&mut model, "display_name");
            add_prefix(&mut model, "displayName");
        } else {
            let name = match auth::get_trimmed(&model, "slug") {
                Some(slug) => Some(join2(CODEX_OFFICIAL_MODEL_DISPLAY_PREFIX, slug)),
                None => None,
            };
            if let Some(name) = name {
                if model.get("display_name").is_none() {
                    model.insert("display_name", Json::string(name.as_str()));
                }
                if model.get("displayName").is_none() {
                    model.insert("displayName", Json::Str(name));
                }
            }
        }
        out.push(model);
        i += 1;
    }
    assert(all_prefixed(views).take(i as int) =~= all_prefixed(views));
    *models = out;
}

proof fn lemma_name_keys()
    ensures
        "display_name"@ != "displayName"@,
        "slug"@ != "display_name"@,
        "slug"@ != "displayName"@,
{
    reveal_strlit("display_name");
    reveal_strlit("displayName");
    reveal_strlit("slug");
    assert("display_name"@.len() == 12);
    assert("displayName"@.len() == 11);
    assert("slug"@.len() == 4);
}

/// A name behind the prefix is not blank and has the prefix.
proof fn lemma_prefixed_name(name: Seq<char>)
    requires
        !text::is_blank(name),
        text::trim(name) == name,
    ensures
        has_name(Some(CODEX_OFFICIAL_MODEL_DISPLAY_PREFIX@ + name)),
        !needs_prefix(Some(CODEX_OFFICIAL_MODEL_DISPLAY_PREFIX@ + name)),
{
    reveal_strlit("官方-");
    let prefix = CODEX_OFFICIAL_MODEL_DISPLAY_PREFIX@;
    let whole = prefix + name;
    assert(prefix.len() == 3);
    assert(!text::is_space(whole[0]));
    text::lemma_trim_end_of(prefix, name);
    assert(text::trim(whole) == whole);
    assert(whole.subrange(0, 3) =~= prefix);
}

/// Prefixing twice is prefixing once.
pub proof fn law_prefixing_twice_is_prefixing_once(models: Seq<JsonView>)
    ensures
        all_prefixed(all_prefixed(models)) == all_prefixed(models),
{
    let once = all_prefixed(models);
    assert(all_prefixed(once) =~= once) by {
        assert forall|i: int| 0 <= i < once.len() implies prefixed(once[i]) == once[i] by {
            lemma_prefixed_once(models[i]);
        }
    }
}

proof fn lemma_prefixed_once(model: JsonView)
    ensures
        prefixed(prefixed(model)) == prefixed(model),
{
    lemma_name_keys();
    let a = model.get_text("display_name"@);
    let b = model.get_text("displayName"@);
    if has_name(a) || has_name(b) {
        if has_name(a) {
            text::lemma_trimmed(a->Some_0);
            lemma_prefixed_name(text::trim(a->Some_0));
        }
        if has_name(b) {
            text::lemma_trimmed(b->Some_0);
            lemma_prefixed_name(text::trim(b->Some_0));
        }
    } else {
        match auth::trimmed_member(model, "slug"@) {
            Some(slug) => {
                let raw = model.get_text("slug"@)->Some_0;
                text::lemma_trimmed(raw);
                lemma_prefixed_name(slug);
            },
            None => {},
        }
    }
}

/// Whether a list of models was written by this application.
pub open spec fn has_own_etag(cache: JsonView) -> bool {
    cache.get_text("etag"@) matches Some(etag) && "W/\"cc-switch-"@.is_prefix_of(etag)
}

/// Whether a list of models was written by this application, told by its tag.
pub fn codex_cache_has_cc_switch_etag(cache: &Json) -> (r: bool)
    ensures
        r == has_own_etag(cache@),
{
    match cache.get_str("etag") {
        Some(etag) => str_starts_with(etag, "W/\"cc-switch-"),
        None => false,
    }
}

/// Whether a list is marked as merged.
pub open spec fn is_merged(cache: JsonView) -> bool {
    model_specs::flag(cache.get(CODEX_OFFICIAL_MODELS_MERGED_KEY@)) == Some(true)
}

/// Whether a list is marked as merged.
pub fn is_marked_merged(cache: &Json) -> (r: bool)
    ensures
        r == is_merged(cache@),
{
    match cache.get(CODEX_OFFICIAL_MODELS_MERGED_KEY) {
        Some(value) => match value.as_bool() {
            Some(on) => on,
            None => false,
        },
        None => false,
    }
}

/// Whether a list of models is the official one, as Codex itself has fetched it.
pub open spec fn is_official(cache: JsonView) -> bool {
    &&& cache.get_items("models"@) matches Some(models) && models.len() > 0
    &&& !has_own_etag(cache)
    &&& !is_merged(cache)
}

/// Whether a list of models is the official one, as Codex itself has fetched it.
pub fn codex_cache_is_reliable_official_baseline(cache: &Json) -> (r: bool)
    ensures
        r == is_official(cache@),
{
    let filled = match cache.get_array("models") {
        Some(models) => {
            proof {
                json::lemma_items_view(models@);
            }
            !models.is_empty()
        },
        None => false,
    };
    filled && !codex_cache_has_cc_switch_etag(cache) && !is_marked_merged(cache)
}

/// The lower case of a character, as Unicode has it.
pub uninterp spec fn char_lowercase(c: char) -> Seq<char>;

/// Whether a character is a letter or a number, as Unicode has it.
pub uninterp spec fn char_alphanumeric(c: char) -> bool;

/// `char::to_lowercase` gives the lower case of a character, which may be several.
#[verifier::external_body]
fn lowercase_of(c: char) -> (r: Vec<char>)
    ensures
        r@ == char_lowercase(c),
{
    c.to_lowercase().collect()
}

/// `char::is_alphanumeric` says whether a character is a letter or a number.
pub assume_specification[ char::is_alphanumeric ](c: char) -> (r: bool)
    ensures
        r == char_alphanumeric(c),
;

/// The letters and numbers of a text in lower case.
pub open spec fn label_key(label: Seq<char>) -> Seq<char>
    decreases label.len(),
{
    if label.len() == 0 {
        Seq::empty()
    } else {
        label_key(label.drop_last()) + char_lowercase(label.last()).filter(
            |c: char| char_alphanumeric(c),
        )
    }
}

/// The letters and numbers of a text in lower case, by which labels are compared.
pub fn codex_model_label_key(label: &str) -> (r: String)
    ensures
        r@ == label_key(label@),
{
    let chars = chars_of(label);
    let mut out = String::new();
    let mut i: usize = 0;
    while i < chars.len()
        invariant
            chars@ == label@,
            i <= chars@.len(),
            out@ == label_key(label@.take(i as int)),
        decreases chars@.len() - i,
    {
        proof {
            assert(label@.take(i + 1).drop_last() =~= label@.take(i as int));
            assert(label@.take(i + 1).last() == chars@[i as int]);
        }
        let lower = lowercase_of(chars[i]);
        let ghost before = out@;
        let ghost keep = |c: char| char_alphanumeric(c);
        let mut j: usize = 0;
        assert(before + lower@.take(0).filter(keep) =~= before) by {
            reveal(Seq::filter);
        }
        while j < lower.len()
            invariant
                j <= lower@.len(),
                keep == |c: char| char_alphanumeric(c),
                out@ == before + lower@.take(j as int).filter(keep),
            decreases lower@.len() - j,
        {
            proof {
                reveal(Seq::filter);
                assert(lower@.take(j + 1).drop_last() =~= lower@.take(j as int));
                assert(lower@.take(j + 1).last() == lower@[j as int]);
            }
            let ghost so_far = out@;
            if lower[j].is_alphanumeric() {
                out.push(lower[j]);
                assert(out@ =~= before + lower@.take(j as int).filter(keep).push(
                    lower@[j as int],
                ));
            }
            j += 1;
        }
        assert(lower@.take(j as int) =~= lower@);
        i += 1;
    }
    assert(label@.take(i as int) =~= label@);
    out
}

/// Whether a model stands in a list under a routed model's id and name.
pub open spec fn lists_entry(models: Seq<JsonView>, entry: EntryView, name: Seq<char>) -> bool {
    exists|k: int|
        0 <= k < models.len() && (#[trigger] models[k]).get_text("slug"@) == Some(entry.model)
            && models[k].get_text("display_name"@) == Some(name)
}

/// Whether a routed model stands in a list with a name that is not just another writing of its id.
pub open spec fn is_legacy_entry(models: Seq<JsonView>, entry: EntryView) -> bool {
    entry.display_name matches Some(name) && label_key(name) != label_key(entry.model)
        && lists_entry(models, entry, name)
}

/// Whether a model has the priority of one that this application has written.
pub open spec fn has_own_priority(model: JsonView) -> bool {
    model.get("priority"@) matches Some(value) && (value.unsigned() matches Some(n) && n >= 1000)
}

/// Whether a list holds routed models that were written without a mark.
pub open spec fn has_legacy_models(
    cache: JsonView,
    settings: Option<JsonView>,
    slots: SlotTable,
) -> bool {
    cache.get_items("models"@) matches Some(models) && {
        ||| exists|k: int| 0 <= k < models.len() && has_own_priority(#[trigger] models[k])
        ||| settings matches Some(settings) && exists|i: int|
            0 <= i < model_specs::custom_entries(settings, slots).len() && is_legacy_entry(
                models,
                #[trigger] model_specs::custom_entries(settings, slots)[i],
            )
    }
}

/// Whether a model stands in a list under a routed model's id and name.
fn is_entry_listed(models: &Vec<Json>, entry: &CodexCustomModelEntry, name: &str) -> (r: bool)
    ensures
        r == lists_entry(json::items_view(models@), entry@, name@),
{
    let ghost views = json::items_view(models@);
    proof {
        json::lemma_items_view(models@);
    }
    let mut k: usize = 0;
    while k < models.len()
        invariant
            k <= models@.len(),
            views == json::items_view(models@),
            views.len() == models@.len(),
            forall|j: int|
                0 <= j < k ==> !((#[trigger] views[j]).get_text("slug"@) == Some(entry@.model)
                    && views[j].get_text("display_name"@) == Some(name@)),
        decreases models@.len() - k,
    {
        proof {
            json::lemma_items_view(models@);
            assert(views[k as int] == models@[k as int].view());
        }
        if let Some(slug) = models[k].get_str("slug") {
            if let Some(shown) = models[k].get_str("display_name") {
                if str_eq(slug, entry.model.as_str()) && str_eq(shown, name) {
                    return true;
                }
            }
        }
        k += 1;
    }
    false
}

/// Whether a list holds routed models that were written without a mark: by their priority, or by
/// the id and the name that the settings give them.
pub fn codex_cache_has_legacy_custom_models(
    cache: &Json,
    provider_settings: Option<&Json>,
    slots: &SlotTable,
) -> (r: bool)
    ensures
        r == has_legacy_models(cache@, json::ref_view(provider_settings), *slots),
{
    let models = match cache.get_array("models") {
        Some(models) => models,
        None => {
            return false;
        },
    };
    let ghost views = json::items_view(models@);
    proof {
        json::lemma_items_view(models@);
    }
    let mut k: usize = 0;
    while k < models.len()
        invariant
            k <= models@.len(),
            views == json::items_view(models@),
            views.len() == models@.len(),
            cache@.get_items("models"@) == Some(views),
            forall|j: int| 0 <= j < k ==> !has_own_priority(#[trigger] views[j]),
        decreases models@.len() - k,
    {
        proof {
            json::lemma_items_view(models@);
            assert(views[k as int] == models@[k as int].view());
        }
        if let Some(value) = models[k].get("priority") {
            if let Some(n) = value.as_u64() {
                if n >= 1000 {
                    assert(has_own_priority(cache@.get_items("models"@)->Some_0[k as int]));
                    return true;
                }
            }
        }
        k += 1;
    }
    let settings = match provider_settings {
        Some(settings) => settings,
        None => {
            return false;
        },
    };
    let entries = codex_custom_model_entries(settings, slots);
    let ghost entry_views = model_specs::entries_view(entries@);
    let mut i: usize = 0;
    while i < entries.len()
        invariant
            i <= entries@.len(),
            views == json::items_view(models@),
            cache@.get_items("models"@) == Some(views),
            provider_settings == Some(settings),
            entry_views == model_specs::entries_view(entries@),
            entry_views == model_specs::custom_entries(settings@, *slots),
            forall|j: int| 0 <= j < i ==> !is_legacy_entry(views, #[trigger] entry_views[j]),
        decreases entries@.len() - i,
    {
        assert(entry_views[i as int] == entries@[i as int]@);
        if let Some(name) = &entries[i].display_name {
            let own = codex_model_label_key(name.as_str());
            let model = codex_model_label_key(entries[i].model.as_str());
            if !str_eq(own.as_str(), model.as_str()) && is_entry_listed(
                models,
                &entries[i],
                name.as_str(),
            ) {
                assert(is_legacy_entry(
                    cache@.get_items("models"@)->Some_0,
                    model_specs::custom_entries(settings@, *slots)[i as int],
                ));
                return true;
            }
        }
        i += 1;
    }
    false
}

/// Whether the cache has to be put back when the takeover ends: it holds what this application has
/// written, or it is gone while the official list was put aside. A takeover that never got to write
/// leaves the official cache alone.
pub open spec fn needs_cleanup(
    baseline_exists: bool,
    live: Option<JsonView>,
    settings: Option<JsonView>,
    slots: SlotTable,
) -> bool {
    match live {
        Some(cache) => {
            ||| has_own_etag(cache)
            ||| is_merged(cache)
            ||| has_legacy_models(cache, settings, slots)
            ||| baseline_exists && !is_official(cache)
        },
        None => baseline_exists,
    }
}

/// Whether the cache has to be put back when the takeover ends.
pub fn codex_models_cache_needs_takeover_cleanup(
    baseline_exists: bool,
    live_cache: Option<&Json>,
    provider_settings: Option<&Json>,
    slots: &SlotTable,
) -> (r: bool)
    ensures
        r == needs_cleanup(
            baseline_exists,
            json::ref_view(live_cache),
            json::ref_view(provider_settings),
            *slots,
        ),
{
    match live_cache {
        Some(cache) => codex_cache_has_cc_switch_etag(cache) || is_marked_merged(cache)
            || codex_cache_has_legacy_custom_models(cache, provider_settings, slots) || (
        baseline_exists && !codex_cache_is_reliable_official_baseline(cache)),
        None => baseline_exists,
    }
}

} // verus!
