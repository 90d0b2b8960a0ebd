//! The list of models that the desktop application is allowed to show, and the models that are
//! added to it.

use crate::catalog_entry::string_array;
use crate::json::{parse_json, print_json, Json, JsonView};
use crate::model_specs::strings_of;
use crate::text::{list_contains, str_eq};
use crate::{catalog_entry, json, model_specs, text};
use vstd::prelude::*;
use vstd::string::*;

verus! {

/// The config that holds the list.
pub const CODEX_DESKTOP_STATSIG_MODELS_CONFIG_ID: &'static str = "107580212";

/// Says which models were added, so that exactly these can be taken out again.
pub const CODEX_DESKTOP_STATSIG_OWNED_MODELS_KEY: &'static str = "cc_switch_injected_available_models";

/// A list with the ids of some models, each once.
pub open spec fn with_ids(ids: Seq<Seq<char>>, items: Seq<JsonView>) -> Seq<Seq<char>>
    decreases items.len(),
{
    if items.len() == 0 {
        ids
    } else {
        let front = with_ids(ids, items.drop_last());
        match model_specs::trimmed(items.last().get("model"@)) {
            Some(id) => if front.contains(id) {
                front
            } else {
                front.push(id)
            },
            None => front,
        }
    }
}

/// The models of a provider's own catalog.
pub open spec fn catalog_items(settings: JsonView) -> Seq<JsonView> {
    match settings.get("modelCatalog"@) {
        Some(catalog) => match catalog.get_items("models"@) {
            Some(items) => items,
            None => Seq::empty(),
        },
        None => Seq::empty(),
    }
}

/// The routed models.
pub open spec fn custom_items(settings: JsonView) -> Seq<JsonView> {
    match settings.get_items("codexCustomModels"@) {
        Some(items) => items,
        None => Seq::empty(),
    }
}

/// The ids of the models of settings: of the catalog, then of the routed ones.
pub open spec fn model_ids(settings: JsonView) -> Seq<Seq<char>> {
    with_ids(with_ids(Seq::empty(), catalog_items(settings)), custom_items(settings))
}

/// Adds the ids of some models, each once.
fn push_ids(ids: &mut Vec<String>, items: &Vec<Json>)
    ensures
        text::texts(final(ids)@) == with_ids(text::texts(old(ids)@), json::items_view(items@)),
{
    let ghost before = text::texts(ids@);
    let ghost views = json::items_view(items@);
    let mut i: usize = 0;
    while i < items.len()
        invariant
            i <= items@.len(),
            views == json::items_view(items@),
            text::texts(ids@) == with_ids(before, views.take(i as int)),
        decreases items@.len() - i,
    {
        proof {
            json::lemma_items_view(items@);
            assert(views.take(i + 1).drop_last() =~= views.take(i as int));
            assert(views.take(i + 1).last() == items@[i as int].view());
        }
        if let Some(id) = model_specs::trimmed_text(items[i].get("model")) {
            if !list_contains(ids, id.as_str()) {
                let ghost so_far = text::texts(ids@);
                ids.push(id);
                assert(text::texts(ids@) =~= so_far.push(id@));
            }
        }
        i += 1;
    }
    proof {
        json::lemma_items_view(items@);
        assert(views.take(i as int) =~= views);
    }
}

/// The ids of the models of settings.
pub fn codex_model_ids_from_settings(settings: &Json) -> (r: Vec<String>)
    ensures
        text::texts(r@) == model_ids(settings@),
{
    let mut ids: Vec<String> = Vec::new();
    assert(text::texts(ids@) =~= Seq::<Seq<char>>::empty());
    if let Some(catalog) = settings.get("modelCatalog") {
        if let Some(items) = catalog.get_array("models") {
            push_ids(&mut ids, items);
        }
    }
    if let Some(items) = settings.get_array("codexCustomModels") {
        push_ids(&mut ids, items);
    }
    ids
}

/// The evaluations that a value holds as a text.
pub open spec fn data_of(wrapper: JsonView) -> Option<JsonView> {
    match wrapper.get_text("data"@) {
        Some(data) => json::json_text(data),
        None => None,
    }
}

/// A member of an optional value.
pub open spec fn member(value: Option<JsonView>, key: Seq<char>) -> Option<JsonView> {
    match value {
        Some(value) => value.get(key),
        None => None,
    }
}

/// The config of the models in evaluations.
pub open spec fn models_config(data: JsonView) -> Option<JsonView> {
    member(data.get("dynamic_configs"@), CODEX_DESKTOP_STATSIG_MODELS_CONFIG_ID@)
}

/// The list of models in evaluations.
pub open spec fn models_in(data: JsonView) -> Option<Seq<JsonView>> {
    match member(member(models_config(data), "value"@), "available_models"@) {
        Some(list) => list.items(),
        None => None,
    }
}

/// The ids of the models in the list.
pub open spec fn available_ids(wrapper: JsonView) -> Option<Seq<Seq<char>>> {
    match data_of(wrapper) {
        Some(data) => match models_in(data) {
            Some(items) => Some(model_specs::text_items(items)),
            None => None,
        },
        None => None,
    }
}

/// The evaluations that a value holds as a text.
fn read_data(wrapper: &Json) -> (r: Option<Json>)
    ensures
        json::option_view(r) == data_of(wrapper@),
{
    match wrapper.get_str("data") {
        Some(data) => parse_json(data),
        None => None,
    }
}

/// The list of models in evaluations.
fn get_models<'a>(data: &'a Json) -> (r: Option<&'a Vec<Json>>)
    ensures
        match r {
            Some(items) => models_in(data@) == Some(json::items_view(items@)),
            None => models_in(data@) is None,
        },
{
    match data.get("dynamic_configs") {
        Some(configs) => match configs.get(CODEX_DESKTOP_STATSIG_MODELS_CONFIG_ID) {
            Some(config) => match config.get("value") {
                Some(value) => value.get_array("available_models"),
                None => None,
            },
            None => None,
        },
        None => None,
    }
}

/// What an optional list of texts stands for.
pub open spec fn list_option(list: Option<Vec<String>>) -> Option<Seq<Seq<char>>> {
    match list {
        Some(list) => Some(text::texts(list@)),
        None => None,
    }
}

/// The ids of the models in the list; `None` where the value holds no such list.
pub fn codex_desktop_statsig_available_model_ids(wrapper: &Json) -> (r: Option<Vec<String>>)
    ensures
        list_option(r) == available_ids(wrapper@),
{
    match read_data(wrapper) {
        Some(data) => match get_models(&data) {
            Some(items) => Some(strings_of(items)),
            None => None,
        },
        None => None,
    }
}

/// Whether evaluations hold anything under a key.
pub open spec fn has_evaluations(data: JsonView, key: Seq<char>) -> bool {
    match data.get(key) {
        None => false,
        Some(JsonView::Object(entries)) => exists|name: Seq<char>| #[trigger]
            entries.dom().contains(name),
        Some(_) => true,
    }
}

/// Whether the config of the models is the only evaluation.
pub open spec fn is_isolated(wrapper: JsonView) -> bool {
    match data_of(wrapper) {
        Some(data) => match data.get("dynamic_configs"@) {
            Some(JsonView::Object(configs)) => {
                &&& !has_evaluations(data, "feature_gates"@)
                &&& !has_evaluations(data, "layer_configs"@)
                &&& configs.dom() =~= set![CODEX_DESKTOP_STATSIG_MODELS_CONFIG_ID@]
            },
            _ => false,
        },
        None => false,
    }
}

/// Whether evaluations hold anything under a key.
fn holds_evaluations(data: &Json, key: &str) -> (r: bool)
    ensures
        r == has_evaluations(data@, key@),
{
    match data.get(key) {
        None => false,
        Some(value) => {
            if !value.is_object() {
                return true;
            }
            let keys = value.keys();
            proof {
                let entries = value@->Object_0;
                if keys@.len() > 0 {
                    assert(text::texts(keys@)[0] == keys@[0]@);
                    assert(text::texts(keys@).contains(keys@[0]@));
                    assert(value@.get(keys@[0]@) is Some);
                    assert(entries.dom().contains(keys@[0]@));
                } else {
                    assert forall|name: Seq<char>| !(#[trigger] entries.dom().contains(name)) by {
                        assert(!text::texts(keys@).contains(name));
                        assert(!(value@.get(name) is Some));
                    }
                }
            }
            !keys.is_empty()
        },
    }
}

/// Whether the config of the models is the only evaluation, so that nothing else is kept back when
/// the value is.
pub fn codex_desktop_statsig_has_only_models_config(wrapper: &Json) -> (r: bool)
    ensures
        r == is_isolated(wrapper@),
{
    let data = match read_data(wrapper) {
        Some(data) => data,
        None => {
            return false;
        },
    };
    let configs = match data.get("dynamic_configs") {
        Some(configs) => configs,
        None => {
            return false;
        },
    };
    if !configs.is_object() {
        return false;
    }
    if holds_evaluations(&data, "feature_gates") || holds_evaluations(&data, "layer_configs") {
        return false;
    }
    let keys = configs.keys();
    let ghost names = text::texts(keys@);
    let ghost dom = (configs@->Object_0).dom();
    let id = CODEX_DESKTOP_STATSIG_MODELS_CONFIG_ID;
    if keys.is_empty() {
        proof {
            assert(!names.contains(id@));
            assert(!(configs@.get(id@) is Some));
            assert(!dom.contains(id@));
        }
        return false;
    }
    let mut i: usize = 0;
    while i < keys.len()
        invariant
            i <= keys@.len(),
            names == text::texts(keys@),
            id@ == CODEX_DESKTOP_STATSIG_MODELS_CONFIG_ID@,
            configs@ is Object,
            dom == (configs@->Object_0).dom(),
            data_of(wrapper@) == Some(data@),
            data@.get("dynamic_configs"@) == Some(configs@),
            forall|key: Seq<char>|
                (#[trigger] configs@.get(key)) is Some <==> names.contains(key),
            forall|j: int| 0 <= j < i ==> #[trigger] names[j] == id@,
        decreases keys@.len() - i,
    {
        assert(names[i as int] == keys@[i as int]@);
        if !str_eq(keys[i].as_str(), id) {
            proof {
                let other = keys@[i as int]@;
                assert(names.contains(other));
                assert(configs@.get(other) is Some);
                assert(dom.contains(other));
                assert(!set![id@].contains(other));
            }
            return false;
        }
        i += 1;
    }
    proof {
        assert(names[0] == id@);
        assert forall|key: Seq<char>| dom.contains(key) <==> set![id@].contains(key) by {
            if dom.contains(key) {
                assert(configs@.get(key) is Some);
                let j = choose|j: int| 0 <= j < names.len() && names[j] == key;
                assert(names[j] == id@);
            } else if key == id@ {
                assert(names.contains(id@));
                assert(configs@.get(id@) is Some);
            }
        }
        assert(dom =~= set![id@]);
    }
    true
}

/// Whether all of some models are in the list.
pub open spec fn has_all(wrapper: JsonView, ids: Seq<Seq<char>>) -> bool {
    available_ids(wrapper) matches Some(available) && forall|i: int|
        0 <= i < ids.len() ==> available.contains(#[trigger] ids[i])
}

/// Whether all of some models are in the list.
pub fn codex_desktop_statsig_has_all_models(wrapper: &Json, ids: &Vec<String>) -> (r: bool)
    ensures
        r == has_all(wrapper@, text::texts(ids@)),
{
    let available = match codex_desktop_statsig_available_model_ids(wrapper) {
        Some(available) => available,
        None => {
            return false;
        },
    };
    let ghost wanted = text::texts(ids@);
    let mut i: usize = 0;
    while i < ids.len()
        invariant
            i <= ids@.len(),
            wanted == text::texts(ids@),
            available_ids(wrapper@) == Some(text::texts(available@)),
            forall|j: int| 0 <= j < i ==> text::texts(available@).contains(#[trigger] wanted[j]),
        decreases ids@.len() - i,
    {
        assert(wanted[i as int] == ids@[i as int]@);
        if !list_contains(&available, ids[i].as_str()) {
            return false;
        }
        i += 1;
    }
    true
}

/// The models that were added before.
pub open spec fn owned_ids(wrapper: JsonView) -> Seq<Seq<char>> {
    match wrapper.get_items(CODEX_DESKTOP_STATSIG_OWNED_MODELS_KEY@) {
        Some(items) => model_specs::text_items(items),
        None => Seq::empty(),
    }
}

/// Whether a model of the list is one that was added before.
pub open spec fn is_owned(item: JsonView, owned: Seq<Seq<char>>) -> bool {
    item.text() matches Some(id) && owned.contains(id)
}

/// The models of the list that were not added.
pub open spec fn kept_items(items: Seq<JsonView>, owned: Seq<Seq<char>>) -> Seq<JsonView>
    decreases items.len(),
{
    if items.len() == 0 {
        Seq::empty()
    } else {
        let front = kept_items(items.drop_last(), owned);
        if is_owned(items.last(), owned) {
            front
        } else {
            front.push(items.last())
        }
    }
}

/// The models that are to be added: those that are not there yet, each once.
pub open spec fn added_ids(present: Seq<Seq<char>>, ids: Seq<Seq<char>>) -> Seq<Seq<char>>
    decreases ids.len(),
{
    if ids.len() == 0 {
        Seq::empty()
    } else {
        let front = added_ids(present, ids.drop_last());
        if present.contains(ids.last()) || front.contains(ids.last()) {
            front
        } else {
            front.push(ids.last())
        }
    }
}

/// Ids as items of the list.
pub open spec fn as_items(ids: Seq<Seq<char>>) -> Seq<JsonView> {
    ids.map_values(|id: Seq<char>| JsonView::Str(id))
}

/// The models to add to what is kept of a list.
pub open spec fn to_add(kept: Seq<JsonView>, ids: Seq<Seq<char>>) -> Seq<Seq<char>> {
    added_ids(model_specs::text_items(kept), ids)
}

/// Evaluations with another list of models.
pub open spec fn with_models(data: JsonView, items: Seq<JsonView>) -> JsonView {
    let configs = data.get("dynamic_configs"@)->Some_0;
    let config = models_config(data)->Some_0;
    let value = config.get("value"@)->Some_0;
    data.put(
        "dynamic_configs"@,
        configs.put(
            CODEX_DESKTOP_STATSIG_MODELS_CONFIG_ID@,
            config.put("value"@, value.put("available_models"@, JsonView::Array(items))),
        ),
    )
}

/// What becomes of a list: what is kept, and what is added.
pub struct MergeView {
    pub kept: Seq<JsonView>,
    pub added: Seq<Seq<char>>,
    pub items: Seq<JsonView>,
    pub data: JsonView,
    pub data_changed: bool,
}

/// What becomes of the list of a value; `None` where it holds none.
pub open spec fn merge_of(wrapper: JsonView, ids: Seq<Seq<char>>) -> Option<MergeView> {
    match data_of(wrapper) {
        Some(data) => match models_in(data) {
            Some(items) => {
                let kept = kept_items(items, owned_ids(wrapper));
                let added = to_add(kept, ids);
                let all = kept + as_items(added);
                Some(
                    MergeView {
                        kept,
                        added,
                        items: all,
                        data: with_models(data, all),
                        data_changed: all != items,
                    },
                )
            },
            None => None,
        },
        None => None,
    }
}

/// The mark of the models that were added.
pub open spec fn owned_mark(added: Seq<Seq<char>>) -> Option<JsonView> {
    if added.len() == 0 {
        None
    } else {
        Some(catalog_entry::text_array(added))
    }
}

/// A value with another list and mark.
pub open spec fn with_merge(wrapper: JsonView, merge: MergeView) -> JsonView {
    let updated = if merge.data_changed {
        wrapper.put("data"@, JsonView::Str(json::printed(merge.data)))
    } else {
        wrapper
    };
    match owned_mark(merge.added) {
        Some(mark) => updated.put(CODEX_DESKTOP_STATSIG_OWNED_MODELS_KEY@, mark),
        None => updated.without(CODEX_DESKTOP_STATSIG_OWNED_MODELS_KEY@),
    }
}

/// A value after some models were added to its list, in the place of those that were added before.
pub open spec fn merged(wrapper: JsonView, ids: Seq<Seq<char>>) -> JsonView {
    match merge_of(wrapper, ids) {
        Some(merge) => with_merge(wrapper, merge),
        None => wrapper,
    }
}

/// Whether that changes the value.
pub open spec fn merge_changes(wrapper: JsonView, ids: Seq<Seq<char>>) -> bool {
    match merge_of(wrapper, ids) {
        Some(merge) => merge.data_changed || wrapper.get(CODEX_DESKTOP_STATSIG_OWNED_MODELS_KEY@)
            != owned_mark(merge.added),
        None => false,
    }
}

/// The models that were added before.
fn read_owned(wrapper: &Json) -> (r: Vec<String>)
    ensures
        text::texts(r@) == owned_ids(wrapper@),
{
    match wrapper.get_array(CODEX_DESKTOP_STATSIG_OWNED_MODELS_KEY) {
        Some(items) => strings_of(items),
        None => {
            let none: Vec<String> = Vec::new();
            assert(text::texts(none@) =~= Seq::<Seq<char>>::empty());
            none
        },
    }
}

/// The models of the list that were not added.
fn keep_items(items: &Vec<Json>, owned: &Vec<String>) -> (r: Vec<Json>)
    ensures
        json::items_view(r@) == kept_items(json::items_view(items@), text::texts(owned@)),
{
    let ghost views = json::items_view(items@);
    let mut out: Vec<Json> = Vec::new();
    let mut i: usize = 0;
    assert(json::items_view(out@) =~= Seq::<JsonView>::empty());
    while i < items.len()
        invariant
            i <= items@.len(),
            views == json::items_view(items@),
            json::items_view(out@) == kept_items(views.take(i as int), text::texts(owned@)),
        decreases items@.len() - i,
    {
        broadcast use json::lemma_items_push;

        proof {
            json::lemma_items_view(items@);
            assert(views.take(i + 1).drop_last() =~= views.take(i as int));
            assert(views.take(i + 1).last() == items@[i as int].view());
        }
        let added_before = match items[i].as_str() {
            Some(id) => list_contains(owned, id),
            None => false,
        };
        if !added_before {
            out.push(items[i].clone());
        }
        i += 1;
    }
    proof {
        json::lemma_items_view(items@);
        assert(views.take(i as int) =~= views);
    }
    out
}

/// The models that are to be added.
fn ids_to_add(present: &Vec<String>, ids: &Vec<String>) -> (r: Vec<String>)
    ensures
        text::texts(r@) == added_ids(text::texts(present@), text::texts(ids@)),
{
    let ghost wanted = text::texts(ids@);
    let mut out: Vec<String> = Vec::new();
    let mut i: usize = 0;
    assert(text::texts(out@) =~= Seq::<Seq<char>>::empty());
    while i < ids.len()
        invariant
            i <= ids@.len(),
            wanted == text::texts(ids@),
            text::texts(out@) == added_ids(text::texts(present@), wanted.take(i as int)),
        decreases ids@.len() - i,
    {
        proof {
            assert(wanted.take(i + 1).drop_last() =~= wanted.take(i as int));
            assert(wanted.take(i + 1).last() == ids@[i as int]@);
        }
        if !list_contains(present, ids[i].as_str()) && !list_contains(&out, ids[i].as_str()) {
            let ghost so_far = text::texts(out@);
            out.push(ids[i].clone());
            assert(text::texts(out@) =~= so_far.push(ids@[i as int]@));
        }
        i += 1;
    }
    assert(wanted.take(i as int) =~= wanted);
    out
}

/// Adds ids to a list.
fn push_as_items(items: &mut Vec<Json>, ids: &Vec<String>)
    ensures
        json::items_view(final(items)@) == json::items_view(old(items)@) + as_items(
            text::texts(ids@),
        ),
{
    let ghost before = json::items_view(items@);
    let ghost views = as_items(text::texts(ids@));
    let mut i: usize = 0;
    assert(before + views.take(0) =~= before);
    while i < ids.len()
        invariant
            i <= ids@.len(),
            views == as_items(text::texts(ids@)),
            json::items_view(items@) == before + views.take(i as int),
        decreases ids@.len() - i,
    {
        broadcast use json::lemma_items_push;

        let item = Json::Str(ids[i].clone());
        assert(views[i as int] == item@);
        items.push(item);
        i += 1;
        assert(json::items_view(items@) =~= before + views.take(i as int));
    }
    assert(views.take(i as int) =~= views);
}

/// Evaluations with another list of models.
fn replace_models(data: &Json, items: Vec<Json>) -> (r: Json)
    requires
        models_in(data@) is Some,
    ensures
        r@ == with_models(data@, json::items_view(items@)),
{
    let mut out = data.clone();
    if let Some(configs) = data.get("dynamic_configs") {
        let mut configs_out = configs.clone();
        if let Some(config) = configs.get(CODEX_DESKTOP_STATSIG_MODELS_CONFIG_ID) {
            let mut config_out = config.clone();
            if let Some(value) = config.get("value") {
                let mut value_out = value.clone();
                value_out.insert("available_models", Json::Array(items));
                config_out.insert("value", value_out);
            }
            configs_out.insert(CODEX_DESKTOP_STATSIG_MODELS_CONFIG_ID, config_out);
        }
        out.insert("dynamic_configs", configs_out);
    }
    out
}

/// Whether the evaluations of a value, where they are plain, are read again from it as they were
/// written.
pub open spec fn reads_merged(wrapper: JsonView, ids: Seq<Seq<char>>) -> bool {
    merge_of(wrapper, ids) matches Some(merge) ==> json::plain(data_of(wrapper)->Some_0, 127)
        ==> data_of(merged(wrapper, ids)) == Some(merge.data)
}

/// Puts some models into the list of a value, in the place of those that were put there before, and
/// says whether that changed anything. Models that were there already are left alone, and are not
/// marked as added.
pub fn merge_codex_desktop_statsig_available_models(wrapper: &mut Json, ids: &Vec<String>) -> (r:
    bool)
    ensures
        final(wrapper)@ == merged(old(wrapper)@, text::texts(ids@)),
        r == merge_changes(old(wrapper)@, text::texts(ids@)),
        merge_of(old(wrapper)@, text::texts(ids@)) matches Some(merge) ==> json::plain(
            merge.data,
            127,
        ) ==> available_ids(final(wrapper)@) == Some(model_specs::text_items(merge.items))
            && has_all(final(wrapper)@, text::texts(ids@)),
        reads_merged(old(wrapper)@, text::texts(ids@)),
{
    let ghost before = wrapper@;
    let ghost wanted = text::texts(ids@);
    let owned = read_owned(wrapper);
    let data = match read_data(wrapper) {
        Some(data) => data,
        None => {
            return false;
        },
    };
    let old_items = match get_models(&data) {
        Some(items) => items,
        None => {
            return false;
        },
    };
    let mut items = keep_items(old_items, &owned);
    let ghost kept = json::items_view(items@);
    let present = strings_of(&items);
    let added = ids_to_add(&present, ids);
    push_as_items(&mut items, &added);
    let ghost all = json::items_view(items@);
    let ghost merge = merge_of(before, wanted)->Some_0;
    assert(merge_of(before, wanted) is Some);
    assert(merge.added == text::texts(added@) && merge.items == all);
    let data_changed = !same_items(&items, old_items);
    proof {
        if !data_changed {
            lemma_same_after_merge(
                json::items_view(old_items@),
                text::texts(owned@),
                text::texts(added@),
            );
        }
    }
    assert(data_changed == merge.data_changed);
    if data_changed {
        let updated = replace_models(&data, items);
        let printed = print_json(&updated);
        wrapper.insert("data", Json::Str(printed));
    }
    let ghost middle = wrapper@;
    let mark_changed = if added.is_empty() {
        let marked = wrapper.get(CODEX_DESKTOP_STATSIG_OWNED_MODELS_KEY).is_some();
        wrapper.remove(CODEX_DESKTOP_STATSIG_OWNED_MODELS_KEY);
        marked
    } else {
        let mark = string_array(&added);
        let same = match wrapper.get(CODEX_DESKTOP_STATSIG_OWNED_MODELS_KEY) {
            Some(old_mark) => {
                proof {
                    if json::same(old_mark@, mark@) {
                        lemma_same_mark(old_mark@, text::texts(added@));
                    }
                }
                old_mark.equals(&mark)
            },
            None => false,
        };
        wrapper.insert(CODEX_DESKTOP_STATSIG_OWNED_MODELS_KEY, mark);
        !same
    };
    proof {
        lemma_wrapper_keys();
        assert(text::texts(added@).len() == added@.len());
        assert(middle.get(CODEX_DESKTOP_STATSIG_OWNED_MODELS_KEY@) == before.get(
            CODEX_DESKTOP_STATSIG_OWNED_MODELS_KEY@,
        ));
        assert(wrapper@ == merged(before, wanted));
        lemma_with_models(data@, all);
        if json::plain(data@, 127) {
            lemma_plain_items(data@, kept, text::texts(added@), owned_ids(before));
        }
        lemma_same_models(data@);
        if json::plain(merge.data, 127) {
            assert(wrapper@.get("data"@) == middle.get("data"@));
            if data_changed {
                assert(json::json_text(json::printed(merge.data)) == Some(merge.data));
                assert(data_of(wrapper@) == Some(merge.data));
            } else {
                assert(data_of(wrapper@) == Some(data@));
            }
            lemma_merge_has_all(kept, wanted);
        }
    }
    data_changed || mark_changed
}

/// Whether two lists are equal, item by item.
pub open spec fn same_lists(a: Seq<JsonView>, b: Seq<JsonView>) -> bool {
    a.len() == b.len() && forall|i: int| 0 <= i < a.len() ==> json::same(#[trigger] a[i], b[i])
}

/// Whether two lists are equal, item by item.
fn same_items(a: &Vec<Json>, b: &Vec<Json>) -> (r: bool)
    ensures
        r == same_lists(json::items_view(a@), json::items_view(b@)),
{
    proof {
        json::lemma_items_view(a@);
        json::lemma_items_view(b@);
    }
    if a.len() != b.len() {
        return false;
    }
    let mut i: usize = 0;
    while i < a.len()
        invariant
            i <= a@.len(),
            a@.len() == b@.len(),
            json::items_view(a@).len() == a@.len(),
            json::items_view(b@).len() == b@.len(),
            forall|j: int|
                0 <= j < i ==> json::same(
                    #[trigger] json::items_view(a@)[j],
                    json::items_view(b@)[j],
                ),
        decreases a@.len() - i,
    {
        proof {
            json::lemma_items_view(a@);
            json::lemma_items_view(b@);
            assert(json::items_view(a@)[i as int] == a@[i as int].view());
            assert(json::items_view(b@)[i as int] == b@[i as int].view());
        }
        if !a[i].equals(&b[i]) {
            return false;
        }
        i += 1;
    }
    true
}

/// What equals a text is that text.
proof fn lemma_same_text(value: JsonView, id: Seq<char>)
    requires
        json::same(value, JsonView::Str(id)) || json::same(JsonView::Str(id), value),
    ensures
        value == JsonView::Str(id),
{
}

/// What equals a list of texts is that list.
proof fn lemma_same_mark(value: JsonView, ids: Seq<Seq<char>>)
    requires
        json::same(value, catalog_entry::text_array(ids)),
    ensures
        value == catalog_entry::text_array(ids),
{
    let mark = catalog_entry::text_array(ids)->Array_0;
    let level = json::leveled(catalog_entry::text_array(ids))->Array_0;
    assert(level.len() == ids.len());
    let items = value->Array_0;
    assert(json::leveled(value)->Array_0.len() == items.len());
    assert forall|i: int| 0 <= i < ids.len() implies #[trigger] items[i] == mark[i] by {
        assert(json::leveled(value)->Array_0[i] == json::leveled(items[i]));
        assert(level[i] == json::leveled(mark[i]));
        lemma_same_text(items[i], ids[i]);
    }
    assert(items =~= mark);
}

/// What is kept of a list begins with what stands before the first model that was added, and holds
/// none that was.
proof fn lemma_kept_front(items: Seq<JsonView>, owned: Seq<Seq<char>>, n: int)
    requires
        0 <= n <= items.len(),
        forall|i: int| 0 <= i < n ==> !is_owned(#[trigger] items[i], owned),
    ensures
        kept_items(items, owned).len() >= n,
        kept_items(items, owned).take(n) == items.take(n),
        kept_items(items, owned).len() <= items.len(),
        n == items.len() ==> kept_items(items, owned) == items,
        forall|i: int|
            0 <= i < kept_items(items, owned).len() ==> !is_owned(
                #[trigger] kept_items(items, owned)[i],
                owned,
            ),
    decreases items.len(),
{
    if items.len() > 0 {
        let front = items.drop_last();
        let kept = kept_items(items, owned);
        let before = kept_items(front, owned);
        let m = if n < items.len() {
            n
        } else {
            n - 1
        };
        assert forall|i: int| 0 <= i < m implies !is_owned(#[trigger] front[i], owned) by {
            assert(front[i] == items[i]);
        }
        lemma_kept_front(front, owned, m);
        if n == items.len() {
            assert(!is_owned(items[n - 1], owned));
            assert(kept =~= items);
        } else {
            assert(before.take(n) == front.take(n));
            assert forall|i: int| 0 <= i < n implies #[trigger] kept.take(n)[i] == items.take(n)[i] by {
                assert(kept[i] == before[i]);
                assert(before.take(n)[i] == front.take(n)[i]);
            }
            assert(kept.take(n) =~= items.take(n));
        }
        assert forall|i: int| 0 <= i < kept.len() implies !is_owned(#[trigger] kept[i], owned) by {
            if i < before.len() {
                assert(kept[i] == before[i]);
            }
        }
    } else {
        assert(kept_items(items, owned) =~= items);
        assert(kept_items(items, owned).take(n) =~= items.take(n));
    }
}

/// A list that equals the one that becomes of it is that list: what goes and comes is texts, which
/// equal no numbers.
proof fn lemma_same_after_merge(
    items: Seq<JsonView>,
    owned: Seq<Seq<char>>,
    added: Seq<Seq<char>>,
)
    requires
        same_lists(kept_items(items, owned) + as_items(added), items),
    ensures
        kept_items(items, owned) + as_items(added) == items,
{
    let kept = kept_items(items, owned);
    let all = kept + as_items(added);
    if forall|i: int| 0 <= i < items.len() ==> !is_owned(#[trigger] items[i], owned) {
        lemma_kept_front(items, owned, items.len() as int);
        assert(all =~= items);
    } else {
        let p = lemma_first_owned(items, owned);
        lemma_kept_front(items, owned, p);
        let id = items[p].text()->Some_0;
        assert(json::same(all[p], items[p]));
        lemma_same_text(all[p], id);
        if kept.len() > p {
            assert(all[p] == kept[p]);
            assert(is_owned(kept[p], owned));
        }
        assert(kept.len() == p);
        assert forall|i: int| 0 <= i < items.len() implies #[trigger] all[i] == items[i] by {
            assert(json::same(all[i], items[i]));
            if i < p {
                assert(kept.take(p)[i] == items.take(p)[i]);
            } else {
                assert(all[i] == JsonView::Str(added[i - p]));
                lemma_same_text(items[i], added[i - p]);
            }
        }
        assert(all =~= items);
    }
}

/// The first model of a list that was added.
proof fn lemma_first_owned(items: Seq<JsonView>, owned: Seq<Seq<char>>) -> (p: int)
    requires
        exists|i: int| 0 <= i < items.len() && is_owned(#[trigger] items[i], owned),
    ensures
        0 <= p < items.len(),
        is_owned(items[p], owned),
        forall|i: int| 0 <= i < p ==> !is_owned(#[trigger] items[i], owned),
    decreases items.len(),
{
    let front = items.drop_last();
    if exists|i: int| 0 <= i < front.len() && is_owned(#[trigger] front[i], owned) {
        let p = lemma_first_owned(front, owned);
        assert(items[p] == front[p]);
        assert forall|i: int| 0 <= i < p implies !is_owned(#[trigger] items[i], owned) by {
            assert(front[i] == items[i]);
        }
        p
    } else {
        let p = items.len() - 1;
        assert forall|i: int| 0 <= i < p implies !is_owned(#[trigger] items[i], owned) by {
            assert(front[i] == items[i]);
        }
        p
    }
}

proof fn lemma_wrapper_keys()
    ensures
        "data"@ != CODEX_DESKTOP_STATSIG_OWNED_MODELS_KEY@,
{
    reveal_strlit("data");
    reveal_strlit("cc_switch_injected_available_models");
    assert("data"@.len() == 4);
    assert(CODEX_DESKTOP_STATSIG_OWNED_MODELS_KEY@.len() == 35);
}

/// The list that was put into evaluations is found in them.
proof fn lemma_with_models(data: JsonView, items: Seq<JsonView>)
    requires
        models_in(data) is Some,
    ensures
        models_in(with_models(data, items)) == Some(items),
{
    let configs = data.get("dynamic_configs"@)->Some_0;
    let config = models_config(data)->Some_0;
    let value = config.get("value"@)->Some_0;
    let new_value = value.put("available_models"@, JsonView::Array(items));
    assert(new_value.get("available_models"@) == Some(JsonView::Array(items)));
    let new_config = config.put("value"@, new_value);
    assert(new_config.get("value"@) == Some(new_value));
    let new_configs = configs.put(CODEX_DESKTOP_STATSIG_MODELS_CONFIG_ID@, new_config);
    assert(new_configs.get(CODEX_DESKTOP_STATSIG_MODELS_CONFIG_ID@) == Some(new_config));
    assert(with_models(data, items).get("dynamic_configs"@) == Some(new_configs));
}

proof fn lemma_text_items_push(items: Seq<JsonView>, item: JsonView)
    ensures
        model_specs::text_items(items.push(item)) == match item.text() {
            Some(id) => model_specs::text_items(items).push(id),
            None => model_specs::text_items(items),
        },
{
    assert(items.push(item).drop_last() =~= items);
}

/// The texts of a list with ids behind it.
proof fn lemma_text_items_added(kept: Seq<JsonView>, added: Seq<Seq<char>>)
    ensures
        model_specs::text_items(kept + as_items(added)) == model_specs::text_items(kept) + added,
    decreases added.len(),
{
    if added.len() == 0 {
        assert(kept + as_items(added) =~= kept);
        assert(model_specs::text_items(kept) + added =~= model_specs::text_items(kept));
    } else {
        let front = added.drop_last();
        lemma_text_items_added(kept, front);
        let list = kept + as_items(front);
        assert(kept + as_items(added) =~= list.push(JsonView::Str(added.last())));
        lemma_text_items_push(list, JsonView::Str(added.last()));
        assert(model_specs::text_items(kept) + added =~= (model_specs::text_items(kept)
            + front).push(added.last()));
    }
}

/// Each id is there already, or is added; and what is added is one of the ids that was not there.
proof fn lemma_added(present: Seq<Seq<char>>, ids: Seq<Seq<char>>)
    ensures
        forall|i: int|
            0 <= i < ids.len() ==> present.contains(#[trigger] ids[i]) || added_ids(
                present,
                ids,
            ).contains(ids[i]),
        forall|k: int|
            0 <= k < added_ids(present, ids).len() ==> !present.contains(
                #[trigger] added_ids(present, ids)[k],
            ),
        forall|k: int|
            0 <= k < added_ids(present, ids).len() ==> ids.contains(
                #[trigger] added_ids(present, ids)[k],
            ),
    decreases ids.len(),
{
    if ids.len() > 0 {
        let front = ids.drop_last();
        lemma_added(present, front);
        let before = added_ids(present, front);
        let all = added_ids(present, ids);
        assert forall|i: int| 0 <= i < ids.len() implies present.contains(#[trigger] ids[i])
            || all.contains(ids[i]) by {
            if i < front.len() {
                assert(front[i] == ids[i]);
                if before.contains(ids[i]) {
                    let k = choose|k: int| 0 <= k < before.len() && before[k] == ids[i];
                    assert(all[k] == ids[i]);
                }
            } else if !present.contains(ids.last()) {
                if before.contains(ids.last()) {
                    assert(all == before);
                } else {
                    assert(all[all.len() - 1] == ids.last());
                }
            }
        }
        assert forall|k: int| 0 <= k < all.len() implies !present.contains(#[trigger] all[k]) by {
            if k < before.len() {
                assert(all[k] == before[k]);
            }
        }
        assert forall|k: int| 0 <= k < all.len() implies ids.contains(#[trigger] all[k]) by {
            if k < before.len() {
                assert(all[k] == before[k]);
                let m = choose|m: int| 0 <= m < front.len() && front[m] == before[k];
                assert(ids[m] == all[k]);
            } else {
                assert(ids[ids.len() - 1] == all[k]);
            }
        }
    }
}

/// All ids are in what is kept and what is added.
proof fn lemma_merge_has_all(kept: Seq<JsonView>, ids: Seq<Seq<char>>)
    ensures
        forall|i: int|
            0 <= i < ids.len() ==> model_specs::text_items(
                kept + as_items(to_add(kept, ids)),
            ).contains(#[trigger] ids[i]),
{
    let present = model_specs::text_items(kept);
    let added = to_add(kept, ids);
    lemma_added(present, ids);
    lemma_text_items_added(kept, added);
    assert forall|i: int| 0 <= i < ids.len() implies (present + added).contains(
        #[trigger] ids[i],
    ) by {
        if present.contains(ids[i]) {
            let k = choose|k: int| 0 <= k < present.len() && present[k] == ids[i];
            assert((present + added)[k] == ids[i]);
        } else {
            let k = choose|k: int| 0 <= k < added.len() && added[k] == ids[i];
            assert((present + added)[present.len() + k] == ids[i]);
        }
    }
}

/// Nothing of a list goes where none of its texts was added.
proof fn lemma_kept_all(items: Seq<JsonView>, owned: Seq<Seq<char>>)
    requires
        forall|k: int|
            0 <= k < owned.len() ==> !model_specs::text_items(items).contains(#[trigger] owned[k]),
    ensures
        kept_items(items, owned) == items,
    decreases items.len(),
{
    if items.len() > 0 {
        let front = items.drop_last();
        let last = items.last();
        assert(items =~= front.push(last));
        lemma_text_items_push(front, last);
        let all = model_specs::text_items(items);
        let some = model_specs::text_items(front);
        assert forall|k: int| 0 <= k < owned.len() implies !some.contains(#[trigger] owned[k]) by {
            if some.contains(owned[k]) {
                let m = choose|m: int| 0 <= m < some.len() && some[m] == owned[k];
                assert(all[m] == owned[k]);
            }
        }
        lemma_kept_all(front, owned);
        if is_owned(last, owned) {
            let id = last.text()->Some_0;
            let k = choose|k: int| 0 <= k < owned.len() && owned[k] == id;
            assert(all[all.len() - 1] == id);
            assert(all.contains(owned[k]));
        }
    } else {
        assert(kept_items(items, owned) =~= items);
    }
}

/// What was added goes again, and nothing else.
proof fn lemma_kept_of_merged(kept: Seq<JsonView>, added: Seq<Seq<char>>, owned: Seq<Seq<char>>)
    requires
        forall|k: int| 0 <= k < added.len() ==> owned.contains(#[trigger] added[k]),
        kept_items(kept, owned) == kept,
    ensures
        kept_items(kept + as_items(added), owned) == kept,
    decreases added.len(),
{
    if added.len() == 0 {
        assert(kept + as_items(added) =~= kept);
    } else {
        let front = added.drop_last();
        assert forall|k: int| 0 <= k < front.len() implies owned.contains(#[trigger] front[k]) by {
            assert(front[k] == added[k]);
        }
        lemma_kept_of_merged(kept, front, owned);
        let list = kept + as_items(added);
        assert(owned.contains(added[added.len() - 1]));
        assert(list.drop_last() =~= kept + as_items(front));
        assert(list.last() == JsonView::Str(added.last()));
    }
}

/// The mark after a merge names what was added, and without that the list is what was kept.
proof fn lemma_marked(wrapper: JsonView, ids: Seq<Seq<char>>)
    requires
        merge_of(wrapper, ids) is Some,
    ensures
        ({
            let merge = merge_of(wrapper, ids)->Some_0;
            let after = merged(wrapper, ids);
            &&& owned_ids(after) == merge.added
            &&& kept_items(merge.items, merge.added) == merge.kept
            &&& after.get(CODEX_DESKTOP_STATSIG_OWNED_MODELS_KEY@) == owned_mark(merge.added)
        }),
{
    lemma_wrapper_keys();
    let merge = merge_of(wrapper, ids)->Some_0;
    let after = merged(wrapper, ids);
    if merge.added.len() == 0 {
        assert(owned_ids(after) =~= merge.added);
    } else {
        lemma_text_items_added(Seq::empty(), merge.added);
        assert(Seq::<JsonView>::empty() + as_items(merge.added) =~= as_items(merge.added));
        assert(model_specs::text_items(Seq::<JsonView>::empty()) + merge.added =~= merge.added);
        assert(as_items(merge.added) =~= merge.added.map_values(
            |t: Seq<char>| JsonView::Str(t),
        ));
    }
    lemma_added(model_specs::text_items(merge.kept), ids);
    lemma_kept_all(merge.kept, merge.added);
    assert forall|k: int| 0 <= k < merge.added.len() implies merge.added.contains(
        #[trigger] merge.added[k],
    ) by {}
    lemma_kept_of_merged(merge.kept, merge.added, merge.added);
}

/// The list after a merge, where it reads back as it was written.
proof fn lemma_after_merge(wrapper: JsonView, ids: Seq<Seq<char>>)
    requires
        merge_of(wrapper, ids) is Some,
        json::json_text(json::printed(merge_of(wrapper, ids)->Some_0.data)) == Some(
            merge_of(wrapper, ids)->Some_0.data,
        ),
    ensures
        ({
            let merge = merge_of(wrapper, ids)->Some_0;
            let after = merged(wrapper, ids);
            &&& data_of(after) matches Some(data) && models_in(data) == Some(merge.items)
            &&& owned_ids(after) == merge.added
            &&& kept_items(merge.items, merge.added) == merge.kept
            &&& after.get(CODEX_DESKTOP_STATSIG_OWNED_MODELS_KEY@) == owned_mark(merge.added)
        }),
{
    lemma_wrapper_keys();
    let merge = merge_of(wrapper, ids)->Some_0;
    let after = merged(wrapper, ids);
    let data = data_of(wrapper)->Some_0;
    lemma_with_models(data, merge.items);
    if merge.data_changed {
        assert(after.get("data"@) == Some(JsonView::Str(json::printed(merge.data))));
    } else {
        assert(after.get("data"@) == wrapper.get("data"@));
    }
    lemma_marked(wrapper, ids);
}

/// Putting the same models into a list a second time changes nothing, where the list that was
/// written reads back as it was.
pub proof fn law_merging_twice_is_merging_once(wrapper: JsonView, ids: Seq<Seq<char>>)
    ensures
        merge_of(wrapper, ids) matches Some(merge) ==> json::json_text(json::printed(merge.data))
            == Some(merge.data) ==> !merge_changes(merged(wrapper, ids), ids),
{
    if let Some(merge) = merge_of(wrapper, ids) {
        if json::json_text(json::printed(merge.data)) == Some(merge.data) {
            lemma_after_merge(wrapper, ids);
        }
    }
}

/// Taking all added models out leaves the list as it was without those that this application had
/// added, where the list that was written reads back as it was.
pub proof fn law_added_models_can_be_taken_out(wrapper: JsonView, ids: Seq<Seq<char>>)
    ensures
        merge_of(wrapper, ids) matches Some(merge) ==> json::json_text(json::printed(merge.data))
            == Some(merge.data) ==> {
            let after = merge_of(merged(wrapper, ids), Seq::empty());
            &&& after matches Some(after) && after.items == merge.kept && after.added.len() == 0
        },
{
    if let Some(merge) = merge_of(wrapper, ids) {
        if json::json_text(json::printed(merge.data)) == Some(merge.data) {
            lemma_after_merge(wrapper, ids);
            assert(merge.kept + as_items(Seq::empty()) =~= merge.kept);
        }
    }
}

/// Evaluations with the list of models that they have are the same evaluations.
proof fn lemma_same_models(data: JsonView)
    requires
        models_in(data) is Some,
    ensures
        with_models(data, models_in(data)->Some_0) == data,
{
    let items = models_in(data)->Some_0;
    let configs = data.get("dynamic_configs"@)->Some_0;
    let config = models_config(data)->Some_0;
    let value = config.get("value"@)->Some_0;
    let id = CODEX_DESKTOP_STATSIG_MODELS_CONFIG_ID@;
    assert((value->Object_0).insert("available_models"@, JsonView::Array(items))
        =~= value->Object_0);
    assert((config->Object_0).insert("value"@, value) =~= config->Object_0);
    assert((configs->Object_0).insert(id, config) =~= configs->Object_0);
    assert((data->Object_0).insert("dynamic_configs"@, configs) =~= data->Object_0);
}

/// Evaluations whose list of models was replaced twice have the second list, and else what they had.
proof fn lemma_replaced_models(data: JsonView, first: Seq<JsonView>, second: Seq<JsonView>)
    requires
        models_in(data) is Some,
    ensures
        with_models(with_models(data, first), second) == with_models(data, second),
{
    let configs = data.get("dynamic_configs"@)->Some_0;
    let config = models_config(data)->Some_0;
    let value = config.get("value"@)->Some_0;
    let id = CODEX_DESKTOP_STATSIG_MODELS_CONFIG_ID@;
    let key = "available_models"@;
    let value1 = value.put(key, JsonView::Array(first));
    let value2 = value.put(key, JsonView::Array(second));
    assert((value1->Object_0).insert(key, JsonView::Array(second)) =~= value2->Object_0);
    let config1 = config.put("value"@, value1);
    let config2 = config.put("value"@, value2);
    assert((config1->Object_0).insert("value"@, value2) =~= config2->Object_0);
    let configs1 = configs.put(id, config1);
    let configs2 = configs.put(id, config2);
    assert((configs1->Object_0).insert(id, config2) =~= configs2->Object_0);
    let data1 = data.put("dynamic_configs"@, configs1);
    let data2 = data.put("dynamic_configs"@, configs2);
    assert((data1->Object_0).insert("dynamic_configs"@, configs2) =~= data2->Object_0);
    assert(data1 == with_models(data, first));
    assert(data1.get("dynamic_configs"@) == Some(configs1));
    assert(configs1.get(id) == Some(config1));
    assert(config1.get("value"@) == Some(value1));
}

/// What is kept of a list of plain values is plain.
proof fn lemma_plain_kept(items: Seq<JsonView>, owned: Seq<Seq<char>>, levels: nat)
    requires
        forall|i: int| 0 <= i < items.len() ==> json::plain(#[trigger] items[i], levels),
    ensures
        forall|i: int|
            0 <= i < kept_items(items, owned).len() ==> json::plain(
                #[trigger] kept_items(items, owned)[i],
                levels,
            ),
    decreases items.len(),
{
    if items.len() > 0 {
        let front = items.drop_last();
        assert forall|i: int| 0 <= i < front.len() implies json::plain(
            #[trigger] front[i],
            levels,
        ) by {
            assert(front[i] == items[i]);
        }
        lemma_plain_kept(front, owned, levels);
        let kept = kept_items(items, owned);
        let before = kept_items(front, owned);
        assert forall|i: int| 0 <= i < kept.len() implies json::plain(#[trigger] kept[i], levels) by {
            if i < before.len() {
                assert(kept[i] == before[i]);
            } else {
                assert(json::plain(items[items.len() - 1], levels));
            }
        }
    }
}

/// A member of a plain object is plain, one level less deep.
proof fn lemma_plain_member(value: JsonView, key: Seq<char>, levels: nat)
    requires
        json::plain(value, levels),
        value.get(key) is Some,
    ensures
        levels > 0,
        json::plain(value.get(key)->Some_0, (levels - 1) as nat),
{
    assert(value->Object_0.dom().contains(key));
    assert(json::plain(value->Object_0[key], (levels - 1) as nat));
}

/// A plain object with another plain member is plain.
proof fn lemma_plain_put(value: JsonView, key: Seq<char>, new: JsonView, levels: nat)
    requires
        levels > 0,
        json::plain(value, levels),
        value is Object,
        json::plain(new, (levels - 1) as nat),
    ensures
        json::plain(value.put(key, new), levels),
{
    let map = value->Object_0;
    let after = map.insert(key, new);
    assert forall|k: Seq<char>| after.dom().contains(k) implies json::plain(
        #[trigger] after[k],
        (levels - 1) as nat,
    ) by {
        if k != key {
            assert(map.dom().contains(k));
            assert(json::plain(map[k], (levels - 1) as nat));
        }
    }
}

/// Plain evaluations are plain after their list was replaced by what is kept of it and by texts.
proof fn lemma_plain_items(
    data: JsonView,
    kept: Seq<JsonView>,
    added: Seq<Seq<char>>,
    owned: Seq<Seq<char>>,
)
    requires
        json::plain(data, 127),
        models_in(data) is Some,
        kept == kept_items(models_in(data)->Some_0, owned),
    ensures
        json::plain(with_models(data, kept + as_items(added)), 127),
{
    let items = models_in(data)->Some_0;
    let id = CODEX_DESKTOP_STATSIG_MODELS_CONFIG_ID@;
    let configs = data.get("dynamic_configs"@)->Some_0;
    let config = models_config(data)->Some_0;
    let value = config.get("value"@)->Some_0;
    lemma_plain_member(data, "dynamic_configs"@, 127);
    lemma_plain_member(configs, id, 126);
    lemma_plain_member(config, "value"@, 125);
    lemma_plain_member(value, "available_models"@, 124);
    assert(json::plain(JsonView::Array(items), 123));
    assert forall|i: int| 0 <= i < items.len() implies json::plain(#[trigger] items[i], 122) by {}
    lemma_plain_kept(items, owned, 122);
    let all = kept + as_items(added);
    assert forall|i: int| 0 <= i < all.len() implies json::plain(#[trigger] all[i], 122) by {
        if i < kept.len() {
            assert(all[i] == kept[i]);
        }
    }
    assert(json::plain(JsonView::Array(all), 123));
    let new_value = value.put("available_models"@, JsonView::Array(all));
    lemma_plain_put(value, "available_models"@, JsonView::Array(all), 124);
    let new_config = config.put("value"@, new_value);
    lemma_plain_put(config, "value"@, new_value, 125);
    let new_configs = configs.put(id, new_config);
    lemma_plain_put(configs, id, new_config, 126);
    lemma_plain_put(data, "dynamic_configs"@, new_configs, 127);
}

/// Taking the models out again undoes putting them in. A value that had no mark has its evaluations
/// back as they were, with the list of models in its order, those included that were in it before;
/// the mark is gone, and everything else of the value is as it was. The evaluations are plain, and
/// what is known of the two values is what merging promises.
pub proof fn law_taking_out_undoes_putting_in(wrapper: JsonView, ids: Seq<Seq<char>>)
    requires
        wrapper.get(CODEX_DESKTOP_STATSIG_OWNED_MODELS_KEY@) is None,
        data_of(wrapper) matches Some(data) && models_in(data) is Some && json::plain(data, 127),
        reads_merged(wrapper, ids),
        reads_merged(merged(wrapper, ids), Seq::empty()),
    ensures
        ({
            let back = merged(merged(wrapper, ids), Seq::empty());
            &&& data_of(back) == data_of(wrapper)
            &&& available_ids(back) == available_ids(wrapper)
            &&& back.get(CODEX_DESKTOP_STATSIG_OWNED_MODELS_KEY@) is None
            &&& forall|key: Seq<char>|
                key != "data"@ ==> #[trigger] back.get(key) == wrapper.get(key)
        }),
{
    lemma_wrapper_keys();
    let data = data_of(wrapper)->Some_0;
    let items = models_in(data)->Some_0;
    let merge = merge_of(wrapper, ids)->Some_0;
    let after = merged(wrapper, ids);
    assert(owned_ids(wrapper) =~= Seq::<Seq<char>>::empty());
    lemma_kept_all(items, owned_ids(wrapper));
    assert(merge.kept == items);
    lemma_with_models(data, merge.items);
    assert(data_of(after) == Some(merge.data));
    lemma_plain_items(data, merge.kept, merge.added, owned_ids(wrapper));
    lemma_marked(wrapper, ids);
    let second = merge_of(after, Seq::empty())->Some_0;
    assert(second.kept == items);
    assert(second.added =~= Seq::<Seq<char>>::empty());
    assert(second.items =~= items);
    lemma_replaced_models(data, merge.items, items);
    lemma_same_models(data);
    assert(second.data == data);
    let back = merged(after, Seq::empty());
    assert(data_of(back) == Some(data));
}

} // verus!
