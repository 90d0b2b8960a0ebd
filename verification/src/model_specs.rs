//! The models that a provider's settings list: those of its own catalog, and
//! those that the official provider routes to other providers.

use crate::json::{Json, JsonView};
use crate::text::{parse_u64, str_eq};
use crate::{json, text};
use vstd::prelude::*;
use vstd::string::*;

verus! {

/// Where the official provider's settings list the models that it routes to other providers.
pub const CODEX_CUSTOM_MODELS_KEY: &'static str = "codexCustomModels";

/// Whether the official provider's settings ask for its own login.
pub const CODEX_OFFICIAL_LOGIN_KEY: &'static str = "enableOfficialLogin";

/// The slot that a public model name takes in the request routing: names that differ in nothing
/// but a marker for the context size share one. A name without a row is its own slot.
#[derive(Debug)]
pub struct SlotTable {
    pub rows: Vec<(String, String)>,
}

/// The slot of a model, by the first row for it.
pub open spec fn slot_in(rows: Seq<(String, String)>, model: Seq<char>) -> Seq<char>
    decreases rows.len(),
{
    if rows.len() == 0 {
        model
    } else if rows[0].0@ == model {
        rows[0].1@
    } else {
        slot_in(rows.drop_first(), model)
    }
}

impl SlotTable {
    /// The slot of a model.
    pub open spec fn slot(&self, model: Seq<char>) -> Seq<char> {
        slot_in(self.rows@, model)
    }

    /// The slot of a model.
    pub fn slot_of(&self, model: &str) -> (r: String)
        ensures
            r@ == self.slot(model@),
    {
        let mut i: usize = 0;
        assert(self.rows@.skip(0) =~= self.rows@);
        while i < self.rows.len()
            invariant
                i <= self.rows@.len(),
                slot_in(self.rows@.skip(i as int), model@) == self.slot(model@),
            decreases self.rows@.len() - i,
        {
            assert(self.rows@.skip(i as int).drop_first() =~= self.rows@.skip(i + 1));
            if str_eq(self.rows[i].0.as_str(), model) {
                return self.rows[i].1.clone();
            }
            i += 1;
        }
        model.to_owned()
    }
}

/// One model of a provider's own catalog. What the settings do not say is `None`.
#[derive(Debug)]
pub struct CodexCatalogModelSpec {
    pub model: String,
    pub display_name: Option<String>,
    pub context_window: Option<u64>,
    pub supports_parallel_tool_calls: Option<bool>,
    pub input_modalities: Option<Vec<String>>,
    pub base_instructions: Option<String>,
}

/// What a [`CodexCatalogModelSpec`] stands for.
#[verifier::ext_equal]
pub struct SpecView {
    pub model: Seq<char>,
    pub display_name: Option<Seq<char>>,
    pub context_window: Option<u64>,
    pub supports_parallel_tool_calls: Option<bool>,
    pub input_modalities: Option<Seq<Seq<char>>>,
    pub base_instructions: Option<Seq<char>>,
}

/// The texts of an optional list.
pub open spec fn list_of(list: Option<Vec<String>>) -> Option<Seq<Seq<char>>> {
    match list {
        Some(list) => Some(text::texts(list@)),
        None => None,
    }
}

impl CodexCatalogModelSpec {
    pub open spec fn view(&self) -> SpecView {
        SpecView {
            model: self.model@,
            display_name: text::text_of(self.display_name),
            context_window: self.context_window,
            supports_parallel_tool_calls: self.supports_parallel_tool_calls,
            input_modalities: list_of(self.input_modalities),
            base_instructions: text::text_of(self.base_instructions),
        }
    }
}

/// What a list of models stands for.
pub open spec fn specs_view(specs: Seq<CodexCatalogModelSpec>) -> Seq<SpecView> {
    specs.map_values(|s: CodexCatalogModelSpec| s.view())
}

/// One provider that a model can be routed to, and the name that the model has there.
#[derive(Debug)]
pub struct CodexCustomModelRoute {
    pub provider_id: String,
    pub upstream_model: Option<String>,
}

/// What a [`CodexCustomModelRoute`] stands for.
pub struct RouteView {
    pub provider_id: Seq<char>,
    pub upstream_model: Option<Seq<char>>,
}

impl CodexCustomModelRoute {
    pub open spec fn view(&self) -> RouteView {
        RouteView {
            provider_id: self.provider_id@,
            upstream_model: text::text_of(self.upstream_model),
        }
    }
}

/// What a list of routes stands for.
pub open spec fn routes_view(routes: Seq<CodexCustomModelRoute>) -> Seq<RouteView> {
    routes.map_values(|r: CodexCustomModelRoute| r.view())
}

/// One model that the official provider routes to another provider.
#[derive(Debug)]
pub struct CodexCustomModelEntry {
    /// The name that the model is offered under.
    pub model: String,
    /// The provider that it is bound to: that of its first route.
    pub provider_id: String,
    /// The name that it has at that provider, where it is another.
    pub upstream_model: Option<String>,
    /// The providers that it can be routed to, in order.
    pub routes: Vec<CodexCustomModelRoute>,
    pub display_name: Option<String>,
    pub context_window: Option<u64>,
    pub supports_parallel_tool_calls: Option<bool>,
    pub input_modalities: Option<Vec<String>>,
    pub base_instructions: Option<String>,
}

/// What a [`CodexCustomModelEntry`] stands for.
#[verifier::ext_equal]
pub struct EntryView {
    pub model: Seq<char>,
    pub provider_id: Seq<char>,
    pub upstream_model: Option<Seq<char>>,
    pub routes: Seq<RouteView>,
    pub display_name: Option<Seq<char>>,
    pub context_window: Option<u64>,
    pub supports_parallel_tool_calls: Option<bool>,
    pub input_modalities: Option<Seq<Seq<char>>>,
    pub base_instructions: Option<Seq<char>>,
}

impl CodexCustomModelEntry {
    pub open spec fn view(&self) -> EntryView {
        EntryView {
            model: self.model@,
            provider_id: self.provider_id@,
            upstream_model: text::text_of(self.upstream_model),
            routes: routes_view(self.routes@),
            display_name: text::text_of(self.display_name),
            context_window: self.context_window,
            supports_parallel_tool_calls: self.supports_parallel_tool_calls,
            input_modalities: list_of(self.input_modalities),
            base_instructions: text::text_of(self.base_instructions),
        }
    }
}

/// What a list of entries stands for.
pub open spec fn entries_view(entries: Seq<CodexCustomModelEntry>) -> Seq<EntryView> {
    entries.map_values(|e: CodexCustomModelEntry| e.view())
}

/// The member `a`, or the member `b` where there is no `a`.
pub open spec fn either(value: JsonView, a: Seq<char>, b: Seq<char>) -> Option<JsonView> {
    if value.get(a) is Some {
        value.get(a)
    } else {
        value.get(b)
    }
}

/// The text of a value, trimmed, where it is not blank.
pub open spec fn trimmed(value: Option<JsonView>) -> Option<Seq<char>> {
    match value {
        Some(v) => match v.text() {
            Some(t) => if text::is_blank(t) {
                None
            } else {
                Some(text::trim(t))
            },
            None => None,
        },
        None => None,
    }
}

/// A number above zero: a whole number, or a text that holds one.
pub open spec fn positive(value: Option<JsonView>) -> Option<u64> {
    let n = match value {
        Some(v) => match v {
            JsonView::Number(_) => v.unsigned(),
            JsonView::Str(s) => text::parsed_u64(text::trim(s)),
            _ => None,
        },
        None => None,
    };
    match n {
        Some(n) => if n > 0 {
            Some(n)
        } else {
            None
        },
        None => None,
    }
}

/// The boolean of a value.
pub open spec fn flag(value: Option<JsonView>) -> Option<bool> {
    match value {
        Some(v) => v.boolean(),
        None => None,
    }
}

/// The strings among some items, in order.
pub open spec fn text_items(items: Seq<JsonView>) -> Seq<Seq<char>>
    decreases items.len(),
{
    if items.len() == 0 {
        Seq::empty()
    } else {
        match items.last().text() {
            Some(t) => text_items(items.drop_last()).push(t),
            None => text_items(items.drop_last()),
        }
    }
}

/// The strings in an array, where there are any.
pub open spec fn texts_in(value: Option<JsonView>) -> Option<Seq<Seq<char>>> {
    match value {
        Some(v) => match v.items() {
            Some(items) => if text_items(items).len() == 0 {
                None
            } else {
                Some(text_items(items))
            },
            None => None,
        },
        None => None,
    }
}

/// The member `a`, or the member `b` where there is no `a`.
pub fn get_either<'a>(value: &'a Json, a: &str, b: &str) -> (r: Option<&'a Json>)
    ensures
        json::ref_view(r) == either(value@, a@, b@),
{
    match value.get(a) {
        Some(v) => Some(v),
        None => value.get(b),
    }
}

/// The text of a value, trimmed, where it is not blank.
pub fn trimmed_text(value: Option<&Json>) -> (r: Option<String>)
    ensures
        text::text_of(r) == trimmed(json::ref_view(value)),
{
    match value {
        Some(v) => match v.as_str() {
            Some(t) => {
                let t = t.trim();
                if t.is_empty() {
                    None
                } else {
                    Some(t.to_owned())
                }
            },
            None => None,
        },
        None => None,
    }
}

/// A number above zero: a whole number, or a text that holds one.
pub fn parse_codex_positive_u64(value: Option<&Json>) -> (r: Option<u64>)
    ensures
        r == positive(json::ref_view(value)),
{
    let n: Option<u64> = match value {
        Some(v) => match v {
            Json::Number(_) => v.as_u64(),
            Json::Str(s) => parse_u64(s.as_str().trim()),
            _ => None,
        },
        None => None,
    };
    match n {
        Some(n) => if n > 0 {
            Some(n)
        } else {
            None
        },
        None => None,
    }
}

/// The boolean of a value.
fn flag_of(value: Option<&Json>) -> (r: Option<bool>)
    ensures
        r == flag(json::ref_view(value)),
{
    match value {
        Some(v) => v.as_bool(),
        None => None,
    }
}

/// The strings among some items, in order.
pub fn strings_of(items: &Vec<Json>) -> (r: Vec<String>)
    ensures
        text::texts(r@) == text_items(json::items_view(items@)),
{
    let mut out: Vec<String> = Vec::new();
    let ghost views = json::items_view(items@);
    let mut i: usize = 0;
    assert(text::texts(out@) =~= Seq::<Seq<char>>::empty());
    while i < items.len()
        invariant
            i <= items@.len(),
            views == json::items_view(items@),
            text::texts(out@) == text_items(views.take(i as int)),
        decreases items@.len() - i,
    {
        proof {
            json::lemma_items_view(items@);
            assert(views.take(i + 1).drop_last() =~= views.take(i as int));
            assert(views.take(i + 1).last() == items@[i as int].view());
        }
        let ghost before = out@;
        if let Some(t) = items[i].as_str() {
            out.push(t.to_owned());
            assert(text::texts(out@) =~= text::texts(before).push(t@));
        }
        i += 1;
    }
    proof {
        json::lemma_items_view(items@);
        assert(views.take(i as int) =~= views);
    }
    out
}

/// The strings in an array, where there are any.
fn strings_in(value: Option<&Json>) -> (r: Option<Vec<String>>)
    ensures
        list_of(r) == texts_in(json::ref_view(value)),
{
    match value {
        Some(v) => match v.as_array() {
            Some(items) => {
                let strings = strings_of(items);
                assert(text::texts(strings@).len() == strings@.len());
                if strings.is_empty() {
                    None
                } else {
                    Some(strings)
                }
            },
            None => None,
        },
        None => None,
    }
}

/// What the settings say of one model of a provider's own catalog.
pub open spec fn spec_of(item: JsonView, model: Seq<char>) -> SpecView {
    SpecView {
        model,
        display_name: trimmed(either(item, "displayName"@, "display_name"@)),
        context_window: positive(either(item, "contextWindow"@, "context_window"@)),
        supports_parallel_tool_calls: flag(
            either(item, "supportsParallelToolCalls"@, "supports_parallel_tool_calls"@),
        ),
        input_modalities: texts_in(either(item, "inputModalities"@, "input_modalities"@)),
        base_instructions: trimmed(either(item, "baseInstructions"@, "base_instructions"@)),
    }
}

/// Whether a list has a model.
pub open spec fn lists_model(specs: Seq<SpecView>, model: Seq<char>) -> bool {
    exists|i: int| 0 <= i < specs.len() && (#[trigger] specs[i]).model == model
}

/// The models of some catalog rows: those with a name, each the first time that it comes.
pub open spec fn specs_of(items: Seq<JsonView>) -> Seq<SpecView>
    decreases items.len(),
{
    if items.len() == 0 {
        Seq::empty()
    } else {
        let front = specs_of(items.drop_last());
        match trimmed(items.last().get("model"@)) {
            Some(model) => if lists_model(front, model) {
                front
            } else {
                front.push(spec_of(items.last(), model))
            },
            None => front,
        }
    }
}

/// The models of a provider's own catalog.
pub open spec fn catalog_specs(settings: JsonView) -> Seq<SpecView> {
    match settings.get("modelCatalog"@) {
        Some(catalog) => match catalog.get_items("models"@) {
            Some(items) => specs_of(items),
            None => Seq::empty(),
        },
        None => Seq::empty(),
    }
}

/// The models of a provider's own catalog: those with a name, each the first time that it comes.
pub fn codex_catalog_model_specs(settings: &Json) -> (r: Vec<CodexCatalogModelSpec>)
    ensures
        specs_view(r@) == catalog_specs(settings@),
{
    let mut specs: Vec<CodexCatalogModelSpec> = Vec::new();
    assert(specs_view(specs@) =~= Seq::<SpecView>::empty());
    let items = match settings.get("modelCatalog") {
        Some(catalog) => match catalog.get_array("models") {
            Some(items) => items,
            None => {
                return specs;
            },
        },
        None => {
            return specs;
        },
    };
    let ghost views = json::items_view(items@);
    let mut i: usize = 0;
    while i < items.len()
        invariant
            i <= items@.len(),
            views == json::items_view(items@),
            specs_view(specs@) == specs_of(views.take(i as int)),
        decreases items@.len() - i,
    {
        proof {
            json::lemma_items_view(items@);
            assert(views.take(i + 1).drop_last() =~= views.take(i as int));
            assert(views.take(i + 1).last() == items@[i as int].view());
        }
        let item = &items[i];
        if let Some(model) = trimmed_text(item.get("model")) {
            if !has_model(&specs, model.as_str()) {
                let spec = CodexCatalogModelSpec {
                    model,
                    display_name: trimmed_text(get_either(item, "displayName", "display_name")),
                    context_window: parse_codex_positive_u64(
                        get_either(item, "contextWindow", "context_window"),
                    ),
                    supports_parallel_tool_calls: flag_of(
                        get_either(
                            item,
                            "supportsParallelToolCalls",
                            "supports_parallel_tool_calls",
                        ),
                    ),
                    input_modalities: strings_in(
                        get_either(item, "inputModalities", "input_modalities"),
                    ),
                    base_instructions: trimmed_text(
                        get_either(item, "baseInstructions", "base_instructions"),
                    ),
                };
                let ghost before = specs@;
                specs.push(spec);
                assert(specs_view(specs@) =~= specs_view(before).push(spec@));
            }
        }
        i += 1;
    }
    proof {
        json::lemma_items_view(items@);
        assert(views.take(i as int) =~= views);
    }
    specs
}

/// Whether a list has a model.
fn has_model(specs: &Vec<CodexCatalogModelSpec>, model: &str) -> (r: bool)
    ensures
        r == lists_model(specs_view(specs@), model@),
{
    let ghost views = specs_view(specs@);
    let mut i: usize = 0;
    while i < specs.len()
        invariant
            i <= specs@.len(),
            views == specs_view(specs@),
            forall|j: int| 0 <= j < i ==> (#[trigger] views[j]).model != model@,
        decreases specs@.len() - i,
    {
        assert(views[i as int].model == specs@[i as int].model@);
        if str_eq(specs[i].model.as_str(), model) {
            return true;
        }
        i += 1;
    }
    false
}

/// The routes among some items: those that name a provider.
pub open spec fn routes_of(items: Seq<JsonView>) -> Seq<RouteView>
    decreases items.len(),
{
    if items.len() == 0 {
        Seq::empty()
    } else {
        let front = routes_of(items.drop_last());
        match trimmed(either(items.last(), "providerId"@, "provider_id"@)) {
            Some(provider_id) => front.push(
                RouteView {
                    provider_id,
                    upstream_model: trimmed(
                        either(items.last(), "upstreamModel"@, "upstream_model"@),
                    ),
                },
            ),
            None => front,
        }
    }
}

/// The routes that a model lists.
pub open spec fn listed_routes(item: JsonView) -> Seq<RouteView> {
    match item.get_items("routes"@) {
        Some(items) => routes_of(items),
        None => Seq::empty(),
    }
}

/// The routes that a model lists: those that name a provider.
pub fn codex_custom_model_routes(item: &Json) -> (r: Vec<CodexCustomModelRoute>)
    ensures
        routes_view(r@) == listed_routes(item@),
{
    let mut routes: Vec<CodexCustomModelRoute> = Vec::new();
    assert(routes_view(routes@) =~= Seq::<RouteView>::empty());
    let items = match item.get_array("routes") {
        Some(items) => items,
        None => {
            return routes;
        },
    };
    let ghost views = json::items_view(items@);
    let mut i: usize = 0;
    while i < items.len()
        invariant
            i <= items@.len(),
            views == json::items_view(items@),
            routes_view(routes@) == routes_of(views.take(i as int)),
        decreases items@.len() - i,
    {
        proof {
            json::lemma_items_view(items@);
            assert(views.take(i + 1).drop_last() =~= views.take(i as int));
            assert(views.take(i + 1).last() == items@[i as int].view());
        }
        let route = &items[i];
        if let Some(provider_id) = trimmed_text(get_either(route, "providerId", "provider_id")) {
            let upstream_model = trimmed_text(
                get_either(route, "upstreamModel", "upstream_model"),
            );
            let ghost before = routes@;
            let parsed = CodexCustomModelRoute { provider_id, upstream_model };
            routes.push(parsed);
            assert(routes_view(routes@) =~= routes_view(before).push(parsed@));
        }
        i += 1;
    }
    proof {
        json::lemma_items_view(items@);
        assert(views.take(i as int) =~= views);
    }
    routes
}

/// The routes of a model: those that it lists, else the one that it names itself.
pub open spec fn all_routes(item: JsonView) -> Seq<RouteView> {
    let listed = listed_routes(item);
    if listed.len() > 0 {
        listed
    } else {
        match trimmed(either(item, "providerId"@, "provider_id"@)) {
            Some(provider_id) => seq![
                RouteView {
                    provider_id,
                    upstream_model: trimmed(either(item, "upstreamModel"@, "upstream_model"@)),
                },
            ],
            None => Seq::empty(),
        }
    }
}

/// What the settings say of one model that is routed to another provider.
pub open spec fn entry_of(item: JsonView, model: Seq<char>) -> EntryView {
    let routes = all_routes(item);
    let top = trimmed(either(item, "upstreamModel"@, "upstream_model"@));
    let spec = spec_of(item, model);
    EntryView {
        model,
        provider_id: routes[0].provider_id,
        upstream_model: if routes[0].upstream_model is Some {
            routes[0].upstream_model
        } else {
            top
        },
        routes,
        display_name: spec.display_name,
        context_window: spec.context_window,
        supports_parallel_tool_calls: spec.supports_parallel_tool_calls,
        input_modalities: spec.input_modalities,
        base_instructions: spec.base_instructions,
    }
}

/// Whether a provider already has an entry in a slot.
pub open spec fn slot_taken(
    entries: Seq<EntryView>,
    slots: SlotTable,
    provider_id: Seq<char>,
    model: Seq<char>,
) -> bool {
    exists|i: int|
        0 <= i < entries.len() && (#[trigger] entries[i]).provider_id == provider_id && slots.slot(
            entries[i].model,
        ) == slots.slot(model)
}

/// The models among some rows: those with a name and a provider, each the first time that its slot
/// comes for that provider.
pub open spec fn entries_of(items: Seq<JsonView>, slots: SlotTable) -> Seq<EntryView>
    decreases items.len(),
{
    if items.len() == 0 {
        Seq::empty()
    } else {
        let front = entries_of(items.drop_last(), slots);
        let item = items.last();
        match trimmed(item.get("model"@)) {
            Some(model) => if all_routes(item).len() == 0 || slot_taken(
                front,
                slots,
                all_routes(item)[0].provider_id,
                model,
            ) {
                front
            } else {
                front.push(entry_of(item, model))
            },
            None => front,
        }
    }
}

/// The models that the official provider routes to other providers.
pub open spec fn custom_entries(settings: JsonView, slots: SlotTable) -> Seq<EntryView> {
    match settings.get_items(CODEX_CUSTOM_MODELS_KEY@) {
        Some(items) => entries_of(items, slots),
        None => Seq::empty(),
    }
}

/// The models that the official provider routes to other providers. A name is unique within one
/// provider only, so one name can be routed to several.
pub fn codex_custom_model_entries(settings: &Json, slots: &SlotTable) -> (r: Vec<
    CodexCustomModelEntry,
>)
    ensures
        entries_view(r@) == custom_entries(settings@, *slots),
{
    let mut entries: Vec<CodexCustomModelEntry> = Vec::new();
    assert(entries_view(entries@) =~= Seq::<EntryView>::empty());
    let items = match settings.get_array(CODEX_CUSTOM_MODELS_KEY) {
        Some(items) => items,
        None => {
            return entries;
        },
    };
    let ghost views = json::items_view(items@);
    let mut i: usize = 0;
    while i < items.len()
        invariant
            i <= items@.len(),
            views == json::items_view(items@),
            entries_view(entries@) == entries_of(views.take(i as int), *slots),
        decreases items@.len() - i,
    {
        proof {
            json::lemma_items_view(items@);
            assert(views.take(i + 1).drop_last() =~= views.take(i as int));
            assert(views.take(i + 1).last() == items@[i as int].view());
        }
        let item = &items[i];
        if let Some(entry) = parse_custom_entry(item) {
            if !is_slot_taken(
                &entries,
                slots,
                entry.provider_id.as_str(),
                entry.model.as_str(),
            ) {
                let ghost before = entries@;
                entries.push(entry);
                assert(entries_view(entries@) =~= entries_view(before).push(entry@));
            }
        }
        i += 1;
    }
    proof {
        json::lemma_items_view(items@);
        assert(views.take(i as int) =~= views);
    }
    entries
}

/// What the settings say of one model that is routed to another provider; `None` without a name or
/// a provider.
fn parse_custom_entry(item: &Json) -> (r: Option<CodexCustomModelEntry>)
    ensures
        match r {
            Some(entry) => trimmed(item@.get("model"@)) matches Some(model) && all_routes(
                item@,
            ).len() > 0 && entry@ == entry_of(item@, model),
            None => trimmed(item@.get("model"@)) is None || all_routes(item@).len() == 0,
        },
{
    let model = match trimmed_text(item.get("model")) {
        Some(model) => model,
        None => {
            return None;
        },
    };
    let top_level_upstream = trimmed_text(get_either(item, "upstreamModel", "upstream_model"));
    let mut routes = codex_custom_model_routes(item);
    if routes.is_empty() {
        assert(routes_view(routes@).len() == 0);
        match trimmed_text(get_either(item, "providerId", "provider_id")) {
            Some(provider_id) => {
                let route = CodexCustomModelRoute {
                    provider_id,
                    upstream_model: top_level_upstream.clone(),
                };
                routes.push(route);
                assert(routes_view(routes@) =~= seq![route@]);
            },
            None => {
                return None;
            },
        }
    }
    assert(routes_view(routes@) == all_routes(item@));
    assert(routes_view(routes@).len() == routes@.len());
    assert(routes_view(routes@)[0] == routes@[0]@);
    let provider_id = routes[0].provider_id.clone();
    let upstream_model = match &routes[0].upstream_model {
        Some(upstream) => Some(upstream.clone()),
        None => top_level_upstream,
    };
    let entry = CodexCustomModelEntry {
        model,
        provider_id,
        upstream_model,
        routes,
        display_name: trimmed_text(get_either(item, "displayName", "display_name")),
        context_window: parse_codex_positive_u64(
            get_either(item, "contextWindow", "context_window"),
        ),
        supports_parallel_tool_calls: flag_of(
            get_either(item, "supportsParallelToolCalls", "supports_parallel_tool_calls"),
        ),
        input_modalities: strings_in(get_either(item, "inputModalities", "input_modalities")),
        base_instructions: trimmed_text(get_either(item, "baseInstructions", "base_instructions")),
    };
    assert(entry@ =~= entry_of(item@, entry.model@));
    Some(entry)
}

/// Whether a provider already has an entry in a slot.
fn is_slot_taken(
    entries: &Vec<CodexCustomModelEntry>,
    slots: &SlotTable,
    provider_id: &str,
    model: &str,
) -> (r: bool)
    ensures
        r == slot_taken(entries_view(entries@), *slots, provider_id@, model@),
{
    let slot = slots.slot_of(model);
    let ghost views = entries_view(entries@);
    let mut i: usize = 0;
    while i < entries.len()
        invariant
            i <= entries@.len(),
            views == entries_view(entries@),
            slot@ == slots.slot(model@),
            forall|j: int|
                0 <= j < i ==> !((#[trigger] views[j]).provider_id == provider_id@ && slots.slot(
                    views[j].model,
                ) == slots.slot(model@)),
        decreases entries@.len() - i,
    {
        assert(views[i as int] == entries@[i as int]@);
        if str_eq(entries[i].provider_id.as_str(), provider_id) && str_eq(
            slots.slot_of(entries[i].model.as_str()).as_str(),
            slot.as_str(),
        ) {
            return true;
        }
        i += 1;
    }
    false
}

/// Whether the official provider routes any model to another provider.
pub fn codex_custom_models_nonempty(settings: &Json, slots: &SlotTable) -> (r: bool)
    ensures
        r == (custom_entries(settings@, *slots).len() > 0),
{
    let entries = codex_custom_model_entries(settings, slots);
    assert(entries_view(entries@).len() == entries@.len());
    !entries.is_empty()
}

/// Whether the official provider uses its own login: where the settings do not say, it does.
pub open spec fn official_login(settings: JsonView) -> bool {
    match flag(settings.get(CODEX_OFFICIAL_LOGIN_KEY@)) {
        Some(on) => on,
        None => true,
    }
}

/// Whether the official provider uses its own login: where the settings do not say, it does.
pub fn codex_official_login_enabled(settings: &Json) -> (r: bool)
    ensures
        r == official_login(settings@),
{
    match flag_of(settings.get(CODEX_OFFICIAL_LOGIN_KEY)) {
        Some(on) => on,
        None => true,
    }
}

/// No model is listed twice in a provider's own catalog, and no slot twice for one provider among
/// the routed models.
pub proof fn law_models_are_listed_once(settings: JsonView, slots: SlotTable)
    ensures
        forall|i: int, j: int|
            0 <= i < j < catalog_specs(settings).len() ==> (#[trigger] catalog_specs(
                settings,
            )[i]).model != (#[trigger] catalog_specs(settings)[j]).model,
        forall|i: int, j: int|
            #![trigger custom_entries(settings, slots)[i], custom_entries(settings, slots)[j]]
            0 <= i < j < custom_entries(settings, slots).len() ==> custom_entries(
                settings,
                slots,
            )[i].provider_id != custom_entries(settings, slots)[j].provider_id || slots.slot(
                custom_entries(settings, slots)[i].model,
            ) != slots.slot(custom_entries(settings, slots)[j].model),
{
    match settings.get("modelCatalog"@) {
        Some(catalog) => match catalog.get_items("models"@) {
            Some(items) => lemma_specs_once(items),
            None => {},
        },
        None => {},
    }
    match settings.get_items(CODEX_CUSTOM_MODELS_KEY@) {
        Some(items) => lemma_entries_once(items, slots),
        None => {},
    }
}

/// No model is given twice by some rows.
pub proof fn lemma_specs_once(items: Seq<JsonView>)
    ensures
        forall|i: int, j: int|
            0 <= i < j < specs_of(items).len() ==> (#[trigger] specs_of(items)[i]).model != (
            #[trigger] specs_of(items)[j]).model,
    decreases items.len(),
{
    if items.len() > 0 {
        lemma_specs_once(items.drop_last());
        let front = specs_of(items.drop_last());
        let all = specs_of(items);
        assert forall|i: int, j: int| 0 <= i < j < all.len() implies (#[trigger] all[i]).model != (
        #[trigger] all[j]).model by {
            assert(all[i] == front[i]);
            if j < front.len() {
                assert(all[j] == front[j]);
            }
        }
    }
}

proof fn lemma_entries_once(items: Seq<JsonView>, slots: SlotTable)
    ensures
        forall|i: int, j: int|
            #![trigger entries_of(items, slots)[i], entries_of(items, slots)[j]]
            0 <= i < j < entries_of(items, slots).len() ==> entries_of(items, slots)[i].provider_id
                != entries_of(items, slots)[j].provider_id || slots.slot(
                entries_of(items, slots)[i].model,
            ) != slots.slot(entries_of(items, slots)[j].model),
    decreases items.len(),
{
    if items.len() > 0 {
        lemma_entries_once(items.drop_last(), slots);
        let front = entries_of(items.drop_last(), slots);
        let all = entries_of(items, slots);
        assert forall|i: int, j: int|
            #![trigger all[i], all[j]]
            0 <= i < j < all.len() implies all[i].provider_id != all[j].provider_id || slots.slot(
            all[i].model,
        ) != slots.slot(all[j].model) by {
            assert(all[i] == front[i]);
            if j < front.len() {
                assert(all[j] == front[j]);
            }
        }
    }
}

} // verus!
