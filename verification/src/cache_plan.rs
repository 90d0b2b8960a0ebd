//! What happens to the cache of models when another provider is switched to.

use crate::catalog::{codex_model_catalog_from_settings, codex_single_model_cache_entry};
use crate::catalog_entry::CodexCatalogToolProfile;
use crate::cli::version_to_write;
use crate::error::{AppError, ErrorView};
use crate::json::{copy_items, Json, JsonView};
use crate::model_specs::{codex_custom_models_nonempty, codex_official_login_enabled, SlotTable};
use crate::models_cache::{
    apply_codex_official_model_display_prefix, codex_cache_is_reliable_official_baseline,
    merge_codex_custom_catalog_entries,
};
use crate::moment::{rfc3339_nanos_text, Moment};
use crate::official_baseline::{
    load_or_capture_codex_official_models_baseline, BaselineStep, CodexOfficialBaseline,
};
use crate::routed_catalog::{codex_custom_catalog_entries, BoundProvider, CatalogSources};
use crate::text::{decimal_text, join2};
use crate::toml_value::codex_top_level_model;
use crate::{
    catalog, cli, json, model_specs, models_cache, moment, official_baseline, routed_catalog, text,
    toml_value,
};
use vstd::prelude::*;
use vstd::string::*;

verus! {

/// One thing to do with the files.
#[derive(Debug)]
pub enum CacheAction {
    /// Write the file that keeps the official list.
    WriteBaseline(Json),
    /// Take the cache away, where there is one, so that Codex fetches the official list.
    RemoveLive,
    /// Write the cache.
    WriteLive(Json),
}

/// What a [`CacheAction`] stands for.
pub enum ActionView {
    WriteBaseline(JsonView),
    RemoveLive,
    WriteLive(JsonView),
}

impl CacheAction {
    pub open spec fn view(&self) -> ActionView {
        match self {
            CacheAction::WriteBaseline(file) => ActionView::WriteBaseline(file@),
            CacheAction::RemoveLive => ActionView::RemoveLive,
            CacheAction::WriteLive(file) => ActionView::WriteLive(file@),
        }
    }
}

/// What some actions stand for.
pub open spec fn actions_view(actions: Seq<CacheAction>) -> Seq<ActionView> {
    actions.map_values(|a: CacheAction| a.view())
}

/// What to do with the files, in this order, and the error that comes after that.
#[derive(Debug)]
pub struct CachePlan {
    pub actions: Vec<CacheAction>,
    pub error: Option<AppError>,
}

/// What a [`CachePlan`] stands for.
#[verifier::ext_equal]
pub struct PlanView {
    pub actions: Seq<ActionView>,
    pub error: Option<ErrorView>,
}

impl CachePlan {
    pub open spec fn view(&self) -> PlanView {
        PlanView {
            actions: actions_view(self.actions@),
            error: match self.error {
                Some(e) => Some(e@),
                None => None,
            },
        }
    }
}

/// What is there when a cache is planned: the cache and the official list that was put aside, where
/// they can be read, the version of the client, and the time.
#[derive(Debug)]
pub struct CacheState {
    pub live: Option<Json>,
    pub saved: Option<Json>,
    pub detected_version: Option<String>,
    pub now: Moment,
}

/// A list without models.
pub open spec fn no_models() -> JsonView {
    JsonView::empty_object().put("models"@, JsonView::Array(Seq::empty()))
}

impl CacheState {
    /// The cache; a list without models, where there is none.
    pub open spec fn live_list(&self) -> JsonView {
        match self.live {
            Some(live) => live@,
            None => no_models(),
        }
    }

    /// The cache; a list without models, where there is none.
    pub fn live_or_empty(&self) -> (r: Json)
        ensures
            r@ == self.live_list(),
    {
        match &self.live {
            Some(live) => live.clone(),
            None => {
                let mut out = Json::object();
                let items: Vec<Json> = Vec::new();
                assert(json::items_view(items@) =~= Seq::<JsonView>::empty());
                out.insert("models", Json::Array(items));
                out
            },
        }
    }
}

/// The error of a cache whose client is unknown.
pub open spec fn no_version() -> ErrorView {
    ErrorView::Message(
        "Cannot write Codex models cache without a verified Codex client version"@,
    )
}

/// A cache as this application writes it.
pub open spec fn cache_file(models: Seq<JsonView>, version: Seq<char>, now: Moment) -> JsonView {
    JsonView::empty_object().put(
        "fetched_at"@,
        JsonView::Str(moment::rfc3339_nanos(now.secs, now.nanos)),
    ).put(
        "etag"@,
        JsonView::Str("W/\"cc-switch-"@ + text::decimal(now.secs as nat) + "\""@),
    ).put("client_version"@, JsonView::Str(version)).put("models"@, JsonView::Array(models))
}

/// The actions of a step with the official list.
pub open spec fn step_actions(write: Option<JsonView>) -> Seq<ActionView> {
    match write {
        Some(file) => seq![ActionView::WriteBaseline(file)],
        None => Seq::empty(),
    }
}

/// How a cache with some models is written: what it replaces is first put aside, where it is an
/// official list. Without a known version nothing is written.
pub open spec fn write_plan(
    saved: Option<JsonView>,
    live: JsonView,
    models: Seq<JsonView>,
    detected: Option<Seq<char>>,
    now: Moment,
) -> PlanView {
    match cli::writable_version(detected, live) {
        None => PlanView { actions: Seq::empty(), error: Some(no_version()) },
        Some(version) => PlanView {
            actions: step_actions(official_baseline::baseline_step(saved, live, now).write).push(
                ActionView::WriteLive(cache_file(models, version, now)),
            ),
            error: None,
        },
    }
}

/// The text in an option.
fn as_ref_text(s: &Option<String>) -> (r: Option<&str>)
    ensures
        text::slice_text(r) == text::text_of(*s),
{
    match s {
        Some(s) => Some(s.as_str()),
        None => None,
    }
}

/// Adds what a step with the official list writes.
fn push_step(actions: &mut Vec<CacheAction>, write: Option<Json>)
    ensures
        actions_view(final(actions)@) == actions_view(old(actions)@) + step_actions(
            json::option_view(write),
        ),
{
    let ghost before = actions_view(actions@);
    match write {
        Some(file) => {
            actions.push(CacheAction::WriteBaseline(file));
            assert(actions_view(actions@) =~= before + seq![ActionView::WriteBaseline(file@)]);
        },
        None => {
            assert(before + Seq::<ActionView>::empty() =~= before);
        },
    }
}

/// Adds the writing of the cache.
fn push_live(actions: &mut Vec<CacheAction>, file: Json)
    ensures
        actions_view(final(actions)@) == actions_view(old(actions)@).push(
            ActionView::WriteLive(file@),
        ),
{
    let ghost before = actions_view(actions@);
    actions.push(CacheAction::WriteLive(file));
    assert(actions_view(actions@) =~= before.push(ActionView::WriteLive(file@)));
}

/// How a cache with some models is written, behind other actions.
fn write_behind(
    mut actions: Vec<CacheAction>,
    saved: Option<&Json>,
    live: &Json,
    models: Vec<Json>,
    detected: Option<&str>,
    now: &Moment,
) -> (r: CachePlan)
    requires
        now.valid(),
    ensures
        ({
            let rest = write_plan(
                json::ref_view(saved),
                live@,
                json::items_view(models@),
                text::slice_text(detected),
                *now,
            );
            r@ == PlanView { actions: actions_view(actions@) + rest.actions, error: rest.error }
        }),
{
    let ghost before = actions_view(actions@);
    let version = match version_to_write(detected, live) {
        Some(version) => version,
        None => {
            assert(before + Seq::<ActionView>::empty() =~= before);
            return CachePlan {
                actions,
                error: Some(
                    AppError::Message(
                        "Cannot write Codex models cache without a verified Codex client version".to_owned(),
                    ),
                ),
            };
        },
    };
    let step = load_or_capture_codex_official_models_baseline(saved, live, now);
    push_step(&mut actions, step.write);
    let mut etag = join2("W/\"cc-switch-", decimal_text(now.secs as u64).as_str());
    etag.push_str("\"");
    let mut file = Json::object();
    file.insert("fetched_at", Json::Str(rfc3339_nanos_text(now)));
    file.insert("etag", Json::Str(etag));
    file.insert("client_version", Json::Str(version));
    file.insert("models", Json::Array(models));
    push_live(&mut actions, file);
    let plan = CachePlan { actions, error: None };
    proof {
        let rest = write_plan(
            json::ref_view(saved),
            live@,
            json::items_view(models@),
            text::slice_text(detected),
            *now,
        );
        assert(plan@.actions =~= before + rest.actions);
    }
    plan
}

/// How a cache with some models is written: what it replaces is first put aside, where it is an
/// official list. Without a known version nothing is written.
pub fn write_models_cache_json_with_client_version(state: &CacheState, models: Vec<Json>) -> (r:
    CachePlan)
    requires
        state.now.valid(),
    ensures
        r@ == write_plan(
            json::option_view(state.saved),
            state.live_list(),
            json::items_view(models@),
            text::text_of(state.detected_version),
            state.now,
        ),
{
    let live = state.live_or_empty();
    let actions: Vec<CacheAction> = Vec::new();
    assert(actions_view(actions@) =~= Seq::<ActionView>::empty());
    let plan = write_behind(
        actions,
        state.saved.as_ref(),
        &live,
        models,
        as_ref_text(&state.detected_version),
        &state.now,
    );
    proof {
        let rest = write_plan(
            json::option_view(state.saved),
            state.live_list(),
            json::items_view(models@),
            text::text_of(state.detected_version),
            state.now,
        );
        assert(Seq::<ActionView>::empty() + rest.actions =~= rest.actions);
    }
    plan
}

/// How the cache is put back to the official list: the one that was put aside is written, where the
/// cache is not official; where none is known the cache goes.
pub open spec fn restore_plan(saved: Option<JsonView>, live: JsonView, now: Moment) -> PlanView {
    let step = official_baseline::baseline_step(saved, live, now);
    let first = step_actions(step.write);
    PlanView {
        actions: match step.ready {
            None => first.push(ActionView::RemoveLive),
            Some(list) => if models_cache::is_official(live) {
                first
            } else {
                first.push(ActionView::WriteLive(list))
            },
        },
        error: None,
    }
}

/// Adds that the cache goes.
fn push_remove(actions: &mut Vec<CacheAction>)
    ensures
        actions_view(final(actions)@) == actions_view(old(actions)@).push(ActionView::RemoveLive),
{
    let ghost before = actions_view(actions@);
    actions.push(CacheAction::RemoveLive);
    assert(actions_view(actions@) =~= before.push(ActionView::RemoveLive));
}

/// How the cache is put back to the official list.
pub fn restore_or_clear_codex_official_models_cache(state: &CacheState) -> (r: CachePlan)
    requires
        state.now.valid(),
    ensures
        r@ == restore_plan(json::option_view(state.saved), state.live_list(), state.now),
{
    let live = state.live_or_empty();
    let step = load_or_capture_codex_official_models_baseline(
        state.saved.as_ref(),
        &live,
        &state.now,
    );
    let mut actions: Vec<CacheAction> = Vec::new();
    assert(actions_view(actions@) =~= Seq::<ActionView>::empty());
    let BaselineStep { baseline, write } = step;
    push_step(&mut actions, write);
    assert(actions_view(actions@) =~= step_actions(step@.write));
    match baseline {
        CodexOfficialBaseline::AwaitingRefresh => {
            push_remove(&mut actions);
        },
        CodexOfficialBaseline::Ready(list) => {
            if !codex_cache_is_reliable_official_baseline(&live) {
                push_live(&mut actions, list);
            }
        },
    }
    CachePlan { actions, error: None }
}

/// The file that keeps the official list after a step.
pub open spec fn saved_after(saved: Option<JsonView>, write: Option<JsonView>) -> Option<JsonView> {
    match write {
        Some(file) => Some(file),
        None => saved,
    }
}

/// The models of a list.
pub open spec fn models_of(list: JsonView) -> Seq<JsonView> {
    match list.get_items("models"@) {
        Some(models) => models,
        None => Seq::empty(),
    }
}

/// How the official models, marked as such, and the routed ones get into the cache together. Where
/// no official list is known the cache goes, so that Codex fetches it. The official list itself is
/// put aside as it is.
pub open spec fn official_login_plan(
    saved: Option<JsonView>,
    live: JsonView,
    settings: JsonView,
    slots: SlotTable,
    entries: Result<Seq<JsonView>, ErrorView>,
    detected: Option<Seq<char>>,
    now: Moment,
) -> PlanView {
    let step = official_baseline::baseline_step(saved, live, now);
    let first = step_actions(step.write);
    match step.ready {
        None => PlanView { actions: first.push(ActionView::RemoveLive), error: None },
        Some(list) => match entries {
            Err(e) => PlanView { actions: first, error: Some(e) },
            Ok(entries) => {
                let official = models_cache::all_prefixed(models_of(list));
                if models_cache::merge_changes(official, settings, entries, slots) {
                    let rest = write_plan(
                        saved_after(saved, step.write),
                        live,
                        models_cache::merged_models(official, settings, entries, slots),
                        detected,
                        now,
                    );
                    PlanView { actions: first + rest.actions, error: rest.error }
                } else if models_cache::is_official(live) {
                    PlanView { actions: first, error: None }
                } else {
                    PlanView { actions: first.push(ActionView::WriteLive(list)), error: None }
                }
            },
        },
    }
}

/// The models of a list.
fn copy_models(list: &Json) -> (r: Vec<Json>)
    ensures
        json::items_view(r@) == models_of(list@),
{
    match list.get_array("models") {
        Some(models) => copy_items(models),
        None => {
            let none: Vec<Json> = Vec::new();
            assert(json::items_view(none@) =~= Seq::<JsonView>::empty());
            none
        },
    }
}

/// What a result with entries stands for.
pub open spec fn entries_result(r: Result<Vec<Json>, AppError>) -> Result<Seq<JsonView>, ErrorView> {
    match r {
        Ok(made) => Ok(json::items_view(made@)),
        Err(e) => Err(e@),
    }
}

/// How the official models and the routed ones get into the cache together, for entries of the
/// routed ones that were made before.
pub fn write_codex_models_cache_for_official_login(
    state: &CacheState,
    settings: &Json,
    slots: &SlotTable,
    entries: Result<Vec<Json>, AppError>,
) -> (r: CachePlan)
    requires
        state.now.valid(),
    ensures
        r@ == official_login_plan(
            json::option_view(state.saved),
            state.live_list(),
            settings@,
            *slots,
            entries_result(entries),
            text::text_of(state.detected_version),
            state.now,
        ),
{
    let live = state.live_or_empty();
    let step = load_or_capture_codex_official_models_baseline(
        state.saved.as_ref(),
        &live,
        &state.now,
    );
    let ghost seen = step@;
    let BaselineStep { baseline, write } = step;
    let saved: Option<Json> = match &write {
        Some(file) => Some(file.clone()),
        None => match &state.saved {
            Some(file) => Some(file.clone()),
            None => None,
        },
    };
    let mut actions: Vec<CacheAction> = Vec::new();
    assert(actions_view(actions@) =~= Seq::<ActionView>::empty());
    push_step(&mut actions, write);
    assert(actions_view(actions@) =~= step_actions(seen.write));
    let list = match baseline {
        CodexOfficialBaseline::AwaitingRefresh => {
            push_remove(&mut actions);
            return CachePlan { actions, error: None };
        },
        CodexOfficialBaseline::Ready(list) => list,
    };
    let entries = match entries {
        Ok(entries) => entries,
        Err(e) => {
            return CachePlan { actions, error: Some(e) };
        },
    };
    let mut models = copy_models(&list);
    apply_codex_official_model_display_prefix(&mut models);
    if merge_codex_custom_catalog_entries(&mut models, settings, &entries, slots) {
        return write_behind(
            actions,
            saved.as_ref(),
            &live,
            models,
            as_ref_text(&state.detected_version),
            &state.now,
        );
    }
    if !codex_cache_is_reliable_official_baseline(&live) {
        push_live(&mut actions, list);
    }
    CachePlan { actions, error: None }
}

/// How the routed models alone get into the cache: the official ones could not be served, so they
/// are left out.
pub open spec fn aggregate_plan(
    saved: Option<JsonView>,
    live: JsonView,
    settings: JsonView,
    slots: SlotTable,
    entries: Result<Seq<JsonView>, ErrorView>,
    detected: Option<Seq<char>>,
    now: Moment,
) -> PlanView {
    match entries {
        Err(e) => PlanView { actions: Seq::empty(), error: Some(e) },
        Ok(entries) => write_plan(
            saved,
            live,
            models_cache::merged_models(Seq::empty(), settings, entries, slots),
            detected,
            now,
        ),
    }
}

/// How the routed models alone get into the cache, for entries that were made before.
pub fn write_codex_models_cache_for_aggregate(
    state: &CacheState,
    settings: &Json,
    slots: &SlotTable,
    entries: Result<Vec<Json>, AppError>,
) -> (r: CachePlan)
    requires
        state.now.valid(),
    ensures
        r@ == (if model_specs::official_login(settings@) {
            PlanView { actions: Seq::empty(), error: None }
        } else {
            aggregate_plan(
                json::option_view(state.saved),
                state.live_list(),
                settings@,
                *slots,
                entries_result(entries),
                text::text_of(state.detected_version),
                state.now,
            )
        }),
{
    if codex_official_login_enabled(settings) {
        return no_plan(None);
    }
    let entries = match entries {
        Ok(entries) => entries,
        Err(e) => {
            return no_plan(Some(e));
        },
    };
    let mut models: Vec<Json> = Vec::new();
    assert(json::items_view(models@) =~= Seq::<JsonView>::empty());
    merge_codex_custom_catalog_entries(&mut models, settings, &entries, slots);
    write_models_cache_json_with_client_version(state, models)
}

/// A plan that does nothing.
fn no_plan(error: Option<AppError>) -> (r: CachePlan)
    ensures
        r@.actions == Seq::<ActionView>::empty(),
        r@.error == (match error {
            Some(e) => Some(e@),
            None => None,
        }),
{
    let actions: Vec<CacheAction> = Vec::new();
    assert(actions_view(actions@) =~= Seq::<ActionView>::empty());
    CachePlan { actions, error }
}

/// How a provider's own models get into the cache: those of its catalog, else the one that its
/// config names; where it names none the cache stays.
pub open spec fn own_plan(
    saved: Option<JsonView>,
    live: JsonView,
    catalog: Result<Option<JsonView>, ErrorView>,
    single: Option<JsonView>,
    detected: Option<Seq<char>>,
    now: Moment,
) -> PlanView {
    match catalog {
        Err(e) => PlanView { actions: Seq::empty(), error: Some(e) },
        Ok(Some(catalog)) => write_plan(saved, live, models_of(catalog), detected, now),
        Ok(None) => match single {
            Some(entry) => write_plan(saved, live, seq![entry], detected, now),
            None => PlanView { actions: Seq::empty(), error: None },
        },
    }
}

/// A provider as the cache is written for it: whether it is the official one, its settings, and the
/// tools that its models are offered with.
#[derive(Debug)]
pub struct CacheProvider {
    pub official: bool,
    pub settings: Json,
    pub profile: CodexCatalogToolProfile,
}

/// The entry of the one model that a config names.
pub open spec fn configured_entry(
    config: Seq<char>,
    profile: CodexCatalogToolProfile,
    sources: CatalogSources,
) -> Option<JsonView> {
    match toml_value::toml_values(config) {
        Some(tree) => match toml_value::model_of(tree) {
            Some(model) => catalog::single_entry(model, profile, config, sources),
            None => None,
        },
        None => None,
    }
}

/// What happens to the cache for a provider.
pub open spec fn provider_plan(
    state: CacheState,
    provider: CacheProvider,
    config: Seq<char>,
    slots: SlotTable,
    providers: Option<Seq<BoundProvider>>,
    sources: CatalogSources,
) -> PlanView {
    let saved = json::option_view(state.saved);
    let live = state.live_list();
    let detected = text::text_of(state.detected_version);
    let settings = provider.settings@;
    let routed = routed_catalog::custom_catalog(
        settings,
        slots,
        config,
        CodexCatalogToolProfile::NativeResponses,
        providers,
        sources,
    );
    if provider.official {
        if !model_specs::official_login(settings) {
            aggregate_plan(saved, live, settings, slots, routed, detected, state.now)
        } else if model_specs::custom_entries(settings, slots).len() > 0 {
            official_login_plan(saved, live, settings, slots, routed, detected, state.now)
        } else {
            restore_plan(saved, live, state.now)
        }
    } else {
        own_plan(
            saved,
            live,
            catalog::catalog_for(settings, slots, config, provider.profile, None, sources),
            configured_entry(config, provider.profile, sources),
            detected,
            state.now,
        )
    }
}

/// What happens to the cache when a provider is switched to, so that it always shows the models of
/// that provider. With the official provider these are the official models and the routed ones, or
/// the routed ones alone where the official login is off; with another one its own.
pub fn write_codex_models_cache_for_provider(
    state: &CacheState,
    provider: &CacheProvider,
    config_text: &str,
    slots: &SlotTable,
    providers: Option<&Vec<BoundProvider>>,
    sources: &CatalogSources,
) -> (r: CachePlan)
    requires
        state.now.valid(),
    ensures
        r@ == provider_plan(
            *state,
            *provider,
            config_text@,
            *slots,
            routed_catalog::providers_seq(providers),
            *sources,
        ),
{
    let settings = &provider.settings;
    if provider.official {
        let with_login = codex_official_login_enabled(settings);
        if with_login && !codex_custom_models_nonempty(settings, slots) {
            return restore_or_clear_codex_official_models_cache(state);
        }
        let entries = codex_custom_catalog_entries(
            settings,
            slots,
            config_text,
            CodexCatalogToolProfile::NativeResponses,
            providers,
            sources,
        );
        if with_login {
            return write_codex_models_cache_for_official_login(state, settings, slots, entries);
        }
        return write_codex_models_cache_for_aggregate(state, settings, slots, entries);
    }
    let catalog = match codex_model_catalog_from_settings(
        settings,
        slots,
        config_text,
        provider.profile,
        None,
        sources,
    ) {
        Ok(catalog) => catalog,
        Err(e) => {
            return no_plan(Some(e));
        },
    };
    match catalog {
        Some(catalog) => write_models_cache_json_with_client_version(state, copy_models(&catalog)),
        None => {
            let model = match codex_top_level_model(config_text) {
                Some(model) => model,
                None => {
                    return no_plan(None);
                },
            };
            match codex_single_model_cache_entry(
                model.as_str(),
                provider.profile,
                config_text,
                sources,
            ) {
                Some(entry) => {
                    let mut models: Vec<Json> = Vec::new();
                    models.push(entry);
                    proof {
                        json::lemma_items_view(models@);
                        assert(json::items_view(models@) =~= seq![entry@]);
                    }
                    write_models_cache_json_with_client_version(state, models)
                },
                None => no_plan(None),
            }
        },
    }
}

} // verus!
