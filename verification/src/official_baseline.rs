//! The official list of models that is put aside while the cache holds other models.

use crate::json::{copy_items, Json, JsonView};
use crate::models_cache::{
    codex_cache_has_cc_switch_etag, codex_cache_is_reliable_official_baseline, is_marked_merged,
    CODEX_OFFICIAL_MODELS_MERGED_KEY,
};
use crate::moment::{rfc3339_nanos_text, rfc3339_text, seconds_since_text, Moment};
use crate::text::str_eq;
use crate::{json, models_cache, moment, text};
use vstd::prelude::*;
use vstd::string::*;

verus! {

/// Says in which state a file that is no list of models is.
pub const CODEX_OFFICIAL_BASELINE_STATE_KEY: &'static str = "cc_switch_state";

/// The state of waiting for a newer official list.
pub const CODEX_OFFICIAL_BASELINE_AWAITING_REFRESH: &'static str = "awaiting_official_refresh";

/// Says when a list was put aside.
pub const CODEX_OFFICIAL_BASELINE_CAPTURED_AT_KEY: &'static str = "cc_switch_captured_at";

/// So many seconds a list that was put aside is used.
pub const CODEX_OFFICIAL_BASELINE_TTL_SECONDS: i64 = 300;

/// So many seconds a list may seem to come from the future.
pub const CODEX_OFFICIAL_BASELINE_CLOCK_SKEW_SECONDS: i64 = 60;

/// A member of a list, null where there is none.
pub open spec fn member_or_null(cache: JsonView, key: Seq<char>) -> JsonView {
    match cache.get(key) {
        Some(value) => value,
        None => JsonView::Null,
    }
}

/// By what one fetched list is told from another: its tag and when it was fetched.
pub open spec fn fingerprint(cache: JsonView) -> JsonView {
    JsonView::empty_object().put("etag"@, member_or_null(cache, "etag"@)).put(
        "fetched_at"@,
        member_or_null(cache, "fetched_at"@),
    )
}

/// A member of a list, null where there is none.
fn get_or_null(cache: &Json, key: &str) -> (r: Json)
    ensures
        r@ == member_or_null(cache@, key@),
{
    match cache.get(key) {
        Some(value) => value.clone(),
        None => Json::Null,
    }
}

/// By what one fetched list is told from another.
pub fn codex_official_cache_fingerprint(cache: &Json) -> (r: Json)
    ensures
        r@ == fingerprint(cache@),
{
    let mut out = Json::object();
    out.insert("etag", get_or_null(cache, "etag"));
    out.insert("fetched_at", get_or_null(cache, "fetched_at"));
    out
}

/// A list without the time at which it was put aside.
pub open spec fn payload(cache: JsonView) -> JsonView {
    cache.without(CODEX_OFFICIAL_BASELINE_CAPTURED_AT_KEY@)
}

/// A list without the time at which it was put aside.
pub fn codex_official_baseline_payload(cache: &Json) -> (r: Json)
    ensures
        r@ == payload(cache@),
{
    let mut out = cache.clone();
    out.remove(CODEX_OFFICIAL_BASELINE_CAPTURED_AT_KEY);
    out
}

/// A list with the time at which it was put aside.
pub open spec fn captured(cache: JsonView, now: Moment) -> JsonView {
    payload(cache).put(
        CODEX_OFFICIAL_BASELINE_CAPTURED_AT_KEY@,
        JsonView::Str(moment::rfc3339(now.secs, now.nanos)),
    )
}

/// How old a list that was put aside is.
#[derive(Debug, Clone, Copy, PartialEq, Eq, Structural)]
pub enum CodexOfficialBaselineCaptureState {
    /// It does not say when that was.
    Missing,
    /// It can be used.
    Fresh,
    /// It is too old.
    Expired,
    /// What it says is no time, or one in the future.
    Invalid,
}

/// How old a list is by its age in seconds.
pub open spec fn state_of_age(age: int) -> CodexOfficialBaselineCaptureState {
    if age < -CODEX_OFFICIAL_BASELINE_CLOCK_SKEW_SECONDS {
        CodexOfficialBaselineCaptureState::Invalid
    } else if age >= CODEX_OFFICIAL_BASELINE_TTL_SECONDS {
        CodexOfficialBaselineCaptureState::Expired
    } else {
        CodexOfficialBaselineCaptureState::Fresh
    }
}

/// How old a list is at a moment.
pub open spec fn capture_state(cache: JsonView, now: Moment) -> CodexOfficialBaselineCaptureState {
    match cache.get(CODEX_OFFICIAL_BASELINE_CAPTURED_AT_KEY@) {
        None => CodexOfficialBaselineCaptureState::Missing,
        Some(value) => match value.text() {
            None => CodexOfficialBaselineCaptureState::Invalid,
            Some(text) => match moment::seconds_since(text, now.secs, now.nanos) {
                None => CodexOfficialBaselineCaptureState::Invalid,
                Some(age) => state_of_age(age as int),
            },
        },
    }
}

/// How old a list is at a moment.
pub fn codex_official_baseline_capture_state(cache: &Json, now: &Moment) -> (r:
    CodexOfficialBaselineCaptureState)
    requires
        now.valid(),
    ensures
        r == capture_state(cache@, *now),
{
    let raw = match cache.get(CODEX_OFFICIAL_BASELINE_CAPTURED_AT_KEY) {
        Some(raw) => raw,
        None => {
            return CodexOfficialBaselineCaptureState::Missing;
        },
    };
    let raw = match raw.as_str() {
        Some(raw) => raw,
        None => {
            return CodexOfficialBaselineCaptureState::Invalid;
        },
    };
    match seconds_since_text(raw, now) {
        Some(age) => age_state(age),
        None => CodexOfficialBaselineCaptureState::Invalid,
    }
}

/// How old a list is by its age in seconds.
pub fn age_state(age: i64) -> (r: CodexOfficialBaselineCaptureState)
    ensures
        r == state_of_age(age as int),
{
    if age < -CODEX_OFFICIAL_BASELINE_CLOCK_SKEW_SECONDS {
        CodexOfficialBaselineCaptureState::Invalid
    } else if age >= CODEX_OFFICIAL_BASELINE_TTL_SECONDS {
        CodexOfficialBaselineCaptureState::Expired
    } else {
        CodexOfficialBaselineCaptureState::Fresh
    }
}

/// A list with the time at which it was put aside. From then on it is fresh for its time to live,
/// and expired after that.
pub fn codex_official_baseline_with_capture_time(cache: &Json, captured_at: &Moment) -> (r: Json)
    requires
        captured_at.valid(),
    ensures
        r@ == captured(cache@, *captured_at),
        cache@ is Object ==> forall|now: Moment| #[trigger] now.valid() ==> capture_state(r@, now)
            == state_of_age(
            moment::whole_seconds(now.secs - captured_at.secs, now.nanos - captured_at.nanos),
        ),
{
    let mut out = codex_official_baseline_payload(cache);
    let text = rfc3339_text(captured_at);
    let ghost written = text@;
    out.insert(CODEX_OFFICIAL_BASELINE_CAPTURED_AT_KEY, Json::Str(text));
    proof {
        if cache@ is Object {
            assert forall|now: Moment| #[trigger] now.valid() implies capture_state(out@, now)
                == state_of_age(
                moment::whole_seconds(now.secs - captured_at.secs, now.nanos - captured_at.nanos),
            ) by {
                let secs = now.secs;
                let nanos = now.nanos;
                assert((Moment { secs, nanos }).valid());
                assert(moment::seconds_since(written, secs, nanos) is Some);
                assert(out@.get(CODEX_OFFICIAL_BASELINE_CAPTURED_AT_KEY@) == Some(
                    JsonView::Str(written),
                ));
            }
        }
    }
    out
}

/// The models of a list that was fetched, which stand under one of two names.
pub open spec fn fetched_models(catalog: JsonView) -> Option<Seq<JsonView>> {
    match catalog.get_items("models"@) {
        Some(models) => Some(models),
        None => catalog.get_items("data"@),
    }
}

/// A fetched list as it is put aside, before the time is written into it.
pub open spec fn cleaned(
    catalog: JsonView,
    models: Seq<JsonView>,
    version: Seq<char>,
    etag: Option<Seq<char>>,
    now: Moment,
) -> JsonView {
    let clean = catalog.put("models"@, JsonView::Array(models)).without("data"@).without(
        CODEX_OFFICIAL_MODELS_MERGED_KEY@,
    ).without(CODEX_OFFICIAL_BASELINE_STATE_KEY@).without("rejected_fingerprint"@).put(
        "fetched_at"@,
        JsonView::Str(moment::rfc3339_nanos(now.secs, now.nanos)),
    ).put("client_version"@, JsonView::Str(version));
    match etag {
        Some(etag) => if text::is_blank(etag) {
            clean
        } else {
            clean.put("etag"@, JsonView::Str(text::trim(etag)))
        },
        None => clean,
    }
}

/// What is put aside of a list that was fetched from the official service: nothing where this
/// application has written it, where it holds no models, or where the client's version is unknown.
pub open spec fn forwarded(
    catalog: JsonView,
    version: Seq<char>,
    etag: Option<Seq<char>>,
    now: Moment,
) -> Option<JsonView> {
    if models_cache::has_own_etag(catalog) || models_cache::is_merged(catalog) {
        None
    } else {
        match fetched_models(catalog) {
            Some(models) => if models.len() == 0 || text::is_blank(version) {
                None
            } else {
                let clean = cleaned(catalog, models, text::trim(version), etag, now);
                if models_cache::is_official(clean) {
                    Some(captured(clean, now))
                } else {
                    None
                }
            },
            None => None,
        }
    }
}

/// What is put aside of a list that was fetched from the official service.
pub fn capture_forwarded_codex_official_models_baseline(
    catalog: &Json,
    client_version: &str,
    etag: Option<&str>,
    now: &Moment,
) -> (r: Option<Json>)
    requires
        now.valid(),
    ensures
        json::option_view(r) == forwarded(
            catalog@,
            client_version@,
            text::slice_text(etag),
            *now,
        ),
{
    if codex_cache_has_cc_switch_etag(catalog) || is_marked_merged(catalog) {
        return None;
    }
    let models = match catalog.get_array("models") {
        Some(models) => models,
        None => match catalog.get_array("data") {
            Some(models) => models,
            None => {
                return None;
            },
        },
    };
    proof {
        json::lemma_items_view(models@);
    }
    let client_version = client_version.trim();
    if models.is_empty() || client_version.is_empty() {
        return None;
    }
    let mut baseline = catalog.clone();
    baseline.insert("models", Json::Array(copy_items(models)));
    baseline.remove("data");
    baseline.remove(CODEX_OFFICIAL_MODELS_MERGED_KEY);
    baseline.remove(CODEX_OFFICIAL_BASELINE_STATE_KEY);
    baseline.remove("rejected_fingerprint");
    baseline.insert("fetched_at", Json::Str(rfc3339_nanos_text(now)));
    baseline.insert("client_version", Json::string(client_version));
    if let Some(etag) = etag {
        let etag = etag.trim();
        if !etag.is_empty() {
            baseline.insert("etag", Json::string(etag));
        }
    }
    if !codex_cache_is_reliable_official_baseline(&baseline) {
        return None;
    }
    Some(codex_official_baseline_with_capture_time(&baseline, now))
}

/// A note that a list is known and that a newer one is waited for.
pub open spec fn awaiting(cache: JsonView) -> JsonView {
    JsonView::empty_object().put(
        CODEX_OFFICIAL_BASELINE_STATE_KEY@,
        JsonView::Str(CODEX_OFFICIAL_BASELINE_AWAITING_REFRESH@),
    ).put("rejected_fingerprint"@, fingerprint(cache))
}

/// A note that a list is known and that a newer one is waited for.
pub fn codex_awaiting_official_refresh(cache: &Json) -> (r: Json)
    ensures
        r@ == awaiting(cache@),
{
    let mut out = Json::object();
    out.insert(
        CODEX_OFFICIAL_BASELINE_STATE_KEY,
        Json::string(CODEX_OFFICIAL_BASELINE_AWAITING_REFRESH),
    );
    out.insert("rejected_fingerprint", codex_official_cache_fingerprint(cache));
    out
}

/// Whether a file is a note that a newer list is waited for.
pub open spec fn is_awaiting(saved: JsonView) -> bool {
    saved.get_text(CODEX_OFFICIAL_BASELINE_STATE_KEY@) == Some(
        CODEX_OFFICIAL_BASELINE_AWAITING_REFRESH@,
    )
}

/// The official list of models, or that it is waited for.
#[derive(Debug)]
pub enum CodexOfficialBaseline {
    Ready(Json),
    AwaitingRefresh,
}

/// What is known of the official list, and what to write into the file that keeps it.
#[derive(Debug)]
pub struct BaselineStep {
    pub baseline: CodexOfficialBaseline,
    pub write: Option<Json>,
}

/// What a [`BaselineStep`] stands for.
pub struct StepView {
    pub ready: Option<JsonView>,
    pub write: Option<JsonView>,
}

impl BaselineStep {
    pub open spec fn view(&self) -> StepView {
        StepView {
            ready: match self.baseline {
                CodexOfficialBaseline::Ready(cache) => Some(cache@),
                CodexOfficialBaseline::AwaitingRefresh => None,
            },
            write: json::option_view(self.write),
        }
    }
}

/// What is known of the official list by the file that keeps it and by the cache. A list in the
/// cache is taken where it is newer than the one that is known; the one that is known is used as
/// long as it is fresh, and else waited for to be replaced.
pub open spec fn baseline_step(saved: Option<JsonView>, live: JsonView, now: Moment) -> StepView {
    let live_official = models_cache::is_official(live);
    let take = StepView { ready: Some(live), write: Some(captured(live, now)) };
    let wait = StepView {
        ready: None,
        write: if live_official {
            Some(awaiting(live))
        } else {
            None
        },
    };
    match saved {
        None => wait,
        Some(saved) => if models_cache::is_official(saved) {
            if live_official && !json::same(fingerprint(saved), fingerprint(live)) {
                take
            } else {
                match capture_state(saved, now) {
                    CodexOfficialBaselineCaptureState::Missing => StepView {
                        ready: Some(payload(saved)),
                        write: Some(captured(saved, now)),
                    },
                    CodexOfficialBaselineCaptureState::Fresh => StepView {
                        ready: Some(payload(saved)),
                        write: None,
                    },
                    _ => StepView { ready: None, write: Some(awaiting(saved)) },
                }
            }
        } else if is_awaiting(saved) {
            if live_official && !(saved.get("rejected_fingerprint"@) matches Some(rejected)
                && json::same(rejected, fingerprint(live))) {
                take
            } else {
                StepView { ready: None, write: None }
            }
        } else {
            wait
        },
    }
}

/// What is known of the official list, and what to write into the file that keeps it.
pub fn load_or_capture_codex_official_models_baseline(
    saved: Option<&Json>,
    live_cache: &Json,
    now: &Moment,
) -> (r: BaselineStep)
    requires
        now.valid(),
    ensures
        r@ == baseline_step(json::ref_view(saved), live_cache@, *now),
{
    let live_official = codex_cache_is_reliable_official_baseline(live_cache);
    if let Some(saved) = saved {
        if codex_cache_is_reliable_official_baseline(saved) {
            let known = codex_official_cache_fingerprint(saved);
            if live_official && !known.equals(&codex_official_cache_fingerprint(live_cache)) {
                return taken(live_cache, now);
            }
            return match codex_official_baseline_capture_state(saved, now) {
                CodexOfficialBaselineCaptureState::Missing => BaselineStep {
                    baseline: CodexOfficialBaseline::Ready(codex_official_baseline_payload(saved)),
                    write: Some(codex_official_baseline_with_capture_time(saved, now)),
                },
                CodexOfficialBaselineCaptureState::Fresh => BaselineStep {
                    baseline: CodexOfficialBaseline::Ready(codex_official_baseline_payload(saved)),
                    write: None,
                },
                _ => BaselineStep {
                    baseline: CodexOfficialBaseline::AwaitingRefresh,
                    write: Some(codex_awaiting_official_refresh(saved)),
                },
            };
        }
        let waits = match saved.get_str(CODEX_OFFICIAL_BASELINE_STATE_KEY) {
            Some(state) => str_eq(state, CODEX_OFFICIAL_BASELINE_AWAITING_REFRESH),
            None => false,
        };
        if waits {
            let rejected = match saved.get("rejected_fingerprint") {
                Some(rejected) => rejected.equals(&codex_official_cache_fingerprint(live_cache)),
                None => false,
            };
            if live_official && !rejected {
                return taken(live_cache, now);
            }
            return BaselineStep { baseline: CodexOfficialBaseline::AwaitingRefresh, write: None };
        }
    }
    BaselineStep {
        baseline: CodexOfficialBaseline::AwaitingRefresh,
        write: if live_official {
            Some(codex_awaiting_official_refresh(live_cache))
        } else {
            None
        },
    }
}

/// The list in the cache, put aside.
fn taken(live_cache: &Json, now: &Moment) -> (r: BaselineStep)
    requires
        now.valid(),
    ensures
        r@.ready == Some(live_cache@),
        r@.write == Some(captured(live_cache@, *now)),
{
    BaselineStep {
        baseline: CodexOfficialBaseline::Ready(live_cache.clone()),
        write: Some(codex_official_baseline_with_capture_time(live_cache, now)),
    }
}

proof fn lemma_baseline_keys()
    ensures
        "models"@ != CODEX_OFFICIAL_BASELINE_CAPTURED_AT_KEY@,
        "etag"@ != CODEX_OFFICIAL_BASELINE_CAPTURED_AT_KEY@,
        "fetched_at"@ != CODEX_OFFICIAL_BASELINE_CAPTURED_AT_KEY@,
        CODEX_OFFICIAL_MODELS_MERGED_KEY@ != CODEX_OFFICIAL_BASELINE_CAPTURED_AT_KEY@,
        "models"@ != CODEX_OFFICIAL_BASELINE_STATE_KEY@,
        "models"@ != "rejected_fingerprint"@,
        "rejected_fingerprint"@ != CODEX_OFFICIAL_BASELINE_STATE_KEY@,
{
    reveal_strlit("models");
    reveal_strlit("etag");
    reveal_strlit("fetched_at");
    reveal_strlit("rejected_fingerprint");
    reveal_strlit("cc_switch_captured_at");
    reveal_strlit("cc_switch_merged");
    reveal_strlit("cc_switch_state");
    assert("models"@.len() == 6);
    assert("etag"@.len() == 4);
    assert("fetched_at"@.len() == 10);
    assert("rejected_fingerprint"@.len() == 20);
    assert(CODEX_OFFICIAL_BASELINE_CAPTURED_AT_KEY@.len() == 21);
    assert(CODEX_OFFICIAL_MODELS_MERGED_KEY@.len() == 16);
    assert(CODEX_OFFICIAL_BASELINE_STATE_KEY@.len() == 15);
}

/// Putting a list aside does not change what it is told by, and it stays official.
proof fn lemma_captured(cache: JsonView, now: Moment)
    ensures
        fingerprint(captured(cache, now)) == fingerprint(cache),
        fingerprint(payload(cache)) == fingerprint(cache),
        models_cache::is_official(captured(cache, now)) == models_cache::is_official(cache),
        models_cache::is_official(payload(cache)) == models_cache::is_official(cache),
{
    lemma_baseline_keys();
    let saved = captured(cache, now);
    lemma_members_kept(cache, saved, now);
}

/// The members by which a list is judged are those that it had before it was put aside.
proof fn lemma_members_kept(cache: JsonView, saved: JsonView, now: Moment)
    requires
        saved == captured(cache, now),
    ensures
        saved.get("models"@) == cache.get("models"@),
        saved.get("etag"@) == cache.get("etag"@),
        saved.get("fetched_at"@) == cache.get("fetched_at"@),
        saved.get(CODEX_OFFICIAL_MODELS_MERGED_KEY@) == cache.get(
            CODEX_OFFICIAL_MODELS_MERGED_KEY@,
        ),
        payload(cache).get("models"@) == cache.get("models"@),
        payload(cache).get("etag"@) == cache.get("etag"@),
        payload(cache).get("fetched_at"@) == cache.get("fetched_at"@),
        payload(cache).get(CODEX_OFFICIAL_MODELS_MERGED_KEY@) == cache.get(
            CODEX_OFFICIAL_MODELS_MERGED_KEY@,
        ),
{
    lemma_baseline_keys();
}

/// What is used as the official list is one: it holds models, and none of it was written by this
/// application. What is put aside is an official list, or a note that one is waited for.
pub proof fn law_the_baseline_is_official(saved: Option<JsonView>, live: JsonView, now: Moment)
    ensures
        ({
            let step = baseline_step(saved, live, now);
            &&& (step.ready matches Some(list) ==> models_cache::is_official(list))
            &&& (step.write matches Some(file) ==> models_cache::is_official(file) || is_awaiting(
                file,
            ))
            &&& step.ready is Some && step.write is Some ==> models_cache::is_official(
                step.write->Some_0,
            )
        }),
{
    lemma_baseline_keys();
    lemma_captured(live, now);
    match saved {
        Some(saved) => {
            lemma_captured(saved, now);
        },
        None => {},
    }
}

/// What is put aside of a list that was fetched from the official service is an official list.
pub proof fn law_a_forwarded_list_is_official(
    catalog: JsonView,
    version: Seq<char>,
    etag: Option<Seq<char>>,
    now: Moment,
)
    ensures
        forwarded(catalog, version, etag, now) matches Some(file) ==> models_cache::is_official(
            file,
        ),
{
    match fetched_models(catalog) {
        Some(models) => {
            lemma_captured(cleaned(catalog, models, text::trim(version), etag, now), now);
        },
        None => {},
    }
}

/// The first list that is seen is not used: a newer one is waited for. The same list seen again is
/// still waited for; one with another tag or time is taken.
pub proof fn law_a_first_list_waits_for_a_newer_one(first: JsonView, next: JsonView, now: Moment)
    requires
        models_cache::is_official(first),
        models_cache::is_official(next),
    ensures
        ({
            let seen = baseline_step(None, first, now);
            let then = baseline_step(seen.write, next, now);
            &&& seen.ready is None
            &&& json::same(fingerprint(first), fingerprint(next)) ==> then == (StepView {
                ready: None,
                write: None,
            })
            &&& !json::same(fingerprint(first), fingerprint(next)) ==> then == (StepView {
                ready: Some(next),
                write: Some(captured(next, now)),
            })
        }),
{
    lemma_baseline_keys();
    let file = awaiting(first);
    assert(file.get("models"@) is None);
    assert(file.get("rejected_fingerprint"@) == Some(fingerprint(first)));
    assert(file.get(CODEX_OFFICIAL_BASELINE_STATE_KEY@) == Some(
        JsonView::Str(CODEX_OFFICIAL_BASELINE_AWAITING_REFRESH@),
    ));
}

/// A list that was put aside and is too old, or whose time cannot be right, is not used again: only
/// one that differs from it is.
pub proof fn law_an_old_list_is_not_used_again(saved: JsonView, now: Moment, later: Moment)
    requires
        models_cache::is_official(saved),
        capture_state(saved, now) is Expired || capture_state(saved, now) is Invalid,
    ensures
        ({
            let seen = baseline_step(Some(saved), saved, now);
            &&& seen.ready is None
            &&& seen.write is Some
            &&& baseline_step(seen.write, saved, later) == (StepView { ready: None, write: None })
        }),
{
    lemma_baseline_keys();
    let file = awaiting(saved);
    assert(file.get("models"@) is None);
    assert(file.get("rejected_fingerprint"@) == Some(fingerprint(saved)));
    assert(file.get(CODEX_OFFICIAL_BASELINE_STATE_KEY@) == Some(
        JsonView::Str(CODEX_OFFICIAL_BASELINE_AWAITING_REFRESH@),
    ));
}

} // verus!
