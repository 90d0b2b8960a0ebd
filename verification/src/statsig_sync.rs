//! Bringing the cached evaluations of the desktop application in line with the models of a provider.

use crate::json::{Json, JsonView};
use crate::statsig_codec::{
    decode_codex_desktop_statsig_wrapper, encode_codex_desktop_statsig_wrapper, StoredValue,
    StoredView,
};
use crate::statsig_models::{
    codex_desktop_statsig_available_model_ids, codex_desktop_statsig_has_all_models,
    codex_desktop_statsig_has_only_models_config, merge_codex_desktop_statsig_available_models,
};
use crate::statsig_pins::{
    codex_desktop_leveldb_origin_for_marker, codex_desktop_statsig_cache_key_from_leveldb_key,
    pin_codex_desktop_statsig_last_modified_cache_keys,
    unpin_codex_desktop_statsig_last_modified_cache_keys, CODEX_DESKTOP_STATSIG_CACHE_KEY_MARKER,
    CODEX_DESKTOP_STATSIG_LAST_MODIFIED_KEY_MARKER,
};
use crate::text::str_eq;
use crate::{statsig_codec, statsig_models, statsig_pins, text};
use vstd::prelude::*;
use vstd::string::*;

verus! {

/// An entry of the storage: its key and its value.
#[derive(Debug)]
pub struct RawEntry {
    pub key: Vec<u8>,
    pub value: Vec<u8>,
}

/// What a [`RawEntry`] stands for.
pub struct RawView {
    pub key: Seq<u8>,
    pub value: Seq<u8>,
}

impl RawEntry {
    pub open spec fn view(&self) -> RawView {
        RawView { key: self.key@, value: self.value@ }
    }
}

/// What some entries stand for.
pub open spec fn raw_view(entries: Seq<RawEntry>) -> Seq<RawView> {
    entries.map_values(|e: RawEntry| e.view())
}

/// What is done about the times of cached values.
#[derive(Debug, Clone, Copy, PartialEq, Eq, Structural)]
pub enum CodexDesktopCachePinPolicy {
    /// They are set as the models need it.
    Reconcile,
    /// They stay as they are.
    Preserve,
}

/// The text of some bytes, with a replacement character for what is not UTF-8.
pub uninterp spec fn lossy_text(bytes: Seq<u8>) -> Seq<char>;

/// `String::from_utf8_lossy` gives the text of some bytes; where they are UTF-8, the one that they
/// stand for.
#[verifier::external_body]
fn text_of_bytes(bytes: &Vec<u8>) -> (r: String)
    ensures
        r@ == lossy_text(bytes@),
        vstd::utf8::valid_utf8(bytes@) ==> r@ == vstd::utf8::decode_utf8(bytes@),
{
    String::from_utf8_lossy(bytes).to_string()
}

/// What is known of a cached value that holds evaluations: whose it is and what it is called,
/// whether it holds the list of models, and nothing else; whether it has to be written, and as what;
/// and whether it then lists all models.
pub struct RecordView {
    pub key: Seq<u8>,
    pub origin: Seq<char>,
    pub name: Seq<char>,
    pub has_models: bool,
    pub isolated: bool,
    pub update: Option<Seq<u8>>,
    pub complete: bool,
}

/// What is known of an entry, where it holds evaluations.
pub open spec fn record_of(entry: RawView, ids: Seq<Seq<char>>) -> Option<RecordView> {
    let key = lossy_text(entry.key);
    let marker = CODEX_DESKTOP_STATSIG_CACHE_KEY_MARKER@;
    match (
        statsig_pins::origin_of(key, marker),
        statsig_pins::name_from(key, marker),
        statsig_codec::decoded(entry.value),
    ) {
        (Some(origin), Some(name), Some(stored)) => {
            let has_models = statsig_models::available_ids(stored.value) is Some;
            let after = statsig_models::merged(stored.value, ids);
            Some(
                RecordView {
                    key: entry.key,
                    origin,
                    name,
                    has_models,
                    isolated: has_models && statsig_models::is_isolated(stored.value),
                    update: if statsig_models::merge_changes(stored.value, ids) {
                        Some(statsig_codec::encoded(stored.prefix, stored.encoding, after))
                    } else {
                        None
                    },
                    complete: ids.len() > 0 && statsig_models::has_all(after, ids),
                },
            )
        },
        _ => None,
    }
}

/// What is known of the entries that hold evaluations.
pub open spec fn records_of(entries: Seq<RawView>, ids: Seq<Seq<char>>) -> Seq<RecordView>
    decreases entries.len(),
{
    if entries.len() == 0 {
        Seq::empty()
    } else {
        let front = records_of(entries.drop_last(), ids);
        match record_of(entries.last(), ids) {
            Some(record) => front.push(record),
            None => front,
        }
    }
}

/// What is written of the values with evaluations.
pub open spec fn record_updates(records: Seq<RecordView>) -> Seq<RawView>
    decreases records.len(),
{
    if records.len() == 0 {
        Seq::empty()
    } else {
        let front = record_updates(records.drop_last());
        match records.last().update {
            Some(value) => front.push(RawView { key: records.last().key, value }),
            None => front,
        }
    }
}

/// Whether the time of a value is put back: with models, where it holds more than their list, as
/// the rest would be kept back with it; without, for every list of models.
pub open spec fn is_unpinned(record: RecordView, ids_empty: bool) -> bool {
    record.has_models && (ids_empty || !record.isolated)
}

/// Whether the time of a value is put into the future: where it lists all models and nothing else.
pub open spec fn is_pinned(record: RecordView) -> bool {
    record.complete && record.isolated
}

/// The names of the values of an origin whose times are put back.
pub open spec fn unpinned_names(
    records: Seq<RecordView>,
    origin: Seq<char>,
    ids_empty: bool,
) -> Seq<Seq<char>>
    decreases records.len(),
{
    if records.len() == 0 {
        Seq::empty()
    } else {
        let front = unpinned_names(records.drop_last(), origin, ids_empty);
        if records.last().origin == origin && is_unpinned(records.last(), ids_empty) {
            front.push(records.last().name)
        } else {
            front
        }
    }
}

/// The names of the values of an origin whose times are put into the future.
pub open spec fn pinned_names(records: Seq<RecordView>, origin: Seq<char>) -> Seq<Seq<char>>
    decreases records.len(),
{
    if records.len() == 0 {
        Seq::empty()
    } else {
        let front = pinned_names(records.drop_last(), origin);
        if records.last().origin == origin && is_pinned(records.last()) {
            front.push(records.last().name)
        } else {
            front
        }
    }
}

/// What becomes of times: what is written, where something is, and whether the values whose times
/// were put into the future are now safe.
pub struct TimesView {
    pub origin: Seq<char>,
    pub update: Option<RawView>,
    pub ready: bool,
}

/// Whether all of some times are in the future.
pub open spec fn all_future(times: JsonView, names: Seq<Seq<char>>, now: i64) -> bool {
    forall|i: int|
        0 <= i < names.len() ==> statsig_pins::is_future(times, #[trigger] names[i], now)
}

/// What becomes of the times of an origin.
pub open spec fn times_after(
    entry: RawView,
    origin: Seq<char>,
    stored: StoredView,
    records: Seq<RecordView>,
    ids_empty: bool,
    now: i64,
) -> TimesView {
    let back = unpinned_names(records, origin, ids_empty);
    let ahead = pinned_names(records, origin);
    let first = statsig_pins::unpinned(stored.value, back, now);
    let second = statsig_pins::pinned(first, ahead, now);
    TimesView {
        origin,
        update: if statsig_pins::unpin_changes(stored.value, back, now)
            || statsig_pins::pin_changes(first, ahead, now) {
            Some(
                RawView {
                    key: entry.key,
                    value: statsig_codec::encoded(stored.prefix, stored.encoding, second),
                },
            )
        } else {
            None
        },
        ready: ahead.len() > 0 && all_future(second, ahead, now),
    }
}

/// What becomes of an entry, where it holds times.
pub open spec fn times_of(
    entry: RawView,
    records: Seq<RecordView>,
    ids_empty: bool,
    now: i64,
) -> Option<TimesView> {
    match (
        statsig_pins::origin_of(
            lossy_text(entry.key),
            CODEX_DESKTOP_STATSIG_LAST_MODIFIED_KEY_MARKER@,
        ),
        statsig_codec::decoded(entry.value),
    ) {
        (Some(origin), Some(stored)) => Some(
            times_after(entry, origin, stored, records, ids_empty, now),
        ),
        _ => None,
    }
}

/// What becomes of the entries that hold times.
pub open spec fn all_times(
    entries: Seq<RawView>,
    records: Seq<RecordView>,
    ids_empty: bool,
    now: i64,
) -> Seq<TimesView>
    decreases entries.len(),
{
    if entries.len() == 0 {
        Seq::empty()
    } else {
        let front = all_times(entries.drop_last(), records, ids_empty, now);
        match times_of(entries.last(), records, ids_empty, now) {
            Some(times) => front.push(times),
            None => front,
        }
    }
}

/// What is written of the times.
pub open spec fn times_updates(times: Seq<TimesView>) -> Seq<RawView>
    decreases times.len(),
{
    if times.len() == 0 {
        Seq::empty()
    } else {
        let front = times_updates(times.drop_last());
        match times.last().update {
            Some(update) => front.push(update),
            None => front,
        }
    }
}

/// Whether an origin has times that are safe.
pub open spec fn is_ready(times: Seq<TimesView>, origin: Seq<char>) -> bool {
    exists|k: int|
        0 <= k < times.len() && (#[trigger] times[k]).ready && times[k].origin == origin
}

/// Whether there is a list of models, and each origin with one has times that are safe.
pub open spec fn all_ready(records: Seq<RecordView>, times: Seq<TimesView>) -> bool {
    &&& exists|i: int| 0 <= i < records.len() && (#[trigger] records[i]).has_models
    &&& forall|i: int|
        0 <= i < records.len() && (#[trigger] records[i]).has_models ==> is_ready(
            times,
            records[i].origin,
        )
}

/// Whether a list of models stands next to other evaluations.
pub open spec fn has_shared(records: Seq<RecordView>) -> bool {
    exists|i: int|
        0 <= i < records.len() && (#[trigger] records[i]).has_models && !records[i].isolated
}

/// What is written into a storage, and how things stand then.
#[derive(Debug)]
pub struct PathPlan {
    pub updates: Vec<RawEntry>,
    pub ready_model_cache: bool,
    pub requires_short_retry: bool,
}

/// What a [`PathPlan`] stands for.
pub struct PathPlanView {
    pub updates: Seq<RawView>,
    pub ready_model_cache: bool,
    pub requires_short_retry: bool,
}

impl PathPlan {
    pub open spec fn view(&self) -> PathPlanView {
        PathPlanView {
            updates: raw_view(self.updates@),
            ready_model_cache: self.ready_model_cache,
            requires_short_retry: self.requires_short_retry,
        }
    }
}

/// What is written into a storage so that it lists some models.
pub open spec fn path_plan(
    entries: Seq<RawView>,
    ids: Seq<Seq<char>>,
    policy: CodexDesktopCachePinPolicy,
    now: i64,
) -> PathPlanView {
    let records = records_of(entries, ids);
    let times = if policy == CodexDesktopCachePinPolicy::Preserve {
        Seq::empty()
    } else {
        all_times(entries, records, ids.len() == 0, now)
    };
    PathPlanView {
        updates: record_updates(records) + times_updates(times),
        ready_model_cache: all_ready(records, times),
        requires_short_retry: ids.len() > 0 && has_shared(records),
    }
}

/// What is known of a cached value that holds evaluations.
struct CacheRecord {
    key: Vec<u8>,
    origin: String,
    name: String,
    has_models: bool,
    isolated: bool,
    update: Option<Vec<u8>>,
    complete: bool,
}

impl CacheRecord {
    spec fn view(&self) -> RecordView {
        RecordView {
            key: self.key@,
            origin: self.origin@,
            name: self.name@,
            has_models: self.has_models,
            isolated: self.isolated,
            update: match self.update {
                Some(update) => Some(update@),
                None => None,
            },
            complete: self.complete,
        }
    }
}

/// What some records stand for.
spec fn records_view(records: Seq<CacheRecord>) -> Seq<RecordView> {
    records.map_values(|r: CacheRecord| r.view())
}

/// A copy of some bytes.
fn copy_bytes(bytes: &Vec<u8>) -> (r: Vec<u8>)
    ensures
        r@ == bytes@,
{
    let mut out: Vec<u8> = Vec::new();
    let mut i: usize = 0;
    while i < bytes.len()
        invariant
            i <= bytes@.len(),
            out@ =~= bytes@.take(i as int),
        decreases bytes@.len() - i,
    {
        out.push(bytes[i]);
        i += 1;
    }
    assert(out@ =~= bytes@);
    out
}

/// What is known of an entry, where it holds evaluations.
fn read_record(entry: &RawEntry, ids: &Vec<String>) -> (r: Option<CacheRecord>)
    ensures
        match r {
            Some(record) => record_of(entry@, text::texts(ids@)) == Some(record.view()),
            None => record_of(entry@, text::texts(ids@)) is None,
        },
{
    let key_text = text_of_bytes(&entry.key);
    let origin = match codex_desktop_leveldb_origin_for_marker(
        key_text.as_str(),
        CODEX_DESKTOP_STATSIG_CACHE_KEY_MARKER,
    ) {
        Some(origin) => origin,
        None => {
            return None;
        },
    };
    let name = match codex_desktop_statsig_cache_key_from_leveldb_key(key_text.as_str()) {
        Some(name) => name,
        None => {
            return None;
        },
    };
    let stored = match decode_codex_desktop_statsig_wrapper(&entry.value) {
        Some(stored) => stored,
        None => {
            return None;
        },
    };
    let StoredValue { prefix, encoding, value } = stored;
    let has_models = codex_desktop_statsig_available_model_ids(&value).is_some();
    let isolated = has_models && codex_desktop_statsig_has_only_models_config(&value);
    let mut wrapper = value;
    let changed = merge_codex_desktop_statsig_available_models(&mut wrapper, ids);
    let complete = !ids.is_empty() && codex_desktop_statsig_has_all_models(&wrapper, ids);
    let update = if changed {
        Some(encode_codex_desktop_statsig_wrapper(prefix, encoding, &wrapper))
    } else {
        None
    };
    assert(text::texts(ids@).len() == ids@.len());
    Some(
        CacheRecord {
            key: copy_bytes(&entry.key),
            origin,
            name,
            has_models,
            isolated,
            update,
            complete,
        },
    )
}

/// What is known of the entries that hold evaluations.
fn read_records(entries: &Vec<RawEntry>, ids: &Vec<String>) -> (r: Vec<CacheRecord>)
    ensures
        records_view(r@) == records_of(raw_view(entries@), text::texts(ids@)),
{
    let ghost views = raw_view(entries@);
    let mut out: Vec<CacheRecord> = Vec::new();
    let mut i: usize = 0;
    assert(records_view(out@) =~= Seq::<RecordView>::empty());
    while i < entries.len()
        invariant
            i <= entries@.len(),
            views == raw_view(entries@),
            records_view(out@) == records_of(views.take(i as int), text::texts(ids@)),
        decreases entries@.len() - i,
    {
        proof {
            assert(views.take(i + 1).drop_last() =~= views.take(i as int));
            assert(views.take(i + 1).last() == entries@[i as int]@);
        }
        if let Some(record) = read_record(&entries[i], ids) {
            let ghost before = records_view(out@);
            out.push(record);
            assert(records_view(out@) =~= before.push(record.view()));
        }
        i += 1;
    }
    assert(views.take(i as int) =~= views);
    out
}

/// The names of the values of an origin whose times are put back.
fn names_to_unpin(records: &Vec<CacheRecord>, origin: &str, ids_empty: bool) -> (r: Vec<String>)
    ensures
        text::texts(r@) == unpinned_names(records_view(records@), origin@, ids_empty),
{
    let ghost views = records_view(records@);
    let mut out: Vec<String> = Vec::new();
    let mut i: usize = 0;
    assert(text::texts(out@) =~= Seq::<Seq<char>>::empty());
    while i < records.len()
        invariant
            i <= records@.len(),
            views == records_view(records@),
            text::texts(out@) == unpinned_names(views.take(i as int), origin@, ids_empty),
        decreases records@.len() - i,
    {
        proof {
            assert(views.take(i + 1).drop_last() =~= views.take(i as int));
            assert(views.take(i + 1).last() == records@[i as int].view());
        }
        if str_eq(records[i].origin.as_str(), origin) && records[i].has_models && (ids_empty
            || !records[i].isolated) {
            let ghost before = text::texts(out@);
            out.push(records[i].name.clone());
            assert(text::texts(out@) =~= before.push(records@[i as int].name@));
        }
        i += 1;
    }
    assert(views.take(i as int) =~= views);
    out
}

/// The names of the values of an origin whose times are put into the future.
fn names_to_pin(records: &Vec<CacheRecord>, origin: &str) -> (r: Vec<String>)
    ensures
        text::texts(r@) == pinned_names(records_view(records@), origin@),
{
    let ghost views = records_view(records@);
    let mut out: Vec<String> = Vec::new();
    let mut i: usize = 0;
    assert(text::texts(out@) =~= Seq::<Seq<char>>::empty());
    while i < records.len()
        invariant
            i <= records@.len(),
            views == records_view(records@),
            text::texts(out@) == pinned_names(views.take(i as int), origin@),
        decreases records@.len() - i,
    {
        proof {
            assert(views.take(i + 1).drop_last() =~= views.take(i as int));
            assert(views.take(i + 1).last() == records@[i as int].view());
        }
        if str_eq(records[i].origin.as_str(), origin) && records[i].complete
            && records[i].isolated {
            let ghost before = text::texts(out@);
            out.push(records[i].name.clone());
            assert(text::texts(out@) =~= before.push(records@[i as int].name@));
        }
        i += 1;
    }
    assert(views.take(i as int) =~= views);
    out
}

/// Whether all of some times are in the future.
fn are_all_future(times: &Json, names: &Vec<String>, now: i64) -> (r: bool)
    ensures
        r == all_future(times@, text::texts(names@), now),
{
    let ghost views = text::texts(names@);
    let mut i: usize = 0;
    while i < names.len()
        invariant
            i <= names@.len(),
            views == text::texts(names@),
            forall|j: int|
                0 <= j < i ==> statsig_pins::is_future(times@, #[trigger] views[j], now),
        decreases names@.len() - i,
    {
        assert(views[i as int] == names@[i as int]@);
        let future = match times.get(names[i].as_str()) {
            Some(value) => match value.as_i64() {
                Some(time) => time > now,
                None => false,
            },
            None => false,
        };
        if !future {
            return false;
        }
        i += 1;
    }
    true
}

/// What becomes of times.
struct TimesStep {
    origin: String,
    update: Option<RawEntry>,
    ready: bool,
}

impl TimesStep {
    spec fn view(&self) -> TimesView {
        TimesView {
            origin: self.origin@,
            update: match self.update {
                Some(update) => Some(update@),
                None => None,
            },
            ready: self.ready,
        }
    }
}

/// What some steps stand for.
spec fn steps_view(steps: Seq<TimesStep>) -> Seq<TimesView> {
    steps.map_values(|s: TimesStep| s.view())
}

/// What becomes of an entry, where it holds times.
fn read_times(entry: &RawEntry, records: &Vec<CacheRecord>, ids_empty: bool, now: i64) -> (r: Option<
    TimesStep,
>)
    ensures
        match r {
            Some(step) => times_of(entry@, records_view(records@), ids_empty, now) == Some(
                step.view(),
            ),
            None => times_of(entry@, records_view(records@), ids_empty, now) is None,
        },
{
    let key_text = text_of_bytes(&entry.key);
    let origin = match codex_desktop_leveldb_origin_for_marker(
        key_text.as_str(),
        CODEX_DESKTOP_STATSIG_LAST_MODIFIED_KEY_MARKER,
    ) {
        Some(origin) => origin,
        None => {
            return None;
        },
    };
    let stored = match decode_codex_desktop_statsig_wrapper(&entry.value) {
        Some(stored) => stored,
        None => {
            return None;
        },
    };
    let StoredValue { prefix, encoding, value } = stored;
    let back = names_to_unpin(records, origin.as_str(), ids_empty);
    let ahead = names_to_pin(records, origin.as_str());
    let mut times = value;
    let put_back = unpin_codex_desktop_statsig_last_modified_cache_keys(&mut times, &back, now);
    let put_ahead = pin_codex_desktop_statsig_last_modified_cache_keys(&mut times, &ahead, now);
    let ready = !ahead.is_empty() && are_all_future(&times, &ahead, now);
    assert(text::texts(ahead@).len() == ahead@.len());
    let update = if put_back || put_ahead {
        Some(
            RawEntry {
                key: copy_bytes(&entry.key),
                value: encode_codex_desktop_statsig_wrapper(prefix, encoding, &times),
            },
        )
    } else {
        None
    };
    Some(TimesStep { origin, update, ready })
}

/// What becomes of the entries that hold times.
fn read_all_times(
    entries: &Vec<RawEntry>,
    records: &Vec<CacheRecord>,
    ids_empty: bool,
    now: i64,
) -> (r: Vec<TimesStep>)
    ensures
        steps_view(r@) == all_times(raw_view(entries@), records_view(records@), ids_empty, now),
{
    let ghost views = raw_view(entries@);
    let mut out: Vec<TimesStep> = Vec::new();
    let mut i: usize = 0;
    assert(steps_view(out@) =~= Seq::<TimesView>::empty());
    while i < entries.len()
        invariant
            i <= entries@.len(),
            views == raw_view(entries@),
            steps_view(out@) == all_times(
                views.take(i as int),
                records_view(records@),
                ids_empty,
                now,
            ),
        decreases entries@.len() - i,
    {
        proof {
            assert(views.take(i + 1).drop_last() =~= views.take(i as int));
            assert(views.take(i + 1).last() == entries@[i as int]@);
        }
        if let Some(step) = read_times(&entries[i], records, ids_empty, now) {
            let ghost before = steps_view(out@);
            out.push(step);
            assert(steps_view(out@) =~= before.push(step.view()));
        }
        i += 1;
    }
    assert(views.take(i as int) =~= views);
    out
}

/// Whether an origin has times that are safe.
fn is_origin_ready(steps: &Vec<TimesStep>, origin: &str) -> (r: bool)
    ensures
        r == is_ready(steps_view(steps@), origin@),
{
    let ghost views = steps_view(steps@);
    let mut k: usize = 0;
    while k < steps.len()
        invariant
            k <= steps@.len(),
            views == steps_view(steps@),
            forall|j: int|
                0 <= j < k ==> !((#[trigger] views[j]).ready && views[j].origin == origin@),
        decreases steps@.len() - k,
    {
        assert(views[k as int] == steps@[k as int].view());
        if steps[k].ready && str_eq(steps[k].origin.as_str(), origin) {
            return true;
        }
        k += 1;
    }
    false
}

/// Whether there is a list of models, and each origin with one has times that are safe.
fn are_all_ready(records: &Vec<CacheRecord>, steps: &Vec<TimesStep>) -> (r: bool)
    ensures
        r == all_ready(records_view(records@), steps_view(steps@)),
{
    let ghost views = records_view(records@);
    let mut found = false;
    let mut i: usize = 0;
    while i < records.len()
        invariant
            i <= records@.len(),
            views == records_view(records@),
            found <==> exists|j: int| 0 <= j < i && (#[trigger] views[j]).has_models,
            forall|j: int|
                0 <= j < i && (#[trigger] views[j]).has_models ==> is_ready(
                    steps_view(steps@),
                    views[j].origin,
                ),
        decreases records@.len() - i,
    {
        assert(views[i as int] == records@[i as int].view());
        if records[i].has_models {
            if !is_origin_ready(steps, records[i].origin.as_str()) {
                return false;
            }
            found = true;
        }
        i += 1;
    }
    found
}

/// Whether a list of models stands next to other evaluations.
fn is_any_shared(records: &Vec<CacheRecord>) -> (r: bool)
    ensures
        r == has_shared(records_view(records@)),
{
    let ghost views = records_view(records@);
    let mut i: usize = 0;
    while i < records.len()
        invariant
            i <= records@.len(),
            views == records_view(records@),
            forall|j: int|
                0 <= j < i ==> !((#[trigger] views[j]).has_models && !views[j].isolated),
        decreases records@.len() - i,
    {
        assert(views[i as int] == records@[i as int].view());
        if records[i].has_models && !records[i].isolated {
            return true;
        }
        i += 1;
    }
    false
}

/// Adds what is written of the values with evaluations.
fn push_record_updates(out: &mut Vec<RawEntry>, records: &Vec<CacheRecord>)
    ensures
        raw_view(final(out)@) == raw_view(old(out)@) + record_updates(records_view(records@)),
{
    let ghost before = raw_view(out@);
    let ghost views = records_view(records@);
    let mut i: usize = 0;
    assert(before + Seq::<RawView>::empty() =~= before);
    while i < records.len()
        invariant
            i <= records@.len(),
            views == records_view(records@),
            raw_view(out@) == before + record_updates(views.take(i as int)),
        decreases records@.len() - i,
    {
        proof {
            assert(views.take(i + 1).drop_last() =~= views.take(i as int));
            assert(views.take(i + 1).last() == records@[i as int].view());
        }
        if let Some(update) = &records[i].update {
            let ghost so_far = raw_view(out@);
            let entry = RawEntry { key: copy_bytes(&records[i].key), value: copy_bytes(update) };
            out.push(entry);
            assert(raw_view(out@) =~= so_far.push(entry@));
            assert(so_far.push(entry@) =~= before + record_updates(views.take(i as int)).push(
                entry@,
            ));
        }
        i += 1;
    }
    assert(views.take(i as int) =~= views);
}

/// Adds what is written of the times.
fn push_times_updates(out: &mut Vec<RawEntry>, steps: &Vec<TimesStep>)
    ensures
        raw_view(final(out)@) == raw_view(old(out)@) + times_updates(steps_view(steps@)),
{
    let ghost before = raw_view(out@);
    let ghost views = steps_view(steps@);
    let mut i: usize = 0;
    assert(before + Seq::<RawView>::empty() =~= before);
    while i < steps.len()
        invariant
            i <= steps@.len(),
            views == steps_view(steps@),
            raw_view(out@) == before + times_updates(views.take(i as int)),
        decreases steps@.len() - i,
    {
        proof {
            assert(views.take(i + 1).drop_last() =~= views.take(i as int));
            assert(views.take(i + 1).last() == steps@[i as int].view());
        }
        if let Some(update) = &steps[i].update {
            let ghost so_far = raw_view(out@);
            let entry = RawEntry { key: copy_bytes(&update.key), value: copy_bytes(&update.value) };
            out.push(entry);
            assert(raw_view(out@) =~= so_far.push(entry@));
            assert(so_far.push(entry@) =~= before + times_updates(views.take(i as int)).push(
                entry@,
            ));
        }
        i += 1;
    }
    assert(views.take(i as int) =~= views);
}

/// What is written into a storage so that it lists some models, and how things stand then. Each
/// value with a list of models gets them, in the place of those that were put there before. The
/// time of a value that then holds all of them, and nothing but the list, is put into the future;
/// that of one that holds more is put back.
pub fn sync_codex_desktop_available_models_cache_path_with_mode(
    entries: &Vec<RawEntry>,
    model_ids: &Vec<String>,
    policy: CodexDesktopCachePinPolicy,
    now: i64,
) -> (r: PathPlan)
    ensures
        r@ == path_plan(raw_view(entries@), text::texts(model_ids@), policy, now),
{
    let records = read_records(entries, model_ids);
    let steps = if policy == CodexDesktopCachePinPolicy::Preserve {
        let none: Vec<TimesStep> = Vec::new();
        assert(steps_view(none@) =~= Seq::<TimesView>::empty());
        none
    } else {
        assert(text::texts(model_ids@).len() == model_ids@.len());
        read_all_times(entries, &records, model_ids.is_empty(), now)
    };
    let mut updates: Vec<RawEntry> = Vec::new();
    assert(raw_view(updates@) =~= Seq::<RawView>::empty());
    push_record_updates(&mut updates, &records);
    push_times_updates(&mut updates, &steps);
    proof {
        let first = record_updates(records_view(records@));
        assert(Seq::<RawView>::empty() + first =~= first);
        assert(text::texts(model_ids@).len() == model_ids@.len());
    }
    PathPlan {
        updates,
        ready_model_cache: are_all_ready(&records, &steps),
        requires_short_retry: !model_ids.is_empty() && is_any_shared(&records),
    }
}

/// Where no models are wanted no time is put into the future.
proof fn lemma_no_pins(records: Seq<RecordView>, entries: Seq<RawView>, origin: Seq<char>)
    requires
        records == records_of(entries, Seq::empty()),
    ensures
        pinned_names(records, origin).len() == 0,
    decreases entries.len(),
{
    if entries.len() > 0 {
        let front = records_of(entries.drop_last(), Seq::empty());
        lemma_no_pins(front, entries.drop_last(), origin);
        match record_of(entries.last(), Seq::empty()) {
            Some(record) => {
                assert(records.drop_last() =~= front);
                assert(records.last() == record);
            },
            None => {},
        }
    }
}

/// A value that holds more than the list of models is never kept from being replaced: the
/// evaluations next to the list would not be brought up to date.
pub proof fn law_shared_values_are_not_pinned(records: Seq<RecordView>, origin: Seq<char>, i: int)
    requires
        0 <= i < pinned_names(records, origin).len(),
    ensures
        exists|k: int|
            0 <= k < records.len() && (#[trigger] records[k]).isolated && records[k].complete
                && records[k].name == pinned_names(records, origin)[i],
    decreases records.len(),
{
    let front = records.drop_last();
    let names = pinned_names(front, origin);
    if i < names.len() {
        law_shared_values_are_not_pinned(front, origin, i);
        let k = choose|k: int|
            0 <= k < front.len() && (#[trigger] front[k]).isolated && front[k].complete
                && front[k].name == names[i];
        assert(records[k] == front[k]);
    } else {
        assert(records[records.len() - 1] == records.last());
    }
}

/// Without models to list nothing is kept from being replaced: no time of the storage counts as
/// safe.
pub proof fn law_nothing_is_pinned_without_models(
    entries: Seq<RawView>,
    policy: CodexDesktopCachePinPolicy,
    now: i64,
)
    ensures
        !path_plan(entries, Seq::empty(), policy, now).ready_model_cache,
        !path_plan(entries, Seq::empty(), policy, now).requires_short_retry,
{
    let records = records_of(entries, Seq::empty());
    let times = if policy == CodexDesktopCachePinPolicy::Preserve {
        Seq::empty()
    } else {
        all_times(entries, records, true, now)
    };
    assert forall|origin: Seq<char>| !is_ready(times, origin) by {
        lemma_not_ready(entries, entries, records, now);
        if is_ready(times, origin) {
            let k = choose|k: int|
                0 <= k < times.len() && (#[trigger] times[k]).ready && times[k].origin == origin;
            assert(!(policy is Preserve));
        }
    }
}

proof fn lemma_not_ready(
    entries: Seq<RawView>,
    all: Seq<RawView>,
    records: Seq<RecordView>,
    now: i64,
)
    requires
        records == records_of(all, Seq::empty()),
    ensures
        forall|k: int|
            0 <= k < all_times(entries, records, true, now).len() ==> !(#[trigger] all_times(
                entries,
                records,
                true,
                now,
            )[k]).ready,
    decreases entries.len(),
{
    if entries.len() > 0 {
        let front = all_times(entries.drop_last(), records, true, now);
        lemma_not_ready(entries.drop_last(), all, records, now);
        match times_of(entries.last(), records, true, now) {
            Some(times) => {
                lemma_no_pins(records, all, times.origin);
            },
            None => {},
        }
    }
}

} // verus!
