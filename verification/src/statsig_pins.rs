//! The times that tell the desktop application which of its cached values are new.

use crate::json::{Json, JsonView};
use crate::text::{chars_of, string_of};
use crate::text;
use vstd::prelude::*;
use vstd::string::*;

verus! {

/// What the keys of cached evaluations hold.
pub const CODEX_DESKTOP_STATSIG_CACHE_KEY_MARKER: &'static str = "statsig.cached.evaluations";

/// What the keys of the times of cached evaluations hold.
pub const CODEX_DESKTOP_STATSIG_LAST_MODIFIED_KEY_MARKER: &'static str = "statsig.last_modified_time.evaluations";

/// So many milliseconds a value is kept from being replaced.
pub const CODEX_DESKTOP_STATSIG_PIN_HORIZON_MILLIS: i64 = 2_592_000_000;

/// Until when a value is kept from being replaced.
pub open spec fn pinned_until(now: i64) -> i64 {
    if now > i64::MAX - CODEX_DESKTOP_STATSIG_PIN_HORIZON_MILLIS {
        i64::MAX
    } else {
        (now + CODEX_DESKTOP_STATSIG_PIN_HORIZON_MILLIS) as i64
    }
}

/// The time of a value, where there is one.
pub open spec fn time_of(times: JsonView, key: Seq<char>) -> Option<i64> {
    match times.get(key) {
        Some(value) => value.integer(),
        None => None,
    }
}

/// Times with some of them set to another.
pub open spec fn with_times(times: JsonView, keys: Seq<Seq<char>>, until: i64) -> JsonView
    decreases keys.len(),
{
    if keys.len() == 0 {
        times
    } else {
        let front = with_times(times, keys.drop_last(), until);
        if time_of(front, keys.last()) == Some(until) {
            front
        } else {
            front.put(keys.last(), JsonView::of_integer(until))
        }
    }
}

/// Times of some values, put into the future.
pub open spec fn pinned(times: JsonView, keys: Seq<Seq<char>>, now: i64) -> JsonView {
    with_times(times, keys, pinned_until(now))
}

/// Whether one of some times is not what it is set to.
pub open spec fn pin_changes(times: JsonView, keys: Seq<Seq<char>>, now: i64) -> bool {
    times is Object && exists|i: int|
        0 <= i < keys.len() && time_of(times, #[trigger] keys[i]) != Some(pinned_until(now))
}

/// Times of some values, those in the future put back to now.
pub open spec fn unpinned(times: JsonView, keys: Seq<Seq<char>>, now: i64) -> JsonView
    decreases keys.len(),
{
    if keys.len() == 0 {
        times
    } else {
        let front = unpinned(times, keys.drop_last(), now);
        if is_future(front, keys.last(), now) {
            front.put(keys.last(), JsonView::of_integer(now))
        } else {
            front
        }
    }
}

/// Whether the time of a value is in the future.
pub open spec fn is_future(times: JsonView, key: Seq<char>, now: i64) -> bool {
    time_of(times, key) matches Some(time) && time > now
}

/// Whether one of some times is in the future.
pub open spec fn unpin_changes(times: JsonView, keys: Seq<Seq<char>>, now: i64) -> bool {
    exists|i: int| 0 <= i < keys.len() && is_future(times, #[trigger] keys[i], now)
}

/// The time of a value, where there is one.
fn get_time(times: &Json, key: &str) -> (r: Option<i64>)
    ensures
        r == time_of(times@, key@),
{
    match times.get(key) {
        Some(value) => value.as_i64(),
        None => None,
    }
}

/// A time that was set is found, and the others stay.
proof fn lemma_with_times(times: JsonView, keys: Seq<Seq<char>>, until: i64, key: Seq<char>)
    ensures
        times is Object == with_times(times, keys, until) is Object,
        times is Object && keys.contains(key) ==> time_of(with_times(times, keys, until), key)
            == Some(until),
        !keys.contains(key) ==> with_times(times, keys, until).get(key) == times.get(key),
    decreases keys.len(),
{
    if keys.len() > 0 {
        let front = keys.drop_last();
        lemma_with_times(times, front, until, key);
        assert(keys[keys.len() - 1] == keys.last());
        if keys.contains(key) && key != keys.last() {
            let i = choose|i: int| 0 <= i < keys.len() && keys[i] == key;
            assert(front[i] == key);
        }
        if front.contains(key) {
            let i = choose|i: int| 0 <= i < front.len() && front[i] == key;
            assert(keys[i] == key);
        }
        assert(JsonView::of_integer(until).integer() == Some(until));
    }
}

/// Puts the times of some values into the future, so that they count as newer than anything that is
/// fetched, and says whether that changed anything.
pub fn pin_codex_desktop_statsig_last_modified_cache_keys(
    times: &mut Json,
    keys: &Vec<String>,
    now: i64,
) -> (r: bool)
    ensures
        final(times)@ == pinned(old(times)@, text::texts(keys@), now),
        r == pin_changes(old(times)@, text::texts(keys@), now),
{
    let ghost before = times@;
    let ghost names = text::texts(keys@);
    let until = if now > i64::MAX - CODEX_DESKTOP_STATSIG_PIN_HORIZON_MILLIS {
        i64::MAX
    } else {
        now + CODEX_DESKTOP_STATSIG_PIN_HORIZON_MILLIS
    };
    let object = times.is_object();
    let mut changed = false;
    let mut i: usize = 0;
    while i < keys.len()
        invariant
            i <= keys@.len(),
            names == text::texts(keys@),
            until == pinned_until(now),
            object == before is Object,
            times@ == with_times(before, names.take(i as int), until),
            changed <==> before is Object && exists|j: int|
                0 <= j < i && time_of(before, #[trigger] names[j]) != Some(until),
        decreases keys@.len() - i,
    {
        let ghost key = keys@[i as int]@;
        proof {
            assert(names.take(i + 1).drop_last() =~= names.take(i as int));
            assert(names.take(i + 1).last() == key);
            assert(names[i as int] == key);
            lemma_with_times(before, names.take(i as int), until, key);
            if names.take(i as int).contains(key) {
                let j = choose|j: int| 0 <= j < i && names.take(i as int)[j] == key;
                assert(names[j] == key);
            }
        }
        let known = get_time(times, keys[i].as_str());
        let right = match known {
            Some(time) => time == until,
            None => false,
        };
        if !right {
            times.insert(keys[i].as_str(), Json::integer(until));
            if object {
                changed = true;
            }
        }
        i += 1;
    }
    assert(names.take(i as int) =~= names);
    changed
}

/// A time that was put back is not in the future, and the others stay.
proof fn lemma_unpinned(times: JsonView, keys: Seq<Seq<char>>, now: i64, key: Seq<char>)
    ensures
        times is Object == unpinned(times, keys, now) is Object,
        keys.contains(key) ==> !is_future(unpinned(times, keys, now), key, now),
        !keys.contains(key) ==> unpinned(times, keys, now).get(key) == times.get(key),
    decreases keys.len(),
{
    if keys.len() > 0 {
        let front = keys.drop_last();
        lemma_unpinned(times, front, now, key);
        assert(keys[keys.len() - 1] == keys.last());
        if keys.contains(key) && key != keys.last() {
            let i = choose|i: int| 0 <= i < keys.len() && keys[i] == key;
            assert(front[i] == key);
        }
        if front.contains(key) {
            let i = choose|i: int| 0 <= i < front.len() && front[i] == key;
            assert(keys[i] == key);
        }
        assert(JsonView::of_integer(now).integer() == Some(now));
    }
}

/// Puts the times of some values that are in the future back to now, and says whether that changed
/// anything.
pub fn unpin_codex_desktop_statsig_last_modified_cache_keys(
    times: &mut Json,
    keys: &Vec<String>,
    now: i64,
) -> (r: bool)
    ensures
        final(times)@ == unpinned(old(times)@, text::texts(keys@), now),
        r == unpin_changes(old(times)@, text::texts(keys@), now),
{
    let ghost before = times@;
    let ghost names = text::texts(keys@);
    let mut changed = false;
    let mut i: usize = 0;
    while i < keys.len()
        invariant
            i <= keys@.len(),
            names == text::texts(keys@),
            times@ == unpinned(before, names.take(i as int), now),
            changed <==> exists|j: int| 0 <= j < i && is_future(before, #[trigger] names[j], now),
        decreases keys@.len() - i,
    {
        let ghost key = keys@[i as int]@;
        proof {
            assert(names.take(i + 1).drop_last() =~= names.take(i as int));
            assert(names.take(i + 1).last() == key);
            assert(names[i as int] == key);
            lemma_unpinned(before, names.take(i as int), now, key);
            if names.take(i as int).contains(key) {
                let j = choose|j: int| 0 <= j < i && names.take(i as int)[j] == key;
                assert(names[j] == key);
            }
        }
        let future = match get_time(times, keys[i].as_str()) {
            Some(time) => time > now,
            None => false,
        };
        if future {
            times.insert(keys[i].as_str(), Json::integer(now));
            changed = true;
        }
        i += 1;
    }
    assert(names.take(i as int) =~= names);
    changed
}

/// A value that is pinned counts as new until its horizon, and no longer once it is unpinned; times
/// of other values stay as they are.
pub proof fn law_a_pinned_value_is_new_until_it_is_unpinned(
    times: JsonView,
    keys: Seq<Seq<char>>,
    now: i64,
    key: Seq<char>,
)
    requires
        times is Object,
        now < i64::MAX,
    ensures
        keys.contains(key) ==> is_future(pinned(times, keys, now), key, now),
        keys.contains(key) ==> !is_future(unpinned(pinned(times, keys, now), keys, now), key, now),
        !keys.contains(key) ==> unpinned(pinned(times, keys, now), keys, now).get(key)
            == times.get(key),
{
    lemma_with_times(times, keys, pinned_until(now), key);
    lemma_unpinned(pinned(times, keys, now), keys, now, key);
}

/// A text without the NUL characters at its end.
pub open spec fn trim_nul_end(s: Seq<char>) -> Seq<char>
    decreases s.len(),
{
    if s.len() > 0 && s.last() == '\0' {
        trim_nul_end(s.drop_last())
    } else {
        s
    }
}

/// A text without the NUL characters at its start.
pub open spec fn trim_nul_start(s: Seq<char>) -> Seq<char>
    decreases s.len(),
{
    if s.len() > 0 && s.first() == '\0' {
        trim_nul_start(s.drop_first())
    } else {
        s
    }
}

/// Where a text first occurs in another.
pub open spec fn is_first_at(s: Seq<char>, part: Seq<char>, at: int) -> bool {
    &&& text::occurs_at(s, part, at)
    &&& forall|i: int| 0 <= i < at ==> !#[trigger] text::occurs_at(s, part, i)
}

/// Where a text first occurs in another.
pub open spec fn first_at(s: Seq<char>, part: Seq<char>) -> Option<int> {
    if exists|at: int| is_first_at(s, part, at) {
        Some(choose|at: int| is_first_at(s, part, at))
    } else {
        None
    }
}

/// There is one first place.
proof fn lemma_first_at(s: Seq<char>, part: Seq<char>, at: int)
    requires
        is_first_at(s, part, at),
    ensures
        first_at(s, part) == Some(at),
{
    let other = choose|other: int| is_first_at(s, part, other);
    assert(is_first_at(s, part, other));
    if other < at {
        assert(!text::occurs_at(s, part, other));
    }
    if at < other {
        assert(!text::occurs_at(s, part, at));
    }
}

/// Whether a text occurs at a place in another.
fn is_at(s: &Vec<char>, part: &Vec<char>, at: usize) -> (r: bool)
    requires
        at + part@.len() <= s@.len(),
    ensures
        r == text::occurs_at(s@, part@, at as int),
{
    let len: usize = s.len();
    let mut k: usize = 0;
    while k < part.len()
        invariant
            at + part@.len() <= len,
            len == s@.len(),
            k <= part@.len(),
            forall|m: int| 0 <= m < k ==> s@[at + m] == #[trigger] part@[m],
        decreases part@.len() - k,
    {
        if s[at + k] != part[k] {
            proof {
                if text::occurs_at(s@, part@, at as int) {
                    assert(s@.subrange(at as int, at + part@.len())[k as int] == s@[at + k]);
                }
            }
            return false;
        }
        k += 1;
    }
    assert(s@.subrange(at as int, at + part@.len()) =~= part@);
    true
}

/// Where a text first occurs in another.
fn find_first(s: &Vec<char>, part: &Vec<char>) -> (r: Option<usize>)
    ensures
        match r {
            Some(at) => first_at(s@, part@) == Some(at as int) && at <= s@.len(),
            None => first_at(s@, part@) is None,
        },
{
    if part.len() > s.len() {
        return None;
    }
    let last: usize = s.len() - part.len();
    let mut at: usize = 0;
    while at < last
        invariant
            at <= last,
            last == s@.len() - part@.len(),
            forall|i: int| 0 <= i < at ==> !#[trigger] text::occurs_at(s@, part@, i),
        decreases last - at,
    {
        if is_at(s, part, at) {
            proof {
                lemma_first_at(s@, part@, at as int);
            }
            return Some(at);
        }
        at += 1;
    }
    if is_at(s, part, at) {
        proof {
            lemma_first_at(s@, part@, at as int);
        }
        return Some(at);
    }
    proof {
        if first_at(s@, part@) is Some {
            let other = choose|other: int| is_first_at(s@, part@, other);
            assert(text::occurs_at(s@, part@, other));
            assert(other <= last);
        }
    }
    None
}

/// The part of a storage key before a marker: whose value it is.
pub open spec fn origin_of(key: Seq<char>, marker: Seq<char>) -> Option<Seq<char>> {
    match first_at(key, marker) {
        Some(at) => Some(trim_nul_end(key.take(at))),
        None => None,
    }
}

/// The part of a storage key from a marker on: what the value is called.
pub open spec fn name_from(key: Seq<char>, marker: Seq<char>) -> Option<Seq<char>> {
    match first_at(key, marker) {
        Some(at) => Some(trim_nul_end(trim_nul_start(key.skip(at)))),
        None => None,
    }
}

/// A part of a text without the NUL characters at its end.
fn without_nul_end(chars: &Vec<char>, from: usize, to: usize) -> (r: String)
    requires
        from <= to <= chars@.len(),
    ensures
        r@ == trim_nul_end(chars@.subrange(from as int, to as int)),
{
    let ghost whole = chars@.subrange(from as int, to as int);
    let mut end: usize = to;
    while end > from && chars[end - 1] == '\0'
        invariant
            from <= end <= to <= chars@.len(),
            trim_nul_end(chars@.subrange(from as int, end as int)) == trim_nul_end(whole),
        decreases end,
    {
        assert(chars@.subrange(from as int, end as int).drop_last() =~= chars@.subrange(
            from as int,
            end - 1,
        ));
        end -= 1;
    }
    let ghost rest = chars@.subrange(from as int, end as int);
    assert(rest.len() > 0 ==> rest.last() == chars@[end - 1]);
    string_of(chars, from, end)
}

/// Whose value a storage key is about.
pub fn codex_desktop_leveldb_origin_for_marker(key_text: &str, marker: &str) -> (r: Option<String>)
    ensures
        text::text_of(r) == origin_of(key_text@, marker@),
{
    let chars = chars_of(key_text);
    match find_first(&chars, &chars_of(marker)) {
        Some(at) => {
            assert(chars@.subrange(0, at as int) =~= key_text@.take(at as int));
            Some(without_nul_end(&chars, 0, at))
        },
        None => None,
    }
}

/// What the value of a storage key is called.
pub fn codex_desktop_statsig_cache_key_from_leveldb_key(key_text: &str) -> (r: Option<String>)
    ensures
        text::text_of(r) == name_from(key_text@, CODEX_DESKTOP_STATSIG_CACHE_KEY_MARKER@),
{
    let chars = chars_of(key_text);
    match find_first(&chars, &chars_of(CODEX_DESKTOP_STATSIG_CACHE_KEY_MARKER)) {
        Some(at) => {
            let ghost whole = key_text@.skip(at as int);
            let mut from: usize = at;
            assert(key_text@.skip(from as int) =~= whole);
            while from < chars.len() && chars[from] == '\0'
                invariant
                    at <= from <= chars@.len(),
                    chars@ == key_text@,
                    trim_nul_start(key_text@.skip(from as int)) == trim_nul_start(whole),
                decreases chars@.len() - from,
            {
                assert(key_text@.skip(from as int).drop_first() =~= key_text@.skip(from + 1));
                from += 1;
            }
            assert(chars@.subrange(from as int, chars@.len() as int) =~= key_text@.skip(
                from as int,
            ));
            Some(without_nul_end(&chars, from, chars.len()))
        },
        None => None,
    }
}

} // verus!
