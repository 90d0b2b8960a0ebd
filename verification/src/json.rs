//! JSON values: the tree that the library works on, and the way from text to
//! the tree and back.

use crate::text::str_eq;
use serde_json::{Number, Value};
use vstd::prelude::*;

verus! {

/// A JSON number.
#[derive(Debug)]
pub enum JsonNumber {
    /// A whole number that is not negative.
    Unsigned(u64),
    /// A negative whole number.
    Negative(i64),
    /// Any other number, by its text.
    Float(String),
}

/// A JSON value. Where an object has two entries with one key, the later one counts.
#[derive(Debug)]
pub enum Json {
    Null,
    Bool(bool),
    Number(JsonNumber),
    Str(String),
    Array(Vec<Json>),
    Object(Vec<(String, Json)>),
}

/// What a [`JsonNumber`] stands for.
pub enum NumberView {
    Unsigned(u64),
    Negative(i64),
    Float(Seq<char>),
}

/// What a [`Json`] stands for: objects are maps, without an order.
#[verifier::ext_equal]
pub enum JsonView {
    Null,
    Bool(bool),
    Number(NumberView),
    Str(Seq<char>),
    Array(Seq<JsonView>),
    Object(Map<Seq<char>, JsonView>),
}

impl JsonView {
    /// The member `key` of an object.
    pub open spec fn get(self, key: Seq<char>) -> Option<JsonView> {
        match self {
            JsonView::Object(map) => if map.dom().contains(key) {
                Some(map[key])
            } else {
                None
            },
            _ => None,
        }
    }

    /// The characters of a string.
    pub open spec fn text(self) -> Option<Seq<char>> {
        match self {
            JsonView::Str(s) => Some(s),
            _ => None,
        }
    }

    /// The value of a boolean.
    pub open spec fn boolean(self) -> Option<bool> {
        match self {
            JsonView::Bool(b) => Some(b),
            _ => None,
        }
    }

    /// The value of a whole number that is not negative.
    pub open spec fn unsigned(self) -> Option<u64> {
        match self {
            JsonView::Number(NumberView::Unsigned(n)) => Some(n),
            _ => None,
        }
    }

    /// The value of a whole number that fits.
    pub open spec fn integer(self) -> Option<i64> {
        match self {
            JsonView::Number(NumberView::Unsigned(n)) => if n <= i64::MAX {
                Some(n as i64)
            } else {
                None
            },
            JsonView::Number(NumberView::Negative(n)) => Some(n),
            _ => None,
        }
    }

    /// A whole number.
    pub open spec fn of_integer(n: i64) -> JsonView {
        JsonView::Number(
            if n >= 0 {
                NumberView::Unsigned(n as u64)
            } else {
                NumberView::Negative(n)
            },
        )
    }

    /// The items of an array.
    pub open spec fn items(self) -> Option<Seq<JsonView>> {
        match self {
            JsonView::Array(items) => Some(items),
            _ => None,
        }
    }

    /// The member `key`, where it is a string.
    pub open spec fn get_text(self, key: Seq<char>) -> Option<Seq<char>> {
        match self.get(key) {
            Some(v) => v.text(),
            None => None,
        }
    }

    /// The member `key`, where it is an array.
    pub open spec fn get_items(self, key: Seq<char>) -> Option<Seq<JsonView>> {
        match self.get(key) {
            Some(v) => v.items(),
            None => None,
        }
    }

    /// An object with the member `key` set to `value`; any other value unchanged.
    pub open spec fn put(self, key: Seq<char>, value: JsonView) -> JsonView {
        match self {
            JsonView::Object(map) => JsonView::Object(map.insert(key, value)),
            _ => self,
        }
    }

    /// An object without the member `key`; any other value unchanged.
    pub open spec fn without(self, key: Seq<char>) -> JsonView {
        match self {
            JsonView::Object(map) => JsonView::Object(map.remove(key)),
            _ => self,
        }
    }

    /// The object without members.
    pub open spec fn empty_object() -> JsonView {
        JsonView::Object(Map::empty())
    }
}

impl JsonNumber {
    pub open spec fn view(&self) -> NumberView {
        match self {
            JsonNumber::Unsigned(n) => NumberView::Unsigned(*n),
            JsonNumber::Negative(n) => NumberView::Negative(*n),
            JsonNumber::Float(s) => NumberView::Float(s@),
        }
    }
}

impl Json {
    pub open spec fn view(&self) -> JsonView
        decreases self,
    {
        match self {
            Json::Null => JsonView::Null,
            Json::Bool(b) => JsonView::Bool(*b),
            Json::Number(n) => JsonView::Number(n.view()),
            Json::Str(s) => JsonView::Str(s@),
            Json::Array(items) => JsonView::Array(items_view(items@)),
            Json::Object(entries) => JsonView::Object(entries_view(entries@)),
        }
    }
}

/// What the items of an array stand for.
pub open spec fn items_view(items: Seq<Json>) -> Seq<JsonView>
    decreases items,
{
    if items.len() == 0 {
        Seq::empty()
    } else {
        items_view(items.drop_last()).push(items.last().view())
    }
}

/// What the entries of an object stand for.
pub open spec fn entries_view(entries: Seq<(String, Json)>) -> Map<Seq<char>, JsonView>
    decreases entries,
{
    if entries.len() == 0 {
        Map::empty()
    } else {
        entries_view(entries.drop_last()).insert(entries.last().0@, entries.last().1.view())
    }
}

/// What an optional value stands for.
pub open spec fn option_view(value: Option<Json>) -> Option<JsonView> {
    match value {
        Some(v) => Some(v@),
        None => None,
    }
}

/// What an optional reference to a value stands for.
pub open spec fn ref_view(value: Option<&Json>) -> Option<JsonView> {
    match value {
        Some(v) => Some(v@),
        None => None,
    }
}

/// The items stand for their own values, one by one.
pub broadcast proof fn lemma_items_view(items: Seq<Json>)
    ensures
        (#[trigger] items_view(items)).len() == items.len(),
        forall|i: int| 0 <= i < items.len() ==> items_view(items)[i] == #[trigger] items[i].view(),
    decreases items.len(),
{
    if items.len() > 0 {
        lemma_items_view(items.drop_last());
        assert forall|i: int| 0 <= i < items.len() implies items_view(items)[i]
            == #[trigger] items[i].view() by {
            if i < items.len() - 1 {
                assert(items.drop_last()[i] == items[i]);
            }
        }
    }
}

/// One more item stands for one more value.
pub broadcast proof fn lemma_items_push(items: Seq<Json>, item: Json)
    ensures
        #[trigger] items_view(items.push(item)) == items_view(items).push(item.view()),
{
    assert(items.push(item).drop_last() =~= items);
}

/// One more entry sets one member.
pub broadcast proof fn lemma_entries_push(entries: Seq<(String, Json)>, entry: (String, Json))
    ensures
        #[trigger] entries_view(entries.push(entry)) == entries_view(entries).insert(
            entry.0@,
            entry.1.view(),
        ),
{
    assert(entries.push(entry).drop_last() =~= entries);
}

/// A key is in the map when an entry has it.
proof fn lemma_entries_dom(entries: Seq<(String, Json)>, key: Seq<char>)
    ensures
        entries_view(entries).dom().contains(key) <==> exists|i: int|
            0 <= i < entries.len() && (#[trigger] entries[i]).0@ == key,
    decreases entries.len(),
{
    if entries.len() > 0 {
        let front = entries.drop_last();
        lemma_entries_dom(front, key);
        if entries.last().0@ == key {
            assert(entries[entries.len() - 1].0@ == key);
        }
        if exists|i: int| 0 <= i < front.len() && (#[trigger] front[i]).0@ == key {
            let i = choose|i: int| 0 <= i < front.len() && (#[trigger] front[i]).0@ == key;
            assert(entries[i].0@ == key);
        }
        if exists|i: int| 0 <= i < entries.len() && (#[trigger] entries[i]).0@ == key {
            let i = choose|i: int| 0 <= i < entries.len() && (#[trigger] entries[i]).0@ == key;
            if i < front.len() {
                assert(front[i].0@ == key);
            }
        }
    }
}

/// A value with one form for the two zeros that are not whole.
pub open spec fn leveled(value: JsonView) -> JsonView
    decreases value,
{
    match value {
        JsonView::Number(NumberView::Float(text)) => JsonView::Number(
            NumberView::Float(
                if text == "-0.0"@ {
                    "0.0"@
                } else {
                    text
                },
            ),
        ),
        JsonView::Array(items) => JsonView::Array(
            Seq::new(
                items.len(),
                |i: int|
                    if 0 <= i < items.len() {
                        leveled(items[i])
                    } else {
                        JsonView::Null
                    },
            ),
        ),
        JsonView::Object(map) => if map.dom().finite() {
            JsonView::Object(
                Map::new(
                    |key: Seq<char>| map.dom().contains(key),
                    |key: Seq<char>|
                        if map.dom().contains(key) {
                            leveled(map[key])
                        } else {
                            JsonView::Null
                        },
                ),
            )
        } else {
            value
        },
        _ => value,
    }
}

/// Whether two values are equal as numbers, texts, lists and maps. The two zeros that are not whole
/// are equal.
pub open spec fn same(a: JsonView, b: JsonView) -> bool {
    leveled(a) == leveled(b)
}

/// The map that a list of entries stands for is finite.
proof fn lemma_entries_finite(entries: Seq<(String, Json)>)
    ensures
        entries_view(entries).dom().finite(),
    decreases entries.len(),
{
    if entries.len() > 0 {
        lemma_entries_finite(entries.drop_last());
    }
}

/// Two lists of entries with the same keys and equal values for them stand for equal maps.
proof fn lemma_same_entries(a: Seq<(String, Json)>, b: Seq<(String, Json)>)
    requires
        forall|i: int|
            0 <= i < a.len() ==> entries_view(b).dom().contains((#[trigger] a[i]).0@) && same(
                entries_view(b)[a[i].0@],
                entries_view(a)[a[i].0@],
            ),
        forall|i: int| 0 <= i < b.len() ==> entries_view(a).dom().contains((#[trigger] b[i]).0@),
    ensures
        same(JsonView::Object(entries_view(a)), JsonView::Object(entries_view(b))),
{
    lemma_entries_finite(a);
    lemma_entries_finite(b);
    let x = leveled(JsonView::Object(entries_view(a)))->Object_0;
    let y = leveled(JsonView::Object(entries_view(b)))->Object_0;
    assert forall|key: Seq<char>| entries_view(a).dom().contains(key) implies #[trigger] entries_view(
        b,
    ).dom().contains(key) && same(entries_view(b)[key], entries_view(a)[key]) by {
        lemma_entries_dom(a, key);
    }
    assert forall|key: Seq<char>| entries_view(b).dom().contains(key) implies #[trigger] entries_view(
        a,
    ).dom().contains(key) by {
        lemma_entries_dom(b, key);
    }
    assert(x.dom() =~= y.dom());
    assert(x =~= y);
}

/// Without one of its entries, the list stands for the same map but for that entry's key.
proof fn lemma_entries_remove(entries: Seq<(String, Json)>, i: int)
    requires
        0 <= i < entries.len(),
    ensures
        entries_view(entries.remove(i)).remove(entries[i].0@) == entries_view(entries).remove(
            entries[i].0@,
        ),
    decreases entries.len(),
{
    let key = entries[i].0@;
    let front = entries.drop_last();
    if i == entries.len() - 1 {
        assert(entries.remove(i) =~= front);
        assert(entries_view(front).remove(key) =~= entries_view(entries).remove(key));
    } else {
        lemma_entries_remove(front, i);
        assert(entries.remove(i).drop_last() =~= front.remove(i));
        assert(entries.remove(i).last() == entries.last());
        let last = entries.last();
        assert(entries_view(entries.remove(i)) == entries_view(front.remove(i)).insert(
            last.0@,
            last.1.view(),
        ));
        if last.0@ == key {
            assert(entries_view(entries.remove(i)).remove(key) =~= entries_view(
                front.remove(i),
            ).remove(key));
            assert(entries_view(entries).remove(key) =~= entries_view(front).remove(key));
        } else {
            assert(entries_view(entries.remove(i)).remove(key) =~= entries_view(
                front.remove(i),
            ).remove(key).insert(last.0@, last.1.view()));
            assert(entries_view(entries).remove(key) =~= entries_view(front).remove(key).insert(
                last.0@,
                last.1.view(),
            ));
        }
    }
}

impl Clone for Json {
    fn clone(&self) -> (r: Json)
        ensures
            r@ == self@,
        decreases self,
    {
        match self {
            Json::Null => Json::Null,
            Json::Bool(b) => Json::Bool(*b),
            Json::Number(JsonNumber::Unsigned(n)) => Json::Number(JsonNumber::Unsigned(*n)),
            Json::Number(JsonNumber::Negative(n)) => Json::Number(JsonNumber::Negative(*n)),
            Json::Number(JsonNumber::Float(s)) => Json::Number(JsonNumber::Float(s.clone())),
            Json::Str(s) => Json::Str(s.clone()),
            Json::Array(items) => {
                let mut out: Vec<Json> = Vec::new();
                let mut i: usize = 0;
                while i < items.len()
                    invariant
                        i <= items.len(),
                        items_view(out@) == items_view(items@.take(i as int)),
                        decreases_to!(self => items),
                    decreases items.len() - i,
                {
                    broadcast use lemma_items_push;

                    let item = items[i].clone();
                    out.push(item);
                    assert(items@.take(i + 1) =~= items@.take(i as int).push(items@[i as int]));
                    i += 1;
                }
                assert(items@.take(i as int) =~= items@);
                Json::Array(out)
            },
            Json::Object(entries) => {
                let mut out: Vec<(String, Json)> = Vec::new();
                let mut i: usize = 0;
                while i < entries.len()
                    invariant
                        i <= entries.len(),
                        entries_view(out@) == entries_view(entries@.take(i as int)),
                        decreases_to!(self => entries),
                    decreases entries.len() - i,
                {
                    broadcast use lemma_entries_push;

                    let item = entries[i].1.clone();
                    out.push((entries[i].0.clone(), item));
                    assert(entries@.take(i + 1) =~= entries@.take(i as int).push(
                        entries@[i as int],
                    ));
                    i += 1;
                }
                assert(entries@.take(i as int) =~= entries@);
                Json::Object(out)
            },
        }
    }
}

/// A copy of some values.
pub fn copy_items(items: &Vec<Json>) -> (r: Vec<Json>)
    ensures
        items_view(r@) == items_view(items@),
{
    let mut out: Vec<Json> = Vec::new();
    let mut i: usize = 0;
    while i < items.len()
        invariant
            i <= items@.len(),
            items_view(out@) == items_view(items@.take(i as int)),
        decreases items@.len() - i,
    {
        broadcast use lemma_items_push;

        out.push(items[i].clone());
        assert(items@.take(i + 1) =~= items@.take(i as int).push(items@[i as int]));
        i += 1;
    }
    assert(items@.take(i as int) =~= items@);
    out
}

/// The position of the entry that counts for `key`.
fn last_entry(entries: &Vec<(String, Json)>, key: &str) -> (r: Option<usize>)
    ensures
        match r {
            Some(i) => i < entries@.len() && entries@[i as int].0@ == key@ && entries_view(
                entries@,
            ).dom().contains(key@) && entries_view(entries@)[key@] == entries@[i as int].1.view(),
            None => !entries_view(entries@).dom().contains(key@),
        },
{
    let mut i: usize = entries.len();
    assert(entries@.take(i as int) =~= entries@);
    while i > 0
        invariant
            i <= entries@.len(),
            entries_view(entries@).dom().contains(key@) <==> entries_view(
                entries@.take(i as int),
            ).dom().contains(key@),
            entries_view(entries@.take(i as int)).dom().contains(key@) ==> entries_view(
                entries@.take(i as int),
            )[key@] == entries_view(entries@)[key@],
        decreases i,
    {
        i -= 1;
        assert(entries@.take(i + 1).drop_last() =~= entries@.take(i as int));
        if str_eq(entries[i].0.as_str(), key) {
            return Some(i);
        }
    }
    None
}

impl Json {
    /// The object without members.
    pub fn object() -> (r: Json)
        ensures
            r@ == JsonView::empty_object(),
    {
        Json::Object(Vec::new())
    }

    /// A string.
    pub fn string(s: &str) -> (r: Json)
        ensures
            r@ == JsonView::Str(s@),
    {
        Json::Str(s.to_owned())
    }

    /// A whole number.
    pub fn number(n: u64) -> (r: Json)
        ensures
            r@ == JsonView::Number(NumberView::Unsigned(n)),
    {
        Json::Number(JsonNumber::Unsigned(n))
    }

    /// A whole number.
    pub fn integer(n: i64) -> (r: Json)
        ensures
            r@ == JsonView::of_integer(n),
    {
        if n >= 0 {
            Json::Number(JsonNumber::Unsigned(n as u64))
        } else {
            Json::Number(JsonNumber::Negative(n))
        }
    }

    /// The value of a whole number that fits.
    pub fn as_i64(&self) -> (r: Option<i64>)
        ensures
            r == self@.integer(),
    {
        match self {
            Json::Number(JsonNumber::Unsigned(n)) => if *n <= i64::MAX as u64 {
                Some(*n as i64)
            } else {
                None
            },
            Json::Number(JsonNumber::Negative(n)) => Some(*n),
            _ => None,
        }
    }

    /// The member `key` of an object.
    pub fn get(&self, key: &str) -> (r: Option<&Json>)
        ensures
            ref_view(r) == self@.get(key@),
    {
        match self {
            Json::Object(entries) => match last_entry(entries, key) {
                Some(i) => Some(&entries[i].1),
                None => None,
            },
            _ => None,
        }
    }

    /// Whether the value is an object.
    pub fn is_object(&self) -> (r: bool)
        ensures
            r == (self@ is Object),
    {
        match self {
            Json::Object(_) => true,
            _ => false,
        }
    }

    /// The keys of an object; a key may come more than once. Any other value has none.
    pub fn keys(&self) -> (r: Vec<String>)
        ensures
            forall|key: Seq<char>|
                (#[trigger] self@.get(key)) is Some <==> crate::text::texts(r@).contains(key),
    {
        let mut out: Vec<String> = Vec::new();
        match self {
            Json::Object(entries) => {
                let mut i: usize = 0;
                while i < entries.len()
                    invariant
                        i <= entries@.len(),
                        out@.len() == i,
                        forall|j: int| 0 <= j < i ==> (#[trigger] out@[j])@ == entries@[j].0@,
                    decreases entries@.len() - i,
                {
                    out.push(entries[i].0.clone());
                    i += 1;
                }
                assert forall|key: Seq<char>|
                    (#[trigger] self@.get(key)) is Some <==> crate::text::texts(
                        out@,
                    ).contains(key) by {
                    lemma_entries_dom(entries@, key);
                    let list = crate::text::texts(out@);
                    if list.contains(key) {
                        let j = choose|j: int| 0 <= j < list.len() && list[j] == key;
                        assert(entries@[j].0@ == key);
                    }
                    if self@.get(key) is Some {
                        let j = choose|j: int|
                            0 <= j < entries@.len() && (#[trigger] entries@[j]).0@ == key;
                        assert(list[j] == key);
                    }
                }
            },
            _ => {
                assert(crate::text::texts(out@).len() == 0);
            },
        }
        out
    }

    /// The characters of a string.
    pub fn as_str(&self) -> (r: Option<&str>)
        ensures
            crate::text::slice_text(r) == self@.text(),
    {
        match self {
            Json::Str(s) => Some(s.as_str()),
            _ => None,
        }
    }

    /// The value of a boolean.
    pub fn as_bool(&self) -> (r: Option<bool>)
        ensures
            r == self@.boolean(),
    {
        match self {
            Json::Bool(b) => Some(*b),
            _ => None,
        }
    }

    /// The value of a whole number that is not negative.
    pub fn as_u64(&self) -> (r: Option<u64>)
        ensures
            r == self@.unsigned(),
    {
        match self {
            Json::Number(JsonNumber::Unsigned(n)) => Some(*n),
            _ => None,
        }
    }

    /// The items of an array.
    pub fn as_array(&self) -> (r: Option<&Vec<Json>>)
        ensures
            match r {
                Some(items) => self@.items() == Some(items_view(items@)),
                None => self@.items() is None,
            },
    {
        match self {
            Json::Array(items) => Some(items),
            _ => None,
        }
    }

    /// The member `key`, where it is a string.
    pub fn get_str(&self, key: &str) -> (r: Option<&str>)
        ensures
            crate::text::slice_text(r) == self@.get_text(key@),
    {
        match self.get(key) {
            Some(v) => v.as_str(),
            None => None,
        }
    }

    /// The member `key`, where it is an array.
    pub fn get_array(&self, key: &str) -> (r: Option<&Vec<Json>>)
        ensures
            match r {
                Some(items) => self@.get_items(key@) == Some(items_view(items@)),
                None => self@.get_items(key@) is None,
            },
    {
        match self.get(key) {
            Some(v) => v.as_array(),
            None => None,
        }
    }

    /// Sets the member `key` of an object; leaves any other value as it is.
    pub fn insert(&mut self, key: &str, value: Json)
        ensures
            final(self)@ == old(self)@.put(key@, value@),
    {
        match self {
            Json::Object(entries) => {
                let ghost before = entries_view(entries@);
                remove_entries(entries, key);
                let entry = (key.to_owned(), value);
                proof {
                    lemma_entries_push(entries@, entry);
                    assert(before.remove(key@).insert(key@, value@) =~= before.insert(key@, value@));
                }
                entries.push(entry);
            },
            _ => {},
        }
    }

    /// Takes the member `key` away from an object; leaves any other value as it is.
    pub fn remove(&mut self, key: &str)
        ensures
            final(self)@ == old(self)@.without(key@),
    {
        match self {
            Json::Object(entries) => remove_entries(entries, key),
            _ => {},
        }
    }
}

/// Takes the entries with `key` away.
fn remove_entries(entries: &mut Vec<(String, Json)>, key: &str)
    ensures
        entries_view(final(entries)@) == entries_view(old(entries)@).remove(key@),
{
    let ghost before = entries_view(entries@).remove(key@);
    let mut next = last_entry(entries, key);
    while next.is_some()
        invariant
            entries_view(entries@).remove(key@) == before,
            match next {
                Some(i) => i < entries@.len() && entries@[i as int].0@ == key@,
                None => !entries_view(entries@).dom().contains(key@),
            },
        decreases entries@.len(),
    {
        match next {
            Some(i) => {
                proof {
                    lemma_entries_remove(entries@, i as int);
                }
                let _ = entries.remove(i);
            },
            None => {},
        }
        next = last_entry(entries, key);
    }
    assert(entries_view(entries@).remove(key@) =~= entries_view(entries@));
}

impl Json {
    /// Whether two values are equal. The two zeros that are not whole are.
    pub fn equals(&self, other: &Json) -> (r: bool)
        ensures
            r == same(self@, other@),
        decreases self,
    {
        match (self, other) {
            (Json::Null, Json::Null) => true,
            (Json::Bool(a), Json::Bool(b)) => *a == *b,
            (Json::Number(JsonNumber::Unsigned(a)), Json::Number(JsonNumber::Unsigned(b))) => *a
                == *b,
            (Json::Number(JsonNumber::Negative(a)), Json::Number(JsonNumber::Negative(b))) => *a
                == *b,
            (Json::Number(JsonNumber::Float(a)), Json::Number(JsonNumber::Float(b))) => {
                let first_is_zero = str_eq(a.as_str(), "-0.0") || str_eq(a.as_str(), "0.0");
                let second_is_zero = str_eq(b.as_str(), "-0.0") || str_eq(b.as_str(), "0.0");
                str_eq(a.as_str(), b.as_str()) || first_is_zero && second_is_zero
            },
            (Json::Str(a), Json::Str(b)) => str_eq(a.as_str(), b.as_str()),
            (Json::Array(a), Json::Array(b)) => {
                proof {
                    lemma_items_view(a@);
                    lemma_items_view(b@);
                }
                if a.len() != b.len() {
                    proof {
                        assert(leveled(self@)->Array_0.len() == a@.len());
                        assert(leveled(other@)->Array_0.len() == b@.len());
                    }
                    return false;
                }
                let mut i: usize = 0;
                while i < a.len()
                    invariant
                        i <= a@.len(),
                        a@.len() == b@.len(),
                        self@ == JsonView::Array(items_view(a@)),
                        other@ == JsonView::Array(items_view(b@)),
                        items_view(a@).len() == a@.len(),
                        items_view(b@).len() == b@.len(),
                        forall|j: int|
                            0 <= j < i ==> same(items_view(a@)[j], #[trigger] items_view(b@)[j]),
                        decreases_to!(self => a),
                    decreases a@.len() - i,
                {
                    broadcast use lemma_items_view;

                    assert(items_view(a@)[i as int] == a@[i as int].view());
                    assert(items_view(b@)[i as int] == b@[i as int].view());
                    if !a[i].equals(&b[i]) {
                        proof {
                            let x = leveled(self@)->Array_0;
                            let y = leveled(other@)->Array_0;
                            assert(x[i as int] == leveled(items_view(a@)[i as int]));
                            assert(y[i as int] == leveled(items_view(b@)[i as int]));
                        }
                        return false;
                    }
                    i += 1;
                }
                assert(leveled(self@)->Array_0 =~= leveled(other@)->Array_0) by {
                    assert forall|j: int| 0 <= j < a@.len() implies leveled(self@)->Array_0[j]
                        == #[trigger] leveled(other@)->Array_0[j] by {
                        assert(same(items_view(a@)[j], items_view(b@)[j]));
                    }
                }
                true
            },
            (Json::Object(a), Json::Object(b)) => {
                let ghost x_map = leveled(self@)->Object_0;
                let ghost y_map = leveled(other@)->Object_0;
                proof {
                    lemma_entries_finite(a@);
                    lemma_entries_finite(b@);
                }
                let mut i: usize = 0;
                while i < a.len()
                    invariant
                        i <= a@.len(),
                        self@ == JsonView::Object(entries_view(a@)),
                        other@ == JsonView::Object(entries_view(b@)),
                        entries_view(a@).dom().finite(),
                        entries_view(b@).dom().finite(),
                        x_map == leveled(self@)->Object_0,
                        y_map == leveled(other@)->Object_0,
                        forall|j: int|
                            0 <= j < i ==> entries_view(b@).dom().contains((#[trigger] a@[j]).0@)
                                && same(entries_view(b@)[a@[j].0@], entries_view(a@)[a@[j].0@]),
                        decreases_to!(self => a),
                    decreases a@.len() - i,
                {
                    proof {
                        lemma_entries_dom(a@, a@[i as int].0@);
                        let k = a@[i as int].0@;
                        assert(x_map.dom().contains(k));
                        assert(x_map[k] == leveled(entries_view(a@)[k]));
                        assert(entries_view(b@).dom().contains(k) == y_map.dom().contains(k));
                        assert(y_map.dom().contains(k) ==> y_map[k] == leveled(
                            entries_view(b@)[k],
                        ));
                    }
                    let key = a[i].0.as_str();
                    match (last_entry(a, key), last_entry(b, key)) {
                        (Some(x), Some(y)) => {
                            if !a[x].1.equals(&b[y].1) {
                                return false;
                            }
                        },
                        _ => {
                            return false;
                        },
                    }
                    i += 1;
                }
                let mut j: usize = 0;
                while j < b.len()
                    invariant
                        j <= b@.len(),
                        self@ == JsonView::Object(entries_view(a@)),
                        other@ == JsonView::Object(entries_view(b@)),
                        entries_view(a@).dom().finite(),
                        entries_view(b@).dom().finite(),
                        x_map == leveled(self@)->Object_0,
                        y_map == leveled(other@)->Object_0,
                        forall|k: int|
                            0 <= k < j ==> entries_view(a@).dom().contains((#[trigger] b@[k]).0@),
                    decreases b@.len() - j,
                {
                    proof {
                        lemma_entries_dom(b@, b@[j as int].0@);
                        let k = b@[j as int].0@;
                        assert(y_map.dom().contains(k));
                        assert(entries_view(a@).dom().contains(k) == x_map.dom().contains(k));
                    }
                    if last_entry(a, b[j].0.as_str()).is_none() {
                        return false;
                    }
                    j += 1;
                }
                proof {
                    lemma_same_entries(a@, b@);
                }
                true
            },
            _ => false,
        }
    }
}

/// A value of `serde_json`.
#[verifier::external_type_specification]
#[verifier::external_body]
pub struct ExValue(serde_json::Value);

/// What a value of `serde_json` holds.
pub uninterp spec fn value_contents(value: serde_json::Value) -> JsonView;

/// What `serde_json` reads from a text; `None` where the text is not JSON.
pub uninterp spec fn json_text(text: Seq<char>) -> Option<JsonView>;

/// The text that `serde_json` writes for a value, without white space.
pub uninterp spec fn json_printed(value: JsonView) -> Seq<char>;

/// `serde_json::from_str` reads a text; the contents depend on the text alone.
#[verifier::external_body]
pub(crate) fn value_from_text(text: &str) -> (r: Option<serde_json::Value>)
    ensures
        match r {
            Some(value) => json_text(text@) == Some(value_contents(value)),
            None => json_text(text@) is None,
        },
{
    serde_json::from_str(text).ok()
}

/// Hands out the contents of a `serde_json::Value`: a whole number is told by `as_u64` and
/// `as_i64`, any other number by its text.
#[verifier::external_body]
pub(crate) fn json_from_value(value: &serde_json::Value) -> (r: Json)
    ensures
        r@ == value_contents(*value),
{
    match value {
        Value::Null => Json::Null,
        Value::Bool(b) => Json::Bool(*b),
        Value::Number(n) => Json::Number(match (n.as_u64(), n.as_i64()) {
            (Some(u), _) => JsonNumber::Unsigned(u),
            (None, Some(i)) => JsonNumber::Negative(i),
            (None, None) => JsonNumber::Float(n.to_string()),
        }),
        Value::String(s) => Json::Str(s.clone()),
        Value::Array(a) => Json::Array(a.iter().map(json_from_value).collect()),
        Value::Object(map) => Json::Object(
            map.iter().map(|(k, v)| (k.clone(), json_from_value(v))).collect()),
    }
}

/// `Display` of `serde_json::Value` writes the value without white space, as
/// `serde_json::to_string` does; the text depends on the contents alone. It starts with a visible
/// ASCII character. A plain value that is not nested deeper than the reader goes is read back as it
/// was; of a number that is not whole the reader need not find the same again. A NUL character may
/// stand neither between values nor in a string, so no text with one in second place is JSON.
#[verifier::external_body]
pub(crate) fn value_text(value: &serde_json::Value) -> (r: String)
    ensures
        r@ == json_printed(value_contents(*value)),
        r@.len() > 0 && '!' <= r@[0] && r@[0] <= '~',
        plain(value_contents(*value), 127) ==> json_text(r@) == Some(value_contents(*value)),
        forall|other: Seq<char>|
            other.len() > 1 && other[0] == r@[0] && other[1] == '\0' ==> #[trigger] json_text(
                other,
            ) is None,
{
    value.to_string()
}

/// Whether a value holds whole numbers only, each in its own form, and is nested at most so deep.
pub open spec fn plain(value: JsonView, levels: nat) -> bool
    decreases levels,
{
    match value {
        JsonView::Number(NumberView::Float(_)) => false,
        JsonView::Number(NumberView::Negative(n)) => n < 0,
        JsonView::Array(items) => levels > 0 && forall|i: int|
            0 <= i < items.len() ==> plain(#[trigger] items[i], (levels - 1) as nat),
        JsonView::Object(map) => levels > 0 && forall|key: Seq<char>|
            map.dom().contains(key) ==> plain(#[trigger] map[key], (levels - 1) as nat),
        _ => true,
    }
}

/// What `serde_json` holds of a value that is handed to it.
pub uninterp spec fn held(value: JsonView) -> JsonView;

/// Hands a value to `serde_json`: a number that is not whole by `Number::from_f64` of what
/// `str::parse` makes of its text. A plain value is held as it is.
#[verifier::external_body]
pub(crate) fn value_from_json(value: &Json) -> (r: serde_json::Value)
    ensures
        value_contents(r) == held(value@),
        plain(value@, 127) ==> value_contents(r) == value@,
{
    match value {
        Json::Null => Value::Null,
        Json::Bool(b) => Value::Bool(*b),
        Json::Number(JsonNumber::Unsigned(n)) => Value::from(*n),
        Json::Number(JsonNumber::Negative(n)) => Value::from(*n),
        Json::Number(JsonNumber::Float(s)) => Number::from_f64(s.parse().unwrap_or_default())
            .map(Value::Number).unwrap_or_default(),
        Json::Str(s) => Value::String(s.clone()),
        Json::Array(a) => Value::Array(a.iter().map(value_from_json).collect()),
        Json::Object(e) => Value::Object(
            e.iter().map(|(k, v)| (k.clone(), value_from_json(v))).collect()),
    }
}

/// The text of a value, without white space.
pub open spec fn printed(value: JsonView) -> Seq<char> {
    json_printed(held(value))
}

/// The text of a value, without white space. It starts with a visible ASCII character, and with a
/// NUL behind that no text is JSON. A plain value is read back from it.
pub fn print_json(value: &Json) -> (r: String)
    ensures
        r@ == printed(value@),
        r@.len() > 0 && '!' <= r@[0] && r@[0] <= '~',
        plain(value@, 127) ==> json_text(r@) == Some(value@),
        forall|other: Seq<char>|
            other.len() > 1 && other[0] == r@[0] && other[1] == '\0' ==> #[trigger] json_text(
                other,
            ) is None,
{
    value_text(&value_from_json(value))
}

/// Reads a JSON text.
pub fn parse_json(text: &str) -> (r: Option<Json>)
    ensures
        option_view(r) == json_text(text@),
{
    match value_from_text(text) {
        Some(value) => Some(json_from_value(&value)),
        None => None,
    }
}

} // verus!
