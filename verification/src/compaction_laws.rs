//! What a compaction keeps of a conversation, and what comes back of it.

use crate::json::JsonView;
use crate::{remote_compaction, text};
use vstd::prelude::*;
use vstd::string::*;

verus! {

/// Whether a part has `t` under `key`, as a string that has more than white space in it and is `t`
/// without the white space around it.
pub open spec fn says(part: JsonView, key: Seq<char>, t: Seq<char>) -> bool {
    part.get(key) matches Some(JsonView::Str(s)) && !text::is_blank(s) && t == text::trim(s)
}

/// Whether some part of the content of an output item has `t` as its text or its refusal.
pub open spec fn content_says(item: JsonView, t: Seq<char>) -> bool {
    item.get_items("content"@) matches Some(parts) && exists|j: int|
        0 <= j < parts.len() && (says(#[trigger] parts[j], "text"@, t) || says(
            parts[j],
            "refusal"@,
            t,
        ))
}

/// Whether some part of the summary of an output item has `t` as its text.
pub open spec fn summary_says(item: JsonView, t: Seq<char>) -> bool {
    item.get_items("summary"@) matches Some(parts) && exists|j: int|
        0 <= j < parts.len() && says(#[trigger] parts[j], "text"@, t)
}

/// Whether an output item says `t` somewhere.
pub open spec fn item_says(item: JsonView, t: Seq<char>) -> bool {
    content_says(item, t) || summary_says(item, t)
}

/// Whether one text stands before another in a third.
pub open spec fn occur_in_order(s: Seq<char>, first: Seq<char>, second: Seq<char>) -> bool {
    exists|i: int, j: int|
        i + first.len() <= j && #[trigger] text::occurs_at(s, first, i) && #[trigger] text::occurs_at(
            s,
            second,
            j,
        )
}

/// Texts that are joined one after the other.
proof fn lemma_join_append(a: Seq<Seq<char>>, b: Seq<Seq<char>>, between: Seq<char>)
    requires
        a.len() > 0,
        b.len() > 0,
    ensures
        text::join(a + b, between) == text::join(a, between) + between + text::join(b, between),
    decreases b.len(),
{
    let all = a + b;
    assert(all.drop_last() =~= a + b.drop_last());
    assert(all.last() == b.last());
    if b.len() == 1 {
        assert(all.drop_last() =~= a);
    } else {
        lemma_join_append(a, b.drop_last(), between);
        assert(text::join(all, between) =~= text::join(a, between) + between + text::join(
            b,
            between,
        ));
    }
}

/// Two of the texts that are joined stand there in their order.
proof fn lemma_join_order(parts: Seq<Seq<char>>, between: Seq<char>, m: int, n: int)
    requires
        0 <= m <= n < parts.len(),
    ensures
        text::occurs(text::join(parts, between), parts[m]),
        m < n ==> occur_in_order(text::join(parts, between), parts[m], parts[n]),
{
    let whole = text::join(parts, between);
    let i = lemma_join_place(parts, between, m);
    if m < n {
        let front = parts.take(n);
        assert(front[m] == parts[m]);
        let k = lemma_join_place(front, between, m);
        let joined = text::join(front, between);
        assert(parts =~= front + parts.skip(n));
        lemma_join_append(front, parts.skip(n), between);
        assert(whole.subrange(k, k + parts[m].len()) =~= joined.subrange(k, k + parts[m].len()));
        assert(text::occurs_at(whole, parts[m], k));
        let tail = parts.skip(n);
        let l = lemma_join_place(tail, between, 0);
        let at = joined.len() + between.len() + l;
        assert(tail[0] == parts[n]);
        assert(whole.subrange(at, at + parts[n].len()) =~= text::join(tail, between).subrange(
            l,
            l + parts[n].len(),
        ));
        assert(text::occurs_at(whole, parts[n], at));
    }
}

/// Where one of the texts that are joined stands.
proof fn lemma_join_place(parts: Seq<Seq<char>>, between: Seq<char>, m: int) -> (at: int)
    requires
        0 <= m < parts.len(),
    ensures
        text::occurs_at(text::join(parts, between), parts[m], at),
    decreases parts.len(),
{
    let whole = text::join(parts, between);
    if parts.len() == 1 {
        assert(whole.subrange(0, parts[0].len() as int) =~= parts[0]);
        0
    } else if m == parts.len() - 1 {
        let front = text::join(parts.drop_last(), between) + between;
        assert(whole =~= front + parts.last());
        let at = front.len() as int;
        assert(whole.subrange(at, at + parts[m].len()) =~= parts[m]);
        at
    } else {
        let front = parts.drop_last();
        assert(front[m] == parts[m]);
        let at = lemma_join_place(front, between, m);
        let end = at + parts[m].len();
        assert(whole.subrange(at, end) =~= text::join(front, between).subrange(at, end));
        at
    }
}

/// The texts of items that come one after the other.
proof fn lemma_output_append(a: Seq<JsonView>, b: Seq<JsonView>)
    ensures
        remote_compaction::output_texts(a + b) == remote_compaction::output_texts(a)
            + remote_compaction::output_texts(b),
    decreases b.len(),
{
    if b.len() == 0 {
        assert(a + b =~= a);
        assert(remote_compaction::output_texts(a) + remote_compaction::output_texts(b)
            =~= remote_compaction::output_texts(a));
    } else {
        assert((a + b).drop_last() =~= a + b.drop_last());
        lemma_output_append(a, b.drop_last());
        assert(remote_compaction::output_texts(a + b) =~= remote_compaction::output_texts(a)
            + remote_compaction::output_texts(b));
    }
}

/// The texts of content parts that come one after the other.
proof fn lemma_content_append(a: Seq<JsonView>, b: Seq<JsonView>)
    ensures
        remote_compaction::content_texts(a + b) == remote_compaction::content_texts(a)
            + remote_compaction::content_texts(b),
    decreases b.len(),
{
    if b.len() == 0 {
        assert(a + b =~= a);
        assert(remote_compaction::content_texts(a) + remote_compaction::content_texts(b)
            =~= remote_compaction::content_texts(a));
    } else {
        assert((a + b).drop_last() =~= a + b.drop_last());
        lemma_content_append(a, b.drop_last());
        assert(remote_compaction::content_texts(a + b) =~= remote_compaction::content_texts(a)
            + remote_compaction::content_texts(b));
    }
}

/// The texts of summary parts that come one after the other.
proof fn lemma_summary_append(a: Seq<JsonView>, b: Seq<JsonView>)
    ensures
        remote_compaction::summary_texts(a + b) == remote_compaction::summary_texts(a)
            + remote_compaction::summary_texts(b),
    decreases b.len(),
{
    if b.len() == 0 {
        assert(a + b =~= a);
        assert(remote_compaction::summary_texts(a) + remote_compaction::summary_texts(b)
            =~= remote_compaction::summary_texts(a));
    } else {
        assert((a + b).drop_last() =~= a + b.drop_last());
        lemma_summary_append(a, b.drop_last());
        assert(remote_compaction::summary_texts(a + b) =~= remote_compaction::summary_texts(a)
            + remote_compaction::summary_texts(b));
    }
}

/// One content part.
proof fn lemma_content_one(part: JsonView)
    ensures
        remote_compaction::content_texts(seq![part]) == remote_compaction::part_text(part, "text"@)
            + remote_compaction::part_text(part, "refusal"@),
{
    reveal_with_fuel(remote_compaction::content_texts, 2);
    assert(seq![part].drop_last() =~= Seq::<JsonView>::empty());
    assert(remote_compaction::content_texts(seq![part]) =~= remote_compaction::part_text(
        part,
        "text"@,
    ) + remote_compaction::part_text(part, "refusal"@));
}

/// One summary part.
proof fn lemma_summary_one(part: JsonView)
    ensures
        remote_compaction::summary_texts(seq![part]) == remote_compaction::part_text(part, "text"@),
{
    reveal_with_fuel(remote_compaction::summary_texts, 2);
    assert(seq![part].drop_last() =~= Seq::<JsonView>::empty());
    assert(remote_compaction::summary_texts(seq![part]) =~= remote_compaction::part_text(
        part,
        "text"@,
    ));
}

/// A text that a content part has is among those of the content.
proof fn lemma_content_has(parts: Seq<JsonView>, j: int, t: Seq<char>) -> (m: int)
    requires
        0 <= j < parts.len(),
        says(parts[j], "text"@, t) || says(parts[j], "refusal"@, t),
    ensures
        0 <= m < remote_compaction::content_texts(parts).len(),
        remote_compaction::content_texts(parts)[m] == t,
{
    let a = parts.take(j);
    let b = parts.skip(j + 1);
    assert(parts =~= a + seq![parts[j]] + b);
    lemma_content_append(a + seq![parts[j]], b);
    lemma_content_append(a, seq![parts[j]]);
    lemma_content_one(parts[j]);
    let at = remote_compaction::content_texts(a).len() as int;
    if says(parts[j], "text"@, t) {
        at
    } else {
        at + remote_compaction::part_text(parts[j], "text"@).len()
    }
}

/// A text that a summary part has is among those of the summary.
proof fn lemma_summary_has(parts: Seq<JsonView>, j: int, t: Seq<char>) -> (m: int)
    requires
        0 <= j < parts.len(),
        says(parts[j], "text"@, t),
    ensures
        0 <= m < remote_compaction::summary_texts(parts).len(),
        remote_compaction::summary_texts(parts)[m] == t,
{
    let a = parts.take(j);
    let b = parts.skip(j + 1);
    assert(parts =~= a + seq![parts[j]] + b);
    lemma_summary_append(a + seq![parts[j]], b);
    lemma_summary_append(a, seq![parts[j]]);
    lemma_summary_one(parts[j]);
    remote_compaction::summary_texts(a).len() as int
}

/// A text that an item says is among its texts; what its content says comes first.
proof fn lemma_item_has(item: JsonView, t: Seq<char>) -> (m: int)
    requires
        item_says(item, t),
    ensures
        0 <= m < remote_compaction::item_texts(item).len(),
        remote_compaction::item_texts(item)[m] == t,
{
    let content = match item.get_items("content"@) {
        Some(parts) => remote_compaction::content_texts(parts),
        None => Seq::empty(),
    };
    if content_says(item, t) {
        let parts = item.get_items("content"@)->Some_0;
        let j = choose|j: int|
            0 <= j < parts.len() && (says(#[trigger] parts[j], "text"@, t) || says(
                parts[j],
                "refusal"@,
                t,
            ));
        lemma_content_has(parts, j, t)
    } else {
        let parts = item.get_items("summary"@)->Some_0;
        let j = choose|j: int| 0 <= j < parts.len() && says(#[trigger] parts[j], "text"@, t);
        content.len() + lemma_summary_has(parts, j, t)
    }
}

/// The texts of all items are those of the items before one, its own, and those of the items behind
/// it.
proof fn lemma_output_split(items: Seq<JsonView>, i: int)
    requires
        0 <= i < items.len(),
    ensures
        remote_compaction::output_texts(items) == remote_compaction::output_texts(items.take(i))
            + remote_compaction::item_texts(items[i]) + remote_compaction::output_texts(
            items.skip(i + 1),
        ),
{
    let one = seq![items[i]];
    assert(items =~= items.take(i) + one + items.skip(i + 1));
    lemma_output_append(items.take(i) + one, items.skip(i + 1));
    lemma_output_append(items.take(i), one);
    reveal_with_fuel(remote_compaction::output_texts, 2);
    assert(one.drop_last() =~= Seq::<JsonView>::empty());
    assert(remote_compaction::output_texts(one) =~= remote_compaction::item_texts(items[i]));
}

/// Everything that an output item says stands in the summary, whatever the other items are.
pub proof fn law_nothing_that_was_said_is_lost(
    response: JsonView,
    items: Seq<JsonView>,
    i: int,
    t: Seq<char>,
)
    requires
        response.get_items("output"@) == Some(items),
        0 <= i < items.len(),
        item_says(items[i], t),
    ensures
        text::occurs(remote_compaction::summary_of(response), t),
{
    let m = lemma_item_has(items[i], t);
    lemma_output_split(items, i);
    let at = remote_compaction::output_texts(items.take(i)).len() + m;
    assert(remote_compaction::output_texts(items)[at] == t);
    lemma_join_order(remote_compaction::output_texts(items), "\n\n"@, at, at);
}

/// What an earlier item says stands in the summary before what a later one says.
pub proof fn law_the_summary_keeps_the_order(
    response: JsonView,
    items: Seq<JsonView>,
    i: int,
    k: int,
    earlier: Seq<char>,
    later: Seq<char>,
)
    requires
        response.get_items("output"@) == Some(items),
        0 <= i < k < items.len(),
        item_says(items[i], earlier),
        item_says(items[k], later),
    ensures
        occur_in_order(remote_compaction::summary_of(response), earlier, later),
{
    let m = lemma_item_has(items[i], earlier);
    let n = lemma_item_has(items[k], later);
    let all = remote_compaction::output_texts(items);
    lemma_output_split(items, i);
    lemma_output_split(items, k);
    let front = items.take(k);
    assert(front.take(i) =~= items.take(i));
    assert(front[i] == items[i]);
    lemma_output_split(front, i);
    let a = remote_compaction::output_texts(items.take(i)).len() + m;
    let b = remote_compaction::output_texts(items.take(k)).len() + n;
    assert(all[a] == earlier);
    assert(all[b] == later);
    lemma_join_order(all, "\n\n"@, a, b);
}

/// What the content of an item says stands in the summary before what its own summary says.
pub proof fn law_content_goes_before_the_summary_of_an_item(
    response: JsonView,
    items: Seq<JsonView>,
    i: int,
    first: Seq<char>,
    second: Seq<char>,
)
    requires
        response.get_items("output"@) == Some(items),
        0 <= i < items.len(),
        content_says(items[i], first),
        summary_says(items[i], second),
    ensures
        occur_in_order(remote_compaction::summary_of(response), first, second),
{
    let item = items[i];
    let parts = item.get_items("content"@)->Some_0;
    let j = choose|j: int|
        0 <= j < parts.len() && (says(#[trigger] parts[j], "text"@, first) || says(
            parts[j],
            "refusal"@,
            first,
        ));
    let m = lemma_content_has(parts, j, first);
    let others = item.get_items("summary"@)->Some_0;
    let l = choose|l: int| 0 <= l < others.len() && says(#[trigger] others[l], "text"@, second);
    let n = lemma_summary_has(others, l, second);
    lemma_output_split(items, i);
    let at = remote_compaction::output_texts(items.take(i)).len();
    let all = remote_compaction::output_texts(items);
    let size = remote_compaction::content_texts(parts).len();
    assert(remote_compaction::item_texts(item)[m] == first);
    assert(remote_compaction::item_texts(item)[size + n] == second);
    assert(all[at + m] == first);
    assert(all[at + size + n] == second);
    lemma_join_order(all, "\n\n"@, at + m, at + size + n);
}

/// What an earlier part of the content of an item says stands in the summary before what a later one
/// says, and the text of a part before its refusal.
pub proof fn law_parts_keep_their_order(
    response: JsonView,
    items: Seq<JsonView>,
    i: int,
    parts: Seq<JsonView>,
    j: int,
    l: int,
    first: Seq<char>,
    second: Seq<char>,
)
    requires
        response.get_items("output"@) == Some(items),
        0 <= i < items.len(),
        items[i].get_items("content"@) == Some(parts),
        0 <= j <= l < parts.len(),
        j < l ==> (says(parts[j], "text"@, first) || says(parts[j], "refusal"@, first)) && (says(
            parts[l],
            "text"@,
            second,
        ) || says(parts[l], "refusal"@, second)),
        j == l ==> says(parts[j], "text"@, first) && says(parts[j], "refusal"@, second),
    ensures
        occur_in_order(remote_compaction::summary_of(response), first, second),
{
    let texts = remote_compaction::content_texts(parts);
    let all = remote_compaction::output_texts(items);
    let at = remote_compaction::output_texts(items.take(i)).len();
    lemma_output_split(items, i);
    let (m, n) = if j < l {
        let a = parts.take(l);
        let b = parts.skip(l);
        assert(parts =~= a + b);
        assert(a[j] == parts[j]);
        assert(b[0] == parts[l]);
        lemma_content_append(a, b);
        let m = lemma_content_has(a, j, first);
        let n = lemma_content_has(b, 0, second);
        (m, remote_compaction::content_texts(a).len() + n)
    } else {
        let a = parts.take(j);
        let b = parts.skip(j + 1);
        assert(parts =~= a + seq![parts[j]] + b);
        lemma_content_append(a + seq![parts[j]], b);
        lemma_content_append(a, seq![parts[j]]);
        lemma_content_one(parts[j]);
        let m = remote_compaction::content_texts(a).len() as int;
        (m, m + 1)
    };
    assert(texts[m] == first && texts[n] == second);
    assert(remote_compaction::item_texts(items[i])[m] == first);
    assert(remote_compaction::item_texts(items[i])[n] == second);
    assert(all[at + m] == first);
    assert(all[at + n] == second);
    lemma_join_order(all, "\n\n"@, at + m, at + n);
}

/// Whether no item says anything.
pub open spec fn all_silent(items: Seq<JsonView>) -> bool {
    forall|i: int, t: Seq<char>| 0 <= i < items.len() ==> !#[trigger] item_says(items[i], t)
}

/// Items that say nothing have no texts.
proof fn lemma_silent(items: Seq<JsonView>)
    ensures
        all_silent(items) <==> remote_compaction::output_texts(items).len() == 0,
    decreases items.len(),
{
    if items.len() > 0 {
        let front = items.drop_last();
        lemma_silent(front);
        lemma_item_silent(items.last());
        if all_silent(items) {
            assert forall|i: int, t: Seq<char>| 0 <= i < front.len() implies !#[trigger] item_says(
                front[i],
                t,
            ) by {
                assert(front[i] == items[i]);
            }
            assert forall|t: Seq<char>| !#[trigger] item_says(items.last(), t) by {
                assert(items[items.len() - 1] == items.last());
            }
        } else {
            let (i, t) = choose|i: int, t: Seq<char>|
                0 <= i < items.len() && #[trigger] item_says(items[i], t);
            let m = lemma_item_has(items[i], t);
            lemma_output_split(items, i);
        }
    }
}

/// An item that says nothing has no texts.
proof fn lemma_item_silent(item: JsonView)
    ensures
        (forall|t: Seq<char>| !#[trigger] item_says(item, t)) ==> remote_compaction::item_texts(
            item,
        ).len() == 0,
{
    if forall|t: Seq<char>| !#[trigger] item_says(item, t) {
        match item.get_items("content"@) {
            Some(parts) => {
                assert forall|j: int, t: Seq<char>| 0 <= j < parts.len() implies !#[trigger] says(
                    parts[j],
                    "text"@,
                    t,
                ) by {
                    assert(!item_says(item, t));
                }
                assert forall|j: int, t: Seq<char>| 0 <= j < parts.len() implies !#[trigger] says(
                    parts[j],
                    "refusal"@,
                    t,
                ) by {
                    assert(!item_says(item, t));
                }
                lemma_content_silent(parts);
            },
            None => {},
        }
        match item.get_items("summary"@) {
            Some(parts) => {
                assert forall|j: int, t: Seq<char>| 0 <= j < parts.len() implies !#[trigger] says(
                    parts[j],
                    "text"@,
                    t,
                ) by {
                    assert(!item_says(item, t));
                }
                lemma_summary_silent(parts);
            },
            None => {},
        }
    }
}

proof fn lemma_part_silent(part: JsonView, key: Seq<char>)
    requires
        forall|t: Seq<char>| !#[trigger] says(part, key, t),
    ensures
        remote_compaction::part_text(part, key).len() == 0,
{
    match part.get_text(key) {
        Some(s) => {
            assert(!says(part, key, text::trim(s)));
        },
        None => {},
    }
}

proof fn lemma_content_silent(parts: Seq<JsonView>)
    requires
        forall|j: int, t: Seq<char>|
            0 <= j < parts.len() ==> !#[trigger] says(parts[j], "text"@, t),
        forall|j: int, t: Seq<char>|
            0 <= j < parts.len() ==> !#[trigger] says(parts[j], "refusal"@, t),
    ensures
        remote_compaction::content_texts(parts).len() == 0,
    decreases parts.len(),
{
    if parts.len() > 0 {
        let front = parts.drop_last();
        assert(parts.last() == parts[parts.len() - 1]);
        assert forall|j: int, t: Seq<char>| 0 <= j < front.len() implies !#[trigger] says(
            front[j],
            "text"@,
            t,
        ) by {
            assert(front[j] == parts[j]);
        }
        assert forall|j: int, t: Seq<char>| 0 <= j < front.len() implies !#[trigger] says(
            front[j],
            "refusal"@,
            t,
        ) by {
            assert(front[j] == parts[j]);
        }
        lemma_content_silent(front);
        lemma_part_silent(parts.last(), "text"@);
        lemma_part_silent(parts.last(), "refusal"@);
    }
}

proof fn lemma_summary_silent(parts: Seq<JsonView>)
    requires
        forall|j: int, t: Seq<char>|
            0 <= j < parts.len() ==> !#[trigger] says(parts[j], "text"@, t),
    ensures
        remote_compaction::summary_texts(parts).len() == 0,
    decreases parts.len(),
{
    if parts.len() > 0 {
        let front = parts.drop_last();
        assert(parts.last() == parts[parts.len() - 1]);
        assert forall|j: int, t: Seq<char>| 0 <= j < front.len() implies !#[trigger] says(
            front[j],
            "text"@,
            t,
        ) by {
            assert(front[j] == parts[j]);
        }
        lemma_summary_silent(front);
        lemma_part_silent(parts.last(), "text"@);
    }
}

/// A response that says nothing gets a sentence that says so for its summary.
pub proof fn law_silence_is_named(response: JsonView)
    requires
        response.get_items("output"@) matches Some(items) ==> all_silent(items),
    ensures
        remote_compaction::summary_of(response)
            == "No textual summary was returned by the upstream model."@,
{
    match response.get_items("output"@) {
        Some(items) => lemma_silent(items),
        None => {},
    }
}

/// The summary of a response is that of its first items, an empty line, and that of the others, where
/// both say something; where one of the two says nothing, it is that of the other.
pub proof fn law_the_summary_is_put_together(
    whole: JsonView,
    first: JsonView,
    second: JsonView,
    a: Seq<JsonView>,
    b: Seq<JsonView>,
)
    requires
        whole.get_items("output"@) == Some(a + b),
        first.get_items("output"@) == Some(a),
        second.get_items("output"@) == Some(b),
    ensures
        !all_silent(a) && !all_silent(b) ==> remote_compaction::summary_of(whole)
            == remote_compaction::summary_of(first) + "\n\n"@ + remote_compaction::summary_of(
            second,
        ),
        all_silent(b) ==> remote_compaction::summary_of(whole) == remote_compaction::summary_of(
            first,
        ),
        all_silent(a) ==> remote_compaction::summary_of(whole) == remote_compaction::summary_of(
            second,
        ),
{
    lemma_silent(a);
    lemma_silent(b);
    lemma_output_append(a, b);
    let x = remote_compaction::output_texts(a);
    let y = remote_compaction::output_texts(b);
    if x.len() > 0 && y.len() > 0 {
        lemma_join_append(x, y, "\n\n"@);
    } else if x.len() == 0 {
        assert(x + y =~= y);
    } else {
        assert(x + y =~= x);
    }
}

/// An item whose content is one part that says one thing, and which has no summary, gives just that,
/// trimmed.
pub proof fn law_one_text_is_its_own_summary(
    response: JsonView,
    item: JsonView,
    part: JsonView,
    t: Seq<char>,
)
    requires
        response.get_items("output"@) == Some(seq![item]),
        item.get_items("content"@) == Some(seq![part]),
        item.get_items("summary"@) is None,
        says(part, "text"@, t) && part.get("refusal"@) is None || says(part, "refusal"@, t)
            && part.get("text"@) is None,
    ensures
        remote_compaction::summary_of(response) == t,
{
    lemma_content_one(part);
    lemma_output_split(seq![item], 0);
    assert(seq![item].take(0) =~= Seq::<JsonView>::empty());
    assert(seq![item].skip(1) =~= Seq::<JsonView>::empty());
    assert(remote_compaction::output_texts(seq![item]) =~= seq![t]);
}

/// A compacted response has one output item, a compaction; it is completed; and nothing else of it
/// changes.
pub proof fn law_a_compacted_response(response: JsonView, key: Seq<char>)
    requires
        response is Object || response is Null,
    ensures
        ({
            let done = remote_compaction::compacted(response);
            &&& done.get_items("output"@) matches Some(items) && items.len() == 1
                && items[0].get_text("type"@) == Some("compaction"@) && (items[0].get_text(
                "encrypted_content"@,
            ) matches Some(sealed) && "ccswitch-remote-compaction-v1:"@.is_prefix_of(sealed))
            &&& done.get_text("status"@) == Some("completed"@)
            &&& key != "output"@ && key != "status"@ ==> done.get(key) == response.get(key)
        }),
{
    reveal_strlit("output");
    reveal_strlit("status");
    reveal_strlit("type");
    reveal_strlit("encrypted_content");
    assert("output"@[0] != "status"@[0]);
    assert("type"@.len() == 4);
    assert("encrypted_content"@.len() == 17);
    let summary = remote_compaction::summary_of(response);
    let sealed = "ccswitch-remote-compaction-v1:"@ + remote_compaction::base64url(
        vstd::utf8::encode_utf8(summary),
    );
    assert(sealed.subrange(0, "ccswitch-remote-compaction-v1:"@.len() as int)
        =~= "ccswitch-remote-compaction-v1:"@);
}

/// A request asks for a compaction exactly where some input item, whatever else is in it, has the type
/// of a trigger.
pub proof fn law_one_trigger_is_enough(body: JsonView, items: Seq<JsonView>)
    requires
        body.get_items("input"@) == Some(items),
    ensures
        remote_compaction::asks_for_compaction(body) <==> exists|i: int|
            0 <= i < items.len() && (#[trigger] items[i]).get("type"@) == Some(
                JsonView::Str("compaction_trigger"@),
            ),
{
    if exists|i: int|
        0 <= i < items.len() && (#[trigger] items[i]).get("type"@) == Some(
            JsonView::Str("compaction_trigger"@),
        ) {
        let i = choose|i: int|
            0 <= i < items.len() && (#[trigger] items[i]).get("type"@) == Some(
                JsonView::Str("compaction_trigger"@),
            );
        assert(remote_compaction::is_trigger(items[i]));
    }
    if remote_compaction::asks_for_compaction(body) {
        let i = choose|i: int|
            0 <= i < items.len() && remote_compaction::is_trigger(#[trigger] items[i]);
        assert(items[i].get("type"@) == Some(JsonView::Str("compaction_trigger"@)));
    }
}

/// A compaction item gives its text back behind a sentence, exactly where it carries one: behind the
/// prefix that this application writes, as base64 of UTF-8 that is not blank.
pub proof fn law_what_comes_back(item: JsonView, encoded: Seq<char>, text: Seq<char>)
    requires
        item.get_text("encrypted_content"@) == Some(
            "ccswitch-remote-compaction-v1:"@ + encoded,
        ),
    ensures
        remote_compaction::base64url_bytes(encoded) == Some(vstd::utf8::encode_utf8(text))
            && !text::is_blank(text) ==> remote_compaction::restored(item) == Some(
            "The following is a compacted summary of the earlier conversation. Treat it as authoritative context:\n\n"@
                + text,
        ),
        remote_compaction::base64url_bytes(encoded) is None ==> remote_compaction::restored(
            item,
        ) is None,
{
    broadcast use {vstd::utf8::encode_utf8_decode_utf8, vstd::utf8::encode_utf8_valid_utf8};

    let prefix = "ccswitch-remote-compaction-v1:"@;
    let sealed = prefix + encoded;
    assert(sealed.skip(prefix.len() as int) =~= encoded);
    assert(sealed.subrange(0, prefix.len() as int) =~= prefix);
}

/// The stream of a compacted response announces and finishes its first output item, between the
/// response as it is.
pub proof fn law_the_stream_carries_the_item(response: JsonView, items: Seq<JsonView>)
    requires
        response.get_items("output"@) == Some(items),
        items.len() > 0,
    ensures
        ({
            let events = remote_compaction::stream_of(response);
            &&& events.len() == 5
            &&& events[0] == remote_compaction::CompactionEventView::ResponseCreated(response)
            &&& events[1] == remote_compaction::CompactionEventView::ResponseInProgress(response)
            &&& events[2] == (remote_compaction::CompactionEventView::OutputItemAdded {
                index: 0,
                item: items[0],
            })
            &&& events[3] == (remote_compaction::CompactionEventView::OutputItemDone {
                index: 0,
                item: items[0],
            })
            &&& events[4] == remote_compaction::CompactionEventView::ResponseCompleted(response)
        }),
{
}

/// Nothing else comes back: no text without the prefix, none that is not UTF-8, and no blank one.
pub proof fn law_nothing_else_comes_back(item: JsonView, encoded: Seq<char>, bytes: Seq<u8>)
    ensures
        item.get_text("encrypted_content"@) is None ==> remote_compaction::restored(item) is None,
        item.get_text("encrypted_content"@) matches Some(sealed)
            && !"ccswitch-remote-compaction-v1:"@.is_prefix_of(sealed)
            ==> remote_compaction::restored(item) is None,
        item.get_text("encrypted_content"@) == Some("ccswitch-remote-compaction-v1:"@ + encoded)
            && remote_compaction::base64url_bytes(encoded) == Some(bytes) && (
        !vstd::utf8::valid_utf8(bytes) || text::is_blank(vstd::utf8::decode_utf8(bytes)))
            ==> remote_compaction::restored(item) is None,
{
    let prefix = "ccswitch-remote-compaction-v1:"@;
    let sealed = prefix + encoded;
    assert(sealed.skip(prefix.len() as int) =~= encoded);
}

} // verus!
