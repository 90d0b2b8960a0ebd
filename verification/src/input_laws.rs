//! What becomes of the input items of a request, and which errors are cured by it.

use crate::json::JsonView;
use crate::responses_input::ProxyError;
use crate::{json, responses_input, text};
use vstd::prelude::*;
use vstd::string::*;

verus! {

/// Whether an item is of a kind whose content must be empty.
pub open spec fn is_kept_empty(item: JsonView) -> bool {
    ||| item.get("type"@) == Some(JsonView::Str("reasoning"@))
    ||| item.get("type"@) == Some(JsonView::Str("function_call"@))
    ||| item.get("type"@) == Some(JsonView::Str("function_call_output"@))
}

/// Whether an item is of such a kind and has something in its content array.
pub open spec fn is_rejected(item: JsonView) -> bool {
    is_kept_empty(item) && (item.get("content"@) matches Some(JsonView::Array(parts)) && parts.len()
        > 0)
}

/// After the repair no item of a kind whose content must be empty has anything in its content array,
/// whatever other members it has, and all else of the item is as it was.
pub proof fn law_no_rejected_content_is_left(
    body: JsonView,
    items: Seq<JsonView>,
    i: int,
    key: Seq<char>,
)
    requires
        body.get_items("input"@) == Some(items),
        0 <= i < items.len(),
    ensures
        responses_input::sanitized(body).get_items("input"@) matches Some(done) && done.len()
            == items.len() && {
            &&& is_kept_empty(items[i]) && (items[i].get("content"@) matches Some(
                JsonView::Array(parts),
            )) ==> done[i].get("content"@) == Some(JsonView::Array(Seq::empty()))
            &&& key != "content"@ ==> done[i].get(key) == items[i].get(key)
            &&& !is_rejected(items[i]) ==> done[i] == items[i]
        },
{
    reveal_strlit("type");
    reveal_strlit("content");
    let item = items[i];
    match item.get("content"@) {
        Some(JsonView::Array(parts)) => {
            if parts.len() == 0 {
                assert(parts =~= Seq::<JsonView>::empty());
            }
        },
        _ => {},
    }
}

/// The repair touches nothing but the input, and a request without input items not at all.
pub proof fn law_the_rest_of_a_request_stays(body: JsonView, key: Seq<char>)
    ensures
        key != "input"@ ==> responses_input::sanitized(body).get(key) == body.get(key),
        body.get_items("input"@) is None ==> responses_input::sanitized(body) == body
            && responses_input::body_surplus(body) == 0,
{
}

/// How many items were repaired adds up over the input: one for each that was rejected.
pub proof fn law_each_repair_is_counted(a: Seq<JsonView>, item: JsonView)
    ensures
        responses_input::surplus_count(Seq::empty()) == 0,
        responses_input::surplus_count(a.push(item)) == responses_input::surplus_count(a) + (
        if is_rejected(item) {
            1int
        } else {
            0int
        }),
{
    assert(a.push(item).drop_last() =~= a);
}

/// The number that is given back is that of all input items.
pub proof fn law_the_count_is_of_the_input(body: JsonView, items: Seq<JsonView>)
    requires
        body.get_items("input"@) == Some(items),
    ensures
        responses_input::body_surplus(body) == responses_input::surplus_count(items),
        responses_input::body_surplus(body) > 0 <==> exists|i: int|
            0 <= i < items.len() && is_rejected(#[trigger] items[i]),
{
    lemma_count(items);
}

proof fn lemma_count(items: Seq<JsonView>)
    ensures
        responses_input::surplus_count(items) > 0 <==> exists|i: int|
            0 <= i < items.len() && is_rejected(#[trigger] items[i]),
    decreases items.len(),
{
    if items.len() > 0 {
        let front = items.drop_last();
        lemma_count(front);
        assert(items[items.len() - 1] == items.last());
        if exists|i: int| 0 <= i < front.len() && is_rejected(#[trigger] front[i]) {
            let i = choose|i: int| 0 <= i < front.len() && is_rejected(#[trigger] front[i]);
            assert(is_rejected(items[i]));
        }
        if exists|i: int| 0 <= i < items.len() && is_rejected(#[trigger] items[i]) {
            let i = choose|i: int| 0 <= i < items.len() && is_rejected(#[trigger] items[i]);
            if i < front.len() {
                assert(is_rejected(front[i]));
            }
        }
    }
}

/// An error message that names the rejection anywhere in it, in whatever case, is known; and no
/// message is that has none of the phrases in it.
pub proof fn law_a_message_is_known_by_its_phrases(message: Seq<char>)
    ensures
        responses_input::names_array_too_long(message) <==> {
            ||| text::occurs(text::lower(message), "array too long"@)
            ||| text::occurs(text::lower(message), "array_above_max_length"@)
            ||| text::occurs(text::lower(message), "maximum length 0"@)
            ||| text::occurs(text::lower(message), "expected an array with maximum length"@)
        },
{
}

/// The message of an error is looked for in `error.message`, `message`, `detail` and `error`, in this
/// order, and the first that is a string is taken.
pub proof fn law_the_first_message_counts(value: JsonView)
    ensures
        ({
            let nested = match value.get("error"@) {
                Some(error) => error.get("message"@),
                None => None,
            };
            &&& nested matches Some(JsonView::Str(s)) ==> responses_input::error_field(value)
                == Some(s)
            &&& !(nested matches Some(JsonView::Str(_))) ==> (value.get("message"@) matches Some(
                JsonView::Str(s),
            ) ==> responses_input::error_field(value) == Some(s))
            &&& !(nested matches Some(JsonView::Str(_))) && !(value.get("message"@) matches Some(
                JsonView::Str(_),
            )) ==> (value.get("detail"@) matches Some(JsonView::Str(s))
                ==> responses_input::error_field(value) == Some(s))
            &&& !(nested matches Some(JsonView::Str(_))) && !(value.get("message"@) matches Some(
                JsonView::Str(_),
            )) && !(value.get("detail"@) matches Some(JsonView::Str(_))) ==> (match value.get(
                "error"@,
            ) {
                Some(JsonView::Str(s)) => responses_input::error_field(value) == Some(s),
                _ => responses_input::error_field(value) is None,
            })
        }),
{
}

/// A rejection is an answer of the upstream with the status 400 or 422 whose message names it: the
/// message in its JSON, or the body itself where it is no JSON. Anything else is none.
pub proof fn law_a_rejection_is_known(error: ProxyError)
    ensures
        error is Other ==> !responses_input::is_rejection(error),
        error matches ProxyError::UpstreamError { status, body } ==> {
            &&& body is None ==> !responses_input::is_rejection(error)
            &&& status != 400 && status != 422 ==> !responses_input::is_rejection(error)
            &&& (status == 400 || status == 422) && (body matches Some(b) && json::json_text(b@)
                is None) ==> responses_input::is_rejection(error)
                == responses_input::names_array_too_long(body->Some_0@)
            &&& (status == 400 || status == 422) && (body matches Some(b) && (json::json_text(b@)
                matches Some(value) && responses_input::error_field(value) is Some))
                ==> responses_input::is_rejection(error) == responses_input::names_array_too_long(
                responses_input::error_field(json::json_text(body->Some_0@)->Some_0)->Some_0,
            )
        },
{
}

} // verus!
