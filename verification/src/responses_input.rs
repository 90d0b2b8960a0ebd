//! Repairs the `input` items of a Responses request whose `content` array a
//! strict upstream rejects.
//!
//! A conversation is replayed in full on every turn, and history that one
//! provider wrote can carry a `content` array where the next provider's schema
//! wants an empty one: on `reasoning`, `function_call` and
//! `function_call_output` items. The arrays are emptied before the request
//! leaves, and once more when an upstream rejects it with the matching error.

use crate::json::{json_from_value, value_from_text, value_text, Json, JsonView};
use crate::text::{str_contains, str_eq};
use crate::{json, text};
use vstd::prelude::*;

verus! {

/// What went wrong with a request that was passed on.
#[derive(Debug)]
pub enum ProxyError {
    /// The upstream answered with an error.
    UpstreamError { status: u16, body: Option<String> },
    /// Anything else.
    Other,
}

/// The item types whose `content` must be an empty array. Messages are not among them:
/// their `content` is valid and stays.
pub open spec fn is_empty_content_type(item_type: Seq<char>) -> bool {
    ||| item_type == "reasoning"@
    ||| item_type == "function_call"@
    ||| item_type == "function_call_output"@
}

/// Whether an input item holds a `content` array that has to be emptied.
pub open spec fn has_surplus_content(item: JsonView) -> bool {
    &&& item.get_text("type"@) matches Some(item_type) && is_empty_content_type(item_type)
    &&& item.get_items("content"@) matches Some(parts) && parts.len() > 0
}

/// An input item with its surplus content taken out.
pub open spec fn sanitized_item(item: JsonView) -> JsonView {
    if has_surplus_content(item) {
        item.put("content"@, JsonView::Array(Seq::empty()))
    } else {
        item
    }
}

/// A request body with the surplus content of its input items taken out.
pub open spec fn sanitized(body: JsonView) -> JsonView {
    match body.get_items("input"@) {
        Some(items) => body.put(
            "input"@,
            JsonView::Array(items.map_values(|item: JsonView| sanitized_item(item))),
        ),
        None => body,
    }
}

/// How many of the items hold surplus content.
pub open spec fn surplus_count(items: Seq<JsonView>) -> nat
    decreases items.len(),
{
    if items.len() == 0 {
        0
    } else {
        surplus_count(items.drop_last()) + if has_surplus_content(items.last()) {
            1nat
        } else {
            0nat
        }
    }
}

/// How many input items of a request body hold surplus content.
pub open spec fn body_surplus(body: JsonView) -> nat {
    match body.get_items("input"@) {
        Some(items) => surplus_count(items),
        None => 0,
    }
}

/// Whether an error message says that a `content` array is too long.
pub open spec fn names_array_too_long(message: Seq<char>) -> bool {
    let message = text::lower(message);
    ||| text::occurs(message, "array too long"@)
    ||| text::occurs(message, "array_above_max_length"@)
    ||| text::occurs(message, "maximum length 0"@)
    ||| text::occurs(message, "expected an array with maximum length"@)
}

/// The message inside a JSON error body: the first of `error.message`, `message`, `detail` and
/// `error` that is a string.
pub open spec fn error_field(value: JsonView) -> Option<Seq<char>> {
    let nested = match value.get("error"@) {
        Some(error) => error.get_text("message"@),
        None => None,
    };
    if nested is Some {
        nested
    } else if value.get_text("message"@) is Some {
        value.get_text("message"@)
    } else if value.get_text("detail"@) is Some {
        value.get_text("detail"@)
    } else {
        value.get_text("error"@)
    }
}

/// The readable text of an error body: its message, else the JSON it holds, else itself.
pub open spec fn error_text(body: Seq<char>) -> Seq<char> {
    match json::json_text(body) {
        Some(value) => match error_field(value) {
            Some(message) => message,
            None => json::json_printed(value),
        },
        None => body,
    }
}

/// Whether `item_type` is one of the types whose `content` must be empty.
fn is_empty_content_item_type(item_type: &str) -> (r: bool)
    ensures
        r == is_empty_content_type(item_type@),
{
    str_eq(item_type, "reasoning") || str_eq(item_type, "function_call") || str_eq(
        item_type,
        "function_call_output",
    )
}

/// Whether an error message says that a `content` array is too long.
pub fn is_array_too_long_message(message: &str) -> (r: bool)
    ensures
        r == names_array_too_long(message@),
{
    let message = message.to_ascii_lowercase();
    str_contains(message.as_str(), "array too long") || str_contains(
        message.as_str(),
        "array_above_max_length",
    ) || str_contains(message.as_str(), "maximum length 0") || str_contains(
        message.as_str(),
        "expected an array with maximum length",
    )
}

/// The message inside a JSON error body.
pub fn error_field_text(value: &Json) -> (r: Option<&str>)
    ensures
        text::slice_text(r) == error_field(value@),
{
    if let Some(error) = value.get("error") {
        if let Some(message) = error.get_str("message") {
            return Some(message);
        }
    }
    if let Some(message) = value.get_str("message") {
        return Some(message);
    }
    if let Some(detail) = value.get_str("detail") {
        return Some(detail);
    }
    value.get_str("error")
}

/// The readable text of an error body.
pub fn extract_error_text(body: &str) -> (r: String)
    ensures
        r@ == error_text(body@),
{
    match value_from_text(body) {
        Some(value) => {
            let parsed = json_from_value(&value);
            match error_field_text(&parsed) {
                Some(message) => message.to_owned(),
                None => value_text(&value),
            }
        },
        None => body.to_owned(),
    }
}

/// Whether an upstream error is the "content array too long" rejection.
pub open spec fn is_rejection(error: ProxyError) -> bool {
    match error {
        ProxyError::UpstreamError { status, body: Some(body) } => {
            (status == 400 || status == 422) && names_array_too_long(error_text(body@))
        },
        _ => false,
    }
}

/// Whether an upstream error is the "content array too long" rejection that emptying the arrays
/// can cure.
pub fn is_content_array_too_long_error(error: &ProxyError) -> (r: bool)
    ensures
        r == is_rejection(*error),
{
    match error {
        ProxyError::UpstreamError { status, body: Some(body) } => {
            if *status != 400 && *status != 422 {
                return false;
            }
            let message = extract_error_text(body.as_str());
            is_array_too_long_message(message.as_str())
        },
        _ => false,
    }
}

/// Empties the `content` arrays that a strict schema rejects and returns how many there were.
/// Strings, nulls, missing and empty content, and messages stay as they are.
pub fn sanitize_input_content_arrays(body: &mut Json) -> (fixed: usize)
    ensures
        final(body)@ == sanitized(old(body)@),
        fixed == body_surplus(old(body)@),
{
    let ghost before = body@;
    let mut items: Vec<Json> = Vec::new();
    let mut fixed: usize = 0;
    {
        let input = match body.get_array("input") {
            Some(input) => input,
            None => {
                return 0;
            },
        };
        let ghost views = json::items_view(input@);
        let mut i: usize = 0;
        proof {
            json::lemma_items_view(input@);
        }
        while i < input.len()
            invariant
                i <= input@.len(),
                views == json::items_view(input@),
                views.len() == input@.len(),
                json::items_view(items@) == views.take(i as int).map_values(
                    |item: JsonView| sanitized_item(item),
                ),
                fixed == surplus_count(views.take(i as int)),
                fixed <= i,
            decreases input@.len() - i,
        {
            proof {
                json::lemma_items_view(input@);
                assert(views.take(i + 1).drop_last() =~= views.take(i as int));
                assert(views.take(i + 1).last() == input@[i as int].view());
            }
            let item = &input[i];
            let mut copy = item.clone();
            let surplus = match (item.get_str("type"), item.get_array("content")) {
                (Some(item_type), Some(parts)) => {
                    proof {
                        json::lemma_items_view(parts@);
                    }
                    is_empty_content_item_type(item_type) && parts.len() > 0
                },
                _ => false,
            };
            if surplus {
                copy.insert("content", Json::Array(Vec::new()));
                fixed += 1;
            }
            proof {
                json::lemma_items_push(items@, copy);
            }
            items.push(copy);
            i += 1;
            assert(json::items_view(items@) =~= views.take(i as int).map_values(
                |item: JsonView| sanitized_item(item),
            ));
        }
        assert(views.take(i as int) =~= views);
    }
    body.insert("input", Json::Array(items));
    fixed
}

/// A second pass finds nothing to do and changes nothing.
pub proof fn law_sanitizing_twice_is_sanitizing_once(body: JsonView)
    ensures
        sanitized(sanitized(body)) == sanitized(body),
        body_surplus(sanitized(body)) == 0,
{
    match body.get_items("input"@) {
        Some(items) => {
            let once = items.map_values(|item: JsonView| sanitized_item(item));
            assert(sanitized(body).get_items("input"@) == Some(once));
            assert(once.map_values(|item: JsonView| sanitized_item(item)) =~= once) by {
                assert forall|i: int| 0 <= i < once.len() implies sanitized_item(once[i])
                    == once[i] by {
                    lemma_sanitized_item(items[i]);
                }
            }
            lemma_no_surplus(once, items);
            let inner = JsonView::Array(once);
            let map = body->Object_0;
            assert(map.insert("input"@, inner).insert("input"@, inner) =~= map.insert(
                "input"@,
                inner,
            ));
        },
        None => {},
    }
}

/// Only the `content` member of an input item can change, and only to an empty array; messages
/// and every other member stay.
pub proof fn law_sanitizing_keeps_everything_else(item: JsonView, key: Seq<char>)
    ensures
        key != "content"@ ==> sanitized_item(item).get(key) == item.get(key),
        item.get_text("type"@) == Some("message"@) ==> sanitized_item(item) == item,
        sanitized_item(item) != item ==> sanitized_item(item).get_items("content"@) == Some(
            Seq::<JsonView>::empty(),
        ),
{
    reveal_strlit("message");
    reveal_strlit("reasoning");
    reveal_strlit("function_call");
    reveal_strlit("function_call_output");
    assert("message"@.len() == 7);
    assert("reasoning"@.len() == 9);
    assert("function_call"@.len() == 13);
    assert("function_call_output"@.len() == 20);
}

proof fn lemma_sanitized_item(item: JsonView)
    ensures
        !has_surplus_content(sanitized_item(item)),
        sanitized_item(sanitized_item(item)) == sanitized_item(item),
{
    reveal_strlit("type");
    reveal_strlit("content");
    assert("type"@[0] != "content"@[0]);
}

proof fn lemma_no_surplus(once: Seq<JsonView>, items: Seq<JsonView>)
    requires
        once == items.map_values(|item: JsonView| sanitized_item(item)),
    ensures
        surplus_count(once) == 0,
    decreases items.len(),
{
    if items.len() > 0 {
        assert(once.drop_last() =~= items.drop_last().map_values(
            |item: JsonView| sanitized_item(item),
        ));
        lemma_no_surplus(once.drop_last(), items.drop_last());
        lemma_sanitized_item(items.last());
    }
}

} // verus!
