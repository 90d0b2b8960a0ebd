//! Compaction of a conversation by an upstream that does not offer it: the
//! upstream is asked for a summary, the summary travels in a compaction item,
//! and a later request gets it back as context.

use crate::json::{Json, JsonView};
use crate::text::{join2, join_list, str_eq, str_strip_prefix, string_from_utf8};
use crate::{json, text};
use base64::Engine;
use vstd::prelude::*;
use vstd::string::*;
use vstd::utf8::*;

verus! {

/// Stands before the encoded summary in a compaction item.
pub const ENCRYPTED_PREFIX: &'static str = "ccswitch-remote-compaction-v1:";

/// Asks an upstream for the summary.
pub const COMPACTION_PROMPT: &'static str = "Create a concise but complete handoff summary of the conversation so far. Preserve the user's goals, constraints, decisions, important technical details, file paths, commands, errors, and remaining work. Return only the summary; do not continue the task.";

/// Stands before a summary that is given back as context.
pub const RESTORED_CONTEXT_PREFIX: &'static str = "The following is a compacted summary of the earlier conversation. Treat it as authoritative context:\n\n";

/// Stands for the summary where the upstream returned no text.
pub const NO_SUMMARY: &'static str = "No textual summary was returned by the upstream model.";

/// The text that base64 in its URL-safe alphabet and without padding has for some bytes.
pub uninterp spec fn base64url(bytes: Seq<u8>) -> Seq<char>;

/// The bytes that a text stands for in base64 with the URL-safe alphabet and without padding;
/// `None` where it stands for none.
pub uninterp spec fn base64url_bytes(text: Seq<char>) -> Option<Seq<u8>>;

/// `Engine::encode` of base64's `URL_SAFE_NO_PAD`. The text depends on the bytes alone, and
/// `Engine::decode` gives the bytes back.
#[verifier::external_body]
fn encode_base64url(bytes: &[u8]) -> (r: String)
    ensures
        r@ == base64url(bytes@),
        base64url_bytes(r@) == Some(bytes@),
{
    base64::engine::general_purpose::URL_SAFE_NO_PAD.encode(bytes)
}

/// `Engine::decode` of base64's `URL_SAFE_NO_PAD`. The bytes depend on the text alone.
#[verifier::external_body]
fn decode_base64url(text: &str) -> (r: Option<Vec<u8>>)
    ensures
        match r {
            Some(bytes) => base64url_bytes(text@) == Some(bytes@),
            None => base64url_bytes(text@) is None,
        },
{
    base64::engine::general_purpose::URL_SAFE_NO_PAD.decode(text).ok()
}

/// Whether the item asks for a compaction.
pub open spec fn is_trigger(item: JsonView) -> bool {
    item.get_text("type"@) == Some("compaction_trigger"@)
}

/// Whether some input item of a request asks for a compaction.
pub open spec fn asks_for_compaction(body: JsonView) -> bool {
    body.get_items("input"@) matches Some(items) && exists|i: int|
        0 <= i < items.len() && is_trigger(#[trigger] items[i])
}

/// Whether a request asks for a compaction.
pub fn is_remote_compaction_request(body: &Json) -> (r: bool)
    ensures
        r == asks_for_compaction(body@),
{
    match body.get_array("input") {
        Some(items) => {
            let ghost views = json::items_view(items@);
            let mut i: usize = 0;
            while i < items.len()
                invariant
                    i <= items@.len(),
                    views == json::items_view(items@),
                    body@.get_items("input"@) == Some(views),
                    forall|j: int| 0 <= j < i ==> !is_trigger(#[trigger] views[j]),
                decreases items@.len() - i,
            {
                proof {
                    json::lemma_items_view(items@);
                    assert(views[i as int] == items@[i as int].view());
                }
                if let Some(item_type) = items[i].get_str("type") {
                    if str_eq(item_type, "compaction_trigger") {
                        assert(is_trigger(body@.get_items("input"@)->Some_0[i as int]));
                        return true;
                    }
                }
                i += 1;
            }
            proof {
                json::lemma_items_view(items@);
            }
            false
        },
        None => false,
    }
}

/// What an upstream is asked in place of a compaction.
pub fn compaction_prompt() -> (r: &'static str)
    ensures
        r@ == COMPACTION_PROMPT@,
{
    COMPACTION_PROMPT
}

/// The text under `key`, trimmed, where there is one that is not blank.
pub open spec fn part_text(part: JsonView, key: Seq<char>) -> Seq<Seq<char>> {
    match part.get_text(key) {
        Some(t) => if text::is_blank(t) {
            Seq::empty()
        } else {
            seq![text::trim(t)]
        },
        None => Seq::empty(),
    }
}

/// The texts and refusals of content parts, in order.
pub open spec fn content_texts(parts: Seq<JsonView>) -> Seq<Seq<char>>
    decreases parts.len(),
{
    if parts.len() == 0 {
        Seq::empty()
    } else {
        content_texts(parts.drop_last()) + part_text(parts.last(), "text"@) + part_text(
            parts.last(),
            "refusal"@,
        )
    }
}

/// The texts of summary parts, in order.
pub open spec fn summary_texts(parts: Seq<JsonView>) -> Seq<Seq<char>>
    decreases parts.len(),
{
    if parts.len() == 0 {
        Seq::empty()
    } else {
        summary_texts(parts.drop_last()) + part_text(parts.last(), "text"@)
    }
}

/// The texts of one output item: of its content, then of its summary.
pub open spec fn item_texts(item: JsonView) -> Seq<Seq<char>> {
    let content = match item.get_items("content"@) {
        Some(parts) => content_texts(parts),
        None => Seq::empty(),
    };
    let summary = match item.get_items("summary"@) {
        Some(parts) => summary_texts(parts),
        None => Seq::empty(),
    };
    content + summary
}

/// The texts of all output items, in order.
pub open spec fn output_texts(items: Seq<JsonView>) -> Seq<Seq<char>>
    decreases items.len(),
{
    if items.len() == 0 {
        Seq::empty()
    } else {
        output_texts(items.drop_last()) + item_texts(items.last())
    }
}

/// The summary that a response carries: its texts with an empty line between them.
pub open spec fn summary_of(response: JsonView) -> Seq<char> {
    let parts = match response.get_items("output"@) {
        Some(items) => output_texts(items),
        None => Seq::empty(),
    };
    if parts.len() == 0 {
        NO_SUMMARY@
    } else {
        text::join(parts, "\n\n"@)
    }
}

/// The compaction item that carries a summary.
pub open spec fn compaction_item(summary: Seq<char>) -> JsonView {
    JsonView::empty_object().put("type"@, JsonView::Str("compaction"@)).put(
        "encrypted_content"@,
        JsonView::Str(ENCRYPTED_PREFIX@ + base64url(encode_utf8(summary))),
    )
}

/// A response whose output is the one compaction item with its summary.
pub open spec fn compacted(response: JsonView) -> JsonView {
    let base = if response is Null {
        JsonView::empty_object()
    } else {
        response
    };
    base.put("output"@, JsonView::Array(seq![compaction_item(summary_of(response))])).put(
        "status"@,
        JsonView::Str("completed"@),
    )
}

/// The context that the decoded bytes of a summary give.
pub open spec fn context_of(decoded: Seq<u8>) -> Option<Seq<char>> {
    if valid_utf8(decoded) && !text::is_blank(decode_utf8(decoded)) {
        Some(RESTORED_CONTEXT_PREFIX@ + decode_utf8(decoded))
    } else {
        None
    }
}

/// The context that a compaction item gives back.
pub open spec fn restored(item: JsonView) -> Option<Seq<char>> {
    match item.get_text("encrypted_content"@) {
        Some(encrypted) => if ENCRYPTED_PREFIX@.is_prefix_of(encrypted) {
            match base64url_bytes(encrypted.skip(ENCRYPTED_PREFIX@.len() as int)) {
                Some(decoded) => context_of(decoded),
                None => None,
            }
        } else {
            None
        },
        None => None,
    }
}

/// The context that the decoded bytes of a summary give.
pub fn context_from_bytes(decoded: Vec<u8>) -> (r: Option<String>)
    ensures
        text::text_of(r) == context_of(decoded@),
{
    match string_from_utf8(decoded) {
        Some(summary) => if summary.as_str().trim().is_empty() {
            None
        } else {
            Some(join2(RESTORED_CONTEXT_PREFIX, summary.as_str()))
        },
        None => None,
    }
}

/// The context that a compaction item gives back.
pub fn restored_compaction_context(item: &Json) -> (r: Option<String>)
    ensures
        text::text_of(r) == restored(item@),
{
    let encrypted = match item.get_str("encrypted_content") {
        Some(encrypted) => encrypted,
        None => {
            return None;
        },
    };
    match str_strip_prefix(encrypted, ENCRYPTED_PREFIX) {
        Some(encoded) => {
            proof {
                let prefix = ENCRYPTED_PREFIX@;
                assert(encrypted@.skip(prefix.len() as int) =~= encoded@);
                assert(encrypted@.subrange(0, prefix.len() as int) =~= prefix);
            }
            match decode_base64url(encoded) {
                Some(decoded) => context_from_bytes(decoded),
                None => None,
            }
        },
        None => None,
    }
}

/// Appends the text under `key`, trimmed, where there is one that is not blank.
fn push_part_text(parts: &mut Vec<String>, part: &Json, key: &str)
    ensures
        text::texts(final(parts)@) == text::texts(old(parts)@) + part_text(part@, key@),
{
    let ghost before = parts@;
    if let Some(t) = part.get_str(key) {
        let trimmed = t.trim();
        if !trimmed.is_empty() {
            parts.push(trimmed.to_owned());
            assert(text::texts(parts@) =~= text::texts(before) + part_text(part@, key@));
            return;
        }
    }
    assert(text::texts(parts@) =~= text::texts(before) + part_text(part@, key@));
}

/// The summary that a response carries.
pub fn response_summary_text(response: &Json) -> (r: String)
    ensures
        r@ == summary_of(response@),
{
    let mut parts: Vec<String> = Vec::new();
    assert(text::texts(parts@) =~= Seq::<Seq<char>>::empty());
    if let Some(output) = response.get_array("output") {
        let mut i: usize = 0;
        while i < output.len()
            invariant
                i <= output@.len(),
                text::texts(parts@) == output_texts(json::items_view(output@).take(i as int)),
            decreases output@.len() - i,
        {
            proof {
                json::lemma_items_view(output@);
                let views = json::items_view(output@);
                assert(views.take(i + 1).drop_last() =~= views.take(i as int));
                assert(views.take(i + 1).last() == output@[i as int].view());
            }
            let ghost before = text::texts(parts@);
            push_item_texts(&mut parts, &output[i]);
            i += 1;
        }
        proof {
            json::lemma_items_view(output@);
            let views = json::items_view(output@);
            assert(views.take(i as int) =~= views);
        }
    }
    if parts.is_empty() {
        NO_SUMMARY.to_owned()
    } else {
        join_list(&parts, "\n\n")
    }
}

/// Appends the texts of one output item.
fn push_item_texts(parts: &mut Vec<String>, item: &Json)
    ensures
        text::texts(final(parts)@) == text::texts(old(parts)@) + item_texts(item@),
{
    let ghost start = text::texts(parts@);
    let ghost mut content = Seq::<Seq<char>>::empty();
    assert(start + content =~= start);
    if let Some(list) = item.get_array("content") {
        let ghost views = json::items_view(list@);
        let mut i: usize = 0;
        assert(start + content_texts(views.take(0)) =~= start);
        while i < list.len()
            invariant
                i <= list@.len(),
                views == json::items_view(list@),
                text::texts(parts@) == start + content_texts(views.take(i as int)),
            decreases list@.len() - i,
        {
            proof {
                json::lemma_items_view(list@);
                assert(views.take(i + 1).drop_last() =~= views.take(i as int));
                assert(views.take(i + 1).last() == list@[i as int].view());
            }
            push_part_text(parts, &list[i], "text");
            push_part_text(parts, &list[i], "refusal");
            i += 1;
            assert(text::texts(parts@) =~= start + content_texts(views.take(i as int)));
        }
        proof {
            json::lemma_items_view(list@);
            assert(views.take(i as int) =~= views);
            content = content_texts(views);
        }
    }
    let ghost middle = text::texts(parts@);
    if let Some(list) = item.get_array("summary") {
        let ghost views = json::items_view(list@);
        let mut i: usize = 0;
        assert(middle + summary_texts(views.take(0)) =~= middle);
        while i < list.len()
            invariant
                i <= list@.len(),
                views == json::items_view(list@),
                text::texts(parts@) == middle + summary_texts(views.take(i as int)),
            decreases list@.len() - i,
        {
            proof {
                json::lemma_items_view(list@);
                assert(views.take(i + 1).drop_last() =~= views.take(i as int));
                assert(views.take(i + 1).last() == list@[i as int].view());
            }
            push_part_text(parts, &list[i], "text");
            i += 1;
            assert(text::texts(parts@) =~= middle + summary_texts(views.take(i as int)));
        }
        proof {
            json::lemma_items_view(list@);
            assert(views.take(i as int) =~= views);
        }
    }
    assert(text::texts(parts@) =~= start + item_texts(item@));
}

/// The compaction item that carries a summary.
fn new_compaction_item(summary: &str) -> (r: Json)
    ensures
        r@ == compaction_item(summary@),
        base64url_bytes(base64url(encode_utf8(summary@))) == Some(encode_utf8(summary@)),
{
    let encoded = encode_base64url(summary.as_bytes());
    let mut item = Json::object();
    item.insert("type", Json::string("compaction"));
    item.insert("encrypted_content", Json::Str(join2(ENCRYPTED_PREFIX, encoded.as_str())));
    item
}

/// Replaces the output of a response by the one compaction item that carries its summary.
/// [`restored_compaction_context`] gives the summary back from that item.
pub fn convert_response_to_compaction(response: Json) -> (r: Json)
    requires
        response@ is Object || response@ is Null,
    ensures
        r@ == compacted(response@),
        r@.get_items("output"@) matches Some(items) && items.len() == 1 && restored(items[0])
            == Some(RESTORED_CONTEXT_PREFIX@ + summary_of(response@)),
{
    let summary = response_summary_text(&response);
    let item = new_compaction_item(summary.as_str());
    let mut out = match response {
        Json::Null => Json::object(),
        other => other,
    };
    let mut output: Vec<Json> = Vec::new();
    proof {
        json::lemma_items_push(output@, item);
        assert(json::items_view(Seq::<Json>::empty()) =~= Seq::<JsonView>::empty());
        assert(Seq::<JsonView>::empty().push(item@) =~= seq![item@]);
    }
    output.push(item);
    out.insert("output", Json::Array(output));
    out.insert("status", Json::string("completed"));
    proof {
        lemma_compaction_gives_the_summary_back(response@);
    }
    out
}

/// An event of the stream that answers a compaction request.
#[derive(Debug)]
pub enum CompactionEvent {
    ResponseCreated(Json),
    ResponseInProgress(Json),
    OutputItemAdded { index: u64, item: Json },
    OutputItemDone { index: u64, item: Json },
    ResponseCompleted(Json),
}

/// What a [`CompactionEvent`] stands for.
pub enum CompactionEventView {
    ResponseCreated(JsonView),
    ResponseInProgress(JsonView),
    OutputItemAdded { index: u64, item: JsonView },
    OutputItemDone { index: u64, item: JsonView },
    ResponseCompleted(JsonView),
}

impl CompactionEvent {
    pub open spec fn view(&self) -> CompactionEventView {
        match self {
            CompactionEvent::ResponseCreated(r) => CompactionEventView::ResponseCreated(r@),
            CompactionEvent::ResponseInProgress(r) => CompactionEventView::ResponseInProgress(r@),
            CompactionEvent::OutputItemAdded { index, item } => {
                CompactionEventView::OutputItemAdded { index: *index, item: item@ }
            },
            CompactionEvent::OutputItemDone { index, item } => {
                CompactionEventView::OutputItemDone { index: *index, item: item@ }
            },
            CompactionEvent::ResponseCompleted(r) => CompactionEventView::ResponseCompleted(r@),
        }
    }
}

/// The item that the stream announces: the first output item, else a compaction of nothing.
pub open spec fn announced_item(response: JsonView) -> JsonView {
    match response.get_items("output"@) {
        Some(items) => if items.len() > 0 {
            items[0]
        } else {
            compaction_item(Seq::empty())
        },
        None => compaction_item(Seq::empty()),
    }
}

/// The events of the stream that answers a compaction request, in order.
pub open spec fn stream_of(response: JsonView) -> Seq<CompactionEventView> {
    let item = announced_item(response);
    seq![
        CompactionEventView::ResponseCreated(response),
        CompactionEventView::ResponseInProgress(response),
        CompactionEventView::OutputItemAdded { index: 0, item },
        CompactionEventView::OutputItemDone { index: 0, item },
        CompactionEventView::ResponseCompleted(response),
    ]
}

/// The events of the stream that answers a compaction request, in order.
pub fn compaction_sse_events(response: &Json) -> (r: Vec<CompactionEvent>)
    ensures
        r@.map_values(|e: CompactionEvent| e.view()) == stream_of(response@),
{
    let mut item: Option<Json> = None;
    if let Some(items) = response.get_array("output") {
        proof {
            json::lemma_items_view(items@);
        }
        if items.len() > 0 {
            item = Some(items[0].clone());
        }
    }
    let item = match item {
        Some(item) => item,
        None => {
            proof {
                reveal_strlit("");
                assert(""@ =~= Seq::<char>::empty());
            }
            new_compaction_item("")
        },
    };
    let mut events: Vec<CompactionEvent> = Vec::new();
    events.push(CompactionEvent::ResponseCreated(response.clone()));
    events.push(CompactionEvent::ResponseInProgress(response.clone()));
    events.push(CompactionEvent::OutputItemAdded { index: 0, item: item.clone() });
    events.push(CompactionEvent::OutputItemDone { index: 0, item });
    events.push(CompactionEvent::ResponseCompleted(response.clone()));
    assert(events@.map_values(|e: CompactionEvent| e.view()) =~= stream_of(response@));
    events
}

/// The context that a compacted response gives back is its summary, behind the sentence that
/// introduces it.
proof fn lemma_compaction_gives_the_summary_back(response: JsonView)
    requires
        response is Object || response is Null,
        base64url_bytes(base64url(encode_utf8(summary_of(response)))) == Some(
            encode_utf8(summary_of(response)),
        ),
    ensures
        compacted(response).get_items("output"@) == Some(
            seq![compaction_item(summary_of(response))],
        ),
        restored(compaction_item(summary_of(response))) == Some(
            RESTORED_CONTEXT_PREFIX@ + summary_of(response),
        ),
{
    broadcast use {encode_utf8_decode_utf8, encode_utf8_valid_utf8};

    let summary = summary_of(response);
    let encoded = base64url(encode_utf8(summary));
    let encrypted = ENCRYPTED_PREFIX@ + encoded;
    reveal_strlit("output");
    reveal_strlit("status");
    assert("output"@[0] != "status"@[0]);
    assert(encrypted.skip(ENCRYPTED_PREFIX@.len() as int) =~= encoded);
    assert(encrypted.subrange(0, ENCRYPTED_PREFIX@.len() as int) =~= ENCRYPTED_PREFIX@);
    lemma_summary_not_blank(response);
}

proof fn lemma_summary_not_blank(response: JsonView)
    ensures
        !text::is_blank(summary_of(response)),
{
    match response.get_items("output"@) {
        Some(items) => {
            lemma_output_texts_not_blank(items);
            if output_texts(items).len() > 0 {
                lemma_join_not_blank(output_texts(items), "\n\n"@);
            }
        },
        None => {},
    }
    reveal_strlit("No textual summary was returned by the upstream model.");
    text::lemma_blank(NO_SUMMARY@);
    assert(!text::is_space(NO_SUMMARY@[0]));
}

/// Whether none of the texts is blank.
spec fn none_blank(parts: Seq<Seq<char>>) -> bool {
    forall|i: int| 0 <= i < parts.len() ==> !text::is_blank(#[trigger] parts[i])
}

proof fn lemma_part_not_blank(part: JsonView, key: Seq<char>)
    ensures
        none_blank(part_text(part, key)),
{
    match part.get_text(key) {
        Some(t) => {
            text::lemma_trimmed(t);
        },
        None => {},
    }
}

proof fn lemma_content_not_blank(parts: Seq<JsonView>)
    ensures
        none_blank(content_texts(parts)),
    decreases parts.len(),
{
    if parts.len() > 0 {
        lemma_content_not_blank(parts.drop_last());
        lemma_part_not_blank(parts.last(), "text"@);
        lemma_part_not_blank(parts.last(), "refusal"@);
    }
}

proof fn lemma_summary_parts_not_blank(parts: Seq<JsonView>)
    ensures
        none_blank(summary_texts(parts)),
    decreases parts.len(),
{
    if parts.len() > 0 {
        lemma_summary_parts_not_blank(parts.drop_last());
        lemma_part_not_blank(parts.last(), "text"@);
    }
}

proof fn lemma_output_texts_not_blank(items: Seq<JsonView>)
    ensures
        none_blank(output_texts(items)),
    decreases items.len(),
{
    if items.len() > 0 {
        lemma_output_texts_not_blank(items.drop_last());
        match items.last().get_items("content"@) {
            Some(parts) => lemma_content_not_blank(parts),
            None => {},
        }
        match items.last().get_items("summary"@) {
            Some(parts) => lemma_summary_parts_not_blank(parts),
            None => {},
        }
        assert(none_blank(item_texts(items.last())));
    }
}

proof fn lemma_join_not_blank(parts: Seq<Seq<char>>, between: Seq<char>)
    requires
        parts.len() > 0,
        none_blank(parts),
    ensures
        !text::is_blank(text::join(parts, between)),
    decreases parts.len(),
{
    let whole = text::join(parts, between);
    text::lemma_blank(parts.last());
    text::lemma_blank(whole);
    let part = parts.last();
    let i = choose|i: int| 0 <= i < part.len() && !text::is_space(#[trigger] part[i]);
    if parts.len() == 1 {
        assert(whole == part);
    } else {
        let front = text::join(parts.drop_last(), between) + between;
        assert(whole == front + part);
        assert(whole[front.len() + i] == part[i]);
    }
}

} // verus!
