//! What the views of the library's types show: each part of a value, as it is and in its place.
use http::HeaderMap;
use serde_json::Value;
use vstd::prelude::*;

use crate::endpoint;
use crate::endpoint::chat::{
    ChatCompletionRequest, ChatMessageWithToolCalls, ChatToolCall, ResponsesApiRequest,
};
use crate::endpoint::models::OpenAiCompatibleModelInfo;
use crate::headers;
use crate::json;
use crate::openai_models;
use crate::openai_models::{ModelInfo, ReasoningEffortPreset};
use crate::protocol;
use crate::protocol::{
    ApiError, ContentItem, ContentView, ErrorView, EventView, ItemView, ResponseEvent, ResponseItem,
};
use crate::request::Request;
use crate::sse;
use crate::sse::chat::{
    ChatCompletionChoice, ChatCompletionChunk, Emission, PollView, SsePoll, ToolCallAccumulator,
    ToolCallDelta,
};

verus! {

/// Whether an optional text shows as `seen`.
pub open spec fn shows(text: Option<String>, seen: Option<Seq<char>>) -> bool {
    match (text, seen) {
        (Some(t), Some(s)) => t@ == s,
        (None, None) => true,
        _ => false,
    }
}

/// An optional text shows its characters if it is there.
pub proof fn optional_texts_show(text: Option<String>)
    ensures
        shows(text, protocol::optional_text(text)),
{
}

/// A part of a message's content shows its kind and its text.
pub proof fn contents_show(item: ContentItem, items: Seq<ContentItem>)
    ensures
        match item {
            ContentItem::InputText { text } => item@ == (ContentView::InputText { text: text@ }),
            ContentItem::OutputText { text } => item@ == (ContentView::OutputText { text: text@ }),
            ContentItem::InputImage { image_url } => item@ == (ContentView::InputImage {
                image_url: image_url@,
            }),
        },
        protocol::contents_view(items).len() == items.len(),
        forall|i: int|
            0 <= i < items.len() ==> #[trigger] protocol::contents_view(items)[i] == items[i]@,
{
}

/// An item of a conversation shows its kind and all its parts.
pub proof fn items_show(item: ResponseItem, items: Seq<ResponseItem>)
    ensures
        match (item, item@) {
            (
                ResponseItem::Message { id, role, content, end_turn, phase },
                ItemView::Message { id: i, role: r, content: c, end_turn: e, phase: p },
            ) => shows(id, i) && role@ == r && c == protocol::contents_view(content@) && end_turn
                == e && phase == p,
            (
                ResponseItem::FunctionCall { id, name, arguments, call_id },
                ItemView::FunctionCall { id: i, name: n, arguments: a, call_id: c },
            ) => shows(id, i) && name@ == n && arguments@ == a && call_id@ == c,
            (
                ResponseItem::FunctionCallOutput { call_id, output },
                ItemView::FunctionCallOutput { call_id: c, text },
            ) => call_id@ == c && shows(output.text, text),
            (ResponseItem::Other, ItemView::Other) => true,
            _ => false,
        },
        protocol::items_view(items).len() == items.len(),
        forall|i: int|
            0 <= i < items.len() ==> #[trigger] protocol::items_view(items)[i] == items[i]@,
{
}

/// An event shows its kind and all its parts, an error its message.
pub proof fn events_show(event: ResponseEvent, error: ApiError)
    ensures
        match event {
            ResponseEvent::Created => event@ == EventView::Created,
            ResponseEvent::OutputItemAdded(item) => event@ == EventView::OutputItemAdded(item@),
            ResponseEvent::OutputItemDone(item) => event@ == EventView::OutputItemDone(item@),
            ResponseEvent::OutputTextDelta(text) => event@ == EventView::OutputTextDelta(text@),
            ResponseEvent::ReasoningSummaryDelta { delta, summary_index } => event@ == (
            EventView::ReasoningSummaryDelta { delta: delta@, summary_index }),
            ResponseEvent::Completed { response_id, token_usage } => event@ == (
            EventView::Completed { response_id: response_id@, token_usage }),
        },
        match error {
            ApiError::Stream(message) => error@ == ErrorView::Stream(message@),
        },
{
}

/// An emission shows its event or error, and whether it has to be delivered.
pub proof fn emissions_show(e: Emission, es: Seq<Emission>)
    ensures
        e@.must_deliver == e.must_deliver,
        match (e.event, e@.event) {
            (Ok(event), Ok(seen)) => event@ == seen,
            (Err(error), Err(seen)) => error@ == seen,
            _ => false,
        },
        sse::chat::emissions_view(es).len() == es.len(),
        forall|i: int|
            0 <= i < es.len() ==> #[trigger] sse::chat::emissions_view(es)[i] == es[i]@,
{
}

/// A tool call delta shows its index and all that it brings, a tool call what it holds.
pub proof fn tool_deltas_show(
    delta: ToolCallDelta,
    deltas: Seq<ToolCallDelta>,
    call: ToolCallAccumulator,
)
    ensures
        delta@.index == delta.index,
        shows(delta.id, delta@.id),
        match delta.function {
            Some(f) => shows(f.name, delta@.name) && shows(f.arguments, delta@.arguments),
            None => delta@.name is None && delta@.arguments is None,
        },
        sse::chat::tool_deltas_view(deltas).len() == deltas.len(),
        forall|i: int|
            0 <= i < deltas.len() ==> #[trigger] sse::chat::tool_deltas_view(deltas)[i]
                == deltas[i]@,
        call@.id == call.id@,
        call@.name == call.name@,
        call@.arguments == call.arguments@,
{
}

/// A chunk shows its id, its choices and its token counts; a choice shows its content, its reasoning
/// under either name, and its tool call deltas.
pub proof fn chunks_show(chunk: ChatCompletionChunk, choice: ChatCompletionChoice)
    ensures
        chunk@.id == chunk.id@,
        chunk@.usage == chunk.usage,
        chunk@.choices.len() == chunk.choices@.len(),
        forall|i: int|
            0 <= i < chunk.choices@.len() ==> #[trigger] chunk@.choices[i] == chunk.choices@[i]@,
        shows(choice.delta.content, choice@.content),
        shows(choice.delta.reasoning_content, choice@.reasoning_content),
        shows(choice.delta.reasoning, choice@.reasoning),
        match choice.delta.tool_calls {
            Some(deltas) => choice@.tool_calls == sse::chat::tool_deltas_view(deltas@),
            None => choice@.tool_calls.len() == 0,
        },
{
}

/// A poll shows what it led to.
pub proof fn polls_show(poll: SsePoll)
    ensures
        match (poll, poll@) {
            (SsePoll::Event { data, chunk }, PollView::Event { data: d, chunk: c }) => data@ == d
                && match (chunk, c) {
                (Some(chunk), Some(c)) => chunk@ == c,
                (None, None) => true,
                _ => false,
            },
            (SsePoll::Failed(message), PollView::Failed(m)) => message@ == m,
            (SsePoll::Closed, PollView::Closed) => true,
            (SsePoll::TimedOut, PollView::TimedOut) => true,
            _ => false,
        },
{
}

/// A list of texts shows each of them.
pub proof fn texts_show(texts: Seq<String>)
    ensures
        sse::think::texts_view(texts).len() == texts.len(),
        forall|i: int|
            0 <= i < texts.len() ==> #[trigger] sse::think::texts_view(texts)[i] == texts[i]@,
{
}

/// A chat message shows its role, its content, its tool calls and the id of the call that it answers.
pub proof fn messages_show(
    message: ChatMessageWithToolCalls,
    messages: Seq<ChatMessageWithToolCalls>,
    call: ChatToolCall,
)
    ensures
        message@.role == message.role@,
        shows(message.content, message@.content),
        shows(message.tool_call_id, message@.tool_call_id),
        match (message.tool_calls, message@.tool_calls) {
            (Some(calls), Some(seen)) => seen.len() == calls@.len() && forall|i: int|
                0 <= i < seen.len() ==> #[trigger] seen[i] == calls@[i]@,
            (None, None) => true,
            _ => false,
        },
        call@.id == call.id@,
        call@.call_type == call.call_type@,
        call@.name == call.function.name@,
        call@.arguments == call.function.arguments@,
        endpoint::chat::messages_view(messages).len() == messages.len(),
        forall|i: int|
            0 <= i < messages.len() ==> #[trigger] endpoint::chat::messages_view(messages)[i]
                == messages[i]@,
{
}

/// Requests show all their parts.
pub proof fn requests_show(
    asked: ResponsesApiRequest,
    chat: ChatCompletionRequest,
    request: Request,
    values: Seq<Value>,
)
    ensures
        asked@.model == asked.model@,
        asked@.instructions == asked.instructions@,
        asked@.input == protocol::items_view(asked.input@),
        asked@.tools == endpoint::chat::jsons(asked.tools@),
        asked@.stream == asked.stream,
        chat@.model == chat.model@,
        chat@.messages == endpoint::chat::messages_view(chat.messages@),
        chat@.stream == chat.stream,
        chat@.max_tokens == chat.max_tokens,
        chat@.tools == endpoint::chat::jsons(chat.tools@),
        chat@.stream_options == chat.stream_options,
        request@.url == request.url@,
        request@.headers == headers::header_fields(request.headers),
        request@.compression == request.compression,
        endpoint::chat::jsons(values).len() == values.len(),
        forall|i: int|
            0 <= i < values.len() ==> #[trigger] endpoint::chat::jsons(values)[i] == json::json(
                values[i],
            ),
{
}

/// Models show each of them, and so do mere names; a reasoning effort shows itself and its text.
pub proof fn models_show(
    infos: Seq<ModelInfo>,
    names: Seq<OpenAiCompatibleModelInfo>,
    preset: ReasoningEffortPreset,
)
    ensures
        openai_models::models_view(infos).len() == infos.len(),
        forall|i: int|
            0 <= i < infos.len() ==> #[trigger] openai_models::models_view(infos)[i] == infos[i]@,
        endpoint::models::ids_view(names).len() == names.len(),
        forall|i: int|
            0 <= i < names.len() ==> #[trigger] endpoint::models::ids_view(names)[i] == names[i].id@,
        preset@.effort == preset.effort,
        preset@.description == preset.description@,
{
}

/// The text of a header field is there just if the field is and its first value is made of visible
/// ASCII, spaces and tabs; then it is that value, character by character.
pub proof fn header_texts_show(headers: HeaderMap, name: Seq<char>)
    ensures
        ({
            let fields = headers::header_fields(headers);
            let value = fields[name][0];
            let text = headers::field_text(fields, name);
            &&& text is Some <==> fields.contains_key(name) && forall|i: int|
                0 <= i < value.len() ==> {
                    let byte = #[trigger] value[i];
                    byte == 9 || 32 <= byte < 127
                }
            &&& text matches Some(t) ==> t.len() == value.len() && forall|i: int|
                0 <= i < value.len() ==> #[trigger] t[i] == value[i] as char
        }),
{
    let value = headers::header_fields(headers)[name][0];
    if headers::is_plain(value) {
        assert forall|i: int| 0 <= i < value.len() implies {
            let byte = #[trigger] value[i];
            byte == 9 || 32 <= byte < 127
        } by {
            assert(headers::is_visible(value[i]));
        }
    }
}

/// A header map surely has room for so many more names just if it then has no more than 6554; and two
/// of them fit together just if that leaves room for one more.
pub proof fn room_depends_on_the_number_of_names(
    a: Map<Seq<char>, Seq<Seq<u8>>>,
    b: Map<Seq<char>, Seq<Seq<u8>>>,
    more: nat,
)
    ensures
        headers::has_room(a, more) <==> a.dom().finite() && a.dom().len() + more <= 6554,
        headers::fit_together(a, b) <==> a.dom().finite() && b.dom().finite() && a.dom().len()
            + b.dom().len() < 6554,
{
}

} // verus!
