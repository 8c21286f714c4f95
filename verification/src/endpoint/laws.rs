//! What holds of requests and answers as a whole.
use http::HeaderMap;
use vstd::prelude::*;
use vstd::string::*;

use crate::endpoint::chat;
use crate::endpoint::chat::{MessageView, ResponsesRequestView, ToolCallView};
use crate::endpoint::models;
use crate::headers;
use crate::json::Json;
use crate::openai_models::{
    ConfigShellToolType, InputModality, ModelInfo, ModelView, ModelVisibility, ReasoningEffort,
    ReasoningSummary, TruncationMode, WebSearchToolType,
};
use crate::protocol::{ContentView, ItemView};
use crate::request::{Compression, RequestCompression, RequestView};
use crate::sse;
use crate::text;

verus! {

/// The messages of two stretches of a conversation are those of the one and then those of the other.
pub proof fn messages_follow_one_another(a: Seq<ItemView>, b: Seq<ItemView>)
    ensures
        chat::messages_for(a + b) == chat::messages_for(a) + chat::messages_for(b),
    decreases b.len(),
{
    if b.len() == 0 {
        assert(a + b == a);
    } else {
        messages_follow_one_another(a, b.drop_last());
        assert((a + b).drop_last() == a + b.drop_last());
    }
}

/// As a conversation goes on, its request keeps the messages that it had and gets new ones at the
/// end.
pub proof fn conversations_only_grow(instructions: Seq<char>, a: Seq<ItemView>, b: Seq<ItemView>)
    ensures
        chat::chat_messages(instructions, a + b) == chat::chat_messages(instructions, a)
            + chat::messages_for(b),
{
    messages_follow_one_another(a, b);
}

/// Every item of a conversation that a message can stand for has one, in its place: it stands behind
/// the messages of all that came before.
pub proof fn no_message_is_lost(items: Seq<ItemView>, i: int)
    requires
        0 <= i < items.len(),
        !(items[i] is Other),
    ensures
        chat::messages_for(items.take(i)).len() < chat::messages_for(items).len(),
        Some(chat::messages_for(items)[chat::messages_for(items.take(i)).len() as int])
            == chat::message_for(items[i]),
{
    let behind = items.skip(i + 1);
    assert(items == items.take(i + 1) + behind);
    messages_follow_one_another(items.take(i + 1), behind);
    assert(items.take(i + 1).drop_last() == items.take(i));
    assert(items.take(i + 1).last() == items[i]);
}

/// Nothing else is in a request's messages: the instructions and the items account for all of them.
pub proof fn no_message_is_made_up(items: Seq<ItemView>, m: MessageView)
    requires
        chat::messages_for(items).contains(m),
    ensures
        exists|i: int| 0 <= i < items.len() && chat::message_for(#[trigger] items[i]) == Some(m),
    decreases items.len(),
{
    let before = chat::messages_for(items.drop_last());
    if chat::message_for(items.last()) == Some(m) {
        assert(chat::message_for(items[items.len() - 1]) == Some(m));
    } else {
        let k = choose|k: int|
            0 <= k < chat::messages_for(items).len() && chat::messages_for(items)[k] == m;
        assert(before[k] == m);
        no_message_is_made_up(items.drop_last(), m);
        let i = choose|i: int|
            0 <= i < items.drop_last().len() && chat::message_for(
                #[trigger] items.drop_last()[i],
            ) == Some(m);
        assert(chat::message_for(items[i]) == Some(m));
    }
}

/// A message that was streamed goes back to the model as it came: as the assistant's, with the same
/// text.
pub proof fn streamed_messages_go_back_as_they_came(
    id: Option<Seq<char>>,
    text: Seq<char>,
    end_turn: Option<bool>,
)
    ensures
        chat::message_for(sse::chat::assistant_message(id, text, end_turn)) == Some(
            chat::text_message("assistant"@, text),
        ),
{
    let content = seq![ContentView::OutputText { text }];
    assert(content.drop_last() == Seq::<ContentView>::empty());
    assert(chat::text_parts(content.drop_last()) == Seq::<Seq<char>>::empty());
    let parts = chat::text_parts(content);
    assert(parts == seq![text]);
    assert(text::lines(parts) == text);
}

/// A tool call that was streamed goes back to the model with the id, the name and the arguments that
/// it came with, and its output is sent as the answer to that id.
pub proof fn streamed_tool_calls_go_back_as_they_came(
    call: sse::chat::ToolCallView,
    output: Option<Seq<char>>,
)
    ensures
        chat::message_for(sse::chat::function_call(call)) matches Some(m) && m.tool_calls == Some(
            seq![
                ToolCallView {
                    id: call.id,
                    call_type: "function"@,
                    name: call.name,
                    arguments: call.arguments,
                },
            ],
        ),
        chat::message_for(
            ItemView::FunctionCallOutput { call_id: call.id, text: output },
        ) matches Some(m) && m.tool_call_id == Some(call.id) && (output matches Some(t)
            ==> m.content == Some(t)),
{
}

/// The tools of two lists are those of the one and then those of the other.
pub proof fn tools_follow_one_another(a: Seq<Json>, b: Seq<Json>)
    ensures
        chat::chat_tools_for(a + b) == chat::chat_tools_for(a) + chat::chat_tools_for(b),
    decreases b.len(),
{
    if b.len() == 0 {
        assert(a + b == a);
    } else {
        tools_follow_one_another(a, b.drop_last());
        assert((a + b).drop_last() == a + b.drop_last());
    }
}

/// A function keeps its name, and its description, parameters and strictness if it has them, with
/// the values they have; nothing else of it is kept.
pub proof fn functions_keep_their_fields(fields: Map<Seq<char>, Json>, key: Seq<char>)
    requires
        chat::chat_tool_for(Json::Object(fields)) is Some,
    ensures
        chat::chat_tool_for(Json::Object(fields)) matches Some(Json::Object(tool)) && tool.dom()
            == set!["type"@, "function"@] && tool["type"@] == Json::String("function"@)
            && (tool["function"@] matches Json::Object(function) && (function.contains_key(key)
            <==> fields.contains_key(key) && (key == "name"@ || key == "description"@ || key
            == "parameters"@ || key == "strict"@)) && (function.contains_key(key)
            ==> function[key] == fields[key]) && function.contains_key("name"@)),
{
    reveal_strlit("type");
    reveal_strlit("function");
    let function = fields.restrict(chat::function_fields());
    let tool = map![
        "type"@ => Json::String("function"@),
        "function"@ => Json::Object(function),
    ];
    assert("type"@ != "function"@) by {
        assert("type"@.len() == 4);
        assert("function"@.len() == 8);
    }
    assert(tool.dom() == set!["type"@, "function"@]);
}

/// A tool in the Chat API's form is not mistaken for one in the Responses API's form.
pub proof fn chat_tools_are_not_converted_again(tool: Json)
    ensures
        chat::chat_tool_for(tool) matches Some(t) ==> chat::chat_tool_for(t) is None,
{
    reveal_strlit("name");
    reveal_strlit("type");
    reveal_strlit("function");
    assert("name"@.len() == 4 && "type"@.len() == 4 && "function"@.len() == 8);
    assert("name"@[0] == 'n' && "type"@[0] == 't');
}

/// Every request for a chat completion asks for token counts and sets no limit on tokens; model and
/// streaming are the caller's choice.
pub proof fn requests_ask_for_token_counts(request: ResponsesRequestView)
    ensures
        chat::chat_request_for(request).stream_options matches Some(o) && o.include_usage,
        chat::chat_request_for(request).max_tokens is None,
        chat::chat_request_for(request).model == request.model,
        chat::chat_request_for(request).stream == request.stream,
{
}

/// Of the header fields of a request the subagent's name comes first, then those of the conversation,
/// and then the caller's own; there are no others.
pub proof fn conversation_fields_come_first(
    extra: Map<Seq<char>, Seq<Seq<u8>>>,
    conversation: Map<Seq<char>, Seq<Seq<u8>>>,
    subagent: Option<Seq<u8>>,
    name: Seq<char>,
)
    ensures
        ({
            let fields = chat::conversation_fields(extra, conversation, subagent);
            if name == "x-openai-subagent"@ && (subagent matches Some(s) && headers::is_sendable(
                s,
            )) {
                fields.contains_key(name) && fields[name] == seq![subagent->0]
            } else if conversation.contains_key(name) {
                fields.contains_key(name) && fields[name] == conversation[name]
            } else if extra.contains_key(name) {
                fields.contains_key(name) && fields[name] == extra[name]
            } else {
                !fields.contains_key(name)
            }
        }),
{
}

/// Every request for a chat completion asks for a stream of events, whatever it asked for before, and
/// is otherwise sent to the same place with the same header fields.
pub proof fn streams_are_asked_for(request: RequestView, compression: Compression, name: Seq<char>)
    ensures
        ({
            let sent = chat::stream_request_for(request, compression);
            &&& sent.url == request.url
            &&& sent.headers.contains_key("accept"@)
            &&& headers::field_text(sent.headers, "accept"@) == Some("text/event-stream"@)
            &&& name != "accept"@ ==> (sent.headers.contains_key(name)
                <==> request.headers.contains_key(name)) && sent.headers[name]
                == request.headers[name]
        }),
{
    reveal_strlit("text/event-stream");
    let text = "text/event-stream"@;
    let bytes = headers::ascii_bytes(text);
    assert(headers::is_plain(bytes));
    assert(headers::ascii_text(bytes) == text);
}

/// The client's version comes last in the URL, behind all that the URL was before and in its query.
pub proof fn client_version_comes_last(url: Seq<char>, client_version: Seq<char>)
    ensures
        ({
            let versioned = models::with_client_version(url, client_version);
            let added = "client_version="@ + client_version;
            &&& versioned.len() == url.len() + 1 + added.len()
            &&& versioned.take(url.len() as int) == url
            &&& versioned.skip(url.len() as int + 1) == added
            &&& versioned.take(url.len() as int + 1).contains('?')
            &&& versioned[url.len() as int] == '?' <==> !url.contains('?')
        }),
{
    let versioned = models::with_client_version(url, client_version);
    let separator = if url.contains('?') {
        '&'
    } else {
        '?'
    };
    assert(versioned == url + seq![separator] + ("client_version="@ + client_version));
    assert(versioned.take(url.len() as int) == url);
    assert(versioned.skip(url.len() as int + 1) == "client_version="@ + client_version);
    assert(versioned[url.len() as int] == separator);
    if url.contains('?') {
        let k = choose|k: int| 0 <= k < url.len() && url[k] == '?';
        assert(versioned.take(url.len() as int + 1)[k] == '?');
    } else {
        assert(versioned.take(url.len() as int + 1)[url.len() as int] == '?');
    }
}

/// The models of a list that goes on are those that it began with, and more behind them.
pub proof fn model_lists_only_grow(a: Seq<Seq<char>>, b: Seq<Seq<char>>)
    ensures
        models::compatible_models(a).is_prefix_of(models::compatible_models(a + b)),
    decreases b.len(),
{
    if b.len() == 0 {
        assert(a + b == a);
    } else {
        model_lists_only_grow(a, b.drop_last());
        assert((a + b).drop_last() == a + b.drop_last());
    }
}

/// Every name that is not blank is listed as a model, under the trimmed name and with its place in
/// the list for a priority.
pub proof fn every_named_model_is_listed(ids: Seq<Seq<char>>, i: int)
    requires
        0 <= i < ids.len(),
        text::trimmed(ids[i]).len() > 0,
    ensures
        models::compatible_models(ids).contains(
            models::compatible_model(text::trimmed(ids[i]), models::wrapped(i)),
        ),
{
    let upto = ids.take(i + 1);
    let m = models::compatible_model(text::trimmed(ids[i]), models::wrapped(i));
    assert(upto.drop_last() == ids.take(i));
    let listed = models::compatible_models(upto);
    assert(listed[listed.len() - 1] == m);
    model_lists_only_grow(upto, ids.skip(i + 1));
    assert(upto + ids.skip(i + 1) == ids);
    assert(models::compatible_models(ids)[listed.len() - 1] == m);
}

/// Only names that are not blank are listed, each with its place in the list for a priority; so the
/// models come in the order of the names. Beyond the largest `i32` places wrap around.
pub proof fn models_come_in_the_order_of_their_names(ids: Seq<Seq<char>>)
    requires
        ids.len() <= 0x8000_0000,
    ensures
        forall|k: int|
            0 <= k < models::compatible_models(ids).len() ==> {
                let m: ModelView = #[trigger] models::compatible_models(ids)[k];
                &&& 0 <= m.priority < ids.len()
                &&& m.slug == text::trimmed(ids[m.priority])
                &&& m.slug.len() > 0
                &&& m == models::compatible_model(m.slug, m.priority)
            },
        forall|j: int, k: int|
            0 <= j < k < models::compatible_models(ids).len() ==> (
            #[trigger] models::compatible_models(ids)[j]).priority < (
            #[trigger] models::compatible_models(ids)[k]).priority,
    decreases ids.len(),
{
    if ids.len() > 0 {
        models_come_in_the_order_of_their_names(ids.drop_last());
        let before = models::compatible_models(ids.drop_last());
        let all = models::compatible_models(ids);
        assert(models::wrapped(ids.len() - 1) == ids.len() - 1);
        assert forall|k: int| 0 <= k < all.len() implies {
            let m: ModelView = #[trigger] all[k];
            &&& 0 <= m.priority < ids.len()
            &&& m.slug == text::trimmed(ids[m.priority])
            &&& m.slug.len() > 0
            &&& m == models::compatible_model(m.slug, m.priority)
        } by {
            if k < before.len() {
                assert(all[k] == before[k]);
                assert(ids.drop_last()[before[k].priority] == ids[before[k].priority]);
            }
        }
        assert forall|j: int, k: int| 0 <= j < k < all.len() implies (#[trigger] all[j]).priority < (
        #[trigger] all[k]).priority by {
            assert(all[j] == before[j]);
            if k < before.len() {
                assert(all[k] == before[k]);
            }
        }
    }
}

/// White space around a model's name does not matter.
pub proof fn listed_names_are_trimmed(ids: Seq<Seq<char>>, k: int)
    requires
        0 <= k < models::compatible_models(ids).len(),
    ensures
        ({
            let slug = models::compatible_models(ids)[k].slug;
            &&& slug.len() > 0
            &&& !text::is_white_space_spec(slug.first())
            &&& !text::is_white_space_spec(slug.last())
        }),
    decreases ids.len(),
{
    text::trimmed_text_has_no_space_around_it(ids.last());
    if k < models::compatible_models(ids.drop_last()).len() {
        listed_names_are_trimmed(ids.drop_last(), k);
    }
}

/// The text of a message's content.
pub open spec fn said(content: Seq<ContentView>) -> Seq<char> {
    text::lines(chat::text_parts(content))
}

/// Whether some part of a message's content is text, be it input or output.
pub open spec fn has_text(content: Seq<ContentView>) -> bool {
    exists|i: int|
        0 <= i < content.len() && match #[trigger] content[i] {
            ContentView::InputText { .. } => true,
            ContentView::OutputText { .. } => true,
            ContentView::InputImage { .. } => false,
        }
}

/// A message of one text says just that text, whatever it holds.
pub proof fn one_text_is_said_unchanged(text: Seq<char>)
    ensures
        said(seq![ContentView::InputText { text }]) == text,
        said(seq![ContentView::OutputText { text }]) == text,
{
    assert forall|c: ContentView| chat::text_part(c) == Some(text) implies said(seq![c])
        == text by {
        lemma_one_part(c);
        assert(chat::text_parts(seq![c]) == seq![text]);
    }
    assert(chat::text_part(ContentView::InputText { text }) == Some(text));
    assert(chat::text_part(ContentView::OutputText { text }) == Some(text));
}

/// The texts in one part of a message's content.
proof fn lemma_one_part(c: ContentView)
    ensures
        chat::text_parts(seq![c]) == (match chat::text_part(c) {
            Some(text) => seq![text],
            None => Seq::empty(),
        }),
{
    assert(seq![c].drop_last() == Seq::<ContentView>::empty());
    assert(chat::text_parts(seq![c].drop_last()) == Seq::<Seq<char>>::empty());
}

/// The texts of two stretches of content are those of the one and then those of the other.
proof fn lemma_text_parts_append(a: Seq<ContentView>, b: Seq<ContentView>)
    ensures
        chat::text_parts(a + b) == chat::text_parts(a) + chat::text_parts(b),
    decreases b.len(),
{
    if b.len() == 0 {
        assert(a + b == a);
    } else {
        lemma_text_parts_append(a, b.drop_last());
        assert((a + b).drop_last() == a + b.drop_last());
    }
}

/// There are texts among some parts just where one of them is text.
proof fn lemma_text_parts_of_text(content: Seq<ContentView>)
    ensures
        chat::text_parts(content).len() > 0 <==> has_text(content),
    decreases content.len(),
{
    if content.len() > 0 {
        let before = content.drop_last();
        lemma_text_parts_of_text(before);
        if has_text(before) {
            let i = choose|i: int| 0 <= i < before.len() && !(#[trigger] before[i] is InputImage);
            assert(!(content[i] is InputImage));
        }
        assert(content[content.len() - 1] == content.last());
        if has_text(content) && content.last() is InputImage {
            let i = choose|i: int| 0 <= i < content.len() && !(#[trigger] content[i] is InputImage);
            assert(!(before[i] is InputImage));
        }
    }
}

/// Lines behind lines.
proof fn lemma_lines_append(a: Seq<Seq<char>>, b: Seq<Seq<char>>)
    requires
        a.len() > 0,
        b.len() > 0,
    ensures
        text::lines(a + b) == text::lines(a).push('\n') + text::lines(b),
    decreases b.len(),
{
    assert((a + b).drop_last() == a + b.drop_last());
    assert((a + b).last() == b.last());
    if b.len() == 1 {
        assert(a + b.drop_last() == a);
    } else {
        lemma_lines_append(a, b.drop_last());
        assert(text::lines(a).push('\n') + text::lines(b.drop_last()).push('\n') + b.last()
            == text::lines(a).push('\n') + (text::lines(b.drop_last()).push('\n') + b.last()));
        assert((text::lines(a).push('\n') + text::lines(b.drop_last())).push('\n') == text::lines(
            a,
        ).push('\n') + text::lines(b.drop_last()).push('\n'));
    }
}

/// Two stretches of content say what the one says and then what the other says, with one line feed
/// between. One without any text says nothing and calls for no line feed.
pub proof fn texts_are_said_in_order(a: Seq<ContentView>, b: Seq<ContentView>)
    ensures
        has_text(a) && has_text(b) ==> said(a + b) == said(a) + seq!['\n'] + said(b),
        !has_text(a) ==> said(a + b) == said(b) && said(a) == Seq::<char>::empty(),
        !has_text(b) ==> said(a + b) == said(a) && said(b) == Seq::<char>::empty(),
{
    lemma_text_parts_append(a, b);
    lemma_text_parts_of_text(a);
    lemma_text_parts_of_text(b);
    if has_text(a) && has_text(b) {
        lemma_lines_append(chat::text_parts(a), chat::text_parts(b));
        assert(said(a).push('\n') == said(a) + seq!['\n']);
    }
    if !has_text(a) {
        assert(chat::text_parts(a) + chat::text_parts(b) == chat::text_parts(b));
    }
    if !has_text(b) {
        assert(chat::text_parts(a) + chat::text_parts(b) == chat::text_parts(a));
    }
}

/// A message keeps its role and what it says, whatever else is known of it. A tool call is the
/// assistant's, without text and with its id, name and arguments unchanged. A tool's output is sent
/// unchanged under the id of the call. Any other item has no message.
pub proof fn every_item_is_told_as_it_is(item: ItemView)
    ensures
        match item {
            ItemView::Message { id, role, content, end_turn, phase } => chat::message_for(item)
                matches Some(m) && m.role == role && m.content == Some(said(content))
                && m.tool_calls is None && m.tool_call_id is None,
            ItemView::FunctionCall { id, name, arguments, call_id } => chat::message_for(item)
                matches Some(m) && m.role == "assistant"@ && m.content is None && m.tool_call_id
                is None && (m.tool_calls matches Some(calls) && calls.len() == 1 && calls[0].id
                == call_id && calls[0].call_type == "function"@ && calls[0].name == name
                && calls[0].arguments == arguments),
            ItemView::FunctionCallOutput { call_id, text } => chat::message_for(item) matches Some(m)
                && m.role == "tool"@ && m.tool_call_id == Some(call_id) && m.tool_calls is None
                && (m.content matches Some(t) && match text {
                Some(output) => t == output,
                None => t.len() == 0,
            }),
            ItemView::Other => chat::message_for(item) is None,
        },
{
}

/// The items of a conversation that are told to the model.
pub open spec fn told(items: Seq<ItemView>) -> Seq<ItemView> {
    items.filter(|item: ItemView| !(item is Other))
}

/// The messages of a conversation are those of the items that are told, one for each.
proof fn lemma_messages_of_told(items: Seq<ItemView>)
    ensures
        chat::messages_for(items).len() == told(items).len(),
        forall|k: int|
            0 <= k < told(items).len() ==> Some(#[trigger] chat::messages_for(items)[k])
                == chat::message_for(told(items)[k]),
    decreases items.len(),
{
    reveal(Seq::filter);
    if items.len() > 0 {
        lemma_messages_of_told(items.drop_last());
    }
}

/// Whatever is asked, the messages of a request are the instructions' own, if there are any, and then
/// one for each item of the conversation that can be told, in order and none left out.
pub proof fn the_whole_conversation_is_sent(request: ResponsesRequestView)
    ensures
        ({
            let messages = chat::chat_request_for(request).messages;
            let items = told(request.input);
            let first: int = if request.instructions.len() > 0 {
                1
            } else {
                0
            };
            &&& messages.len() == first + items.len()
            &&& first == 1 ==> messages[0].role == "system"@ && messages[0].content == Some(
                request.instructions,
            ) && messages[0].tool_calls is None && messages[0].tool_call_id is None
            &&& forall|k: int|
                0 <= k < items.len() ==> Some(messages[first + k]) == chat::message_for(
                    #[trigger] items[k],
                )
        }),
{
    lemma_messages_of_told(request.input);
    let messages = chat::chat_request_for(request).messages;
    let items = told(request.input);
    let first: int = if request.instructions.len() > 0 {
        1
    } else {
        0
    };
    assert forall|k: int| 0 <= k < items.len() implies Some(messages[first + k])
        == chat::message_for(#[trigger] items[k]) by {
        assert(messages[first + k] == chat::messages_for(request.input)[k]);
    }
}

/// Whether a tool is a function with a name, in the Responses API's form.
pub open spec fn is_named_function(tool: Json) -> bool {
    tool matches Json::Object(fields) && fields.contains_key("type"@) && fields["type"@]
        == Json::String("function"@) && fields.contains_key("name"@)
}

/// Whether `wrapped` is the Chat API's form of `tool`: of type `function`, and holding under
/// `function` just the tool's name, description, parameters and strictness, as far as it has them.
pub open spec fn wraps(wrapped: Json, tool: Json) -> bool {
    &&& wrapped matches Json::Object(outer)
    &&& tool matches Json::Object(fields)
    &&& forall|key: Seq<char>| #[trigger]
        outer.contains_key(key) <==> key == "type"@ || key == "function"@
    &&& outer["type"@] == Json::String("function"@)
    &&& outer["function"@] matches Json::Object(inner)
    &&& forall|key: Seq<char>| #[trigger]
        inner.contains_key(key) <==> fields.contains_key(key) && (key == "name"@ || key
            == "description"@ || key == "parameters"@ || key == "strict"@)
    &&& forall|key: Seq<char>| #[trigger] inner.contains_key(key) ==> inner[key] == fields[key]
}

/// A tool has a form in the Chat API just if it is a function with a name, and then it is wrapped.
pub proof fn named_functions_are_wrapped(tool: Json)
    ensures
        chat::chat_tool_for(tool) is Some <==> is_named_function(tool),
        chat::chat_tool_for(tool) matches Some(t) ==> wraps(t, tool),
{
    if let Json::Object(fields) = tool {
        if is_named_function(tool) {
            reveal_strlit("type");
            reveal_strlit("function");
            assert("type"@.len() == 4 && "function"@.len() == 8);
            let inner = fields.restrict(chat::function_fields());
            let t = map![
                "type"@ => Json::String("function"@),
                "function"@ => Json::Object(inner),
            ];
            assert(chat::chat_tool_for(tool) == Some(Json::Object(t)));
        }
    }
}

/// The tools of a list that are functions with a name.
pub open spec fn named_functions(tools: Seq<Json>) -> Seq<Json> {
    tools.filter(|tool: Json| is_named_function(tool))
}

/// The Chat API's forms of some tools are those of the functions among them, one for each.
proof fn lemma_tools_of_functions(tools: Seq<Json>)
    ensures
        chat::chat_tools_for(tools).len() == named_functions(tools).len(),
        forall|k: int|
            0 <= k < named_functions(tools).len() ==> wraps(
                #[trigger] chat::chat_tools_for(tools)[k],
                named_functions(tools)[k],
            ),
    decreases tools.len(),
{
    reveal(Seq::filter);
    if tools.len() > 0 {
        lemma_tools_of_functions(tools.drop_last());
        named_functions_are_wrapped(tools.last());
    }
}

/// Whatever the conversation, every tool of a request that is a function with a name is offered, in
/// order and in the Chat API's form, and no other.
pub proof fn all_functions_are_offered(request: ResponsesRequestView)
    ensures
        ({
            let offered = chat::chat_request_for(request).tools;
            let functions = named_functions(request.tools);
            &&& offered.len() == functions.len()
            &&& forall|k: int| 0 <= k < functions.len() ==> wraps(#[trigger] offered[k], functions[k])
        }),
{
    lemma_tools_of_functions(request.tools);
}

/// Whatever its name and its place, a model of which only the name is known goes by that name, is
/// listed and can be used through the API, and has the usual settings.
pub proof fn models_known_by_name_have_the_usual_settings(
    info: ModelInfo,
    slug: Seq<char>,
    priority: int,
)
    requires
        info@ == models::compatible_model(slug, priority),
    ensures
        info.slug@ == slug,
        info.display_name@ == slug,
        info.priority == priority,
        info.visibility == ModelVisibility::List,
        info.supported_in_api,
        info.shell_type == ConfigShellToolType::ShellCommand,
        info.default_reasoning_level == Some(ReasoningEffort::Medium),
        info.supported_reasoning_levels@.len() == 3,
        info.supported_reasoning_levels@[0].effort == ReasoningEffort::Low,
        info.supported_reasoning_levels@[0].description@ == "Low reasoning effort"@,
        info.supported_reasoning_levels@[1].effort == ReasoningEffort::Medium,
        info.supported_reasoning_levels@[1].description@ == "Medium reasoning effort"@,
        info.supported_reasoning_levels@[2].effort == ReasoningEffort::High,
        info.supported_reasoning_levels@[2].description@ == "High reasoning effort"@,
        info.description is None,
        info.availability_nux is None,
        info.upgrade is None,
        info.base_instructions@.len() == 0,
        info.model_messages is None,
        !info.supports_reasoning_summaries,
        info.default_reasoning_summary == ReasoningSummary::Auto,
        !info.support_verbosity,
        info.default_verbosity is None,
        info.apply_patch_tool_type is None,
        info.web_search_tool_type == WebSearchToolType::Text,
        info.truncation_policy.mode == TruncationMode::Tokens,
        info.truncation_policy.limit == 256_000,
        !info.supports_parallel_tool_calls,
        !info.supports_image_detail_original,
        info.context_window is None,
        info.auto_compact_token_limit is None,
        info.effective_context_window_percent == 95,
        info.experimental_supported_tools@.len() == 0,
        info.input_modalities@ == seq![InputModality::Text, InputModality::Image],
        !info.prefer_websockets,
        !info.used_fallback_model_metadata,
{
    let presets = info.supported_reasoning_levels@;
    let levels = info@.supported_reasoning_levels;
    assert(levels.len() == presets.len());
    assert(levels == models::compatible_model(slug, priority).supported_reasoning_levels);
    assert(levels.len() == 3);
    assert(levels[0] == presets[0]@);
    assert(levels[1] == presets[1]@);
    assert(levels[2] == presets[2]@);
    assert(info.experimental_supported_tools@.len() == info@.experimental_supported_tools.len());
}

/// The places in a list of names at which there is more than white space.
pub open spec fn named_places(ids: Seq<Seq<char>>) -> Seq<int> {
    Seq::new(ids.len(), |i: int| i).filter(|i: int| text::trimmed(ids[i]).len() > 0)
}

/// The models of the first so many names.
proof fn lemma_models_of_places(ids: Seq<Seq<char>>, n: int)
    requires
        0 <= n <= ids.len(),
    ensures
        ({
            let places = Seq::new(n as nat, |i: int| i).filter(
                |i: int| text::trimmed(ids[i]).len() > 0,
            );
            let listed = models::compatible_models(ids.take(n));
            &&& listed.len() == places.len()
            &&& forall|k: int|
                0 <= k < places.len() ==> 0 <= places[k] < n && #[trigger] listed[k]
                    == models::compatible_model(
                    text::trimmed(ids[places[k]]),
                    models::wrapped(places[k]),
                )
        }),
    decreases n,
{
    reveal(Seq::filter);
    if n > 0 {
        lemma_models_of_places(ids, n - 1);
        assert(ids.take(n).drop_last() == ids.take(n - 1));
        assert(Seq::new(n as nat, |i: int| i).drop_last() == Seq::new((n - 1) as nat, |i: int| i));
    }
}

/// A list of names stands for one model for each name that is not blank, in order, under the trimmed
/// name and with its place in the list, as an `i32`, for a priority.
pub proof fn one_model_for_each_name(ids: Seq<Seq<char>>)
    ensures
        ({
            let listed = models::compatible_models(ids);
            let places = named_places(ids);
            &&& listed.len() == places.len()
            &&& forall|k: int|
                0 <= k < places.len() ==> {
                    let m: ModelView = #[trigger] listed[k];
                    &&& 0 <= places[k] < ids.len()
                    &&& m.slug == text::trimmed(ids[places[k]])
                    &&& m == models::compatible_model(m.slug, m.priority)
                    &&& -0x8000_0000 <= m.priority < 0x8000_0000
                    &&& (m.priority - places[k]) % 0x1_0000_0000 == 0
                    &&& places[k] < 0x8000_0000 ==> m.priority == places[k]
                }
        }),
{
    lemma_models_of_places(ids, ids.len() as int);
    assert(ids.take(ids.len() as int) == ids);
    let listed = models::compatible_models(ids);
    let places = named_places(ids);
    assert forall|k: int| 0 <= k < places.len() implies {
        let m: ModelView = #[trigger] listed[k];
        &&& 0 <= places[k] < ids.len()
        &&& m.slug == text::trimmed(ids[places[k]])
        &&& m == models::compatible_model(m.slug, m.priority)
        &&& -0x8000_0000 <= m.priority < 0x8000_0000
        &&& (m.priority - places[k]) % 0x1_0000_0000 == 0
        &&& places[k] < 0x8000_0000 ==> m.priority == places[k]
    } by {
        let m: ModelView = listed[k];
        assert(m == models::compatible_model(
            text::trimmed(ids[places[k]]),
            models::wrapped(places[k]),
        ));
    }
}

/// Whatever a caller's header map and subagent hold, each field of the request is what it should be:
/// the subagent's name as it is, if it can be a value; else the conversation's; else the caller's.
pub proof fn request_headers_are_put_together(
    extra: HeaderMap,
    conversation: HeaderMap,
    subagent: Option<&str>,
    fields: HeaderMap,
    name: Seq<char>,
)
    requires
        headers::header_fields(fields) == chat::conversation_fields(
            headers::header_fields(extra),
            headers::header_fields(conversation),
            chat::optional_bytes(subagent),
        ),
    ensures
        ({
            let (a, b, r) = (
                headers::header_fields(extra),
                headers::header_fields(conversation),
                headers::header_fields(fields),
            );
            let named = name == "x-openai-subagent"@ && (subagent matches Some(s) && forall|i: int|
                0 <= i < s.spec_bytes().len() ==> {
                    let byte = #[trigger] s.spec_bytes()[i];
                    byte == 9 || (byte >= 32 && byte != 127)
                });
            if named {
                r.contains_key(name) && r[name] == seq![(subagent->0).spec_bytes()]
            } else if b.contains_key(name) {
                r.contains_key(name) && r[name] == b[name]
            } else {
                (r.contains_key(name) <==> a.contains_key(name)) && (a.contains_key(name)
                    ==> r[name] == a[name])
            }
        }),
{
    if let Some(s) = subagent {
        let bytes = s.spec_bytes();
        if headers::is_sendable(bytes) {
            assert forall|i: int| 0 <= i < bytes.len() implies {
                let byte = #[trigger] bytes[i];
                byte == 9 || (byte >= 32 && byte != 127)
            } by {}
        }
    }
}

/// A request that is made ready keeps its URL and all header fields but `accept`, which has the one
/// value `text/event-stream` from then on; and it is compressed as the caller wants.
pub proof fn stream_requests_change_nothing_else(
    request: RequestView,
    compression: Compression,
    name: Seq<char>,
)
    ensures
        ({
            let sent = chat::stream_request_for(request, compression);
            let accept = sent.headers["accept"@];
            &&& sent.url == request.url
            &&& sent.headers.contains_key("accept"@)
            &&& accept.len() == 1 && accept[0].len() == "text/event-stream"@.len()
            &&& forall|i: int|
                0 <= i < accept[0].len() ==> #[trigger] accept[0][i] as char
                    == "text/event-stream"@[i]
            &&& name != "accept"@ ==> (sent.headers.contains_key(name)
                <==> request.headers.contains_key(name)) && sent.headers[name]
                == request.headers[name]
            &&& compression == Compression::Plain ==> sent.compression == RequestCompression::Plain
            &&& compression == Compression::Zstd ==> sent.compression == RequestCompression::Zstd
        }),
{
    reveal_strlit("text/event-stream");
}

/// The parts of a URL's query are set apart by `&`, and the query from the rest by `?`: the version
/// is the only thing that is added, behind a `?` if there was none and behind a `&` if there was.
pub proof fn client_version_is_set_apart(url: Seq<char>, client_version: Seq<char>)
    ensures
        (exists|i: int| 0 <= i < url.len() && #[trigger] url[i] == '?')
            ==> models::with_client_version(url, client_version) == url + "&client_version="@
            + client_version,
        !(exists|i: int| 0 <= i < url.len() && #[trigger] url[i] == '?')
            ==> models::with_client_version(url, client_version) == url + "?client_version="@
            + client_version,
{
    reveal_strlit("&client_version=");
    reveal_strlit("?client_version=");
    reveal_strlit("client_version=");
    assert("&client_version="@ == seq!['&'] + "client_version="@);
    assert("?client_version="@ == seq!['?'] + "client_version="@);
    assert(url + (seq!['&'] + "client_version="@) == url + seq!['&'] + "client_version="@);
    assert(url + (seq!['?'] + "client_version="@) == url + seq!['?'] + "client_version="@);
}

} // verus!
