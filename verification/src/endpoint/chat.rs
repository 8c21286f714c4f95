//! Asking for a chat completion: from a conversation and its tools to the request's body.
use http::{HeaderMap, HeaderName, HeaderValue};
use serde_json::Value;
use vstd::prelude::*;
use vstd::string::*;

use crate::headers;
use crate::json;
use crate::json::Json;
use crate::protocol;
use crate::protocol::{ApiError, ContentItem, ContentView, ErrorView, ItemView, ResponseItem};
use crate::request;
use crate::request::{Compression, Request, RequestView};
use crate::text;

verus! {

/// A message that holds text alone.
#[derive(Debug, Clone)]
pub struct ChatMessage {
    pub role: String,
    pub content: String,
    pub tool_call_id: Option<String>,
}

/// A tool call that the assistant has made.
#[derive(Debug, Clone)]
pub struct ChatToolCall {
    pub id: String,
    pub call_type: String,
    pub function: ChatToolCallFunction,
}

/// The function that a tool call names, and what it is called with.
#[derive(Debug, Clone)]
pub struct ChatToolCallFunction {
    pub name: String,
    pub arguments: String,
}

/// A message that may hold tool calls, as the assistant's messages of a conversation do.
#[derive(Debug, Clone)]
pub struct ChatMessageWithToolCalls {
    pub role: String,
    pub content: Option<String>,
    pub tool_calls: Option<Vec<ChatToolCall>>,
    pub tool_call_id: Option<String>,
}

/// The body of a request for a chat completion.
#[derive(Debug, Clone)]
pub struct ChatCompletionRequest {
    pub model: String,
    pub messages: Vec<ChatMessageWithToolCalls>,
    pub stream: bool,
    pub max_tokens: Option<u32>,
    pub tools: Vec<Value>,
    pub stream_options: Option<StreamOptions>,
}

/// What a streamed answer is to hold besides the completion.
#[derive(Debug, Clone, Copy, PartialEq, Eq, Structural)]
pub struct StreamOptions {
    pub include_usage: bool,
}

/// What is asked of a model: instructions, the conversation so far, and the tools it may call, in
/// the form that the Responses API has for them.
#[derive(Debug, Clone)]
pub struct ResponsesApiRequest {
    pub model: String,
    pub instructions: String,
    pub input: Vec<ResponseItem>,
    pub tools: Vec<Value>,
    pub stream: bool,
}

/// What a [`ChatToolCall`] says.
pub struct ToolCallView {
    pub id: Seq<char>,
    pub call_type: Seq<char>,
    pub name: Seq<char>,
    pub arguments: Seq<char>,
}

impl View for ChatToolCall {
    type V = ToolCallView;

    open spec fn view(&self) -> ToolCallView {
        ToolCallView {
            id: self.id@,
            call_type: self.call_type@,
            name: self.function.name@,
            arguments: self.function.arguments@,
        }
    }
}

/// What a [`ChatMessageWithToolCalls`] says.
pub struct MessageView {
    pub role: Seq<char>,
    pub content: Option<Seq<char>>,
    pub tool_calls: Option<Seq<ToolCallView>>,
    pub tool_call_id: Option<Seq<char>>,
}

/// What a list of tool calls says.
pub open spec fn tool_calls_view(calls: Seq<ChatToolCall>) -> Seq<ToolCallView> {
    calls.map_values(|c: ChatToolCall| c@)
}

impl View for ChatMessageWithToolCalls {
    type V = MessageView;

    open spec fn view(&self) -> MessageView {
        MessageView {
            role: self.role@,
            content: protocol::optional_text(self.content),
            tool_calls: match self.tool_calls {
                Some(calls) => Some(tool_calls_view(calls@)),
                None => None,
            },
            tool_call_id: protocol::optional_text(self.tool_call_id),
        }
    }
}

/// What a list of messages says.
pub open spec fn messages_view(messages: Seq<ChatMessageWithToolCalls>) -> Seq<MessageView> {
    messages.map_values(|m: ChatMessageWithToolCalls| m@)
}

/// What a list of JSON values says.
pub open spec fn jsons(values: Seq<Value>) -> Seq<Json> {
    values.map_values(|v: Value| json::json(v))
}

/// A message of nothing but text.
pub open spec fn text_message(role: Seq<char>, content: Seq<char>) -> MessageView {
    MessageView { role, content: Some(content), tool_calls: None, tool_call_id: None }
}

/// The text of a content item that is text.
pub open spec fn text_part(item: ContentView) -> Option<Seq<char>> {
    match item {
        ContentView::InputText { text } => Some(text),
        ContentView::OutputText { text } => Some(text),
        ContentView::InputImage { .. } => None,
    }
}

/// The texts among some content items, in order.
pub open spec fn text_parts(content: Seq<ContentView>) -> Seq<Seq<char>>
    decreases content.len(),
{
    if content.len() == 0 {
        Seq::empty()
    } else {
        match text_part(content.last()) {
            Some(text) => text_parts(content.drop_last()).push(text),
            None => text_parts(content.drop_last()),
        }
    }
}

/// The message that stands for a conversation item. A message keeps its role and the lines of its
/// texts, a tool call and a tool's output each become a message of their own, and what is neither is
/// left out.
pub open spec fn message_for(item: ItemView) -> Option<MessageView> {
    match item {
        ItemView::Message { role, content, .. } => Some(
            text_message(role, text::lines(text_parts(content))),
        ),
        ItemView::FunctionCall { name, arguments, call_id, .. } => Some(
            MessageView {
                role: "assistant"@,
                content: None,
                tool_calls: Some(
                    seq![ToolCallView { id: call_id, call_type: "function"@, name, arguments }],
                ),
                tool_call_id: None,
            },
        ),
        ItemView::FunctionCallOutput { call_id, text } => Some(
            MessageView {
                role: "tool"@,
                content: Some(
                    match text {
                        Some(text) => text,
                        None => Seq::empty(),
                    },
                ),
                tool_calls: None,
                tool_call_id: Some(call_id),
            },
        ),
        ItemView::Other => None,
    }
}

/// The messages that stand for some conversation items, in order.
pub open spec fn messages_for(items: Seq<ItemView>) -> Seq<MessageView>
    decreases items.len(),
{
    if items.len() == 0 {
        Seq::empty()
    } else {
        match message_for(items.last()) {
            Some(message) => messages_for(items.drop_last()).push(message),
            None => messages_for(items.drop_last()),
        }
    }
}

/// All messages of a request: the instructions, if there are any, as the system's message, and then
/// the conversation.
pub open spec fn chat_messages(instructions: Seq<char>, items: Seq<ItemView>) -> Seq<MessageView> {
    if instructions.len() == 0 {
        messages_for(items)
    } else {
        seq![text_message("system"@, instructions)] + messages_for(items)
    }
}

/// Appends one more line to `lines`, which holds none yet if `first`.
fn append_line(lines: &mut String, first: bool, line: &str)
    ensures
        final(lines)@ == (if first {
            old(lines)@ + line@
        } else {
            old(lines)@.push('\n') + line@
        }),
{
    if !first {
        lines.append("\n");
        proof {
            reveal_strlit("\n");
            assert(old(lines)@ + "\n"@ == old(lines)@.push('\n'));
        }
    }
    lines.append(line);
}

/// The lines of the texts among some content items.
pub fn joined_text(content: &Vec<ContentItem>) -> (r: String)
    ensures
        r@ == text::lines(text_parts(protocol::contents_view(content@))),
{
    let ghost views = protocol::contents_view(content@);
    let mut joined: String = String::new();
    let mut first: bool = true;
    let mut i: usize = 0;
    while i < content.len()
        invariant
            i <= content.len(),
            views == protocol::contents_view(content@),
            joined@ == text::lines(text_parts(views.take(i as int))),
            first == (text_parts(views.take(i as int)).len() == 0),
        decreases content.len() - i,
    {
        let ghost before = text_parts(views.take(i as int));
        proof {
            assert(views.take(i + 1).drop_last() == views.take(i as int));
            assert(views.take(i + 1).last() == content@[i as int]@);
        }
        match &content[i] {
            ContentItem::InputText { text } => {
                proof {
                    assert(before.push(text@).drop_last() == before);
                }
                append_line(&mut joined, first, text.as_str());
                first = false;
            },
            ContentItem::OutputText { text } => {
                proof {
                    assert(before.push(text@).drop_last() == before);
                }
                append_line(&mut joined, first, text.as_str());
                first = false;
            },
            ContentItem::InputImage { .. } => {},
        }
        i = i + 1;
    }
    proof {
        assert(views.take(i as int) == views);
    }
    joined
}

/// The message that stands for a conversation item, if one does.
pub fn chat_message(item: &ResponseItem) -> (r: Option<ChatMessageWithToolCalls>)
    ensures
        match r {
            Some(m) => message_for(item@) == Some(m@),
            None => message_for(item@) is None,
        },
{
    match item {
        ResponseItem::Message { role, content, .. } => Some(
            ChatMessageWithToolCalls {
                role: role.clone(),
                content: Some(joined_text(content)),
                tool_calls: None,
                tool_call_id: None,
            },
        ),
        ResponseItem::FunctionCall { name, arguments, call_id, .. } => {
            let mut calls: Vec<ChatToolCall> = Vec::new();
            calls.push(
                ChatToolCall {
                    id: call_id.clone(),
                    call_type: "function".to_owned(),
                    function: ChatToolCallFunction {
                        name: name.clone(),
                        arguments: arguments.clone(),
                    },
                },
            );
            assert(tool_calls_view(calls@) == seq![
                ToolCallView {
                    id: call_id@,
                    call_type: "function"@,
                    name: name@,
                    arguments: arguments@,
                },
            ]);
            Some(
                ChatMessageWithToolCalls {
                    role: "assistant".to_owned(),
                    content: None,
                    tool_calls: Some(calls),
                    tool_call_id: None,
                },
            )
        },
        ResponseItem::FunctionCallOutput { call_id, output } => {
            let content: String = match output.text_content() {
                Some(text) => text.to_owned(),
                None => String::new(),
            };
            Some(
                ChatMessageWithToolCalls {
                    role: "tool".to_owned(),
                    content: Some(content),
                    tool_calls: None,
                    tool_call_id: Some(call_id.clone()),
                },
            )
        },
        ResponseItem::Other => None,
    }
}

/// All messages of a request.
pub fn chat_messages_for(instructions: &str, input: &Vec<ResponseItem>) -> (r: Vec<
    ChatMessageWithToolCalls,
>)
    ensures
        messages_view(r@) == chat_messages(instructions@, protocol::items_view(input@)),
{
    let ghost items = protocol::items_view(input@);
    let mut messages: Vec<ChatMessageWithToolCalls> = Vec::new();
    if !instructions.is_empty() {
        messages.push(
            ChatMessageWithToolCalls {
                role: "system".to_owned(),
                content: Some(instructions.to_owned()),
                tool_calls: None,
                tool_call_id: None,
            },
        );
    }
    let ghost head = messages_view(messages@);
    let mut i: usize = 0;
    while i < input.len()
        invariant
            i <= input.len(),
            items == protocol::items_view(input@),
            messages_view(messages@) == head + messages_for(items.take(i as int)),
        decreases input.len() - i,
    {
        proof {
            assert(items.take(i + 1).drop_last() == items.take(i as int));
            assert(items.take(i + 1).last() == input@[i as int]@);
        }
        if let Some(message) = chat_message(&input[i]) {
            let ghost before = messages@;
            messages.push(message);
            assert(messages_view(messages@) == messages_view(before).push(message@));
        }
        i = i + 1;
    }
    proof {
        assert(items.take(i as int) == items);
        assert(head == (if instructions@.len() == 0 {
            Seq::empty()
        } else {
            seq![text_message("system"@, instructions@)]
        }));
    }
    messages
}

/// The fields of a function tool that are kept.
pub open spec fn function_fields() -> Set<Seq<char>> {
    set!["name"@, "description"@, "parameters"@, "strict"@]
}

/// The Chat API's form of a tool that is given in the Responses API's form. The Responses API has a
/// function's fields beside its `type`, the Chat API has them in an object of their own. A tool that
/// is not a function, or has no name, has no such form.
pub open spec fn chat_tool_for(tool: Json) -> Option<Json> {
    match tool {
        Json::Object(fields) => if fields.contains_key("type"@) && fields["type"@] == Json::String(
            "function"@,
        ) && fields.contains_key("name"@) {
            Some(
                Json::Object(
                    map![
                        "type"@ => Json::String("function"@),
                        "function"@ => Json::Object(fields.restrict(function_fields())),
                    ],
                ),
            )
        } else {
            None
        },
        _ => None,
    }
}

/// The Chat API's forms of those of some tools that have one, in order.
pub open spec fn chat_tools_for(tools: Seq<Json>) -> Seq<Json>
    decreases tools.len(),
{
    if tools.len() == 0 {
        Seq::empty()
    } else {
        match chat_tool_for(tools.last()) {
            Some(tool) => chat_tools_for(tools.drop_last()).push(tool),
            None => chat_tools_for(tools.drop_last()),
        }
    }
}

/// Copies the entry of `key` from one object to another, if it is there.
fn copy_entry(
    from: &serde_json::Map<String, Value>,
    key: &str,
    to: &mut serde_json::Map<String, Value>,
)
    ensures
        json::json_entries(*final(to)) == (if json::json_entries(*from).contains_key(key@) {
            json::json_entries(*old(to)).insert(key@, json::json_entries(*from)[key@])
        } else {
            json::json_entries(*old(to))
        }),
{
    if let Some(value) = json::entry(from, key) {
        json::insert_entry(to, key.to_owned(), json::copy_value(value));
    }
}

/// The Chat API's form of a tool, if it has one.
pub fn chat_tool(tool: &Value) -> (r: Option<Value>)
    ensures
        match r {
            Some(t) => chat_tool_for(json::json(*tool)) == Some(json::json(t)),
            None => chat_tool_for(json::json(*tool)) is None,
        },
{
    let fields = match tool.as_object() {
        Some(fields) => fields,
        None => {
            return None;
        },
    };
    let tool_type = match json::entry(fields, "type") {
        Some(value) => match value.as_str() {
            Some(tool_type) => tool_type,
            None => {
                return None;
            },
        },
        None => {
            return None;
        },
    };
    if !text::same_text(tool_type, "function") {
        return None;
    }
    if json::entry(fields, "name").is_none() {
        return None;
    }
    let mut function = json::new_map();
    copy_entry(fields, "name", &mut function);
    copy_entry(fields, "description", &mut function);
    copy_entry(fields, "parameters", &mut function);
    copy_entry(fields, "strict", &mut function);
    proof {
        reveal_strlit("name");
        reveal_strlit("description");
        reveal_strlit("parameters");
        reveal_strlit("strict");
        assert(json::json_entries(function) == json::json_entries(*fields).restrict(
            function_fields(),
        ));
    }
    let mut chat_tool = json::new_map();
    json::insert_entry(
        &mut chat_tool,
        "type".to_owned(),
        json::string_value("function".to_owned()),
    );
    let ghost wrapped = json::json_entries(function);
    json::insert_entry(&mut chat_tool, "function".to_owned(), json::object_value(function));
    proof {
        reveal_strlit("type");
        reveal_strlit("function");
        assert(json::json_entries(chat_tool) == map![
            "type"@ => Json::String("function"@),
            "function"@ => Json::Object(wrapped),
        ]);
    }
    Some(json::object_value(chat_tool))
}

/// The Chat API's forms of those of some tools that have one.
pub fn chat_tools(tools: &Vec<Value>) -> (r: Vec<Value>)
    ensures
        jsons(r@) == chat_tools_for(jsons(tools@)),
{
    let ghost views = jsons(tools@);
    let mut out: Vec<Value> = Vec::new();
    let mut i: usize = 0;
    while i < tools.len()
        invariant
            i <= tools.len(),
            views == jsons(tools@),
            jsons(out@) == chat_tools_for(views.take(i as int)),
        decreases tools.len() - i,
    {
        proof {
            assert(views.take(i + 1).drop_last() == views.take(i as int));
            assert(views.take(i + 1).last() == json::json(tools@[i as int]));
        }
        if let Some(tool) = chat_tool(&tools[i]) {
            let ghost before = out@;
            out.push(tool);
            assert(jsons(out@) == jsons(before).push(json::json(tool)));
        }
        i = i + 1;
    }
    proof {
        assert(views.take(i as int) == views);
    }
    out
}

/// What a [`ChatCompletionRequest`] says.
pub struct ChatRequestView {
    pub model: Seq<char>,
    pub messages: Seq<MessageView>,
    pub stream: bool,
    pub max_tokens: Option<u32>,
    pub tools: Seq<Json>,
    pub stream_options: Option<StreamOptions>,
}

impl View for ChatCompletionRequest {
    type V = ChatRequestView;

    open spec fn view(&self) -> ChatRequestView {
        ChatRequestView {
            model: self.model@,
            messages: messages_view(self.messages@),
            stream: self.stream,
            max_tokens: self.max_tokens,
            tools: jsons(self.tools@),
            stream_options: self.stream_options,
        }
    }
}

/// What a [`ResponsesApiRequest`] says.
pub struct ResponsesRequestView {
    pub model: Seq<char>,
    pub instructions: Seq<char>,
    pub input: Seq<ItemView>,
    pub tools: Seq<Json>,
    pub stream: bool,
}

impl View for ResponsesApiRequest {
    type V = ResponsesRequestView;

    open spec fn view(&self) -> ResponsesRequestView {
        ResponsesRequestView {
            model: self.model@,
            instructions: self.instructions@,
            input: protocol::items_view(self.input@),
            tools: jsons(self.tools@),
            stream: self.stream,
        }
    }
}

/// The chat completion that a request asks for: its messages and tools in the Chat API's form, no
/// limit on tokens, and the token counts asked for along with the answer.
pub open spec fn chat_request_for(request: ResponsesRequestView) -> ChatRequestView {
    ChatRequestView {
        model: request.model,
        messages: chat_messages(request.instructions, request.input),
        stream: request.stream,
        max_tokens: None,
        tools: chat_tools_for(request.tools),
        stream_options: Some(StreamOptions { include_usage: true }),
    }
}

/// The chat completion that a request asks for.
pub fn chat_completion_request(request: &ResponsesApiRequest) -> (r: ChatCompletionRequest)
    ensures
        r@ == chat_request_for(request@),
{
    ChatCompletionRequest {
        model: request.model.clone(),
        messages: chat_messages_for(request.instructions.as_str(), &request.input),
        stream: request.stream,
        max_tokens: None,
        tools: chat_tools(&request.tools),
        stream_options: Some(StreamOptions { include_usage: true }),
    }
}

/// The error for a request that could not be encoded.
pub fn encoding_error(detail: &str) -> (r: ApiError)
    ensures
        r@ == ErrorView::Stream("failed to encode chat request: "@ + detail@),
{
    let mut message: String = "failed to encode chat request: ".to_owned();
    message.append(detail);
    ApiError::Stream(message)
}

/// Where under the provider's base URL chat completions are asked for.
pub fn path() -> (r: &'static str)
    ensures
        r@ == "chat/completions"@,
{
    "chat/completions"
}

/// The header fields of a request: those of the conversation take the place of the caller's own,
/// and a subagent is named, if its name can be a header value.
pub open spec fn conversation_fields(
    extra: Map<Seq<char>, Seq<Seq<u8>>>,
    conversation: Map<Seq<char>, Seq<Seq<u8>>>,
    subagent: Option<Seq<u8>>,
) -> Map<Seq<char>, Seq<Seq<u8>>> {
    let fields = extra.union_prefer_right(conversation);
    match subagent {
        Some(name) => if headers::is_sendable(name) {
            fields.insert("x-openai-subagent"@, seq![name])
        } else {
            fields
        },
        None => fields,
    }
}

/// The bytes of an optional text.
pub open spec fn optional_bytes(text: Option<&str>) -> Option<Seq<u8>> {
    match text {
        Some(t) => Some(t.spec_bytes()),
        None => None,
    }
}

/// The header fields of a request. `None` where one header map has no room for them all, which may
/// be so only of a great many.
pub fn conversation_headers(
    extra: HeaderMap,
    conversation: HeaderMap,
    subagent: Option<&str>,
) -> (r: Option<HeaderMap>)
    ensures
        match r {
            Some(fields) => headers::header_fields(fields) == conversation_fields(
                headers::header_fields(extra),
                headers::header_fields(conversation),
                optional_bytes(subagent),
            ),
            None => !headers::fit_together(
                headers::header_fields(extra),
                headers::header_fields(conversation),
            ),
        },
{
    proof {
        let (a, b) = (headers::header_fields(extra), headers::header_fields(conversation));
        if headers::fit_together(a, b) {
            vstd::set_lib::lemma_len_union(a.dom(), b.dom());
            assert(a.union_prefer_right(b).dom() == a.dom().union(b.dom()));
        }
        reveal_strlit("x-openai-subagent");
    }
    let mut fields = match headers::merged(extra, conversation) {
        Some(fields) => fields,
        None => {
            return None;
        },
    };
    if let Some(name) = subagent {
        if let Ok(value) = HeaderValue::from_str(name) {
            let field = HeaderName::from_static("x-openai-subagent");
            if headers::set_field(&mut fields, &field, value).is_err() {
                return None;
            }
        }
    }
    Some(fields)
}

/// A request for a chat completion, made ready to be sent: it asks for a stream of events, and for
/// the compression that the caller wants.
pub open spec fn stream_request_for(request: RequestView, compression: Compression) -> RequestView {
    RequestView {
        headers: request.headers.insert(
            "accept"@,
            seq![headers::ascii_bytes("text/event-stream"@)],
        ),
        compression: request::request_compression_for(compression),
        ..request
    }
}

/// Makes a request for a chat completion ready to be sent, and says whether it did: a request whose
/// header map has no room for one more name, which may be so only of a great many, stays as it is.
pub fn configure_stream_request(req: &mut Request, compression: Compression) -> (r: bool)
    ensures
        final(req)@ == (if r {
            stream_request_for(old(req)@, compression)
        } else {
            old(req)@
        }),
        headers::has_room(old(req)@.headers, 1) ==> r,
{
    proof {
        reveal_strlit("text/event-stream");
        reveal_strlit("accept");
    }
    let field = HeaderName::from_static("accept");
    let value = HeaderValue::from_static("text/event-stream");
    if headers::set_field(&mut req.headers, &field, value).is_err() {
        return false;
    }
    req.compression = request::request_compression(compression);
    true
}

} // verus!
