//! The conversation items and response events that requests are made of and streams yield.
use vstd::prelude::*;

verus! {

/// The characters of an optional text.
pub open spec fn optional_text(t: Option<String>) -> Option<Seq<char>> {
    match t {
        Some(s) => Some(s@),
        None => None,
    }
}

/// One part of a message's content.
#[derive(Debug, Clone, PartialEq, Eq)]
pub enum ContentItem {
    InputText { text: String },
    OutputText { text: String },
    InputImage { image_url: String },
}

/// What a [`ContentItem`] says.
pub enum ContentView {
    InputText { text: Seq<char> },
    OutputText { text: Seq<char> },
    InputImage { image_url: Seq<char> },
}

impl View for ContentItem {
    type V = ContentView;

    open spec fn view(&self) -> ContentView {
        match self {
            ContentItem::InputText { text } => ContentView::InputText { text: text@ },
            ContentItem::OutputText { text } => ContentView::OutputText { text: text@ },
            ContentItem::InputImage { image_url } => ContentView::InputImage {
                image_url: image_url@,
            },
        }
    }
}

/// What a list of content items says.
pub open spec fn contents_view(items: Seq<ContentItem>) -> Seq<ContentView> {
    items.map_values(|c: ContentItem| c@)
}

/// Where in a turn a message stands.
#[derive(Debug, Clone, Copy, PartialEq, Eq, Structural)]
pub enum MessagePhase {
    Commentary,
    FinalAnswer,
}

/// What a tool gave back: plain text, or something that has no single text.
#[derive(Debug, Clone, PartialEq, Eq)]
pub struct FunctionCallOutputPayload {
    pub text: Option<String>,
}

impl FunctionCallOutputPayload {
    /// The output as text, where it is text.
    pub fn text_content(&self) -> (r: Option<&str>)
        ensures
            match (r, self.text) {
                (Some(s), Some(t)) => s@ == t@,
                (None, None) => true,
                _ => false,
            },
    {
        match &self.text {
            Some(t) => Some(t.as_str()),
            None => None,
        }
    }
}

/// One item of a conversation.
#[derive(Debug, Clone, PartialEq, Eq)]
pub enum ResponseItem {
    Message {
        id: Option<String>,
        role: String,
        content: Vec<ContentItem>,
        end_turn: Option<bool>,
        phase: Option<MessagePhase>,
    },
    FunctionCall { id: Option<String>, name: String, arguments: String, call_id: String },
    FunctionCallOutput { call_id: String, output: FunctionCallOutputPayload },
    /// An item of any other kind.
    Other,
}

/// What a [`ResponseItem`] says.
pub enum ItemView {
    Message {
        id: Option<Seq<char>>,
        role: Seq<char>,
        content: Seq<ContentView>,
        end_turn: Option<bool>,
        phase: Option<MessagePhase>,
    },
    FunctionCall {
        id: Option<Seq<char>>,
        name: Seq<char>,
        arguments: Seq<char>,
        call_id: Seq<char>,
    },
    FunctionCallOutput { call_id: Seq<char>, text: Option<Seq<char>> },
    Other,
}

impl View for ResponseItem {
    type V = ItemView;

    open spec fn view(&self) -> ItemView {
        match self {
            ResponseItem::Message { id, role, content, end_turn, phase } => ItemView::Message {
                id: optional_text(*id),
                role: role@,
                content: contents_view(content@),
                end_turn: *end_turn,
                phase: *phase,
            },
            ResponseItem::FunctionCall { id, name, arguments, call_id } => ItemView::FunctionCall {
                id: optional_text(*id),
                name: name@,
                arguments: arguments@,
                call_id: call_id@,
            },
            ResponseItem::FunctionCallOutput { call_id, output } => ItemView::FunctionCallOutput {
                call_id: call_id@,
                text: optional_text(output.text),
            },
            ResponseItem::Other => ItemView::Other,
        }
    }
}

/// What a list of conversation items says.
pub open spec fn items_view(items: Seq<ResponseItem>) -> Seq<ItemView> {
    items.map_values(|i: ResponseItem| i@)
}

/// How many tokens a response took.
#[derive(Debug, Clone, Copy, PartialEq, Eq, Structural)]
pub struct TokenUsage {
    pub input_tokens: i64,
    pub cached_input_tokens: i64,
    pub output_tokens: i64,
    pub reasoning_output_tokens: i64,
    pub total_tokens: i64,
}

/// What a response stream reports as it goes along.
#[derive(Debug, Clone, PartialEq, Eq)]
pub enum ResponseEvent {
    Created,
    OutputItemAdded(ResponseItem),
    OutputItemDone(ResponseItem),
    OutputTextDelta(String),
    ReasoningSummaryDelta { delta: String, summary_index: i64 },
    Completed { response_id: String, token_usage: Option<TokenUsage> },
}

/// What a [`ResponseEvent`] says.
pub enum EventView {
    Created,
    OutputItemAdded(ItemView),
    OutputItemDone(ItemView),
    OutputTextDelta(Seq<char>),
    ReasoningSummaryDelta { delta: Seq<char>, summary_index: i64 },
    Completed { response_id: Seq<char>, token_usage: Option<TokenUsage> },
}

impl View for ResponseEvent {
    type V = EventView;

    open spec fn view(&self) -> EventView {
        match self {
            ResponseEvent::Created => EventView::Created,
            ResponseEvent::OutputItemAdded(item) => EventView::OutputItemAdded(item@),
            ResponseEvent::OutputItemDone(item) => EventView::OutputItemDone(item@),
            ResponseEvent::OutputTextDelta(text) => EventView::OutputTextDelta(text@),
            ResponseEvent::ReasoningSummaryDelta { delta, summary_index } =>
                EventView::ReasoningSummaryDelta { delta: delta@, summary_index: *summary_index },
            ResponseEvent::Completed { response_id, token_usage } => EventView::Completed {
                response_id: response_id@,
                token_usage: *token_usage,
            },
        }
    }
}

/// Why a response could not be read.
#[derive(Debug, Clone, PartialEq, Eq)]
pub enum ApiError {
    /// What arrived made no sense, or stopped arriving.
    Stream(String),
}

/// What an [`ApiError`] says.
pub enum ErrorView {
    Stream(Seq<char>),
}

impl View for ApiError {
    type V = ErrorView;

    open spec fn view(&self) -> ErrorView {
        match self {
            ApiError::Stream(text) => ErrorView::Stream(text@),
        }
    }
}

} // verus!
