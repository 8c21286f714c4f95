//! A chat-completions stream: from the chunks that a server sends to response events.
use std::collections::BTreeMap;
use vstd::prelude::*;
use vstd::std_specs::btree::*;
use vstd::string::*;

use crate::protocol::{
    ApiError, ContentItem, ContentView, ErrorView, EventView, ItemView, ResponseEvent, ResponseItem,
    TokenUsage,
};
use crate::sse::think;
use crate::text;

verus! {

broadcast use group_btree_axioms;

/// One chunk of a streamed chat completion.
#[derive(Debug)]
pub struct ChatCompletionChunk {
    pub id: String,
    pub choices: Vec<ChatCompletionChoice>,
    pub usage: Option<ChatCompletionUsage>,
}

/// One choice of a chunk.
#[derive(Debug)]
pub struct ChatCompletionChoice {
    pub delta: ChatCompletionDelta,
    pub finish_reason: Option<String>,
}

/// What a chunk adds to a choice.
#[derive(Debug)]
pub struct ChatCompletionDelta {
    pub role: Option<String>,
    pub content: Option<String>,
    pub tool_calls: Option<Vec<ToolCallDelta>>,
    /// Where DeepSeek-R1 and other reasoning models put their reasoning.
    pub reasoning_content: Option<String>,
    /// Another common name for the same thing.
    pub reasoning: Option<String>,
}

/// What a chunk adds to the tool call of some index.
#[derive(Debug)]
pub struct ToolCallDelta {
    pub index: usize,
    pub id: Option<String>,
    pub function: Option<ToolCallFunctionDelta>,
}

/// What a chunk adds to the function of a tool call.
#[derive(Debug)]
pub struct ToolCallFunctionDelta {
    pub name: Option<String>,
    pub arguments: Option<String>,
}

/// The token counts that a chunk reports.
#[derive(Debug, Clone, Copy, PartialEq, Eq, Structural)]
pub struct ChatCompletionUsage {
    pub prompt_tokens: i64,
    pub completion_tokens: i64,
    pub total_tokens: i64,
}

impl From<ChatCompletionUsage> for TokenUsage {
    fn from(val: ChatCompletionUsage) -> (r: Self) {
        TokenUsage {
            input_tokens: val.prompt_tokens,
            cached_input_tokens: 0,
            output_tokens: val.completion_tokens,
            reasoning_output_tokens: 0,
            total_tokens: val.total_tokens,
        }
    }
}

impl vstd::std_specs::convert::FromSpecImpl<ChatCompletionUsage> for TokenUsage {
    open spec fn obeys_from_spec() -> bool {
        true
    }

    open spec fn from_spec(val: ChatCompletionUsage) -> Self {
        token_usage(val)
    }
}

/// The token usage that a chunk's counts stand for: they tell nothing of cached or reasoning tokens.
pub open spec fn token_usage(val: ChatCompletionUsage) -> TokenUsage {
    TokenUsage {
        input_tokens: val.prompt_tokens,
        cached_input_tokens: 0,
        output_tokens: val.completion_tokens,
        reasoning_output_tokens: 0,
        total_tokens: val.total_tokens,
    }
}

/// What a [`ToolCallDelta`] says.
pub struct ToolDeltaView {
    pub index: usize,
    pub id: Option<Seq<char>>,
    pub name: Option<Seq<char>>,
    pub arguments: Option<Seq<char>>,
}

impl View for ToolCallDelta {
    type V = ToolDeltaView;

    open spec fn view(&self) -> ToolDeltaView {
        ToolDeltaView {
            index: self.index,
            id: crate::protocol::optional_text(self.id),
            name: match self.function {
                Some(f) => crate::protocol::optional_text(f.name),
                None => None,
            },
            arguments: match self.function {
                Some(f) => crate::protocol::optional_text(f.arguments),
                None => None,
            },
        }
    }
}

/// What a list of tool call deltas says.
pub open spec fn tool_deltas_view(deltas: Seq<ToolCallDelta>) -> Seq<ToolDeltaView> {
    deltas.map_values(|d: ToolCallDelta| d@)
}

/// What a [`ChatCompletionChoice`] says that matters to the stream.
pub struct ChoiceView {
    pub reasoning_content: Option<Seq<char>>,
    pub reasoning: Option<Seq<char>>,
    pub content: Option<Seq<char>>,
    pub tool_calls: Seq<ToolDeltaView>,
}

impl View for ChatCompletionChoice {
    type V = ChoiceView;

    open spec fn view(&self) -> ChoiceView {
        ChoiceView {
            reasoning_content: crate::protocol::optional_text(self.delta.reasoning_content),
            reasoning: crate::protocol::optional_text(self.delta.reasoning),
            content: crate::protocol::optional_text(self.delta.content),
            tool_calls: match self.delta.tool_calls {
                Some(deltas) => tool_deltas_view(deltas@),
                None => Seq::empty(),
            },
        }
    }
}

/// What a list of choices says.
pub open spec fn choices_view(choices: Seq<ChatCompletionChoice>) -> Seq<ChoiceView> {
    choices.map_values(|c: ChatCompletionChoice| c@)
}

/// What a [`ChatCompletionChunk`] says that matters to the stream.
pub struct ChunkView {
    pub id: Seq<char>,
    pub choices: Seq<ChoiceView>,
    pub usage: Option<ChatCompletionUsage>,
}

impl View for ChatCompletionChunk {
    type V = ChunkView;

    open spec fn view(&self) -> ChunkView {
        ChunkView { id: self.id@, choices: choices_view(self.choices@), usage: self.usage }
    }
}

/// A tool call of which some deltas have arrived.
#[derive(Debug)]
pub struct ToolCallAccumulator {
    pub id: String,
    pub name: String,
    pub arguments: String,
}

/// What a [`ToolCallAccumulator`] holds.
pub struct ToolCallView {
    pub id: Seq<char>,
    pub name: Seq<char>,
    pub arguments: Seq<char>,
}

impl View for ToolCallAccumulator {
    type V = ToolCallView;

    open spec fn view(&self) -> ToolCallView {
        ToolCallView { id: self.id@, name: self.name@, arguments: self.arguments@ }
    }
}

/// A tool call of which nothing has arrived.
pub open spec fn blank_tool_call() -> ToolCallView {
    ToolCallView { id: Seq::empty(), name: Seq::empty(), arguments: Seq::empty() }
}

/// A tool call after one more delta: a new id or name takes the place of the old one, arguments are
/// appended.
pub open spec fn extended_tool_call(call: ToolCallView, delta: ToolDeltaView) -> ToolCallView {
    ToolCallView {
        id: match delta.id {
            Some(id) => id,
            None => call.id,
        },
        name: match delta.name {
            Some(name) => name,
            None => call.name,
        },
        arguments: match delta.arguments {
            Some(arguments) => call.arguments + arguments,
            None => call.arguments,
        },
    }
}

/// The tool calls after one more delta, which concerns the call of its index alone.
pub open spec fn with_tool_delta(
    calls: Map<usize, ToolCallView>,
    delta: ToolDeltaView,
) -> Map<usize, ToolCallView> {
    let call = if calls.contains_key(delta.index) {
        calls[delta.index]
    } else {
        blank_tool_call()
    };
    calls.insert(delta.index, extended_tool_call(call, delta))
}

/// The tool calls after a list of deltas, in order.
pub open spec fn with_tool_deltas(
    calls: Map<usize, ToolCallView>,
    deltas: Seq<ToolDeltaView>,
) -> Map<usize, ToolCallView>
    decreases deltas.len(),
{
    if deltas.len() == 0 {
        calls
    } else {
        with_tool_delta(with_tool_deltas(calls, deltas.drop_last()), deltas.last())
    }
}

/// How many emissions may wait for the reader of a stream before the stream waits for the reader.
pub const EVENT_CAPACITY: usize = 1600;

/// Something to hand to the reader of the stream.
#[derive(Debug)]
pub struct Emission {
    pub event: Result<ResponseEvent, ApiError>,
    /// Whether the stream stops if the reader is no longer there to take this.
    pub must_deliver: bool,
}

/// What an [`Emission`] says.
pub struct EmissionView {
    pub event: Result<EventView, ErrorView>,
    pub must_deliver: bool,
}

impl View for Emission {
    type V = EmissionView;

    open spec fn view(&self) -> EmissionView {
        EmissionView {
            event: match self.event {
                Ok(event) => Ok(event@),
                Err(error) => Err(error@),
            },
            must_deliver: self.must_deliver,
        }
    }
}

impl Emission {
    /// Whether the stream stops here, given whether the reader took this emission.
    pub fn halts(&self, delivered: bool) -> (r: bool)
        ensures
            r == (self.must_deliver && !delivered),
    {
        self.must_deliver && !delivered
    }
}

/// What a list of emissions says.
pub open spec fn emissions_view(emissions: Seq<Emission>) -> Seq<EmissionView> {
    emissions.map_values(|e: Emission| e@)
}

/// An event that is sent whether or not anyone takes it.
pub open spec fn offered(event: EventView) -> EmissionView {
    EmissionView { event: Ok(event), must_deliver: false }
}

/// An event without whose delivery the stream does not go on.
pub open spec fn required(event: EventView) -> EmissionView {
    EmissionView { event: Ok(event), must_deliver: true }
}

/// A failure, reported whether or not anyone takes it.
pub open spec fn failure(message: Seq<char>) -> EmissionView {
    EmissionView { event: Err(ErrorView::Stream(message)), must_deliver: false }
}

/// A bit of reasoning.
pub open spec fn reasoning_delta(delta: Seq<char>) -> EmissionView {
    offered(EventView::ReasoningSummaryDelta { delta, summary_index: 0 })
}

/// The assistant's message.
pub open spec fn assistant_message(
    id: Option<Seq<char>>,
    text: Seq<char>,
    end_turn: Option<bool>,
) -> ItemView {
    ItemView::Message {
        id,
        role: "assistant"@,
        content: seq![ContentView::OutputText { text }],
        end_turn,
        phase: None,
    }
}

/// A finished tool call as an item of the conversation.
pub open spec fn function_call(call: ToolCallView) -> ItemView {
    ItemView::FunctionCall {
        id: None,
        name: call.name,
        arguments: call.arguments,
        call_id: call.id,
    }
}

/// What a stream has come to know.
pub struct StreamView {
    pub response_id: Seq<char>,
    pub last_usage: Option<TokenUsage>,
    pub content: Seq<char>,
    pub reasoning: Seq<char>,
    pub item_added: bool,
    pub thinking: bool,
    pub tool_calls: Map<usize, ToolCallView>,
}

/// A stream before anything has arrived.
pub open spec fn fresh_stream() -> StreamView {
    StreamView {
        response_id: Seq::empty(),
        last_usage: None,
        content: Seq::empty(),
        reasoning: Seq::empty(),
        item_added: false,
        thinking: false,
        tool_calls: Map::empty(),
    }
}

/// A stream's knowledge after some input, and what is handed to its reader on the way.
pub struct Progress {
    pub state: StreamView,
    pub out: Seq<EmissionView>,
}

/// Reasoning in a field of its own: `reasoning_content` if it is there, else `reasoning`.
pub open spec fn explicit_reasoning(choice: ChoiceView) -> Option<Seq<char>> {
    match choice.reasoning_content {
        Some(r) => Some(r),
        None => choice.reasoning,
    }
}

/// Reasoning is passed on as it comes, and kept.
pub open spec fn after_reasoning(s: StreamView, delta: Option<Seq<char>>) -> Progress {
    match delta {
        Some(delta) => Progress {
            state: StreamView { reasoning: s.reasoning + delta, ..s },
            out: seq![reasoning_delta(delta)],
        },
        None => Progress { state: s, out: Seq::empty() },
    }
}

/// Each of some bits of reasoning as an event of its own.
pub open spec fn reasoning_deltas(thoughts: Seq<Seq<char>>) -> Seq<EmissionView> {
    thoughts.map_values(|t: Seq<char>| reasoning_delta(t))
}

/// Text as an event, unless there is none.
pub open spec fn text_delta(text: Seq<char>) -> Seq<EmissionView> {
    if text.len() == 0 {
        Seq::empty()
    } else {
        seq![required(EventView::OutputTextDelta(text))]
    }
}

/// Content is parted into thoughts, which go where reasoning goes, and text, which is kept and
/// passed on as one delta behind them.
pub open spec fn after_content(s: StreamView, content: Option<Seq<char>>) -> Progress {
    match content {
        Some(content) => {
            let ps = think::pieces(content, s.thinking);
            let thoughts = think::thoughts_of(ps);
            Progress {
                state: StreamView {
                    content: s.content + think::text_of(ps),
                    reasoning: s.reasoning + text::concat(thoughts),
                    thinking: think::thinking_after(content, s.thinking),
                    ..s
                },
                out: reasoning_deltas(thoughts) + text_delta(think::text_of(ps)),
            }
        },
        None => Progress { state: s, out: Seq::empty() },
    }
}

/// One choice: its reasoning field first, then its content, then its tool call deltas, which are
/// kept and not passed on yet.
pub open spec fn after_choice(s: StreamView, choice: ChoiceView) -> Progress {
    let a = after_reasoning(s, explicit_reasoning(choice));
    let b = after_content(a.state, choice.content);
    Progress {
        state: StreamView {
            tool_calls: with_tool_deltas(b.state.tool_calls, choice.tool_calls),
            ..b.state
        },
        out: a.out + b.out,
    }
}

/// Several choices in order.
pub open spec fn after_choices(s: StreamView, choices: Seq<ChoiceView>) -> Progress
    decreases choices.len(),
{
    if choices.len() == 0 {
        Progress { state: s, out: Seq::empty() }
    } else {
        let a = after_choices(s, choices.drop_last());
        let b = after_choice(a.state, choices.last());
        Progress { state: b.state, out: a.out + b.out }
    }
}

/// What a chunk tells of the response as a whole: the first id that is not empty stays, the latest
/// token counts count, and the first chunk with a choice announces the message.
pub open spec fn after_chunk_header(s: StreamView, chunk: ChunkView) -> Progress {
    let id = if s.response_id.len() == 0 {
        chunk.id
    } else {
        s.response_id
    };
    let announces = !s.item_added && chunk.choices.len() > 0;
    Progress {
        state: StreamView {
            response_id: id,
            last_usage: match chunk.usage {
                Some(usage) => Some(token_usage(usage)),
                None => s.last_usage,
            },
            item_added: s.item_added || announces,
            ..s
        },
        out: if announces {
            seq![required(
                EventView::OutputItemAdded(
                    assistant_message(Some("msg_"@ + id), Seq::empty(), None),
                ),
            )]
        } else {
            Seq::empty()
        },
    }
}

/// One chunk.
pub open spec fn after_chunk(s: StreamView, chunk: ChunkView) -> Progress {
    let a = after_chunk_header(s, chunk);
    let b = after_choices(a.state, chunk.choices);
    Progress { state: b.state, out: a.out + b.out }
}

/// The members of `keys` that are below `n`, in increasing order.
pub open spec fn keys_below(keys: Set<usize>, n: nat) -> Seq<usize>
    decreases n,
{
    if n == 0 {
        Seq::empty()
    } else if keys.contains((n - 1) as usize) {
        keys_below(keys, (n - 1) as nat).push((n - 1) as usize)
    } else {
        keys_below(keys, (n - 1) as nat)
    }
}

/// The members of `keys` in increasing order.
pub open spec fn in_order(keys: Set<usize>) -> Seq<usize> {
    keys_below(keys, (usize::MAX + 1) as nat)
}

/// Each tool call, in the order of `keys`, first announced and then done.
pub open spec fn tool_call_events(
    calls: Map<usize, ToolCallView>,
    keys: Seq<usize>,
) -> Seq<EmissionView>
    decreases keys.len(),
{
    if keys.len() == 0 {
        Seq::empty()
    } else {
        let item = function_call(calls[keys.last()]);
        tool_call_events(calls, keys.drop_last()).push(
            offered(EventView::OutputItemAdded(item)),
        ).push(offered(EventView::OutputItemDone(item)))
    }
}

/// The message as a whole, if it was announced. It ends the turn unless a tool has been called.
pub open spec fn message_done(s: StreamView) -> Seq<EmissionView> {
    if s.item_added {
        seq![offered(
            EventView::OutputItemDone(
                assistant_message(None, s.content, Some(s.tool_calls.is_empty())),
            ),
        )]
    } else {
        Seq::empty()
    }
}

/// What is handed out at the end of a stream.
pub open spec fn final_events(s: StreamView) -> Seq<EmissionView> {
    if s.response_id.len() == 0 {
        seq![failure("stream closed without chunks"@)]
    } else {
        (message_done(s) + tool_call_events(s.tool_calls, in_order(s.tool_calls.dom()))).push(
            offered(
                EventView::Completed { response_id: s.response_id, token_usage: s.last_usage },
            ),
        )
    }
}

/// What waiting for the next server-sent event led to.
#[derive(Debug)]
pub enum SsePoll {
    /// An event with this data arrived; `chunk` is what its [`payload`] reads as, if it does.
    Event { data: String, chunk: Option<ChatCompletionChunk> },
    /// The connection failed.
    Failed(String),
    /// The server closed the stream.
    Closed,
    /// Nothing arrived in time.
    TimedOut,
}

/// What an [`SsePoll`] says.
pub enum PollView {
    Event { data: Seq<char>, chunk: Option<ChunkView> },
    Failed(Seq<char>),
    Closed,
    TimedOut,
}

impl View for SsePoll {
    type V = PollView;

    open spec fn view(&self) -> PollView {
        match self {
            SsePoll::Event { data, chunk } => PollView::Event {
                data: data@,
                chunk: match chunk {
                    Some(chunk) => Some(chunk@),
                    None => None,
                },
            },
            SsePoll::Failed(message) => PollView::Failed(message@),
            SsePoll::Closed => PollView::Closed,
            SsePoll::TimedOut => PollView::TimedOut,
        }
    }
}

/// One step of a stream: what it then knows, what it hands out, and whether it is over.
pub struct StepView {
    pub state: StreamView,
    pub out: Seq<EmissionView>,
    pub stop: bool,
}

/// Whether the data of an event is the mark that ends a stream.
pub open spec fn is_done_mark(data: Seq<char>) -> bool {
    text::trimmed(data) == "[DONE]"@
}

/// One step of a stream. Only an event that is a chunk lets it go on and changes what it knows; an
/// event that is neither a chunk nor the end mark is skipped.
pub open spec fn step(s: StreamView, poll: PollView) -> StepView {
    match poll {
        PollView::Event { data, chunk } => if is_done_mark(data) {
            StepView { state: s, out: final_events(s), stop: true }
        } else {
            match chunk {
                Some(chunk) => StepView {
                    state: after_chunk(s, chunk).state,
                    out: after_chunk(s, chunk).out,
                    stop: false,
                },
                None => StepView { state: s, out: Seq::empty(), stop: false },
            }
        },
        PollView::Failed(message) => StepView { state: s, out: seq![failure(message)], stop: true },
        PollView::Closed => StepView { state: s, out: final_events(s), stop: true },
        PollView::TimedOut => StepView {
            state: s,
            out: seq![failure("idle timeout waiting for SSE"@)],
            stop: true,
        },
    }
}

/// What is left of the data of an event once the white space around it is gone.
pub fn payload(data: &str) -> (r: String)
    ensures
        r@ == text::trimmed(data@),
{
    text::trim(data)
}

/// Whether the data of an event is the mark that ends a stream.
pub fn is_done(data: &str) -> (r: bool)
    ensures
        r == is_done_mark(data@),
{
    let body = payload(data);
    text::same_text(body.as_str(), "[DONE]")
}

/// A chat-completions stream in the course of being read.
#[derive(Debug)]
pub struct ChatStream {
    response_id: String,
    last_usage: Option<TokenUsage>,
    accumulated_content: String,
    accumulated_reasoning: String,
    item_added_emitted: bool,
    in_think_block: bool,
    tool_calls: BTreeMap<usize, ToolCallAccumulator>,
}

/// What each tool call in a map holds.
pub open spec fn tool_calls_view(calls: Map<usize, ToolCallAccumulator>) -> Map<usize, ToolCallView> {
    calls.map_values(|c: ToolCallAccumulator| c@)
}

impl View for ChatStream {
    type V = StreamView;

    closed spec fn view(&self) -> StreamView {
        StreamView {
            response_id: self.response_id@,
            last_usage: self.last_usage,
            content: self.accumulated_content@,
            reasoning: self.accumulated_reasoning@,
            item_added: self.item_added_emitted,
            thinking: self.in_think_block,
            tool_calls: tool_calls_view(self.tool_calls@),
        }
    }
}

/// Appends an event that is sent whether or not anyone takes it.
fn offer(out: &mut Vec<Emission>, event: ResponseEvent)
    ensures
        emissions_view(final(out)@) == emissions_view(old(out)@).push(offered(event@)),
{
    out.push(Emission { event: Ok(event), must_deliver: false });
    proof {
        assert(emissions_view(out@) == emissions_view(old(out)@).push(offered(event@)));
    }
}

/// Appends an event without whose delivery the stream does not go on.
fn require_delivery(out: &mut Vec<Emission>, event: ResponseEvent)
    ensures
        emissions_view(final(out)@) == emissions_view(old(out)@).push(required(event@)),
{
    out.push(Emission { event: Ok(event), must_deliver: true });
    proof {
        assert(emissions_view(out@) == emissions_view(old(out)@).push(required(event@)));
    }
}

/// A report of failure alone.
fn fail(message: &str) -> (r: Vec<Emission>)
    ensures
        emissions_view(r@) == seq![failure(message@)],
{
    let mut out: Vec<Emission> = Vec::new();
    out.push(Emission { event: Err(ApiError::Stream(message.to_owned())), must_deliver: false });
    assert(emissions_view(out@) == seq![failure(message@)]);
    out
}

/// The assistant's message with the given text as its whole content.
fn message_item(id: Option<String>, content: &str, end_turn: Option<bool>) -> (r: ResponseItem)
    ensures
        r@ == assistant_message(crate::protocol::optional_text(id), content@, end_turn),
{
    let mut parts: Vec<ContentItem> = Vec::new();
    parts.push(ContentItem::OutputText { text: content.to_owned() });
    assert(crate::protocol::contents_view(parts@) == seq![
        ContentView::OutputText { text: content@ },
    ]);
    ResponseItem::Message {
        id,
        role: "assistant".to_owned(),
        content: parts,
        end_turn,
        phase: None,
    }
}

impl ToolCallAccumulator {
    /// A tool call of which nothing has arrived.
    pub fn new() -> (r: Self)
        ensures
            r@ == blank_tool_call(),
    {
        ToolCallAccumulator { id: String::new(), name: String::new(), arguments: String::new() }
    }

    /// Takes in one more delta of this call.
    pub fn extend(&mut self, delta: &ToolCallDelta)
        ensures
            final(self)@ == extended_tool_call(old(self)@, delta@),
    {
        if let Some(id) = &delta.id {
            self.id = id.clone();
        }
        if let Some(function) = &delta.function {
            if let Some(name) = &function.name {
                self.name = name.clone();
            }
            if let Some(arguments) = &function.arguments {
                self.arguments.append(arguments.as_str());
            }
        }
    }

    /// This call as an item of the conversation.
    pub fn function_call(&self) -> (r: ResponseItem)
        ensures
            r@ == function_call(self@),
    {
        ResponseItem::FunctionCall {
            id: None,
            name: self.name.clone(),
            arguments: self.arguments.clone(),
            call_id: self.id.clone(),
        }
    }
}

impl ChatStream {
    /// A stream of which nothing has arrived.
    pub fn new() -> (r: Self)
        ensures
            r@ == fresh_stream(),
    {
        let r = ChatStream {
            response_id: String::new(),
            last_usage: None,
            accumulated_content: String::new(),
            accumulated_reasoning: String::new(),
            item_added_emitted: false,
            in_think_block: false,
            tool_calls: BTreeMap::new(),
        };
        assert(r@.tool_calls == Map::<usize, ToolCallView>::empty());
        r
    }

    /// What is handed out before anything has arrived.
    pub fn created() -> (r: Emission)
        ensures
            r@ == offered(EventView::Created),
    {
        Emission { event: Ok(ResponseEvent::Created), must_deliver: false }
    }

    /// Keeps a bit of reasoning and passes it on.
    fn add_reasoning(&mut self, delta: &str, out: &mut Vec<Emission>)
        ensures
            final(self)@ == after_reasoning(old(self)@, Some(delta@)).state,
            emissions_view(final(out)@) == emissions_view(old(out)@) + after_reasoning(
                old(self)@,
                Some(delta@),
            ).out,
    {
        self.accumulated_reasoning.append(delta);
        offer(
            out,
            ResponseEvent::ReasoningSummaryDelta { delta: delta.to_owned(), summary_index: 0 },
        );
    }

    /// Takes in a choice's content.
    fn add_content(&mut self, content: &str, out: &mut Vec<Emission>)
        ensures
            final(self)@ == after_content(old(self)@, Some(content@)).state,
            emissions_view(final(out)@) == emissions_view(old(out)@) + after_content(
                old(self)@,
                Some(content@),
            ).out,
    {
        let ghost before = self@;
        let ghost sent = emissions_view(out@);
        let split = think::split_thoughts(content, self.in_think_block);
        let ghost thoughts = think::texts_view(split.thoughts@);
        self.in_think_block = split.thinking;
        let mut i: usize = 0;
        proof {
            assert(thoughts.take(0) == Seq::<Seq<char>>::empty());
            assert(before.reasoning + text::concat(thoughts.take(0)) == before.reasoning);
        }
        while i < split.thoughts.len()
            invariant
                i <= split.thoughts.len(),
                thoughts == think::texts_view(split.thoughts@),
                self@ == (StreamView {
                    thinking: split.thinking,
                    reasoning: before.reasoning + text::concat(thoughts.take(i as int)),
                    ..before
                }),
                emissions_view(out@) == sent + reasoning_deltas(thoughts.take(i as int)),
            decreases split.thoughts.len() - i,
        {
            proof {
                assert(thoughts.take(i + 1).drop_last() == thoughts.take(i as int));
                assert(thoughts.take(i + 1).last() == split.thoughts@[i as int]@);
                assert(before.reasoning + text::concat(thoughts.take(i as int)) + thoughts[i as int]
                    == before.reasoning + text::concat(thoughts.take(i + 1)));
                assert(reasoning_deltas(thoughts.take(i + 1)) == reasoning_deltas(
                    thoughts.take(i as int),
                ).push(reasoning_delta(thoughts[i as int])));
            }
            self.add_reasoning(split.thoughts[i].as_str(), out);
            i = i + 1;
        }
        proof {
            assert(thoughts.take(i as int) == thoughts);
        }
        self.accumulated_content.append(split.text.as_str());
        if !split.text.as_str().is_empty() {
            require_delivery(out, ResponseEvent::OutputTextDelta(split.text));
        }
    }

    /// Takes in a tool call delta.
    fn add_tool_delta(&mut self, delta: &ToolCallDelta)
        ensures
            final(self)@ == (StreamView {
                tool_calls: with_tool_delta(old(self)@.tool_calls, delta@),
                ..old(self)@
            }),
    {
        let mut call = match self.tool_calls.remove(&delta.index) {
            Some(call) => call,
            None => ToolCallAccumulator::new(),
        };
        call.extend(delta);
        self.tool_calls.insert(delta.index, call);
        assert(self@.tool_calls == with_tool_delta(old(self)@.tool_calls, delta@));
    }

    /// Takes in one choice.
    fn add_choice(&mut self, choice: &ChatCompletionChoice, out: &mut Vec<Emission>)
        ensures
            final(self)@ == after_choice(old(self)@, choice@).state,
            emissions_view(final(out)@) == emissions_view(old(out)@) + after_choice(
                old(self)@,
                choice@,
            ).out,
    {
        let ghost a = after_reasoning(self@, explicit_reasoning(choice@));
        let reasoning = match &choice.delta.reasoning_content {
            Some(r) => Some(r),
            None => choice.delta.reasoning.as_ref(),
        };
        if let Some(r) = reasoning {
            self.add_reasoning(r.as_str(), out);
        }
        assert(self@ == a.state);
        assert(emissions_view(out@) == emissions_view(old(out)@) + a.out);
        let ghost b = after_content(a.state, choice@.content);
        if let Some(content) = &choice.delta.content {
            self.add_content(content.as_str(), out);
        }
        assert(self@ == b.state);
        assert(emissions_view(out@) == emissions_view(old(out)@) + (a.out + b.out));
        if let Some(deltas) = &choice.delta.tool_calls {
            let ghost views = tool_deltas_view(deltas@);
            let mut i: usize = 0;
            while i < deltas.len()
                invariant
                    i <= deltas.len(),
                    views == tool_deltas_view(deltas@),
                    self@ == (StreamView {
                        tool_calls: with_tool_deltas(b.state.tool_calls, views.take(i as int)),
                        ..b.state
                    }),
                decreases deltas.len() - i,
            {
                proof {
                    assert(views.take(i + 1).drop_last() == views.take(i as int));
                    assert(views.take(i + 1).last() == deltas@[i as int]@);
                }
                self.add_tool_delta(&deltas[i]);
                i = i + 1;
            }
            proof {
                assert(views.take(i as int) == views);
            }
        }
    }

    /// Takes in one chunk and tells what to hand out.
    pub fn process_chunk(&mut self, chunk: &ChatCompletionChunk) -> (r: Vec<Emission>)
        ensures
            final(self)@ == after_chunk(old(self)@, chunk@).state,
            emissions_view(r@) == after_chunk(old(self)@, chunk@).out,
    {
        let mut out: Vec<Emission> = Vec::new();
        let ghost a = after_chunk_header(self@, chunk@);
        if self.response_id.as_str().is_empty() {
            self.response_id = chunk.id.clone();
        }
        if let Some(usage) = chunk.usage {
            self.last_usage = Some(TokenUsage::from(usage));
        }
        if !self.item_added_emitted && chunk.choices.len() > 0 {
            self.item_added_emitted = true;
            let mut id: String = "msg_".to_owned();
            id.append(self.response_id.as_str());
            require_delivery(&mut out, ResponseEvent::OutputItemAdded(message_item(Some(id), "", None)));
            proof {
                reveal_strlit("");
                assert(""@ == Seq::<char>::empty());
            }
        }
        assert(self@ == a.state);
        assert(emissions_view(out@) == a.out);
        let ghost choices = choices_view(chunk.choices@);
        let mut i: usize = 0;
        while i < chunk.choices.len()
            invariant
                i <= chunk.choices.len(),
                choices == choices_view(chunk.choices@),
                self@ == after_choices(a.state, choices.take(i as int)).state,
                emissions_view(out@) == a.out + after_choices(a.state, choices.take(i as int)).out,
            decreases chunk.choices.len() - i,
        {
            proof {
                assert(choices.take(i + 1).drop_last() == choices.take(i as int));
                assert(choices.take(i + 1).last() == chunk.choices@[i as int]@);
            }
            self.add_choice(&chunk.choices[i], &mut out);
            i = i + 1;
        }
        proof {
            assert(choices.take(i as int) == choices);
        }
        out
    }
}

/// Whether each member of `ks` is greater than those before it.
pub open spec fn increasing(ks: Seq<usize>) -> bool {
    forall|i: int, j: int| 0 <= i < j < ks.len() ==> ks[i] < ks[j]
}

/// What `keys_below` gives is in increasing order and holds just the keys below the bound.
proof fn lemma_keys_below(keys: Set<usize>, n: nat)
    requires
        n <= usize::MAX + 1,
    ensures
        increasing(keys_below(keys, n)),
        forall|k: usize| #[trigger] keys_below(keys, n).contains(k) <==> keys.contains(k) && k < n,
    decreases n,
{
    if n > 0 {
        let m = (n - 1) as nat;
        let k = m as usize;
        lemma_keys_below(keys, m);
        let short = keys_below(keys, m);
        assert forall|i: int| 0 <= i < short.len() implies short[i] < k by {
            assert(short.contains(short[i]));
        }
        if keys.contains(k) {
            let long = short.push(k);
            assert forall|q: usize| #[trigger] long.contains(q) <==> keys.contains(q) && q < n by {
                if keys.contains(q) && q < m {
                    assert(short.contains(q));
                    let i = choose|i: int| 0 <= i < short.len() && short[i] == q;
                    assert(long[i] == q);
                }
                if q == k {
                    assert(long[short.len() as int] == q);
                }
                if long.contains(q) && q != k {
                    let i = choose|i: int| 0 <= i < long.len() && long[i] == q;
                    assert(short[i] == q);
                    assert(short.contains(q));
                }
            }
        }
    }
}

/// The order of keys is increasing and leaves none out.
pub proof fn keys_in_order(keys: Set<usize>)
    ensures
        increasing(in_order(keys)),
        forall|k: usize| #[trigger] in_order(keys).contains(k) <==> keys.contains(k),
{
    lemma_keys_below(keys, (usize::MAX + 1) as nat);
}

/// Two increasing lists of the same members are the same list.
proof fn lemma_increasing_unique(a: Seq<usize>, b: Seq<usize>)
    requires
        increasing(a),
        increasing(b),
        forall|k: usize| #[trigger] a.contains(k) <==> b.contains(k),
    ensures
        a == b,
    decreases a.len(),
{
    if a.len() == 0 {
        if b.len() > 0 {
            assert(b.contains(b[0]));
            assert(a.contains(b[0]));
        }
    } else {
        assert(a.contains(a.last()));
        let i = choose|i: int| 0 <= i < b.len() && b[i] == a.last();
        assert(b.contains(b.last()));
        assert(a.contains(b.last()));
        let j = choose|j: int| 0 <= j < a.len() && a[j] == b.last();
        assert(a.last() == b.last());
        let a2 = a.drop_last();
        let b2 = b.drop_last();
        assert forall|k: usize| #[trigger] a2.contains(k) <==> b2.contains(k) by {
            if a2.contains(k) {
                let x = choose|x: int| 0 <= x < a2.len() && a2[x] == k;
                assert(a[x] == k);
                assert(a.contains(k));
                assert(b.contains(k));
                let y = choose|y: int| 0 <= y < b.len() && b[y] == k;
                assert(b2[y] == k);
            }
            if b2.contains(k) {
                let x = choose|x: int| 0 <= x < b2.len() && b2[x] == k;
                assert(b[x] == k);
                assert(a.contains(k));
                let y = choose|y: int| 0 <= y < a.len() && a[y] == k;
                assert(a2[y] == k);
            }
        }
        lemma_increasing_unique(a2, b2);
        assert(a2.push(a.last()) == a);
        assert(b2.push(b.last()) == b);
    }
}

/// What the map's own order calls increasing is increasing.
proof fn lemma_increasing(keys: Seq<usize>)
    requires
        increasing_seq(keys),
    ensures
        increasing(keys),
{
    assert forall|i: int, j: int| 0 <= i < j < keys.len() implies keys[i] < keys[j] by {
        assert(vstd::std_specs::cmp::OrdSpec::cmp_spec(&keys[i], &keys[j]) is Less);
    }
}

/// What is handed out per call depends on the calls of the listed keys alone, and one more key adds
/// two events.
proof fn lemma_tool_call_events_push(calls: Map<usize, ToolCallView>, keys: Seq<usize>, k: usize)
    ensures
        tool_call_events(calls, keys.push(k)) == tool_call_events(calls, keys).push(
            offered(EventView::OutputItemAdded(function_call(calls[k]))),
        ).push(offered(EventView::OutputItemDone(function_call(calls[k])))),
{
    assert(keys.push(k).drop_last() == keys);
}

impl ChatStream {
    /// Appends each tool call, in the order of their indices, first announced and then done.
    fn finish_tool_calls(&self, out: &mut Vec<Emission>)
        ensures
            emissions_view(final(out)@) == emissions_view(old(out)@) + tool_call_events(
                self@.tool_calls,
                in_order(self@.tool_calls.dom()),
            ),
    {
        let ghost sent = emissions_view(out@);
        let ghost calls = self@.tool_calls;
        let ghost entries = vstd::std_specs::iter::IteratorSpec::remaining(
            &spec_btree_map_iter(&self.tool_calls),
        );
        let ghost keys = entries.map_values(|kv: (&usize, &ToolCallAccumulator)| *kv.0);
        let iter = self.tool_calls.iter();
        proof {
            lemma_increasing(keys);
            assert(keys.take(0) == Seq::<usize>::empty());
        }
        for entry in it: iter
            invariant
                it.seq() == entries,
                entries == vstd::std_specs::iter::IteratorSpec::remaining(
                    &spec_btree_map_iter(&self.tool_calls),
                ),
                keys == entries.map_values(|kv: (&usize, &ToolCallAccumulator)| *kv.0),
                calls == self@.tool_calls,
                emissions_view(out@) == sent + tool_call_events(calls, keys.take(it.index())),
        {
            let (k, call) = entry;
            proof {
                assert(keys.take(it.index() + 1) == keys.take(it.index()).push(*k));
                lemma_tool_call_events_push(calls, keys.take(it.index()), *k);
                assert(entry == entries[it.index()]);
                assert(self.tool_calls@.contains_key(*entries[it.index()].0));
            }
            offer(out, ResponseEvent::OutputItemAdded(call.function_call()));
            offer(out, ResponseEvent::OutputItemDone(call.function_call()));
        }
        proof {
            assert(keys.take(keys.len() as int) == keys);
            keys_in_order(calls.dom());
            assert forall|k: usize| #[trigger] keys.contains(k) <==> in_order(
                calls.dom(),
            ).contains(k) by {
                if keys.contains(k) {
                    let i = choose|i: int| 0 <= i < keys.len() && keys[i] == k;
                    assert(self.tool_calls@.contains_key(*entries[i].0));
                }
                if calls.dom().contains(k) {
                    assert(self.tool_calls@.contains_key(k));
                    assert(entries.contains((&k, &self.tool_calls@[k])));
                    let i = choose|i: int|
                        0 <= i < entries.len() && entries[i] == (&k, &self.tool_calls@[k]);
                    assert(keys[i] == k);
                }
            }
            lemma_increasing_unique(keys, in_order(calls.dom()));
        }
    }

    /// What to hand out at the end of the stream: the message if one was announced, the tool calls,
    /// and that the response is complete; or a failure, if no chunk ever told the response's id.
    pub fn finalize_stream(&self) -> (r: Vec<Emission>)
        ensures
            emissions_view(r@) == final_events(self@),
    {
        if self.response_id.as_str().is_empty() {
            return fail("stream closed without chunks");
        }
        let mut out: Vec<Emission> = Vec::new();
        if self.item_added_emitted {
            let end_turn = self.tool_calls.is_empty();
            assert(self@.tool_calls.is_empty() == self.tool_calls@.is_empty());
            offer(
                &mut out,
                ResponseEvent::OutputItemDone(
                    message_item(None, self.accumulated_content.as_str(), Some(end_turn)),
                ),
            );
        }
        assert(emissions_view(out@) == message_done(self@));
        self.finish_tool_calls(&mut out);
        offer(
            &mut out,
            ResponseEvent::Completed {
                response_id: self.response_id.clone(),
                token_usage: self.last_usage,
            },
        );
        out
    }
}

/// What one step of a stream leads to.
#[derive(Debug)]
pub struct SseStep {
    /// What to hand to the reader, in order.
    pub emissions: Vec<Emission>,
    /// Whether the stream is over once they are handed out.
    pub stop: bool,
}

/// Takes one step of a stream.
pub fn process_chat_sse(stream: &mut ChatStream, poll: &SsePoll) -> (r: SseStep)
    ensures
        final(stream)@ == step(old(stream)@, poll@).state,
        emissions_view(r.emissions@) == step(old(stream)@, poll@).out,
        r.stop == step(old(stream)@, poll@).stop,
{
    match poll {
        SsePoll::Event { data, chunk } => {
            if is_done(data.as_str()) {
                SseStep { emissions: stream.finalize_stream(), stop: true }
            } else {
                match chunk {
                    Some(chunk) => SseStep { emissions: stream.process_chunk(chunk), stop: false },
                    None => SseStep { emissions: Vec::new(), stop: false },
                }
            }
        },
        SsePoll::Failed(message) => SseStep { emissions: fail(message.as_str()), stop: true },
        SsePoll::Closed => SseStep { emissions: stream.finalize_stream(), stop: true },
        SsePoll::TimedOut => SseStep {
            emissions: fail("idle timeout waiting for SSE"),
            stop: true,
        },
    }
}

} // verus!
