//! What holds of every chat stream, whatever the server sends.
use vstd::prelude::*;

use crate::protocol::{ContentView, ErrorView, EventView, ItemView, TokenUsage};
use crate::sse::chat::{
    ChatCompletionUsage, ChoiceView, ChunkView, EmissionView, PollView, StreamView,
    ToolCallAccumulator, ToolCallDelta, ToolCallView, ToolDeltaView,
};
use crate::sse::{chat, think};
use crate::text;

verus! {

/// The text that an emission adds to what was streamed.
pub open spec fn text_in(e: EmissionView) -> Seq<char> {
    match e.event {
        Ok(EventView::OutputTextDelta(text)) => text,
        _ => Seq::empty(),
    }
}

/// The reasoning that an emission adds to what was streamed.
pub open spec fn reasoning_in(e: EmissionView) -> Seq<char> {
    match e.event {
        Ok(EventView::ReasoningSummaryDelta { delta, summary_index }) => delta,
        _ => Seq::empty(),
    }
}

/// All text deltas of some emissions, put together.
pub open spec fn streamed_text(es: Seq<EmissionView>) -> Seq<char> {
    text::concat(es.map_values(|e: EmissionView| text_in(e)))
}

/// All reasoning deltas of some emissions, put together.
pub open spec fn streamed_reasoning(es: Seq<EmissionView>) -> Seq<char> {
    text::concat(es.map_values(|e: EmissionView| reasoning_in(e)))
}

/// Whether an emission announces the assistant's message.
pub open spec fn announces_message(e: EmissionView) -> bool {
    e.event matches Ok(EventView::OutputItemAdded(ItemView::Message { .. }))
}

/// Whether an emission ends a stream: the response is complete, or has failed.
pub open spec fn is_terminal(e: EmissionView) -> bool {
    match e.event {
        Ok(EventView::Completed { .. }) => true,
        Ok(_) => false,
        Err(_) => true,
    }
}

/// What has become of a stream after some polls: what it knows, all that it handed out, and whether
/// it is over. Once it is over nothing more is read.
pub struct History {
    pub state: StreamView,
    pub sent: Seq<EmissionView>,
    pub stopped: bool,
}

/// What has become of a fresh stream after `polls`.
pub open spec fn history(polls: Seq<PollView>) -> History
    decreases polls.len(),
{
    if polls.len() == 0 {
        History { state: chat::fresh_stream(), sent: Seq::empty(), stopped: false }
    } else {
        let h = history(polls.drop_last());
        if h.stopped {
            h
        } else {
            let st = chat::step(h.state, polls.last());
            History { state: st.state, sent: h.sent + st.out, stopped: st.stop }
        }
    }
}

/// What was streamed spreads over two lists of emissions.
proof fn lemma_streamed_append(a: Seq<EmissionView>, b: Seq<EmissionView>)
    ensures
        streamed_text(a + b) == streamed_text(a) + streamed_text(b),
        streamed_reasoning(a + b) == streamed_reasoning(a) + streamed_reasoning(b),
{
    let ta = a.map_values(|e: EmissionView| text_in(e));
    let tb = b.map_values(|e: EmissionView| text_in(e));
    assert((a + b).map_values(|e: EmissionView| text_in(e)) == ta + tb);
    text::lemma_concat_append(ta, tb);
    let ra = a.map_values(|e: EmissionView| reasoning_in(e));
    let rb = b.map_values(|e: EmissionView| reasoning_in(e));
    assert((a + b).map_values(|e: EmissionView| reasoning_in(e)) == ra + rb);
    text::lemma_concat_append(ra, rb);
}

/// What one emission streams.
proof fn lemma_streamed_one(e: EmissionView)
    ensures
        streamed_text(seq![e]) == text_in(e),
        streamed_reasoning(seq![e]) == reasoning_in(e),
{
    let t = seq![e].map_values(|e: EmissionView| text_in(e));
    let r = seq![e].map_values(|e: EmissionView| reasoning_in(e));
    assert(t == seq![text_in(e)]);
    assert(r == seq![reasoning_in(e)]);
    lemma_concat_one(text_in(e));
    lemma_concat_one(reasoning_in(e));
}

/// A list of one text says that text.
proof fn lemma_concat_one(t: Seq<char>)
    ensures
        text::concat(seq![t]) == t,
{
    reveal_with_fuel(text::concat, 2);
    assert(seq![t].drop_last() == Seq::<Seq<char>>::empty());
}

/// Emissions that carry no delta stream nothing.
proof fn lemma_streams_nothing(es: Seq<EmissionView>)
    requires
        forall|i: int|
            0 <= i < es.len() ==> text_in(#[trigger] es[i]).len() == 0 && reasoning_in(es[i]).len()
                == 0,
    ensures
        streamed_text(es) == Seq::<char>::empty(),
        streamed_reasoning(es) == Seq::<char>::empty(),
    decreases es.len(),
{
    if es.len() > 0 {
        let short = es.drop_last();
        assert forall|i: int| 0 <= i < short.len() implies text_in(#[trigger] short[i]).len() == 0
            && reasoning_in(short[i]).len() == 0 by {
            assert(short[i] == es[i]);
        }
        lemma_streams_nothing(short);
        assert(es == short + seq![es.last()]);
        lemma_streamed_append(short, seq![es.last()]);
        lemma_streamed_one(es.last());
    }
}

/// Bits of reasoning stream themselves and no text.
proof fn lemma_reasoning_deltas(thoughts: Seq<Seq<char>>)
    ensures
        streamed_text(chat::reasoning_deltas(thoughts)) == Seq::<char>::empty(),
        streamed_reasoning(chat::reasoning_deltas(thoughts)) == text::concat(thoughts),
    decreases thoughts.len(),
{
    let es = chat::reasoning_deltas(thoughts);
    if thoughts.len() == 0 {
        lemma_streams_nothing(es);
    } else {
        let short = chat::reasoning_deltas(thoughts.drop_last());
        lemma_reasoning_deltas(thoughts.drop_last());
        assert(es == short + seq![es.last()]);
        lemma_streamed_append(short, seq![es.last()]);
        lemma_streamed_one(es.last());
    }
}

/// Content streams what it adds to the state.
proof fn lemma_content_streams(s: StreamView, content: Option<Seq<char>>)
    ensures
        ({
            let p = chat::after_content(s, content);
            &&& p.state.content == s.content + streamed_text(p.out)
            &&& p.state.reasoning == s.reasoning + streamed_reasoning(p.out)
        }),
{
    match content {
        Some(content) => {
            let ps = think::pieces(content, s.thinking);
            let thoughts = think::thoughts_of(ps);
            let text = think::text_of(ps);
            lemma_reasoning_deltas(thoughts);
            lemma_streamed_append(chat::reasoning_deltas(thoughts), chat::text_delta(text));
            if text.len() == 0 {
                lemma_streams_nothing(chat::text_delta(text));
            } else {
                lemma_streamed_one(chat::required(EventView::OutputTextDelta(text)));
            }
        },
        None => {
            lemma_streams_nothing(Seq::empty());
        },
    }
}

/// A choice streams what it adds to the state.
proof fn lemma_choice_streams(s: StreamView, choice: ChoiceView)
    ensures
        ({
            let p = chat::after_choice(s, choice);
            &&& p.state.content == s.content + streamed_text(p.out)
            &&& p.state.reasoning == s.reasoning + streamed_reasoning(p.out)
        }),
{
    let a = chat::after_reasoning(s, chat::explicit_reasoning(choice));
    match chat::explicit_reasoning(choice) {
        Some(delta) => {
            lemma_streamed_one(chat::reasoning_delta(delta));
        },
        None => {
            lemma_streams_nothing(Seq::empty());
        },
    }
    let b = chat::after_content(a.state, choice.content);
    lemma_content_streams(a.state, choice.content);
    lemma_streamed_append(a.out, b.out);
}

/// Choices stream what they add to the state.
proof fn lemma_choices_stream(s: StreamView, choices: Seq<ChoiceView>)
    ensures
        ({
            let p = chat::after_choices(s, choices);
            &&& p.state.content == s.content + streamed_text(p.out)
            &&& p.state.reasoning == s.reasoning + streamed_reasoning(p.out)
        }),
    decreases choices.len(),
{
    if choices.len() == 0 {
        lemma_streams_nothing(Seq::empty());
    } else {
        let a = chat::after_choices(s, choices.drop_last());
        lemma_choices_stream(s, choices.drop_last());
        lemma_choice_streams(a.state, choices.last());
        lemma_streamed_append(a.out, chat::after_choice(a.state, choices.last()).out);
    }
}

/// The events at the end of a stream carry no delta.
proof fn lemma_final_events_carry_no_delta(s: StreamView)
    ensures
        streamed_text(chat::final_events(s)) == Seq::<char>::empty(),
        streamed_reasoning(chat::final_events(s)) == Seq::<char>::empty(),
{
    let keys = chat::in_order(s.tool_calls.dom());
    tool_calls_are_announced_and_done(s.tool_calls, keys);
    let es = chat::final_events(s);
    assert forall|i: int| 0 <= i < es.len() implies text_in(#[trigger] es[i]).len() == 0
        && reasoning_in(es[i]).len() == 0 by {
        let before = chat::message_done(s);
        let calls = chat::tool_call_events(s.tool_calls, keys);
        if s.response_id.len() > 0 && before.len() <= i < before.len() + calls.len() {
            let k = i - before.len();
            let key = keys[k / 2];
            assert(es[i] == calls[k]);
            if k % 2 == 0 {
                assert(calls[2 * (k / 2)] == es[i]);
            } else {
                assert(calls[2 * (k / 2) + 1] == es[i]);
            }
        }
    }
    lemma_streams_nothing(es);
}

/// At every step the text and the reasoning that the stream has kept grow by just what it passes on.
pub proof fn what_is_kept_is_what_is_streamed(s: StreamView, poll: PollView)
    ensures
        chat::step(s, poll).state.content == s.content + streamed_text(chat::step(s, poll).out),
        chat::step(s, poll).state.reasoning == s.reasoning + streamed_reasoning(
            chat::step(s, poll).out,
        ),
{
    lemma_final_events_carry_no_delta(s);
    lemma_streams_nothing(Seq::empty());
    match poll {
        PollView::Event { data, chunk } => {
            if let Some(chunk) = chunk {
                let a = chat::after_chunk_header(s, chunk);
                lemma_streams_nothing(a.out);
                lemma_choices_stream(a.state, chunk.choices);
                lemma_streamed_append(a.out, chat::after_choices(a.state, chunk.choices).out);
            }
        },
        PollView::Failed(message) => {
            lemma_streams_nothing(seq![chat::failure(message)]);
        },
        PollView::Closed => {},
        PollView::TimedOut => {
            lemma_streams_nothing(seq![chat::failure("idle timeout waiting for SSE"@)]);
        },
    }
}

/// Over the whole of a stream, what it has kept is all that it has streamed.
pub proof fn all_that_was_streamed_is_kept(polls: Seq<PollView>)
    ensures
        history(polls).state.content == streamed_text(history(polls).sent),
        history(polls).state.reasoning == streamed_reasoning(history(polls).sent),
    decreases polls.len(),
{
    if polls.len() == 0 {
        lemma_streams_nothing(Seq::empty());
    } else {
        all_that_was_streamed_is_kept(polls.drop_last());
        let h = history(polls.drop_last());
        if !h.stopped {
            what_is_kept_is_what_is_streamed(h.state, polls.last());
            lemma_streamed_append(h.sent, chat::step(h.state, polls.last()).out);
        }
    }
}

/// Whether a poll brings a stream to its regular end.
pub open spec fn ends_stream(poll: PollView) -> bool {
    match poll {
        PollView::Event { data, chunk } => chat::is_done_mark(data),
        PollView::Closed => true,
        _ => false,
    }
}

/// At its regular end a stream that announced a message gives it as a whole: all the text deltas
/// that came before, put together. The message ends the turn just if no tool has been called.
pub proof fn final_message_is_the_streamed_text(polls: Seq<PollView>, poll: PollView)
    requires
        !history(polls).stopped,
        history(polls).state.response_id.len() > 0,
        history(polls).state.item_added,
        ends_stream(poll),
    ensures
        chat::step(history(polls).state, poll).out.len() > 0,
        chat::step(history(polls).state, poll).out[0] == chat::offered(
            EventView::OutputItemDone(
                chat::assistant_message(
                    None,
                    streamed_text(history(polls).sent),
                    Some(history(polls).state.tool_calls.is_empty()),
                ),
            ),
        ),
{
    all_that_was_streamed_is_kept(polls);
}

/// For each key in turn a tool call is announced and then done, as one and the same item.
pub proof fn tool_calls_are_announced_and_done(calls: Map<usize, ToolCallView>, keys: Seq<usize>)
    ensures
        chat::tool_call_events(calls, keys).len() == 2 * keys.len(),
        forall|i: int|
            #![trigger keys[i]]
            0 <= i < keys.len() ==> {
                let item = chat::function_call(calls[keys[i]]);
                &&& chat::tool_call_events(calls, keys)[2 * i] == chat::offered(
                    EventView::OutputItemAdded(item),
                )
                &&& chat::tool_call_events(calls, keys)[2 * i + 1] == chat::offered(
                    EventView::OutputItemDone(item),
                )
            },
    decreases keys.len(),
{
    if keys.len() > 0 {
        let short = keys.drop_last();
        tool_calls_are_announced_and_done(calls, short);
        assert forall|i: int| #![trigger keys[i]] 0 <= i < short.len() implies keys[i]
            == short[i] by {}
    }
}

/// At the end of a stream the tool calls come in the order of their indices, none left out.
pub proof fn tool_calls_come_in_order(calls: Map<usize, ToolCallView>)
    ensures
        ({
            let keys = chat::in_order(calls.dom());
            let events = chat::tool_call_events(calls, keys);
            &&& chat::increasing(keys)
            &&& forall|k: usize| #[trigger] keys.contains(k) <==> calls.contains_key(k)
            &&& events.len() == 2 * keys.len()
            &&& forall|i: int|
                #![trigger keys[i]]
                0 <= i < keys.len() ==> {
                    let item = chat::function_call(calls[keys[i]]);
                    &&& events[2 * i] == chat::offered(EventView::OutputItemAdded(item))
                    &&& events[2 * i + 1] == chat::offered(EventView::OutputItemDone(item))
                }
        }),
{
    chat::keys_in_order(calls.dom());
    tool_calls_are_announced_and_done(calls, chat::in_order(calls.dom()));
}

/// The arguments that some deltas bring for the call of index `k`, in order.
pub open spec fn arguments_for(deltas: Seq<ToolDeltaView>, k: usize) -> Seq<char>
    decreases deltas.len(),
{
    if deltas.len() == 0 {
        Seq::empty()
    } else {
        let before = arguments_for(deltas.drop_last(), k);
        match deltas.last().arguments {
            Some(arguments) if deltas.last().index == k => before + arguments,
            _ => before,
        }
    }
}

/// Whether one of some deltas concerns the call of index `k`.
pub open spec fn mentions(deltas: Seq<ToolDeltaView>, k: usize) -> bool {
    exists|i: int| 0 <= i < deltas.len() && (#[trigger] deltas[i]).index == k
}

/// However they are spread over deltas, a call's arguments add up; and a call that no delta mentions
/// stays as it is.
pub proof fn arguments_add_up(
    calls: Map<usize, ToolCallView>,
    deltas: Seq<ToolDeltaView>,
    k: usize,
)
    ensures
        ({
            let after = chat::with_tool_deltas(calls, deltas);
            let before = if calls.contains_key(k) {
                calls[k].arguments
            } else {
                Seq::empty()
            };
            &&& after.contains_key(k) <==> calls.contains_key(k) || mentions(deltas, k)
            &&& after.contains_key(k) ==> after[k].arguments == before + arguments_for(deltas, k)
            &&& !mentions(deltas, k) && calls.contains_key(k) ==> after[k] == calls[k]
            &&& !mentions(deltas, k) ==> arguments_for(deltas, k).len() == 0
        }),
    decreases deltas.len(),
{
    let before = if calls.contains_key(k) {
        calls[k].arguments
    } else {
        Seq::empty()
    };
    if deltas.len() > 0 {
        let short = deltas.drop_last();
        arguments_add_up(calls, short, k);
        if let Some(arguments) = deltas.last().arguments {
            assert(before + arguments_for(short, k) + arguments == before + (arguments_for(short, k)
                + arguments));
        }
        if mentions(short, k) {
            let i = choose|i: int| 0 <= i < short.len() && (#[trigger] short[i]).index == k;
            assert(deltas[i].index == k);
        }
        if deltas.last().index == k {
            assert(deltas[deltas.len() - 1].index == k);
        } else if mentions(deltas, k) {
            let i = choose|i: int| 0 <= i < deltas.len() && (#[trigger] deltas[i]).index == k;
            assert(short[i].index == k);
        }
    } else {
        assert(!mentions(deltas, k));
        assert(before + Seq::<char>::empty() == before);
    }
}

/// Whether an emission is a delta, and one that has to be delivered just if it is text.
pub open spec fn is_delta(e: EmissionView) -> bool {
    match e.event {
        Ok(EventView::OutputTextDelta(_)) => e.must_deliver,
        Ok(EventView::ReasoningSummaryDelta { .. }) => !e.must_deliver,
        _ => false,
    }
}

/// Choices lead to deltas alone, and leave alone what a chunk says of the response as a whole.
proof fn lemma_choices_emit_deltas(s: StreamView, choices: Seq<ChoiceView>)
    ensures
        forall|i: int|
            0 <= i < chat::after_choices(s, choices).out.len() ==> is_delta(
                #[trigger] chat::after_choices(s, choices).out[i],
            ),
        chat::after_choices(s, choices).state.response_id == s.response_id,
        chat::after_choices(s, choices).state.last_usage == s.last_usage,
        chat::after_choices(s, choices).state.item_added == s.item_added,
    decreases choices.len(),
{
    if choices.len() > 0 {
        lemma_choices_emit_deltas(s, choices.drop_last());
        let a = chat::after_choices(s, choices.drop_last());
        let choice = choices.last();
        let b = chat::after_reasoning(a.state, chat::explicit_reasoning(choice));
        let c = chat::after_content(b.state, choice.content);
        assert forall|i: int| 0 <= i < b.out.len() implies is_delta(#[trigger] b.out[i]) by {}
        assert forall|i: int| 0 <= i < c.out.len() implies is_delta(#[trigger] c.out[i]) by {}
        let out = chat::after_choices(s, choices).out;
        assert(out == a.out + (b.out + c.out));
        assert forall|i: int| 0 <= i < out.len() implies is_delta(#[trigger] out[i]) by {
            if i < a.out.len() {
                assert(out[i] == a.out[i]);
            } else if i < a.out.len() + b.out.len() {
                assert(out[i] == b.out[i - a.out.len()]);
            } else {
                assert(out[i] == c.out[i - a.out.len() - b.out.len()]);
            }
        }
    }
}

/// What is handed out at the end: only the last of it ends the stream, and none of it announces a
/// message or has to be delivered.
proof fn lemma_final_events(s: StreamView)
    ensures
        chat::final_events(s).len() > 0,
        forall|i: int|
            0 <= i < chat::final_events(s).len() ==> {
                let e = #[trigger] chat::final_events(s)[i];
                &&& is_terminal(e) == (i == chat::final_events(s).len() - 1)
                &&& !announces_message(e)
                &&& !e.must_deliver
                &&& text_in(e).len() == 0
            },
{
    let keys = chat::in_order(s.tool_calls.dom());
    tool_calls_are_announced_and_done(s.tool_calls, keys);
    let es = chat::final_events(s);
    let before = chat::message_done(s);
    let calls = chat::tool_call_events(s.tool_calls, keys);
    assert forall|i: int| 0 <= i < es.len() implies {
        let e = #[trigger] es[i];
        &&& is_terminal(e) == (i == es.len() - 1)
        &&& !announces_message(e)
        &&& !e.must_deliver
        &&& text_in(e).len() == 0
    } by {
        if s.response_id.len() > 0 && before.len() <= i < before.len() + calls.len() {
            let k = i - before.len();
            let key = keys[k / 2];
            assert(es[i] == calls[k]);
            if k % 2 == 0 {
                assert(calls[2 * (k / 2)] == es[i]);
            } else {
                assert(calls[2 * (k / 2) + 1] == es[i]);
            }
        }
    }
}

/// What one step hands out, one emission at a time.
proof fn lemma_step_emissions(s: StreamView, poll: PollView)
    ensures
        ({
            let st = chat::step(s, poll);
            &&& st.stop ==> st.out.len() > 0 && st.state == s
            &&& st.state.item_added == (s.item_added || (!st.stop && st.out.len() > 0
                && announces_message(st.out[0])))
            &&& !st.stop && !s.item_added && st.out.len() > 0 ==> announces_message(st.out[0])
            &&& forall|i: int|
                0 <= i < st.out.len() ==> {
                    let e = #[trigger] st.out[i];
                    &&& is_terminal(e) == (st.stop && i == st.out.len() - 1)
                    &&& announces_message(e) ==> !st.stop && i == 0 && !s.item_added
                    &&& e.must_deliver == (announces_message(e) || text_in(e).len() > 0)
                }
        }),
{
    let st = chat::step(s, poll);
    lemma_final_events(s);
    match poll {
        PollView::Event { data, chunk } => {
            if !chat::is_done_mark(data) {
                if let Some(chunk) = chunk {
                    lemma_chunk_emissions(s, chunk);
                }
            }
        },
        _ => {},
    }
}

/// What one chunk leads to, one emission at a time.
proof fn lemma_chunk_emissions(s: StreamView, chunk: ChunkView)
    ensures
        ({
            let p = chat::after_chunk(s, chunk);
            let announces = !s.item_added && chunk.choices.len() > 0;
            &&& p.state.item_added == (s.item_added || announces)
            &&& announces ==> p.out.len() > 0 && announces_message(p.out[0])
            &&& !announces && !s.item_added ==> p.out.len() == 0
            &&& forall|i: int|
                0 <= i < p.out.len() ==> {
                    let e = #[trigger] p.out[i];
                    &&& !is_terminal(e)
                    &&& announces_message(e) == (announces && i == 0)
                    &&& e.must_deliver == (announces_message(e) || text_in(e).len() > 0)
                }
        }),
{
    let a = chat::after_chunk_header(s, chunk);
    let b = chat::after_choices(a.state, chunk.choices);
    let p = chat::after_chunk(s, chunk);
    lemma_choices_emit_deltas(a.state, chunk.choices);
    lemma_text_deltas_say_something(a.state, chunk.choices);
    assert forall|i: int| a.out.len() <= i < p.out.len() implies p.out[i] == b.out[i
        - a.out.len()] by {}
}

/// A text delta is never empty.
proof fn lemma_text_deltas_say_something(s: StreamView, choices: Seq<ChoiceView>)
    ensures
        forall|i: int|
            0 <= i < chat::after_choices(s, choices).out.len() ==> {
                let e = #[trigger] chat::after_choices(s, choices).out[i];
                e.must_deliver ==> text_in(e).len() > 0
            },
    decreases choices.len(),
{
    if choices.len() > 0 {
        lemma_text_deltas_say_something(s, choices.drop_last());
        let a = chat::after_choices(s, choices.drop_last());
        let c = chat::after_choice(a.state, choices.last());
        let out = chat::after_choices(s, choices).out;
        assert forall|i: int| 0 <= i < out.len() implies ({
            let e = #[trigger] out[i];
            e.must_deliver ==> text_in(e).len() > 0
        }) by {
            if i < a.out.len() {
                assert(out[i] == a.out[i]);
            } else {
                assert(out[i] == c.out[i - a.out.len()]);
            }
        }
    }
}

/// The reader is told of the assistant's message once, and before anything else of the response:
/// whatever else was handed out came later.
pub proof fn message_is_announced_once_and_first(polls: Seq<PollView>)
    ensures
        ({
            let h = history(polls);
            &&& h.state.item_added == (h.sent.len() > 0 && announces_message(h.sent[0]))
            &&& !h.stopped && h.sent.len() > 0 ==> announces_message(h.sent[0])
            &&& forall|i: int| 0 < i < h.sent.len() ==> !announces_message(#[trigger] h.sent[i])
        }),
    decreases polls.len(),
{
    if polls.len() > 0 {
        message_is_announced_once_and_first(polls.drop_last());
        let h = history(polls.drop_last());
        if !h.stopped {
            let st = chat::step(h.state, polls.last());
            lemma_step_emissions(h.state, polls.last());
            let sent = h.sent + st.out;
            assert forall|i: int| 0 < i < sent.len() implies !announces_message(
                #[trigger] sent[i],
            ) by {
                if i < h.sent.len() {
                    assert(sent[i] == h.sent[i]);
                } else {
                    assert(sent[i] == st.out[i - h.sent.len()]);
                }
            }
            if h.sent.len() > 0 {
                assert(sent[0] == h.sent[0]);
            } else if st.out.len() > 0 {
                assert(sent[0] == st.out[0]);
            }
        }
    }
}

/// Whether an emission is a text delta.
pub open spec fn is_text_delta(e: EmissionView) -> bool {
    e.event matches Ok(EventView::OutputTextDelta(_))
}

/// Whether an emission gives the assistant's message as a whole.
pub open spec fn finishes_message(e: EmissionView) -> bool {
    e.event matches Ok(EventView::OutputItemDone(ItemView::Message { .. }))
}

/// Whether an emission says that the response is complete.
pub open spec fn completes(e: EmissionView) -> bool {
    e.event matches Ok(EventView::Completed { .. })
}

/// What one step hands out: text deltas say something, and the message is given as a whole first of
/// all that is said of a complete response, if it was announced.
proof fn lemma_step_says_something(s: StreamView, poll: PollView)
    ensures
        ({
            let st = chat::step(s, poll);
            forall|i: int|
                0 <= i < st.out.len() ==> {
                    let e = #[trigger] st.out[i];
                    &&& is_text_delta(e) ==> text_in(e).len() > 0
                    &&& finishes_message(e) == (st.stop && completes(st.out.last()) && s.item_added
                        && i == 0)
                }
        }),
{
    let st = chat::step(s, poll);
    if let Some(chunk) = chunk_in(poll) {
        let a = chat::after_chunk_header(s, chunk);
        let b = chat::after_choices(a.state, chunk.choices);
        lemma_choices_emit_deltas(a.state, chunk.choices);
        lemma_text_deltas_say_something(a.state, chunk.choices);
        assert forall|i: int| a.out.len() <= i < st.out.len() implies st.out[i] == b.out[i
            - a.out.len()] by {}
    } else if ends_stream(poll) && s.response_id.len() > 0 {
        let keys = chat::in_order(s.tool_calls.dom());
        tool_calls_are_announced_and_done(s.tool_calls, keys);
        let before = chat::message_done(s);
        let calls = chat::tool_call_events(s.tool_calls, keys);
        assert forall|i: int| before.len() <= i < before.len() + calls.len() implies !is_text_delta(
            #[trigger] st.out[i],
        ) && !finishes_message(st.out[i]) by {
            let k = i - before.len();
            let key = keys[k / 2];
            assert(st.out[i] == calls[k]);
            if k % 2 == 0 {
                assert(calls[2 * (k / 2)] == st.out[i]);
            } else {
                assert(calls[2 * (k / 2) + 1] == st.out[i]);
            }
        }
    }
}

/// No text delta is ever empty.
pub proof fn text_deltas_say_something(polls: Seq<PollView>)
    ensures
        forall|i: int|
            0 <= i < history(polls).sent.len() ==> {
                let e = #[trigger] history(polls).sent[i];
                is_text_delta(e) ==> text_in(e).len() > 0
            },
    decreases polls.len(),
{
    if polls.len() > 0 {
        text_deltas_say_something(polls.drop_last());
        let h = history(polls.drop_last());
        if !h.stopped {
            let st = chat::step(h.state, polls.last());
            let sent = h.sent + st.out;
            lemma_step_says_something(h.state, polls.last());
            assert forall|i: int| 0 <= i < sent.len() implies {
                let e = #[trigger] sent[i];
                is_text_delta(e) ==> text_in(e).len() > 0
            } by {
                if i < h.sent.len() {
                    assert(sent[i] == h.sent[i]);
                } else {
                    assert(sent[i] == st.out[i - h.sent.len()]);
                }
            }
        }
    }
}

/// The message is given as a whole once, where it was announced and the response is complete;
/// otherwise it never is.
pub proof fn message_is_finished_once(polls: Seq<PollView>)
    ensures
        ({
            let h = history(polls);
            let finished = h.stopped && h.state.item_added && completes(h.sent.last());
            &&& finished ==> exists|i: int|
                0 <= i < h.sent.len() && finishes_message(#[trigger] h.sent[i])
            &&& forall|i: int|
                0 <= i < h.sent.len() && finishes_message(#[trigger] h.sent[i]) ==> finished
            &&& forall|i: int, j: int|
                0 <= i < h.sent.len() && 0 <= j < h.sent.len() && finishes_message(
                    #[trigger] h.sent[i],
                ) && finishes_message(#[trigger] h.sent[j]) ==> i == j
        }),
    decreases polls.len(),
{
    if polls.len() > 0 {
        message_is_finished_once(polls.drop_last());
        let h = history(polls.drop_last());
        if !h.stopped {
            let st = chat::step(h.state, polls.last());
            let sent = h.sent + st.out;
            lemma_step_emissions(h.state, polls.last());
            lemma_step_says_something(h.state, polls.last());
            let finished = st.stop && h.state.item_added && completes(st.out.last());
            assert forall|i: int| 0 <= i < sent.len() implies finishes_message(#[trigger] sent[i])
                == (finished && i == h.sent.len()) by {
                if i < h.sent.len() {
                    assert(sent[i] == h.sent[i]);
                } else {
                    assert(sent[i] == st.out[i - h.sent.len()]);
                }
            }
            if st.stop {
                assert(sent.last() == st.out.last());
                assert(finished ==> finishes_message(sent[h.sent.len() as int]));
            }
        }
    }
}

/// A stream that is over has said so, as the last thing: that the response is complete, or that it
/// failed. One that is not over has said neither.
pub proof fn a_stream_ends_once(polls: Seq<PollView>)
    ensures
        ({
            let h = history(polls);
            &&& h.stopped ==> h.sent.len() > 0
            &&& forall|i: int|
                0 <= i < h.sent.len() ==> is_terminal(#[trigger] h.sent[i]) == (h.stopped && i
                    == h.sent.len() - 1)
        }),
    decreases polls.len(),
{
    if polls.len() > 0 {
        a_stream_ends_once(polls.drop_last());
        let h = history(polls.drop_last());
        if !h.stopped {
            let st = chat::step(h.state, polls.last());
            lemma_step_emissions(h.state, polls.last());
            let sent = h.sent + st.out;
            assert forall|i: int| 0 <= i < sent.len() implies is_terminal(#[trigger] sent[i]) == (
            st.stop && i == sent.len() - 1) by {
                if i < h.sent.len() {
                    assert(sent[i] == h.sent[i]);
                } else {
                    assert(sent[i] == st.out[i - h.sent.len()]);
                }
            }
        }
    }
}

/// The stream goes on without its reader until it has a message to announce or text to pass on:
/// these and nothing else have to be delivered.
pub proof fn only_the_message_has_to_be_delivered(s: StreamView, poll: PollView)
    ensures
        forall|i: int|
            0 <= i < chat::step(s, poll).out.len() ==> {
                let e = #[trigger] chat::step(s, poll).out[i];
                e.must_deliver == (announces_message(e) || text_in(e).len() > 0)
            },
{
    lemma_step_emissions(s, poll);
}

/// Whether a stream that has not announced its message has kept nothing either.
pub open spec fn well_formed(s: StreamView) -> bool {
    !s.item_added ==> {
        &&& s.content.len() == 0
        &&& s.reasoning.len() == 0
        &&& !s.thinking
        &&& s.tool_calls.is_empty()
    }
}

/// Every stream is well formed at every time.
pub proof fn streams_stay_well_formed(polls: Seq<PollView>)
    ensures
        well_formed(history(polls).state),
    decreases polls.len(),
{
    if polls.len() > 0 {
        streams_stay_well_formed(polls.drop_last());
        let h = history(polls.drop_last());
        if !h.stopped {
            if let PollView::Event { data, chunk: Some(chunk) } = polls.last() {
                let a = chat::after_chunk_header(h.state, chunk);
                lemma_choices_emit_deltas(a.state, chunk.choices);
            }
        }
    }
}

/// The id of a response, once known, stays; and the end of the stream reports it.
pub proof fn response_id_stays(s: StreamView, poll: PollView)
    requires
        s.response_id.len() > 0,
    ensures
        chat::step(s, poll).state.response_id == s.response_id,
        ends_stream(poll) ==> chat::step(s, poll).out.last() == chat::offered(
            EventView::Completed { response_id: s.response_id, token_usage: s.last_usage },
        ),
{
    if let PollView::Event { data, chunk: Some(chunk) } = poll {
        lemma_choices_emit_deltas(chat::after_chunk_header(s, chunk).state, chunk.choices);
    }
}

/// The chunk that a poll brings.
pub open spec fn chunk_in(poll: PollView) -> Option<ChunkView> {
    match poll {
        PollView::Event { data, chunk } => if chat::is_done_mark(data) {
            None
        } else {
            chunk
        },
        _ => None,
    }
}

/// The chunks that a stream reads: all that come before it is over, in order.
pub open spec fn chunks_read(polls: Seq<PollView>) -> Seq<ChunkView>
    decreases polls.len(),
{
    if polls.len() == 0 {
        Seq::empty()
    } else {
        let before = chunks_read(polls.drop_last());
        match chunk_in(polls.last()) {
            Some(chunk) => if history(polls.drop_last()).stopped {
                before
            } else {
                before.push(chunk)
            },
            None => before,
        }
    }
}

/// The first id among some chunks that is not empty; the empty one where there is none.
pub open spec fn first_id(chunks: Seq<ChunkView>) -> Seq<char>
    decreases chunks.len(),
{
    if chunks.len() == 0 {
        Seq::empty()
    } else if first_id(chunks.drop_last()).len() > 0 {
        first_id(chunks.drop_last())
    } else {
        chunks.last().id
    }
}

/// A response has the first id that any chunk tells and that is not empty.
pub proof fn response_id_is_the_first_told(polls: Seq<PollView>)
    ensures
        history(polls).state.response_id == first_id(chunks_read(polls)),
    decreases polls.len(),
{
    if polls.len() > 0 {
        response_id_is_the_first_told(polls.drop_last());
        let h = history(polls.drop_last());
        if let Some(chunk) = chunk_in(polls.last()) {
            let before = chunks_read(polls.drop_last());
            assert(before.push(chunk).drop_last() == before);
            lemma_choices_emit_deltas(chat::after_chunk_header(h.state, chunk).state, chunk.choices);
        }
    }
}

/// A stream that comes to its regular end is complete just if some chunk told the response's id:
/// then the last that is sent says so, with that id and the last token counts that came. Otherwise
/// the stream has failed, and that is all that is still sent.
pub proof fn a_response_with_an_id_is_complete(polls: Seq<PollView>, poll: PollView)
    requires
        !history(polls).stopped,
        ends_stream(poll),
    ensures
        ({
            let h = history(polls.push(poll));
            let id = first_id(chunks_read(polls));
            &&& h.stopped
            &&& id.len() > 0 ==> h.sent.last() == chat::offered(
                EventView::Completed { response_id: id, token_usage: last_counts(polls) },
            )
            &&& id.len() == 0 ==> h.sent == history(polls).sent.push(
                chat::failure("stream closed without chunks"@),
            )
        }),
{
    let s = history(polls).state;
    assert(polls.push(poll).drop_last() == polls);
    response_id_is_the_first_told(polls);
    if s.response_id.len() > 0 {
        last_token_counts_are_reported(polls, poll);
        a_stream_ends_once(polls.push(poll));
        lemma_step_emissions(s, poll);
    } else {
        an_unnamed_response_fails(s, poll);
    }
}

/// The id under which the message is announced while some chunks are read: the first that is not
/// empty up to the first chunk that has choices. There is none where no chunk has.
pub open spec fn announced_id(chunks: Seq<ChunkView>) -> Option<Seq<char>>
    decreases chunks.len(),
{
    if chunks.len() == 0 {
        None
    } else {
        match announced_id(chunks.drop_last()) {
            Some(id) => Some(id),
            None => if chunks.last().choices.len() > 0 {
                Some(first_id(chunks))
            } else {
                None
            },
        }
    }
}

/// A message is announced under some id just if some chunk has choices.
pub proof fn choices_announce_a_message(chunks: Seq<ChunkView>)
    ensures
        announced_id(chunks) is Some <==> exists|i: int|
            0 <= i < chunks.len() && (#[trigger] chunks[i]).choices.len() > 0,
    decreases chunks.len(),
{
    if chunks.len() > 0 {
        let before = chunks.drop_last();
        choices_announce_a_message(before);
        if announced_id(before) is Some {
            let i = choose|i: int| 0 <= i < before.len() && (#[trigger] before[i]).choices.len() > 0;
            assert(chunks[i].choices.len() > 0);
        } else if chunks.last().choices.len() > 0 {
            assert(chunks[chunks.len() - 1].choices.len() > 0);
        } else if exists|i: int| 0 <= i < chunks.len() && (#[trigger] chunks[i]).choices.len() > 0 {
            let i = choose|i: int| 0 <= i < chunks.len() && (#[trigger] chunks[i]).choices.len() > 0;
            assert(before[i].choices.len() > 0);
        }
    }
}

/// The message is announced as soon as a chunk has choices, empty and under the first id so far that
/// is not empty. As long as no chunk has any, nothing is announced and nothing sent.
pub proof fn message_is_announced_with_the_first_choices(polls: Seq<PollView>)
    ensures
        ({
            let h = history(polls);
            match announced_id(chunks_read(polls)) {
                Some(id) => h.state.item_added && h.sent.len() > 0 && h.sent[0] == chat::required(
                    EventView::OutputItemAdded(
                        chat::assistant_message(Some("msg_"@ + id), Seq::empty(), None),
                    ),
                ),
                None => !h.state.item_added && (!h.stopped ==> h.sent.len() == 0) && forall|i: int|
                    0 <= i < h.sent.len() ==> !announces_message(#[trigger] h.sent[i]),
            }
        }),
    decreases polls.len(),
{
    message_is_announced_once_and_first(polls);
    if polls.len() > 0 {
        let earlier = polls.drop_last();
        message_is_announced_with_the_first_choices(earlier);
        let h = history(earlier);
        if !h.stopped {
            let st = chat::step(h.state, polls.last());
            let sent = h.sent + st.out;
            lemma_step_emissions(h.state, polls.last());
            response_id_is_the_first_told(earlier);
            if let Some(chunk) = chunk_in(polls.last()) {
                let before = chunks_read(earlier);
                assert(before.push(chunk).drop_last() == before);
                let a = chat::after_chunk_header(h.state, chunk);
                lemma_choices_emit_deltas(a.state, chunk.choices);
                lemma_chunk_emissions(h.state, chunk);
                if a.out.len() > 0 {
                    assert(sent[0] == a.out[0]);
                }
            }
            if h.sent.len() > 0 {
                assert(sent[0] == h.sent[0]);
            }
        }
    }
}

/// The tool call deltas of some choices, in order.
pub open spec fn tool_deltas_in(choices: Seq<ChoiceView>) -> Seq<ToolDeltaView>
    decreases choices.len(),
{
    if choices.len() == 0 {
        Seq::empty()
    } else {
        tool_deltas_in(choices.drop_last()) + choices.last().tool_calls
    }
}

/// The tool call deltas of some chunks, in order.
pub open spec fn all_tool_deltas(chunks: Seq<ChunkView>) -> Seq<ToolDeltaView>
    decreases chunks.len(),
{
    if chunks.len() == 0 {
        Seq::empty()
    } else {
        all_tool_deltas(chunks.drop_last()) + tool_deltas_in(chunks.last().choices)
    }
}

/// Deltas taken in one list after the other come to the same as all at once.
proof fn lemma_tool_deltas_append(
    calls: Map<usize, ToolCallView>,
    a: Seq<ToolDeltaView>,
    b: Seq<ToolDeltaView>,
)
    ensures
        chat::with_tool_deltas(calls, a + b) == chat::with_tool_deltas(
            chat::with_tool_deltas(calls, a),
            b,
        ),
    decreases b.len(),
{
    if b.len() == 0 {
        assert(a + b == a);
    } else {
        lemma_tool_deltas_append(calls, a, b.drop_last());
        assert((a + b).drop_last() == a + b.drop_last());
    }
}

/// Choices add their deltas to the tool calls.
proof fn lemma_choices_add_tool_deltas(s: StreamView, choices: Seq<ChoiceView>)
    ensures
        chat::after_choices(s, choices).state.tool_calls == chat::with_tool_deltas(
            s.tool_calls,
            tool_deltas_in(choices),
        ),
    decreases choices.len(),
{
    if choices.len() > 0 {
        lemma_choices_add_tool_deltas(s, choices.drop_last());
        lemma_tool_deltas_append(
            s.tool_calls,
            tool_deltas_in(choices.drop_last()),
            choices.last().tool_calls,
        );
    }
}

/// The tool calls of a stream are what the deltas of all chunks read come to, one after the other.
pub proof fn tool_calls_are_put_together(polls: Seq<PollView>)
    ensures
        history(polls).state.tool_calls == chat::with_tool_deltas(
            Map::empty(),
            all_tool_deltas(chunks_read(polls)),
        ),
    decreases polls.len(),
{
    if polls.len() > 0 {
        tool_calls_are_put_together(polls.drop_last());
        let h = history(polls.drop_last());
        if let Some(chunk) = chunk_in(polls.last()) {
            let before = chunks_read(polls.drop_last());
            assert(before.push(chunk).drop_last() == before);
            lemma_choices_add_tool_deltas(
                chat::after_chunk_header(h.state, chunk).state,
                chunk.choices,
            );
            lemma_tool_deltas_append(
                Map::empty(),
                all_tool_deltas(before),
                tool_deltas_in(chunk.choices),
            );
        }
    }
}

/// An end mark ends a stream just as the server's closing it does.
pub proof fn an_end_mark_closes_the_stream(
    polls: Seq<PollView>,
    data: Seq<char>,
    chunk: Option<ChunkView>,
)
    requires
        chat::is_done_mark(data),
    ensures
        history(polls.push(PollView::Event { data, chunk })) == history(
            polls.push(PollView::Closed),
        ),
{
    assert(polls.push(PollView::Event { data, chunk }).drop_last() == polls);
    assert(polls.push(PollView::Closed).drop_last() == polls);
}

/// Whatever follows the end of a stream is ignored.
pub proof fn what_follows_the_end_is_ignored(polls: Seq<PollView>, more: Seq<PollView>)
    requires
        history(polls).stopped,
    ensures
        history(polls + more) == history(polls),
    decreases more.len(),
{
    if more.len() == 0 {
        assert(polls + more == polls);
    } else {
        what_follows_the_end_is_ignored(polls, more.drop_last());
        assert((polls + more).drop_last() == polls + more.drop_last());
    }
}

/// Whether a poll brings an event that is neither a chunk nor the end mark.
pub open spec fn is_unreadable(poll: PollView) -> bool {
    poll matches PollView::Event { data, chunk } && chunk is None && !chat::is_done_mark(data)
}

/// Some polls without those that bring nothing readable.
pub open spec fn readable(polls: Seq<PollView>) -> Seq<PollView>
    decreases polls.len(),
{
    if polls.len() == 0 {
        Seq::empty()
    } else if is_unreadable(polls.last()) {
        readable(polls.drop_last())
    } else {
        readable(polls.drop_last()).push(polls.last())
    }
}

/// A stream is the same without the events that cannot be read: it knows the same, has sent the same,
/// and is over at the same time.
pub proof fn unreadable_events_change_nothing(polls: Seq<PollView>)
    ensures
        history(readable(polls)) == history(polls),
    decreases polls.len(),
{
    if polls.len() > 0 {
        unreadable_events_change_nothing(polls.drop_last());
        let h = history(polls.drop_last());
        if is_unreadable(polls.last()) {
            assert(h.sent + Seq::<EmissionView>::empty() == h.sent);
            assert(chat::step(h.state, polls.last()).out == Seq::<EmissionView>::empty());
        } else {
            let kept = readable(polls.drop_last());
            assert(kept.push(polls.last()).drop_last() == kept);
        }
    }
}

/// The token counts that a poll brings.
pub open spec fn counts_in(poll: PollView) -> Option<TokenUsage> {
    match poll {
        PollView::Event { data, chunk: Some(chunk) } => match chunk.usage {
            Some(usage) => Some(chat::token_usage(usage)),
            None => None,
        },
        _ => None,
    }
}

/// The last token counts that any of some polls brings.
pub open spec fn last_counts(polls: Seq<PollView>) -> Option<TokenUsage>
    decreases polls.len(),
{
    if polls.len() == 0 {
        None
    } else {
        match counts_in(polls.last()) {
            Some(counts) => Some(counts),
            None => last_counts(polls.drop_last()),
        }
    }
}

/// A complete response is reported with the last token counts that came.
pub proof fn last_token_counts_are_reported(polls: Seq<PollView>, poll: PollView)
    requires
        !history(polls).stopped,
        history(polls).state.response_id.len() > 0,
        ends_stream(poll),
    ensures
        chat::step(history(polls).state, poll).out.last() == chat::offered(
            EventView::Completed {
                response_id: history(polls).state.response_id,
                token_usage: last_counts(polls),
            },
        ),
{
    lemma_last_counts_are_kept(polls);
    response_id_stays(history(polls).state, poll);
}

/// A stream that is not over keeps the last token counts that came.
proof fn lemma_last_counts_are_kept(polls: Seq<PollView>)
    requires
        !history(polls).stopped,
    ensures
        history(polls).state.last_usage == last_counts(polls),
    decreases polls.len(),
{
    if polls.len() > 0 {
        lemma_last_counts_are_kept(polls.drop_last());
        let s = history(polls.drop_last()).state;
        if let PollView::Event { data, chunk: Some(chunk) } = polls.last() {
            lemma_choices_emit_deltas(chat::after_chunk_header(s, chunk).state, chunk.choices);
        }
    }
}

/// A stream that ends before any chunk has told the response's id has failed, and says nothing else.
pub proof fn an_unnamed_response_fails(s: StreamView, poll: PollView)
    requires
        s.response_id.len() == 0,
        ends_stream(poll),
    ensures
        chat::step(s, poll).out == seq![chat::failure("stream closed without chunks"@)],
{
}

/// An event that is neither a chunk nor the end mark is as good as none.
pub proof fn unreadable_events_are_skipped(s: StreamView, data: Seq<char>)
    requires
        !chat::is_done_mark(data),
    ensures
        ({
            let st = chat::step(s, PollView::Event { data, chunk: None });
            st.state == s && st.out.len() == 0 && !st.stop
        }),
{
}

/// It does not matter to a stream how content is cut into deltas, as long as no tag is cut in two.
pub proof fn cutting_content_does_not_matter(s: StreamView, a: Seq<char>, b: Seq<char>)
    requires
        !think::cuts_a_tag(a, b),
    ensures
        ({
            let first = chat::after_content(s, Some(a));
            let then = chat::after_content(first.state, Some(b));
            let both = chat::after_content(s, Some(a + b));
            &&& then.state == both.state
            &&& streamed_text(first.out + then.out) == streamed_text(both.out)
            &&& streamed_reasoning(first.out + then.out) == streamed_reasoning(both.out)
        }),
{
    let first = chat::after_content(s, Some(a));
    let then = chat::after_content(first.state, Some(b));
    let both = chat::after_content(s, Some(a + b));
    think::cuts_outside_tags_do_not_matter(a, b, s.thinking);
    assert(then.state.content == both.state.content);
    assert(then.state.reasoning == both.state.reasoning);
    lemma_content_streams(s, Some(a));
    lemma_content_streams(first.state, Some(b));
    lemma_content_streams(s, Some(a + b));
    lemma_streamed_append(first.out, then.out);
    let st = streamed_text(first.out + then.out);
    let sr = streamed_reasoning(first.out + then.out);
    assert(s.content + st == s.content + streamed_text(both.out));
    assert(s.reasoning + sr == s.reasoning + streamed_reasoning(both.out));
    lemma_same_tail(s.content, st, streamed_text(both.out));
    lemma_same_tail(s.reasoning, sr, streamed_reasoning(both.out));
}

/// What is appended to one text to reach another is determined.
proof fn lemma_same_tail(a: Seq<char>, b: Seq<char>, c: Seq<char>)
    requires
        a + b == a + c,
    ensures
        b == c,
{
    assert(b == (a + b).skip(a.len() as int));
    assert(c == (a + c).skip(a.len() as int));
}

/// The emission of an event on which nothing hangs.
pub open spec fn passes_on(e: EmissionView, event: EventView) -> bool {
    e.event == Ok::<EventView, ErrorView>(event) && !e.must_deliver
}

/// The poll of an event that brings a chunk.
pub open spec fn chunk_poll(data: Seq<char>, chunk: ChunkView) -> PollView {
    PollView::Event { data, chunk: Some(chunk) }
}

/// Data is the end mark just if it is `[DONE]` with nothing but white space around it.
pub proof fn end_marks_are_spelled_out(a: Seq<char>, data: Seq<char>, b: Seq<char>)
    requires
        forall|i: int| 0 <= i < a.len() ==> text::is_white_space_spec(#[trigger] a[i]),
        forall|i: int| 0 <= i < b.len() ==> text::is_white_space_spec(#[trigger] b[i]),
        data.len() > 0 ==> !text::is_white_space_spec(data.first()) && !text::is_white_space_spec(
            data.last(),
        ),
    ensures
        chat::is_done_mark(a + data + b) <==> data == "[DONE]"@,
{
    text::all_space_around_a_text_is_trimmed(a, data, b);
}

/// A failure and a timeout each end a stream with one error, which tells what happened, and change
/// nothing else.
pub proof fn failures_are_told(s: StreamView, message: Seq<char>)
    ensures
        ({
            let st = chat::step(s, PollView::Failed(message));
            &&& st.stop && st.state == s && st.out.len() == 1 && !st.out[0].must_deliver
            &&& st.out[0].event == Err::<EventView, ErrorView>(ErrorView::Stream(message))
        }),
        ({
            let st = chat::step(s, PollView::TimedOut);
            &&& st.stop && st.state == s && st.out.len() == 1 && !st.out[0].must_deliver
            &&& st.out[0].event == Err::<EventView, ErrorView>(
                ErrorView::Stream("idle timeout waiting for SSE"@),
            )
        }),
{
}

/// Whatever text was streamed, the regular end of a stream whose response has an id gives first the
/// message, if it was announced, with all its text; then each tool call, in increasing order of
/// indices and none left out, announced and done as one and the same item; and last that the response
/// is complete. The message ends the turn just if there is no tool call.
pub proof fn the_end_gives_all_there_is(s: StreamView, poll: PollView) -> (keys: Seq<usize>)
    requires
        ends_stream(poll),
        s.response_id.len() > 0,
    ensures
        forall|i: int, j: int| 0 <= i < j < keys.len() ==> keys[i] < keys[j],
        forall|k: usize| #[trigger] keys.contains(k) <==> s.tool_calls.contains_key(k),
        ({
            let st = chat::step(s, poll);
            let first: int = if s.item_added {
                1
            } else {
                0
            };
            &&& st.stop && st.state == s
            &&& st.out.len() == first + 2 * keys.len() + 1
            &&& s.item_added ==> passes_on(
                st.out[0],
                EventView::OutputItemDone(
                    ItemView::Message {
                        id: None,
                        role: "assistant"@,
                        content: seq![ContentView::OutputText { text: s.content }],
                        end_turn: Some(keys.len() == 0),
                        phase: None,
                    },
                ),
            )
            &&& forall|i: int|
                0 <= i < keys.len() ==> {
                    let call = s.tool_calls[#[trigger] keys[i]];
                    let item = ItemView::FunctionCall {
                        id: None,
                        name: call.name,
                        arguments: call.arguments,
                        call_id: call.id,
                    };
                    &&& passes_on(st.out[first + 2 * i], EventView::OutputItemAdded(item))
                    &&& passes_on(st.out[first + 2 * i + 1], EventView::OutputItemDone(item))
                }
            &&& passes_on(
                st.out.last(),
                EventView::Completed { response_id: s.response_id, token_usage: s.last_usage },
            )
        }),
{
    let keys = chat::in_order(s.tool_calls.dom());
    tool_calls_come_in_order(s.tool_calls);
    let st = chat::step(s, poll);
    let first: int = if s.item_added {
        1
    } else {
        0
    };
    let calls = chat::tool_call_events(s.tool_calls, keys);
    assert(chat::message_done(s).len() == first);
    assert forall|i: int| 0 <= i < keys.len() implies {
        let call = s.tool_calls[#[trigger] keys[i]];
        let item = ItemView::FunctionCall {
            id: None,
            name: call.name,
            arguments: call.arguments,
            call_id: call.id,
        };
        &&& passes_on(st.out[first + 2 * i], EventView::OutputItemAdded(item))
        &&& passes_on(st.out[first + 2 * i + 1], EventView::OutputItemDone(item))
    } by {
        let key = keys[i];
        assert(st.out[first + 2 * i] == calls[2 * i]);
        assert(st.out[first + 2 * i + 1] == calls[2 * i + 1]);
    }
    if s.tool_calls.is_empty() {
        if keys.len() > 0 {
            assert(keys.contains(keys[0]));
        }
    } else {
        if keys.len() == 0 {
            assert forall|k: usize| !s.tool_calls.contains_key(k) by {
                assert(!keys.contains(k));
            }
            assert(s.tool_calls == Map::<usize, ToolCallView>::empty());
        }
    }
    keys
}

/// A stream that ends without its response having an id has failed: one error says so, and nothing
/// else is sent.
pub proof fn the_end_without_an_id_is_a_failure(s: StreamView, poll: PollView)
    requires
        ends_stream(poll),
        s.response_id.len() == 0,
    ensures
        ({
            let st = chat::step(s, poll);
            &&& st.stop && st.state == s && st.out.len() == 1 && !st.out[0].must_deliver
            &&& st.out[0].event == Err::<EventView, ErrorView>(
                ErrorView::Stream("stream closed without chunks"@),
            )
        }),
{
}

/// Over a whole stream, every call that some delta mentions is handed out at the regular end, behind
/// all that was sent before and before the response is said to be complete: it is announced and then
/// done, with the last name and the last id that its deltas brought and the arguments that they add up
/// to.
pub proof fn every_tool_call_is_handed_out(polls: Seq<PollView>, poll: PollView, k: usize) -> (i: int)
    requires
        !history(polls).stopped,
        ends_stream(poll),
        first_id(chunks_read(polls)).len() > 0,
        mentions(all_tool_deltas(chunks_read(polls)), k),
    ensures
        ({
            let sent = history(polls.push(poll)).sent;
            &&& history(polls).sent.len() <= i && i + 2 < sent.len()
            &&& sent[i].event matches Ok(EventView::OutputItemAdded(added))
            &&& sent[i + 1].event matches Ok(EventView::OutputItemDone(done)) && done == added
            &&& added matches ItemView::FunctionCall { id, name, arguments, call_id }
            &&& arguments == arguments_for(all_tool_deltas(chunks_read(polls)), k)
            &&& forall|n: Seq<char>| #[trigger]
                last_name_is(all_tool_deltas(chunks_read(polls)), k, n) ==> name == n
            &&& forall|n: Seq<char>| #[trigger]
                last_id_is(all_tool_deltas(chunks_read(polls)), k, n) ==> call_id == n
        }),
{
    let deltas = all_tool_deltas(chunks_read(polls));
    let h = history(polls);
    tool_calls_are_put_together(polls);
    response_id_is_the_first_told(polls);
    arguments_add_up(Map::empty(), deltas, k);
    the_last_name_and_id_stay(Map::empty(), deltas, k);
    assert(Seq::<char>::empty() + arguments_for(deltas, k) == arguments_for(deltas, k));
    assert(polls.push(poll).drop_last() == polls);
    let keys = the_end_gives_all_there_is(h.state, poll);
    assert(keys.contains(k));
    let n = choose|n: int| 0 <= n < keys.len() && keys[n] == k;
    let key = keys[n];
    let first: int = if h.state.item_added {
        1
    } else {
        0
    };
    let out = chat::step(h.state, poll).out;
    let i = h.sent.len() + first + 2 * n;
    let sent = history(polls.push(poll)).sent;
    assert(sent == h.sent + out);
    assert(sent[i] == out[first + 2 * n]);
    assert(sent[i + 1] == out[first + 2 * n + 1]);
    i
}

/// Whether some deltas bring a name for the call of index `k`, last of all the name `name`.
pub open spec fn last_name_is(deltas: Seq<ToolDeltaView>, k: usize, name: Seq<char>) -> bool {
    exists|i: int|
        0 <= i < deltas.len() && (#[trigger] deltas[i]).index == k && deltas[i].name == Some(name)
            && forall|j: int|
            i < j < deltas.len() && (#[trigger] deltas[j]).index == k ==> deltas[j].name is None
}

/// Whether some deltas bring an id for the call of index `k`, last of all the id `id`.
pub open spec fn last_id_is(deltas: Seq<ToolDeltaView>, k: usize, id: Seq<char>) -> bool {
    exists|i: int|
        0 <= i < deltas.len() && (#[trigger] deltas[i]).index == k && deltas[i].id == Some(id)
            && forall|j: int|
            i < j < deltas.len() && (#[trigger] deltas[j]).index == k ==> deltas[j].id is None
}

/// After any list of deltas a call has the last name that a delta of its index brought, and the last
/// id. Where none brought one it has the one that it had, or an empty one if it is new. Nothing else
/// that deltas bring matters to either.
pub proof fn the_last_name_and_id_stay(
    calls: Map<usize, ToolCallView>,
    deltas: Seq<ToolDeltaView>,
    k: usize,
)
    requires
        calls.contains_key(k) || mentions(deltas, k),
    ensures
        ({
            let after = chat::with_tool_deltas(calls, deltas);
            &&& after.contains_key(k)
            &&& forall|name: Seq<char>| #[trigger]
                last_name_is(deltas, k, name) ==> after[k].name == name
            &&& forall|id: Seq<char>| #[trigger] last_id_is(deltas, k, id) ==> after[k].id == id
            &&& (forall|j: int|
                0 <= j < deltas.len() && (#[trigger] deltas[j]).index == k ==> deltas[j].name is None)
                ==> after[k].name == (if calls.contains_key(k) {
                calls[k].name
            } else {
                Seq::empty()
            })
            &&& (forall|j: int|
                0 <= j < deltas.len() && (#[trigger] deltas[j]).index == k ==> deltas[j].id is None)
                ==> after[k].id == (if calls.contains_key(k) {
                calls[k].id
            } else {
                Seq::empty()
            })
        }),
    decreases deltas.len(),
{
    let after = chat::with_tool_deltas(calls, deltas);
    arguments_add_up(calls, deltas, k);
    if deltas.len() > 0 {
        let short = deltas.drop_last();
        let last = deltas.last();
        let before = chat::with_tool_deltas(calls, short);
        assert(deltas[deltas.len() - 1] == last);
        arguments_add_up(calls, short, k);
        if calls.contains_key(k) || mentions(short, k) {
            the_last_name_and_id_stay(calls, short, k);
        } else {
            assert(last.index == k) by {
                let i = choose|i: int| 0 <= i < deltas.len() && (#[trigger] deltas[i]).index == k;
                if i < short.len() {
                    assert(short[i].index == k);
                }
            }
        }
        assert forall|j: int| 0 <= j < short.len() implies #[trigger] short[j] == deltas[j] by {}
        assert forall|name: Seq<char>| #[trigger] last_name_is(deltas, k, name) implies after[k].name
            == name by {
            let i = choose|i: int|
                0 <= i < deltas.len() && (#[trigger] deltas[i]).index == k && deltas[i].name == Some(
                    name,
                ) && forall|j: int|
                    i < j < deltas.len() && (#[trigger] deltas[j]).index == k ==> deltas[j].name
                        is None;
            if i < short.len() {
                assert(short[i].index == k);
                assert(forall|j: int|
                    i < j < short.len() && (#[trigger] short[j]).index == k ==> deltas[j].name
                        is None);
                assert(last_name_is(short, k, name));
                assert(mentions(short, k));
            }
        }
        assert forall|id: Seq<char>| #[trigger] last_id_is(deltas, k, id) implies after[k].id
            == id by {
            let i = choose|i: int|
                0 <= i < deltas.len() && (#[trigger] deltas[i]).index == k && deltas[i].id == Some(
                    id,
                ) && forall|j: int|
                    i < j < deltas.len() && (#[trigger] deltas[j]).index == k ==> deltas[j].id
                        is None;
            if i < short.len() {
                assert(short[i].index == k);
                assert(forall|j: int|
                    i < j < short.len() && (#[trigger] short[j]).index == k ==> deltas[j].id
                        is None);
                assert(last_id_is(short, k, id));
                assert(mentions(short, k));
            }
        }
        if forall|j: int|
            0 <= j < deltas.len() && (#[trigger] deltas[j]).index == k ==> deltas[j].name is None {
            assert(forall|j: int|
                0 <= j < short.len() && (#[trigger] short[j]).index == k ==> deltas[j].name is None);
        }
        if forall|j: int|
            0 <= j < deltas.len() && (#[trigger] deltas[j]).index == k ==> deltas[j].id is None {
            assert(forall|j: int|
                0 <= j < short.len() && (#[trigger] short[j]).index == k ==> deltas[j].id is None);
        }
    }
}

/// A fragment of a tool call changes only what it brings: an id or a name takes the place of the one
/// that was there, and arguments go behind those that were there.
pub proof fn fragments_change_what_they_bring(
    before: ToolCallAccumulator,
    delta: ToolCallDelta,
    after: ToolCallAccumulator,
)
    requires
        after@ == chat::extended_tool_call(before@, delta@),
    ensures
        match delta.id {
            Some(id) => after.id@ == id@,
            None => after.id@ == before.id@,
        },
        match delta.function {
            Some(function) => {
                &&& match function.name {
                    Some(name) => after.name@ == name@,
                    None => after.name@ == before.name@,
                }
                &&& match function.arguments {
                    Some(arguments) => after.arguments@ == before.arguments@ + arguments@,
                    None => after.arguments@ == before.arguments@,
                }
            },
            None => after.name@ == before.name@ && after.arguments@ == before.arguments@,
        },
{
}

/// A chunk without choices tells the response's id, if none is known yet, and token counts, if it has
/// any. Nothing else changes and nothing is sent.
pub proof fn chunks_without_choices_send_nothing(s: StreamView, data: Seq<char>, chunk: ChunkView)
    requires
        !chat::is_done_mark(data),
        chunk.choices.len() == 0,
    ensures
        ({
            let st = chat::step(s, chunk_poll(data, chunk));
            &&& !st.stop && st.out.len() == 0
            &&& st.state.response_id == (if s.response_id.len() > 0 {
                s.response_id
            } else {
                chunk.id
            })
            &&& match chunk.usage {
                Some(usage) => st.state.last_usage matches Some(counts) && counts.input_tokens
                    == usage.prompt_tokens && counts.output_tokens == usage.completion_tokens
                    && counts.total_tokens == usage.total_tokens && counts.cached_input_tokens == 0
                    && counts.reasoning_output_tokens == 0,
                None => st.state.last_usage == s.last_usage,
            }
            &&& st.state.content == s.content && st.state.reasoning == s.reasoning
            &&& st.state.item_added == s.item_added && st.state.thinking == s.thinking
            &&& st.state.tool_calls == s.tool_calls
        }),
{
}

/// The first chunk with choices sends the assistant's message, empty and under the response's id,
/// which has to be delivered; but for that it does what it does once the message is announced.
pub proof fn announcing_comes_before_the_choices(s: StreamView, data: Seq<char>, chunk: ChunkView)
    requires
        !chat::is_done_mark(data),
        chunk.choices.len() > 0,
        !s.item_added,
    ensures
        ({
            let st = chat::step(s, chunk_poll(data, chunk));
            let then = chat::step(StreamView { item_added: true, ..s }, chunk_poll(data, chunk));
            let id = if s.response_id.len() > 0 {
                s.response_id
            } else {
                chunk.id
            };
            &&& st.state == then.state && st.state.item_added && !st.stop
            &&& st.out.len() == then.out.len() + 1
            &&& st.out.drop_first() == then.out
            &&& st.out[0].must_deliver
            &&& st.out[0].event == Ok::<EventView, ErrorView>(
                EventView::OutputItemAdded(
                    ItemView::Message {
                        id: Some("msg_"@ + id),
                        role: "assistant"@,
                        content: seq![ContentView::OutputText { text: Seq::empty() }],
                        end_turn: None,
                        phase: None,
                    },
                ),
            )
        }),
{
    let announced = StreamView { item_added: true, ..s };
    let a = chat::after_chunk_header(s, chunk);
    let b = chat::after_chunk_header(announced, chunk);
    assert(a.state == b.state);
    let rest = chat::after_choices(a.state, chunk.choices);
    lemma_choices_emit_deltas(a.state, chunk.choices);
    assert(b.out + rest.out == rest.out);
    assert((a.out + rest.out).drop_first() == rest.out);
}

/// It does not matter to a stream whether choices come in one chunk or in two.
pub proof fn choices_may_come_in_two_chunks(
    s: StreamView,
    data: Seq<char>,
    id: Seq<char>,
    a: Seq<ChoiceView>,
    b: Seq<ChoiceView>,
    usage: Option<ChatCompletionUsage>,
)
    requires
        !chat::is_done_mark(data),
    ensures
        ({
            let both = chat::step(s, chunk_poll(data, ChunkView { id, choices: a + b, usage }));
            let first = chat::step(s, chunk_poll(data, ChunkView { id, choices: a, usage }));
            let then = chat::step(
                first.state,
                chunk_poll(data, ChunkView { id, choices: b, usage: None }),
            );
            &&& both.state == then.state
            &&& both.out == first.out + then.out
        }),
{
    let whole = chat::after_chunk_header(s, ChunkView { id, choices: a + b, usage });
    let first = chat::after_chunk_header(s, ChunkView { id, choices: a, usage });
    if a.len() == 0 {
        assert(a + b == b);
        let then = chat::after_chunk_header(first.state, ChunkView { id, choices: b, usage: None });
        assert(whole.state == then.state);
        assert(whole.out == then.out);
        let rest = chat::after_choices(whole.state, b);
        assert(Seq::<EmissionView>::empty() + (whole.out + rest.out) == whole.out + rest.out);
        assert(first.out + Seq::<EmissionView>::empty() == Seq::<EmissionView>::empty());
    } else {
        assert(whole.state == first.state);
        lemma_choices_append(whole.state, a, b);
        lemma_choices_emit_deltas(whole.state, a);
        let mid = chat::after_choices(whole.state, a);
        let then = chat::after_chunk_header(mid.state, ChunkView { id, choices: b, usage: None });
        assert(then.state == mid.state);
        let rest = chat::after_choices(mid.state, b);
        assert(whole.out + (mid.out + rest.out) == (whole.out + mid.out) + (then.out + rest.out));
    }
}

/// Choices one list after the other.
proof fn lemma_choices_append(s: StreamView, a: Seq<ChoiceView>, b: Seq<ChoiceView>)
    ensures
        ({
            let first = chat::after_choices(s, a);
            let then = chat::after_choices(first.state, b);
            let both = chat::after_choices(s, a + b);
            both.state == then.state && both.out == first.out + then.out
        }),
    decreases b.len(),
{
    let first = chat::after_choices(s, a);
    if b.len() == 0 {
        assert(a + b == a);
        assert(first.out + Seq::<EmissionView>::empty() == first.out);
    } else {
        lemma_choices_append(s, a, b.drop_last());
        assert((a + b).drop_last() == a + b.drop_last());
        let mid = chat::after_choices(first.state, b.drop_last());
        let last = chat::after_choice(mid.state, b.last());
        assert(first.out + mid.out + last.out == first.out + (mid.out + last.out));
    }
}

/// What one choice does once the message is announced. Its own reasoning, `reasoning_content` before
/// `reasoning`, is sent first and as it is. Then come the thoughts in its content, one by one, and
/// then all the text in it as one delta, unless there is none; the text is kept and has to be
/// delivered. Tool call deltas are kept and send nothing. What is known of the response as a whole
/// stays.
pub proof fn a_choice_is_passed_on(s: StreamView, data: Seq<char>, id: Seq<char>, choice: ChoiceView)
    requires
        !chat::is_done_mark(data),
        s.item_added,
    ensures
        ({
            let st = chat::step(
                s,
                chunk_poll(data, ChunkView { id, choices: seq![choice], usage: None }),
            );
            let explicit = match choice.reasoning_content {
                Some(r) => Some(r),
                None => choice.reasoning,
            };
            let ps = match choice.content {
                Some(content) => think::pieces(content, s.thinking),
                None => Seq::empty(),
            };
            let (thoughts, said) = (think::thoughts_of(ps), think::text_of(ps));
            let first: int = if explicit is Some {
                1
            } else {
                0
            };
            &&& !st.stop
            &&& st.out.len() == first + thoughts.len() + (if said.len() > 0 {
                1int
            } else {
                0
            })
            &&& explicit matches Some(r) ==> passes_on(
                st.out[0],
                EventView::ReasoningSummaryDelta { delta: r, summary_index: 0 },
            )
            &&& forall|i: int|
                0 <= i < thoughts.len() ==> passes_on(
                    st.out[first + i],
                    EventView::ReasoningSummaryDelta {
                        delta: #[trigger] thoughts[i],
                        summary_index: 0,
                    },
                )
            &&& said.len() > 0 ==> st.out.last().must_deliver && st.out.last().event == Ok::<
                EventView,
                ErrorView,
            >(EventView::OutputTextDelta(said))
            &&& st.state.content == s.content + said
            &&& st.state.thinking == (match choice.content {
                Some(content) => think::thinking_after(content, s.thinking),
                None => s.thinking,
            })
            &&& st.state.tool_calls == chat::with_tool_deltas(s.tool_calls, choice.tool_calls)
            &&& st.state.item_added
            &&& st.state.last_usage == s.last_usage
            &&& st.state.response_id == (if s.response_id.len() > 0 {
                s.response_id
            } else {
                id
            })
        }),
{
    let chunk = ChunkView { id, choices: seq![choice], usage: None };
    let st = chat::step(s, chunk_poll(data, chunk));
    let a = chat::after_chunk_header(s, chunk);
    assert(seq![choice].drop_last() == Seq::<ChoiceView>::empty());
    let none = chat::after_choices(a.state, seq![choice].drop_last());
    assert(none.state == a.state && none.out == Seq::<EmissionView>::empty());
    let c = chat::after_choice(a.state, choice);
    let rest = chat::after_choices(a.state, seq![choice]);
    assert(rest.state == c.state);
    assert(rest.out == c.out);
    assert(st.out == c.out);
    let r = chat::after_reasoning(a.state, chat::explicit_reasoning(choice));
    let t = chat::after_content(r.state, choice.content);
    match choice.content {
        Some(content) => {
            let ps = think::pieces(content, s.thinking);
            let (thoughts, said) = (think::thoughts_of(ps), think::text_of(ps));
            assert(t.out == chat::reasoning_deltas(thoughts) + chat::text_delta(said));
            assert forall|i: int| 0 <= i < thoughts.len() implies passes_on(
                st.out[r.out.len() + i],
                EventView::ReasoningSummaryDelta { delta: #[trigger] thoughts[i], summary_index: 0 },
            ) by {
                assert(st.out[r.out.len() + i] == chat::reasoning_deltas(thoughts)[i]);
            }
        },
        None => {
            assert(think::thoughts_of(Seq::empty()) == Seq::<Seq<char>>::empty());
            assert(think::text_of(Seq::empty()) == Seq::<char>::empty());
            assert(s.content + Seq::<char>::empty() == s.content);
        },
    }
}

/// A stream of which nothing has arrived knows nothing and stands outside any thought.
pub proof fn fresh_streams_know_nothing()
    ensures
        ({
            let s = chat::fresh_stream();
            &&& s.response_id.len() == 0 && s.content.len() == 0 && s.reasoning.len() == 0
            &&& s.last_usage is None && !s.item_added && !s.thinking
            &&& forall|k: usize| !(#[trigger] s.tool_calls.contains_key(k))
        }),
{
}

/// Token counts are reported as they came; none are made up for what a chunk does not count.
pub proof fn token_counts_are_kept(usage: ChatCompletionUsage)
    ensures
        ({
            let counts = chat::token_usage(usage);
            &&& counts.input_tokens == usage.prompt_tokens
            &&& counts.output_tokens == usage.completion_tokens
            &&& counts.total_tokens == usage.total_tokens
            &&& counts.cached_input_tokens == 0 && counts.reasoning_output_tokens == 0
        }),
{
}

} // verus!
