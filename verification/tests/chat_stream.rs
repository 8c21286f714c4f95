use codex_api::protocol::{ApiError, ContentItem, ResponseEvent, ResponseItem, TokenUsage};
use codex_api::sse::chat::{
    is_done, payload, process_chat_sse, ChatCompletionChoice, ChatCompletionChunk, ChatCompletionDelta,
    ChatCompletionUsage, ChatStream, Emission, SsePoll, ToolCallAccumulator, ToolCallDelta,
    ToolCallFunctionDelta, EVENT_CAPACITY,
};
use codex_api::sse::think::split_thoughts;

fn delta() -> ChatCompletionDelta {
    ChatCompletionDelta {
        role: None,
        content: None,
        tool_calls: None,
        reasoning_content: None,
        reasoning: None,
    }
}

fn choice(delta: ChatCompletionDelta) -> ChatCompletionChoice {
    ChatCompletionChoice {
        delta,
        finish_reason: None,
    }
}

fn chunk(id: &str, deltas: Vec<ChatCompletionDelta>) -> ChatCompletionChunk {
    ChatCompletionChunk {
        id: id.to_string(),
        choices: deltas.into_iter().map(choice).collect(),
        usage: None,
    }
}

fn content(text: &str) -> ChatCompletionDelta {
    ChatCompletionDelta {
        content: Some(text.to_string()),
        ..delta()
    }
}

fn tool(index: usize, id: Option<&str>, name: Option<&str>, arguments: Option<&str>) -> ToolCallDelta {
    ToolCallDelta {
        index,
        id: id.map(str::to_string),
        function: Some(ToolCallFunctionDelta {
            name: name.map(str::to_string),
            arguments: arguments.map(str::to_string),
        }),
    }
}

fn tools(calls: Vec<ToolCallDelta>) -> ChatCompletionDelta {
    ChatCompletionDelta {
        tool_calls: Some(calls),
        ..delta()
    }
}

fn event(chunk: ChatCompletionChunk) -> SsePoll {
    SsePoll::Event {
        data: "{}".to_string(),
        chunk: Some(chunk),
    }
}

fn done() -> SsePoll {
    SsePoll::Event {
        data: " [DONE]\r\n".to_string(),
        chunk: None,
    }
}

fn message(id: Option<&str>, text: &str, end_turn: Option<bool>) -> ResponseItem {
    ResponseItem::Message {
        id: id.map(str::to_string),
        role: "assistant".to_string(),
        content: vec![ContentItem::OutputText {
            text: text.to_string(),
        }],
        end_turn,
        phase: None,
    }
}

fn function_call(id: &str, name: &str, arguments: &str) -> ResponseItem {
    ResponseItem::FunctionCall {
        id: None,
        name: name.to_string(),
        arguments: arguments.to_string(),
        call_id: id.to_string(),
    }
}

fn text(delta: &str) -> ResponseEvent {
    ResponseEvent::OutputTextDelta(delta.to_string())
}

fn thought(delta: &str) -> ResponseEvent {
    ResponseEvent::ReasoningSummaryDelta {
        delta: delta.to_string(),
        summary_index: 0,
    }
}

fn added(item: ResponseItem) -> ResponseEvent {
    ResponseEvent::OutputItemAdded(item)
}

fn item_done(item: ResponseItem) -> ResponseEvent {
    ResponseEvent::OutputItemDone(item)
}

fn completed(id: &str) -> ResponseEvent {
    ResponseEvent::Completed {
        response_id: id.to_string(),
        token_usage: None,
    }
}

fn events(emissions: Vec<Emission>) -> Vec<Result<ResponseEvent, ApiError>> {
    emissions.into_iter().map(|e| e.event).collect()
}

fn run(polls: Vec<SsePoll>) -> Vec<Result<ResponseEvent, ApiError>> {
    let mut stream = ChatStream::new();
    let mut sent = Vec::new();
    for poll in &polls {
        let step = process_chat_sse(&mut stream, poll);
        sent.extend(events(step.emissions));
        if step.stop {
            break;
        }
    }
    sent
}

fn ok(events: Vec<ResponseEvent>) -> Vec<Result<ResponseEvent, ApiError>> {
    events.into_iter().map(Ok).collect()
}

fn failed(message: &str) -> Vec<Result<ResponseEvent, ApiError>> {
    vec![Err(ApiError::Stream(message.to_string()))]
}

#[test]
fn text_is_streamed_and_then_given_as_a_whole() {
    let sent = run(vec![
        event(chunk("r1", vec![content("Hel")])),
        event(chunk("r1", vec![content("lo")])),
        done(),
    ]);
    assert_eq!(
        sent,
        ok(vec![
            added(message(Some("msg_r1"), "", None)),
            text("Hel"),
            text("lo"),
            item_done(message(None, "Hello", Some(true))),
            completed("r1"),
        ])
    );
}

#[test]
fn a_stream_that_closes_ends_like_one_that_is_marked_done() {
    let polls = |end: SsePoll| vec![event(chunk("r", vec![content("x")])), end];
    assert_eq!(run(polls(SsePoll::Closed)), run(polls(done())));
}

#[test]
fn a_stream_without_chunks_has_failed() {
    assert_eq!(run(vec![done()]), failed("stream closed without chunks"));
    assert_eq!(
        run(vec![SsePoll::Closed]),
        failed("stream closed without chunks")
    );
}

#[test]
fn a_chunk_without_choices_announces_no_message() {
    assert_eq!(
        run(vec![event(chunk("r", vec![])), done()]),
        ok(vec![completed("r")])
    );
}

#[test]
fn the_first_id_that_says_something_stays() {
    let sent = run(vec![
        event(chunk("", vec![content("a")])),
        event(chunk("r1", vec![])),
        event(chunk("r2", vec![])),
        done(),
    ]);
    assert_eq!(
        sent,
        ok(vec![
            added(message(Some("msg_"), "", None)),
            text("a"),
            item_done(message(None, "a", Some(true))),
            completed("r1"),
        ])
    );
}

#[test]
fn a_timeout_ends_the_stream() {
    let sent = run(vec![SsePoll::TimedOut, done()]);
    assert_eq!(sent, failed("idle timeout waiting for SSE"));
}

#[test]
fn a_failure_ends_the_stream_with_its_message() {
    let sent = run(vec![SsePoll::Failed("broken pipe".to_string()), done()]);
    assert_eq!(sent, failed("broken pipe"));
}

#[test]
fn events_that_cannot_be_read_are_skipped() {
    let unreadable = || SsePoll::Event {
        data: "nonsense".to_string(),
        chunk: None,
    };
    let mut stream = ChatStream::new();
    let step = process_chat_sse(&mut stream, &unreadable());
    assert!(step.emissions.is_empty());
    assert!(!step.stop);
    let with = run(vec![
        event(chunk("r", vec![content("a")])),
        unreadable(),
        done(),
    ]);
    assert_eq!(with, run(vec![event(chunk("r", vec![content("a")])), done()]));
}

#[test]
fn thoughts_are_taken_out_of_the_text() {
    let sent = run(vec![
        event(chunk("r", vec![content("a<think>b</think>c<think>d")])),
        event(chunk("r", vec![content("e</think>f")])),
        done(),
    ]);
    assert_eq!(
        sent,
        ok(vec![
            added(message(Some("msg_r"), "", None)),
            thought("b"),
            thought("d"),
            text("ac"),
            thought("e"),
            text("f"),
            item_done(message(None, "acf", Some(true))),
            completed("r"),
        ])
    );
}

#[test]
fn a_tag_cut_in_two_is_plain_text() {
    let sent = run(vec![
        event(chunk("r", vec![content("<thi")])),
        event(chunk("r", vec![content("nk>x")])),
        done(),
    ]);
    assert_eq!(
        sent,
        ok(vec![
            added(message(Some("msg_r"), "", None)),
            text("<thi"),
            text("nk>x"),
            item_done(message(None, "<think>x", Some(true))),
            completed("r"),
        ])
    );
}

#[test]
fn content_cut_outside_tags_says_the_same() {
    let whole = split_thoughts("a<think>bc</think>d", false);
    let first = split_thoughts("a<think>b", false);
    let second = split_thoughts("c</think>d", first.thinking);
    assert_eq!(format!("{}{}", first.text, second.text), whole.text);
    assert_eq!(
        first.thoughts.concat() + &second.thoughts.concat(),
        whole.thoughts.concat()
    );
    assert_eq!(second.thinking, whole.thinking);
}

#[test]
fn content_is_split_at_the_tags_that_end_its_pieces() {
    let split = split_thoughts("</think>\u{e9}<think><think>x</think>", false);
    assert_eq!(split.text, "</think>\u{e9}");
    assert_eq!(split.thoughts, vec!["<think>x"]);
    assert!(!split.thinking);

    let split = split_thoughts("", true);
    assert_eq!(split.text, "");
    assert!(split.thoughts.is_empty());
    assert!(split.thinking);

    let split = split_thoughts("<think></think>", false);
    assert_eq!(split.text, "");
    assert!(split.thoughts.is_empty());
    assert!(!split.thinking);

    let split = split_thoughts("<<think>a<</think>", false);
    assert_eq!(split.text, "<");
    assert_eq!(split.thoughts, vec!["a<"]);
}

#[test]
fn explicit_reasoning_is_passed_on_before_content() {
    let sent = run(vec![
        event(chunk(
            "r",
            vec![
                ChatCompletionDelta {
                    reasoning_content: Some("one".to_string()),
                    reasoning: Some("not this".to_string()),
                    content: Some("x".to_string()),
                    ..delta()
                },
                ChatCompletionDelta {
                    reasoning: Some(String::new()),
                    content: Some(String::new()),
                    ..delta()
                },
            ],
        )),
        done(),
    ]);
    assert_eq!(
        sent,
        ok(vec![
            added(message(Some("msg_r"), "", None)),
            thought("one"),
            text("x"),
            thought(""),
            item_done(message(None, "x", Some(true))),
            completed("r"),
        ])
    );
}

#[test]
fn tool_calls_are_put_together_and_come_in_order() {
    let sent = run(vec![
        event(chunk(
            "r",
            vec![tools(vec![
                tool(7, Some("c7"), Some("old"), Some("{")),
                tool(2, Some("c2"), Some("two"), None),
            ])],
        )),
        event(chunk(
            "r",
            vec![tools(vec![
                tool(7, None, Some("seven"), Some("}")),
                ToolCallDelta {
                    index: 3,
                    id: None,
                    function: None,
                },
            ])],
        )),
        done(),
    ]);
    assert_eq!(
        sent,
        ok(vec![
            added(message(Some("msg_r"), "", None)),
            item_done(message(None, "", Some(false))),
            added(function_call("c2", "two", "")),
            item_done(function_call("c2", "two", "")),
            added(function_call("", "", "")),
            item_done(function_call("", "", "")),
            added(function_call("c7", "seven", "{}")),
            item_done(function_call("c7", "seven", "{}")),
            completed("r"),
        ])
    );
}

#[test]
fn arguments_add_up_however_they_are_cut() {
    let mut call = ToolCallAccumulator::new();
    call.extend(&tool(0, Some("a"), None, Some("{\"k\"")));
    call.extend(&tool(0, Some("b"), Some("f"), Some(":1}")));
    call.extend(&tool(0, None, None, None));
    assert_eq!(call.function_call(), function_call("b", "f", "{\"k\":1}"));
}

#[test]
fn the_last_token_counts_are_reported() {
    let counted = |n: i64| ChatCompletionChunk {
        usage: Some(ChatCompletionUsage {
            prompt_tokens: n,
            completion_tokens: 2 * n,
            total_tokens: 3 * n,
        }),
        ..chunk("r", vec![])
    };
    let sent = run(vec![
        event(counted(1)),
        event(counted(10)),
        event(chunk("r", vec![])),
        done(),
    ]);
    assert_eq!(
        sent,
        ok(vec![ResponseEvent::Completed {
            response_id: "r".to_string(),
            token_usage: Some(TokenUsage {
                input_tokens: 10,
                cached_input_tokens: 0,
                output_tokens: 20,
                reasoning_output_tokens: 0,
                total_tokens: 30,
            }),
        }])
    );
}

#[test]
fn token_counts_are_converted() {
    let usage: TokenUsage = ChatCompletionUsage {
        prompt_tokens: -1,
        completion_tokens: 5,
        total_tokens: 9,
    }
    .into();
    assert_eq!(
        usage,
        TokenUsage {
            input_tokens: -1,
            cached_input_tokens: 0,
            output_tokens: 5,
            reasoning_output_tokens: 0,
            total_tokens: 9,
        }
    );
}

#[test]
fn only_the_message_and_its_text_have_to_be_delivered() {
    let mut stream = ChatStream::new();
    let step = process_chat_sse(
        &mut stream,
        &event(chunk("r", vec![content("a<think>b</think>")])),
    );
    let required: Vec<bool> = step.emissions.iter().map(|e| e.must_deliver).collect();
    assert_eq!(required, vec![true, false, true]);
    assert!(step.emissions[0].halts(false));
    assert!(!step.emissions[0].halts(true));
    assert!(!step.emissions[1].halts(false));
    let end = process_chat_sse(&mut stream, &done());
    assert!(end.stop);
    assert!(end.emissions.iter().all(|e| !e.must_deliver));
}

#[test]
fn a_stream_is_announced_before_it_is_read() {
    let created = ChatStream::created();
    assert_eq!(created.event, Ok(ResponseEvent::Created));
    assert!(!created.must_deliver);
    assert_eq!(EVENT_CAPACITY, 1600);
}

#[test]
fn data_is_read_without_the_space_around_it() {
    assert_eq!(payload("  {\"a\": 1}\n"), "{\"a\": 1}");
    assert_eq!(payload("[DONE]"), "[DONE]");
}

#[test]
fn the_end_mark_has_to_stand_alone() {
    assert!(is_done("\t[DONE]\n"));
    let mut stream = ChatStream::new();
    for data in ["[done]", "[DONE] x", "[DONE", ""] {
        let step = process_chat_sse(
            &mut stream,
            &SsePoll::Event {
                data: data.to_string(),
                chunk: None,
            },
        );
        assert!(!step.stop);
        assert!(!is_done(data));
    }
}

#[test]
fn the_message_is_announced_with_the_first_choices() {
    let sent = run(vec![
        event(chunk("", vec![])),
        event(chunk("r1", vec![])),
        event(chunk("r2", vec![delta()])),
        event(chunk("r3", vec![delta()])),
        SsePoll::Closed,
    ]);
    assert_eq!(
        sent,
        ok(vec![
            added(message(Some("msg_r1"), "", None)),
            item_done(message(None, "", Some(true))),
            completed("r1"),
        ])
    );
}

#[test]
fn a_message_without_a_response_id_ends_in_failure() {
    let sent = run(vec![event(chunk("", vec![content("a")])), done()]);
    let mut expected = ok(vec![added(message(Some("msg_"), "", None)), text("a")]);
    expected.extend(failed("stream closed without chunks"));
    assert_eq!(sent, expected);
}

#[test]
fn what_follows_the_end_mark_is_ignored() {
    let begin = || event(chunk("r", vec![content("a")]));
    let more = vec![
        begin(),
        done(),
        event(chunk("r", vec![content("b")])),
        SsePoll::TimedOut,
    ];
    assert_eq!(run(more), run(vec![begin(), done()]));
}

#[test]
fn an_end_mark_counts_even_if_it_came_with_a_chunk() {
    let marked = SsePoll::Event {
        data: "[DONE]".to_string(),
        chunk: Some(chunk("late", vec![content("x")])),
    };
    assert_eq!(
        run(vec![event(chunk("r", vec![])), marked]),
        ok(vec![completed("r")])
    );
}

#[test]
fn text_deltas_say_something_and_the_message_is_finished_once() {
    let sent = run(vec![
        event(chunk("r", vec![content(""), content("<think>a</think>"), content("b")])),
        event(chunk("r", vec![tools(vec![tool(0, Some("c"), Some("f"), None)])])),
        done(),
    ]);
    let texts: Vec<&str> = sent
        .iter()
        .filter_map(|e| match e {
            Ok(ResponseEvent::OutputTextDelta(text)) => Some(text.as_str()),
            _ => None,
        })
        .collect();
    assert_eq!(texts, vec!["b"]);
    let finished = sent
        .iter()
        .filter(|e| {
            matches!(
                e,
                Ok(ResponseEvent::OutputItemDone(ResponseItem::Message { .. }))
            )
        })
        .count();
    assert_eq!(finished, 1);
}
