use codex_api::endpoint::chat::{
    chat_completion_request, chat_message, chat_messages_for, chat_tool, chat_tools,
    configure_stream_request, conversation_headers, encoding_error, joined_text, path,
    ChatMessageWithToolCalls, ResponsesApiRequest, StreamOptions,
};
use codex_api::headers::{header_text, merged, turn_state, MOST_NAMES, SURE_NAMES};
use codex_api::protocol::{ApiError, ContentItem, FunctionCallOutputPayload, ResponseItem};
use codex_api::request::{request_compression, Compression, Request, RequestCompression};
use http::{HeaderMap, HeaderName, HeaderValue};
use serde_json::Value;

fn json(text: &str) -> Value {
    serde_json::from_str(text).unwrap()
}

fn message(role: &str, content: Vec<ContentItem>) -> ResponseItem {
    ResponseItem::Message {
        id: None,
        role: role.to_string(),
        content,
        end_turn: None,
        phase: None,
    }
}

fn input(text: &str) -> ContentItem {
    ContentItem::InputText {
        text: text.to_string(),
    }
}

fn output(text: &str) -> ContentItem {
    ContentItem::OutputText {
        text: text.to_string(),
    }
}

fn image() -> ContentItem {
    ContentItem::InputImage {
        image_url: "data:image/png".to_string(),
    }
}

fn call(id: &str, name: &str, arguments: &str) -> ResponseItem {
    ResponseItem::FunctionCall {
        id: Some("fc".to_string()),
        name: name.to_string(),
        arguments: arguments.to_string(),
        call_id: id.to_string(),
    }
}

fn tool_output(id: &str, text: Option<&str>) -> ResponseItem {
    ResponseItem::FunctionCallOutput {
        call_id: id.to_string(),
        output: FunctionCallOutputPayload {
            text: text.map(str::to_string),
        },
    }
}

fn describe(m: &ChatMessageWithToolCalls) -> String {
    let calls: Vec<String> = m
        .tool_calls
        .iter()
        .flatten()
        .map(|c| {
            format!(
                "{}:{}:{}:{}",
                c.id, c.call_type, c.function.name, c.function.arguments
            )
        })
        .collect();
    format!(
        "{}|{}|{}|{}",
        m.role,
        m.content.as_deref().unwrap_or("-"),
        calls.join(","),
        m.tool_call_id.as_deref().unwrap_or("-")
    )
}

#[test]
fn texts_are_joined_by_line_breaks_and_images_left_out() {
    assert_eq!(joined_text(&vec![]), "");
    assert_eq!(joined_text(&vec![image()]), "");
    assert_eq!(joined_text(&vec![input("a")]), "a");
    assert_eq!(
        joined_text(&vec![image(), input("a"), image(), output("b"), input("")]),
        "a\nb\n"
    );
    assert_eq!(joined_text(&vec![input(""), input("")]), "\n");
}

#[test]
fn each_kind_of_item_has_its_message() {
    let items = vec![
        message("user", vec![input("hi"), input("there")]),
        call("c1", "ls", "{\"p\":1}"),
        tool_output("c1", Some("out")),
        ResponseItem::Other,
        tool_output("c2", None),
    ];
    let said: Vec<String> = chat_messages_for("be good", &items)
        .iter()
        .map(describe)
        .collect();
    assert_eq!(
        said,
        vec![
            "system|be good||-",
            "user|hi\nthere||-",
            "assistant|-|c1:function:ls:{\"p\":1}|-",
            "tool|out||c1",
            "tool|||c2",
        ]
    );
    assert!(chat_message(&ResponseItem::Other).is_none());
}

#[test]
fn without_instructions_there_is_no_system_message() {
    assert!(chat_messages_for("", &vec![]).is_empty());
    assert_eq!(chat_messages_for(" ", &vec![]).len(), 1);
}

#[test]
fn a_longer_conversation_keeps_its_messages() {
    let short = vec![message("user", vec![input("1")])];
    let mut long = short.clone();
    long.push(ResponseItem::Other);
    long.push(message("assistant", vec![output("2")]));
    let a: Vec<String> = chat_messages_for("i", &short).iter().map(describe).collect();
    let b: Vec<String> = chat_messages_for("i", &long).iter().map(describe).collect();
    assert_eq!(b[..a.len()], a[..]);
    assert_eq!(b.len(), a.len() + 1);
}

#[test]
fn a_function_is_wrapped_and_keeps_its_fields() {
    let tool = json(
        r#"{"type": "function", "name": "ls", "description": "lists", "strict": false,
            "parameters": {"type": "object"}, "extra": 1}"#,
    );
    assert_eq!(
        chat_tool(&tool),
        Some(json(
            r#"{"type": "function", "function": {"name": "ls", "description": "lists",
                "strict": false, "parameters": {"type": "object"}}}"#
        ))
    );
}

#[test]
fn a_function_need_only_have_a_name() {
    assert_eq!(
        chat_tool(&json(r#"{"name": null, "type": "function"}"#)),
        Some(json(r#"{"type": "function", "function": {"name": null}}"#))
    );
}

#[test]
fn other_tools_are_left_out() {
    let tools = vec![
        json("null"),
        json("[]"),
        json(r#"{"name": "a"}"#),
        json(r#"{"type": 1, "name": "a"}"#),
        json(r#"{"type": "web_search", "name": "a"}"#),
        json(r#"{"type": "function"}"#),
        json(r#"{"type": "function", "name": "b"}"#),
        json(r#"{"type": "function", "name": "a"}"#),
    ];
    assert_eq!(
        chat_tools(&tools),
        vec![
            json(r#"{"type": "function", "function": {"name": "b"}}"#),
            json(r#"{"type": "function", "function": {"name": "a"}}"#),
        ]
    );
}

#[test]
fn converted_tools_are_not_converted_again() {
    let once = chat_tool(&json(r#"{"type": "function", "name": "a"}"#)).unwrap();
    assert_eq!(chat_tool(&once), None);
}

#[test]
fn lists_of_tools_are_converted_one_after_the_other() {
    let a = vec![json(r#"{"type": "function", "name": "a"}"#), json("1")];
    let b = vec![json(r#"{"type": "function", "name": "b"}"#)];
    let both: Vec<Value> = a.iter().chain(b.iter()).cloned().collect();
    let mut apart = chat_tools(&a);
    apart.extend(chat_tools(&b));
    assert_eq!(chat_tools(&both), apart);
}

#[test]
fn a_request_asks_for_token_counts() {
    let request = ResponsesApiRequest {
        model: "gpt".to_string(),
        instructions: "i".to_string(),
        input: vec![message("user", vec![input("hi")])],
        tools: vec![json(r#"{"type": "function", "name": "a"}"#)],
        stream: true,
    };
    let chat = chat_completion_request(&request);
    assert_eq!(chat.model, "gpt");
    assert!(chat.stream);
    assert_eq!(chat.max_tokens, None);
    assert_eq!(
        chat.stream_options,
        Some(StreamOptions {
            include_usage: true
        })
    );
    assert_eq!(chat.messages.len(), 2);
    assert_eq!(chat.tools.len(), 1);
}

#[test]
fn a_failed_encoding_is_told() {
    match encoding_error("why") {
        ApiError::Stream(message) => assert_eq!(message, "failed to encode chat request: why"),
    }
}

#[test]
fn chat_completions_have_their_path() {
    assert_eq!(path(), "chat/completions");
}

#[test]
fn conversation_headers_take_the_place_of_the_callers() {
    let mut extra = HeaderMap::new();
    extra.insert("x-own", HeaderValue::from_static("own"));
    extra.append("x-both", HeaderValue::from_static("old"));
    extra.append("x-both", HeaderValue::from_static("older"));
    let mut conversation = HeaderMap::new();
    conversation.append("x-both", HeaderValue::from_static("new"));
    conversation.append("x-both", HeaderValue::from_static("newer"));

    let headers = conversation_headers(extra, conversation, Some("review")).unwrap();

    let both: Vec<&HeaderValue> = headers.get_all("x-both").iter().collect();
    assert_eq!(both, vec!["new", "newer"]);
    assert_eq!(headers["x-own"], "own");
    assert_eq!(headers["x-openai-subagent"], "review");
    assert_eq!(headers.keys_len(), 3);
}

#[test]
fn a_subagent_that_cannot_be_a_header_is_left_out() {
    let headers =
        conversation_headers(HeaderMap::new(), HeaderMap::new(), Some("a\nb")).unwrap();
    assert!(headers.is_empty());
    let headers = conversation_headers(HeaderMap::new(), HeaderMap::new(), None).unwrap();
    assert!(headers.is_empty());
}

#[test]
fn a_subagent_takes_the_place_of_one_that_was_named() {
    let mut extra = HeaderMap::new();
    extra.insert("x-openai-subagent", HeaderValue::from_static("old"));
    let kept = conversation_headers(extra.clone(), HeaderMap::new(), Some("\u{7f}")).unwrap();
    assert_eq!(kept["x-openai-subagent"], "old");
    let headers = conversation_headers(extra, HeaderMap::new(), Some("n\u{e9}w")).unwrap();
    assert_eq!(headers["x-openai-subagent"].as_bytes(), "n\u{e9}w".as_bytes());
    assert_eq!(headers.len(), 1);
}

fn many(n: usize) -> HeaderMap {
    (0..n)
        .map(|i| {
            (
                HeaderName::from_bytes(format!("x-{i}").as_bytes()).unwrap(),
                HeaderValue::from_static("v"),
            )
        })
        .collect()
}

#[test]
fn a_great_many_headers_are_taken() {
    for n in [SURE_NAMES - 1, SURE_NAMES, SURE_NAMES + 1, 2 * SURE_NAMES] {
        let mut conversation = HeaderMap::new();
        conversation.insert("session-id", HeaderValue::from_static("c"));
        let headers = conversation_headers(many(n), conversation, Some("s")).unwrap();
        assert_eq!(headers.keys_len(), n + 2);
        assert_eq!(headers["session-id"], "c");
        assert_eq!(headers["x-openai-subagent"], "s");
        assert_eq!(headers["x-0"], "v");
    }
}

#[test]
fn headers_that_have_no_room_are_refused() {
    assert!(conversation_headers(many(MOST_NAMES), HeaderMap::new(), Some("s")).is_none());
    assert!(conversation_headers(many(MOST_NAMES), many(1), None).is_none());
    let headers = conversation_headers(many(MOST_NAMES), HeaderMap::new(), None).unwrap();
    assert_eq!(headers.keys_len(), MOST_NAMES);
}

fn of_two_values(name: &'static str) -> HeaderMap {
    let mut headers = HeaderMap::new();
    headers.append(name, HeaderValue::from_static("one"));
    headers.append(name, HeaderValue::from_static("two"));
    headers
}

#[test]
fn the_last_name_that_has_room_may_have_many_values() {
    let mut extended = many(MOST_NAMES - 1);
    extended.extend(of_two_values("session-id"));
    let headers =
        conversation_headers(many(MOST_NAMES - 1), of_two_values("session-id"), None).unwrap();
    assert_eq!(headers, extended);
    assert_eq!(headers.keys_len(), MOST_NAMES);
    let values: Vec<&HeaderValue> = headers.get_all("session-id").iter().collect();
    assert_eq!(values, vec!["one", "two"]);
    assert!(merged(headers, of_two_values("session-id")).is_none());
}

#[test]
fn large_maps_are_merged_as_they_are_extended() {
    let renamed = |n: usize| -> HeaderMap {
        (0..n)
            .flat_map(|i| {
                let name = HeaderName::from_bytes(format!("x-{}", 2 * i).as_bytes()).unwrap();
                [(name.clone(), HeaderValue::from_static("a")), (name, HeaderValue::from_static("b"))]
            })
            .collect()
    };
    for (n, m) in [(0, 9000), (7000, 7000), (12_288, 1), (100, 12_000)] {
        let mut extended = many(n);
        extended.extend(renamed(m));
        assert_eq!(merged(many(n), renamed(m)).unwrap(), extended);
    }
}

#[test]
fn merging_does_what_extending_does() {
    let mut a = many(3);
    a.append("x-1", HeaderValue::from_static("w"));
    let mut b = HeaderMap::new();
    for (name, value) in [("x-1", "p"), ("x-9", "q"), ("x-1", "r"), ("x-9", "s"), ("x-7", "t")] {
        b.append(
            HeaderName::from_static(name),
            HeaderValue::from_static(value),
        );
    }
    let mut extended = a.clone();
    extended.extend(b.clone());
    let all = merged(a.clone(), b).unwrap();
    assert_eq!(all, extended);
    let values: Vec<&HeaderValue> = all.get_all("x-1").iter().collect();
    assert_eq!(values, vec!["p", "r"]);
    assert_eq!(merged(a.clone(), HeaderMap::new()).unwrap(), a);
    assert_eq!(merged(HeaderMap::new(), a.clone()).unwrap(), a);
}

#[test]
fn a_stream_of_events_is_asked_for() {
    let mut req = Request {
        url: "u".to_string(),
        headers: HeaderMap::new(),
        compression: RequestCompression::Plain,
    };
    req.headers.append("accept", HeaderValue::from_static("a"));
    req.headers.append("accept", HeaderValue::from_static("b"));
    req.headers.insert("x-own", HeaderValue::from_static("own"));

    assert!(configure_stream_request(&mut req, Compression::Zstd));

    let accept: Vec<&HeaderValue> = req.headers.get_all("accept").iter().collect();
    assert_eq!(accept, vec!["text/event-stream"]);
    assert_eq!(req.headers["x-own"], "own");
    assert_eq!(req.headers.len(), 2);
    assert_eq!(req.compression, RequestCompression::Zstd);
    assert_eq!(req.url, "u");
}

#[test]
fn a_request_without_room_for_a_header_is_left_alone() {
    let with = |n: usize| Request {
        url: "u".to_string(),
        headers: many(n),
        compression: RequestCompression::Plain,
    };
    let mut req = with(MOST_NAMES);
    assert!(!configure_stream_request(&mut req, Compression::Zstd));
    assert_eq!(req.compression, RequestCompression::Plain);
    assert_eq!(req.headers, many(MOST_NAMES));

    let mut req = with(SURE_NAMES);
    assert!(configure_stream_request(&mut req, Compression::Zstd));
    assert_eq!(req.headers.keys_len(), SURE_NAMES + 1);
    assert_eq!(req.headers["accept"], "text/event-stream");
}

#[test]
fn compressions_have_their_counterparts() {
    assert_eq!(
        request_compression(Compression::Plain),
        RequestCompression::Plain
    );
    assert_eq!(
        request_compression(Compression::Zstd),
        RequestCompression::Zstd
    );
}

#[test]
fn the_turn_state_is_read_from_its_header() {
    let mut headers = HeaderMap::new();
    assert_eq!(turn_state(&headers), None);
    headers.append("X-Codex-Turn-State", HeaderValue::from_static("one\ttwo"));
    headers.append("x-codex-turn-state", HeaderValue::from_static("three"));
    assert_eq!(turn_state(&headers), Some("one\ttwo".to_string()));
    headers.insert(
        "x-codex-turn-state",
        HeaderValue::from_bytes(b"\xff").unwrap(),
    );
    assert_eq!(turn_state(&headers), None);
}

#[test]
fn other_headers_can_be_read_too() {
    let mut headers = HeaderMap::new();
    headers.insert("x-a", HeaderValue::from_static(""));
    assert_eq!(header_text(&headers, "x-a"), Some(String::new()));
    assert_eq!(header_text(&headers, "x-b"), None);
}
