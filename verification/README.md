# codex_api

The logic of a client for chat-completions services, written and proved in Verus.

- `src/endpoint/chat.rs` turns a conversation and its tools into a chat request, and sets the header
  fields that go with it.
- `src/endpoint/models.rs` asks for a provider's models and reads its answer.
- `src/sse/chat.rs` reads the event stream that answers a chat request, one event at a time: it says
  what to hand to the reader and when the stream is over.
- `src/sse/think.rs` tells the thoughts in a model's text from the text itself.
- `src/endpoint/laws.rs` and `src/sse/laws.rs` state what holds of requests, lists and streams as a
  whole.
- `src/headers.rs` and `src/json.rs` hold what is relied on of the `http` and `serde_json` crates.

The library performs no I/O. `app/` holds the clients that do: they send what the library builds, and
turn what arrives into the library's values.
