# openai_adapter

A verified library for an adapter between the OpenAI chat protocol and a provider that answers
in frames.

- `src/` is the library, verified with Verus.
  - `types`, `error`: the values that flow through the pipeline.
  - `text`, `search`: characters, bytes, searching, trimming and replacing.
  - `json`: what is taken from `serde_json`.
  - `repair`: repairs of almost-JSON text.
  - `tags`, `calls`, `blocks`, `invoke`, `tool_parser`: tool calls in a complete text.
  - `tool_stream`: tool calls in a stream of chunks, as a state machine.
  - `converter`: frames of the provider turned into chunks, as a state machine.
  - `tokens`: the tokens of a prompt, counted with `tiktoken_rs`.
  - `adapter`, `chat_flow`: older request fields, retries, and the pool of accounts.
  - the modules whose names end in `_laws`: what holds of the others.
- `tests/` runs the library with the outside crates linked.
- `app/` drives the state machines: it polls streams, waits, locks and logs.

Where the text of a model's output cannot be cut at a place at which parsing has to cut it (a tag
of several bytes in the configuration, an offset inside a character), the parser reports a fault;
`app/` panics there.
