//! Tool calls in streams of chunks.
use openai_adapter::calls::CallIds;
use openai_adapter::error::OpenAIAdapterError;
use openai_adapter::tags::TagConfig;
use openai_adapter::tags::ToolCallTagConfig;
use openai_adapter::tags::TOOL_CALL_END;
use openai_adapter::tags::TOOL_CALL_START;
use openai_adapter::tool_stream::make_end_chunk;
use openai_adapter::tool_stream::Event;
use openai_adapter::tool_stream::Step;
use openai_adapter::tool_stream::ToolCallStream;
use openai_adapter::tool_stream::ToolParseState;
use openai_adapter::tool_stream::MAX_XML_BUF_LEN;
use openai_adapter::tool_stream::W;
use openai_adapter::types::make_chunk;
use openai_adapter::types::ChatCompletionsResponseChunk;
use openai_adapter::types::Delta;
use openai_adapter::types::ToolCall;
use openai_adapter::types::Usage;
use std::sync::Arc;

fn machine() -> ToolCallStream<()> {
    let cfg = TagConfig::from_config(&ToolCallTagConfig::default());
    ToolCallStream::new((), "m".to_string(), Arc::new(cfg), "id".to_string())
}

fn content(text: &str) -> ChatCompletionsResponseChunk {
    let delta = Delta { content: Some(text.to_string()), ..Delta::default() };
    make_chunk("m", delta, None, "c".to_string(), 7)
}

fn finish(reason: &'static str) -> ChatCompletionsResponseChunk {
    make_chunk("m", Delta::default(), Some(reason), "c".to_string(), 7)
}

fn usage() -> Usage {
    Usage {
        prompt_tokens: 1,
        completion_tokens: 2,
        total_tokens: 3,
        prompt_tokens_details: None,
        completion_tokens_details: None,
    }
}

/// What a consumer gets.
#[derive(Default)]
struct Output {
    text: String,
    calls: Vec<ToolCall>,
    finishes: Vec<String>,
    chunks: usize,
}

impl Output {
    fn take(&mut self, chunk: ChatCompletionsResponseChunk) {
        self.chunks += 1;
        for choice in chunk.choices {
            self.text.push_str(&choice.delta.content.unwrap_or_default());
            self.calls.extend(choice.delta.tool_calls.unwrap_or_default());
            self.finishes.extend(choice.finish_reason.map(|f| f.to_string()));
        }
    }
}

/// Runs the machine over some chunks and the end of the stream, as a driver does.
fn drive(chunks: Vec<ChatCompletionsResponseChunk>) -> Output {
    let mut machine = machine();
    let mut ids = CallIds::new();
    let mut inner = chunks.into_iter();
    let mut out = Output::default();
    loop {
        let event = match inner.next() {
            Some(chunk) => Event::Chunk(chunk),
            None => Event::Ended,
        };
        let mut step = machine.on_event(event, 9, &mut ids);
        if let Step::Drain(carried) = step {
            let event = match inner.next() {
                Some(chunk) => Event::Chunk(chunk),
                None => Event::Ended,
            };
            step = machine.on_drained(event, carried, 9);
        }
        match step {
            Step::Emit(chunk) => out.take(chunk),
            Step::Again => {}
            Step::End => return out,
            other => panic!("{other:?}"),
        }
    }
}

fn cut(text: &str, size: usize) -> Vec<ChatCompletionsResponseChunk> {
    let chars: Vec<char> = text.chars().collect();
    chars.chunks(size).map(|c| content(&c.iter().collect::<String>())).collect()
}

fn block(inner: &str) -> String {
    format!("{TOOL_CALL_START}{inner}{TOOL_CALL_END}")
}

fn window(machine: &ToolCallStream<()>) -> &str {
    match &machine.state {
        ToolParseState::Detecting { buffer } => buffer,
        other => panic!("{other:?}"),
    }
}

#[test]
fn plain_text_passes_unchanged_however_it_is_cut() {
    let text = "用户问：什么是 <|tool 标签？ It is a tag of <|tool_calls and more, 🔍 and so on.".repeat(4);
    for size in [1, 2, 3, 7, 50, 1000] {
        let mut chunks = cut(&text, size);
        chunks.push(finish("stop"));
        let out = drive(chunks);
        assert_eq!(out.text, text);
        assert!(out.calls.is_empty());
        assert_eq!(out.finishes, ["stop"]);
        // Without a finish reason the end of the stream empties the window.
        assert_eq!(drive(cut(&text, size)).text, text);
    }
}

#[test]
fn calls_are_found_however_the_text_is_cut() {
    let text = format!("前文 before {}tail", block(r#"[{"name": "f", "arguments": {"x": "北京"}}]"#));
    for size in 1..80 {
        let out = drive(cut(&text, size));
        assert_eq!(out.text, "前文 before ", "size {size}");
        assert_eq!(out.calls.len(), 1);
        let f = out.calls[0].function.as_ref().unwrap();
        assert_eq!((f.name.as_str(), f.arguments.as_str()), ("f", r#"{"x":"北京"}"#));
        assert_eq!(out.finishes, ["tool_calls"]);
    }
}

#[test]
fn content_with_angle_brackets_is_collected_too() {
    let text = block(r#"[{"name": "write", "arguments": {"html": "<div><b>x</b></div>"}}]"#);
    for size in [1, 3, 10] {
        let out = drive(cut(&text, size));
        assert_eq!(out.calls[0].function.as_ref().unwrap().arguments, r#"{"html":"<div><b>x</b></div>"}"#);
    }
}

#[test]
fn window_keeps_its_width() {
    let mut machine = machine();
    let mut ids = CallIds::new();
    let text = "a".repeat(W);
    assert!(matches!(machine.on_event(Event::Chunk(content(&text)), 9, &mut ids), Step::Again));
    assert_eq!(window(&machine), text);
    match machine.on_event(Event::Chunk(content("bc")), 9, &mut ids) {
        Step::Emit(chunk) => assert_eq!(chunk.choices[0].delta.content.as_deref(), Some("aa")),
        other => panic!("{other:?}"),
    }
    assert_eq!(window(&machine).len(), W);
}

#[test]
fn window_does_not_cut_a_character() {
    let mut machine = machine();
    let mut ids = CallIds::new();
    let text = format!("北{}", "a".repeat(W - 1));
    // Two bytes more than the width, but the first character takes three.
    assert!(matches!(machine.on_event(Event::Chunk(content(&text)), 9, &mut ids), Step::Again));
    assert_eq!(window(&machine).len(), W + 2);
}

#[test]
fn chunks_without_choices_or_content_pass() {
    let mut machine = machine();
    let mut ids = CallIds::new();
    let mut bare = content("x");
    bare.choices.clear();
    assert!(matches!(machine.on_event(Event::Chunk(bare), 9, &mut ids), Step::Emit(_)));
    assert!(matches!(machine.on_event(Event::Chunk(content("")), 9, &mut ids), Step::Emit(_)));
    let role = make_chunk("m", Delta { role: Some("assistant"), ..Delta::default() }, None, "c".to_string(), 7);
    match machine.on_event(Event::Chunk(role), 9, &mut ids) {
        Step::Emit(chunk) => assert_eq!(chunk.choices[0].delta.role, Some("assistant")),
        other => panic!("{other:?}"),
    }
}

#[test]
fn errors_and_waiting_change_nothing() {
    let mut machine = machine();
    let mut ids = CallIds::new();
    machine.on_event(Event::Chunk(content("abc")), 9, &mut ids);
    assert!(matches!(machine.on_event(Event::Pending, 9, &mut ids), Step::Wait));
    match machine.on_event(Event::Failed(OpenAIAdapterError::Overloaded), 9, &mut ids) {
        Step::Fail(OpenAIAdapterError::Overloaded) => {}
        other => panic!("{other:?}"),
    }
    assert_eq!(window(&machine), "abc");
}

#[test]
fn finish_reason_empties_the_window() {
    let out = drive(vec![content("short"), finish("length")]);
    assert_eq!(out.text, "short");
    assert_eq!(out.finishes, ["length"]);
}

#[test]
fn finish_reason_becomes_tool_calls() {
    let mut last = content(&block(r#"[{"name":"f"}]"#));
    last.choices[0].finish_reason = Some("stop");
    let out = drive(vec![last]);
    assert_eq!(out.finishes, ["tool_calls", "tool_calls"]);
    let mut last = content(&block(r#"[{"name":"f"}]"#));
    last.choices[0].finish_reason = Some("length");
    assert_eq!(drive(vec![last]).finishes[0], "length");
}

#[test]
fn unclosed_block_is_parsed_when_the_message_finishes() {
    let start = format!("{TOOL_CALL_START}[{{\"name\":\"f\"}}]");
    let out = drive(vec![content(&start), finish("stop")]);
    assert_eq!(out.calls.len(), 1);
    assert_eq!(out.finishes[0], "tool_calls");
    let out = drive(vec![content(&start)]);
    assert_eq!(out.calls.len(), 1);
    assert_eq!(out.finishes[0], "tool_calls");
}

#[test]
fn unclosed_block_without_calls_is_text() {
    let text = format!("{TOOL_CALL_START}nothing here");
    let out = drive(vec![content(&text), finish("stop")]);
    assert_eq!(out.text, text);
    assert_eq!(out.finishes[0], "stop");
    let out = drive(vec![content(&text)]);
    assert_eq!(out.text, text);
}

#[test]
fn block_that_cannot_be_parsed_is_text() {
    let text = format!("a{}", block("no calls"));
    assert_eq!(drive(vec![content(&text)]).text, text);
    assert_eq!(drive(cut(&text, 5)).text, text);
}

#[test]
fn empty_pair_of_tags_is_dropped() {
    for pair in [block(""), block(" \n "), format!("<|tool_calls_begin|\n{TOOL_CALL_END}")] {
        let out = drive(vec![content(&pair), content("after")]);
        assert!(out.calls.is_empty());
        assert_eq!(out.text, "after");
        let out = drive(vec![content(&pair), finish("stop")]);
        assert!(out.calls.is_empty());
        assert_eq!((out.text.as_str(), out.finishes), ("", vec!["stop".to_string()]));
    }
    // The same pair in pieces.
    let mut chunks = cut(&block(" "), 7);
    chunks.push(finish("stop"));
    let out = drive(chunks);
    assert!(out.calls.is_empty() && out.text.is_empty());
}

#[test]
fn plain_stream_gives_no_calls() {
    let mut chunks = cut("no tags here, only text that is longer than the window of the machine is wide", 9);
    assert!(drive(chunks.clone()).calls.is_empty());
    chunks.push(finish("stop"));
    assert!(drive(chunks).calls.is_empty());
}

#[test]
fn nothing_follows_the_calls_but_the_end() {
    let calls = block("[{\"name\": \"f\"}]");
    let out = drive(vec![content(&calls), content("more"), content(&calls), content("x")]);
    assert_eq!((out.calls.len(), out.text.as_str()), (1, ""));
    assert_eq!(out.finishes, ["tool_calls"]);
}

#[test]
fn too_long_a_block_is_given_back() {
    let mut machine = machine();
    let mut ids = CallIds::new();
    machine.on_event(Event::Chunk(content(TOOL_CALL_START)), 9, &mut ids);
    let fits = "x".repeat(MAX_XML_BUF_LEN - TOOL_CALL_START.len());
    assert!(matches!(machine.on_event(Event::Chunk(content(&fits)), 9, &mut ids), Step::Again));
    match machine.on_event(Event::Chunk(content("y")), 9, &mut ids) {
        Step::Emit(chunk) => {
            let text = chunk.choices[0].delta.content.clone().unwrap();
            assert_eq!(text.len(), MAX_XML_BUF_LEN + 1);
            assert!(text.starts_with(TOOL_CALL_START) && text.ends_with('y'));
        }
        other => panic!("{other:?}"),
    }
    assert_eq!(window(&machine), "");
}

#[test]
fn keepalive_is_due_while_a_block_is_collected() {
    let mut machine = machine();
    let mut ids = CallIds::new();
    assert!(machine.keepalive(5000, 9).is_none());
    machine.on_event(Event::Chunk(content(TOOL_CALL_START)), 9, &mut ids);
    assert!(machine.keepalive(999, 9).is_none());
    let chunk = machine.keepalive(1000, 9).unwrap();
    assert_eq!(chunk.id, "chatcmpl-keepalive");
    assert_eq!(chunk.created, 9);
    assert_eq!(chunk.choices[0].delta.content.as_deref(), Some(""));
    assert!(chunk.choices[0].finish_reason.is_none());
}

#[test]
fn content_behind_the_calls_is_dropped() {
    let out = drive(vec![
        content(&block(r#"[{"name":"f"}]"#)),
        content("made up"),
        content("results"),
        content("more"),
    ]);
    assert_eq!(out.text, "");
    assert_eq!(out.calls.len(), 1);
    assert_eq!(out.finishes, ["tool_calls"]);
}

#[test]
fn usage_behind_the_calls_is_passed_on() {
    let mut machine = machine();
    let mut ids = CallIds::new();
    machine.on_event(Event::Chunk(content(&block(r#"[{"name":"f"}]"#))), 9, &mut ids);
    assert!(matches!(machine.on_event(Event::Chunk(content("x")), 9, &mut ids), Step::Drain(None)));
    let mut meta = content("y");
    meta.usage = Some(usage());
    match machine.on_drained(Event::Chunk(meta), None, 9) {
        Step::Emit(chunk) => {
            assert_eq!(chunk.id, "id");
            assert_eq!(chunk.usage.unwrap().total_tokens, 3);
        }
        other => panic!("{other:?}"),
    }
    assert!(matches!(machine.on_drained(Event::Chunk(content("z")), None, 9), Step::Again));
}

#[test]
fn message_is_ended_once() {
    let mut machine = machine();
    let mut ids = CallIds::new();
    machine.on_event(Event::Chunk(content(&block(r#"[{"name":"f"}]"#))), 9, &mut ids);
    let mut last = finish("stop");
    last.usage = Some(usage());
    let carried = match machine.on_event(Event::Chunk(last), 9, &mut ids) {
        Step::Drain(carried) => carried,
        other => panic!("{other:?}"),
    };
    assert_eq!(carried.unwrap().total_tokens, 3);
    match machine.on_drained(Event::Pending, carried, 9) {
        Step::Emit(chunk) => {
            assert_eq!(chunk.choices[0].finish_reason, Some("tool_calls"));
            assert_eq!(chunk.usage.unwrap().total_tokens, 3);
            assert_eq!((chunk.id.as_str(), chunk.created), ("id", 9));
        }
        other => panic!("{other:?}"),
    }
    assert!(machine.finish_emitted);
    assert!(matches!(machine.on_drained(Event::Ended, carried, 9), Step::End));
    assert!(matches!(machine.on_event(Event::Ended, 9, &mut ids), Step::End));
}

#[test]
fn stream_that_cannot_be_cut_is_a_fault() {
    let mut machine = machine();
    let mut ids = CallIds::new();
    assert!(matches!(machine.on_event(Event::Chunk(content(&block("x} {"))), 9, &mut ids), Step::Fault));
    assert_eq!(window(&machine), "");
}

#[test]
fn end_chunk_has_one_choice() {
    let chunk = make_end_chunk("m", Delta::default(), "stop", "id", 5);
    assert_eq!(chunk.object, "chat.completion.chunk");
    assert_eq!(chunk.choices.len(), 1);
    assert_eq!(chunk.choices[0].finish_reason, Some("stop"));
    assert_eq!((chunk.id.as_str(), chunk.model.as_str(), chunk.created), ("id", "m", 5));
}
