//! Frames of the provider turned into chunks.
use openai_adapter::converter::contains_hallucination;
use openai_adapter::converter::contains_safe_marker;
use openai_adapter::converter::estimate;
use openai_adapter::converter::make_usage;
use openai_adapter::converter::make_usage_chunk;
use openai_adapter::converter::search_markdown;
use openai_adapter::converter::ConverterStream;
use openai_adapter::converter::DsFrame;
use openai_adapter::converter::Event;
use openai_adapter::converter::SearchResult;
use openai_adapter::converter::Step;
use openai_adapter::error::OpenAIAdapterError;
use openai_adapter::types::ChatCompletionsResponseChunk;

fn converter(include_usage: bool) -> ConverterStream<()> {
    ConverterStream::new((), "m".to_string(), include_usage, false, 10, "id".to_string())
}

fn emitted(step: Step) -> ChatCompletionsResponseChunk {
    match step {
        Step::Emit(chunk) => chunk,
        other => panic!("{other:?}"),
    }
}

fn frame(c: &mut ConverterStream<()>, f: DsFrame) -> Step {
    let event = Event::Frame(f);
    assert!(c.fits(&event));
    c.on_event(event, 5)
}

fn think(text: &str) -> DsFrame {
    DsFrame::ThinkDelta(text.to_string())
}

fn say(text: &str) -> DsFrame {
    DsFrame::ContentDelta(text.to_string())
}

fn finished() -> DsFrame {
    DsFrame::Status("FINISHED".to_string())
}

#[test]
fn new_converter_remembers_nothing() {
    let c = ConverterStream::new(3u8, "m".to_string(), true, true, 10, "id".to_string());
    assert_eq!(c.inner, 3);
    assert!(c.include_usage && c.include_obfuscation);
    assert!(!c.finished && !c.has_content && !c.suppress_content);
    assert_eq!((c.prompt_tokens, c.total_output_chars, c.usage_value), (10, 0, None));
    assert!(c.fallback_content.is_none());
}

#[test]
fn role_brings_the_prompt_tokens() {
    let chunk = emitted(frame(&mut converter(false), DsFrame::Role));
    assert_eq!(chunk.choices[0].delta.role, Some("assistant"));
    let usage = chunk.usage.unwrap();
    assert_eq!((usage.prompt_tokens, usage.completion_tokens, usage.total_tokens), (10, 0, 10));
    assert_eq!((chunk.id.as_str(), chunk.model.as_str(), chunk.created), ("id", "m", 5));
}

#[test]
fn thinking_is_reasoning_content() {
    let mut c = converter(false);
    let chunk = emitted(frame(&mut c, think("思考")));
    assert_eq!(chunk.choices[0].delta.reasoning_content.as_deref(), Some("思考"));
    assert_eq!(chunk.choices[0].delta.content, None);
    assert_eq!(c.total_output_chars, 2);
}

#[test]
fn thinking_alone_becomes_the_content() {
    let mut c = converter(false);
    frame(&mut c, think("a"));
    frame(&mut c, think("b"));
    let chunk = emitted(frame(&mut c, finished()));
    assert_eq!(chunk.choices[0].delta.content.as_deref(), Some("ab"));
    assert_eq!(chunk.choices[0].finish_reason, Some("stop"));
    assert!(chunk.usage.is_none());
    assert!(c.fallback_content.is_none());
}

#[test]
fn thinking_stays_thinking_beside_an_answer() {
    let mut c = converter(false);
    frame(&mut c, think("a"));
    frame(&mut c, say("answer"));
    let chunk = emitted(frame(&mut c, finished()));
    assert_eq!(chunk.choices[0].delta.content, None);
    // The other ways to finish do not fall back on the thinking.
    let mut c = converter(false);
    frame(&mut c, think("a"));
    assert_eq!(emitted(frame(&mut c, DsFrame::Finish)).choices[0].delta.content, None);
}

#[test]
fn search_results_are_a_numbered_list() {
    let result = |t: &str, u: &str| SearchResult { title: t.to_string(), url: u.to_string() };
    let list = vec![result("A", "http://a"), result("乙", "http://b")];
    let md = "🔍 **搜索结果:**\n\n1. [A](http://a)\n2. [乙](http://b)\n\n";
    assert_eq!(search_markdown(&list), md);
    assert_eq!(search_markdown(&vec![]), "🔍 **搜索结果:**\n\n\n");
    let chunk = emitted(frame(&mut converter(false), DsFrame::SearchResults(list)));
    assert_eq!(chunk.choices[0].delta.reasoning_content.as_deref(), Some(md));
    let many: Vec<SearchResult> = (0..11).map(|_| result("x", "y")).collect();
    assert!(search_markdown(&many).ends_with("10. [x](y)\n11. [x](y)\n\n"));
}

#[test]
fn made_up_tool_calls_are_marked() {
    for s in ["**Tool Call: x", "..Status: Completed", "Web search results for query: y", "Terminal:\n```sh"] {
        assert!(contains_hallucination(s));
    }
    assert!(!contains_hallucination("Terminal: ```"));
    assert!(contains_safe_marker("x<|tool_calls_begin|>"));
    assert!(contains_safe_marker("<|tool\u{2581}calls"));
    assert!(!contains_safe_marker("<|tool_call|>"));
}

#[test]
fn made_up_tool_calls_are_dropped_until_a_true_tag() {
    let mut c = converter(false);
    assert!(matches!(frame(&mut c, say("hello")), Step::Emit(_)));
    assert!(matches!(frame(&mut c, say("**Tool Call: x")), Step::Again));
    assert!(c.suppress_content);
    assert!(matches!(frame(&mut c, say("more")), Step::Again));
    // Thinking goes on.
    assert!(matches!(frame(&mut c, think("t")), Step::Emit(_)));
    let chunk = emitted(frame(&mut c, say("<|tool_calls_begin|>")));
    assert_eq!(chunk.choices[0].delta.content.as_deref(), Some("<|tool_calls_begin|>"));
    assert!(!c.suppress_content);
    // A mark and a true tag in one piece: it passes.
    assert!(matches!(frame(&mut c, say("**Tool Call: <|tool_calls_begin|>")), Step::Emit(_)));
    assert!(matches!(frame(&mut c, say("tail")), Step::Emit(_)));
}

#[test]
fn dropped_content_is_no_content() {
    let mut c = converter(false);
    frame(&mut c, think("t"));
    frame(&mut c, say("Status: Completed"));
    let chunk = emitted(frame(&mut c, finished()));
    assert_eq!(chunk.choices[0].delta.content.as_deref(), Some("t"));
}

#[test]
fn converted_message_is_ended_once() {
    let mut c = converter(false);
    assert!(matches!(frame(&mut c, DsFrame::Status("WIP".to_string())), Step::Again));
    assert!(matches!(frame(&mut c, finished()), Step::Emit(_)));
    assert!(matches!(frame(&mut c, finished()), Step::Again));
    assert!(matches!(frame(&mut c, DsFrame::Finish), Step::Again));
    assert!(matches!(c.on_event(Event::Ended, 5), Step::End));
}

#[test]
fn early_end_ends_the_message() {
    let mut c = converter(true);
    let chunk = emitted(c.on_event(Event::Ended, 5));
    assert_eq!(chunk.choices[0].finish_reason, Some("stop"));
    assert_eq!(chunk.usage.unwrap().completion_tokens, 1);
    assert!(matches!(c.on_event(Event::Ended, 5), Step::End));
}

#[test]
fn reported_usage_is_given_at_once_and_at_the_end() {
    let mut c = converter(true);
    let chunk = emitted(frame(&mut c, DsFrame::Usage(7)));
    assert!(chunk.choices.is_empty());
    assert_eq!(chunk.usage.unwrap().total_tokens, 17);
    let chunk = emitted(frame(&mut c, DsFrame::Finish));
    assert_eq!(chunk.usage.unwrap().completion_tokens, 7);
    assert_eq!(c.usage_value, None);
    assert!(matches!(frame(&mut converter(true), DsFrame::Usage(0)), Step::Again));
    assert!(matches!(frame(&mut converter(false), DsFrame::Usage(7)), Step::Again));
}

#[test]
fn missing_usage_is_estimated() {
    assert_eq!(estimate(0), 1);
    assert_eq!(estimate(5), 1);
    assert_eq!(estimate(6), 2);
    assert_eq!(estimate(3000), 1000);
    let mut c = converter(true);
    frame(&mut c, say("123456789"));
    frame(&mut c, DsFrame::Usage(0));
    let chunk = emitted(frame(&mut c, finished()));
    assert_eq!(chunk.usage.unwrap().completion_tokens, 3);
    // Characters count, not bytes.
    let mut c = converter(true);
    frame(&mut c, say("一二三四五六"));
    assert_eq!(emitted(frame(&mut c, finished())).usage.unwrap().completion_tokens, 2);
}

#[test]
fn usage_reported_late_is_given_first() {
    let mut c = converter(true);
    frame(&mut c, DsFrame::Finish);
    assert!(c.take_late_usage(5).is_none());
    frame(&mut c, DsFrame::Usage(0));
    let chunk = c.take_late_usage(5).unwrap();
    assert_eq!(chunk.usage.unwrap().total_tokens, 10);
    assert!(c.take_late_usage(5).is_none());
    frame(&mut c, DsFrame::Usage(4));
    let chunk = emitted(c.on_event(Event::Ended, 5));
    assert_eq!(chunk.usage.unwrap().total_tokens, 14);
    assert!(matches!(c.on_event(Event::Ended, 5), Step::End));
    assert!(converter(true).take_late_usage(5).is_none());
}

#[test]
fn sums_that_do_not_fit_are_seen_before() {
    let mut c = converter(true);
    c.prompt_tokens = u32::MAX - 1;
    assert!(c.fits(&Event::Frame(DsFrame::Usage(1))));
    assert!(!c.fits(&Event::Frame(DsFrame::Usage(2))));
    assert!(c.fits(&Event::Frame(finished())));
    c.total_output_chars = usize::MAX;
    assert!(!c.fits(&Event::Frame(say("x"))));
    assert!(!c.fits(&Event::Frame(finished())));
    assert!(c.fits(&Event::Frame(say(""))));
    assert!(c.reportable(1) && !c.reportable(2));
}

#[test]
fn errors_and_waiting_pass() {
    let mut c = converter(false);
    assert!(matches!(c.on_event(Event::Pending, 5), Step::Wait));
    match c.on_event(Event::Failed(OpenAIAdapterError::Internal("x".to_string())), 5) {
        Step::Fail(OpenAIAdapterError::Internal(t)) => assert_eq!(t, "x"),
        other => panic!("{other:?}"),
    }
}

#[test]
fn usage_chunk_has_no_choices() {
    let usage = make_usage(2, 3);
    assert_eq!(usage.total_tokens, 5);
    let chunk = make_usage_chunk(usage, "m", "id".to_string(), 8);
    assert!(chunk.choices.is_empty());
    assert_eq!(chunk.object, "chat.completion.chunk");
    assert_eq!((chunk.id.as_str(), chunk.model.as_str(), chunk.created), ("id", "m", 8));
}
