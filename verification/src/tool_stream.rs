//! Tool calls in a stream of chunks.
//!
//! The machine looks for the start tag of a block of tool calls in a sliding window over the
//! content, collects the block up to its end tag, and puts the parsed calls in its place. After
//! that the content of later chunks is dropped.
//!
//! A driver asks the inner stream for what it has and hands it to the machine as an event; the
//! step that the machine gives says what to do next.
use crate::calls::lemma_nth_id_step;
use crate::calls::nth_id;
use crate::calls::CallIds;
use crate::error::OpenAIAdapterError;
use crate::search::find_char;
use crate::search::first_char;
use crate::search::lemma_find_char;
use crate::search::trim;
use crate::search::trimmed;
use crate::search::with_first_removed;
use crate::search::without_first;
use crate::tags::can_be_closed;
use crate::tags::find_end;
use crate::tags::find_start;
use crate::tags::is_start_tag;
use crate::tags::resembles_start;
use crate::tags::seek_end;
use crate::tags::seek_start;
use crate::tags::TagConfig;
use crate::text::byte_len;
use crate::text::chars_of;
use crate::text::chars_within;
use crate::text::count_within;
use crate::text::extend_chars;
use crate::text::joined;
use crate::text::len_in_bytes;
use crate::text::part;
use crate::text::text_of;
use crate::tool_parser::checked_parse_tool_calls;
use crate::tool_parser::closable;
use crate::tool_parser::parse_faults;
use crate::tool_parser::parse_ids;
use crate::tool_parser::parsed;
use crate::types::call_views;
use crate::types::empty_delta;
use crate::types::make_chunk;
use crate::types::one_choice_chunk;
use crate::types::opt_text;
use crate::types::set_calls;
use crate::types::set_content;
use crate::types::with_calls;
use crate::types::with_content;
use crate::types::ChatCompletionsResponseChunk;
use crate::types::ChunkView;
use crate::types::Delta;
use crate::types::DeltaView;
use crate::types::ToolCall;
use crate::types::Usage;
use std::sync::Arc;
use vstd::prelude::*;

verus! {

/// The width of the sliding window in bytes.
pub const W: usize = 71;

/// The most bytes that are collected for one block.
pub const MAX_XML_BUF_LEN: usize = 65536;

/// The time between two chunks that keep the connection alive, in milliseconds.
pub const KEEPALIVE_INTERVAL_MS: u64 = 1000;

/// The identifier of the chunks that keep the connection alive.
pub const KEEPALIVE_ID: &'static str = "chatcmpl-keepalive";

/// What the machine is doing.
#[derive(Debug)]
pub enum ToolParseState {
    /// Looking for a start tag; `buffer` is the window.
    Detecting { buffer: String },
    /// Collecting a block: `buf` begins with the start tag that was found.
    CollectingXml { buf: String, start_tag: String },
    /// Tool calls were given, or the message or the inner stream has ended. A stream that ended
    /// without tool calls is here too: asked on, it gives one more chunk that ends the message.
    Done,
}

/// What the machine is doing, as the contracts speak of it.
#[verifier::ext_equal]
pub enum StateView {
    Detecting(Seq<char>),
    Collecting(Seq<char>, Seq<char>),
    Done,
}

impl View for ToolParseState {
    type V = StateView;

    open spec fn view(&self) -> StateView {
        match self {
            ToolParseState::Detecting { buffer } => StateView::Detecting(buffer@),
            ToolParseState::CollectingXml { buf, start_tag } => StateView::Collecting(
                buf@,
                start_tag@,
            ),
            ToolParseState::Done => StateView::Done,
        }
    }
}

/// What the inner stream had.
#[derive(Debug)]
pub enum Event {
    Chunk(ChatCompletionsResponseChunk),
    Failed(OpenAIAdapterError),
    Ended,
    Pending,
}

/// What to do next.
#[derive(Debug)]
pub enum Step {
    /// Give the chunk to the consumer.
    Emit(ChatCompletionsResponseChunk),
    /// Give the error to the consumer.
    Fail(OpenAIAdapterError),
    /// Ask the inner stream again.
    Again,
    /// Ask the inner stream once more and hand the answer to `on_drained`, together with this.
    Drain(Option<Usage>),
    /// The stream is over.
    End,
    /// Nothing is there yet.
    Wait,
    /// The text cannot be cut where it has to be: the stream cannot go on.
    Fault,
}

/// What to do next, as the contracts speak of it.
#[verifier::ext_equal]
pub enum StepView {
    Emit(ChunkView),
    Fail(OpenAIAdapterError),
    Again,
    Drain(Option<Usage>),
    End,
    Wait,
    Fault,
}

impl View for Step {
    type V = StepView;

    open spec fn view(&self) -> StepView {
        match self {
            Step::Emit(c) => StepView::Emit(c@),
            Step::Fail(e) => StepView::Fail(*e),
            Step::Again => StepView::Again,
            Step::Drain(u) => StepView::Drain(*u),
            Step::End => StepView::End,
            Step::Wait => StepView::Wait,
            Step::Fault => StepView::Fault,
        }
    }
}

/// The new state, if it changes; the step; and the number of identifiers handed out in it.
#[verifier::ext_equal]
pub struct Outcome {
    pub state: Option<StateView>,
    pub step: StepView,
    pub ids: nat,
}

/// A fault changes nothing.
pub open spec fn fault() -> Outcome {
    Outcome { state: None, step: StepView::Fault, ids: 0 }
}

/// The state after an outcome.
pub open spec fn state_after(state: StateView, o: Outcome) -> StateView {
    match o.state {
        Some(s) => s,
        None => state,
    }
}

// ---------------------------------------------------------------------------------------
// What the machine does
// ---------------------------------------------------------------------------------------
/// How many characters of a window without a start tag are let go: those that leave at least
/// the window's width behind them.
pub open spec fn released(window: Seq<char>) -> nat {
    let bytes = byte_len(window);
    chars_within(
        window,
        if bytes > W {
            (bytes - W) as nat
        } else {
            0
        },
    )
}

/// The text, if there is any.
pub open spec fn nonempty(s: Seq<char>) -> Option<Seq<char>> {
    if s.len() == 0 {
        None
    } else {
        Some(s)
    }
}

/// `s` without the closing angle bracket that it begins with, if it does.
pub open spec fn without_bracket(s: Seq<char>) -> Seq<char> {
    if s.len() > 0 && s[0] == '>' {
        s.skip(1)
    } else {
        s
    }
}

/// Between two tags there is nothing but white characters. The start tag was found without its
/// closing angle bracket, which goes with it.
pub open spec fn empty_pair(
    collected: Seq<char>,
    start_tag: Seq<char>,
    end_tag: Seq<char>,
) -> bool {
    trim(without_first(without_bracket(without_first(collected, start_tag)), end_tag)).len() == 0
}

/// What becomes of a block that is complete: `before` is the text before it.
pub open spec fn closed_block(
    chunk: ChunkView,
    before: Seq<char>,
    collected: Seq<char>,
    start_tag: Seq<char>,
    end_tag: Seq<char>,
    first: u64,
    keep_empty: bool,
) -> Outcome {
    let ids = parse_ids(collected, seq![], seq![]);
    if parse_faults(collected, seq![], seq![]) {
        fault()
    } else {
        match parsed(collected, seq![], seq![], first) {
            Some((calls, _)) => Outcome {
                state: Some(StateView::Done),
                step: StepView::Emit(with_calls(chunk, nonempty(before), calls)),
                ids,
            },
            None => Outcome {
                state: Some(StateView::Detecting(seq![])),
                step: if empty_pair(collected, start_tag, end_tag) {
                    if keep_empty {
                        StepView::Emit(with_content(chunk, None))
                    } else {
                        StepView::Again
                    }
                } else {
                    StepView::Emit(with_content(chunk, Some(before + collected)))
                },
                ids,
            },
        }
    }
}

/// What the machine does with content while it looks for a start tag. `window` is the window
/// with the new content in it.
pub open spec fn detect(
    chunk: ChunkView,
    window: Seq<char>,
    starts: Seq<Seq<char>>,
    ends: Seq<Seq<char>>,
    first: u64,
) -> Outcome {
    match find_start(window, starts) {
        None => {
            let n = released(window) as int;
            Outcome {
                state: Some(StateView::Detecting(window.skip(n))),
                step: if n > 0 {
                    StepView::Emit(with_content(chunk, Some(window.take(n))))
                } else {
                    StepView::Again
                },
                ids: 0,
            }
        },
        Some((p, n)) => {
            let before = window.take(p);
            let rest = window.skip(p);
            let tag = rest.take(n);
            if !can_be_closed(tag) {
                fault()
            } else {
                match find_end(rest, n, starts, ends, Some(tag)) {
                    None => Outcome {
                        state: Some(StateView::Collecting(rest, tag)),
                        step: if before.len() == 0 {
                            StepView::Again
                        } else {
                            StepView::Emit(with_content(chunk, Some(before)))
                        },
                        ids: 0,
                    },
                    Some((q, m)) => {
                        let end_tag = rest.subrange(q, q + m);
                        if resembles_start(end_tag, starts) && trim(rest.subrange(n, q)).len()
                            == 0 {
                            Outcome {
                                state: Some(StateView::Collecting(rest, tag)),
                                step: StepView::Again,
                                ids: 0,
                            }
                        } else {
                            closed_block(
                                chunk,
                                before,
                                rest.take(q + m),
                                tag,
                                end_tag,
                                first,
                                false,
                            )
                        }
                    },
                }
            }
        },
    }
}

/// Where the content of a collected block begins: behind the first closing angle bracket.
pub open spec fn behind_tag(buf: Seq<char>) -> int {
    match find_char(buf, '>') {
        Some(i) => i + 1,
        None => 0,
    }
}

/// What the machine does with content while it collects a block. `buf` is what was collected,
/// with the new content.
pub open spec fn collect(
    chunk: ChunkView,
    buf: Seq<char>,
    tag: Seq<char>,
    starts: Seq<Seq<char>>,
    ends: Seq<Seq<char>>,
    first: u64,
) -> Outcome {
    if byte_len(buf) > MAX_XML_BUF_LEN {
        Outcome {
            state: Some(StateView::Detecting(seq![])),
            step: StepView::Emit(with_content(chunk, Some(buf))),
            ids: 0,
        }
    } else if !can_be_closed(tag) {
        fault()
    } else {
        let from = behind_tag(buf);
        match find_end(buf, from, starts, ends, Some(tag)) {
            None => Outcome {
                state: Some(StateView::Collecting(buf, tag)),
                step: StepView::Again,
                ids: 0,
            },
            Some((q, m)) => {
                let end_tag = buf.subrange(q, q + m);
                if resembles_start(end_tag, starts) && trim(buf.subrange(from, q)).len() == 0 {
                    Outcome {
                        state: Some(StateView::Collecting(buf, tag)),
                        step: StepView::Again,
                        ids: 0,
                    }
                } else {
                    closed_block(
                        chunk,
                        seq![],
                        buf.take(q + m),
                        tag,
                        end_tag,
                        first,
                        true,
                    )
                }
            },
        }
    }
}

/// What the machine does with a chunk that has no content.
pub open spec fn without_text(chunk: ChunkView, state: StateView, first: u64) -> Outcome {
    match state {
        StateView::Detecting(buffer) => if chunk.choices[0].finish_reason is Some && buffer.len()
            > 0 {
            Outcome {
                state: Some(StateView::Detecting(seq![])),
                step: StepView::Emit(with_content(chunk, Some(buffer))),
                ids: 0,
            }
        } else {
            Outcome { state: None, step: StepView::Emit(chunk), ids: 0 }
        },
        StateView::Collecting(buf, tag) => if chunk.choices[0].finish_reason is None {
            Outcome { state: None, step: StepView::Emit(chunk), ids: 0 }
        } else if parse_faults(buf, seq![], seq![]) {
            fault()
        } else {
            Outcome {
                state: Some(StateView::Done),
                step: StepView::Emit(
                    match parsed(buf, seq![], seq![], first) {
                        Some((calls, _)) => with_calls(chunk, None, calls),
                        None => with_content(chunk, Some(buf)),
                    },
                ),
                ids: parse_ids(buf, seq![], seq![]),
            }
        },
        StateView::Done => Outcome { state: None, step: StepView::Drain(chunk.usage), ids: 0 },
    }
}

/// What the machine does with a chunk.
pub open spec fn chunk_outcome(
    chunk: ChunkView,
    state: StateView,
    starts: Seq<Seq<char>>,
    ends: Seq<Seq<char>>,
    first: u64,
) -> Outcome {
    if chunk.choices.len() == 0 {
        Outcome { state: None, step: StepView::Emit(chunk), ids: 0 }
    } else {
        match chunk.choices[0].delta.content {
            None => without_text(chunk, state, first),
            Some(content) => if content.len() == 0 {
                Outcome { state: None, step: StepView::Emit(chunk), ids: 0 }
            } else {
                match state {
                    StateView::Detecting(buffer) => detect(
                        chunk,
                        buffer + content,
                        starts,
                        ends,
                        first,
                    ),
                    StateView::Collecting(buf, tag) => collect(
                        chunk,
                        buf + content,
                        tag,
                        starts,
                        ends,
                        first,
                    ),
                    StateView::Done => Outcome { state: None, step: StepView::Drain(None), ids: 0 },
                }
            },
        }
    }
}

/// The chunk that ends a message.
pub open spec fn end_chunk(
    model: Seq<char>,
    delta: DeltaView,
    finish: Seq<char>,
    id: Seq<char>,
    created: u64,
) -> ChunkView {
    one_choice_chunk(model, delta, Some(finish), id, created)
}

/// What the machine does when the inner stream is over.
pub open spec fn ended_outcome(
    state: StateView,
    finish_emitted: bool,
    model: Seq<char>,
    id: Seq<char>,
    created: u64,
    first: u64,
) -> Outcome {
    match state {
        StateView::Detecting(buffer) => Outcome {
            state: Some(StateView::Done),
            step: if buffer.len() > 0 {
                StepView::Emit(
                    end_chunk(
                        model,
                        DeltaView { content: Some(buffer), ..empty_delta() },
                        "stop"@,
                        id,
                        created,
                    ),
                )
            } else {
                StepView::End
            },
            ids: 0,
        },
        StateView::Collecting(buf, _) => if parse_faults(buf, seq![], seq![]) {
            fault()
        } else {
            Outcome {
                state: Some(StateView::Done),
                step: StepView::Emit(
                    match parsed(buf, seq![], seq![], first) {
                        Some((calls, _)) => end_chunk(
                            model,
                            DeltaView { tool_calls: Some(calls), ..empty_delta() },
                            "tool_calls"@,
                            id,
                            created,
                        ),
                        None => end_chunk(
                            model,
                            DeltaView { content: Some(buf), ..empty_delta() },
                            "stop"@,
                            id,
                            created,
                        ),
                    },
                ),
                ids: parse_ids(buf, seq![], seq![]),
            }
        },
        StateView::Done => Outcome {
            state: Some(StateView::Done),
            step: if finish_emitted {
                StepView::End
            } else {
                StepView::Emit(end_chunk(model, empty_delta(), "tool_calls"@, id, created))
            },
            ids: 0,
        },
    }
}

/// What the machine does with an event.
pub open spec fn event_outcome(
    event: Event,
    state: StateView,
    finish_emitted: bool,
    starts: Seq<Seq<char>>,
    ends: Seq<Seq<char>>,
    model: Seq<char>,
    id: Seq<char>,
    created: u64,
    first: u64,
) -> Outcome {
    match event {
        Event::Chunk(c) => chunk_outcome(c@, state, starts, ends, first),
        Event::Failed(e) => Outcome { state: None, step: StepView::Fail(e), ids: 0 },
        Event::Ended => ended_outcome(state, finish_emitted, model, id, created, first),
        Event::Pending => Outcome { state: None, step: StepView::Wait, ids: 0 },
    }
}

/// What the machine does with the answer to the second question, once tool calls were given.
/// A chunk is let through for its usage, or because it has no choices; the rest is dropped.
/// Where there is none, the message is ended, once.
pub open spec fn drained_step(
    event: Event,
    carried: Option<Usage>,
    finish_emitted: bool,
    model: Seq<char>,
    id: Seq<char>,
    created: u64,
) -> StepView {
    match event {
        Event::Chunk(c) => if c@.usage is Some || c@.choices.len() == 0 {
            StepView::Emit(ChunkView { id, ..c@ })
        } else {
            StepView::Again
        },
        _ => if finish_emitted {
            StepView::End
        } else {
            StepView::Emit(
                ChunkView {
                    usage: carried,
                    ..end_chunk(model, empty_delta(), "tool_calls"@, id, created)
                },
            )
        },
    }
}

/// Whether the chunk that ends a message with tool calls was given, after the inner stream had
/// something.
pub open spec fn ended_after(event: Event, state: StateView, finish_emitted: bool) -> bool {
    finish_emitted || (event is Ended && state is Done)
}

/// Whether it was given, after the answer to the second question.
pub open spec fn ended_after_drain(event: Event, finish_emitted: bool) -> bool {
    finish_emitted || !(event is Chunk)
}

/// A chunk that keeps the connection alive is due.
pub open spec fn keepalive_due(state: StateView, elapsed_ms: u64) -> bool {
    state is Collecting && elapsed_ms >= KEEPALIVE_INTERVAL_MS
}

/// The chunk that keeps the connection alive: it adds an empty text.
pub open spec fn keepalive_chunk(model: Seq<char>, created: u64) -> ChunkView {
    one_choice_chunk(
        model,
        DeltaView { content: Some(seq![]), ..empty_delta() },
        None,
        KEEPALIVE_ID@,
        created,
    )
}

// ---------------------------------------------------------------------------------------
// The machine
// ---------------------------------------------------------------------------------------
/// Makes the chunk that ends a message.
pub fn make_end_chunk(
    model: &str,
    delta: Delta,
    finish_reason: &'static str,
    id: &str,
    created: u64,
) -> (r: ChatCompletionsResponseChunk)
    ensures
        r@ == end_chunk(model@, delta@, finish_reason@, id@, created),
{
    make_chunk(model, delta, Some(finish_reason), id.to_owned(), created)
}

/// A stream of chunks in which tool calls are parsed. `inner` is where the chunks come from.
#[derive(Debug)]
pub struct ToolCallStream<S> {
    pub inner: S,
    pub state: ToolParseState,
    pub model: String,
    pub chatcmpl_id: String,
    /// Whether the chunk that ends a message with tool calls was given.
    pub finish_emitted: bool,
    pub tag_config: Arc<TagConfig>,
}

/// A new state, if it changes, and what to do next.
struct Move {
    state: Option<ToolParseState>,
    step: Step,
}

spec fn move_view(m: Move, ids: nat) -> Outcome {
    Outcome {
        state: match m.state {
            Some(s) => Some(s@),
            None => None,
        },
        step: m.step@,
        ids,
    }
}

fn stay(step: Step) -> (r: Move)
    ensures
        r.state is None,
        r.step == step,
{
    Move { state: None, step }
}

fn looking() -> (r: Option<ToolParseState>)
    ensures
        r matches Some(s) && s@ == StateView::Detecting(seq![]),
{
    Some(ToolParseState::Detecting { buffer: String::new() })
}

/// Handles a block that is complete.
fn close_block(
    chunk: ChatCompletionsResponseChunk,
    before: &[char],
    collected: &[char],
    start_tag: &[char],
    end_tag: &[char],
    keep_empty: bool,
    ids: &mut CallIds,
) -> (r: Move)
    requires
        chunk.choices@.len() > 0,
    ensures
        ({
            let o = closed_block(
                chunk@,
                before@,
                collected@,
                start_tag@,
                end_tag@,
                old(ids).next,
                keep_empty,
            );
            move_view(r, o.ids) == o && final(ids).next == nth_id(old(ids).next, o.ids)
        }),
{
    let ghost first = ids.next;
    proof {
        lemma_nth_id_step(first, 0);
    }
    match checked_parse_tool_calls(text_of(collected).as_str(), ids) {
        Err(_) => stay(Step::Fault),
        Ok(Some((calls, _))) => {
            let content = if before.len() == 0 {
                None
            } else {
                Some(text_of(before))
            };
            assert(opt_text(content) == nonempty(before@));
            Move {
                state: Some(ToolParseState::Done),
                step: Step::Emit(set_calls(chunk, content, calls)),
            }
        },
        Ok(None) => {
            let once = with_first_removed(collected, start_tag);
            let len: usize = once.len();
            let between = if len > 0 && once[0] == '>' {
                part(once.as_slice(), 1, len)
            } else {
                once.as_slice()
            };
            assert(between@ =~= without_bracket(once@));
            let twice = with_first_removed(between, end_tag);
            if trimmed(twice.as_slice()).len() == 0 {
                if keep_empty {
                    Move { state: looking(), step: Step::Emit(set_content(chunk, None)) }
                } else {
                    Move { state: looking(), step: Step::Again }
                }
            } else {
                let mut text: Vec<char> = Vec::new();
                extend_chars(&mut text, before);
                extend_chars(&mut text, collected);
                assert(text@ =~= before@ + collected@);
                Move {
                    state: looking(),
                    step: Step::Emit(set_content(chunk, Some(text_of(text.as_slice())))),
                }
            }
        },
    }
}

/// Handles content while a start tag is looked for.
fn detect_in(
    chunk: ChatCompletionsResponseChunk,
    window_text: String,
    cfg: &TagConfig,
    ids: &mut CallIds,
) -> (r: Move)
    requires
        chunk.choices@.len() > 0,
    ensures
        ({
            let o = detect(
                chunk@,
                window_text@,
                cfg.start_texts(),
                cfg.end_texts(),
                old(ids).next,
            );
            move_view(r, o.ids) == o && final(ids).next == nth_id(old(ids).next, o.ids)
        }),
{
    let ghost first = ids.next;
    proof {
        lemma_nth_id_step(first, 0);
    }
    let bytes: usize = len_in_bytes(window_text.as_str());
    let window = chars_of(window_text.as_str());
    let len: usize = window.len();
    match seek_start(window.as_slice(), cfg) {
        None => {
            let n: usize = count_within(
                window.as_slice(),
                if bytes > W {
                    bytes - W
                } else {
                    0
                },
            );
            assert(window@.subrange(n as int, len as int) =~= window@.skip(n as int));
            assert(window@.subrange(0, n as int) =~= window@.take(n as int));
            let state = Some(
                ToolParseState::Detecting { buffer: text_of(part(window.as_slice(), n, len)) },
            );
            if n > 0 {
                let out = text_of(part(window.as_slice(), 0, n));
                Move { state, step: Step::Emit(set_content(chunk, Some(out))) }
            } else {
                Move { state, step: Step::Again }
            }
        },
        Some((p, n)) => {
            let before = part(window.as_slice(), 0, p);
            let rest = part(window.as_slice(), p, len);
            let tag = part(rest, 0, n);
            assert(before@ =~= window@.take(p as int));
            assert(rest@ =~= window@.skip(p as int));
            assert(tag@ =~= rest@.take(n as int));
            if !closable(tag) {
                return stay(Step::Fault);
            }
            match seek_end(rest, n, cfg, Some(tag)) {
                None => {
                    let state = Some(
                        ToolParseState::CollectingXml {
                            buf: text_of(rest),
                            start_tag: text_of(tag),
                        },
                    );
                    if before.len() == 0 {
                        Move { state, step: Step::Again }
                    } else {
                        let out = text_of(before);
                        Move { state, step: Step::Emit(set_content(chunk, Some(out))) }
                    }
                },
                Some((q, m)) => {
                    let end_tag = part(rest, q, q + m);
                    if is_start_tag(text_of(end_tag).as_str(), cfg) && trimmed(
                        part(rest, n, q),
                    ).len() == 0 {
                        Move {
                            state: Some(
                                ToolParseState::CollectingXml {
                                    buf: text_of(rest),
                                    start_tag: text_of(tag),
                                },
                            ),
                            step: Step::Again,
                        }
                    } else {
                        assert(rest@.subrange(0, q + m) =~= rest@.take(q + m));
                        close_block(
                            chunk,
                            before,
                            part(rest, 0, q + m),
                            tag,
                            end_tag,
                            false,
                            ids,
                        )
                    }
                },
            }
        },
    }
}

/// Handles content while a block is collected.
fn collect_in(
    chunk: ChatCompletionsResponseChunk,
    buf_text: String,
    tag_text: &str,
    cfg: &TagConfig,
    ids: &mut CallIds,
) -> (r: Move)
    requires
        chunk.choices@.len() > 0,
    ensures
        ({
            let o = collect(
                chunk@,
                buf_text@,
                tag_text@,
                cfg.start_texts(),
                cfg.end_texts(),
                old(ids).next,
            );
            move_view(r, o.ids) == o && final(ids).next == nth_id(old(ids).next, o.ids)
        }),
{
    let ghost first = ids.next;
    proof {
        lemma_nth_id_step(first, 0);
        lemma_find_char(buf_text@, '>');
    }
    if len_in_bytes(buf_text.as_str()) > MAX_XML_BUF_LEN {
        return Move {
            state: looking(),
            step: Step::Emit(set_content(chunk, Some(buf_text))),
        };
    }
    let buf = chars_of(buf_text.as_str());
    let len: usize = buf.len();
    let tag = chars_of(tag_text);
    if !closable(tag.as_slice()) {
        return stay(Step::Fault);
    }
    let from: usize = match first_char(buf.as_slice(), '>') {
        Some(i) => i + 1,
        None => 0,
    };
    match seek_end(buf.as_slice(), from, cfg, Some(tag.as_slice())) {
        None => Move {
            state: Some(
                ToolParseState::CollectingXml { buf: buf_text, start_tag: tag_text.to_owned() },
            ),
            step: Step::Again,
        },
        Some((q, m)) => {
            let end_tag = part(buf.as_slice(), q, q + m);
            if is_start_tag(text_of(end_tag).as_str(), cfg) && trimmed(
                part(buf.as_slice(), from, q),
            ).len() == 0 {
                Move {
                    state: Some(
                        ToolParseState::CollectingXml {
                            buf: buf_text,
                            start_tag: tag_text.to_owned(),
                        },
                    ),
                    step: Step::Again,
                }
            } else {
                assert(buf@.subrange(0, q + m) =~= buf@.take(q + m));
                let nothing: Vec<char> = Vec::new();
                assert(nothing@ =~= seq![]);
                close_block(
                    chunk,
                    nothing.as_slice(),
                    part(buf.as_slice(), 0, q + m),
                    tag.as_slice(),
                    end_tag,
                    true,
                    ids,
                )
            }
        },
    }
}

/// Handles a chunk that has no content.
fn plain_in(
    chunk: ChatCompletionsResponseChunk,
    state: &ToolParseState,
    ids: &mut CallIds,
) -> (r: Move)
    requires
        chunk.choices@.len() > 0,
    ensures
        ({
            let o = without_text(chunk@, state@, old(ids).next);
            move_view(r, o.ids) == o && final(ids).next == nth_id(old(ids).next, o.ids)
        }),
{
    let ghost first = ids.next;
    proof {
        lemma_nth_id_step(first, 0);
    }
    let finishes = chunk.choices[0].finish_reason.is_some();
    match state {
        ToolParseState::Detecting { buffer } => {
            if finishes && chars_of(buffer.as_str()).len() > 0 {
                Move {
                    state: looking(),
                    step: Step::Emit(set_content(chunk, Some(buffer.clone()))),
                }
            } else {
                stay(Step::Emit(chunk))
            }
        },
        ToolParseState::CollectingXml { buf, start_tag: _ } => {
            if !finishes {
                return stay(Step::Emit(chunk));
            }
            match checked_parse_tool_calls(buf.as_str(), ids) {
                Err(_) => stay(Step::Fault),
                Ok(Some((calls, _))) => Move {
                    state: Some(ToolParseState::Done),
                    step: Step::Emit(set_calls(chunk, None, calls)),
                },
                Ok(None) => Move {
                    state: Some(ToolParseState::Done),
                    step: Step::Emit(set_content(chunk, Some(buf.clone()))),
                },
            }
        },
        ToolParseState::Done => stay(Step::Drain(chunk.usage)),
    }
}

/// Handles a chunk.
fn chunk_in(
    chunk: ChatCompletionsResponseChunk,
    state: &ToolParseState,
    cfg: &TagConfig,
    ids: &mut CallIds,
) -> (r: Move)
    ensures
        ({
            let o = chunk_outcome(
                chunk@,
                state@,
                cfg.start_texts(),
                cfg.end_texts(),
                old(ids).next,
            );
            move_view(r, o.ids) == o && final(ids).next == nth_id(old(ids).next, o.ids)
        }),
{
    let ghost first = ids.next;
    proof {
        lemma_nth_id_step(first, 0);
    }
    if chunk.choices.len() == 0 {
        return stay(Step::Emit(chunk));
    }
    let content: String = match &chunk.choices[0].delta.content {
        None => return plain_in(chunk, state, ids),
        Some(content) => content.clone(),
    };
    if chars_of(content.as_str()).len() == 0 {
        return stay(Step::Emit(chunk));
    }
    match state {
        ToolParseState::Detecting { buffer } => detect_in(
            chunk,
            joined(buffer.as_str(), content.as_str()),
            cfg,
            ids,
        ),
        ToolParseState::CollectingXml { buf, start_tag } => collect_in(
            chunk,
            joined(buf.as_str(), content.as_str()),
            start_tag.as_str(),
            cfg,
            ids,
        ),
        ToolParseState::Done => stay(Step::Drain(None)),
    }
}

/// A delta of some content.
fn content_delta(content: String) -> (r: Delta)
    ensures
        r@ == (DeltaView { content: Some(content@), ..empty_delta() }),
{
    Delta { role: None, content: Some(content), reasoning_content: None, tool_calls: None }
}

/// A delta of some tool calls.
fn calls_delta(calls: Vec<ToolCall>) -> (r: Delta)
    ensures
        r@ == (DeltaView { tool_calls: Some(call_views(calls@)), ..empty_delta() }),
{
    Delta { role: None, content: None, reasoning_content: None, tool_calls: Some(calls) }
}

/// Handles the end of the inner stream.
fn ended_in(
    state: &ToolParseState,
    finish_emitted: bool,
    model: &str,
    id: &str,
    created: u64,
    ids: &mut CallIds,
) -> (r: Move)
    ensures
        ({
            let o = ended_outcome(
                state@,
                finish_emitted,
                model@,
                id@,
                created,
                old(ids).next,
            );
            move_view(r, o.ids) == o && final(ids).next == nth_id(old(ids).next, o.ids)
        }),
{
    let ghost first = ids.next;
    proof {
        lemma_nth_id_step(first, 0);
    }
    let state_done = Some(ToolParseState::Done);
    match state {
        ToolParseState::Detecting { buffer } => {
            if chars_of(buffer.as_str()).len() > 0 {
                let delta = content_delta(buffer.clone());
                Move {
                    state: state_done,
                    step: Step::Emit(make_end_chunk(model, delta, "stop", id, created)),
                }
            } else {
                Move { state: state_done, step: Step::End }
            }
        },
        ToolParseState::CollectingXml { buf, start_tag: _ } => {
            match checked_parse_tool_calls(buf.as_str(), ids) {
                Err(_) => stay(Step::Fault),
                Ok(Some((calls, _))) => Move {
                    state: state_done,
                    step: Step::Emit(
                        make_end_chunk(model, calls_delta(calls), "tool_calls", id, created),
                    ),
                },
                Ok(None) => Move {
                    state: state_done,
                    step: Step::Emit(
                        make_end_chunk(model, content_delta(buf.clone()), "stop", id, created),
                    ),
                },
            }
        },
        ToolParseState::Done => {
            if finish_emitted {
                Move { state: state_done, step: Step::End }
            } else {
                Move {
                    state: state_done,
                    step: Step::Emit(
                        make_end_chunk(model, Delta::default(), "tool_calls", id, created),
                    ),
                }
            }
        },
    }
}

impl<S> ToolCallStream<S> {
    /// Begins with an empty window.
    pub fn new(inner: S, model: String, tag_config: Arc<TagConfig>, chatcmpl_id: String) -> (r: Self)
        ensures
            r.inner == inner,
            r.state@ == StateView::Detecting(seq![]),
            r.model == model,
            r.chatcmpl_id == chatcmpl_id,
            !r.finish_emitted,
            r.tag_config == tag_config,
    {
        ToolCallStream {
            inner,
            state: ToolParseState::Detecting { buffer: String::new() },
            model,
            chatcmpl_id,
            finish_emitted: false,
            tag_config,
        }
    }

    /// All but the state of the machine is the same.
    pub open spec fn same_settings(self, other: Self) -> bool {
        self.inner == other.inner && self.model == other.model && self.chatcmpl_id
            == other.chatcmpl_id && self.tag_config == other.tag_config
    }

    /// Takes an event and says what to do next. `created` is the time for a chunk that the
    /// machine makes itself.
    pub fn on_event(&mut self, event: Event, created: u64, ids: &mut CallIds) -> (r: Step)
        ensures
            ({
                let o = event_outcome(
                    event,
                    old(self).state@,
                    old(self).finish_emitted,
                    old(self).tag_config.start_texts(),
                    old(self).tag_config.end_texts(),
                    old(self).model@,
                    old(self).chatcmpl_id@,
                    created,
                    old(ids).next,
                );
                &&& final(self).state@ == state_after(old(self).state@, o)
                &&& r@ == o.step
                &&& final(ids).next == nth_id(old(ids).next, o.ids)
            }),
            final(self).finish_emitted == (old(self).finish_emitted || (event is Ended && old(
                self,
            ).state@ is Done)),
            final(self).finish_emitted == ended_after(
                event,
                old(self).state@,
                old(self).finish_emitted,
            ),
            final(self).same_settings(*old(self)),
    {
        let ghost first = ids.next;
        proof {
            lemma_nth_id_step(first, 0);
        }
        let Move { state, step } = match event {
            Event::Chunk(chunk) => chunk_in(chunk, &self.state, &self.tag_config, ids),
            Event::Failed(e) => stay(Step::Fail(e)),
            Event::Ended => {
                let finish_emitted = self.finish_emitted;
                if let ToolParseState::Done = &self.state {
                    self.finish_emitted = true;
                }
                ended_in(
                    &self.state,
                    finish_emitted,
                    self.model.as_str(),
                    self.chatcmpl_id.as_str(),
                    created,
                    ids,
                )
            },
            Event::Pending => stay(Step::Wait),
        };
        if let Some(state) = state {
            self.state = state;
        }
        step
    }

    /// Takes the answer to the second question that `Step::Drain` asks for, and what that step
    /// holds.
    pub fn on_drained(&mut self, event: Event, carried: Option<Usage>, created: u64) -> (r: Step)
        ensures
            r@ == drained_step(
                event,
                carried,
                old(self).finish_emitted,
                old(self).model@,
                old(self).chatcmpl_id@,
                created,
            ),
            final(self).finish_emitted == (old(self).finish_emitted || !(event is Chunk)),
            final(self).finish_emitted == ended_after_drain(event, old(self).finish_emitted),
            final(self).state == old(self).state,
            final(self).same_settings(*old(self)),
    {
        if let Event::Chunk(chunk) = event {
            let mut chunk = chunk;
            if chunk.usage.is_some() || chunk.choices.len() == 0 {
                let ghost before = chunk@;
                chunk.id = self.chatcmpl_id.clone();
                assert(chunk@ =~= (ChunkView { id: self.chatcmpl_id@, ..before }));
                Step::Emit(chunk)
            } else {
                Step::Again
            }
        } else if self.finish_emitted {
            Step::End
        } else {
            self.finish_emitted = true;
            let mut end = make_end_chunk(
                self.model.as_str(),
                Delta::default(),
                "tool_calls",
                self.chatcmpl_id.as_str(),
                created,
            );
            let ghost before = end@;
            end.usage = carried;
            assert(end@ =~= (ChunkView { usage: carried, ..before }));
            Step::Emit(end)
        }
    }

    /// The chunk that keeps the connection alive, where one is due: a block is being collected,
    /// and the time between two such chunks has passed since the last one, or since the stream
    /// began. Its identifier is not that of the message.
    pub fn keepalive(&self, elapsed_ms: u64, created: u64) -> (r: Option<
        ChatCompletionsResponseChunk,
    >)
        ensures
            r is Some == (self.state@ is Collecting && elapsed_ms >= KEEPALIVE_INTERVAL_MS),
            r is Some == keepalive_due(self.state@, elapsed_ms),
            r matches Some(chunk) ==> chunk@ == keepalive_chunk(self.model@, created),
    {
        match &self.state {
            ToolParseState::CollectingXml { .. } if elapsed_ms >= KEEPALIVE_INTERVAL_MS => {
                let nothing = String::new();
                assert(nothing@ =~= seq![]);
                Some(
                    make_chunk(
                        self.model.as_str(),
                        content_delta(nothing),
                        None,
                        KEEPALIVE_ID.to_owned(),
                        created,
                    ),
                )
            },
            _ => None,
        }
    }
}

} // verus!
