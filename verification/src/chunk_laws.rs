//! What becomes of the fields of a chunk on its way through the stream that looks for tool
//! calls: what is handed on as it came in, and what may change.
use crate::calls::nth_id;
use crate::error::OpenAIAdapterError;
use crate::frame_laws::reasoning_of;
use crate::stream_laws::law_window_width;
use crate::tags::find_start;
use crate::text::byte_len;
use crate::text::lemma_chars_within;
use crate::text::lemma_encode_concat;
use crate::tool_parser::parse_faults;
use crate::tool_parser::parse_ids;
use crate::tool_parser::parsed;
use crate::tool_stream::chunk_outcome;
use crate::tool_stream::closed_block;
use crate::tool_stream::drained_step;
use crate::tool_stream::end_chunk;
use crate::tool_stream::ended_after;
use crate::tool_stream::ended_after_drain;
use crate::tool_stream::ended_outcome;
use crate::tool_stream::event_outcome;
use crate::tool_stream::keepalive_chunk;
use crate::tool_stream::keepalive_due;
use crate::tool_stream::released;
use crate::tool_stream::state_after;
use crate::tool_stream::Event;
use crate::tool_stream::StateView;
use crate::tool_stream::StepView;
use crate::types::empty_delta;
use crate::types::one_choice_chunk;
use crate::types::with_calls;
use crate::types::with_content;
use crate::types::ChatCompletionsResponseChunk;
use crate::types::ChunkView;
use crate::types::DeltaView;
use crate::types::ToolCallView;
use crate::types::Usage;
use vstd::prelude::*;

verus! {

// ---------------------------------------------------------------------------------------
// The fields of a chunk
// ---------------------------------------------------------------------------------------
/// Two chunks are the same in all but the content, the tool calls and the finish reason of their
/// first choice: the same identifier, model, time, usage and so on, the same later choices, and
/// in the first choice the same role and the same thinking.
pub open spec fn carries(out: ChunkView, c: ChunkView) -> bool {
    &&& out.id == c.id
    &&& out.object == c.object
    &&& out.created == c.created
    &&& out.model == c.model
    &&& out.usage == c.usage
    &&& out.service_tier == c.service_tier
    &&& out.system_fingerprint == c.system_fingerprint
    &&& out.choices.len() == c.choices.len()
    &&& forall|k: int| 0 < k < c.choices.len() ==> out.choices[k] == c.choices[k]
    &&& c.choices.len() > 0 ==> {
        &&& out.choices[0].index == c.choices[0].index
        &&& out.choices[0].logprobs == c.choices[0].logprobs
        &&& out.choices[0].delta.role == c.choices[0].delta.role
        &&& out.choices[0].delta.reasoning_content == c.choices[0].delta.reasoning_content
    }
}

/// The content of a chunk is set, and nothing else.
pub proof fn law_content_set_alone(c: ChunkView, content: Option<Seq<char>>)
    requires
        c.choices.len() > 0,
    ensures
        carries(with_content(c, content), c),
        with_content(c, content).choices[0].delta.content == content,
        with_content(c, content).choices[0].delta.tool_calls == c.choices[0].delta.tool_calls,
        with_content(c, content).choices[0].finish_reason == c.choices[0].finish_reason,
{
}

/// Tool calls are set with a content, and nothing else; a message that stopped has stopped to
/// have them called, and any other finish reason, or none, stays.
pub proof fn law_calls_set_alone(
    c: ChunkView,
    content: Option<Seq<char>>,
    calls: Seq<ToolCallView>,
)
    requires
        c.choices.len() > 0,
    ensures
        carries(with_calls(c, content, calls), c),
        with_calls(c, content, calls).choices[0].delta.content == content,
        with_calls(c, content, calls).choices[0].delta.tool_calls == Some(calls),
        c.choices[0].finish_reason == Some("stop"@) ==> with_calls(
            c,
            content,
            calls,
        ).choices[0].finish_reason == Some("tool_calls"@),
        c.choices[0].finish_reason != Some("stop"@) ==> with_calls(
            c,
            content,
            calls,
        ).choices[0].finish_reason == c.choices[0].finish_reason,
{
}

/// A chunk that is made holds what it is made of, and nothing else: one choice with the delta and
/// the finish reason.
pub proof fn law_chunk_made(
    model: Seq<char>,
    delta: DeltaView,
    finish: Seq<char>,
    id: Seq<char>,
    created: u64,
)
    ensures
        ({
            let going = one_choice_chunk(model, delta, None, id, created);
            let ending = end_chunk(model, delta, finish, id, created);
            &&& going.id == id && going.model == model && going.created == created
            &&& going.object == "chat.completion.chunk"@
            &&& going.usage is None && going.service_tier is None && going.system_fingerprint is None
            &&& going.choices.len() == 1
            &&& going.choices[0].index == 0 && going.choices[0].logprobs is None
            &&& going.choices[0].delta == delta
            &&& going.choices[0].finish_reason is None
            &&& ending.choices.len() == 1
            &&& ending.choices[0].delta == delta
            &&& ending.choices[0].finish_reason == Some(finish)
            &&& carries(ending, going)
        }),
        empty_delta().role is None,
        empty_delta().content is None,
        empty_delta().reasoning_content is None,
        empty_delta().tool_calls is None,
{
}

// ---------------------------------------------------------------------------------------
// One chunk
// ---------------------------------------------------------------------------------------
/// The content, the tool calls and the finish reason too are the same.
pub open spec fn unchanged_but_content(out: ChunkView, c: ChunkView) -> bool {
    &&& carries(out, c)
    &&& c.choices.len() > 0 ==> {
        &&& out.choices[0].delta.tool_calls == c.choices[0].delta.tool_calls
        &&& out.choices[0].finish_reason == c.choices[0].finish_reason
    }
}

/// Whatever is done with a chunk, the chunk that is given to the consumer for it has its
/// identifier, its usage, its role, its thinking and all the rest of it. Its tool calls and its
/// finish reason stay too, unless it ends a block; and the finish reason changes only where a
/// message that stopped has tool calls.
pub proof fn law_fields_kept(
    c: ChunkView,
    state: StateView,
    starts: Seq<Seq<char>>,
    ends: Seq<Seq<char>>,
    first: u64,
)
    ensures
        ({
            let o = chunk_outcome(c, state, starts, ends, first);
            o.step matches StepView::Emit(out) ==> {
                &&& carries(out, c)
                &&& !(state_after(state, o) is Done) ==> unchanged_but_content(out, c)
                &&& c.choices.len() > 0 ==> {
                    ||| out.choices[0].finish_reason == c.choices[0].finish_reason
                    ||| c.choices[0].finish_reason == Some("stop"@) && out.choices[0].finish_reason
                        == Some("tool_calls"@) && out.choices[0].delta.tool_calls is Some
                }
            }
        }),
{
    if c.choices.len() > 0 {
        assert forall|t: Option<Seq<char>>| carries(#[trigger] with_content(c, t), c) by {
            law_content_set_alone(c, t);
        }
        assert forall|t: Option<Seq<char>>, calls: Seq<ToolCallView>|
            carries(#[trigger] with_calls(c, t, calls), c) by {
            law_calls_set_alone(c, t, calls);
        }
    }
}

/// A chunk without choices, or with an empty content, is handed on as it is, whatever the
/// machine is doing, and changes nothing.
pub proof fn law_empty_chunks_pass(
    c: ChunkView,
    state: StateView,
    starts: Seq<Seq<char>>,
    ends: Seq<Seq<char>>,
    first: u64,
)
    requires
        c.choices.len() == 0 || c.choices[0].delta.content == Some(Seq::<char>::empty()),
    ensures
        ({
            let o = chunk_outcome(c, state, starts, ends, first);
            &&& o.step == StepView::Emit(c)
            &&& state_after(state, o) == state
            &&& o.ids == 0
        }),
{
}

/// While a start tag is looked for, a chunk without content is given to the consumer with its
/// role, its thinking, its tool calls and its finish reason as they came in. Only its content
/// may be filled: one that ends the message takes the window with it, if there is anything in
/// it.
pub proof fn law_no_content_while_looking(
    c: ChunkView,
    window: Seq<char>,
    starts: Seq<Seq<char>>,
    ends: Seq<Seq<char>>,
    first: u64,
)
    requires
        c.choices.len() > 0,
        c.choices[0].delta.content is None,
    ensures
        ({
            let state = StateView::Detecting(window);
            let o = chunk_outcome(c, state, starts, ends, first);
            let flushed = c.choices[0].finish_reason is Some && window.len() > 0;
            &&& o.step is Emit
            &&& o.step matches StepView::Emit(out) ==> {
                &&& unchanged_but_content(out, c)
                &&& out.choices[0].delta.content == (if flushed {
                    Some(window)
                } else {
                    None
                })
            }
            &&& state_after(state, o) == StateView::Detecting(
                if flushed {
                    Seq::<char>::empty()
                } else {
                    window
                },
            )
            &&& o.ids == 0
        }),
{
    law_content_set_alone(c, Some(window));
}

/// While a block is collected, a chunk without content that does not end the message is handed
/// on as it is. One that ends the message ends the block too: it gets the tool calls in what was
/// collected or, where there are none, all that was collected as its content.
pub proof fn law_no_content_while_collecting(
    c: ChunkView,
    buf: Seq<char>,
    tag: Seq<char>,
    starts: Seq<Seq<char>>,
    ends: Seq<Seq<char>>,
    first: u64,
)
    requires
        c.choices.len() > 0,
        c.choices[0].delta.content is None,
        c.choices[0].finish_reason is Some ==> !parse_faults(buf, seq![], seq![]),
    ensures
        ({
            let state = StateView::Collecting(buf, tag);
            let o = chunk_outcome(c, state, starts, ends, first);
            let read = parsed(buf, seq![], seq![], first);
            &&& o.step is Emit
            &&& c.choices[0].finish_reason is None ==> o.step == StepView::Emit(c) && state_after(
                state,
                o,
            ) == state && o.ids == 0
            &&& c.choices[0].finish_reason is Some ==> {
                &&& state_after(state, o) is Done
                &&& o.step matches StepView::Emit(out) ==> {
                    &&& carries(out, c)
                    &&& read is Some ==> {
                        &&& out.choices[0].delta.tool_calls == Some((read->0).0)
                        &&& out.choices[0].delta.content is None
                        &&& out.choices[0].finish_reason == (if c.choices[0].finish_reason == Some(
                            "stop"@,
                        ) {
                            Some("tool_calls"@)
                        } else {
                            c.choices[0].finish_reason
                        })
                    }
                    &&& read is None ==> {
                        &&& unchanged_but_content(out, c)
                        &&& out.choices[0].delta.content == Some(buf)
                    }
                }
            }
        }),
{
    law_content_set_alone(c, Some(buf));
}

/// Once the machine is done, a chunk with content is never given to the consumer, nor is one
/// without content: the inner stream is asked once more, and what is remembered of the chunk is
/// the usage of one without content.
pub proof fn law_chunks_drained(
    c: ChunkView,
    starts: Seq<Seq<char>>,
    ends: Seq<Seq<char>>,
    first: u64,
)
    requires
        c.choices.len() > 0,
        c.choices[0].delta.content != Some(Seq::<char>::empty()),
    ensures
        ({
            let o = chunk_outcome(c, StateView::Done, starts, ends, first);
            &&& o.step matches StepView::Drain(u) && u == (if c.choices[0].delta.content is None {
                c.usage
            } else {
                None
            })
            &&& state_after(StateView::Done, o) == StateView::Done
            &&& o.ids == 0
        }),
{
    if let Some(t) = c.choices[0].delta.content {
        assert(t.len() > 0) by {
            if t.len() == 0 {
                assert(t =~= Seq::<char>::empty());
            }
        }
    }
}

/// A chunk gives nothing to the consumer only where it has content and a start tag or the end of
/// a block may stand in it, or where the machine is done.
pub proof fn law_nothing_else_withheld(
    c: ChunkView,
    state: StateView,
    starts: Seq<Seq<char>>,
    ends: Seq<Seq<char>>,
    first: u64,
)
    ensures
        ({
            let o = chunk_outcome(c, state, starts, ends, first);
            &&& o.step is Again ==> !(state is Done) && c.choices.len() > 0 && (
            c.choices[0].delta.content matches Some(t) && t.len() > 0)
            &&& o.step is Drain ==> state is Done && c.choices.len() > 0
            &&& o.step is Emit || o.step is Again || o.step is Drain || o.step is Fault
            &&& state is Done ==> state_after(state, o) is Done
        }),
{
}

/// Content without a start tag goes into the window, and what the window lets go is given at
/// once, with the rest of the chunk. The window lets go as much as it can while 71 bytes are
/// left in it: with one character less it would have fewer.
pub proof fn law_window_slides(
    c: ChunkView,
    window: Seq<char>,
    content: Seq<char>,
    starts: Seq<Seq<char>>,
    ends: Seq<Seq<char>>,
    first: u64,
)
    requires
        c.choices.len() > 0,
        c.choices[0].delta.content == Some(content),
        content.len() > 0,
        find_start(window + content, starts) is None,
    ensures
        ({
            let state = StateView::Detecting(window);
            let o = chunk_outcome(c, state, starts, ends, first);
            &&& state_after(state, o) matches StateView::Detecting(kept) && (kept.len() > 0
                ==> byte_len(kept.skip(1)) < 71)
            &&& state_after(state, o) matches StateView::Detecting(kept) ==> {
                &&& o.step is Again ==> kept == window + content
                &&& o.step is Again || o.step is Emit
                &&& o.step matches StepView::Emit(out) ==> {
                    &&& unchanged_but_content(out, c)
                    &&& out.choices[0].delta.content is Some
                    &&& out.choices[0].delta.content->0.len() > 0
                    &&& out.choices[0].delta.content->0 + kept == window + content
                    &&& byte_len(kept) >= 71
                }
            }
            &&& o.ids == 0
        }),
{
    let whole = window + content;
    law_window_width(whole);
    let n = released(whole) as int;
    law_content_set_alone(c, Some(whole.take(n)));
    assert(whole.skip(0) =~= whole);
    if n > 0 {
        assert(whole.take(n).len() == n);
    }
    lemma_window_full(whole);
}

/// With one character less, fewer than 71 bytes would be left in a window.
proof fn lemma_window_full(window: Seq<char>)
    ensures
        ({
            let kept = window.skip(released(window) as int);
            kept.len() > 0 ==> byte_len(kept.skip(1)) < 71
        }),
{
    let bytes = byte_len(window);
    let max = if bytes > 71 {
        (bytes - 71) as nat
    } else {
        0
    };
    let n = released(window) as int;
    let kept = window.skip(n);
    lemma_chars_within(window, max);
    if kept.len() > 0 {
        assert(kept.skip(1) =~= window.skip(n + 1));
        assert(window =~= window.take(n + 1) + window.skip(n + 1));
        lemma_encode_concat(window.take(n + 1), window.skip(n + 1));
    }
}

/// A block that is complete gives the tool calls in it, with the text before it as content, and
/// the machine is done; where there are none in it, all of it is given as content, behind the
/// text before it, and a start tag is looked for again. Only a block of nothing but tags and
/// white characters is dropped.
pub proof fn law_block_closed(
    c: ChunkView,
    before: Seq<char>,
    block: Seq<char>,
    start_tag: Seq<char>,
    end_tag: Seq<char>,
    first: u64,
    keep_empty: bool,
)
    requires
        c.choices.len() > 0,
        !parse_faults(block, seq![], seq![]),
    ensures
        ({
            let o = closed_block(c, before, block, start_tag, end_tag, first, keep_empty);
            let read = parsed(block, seq![], seq![], first);
            &&& read is Some ==> {
                &&& o.state == Some(StateView::Done)
                &&& o.step matches StepView::Emit(out) && carries(out, c)
                    && out.choices[0].delta.tool_calls == Some((read->0).0)
                    && out.choices[0].delta.content == (if before.len() == 0 {
                    None
                } else {
                    Some(before)
                })
            }
            &&& read is None ==> {
                &&& o.state == Some(StateView::Detecting(seq![]))
                &&& o.step matches StepView::Emit(out) ==> unchanged_but_content(out, c) && (
                out.choices[0].delta.content is None || out.choices[0].delta.content == Some(
                    before + block,
                ))
                &&& o.step is Emit || o.step is Again
            }
        }),
{
    law_content_set_alone(c, None);
    law_content_set_alone(c, Some(before + block));
}

/// A fault changes nothing. A block that is complete, or that the end of the message or of the
/// stream completes, ends in one exactly where parsing it does.
pub proof fn law_faults_change_nothing(
    c: ChunkView,
    state: StateView,
    starts: Seq<Seq<char>>,
    ends: Seq<Seq<char>>,
    model: Seq<char>,
    id: Seq<char>,
    finish_emitted: bool,
    first: u64,
)
    ensures
        ({
            let o = chunk_outcome(c, state, starts, ends, first);
            let e = ended_outcome(state, finish_emitted, model, id, c.created, first);
            &&& o.step is Fault ==> state_after(state, o) == state && o.ids == 0
            &&& o.step is Fault ==> c.choices.len() > 0 && !(state is Done)
            &&& o.step is Fault ==> state is Detecting ==> c.choices[0].delta.content is Some
            &&& e.step is Fault ==> state_after(state, e) == state && e.ids == 0
            &&& e.step is Fault <==> (state matches StateView::Collecting(buf, _) && parse_faults(
                buf,
                seq![],
                seq![],
            ))
            &&& c.choices.len() > 0 && c.choices[0].delta.content is None ==> (o.step is Fault
                <==> c.choices[0].finish_reason is Some && (
            state matches StateView::Collecting(buf, _) && parse_faults(buf, seq![], seq![])))
        }),
{
}

/// A block that is complete ends in a fault exactly where parsing it does.
pub proof fn law_closed_block_faults(
    c: ChunkView,
    before: Seq<char>,
    block: Seq<char>,
    start_tag: Seq<char>,
    end_tag: Seq<char>,
    first: u64,
    keep_empty: bool,
)
    ensures
        closed_block(c, before, block, start_tag, end_tag, first, keep_empty).step is Fault
            <==> parse_faults(block, seq![], seq![]),
        closed_block(c, before, block, start_tag, end_tag, first, keep_empty).ids == (
        if parse_faults(block, seq![], seq![]) {
            0
        } else {
            parse_ids(block, seq![], seq![])
        }),
{
}

// ---------------------------------------------------------------------------------------
// The end, and what is made up
// ---------------------------------------------------------------------------------------
/// A chunk that is made for a message, and not handed on: it bears the model, the identifier and
/// the time, and has one choice without a role and without thinking.
pub open spec fn made_up(c: ChunkView, model: Seq<char>, id: Seq<char>, created: u64) -> bool {
    &&& c.id == id
    &&& c.model == model
    &&& c.created == created
    &&& c.object == "chat.completion.chunk"@
    &&& c.service_tier is None
    &&& c.system_fingerprint is None
    &&& c.choices.len() == 1
    &&& c.choices[0].index == 0
    &&& c.choices[0].logprobs is None
    &&& c.choices[0].delta.role is None
    &&& c.choices[0].delta.reasoning_content is None
}

/// When the inner stream is over, what the window holds is given as content, and what was
/// collected as tool calls or, where there are none in it, as content; each with the chunk that
/// ends the message. Once the machine is done the message is ended with tool calls, unless it
/// was. In every case the machine is done.
pub proof fn law_rest_given_at_the_end(
    state: StateView,
    finish_emitted: bool,
    model: Seq<char>,
    id: Seq<char>,
    created: u64,
    first: u64,
)
    requires
        state matches StateView::Collecting(buf, _) ==> !parse_faults(buf, seq![], seq![]),
    ensures
        ({
            let o = ended_outcome(state, finish_emitted, model, id, created, first);
            &&& o.state == Some(StateView::Done)
            &&& o.step is Emit || o.step is End
            &&& o.step matches StepView::Emit(c) ==> made_up(c, model, id, created) && c.usage is None
            &&& match state {
                StateView::Detecting(window) => {
                    &&& o.step is Emit <==> window.len() > 0
                    &&& o.step matches StepView::Emit(c) ==> {
                        &&& c.choices[0].delta.content == Some(window)
                        &&& c.choices[0].delta.tool_calls is None
                        &&& c.choices[0].finish_reason == Some("stop"@)
                    }
                },
                StateView::Collecting(buf, _) => {
                    let read = parsed(buf, seq![], seq![], first);
                    &&& o.step is Emit
                    &&& o.step matches StepView::Emit(c) ==> {
                        &&& read is Some ==> c.choices[0].delta.tool_calls == Some((read->0).0)
                            && c.choices[0].delta.content is None && c.choices[0].finish_reason
                            == Some("tool_calls"@)
                        &&& read is None ==> c.choices[0].delta.tool_calls is None
                            && c.choices[0].delta.content == Some(buf)
                            && c.choices[0].finish_reason == Some("stop"@)
                    }
                },
                StateView::Done => {
                    &&& o.step is Emit <==> !finish_emitted
                    &&& o.step matches StepView::Emit(c) ==> {
                        &&& c.choices[0].delta.content is None
                        &&& c.choices[0].delta.tool_calls is None
                        &&& c.choices[0].finish_reason == Some("tool_calls"@)
                    }
                },
            }
        }),
{
}

/// Of what the inner stream has once the machine is done, a chunk with a usage, or without
/// choices, is handed on as it is, under the identifier of the message; any other is dropped.
/// Where there is no chunk, the message is ended with tool calls, once, with the usage that was
/// carried over.
pub proof fn law_drained(
    event: Event,
    carried: Option<Usage>,
    finish_emitted: bool,
    model: Seq<char>,
    id: Seq<char>,
    created: u64,
)
    ensures
        ({
            let step = drained_step(event, carried, finish_emitted, model, id, created);
            match event {
                Event::Chunk(c) => {
                    &&& step is Emit <==> c@.usage is Some || c@.choices.len() == 0
                    &&& !(step is Emit) ==> step is Again
                    &&& step matches StepView::Emit(out) ==> {
                        &&& out.id == id
                        &&& out.object == c@.object
                        &&& out.created == c@.created
                        &&& out.model == c@.model
                        &&& out.choices == c@.choices
                        &&& out.usage == c@.usage
                        &&& out.service_tier == c@.service_tier
                        &&& out.system_fingerprint == c@.system_fingerprint
                    }
                },
                _ => {
                    &&& step is End <==> finish_emitted
                    &&& step is Emit <==> !finish_emitted
                    &&& step matches StepView::Emit(out) ==> {
                        &&& made_up(out, model, id, created)
                        &&& out.usage == carried
                        &&& out.choices[0].delta.content is None
                        &&& out.choices[0].delta.tool_calls is None
                        &&& out.choices[0].finish_reason == Some("tool_calls"@)
                    }
                },
            }
        }),
{
}

/// A chunk of the inner stream is treated as a chunk and its end as an end, and the machine goes on
/// from the state that it changes to, or from the same one.
pub proof fn law_events_told_apart(
    c: ChatCompletionsResponseChunk,
    state: StateView,
    finish_emitted: bool,
    starts: Seq<Seq<char>>,
    ends: Seq<Seq<char>>,
    model: Seq<char>,
    id: Seq<char>,
    created: u64,
    first: u64,
)
    ensures
        event_outcome(
            Event::Chunk(c),
            state,
            finish_emitted,
            starts,
            ends,
            model,
            id,
            created,
            first,
        ) == chunk_outcome(c@, state, starts, ends, first),
        event_outcome(
            Event::Ended,
            state,
            finish_emitted,
            starts,
            ends,
            model,
            id,
            created,
            first,
        ) == ended_outcome(state, finish_emitted, model, id, created, first),
        ({
            let o = chunk_outcome(c@, state, starts, ends, first);
            &&& o.state matches Some(s) ==> state_after(state, o) == s
            &&& o.state is None ==> state_after(state, o) == state
        }),
{
}

/// A failure of the inner stream is handed on as it is, and where nothing is there yet nothing
/// happens; neither changes what the machine is doing.
pub proof fn law_stream_failures_handed_on(
    e: OpenAIAdapterError,
    state: StateView,
    finish_emitted: bool,
    starts: Seq<Seq<char>>,
    ends: Seq<Seq<char>>,
    model: Seq<char>,
    id: Seq<char>,
    created: u64,
    first: u64,
)
    ensures
        ({
            let failed = event_outcome(
                Event::Failed(e),
                state,
                finish_emitted,
                starts,
                ends,
                model,
                id,
                created,
                first,
            );
            let pending = event_outcome(
                Event::Pending,
                state,
                finish_emitted,
                starts,
                ends,
                model,
                id,
                created,
                first,
            );
            &&& failed.step == StepView::Fail(e) && state_after(state, failed) == state
                && failed.ids == 0
            &&& pending.step is Wait && state_after(state, pending) == state && pending.ids == 0
        }),
{
}

/// A chunk that keeps the connection alive adds nothing: its content is empty, and it has
/// neither tool calls nor a finish reason nor a usage.
pub proof fn law_keepalive_adds_nothing(model: Seq<char>, created: u64)
    ensures
        ({
            let c = keepalive_chunk(model, created);
            &&& made_up(c, model, "chatcmpl-keepalive"@, created)
            &&& c.choices[0].delta.content == Some(Seq::<char>::empty())
            &&& c.choices[0].delta.tool_calls is None
            &&& c.choices[0].finish_reason is None
            &&& c.usage is None
        }),
{
}

/// Such a chunk is due while a block is collected, from the time on when a second has passed, and
/// never otherwise.
pub proof fn law_keepalive_due(state: StateView, elapsed_ms: u64)
    ensures
        keepalive_due(state, elapsed_ms) <==> state is Collecting && elapsed_ms >= 1000,
{
}

/// That the message was ended with tool calls is remembered exactly where the chunk that ends it
/// is given, and never forgotten.
pub proof fn law_end_remembered(
    event: Event,
    carried: Option<Usage>,
    state: StateView,
    finish_emitted: bool,
    starts: Seq<Seq<char>>,
    ends: Seq<Seq<char>>,
    model: Seq<char>,
    id: Seq<char>,
    created: u64,
    first: u64,
)
    ensures
        finish_emitted ==> ended_after(event, state, finish_emitted) && ended_after_drain(
            event,
            finish_emitted,
        ),
        !finish_emitted ==> (ended_after(event, state, finish_emitted) <==> event is Ended
            && state is Done && event_outcome(
            event,
            state,
            finish_emitted,
            starts,
            ends,
            model,
            id,
            created,
            first,
        ).step is Emit),
        !finish_emitted ==> (ended_after_drain(event, finish_emitted) <==> !(event is Chunk)
            && drained_step(event, carried, finish_emitted, model, id, created) is Emit),
{
}

// ---------------------------------------------------------------------------------------
// Many chunks
// ---------------------------------------------------------------------------------------
/// The thinking in some chunks, one piece behind the other.
pub open spec fn chunks_reasoning(chunks: Seq<ChunkView>) -> Seq<char>
    decreases chunks.len(),
{
    if chunks.len() == 0 {
        seq![]
    } else {
        reasoning_of(chunks[0]) + chunks_reasoning(chunks.skip(1))
    }
}

/// The chunks that are given to the consumer for some chunks.
pub open spec fn emitted(
    chunks: Seq<ChunkView>,
    state: StateView,
    starts: Seq<Seq<char>>,
    ends: Seq<Seq<char>>,
    first: u64,
) -> Seq<ChunkView>
    decreases chunks.len(),
{
    if chunks.len() == 0 {
        seq![]
    } else {
        let o = chunk_outcome(chunks[0], state, starts, ends, first);
        let rest = emitted(
            chunks.skip(1),
            state_after(state, o),
            starts,
            ends,
            nth_id(first, o.ids),
        );
        match o.step {
            StepView::Emit(c) => seq![c] + rest,
            _ => rest,
        }
    }
}

/// The machine takes in all the chunks without being done before the last one, and without a
/// fault.
pub open spec fn at_work(
    chunks: Seq<ChunkView>,
    state: StateView,
    starts: Seq<Seq<char>>,
    ends: Seq<Seq<char>>,
    first: u64,
) -> bool
    decreases chunks.len(),
{
    chunks.len() > 0 ==> {
        let o = chunk_outcome(chunks[0], state, starts, ends, first);
        &&& !(state is Done)
        &&& !(o.step is Fault)
        &&& at_work(chunks.skip(1), state_after(state, o), starts, ends, nth_id(first, o.ids))
    }
}

/// A chunk with thinking has no content.
pub open spec fn thinking_apart(c: ChunkView) -> bool {
    c.choices.len() > 0 && reasoning_of(c).len() > 0 ==> match c.choices[0].delta.content {
        Some(t) => t.len() == 0,
        None => true,
    }
}

/// All the thinking passes: where thinking and content come in different chunks, the thinking in
/// the chunks that are given to the consumer, one piece behind the other, is the thinking in
/// those that came in, as long as the machine is not done.
pub proof fn law_thinking_passes(
    chunks: Seq<ChunkView>,
    state: StateView,
    starts: Seq<Seq<char>>,
    ends: Seq<Seq<char>>,
    first: u64,
)
    requires
        forall|k: int| 0 <= k < chunks.len() ==> thinking_apart(#[trigger] chunks[k]),
        at_work(chunks, state, starts, ends, first),
    ensures
        chunks_reasoning(emitted(chunks, state, starts, ends, first)) == chunks_reasoning(chunks),
    decreases chunks.len(),
{
    if chunks.len() > 0 {
        let c = chunks[0];
        let o = chunk_outcome(c, state, starts, ends, first);
        let after = state_after(state, o);
        let next = nth_id(first, o.ids);
        assert(thinking_apart(chunks[0]));
        assert forall|k: int| 0 <= k < chunks.skip(1).len() implies thinking_apart(
            #[trigger] chunks.skip(1)[k],
        ) by {
            assert(chunks.skip(1)[k] == chunks[k + 1]);
        }
        law_thinking_passes(chunks.skip(1), after, starts, ends, next);
        law_fields_kept(c, state, starts, ends, first);
        law_nothing_else_withheld(c, state, starts, ends, first);
        let rest = emitted(chunks.skip(1), after, starts, ends, next);
        match o.step {
            StepView::Emit(out) => {
                let all = seq![out] + rest;
                assert(all.skip(1) =~= rest);
                assert(all[0] == out);
                assert(reasoning_of(out) == reasoning_of(c));
            },
            _ => {
                assert(o.step is Again);
                assert(reasoning_of(c) =~= Seq::<char>::empty());
                assert(Seq::<char>::empty() + chunks_reasoning(rest) =~= chunks_reasoning(rest));
            },
        }
    }
}

} // verus!
