//! What holds of a stream of chunks that is polled to its end.
use crate::calls::nth_id;
use crate::stream_laws::after_chunk;
use crate::stream_laws::chunk_text;
use crate::stream_laws::lemma_no_start_within;
use crate::stream_laws::lemma_plain_chunk;
use crate::stream_laws::step_text;
use crate::tags::find_start;
use crate::tool_stream::drained_step;
use crate::tool_stream::event_outcome;
use crate::tool_stream::state_after;
use crate::tool_stream::Event;
use crate::tool_stream::StateView;
use crate::tool_stream::StepView;
use crate::types::ChunkView;
use vstd::prelude::*;

verus! {

// ---------------------------------------------------------------------------------------
// Polling
// ---------------------------------------------------------------------------------------
/// What the machine remembers: its state, whether the chunk that ends a message with tool calls
/// was given, and the number of the next identifier.
pub struct Remembered {
    pub state: StateView,
    pub finish_emitted: bool,
    pub next: u64,
}

/// What the machine was made with.
pub struct Made {
    pub starts: Seq<Seq<char>>,
    pub ends: Seq<Seq<char>>,
    pub model: Seq<char>,
    pub id: Seq<char>,
}

/// The machine at its beginning.
pub open spec fn at_first(next: u64) -> Remembered {
    Remembered { state: StateView::Detecting(seq![]), finish_emitted: false, next }
}

/// The steps of a machine that is handed what the inner stream has, each with the time at which
/// it came, until the stream is over. A step that asks the inner stream once more stands for what
/// is done with the answer.
pub open spec fn polled(m: Remembered, events: Seq<(Event, u64)>, made: Made) -> Seq<StepView>
    decreases events.len(),
{
    if events.len() == 0 {
        seq![]
    } else {
        let (event, now) = events[0];
        let o = event_outcome(
            event,
            m.state,
            m.finish_emitted,
            made.starts,
            made.ends,
            made.model,
            made.id,
            now,
            m.next,
        );
        let after = Remembered {
            state: state_after(m.state, o),
            finish_emitted: m.finish_emitted || (event is Ended && m.state is Done),
            next: nth_id(m.next, o.ids),
        };
        match o.step {
            StepView::Drain(carried) => if events.len() == 1 {
                seq![]
            } else {
                let (answer, then) = events[1];
                let step = drained_step(
                    answer,
                    carried,
                    m.finish_emitted,
                    made.model,
                    made.id,
                    then,
                );
                let last = Remembered {
                    finish_emitted: m.finish_emitted || !(answer is Chunk),
                    ..after
                };
                seq![step] + (if step is End {
                    seq![]
                } else {
                    polled(last, events.skip(2), made)
                })
            },
            StepView::End => seq![StepView::End],
            StepView::Fault => seq![StepView::Fault],
            step => seq![step] + polled(after, events.skip(1), made),
        }
    }
}

/// The content that some steps give to the consumer, one piece behind the other.
pub open spec fn steps_text(steps: Seq<StepView>) -> Seq<char>
    decreases steps.len(),
{
    if steps.len() == 0 {
        seq![]
    } else {
        step_text(steps[0]) + steps_text(steps.skip(1))
    }
}

/// A chunk has tool calls.
pub open spec fn has_calls(c: ChunkView) -> bool {
    c.choices.len() > 0 && c.choices[0].delta.tool_calls is Some
}

/// A step gives tool calls to the consumer.
pub open spec fn gives_calls(step: StepView) -> bool {
    step matches StepView::Emit(c) && has_calls(c)
}

/// A step ends a message with tool calls.
pub open spec fn ends_with_calls(step: StepView) -> bool {
    step matches StepView::Emit(c) && c.choices.len() > 0 && c.choices[0].finish_reason == Some(
        "tool_calls"@,
    )
}

/// The inner stream has no chunk with tool calls of its own.
pub open spec fn plain_event(event: Event) -> bool {
    event matches Event::Chunk(c) ==> !has_calls(c@)
}

proof fn lemma_steps_text(step: StepView, steps: Seq<StepView>)
    ensures
        steps_text(seq![step] + steps) == step_text(step) + steps_text(steps),
{
    assert((seq![step] + steps).skip(1) =~= steps);
}

// ---------------------------------------------------------------------------------------
// A stream without tool calls
// ---------------------------------------------------------------------------------------
/// The content of the chunks among some events, one behind the other.
pub open spec fn events_text(events: Seq<(Event, u64)>) -> Seq<char>
    decreases events.len(),
{
    if events.len() == 0 {
        seq![]
    } else {
        (match events[0].0 {
            Event::Chunk(c) => chunk_text(c@),
            _ => seq![],
        }) + events_text(events.skip(1))
    }
}

/// The inner stream is over, however often it is asked.
pub open spec fn all_ended(events: Seq<(Event, u64)>) -> bool {
    forall|k: int| 0 <= k < events.len() ==> (#[trigger] events[k]).0 is Ended
}

proof fn lemma_plain_end(
    window: Seq<char>,
    next: u64,
    ended: Seq<(Event, u64)>,
    made: Made,
)
    requires
        all_ended(ended),
    ensures
        ({
            let m = Remembered {
                state: StateView::Detecting(window),
                finish_emitted: false,
                next,
            };
            let steps = polled(m, ended, made);
            &&& ended.len() > 0 ==> steps_text(steps) == window
            &&& ended.len() >= 3 ==> steps.len() > 0 && steps.last() is End
            &&& forall|j: int| 0 <= j < steps.len() ==> !gives_calls(#[trigger] steps[j])
        }),
{
    if ended.len() > 0 {
        assert(ended[0].0 is Ended);
        assert(ended.len() > 1 ==> ended[1].0 is Ended && ended.skip(1)[0] == ended[1]);
        assert(ended.len() > 2 ==> ended[2].0 is Ended && ended.skip(1).skip(1)[0] == ended[2]);
        reveal_with_fuel(polled, 4);
        reveal_with_fuel(steps_text, 4);
        let m = Remembered { state: StateView::Detecting(window), finish_emitted: false, next };
        let steps = polled(m, ended, made);
        assert(steps_text(steps) =~= window);
    }
}

proof fn lemma_plain_polled(
    window: Seq<char>,
    next: u64,
    chunks: Seq<(Event, u64)>,
    ended: Seq<(Event, u64)>,
    made: Made,
)
    requires
        find_start(window + events_text(chunks), made.starts) is None,
        forall|k: int|
            0 <= k < chunks.len() ==> (#[trigger] chunks[k]).0 is Chunk && plain_event(chunks[k].0),
        all_ended(ended),
    ensures
        ({
            let m = Remembered {
                state: StateView::Detecting(window),
                finish_emitted: false,
                next,
            };
            let steps = polled(m, chunks + ended, made);
            &&& ended.len() > 0 ==> steps_text(steps) == window + events_text(chunks)
            &&& ended.len() >= 3 ==> steps.len() > 0 && steps.last() is End
            &&& forall|j: int| 0 <= j < steps.len() ==> !gives_calls(#[trigger] steps[j])
        }),
    decreases chunks.len(),
{
    let m = Remembered { state: StateView::Detecting(window), finish_emitted: false, next };
    let events = chunks + ended;
    if chunks.len() == 0 {
        assert(events =~= ended);
        assert(window + events_text(chunks) =~= window);
        lemma_plain_end(window, next, ended, made);
    } else {
        let (event, now) = chunks[0];
        assert(chunks[0].0 is Chunk && plain_event(chunks[0].0));
        let chunk = event->Chunk_0@;
        let text = chunk_text(chunk);
        let rest = events_text(chunks.skip(1));
        assert(Seq::<char>::empty() + (window + text) + rest =~= window + events_text(chunks));
        lemma_no_start_within(seq![], window + text, rest, made.starts);
        lemma_plain_chunk(window, chunk, made.starts, made.ends, next);
        let o = event_outcome(
            event,
            m.state,
            false,
            made.starts,
            made.ends,
            made.model,
            made.id,
            now,
            next,
        );
        reveal(after_chunk);
        let kept = state_after(m.state, o)->Detecting_0;
        let given = step_text(o.step);
        assert(given + (kept + rest) + Seq::<char>::empty() =~= window + events_text(chunks));
        lemma_no_start_within(given, kept + rest, seq![], made.starts);
        assert forall|k: int| 0 <= k < chunks.skip(1).len() implies (#[trigger] chunks.skip(
            1,
        )[k]).0 is Chunk && plain_event(chunks.skip(1)[k].0) by {
            assert(chunks.skip(1)[k] == chunks[k + 1]);
        }
        lemma_plain_polled(kept, next, chunks.skip(1), ended, made);
        assert(events.skip(1) =~= chunks.skip(1) + ended);
        assert(events[0] == chunks[0]);
        let after = Remembered {
            state: StateView::Detecting(kept),
            finish_emitted: false,
            next,
        };
        let later = polled(after, events.skip(1), made);
        assert(o.step is Emit || o.step is Again);
        assert(!gives_calls(o.step));
        let steps = polled(m, events, made);
        assert(steps == seq![o.step] + later);
        lemma_steps_text(o.step, later);
        assert(given + (kept + rest) =~= window + events_text(chunks));
        assert(ended.len() >= 3 ==> steps.last() == later.last());
    }
}

/// A stream of text without a start tag, polled until it is over, gives all of its text,
/// unchanged and in its order, and no tool calls.
pub proof fn law_plain_stream_polled(
    next: u64,
    chunks: Seq<(Event, u64)>,
    ended: Seq<(Event, u64)>,
    made: Made,
)
    requires
        find_start(events_text(chunks), made.starts) is None,
        forall|k: int|
            0 <= k < chunks.len() ==> (#[trigger] chunks[k]).0 is Chunk && plain_event(chunks[k].0),
        all_ended(ended),
        ended.len() >= 3,
    ensures
        ({
            let steps = polled(at_first(next), chunks + ended, made);
            &&& steps_text(steps) == events_text(chunks)
            &&& steps.len() > 0 && steps.last() is End
            &&& forall|j: int| 0 <= j < steps.len() ==> !gives_calls(#[trigger] steps[j])
        }),
{
    let nothing = Seq::<char>::empty();
    assert(nothing + events_text(chunks) =~= events_text(chunks));
    lemma_plain_polled(nothing, next, chunks, ended, made);
}

// ---------------------------------------------------------------------------------------
// A stream with tool calls
// ---------------------------------------------------------------------------------------
/// The inner stream has no chunk with both a usage and content.
pub open spec fn usage_apart(event: Event) -> bool {
    event matches Event::Chunk(c) ==> c@.usage is Some ==> chunk_text(c@).len() == 0
}

proof fn lemma_done_polled(m: Remembered, events: Seq<(Event, u64)>, made: Made)
    requires
        m.state is Done,
        forall|k: int|
            0 <= k < events.len() ==> plain_event((#[trigger] events[k]).0) && usage_apart(
                events[k].0,
            ),
    ensures
        ({
            let steps = polled(m, events, made);
            &&& forall|j: int|
                0 <= j < steps.len() ==> step_text(#[trigger] steps[j]).len() == 0 && !gives_calls(
                    steps[j],
                )
            &&& forall|j: int|
                0 <= j < steps.len() && #[trigger] steps[j] is End ==> m.finish_emitted
                    || exists|k: int| 0 <= k < j && #[trigger] ends_with_calls(steps[k])
        }),
    decreases events.len(),
{
    if events.len() > 0 {
        let (event, now) = events[0];
        let steps = polled(m, events, made);
        let o = event_outcome(
            event,
            m.state,
            m.finish_emitted,
            made.starts,
            made.ends,
            made.model,
            made.id,
            now,
            m.next,
        );
        let after = Remembered {
            state: state_after(m.state, o),
            finish_emitted: m.finish_emitted || (event is Ended && m.state is Done),
            next: nth_id(m.next, o.ids),
        };
        assert(plain_event(events[0].0) && usage_apart(events[0].0));
        assert(after.state is Done);
        let taken: int = if o.step is Drain {
            2
        } else {
            1
        };
        if taken <= events.len() {
            let last = if o.step is Drain {
                Remembered { finish_emitted: m.finish_emitted || !(events[1].0 is Chunk), ..after }
            } else {
                after
            };
            let step = if o.step is Drain {
                drained_step(
                    events[1].0,
                    o.step->Drain_0,
                    m.finish_emitted,
                    made.model,
                    made.id,
                    events[1].1,
                )
            } else {
                o.step
            };
            if o.step is Drain {
                assert(plain_event(events[1].0) && usage_apart(events[1].0));
            }
            assert forall|k: int| 0 <= k < events.skip(taken).len() implies plain_event(
                (#[trigger] events.skip(taken)[k]).0,
            ) && usage_apart(events.skip(taken)[k].0) by {
                assert(events.skip(taken)[k] == events[k + taken]);
            }
            let later = polled(last, events.skip(taken), made);
            lemma_done_polled(last, events.skip(taken), made);
            assert(step_text(step).len() == 0 && !gives_calls(step));
            assert(step is End ==> m.finish_emitted);
            assert(last.finish_emitted ==> m.finish_emitted || ends_with_calls(step));
            assert(step is End || steps == seq![step] + later);
            assert(step is End ==> steps =~= seq![step]);
            assert forall|j: int| 0 <= j < steps.len() && #[trigger] steps[j] is End implies (
            m.finish_emitted || exists|k: int| 0 <= k < j && #[trigger] ends_with_calls(
                steps[k],
            )) by {
                if j > 0 && !m.finish_emitted {
                    assert(later[j - 1] is End);
                    if last.finish_emitted {
                        assert(ends_with_calls(steps[0]));
                    } else {
                        let k = choose|k: int| 0 <= k < j - 1 && #[trigger] ends_with_calls(later[k]);
                        assert(ends_with_calls(steps[k + 1]));
                    }
                }
            }
            assert forall|j: int| 0 <= j < steps.len() implies step_text(
                #[trigger] steps[j],
            ).len() == 0 && !gives_calls(steps[j]) by {
                if j > 0 {
                    assert(steps[j] == later[j - 1]);
                }
            }
        }
    }
}

/// Tool calls are given before the machine is done, and then it is.
proof fn lemma_calls_lead_to_done(m: Remembered, event: Event, now: u64, made: Made)
    requires
        plain_event(event),
    ensures
        ({
            let o = event_outcome(
                event,
                m.state,
                m.finish_emitted,
                made.starts,
                made.ends,
                made.model,
                made.id,
                now,
                m.next,
            );
            gives_calls(o.step) ==> state_after(m.state, o) is Done && !(m.state is Done)
        }),
{
}

/// Once tool calls were given, what comes later has neither content nor tool calls, and the
/// stream is not over before a chunk has ended the message with tool calls.
pub proof fn law_after_the_calls(
    m: Remembered,
    events: Seq<(Event, u64)>,
    made: Made,
    i: int,
    j: int,
)
    requires
        m.finish_emitted ==> m.state is Done,
        forall|k: int|
            0 <= k < events.len() ==> plain_event((#[trigger] events[k]).0) && usage_apart(
                events[k].0,
            ),
        0 <= i < j < polled(m, events, made).len(),
        gives_calls(polled(m, events, made)[i]),
    ensures
        ({
            let steps = polled(m, events, made);
            &&& step_text(steps[j]).len() == 0
            &&& !gives_calls(steps[j])
            &&& steps[j] is End ==> exists|k: int| i < k < j && #[trigger] ends_with_calls(steps[k])
        }),
    decreases events.len(),
{
    let steps = polled(m, events, made);
    if m.state is Done {
        lemma_done_polled(m, events, made);
        assert(!gives_calls(steps[i]));
    } else {
        let (event, now) = events[0];
        let o = event_outcome(
            event,
            m.state,
            m.finish_emitted,
            made.starts,
            made.ends,
            made.model,
            made.id,
            now,
            m.next,
        );
        let after = Remembered {
            state: state_after(m.state, o),
            finish_emitted: m.finish_emitted || (event is Ended && m.state is Done),
            next: nth_id(m.next, o.ids),
        };
        assert(plain_event(events[0].0));
        lemma_calls_lead_to_done(m, event, now, made);
        assert(!(o.step is Drain));
        let later = polled(after, events.skip(1), made);
        assert(steps == seq![o.step] + later);
        assert forall|k: int| 0 <= k < events.skip(1).len() implies plain_event(
            (#[trigger] events.skip(1)[k]).0,
        ) && usage_apart(events.skip(1)[k].0) by {
            assert(events.skip(1)[k] == events[k + 1]);
        }
        assert(steps[j] == later[j - 1]);
        if i == 0 {
            lemma_done_polled(after, events.skip(1), made);
            if steps[j] is End {
                let k = choose|k: int| 0 <= k < j - 1 && #[trigger] ends_with_calls(later[k]);
                assert(ends_with_calls(steps[k + 1]));
            }
        } else {
            assert(steps[i] == later[i - 1]);
            law_after_the_calls(after, events.skip(1), made, i - 1, j - 1);
            if steps[j] is End {
                let k = choose|k: int| i - 1 < k < j - 1 && #[trigger] ends_with_calls(later[k]);
                assert(ends_with_calls(steps[k + 1]));
            }
        }
    }
}

} // verus!
