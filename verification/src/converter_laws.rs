//! What holds of turning the provider's frames into chunks.
use crate::converter::ended_outcome;
use crate::converter::estimated_tokens;
use crate::converter::event_outcome;
use crate::converter::final_tokens;
use crate::converter::frame_outcome;
use crate::converter::hallucinated;
use crate::converter::safe_marked;
use crate::converter::usage_of;
use crate::converter::DsFrame;
use crate::converter::Event;
use crate::converter::Memory;
use crate::converter::Settings;
use crate::converter::StepView;
use crate::types::ChunkView;
use vstd::prelude::*;

verus! {

// ---------------------------------------------------------------------------------------
// Single events
// ---------------------------------------------------------------------------------------
/// The finish reason in the first choice of a chunk.
pub open spec fn finish_of(c: ChunkView) -> Option<Seq<char>> {
    if c.choices.len() == 0 {
        None
    } else {
        c.choices[0].finish_reason
    }
}

/// The message is ended once: a chunk with a finish reason is given only where none was given
/// before, from then on none is given, and the reason is always the same.
pub proof fn law_finished_once(event: Event, m: Memory, s: Settings)
    ensures
        ({
            let (after, step) = event_outcome(event, m, s);
            let ends = step matches StepView::Emit(c) && finish_of(c) is Some;
            &&& ends ==> !m.finished && after.finished
            &&& after.finished ==> m.finished || ends
            &&& m.finished ==> after.finished
            &&& ends ==> (step matches StepView::Emit(c) && finish_of(c) == Some("stop"@))
        }),
{
}

/// A stream that ends always ends its message: the end of the inner stream, where it was not
/// ended before, gives the chunk that ends it.
pub proof fn law_end_is_never_missing(m: Memory, s: Settings)
    ensures
        ({
            let (after, step) = ended_outcome(m, s);
            &&& after.finished
            &&& !m.finished ==> (step matches StepView::Emit(c) && finish_of(c) is Some)
        }),
{
}

/// The usage that is reported adds up, and an estimate is at least one token.
pub proof fn law_usage_adds_up(prompt: u32, completion: u32, characters: nat)
    requires
        prompt + completion <= u32::MAX,
    ensures
        usage_of(prompt, completion).total_tokens == prompt + completion,
        estimated_tokens(characters) >= 1,
        3 <= characters < 0x1_0000_0000 ==> estimated_tokens(characters) == characters / 3,
{
}

/// A message that is ended with its usage reports at least one token for the answer.
pub proof fn law_final_tokens_positive(m: Memory)
    ensures
        final_tokens(m) >= 1,
        m.usage_value matches Some(u) ==> u > 0 ==> final_tokens(m) == u,
{
}

// ---------------------------------------------------------------------------------------
// Many frames
// ---------------------------------------------------------------------------------------
/// The content in the first choice of a chunk.
pub open spec fn content_of(c: ChunkView) -> Seq<char> {
    if c.choices.len() == 0 {
        seq![]
    } else {
        match c.choices[0].delta.content {
            Some(t) => t,
            None => seq![],
        }
    }
}

/// The content that a step gives to the consumer.
pub open spec fn given_content(step: StepView) -> Seq<char> {
    match step {
        StepView::Emit(c) => content_of(c),
        _ => seq![],
    }
}

/// What is remembered after some frames, and the content given to the consumer on the way.
pub open spec fn run(frames: Seq<DsFrame>, m: Memory, s: Settings) -> (Memory, Seq<char>)
    decreases frames.len(),
{
    if frames.len() == 0 {
        (m, seq![])
    } else {
        let (after, step) = frame_outcome(frames[0], m, s);
        let (end, text) = run(frames.skip(1), after, s);
        (end, given_content(step) + text)
    }
}

/// The thinking in some frames, one piece behind the other.
pub open spec fn thinking_of(frames: Seq<DsFrame>) -> Seq<char>
    decreases frames.len(),
{
    if frames.len() == 0 {
        seq![]
    } else {
        let rest = thinking_of(frames.skip(1));
        match frames[0] {
            DsFrame::ThinkDelta(t) => t@ + rest,
            _ => rest,
        }
    }
}

/// The answer in some frames, one piece behind the other.
pub open spec fn answer_of(frames: Seq<DsFrame>) -> Seq<char>
    decreases frames.len(),
{
    if frames.len() == 0 {
        seq![]
    } else {
        let rest = answer_of(frames.skip(1));
        match frames[0] {
            DsFrame::ContentDelta(t) => t@ + rest,
            _ => rest,
        }
    }
}

/// The text, if there is any.
pub open spec fn text_or_empty(t: Option<Seq<char>>) -> Seq<char> {
    match t {
        Some(t) => t,
        None => seq![],
    }
}

/// A frame that does not end the message.
pub open spec fn goes_on(f: DsFrame) -> bool {
    !(f is Status) && !(f is Finish)
}

/// All the thinking is remembered, as long as the message is not ended.
pub proof fn law_thinking_remembered(frames: Seq<DsFrame>, m: Memory, s: Settings)
    requires
        forall|k: int| 0 <= k < frames.len() ==> goes_on(#[trigger] frames[k]),
    ensures
        text_or_empty(run(frames, m, s).0.fallback) == text_or_empty(m.fallback) + thinking_of(
            frames,
        ),
    decreases frames.len(),
{
    let text = text_or_empty(m.fallback);
    if frames.len() == 0 {
        assert(text + thinking_of(frames) =~= text);
    } else {
        assert(goes_on(frames[0]));
        assert forall|k: int| 0 <= k < frames.skip(1).len() implies goes_on(
            #[trigger] frames.skip(1)[k],
        ) by {
            assert(frames.skip(1)[k] == frames[k + 1]);
        }
        let (after, step) = frame_outcome(frames[0], m, s);
        law_thinking_remembered(frames.skip(1), after, s);
        if let DsFrame::ThinkDelta(t) = frames[0] {
            let rest = thinking_of(frames.skip(1));
            assert(text_or_empty(after.fallback) =~= text + t@);
            assert((text + t@) + rest =~= text + (t@ + rest));
        }
    }
}

/// A message of nothing but thinking gives the thinking as its content when it is finished.
pub proof fn law_thinking_becomes_content(frames: Seq<DsFrame>, status: String, m: Memory, s: Settings)
    requires
        forall|k: int| 0 <= k < frames.len() ==> frames[k] is ThinkDelta,
        frames.len() > 0,
        status@ == "FINISHED"@,
        !m.finished,
        !m.has_content,
        m.fallback is None,
    ensures
        ({
            let (end, given) = run(frames, m, s);
            let (_, step) = frame_outcome(DsFrame::Status(status), end, s);
            &&& given.len() == 0
            &&& step matches StepView::Emit(c) && content_of(c) == thinking_of(frames)
                && finish_of(c) == Some("stop"@)
        }),
{
    assert forall|k: int| 0 <= k < frames.len() implies goes_on(#[trigger] frames[k]) by {
        assert(frames[k] is ThinkDelta);
    }
    law_thinking_remembered(frames, m, s);
    lemma_only_thinking(frames, m, s);
    let (end, given) = run(frames, m, s);
    assert(Seq::<char>::empty() + thinking_of(frames) =~= thinking_of(frames));
}

proof fn lemma_only_thinking(frames: Seq<DsFrame>, m: Memory, s: Settings)
    requires
        forall|k: int| 0 <= k < frames.len() ==> frames[k] is ThinkDelta,
    ensures
        ({
            let (end, given) = run(frames, m, s);
            &&& given.len() == 0
            &&& end.finished == m.finished
            &&& end.has_content == m.has_content
            &&& frames.len() > 0 ==> end.fallback is Some
            &&& m.fallback is Some ==> end.fallback is Some
        }),
    decreases frames.len(),
{
    if frames.len() > 0 {
        assert(frames[0] is ThinkDelta);
        assert forall|k: int| 0 <= k < frames.skip(1).len() implies frames.skip(
            1,
        )[k] is ThinkDelta by {
            assert(frames.skip(1)[k] == frames[k + 1]);
        }
        let (after, step) = frame_outcome(frames[0], m, s);
        lemma_only_thinking(frames.skip(1), after, s);
    }
}

/// No mark of a made-up tool call stands in any piece of the answer.
pub open spec fn all_trusted(frames: Seq<DsFrame>) -> bool {
    forall|k: int|
        0 <= k < frames.len() ==> (#[trigger] frames[k] matches DsFrame::ContentDelta(t)
            ==> !hallucinated(t@))
}

/// An answer without marks of made-up tool calls is given in full, before the message is ended.
pub proof fn law_answer_given_in_full(frames: Seq<DsFrame>, m: Memory, s: Settings)
    requires
        all_trusted(frames),
        !m.suppressing,
        forall|k: int| 0 <= k < frames.len() ==> goes_on(#[trigger] frames[k]),
    ensures
        run(frames, m, s).1 == answer_of(frames),
        !run(frames, m, s).0.suppressing,
    decreases frames.len(),
{
    if frames.len() > 0 {
        assert(goes_on(frames[0]));
        assert(frames[0] matches DsFrame::ContentDelta(t) ==> !hallucinated(t@));
        assert forall|k: int| 0 <= k < frames.skip(1).len() implies (#[trigger] frames.skip(
            1,
        )[k] matches DsFrame::ContentDelta(t) ==> !hallucinated(t@)) && goes_on(
            frames.skip(1)[k],
        ) by {
            assert(frames.skip(1)[k] == frames[k + 1]);
        }
        let (after, step) = frame_outcome(frames[0], m, s);
        law_answer_given_in_full(frames.skip(1), after, s);
        let rest = answer_of(frames.skip(1));
        assert(Seq::<char>::empty() + rest =~= rest);
    }
}

/// Once a mark of a made-up tool call was seen, no content is given until a true tag comes.
pub proof fn law_suppressed_until_true_tag(frames: Seq<DsFrame>, m: Memory, s: Settings)
    requires
        m.suppressing,
        forall|k: int|
            0 <= k < frames.len() ==> goes_on(#[trigger] frames[k]) && (
            frames[k] matches DsFrame::ContentDelta(t) ==> !safe_marked(t@)),
    ensures
        run(frames, m, s).1.len() == 0,
        run(frames, m, s).0.suppressing,
    decreases frames.len(),
{
    if frames.len() > 0 {
        assert(goes_on(frames[0]));
        assert forall|k: int| 0 <= k < frames.skip(1).len() implies goes_on(
            #[trigger] frames.skip(1)[k],
        ) && (frames.skip(1)[k] matches DsFrame::ContentDelta(t) ==> !safe_marked(t@)) by {
            assert(frames.skip(1)[k] == frames[k + 1]);
        }
        let (after, step) = frame_outcome(frames[0], m, s);
        law_suppressed_until_true_tag(frames.skip(1), after, s);
    }
}

/// A piece with a true tag is always given, and ends the dropping of content.
pub proof fn law_true_tag_passes(text: String, m: Memory, s: Settings)
    requires
        safe_marked(text@),
    ensures
        ({
            let (after, step) = frame_outcome(DsFrame::ContentDelta(text), m, s);
            &&& !after.suppressing
            &&& step is Emit && given_content(step) == text@
        }),
{
}

} // verus!
