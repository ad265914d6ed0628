//! What each frame of the provider gives to the consumer, field by field, and what many frames
//! give together.
use crate::converter::event_outcome;
use crate::converter::frame_outcome;
use crate::converter::fresh_memory;
use crate::converter::hallucinated;
use crate::converter::late_outcome;
use crate::converter::result_lines;
use crate::converter::results_markdown;
use crate::converter::safe_marked;
use crate::converter::DsFrame;
use crate::converter::Event;
use crate::converter::Memory;
use crate::converter::SearchResult;
use crate::converter::Settings;
use crate::converter::StepView;
use crate::converter_laws::answer_of;
use crate::converter_laws::run;
use crate::converter_laws::text_or_empty;
use crate::converter_laws::thinking_of;
use crate::error::OpenAIAdapterError;
use crate::search::contains;
use crate::search::find;
use crate::search::lemma_find;
use crate::search::occurs_at;
use crate::text::decimal;
use crate::types::ChunkView;
use vstd::prelude::*;

verus! {

// ---------------------------------------------------------------------------------------
// Every chunk
// ---------------------------------------------------------------------------------------
/// Every chunk bears the identifier, the model and the time that it is made with, is a chunk of
/// a chat completion, and has at most one choice, numbered zero and without tool calls.
pub proof fn law_chunks_bear_the_settings(event: Event, m: Memory, s: Settings)
    ensures
        event_outcome(event, m, s).1 matches StepView::Emit(c) ==> {
            &&& c.id == s.id
            &&& c.model == s.model
            &&& c.created == s.created
            &&& c.object == "chat.completion.chunk"@
            &&& c.service_tier is None
            &&& c.system_fingerprint is None
            &&& c.choices.len() <= 1
            &&& c.choices.len() == 1 ==> c.choices[0].index == 0 && c.choices[0].logprobs is None
                && c.choices[0].delta.tool_calls is None
            &&& c.choices.len() == 0 ==> c.usage is Some
        },
{
}

/// A chunk that begins, goes on or ends a message adds one thing at most: a role, some of the
/// answer or some of the thinking.
pub proof fn law_one_thing_at_a_time(event: Event, m: Memory, s: Settings)
    ensures
        event_outcome(event, m, s).1 matches StepView::Emit(c) ==> c.choices.len() == 1 ==> {
            let d = c.choices[0].delta;
            &&& d.role is Some ==> d.content is None && d.reasoning_content is None
            &&& d.content is Some ==> d.role is None && d.reasoning_content is None
            &&& d.reasoning_content is Some ==> c.choices[0].finish_reason is None
            &&& d.role is Some ==> c.choices[0].finish_reason is None
        },
{
}

/// A failure of the inner stream is handed on as it is, and where nothing is there yet nothing
/// happens; neither changes what is remembered.
pub proof fn law_failures_handed_on(e: OpenAIAdapterError, m: Memory, s: Settings)
    ensures
        event_outcome(Event::Failed(e), m, s) == (m, StepView::Fail(e)),
        event_outcome(Event::Pending, m, s) == (m, StepView::Wait),
{
}

/// At first nothing is remembered: no message was ended, no usage reported, nothing given, nothing
/// dropped and nothing counted. So thinking in the first frame is all the thinking there is, and
/// the end of a stream without frames ends the message.
pub proof fn law_fresh_memory(text: String, s: Settings)
    ensures
        ({
            let m = fresh_memory();
            &&& !m.finished && !m.has_content && !m.suppressing
            &&& m.usage_value is None && m.fallback is None && m.total == 0
            &&& event_outcome(Event::Frame(DsFrame::ThinkDelta(text)), m, s).0.fallback == Some(
                text@,
            )
            &&& event_outcome(Event::Ended, m, s).1 is Emit
        }),
{
}

// ---------------------------------------------------------------------------------------
// Single frames
// ---------------------------------------------------------------------------------------
/// The beginning of an answer gives the role, and the tokens of the prompt alone as usage,
/// whether or not a usage was asked for. It is not remembered.
pub proof fn law_role_given(m: Memory, s: Settings)
    ensures
        ({
            let (after, step) = event_outcome(Event::Frame(DsFrame::Role), m, s);
            &&& after == m
            &&& step matches StepView::Emit(c) && c.choices.len() == 1
            &&& step matches StepView::Emit(c) ==> {
                &&& c.choices[0].delta.role == Some("assistant"@)
                &&& c.choices[0].delta.content is None
                &&& c.choices[0].delta.reasoning_content is None
                &&& c.choices[0].finish_reason is None
                &&& c.usage matches Some(u) && u.prompt_tokens == s.prompt_tokens
                    && u.completion_tokens == 0 && u.total_tokens == s.prompt_tokens
                    && u.prompt_tokens_details is None && u.completion_tokens_details is None
            }
        }),
{
}

/// A piece of thinking gives exactly its own text as thinking and nothing else, whatever is
/// remembered; its text is appended to the thinking that is remembered, and its characters
/// count.
pub proof fn law_thinking_given(text: String, m: Memory, s: Settings)
    ensures
        ({
            let (after, step) = event_outcome(Event::Frame(DsFrame::ThinkDelta(text)), m, s);
            &&& step matches StepView::Emit(c) && c.choices.len() == 1 && c.usage is None
            &&& step matches StepView::Emit(c) ==> {
                &&& c.choices[0].delta.reasoning_content == Some(text@)
                &&& c.choices[0].delta.content is None
                &&& c.choices[0].delta.role is None
                &&& c.choices[0].finish_reason is None
            }
            &&& after.fallback == Some(text_or_empty(m.fallback) + text@)
            &&& after.total == m.total + text@.len()
            &&& after.finished == m.finished
            &&& after.usage_value == m.usage_value
            &&& after.has_content == m.has_content
            &&& after.suppressing == m.suppressing
        }),
{
    assert(Seq::<char>::empty() + text@ =~= text@);
}

/// What a search found is given as thinking and nothing else, and is not remembered.
pub proof fn law_search_given(results: Vec<SearchResult>, m: Memory, s: Settings)
    ensures
        ({
            let (after, step) = event_outcome(Event::Frame(DsFrame::SearchResults(results)), m, s);
            &&& after == m
            &&& step matches StepView::Emit(c) && c.choices.len() == 1 && c.usage is None
            &&& step matches StepView::Emit(c) ==> {
                &&& c.choices[0].delta.reasoning_content == Some(results_markdown(results@))
                &&& c.choices[0].delta.content is None
                &&& c.choices[0].delta.role is None
                &&& c.choices[0].finish_reason is None
            }
        }),
{
}

/// `mark` stands somewhere in `text`.
pub open spec fn holds_mark(text: Seq<char>, mark: Seq<char>) -> bool {
    exists|a: Seq<char>, b: Seq<char>| text == #[trigger] (a + mark + b)
}

proof fn lemma_holds_mark(text: Seq<char>, mark: Seq<char>)
    ensures
        contains(text, mark) == holds_mark(text, mark),
{
    lemma_find(text, mark);
    if contains(text, mark) {
        let i = find(text, mark)->0;
        assert(text =~= text.take(i) + mark + text.skip(i + mark.len()));
    }
    if holds_mark(text, mark) {
        let (a, b) = choose|a: Seq<char>, b: Seq<char>| text == #[trigger] (a + mark + b);
        assert((a + mark + b).subrange(a.len() as int, (a.len() + mark.len()) as int) =~= mark);
        assert(occurs_at(text, mark, a.len() as int));
    }
}

/// A text has a mark of a made-up tool call exactly where one of four marks stands in it, and a
/// true tag exactly where one of two beginnings of a tag does.
pub proof fn law_marks(text: Seq<char>)
    ensures
        hallucinated(text) <==> {
            ||| holds_mark(text, "**Tool Call:"@)
            ||| holds_mark(text, "Status: Completed"@)
            ||| holds_mark(text, "Web search results for query:"@)
            ||| holds_mark(text, "Terminal:\n```"@)
        },
        safe_marked(text) <==> {
            ||| holds_mark(text, "<|tool_calls"@)
            ||| holds_mark(text, "<|tool\u{2581}calls"@)
        },
{
    lemma_holds_mark(text, "**Tool Call:"@);
    lemma_holds_mark(text, "Status: Completed"@);
    lemma_holds_mark(text, "Web search results for query:"@);
    lemma_holds_mark(text, "Terminal:\n```"@);
    lemma_holds_mark(text, "<|tool_calls"@);
    lemma_holds_mark(text, "<|tool\u{2581}calls"@);
}

/// A piece of the answer is given as content and nothing else, unless it is dropped: because of
/// a mark of a made-up tool call in it or in one dropped before, where no true tag is in it. A
/// piece that is dropped gives nothing, and all that follows is dropped too, up to a true tag.
/// Given or dropped, its characters count.
pub proof fn law_answer_given_or_dropped(text: String, m: Memory, s: Settings)
    ensures
        ({
            let (after, step) = event_outcome(Event::Frame(DsFrame::ContentDelta(text)), m, s);
            let gone = !safe_marked(text@) && (m.suppressing || hallucinated(text@));
            &&& gone ==> step is Again && after.suppressing && after.has_content == m.has_content
            &&& !gone ==> !after.suppressing && after.has_content
            &&& !gone ==> (step matches StepView::Emit(c) && c.choices.len() == 1 && c.usage is None
                && c.choices[0].delta.content == Some(text@)
                && c.choices[0].delta.reasoning_content is None && c.choices[0].delta.role is None
                && c.choices[0].finish_reason is None)
            &&& after.total == m.total + text@.len()
            &&& after.fallback == m.fallback
            &&& after.finished == m.finished
            &&& after.usage_value == m.usage_value
        }),
{
}

/// A reported usage is given in a chunk of its own, where a usage was asked for and it is not
/// zero; it is remembered in any case, in place of one reported before.
pub proof fn law_usage_given(u: u32, m: Memory, s: Settings)
    requires
        s.prompt_tokens + u <= u32::MAX,
    ensures
        ({
            let (after, step) = event_outcome(Event::Frame(DsFrame::Usage(u)), m, s);
            &&& after == (Memory { usage_value: Some(u), ..m })
            &&& step is Emit <==> s.include_usage && u > 0
            &&& !(step is Emit) ==> step is Again
            &&& step matches StepView::Emit(c) ==> c.choices.len() == 0 && (
            c.usage matches Some(v) && v.prompt_tokens == s.prompt_tokens && v.completion_tokens
                == u && v.total_tokens == s.prompt_tokens + u && v.prompt_tokens_details is None
                && v.completion_tokens_details is None)
        }),
{
}

/// A status other than the one that finishes a message changes nothing and gives nothing; nor
/// does any status, nor the end of the answer, once the message was ended.
pub proof fn law_other_frames_ignored(status: String, m: Memory, s: Settings)
    ensures
        status@ != "FINISHED"@ || m.finished ==> event_outcome(
            Event::Frame(DsFrame::Status(status)),
            m,
            s,
        ) == (m, StepView::Again),
        m.finished ==> event_outcome(Event::Frame(DsFrame::Finish), m, s) == (m, StepView::Again),
{
}

// ---------------------------------------------------------------------------------------
// The end of a message
// ---------------------------------------------------------------------------------------
/// The tokens that an answer of so many characters is taken for.
pub open spec fn third(characters: nat) -> nat {
    if characters < 6 {
        1
    } else {
        characters / 3
    }
}

/// The chunk that ends a message says that it stopped, and has a usage exactly where one was
/// asked for: the tokens of the prompt, and what the provider reported or, where that is missing
/// or zero, a third of the characters, but at least one.
pub open spec fn ends_message(step: StepView, content: Option<Seq<char>>, m: Memory, s: Settings) -> bool {
    &&& step matches StepView::Emit(c) && c.choices.len() == 1
    &&& step matches StepView::Emit(c) ==> {
        &&& c.choices[0].finish_reason == Some("stop"@)
        &&& c.choices[0].delta.content == content
        &&& c.choices[0].delta.reasoning_content is None
        &&& c.choices[0].delta.role is None
        &&& c.usage is Some == s.include_usage
        &&& c.usage matches Some(v) ==> {
            &&& v.prompt_tokens == s.prompt_tokens
            &&& m.usage_value is Some && m.usage_value->0 > 0 ==> v.completion_tokens
                == m.usage_value->0
            &&& m.usage_value is None || m.usage_value->0 == 0 ==> v.completion_tokens == third(
                m.total,
            )
            &&& v.prompt_tokens + v.completion_tokens <= u32::MAX ==> v.total_tokens
                == v.prompt_tokens + v.completion_tokens
            &&& v.prompt_tokens_details is None
            &&& v.completion_tokens_details is None
        }
    }
}

/// A message that was not ended is ended by its status, by the end of the answer and by the end
/// of the inner stream. Where none of the answer was given, the status gives the thinking as
/// content, and forgets it. A usage that was asked for is given, and forgotten.
pub proof fn law_message_ended(status: String, m: Memory, s: Settings)
    requires
        !m.finished,
        status@ == "FINISHED"@,
        m.total < 0x1_0000_0000,
    ensures
        ({
            let (after, step) = event_outcome(Event::Frame(DsFrame::Status(status)), m, s);
            let thinking = if m.has_content {
                None
            } else {
                m.fallback
            };
            &&& ends_message(step, thinking, m, s)
            &&& after.finished
            &&& after.fallback == (if m.has_content {
                m.fallback
            } else {
                None
            })
            &&& after.usage_value == (if s.include_usage {
                None
            } else {
                m.usage_value
            })
            &&& after.total == m.total
            &&& after.has_content == m.has_content
            &&& after.suppressing == m.suppressing
        }),
        ({
            let (after, step) = event_outcome(Event::Frame(DsFrame::Finish), m, s);
            &&& ends_message(step, None, m, s)
            &&& after.finished
            &&& after.usage_value == (if s.include_usage {
                None
            } else {
                m.usage_value
            })
            &&& after == (Memory { finished: true, usage_value: after.usage_value, ..m })
        }),
        event_outcome(Event::Ended, m, s) == event_outcome(Event::Frame(DsFrame::Finish), m, s),
{
}

/// Once a message was ended, the end of the inner stream gives the usage that was reported after
/// it, where one was asked for and it is not zero, and then ends the stream.
pub proof fn law_stream_ends(m: Memory, s: Settings)
    requires
        m.finished,
        m.usage_value matches Some(u) ==> s.prompt_tokens + u <= u32::MAX,
    ensures
        ({
            let (after, step) = event_outcome(Event::Ended, m, s);
            &&& step is Emit <==> s.include_usage && m.usage_value is Some && m.usage_value->0 > 0
            &&& !(step is Emit) ==> step is End
            &&& step matches StepView::Emit(c) ==> c.choices.len() == 0 && (
            c.usage matches Some(v) && v.prompt_tokens == s.prompt_tokens && v.completion_tokens
                == m.usage_value->0 && v.total_tokens == s.prompt_tokens + m.usage_value->0)
            &&& after.finished
            &&& event_outcome(Event::Ended, after, s) == (after, StepView::End)
        }),
{
}

/// A usage that was reported after the message was ended is given in a chunk of its own, where
/// one was asked for, and only once; nothing else is given in this way.
pub proof fn law_late_usage_given(m: Memory, s: Settings)
    requires
        m.usage_value matches Some(u) ==> s.prompt_tokens + u <= u32::MAX,
    ensures
        ({
            let (after, given) = late_outcome(m, s);
            &&& given is Some <==> m.finished && s.include_usage && m.usage_value is Some
            &&& given is None ==> after == m
            &&& given matches Some(c) ==> {
                &&& c.id == s.id && c.model == s.model && c.created == s.created
                &&& c.object == "chat.completion.chunk"@
                &&& c.choices.len() == 0
                &&& c.usage matches Some(v) && v.prompt_tokens == s.prompt_tokens
                    && v.completion_tokens == m.usage_value->0 && v.total_tokens == s.prompt_tokens
                    + m.usage_value->0
                &&& after.usage_value is None
                &&& after == (Memory { usage_value: None, ..m })
            }
            &&& late_outcome(after, s) == (after, None::<ChunkView>)
        }),
{
}

// ---------------------------------------------------------------------------------------
// Many frames
// ---------------------------------------------------------------------------------------
/// The thinking in the first choice of a chunk.
pub open spec fn reasoning_of(c: ChunkView) -> Seq<char> {
    if c.choices.len() == 0 {
        seq![]
    } else {
        text_or_empty(c.choices[0].delta.reasoning_content)
    }
}

/// The thinking that a step gives to the consumer.
pub open spec fn given_reasoning(step: StepView) -> Seq<char> {
    match step {
        StepView::Emit(c) => reasoning_of(c),
        _ => seq![],
    }
}

/// The thinking that some frames give to the consumer, one piece behind the other.
pub open spec fn reasoning_run(frames: Seq<DsFrame>, m: Memory, s: Settings) -> Seq<char>
    decreases frames.len(),
{
    if frames.len() == 0 {
        seq![]
    } else {
        let (after, step) = frame_outcome(frames[0], m, s);
        given_reasoning(step) + reasoning_run(frames.skip(1), after, s)
    }
}

/// Without search results, the thinking that is given to the consumer, one piece behind the
/// other, is the thinking in the frames: nothing is lost, doubled or added, whatever else comes
/// between and whatever is remembered.
pub proof fn law_thinking_given_in_full(frames: Seq<DsFrame>, m: Memory, s: Settings)
    requires
        forall|k: int| 0 <= k < frames.len() ==> !(#[trigger] frames[k] is SearchResults),
    ensures
        reasoning_run(frames, m, s) == thinking_of(frames),
    decreases frames.len(),
{
    if frames.len() > 0 {
        assert(!(frames[0] is SearchResults));
        assert forall|k: int| 0 <= k < frames.skip(1).len() implies !(#[trigger] frames.skip(
            1,
        )[k] is SearchResults) by {
            assert(frames.skip(1)[k] == frames[k + 1]);
        }
        let (after, step) = frame_outcome(frames[0], m, s);
        law_thinking_given_in_full(frames.skip(1), after, s);
        let rest = thinking_of(frames.skip(1));
        assert(Seq::<char>::empty() + rest =~= rest);
        if let DsFrame::ThinkDelta(t) = frames[0] {
            assert(given_reasoning(step) =~= t@);
        } else {
            assert(given_reasoning(step) =~= Seq::<char>::empty());
        }
    }
}

/// Every character of the thinking and of the answer counts, once, given or dropped.
pub proof fn law_characters_counted(frames: Seq<DsFrame>, m: Memory, s: Settings)
    ensures
        run(frames, m, s).0.total == m.total + thinking_of(frames).len() + answer_of(frames).len(),
    decreases frames.len(),
{
    if frames.len() > 0 {
        let (after, step) = frame_outcome(frames[0], m, s);
        law_characters_counted(frames.skip(1), after, s);
    }
}

/// The order of two frames of thinking and answer does not matter for what each of them gives.
pub proof fn law_thinking_apart_from_answer(
    thinking: String,
    answer: String,
    m: Memory,
    s: Settings,
)
    ensures
        ({
            let first = frame_outcome(DsFrame::ThinkDelta(thinking), m, s);
            let second = frame_outcome(DsFrame::ContentDelta(answer), m, s);
            &&& frame_outcome(DsFrame::ContentDelta(answer), first.0, s).1 == second.1
            &&& frame_outcome(DsFrame::ThinkDelta(thinking), second.0, s).1 == first.1
        }),
{
}

// ---------------------------------------------------------------------------------------
// Search results
// ---------------------------------------------------------------------------------------
/// The list of search results is a heading, a line for each result in their order, and an empty
/// line. A line has the number of the result, counted from one, its title as the text of a link
/// and its address as where the link leads.
pub proof fn law_markdown_grows(results: Seq<SearchResult>, r: SearchResult)
    ensures
        results_markdown(seq![]) == "🔍 **搜索结果:**\n\n"@ + "\n"@,
        results_markdown(results.push(r)) == results_markdown(results).drop_last() + decimal(
            results.len() + 1,
        ) + ". ["@ + r.title@ + "]("@ + r.url@ + ")\n"@ + "\n"@,
{
    let head = "🔍 **搜索结果:**\n\n"@;
    let none = Seq::<SearchResult>::empty();
    assert(head + result_lines(none, 0) =~= head);
    let more = results.push(r);
    let n = results.len();
    lemma_same_lines(results, more, n);
    reveal_strlit("\n");
    assert(results_markdown(results).drop_last() =~= head + result_lines(results, n));
    assert(more[n as int] == r);
    assert(results_markdown(more) =~= results_markdown(results).drop_last() + decimal(n + 1)
        + ". ["@ + r.title@ + "]("@ + r.url@ + ")\n"@ + "\n"@);
}

proof fn lemma_same_lines(a: Seq<SearchResult>, b: Seq<SearchResult>, n: nat)
    requires
        n <= a.len(),
        n <= b.len(),
        forall|k: int| 0 <= k < n ==> a[k] == b[k],
    ensures
        result_lines(a, n) == result_lines(b, n),
    decreases n,
{
    if n > 0 {
        lemma_same_lines(a, b, (n - 1) as nat);
    }
}

} // verus!
