//! What the contracts speak of is all that there is: the views of the data show every field, and
//! what is said to stay the same is all that could change.
use crate::adapter::choice_view;
use crate::adapter::opt_items;
use crate::adapter::tool_views;
use crate::adapter::ChoiceView;
use crate::adapter::Tool;
use crate::adapter::ToolChoice;
use crate::chat_flow::ChatFlow;
use crate::converter::event_fits;
use crate::converter::final_tokens;
use crate::converter::ConverterStream;
use crate::converter::DsFrame;
use crate::converter::Event;
use crate::converter::Memory;
use crate::converter::Settings;
use crate::converter::Step as ConverterStep;
use crate::converter::StepView as ConverterStepView;
use crate::error::ErrorView;
use crate::error::OpenAIAdapterError;
use crate::invoke::invoke_views;
use crate::invoke::RawInvoke;
use crate::tags::span;
use crate::tags::TagConfig;
use crate::text::pos;
use crate::tool_parser::parsed_view;
use crate::tool_stream::StateView;
use crate::tool_stream::Step;
use crate::tool_stream::StepView;
use crate::tool_stream::ToolCallStream;
use crate::tool_stream::ToolParseState;
use crate::types::ChatCompletionsResponseChunk;
use crate::types::ToolCall;
use vstd::prelude::*;

verus! {

// ---------------------------------------------------------------------------------------
// Chunks
// ---------------------------------------------------------------------------------------
/// The view of a chunk shows every field of it.
pub proof fn law_chunk_shown(c: ChatCompletionsResponseChunk, k: int)
    requires
        0 <= k < c.choices@.len(),
    ensures
        c@.id == c.id@,
        c@.object == c.object@,
        c@.created == c.created,
        c@.model == c.model@,
        c@.usage == c.usage,
        c.service_tier is None <==> c@.service_tier is None,
        c.service_tier matches Some(t) ==> c@.service_tier == Some(t@),
        c.system_fingerprint is None <==> c@.system_fingerprint is None,
        c.system_fingerprint matches Some(t) ==> c@.system_fingerprint == Some(t@),
        c@.choices.len() == c.choices@.len(),
        ({
            let shown = c@.choices[k];
            let choice = c.choices@[k];
            &&& shown.index == choice.index
            &&& choice.logprobs is None <==> shown.logprobs is None
            &&& choice.logprobs matches Some(t) ==> shown.logprobs == Some(t@)
            &&& choice.finish_reason is None <==> shown.finish_reason is None
            &&& choice.finish_reason matches Some(t) ==> shown.finish_reason == Some(t@)
            &&& choice.delta.role is None <==> shown.delta.role is None
            &&& choice.delta.role matches Some(t) ==> shown.delta.role == Some(t@)
            &&& choice.delta.content is None <==> shown.delta.content is None
            &&& choice.delta.content matches Some(t) ==> shown.delta.content == Some(t@)
            &&& choice.delta.reasoning_content is None <==> shown.delta.reasoning_content is None
            &&& choice.delta.reasoning_content matches Some(t) ==> shown.delta.reasoning_content
                == Some(t@)
            &&& choice.delta.tool_calls is None <==> shown.delta.tool_calls is None
            &&& choice.delta.tool_calls matches Some(calls) ==> (
            shown.delta.tool_calls matches Some(list) && list.len() == calls@.len() && forall|
                j: int,
            |
                0 <= j < calls@.len() ==> #[trigger] list[j] == calls@[j]@)
        }),
{
}

/// The view of a tool call shows every field of it.
pub proof fn law_call_shown(c: ToolCall)
    ensures
        c@.id == c.id@,
        c@.ty == c.ty@,
        c@.index == c.index,
        c.function is None <==> c@.function is None,
        c.function matches Some(f) ==> (c@.function matches Some(g) && g.name == f.name@
            && g.arguments == f.arguments@),
        c.custom is None <==> c@.custom is None,
        c.custom matches Some(f) ==> (c@.custom matches Some(g) && g.name == f.name@ && g.input
            == f.input@),
{
}

// ---------------------------------------------------------------------------------------
// Requests, errors and invocations
// ---------------------------------------------------------------------------------------
/// The view of an error shows its kind and its text.
pub proof fn law_error_shown(e: OpenAIAdapterError)
    ensures
        e matches OpenAIAdapterError::BadRequest(t) ==> e@ == ErrorView::BadRequest(t@),
        e is Overloaded ==> e@ is Overloaded,
        e matches OpenAIAdapterError::ProviderError(t) ==> e@ == ErrorView::ProviderError(t@),
        e matches OpenAIAdapterError::Internal(t) ==> e@ == ErrorView::Internal(t@),
        e matches OpenAIAdapterError::ToolCallRepairNeeded(t) ==> e@
            == ErrorView::ToolCallRepairNeeded(t@),
{
}

/// The views of a tool and of a tool choice show all that they say.
pub proof fn law_tools_shown<F, C, O>(tool: Tool<F, C>, choice: ToolChoice<O>)
    ensures
        tool@.ty == tool.ty@,
        tool@.function == tool.function,
        tool@.custom == tool.custom,
        choice matches ToolChoice::Mode(mode) ==> choice@ == ChoiceView::<O>::Mode(mode@),
        choice matches ToolChoice::Named(n) ==> (choice@ matches ChoiceView::Named { ty, name }
            && ty == n.ty@ && name == n.function.name@),
        choice matches ToolChoice::Other(o) ==> choice@ == ChoiceView::Other(o),
{
}

/// The views of invocations show their names and their parameters, in their order.
pub proof fn law_invocations_shown(v: Seq<RawInvoke>, k: int, j: int)
    requires
        0 <= k < v.len(),
        0 <= j < v[k].params@.len(),
    ensures
        invoke_views(v).len() == v.len(),
        invoke_views(v)[k].name == v[k].name@,
        invoke_views(v)[k].params.len() == v[k].params@.len(),
        invoke_views(v)[k].params[j] == (v[k].params@[j].name@, v[k].params@[j].value@),
{
}

/// Optional lists, choices and results are shown as they are, or as missing.
pub proof fn law_options_shown<F, C, O>(
    tools: Option<Vec<Tool<F, C>>>,
    items: Option<Vec<F>>,
    choice: Option<ToolChoice<O>>,
    result: Option<(Vec<ToolCall>, String)>,
)
    ensures
        tools is None <==> tool_views(tools) is None,
        tools matches Some(t) ==> tool_views(tools)->0.len() == t@.len() && forall|k: int|
            0 <= k < t@.len() ==> #[trigger] tool_views(tools)->0[k] == t@[k]@,
        items is None <==> opt_items(items) is None,
        items matches Some(v) ==> opt_items(items) == Some(v@),
        choice is None <==> choice_view(choice) is None,
        choice matches Some(c) ==> choice_view(choice) == Some(c@),
        result is None <==> parsed_view(result) is None,
        result matches Some((calls, rest)) ==> (parsed_view(result) matches Some((list, text))
            && text == rest@ && list.len() == calls@.len() && forall|k: int|
            0 <= k < calls@.len() ==> #[trigger] list[k] == calls@[k]@),
{
}

/// The tags of a deployment are looked for as they are, in their order.
pub proof fn law_tags_shown(cfg: TagConfig, k: int)
    ensures
        cfg.start_texts().len() == cfg.starts@.len(),
        cfg.end_texts().len() == cfg.ends@.len(),
        0 <= k < cfg.starts@.len() ==> cfg.start_texts()[k] == cfg.starts@[k]@,
        0 <= k < cfg.ends@.len() ==> cfg.end_texts()[k] == cfg.ends@[k]@,
{
}

/// Two attempts at the same request differ in their numbers alone.
pub proof fn law_same_request(flow: ChatFlow, other: ChatFlow)
    ensures
        flow.same_request(other) <==> flow.prompt == other.prompt && flow.thinking_enabled
            == other.thinking_enabled && flow.has_http_urls == other.has_http_urls
            && flow.model_type == other.model_type && flow.stream == other.stream
            && flow.include_usage == other.include_usage && flow.include_obfuscation
            == other.include_obfuscation && flow.stop == other.stop && flow.prompt_tokens
            == other.prompt_tokens,
{
}

/// A place that a search gives is the place that it names.
pub proof fn law_places_shown(i: usize, n: usize)
    ensures
        pos(Some(i)) == Some(i as int),
        pos(None) is None,
        span(Some((i, n))) == Some((i as int, n as int)),
        span(None) is None,
{
}

// ---------------------------------------------------------------------------------------
// Streams
// ---------------------------------------------------------------------------------------
/// The view of what the machine is doing shows all that it holds.
pub proof fn law_state_shown(s: ToolParseState)
    ensures
        s matches ToolParseState::Detecting { buffer } ==> s@ == StateView::Detecting(buffer@),
        s matches ToolParseState::CollectingXml { buf, start_tag } ==> s@ == StateView::Collecting(
            buf@,
            start_tag@,
        ),
        s is Done ==> s@ is Done,
{
}

/// The views of what is to be done show it as it is.
pub proof fn law_steps_shown(step: Step, other: ConverterStep)
    ensures
        step matches Step::Emit(c) ==> step@ == StepView::Emit(c@),
        step matches Step::Fail(e) ==> step@ == StepView::Fail(e),
        step is Again ==> step@ is Again,
        step matches Step::Drain(u) ==> step@ == StepView::Drain(u),
        step is End ==> step@ is End,
        step is Wait ==> step@ is Wait,
        step is Fault ==> step@ is Fault,
        other matches ConverterStep::Emit(c) ==> other@ == ConverterStepView::Emit(c@),
        other matches ConverterStep::Fail(e) ==> other@ == ConverterStepView::Fail(e),
        other is Again ==> other@ is Again,
        other is End ==> other@ is End,
        other is Wait ==> other@ is Wait,
{
}

/// What a converter remembers and what it was made with is all that is in it.
pub proof fn law_converter_shown<S>(c: ConverterStream<S>, other: ConverterStream<S>, created: u64)
    ensures
        c.memory().finished == c.finished,
        c.memory().usage_value == c.usage_value,
        c.fallback_content is None <==> c.memory().fallback is None,
        c.fallback_content matches Some(t) ==> c.memory().fallback == Some(t@),
        c.memory().has_content == c.has_content,
        c.memory().suppressing == c.suppress_content,
        c.memory().total == c.total_output_chars,
        c.settings(created).model == c.model@,
        c.settings(created).include_usage == c.include_usage,
        c.settings(created).prompt_tokens == c.prompt_tokens,
        c.settings(created).id == c.chatcmpl_id@,
        c.settings(created).created == created,
        c.same_settings(other) ==> c.inner == other.inner && c.model == other.model
            && c.include_usage == other.include_usage && c.include_obfuscation
            == other.include_obfuscation && c.prompt_tokens == other.prompt_tokens && c.chatcmpl_id
            == other.chatcmpl_id,
{
}

/// What is said to stay the same in a stream is all but what the machine is doing.
pub proof fn law_stream_settings_shown<S>(c: ToolCallStream<S>, other: ToolCallStream<S>)
    ensures
        c.same_settings(other) ==> c.inner == other.inner && c.model == other.model
            && c.chatcmpl_id == other.chatcmpl_id && c.tag_config == other.tag_config,
{
}

/// An event that adds characters fits as long as they can be counted, and one that reports a
/// usage as long as its sum can be; where no usage was asked for, that does not matter. All
/// other events fit.
pub proof fn law_events_that_fit(event: Event, m: Memory, s: Settings)
    ensures
        event matches Event::Frame(DsFrame::ThinkDelta(text)) ==> (event_fits(event, m, s) <==> m.total
            + text@.len() <= usize::MAX),
        event matches Event::Frame(DsFrame::ContentDelta(text)) ==> (event_fits(event, m, s)
            <==> m.total + text@.len() <= usize::MAX),
        event matches Event::Frame(DsFrame::Usage(u)) ==> (event_fits(event, m, s)
            <==> !s.include_usage || s.prompt_tokens + u <= u32::MAX),
        event matches Event::Frame(DsFrame::Status(_)) || event matches Event::Frame(
            DsFrame::Finish,
        ) || event is Ended ==> !s.include_usage || s.prompt_tokens + final_tokens(m) <= u32::MAX
            && (m.usage_value matches Some(u) ==> s.prompt_tokens + u <= u32::MAX) ==> event_fits(
            event,
            m,
            s,
        ),
        event matches Event::Frame(DsFrame::Role) ==> event_fits(event, m, s),
        event matches Event::Frame(DsFrame::SearchResults(_)) ==> event_fits(event, m, s),
        event is Failed || event is Pending ==> event_fits(event, m, s),
{
}

} // verus!
