//! The values that flow through the response pipeline.
use crate::text::same_text;
use vstd::prelude::*;

verus! {

/// The name of a function and its arguments as JSON text.
#[derive(Debug, Clone)]
pub struct FunctionCall {
    pub name: String,
    pub arguments: String,
}

/// The name of a custom tool and its input.
#[derive(Debug, Clone)]
pub struct CustomToolCall {
    pub name: String,
    pub input: String,
}

/// A call of a tool.
#[derive(Debug, Clone)]
pub struct ToolCall {
    pub id: String,
    pub ty: String,
    pub function: Option<FunctionCall>,
    pub custom: Option<CustomToolCall>,
    pub index: u32,
}

/// What a chunk adds to the message.
#[derive(Debug, Clone)]
pub struct Delta {
    pub role: Option<&'static str>,
    pub content: Option<String>,
    pub reasoning_content: Option<String>,
    pub tool_calls: Option<Vec<ToolCall>>,
}

/// One of the alternatives in a chunk.
#[derive(Debug, Clone)]
pub struct ChunkChoice {
    pub index: u32,
    pub delta: Delta,
    pub finish_reason: Option<&'static str>,
    /// Log probabilities, as JSON text.
    pub logprobs: Option<String>,
}

#[derive(Debug, Clone, Copy)]
pub struct PromptTokensDetails {
    pub cached_tokens: u32,
}

#[derive(Debug, Clone, Copy)]
pub struct CompletionTokensDetails {
    pub reasoning_tokens: u32,
}

/// How many tokens a completion took.
#[derive(Debug, Clone, Copy)]
pub struct Usage {
    pub prompt_tokens: u32,
    pub completion_tokens: u32,
    pub total_tokens: u32,
    pub prompt_tokens_details: Option<PromptTokensDetails>,
    pub completion_tokens_details: Option<CompletionTokensDetails>,
}

/// One chunk of a streamed completion.
#[derive(Debug, Clone)]
pub struct ChatCompletionsResponseChunk {
    pub id: String,
    pub object: &'static str,
    pub created: u64,
    pub model: String,
    pub choices: Vec<ChunkChoice>,
    pub usage: Option<Usage>,
    pub service_tier: Option<String>,
    pub system_fingerprint: Option<String>,
}

/// The object type of every chunk.
pub const CHUNK_OBJECT: &'static str = "chat.completion.chunk";

// ---------------------------------------------------------------------------------------
// Views
// ---------------------------------------------------------------------------------------
#[verifier::ext_equal]
pub struct FunctionCallView {
    pub name: Seq<char>,
    pub arguments: Seq<char>,
}

#[verifier::ext_equal]
pub struct CustomToolCallView {
    pub name: Seq<char>,
    pub input: Seq<char>,
}

#[verifier::ext_equal]
pub struct ToolCallView {
    pub id: Seq<char>,
    pub ty: Seq<char>,
    pub function: Option<FunctionCallView>,
    pub custom: Option<CustomToolCallView>,
    pub index: u32,
}

#[verifier::ext_equal]
pub struct DeltaView {
    pub role: Option<Seq<char>>,
    pub content: Option<Seq<char>>,
    pub reasoning_content: Option<Seq<char>>,
    pub tool_calls: Option<Seq<ToolCallView>>,
}

#[verifier::ext_equal]
pub struct ChunkChoiceView {
    pub index: u32,
    pub delta: DeltaView,
    pub finish_reason: Option<Seq<char>>,
    pub logprobs: Option<Seq<char>>,
}

#[verifier::ext_equal]
pub struct ChunkView {
    pub id: Seq<char>,
    pub object: Seq<char>,
    pub created: u64,
    pub model: Seq<char>,
    pub choices: Seq<ChunkChoiceView>,
    pub usage: Option<Usage>,
    pub service_tier: Option<Seq<char>>,
    pub system_fingerprint: Option<Seq<char>>,
}

/// The text of an optional string.
pub open spec fn opt_text(s: Option<String>) -> Option<Seq<char>> {
    match s {
        Some(t) => Some(t@),
        None => None,
    }
}

/// The text of an optional fixed string.
pub open spec fn opt_str(s: Option<&'static str>) -> Option<Seq<char>> {
    match s {
        Some(t) => Some(t@),
        None => None,
    }
}

impl View for FunctionCall {
    type V = FunctionCallView;

    open spec fn view(&self) -> FunctionCallView {
        FunctionCallView { name: self.name@, arguments: self.arguments@ }
    }
}

impl View for CustomToolCall {
    type V = CustomToolCallView;

    open spec fn view(&self) -> CustomToolCallView {
        CustomToolCallView { name: self.name@, input: self.input@ }
    }
}

impl View for ToolCall {
    type V = ToolCallView;

    open spec fn view(&self) -> ToolCallView {
        ToolCallView {
            id: self.id@,
            ty: self.ty@,
            function: match self.function {
                Some(f) => Some(f@),
                None => None,
            },
            custom: match self.custom {
                Some(c) => Some(c@),
                None => None,
            },
            index: self.index,
        }
    }
}

/// What some tool calls are.
pub open spec fn call_views(calls: Seq<ToolCall>) -> Seq<ToolCallView> {
    calls.map_values(|c: ToolCall| c@)
}

impl View for Delta {
    type V = DeltaView;

    open spec fn view(&self) -> DeltaView {
        DeltaView {
            role: opt_str(self.role),
            content: opt_text(self.content),
            reasoning_content: opt_text(self.reasoning_content),
            tool_calls: match self.tool_calls {
                Some(calls) => Some(call_views(calls@)),
                None => None,
            },
        }
    }
}

impl View for ChunkChoice {
    type V = ChunkChoiceView;

    open spec fn view(&self) -> ChunkChoiceView {
        ChunkChoiceView {
            index: self.index,
            delta: self.delta@,
            finish_reason: opt_str(self.finish_reason),
            logprobs: opt_text(self.logprobs),
        }
    }
}

/// What some choices are.
pub open spec fn choice_views(choices: Seq<ChunkChoice>) -> Seq<ChunkChoiceView> {
    choices.map_values(|c: ChunkChoice| c@)
}

impl View for ChatCompletionsResponseChunk {
    type V = ChunkView;

    open spec fn view(&self) -> ChunkView {
        ChunkView {
            id: self.id@,
            object: self.object@,
            created: self.created,
            model: self.model@,
            choices: choice_views(self.choices@),
            usage: self.usage,
            service_tier: opt_text(self.service_tier),
            system_fingerprint: opt_text(self.system_fingerprint),
        }
    }
}

/// A delta that adds nothing.
pub open spec fn empty_delta() -> DeltaView {
    DeltaView { role: None, content: None, reasoning_content: None, tool_calls: None }
}

impl Default for Delta {
    fn default() -> (r: Self)
        ensures
            r@ == empty_delta(),
    {
        Delta { role: None, content: None, reasoning_content: None, tool_calls: None }
    }
}

/// A chunk of one choice.
pub open spec fn one_choice_chunk(
    model: Seq<char>,
    delta: DeltaView,
    finish: Option<Seq<char>>,
    id: Seq<char>,
    created: u64,
) -> ChunkView {
    ChunkView {
        id,
        object: CHUNK_OBJECT@,
        created,
        model,
        choices: seq![
            ChunkChoiceView { index: 0, delta, finish_reason: finish, logprobs: None },
        ],
        usage: None,
        service_tier: None,
        system_fingerprint: None,
    }
}

/// Makes a chunk of one choice.
pub fn make_chunk(
    model: &str,
    delta: Delta,
    finish: Option<&'static str>,
    id: String,
    created: u64,
) -> (r: ChatCompletionsResponseChunk)
    ensures
        r@ == one_choice_chunk(model@, delta@, opt_str(finish), id@, created),
{
    let mut choices: Vec<ChunkChoice> = Vec::new();
    choices.push(ChunkChoice { index: 0, delta, finish_reason: finish, logprobs: None });
    let r = ChatCompletionsResponseChunk {
        id,
        object: CHUNK_OBJECT,
        created,
        model: model.to_owned(),
        choices,
        usage: None,
        service_tier: None,
        system_fingerprint: None,
    };
    assert(r@ =~= one_choice_chunk(model@, delta@, opt_str(finish), id@, created));
    r
}

// ---------------------------------------------------------------------------------------
// The first choice of a chunk
// ---------------------------------------------------------------------------------------
/// A chunk with another first choice.
pub open spec fn with_choice(c: ChunkView, choice: ChunkChoiceView) -> ChunkView {
    ChunkView { choices: c.choices.update(0, choice), ..c }
}

/// A chunk with another content in its first choice.
pub open spec fn with_content(c: ChunkView, content: Option<Seq<char>>) -> ChunkView {
    let choice = c.choices[0];
    with_choice(c, ChunkChoiceView { delta: DeltaView { content, ..choice.delta }, ..choice })
}

/// The finish reason of a choice that was given tool calls: it stopped to have them called.
pub open spec fn finish_with_calls(finish: Option<Seq<char>>) -> Option<Seq<char>> {
    if finish == Some("stop"@) {
        Some("tool_calls"@)
    } else {
        finish
    }
}

/// A chunk with a content and tool calls in its first choice.
pub open spec fn with_calls(
    c: ChunkView,
    content: Option<Seq<char>>,
    calls: Seq<ToolCallView>,
) -> ChunkView {
    let choice = c.choices[0];
    with_choice(
        c,
        ChunkChoiceView {
            delta: DeltaView { content, tool_calls: Some(calls), ..choice.delta },
            finish_reason: finish_with_calls(choice.finish_reason),
            ..choice
        },
    )
}

/// Puts a content in the first choice of a chunk.
pub fn set_content(
    chunk: ChatCompletionsResponseChunk,
    content: Option<String>,
) -> (r: ChatCompletionsResponseChunk)
    requires
        chunk.choices@.len() > 0,
    ensures
        r@ == with_content(chunk@, opt_text(content)),
{
    let mut chunk = chunk;
    let ghost before = chunk@;
    chunk.choices[0].delta.content = content;
    assert(chunk@.choices =~= with_content(before, opt_text(content)).choices);
    assert(chunk@ =~= with_content(before, opt_text(content)));
    chunk
}

/// Puts a content and tool calls in the first choice of a chunk.
pub fn set_calls(
    chunk: ChatCompletionsResponseChunk,
    content: Option<String>,
    calls: Vec<ToolCall>,
) -> (r: ChatCompletionsResponseChunk)
    requires
        chunk.choices@.len() > 0,
    ensures
        r@ == with_calls(chunk@, opt_text(content), call_views(calls@)),
{
    let mut chunk = chunk;
    let ghost before = chunk@;
    let ghost after = with_calls(before, opt_text(content), call_views(calls@));
    chunk.choices[0].delta.content = content;
    chunk.choices[0].delta.tool_calls = Some(calls);
    if let Some(reason) = chunk.choices[0].finish_reason {
        if same_text(reason, "stop") {
            chunk.choices[0].finish_reason = Some("tool_calls");
        }
    }
    assert(chunk@.choices =~= after.choices);
    assert(chunk@ =~= after);
    chunk
}

} // verus!
