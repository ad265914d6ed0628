//! Turning the provider's frames into chunks.
//!
//! A driver asks the inner stream for what it has and hands it to the converter as an event;
//! the step that the converter gives says what to do next.
use crate::error::OpenAIAdapterError;
use crate::search::contains;
use crate::search::has;
use crate::text::chars_of;
use crate::text::decimal;
use crate::text::decimal_text;
use crate::text::joined;
use crate::text::same_text;
use crate::types::empty_delta;
use crate::types::make_chunk;
use crate::types::one_choice_chunk;
use crate::types::opt_str;
use crate::types::opt_text;
use crate::types::ChatCompletionsResponseChunk;
use crate::types::ChunkView;
use crate::types::Delta;
use crate::types::DeltaView;
use crate::types::Usage;
use crate::types::CHUNK_OBJECT;
use vstd::prelude::*;

verus! {

/// A result of a web search.
#[derive(Debug, Clone)]
pub struct SearchResult {
    pub title: String,
    pub url: String,
}

/// A frame of the provider's response.
#[derive(Debug, Clone)]
pub enum DsFrame {
    /// The answer begins.
    Role,
    /// Some of the thinking.
    ThinkDelta(String),
    /// What a web search found.
    SearchResults(Vec<SearchResult>),
    /// Some of the answer.
    ContentDelta(String),
    /// The status of the answer.
    Status(String),
    /// How many tokens the answer took.
    Usage(u32),
    /// The answer is over.
    Finish,
}

// ---------------------------------------------------------------------------------------
// Usage
// ---------------------------------------------------------------------------------------
/// The usage of a completion.
pub open spec fn usage_of(prompt_tokens: u32, completion_tokens: u32) -> Usage {
    Usage {
        prompt_tokens,
        completion_tokens,
        total_tokens: (prompt_tokens + completion_tokens) as u32,
        prompt_tokens_details: None,
        completion_tokens_details: None,
    }
}

/// The tokens that an output of so many characters is taken for: a third, and at least one. Of
/// the number of characters only the lowest 32 bits count.
pub open spec fn estimated_tokens(characters: nat) -> u32 {
    let n = (characters % 0x1_0000_0000) / 3;
    if n < 1 {
        1
    } else {
        n as u32
    }
}

/// A chunk that has nothing but a usage.
pub open spec fn usage_chunk(usage: Usage, model: Seq<char>, id: Seq<char>, created: u64) -> ChunkView {
    ChunkView {
        id,
        object: CHUNK_OBJECT@,
        created,
        model,
        choices: seq![],
        usage: Some(usage),
        service_tier: None,
        system_fingerprint: None,
    }
}

/// Makes the usage of a completion.
pub fn make_usage(prompt_tokens: u32, completion_tokens: u32) -> (r: Usage)
    requires
        prompt_tokens + completion_tokens <= u32::MAX,
    ensures
        r == usage_of(prompt_tokens, completion_tokens),
{
    Usage {
        prompt_tokens,
        completion_tokens,
        total_tokens: prompt_tokens + completion_tokens,
        prompt_tokens_details: None,
        completion_tokens_details: None,
    }
}

/// Makes a chunk that has nothing but a usage.
pub fn make_usage_chunk(
    usage: Usage,
    model: &str,
    id: String,
    created: u64,
) -> (r: ChatCompletionsResponseChunk)
    ensures
        r@ == usage_chunk(usage, model@, id@, created),
{
    let r = ChatCompletionsResponseChunk {
        id,
        object: CHUNK_OBJECT,
        created,
        model: model.to_owned(),
        choices: Vec::new(),
        usage: Some(usage),
        service_tier: None,
        system_fingerprint: None,
    };
    assert(r@ =~= usage_chunk(usage, model@, id@, created));
    r
}

/// The tokens that an output of so many characters is taken for.
pub fn estimate(characters: usize) -> (r: u32)
    ensures
        r == estimated_tokens(characters as nat),
{
    let wide: u64 = characters as u64;
    assert(wide as u32 == wide % 0x1_0000_0000u64) by (bit_vector);
    let n: u32 = wide as u32 / 3;
    if n < 1 {
        1
    } else {
        n
    }
}

// ---------------------------------------------------------------------------------------
// Text that a model makes up
// ---------------------------------------------------------------------------------------
/// The text holds a mark of a tool call that the model made up as plain text.
pub open spec fn hallucinated(text: Seq<char>) -> bool {
    contains(text, "**Tool Call:"@) || contains(text, "Status: Completed"@) || contains(
        text,
        "Web search results for query:"@,
    ) || contains(text, "Terminal:\n```"@)
}

/// The text holds the beginning of a true tag of tool calls.
pub open spec fn safe_marked(text: Seq<char>) -> bool {
    contains(text, "<|tool_calls"@) || contains(text, "<|tool\u{2581}calls"@)
}

fn holds(text: &str, mark: &str) -> (r: bool)
    ensures
        r == contains(text@, mark@),
{
    has(chars_of(text).as_slice(), chars_of(mark).as_slice())
}

/// Whether the text holds a mark of a made-up tool call.
pub fn contains_hallucination(text: &str) -> (r: bool)
    ensures
        r == hallucinated(text@),
{
    holds(text, "**Tool Call:") || holds(text, "Status: Completed") || holds(
        text,
        "Web search results for query:",
    ) || holds(text, "Terminal:\n```")
}

/// Whether the text holds the beginning of a true tag of tool calls.
pub fn contains_safe_marker(text: &str) -> (r: bool)
    ensures
        r == safe_marked(text@),
{
    holds(text, "<|tool_calls") || holds(text, "<|tool\u{2581}calls")
}

// ---------------------------------------------------------------------------------------
// Search results
// ---------------------------------------------------------------------------------------
/// One line of the list of search results.
pub open spec fn result_line(number: nat, r: SearchResult) -> Seq<char> {
    decimal(number) + ". ["@ + r.title@ + "]("@ + r.url@ + ")\n"@
}

/// The lines for the first `n` search results.
pub open spec fn result_lines(results: Seq<SearchResult>, n: nat) -> Seq<char>
    decreases n,
{
    if n == 0 {
        seq![]
    } else {
        result_lines(results, (n - 1) as nat) + result_line(n, results[n - 1])
    }
}

/// Search results as a numbered Markdown list.
pub open spec fn results_markdown(results: Seq<SearchResult>) -> Seq<char> {
    "🔍 **搜索结果:**\n\n"@ + result_lines(results, results.len()) + "\n"@
}

/// Writes search results as a numbered Markdown list.
pub fn search_markdown(results: &Vec<SearchResult>) -> (r: String)
    ensures
        r@ == results_markdown(results@),
{
    let mut md = "🔍 **搜索结果:**\n\n".to_owned();
    let ghost head = md@;
    let mut i: usize = 0;
    assert(md@ =~= head + result_lines(results@, 0));
    while i < results.len()
        invariant
            i <= results@.len(),
            md@ == head + result_lines(results@, i as nat),
        decreases results@.len() - i,
    {
        let ghost before = md@;
        md.append(decimal_text(i + 1).as_str());
        md.append(". [");
        md.append(results[i].title.as_str());
        md.append("](");
        md.append(results[i].url.as_str());
        md.append(")\n");
        i = i + 1;
        assert(md@ =~= before + result_line(i as nat, results@[i - 1]));
        assert(md@ =~= head + result_lines(results@, i as nat));
    }
    md.append("\n");
    md
}

// ---------------------------------------------------------------------------------------
// What the converter does
// ---------------------------------------------------------------------------------------
/// What the inner stream had.
#[derive(Debug)]
pub enum Event {
    Frame(DsFrame),
    Failed(OpenAIAdapterError),
    Ended,
    Pending,
}

/// What to do next.
#[derive(Debug)]
pub enum Step {
    /// Give the chunk to the consumer.
    Emit(ChatCompletionsResponseChunk),
    /// Give the error to the consumer.
    Fail(OpenAIAdapterError),
    /// Ask the inner stream again.
    Again,
    /// The stream is over.
    End,
    /// Nothing is there yet.
    Wait,
}

/// What to do next, as the contracts speak of it.
#[verifier::ext_equal]
pub enum StepView {
    Emit(ChunkView),
    Fail(OpenAIAdapterError),
    Again,
    End,
    Wait,
}

impl View for Step {
    type V = StepView;

    open spec fn view(&self) -> StepView {
        match self {
            Step::Emit(c) => StepView::Emit(c@),
            Step::Fail(e) => StepView::Fail(*e),
            Step::Again => StepView::Again,
            Step::End => StepView::End,
            Step::Wait => StepView::Wait,
        }
    }
}

/// What a converter was made with, and the time at which it makes a chunk.
pub struct Settings {
    pub model: Seq<char>,
    pub include_usage: bool,
    pub prompt_tokens: u32,
    pub id: Seq<char>,
    pub created: u64,
}

/// What a converter remembers.
#[verifier::ext_equal]
pub struct Memory {
    /// The chunk with the finish reason was given.
    pub finished: bool,
    /// The usage that the provider reported and that was not yet given.
    pub usage_value: Option<u32>,
    /// All the thinking.
    pub fallback: Option<Seq<char>>,
    /// Some of the answer was given.
    pub has_content: bool,
    /// Content is being dropped.
    pub suppressing: bool,
    /// The characters of thinking and answer.
    pub total: nat,
}

/// What is remembered at first.
pub open spec fn fresh_memory() -> Memory {
    Memory {
        finished: false,
        usage_value: None,
        fallback: None,
        has_content: false,
        suppressing: false,
        total: 0,
    }
}

/// A chunk of one delta that does not end the message.
pub open spec fn delta_chunk(delta: DeltaView, s: Settings) -> ChunkView {
    one_choice_chunk(s.model, delta, None, s.id, s.created)
}

/// The completion tokens that the end of a message reports: what the provider reported or,
/// where that is missing or zero, an estimate.
pub open spec fn final_tokens(m: Memory) -> u32 {
    match m.usage_value {
        Some(u) => if u > 0 {
            u
        } else {
            estimated_tokens(m.total)
        },
        None => estimated_tokens(m.total),
    }
}

/// The chunk that ends a message.
pub open spec fn finish_chunk(m: Memory, content: Option<Seq<char>>, s: Settings) -> ChunkView {
    ChunkView {
        usage: if s.include_usage {
            Some(usage_of(s.prompt_tokens, final_tokens(m)))
        } else {
            None
        },
        ..one_choice_chunk(
            s.model,
            DeltaView { content, ..empty_delta() },
            Some("stop"@),
            s.id,
            s.created,
        )
    }
}

/// What is remembered once the message was ended.
pub open spec fn finished_memory(m: Memory, s: Settings) -> Memory {
    Memory {
        finished: true,
        usage_value: if s.include_usage {
            None
        } else {
            m.usage_value
        },
        ..m
    }
}

/// A piece of the answer is dropped: while content is being dropped, unless a true tag is in
/// it; and from a mark of a made-up tool call on.
pub open spec fn dropped(text: Seq<char>, suppressing: bool) -> bool {
    !safe_marked(text) && (suppressing || hallucinated(text))
}

/// What the converter does with a frame.
pub open spec fn frame_outcome(f: DsFrame, m: Memory, s: Settings) -> (Memory, StepView) {
    match f {
        DsFrame::Role => (
            m,
            StepView::Emit(
                ChunkView {
                    usage: Some(usage_of(s.prompt_tokens, 0)),
                    ..delta_chunk(DeltaView { role: Some("assistant"@), ..empty_delta() }, s)
                },
            ),
        ),
        DsFrame::ThinkDelta(text) => (
            Memory {
                total: m.total + text@.len(),
                fallback: Some(
                    match m.fallback {
                        Some(t) => t + text@,
                        None => text@,
                    },
                ),
                ..m
            },
            StepView::Emit(
                delta_chunk(DeltaView { reasoning_content: Some(text@), ..empty_delta() }, s),
            ),
        ),
        DsFrame::SearchResults(results) => (
            m,
            StepView::Emit(
                delta_chunk(
                    DeltaView {
                        reasoning_content: Some(results_markdown(results@)),
                        ..empty_delta()
                    },
                    s,
                ),
            ),
        ),
        DsFrame::ContentDelta(text) => {
            let total = m.total + text@.len();
            if dropped(text@, m.suppressing) {
                (Memory { total, suppressing: true, ..m }, StepView::Again)
            } else {
                (
                    Memory { total, suppressing: false, has_content: true, ..m },
                    StepView::Emit(
                        delta_chunk(DeltaView { content: Some(text@), ..empty_delta() }, s),
                    ),
                )
            }
        },
        DsFrame::Status(status) => if status@ == "FINISHED"@ && !m.finished {
            (
                Memory {
                    fallback: if m.has_content {
                        m.fallback
                    } else {
                        None
                    },
                    ..finished_memory(m, s)
                },
                StepView::Emit(
                    finish_chunk(
                        m,
                        if m.has_content {
                            None
                        } else {
                            m.fallback
                        },
                        s,
                    ),
                ),
            )
        } else {
            (m, StepView::Again)
        },
        DsFrame::Usage(u) => (
            Memory { usage_value: Some(u), ..m },
            if s.include_usage && u > 0 {
                StepView::Emit(
                    usage_chunk(usage_of(s.prompt_tokens, u), s.model, s.id, s.created),
                )
            } else {
                StepView::Again
            },
        ),
        DsFrame::Finish => if !m.finished {
            (finished_memory(m, s), StepView::Emit(finish_chunk(m, None, s)))
        } else {
            (m, StepView::Again)
        },
    }
}

/// What the converter does when the inner stream is over.
pub open spec fn ended_outcome(m: Memory, s: Settings) -> (Memory, StepView) {
    if !m.finished {
        (finished_memory(m, s), StepView::Emit(finish_chunk(m, None, s)))
    } else if s.include_usage {
        (
            Memory { usage_value: None, ..m },
            match m.usage_value {
                Some(u) => if u > 0 {
                    StepView::Emit(
                        usage_chunk(usage_of(s.prompt_tokens, u), s.model, s.id, s.created),
                    )
                } else {
                    StepView::End
                },
                None => StepView::End,
            },
        )
    } else {
        (m, StepView::End)
    }
}

/// What the converter does with an event.
pub open spec fn event_outcome(event: Event, m: Memory, s: Settings) -> (Memory, StepView) {
    match event {
        Event::Frame(f) => frame_outcome(f, m, s),
        Event::Failed(e) => (m, StepView::Fail(e)),
        Event::Ended => ended_outcome(m, s),
        Event::Pending => (m, StepView::Wait),
    }
}

/// What the converter gives before it asks for anything else: the usage that was reported after
/// the message was ended, once.
pub open spec fn late_outcome(m: Memory, s: Settings) -> (Memory, Option<ChunkView>) {
    match m.usage_value {
        Some(u) => if m.finished && s.include_usage {
            (
                Memory { usage_value: None, ..m },
                Some(usage_chunk(usage_of(s.prompt_tokens, u), s.model, s.id, s.created)),
            )
        } else {
            (m, None)
        },
        None => (m, None),
    }
}

/// A usage to report fits in its fields.
pub open spec fn usage_fits(s: Settings, completion: u32) -> bool {
    s.include_usage ==> s.prompt_tokens + completion <= u32::MAX
}

/// What an event adds up to fits in the counters.
pub open spec fn event_fits(event: Event, m: Memory, s: Settings) -> bool {
    match event {
        Event::Frame(DsFrame::ThinkDelta(text)) => m.total + text@.len() <= usize::MAX,
        Event::Frame(DsFrame::ContentDelta(text)) => m.total + text@.len() <= usize::MAX,
        Event::Frame(DsFrame::Status(status)) => status@ == "FINISHED"@ && !m.finished
            ==> usage_fits(s, final_tokens(m)),
        Event::Frame(DsFrame::Usage(u)) => usage_fits(s, u),
        Event::Frame(DsFrame::Finish) => !m.finished ==> usage_fits(s, final_tokens(m)),
        Event::Ended => if !m.finished {
            usage_fits(s, final_tokens(m))
        } else {
            m.usage_value matches Some(u) ==> usage_fits(s, u)
        },
        _ => true,
    }
}

// ---------------------------------------------------------------------------------------
// The converter
// ---------------------------------------------------------------------------------------
/// A stream of chunks made from the provider's frames. `inner` is where the frames come from.
#[derive(Debug)]
pub struct ConverterStream<S> {
    pub inner: S,
    pub model: String,
    pub include_usage: bool,
    pub include_obfuscation: bool,
    pub prompt_tokens: u32,
    pub chatcmpl_id: String,
    pub finished: bool,
    pub usage_value: Option<u32>,
    pub fallback_content: Option<String>,
    pub has_content: bool,
    pub suppress_content: bool,
    pub total_output_chars: usize,
}

impl<S> ConverterStream<S> {
    /// What the converter remembers.
    pub open spec fn memory(self) -> Memory {
        Memory {
            finished: self.finished,
            usage_value: self.usage_value,
            fallback: opt_text(self.fallback_content),
            has_content: self.has_content,
            suppressing: self.suppress_content,
            total: self.total_output_chars as nat,
        }
    }

    /// What the converter was made with.
    pub open spec fn settings(self, created: u64) -> Settings {
        Settings {
            model: self.model@,
            include_usage: self.include_usage,
            prompt_tokens: self.prompt_tokens,
            id: self.chatcmpl_id@,
            created,
        }
    }

    /// All but what the converter remembers is the same.
    pub open spec fn same_settings(self, other: Self) -> bool {
        self.inner == other.inner && self.model == other.model && self.include_usage
            == other.include_usage && self.include_obfuscation == other.include_obfuscation
            && self.prompt_tokens == other.prompt_tokens && self.chatcmpl_id == other.chatcmpl_id
    }

    /// Begins with nothing remembered.
    pub fn new(
        inner: S,
        model: String,
        include_usage: bool,
        include_obfuscation: bool,
        prompt_tokens: u32,
        chatcmpl_id: String,
    ) -> (r: Self)
        ensures
            r.inner == inner,
            r.model == model,
            r.include_usage == include_usage,
            r.include_obfuscation == include_obfuscation,
            r.prompt_tokens == prompt_tokens,
            r.chatcmpl_id == chatcmpl_id,
            r.memory() == (Memory {
                finished: false,
                usage_value: None,
                fallback: None,
                has_content: false,
                suppressing: false,
                total: 0,
            }),
            r.memory() == fresh_memory(),
    {
        ConverterStream {
            inner,
            model,
            include_usage,
            include_obfuscation,
            prompt_tokens,
            chatcmpl_id,
            finished: false,
            usage_value: None,
            fallback_content: None,
            has_content: false,
            suppress_content: false,
            total_output_chars: 0,
        }
    }

    /// Makes a chunk of one delta.
    fn chunk_of(&self, delta: Delta, finish: Option<&'static str>, created: u64) -> (r:
        ChatCompletionsResponseChunk)
        ensures
            r@ == one_choice_chunk(
                self.model@,
                delta@,
                opt_str(finish),
                self.chatcmpl_id@,
                created,
            ),
    {
        make_chunk(self.model.as_str(), delta, finish, self.chatcmpl_id.clone(), created)
    }

    /// Makes a chunk that has nothing but a usage.
    fn usage_chunk_of(&self, completion: u32, created: u64) -> (r: ChatCompletionsResponseChunk)
        requires
            self.prompt_tokens + completion <= u32::MAX,
        ensures
            r@ == usage_chunk(
                usage_of(self.prompt_tokens, completion),
                self.model@,
                self.chatcmpl_id@,
                created,
            ),
    {
        make_usage_chunk(
            make_usage(self.prompt_tokens, completion),
            self.model.as_str(),
            self.chatcmpl_id.clone(),
            created,
        )
    }

    /// The completion tokens that the end of a message reports.
    fn closing_tokens(&self) -> (r: u32)
        ensures
            r == final_tokens(self.memory()),
    {
        match self.usage_value {
            Some(u) if u > 0 => u,
            _ => estimate(self.total_output_chars),
        }
    }

    /// Ends the message.
    fn finish(&mut self, content: Option<String>, created: u64) -> (r: ChatCompletionsResponseChunk)
        requires
            usage_fits(old(self).settings(created), final_tokens(old(self).memory())),
        ensures
            r@ == finish_chunk(
                old(self).memory(),
                opt_text(content),
                old(self).settings(created),
            ),
            final(self).memory() == finished_memory(
                old(self).memory(),
                old(self).settings(created),
            ),
            final(self).same_settings(*old(self)),
    {
        self.finished = true;
        let delta = Delta { role: None, content, reasoning_content: None, tool_calls: None };
        let mut chunk = self.chunk_of(delta, Some("stop"), created);
        if self.include_usage {
            let ghost before = chunk@;
            let tokens: u32 = self.closing_tokens();
            chunk.usage = Some(make_usage(self.prompt_tokens, tokens));
            self.usage_value = None;
            assert(chunk@ =~= (ChunkView { usage: chunk.usage, ..before }));
        }
        chunk
    }

    /// The usage that is given before anything else is asked for: the one reported after the
    /// message was ended.
    pub open spec fn late_usage(self) -> Option<u32> {
        if self.finished && self.include_usage {
            self.usage_value
        } else {
            None
        }
    }

    /// Whether what an event adds up to fits in the counters.
    pub fn fits(&self, event: &Event) -> (r: bool)
        ensures
            r == event_fits(*event, self.memory(), self.settings(0)),
    {
        match event {
            Event::Frame(DsFrame::ThinkDelta(text)) => chars_of(text.as_str()).len() <= usize::MAX
                - self.total_output_chars,
            Event::Frame(DsFrame::ContentDelta(text)) => chars_of(text.as_str()).len() <= usize::MAX
                - self.total_output_chars,
            Event::Frame(DsFrame::Status(status)) => {
                !same_text(status.as_str(), "FINISHED") || self.finished || self.reportable(
                    self.closing_tokens(),
                )
            },
            Event::Frame(DsFrame::Usage(u)) => self.reportable(*u),
            Event::Frame(DsFrame::Finish) => self.finished || self.reportable(
                self.closing_tokens(),
            ),
            Event::Ended => {
                if !self.finished {
                    self.reportable(self.closing_tokens())
                } else {
                    match self.usage_value {
                        Some(u) => self.reportable(u),
                        None => true,
                    }
                }
            },
            _ => true,
        }
    }

    /// Whether a usage to report fits in its fields.
    pub fn reportable(&self, completion: u32) -> (r: bool)
        ensures
            r == usage_fits(self.settings(0), completion),
    {
        !self.include_usage || completion <= u32::MAX - self.prompt_tokens
    }

    /// Gives the usage that was reported after the message was ended.
    pub fn take_late_usage(&mut self, created: u64) -> (r: Option<ChatCompletionsResponseChunk>)
        requires
            old(self).late_usage() matches Some(u) ==> old(self).prompt_tokens + u <= u32::MAX,
        ensures
            match old(self).late_usage() {
                Some(u) => r matches Some(chunk) && chunk@ == usage_chunk(
                    usage_of(old(self).prompt_tokens, u),
                    old(self).model@,
                    old(self).chatcmpl_id@,
                    created,
                ) && final(self).memory() == (Memory { usage_value: None, ..old(self).memory() }),
                None => r is None && final(self).memory() == old(self).memory(),
            },
            (
                final(self).memory(),
                (match r {
                    Some(chunk) => Some(chunk@),
                    None => None,
                }),
            ) == late_outcome(old(self).memory(), old(self).settings(created)),
            final(self).same_settings(*old(self)),
    {
        if self.finished && self.include_usage {
            if let Some(u) = self.usage_value {
                self.usage_value = None;
                return Some(self.usage_chunk_of(u, created));
            }
        }
        None
    }

    /// Handles a frame.
    fn on_frame(&mut self, frame: DsFrame, created: u64) -> (r: Step)
        requires
            event_fits(
                Event::Frame(frame),
                old(self).memory(),
                old(self).settings(created),
            ),
        ensures
            (final(self).memory(), r@) == frame_outcome(
                frame,
                old(self).memory(),
                old(self).settings(created),
            ),
            final(self).same_settings(*old(self)),
    {
        match frame {
            DsFrame::Role => {
                let mut chunk = self.chunk_of(
                    Delta {
                        role: Some("assistant"),
                        content: None,
                        reasoning_content: None,
                        tool_calls: None,
                    },
                    None,
                    created,
                );
                let ghost before = chunk@;
                chunk.usage = Some(make_usage(self.prompt_tokens, 0));
                assert(chunk@ =~= (ChunkView { usage: chunk.usage, ..before }));
                Step::Emit(chunk)
            },
            DsFrame::ThinkDelta(text) => {
                self.total_output_chars = self.total_output_chars + chars_of(text.as_str()).len();
                self.fallback_content = Some(
                    match &self.fallback_content {
                        Some(t) => joined(t.as_str(), text.as_str()),
                        None => text.clone(),
                    },
                );
                Step::Emit(
                    self.chunk_of(
                        Delta {
                            role: None,
                            content: None,
                            reasoning_content: Some(text),
                            tool_calls: None,
                        },
                        None,
                        created,
                    ),
                )
            },
            DsFrame::SearchResults(results) => {
                Step::Emit(
                    self.chunk_of(
                        Delta {
                            role: None,
                            content: None,
                            reasoning_content: Some(search_markdown(&results)),
                            tool_calls: None,
                        },
                        None,
                        created,
                    ),
                )
            },
            DsFrame::ContentDelta(text) => {
                self.total_output_chars = self.total_output_chars + chars_of(text.as_str()).len();
                if self.suppress_content {
                    if contains_safe_marker(text.as_str()) {
                        self.suppress_content = false;
                    } else {
                        return Step::Again;
                    }
                } else if contains_hallucination(text.as_str()) && !contains_safe_marker(
                    text.as_str(),
                ) {
                    self.suppress_content = true;
                    return Step::Again;
                }
                self.has_content = true;
                Step::Emit(
                    self.chunk_of(
                        Delta {
                            role: None,
                            content: Some(text),
                            reasoning_content: None,
                            tool_calls: None,
                        },
                        None,
                        created,
                    ),
                )
            },
            DsFrame::Status(status) => {
                if same_text(status.as_str(), "FINISHED") && !self.finished {
                    let content = if self.has_content {
                        None
                    } else {
                        self.fallback_content.take()
                    };
                    Step::Emit(self.finish(content, created))
                } else {
                    Step::Again
                }
            },
            DsFrame::Usage(u) => {
                self.usage_value = Some(u);
                if self.include_usage && u > 0 {
                    Step::Emit(self.usage_chunk_of(u, created))
                } else {
                    Step::Again
                }
            },
            DsFrame::Finish => {
                if !self.finished {
                    Step::Emit(self.finish(None, created))
                } else {
                    Step::Again
                }
            },
        }
    }

    /// Takes an event and says what to do next. `created` is the time for a chunk that the
    /// converter makes.
    pub fn on_event(&mut self, event: Event, created: u64) -> (r: Step)
        requires
            event_fits(event, old(self).memory(), old(self).settings(created)),
        ensures
            (final(self).memory(), r@) == event_outcome(
                event,
                old(self).memory(),
                old(self).settings(created),
            ),
            final(self).same_settings(*old(self)),
    {
        match event {
            Event::Frame(frame) => self.on_frame(frame, created),
            Event::Failed(e) => Step::Fail(e),
            Event::Ended => {
                if !self.finished {
                    return Step::Emit(self.finish(None, created));
                }
                if self.include_usage {
                    if let Some(u) = self.usage_value {
                        self.usage_value = None;
                        if u > 0 {
                            return Step::Emit(self.usage_chunk_of(u, created));
                        }
                    }
                }
                Step::End
            },
            Event::Pending => Step::Wait,
        }
    }
}

} // verus!
