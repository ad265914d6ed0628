//! A request for a completion, from the first question to the core to the result.
//!
//! A driver asks the core with `next_request`, turns the answer into a result with `stream_cfg`,
//! and hands what came of it to `on_attempt`; the step that comes back says what to do next.
use crate::adapter::after_attempt;
use crate::adapter::aggregate_cfg;
use crate::adapter::chat_request;
use crate::adapter::is_repair_step;
use crate::adapter::retry_prompt;
use crate::adapter::Attempt;
use crate::adapter::ChatRequest;
use crate::adapter::ChatResult;
use crate::adapter::RepairStep;
use crate::adapter::StreamCfg;
use crate::adapter::RETRY_SUFFIX;
use crate::error::OpenAIAdapterError;
use crate::tags::texts;
use crate::tags::TagConfig;
use std::sync::Arc;
use vstd::prelude::*;

verus! {

/// What is asked for, and how far it has come.
#[derive(Debug)]
pub struct ChatFlow {
    pub prompt: String,
    pub thinking_enabled: bool,
    /// Whether the files of the request name web addresses.
    pub has_http_urls: bool,
    pub model_type: String,
    /// Whether the result is a stream of chunks, and not one JSON object.
    pub stream: bool,
    pub include_usage: bool,
    pub include_obfuscation: bool,
    pub stop: Vec<String>,
    pub prompt_tokens: u32,
    /// The number of the attempt, counted from one.
    pub attempt: usize,
}

/// What to do after an attempt.
#[derive(Debug)]
pub enum FlowStep<T> {
    /// Give the result to the caller.
    Finish(ChatResult<T>),
    /// Ask the core again.
    Ask,
    /// Give the error to the caller.
    Fail(OpenAIAdapterError),
}

/// The prompt of an attempt: from the second one on it asks for the tool calls to be written
/// anew.
pub open spec fn asked_prompt(prompt: Seq<char>, attempt: usize) -> Seq<char> {
    if attempt <= 1 {
        prompt
    } else {
        prompt + RETRY_SUFFIX@
    }
}

/// What is asked of the core, its files apart.
#[verifier::ext_equal]
pub struct AskView {
    pub prompt: Seq<char>,
    pub thinking_enabled: bool,
    pub search_enabled: bool,
    pub model_type: Seq<char>,
}

/// What an attempt asks of the core.
pub open spec fn asked(flow: ChatFlow) -> AskView {
    AskView {
        prompt: asked_prompt(flow.prompt@, flow.attempt),
        thinking_enabled: flow.thinking_enabled,
        search_enabled: flow.has_http_urls,
        model_type: flow.model_type@,
    }
}

/// How an answer is turned into chunks, tags and identifier apart.
#[verifier::ext_equal]
pub struct CfgView {
    pub include_usage: bool,
    pub include_obfuscation: bool,
    pub stop: Seq<Seq<char>>,
    pub prompt_tokens: u32,
}

/// How the answer of an attempt is turned into chunks.
pub open spec fn turned(flow: ChatFlow) -> CfgView {
    CfgView {
        include_usage: !flow.stream || flow.include_usage,
        include_obfuscation: flow.stream && flow.include_obfuscation,
        stop: texts(flow.stop@),
        prompt_tokens: if flow.stream || flow.attempt <= 1 {
            flow.prompt_tokens
        } else {
            0
        },
    }
}

/// What to do after attempt number `n`, which the account served. The tokens of the prompt are
/// reported whichever attempt gave the result.
pub open spec fn is_flow_step<T>(
    n: usize,
    attempt: Attempt<T>,
    account_id: String,
    prompt_tokens: u32,
    step: FlowStep<T>,
) -> bool {
    match step {
        FlowStep::Finish(r) => is_repair_step(n, attempt, RepairStep::Accept(r.data))
            && r.account_id == account_id && r.prompt_tokens == prompt_tokens,
        FlowStep::Ask => is_repair_step(n, attempt, RepairStep::<T>::Retry),
        FlowStep::Fail(e) => is_repair_step(n, attempt, RepairStep::<T>::GiveUp(e)),
    }
}

/// The number of the attempt after a step, where it was `n` before.
pub open spec fn attempt_after<T>(n: usize, step: FlowStep<T>) -> int {
    if step is Ask {
        n + 1
    } else {
        n as int
    }
}

impl ChatFlow {
    /// All but the number of the attempt is the same.
    pub open spec fn same_request(self, other: Self) -> bool {
        self == (ChatFlow { attempt: self.attempt, ..other })
    }

    /// Begins with the first attempt.
    pub fn new(
        prompt: String,
        thinking_enabled: bool,
        has_http_urls: bool,
        model_type: String,
        stream: bool,
        include_usage: bool,
        include_obfuscation: bool,
        stop: Vec<String>,
        prompt_tokens: u32,
    ) -> (r: Self)
        ensures
            r == (ChatFlow {
                prompt,
                thinking_enabled,
                has_http_urls,
                model_type,
                stream,
                include_usage,
                include_obfuscation,
                stop,
                prompt_tokens,
                attempt: 1,
            }),
    {
        ChatFlow {
            prompt,
            thinking_enabled,
            has_http_urls,
            model_type,
            stream,
            include_usage,
            include_obfuscation,
            stop,
            prompt_tokens,
            attempt: 1,
        }
    }

    /// What to ask the core in this attempt. `files` are the files of the request.
    pub fn next_request<F>(&self, files: Vec<F>) -> (r: ChatRequest<F>)
        ensures
            r.prompt@ == asked_prompt(self.prompt@, self.attempt),
            r.thinking_enabled == self.thinking_enabled,
            r.search_enabled == self.has_http_urls,
            r.model_type@ == self.model_type@,
            r.files == files,
            (AskView {
                prompt: r.prompt@,
                thinking_enabled: r.thinking_enabled,
                search_enabled: r.search_enabled,
                model_type: r.model_type@,
            }) == asked(*self),
    {
        let prompt = if self.attempt <= 1 {
            self.prompt.clone()
        } else {
            retry_prompt(self.prompt.as_str())
        };
        chat_request(
            prompt,
            self.thinking_enabled,
            self.has_http_urls,
            self.model_type.clone(),
            files,
        )
    }

    /// How the answer of the core is turned into chunks. A stream goes by what was asked for; a
    /// response that becomes one JSON object always has its usage, and reports the tokens of the
    /// prompt in the first attempt only.
    pub fn stream_cfg(&self, tag_config: Arc<TagConfig>, chatcmpl_id: String) -> (r: StreamCfg)
        ensures
            r.include_usage == (!self.stream || self.include_usage),
            r.include_obfuscation == (self.stream && self.include_obfuscation),
            texts(r.stop@) == texts(self.stop@),
            r.prompt_tokens == (if self.stream || self.attempt <= 1 {
                self.prompt_tokens
            } else {
                0
            }),
            r.tag_config == tag_config,
            r.chatcmpl_id == chatcmpl_id,
            (CfgView {
                include_usage: r.include_usage,
                include_obfuscation: r.include_obfuscation,
                stop: texts(r.stop@),
                prompt_tokens: r.prompt_tokens,
            }) == turned(*self),
    {
        let stop = self.stop.clone();
        assert(texts(stop@) =~= texts(self.stop@));
        if self.stream {
            StreamCfg {
                include_usage: self.include_usage,
                include_obfuscation: self.include_obfuscation,
                stop,
                prompt_tokens: self.prompt_tokens,
                tag_config,
                chatcmpl_id,
            }
        } else {
            aggregate_cfg(self.attempt <= 1, stop, self.prompt_tokens, tag_config, chatcmpl_id)
        }
    }

    /// Takes what came of the attempt, which the account served, and says what to do next.
    pub fn on_attempt<T>(&mut self, attempt: Attempt<T>, account_id: String) -> (r: FlowStep<T>)
        ensures
            is_flow_step(old(self).attempt, attempt, account_id, old(self).prompt_tokens, r),
            final(self).same_request(*old(self)),
            final(self).attempt == old(self).attempt + (if r is Ask {
                1int
            } else {
                0
            }),
            final(self).attempt == attempt_after(old(self).attempt, r),
    {
        match after_attempt(self.attempt, attempt) {
            RepairStep::Accept(data) => FlowStep::Finish(
                ChatResult { data, account_id, prompt_tokens: self.prompt_tokens },
            ),
            RepairStep::Retry => {
                self.attempt = self.attempt + 1;
                FlowStep::Ask
            },
            RepairStep::GiveUp(e) => FlowStep::Fail(e),
        }
    }
}

} // verus!
