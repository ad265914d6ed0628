//! The decisions of the adapter: older request fields, what is asked of the core, when a request
//! is tried again, and how the pool of accounts follows the configuration.
use crate::error::from_core;
use crate::error::CoreError;
use crate::error::ErrorView;
use crate::error::OpenAIAdapterError;
use crate::tags::TagConfig;
use crate::text::chars_of;
use crate::text::joined;
use crate::text::same_text;
use std::sync::Arc;
use vstd::arithmetic::power2::lemma2_to64;
use vstd::arithmetic::power2::pow2;
use vstd::prelude::*;

verus! {

/// The result of a request, with the account that served it.
#[derive(Debug)]
pub struct ChatResult<T> {
    pub data: T,
    pub account_id: String,
    pub prompt_tokens: u32,
}

// ---------------------------------------------------------------------------------------
// Older request fields
// ---------------------------------------------------------------------------------------
/// A tool that a request offers: `F` defines a function, `C` a custom tool.
#[derive(Debug)]
pub struct Tool<F, C> {
    pub ty: String,
    pub function: Option<F>,
    pub custom: Option<C>,
}

/// A tool, as the contracts speak of it.
#[verifier::ext_equal]
pub struct ToolView<F, C> {
    pub ty: Seq<char>,
    pub function: Option<F>,
    pub custom: Option<C>,
}

impl<F, C> View for Tool<F, C> {
    type V = ToolView<F, C>;

    open spec fn view(&self) -> ToolView<F, C> {
        ToolView { ty: self.ty@, function: self.function, custom: self.custom }
    }
}

pub open spec fn tool_views<F, C>(tools: Option<Vec<Tool<F, C>>>) -> Option<Seq<ToolView<F, C>>> {
    match tools {
        Some(t) => Some(t@.map_values(|x: Tool<F, C>| x@)),
        None => None,
    }
}

/// The items of a list, if there is one.
pub open spec fn opt_items<F>(list: Option<Vec<F>>) -> Option<Seq<F>> {
    match list {
        Some(v) => Some(v@),
        None => None,
    }
}

/// The tool that stands for a function.
pub open spec fn function_tool<F, C>(f: F) -> ToolView<F, C> {
    ToolView { ty: "function"@, function: Some(f), custom: None }
}

/// The tools that functions stand for.
pub open spec fn function_tools<F, C>(functions: Seq<F>) -> Seq<ToolView<F, C>> {
    functions.map_values(|f: F| function_tool::<F, C>(f))
}

/// The tools of a request. Where it names none, the functions of an older request take their
/// place.
pub open spec fn adopted_tools<F, C>(
    tools: Option<Seq<ToolView<F, C>>>,
    functions: Option<Seq<F>>,
) -> Option<Seq<ToolView<F, C>>> {
    match functions {
        Some(f) => if f.len() > 0 && (tools matches Some(t) ==> t.len() == 0) {
            Some(function_tools(f))
        } else {
            tools
        },
        None => tools,
    }
}

/// The tools that the functions of an older request stand for.
fn tools_of<F, C>(functions: Vec<F>) -> (r: Vec<Tool<F, C>>)
    ensures
        r@.map_values(|x: Tool<F, C>| x@) == function_tools::<F, C>(functions@),
{
    let mut tools: Vec<Tool<F, C>> = Vec::new();
    for f in it: functions
        invariant
            tools@.len() == it.index(),
            it.seq() == functions@,
            forall|k: int|
                0 <= k < tools@.len() ==> (#[trigger] tools@[k])@ == function_tool::<F, C>(
                    functions@[k],
                ),
    {
        tools.push(Tool { ty: "function".to_owned(), function: Some(f), custom: None });
    }
    assert(tools@.map_values(|x: Tool<F, C>| x@) =~= function_tools::<F, C>(functions@));
    tools
}

/// The tools of a request. Where it names none, the functions of an older request take their
/// place.
pub fn adopt_functions<F, C>(
    tools: Option<Vec<Tool<F, C>>>,
    functions: Option<Vec<F>>,
) -> (r: Option<Vec<Tool<F, C>>>)
    ensures
        tool_views(r) == adopted_tools(tool_views(tools), opt_items(functions)),
{
    let none = match &tools {
        Some(t) => t.len() == 0,
        None => true,
    };
    match functions {
        Some(f) => {
            if none && f.len() > 0 {
                Some(tools_of(f))
            } else {
                tools
            }
        },
        None => tools,
    }
}

/// The function that an older request wants called.
#[derive(Debug)]
pub enum FunctionCallOption {
    Mode(String),
    Named(NamedFunction),
}

#[derive(Debug)]
pub struct NamedFunction {
    pub name: String,
}

#[derive(Debug)]
pub struct NamedToolChoice {
    pub ty: String,
    pub function: NamedFunction,
}

/// The tool that a request wants called: `O` is any other way to say it.
#[derive(Debug)]
pub enum ToolChoice<O> {
    Mode(String),
    Named(NamedToolChoice),
    Other(O),
}

/// A tool choice, as the contracts speak of it.
#[verifier::ext_equal]
pub enum ChoiceView<O> {
    Mode(Seq<char>),
    Named { ty: Seq<char>, name: Seq<char> },
    Other(O),
}

impl<O> View for ToolChoice<O> {
    type V = ChoiceView<O>;

    open spec fn view(&self) -> ChoiceView<O> {
        match self {
            ToolChoice::Mode(mode) => ChoiceView::Mode(mode@),
            ToolChoice::Named(n) => ChoiceView::Named { ty: n.ty@, name: n.function.name@ },
            ToolChoice::Other(o) => ChoiceView::Other(*o),
        }
    }
}

pub open spec fn choice_view<O>(choice: Option<ToolChoice<O>>) -> Option<ChoiceView<O>> {
    match choice {
        Some(c) => Some(c@),
        None => None,
    }
}

/// The choice that says the same as the function call of an older request.
pub open spec fn choice_of<O>(call: FunctionCallOption) -> ChoiceView<O> {
    match call {
        FunctionCallOption::Mode(mode) => ChoiceView::Mode(mode@),
        FunctionCallOption::Named(named) => ChoiceView::Named {
            ty: "function"@,
            name: named.name@,
        },
    }
}

/// The tool choice of a request. Where it has none, the function call of an older request takes
/// its place.
pub open spec fn adopted_choice<O>(
    choice: Option<ChoiceView<O>>,
    call: Option<FunctionCallOption>,
) -> Option<ChoiceView<O>> {
    match (choice, call) {
        (None, Some(c)) => Some(choice_of(c)),
        _ => choice,
    }
}

/// The tool choice of a request. Where it has none, the function call of an older request takes
/// its place.
pub fn adopt_function_call<O>(
    choice: Option<ToolChoice<O>>,
    call: Option<FunctionCallOption>,
) -> (r: Option<ToolChoice<O>>)
    ensures
        choice_view(r) == adopted_choice(choice_view(choice), call),
{
    match (choice, call) {
        (None, Some(FunctionCallOption::Mode(mode))) => Some(ToolChoice::Mode(mode)),
        (None, Some(FunctionCallOption::Named(named))) => Some(
            ToolChoice::Named(
                NamedToolChoice {
                    ty: "function".to_owned(),
                    function: NamedFunction { name: named.name },
                },
            ),
        ),
        (choice, _) => choice,
    }
}

// ---------------------------------------------------------------------------------------
// What is asked of the core
// ---------------------------------------------------------------------------------------
/// A request to the core: `F` is a file that goes with it.
#[derive(Debug, Clone)]
pub struct ChatRequest<F> {
    pub prompt: String,
    pub thinking_enabled: bool,
    pub search_enabled: bool,
    pub model_type: String,
    pub files: Vec<F>,
}

/// A request asks for a raw stream.
pub open spec fn asks_raw<F>(
    r: ChatRequest<F>,
    prompt: Seq<char>,
    thinking_enabled: bool,
    model_type: Seq<char>,
) -> bool {
    r.prompt@ == prompt && r.thinking_enabled == thinking_enabled && r.model_type@ == model_type
        && !r.search_enabled && r.files@.len() == 0
}

/// The request for a raw stream: without search and without files.
pub fn raw_request<F>(prompt: String, thinking_enabled: bool, model_type: String) -> (r: ChatRequest<
    F,
>)
    ensures
        r.prompt == prompt,
        r.thinking_enabled == thinking_enabled,
        !r.search_enabled,
        r.model_type == model_type,
        r.files@.len() == 0,
        asks_raw(r, prompt@, thinking_enabled, model_type@),
{
    ChatRequest { prompt, thinking_enabled, search_enabled: false, model_type, files: Vec::new() }
}

/// The request for a completion: it searches where the files name web addresses.
pub fn chat_request<F>(
    prompt: String,
    thinking_enabled: bool,
    has_http_urls: bool,
    model_type: String,
    files: Vec<F>,
) -> (r: ChatRequest<F>)
    ensures
        r.prompt == prompt,
        r.thinking_enabled == thinking_enabled,
        r.search_enabled == has_http_urls,
        r.model_type == model_type,
        r.files == files,
{
    ChatRequest { prompt, thinking_enabled, search_enabled: has_http_urls, model_type, files }
}

/// What is added to a prompt to have malformed tool calls written anew.
pub const RETRY_SUFFIX: &'static str = "<｜end▁of▁sentence｜>\n<｜User｜>上一轮的输出中包含了格式错误的工具调用。请严格按照规范重新输出工具调用，只输出 `<|tool_calls_begin|>[{...}]<|tool_calls_end|>` 格式的工具调用，不要输出任何解释文字。\n<|Assistant|><think>\n";

/// The prompt that asks for malformed tool calls to be written anew.
pub fn retry_prompt(base: &str) -> (r: String)
    ensures
        r@ == base@ + RETRY_SUFFIX@,
{
    joined(base, RETRY_SUFFIX)
}

/// How a response is turned into chunks.
#[derive(Debug)]
pub struct StreamCfg {
    pub include_usage: bool,
    pub include_obfuscation: bool,
    pub stop: Vec<String>,
    pub prompt_tokens: u32,
    pub tag_config: Arc<TagConfig>,
    pub chatcmpl_id: String,
}

/// How a response that becomes one JSON object is turned into chunks. Only the first attempt
/// reports the tokens of the prompt.
pub fn aggregate_cfg(
    first_attempt: bool,
    stop: Vec<String>,
    prompt_tokens: u32,
    tag_config: Arc<TagConfig>,
    chatcmpl_id: String,
) -> (r: StreamCfg)
    ensures
        r.include_usage,
        !r.include_obfuscation,
        r.stop == stop,
        r.prompt_tokens == (if first_attempt {
            prompt_tokens
        } else {
            0
        }),
        r.tag_config == tag_config,
        r.chatcmpl_id == chatcmpl_id,
{
    StreamCfg {
        include_usage: true,
        include_obfuscation: false,
        stop,
        prompt_tokens: if first_attempt {
            prompt_tokens
        } else {
            0
        },
        tag_config,
        chatcmpl_id,
    }
}

// ---------------------------------------------------------------------------------------
// Trying again when tool calls are malformed
// ---------------------------------------------------------------------------------------
/// The most attempts at a response whose tool calls can be parsed.
pub const MAX_ATTEMPTS: usize = 3;

/// The message after the last attempt.
pub const REPAIR_FAILED: &'static str = "工具调用自修正失败：多次重试后工具调用格式仍然无法解析";

/// How an attempt went: the core took no request, or the response was aggregated.
#[derive(Debug)]
pub enum Attempt<T> {
    NotStarted(CoreError),
    Aggregated(Result<T, OpenAIAdapterError>),
}

/// What to do after an attempt.
#[derive(Debug)]
pub enum RepairStep<T> {
    Accept(T),
    Retry,
    GiveUp(OpenAIAdapterError),
}

/// Attempt number `n`, counted from one, went wrong in a way that another attempt can mend: its
/// tool calls are malformed or, from the second attempt on, the core took no request.
pub open spec fn mendable<T>(n: usize, attempt: Attempt<T>) -> bool {
    match attempt {
        Attempt::NotStarted(_) => n > 1,
        Attempt::Aggregated(Err(e)) => e is ToolCallRepairNeeded,
        Attempt::Aggregated(Ok(_)) => false,
    }
}

/// What to do after attempt number `n`, counted from one.
pub open spec fn is_repair_step<T>(n: usize, attempt: Attempt<T>, step: RepairStep<T>) -> bool {
    if mendable(n, attempt) {
        if n < MAX_ATTEMPTS {
            step is Retry
        } else {
            step matches RepairStep::GiveUp(e) && e@ == ErrorView::Internal(REPAIR_FAILED@)
        }
    } else {
        match attempt {
            Attempt::NotStarted(e) => step matches RepairStep::GiveUp(g) && g@ == from_core(e),
            Attempt::Aggregated(Ok(data)) => step == RepairStep::Accept(data),
            Attempt::Aggregated(Err(e)) => step == RepairStep::<T>::GiveUp(e),
        }
    }
}

/// Says what to do after attempt number `n`, counted from one.
pub fn after_attempt<T>(n: usize, attempt: Attempt<T>) -> (r: RepairStep<T>)
    ensures
        is_repair_step(n, attempt, r),
{
    match attempt {
        Attempt::NotStarted(e) => {
            if n > 1 {
                retry_or_give_up(n)
            } else {
                RepairStep::GiveUp(OpenAIAdapterError::from(e))
            }
        },
        Attempt::Aggregated(Ok(data)) => RepairStep::Accept(data),
        Attempt::Aggregated(Err(OpenAIAdapterError::ToolCallRepairNeeded(_))) => retry_or_give_up(
            n,
        ),
        Attempt::Aggregated(Err(e)) => RepairStep::GiveUp(e),
    }
}

fn retry_or_give_up<T>(n: usize) -> (r: RepairStep<T>)
    ensures
        n < MAX_ATTEMPTS ==> r is Retry,
        n >= MAX_ATTEMPTS ==> (r matches RepairStep::GiveUp(e) && e@ == ErrorView::Internal(
            REPAIR_FAILED@,
        )),
{
    if n < MAX_ATTEMPTS {
        RepairStep::Retry
    } else {
        RepairStep::GiveUp(OpenAIAdapterError::Internal(REPAIR_FAILED.to_owned()))
    }
}

// ---------------------------------------------------------------------------------------
// Trying again when no account is free
// ---------------------------------------------------------------------------------------
/// How often the core is asked when no account is free.
pub const MAX_RETRIES: usize = 6;

/// The first wait before the core is asked again, in milliseconds; each further one is twice
/// as long.
pub const BASE_DELAY_MS: u64 = 1000;

/// What to do after the core was asked.
#[derive(Debug)]
pub enum ChatStep<T> {
    Done(T),
    /// Wait so many milliseconds, then ask again.
    Wait(u64),
    Fail(CoreError),
}

/// What to do after the core was asked for the time number `attempt`, counted from zero.
pub open spec fn chat_step<T>(attempt: usize, result: Result<T, CoreError>) -> ChatStep<T> {
    match result {
        Ok(response) => ChatStep::Done(response),
        Err(CoreError::Overloaded) => if attempt + 1 < MAX_RETRIES {
            ChatStep::Wait((BASE_DELAY_MS * pow2(attempt as nat)) as u64)
        } else {
            ChatStep::Fail(CoreError::Overloaded)
        },
        Err(e) => ChatStep::Fail(e),
    }
}

/// Says what to do after the core was asked for the time number `attempt`, counted from zero.
pub fn after_chat<T>(attempt: usize, result: Result<T, CoreError>) -> (r: ChatStep<T>)
    ensures
        r == chat_step(attempt, result),
{
    match result {
        Ok(response) => ChatStep::Done(response),
        Err(CoreError::Overloaded) => {
            if attempt < MAX_RETRIES - 1 {
                proof {
                    lemma2_to64();
                    assert(1u64 << 0usize == 1 && 1u64 << 1usize == 2 && 1u64 << 2usize == 4 && 1u64
                        << 3usize == 8 && 1u64 << 4usize == 16) by (bit_vector);
                }
                ChatStep::Wait(BASE_DELAY_MS * (1u64 << attempt))
            } else {
                ChatStep::Fail(CoreError::Overloaded)
            }
        },
        Err(e) => ChatStep::Fail(e),
    }
}

// ---------------------------------------------------------------------------------------
// The pool of accounts
// ---------------------------------------------------------------------------------------
/// What an account is known by.
#[derive(Debug, Clone)]
pub struct Account {
    pub email: String,
    pub mobile: String,
}

/// The name of an account: its e-mail address or, failing that, its mobile number.
pub open spec fn account_name(a: Account) -> Seq<char> {
    if a.email@.len() > 0 {
        a.email@
    } else {
        a.mobile@
    }
}

pub open spec fn account_names(accounts: Seq<Account>) -> Seq<Seq<char>> {
    accounts.map_values(|a: Account| account_name(a))
}

/// Which of the configured accounts the pool lacks, as indices in their order.
pub open spec fn missing(pool: Seq<Account>, configured: Seq<Account>) -> Seq<int>
    decreases configured.len(),
{
    if configured.len() == 0 {
        seq![]
    } else {
        let before = missing(pool, configured.drop_last());
        if account_names(pool).contains(account_name(configured.last())) {
            before
        } else {
            before.push(configured.len() - 1)
        }
    }
}

/// The names in the pool that are configured no more, in their order. An account without a name
/// stays.
pub open spec fn surplus(pool: Seq<Account>, configured: Seq<Account>) -> Seq<Seq<char>>
    decreases pool.len(),
{
    if pool.len() == 0 {
        seq![]
    } else {
        let before = surplus(pool.drop_last(), configured);
        let name = account_name(pool.last());
        if account_names(configured).contains(name) || name.len() == 0 {
            before
        } else {
            before.push(name)
        }
    }
}

/// What to change in the pool of accounts.
#[derive(Debug)]
pub struct SyncPlan {
    /// The configured accounts to add, as indices.
    pub add: Vec<usize>,
    /// The names of the accounts to remove.
    pub remove: Vec<String>,
}

/// The name of an account.
pub fn name_of(a: &Account) -> (r: String)
    ensures
        r@ == account_name(*a),
{
    if chars_of(a.email.as_str()).len() > 0 {
        a.email.clone()
    } else {
        a.mobile.clone()
    }
}

/// Whether one of the accounts has the name.
fn is_named(accounts: &Vec<Account>, name: &str) -> (r: bool)
    ensures
        r == account_names(accounts@).contains(name@),
{
    let mut i: usize = 0;
    while i < accounts.len()
        invariant
            i <= accounts@.len(),
            forall|k: int| 0 <= k < i ==> account_name(#[trigger] accounts@[k]) != name@,
        decreases accounts@.len() - i,
    {
        if same_text(name_of(&accounts[i]).as_str(), name) {
            assert(account_names(accounts@)[i as int] == name@);
            return true;
        }
        i = i + 1;
    }
    proof {
        let names = account_names(accounts@);
        if names.contains(name@) {
            let k = choose|k: int| 0 <= k < names.len() && names[k] == name@;
            assert(account_name(accounts@[k]) == name@);
        }
    }
    false
}

/// What to change in the pool so that it holds the configured accounts.
pub fn plan_sync(pool: &Vec<Account>, configured: &Vec<Account>) -> (r: SyncPlan)
    ensures
        r.add@.map_values(|i: usize| i as int) == missing(pool@, configured@),
        r.remove@.map_values(|t: String| t@) == surplus(pool@, configured@),
{
    let mut add: Vec<usize> = Vec::new();
    let mut i: usize = 0;
    assert(add@.map_values(|i: usize| i as int) =~= missing(pool@, configured@.take(0)));
    while i < configured.len()
        invariant
            i <= configured@.len(),
            add@.map_values(|i: usize| i as int) == missing(pool@, configured@.take(i as int)),
        decreases configured@.len() - i,
    {
        let ghost before = add@;
        assert(configured@.take(i + 1).drop_last() =~= configured@.take(i as int));
        if !is_named(pool, name_of(&configured[i]).as_str()) {
            add.push(i);
            assert(add@.map_values(|i: usize| i as int) =~= before.map_values(
                |i: usize| i as int,
            ).push(i as int));
        }
        i = i + 1;
    }
    assert(configured@.take(i as int) =~= configured@);
    let mut remove: Vec<String> = Vec::new();
    let mut j: usize = 0;
    assert(remove@.map_values(|t: String| t@) =~= surplus(pool@.take(0), configured@));
    while j < pool.len()
        invariant
            j <= pool@.len(),
            remove@.map_values(|t: String| t@) == surplus(pool@.take(j as int), configured@),
        decreases pool@.len() - j,
    {
        let ghost before = remove@;
        assert(pool@.take(j + 1).drop_last() =~= pool@.take(j as int));
        let name = name_of(&pool[j]);
        if !is_named(configured, name.as_str()) && chars_of(name.as_str()).len() > 0 {
            remove.push(name);
            assert(remove@.map_values(|t: String| t@) =~= before.map_values(|t: String| t@).push(
                name@,
            ));
        }
        j = j + 1;
    }
    assert(pool@.take(j as int) =~= pool@);
    SyncPlan { add, remove }
}

} // verus!
