//! How requests, errors, attempts and accounts are treated, case by case.
use crate::adapter::account_name;
use crate::adapter::account_names;
use crate::adapter::adopted_choice;
use crate::adapter::adopted_tools;
use crate::adapter::asks_raw;
use crate::adapter::is_repair_step;
use crate::adapter::missing;
use crate::adapter::surplus;
use crate::adapter::Account;
use crate::adapter::Attempt;
use crate::adapter::ChatRequest;
use crate::adapter::ChoiceView;
use crate::adapter::FunctionCallOption;
use crate::adapter::RepairStep;
use crate::adapter::ToolView;
use crate::adapter_laws::law_missing;
use crate::chat_flow::asked;
use crate::chat_flow::asked_prompt;
use crate::chat_flow::attempt_after;
use crate::chat_flow::is_flow_step;
use crate::chat_flow::turned;
use crate::chat_flow::ChatFlow;
use crate::chat_flow::FlowStep;
use crate::converter::estimated_tokens;
use crate::error::body_error;
use crate::error::code_of;
use crate::error::from_core;
use crate::error::message_of;
use crate::error::serialization_error;
use crate::error::CoreError;
use crate::error::ErrorView;
use crate::frame_laws::third;
use crate::tags::texts;
use crate::text::byte_len;
use crate::text::char_pos;
use crate::text::chars_within;
use crate::text::lemma_byte_len_push;
use crate::text::lemma_char_pos;
use crate::text::lemma_chars_within_is;
use crate::tokens::prompt_token_count;
use crate::tokens::reported_count;
use vstd::prelude::*;

verus! {

// ---------------------------------------------------------------------------------------
// Errors
// ---------------------------------------------------------------------------------------
/// Each status code stands for one kind of error: a malformed request, an overload, a failure of
/// the provider; and for the failures of the adapter itself.
pub proof fn law_status_codes(e: ErrorView)
    ensures
        code_of(e) == 400 <==> e is BadRequest,
        code_of(e) == 429 <==> e is Overloaded,
        code_of(e) == 502 <==> e is ProviderError,
        code_of(e) == 500 <==> e is Internal || e is ToolCallRepairNeeded,
{
}

/// A message says what kind of error it is, and then what the error holds.
pub proof fn law_messages(text: Seq<char>)
    ensures
        message_of(ErrorView::BadRequest(text)) == "bad request: "@ + text,
        message_of(ErrorView::Overloaded) == "service overloaded"@,
        message_of(ErrorView::ProviderError(text)) == "provider error: "@ + text,
        message_of(ErrorView::Internal(text)) == "internal error: "@ + text,
        message_of(ErrorView::ToolCallRepairNeeded(text)) == "tool_calls repair needed: "@ + text,
{
}

/// A failure of the core is answered as what it is: an overload as one, a refusal of the provider
/// with its own text, and the others as failures of the adapter, a proof of work with its name
/// before its text.
pub proof fn law_core_failures_answered(e: CoreError)
    ensures
        match e {
            CoreError::Overloaded => code_of(from_core(e)) == 429 && message_of(from_core(e))
                == "service overloaded"@,
            CoreError::ProofOfWorkFailed(t) => code_of(from_core(e)) == 500 && message_of(
                from_core(e),
            ) == "internal error: "@ + ("proof of work failed: "@ + t@),
            CoreError::ProviderError(t) => code_of(from_core(e)) == 502 && message_of(from_core(e))
                == "provider error: "@ + t@,
            CoreError::Stream(t) => code_of(from_core(e)) == 500 && message_of(from_core(e))
                == "internal error: "@ + t@,
        },
{
}

/// A request body that cannot be read is the client's error, and a serialization that fails is
/// the adapter's; both bear the message that they were given.
pub proof fn law_json_failures_answered(text: Seq<char>)
    ensures
        code_of(body_error(text)) == 400,
        message_of(body_error(text)) == "bad request: "@ + ("bad request: "@ + text),
        code_of(serialization_error(text)) == 500,
        message_of(serialization_error(text)) == "internal error: "@ + (
        "json serialization failed: "@ + text),
{
}

// ---------------------------------------------------------------------------------------
// Older request fields
// ---------------------------------------------------------------------------------------
/// Where a request names no tools, each of its functions becomes a tool, in their order; where it
/// names tools, or no functions, its tools are left as they are.
pub proof fn law_functions_become_tools<F, C>(
    tools: Option<Seq<ToolView<F, C>>>,
    functions: Option<Seq<F>>,
)
    ensures
        ({
            let r = adopted_tools(tools, functions);
            let no_tools = tools is None || tools->0.len() == 0;
            let some_functions = functions is Some && functions->0.len() > 0;
            &&& no_tools && some_functions ==> r is Some && r->0.len() == functions->0.len()
            &&& no_tools && some_functions ==> forall|k: int|
                0 <= k < functions->0.len() ==> (#[trigger] r->0[k]).ty == "function"@
                    && r->0[k].function == Some(functions->0[k]) && r->0[k].custom is None
            &&& !(no_tools && some_functions) ==> r == tools
        }),
{
}

/// Where a request has no tool choice, its function call becomes one that says the same; where it
/// has one, that stays.
pub proof fn law_call_becomes_choice<O>(
    choice: Option<ChoiceView<O>>,
    call: Option<FunctionCallOption>,
)
    ensures
        ({
            let r = adopted_choice(choice, call);
            &&& choice is Some ==> r == choice
            &&& choice is None && call is None ==> r is None
            &&& choice is None ==> (call matches Some(FunctionCallOption::Mode(mode)) ==> r == Some(
                ChoiceView::<O>::Mode(mode@),
            ))
            &&& choice is None ==> (call matches Some(FunctionCallOption::Named(named)) ==> (
            r matches Some(ChoiceView::Named { ty, name }) && ty == "function"@ && name
                == named.name@))
        }),
{
}

// ---------------------------------------------------------------------------------------
// Attempts
// ---------------------------------------------------------------------------------------
/// What is done after an attempt: a response is accepted; malformed tool calls lead to another
/// attempt, twice; a core that takes no request ends the first attempt with its error and leads
/// to another attempt after the second; from the third attempt on both end with the message that
/// says so; and any other error ends at once.
pub proof fn law_after_attempts<T>(n: usize, attempt: Attempt<T>, step: RepairStep<T>)
    requires
        is_repair_step(n, attempt, step),
    ensures
        match attempt {
            Attempt::Aggregated(Ok(data)) => step == RepairStep::Accept(data),
            Attempt::Aggregated(Err(e)) => if e is ToolCallRepairNeeded {
                if n < 3 {
                    step is Retry
                } else {
                    step matches RepairStep::GiveUp(g) && g@ == ErrorView::Internal(
                        "工具调用自修正失败：多次重试后工具调用格式仍然无法解析"@,
                    )
                }
            } else {
                step == RepairStep::<T>::GiveUp(e)
            },
            Attempt::NotStarted(e) => if n <= 1 {
                step matches RepairStep::GiveUp(g) && g@ == from_core(e)
            } else if n < 3 {
                step is Retry
            } else {
                step matches RepairStep::GiveUp(g) && g@ == ErrorView::Internal(
                    "工具调用自修正失败：多次重试后工具调用格式仍然无法解析"@,
                )
            },
        },
{
}

/// A result is given to the caller exactly as it was aggregated, with the account that served it
/// and the tokens of the prompt; another attempt is made, or an error given, exactly where the
/// attempts say so.
pub proof fn law_after_flow_attempts<T>(
    n: usize,
    attempt: Attempt<T>,
    account_id: String,
    prompt_tokens: u32,
    step: FlowStep<T>,
)
    requires
        is_flow_step(n, attempt, account_id, prompt_tokens, step),
    ensures
        attempt matches Attempt::Aggregated(Ok(data)) ==> (step matches FlowStep::Finish(r)
            && r.data == data && r.account_id == account_id && r.prompt_tokens == prompt_tokens),
        step is Finish ==> attempt matches Attempt::Aggregated(Ok(_)),
        step is Ask <==> n < 3 && ((attempt matches Attempt::Aggregated(Err(e))
            && e is ToolCallRepairNeeded) || (attempt is NotStarted && n > 1)),
        attempt matches Attempt::Aggregated(Err(e)) ==> !(e is ToolCallRepairNeeded) ==> step
            == FlowStep::<T>::Fail(e),
        attempt matches Attempt::NotStarted(e) ==> n <= 1 ==> (step matches FlowStep::Fail(g)
            && g@ == from_core(e)),
{
}

/// The first attempt asks with the prompt of the request, and every later one with that prompt
/// and the same words behind it.
pub proof fn law_prompt_of_attempts(prompt: Seq<char>, attempt: usize)
    ensures
        attempt <= 1 ==> asked_prompt(prompt, attempt) == prompt,
        attempt > 1 ==> asked_prompt(prompt, attempt) == prompt
            + "<｜end▁of▁sentence｜>\n<｜User｜>上一轮的输出中包含了格式错误的工具调用。请严格按照规范重新输出工具调用，只输出 `<|tool_calls_begin|>[{...}]<|tool_calls_end|>` 格式的工具调用，不要输出任何解释文字。\n<|Assistant|><think>\n"@,
{
}

/// Every attempt asks for the same, the words behind the prompt apart: it thinks and goes by the
/// model as the request says, and searches where the files name web addresses.
pub proof fn law_attempts_ask_the_same(flow: ChatFlow, other: ChatFlow)
    requires
        other.same_request(flow),
    ensures
        asked(flow).thinking_enabled == flow.thinking_enabled,
        asked(flow).search_enabled == flow.has_http_urls,
        asked(flow).model_type == flow.model_type@,
        flow.attempt <= 1 ==> asked(flow).prompt == flow.prompt@,
        asked(other).thinking_enabled == asked(flow).thinking_enabled,
        asked(other).search_enabled == asked(flow).search_enabled,
        asked(other).model_type == asked(flow).model_type,
        flow.attempt > 1 && other.attempt > 1 ==> asked(other) == asked(flow),
{
}

/// A raw stream is asked for as the request says, but without search and without files.
pub proof fn law_raw_asked<F>(
    r: ChatRequest<F>,
    prompt: Seq<char>,
    thinking_enabled: bool,
    model_type: Seq<char>,
)
    requires
        asks_raw(r, prompt, thinking_enabled, model_type),
    ensures
        r.prompt@ == prompt,
        r.thinking_enabled == thinking_enabled,
        r.model_type@ == model_type,
        !r.search_enabled,
        r.files@.len() == 0,
{
}

/// The number of the attempt grows by one where the core is asked again, and only there; with it
/// the attempts come to an end.
pub proof fn law_attempts_counted<T>(
    n: usize,
    attempt: Attempt<T>,
    account_id: String,
    prompt_tokens: u32,
    step: FlowStep<T>,
)
    requires
        is_flow_step(n, attempt, account_id, prompt_tokens, step),
    ensures
        step is Ask ==> attempt_after(n, step) == n + 1 && attempt_after(n, step) <= 3,
        !(step is Ask) ==> attempt_after(n, step) == n,
{
}

/// A stream is made as the request asks for it, whichever attempt it comes from. One JSON object
/// always has its usage and is never obfuscated, and only the first attempt reports the tokens
/// of the prompt.
pub proof fn law_answers_turned(flow: ChatFlow)
    ensures
        turned(flow).stop == texts(flow.stop@),
        flow.stream ==> turned(flow).include_usage == flow.include_usage && turned(
            flow,
        ).include_obfuscation == flow.include_obfuscation && turned(flow).prompt_tokens
            == flow.prompt_tokens,
        !flow.stream ==> turned(flow).include_usage && !turned(flow).include_obfuscation,
        !flow.stream && flow.attempt <= 1 ==> turned(flow).prompt_tokens == flow.prompt_tokens,
        !flow.stream && flow.attempt > 1 ==> turned(flow).prompt_tokens == 0,
{
}

// ---------------------------------------------------------------------------------------
// Accounts
// ---------------------------------------------------------------------------------------
/// An account goes by its e-mail address, and by its mobile number only where it has none.
pub proof fn law_account_names(a: Account)
    ensures
        a.email@.len() > 0 ==> account_name(a) == a.email@,
        a.email@.len() == 0 ==> account_name(a) == a.mobile@,
{
}

/// The accounts to add are named in the order in which they are configured, each once.
pub proof fn law_missing_in_order(pool: Seq<Account>, configured: Seq<Account>)
    ensures
        forall|i: int, j: int|
            0 <= i < j < missing(pool, configured).len() ==> #[trigger] missing(pool, configured)[i]
                < #[trigger] missing(pool, configured)[j],
    decreases configured.len(),
{
    if configured.len() > 0 {
        let before = missing(pool, configured.drop_last());
        law_missing_in_order(pool, configured.drop_last());
        assert forall|i: int, j: int|
            0 <= i < j < missing(pool, configured).len() implies #[trigger] missing(
            pool,
            configured,
        )[i] < #[trigger] missing(pool, configured)[j] by {
            assert(before.contains(before[i]));
            law_missing(pool, configured.drop_last(), before[i]);
        }
    }
}

/// The accounts to remove are those of the pool that have a name, and none of whose names is
/// configured, in the order of the pool.
pub proof fn law_surplus_in_order(pool: Seq<Account>, configured: Seq<Account>)
    ensures
        surplus(pool, configured) == account_names(pool).filter(
            |name: Seq<char>| name.len() > 0 && !account_names(configured).contains(name),
        ),
    decreases pool.len(),
{
    let f = |name: Seq<char>| name.len() > 0 && !account_names(configured).contains(name);
    reveal(Seq::filter);
    if pool.len() > 0 {
        law_surplus_in_order(pool.drop_last(), configured);
        assert(account_names(pool).drop_last() =~= account_names(pool.drop_last()));
        assert(account_names(pool).last() == account_name(pool.last()));
    } else {
        assert(account_names(pool) =~= Seq::<Seq<char>>::empty());
        assert(surplus(pool, configured) =~= account_names(pool).filter(f));
    }
}

// ---------------------------------------------------------------------------------------
// Tokens
// ---------------------------------------------------------------------------------------
/// A number of tokens is reported as it is, as far as 32 bits go; beyond that it comes round.
pub proof fn law_counts_reported(n: nat)
    ensures
        n < 0x1_0000_0000 ==> reported_count(n) == n,
        reported_count(n + 0x1_0000_0000) == reported_count(n),
{
}

/// The tokens of a prompt are counted where there is an encoder; without one there are none, and
/// where it gives up on the text there is no count.
pub proof fn law_prompt_tokens_counted(tokens: Seq<u32>)
    ensures
        prompt_token_count(false, Some(tokens)) == Some(0u32),
        prompt_token_count(false, None) == Some(0u32),
        tokens.len() < 0x1_0000_0000 ==> (prompt_token_count(true, Some(tokens)) matches Some(n)
            && n == tokens.len()),
        prompt_token_count(true, None) is None,
{
}

/// An estimate is a third of the characters, but at least one; beyond 32 bits the number of
/// characters comes round.
pub proof fn law_tokens_estimated(characters: nat)
    ensures
        characters < 0x1_0000_0000 ==> estimated_tokens(characters) == third(characters),
        estimated_tokens(characters + 0x1_0000_0000) == estimated_tokens(characters),
{
}

// ---------------------------------------------------------------------------------------
// Bytes
// ---------------------------------------------------------------------------------------
/// A character takes one byte in ASCII, two up to U+07FF, three up to U+FFFF and four beyond.
pub proof fn law_bytes_of_character(s: Seq<char>, c: char)
    ensures
        byte_len(s.push(c)) == byte_len(s) + (if (c as u32) < 0x80 {
            1int
        } else if (c as u32) < 0x800 {
            2
        } else if (c as u32) < 0x1_0000 {
            3
        } else {
            4
        }),
{
    lemma_byte_len_push(s, c);
}

/// As many characters fit in some bytes as there are in the longest beginning that does.
pub proof fn law_longest_beginning(a: Seq<char>, b: Seq<char>, max: nat)
    requires
        byte_len(a) <= max,
        b.len() > 0 ==> byte_len(a.push(b[0])) > max,
    ensures
        chars_within(a + b, max) == a.len(),
        (a + b).take(chars_within(a + b, max) as int) == a,
{
    let s = a + b;
    let n = a.len() as int;
    assert(s.take(n) =~= a);
    if b.len() > 0 {
        assert(s.take(n + 1) =~= a.push(b[0]));
    }
    lemma_chars_within_is(s, max, n);
}

/// The character behind a beginning of a text stands at the byte where the beginning ends.
pub proof fn law_byte_of_position(a: Seq<char>, b: Seq<char>)
    ensures
        char_pos(a + b, byte_len(a) as int) == Some(a.len() as int),
{
    assert((a + b).take(a.len() as int) =~= a);
    lemma_char_pos(a + b, a.len() as int);
}

} // verus!
