//! What holds of the adapter's decisions and errors.
use crate::adapter::account_name;
use crate::adapter::account_names;
use crate::adapter::adopted_choice;
use crate::adapter::adopted_tools;
use crate::adapter::chat_step;
use crate::adapter::choice_of;
use crate::adapter::function_tools;
use crate::adapter::is_repair_step;
use crate::adapter::mendable;
use crate::adapter::missing;
use crate::adapter::surplus;
use crate::adapter::Account;
use crate::adapter::Attempt;
use crate::adapter::ChatStep;
use crate::adapter::ChoiceView;
use crate::adapter::FunctionCallOption;
use crate::adapter::RepairStep;
use crate::adapter::ToolView;
use crate::adapter::MAX_ATTEMPTS;
use crate::adapter::REPAIR_FAILED;
use crate::error::code_of;
use crate::error::from_core;
use crate::error::CoreError;
use crate::error::ErrorView;
use vstd::arithmetic::power2::lemma2_to64;
use vstd::arithmetic::power2::pow2;
use vstd::prelude::*;

verus! {

// ---------------------------------------------------------------------------------------
// Errors
// ---------------------------------------------------------------------------------------
/// Every error is answered with a status code of a client's or a server's error.
pub proof fn law_codes_are_errors(e: ErrorView)
    ensures
        400 <= code_of(e) < 600,
{
}

/// An overloaded core is answered with "too many requests", and nothing else is.
pub proof fn law_overload_code(e: CoreError)
    ensures
        code_of(from_core(e)) == 429 <==> e is Overloaded,
{
}

// ---------------------------------------------------------------------------------------
// Older request fields
// ---------------------------------------------------------------------------------------
/// What a request says of tools, in its newer and its older fields.
#[verifier::ext_equal]
pub struct ToolFields<F, C, O> {
    pub tools: Option<Seq<ToolView<F, C>>>,
    pub tool_choice: Option<ChoiceView<O>>,
    pub functions: Option<Seq<F>>,
    pub function_call: Option<FunctionCallOption>,
}

/// A request with its newer fields filled in from the older ones.
pub open spec fn adopted<F, C, O>(r: ToolFields<F, C, O>) -> ToolFields<F, C, O> {
    ToolFields {
        tools: adopted_tools(r.tools, r.functions),
        tool_choice: adopted_choice(r.tool_choice, r.function_call),
        ..r
    }
}

/// The request in the newer fields that one in the older fields stands for.
pub open spec fn in_newer_fields<F, C, O>(r: ToolFields<F, C, O>) -> ToolFields<F, C, O> {
    ToolFields {
        tools: Some(function_tools(r.functions->0)),
        tool_choice: Some(choice_of(r.function_call->0)),
        ..r
    }
}

/// A request in the older fields is treated as the one in the newer fields that it stands for:
/// they are the same once the newer fields are filled in, and so is whatever is made of them,
/// such as what is asked of the core.
pub proof fn law_older_fields_mean_the_newer<F, C, O, A>(
    r: ToolFields<F, C, O>,
    ask: spec_fn(ToolFields<F, C, O>) -> A,
)
    requires
        r.tools matches Some(t) ==> t.len() == 0,
        r.functions matches Some(f) && f.len() > 0,
        r.tool_choice is None,
        r.function_call is Some,
    ensures
        adopted(r) == in_newer_fields(r),
        adopted(in_newer_fields(r)) == in_newer_fields(r),
        ask(adopted(r)) == ask(adopted(in_newer_fields(r))),
{
}

/// The older fields say nothing that the newer ones do not say once they are filled in: filling
/// them in twice is filling them in once.
pub proof fn law_adopted_once<F, C, O>(r: ToolFields<F, C, O>)
    ensures
        adopted(adopted(r)) == adopted(r),
{
}

// ---------------------------------------------------------------------------------------
// Trying again
// ---------------------------------------------------------------------------------------
/// The attempts come to an end: after the last one there is no other, whatever it gave.
pub proof fn law_attempts_bounded<T>(n: usize, attempt: Attempt<T>, step: RepairStep<T>)
    requires
        is_repair_step(n, attempt, step),
        n >= MAX_ATTEMPTS,
    ensures
        !(step is Retry),
{
}

/// Only what another attempt can mend is tried again: a good response is accepted at once, and
/// any other error is reported as it is.
pub proof fn law_retry_only_to_mend<T>(n: usize, attempt: Attempt<T>, step: RepairStep<T>)
    requires
        is_repair_step(n, attempt, step),
    ensures
        step is Retry ==> mendable(n, attempt),
        attempt matches Attempt::Aggregated(Ok(data)) ==> step == RepairStep::Accept(data),
        attempt matches Attempt::Aggregated(Err(e)) ==> !(e is ToolCallRepairNeeded) ==> step
            == RepairStep::<T>::GiveUp(e),
{
}

/// Every outcome, from that of the first attempt on, leads to another attempt.
pub open spec fn all_retried<T>(outcomes: Seq<Attempt<T>>) -> bool {
    forall|k: int|
        0 <= k < outcomes.len() ==> k < usize::MAX && is_repair_step(
            (k + 1) as usize,
            #[trigger] outcomes[k],
            RepairStep::<T>::Retry,
        )
}

/// A request is answered within three attempts: at most two of them lead to another.
pub proof fn law_answered_within_three<T>(outcomes: Seq<Attempt<T>>)
    requires
        all_retried(outcomes),
    ensures
        outcomes.len() <= 2,
{
    if outcomes.len() > 2 {
        law_attempts_bounded(3, outcomes[2], RepairStep::<T>::Retry);
    }
}

/// A request that fails in three attempts, each time in a way that another attempt could mend,
/// ends with the message that says so.
pub proof fn law_three_failures_give_up<T>(attempt: Attempt<T>, step: RepairStep<T>)
    requires
        is_repair_step(3, attempt, step),
        mendable(3, attempt),
    ensures
        step matches RepairStep::GiveUp(e) && e@ == ErrorView::Internal(REPAIR_FAILED@)
            && code_of(e@) == 500,
{
}

/// The core is asked again only when it was overloaded, and at most six times in all; the waits
/// begin with one second and double. Any other answer is handed on at once.
pub proof fn law_overload_retried<T>(attempt: usize, result: Result<T, CoreError>)
    ensures
        chat_step(attempt, result) is Wait <==> attempt < 5 && result == Err::<T, CoreError>(
            CoreError::Overloaded,
        ),
        chat_step(attempt, result) matches ChatStep::Wait(ms) ==> ms == 1000 * pow2(
            attempt as nat,
        ),
        result matches Ok(response) ==> chat_step(attempt, result) == ChatStep::Done(response),
        result matches Err(e) ==> (attempt >= 5 || !(e is Overloaded)) ==> chat_step(
            attempt,
            result,
        ) == ChatStep::<T>::Fail(e),
{
    lemma2_to64();
}

/// An overloaded core is waited for one, two, four, eight and sixteen seconds, and after the
/// sixth time the overload is reported.
pub proof fn law_waits_double<T>()
    ensures
        ({
            let overloaded = Err::<T, CoreError>(CoreError::Overloaded);
            &&& chat_step(0, overloaded) == ChatStep::<T>::Wait(1000)
            &&& chat_step(1, overloaded) == ChatStep::<T>::Wait(2000)
            &&& chat_step(2, overloaded) == ChatStep::<T>::Wait(4000)
            &&& chat_step(3, overloaded) == ChatStep::<T>::Wait(8000)
            &&& chat_step(4, overloaded) == ChatStep::<T>::Wait(16000)
            &&& chat_step(5, overloaded) == ChatStep::<T>::Fail(CoreError::Overloaded)
        }),
{
    lemma2_to64();
}

// ---------------------------------------------------------------------------------------
// The pool of accounts
// ---------------------------------------------------------------------------------------
proof fn lemma_names_drop_last(accounts: Seq<Account>, name: Seq<char>)
    requires
        accounts.len() > 0,
    ensures
        account_names(accounts).contains(name) <==> (account_names(accounts.drop_last()).contains(
            name,
        ) || account_name(accounts.last()) == name),
{
    let all = account_names(accounts);
    let front = account_names(accounts.drop_last());
    assert(forall|k: int| 0 <= k < front.len() ==> front[k] == all[k]);
    assert(all[accounts.len() - 1] == account_name(accounts.last()));
    if all.contains(name) {
        let k = choose|k: int| 0 <= k < all.len() && all[k] == name;
        if k < front.len() {
            assert(front[k] == name);
        }
    }
    if front.contains(name) {
        let k = choose|k: int| 0 <= k < front.len() && front[k] == name;
        assert(all[k] == name);
    }
}

/// An account is added exactly when it is configured and the pool has none of its name.
pub proof fn law_missing(pool: Seq<Account>, configured: Seq<Account>, i: int)
    ensures
        missing(pool, configured).contains(i) <==> (0 <= i < configured.len() && !account_names(
            pool,
        ).contains(account_name(configured[i]))),
    decreases configured.len(),
{
    if configured.len() > 0 {
        let before = missing(pool, configured.drop_last());
        law_missing(pool, configured.drop_last(), i);
        let n = configured.len() - 1;
        if !account_names(pool).contains(account_name(configured.last())) {
            let all = before.push(n);
            assert(missing(pool, configured) == all);
            assert(all[before.len() as int] == n);
            if before.contains(i) {
                let k = choose|k: int| 0 <= k < before.len() && before[k] == i;
                assert(all[k] == i);
            }
            if all.contains(i) && i != n {
                let k = choose|k: int| 0 <= k < all.len() && all[k] == i;
                assert(before[k] == i);
            }
        }
    }
}

/// An account is removed exactly when the pool has it, it has a name, and none of that name is
/// configured.
pub proof fn law_surplus(pool: Seq<Account>, configured: Seq<Account>, name: Seq<char>)
    ensures
        surplus(pool, configured).contains(name) <==> (account_names(pool).contains(name)
            && name.len() > 0 && !account_names(configured).contains(name)),
    decreases pool.len(),
{
    if pool.len() > 0 {
        let before = surplus(pool.drop_last(), configured);
        law_surplus(pool.drop_last(), configured, name);
        lemma_names_drop_last(pool, name);
        let last = account_name(pool.last());
        if !(account_names(configured).contains(last) || last.len() == 0) {
            let all = before.push(last);
            assert(surplus(pool, configured) == all);
            assert(all[before.len() as int] == last);
            if before.contains(name) {
                let k = choose|k: int| 0 <= k < before.len() && before[k] == name;
                assert(all[k] == name);
            }
            if all.contains(name) && name != last {
                let k = choose|k: int| 0 <= k < all.len() && all[k] == name;
                assert(before[k] == name);
            }
        }
    }
}

/// The pool has an account of the name once the plan is carried out.
pub open spec fn named_after(pool: Seq<Account>, configured: Seq<Account>, name: Seq<char>) -> bool {
    (account_names(pool).contains(name) && !surplus(pool, configured).contains(name)) || exists|
        i: int,
    | #[trigger] missing(pool, configured).contains(i) && account_name(configured[i]) == name
}

/// Once the plan is carried out, the names in the pool are those configured; an account without
/// a name stays besides.
pub proof fn law_pool_follows_configuration(
    pool: Seq<Account>,
    configured: Seq<Account>,
    name: Seq<char>,
)
    requires
        name.len() > 0,
    ensures
        named_after(pool, configured, name) <==> account_names(configured).contains(name),
{
    law_surplus(pool, configured, name);
    let names = account_names(configured);
    if names.contains(name) && !account_names(pool).contains(name) {
        let i = choose|i: int| 0 <= i < names.len() && names[i] == name;
        assert(account_name(configured[i]) == name);
        law_missing(pool, configured, i);
        assert(missing(pool, configured).contains(i));
    }
    if exists|i: int| #[trigger]
        missing(pool, configured).contains(i) && account_name(configured[i]) == name {
        let i = choose|i: int| #[trigger]
            missing(pool, configured).contains(i) && account_name(configured[i]) == name;
        law_missing(pool, configured, i);
        assert(names[i] == name);
    }
}

/// A pool that has the configured accounts is left alone.
pub proof fn law_pool_in_step_is_kept(pool: Seq<Account>, configured: Seq<Account>)
    requires
        forall|name: Seq<char>|
            #![auto]
            account_names(pool).contains(name) <==> account_names(configured).contains(name),
    ensures
        missing(pool, configured).len() == 0,
        surplus(pool, configured).len() == 0,
{
    if missing(pool, configured).len() > 0 {
        let i = missing(pool, configured)[0];
        assert(missing(pool, configured).contains(i));
        law_missing(pool, configured, i);
        assert(account_names(configured)[i] == account_name(configured[i]));
        assert(account_names(configured).contains(account_name(configured[i])));
    }
    if surplus(pool, configured).len() > 0 {
        let name = surplus(pool, configured)[0];
        assert(surplus(pool, configured).contains(name));
        law_surplus(pool, configured, name);
    }
}

} // verus!
