//! What holds of tool calls written as invocations.
use crate::invoke::invocations;
use crate::invoke::invocations_from;
use crate::invoke::invoke_at;
use crate::invoke::lemma_param;
use crate::invoke::lowercase;
use crate::invoke::param;
use crate::invoke::param_members;
use crate::invoke::param_value;
use crate::invoke::params;
use crate::invoke::InvokeAt;
use crate::search::find;
use crate::search::lemma_find;
use crate::text::byte_len;
use crate::text::byte_pos;
use crate::text::char_pos;
use crate::text::lemma_byte_pos_between;
use crate::text::lemma_char_pos;
use crate::text::lemma_char_pos_bounds;
use vstd::prelude::*;

verus! {

/// Two texts of as many characters, each of which begins at the same byte in both.
pub open spec fn aligned(s: Seq<char>, t: Seq<char>) -> bool {
    s.len() == t.len() && forall|i: int|
        0 <= i <= s.len() ==> #[trigger] byte_pos(s, i) == byte_pos(t, i)
}

/// Lower-casing keeps every part of the text aligned, as it does for ASCII.
pub open spec fn lowers_in_place(s: Seq<char>) -> bool {
    aligned(s, lowercase(s)) && forall|i: int, j: int|
        0 <= i <= j <= s.len() ==> aligned(#[trigger] s.subrange(i, j), lowercase(s.subrange(i, j)))
}

proof fn lemma_same_position(s: Seq<char>, t: Seq<char>, i: int)
    requires
        aligned(s, t),
        0 <= i <= s.len(),
    ensures
        char_pos(s, byte_pos(t, i) as int) == Some(i),
{
    assert(byte_pos(s, i) == byte_pos(t, i));
    lemma_char_pos(s, i);
}

proof fn lemma_params_never_fault(body: Seq<char>, lower: Seq<char>, at: int)
    requires
        aligned(body, lower),
        char_pos(lower, at) is Some,
    ensures
        params(body, lower, at).end !is Fault,
    decreases byte_len(lower) - at,
{
    lemma_char_pos_bounds(lower, at);
    let k = char_pos(lower, at)->0;
    lemma_find(lower.skip(k), "<parameter "@);
    if let Some(p) = find(lower.skip(k), "<parameter "@) {
        let m = k + p;
        let from = byte_pos(lower, m) as int;
        lemma_same_position(body, lower, m);
        lemma_param(body.skip(m));
        if let Some((_, _, n)) = param(body.skip(m)) {
            let next = from + byte_pos(body.skip(m), n);
            lemma_byte_pos_between(body, m, m + n);
            assert(body.skip(m).take(n) =~= body.subrange(m, m + n));
            assert(byte_pos(body, m) == byte_pos(lower, m));
            assert(byte_pos(body, m + n) == byte_pos(lower, m + n));
            assert(next == byte_pos(lower, m + n));
            lemma_char_pos(lower, m + n);
            lemma_char_pos_bounds(lower, next);
            lemma_byte_pos_between(lower, k, m);
            lemma_byte_pos_between(body.skip(m), 0, n);
            lemma_params_never_fault(body, lower, next);
        }
    }
}

proof fn lemma_invoke_never_faults(inner: Seq<char>, a: int)
    requires
        lowers_in_place(inner),
        0 <= a <= inner.len(),
    ensures
        invoke_at(inner, lowercase(inner), a) !is Fault,
        invoke_at(inner, lowercase(inner), a) matches InvokeAt::Read(_, n) ==> n > 0 && a + n
            <= inner.len(),
{
    reveal_strlit("</invoke>");
    let lower = lowercase(inner);
    lemma_same_position(inner, lower, a);
    lemma_find(lower.skip(a), "</invoke>"@);
    if let Some(q) = find(lower.skip(a), "</invoke>"@) {
        let j = a + q + 9;
        lemma_same_position(inner, lower, j);
        let body = inner.subrange(a, j);
        assert(aligned(body, lowercase(body)));
        assert(lowercase(body).take(0) =~= Seq::<char>::empty());
        lemma_char_pos(lowercase(body), 0);
        lemma_params_never_fault(body, lowercase(body), 0);
    }
}

proof fn lemma_invokes_never_fault(inner: Seq<char>, k: int)
    requires
        lowers_in_place(inner),
        0 <= k <= inner.len(),
    ensures
        invocations_from(inner, lowercase(inner), k).end !is Fault,
    decreases inner.len() - k,
{
    let lower = lowercase(inner);
    lemma_find(lower.skip(k), "<invoke "@);
    if let Some(p) = find(lower.skip(k), "<invoke "@) {
        lemma_invoke_never_faults(inner, k + p);
        if let InvokeAt::Read(_, n) = invoke_at(inner, lower, k + p) {
            lemma_invokes_never_fault(inner, k + p + n);
        }
    }
}

/// Where lower-casing keeps the characters in place, reading invocations never ends in a fault.
pub proof fn law_invokes_never_fault(inner: Seq<char>)
    requires
        lowers_in_place(inner),
    ensures
        invocations(inner).end !is Fault,
{
    lemma_invokes_never_fault(inner, 0);
}

/// Of parameters with the same name the last one counts.
pub proof fn law_last_parameter_counts(
    found: Seq<(Seq<char>, Seq<char>)>,
    name: Seq<char>,
    value: Seq<char>,
)
    ensures
        param_members(found.push((name, value))) == param_members(found).insert(
            name,
            param_value(value),
        ),
{
    assert(found.push((name, value)).drop_last() =~= found);
}

} // verus!
