//! What holds of tool calls and their identifiers.
use crate::calls::call_id;
use crate::calls::hex_digit;
use crate::calls::hex_digits;
use crate::calls::named_items;
use crate::calls::nth_id;
use crate::json::Json;
use crate::tool_parser::content_calls;
use crate::tool_parser::contents;
use crate::tool_parser::inner_of;
use crate::tool_parser::locate;
use crate::tool_parser::parse_ids;
use crate::tool_parser::parsed;
use crate::tool_parser::Contents;
use crate::tool_parser::Located;
use crate::types::ToolCallView;
use vstd::arithmetic::power::lemma_pow_positive;
use vstd::arithmetic::power::pow;
use vstd::prelude::*;

verus! {

// ---------------------------------------------------------------------------------------
// Identifiers
// ---------------------------------------------------------------------------------------
proof fn lemma_hex_len(n: nat, k: nat)
    ensures
        hex_digits(n, k).len() == k,
    decreases k,
{
    if k > 0 {
        lemma_hex_len(n / 16, (k - 1) as nat);
    }
}

proof fn lemma_hex_digit_injective(a: int, b: int)
    requires
        0 <= a < 16,
        0 <= b < 16,
        hex_digit(a) == hex_digit(b),
    ensures
        a == b,
{
}

proof fn lemma_hex_injective(n: nat, m: nat, k: nat)
    requires
        n < pow(16, k),
        m < pow(16, k),
        hex_digits(n, k) == hex_digits(m, k),
    ensures
        n == m,
    decreases k,
{
    reveal(pow);
    if k > 0 {
        let a = hex_digits(n / 16, (k - 1) as nat);
        let b = hex_digits(m / 16, (k - 1) as nat);
        lemma_hex_len(n / 16, (k - 1) as nat);
        lemma_hex_len(m / 16, (k - 1) as nat);
        let x = hex_digits(n, k);
        let y = hex_digits(m, k);
        assert(x[k - 1] == hex_digit((n % 16) as int));
        assert(y[k - 1] == hex_digit((m % 16) as int));
        lemma_hex_digit_injective((n % 16) as int, (m % 16) as int);
        assert(a =~= x.drop_last());
        assert(b =~= y.drop_last());
        lemma_pow_positive(16, (k - 1) as nat);
        assert(pow(16, k) == 16 * pow(16, (k - 1) as nat));
        lemma_hex_injective(n / 16, m / 16, (k - 1) as nat);
    }
}

/// An identifier has twenty-one characters: the prefix and sixteen hexadecimal digits.
pub proof fn law_call_id_length(n: u64)
    ensures
        call_id(n).len() == 21,
{
    reveal_strlit("call_");
    lemma_hex_len(n as nat, 16);
}

/// Different numbers have different identifiers.
pub proof fn law_call_id_injective(n: u64, m: u64)
    requires
        call_id(n) == call_id(m),
    ensures
        n == m,
{
    reveal_strlit("call_");
    lemma_hex_len(n as nat, 16);
    lemma_hex_len(m as nat, 16);
    let p = "call_"@.len() as int;
    assert(call_id(n).skip(p) =~= hex_digits(n as nat, 16));
    assert(call_id(m).skip(p) =~= hex_digits(m as nat, 16));
    assert(pow(16, 16) == 0x1_0000_0000_0000_0000) by {
        reveal_with_fuel(pow, 17);
    }
    lemma_hex_injective(n as nat, m as nat, 16);
}

/// Identifiers that are handed out one after the other differ, until the numbers come round.
pub proof fn law_ids_distinct(first: u64, j: nat, k: nat)
    requires
        j < k,
        k - j < 0x1_0000_0000_0000_0000,
    ensures
        call_id(nth_id(first, j)) != call_id(nth_id(first, k)),
{
    if call_id(nth_id(first, j)) == call_id(nth_id(first, k)) {
        law_call_id_injective(nth_id(first, j), nth_id(first, k));
    }
}

// ---------------------------------------------------------------------------------------
// Lists of calls
// ---------------------------------------------------------------------------------------
/// A list of function calls: there is at least one, and each has the identifier and the index
/// that its place gives it.
pub open spec fn well_numbered(calls: Seq<ToolCallView>, first: u64) -> bool {
    calls.len() > 0 && forall|k: int|
        0 <= k < calls.len() ==> (#[trigger] calls[k]).id == call_id(nth_id(first, k as nat))
            && calls[k].index == k as u32 && calls[k].ty == "function"@ && calls[k].function is Some
            && calls[k].custom is None
}

proof fn lemma_content_calls(inner: Seq<char>, first: u64)
    ensures
        content_calls(inner, first) matches Some(calls) ==> well_numbered(calls, first),
{
}

/// The calls in a text are function calls, at least one, with consecutive identifiers and with
/// indices counted from zero.
pub proof fn law_calls_numbered(
    xml: Seq<char>,
    starts: Seq<Seq<char>>,
    ends: Seq<Seq<char>>,
    first: u64,
)
    ensures
        parsed(xml, starts, ends, first) matches Some((calls, _)) ==> well_numbered(calls, first),
{
    if let Located::At { start, after, inner_end, end } = locate(xml, starts, ends) {
        lemma_content_calls(inner_of(xml, after, inner_end), first);
    }
}

proof fn lemma_named_items_bound(items: Seq<Json>)
    ensures
        named_items(items) <= items.len(),
    decreases items.len(),
{
    if items.len() > 0 {
        lemma_named_items_bound(items.skip(1));
    }
}

/// Parsing that gives calls hands out their identifiers and no others.
pub proof fn law_ids_used_by_calls(
    xml: Seq<char>,
    starts: Seq<Seq<char>>,
    ends: Seq<Seq<char>>,
    first: u64,
)
    ensures
        parsed(xml, starts, ends, first) matches Some((calls, _)) ==> parse_ids(xml, starts, ends)
            == calls.len(),
{
    if let Located::At { start, after, inner_end, end } = locate(xml, starts, ends) {
        if let Contents::Items(items) = contents(inner_of(xml, after, inner_end)) {
            lemma_named_items_bound(items);
        }
    }
}

/// No two calls in a text have the same identifier.
pub proof fn law_calls_distinct(
    xml: Seq<char>,
    starts: Seq<Seq<char>>,
    ends: Seq<Seq<char>>,
    first: u64,
    j: int,
    k: int,
)
    requires
        parsed(xml, starts, ends, first) matches Some((calls, _)) && 0 <= j < k < calls.len()
            && calls.len() <= 0x1_0000_0000_0000_0000,
    ensures
        parsed(xml, starts, ends, first) matches Some((calls, _)) && calls[j].id != calls[k].id,
{
    law_calls_numbered(xml, starts, ends, first);
    law_ids_distinct(first, j as nat, k as nat);
}

} // verus!
