//! Tool calls and their identifiers.
use crate::json::json_as_text;
use crate::json::json_member;
use crate::json::json_of;
use crate::json::json_parse;
use crate::json::json_seq;
use crate::json::json_text;
use crate::json::member;
use crate::json::parse_value;
use crate::json::print_value;
use crate::json::Json;
use crate::text::chars_of;
use crate::text::text_of;
use crate::types::call_views;
use crate::types::FunctionCall;
use crate::types::FunctionCallView;
use crate::types::ToolCall;
use crate::types::ToolCallView;
use vstd::prelude::*;

verus! {

// ---------------------------------------------------------------------------------------
// Identifiers
// ---------------------------------------------------------------------------------------
/// The lower-case hexadecimal digit for `d`.
pub open spec fn hex_digit(d: int) -> char {
    if d < 10 {
        ('0' as int + d) as char
    } else {
        ('a' as int + (d - 10)) as char
    }
}

/// The last `k` hexadecimal digits of `n`, padded with zeros.
pub open spec fn hex_digits(n: nat, k: nat) -> Seq<char>
    decreases k,
{
    if k == 0 {
        seq![]
    } else {
        hex_digits(n / 16, (k - 1) as nat).push(hex_digit((n % 16) as int))
    }
}

/// The identifier with number `n`: sixteen hexadecimal digits behind a fixed prefix.
pub open spec fn call_id(n: u64) -> Seq<char> {
    "call_"@ + hex_digits(n as nat, 16)
}

/// The number that comes `k` after `first`; after the greatest comes zero.
pub open spec fn nth_id(first: u64, k: nat) -> u64 {
    ((first + k) % 0x1_0000_0000_0000_0000) as u64
}

/// Hands out the identifiers of tool calls, one number after the other.
#[derive(Debug, Clone)]
pub struct CallIds {
    /// The number of the next identifier.
    pub next: u64,
}

fn digit(d: u64) -> (c: char)
    requires
        d < 16,
    ensures
        c == hex_digit(d as int),
{
    let digits: [char; 16] = [
        '0',
        '1',
        '2',
        '3',
        '4',
        '5',
        '6',
        '7',
        '8',
        '9',
        'a',
        'b',
        'c',
        'd',
        'e',
        'f',
    ];
    digits[d as usize]
}

/// Writes the last `k` hexadecimal digits of `n`.
fn push_hex(n: u64, k: usize, out: &mut Vec<char>)
    ensures
        final(out)@ == old(out)@ + hex_digits(n as nat, k as nat),
    decreases k,
{
    if k == 0 {
        assert(out@ =~= out@ + hex_digits(n as nat, 0));
    } else {
        let ghost before = out@;
        push_hex(n / 16, k - 1, out);
        out.push(digit(n % 16));
        assert(out@ =~= before + hex_digits(n as nat, k as nat));
    }
}

impl CallIds {
    /// The first number is one.
    pub fn new() -> (r: Self)
        ensures
            r.next == 1,
    {
        CallIds { next: 1 }
    }

    /// Hands out the next identifier.
    pub fn next_call_id(&mut self) -> (r: String)
        ensures
            r@ == call_id(old(self).next),
            final(self).next == nth_id(old(self).next, 1),
    {
        let n = self.next;
        self.next = n.wrapping_add(1);
        let mut chars = chars_of("call_");
        push_hex(n, 16, &mut chars);
        text_of(chars.as_slice())
    }
}

/// Counting on from a number reached by counting.
pub proof fn lemma_nth_id_step(first: u64, k: nat)
    ensures
        nth_id(nth_id(first, k), 1) == nth_id(first, k + 1),
        nth_id(first, 0) == first,
{
}

// ---------------------------------------------------------------------------------------
// Calls
// ---------------------------------------------------------------------------------------
/// The call of a function, with the identifier and the index that number `k` of a list of
/// calls gets.
pub open spec fn function_call(
    first: u64,
    k: nat,
    name: Seq<char>,
    arguments: Seq<char>,
) -> ToolCallView {
    ToolCallView {
        id: call_id(nth_id(first, k)),
        ty: "function"@,
        function: Some(FunctionCallView { name, arguments }),
        custom: None,
        index: k as u32,
    }
}

/// Makes the call of a function; its index is the number of the calls before it.
pub fn make_call(name: String, arguments: String, before: usize, ids: &mut CallIds) -> (r: ToolCall)
    ensures
        r@ == (ToolCallView {
            id: call_id(old(ids).next),
            ty: "function"@,
            function: Some(FunctionCallView { name: name@, arguments: arguments@ }),
            custom: None,
            index: before as u32,
        }),
        final(ids).next == nth_id(old(ids).next, 1),
{
    let id = ids.next_call_id();
    ToolCall {
        id,
        ty: "function".to_owned(),
        function: Some(FunctionCall { name, arguments }),
        custom: None,
        index: before as u32,
    }
}

/// What stands for arguments that are missing or cannot be printed.
pub open spec fn no_arguments() -> Seq<char> {
    "{}"@
}

/// The name in a tool call that is written as a JSON object.
pub open spec fn item_name(item: Json) -> Option<Seq<char>> {
    match json_member(item, "name"@) {
        Some(v) => json_as_text(v),
        None => None,
    }
}

/// A value as text.
pub open spec fn printed(v: Json) -> Seq<char> {
    match json_text(v) {
        Some(t) => t,
        None => no_arguments(),
    }
}

/// Arguments that are given as a string: where the string is JSON, that value printed anew;
/// otherwise the string as it is.
pub open spec fn text_arguments(s: Seq<char>) -> Seq<char> {
    match json_parse(s) {
        Some(v) => match json_text(v) {
            Some(t) => t,
            None => s,
        },
        None => s,
    }
}

/// The arguments in a tool call that is written as a JSON object.
pub open spec fn item_arguments(item: Json) -> Seq<char> {
    match json_member(item, "arguments"@) {
        Some(Json::Text(s)) => text_arguments(s),
        Some(v) => printed(v),
        None => no_arguments(),
    }
}

/// The arguments in a tool call block: printed as they are, a string included.
pub open spec fn block_arguments(item: Json) -> Seq<char> {
    match json_member(item, "arguments"@) {
        Some(v) => printed(v),
        None => no_arguments(),
    }
}

/// How many of the items have a name before the first that has none.
pub open spec fn named_items(items: Seq<Json>) -> nat
    decreases items.len(),
{
    if items.len() == 0 || item_name(items[0]) is None {
        0
    } else {
        1 + named_items(items.skip(1))
    }
}

/// The calls that items stand for: none unless all have a name and there is at least one.
pub open spec fn item_calls(items: Seq<Json>, first: u64) -> Option<Seq<ToolCallView>> {
    if items.len() == 0 || named_items(items) < items.len() {
        None
    } else {
        Some(
            Seq::new(
                items.len(),
                |k: int|
                    function_call(
                        first,
                        k as nat,
                        item_name(items[k])->0,
                        item_arguments(items[k]),
                    ),
            ),
        )
    }
}

/// The content of a member that is a string.
pub fn text_member(v: &serde_json::Value, key: &str) -> (r: Option<String>)
    ensures
        match r {
            Some(t) => json_member(json_of(*v), key@) == Some(Json::Text(t@)),
            None => !(json_member(json_of(*v), key@) matches Some(Json::Text(_))),
        },
{
    match member(v, key) {
        Some(m) => match m.as_str() {
            Some(t) => Some(t.to_owned()),
            None => None,
        },
        None => None,
    }
}

/// A value as text.
fn print_or_empty(v: &serde_json::Value) -> (r: String)
    ensures
        r@ == printed(json_of(*v)),
{
    match print_value(v) {
        Some(t) => t,
        None => "{}".to_owned(),
    }
}

/// The arguments in a tool call that is written as a JSON object.
pub fn arguments_of_item(v: &serde_json::Value) -> (r: String)
    ensures
        r@ == item_arguments(json_of(*v)),
{
    match member(v, "arguments") {
        Some(m) => match m.as_str() {
            Some(s) => match parse_value(s) {
                Some(inner) => match print_value(&inner) {
                    Some(t) => t,
                    None => s.to_owned(),
                },
                None => s.to_owned(),
            },
            None => print_or_empty(m),
        },
        None => "{}".to_owned(),
    }
}

/// The arguments in a tool call block.
pub fn arguments_of_block(v: &serde_json::Value) -> (r: String)
    ensures
        r@ == block_arguments(json_of(*v)),
{
    match member(v, "arguments") {
        Some(m) => print_or_empty(m),
        None => "{}".to_owned(),
    }
}

proof fn lemma_named_items(items: Seq<Json>, k: int)
    requires
        0 <= k <= items.len(),
        forall|j: int| 0 <= j < k ==> item_name(#[trigger] items[j]) is Some,
    ensures
        named_items(items) == k + named_items(items.skip(k)),
    decreases k,
{
    if k == 0 {
        assert(items.skip(0) =~= items);
    } else {
        assert(item_name(items[0]) is Some);
        assert forall|j: int| 0 <= j < k - 1 implies item_name(
            #[trigger] items.skip(1)[j],
        ) is Some by {
            assert(items.skip(1)[j] == items[j + 1]);
        }
        lemma_named_items(items.skip(1), k - 1);
        assert(items.skip(1).skip(k - 1) =~= items.skip(k));
    }
}

/// The calls that JSON values stand for.
pub fn calls_of_items(items: &Vec<serde_json::Value>, ids: &mut CallIds) -> (r: Option<
    Vec<ToolCall>,
>)
    ensures
        match r {
            Some(calls) => item_calls(json_seq(items@), old(ids).next) == Some(
                call_views(calls@),
            ),
            None => item_calls(json_seq(items@), old(ids).next) is None,
        },
        final(ids).next == nth_id(old(ids).next, named_items(json_seq(items@))),
{
    let ghost views = json_seq(items@);
    let ghost first = ids.next;
    let mut calls: Vec<ToolCall> = Vec::new();
    let mut k: usize = 0;
    proof {
        lemma_nth_id_step(first, 0);
    }
    while k < items.len()
        invariant
            k <= items@.len(),
            views == json_seq(items@),
            first == old(ids).next,
            ids.next == nth_id(first, k as nat),
            calls@.len() == k,
            forall|j: int| 0 <= j < k ==> item_name(#[trigger] views[j]) is Some,
            forall|j: int|
                0 <= j < k ==> (#[trigger] calls@[j])@ == function_call(
                    first,
                    j as nat,
                    item_name(views[j])->0,
                    item_arguments(views[j]),
                ),
        decreases items@.len() - k,
    {
        assert(views[k as int] == json_of(items@[k as int]));
        match text_member(&items[k], "name") {
            Some(name) => {
                let arguments = arguments_of_item(&items[k]);
                let call = make_call(name, arguments, k, ids);
                proof {
                    lemma_nth_id_step(first, k as nat);
                }
                calls.push(call);
            },
            None => {
                proof {
                    lemma_named_items(views, k as int);
                    assert(views.skip(k as int)[0] == views[k as int]);
                    assert(item_name(views[k as int]) is None);
                    assert(named_items(views.skip(k as int)) == 0);
                }
                return None;
            },
        }
        k = k + 1;
    }
    proof {
        lemma_named_items(views, k as int);
        assert(views.skip(k as int) =~= Seq::<Json>::empty());
    }
    if calls.len() == 0 {
        return None;
    }
    assert(call_views(calls@) =~= item_calls(views, first)->0);
    Some(calls)
}

} // verus!
