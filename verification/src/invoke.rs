//! Tool calls written as `<invoke name="..."><parameter name="...">...</parameter></invoke>`.
//!
//! Tags are looked for in a lower-case copy of the text, and the byte offsets found there are
//! used in the text itself. Where lower-casing changes the length of a character the two can
//! part: an offset that then lies inside a character, or beyond the end, is a fault.
use crate::calls::function_call;
use crate::calls::lemma_nth_id_step;
use crate::calls::make_call;
use crate::calls::nth_id;
use crate::calls::printed;
use crate::calls::CallIds;
use crate::json::empty_object;
use crate::json::json_of;
use crate::json::json_parse;
use crate::json::parse_value;
use crate::json::print_value;
use crate::json::set_member;
use crate::json::text_value;
use crate::json::Json;
use crate::search::find;
use crate::search::find_char;
use crate::search::find_in;
use crate::search::first_char;
use crate::search::lemma_find;
use crate::search::lemma_find_char;
use crate::search::trim;
use crate::search::trimmed;
use crate::text::byte_len;
use crate::text::byte_offset;
use crate::text::byte_pos;
use crate::text::char_pos;
use crate::text::chars_of;
use crate::text::lemma_byte_pos_between;
use crate::text::lemma_char_pos_bounds;
use crate::text::part;
use crate::text::position_of_byte;
use crate::text::text_of;
use crate::types::call_views;
use crate::types::ToolCall;
use crate::types::ToolCallView;
use vstd::prelude::*;
use vstd::utf8::is_ascii_chars;

verus! {

// ---------------------------------------------------------------------------------------
// Lower case
// ---------------------------------------------------------------------------------------
/// What `str::to_lowercase` gives.
pub uninterp spec fn lowercase(s: Seq<char>) -> Seq<char>;

/// The lower-case letter for an ASCII capital; any other character is itself.
pub open spec fn ascii_lower(c: char) -> char {
    if 'A' <= c <= 'Z' {
        (c as u8 + 32) as char
    } else {
        c
    }
}

/// `str::to_lowercase`: the lower-case equivalent of the text by Unicode's mapping, which can
/// change the number of characters. It is named; of ASCII text it is said in full.
pub assume_specification[ str::to_lowercase ](s: &str) -> (r: String)
    ensures
        r@ == lowercase(s@),
        is_ascii_chars(s@) ==> r@ == s@.map_values(|c: char| ascii_lower(c)),
;

// ---------------------------------------------------------------------------------------
// Parameters
// ---------------------------------------------------------------------------------------
/// How a scan ended: at the end of the text, at a tag that is not complete, or at an offset at
/// which the text cannot be cut.
pub enum ScanEnd {
    Done,
    Reject,
    Fault,
}

/// The value of the attribute `name` in `s`: from behind `name="` to the next quote or closing
/// angle bracket.
pub open spec fn attr_name(s: Seq<char>) -> Option<Seq<char>> {
    match find(s, "name=\""@) {
        Some(i) => {
            let tail = s.skip(i + 6);
            match (find_char(tail, '"'), find_char(tail, '>')) {
                (Some(a), Some(b)) => Some(
                    tail.take(
                        if a <= b {
                            a
                        } else {
                            b
                        },
                    ),
                ),
                (Some(a), None) => Some(tail.take(a)),
                (None, Some(b)) => Some(tail.take(b)),
                (None, None) => None,
            }
        },
        None => None,
    }
}

/// A parameter that `s` begins with: its name, its value as it is written, and the number of
/// characters it takes up.
pub open spec fn param(s: Seq<char>) -> Option<(Seq<char>, Seq<char>, int)> {
    match (attr_name(s), find_char(s, '>')) {
        (Some(name), Some(g)) => match find(s.skip(g + 1), "</parameter>"@) {
            Some(c) => Some((name, s.subrange(g + 1, g + 1 + c), g + 1 + c + 12)),
            None => None,
        },
        _ => None,
    }
}

/// The parameters found, and how the scan for them ended.
pub struct ParamScan {
    pub found: Seq<(Seq<char>, Seq<char>)>,
    pub end: ScanEnd,
}

/// The parameters in `body` that the scan finds from byte offset `at` on; `lower` is `body` in
/// lower case.
pub open spec fn params(body: Seq<char>, lower: Seq<char>, at: int) -> ParamScan
    decreases
            (if at <= byte_len(lower) {
                byte_len(lower) - at + 1
            } else {
                0
            }),
{
    match char_pos(lower, at) {
        None => ParamScan { found: seq![], end: ScanEnd::Fault },
        Some(k) => match find(lower.skip(k), "<parameter "@) {
            None => ParamScan { found: seq![], end: ScanEnd::Done },
            Some(p) => {
                let from = byte_pos(lower, k + p) as int;
                match char_pos(body, from) {
                    None => ParamScan { found: seq![], end: ScanEnd::Fault },
                    Some(m) => match param(body.skip(m)) {
                        None => ParamScan { found: seq![], end: ScanEnd::Reject },
                        Some((name, value, n)) => {
                            let next = from + byte_pos(body.skip(m), n);
                            proof {
                                lemma_param(body.skip(m));
                                lemma_char_pos_bounds(lower, at);
                                lemma_find(lower.skip(k), "<parameter "@);
                                lemma_byte_pos_between(lower, k, k + p);
                                lemma_byte_pos_between(body.skip(m), 0, n);
                            }
                            let rest = params(body, lower, next);
                            ParamScan { found: seq![(name, value)] + rest.found, end: rest.end }
                        },
                    },
                }
            },
        },
    }
}

/// The value of a parameter: JSON where its trimmed text is, otherwise the text as it is.
pub open spec fn param_value(s: Seq<char>) -> Json {
    match json_parse(trim(s)) {
        Some(v) => v,
        None => Json::Text(s),
    }
}

/// The members that parameters make: a later one replaces an earlier one of the same name.
pub open spec fn param_members(found: Seq<(Seq<char>, Seq<char>)>) -> Map<Seq<char>, Json>
    decreases found.len(),
{
    if found.len() == 0 {
        Map::empty()
    } else {
        param_members(found.drop_last()).insert(found.last().0, param_value(found.last().1))
    }
}

// ---------------------------------------------------------------------------------------
// Invocations
// ---------------------------------------------------------------------------------------
/// One `<invoke>` as it is written.
pub struct Invocation {
    pub name: Seq<char>,
    pub params: Seq<(Seq<char>, Seq<char>)>,
}

/// What stands at the beginning of an `<invoke>`: the invocation and the number of characters
/// it takes up in the lower-case text, or why there is none.
pub enum InvokeAt {
    Fault,
    Reject,
    Read(Invocation, int),
}

/// Reads the `<invoke>` whose tag stands in `lower` at position `a`.
pub open spec fn invoke_at(inner: Seq<char>, lower: Seq<char>, a: int) -> InvokeAt {
    match char_pos(inner, byte_pos(lower, a) as int) {
        None => InvokeAt::Fault,
        Some(i) => match attr_name(inner.skip(i)) {
            None => InvokeAt::Reject,
            Some(name) => match find(lower.skip(a), "</invoke>"@) {
                None => InvokeAt::Reject,
                Some(q) => match char_pos(inner, byte_pos(lower, a + q + 9) as int) {
                    None => InvokeAt::Fault,
                    Some(j) => {
                        let body = inner.subrange(i, j);
                        let scan = params(body, lowercase(body), 0);
                        match scan.end {
                            ScanEnd::Done => InvokeAt::Read(
                                Invocation { name, params: scan.found },
                                q + 9,
                            ),
                            ScanEnd::Reject => InvokeAt::Reject,
                            ScanEnd::Fault => InvokeAt::Fault,
                        }
                    },
                },
            },
        },
    }
}

/// The invocations found, and how the scan for them ended.
pub struct InvokeScan {
    pub found: Seq<Invocation>,
    pub end: ScanEnd,
}

/// The invocations in `inner` that the scan finds from position `k` of the lower-case text on.
pub open spec fn invocations_from(inner: Seq<char>, lower: Seq<char>, k: int) -> InvokeScan
    decreases lower.len() - k,
{
    if !(0 <= k <= lower.len()) {
        InvokeScan { found: seq![], end: ScanEnd::Fault }
    } else {
        match find(lower.skip(k), "<invoke "@) {
            None => InvokeScan { found: seq![], end: ScanEnd::Done },
            Some(p) => match invoke_at(inner, lower, k + p) {
                InvokeAt::Fault => InvokeScan { found: seq![], end: ScanEnd::Fault },
                InvokeAt::Reject => InvokeScan { found: seq![], end: ScanEnd::Reject },
                InvokeAt::Read(inv, n) => {
                    proof {
                        reveal_strlit("</invoke>");
                        lemma_find(lower.skip(k), "<invoke "@);
                        lemma_find(lower.skip(k + p), "</invoke>"@);
                    }
                    let rest = invocations_from(inner, lower, k + p + n);
                    InvokeScan { found: seq![inv] + rest.found, end: rest.end }
                },
            },
        }
    }
}

/// The invocations in a text.
pub open spec fn invocations(inner: Seq<char>) -> InvokeScan {
    invocations_from(inner, lowercase(inner), 0)
}

/// The calls that invocations stand for.
pub open spec fn invoke_calls(found: Seq<Invocation>, first: u64) -> Seq<ToolCallView> {
    Seq::new(
        found.len(),
        |k: int|
            function_call(
                first,
                k as nat,
                found[k].name,
                printed(Json::Object(param_members(found[k].params))),
            ),
    )
}

// ---------------------------------------------------------------------------------------
// Scanning
// ---------------------------------------------------------------------------------------
/// One parameter as it is written.
#[derive(Debug)]
pub struct RawParam {
    pub name: String,
    pub value: String,
}

/// One `<invoke>` as it is written.
#[derive(Debug)]
pub struct RawInvoke {
    pub name: String,
    pub params: Vec<RawParam>,
}

pub open spec fn param_views(v: Seq<RawParam>) -> Seq<(Seq<char>, Seq<char>)> {
    v.map_values(|p: RawParam| (p.name@, p.value@))
}

pub open spec fn invoke_view(v: RawInvoke) -> Invocation {
    Invocation { name: v.name@, params: param_views(v.params@) }
}

pub open spec fn invoke_views(v: Seq<RawInvoke>) -> Seq<Invocation> {
    v.map_values(|i: RawInvoke| invoke_view(i))
}

proof fn lemma_attr_name(s: Seq<char>)
    ensures
        find(s, "name=\""@) matches Some(i) ==> 0 <= i && i + 6 <= s.len(),
{
    reveal_strlit("name=\"");
    lemma_find(s, "name=\""@);
}

/// The value of the attribute `name`.
fn read_attr_name(s: &[char]) -> (r: Option<String>)
    ensures
        match r {
            Some(t) => attr_name(s@) == Some(t@),
            None => attr_name(s@) is None,
        },
{
    let len: usize = s.len();
    proof {
        lemma_attr_name(s@);
    }
    match find_in(s, chars_of("name=\"").as_slice()) {
        Some(i) => {
            let tail = part(s, i + 6, len);
            assert(tail@ =~= s@.skip(i + 6));
            let end: usize = match (first_char(tail, '"'), first_char(tail, '>')) {
                (Some(a), Some(b)) => if a <= b {
                    a
                } else {
                    b
                },
                (Some(a), None) => a,
                (None, Some(b)) => b,
                (None, None) => return None,
            };
            assert(tail@.subrange(0, end as int) =~= tail@.take(end as int));
            Some(text_of(part(tail, 0, end)))
        },
        None => None,
    }
}

/// A parameter lies within the text.
pub proof fn lemma_param(s: Seq<char>)
    ensures
        find_char(s, '>') matches Some(g) ==> 0 <= g && g + 1 <= s.len() && (find(
            s.skip(g + 1),
            "</parameter>"@,
        ) matches Some(c) ==> 0 <= c && g + 1 + c + 12 <= s.len()),
        param(s) matches Some((_, _, n)) ==> 13 <= n <= s.len(),
{
    reveal_strlit("</parameter>");
    lemma_find_char(s, '>');
    if let Some(g) = find_char(s, '>') {
        lemma_find(s.skip(g + 1), "</parameter>"@);
    }
}

/// Reads a parameter.
fn read_param(s: &[char]) -> (r: Option<(RawParam, usize)>)
    ensures
        match r {
            Some((p, n)) => param(s@) == Some((p.name@, p.value@, n as int)) && 13 <= n
                <= s@.len(),
            None => param(s@) is None,
        },
{
    let len: usize = s.len();
    proof {
        lemma_param(s@);
    }
    let name = match read_attr_name(s) {
        Some(name) => name,
        None => return None,
    };
    let g: usize = match first_char(s, '>') {
        Some(g) => g,
        None => return None,
    };
    let tail = part(s, g + 1, len);
    assert(tail@ =~= s@.skip(g + 1));
    match find_in(tail, chars_of("</parameter>").as_slice()) {
        Some(c) => {
            let value = text_of(part(s, g + 1, g + 1 + c));
            Some((RawParam { name, value }, g + 1 + c + 12))
        },
        None => None,
    }
}

/// The outcome of the scan for parameters.
enum ReadParams {
    Fault,
    Reject,
    Done(Vec<RawParam>),
}

/// Scans the body of an `<invoke>` for parameters.
fn read_params(body: &[char]) -> (r: ReadParams)
    ensures
        ({
            let scan = params(body@, lowercase(body@), 0);
            match r {
                ReadParams::Fault => scan.end is Fault,
                ReadParams::Reject => scan.end is Reject,
                ReadParams::Done(found) => scan.end is Done && scan.found == param_views(found@),
            }
        }),
{
    let body_text = text_of(body);
    let lower_text = body_text.as_str().to_lowercase();
    let lower = chars_of(lower_text.as_str());
    let lower_len: usize = lower.len();
    let body_len: usize = body.len();
    let ghost whole = params(body@, lower@, 0);
    let mut found: Vec<RawParam> = Vec::new();
    let mut at: usize = 0;
    assert(param_views(found@) + whole.found =~= whole.found);
    loop
        invariant
            lower@ == lowercase(body@),
            whole == params(body@, lower@, 0),
            lower_len == lower@.len(),
            body_len == body@.len(),
            whole.end == params(body@, lower@, at as int).end,
            whole.found == param_views(found@) + params(body@, lower@, at as int).found,
        decreases
                (if at <= byte_len(lower@) {
                    byte_len(lower@) - at + 1
                } else {
                    0
                }),
    {
        let k: usize = match position_of_byte(lower.as_slice(), at) {
            Some(k) => k,
            None => return ReadParams::Fault,
        };
        proof {
            lemma_char_pos_bounds(lower@, at as int);
        }
        let tail = part(lower.as_slice(), k, lower_len);
        assert(tail@ =~= lower@.skip(k as int));
        proof {
            reveal_strlit("<parameter ");
            lemma_find(tail@, "<parameter "@);
        }
        let p: usize = match find_in(tail, chars_of("<parameter ").as_slice()) {
            Some(p) => p,
            None => {
                assert(param_views(found@) + Seq::<(Seq<char>, Seq<char>)>::empty()
                    =~= param_views(found@));
                return ReadParams::Done(found);
            },
        };
        let from: usize = byte_offset(lower.as_slice(), k + p);
        let m: usize = match position_of_byte(body, from) {
            Some(m) => m,
            None => return ReadParams::Fault,
        };
        let attr = part(body, m, body_len);
        assert(attr@ =~= body@.skip(m as int));
        proof {
            lemma_char_pos_bounds(body@, from as int);
            lemma_byte_pos_between(body@, m as int, body_len as int);
            lemma_byte_pos_between(lower@, k as int, k + p);
            lemma_param(attr@);
        }
        match read_param(attr) {
            Some((param, n)) => {
                proof {
                    lemma_byte_pos_between(attr@, 0, n as int);
                    lemma_byte_pos_between(body@, m as int, m + n);
                    assert(body@.subrange(m as int, m + n) =~= attr@.take(n as int));
                }
                let next: usize = byte_offset(body, m + n);
                let ghost rest = params(body@, lower@, next as int);
                let ghost before = param_views(found@);
                let ghost head = (param.name@, param.value@);
                found.push(param);
                assert(param_views(found@) =~= before + seq![head]);
                assert(before + (seq![head] + rest.found) =~= param_views(found@) + rest.found);
                at = next;
            },
            None => return ReadParams::Reject,
        }
    }
}

/// What stands at the beginning of an `<invoke>`.
enum ReadInvoke {
    Fault,
    Reject,
    Read(RawInvoke, usize),
}

/// Reads the `<invoke>` whose tag stands in the lower-case text at position `a`.
fn read_invoke(inner: &[char], lower: &[char], a: usize) -> (r: ReadInvoke)
    requires
        a <= lower@.len(),
    ensures
        match r {
            ReadInvoke::Fault => invoke_at(inner@, lower@, a as int) is Fault,
            ReadInvoke::Reject => invoke_at(inner@, lower@, a as int) is Reject,
            ReadInvoke::Read(inv, n) => invoke_at(inner@, lower@, a as int) == InvokeAt::Read(
                invoke_view(inv),
                n as int,
            ) && 9 <= n && a + n <= lower@.len(),
        },
{
    let lower_len: usize = lower.len();
    let inner_len: usize = inner.len();
    let i: usize = match position_of_byte(inner, byte_offset(lower, a)) {
        Some(i) => i,
        None => return ReadInvoke::Fault,
    };
    proof {
        lemma_char_pos_bounds(inner@, byte_pos(lower@, a as int) as int);
        assert(inner@.subrange(i as int, inner_len as int) =~= inner@.skip(i as int));
        assert(lower@.subrange(a as int, lower_len as int) =~= lower@.skip(a as int));
        reveal_strlit("</invoke>");
        lemma_find(lower@.skip(a as int), "</invoke>"@);
    }
    let name = match read_attr_name(part(inner, i, inner_len)) {
        Some(name) => name,
        None => return ReadInvoke::Reject,
    };
    let q: usize = match find_in(part(lower, a, lower_len), chars_of("</invoke>").as_slice()) {
        Some(q) => q,
        None => return ReadInvoke::Reject,
    };
    let j: usize = match position_of_byte(inner, byte_offset(lower, a + q + 9)) {
        Some(j) => j,
        None => return ReadInvoke::Fault,
    };
    proof {
        lemma_char_pos_bounds(inner@, byte_pos(lower@, a + q + 9) as int);
        lemma_byte_pos_between(lower@, a as int, a + q + 9);
        if j < i {
            lemma_byte_pos_between(inner@, j as int, i as int);
        }
    }
    match read_params(part(inner, i, j)) {
        ReadParams::Fault => ReadInvoke::Fault,
        ReadParams::Reject => ReadInvoke::Reject,
        ReadParams::Done(params) => ReadInvoke::Read(RawInvoke { name, params }, q + 9),
    }
}

/// Scans a text for invocations.
pub fn read_invokes(inner: &[char]) -> (r: (Vec<RawInvoke>, ScanEnd))
    ensures
        invocations(inner@) == (InvokeScan { found: invoke_views(r.0@), end: r.1 }),
{
    let text = text_of(inner);
    let lower_text = text.as_str().to_lowercase();
    let lower = chars_of(lower_text.as_str());
    let lower_len: usize = lower.len();
    let ghost whole = invocations(inner@);
    let mut found: Vec<RawInvoke> = Vec::new();
    let mut k: usize = 0;
    assert(invoke_views(found@) + whole.found =~= whole.found);
    loop
        invariant
            lower@ == lowercase(inner@),
            whole == invocations(inner@),
            lower_len == lower@.len(),
            k <= lower_len,
            whole.end == invocations_from(inner@, lower@, k as int).end,
            whole.found == invoke_views(found@) + invocations_from(inner@, lower@, k as int).found,
        decreases lower_len - k,
    {
        let ghost rest = invocations_from(inner@, lower@, k as int);
        proof {
            assert(lower@.subrange(k as int, lower_len as int) =~= lower@.skip(k as int));
            lemma_find(lower@.skip(k as int), "<invoke "@);
            assert(rest.found.len() == 0 ==> whole.found =~= invoke_views(found@));
        }
        let p: usize = match find_in(
            part(lower.as_slice(), k, lower_len),
            chars_of("<invoke ").as_slice(),
        ) {
            Some(p) => p,
            None => return (found, ScanEnd::Done),
        };
        match read_invoke(inner, lower.as_slice(), k + p) {
            ReadInvoke::Fault => return (found, ScanEnd::Fault),
            ReadInvoke::Reject => return (found, ScanEnd::Reject),
            ReadInvoke::Read(inv, n) => {
                let ghost before = invoke_views(found@);
                let ghost head = invoke_view(inv);
                let ghost tail = invocations_from(inner@, lower@, k + p + n);
                found.push(inv);
                assert(invoke_views(found@) =~= before + seq![head]);
                assert(before + (seq![head] + tail.found) =~= invoke_views(found@) + tail.found);
                k = k + p + n;
            },
        }
    }
}

// ---------------------------------------------------------------------------------------
// Calls
// ---------------------------------------------------------------------------------------
/// The arguments that parameters make, as JSON text.
pub fn arguments_of_params(params: &Vec<RawParam>) -> (r: String)
    ensures
        r@ == printed(Json::Object(param_members(param_views(params@)))),
{
    let mut object = empty_object();
    let mut k: usize = 0;
    assert(param_views(params@).take(0) =~= Seq::<(Seq<char>, Seq<char>)>::empty());
    while k < params.len()
        invariant
            k <= params@.len(),
            json_of(object) == Json::Object(param_members(param_views(params@).take(k as int))),
        decreases params@.len() - k,
    {
        let ghost views = param_views(params@);
        let value = chars_of(params[k].value.as_str());
        let text = text_of(trimmed(value.as_slice()));
        let member = match parse_value(text.as_str()) {
            Some(v) => v,
            None => text_value(params[k].value.clone()),
        };
        assert(views.take(k + 1).drop_last() =~= views.take(k as int));
        assert(views.take(k + 1).last() == views[k as int]);
        set_member(&mut object, params[k].name.clone(), member);
        k = k + 1;
    }
    assert(param_views(params@).take(k as int) =~= param_views(params@));
    match print_value(&object) {
        Some(t) => t,
        None => "{}".to_owned(),
    }
}

/// The calls that invocations stand for.
pub fn calls_of_invokes(found: &Vec<RawInvoke>, ids: &mut CallIds) -> (r: Vec<ToolCall>)
    ensures
        call_views(r@) == invoke_calls(invoke_views(found@), old(ids).next),
        final(ids).next == nth_id(old(ids).next, found@.len()),
{
    let ghost first = ids.next;
    let mut calls: Vec<ToolCall> = Vec::new();
    let mut k: usize = 0;
    proof {
        lemma_nth_id_step(first, 0);
    }
    while k < found.len()
        invariant
            k <= found@.len(),
            calls@.len() == k,
            first == old(ids).next,
            ids.next == nth_id(first, k as nat),
            forall|j: int|
                0 <= j < k ==> (#[trigger] calls@[j])@ == function_call(
                    first,
                    j as nat,
                    found@[j].name@,
                    printed(Json::Object(param_members(param_views(found@[j].params@)))),
                ),
        decreases found@.len() - k,
    {
        let arguments = arguments_of_params(&found[k].params);
        let call = make_call(found[k].name.clone(), arguments, k, ids);
        proof {
            lemma_nth_id_step(first, k as nat);
        }
        calls.push(call);
        k = k + 1;
    }
    assert(call_views(calls@) =~= invoke_calls(invoke_views(found@), first));
    calls
}

/// Parses the invocations in `inner`. Where there are any, and all are complete, gives their
/// calls and the text before and behind them.
pub fn parse_invoke_calls(inner: &str, prefix: &str, suffix: &str, ids: &mut CallIds) -> (r: Option<
    (Vec<ToolCall>, String),
>)
    requires
        invocations(inner@).end !is Fault,
    ensures
        ({
            let scan = invocations(inner@);
            match r {
                Some((calls, remaining)) => scan.end is Done && scan.found.len() > 0 && call_views(
                    calls@,
                ) == invoke_calls(scan.found, old(ids).next) && remaining@ == prefix@ + suffix@,
                None => scan.end is Reject || scan.found.len() == 0,
            }
        }),
        final(ids).next == nth_id(old(ids).next, invocations(inner@).found.len()),
{
    let chars = chars_of(inner);
    let (found, end) = read_invokes(chars.as_slice());
    let calls = calls_of_invokes(&found, ids);
    assert(call_views(calls@).len() == calls@.len());
    match end {
        ScanEnd::Done => {
            if calls.len() == 0 {
                None
            } else {
                let mut remaining = prefix.to_owned();
                remaining.append(suffix);
                Some((calls, remaining))
            }
        },
        _ => None,
    }
}

} // verus!
