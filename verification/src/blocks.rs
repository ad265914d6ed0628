//! Tool calls written as blocks, each with one JSON object:
//! `<|tool_call|>{...}<|tool_call_end|>` or `<|tool_calls_begin|>{...}<|tool_calls_end|>`.
use crate::calls::arguments_of_block;
use crate::calls::block_arguments;
use crate::calls::function_call;
use crate::calls::item_name;
use crate::calls::lemma_nth_id_step;
use crate::calls::make_call;
use crate::calls::nth_id;
use crate::calls::text_member;
use crate::calls::CallIds;
use crate::json::json_of;
use crate::json::json_parse;
use crate::json::parse_value;
use crate::json::Json;
use crate::repair::repair_json;
use crate::repair::repaired;
use crate::search::find;
use crate::search::find_in;
use crate::search::lemma_find;
use crate::tags::NEW_TOOL_CALL_BLOCK;
use crate::tags::NEW_TOOL_CALL_BLOCK_END;
use crate::tags::TOOL_CALL_END;
use crate::tags::TOOL_CALL_START;
use crate::text::chars_of;
use crate::text::part;
use crate::text::text_of;
use crate::types::call_views;
use crate::types::ToolCall;
use crate::types::ToolCallView;
use vstd::prelude::*;

verus! {

// ---------------------------------------------------------------------------------------
// One block
// ---------------------------------------------------------------------------------------
/// The JSON value in a text: the text itself or, failing that, its repair.
pub open spec fn json_or_repaired(s: Seq<char>) -> Option<Json> {
    match json_parse(s) {
        Some(v) => Some(v),
        None => match repaired(s) {
            Some(t) => json_parse(t),
            None => None,
        },
    }
}

/// The function name and the arguments in the body of a block.
pub open spec fn block_call(body: Seq<char>) -> Option<(Seq<char>, Seq<char>)> {
    match json_or_repaired(body) {
        Some(v) => match item_name(v) {
            Some(name) => Some((name, block_arguments(v))),
            None => None,
        },
        None => None,
    }
}

/// Reads the JSON value in a text, repairing the text where it is not JSON.
pub fn parse_or_repair(s: &str) -> (r: Option<serde_json::Value>)
    ensures
        match r {
            Some(v) => json_or_repaired(s@) == Some(json_of(v)),
            None => json_or_repaired(s@) is None,
        },
{
    match parse_value(s) {
        Some(v) => Some(v),
        None => match repair_json(s) {
            Some(t) => parse_value(t.as_str()),
            None => None,
        },
    }
}

/// Parses the body of a block; the call is the `before`th of its list.
fn parse_block(s: &str, before: usize, ids: &mut CallIds) -> (r: Option<ToolCall>)
    ensures
        match r {
            Some(call) => block_call(s@) matches Some((name, arguments)) && call@ == (ToolCallView {
                index: before as u32,
                ..function_call(old(ids).next, 0, name, arguments)
            }) && final(ids).next == nth_id(old(ids).next, 1),
            None => block_call(s@) is None && final(ids).next == old(ids).next,
        },
{
    match parse_or_repair(s) {
        Some(v) => match text_member(&v, "name") {
            Some(name) => {
                let arguments = arguments_of_block(&v);
                Some(make_call(name, arguments, before, ids))
            },
            None => None,
        },
        None => None,
    }
}

/// Parses the body of a block.
pub fn parse_single_tool_call_block(s: &str, ids: &mut CallIds) -> (r: Option<ToolCall>)
    ensures
        match r {
            Some(call) => block_call(s@) matches Some((name, arguments)) && call@ == function_call(
                old(ids).next,
                0,
                name,
                arguments,
            ) && final(ids).next == nth_id(old(ids).next, 1),
            None => block_call(s@) is None && final(ids).next == old(ids).next,
        },
{
    parse_block(s, 0, ids)
}

// ---------------------------------------------------------------------------------------
// A list of blocks
// ---------------------------------------------------------------------------------------
/// The next block in `s`: where its body begins and what closes it. Blocks of a single call
/// come first, wherever they stand.
pub open spec fn next_block(s: Seq<char>) -> Option<(int, Seq<char>)> {
    match find(s, NEW_TOOL_CALL_BLOCK@) {
        Some(p) => Some((p + NEW_TOOL_CALL_BLOCK@.len(), NEW_TOOL_CALL_BLOCK_END@)),
        None => match find(s, TOOL_CALL_START@) {
            Some(p) => Some((p + TOOL_CALL_START@.len(), TOOL_CALL_END@)),
            None => None,
        },
    }
}

/// The body that `rest` begins with, and what stands behind its end tag. A body that is not
/// closed goes to the end.
pub open spec fn body_of(rest: Seq<char>, end: Seq<char>) -> (Seq<char>, Seq<char>) {
    match find(rest, end) {
        Some(p) => (rest.take(p), rest.skip(p + end.len())),
        None => (rest, seq![]),
    }
}

/// The bodies of the blocks found, and whether the text was used up.
pub struct Blocks {
    pub bodies: Seq<Seq<char>>,
    pub complete: bool,
}

/// The blocks in a text. The scan stops, and is not complete, where text is left in which no
/// block begins.
pub open spec fn blocks(s: Seq<char>) -> Blocks
    decreases s.len(),
{
    if s.len() == 0 {
        Blocks { bodies: seq![], complete: true }
    } else {
        match next_block(s) {
            None => Blocks { bodies: seq![], complete: false },
            Some((from, end)) => {
                let (body, after) = body_of(s.skip(from), end);
                proof {
                    lemma_next_block(s);
                    lemma_find(s.skip(from), end);
                }
                let rest = blocks(after);
                Blocks { bodies: seq![body] + rest.bodies, complete: rest.complete }
            },
        }
    }
}

/// The names and arguments in those of the bodies that hold a call.
pub open spec fn block_calls(bodies: Seq<Seq<char>>) -> Seq<(Seq<char>, Seq<char>)>
    decreases bodies.len(),
{
    if bodies.len() == 0 {
        seq![]
    } else {
        let before = block_calls(bodies.drop_last());
        match block_call(bodies.last()) {
            Some(c) => before.push(c),
            None => before,
        }
    }
}

/// Names and arguments as calls with consecutive identifiers and indices.
pub open spec fn numbered_calls(list: Seq<(Seq<char>, Seq<char>)>, first: u64) -> Seq<ToolCallView> {
    Seq::new(list.len(), |k: int| function_call(first, k as nat, list[k].0, list[k].1))
}

/// The body of a block begins behind its start tag.
pub proof fn lemma_next_block(s: Seq<char>)
    ensures
        next_block(s) matches Some((from, end)) ==> 0 < from <= s.len(),
{
    reveal_strlit("<|tool_call|>");
    reveal_strlit("<|tool_calls_begin|>");
    lemma_find(s, NEW_TOOL_CALL_BLOCK@);
    lemma_find(s, TOOL_CALL_START@);
}

/// Looks for the next block.
fn seek_block(s: &[char]) -> (r: Option<(usize, &'static str)>)
    ensures
        match r {
            Some((from, end)) => next_block(s@) == Some((from as int, end@)) && 0 < from
                <= s@.len(),
            None => next_block(s@) is None,
        },
{
    let single = chars_of(NEW_TOOL_CALL_BLOCK);
    let list = chars_of(TOOL_CALL_START);
    proof {
        lemma_next_block(s@);
        lemma_find(s@, single@);
        lemma_find(s@, list@);
    }
    let len: usize = s.len();
    match find_in(s, single.as_slice()) {
        Some(p) => Some((p + single.len(), NEW_TOOL_CALL_BLOCK_END)),
        None => match find_in(s, list.as_slice()) {
            Some(p) => Some((p + list.len(), TOOL_CALL_END)),
            None => None,
        },
    }
}

/// Parses the blocks in a text. Bodies that hold no call are passed over; a text with no
/// call, or with text left in which no block begins, gives nothing.
pub fn parse_new_tool_calls(inner: &str, ids: &mut CallIds) -> (r: Option<Vec<ToolCall>>)
    ensures
        ({
            let list = block_calls(blocks(inner@).bodies);
            match r {
                Some(calls) => blocks(inner@).complete && list.len() > 0 && call_views(calls@)
                    == numbered_calls(list, old(ids).next),
                None => !blocks(inner@).complete || list.len() == 0,
            }
        }),
        final(ids).next == nth_id(old(ids).next, block_calls(blocks(inner@).bodies).len()),
{
    let chars = chars_of(inner);
    let len: usize = chars.len();
    let ghost whole = blocks(inner@);
    let ghost mut bodies: Seq<Seq<char>> = seq![];
    let ghost first = ids.next;
    let mut calls: Vec<ToolCall> = Vec::new();
    let mut at: usize = 0;
    proof {
        assert(chars@.skip(0) =~= chars@);
        assert(bodies + whole.bodies =~= whole.bodies);
        lemma_nth_id_step(first, 0);
        assert(call_views(calls@) =~= numbered_calls(block_calls(bodies), first));
    }
    while at < len
        invariant
            len == chars@.len(),
            at <= len,
            first == old(ids).next,
            ids.next == nth_id(first, calls@.len()),
            call_views(calls@) == numbered_calls(block_calls(bodies), first),
            calls@.len() == block_calls(bodies).len(),
            whole.bodies == bodies + blocks(chars@.skip(at as int)).bodies,
            whole.complete == blocks(chars@.skip(at as int)).complete,
            whole == blocks(inner@),
        decreases len - at,
    {
        let rest = part(chars.as_slice(), at, len);
        assert(rest@ =~= chars@.skip(at as int));
        let (from, end) = match seek_block(rest) {
            Some(found) => found,
            None => {
                assert(bodies + Seq::<Seq<char>>::empty() =~= bodies);
                return None;
            },
        };
        let end_chars = chars_of(end);
        let tail = part(chars.as_slice(), at + from, len);
        assert(tail@ =~= rest@.skip(from as int));
        proof {
            lemma_find(tail@, end@);
        }
        let (stop, tag): (usize, usize) = match find_in(tail, end_chars.as_slice()) {
            Some(p) => (p, end_chars.len()),
            None => (len - (at + from), 0),
        };
        let body = text_of(part(tail, 0, stop));
        let ghost after = chars@.skip(at + from + stop + tag);
        let ghost earlier = bodies;
        proof {
            assert(body@ =~= body_of(tail@, end@).0);
            assert(after =~= body_of(tail@, end@).1);
            assert(bodies + (seq![body@] + blocks(after).bodies) =~= bodies.push(body@) + blocks(
                after,
            ).bodies);
            bodies = bodies.push(body@);
            assert(bodies.drop_last() =~= earlier);
        }
        let ghost views = call_views(calls@);
        let n: usize = calls.len();
        if let Some(call) = parse_block(body.as_str(), n, ids) {
            proof {
                lemma_nth_id_step(first, n as nat);
                lemma_nth_id_step(nth_id(first, n as nat), 0);
            }
            calls.push(call);
            assert(call_views(calls@) =~= views.push(call@));
        }
        assert(call_views(calls@) =~= numbered_calls(block_calls(bodies), first));
        at = at + from + stop + tag;
    }
    proof {
        assert(chars@.skip(at as int) =~= Seq::<char>::empty());
        assert(bodies + Seq::<Seq<char>>::empty() =~= bodies);
    }
    if calls.len() == 0 {
        None
    } else {
        Some(calls)
    }
}

} // verus!
