//! What holds of tool calls written as a list of blocks.
use crate::blocks::blocks;
use crate::blocks::Blocks;
use crate::parser_laws::lemma_first_bracket;
use crate::search::lemma_find_is;
use crate::tags::NEW_TOOL_CALL_BLOCK;
use crate::tags::NEW_TOOL_CALL_BLOCK_END;
use vstd::prelude::*;

verus! {

/// A body between the tags of a block.
pub open spec fn one_block(body: Seq<char>) -> Seq<char> {
    NEW_TOOL_CALL_BLOCK@ + body + NEW_TOOL_CALL_BLOCK_END@
}

/// Blocks, one behind the other.
pub open spec fn list_of_blocks(bodies: Seq<Seq<char>>) -> Seq<char>
    decreases bodies.len(),
{
    if bodies.len() == 0 {
        seq![]
    } else {
        one_block(bodies[0]) + list_of_blocks(bodies.skip(1))
    }
}

/// A block at the beginning of a text is read first, and what stands behind it next.
pub proof fn law_first_block(body: Seq<char>, behind: Seq<char>)
    requires
        !body.contains('<'),
    ensures
        blocks(one_block(body) + behind) == (Blocks {
            bodies: seq![body] + blocks(behind).bodies,
            complete: blocks(behind).complete,
        }),
{
    reveal_strlit("<|tool_call|>");
    reveal_strlit("<|tool_call_end|>");
    let start = NEW_TOOL_CALL_BLOCK@;
    let end = NEW_TOOL_CALL_BLOCK_END@;
    let s = one_block(body) + behind;
    let rest = body + end + behind;
    let n = body.len() as int;
    assert(s.subrange(0, start.len() as int) =~= start);
    lemma_find_is(s, start, 0);
    assert(s.skip(start.len() as int) =~= rest);
    assert(rest.subrange(n, n + end.len()) =~= end);
    assert forall|i: int| 0 <= i < n implies rest[i] != '<' by {
        assert(rest[i] == body[i]);
    }
    lemma_first_bracket(rest, end, n);
    assert(rest.take(n) =~= body);
    assert(rest.skip(n + end.len()) =~= behind);
}

/// A list of blocks is read back, whole: each body in its place.
pub proof fn law_blocks_read_back(bodies: Seq<Seq<char>>)
    requires
        forall|k: int| 0 <= k < bodies.len() ==> !(#[trigger] bodies[k]).contains('<'),
    ensures
        blocks(list_of_blocks(bodies)) == (Blocks { bodies, complete: true }),
    decreases bodies.len(),
{
    if bodies.len() > 0 {
        law_first_block(bodies[0], list_of_blocks(bodies.skip(1)));
        law_blocks_read_back(bodies.skip(1));
        assert(seq![bodies[0]] + bodies.skip(1) =~= bodies);
    } else {
        assert(bodies =~= Seq::<Seq<char>>::empty());
    }
}

} // verus!
