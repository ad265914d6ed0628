//! What holds of a pair of tags with nothing between them.
use crate::invoke::invocations;
use crate::invoke::lowercase;
use crate::parser_laws::bare_start;
use crate::parser_laws::block_text;
use crate::parser_laws::law_block_located;
use crate::parser_laws::law_block_read_back;
use crate::parser_laws::law_pipes_keep_plain_text;
use crate::parser_laws::law_tags_alone_without_brackets;
use crate::parser_laws::lemma_bare_start;
use crate::parser_laws::lemma_bare_start_opens_no_section;
use crate::parser_laws::lemma_first_bracket;
use crate::parser_laws::lemma_no_closing_probe;
use crate::poll_laws::gives_calls;
use crate::poll_laws::has_calls;
use crate::search::contains;
use crate::search::find;
use crate::search::find_char;
use crate::search::is_space;
use crate::search::leading_spaces;
use crate::search::lemma_find;
use crate::search::lemma_find_char;
use crate::search::lemma_leading_spaces;
use crate::search::occurrences;
use crate::search::trim;
use crate::search::trim_end_char;
use crate::search::trim_start;
use crate::search::without_first;
use crate::stream_laws::chunk_text;
use crate::stream_laws::step_text;
use crate::tags::can_be_closed;
use crate::tags::closing_probes;
use crate::tags::end_probe;
use crate::tags::end_tag_probes;
use crate::tags::ends_in_force;
use crate::tags::find_end;
use crate::tags::find_start;
use crate::tags::first_hit;
use crate::tags::hit;
use crate::tags::known_starts;
use crate::tags::lemma_first_hit_append;
use crate::tags::normalized;
use crate::tags::one_begins_other;
use crate::tags::resembles_start;
use crate::tags::start_probe;
use crate::tags::start_probes;
use crate::tags::starts_in_force;
use crate::tags::NEW_TOOL_CALL_BLOCK;
use crate::tags::TOOL_CALL_END;
use crate::tags::TOOL_CALL_START;
use crate::text::byte_len;
use crate::tool_parser::content_calls;
use crate::tool_parser::content_faults;
use crate::tool_parser::content_ids;
use crate::tool_parser::contents;
use crate::tool_parser::inner_of;
use crate::tool_parser::parse_faults;
use crate::tool_parser::parse_ids;
use crate::tool_parser::parsed;
use crate::tool_parser::pipes_normalized;
use crate::tool_stream::behind_tag;
use crate::tool_stream::chunk_outcome;
use crate::tool_stream::closed_block;
use crate::tool_stream::empty_pair;
use crate::tool_stream::without_bracket;
use crate::tool_stream::Outcome;
use crate::tool_stream::StateView;
use crate::tool_stream::StepView;
use crate::tool_stream::MAX_XML_BUF_LEN;
use crate::types::ChunkView;
use vstd::prelude::*;

verus! {

/// Nothing but white characters.
pub open spec fn blank(s: Seq<char>) -> bool {
    forall|i: int| 0 <= i < s.len() ==> is_space(#[trigger] s[i])
}

proof fn lemma_blank_trimmed(s: Seq<char>)
    requires
        blank(s),
    ensures
        trim(s).len() == 0,
{
    lemma_leading_spaces(s);
    let n = leading_spaces(s) as int;
    if n < s.len() {
        assert(is_space(s[n]));
    }
    assert(trim_start(s) =~= Seq::<char>::empty());
}

proof fn lemma_blank_has_none(s: Seq<char>, c: char)
    requires
        blank(s),
        !is_space(c),
    ensures
        !s.contains(c),
{
}

/// A text that a tag begins with a character that is not in it does not hold the tag.
proof fn lemma_tag_absent(s: Seq<char>, tag: Seq<char>)
    requires
        tag.len() > 0,
        !s.contains(tag[0]),
    ensures
        !contains(s, tag),
{
    lemma_find(s, tag);
    if let Some(i) = find(s, tag) {
        assert(s.subrange(i, i + tag.len())[0] == s[i]);
    }
}

/// A blank content gives no calls.
pub proof fn law_blank_content_gives_nothing(s: Seq<char>, first: u64)
    requires
        blank(s),
        !contains(lowercase(s), "<invoke "@),
    ensures
        pipes_normalized(s) == s,
        content_calls(s, first) is None,
        content_ids(s) == 0,
        !content_faults(s),
{
    lemma_blank_trimmed(s);
    lemma_blank_has_none(s, '<');
    lemma_blank_has_none(s, '|');
    lemma_blank_has_none(s, '{');
    assert(!contains(s, "|>"@)) by {
        reveal_strlit("|>");
        lemma_tag_absent(s, "|>"@);
    }
    law_pipes_keep_plain_text(s);
    assert(!contains(s, NEW_TOOL_CALL_BLOCK@)) by {
        reveal_strlit("<|tool_call|>");
        lemma_tag_absent(s, NEW_TOOL_CALL_BLOCK@);
    }
    assert(!contains(s, TOOL_CALL_START@)) by {
        reveal_strlit("<|tool_calls_begin|>");
        lemma_tag_absent(s, TOOL_CALL_START@);
    }
    lemma_find_char(s, '{');
    assert(contents(s) is Invokes);
    let lower = lowercase(s);
    assert(lower.skip(0) =~= lower);
    lemma_find(lower, "<invoke "@);
    assert(invocations(s).found.len() == 0);
}

/// The end tag resembles none of the known start tags.
pub proof fn law_end_resembles_no_start()
    ensures
        !resembles_start(TOOL_CALL_END@, seq![]),
{
    reveal_strlit("<|tool_calls_end|>");
    reveal_strlit("<|tool_calls_begin|>");
    reveal_strlit("<|tool_calls_start|>");
    reveal_strlit("<|tool_calls_sentinel|>");
    reveal_strlit("<|tool_calls|>");
    reveal_strlit("<|tool_calls_section_begin|>");
    reveal_with_fuel(trim_end_char, 2);
    let end = normalized(TOOL_CALL_END@);
    let all = known_starts() + Seq::<Seq<char>>::empty();
    assert forall|k: int| 0 <= k < all.len() implies !one_begins_other(
        end,
        normalized(trim_end_char(#[trigger] all[k], '>')),
    ) by {
        let bare = trim_end_char(all[k], '>');
        let start = normalized(bare);
        assert(all[k] == known_starts()[k]);
        assert(bare == all[k].drop_last());
        let at: int = if k == 2 {
            14
        } else if k == 3 {
            12
        } else {
            13
        };
        assert(end[at] == TOOL_CALL_END@[at]);
        if k == 2 {
            assert(start[13] == bare[13]);
            assert(end[13] == TOOL_CALL_END@[13]);
        } else {
            assert(start[at] == bare[at]);
        }
    }
}

/// A pair of tags with nothing but white characters between them gives the consumer nothing: the
/// window is empty again.
pub proof fn law_empty_pair_dropped(
    chunk: ChunkView,
    between: Seq<char>,
    starts: Seq<Seq<char>>,
    ends: Seq<Seq<char>>,
    first: u64,
)
    requires
        chunk.choices.len() > 0,
        chunk_text(chunk) == TOOL_CALL_START@ + between + TOOL_CALL_END@,
        blank(between),
        !contains(lowercase(between), "<invoke "@),
        !resembles_start(TOOL_CALL_END@, starts),
    ensures
        chunk_outcome(chunk, StateView::Detecting(seq![]), starts, ends, first) == (Outcome {
            state: Some(StateView::Detecting(seq![])),
            step: StepView::Again,
            ids: 0,
        }),
{
    let nothing = Seq::<char>::empty();
    let s = chunk_text(chunk);
    let n = between.len() as int;
    let tag = bare_start();
    lemma_pair_found(s, between, starts);
    lemma_blank_has_none(between, '<');
    lemma_end_of_pair(s, between, starts, ends);
    lemma_pair_closed(chunk, s, between, first);
    assert(s.len() == n + 38 && s.take(19) == tag && s.subrange(n + 20, n + 38) == TOOL_CALL_END@
        && can_be_closed(tag)) by {
        lemma_bare_start();
        assert(s.take(19) =~= tag);
        assert(s.subrange(n + 20, n + 38) =~= TOOL_CALL_END@);
    }
    assert(nothing + s =~= s);
    assert(s.skip(0) =~= s);
    assert(s.take(0) =~= nothing);
    assert(s.take(n + 38) =~= s);
}

proof fn lemma_pair_found(s: Seq<char>, between: Seq<char>, starts: Seq<Seq<char>>)
    requires
        s == TOOL_CALL_START@ + between + TOOL_CALL_END@,
        blank(between),
    ensures
        find_start(s, starts) == Some((0int, 19int)),
{
    let nothing = Seq::<char>::empty();
    lemma_bare_start();
    lemma_blank_has_none(between, '<');
    assert(s =~= block_text(nothing, between, nothing));
    law_tags_alone_without_brackets(nothing, between, nothing);
    let probes = start_probes(known_starts() + starts);
    assert(probes[0] == start_probe(TOOL_CALL_START@));
}

proof fn lemma_pair_closed(chunk: ChunkView, s: Seq<char>, between: Seq<char>, first: u64)
    requires
        s == TOOL_CALL_START@ + between + TOOL_CALL_END@,
        blank(between),
        !contains(lowercase(between), "<invoke "@),
    ensures
        closed_block(chunk, seq![], s, bare_start(), TOOL_CALL_END@, first, false) == (Outcome {
            state: Some(StateView::Detecting(seq![])),
            step: StepView::Again,
            ids: 0,
        }),
{
    lemma_pair_parsed(s, between, first);
    lemma_pair_is_empty(s, between);
}

proof fn lemma_end_of_pair(
    s: Seq<char>,
    between: Seq<char>,
    starts: Seq<Seq<char>>,
    ends: Seq<Seq<char>>,
)
    requires
        s == TOOL_CALL_START@ + between + TOOL_CALL_END@,
        !between.contains('<'),
    ensures
        find_end(s, 19, starts, ends, Some(bare_start())) == Some((between.len() as int + 20, 18int)),
{
    lemma_bare_start();
    lemma_bare_start_opens_no_section();
    let t = bare_start();
    let rest = s.skip(19);
    let n = between.len() as int + 1;
    let a = closing_probes(Some(t));
    let b = end_tag_probes(ends_in_force(Some(t), ends));
    let c = start_probes(starts_in_force(Some(t), starts));
    assert(rest[0] == '>');
    assert(rest.subrange(n, n + 18) =~= TOOL_CALL_END@);
    assert forall|i: int| 0 <= i < rest.len() && i != n implies rest[i] != '<' by {
        if 0 < i < n {
            assert(rest[i] == between[i - 1]);
        } else if i > n {
            assert(rest[i] == TOOL_CALL_END@[i - n]);
        }
    }
    assert(rest[n + 1] == TOOL_CALL_END@[1]);
    lemma_no_closing_probe(rest, n, t);
    lemma_first_bracket(rest, TOOL_CALL_END@, n);
    lemma_first_hit_append(rest, a + b, c);
    lemma_first_hit_append(rest, a, b);
    assert(b[0] == end_probe(TOOL_CALL_END@));
    assert(hit(rest, b[0]) == Some((n, 18int)));
    assert(first_hit(rest, b) == Some((n, 18int)));
}

proof fn lemma_pair_parsed(s: Seq<char>, between: Seq<char>, first: u64)
    requires
        s == TOOL_CALL_START@ + between + TOOL_CALL_END@,
        blank(between),
        !contains(lowercase(between), "<invoke "@),
    ensures
        parsed(s, seq![], seq![], first) is None,
        !parse_faults(s, seq![], seq![]),
        parse_ids(s, seq![], seq![]) == 0,
{
    let nothing = Seq::<char>::empty();
    let none = Seq::<Seq<char>>::empty();
    assert(s =~= block_text(nothing, between, nothing));
    lemma_blank_has_none(between, '<');
    lemma_bare_start();
    law_tags_alone_without_brackets(nothing, between, nothing);
    law_blank_content_gives_nothing(between, first);
    reveal_strlit("```");
    lemma_find(nothing, "```"@);
    assert(occurrences(nothing, "```"@) == 0);
    law_block_located(nothing, between, nothing, none, none);
    law_block_read_back(nothing, between, nothing, none, none, first);
    assert(s.subrange(20, 20 + between.len() as int) =~= between);
    assert(inner_of(s, 20, 20 + between.len() as int) == between);
}

proof fn lemma_pair_is_empty(s: Seq<char>, between: Seq<char>)
    requires
        s == TOOL_CALL_START@ + between + TOOL_CALL_END@,
        blank(between),
    ensures
        empty_pair(s, bare_start(), TOOL_CALL_END@),
{
    let nothing = Seq::<char>::empty();
    lemma_bare_start();
    lemma_blank_has_none(between, '<');
    assert(s =~= block_text(nothing, between, nothing));
    law_tags_alone_without_brackets(nothing, between, nothing);
    let behind = between + TOOL_CALL_END@;
    assert(without_first(s, bare_start()) =~= seq!['>'] + behind);
    assert(without_bracket(seq!['>'] + behind) =~= behind);
    assert(between + TOOL_CALL_END@ + nothing =~= behind);
    assert(without_first(behind, TOOL_CALL_END@) =~= between);
    lemma_blank_trimmed(between);
}

// ---------------------------------------------------------------------------------------
// Any pair of tags, wherever it comes in
// ---------------------------------------------------------------------------------------
/// The consumer is given nothing, and the window is empty again.
pub open spec fn gives_nothing(o: Outcome, chunk: ChunkView) -> bool {
    &&& o.state == Some(StateView::Detecting(seq![]))
    &&& step_text(o.step).len() == 0
    &&& has_calls(chunk) || !gives_calls(o.step)
}

/// A complete block of tags with nothing but white characters between them, in which no tool
/// calls are found, gives the consumer nothing.
pub proof fn law_empty_block_gives_nothing(
    chunk: ChunkView,
    before: Seq<char>,
    collected: Seq<char>,
    start_tag: Seq<char>,
    end_tag: Seq<char>,
    first: u64,
    keep_empty: bool,
)
    requires
        chunk.choices.len() > 0,
        empty_pair(collected, start_tag, end_tag),
        parsed(collected, seq![], seq![], first) is None,
        !parse_faults(collected, seq![], seq![]),
    ensures
        gives_nothing(
            closed_block(chunk, before, collected, start_tag, end_tag, first, keep_empty),
            chunk,
        ),
{
}

/// An empty pair of any start and end tag that comes in as a whole, behind whatever the window
/// holds, gives the consumer nothing.
pub proof fn law_empty_pair_detected(
    chunk: ChunkView,
    buffer: Seq<char>,
    starts: Seq<Seq<char>>,
    ends: Seq<Seq<char>>,
    first: u64,
    p: int,
    n: int,
    q: int,
    m: int,
)
    requires
        chunk.choices.len() > 0,
        chunk_text(chunk).len() > 0,
        find_start(buffer + chunk_text(chunk), starts) == Some((p, n)),
        ({
            let rest = (buffer + chunk_text(chunk)).skip(p);
            let tag = rest.take(n);
            let end_tag = rest.subrange(q, q + m);
            &&& can_be_closed(tag)
            &&& find_end(rest, n, starts, ends, Some(tag)) == Some((q, m))
            &&& !resembles_start(end_tag, starts) || trim(rest.subrange(n, q)).len() > 0
            &&& empty_pair(rest.take(q + m), tag, end_tag)
            &&& parsed(rest.take(q + m), seq![], seq![], first) is None
            &&& !parse_faults(rest.take(q + m), seq![], seq![])
        }),
    ensures
        gives_nothing(
            chunk_outcome(chunk, StateView::Detecting(buffer), starts, ends, first),
            chunk,
        ),
{
    let rest = (buffer + chunk_text(chunk)).skip(p);
    law_empty_block_gives_nothing(
        chunk,
        (buffer + chunk_text(chunk)).take(p),
        rest.take(q + m),
        rest.take(n),
        rest.subrange(q, q + m),
        first,
        false,
    );
}

/// An empty pair of any start and end tag that is complete while it is collected gives the
/// consumer nothing.
pub proof fn law_empty_pair_collected(
    chunk: ChunkView,
    buf: Seq<char>,
    tag: Seq<char>,
    starts: Seq<Seq<char>>,
    ends: Seq<Seq<char>>,
    first: u64,
    q: int,
    m: int,
)
    requires
        chunk.choices.len() > 0,
        chunk_text(chunk).len() > 0,
        can_be_closed(tag),
        ({
            let whole = buf + chunk_text(chunk);
            let from = behind_tag(whole);
            let end_tag = whole.subrange(q, q + m);
            &&& byte_len(whole) <= MAX_XML_BUF_LEN
            &&& find_end(whole, from, starts, ends, Some(tag)) == Some((q, m))
            &&& !resembles_start(end_tag, starts) || trim(whole.subrange(from, q)).len() > 0
            &&& empty_pair(whole.take(q + m), tag, end_tag)
            &&& parsed(whole.take(q + m), seq![], seq![], first) is None
            &&& !parse_faults(whole.take(q + m), seq![], seq![])
        }),
    ensures
        gives_nothing(
            chunk_outcome(chunk, StateView::Collecting(buf, tag), starts, ends, first),
            chunk,
        ),
{
    let whole = buf + chunk_text(chunk);
    law_empty_block_gives_nothing(
        chunk,
        seq![],
        whole.take(q + m),
        tag,
        whole.subrange(q, q + m),
        first,
        true,
    );
}

/// A pair of tags with nothing but white characters between them that comes in while it is
/// collected gives the consumer nothing, wherever it was cut behind its start tag.
pub proof fn law_empty_pair_in_pieces(
    chunk: ChunkView,
    buf: Seq<char>,
    between: Seq<char>,
    starts: Seq<Seq<char>>,
    ends: Seq<Seq<char>>,
    first: u64,
)
    requires
        chunk.choices.len() > 0,
        chunk_text(chunk).len() > 0,
        buf + chunk_text(chunk) == TOOL_CALL_START@ + between + TOOL_CALL_END@,
        byte_len(buf + chunk_text(chunk)) <= MAX_XML_BUF_LEN,
        blank(between),
        !contains(lowercase(between), "<invoke "@),
        !resembles_start(TOOL_CALL_END@, starts),
    ensures
        gives_nothing(
            chunk_outcome(chunk, StateView::Collecting(buf, bare_start()), starts, ends, first),
            chunk,
        ),
{
    let s = buf + chunk_text(chunk);
    let n = between.len() as int;
    lemma_pair_behind_tag(s, between, starts, ends);
    lemma_pair_parsed(s, between, first);
    lemma_pair_is_empty(s, between);
    assert(s.len() == n + 38 && s.subrange(n + 20, n + 38) == TOOL_CALL_END@ && can_be_closed(
        bare_start(),
    )) by {
        lemma_bare_start();
        assert(s.subrange(n + 20, n + 38) =~= TOOL_CALL_END@);
    }
    assert(s.take(n + 38) =~= s);
    law_empty_pair_collected(chunk, buf, bare_start(), starts, ends, first, n + 20, 18);
}

proof fn lemma_pair_behind_tag(
    s: Seq<char>,
    between: Seq<char>,
    starts: Seq<Seq<char>>,
    ends: Seq<Seq<char>>,
)
    requires
        s == TOOL_CALL_START@ + between + TOOL_CALL_END@,
        blank(between),
    ensures
        behind_tag(s) == 20,
        find_end(s, 20, starts, ends, Some(bare_start())) == Some((between.len() as int + 20, 18int)),
{
    let nothing = Seq::<char>::empty();
    let t = bare_start();
    lemma_bare_start();
    lemma_bare_start_opens_no_section();
    lemma_blank_has_none(between, '<');
    law_tags_alone_without_brackets(nothing, between, nothing);
    let rest = between + TOOL_CALL_END@ + nothing;
    assert(s.skip(20) =~= rest);
    let a = closing_probes(Some(t));
    let b = end_tag_probes(ends_in_force(Some(t), ends));
    let c = start_probes(starts_in_force(Some(t), starts));
    lemma_first_hit_append(rest, a + b, c);
    lemma_first_hit_append(rest, a, b);
    assert(b[0] == end_probe(TOOL_CALL_END@));
    assert(hit(rest, b[0]) == Some((between.len() as int, 18int)));
    assert(first_hit(rest, b) == Some((between.len() as int, 18int)));
    assert(behind_tag(s) == 20) by {
        reveal_strlit("<|tool_calls_begin|>");
        lemma_find_char(s, '>');
        assert(s[19] == TOOL_CALL_START@[19]);
        let g = find_char(s, '>')->0;
        if g < 19 {
            assert(s[g] == TOOL_CALL_START@[g]);
        }
    }
}

} // verus!
