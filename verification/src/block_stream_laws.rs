//! A block of tool calls that comes in pieces gives the calls that it gives as a whole.
use crate::calls::nth_id;
use crate::parser_laws::bare_start;
use crate::parser_laws::block_text;
use crate::parser_laws::lemma_bare_start_opens_no_section;
use crate::search::find;
use crate::search::is_space;
use crate::search::leading_spaces;
use crate::search::lemma_find;
use crate::search::lemma_find_char;
use crate::search::lemma_find_is;
use crate::search::lemma_trim_end_char;
use crate::search::lemma_trim_end_char_fixed;
use crate::search::occurs_at;
use crate::search::trim;
use crate::search::trim_end;
use crate::search::trim_end_char;
use crate::search::trim_start;
use crate::stream_laws::after_chunk;
use crate::stream_laws::chunk_calls;
use crate::stream_laws::chunk_text;
use crate::stream_laws::chunks_text;
use crate::stream_laws::fits_window;
use crate::stream_laws::flushes;
use crate::stream_laws::lemma_chunk_cuts_no_tag;
use crate::stream_laws::lemma_find_behind;
use crate::stream_laws::lemma_normalized_concat;
use crate::stream_laws::lemma_occurs_within;
use crate::stream_laws::lemma_plain_chunk;
use crate::stream_laws::moved;
use crate::stream_laws::run;
use crate::stream_laws::run_calls;
use crate::stream_laws::step_calls;
use crate::stream_laws::step_text;
use crate::tag_laws::lemma_known_open_with_bracket;
use crate::tag_laws::opens_with_bracket;
use crate::tags::can_be_closed;
use crate::tags::closing_probes;
use crate::tags::closing_tag;
use crate::tags::end_probe;
use crate::tags::end_probes;
use crate::tags::end_tag_probes;
use crate::tags::ends_in_force;
use crate::tags::find_end;
use crate::tags::find_start;
use crate::tags::first_hit;
use crate::tags::half_piped_closing_tag;
use crate::tags::hit;
use crate::tags::known_starts;
use crate::tags::lemma_first_hit_append;
use crate::tags::lemma_first_hit_bounds;
use crate::tags::normalized;
use crate::tags::start_probe;
use crate::tags::start_probes;
use crate::tags::starts_in_force;
use crate::tags::tag_char;
use crate::tags::Probe;
use crate::tags::NEW_TOOL_CALL_SENTINEL;
use crate::tags::NEW_TOOL_CALL_START;
use crate::tags::PIPE_TOOL_CALLS_START;
use crate::tags::SECTION_END;
use crate::tags::SECTION_START;
use crate::tags::TOOL_CALL_END;
use crate::tags::TOOL_CALL_START;
use crate::text::byte_len;
use crate::text::lemma_byte_pos_between;
use crate::tool_parser::content_calls;
use crate::tool_parser::content_faults;
use crate::tool_parser::fenced;
use crate::tool_parser::parse_faults;
use crate::tool_parser::parsed;
use crate::tool_parser::pipes_normalized;
use crate::tool_stream::behind_tag;
use crate::tool_stream::closed_block;
use crate::tool_stream::collect;
use crate::tool_stream::detect;
use crate::tool_stream::nonempty;
use crate::tool_stream::StateView;
use crate::tool_stream::StepView;
use crate::tool_stream::MAX_XML_BUF_LEN;
use crate::types::with_calls;
use crate::types::ChunkView;
use crate::types::ToolCallView;
use vstd::prelude::*;

verus! {

// ---------------------------------------------------------------------------------------
// Parts of a text in which nothing is found
// ---------------------------------------------------------------------------------------
/// A part of a text that a probe does not hit is not hit by it.
proof fn lemma_no_hit_within(a: Seq<char>, b: Seq<char>, c: Seq<char>, p: Probe)
    requires
        hit(a + b + c, p) is None,
    ensures
        hit(b, p) is None,
{
    let s = a + b + c;
    lemma_find(s, p.exact);
    lemma_find(b, p.exact);
    if let Some(i) = find(b, p.exact) {
        lemma_occurs_within(a, b, c, p.exact, i);
    }
    lemma_normalized_concat(a, b);
    lemma_normalized_concat(a + b, c);
    lemma_find(normalized(s), normalized(p.loose));
    lemma_find(normalized(b), normalized(p.loose));
    if let Some(i) = find(normalized(b), normalized(p.loose)) {
        lemma_occurs_within(normalized(a), normalized(b), normalized(c), normalized(p.loose), i);
    }
}

proof fn lemma_no_first_hit_within(
    a: Seq<char>,
    b: Seq<char>,
    c: Seq<char>,
    probes: Seq<Probe>,
)
    requires
        first_hit(a + b + c, probes) is None,
    ensures
        first_hit(b, probes) is None,
    decreases probes.len(),
{
    if probes.len() > 0 {
        lemma_no_hit_within(a, b, c, probes[0]);
        lemma_no_first_hit_within(a, b, c, probes.skip(1));
    }
}

/// Nothing is found in the beginning of a text in which nothing is found.
proof fn lemma_no_first_hit_in_beginning(s: Seq<char>, n: int, probes: Seq<Probe>)
    requires
        0 <= n <= s.len(),
        first_hit(s, probes) is None,
    ensures
        first_hit(s.take(n), probes) is None,
{
    assert(Seq::<char>::empty() + s.take(n) + s.skip(n) =~= s);
    lemma_no_first_hit_within(seq![], s.take(n), s.skip(n), probes);
}

/// A probe for a tag: what it looks for begins with `<`.
pub open spec fn opens_tag(p: Probe) -> bool {
    p.exact.len() > 0 && p.exact[0] == '<' && p.loose.len() > 0 && p.loose[0] == '<'
}

/// A text without `<` in front moves a hit by its length.
proof fn lemma_hit_behind(r: Seq<char>, y: Seq<char>, p: Probe)
    requires
        !r.contains('<'),
        opens_tag(p),
    ensures
        hit(r + y, p) == moved(hit(y, p), r.len() as int),
{
    let s = r + y;
    assert forall|i: int| 0 <= i < r.len() implies !occurs_at(s, p.exact, i) by {
        assert(r.contains(r[i]));
        if occurs_at(s, p.exact, i) {
            assert(s.subrange(i, i + p.exact.len())[0] == s[i]);
        }
    }
    lemma_find_behind(r, y, p.exact);
    lemma_normalized_concat(r, y);
    let nr = normalized(r);
    let nl = normalized(p.loose);
    assert forall|i: int| 0 <= i < nr.len() implies !occurs_at(nr + normalized(y), nl, i) by {
        assert(r.contains(r[i]));
        if occurs_at(nr + normalized(y), nl, i) {
            assert((nr + normalized(y)).subrange(i, i + nl.len())[0] == tag_char(r[i]));
            assert(nl[0] == tag_char('<'));
        }
    }
    lemma_find_behind(nr, normalized(y), nl);
}

proof fn lemma_first_hit_behind(r: Seq<char>, y: Seq<char>, probes: Seq<Probe>)
    requires
        !r.contains('<'),
        forall|k: int| 0 <= k < probes.len() ==> opens_tag(#[trigger] probes[k]),
    ensures
        first_hit(r + y, probes) == moved(first_hit(y, probes), r.len() as int),
    decreases probes.len(),
{
    if probes.len() > 0 {
        assert(opens_tag(probes[0]));
        lemma_hit_behind(r, y, probes[0]);
        assert forall|k: int| 0 <= k < probes.skip(1).len() implies opens_tag(
            #[trigger] probes.skip(1)[k],
        ) by {
            assert(probes.skip(1)[k] == probes[k + 1]);
        }
        lemma_first_hit_behind(r, y, probes.skip(1));
    }
}

// ---------------------------------------------------------------------------------------
// The tags
// ---------------------------------------------------------------------------------------
proof fn lemma_tag_chars()
    ensures
        TOOL_CALL_START@.len() == 20 && TOOL_CALL_START@[0] == '<' && TOOL_CALL_START@[1] == '|'
            && TOOL_CALL_START@[13] == 'b' && TOOL_CALL_START@[18] == '|' && TOOL_CALL_START@[19]
            == '>',
        NEW_TOOL_CALL_START@.len() == 20 && NEW_TOOL_CALL_START@[0] == '<'
            && NEW_TOOL_CALL_START@[13] == 's' && NEW_TOOL_CALL_START@[18] == '|'
            && NEW_TOOL_CALL_START@[19] == '>',
        NEW_TOOL_CALL_SENTINEL@.len() == 23 && NEW_TOOL_CALL_SENTINEL@[0] == '<'
            && NEW_TOOL_CALL_SENTINEL@[13] == 's' && NEW_TOOL_CALL_SENTINEL@[21] == '|'
            && NEW_TOOL_CALL_SENTINEL@[22] == '>',
        PIPE_TOOL_CALLS_START@.len() == 14 && PIPE_TOOL_CALLS_START@[0] == '<'
            && PIPE_TOOL_CALLS_START@[12] == '|' && PIPE_TOOL_CALLS_START@[13] == '>',
        SECTION_START@.len() == 28 && SECTION_START@[0] == '<' && SECTION_START@[13] == 's'
            && SECTION_START@[26] == '|' && SECTION_START@[27] == '>',
        SECTION_END@.len() == 26 && SECTION_END@[0] == '<' && SECTION_END@[24] == '|'
            && SECTION_END@[25] == '>',
        TOOL_CALL_END@.len() == 18 && TOOL_CALL_END@[0] == '<' && TOOL_CALL_END@[1] == '|'
            && TOOL_CALL_END@[12] == '_' && TOOL_CALL_END@[13] == 'e' && TOOL_CALL_END@[16] == '|'
            && TOOL_CALL_END@[17] == '>',
        forall|i: int| 0 <= i < 19 ==> TOOL_CALL_START@[i] != '>',
{
    reveal_strlit("<|tool_calls_begin|>");
    reveal_strlit("<|tool_calls_start|>");
    reveal_strlit("<|tool_calls_sentinel|>");
    reveal_strlit("<|tool_calls|>");
    reveal_strlit("<|tool_calls_section_begin|>");
    reveal_strlit("<|tool_calls_section_end|>");
    reveal_strlit("<|tool_calls_end|>");
}

proof fn lemma_bare_start()
    ensures
        bare_start().len() == 19,
        trim_end_char(TOOL_CALL_START@, '>') == bare_start(),
        trim_end_char(bare_start(), '>') == bare_start(),
        start_probe(bare_start()) == start_probe(TOOL_CALL_START@),
{
    lemma_tag_chars();
    lemma_trim_end_char_fixed(bare_start(), '>');
}

proof fn lemma_bare_can_be_closed()
    ensures
        can_be_closed(bare_start()),
{
    lemma_bare_start();
    lemma_tag_chars();
}

/// The tags to look for beside the known ones.
pub struct Tags {
    pub starts: Seq<Seq<char>>,
    pub ends: Seq<Seq<char>>,
}

/// No tags beside the known ones.
pub open spec fn known_only() -> Tags {
    Tags { starts: seq![], ends: seq![] }
}

/// Tags that begin with `<`; start tags that fit in the sliding window.
pub open spec fn usable(g: Tags) -> bool {
    &&& forall|k: int|
        0 <= k < g.starts.len() ==> opens_with_bracket(#[trigger] g.starts[k]) && fits_window(
            g.starts[k],
        )
    &&& forall|k: int| 0 <= k < g.ends.len() ==> opens_with_bracket(#[trigger] g.ends[k])
}

/// All that ends a block with the start tag.
pub open spec fn block_ends(g: Tags) -> Seq<Probe> {
    end_probes(g.starts, g.ends, Some(bare_start()))
}

proof fn lemma_probe_opens_tag(tag: Seq<char>)
    requires
        tag.len() > 1,
        tag[0] == '<',
        tag.last() == '>',
        tag[tag.len() - 2] != '>',
    ensures
        opens_tag(start_probe(tag)),
        opens_tag(end_probe(tag)),
{
    lemma_trim_end_char_fixed(tag.drop_last(), '>');
}

proof fn lemma_bracketed_tag_opens(tag: Seq<char>)
    requires
        opens_with_bracket(tag),
    ensures
        opens_tag(start_probe(tag)),
        opens_tag(end_probe(tag)),
{
    lemma_trim_end_char(tag, '>');
    assert(trim_end_char(tag, '>')[0] == tag[0]);
}

proof fn lemma_closing_open_tags()
    ensures
        forall|k: int|
            0 <= k < closing_probes(Some(bare_start())).len() ==> opens_tag(
                #[trigger] closing_probes(Some(bare_start()))[k],
            ),
{
    lemma_tag_chars();
    lemma_bare_start();
    reveal_strlit("</");
    reveal_strlit(">");
    reveal_strlit("|>");
    let t = bare_start();
    let x = closing_tag(t);
    let y = half_piped_closing_tag(t);
    assert(x.len() > 2 && x[0] == '<' && x.last() == '>');
    assert(x[x.len() - 2] == t.last());
    assert(y.len() > 2 && y[0] == '<' && y.last() == '>');
    assert(y[y.len() - 2] == '|');
    lemma_probe_opens_tag(x);
    lemma_probe_opens_tag(y);
}

proof fn lemma_starts_open_tags(g: Tags)
    requires
        usable(g),
    ensures
        forall|k: int|
            0 <= k < start_probes(known_starts() + g.starts).len() ==> opens_tag(
                #[trigger] start_probes(known_starts() + g.starts)[k],
            ),
{
    lemma_known_open_with_bracket();
    let tags = known_starts() + g.starts;
    let probes = start_probes(tags);
    assert forall|k: int| 0 <= k < probes.len() implies opens_tag(#[trigger] probes[k]) by {
        assert(probes[k] == start_probe(tags[k]));
        if k < known_starts().len() {
            assert(tags[k] == known_starts()[k]);
            assert(opens_with_bracket(known_starts()[k]));
        } else {
            assert(tags[k] == g.starts[k - known_starts().len()]);
            assert(opens_with_bracket(g.starts[k - known_starts().len()]));
        }
        lemma_bracketed_tag_opens(tags[k]);
    }
}

proof fn lemma_ends_open_tags(g: Tags)
    requires
        usable(g),
    ensures
        forall|k: int|
            0 <= k < end_tag_probes(ends_in_force(Some(bare_start()), g.ends)).len() ==> opens_tag(
                #[trigger] end_tag_probes(ends_in_force(Some(bare_start()), g.ends))[k],
            ),
{
    lemma_tag_chars();
    lemma_probe_opens_tag(TOOL_CALL_END@);
    lemma_probe_opens_tag(SECTION_END@);
    let tags = ends_in_force(Some(bare_start()), g.ends);
    let probes = end_tag_probes(tags);
    assert forall|k: int| 0 <= k < probes.len() implies opens_tag(#[trigger] probes[k]) by {
        assert(probes[k] == end_probe(tags[k]));
        if k >= 2 {
            assert(tags[k] == g.ends[k - 2]);
            assert(opens_with_bracket(g.ends[k - 2]));
            lemma_bracketed_tag_opens(tags[k]);
        }
    }
}

proof fn lemma_block_ends_open_tags(g: Tags)
    requires
        usable(g),
    ensures
        forall|k: int| 0 <= k < block_ends(g).len() ==> opens_tag(#[trigger] block_ends(g)[k]),
{
    lemma_closing_open_tags();
    lemma_ends_open_tags(g);
    lemma_starts_open_tags(g);
    lemma_bare_start();
    lemma_tag_chars();
    lemma_probe_opens_tag(TOOL_CALL_START@);
    let t = bare_start();
    let a = closing_probes(Some(t));
    let b = end_tag_probes(ends_in_force(Some(t), g.ends));
    let tags = starts_in_force(Some(t), g.starts);
    let c = start_probes(tags);
    let known = start_probes(known_starts() + g.starts);
    assert forall|k: int| 0 <= k < block_ends(g).len() implies opens_tag(
        #[trigger] block_ends(g)[k],
    ) by {
        if k < a.len() {
            assert(block_ends(g)[k] == a[k]);
        } else if k < a.len() + b.len() {
            assert(block_ends(g)[k] == b[k - a.len()]);
        } else {
            let j = k - a.len() - b.len();
            assert(block_ends(g)[k] == c[j]);
            assert(c[j] == start_probe(tags[j]));
            if j > 0 {
                assert(tags[j] == (known_starts() + g.starts)[j - 1]);
                assert(c[j] == known[j - 1]);
            }
        }
    }
}

// ---------------------------------------------------------------------------------------
// A block as it comes in
// ---------------------------------------------------------------------------------------
/// A block and what stands behind it.
pub open spec fn block_and_rest(content: Seq<char>, behind: Seq<char>) -> Seq<char> {
    TOOL_CALL_START@ + content + TOOL_CALL_END@ + behind
}

/// Where the end tag of a block is first found, without its closing angle bracket.
pub open spec fn enough(content: Seq<char>) -> int {
    37 + content.len() as int
}

/// No start tag stands in `before`, nor reaches from it into the start tag of a block.
pub open spec fn no_start_before(before: Seq<char>, g: Tags) -> bool {
    find_start((before + bare_start()).drop_last(), g.starts) is None
}

/// Nothing that ends a block stands in `content`, nor reaches from it into the end tag; and no
/// closing tag of the start tag stands behind the block either.
pub open spec fn no_end_before(content: Seq<char>, behind: Seq<char>, g: Tags) -> bool {
    let rest = content + TOOL_CALL_END@ + behind;
    first_hit(rest.take(content.len() as int + 16), block_ends(g)) is None && first_hit(
        rest,
        closing_probes(Some(bare_start())),
    ) is None
}

proof fn lemma_block_parts(content: Seq<char>, behind: Seq<char>)
    ensures
        ({
            let all = block_and_rest(content, behind);
            let e = 20 + content.len() as int;
            &&& all.len() >= e + 18
            &&& all.take(19) == bare_start()
            &&& all[19] == '>'
            &&& forall|d: int| 0 <= d < 18 ==> #[trigger] all[e + d] == TOOL_CALL_END@[d]
            &&& all.subrange(20, e) == content
            &&& all.skip(20) == content + TOOL_CALL_END@ + behind
        }),
{
    lemma_tag_chars();
    lemma_bare_start();
    let all = block_and_rest(content, behind);
    let e = 20 + content.len() as int;
    assert(all.take(19) =~= bare_start());
    assert(all.subrange(20, e) =~= content);
    assert(all.skip(20) =~= content + TOOL_CALL_END@ + behind);
}

/// Where the end tag is found in the beginning of what follows a start tag.
pub open spec fn end_hit(content: Seq<char>, n: int) -> Option<(int, int)> {
    let c = content.len() as int;
    if n >= c + 18 {
        Some((c, 18))
    } else if n == c + 17 {
        Some((c, 17))
    } else {
        None
    }
}

/// Among all that ends a block the known end tag comes right behind the closing tags.
proof fn lemma_block_ends(s: Seq<char>, g: Tags)
    ensures
        first_hit(s, closing_probes(Some(bare_start()))) is None ==> (match hit(
            s,
            end_probe(TOOL_CALL_END@),
        ) {
            Some(h) => first_hit(s, block_ends(g)) == Some(h),
            None => true,
        }),
        first_hit(s, block_ends(g)) is None ==> hit(s, end_probe(TOOL_CALL_END@)) is None,
{
    let t = bare_start();
    let ends = ends_in_force(Some(t), g.ends);
    let a = closing_probes(Some(t));
    let b = end_tag_probes(ends);
    let c = start_probes(starts_in_force(Some(t), g.starts));
    lemma_first_hit_append(s, a + b, c);
    lemma_first_hit_append(s, a, b);
    lemma_bare_start_opens_no_section();
    assert(b[0] == end_probe(TOOL_CALL_END@));
}

proof fn lemma_end_tag_found(content: Seq<char>, behind: Seq<char>, n: int, g: Tags)
    requires
        no_end_before(content, behind, g),
        content.len() + 17 <= n <= (content + TOOL_CALL_END@ + behind).len(),
    ensures
        hit((content + TOOL_CALL_END@ + behind).take(n), end_probe(TOOL_CALL_END@)) == end_hit(
            content,
            n,
        ),
{
    lemma_tag_chars();
    let tag = TOOL_CALL_END@;
    let bare = tag.drop_last();
    let c = content.len() as int;
    let rest = content + tag + behind;
    let z = rest.take(n);
    let early = rest.take(c + 16);
    lemma_trim_end_char_fixed(bare, '>');
    assert(trim_end_char(tag, '>') == bare);
    lemma_block_ends(early, g);
    lemma_find(early, tag);
    lemma_find(normalized(early), normalized(bare));
    assert forall|d: int| 0 <= d < 18 && c + d < n implies z[c + d] == #[trigger] tag[d] by {
        assert(rest[c + d] == tag[d]);
    }
    assert forall|j: int| 0 <= j < c implies !occurs_at(z, tag, j) by {
        if occurs_at(z, tag, j) {
            let there = z.subrange(j, j + 18);
            if j == c - 1 {
                assert(there[1] == z[c]);
                assert(z[c + 0] == tag[0]);
            } else {
                assert(early.subrange(j, j + 18) =~= there);
                assert(occurs_at(early, tag, j));
            }
        }
    }
    if n >= c + 18 {
        assert(z.subrange(c, c + 18) =~= tag);
        lemma_find_is(z, tag, c);
    } else {
        lemma_find(z, tag);
        assert(find(z, tag) is None);
        let nz = normalized(z);
        let nb = normalized(bare);
        assert(nz.subrange(c, c + 17) =~= nb);
        assert forall|j: int| 0 <= j < c implies !occurs_at(nz, nb, j) by {
            if occurs_at(nz, nb, j) {
                assert(normalized(early).subrange(j, j + 17) =~= nz.subrange(j, j + 17));
                assert(occurs_at(normalized(early), nb, j));
            }
        }
        lemma_find_is(nz, nb, c);
    }
}

/// Where the end of a block is found in the beginning of what follows a start tag.
proof fn lemma_end_found(content: Seq<char>, behind: Seq<char>, n: int, g: Tags)
    requires
        no_end_before(content, behind, g),
        0 <= n <= (content + TOOL_CALL_END@ + behind).len(),
    ensures
        first_hit((content + TOOL_CALL_END@ + behind).take(n), block_ends(g)) == end_hit(
            content,
            n,
        ),
{
    let rest = content + TOOL_CALL_END@ + behind;
    let z = rest.take(n);
    let c = content.len() as int;
    lemma_tag_chars();
    if n < c + 17 {
        let early = rest.take(c + 16);
        lemma_no_first_hit_in_beginning(early, n, block_ends(g));
        assert(early.take(n) =~= z);
    } else {
        lemma_no_first_hit_in_beginning(rest, n, closing_probes(Some(bare_start())));
        lemma_end_tag_found(content, behind, n, g);
        lemma_block_ends(z, g);
    }
}

/// Where the end of a block is found in as much of it as came in.
proof fn lemma_end_as_it_comes(content: Seq<char>, behind: Seq<char>, n: int, from: int, g: Tags)
    requires
        usable(g),
        no_end_before(content, behind, g),
        19 <= from <= 20,
        from <= n <= block_and_rest(content, behind).len(),
    ensures
        find_end(
            block_and_rest(content, behind).take(n),
            from,
            g.starts,
            g.ends,
            Some(bare_start()),
        ) == (if n > enough(content) {
            Some((20 + content.len() as int, 18int))
        } else if n == enough(content) {
            Some((20 + content.len() as int, 17int))
        } else {
            None
        }),
{
    lemma_block_parts(content, behind);
    let all = block_and_rest(content, behind);
    let rest = content + TOOL_CALL_END@ + behind;
    let y = all.take(n).skip(from);
    if n == 19 {
        assert(y =~= rest.take(0));
        lemma_end_found(content, behind, 0, g);
    } else {
        let z = rest.take(n - 20);
        assert(all.take(n).skip(20) =~= z) by {
            assert(all.skip(20).take(n - 20) =~= all.take(n).skip(20));
        }
        lemma_end_found(content, behind, n - 20, g);
        if from == 19 {
            assert(y =~= seq!['>'] + z);
            lemma_block_ends_open_tags(g);
            assert(!seq!['>'].contains('<'));
            lemma_first_hit_behind(seq!['>'], z, block_ends(g));
        }
    }
}

/// The start tag of a block is found where it stands.
proof fn lemma_start_found(before: Seq<char>, s: Seq<char>, g: Tags)
    requires
        no_start_before(before, g),
        s.len() >= 19,
        s.take(19) == bare_start(),
    ensures
        find_start(before + s, g.starts) == Some((before.len() as int, 19int)),
{
    lemma_bare_start();
    lemma_tag_chars();
    let w = before + s;
    let p = before.len() as int;
    let early = (before + bare_start()).drop_last();
    let probes = start_probes(known_starts() + g.starts);
    assert(probes[0] == start_probe(TOOL_CALL_START@));
    assert(hit(early, probes[0]) is None);
    lemma_find(early, bare_start());
    assert(w.subrange(p, p + 19) =~= s.take(19));
    assert forall|j: int| 0 <= j < p implies !occurs_at(w, bare_start(), j) by {
        if occurs_at(w, bare_start(), j) {
            assert(early =~= w.take(p + 18)) by {
                assert(before + bare_start() =~= w.take(p + 19));
            }
            assert(early.subrange(j, j + 19) =~= w.subrange(j, j + 19));
            assert(occurs_at(early, bare_start(), j));
        }
    }
    lemma_find_is(w, bare_start(), p);
    assert(hit(w, probes[0]) == Some((p, 19int)));
}

/// As long as the start tag is not complete, no start tag is found.
proof fn lemma_no_start_yet(before: Seq<char>, content: Seq<char>, behind: Seq<char>, k: int, g: Tags)
    requires
        no_start_before(before, g),
        0 <= k < before.len() + 19,
    ensures
        find_start((before + block_and_rest(content, behind)).take(k), g.starts) is None,
{
    lemma_block_parts(content, behind);
    lemma_bare_start();
    let all = block_and_rest(content, behind);
    let early = (before + bare_start()).drop_last();
    let probes = start_probes(known_starts() + g.starts);
    assert(early =~= (before + all).take(before.len() as int + 18)) by {
        assert(before + bare_start() =~= (before + all).take(before.len() as int + 19));
    }
    lemma_no_first_hit_in_beginning(early, k, probes);
    assert(early.take(k) =~= (before + all).take(k));
}

/// No start tag stands in the last part of a text before which none stands.
proof fn lemma_no_start_before_rest(before: Seq<char>, n: int, g: Tags)
    requires
        no_start_before(before, g),
        0 <= n <= before.len(),
    ensures
        no_start_before(before.skip(n), g),
{
    lemma_bare_start();
    let early = (before + bare_start()).drop_last();
    let late = (before.skip(n) + bare_start()).drop_last();
    assert(before.take(n) + late + Seq::<char>::empty() =~= early);
    lemma_no_first_hit_within(
        before.take(n),
        late,
        seq![],
        start_probes(known_starts() + g.starts),
    );
}

// ---------------------------------------------------------------------------------------
// What becomes of a complete block
// ---------------------------------------------------------------------------------------
/// No start tag stands before a text that begins with one.
proof fn lemma_no_start_before_nothing()
    ensures
        no_start_before(seq![], known_only()),
{
    lemma_bare_start();
    lemma_tag_chars();
    let s = (Seq::<char>::empty() + bare_start()).drop_last();
    assert(s =~= TOOL_CALL_START@.take(18));
    reveal_strlit("<|tool_calls_begin|>");
    assert(one_bracket(s));
    lemma_misfit(s, 0, bare_start());
    lemma_start_misses(s, NEW_TOOL_CALL_START@, 13);
    lemma_start_misses(s, NEW_TOOL_CALL_SENTINEL@, 13);
    lemma_start_misses(s, PIPE_TOOL_CALLS_START@, 12);
    lemma_start_misses(s, SECTION_START@, 13);
    let tags = known_starts() + seq![];
    let probes = start_probes(tags);
    assert forall|k: int| 0 <= k < probes.len() implies hit(s, #[trigger] probes[k]) is None by {
        assert(probes[k] == start_probe(tags[k]));
        assert(tags[k] == known_starts()[k]);
    }
    lemma_none_hit(s, probes);
}

/// The only `<` in `s` stands at its beginning.
spec fn one_bracket(s: Seq<char>) -> bool {
    forall|i: int| 0 < i < s.len() ==> s[i] != '<'
}

/// A tag that differs in one place from such a text, or is longer, does not stand in it.
proof fn lemma_misfit(s: Seq<char>, d: int, tag: Seq<char>)
    requires
        one_bracket(s),
        tag.len() > 0,
        tag[0] == '<',
        tag.len() > s.len() || (0 <= d < tag.len() && tag_char(s[d]) != tag_char(tag[d])),
    ensures
        !occurs_at(s, tag, 0),
        find(s, tag) is None,
        find(normalized(s), normalized(tag)) is None,
{
    lemma_find(s, tag);
    lemma_find(normalized(s), normalized(tag));
    if let Some(i) = find(s, tag) {
        let there = s.subrange(i, i + tag.len());
        assert(there[0] == s[i]);
        assert(there[d] == s[i + d]);
    }
    if let Some(i) = find(normalized(s), normalized(tag)) {
        let there = normalized(s).subrange(i, i + tag.len());
        assert(there[0] == tag_char(s[i]));
        assert(normalized(tag)[0] == tag_char(tag[0]));
        assert(there[d] == tag_char(s[i + d]));
        assert(normalized(tag)[d] == tag_char(tag[d]));
    }
}

proof fn lemma_start_misses(s: Seq<char>, tag: Seq<char>, d: int)
    requires
        one_bracket(s),
        tag.len() > 1,
        tag[0] == '<',
        tag.last() == '>',
        tag[tag.len() - 2] != '>',
        0 <= d < tag.len() - 1,
        tag_char(s[d]) != tag_char(tag[d]),
    ensures
        hit(s, start_probe(tag)) is None,
        hit(s, end_probe(tag)) is None,
{
    let bare = tag.drop_last();
    lemma_trim_end_char_fixed(bare, '>');
    lemma_misfit(s, d, bare);
    lemma_misfit(s, d, tag);
}

/// No closing tag of the start tag stands where only the end tag does.
proof fn lemma_no_closing_by_end(s: Seq<char>)
    requires
        one_bracket(s),
        s.len() > 1,
        s[1] == '|',
    ensures
        first_hit(s, closing_probes(Some(bare_start()))) is None,
{
    lemma_tag_chars();
    lemma_bare_start();
    reveal_strlit("</");
    reveal_strlit(">");
    reveal_strlit("|>");
    let t = bare_start();
    let a = closing_tag(t);
    let b = half_piped_closing_tag(t);
    assert(a[a.len() - 2] == t.last());
    assert(b[b.len() - 2] == '|');
    lemma_start_misses(s, a, 1);
    lemma_start_misses(s, b, 1);
    let probes = closing_probes(Some(t));
    reveal_with_fuel(first_hit, 3);
    assert(probes.len() == 2 ==> probes.skip(1)[0] == end_probe(b));
    assert(probes.len() == 2 ==> probes.skip(1).skip(1) =~= Seq::<Probe>::empty());
    assert(probes.len() == 1 ==> probes.skip(1) =~= Seq::<Probe>::empty());
}

/// Nothing that ends a block stands in the beginning of the end tag.
proof fn lemma_no_end_in_beginning()
    ensures
        first_hit(TOOL_CALL_END@.take(16), block_ends(known_only())) is None,
{
    lemma_tag_chars();
    lemma_bare_start();
    let s = TOOL_CALL_END@.take(16);
    assert(one_bracket(s)) by {
        reveal_strlit("<|tool_calls_end|>");
    }
    lemma_no_closing_by_end(s);
    let end = TOOL_CALL_END@;
    lemma_trim_end_char_fixed(end.drop_last(), '>');
    lemma_misfit(s, 0, end);
    lemma_misfit(s, 0, end.drop_last());
    assert(SECTION_END@[13] == 's') by {
        reveal_strlit("<|tool_calls_section_end|>");
    }
    lemma_start_misses(s, SECTION_END@, 13);
    lemma_start_misses(s, TOOL_CALL_START@, 13);
    lemma_start_misses(s, NEW_TOOL_CALL_START@, 13);
    lemma_start_misses(s, NEW_TOOL_CALL_SENTINEL@, 13);
    lemma_start_misses(s, PIPE_TOOL_CALLS_START@, 12);
    lemma_start_misses(s, SECTION_START@, 13);
    lemma_none_of_ends(s);
}

/// Nothing ends a block where none of its ends is hit.
proof fn lemma_none_of_ends(s: Seq<char>)
    requires
        first_hit(s, closing_probes(Some(bare_start()))) is None,
        hit(s, end_probe(TOOL_CALL_END@)) is None,
        hit(s, end_probe(SECTION_END@)) is None,
        forall|k: int|
            0 <= k < known_starts().len() ==> hit(s, start_probe(#[trigger] known_starts()[k])) is None,
    ensures
        first_hit(s, block_ends(known_only())) is None,
{
    lemma_bare_start();
    let t = bare_start();
    let ends = ends_in_force(Some(t), seq![]);
    let a = closing_probes(Some(t));
    let b = end_tag_probes(ends);
    let starts = starts_in_force(Some(t), seq![]);
    let c = start_probes(starts);
    lemma_first_hit_append(s, a + b, c);
    lemma_first_hit_append(s, a, b);
    lemma_bare_start_opens_no_section();
    assert(ends =~= seq![TOOL_CALL_END@, SECTION_END@]);
    assert forall|k: int| 0 <= k < b.len() implies hit(s, #[trigger] b[k]) is None by {
        assert(b[k] == end_probe(ends[k]));
    }
    lemma_none_hit(s, b);
    assert forall|k: int| 0 <= k < c.len() implies hit(s, #[trigger] c[k]) is None by {
        assert(c[k] == start_probe(starts[k]));
        assert(hit(s, start_probe(known_starts()[0])) is None);
        if k > 0 {
            assert(starts[k] == known_starts()[k - 1]);
        }
    }
    lemma_none_hit(s, c);
}

proof fn lemma_none_hit(s: Seq<char>, probes: Seq<Probe>)
    requires
        forall|k: int| 0 <= k < probes.len() ==> hit(s, #[trigger] probes[k]) is None,
    ensures
        first_hit(s, probes) is None,
    decreases probes.len(),
{
    if probes.len() > 0 {
        assert(hit(s, probes[0]) is None);
        assert forall|k: int| 0 <= k < probes.skip(1).len() implies hit(
            s,
            #[trigger] probes.skip(1)[k],
        ) is None by {
            assert(probes.skip(1)[k] == probes[k + 1]);
        }
        lemma_none_hit(s, probes.skip(1));
    }
}

/// In texts without `<` no other tag stands where it would be taken for one of the block's.
pub proof fn law_no_tags_without_brackets(
    before: Seq<char>,
    content: Seq<char>,
    behind: Seq<char>,
)
    requires
        !before.contains('<'),
        !content.contains('<'),
        !behind.contains('<'),
    ensures
        no_start_before(before, known_only()),
        no_end_before(content, behind, known_only()),
{
    lemma_tag_chars();
    lemma_bare_start();
    lemma_no_start_before_nothing();
    let none = Seq::<char>::empty();
    let start = (none + bare_start()).drop_last();
    assert((before + bare_start()).drop_last() =~= before + start);
    lemma_starts_open_tags(known_only());
    lemma_first_hit_behind(before, start, start_probes(known_starts() + seq![]));
    let rest = content + TOOL_CALL_END@ + behind;
    lemma_block_ends_open_tags(known_only());
    lemma_no_end_in_beginning();
    assert(rest.take(content.len() as int + 16) =~= content + TOOL_CALL_END@.take(16));
    lemma_first_hit_behind(content, TOOL_CALL_END@.take(16), block_ends(known_only()));
    let tail = TOOL_CALL_END@ + behind;
    assert(one_bracket(tail)) by {
        reveal_strlit("<|tool_calls_end|>");
        assert forall|i: int| 0 < i < tail.len() implies tail[i] != '<' by {
            if i >= 18 {
                assert(behind.contains(behind[i - 18]));
            }
        }
    }
    lemma_no_closing_by_end(tail);
    assert(rest =~= content + tail);
    let closing = closing_probes(Some(bare_start()));
    assert forall|k: int| 0 <= k < closing.len() implies opens_tag(#[trigger] closing[k]) by {
        assert(block_ends(known_only())[k] == closing[k]);
    }
    lemma_first_hit_behind(content, tail, closing);
}

/// Where nothing is hit, none of the probes hits.
proof fn lemma_each_misses(s: Seq<char>, probes: Seq<Probe>, k: int)
    requires
        first_hit(s, probes) is None,
        0 <= k < probes.len(),
    ensures
        hit(s, probes[k]) is None,
    decreases k,
{
    if k > 0 {
        lemma_each_misses(s, probes.skip(1), k - 1);
        assert(probes.skip(1)[k - 1] == probes[k]);
    }
}

/// What holds with additional tags holds without them.
proof fn lemma_fewer_ends(content: Seq<char>, behind: Seq<char>, g: Tags)
    requires
        no_end_before(content, behind, g),
    ensures
        no_end_before(content, behind, known_only()),
{
    let s = (content + TOOL_CALL_END@ + behind).take(content.len() as int + 16);
    let t = bare_start();
    let a = closing_probes(Some(t));
    let ends = ends_in_force(Some(t), g.ends);
    let b = end_tag_probes(ends);
    let tags = starts_in_force(Some(t), g.starts);
    let c = start_probes(tags);
    lemma_first_hit_append(s, a + b, c);
    lemma_first_hit_append(s, a, b);
    lemma_bare_start_opens_no_section();
    assert(b[0] == end_probe(TOOL_CALL_END@));
    assert(b[1] == end_probe(SECTION_END@));
    lemma_each_misses(s, b, 0);
    lemma_each_misses(s, b, 1);
    assert forall|k: int| 0 <= k < known_starts().len() implies hit(
        s,
        start_probe(#[trigger] known_starts()[k]),
    ) is None by {
        assert(tags[k + 1] == known_starts()[k]);
        assert(c[k + 1] == start_probe(tags[k + 1]));
        lemma_each_misses(s, c, k + 1);
    }
    lemma_none_of_ends(s);
}

/// A block up to and with its end tag, whose closing angle bracket may be missing, gives the
/// calls that its content stands for.
proof fn lemma_collected(content: Seq<char>, behind: Seq<char>, m: int, first: u64)
    requires
        no_end_before(content, behind, known_only()),
        17 <= m <= 18,
    ensures
        ({
            let xml = block_and_rest(content, behind).take(20 + content.len() + m);
            let inner = pipes_normalized(content);
            &&& parse_faults(xml, seq![], seq![]) == content_faults(inner)
            &&& parsed(xml, seq![], seq![], first) is Some == content_calls(inner, first) is Some
            &&& parsed(xml, seq![], seq![], first) matches Some((calls, _)) ==> content_calls(
                inner,
                first,
            ) == Some(calls)
        }),
{
    lemma_block_parts(content, behind);
    lemma_bare_start();
    lemma_tag_chars();
    let all = block_and_rest(content, behind);
    let n = 20 + content.len() + m;
    let xml = all.take(n);
    assert(xml.take(19) =~= all.take(19));
    lemma_no_start_before_nothing();
    lemma_start_found(seq![], xml, known_only());
    assert(Seq::<char>::empty() + xml =~= xml);
    assert(xml[19] == '>');
    assert(xml.take(0) =~= Seq::<char>::empty());
    assert(!fenced(Seq::<char>::empty())) by {
        reveal_strlit("```");
        lemma_find(Seq::<char>::empty(), "```"@);
    }
    lemma_end_as_it_comes(content, behind, n, 20, known_only());
    let q = 20 + content.len() as int;
    assert(xml.subrange(20, q) =~= all.subrange(20, q));
}

/// The outcome of a complete block whose content stands for calls.
proof fn lemma_closed_block(
    chunk: ChunkView,
    before: Seq<char>,
    content: Seq<char>,
    behind: Seq<char>,
    m: int,
    end_tag: Seq<char>,
    calls: Seq<ToolCallView>,
    first: u64,
    keep_empty: bool,
)
    requires
        no_end_before(content, behind, known_only()),
        17 <= m <= 18,
        !content_faults(pipes_normalized(content)),
        content_calls(pipes_normalized(content), first) == Some(calls),
    ensures
        ({
            let o = closed_block(
                chunk,
                before,
                block_and_rest(content, behind).take(20 + content.len() + m),
                bare_start(),
                end_tag,
                first,
                keep_empty,
            );
            &&& o.state == Some(StateView::Done)
            &&& o.step == StepView::Emit(with_calls(chunk, nonempty(before), calls))
        }),
{
    lemma_collected(content, behind, m, first);
}

/// A text that does not begin with a white character is not blank.
proof fn lemma_not_blank(s: Seq<char>)
    requires
        s.len() > 0,
        !is_space(s[0]),
    ensures
        trim(s).len() > 0,
    decreases s.len(),
{
    assert(leading_spaces(s) == 0);
    assert(trim_start(s) =~= s);
    lemma_trim_end_nonempty(s);
}

proof fn lemma_trim_end_nonempty(s: Seq<char>)
    requires
        s.len() > 0,
        !is_space(s[0]),
    ensures
        trim_end(s).len() > 0,
    decreases s.len(),
{
    if is_space(s.last()) {
        lemma_trim_end_nonempty(s.drop_last());
    }
}

// ---------------------------------------------------------------------------------------
// One chunk
// ---------------------------------------------------------------------------------------
/// A chunk that brings content or nothing: it neither empties the window nor has tool calls of
/// its own.
pub open spec fn plain(c: ChunkView) -> bool {
    !flushes(c) && (c.choices.len() > 0 ==> c.choices[0].delta.tool_calls is None)
}

/// The start tag comes in while it is looked for.
#[verifier::spinoff_prover]
#[verifier::rlimit(30)]
proof fn lemma_detect_block(
    chunk: ChunkView,
    before: Seq<char>,
    content: Seq<char>,
    behind: Seq<char>,
    n: int,
    calls: Seq<ToolCallView>,
    first: u64,
    g: Tags,
)
    requires
        chunk.choices.len() > 0,
        chunk.choices[0].delta.tool_calls is None,
        no_start_before(before, g),
        usable(g),
        trim(content).len() > 0,
        no_end_before(content, behind, g),
        19 <= n <= block_and_rest(content, behind).len(),
        !content_faults(pipes_normalized(content)),
        content_calls(pipes_normalized(content), first) == Some(calls),
    ensures
        ({
            let all = block_and_rest(content, behind);
            let o = detect(chunk, before + all.take(n), g.starts, g.ends, first);
            &&& step_text(o.step) == before
            &&& if n < enough(content) {
                o.state == Some(StateView::Collecting(all.take(n), bare_start())) && step_calls(
                    o.step,
                ).len() == 0 && o.ids == 0
            } else {
                o.state == Some(StateView::Done) && step_calls(o.step) == calls
            }
        }),
{
    lemma_block_parts(content, behind);
    lemma_bare_can_be_closed();
    let all = block_and_rest(content, behind);
    let s = all.take(n);
    let window = before + s;
    let p = before.len() as int;
    assert(s.take(19) =~= all.take(19));
    lemma_start_found(before, s, g);
    assert(window.take(p) =~= before);
    assert(window.skip(p) =~= s);
    assert(s.take(19) =~= bare_start());
    lemma_fewer_ends(content, behind, g);
    lemma_end_as_it_comes(content, behind, n, 19, g);
    if n >= enough(content) {
        let m: int = if n > enough(content) {
            18
        } else {
            17
        };
        let q = 20 + content.len() as int;
        assert(s.subrange(19, q)[0] == '>');
        lemma_not_blank(s.subrange(19, q));
        assert(s.take(q + m) =~= all.take(20 + content.len() + m));
        lemma_closed_block(
            chunk,
            before,
            content,
            behind,
            m,
            s.subrange(q, q + m),
            calls,
            first,
            false,
        );
    }
    if before.len() == 0 {
        assert(before =~= Seq::<char>::empty());
    }
}

/// What is collected of a block stays within its limit, and its content begins behind the start
/// tag.
proof fn lemma_collected_so_far(content: Seq<char>, behind: Seq<char>, n: int)
    requires
        20 <= n <= block_and_rest(content, behind).len(),
    ensures
        byte_len(block_and_rest(content, behind).take(n)) <= byte_len(
            block_and_rest(content, behind),
        ),
        behind_tag(block_and_rest(content, behind).take(n)) == 20,
{
    lemma_block_parts(content, behind);
    lemma_tag_chars();
    let all = block_and_rest(content, behind);
    let s = all.take(n);
    lemma_byte_pos_between(all, n, all.len() as int);
    lemma_find_char(s, '>');
    assert(s[19] == '>');
    assert forall|i: int| 0 <= i < 19 implies s[i] != '>' by {
        assert(s[i] == all.take(19)[i]);
        assert(bare_start()[i] == TOOL_CALL_START@[i]);
    }
}

/// More of a block comes in while it is collected.
#[verifier::spinoff_prover]
#[verifier::rlimit(30)]
proof fn lemma_collect_block(
    chunk: ChunkView,
    content: Seq<char>,
    behind: Seq<char>,
    n: int,
    calls: Seq<ToolCallView>,
    first: u64,
    g: Tags,
)
    requires
        chunk.choices.len() > 0,
        chunk.choices[0].delta.tool_calls is None,
        usable(g),
        trim(content).len() > 0,
        no_end_before(content, behind, g),
        20 <= n <= block_and_rest(content, behind).len(),
        byte_len(block_and_rest(content, behind)) <= MAX_XML_BUF_LEN,
        !content_faults(pipes_normalized(content)),
        content_calls(pipes_normalized(content), first) == Some(calls),
    ensures
        ({
            let all = block_and_rest(content, behind);
            let o = collect(chunk, all.take(n), bare_start(), g.starts, g.ends, first);
            &&& step_text(o.step).len() == 0
            &&& if n < enough(content) {
                o.state == Some(StateView::Collecting(all.take(n), bare_start())) && step_calls(
                    o.step,
                ).len() == 0 && o.ids == 0
            } else {
                o.state == Some(StateView::Done) && step_calls(o.step) == calls
            }
        }),
{
    lemma_block_parts(content, behind);
    lemma_bare_can_be_closed();
    lemma_collected_so_far(content, behind, n);
    lemma_fewer_ends(content, behind, g);
    lemma_end_as_it_comes(content, behind, n, 20, g);
    let all = block_and_rest(content, behind);
    let s = all.take(n);
    if n >= enough(content) {
        let m: int = if n > enough(content) {
            18
        } else {
            17
        };
        let q = 20 + content.len() as int;
        assert(s.subrange(20, q) =~= all.subrange(20, q));
        assert(s.take(q + m) =~= all.take(20 + content.len() + m));
        lemma_closed_block(
            chunk,
            seq![],
            content,
            behind,
            m,
            s.subrange(q, q + m),
            calls,
            first,
            true,
        );
    }
}

// ---------------------------------------------------------------------------------------
// The whole stream
// ---------------------------------------------------------------------------------------
/// A chunk without text changes nothing.
proof fn lemma_empty_chunk(chunk: ChunkView, state: StateView, first: u64, g: Tags)
    requires
        plain(chunk),
        chunk_text(chunk).len() == 0,
        !(state is Done),
    ensures
        after_chunk(state, chunk, g.starts, g.ends, first) == (state, Seq::<char>::empty(), first),
        chunk_calls(state, chunk, g.starts, g.ends, first) == Seq::<ToolCallView>::empty(),
{
    reveal(after_chunk);
    reveal(chunk_calls);
    assert(chunk_text(chunk) =~= Seq::<char>::empty());
    assert(nth_id(first, 0) == first);
}

/// A chunk that leaves the start tag incomplete gives no calls.
proof fn lemma_no_calls_yet(window: Seq<char>, chunk: ChunkView, first: u64, g: Tags)
    requires
        plain(chunk),
        find_start(window + chunk_text(chunk), g.starts) is None,
    ensures
        chunk_calls(StateView::Detecting(window), chunk, g.starts, g.ends, first) == Seq::<
            ToolCallView,
        >::empty(),
{
    reveal(chunk_calls);
}

/// A text that begins a chunk list is part of all but the last chunk, unless it is the last.
proof fn lemma_first_text(chunks: Seq<ChunkView>)
    requires
        chunks.len() > 1,
    ensures
        chunks_text(chunks.drop_last()) == chunk_text(chunks[0]) + chunks_text(
            chunks.skip(1).drop_last(),
        ),
{
    assert(chunks.drop_last()[0] == chunks[0]);
    assert(chunks.drop_last().skip(1) =~= chunks.skip(1).drop_last());
}

/// The rest of a block that is being collected comes in.
#[verifier::spinoff_prover]
#[verifier::rlimit(30)]
proof fn lemma_rest_comes_in(
    content: Seq<char>,
    behind: Seq<char>,
    n: int,
    chunks: Seq<ChunkView>,
    calls: Seq<ToolCallView>,
    first: u64,
    g: Tags,
)
    requires
        usable(g),
        trim(content).len() > 0,
        no_end_before(content, behind, g),
        byte_len(block_and_rest(content, behind)) <= MAX_XML_BUF_LEN,
        !content_faults(pipes_normalized(content)),
        content_calls(pipes_normalized(content), first) == Some(calls),
        19 <= n < enough(content),
        block_and_rest(content, behind).take(n) + chunks_text(chunks) == block_and_rest(
            content,
            behind,
        ),
        forall|k: int| 0 <= k < chunks.len() ==> plain(#[trigger] chunks[k]),
        chunks.len() > 0,
        n + chunks_text(chunks.drop_last()).len() < enough(content),
    ensures
        ({
            let state = StateView::Collecting(
                block_and_rest(content, behind).take(n),
                bare_start(),
            );
            &&& run(state, chunks, g.starts, g.ends, first) == (
                StateView::Done,
                Seq::<char>::empty(),
            )
            &&& run_calls(state, chunks, g.starts, g.ends, first) == calls
        }),
    decreases chunks.len(),
{
    lemma_block_parts(content, behind);
    let all = block_and_rest(content, behind);
    let state = StateView::Collecting(all.take(n), bare_start());
    let chunk = chunks[0];
    let text = chunk_text(chunk);
    let rest = chunks_text(chunks.skip(1));
    let nothing = Seq::<char>::empty();
    assert(plain(chunks[0]));
    assert(chunks_text(chunks) == text + rest);
    assert(all.len() == n + text.len() + rest.len());
    let n2 = n + text.len();
    assert(all.take(n) + text =~= all.take(n2)) by {
        assert((all.take(n) + (text + rest)).take(n2) =~= all.take(n) + text);
    }
    assert(all.take(n2) + rest =~= all) by {
        assert(all.take(n) + (text + rest) =~= (all.take(n) + text) + rest);
    }
    if chunks.len() == 1 {
        assert(chunks.skip(1) =~= Seq::<ChunkView>::empty());
        assert(rest =~= nothing);
        assert(n2 >= enough(content));
    } else {
        lemma_first_text(chunks);
        assert(n2 < enough(content));
    }
    assert forall|k: int| 0 <= k < chunks.skip(1).len() implies plain(
        #[trigger] chunks.skip(1)[k],
    ) by {
        assert(chunks.skip(1)[k] == chunks[k + 1]);
    }
    if text.len() == 0 {
        lemma_empty_chunk(chunk, state, first, g);
        lemma_rest_comes_in(content, behind, n, chunks.skip(1), calls, first, g);
        let none = Seq::<ToolCallView>::empty();
        assert(none + run_calls(state, chunks.skip(1), g.starts, g.ends, first) =~= calls);
        assert(nothing + nothing =~= nothing);
    } else {
        lemma_collect_step(content, behind, n, chunk, calls, first, g);
        let (next, given, id) = after_chunk(state, chunk, g.starts, g.ends, first);
        let now = chunk_calls(state, chunk, g.starts, g.ends, first);
        if n2 < enough(content) {
            lemma_rest_comes_in(content, behind, n2, chunks.skip(1), calls, first, g);
            assert(now + calls =~= calls);
            assert(given + nothing =~= nothing);
        } else {
            assert(run(next, chunks.skip(1), g.starts, g.ends, id) == (next, nothing));
            let none = Seq::<ToolCallView>::empty();
            assert(run_calls(next, chunks.skip(1), g.starts, g.ends, id) == none);
            assert(now + none =~= calls);
            assert(given + nothing =~= nothing);
        }
    }
}

/// One chunk with text while a block is collected.
proof fn lemma_collect_step(
    content: Seq<char>,
    behind: Seq<char>,
    n: int,
    chunk: ChunkView,
    calls: Seq<ToolCallView>,
    first: u64,
    g: Tags,
)
    requires
        usable(g),
        trim(content).len() > 0,
        no_end_before(content, behind, g),
        byte_len(block_and_rest(content, behind)) <= MAX_XML_BUF_LEN,
        !content_faults(pipes_normalized(content)),
        content_calls(pipes_normalized(content), first) == Some(calls),
        19 <= n,
        n + chunk_text(chunk).len() <= block_and_rest(content, behind).len(),
        block_and_rest(content, behind).take(n) + chunk_text(chunk) == block_and_rest(
            content,
            behind,
        ).take(n + chunk_text(chunk).len()),
        plain(chunk),
        chunk_text(chunk).len() > 0,
    ensures
        ({
            let all = block_and_rest(content, behind);
            let n2 = n + chunk_text(chunk).len();
            let state = StateView::Collecting(all.take(n), bare_start());
            let (next, given, id) = after_chunk(state, chunk, g.starts, g.ends, first);
            let now = chunk_calls(state, chunk, g.starts, g.ends, first);
            &&& given.len() == 0
            &&& if n2 < enough(content) {
                next == StateView::Collecting(all.take(n2), bare_start()) && now.len() == 0 && id
                    == first
            } else {
                next == StateView::Done && now == calls
            }
        }),
{
    reveal(after_chunk);
    reveal(chunk_calls);
    lemma_collect_block(
        chunk,
        content,
        behind,
        n + chunk_text(chunk).len(),
        calls,
        first,
        g,
    );
    assert(nth_id(first, 0) == first);
}

/// One chunk with text that completes the start tag.
proof fn lemma_detect_step(
    window: Seq<char>,
    before: Seq<char>,
    content: Seq<char>,
    behind: Seq<char>,
    n: int,
    chunk: ChunkView,
    calls: Seq<ToolCallView>,
    first: u64,
    g: Tags,
)
    requires
        no_start_before(before, g),
        usable(g),
        trim(content).len() > 0,
        no_end_before(content, behind, g),
        !content_faults(pipes_normalized(content)),
        content_calls(pipes_normalized(content), first) == Some(calls),
        19 <= n <= block_and_rest(content, behind).len(),
        window + chunk_text(chunk) == before + block_and_rest(content, behind).take(n),
        plain(chunk),
        chunk_text(chunk).len() > 0,
    ensures
        ({
            let all = block_and_rest(content, behind);
            let state = StateView::Detecting(window);
            let (next, given, id) = after_chunk(state, chunk, g.starts, g.ends, first);
            let now = chunk_calls(state, chunk, g.starts, g.ends, first);
            &&& given == before
            &&& if n < enough(content) {
                next == StateView::Collecting(all.take(n), bare_start()) && now.len() == 0 && id
                    == first
            } else {
                next == StateView::Done && now == calls
            }
        }),
{
    reveal(after_chunk);
    reveal(chunk_calls);
    lemma_detect_block(chunk, before, content, behind, n, calls, first, g);
    assert(nth_id(first, 0) == first);
}

/// What follows while a start tag is looked for: `before` and a block behind it, of which the
/// window holds the beginning.
#[verifier::spinoff_prover]
#[verifier::rlimit(30)]
proof fn lemma_block_comes_in(
    window: Seq<char>,
    before: Seq<char>,
    content: Seq<char>,
    behind: Seq<char>,
    chunks: Seq<ChunkView>,
    calls: Seq<ToolCallView>,
    first: u64,
    g: Tags,
)
    requires
        no_start_before(before, g),
        usable(g),
        trim(content).len() > 0,
        no_end_before(content, behind, g),
        byte_len(block_and_rest(content, behind)) <= MAX_XML_BUF_LEN,
        !content_faults(pipes_normalized(content)),
        content_calls(pipes_normalized(content), first) == Some(calls),
        window.len() < before.len() + 19,
        window + chunks_text(chunks) == before + block_and_rest(content, behind),
        forall|k: int| 0 <= k < chunks.len() ==> plain(#[trigger] chunks[k]),
        chunks.len() > 0,
        window.len() + chunks_text(chunks.drop_last()).len() < before.len() + enough(content),
    ensures
        run(StateView::Detecting(window), chunks, g.starts, g.ends, first) == (
            StateView::Done,
            before,
        ),
        run_calls(StateView::Detecting(window), chunks, g.starts, g.ends, first) == calls,
    decreases chunks.len(),
{
    lemma_block_parts(content, behind);
    let all = block_and_rest(content, behind);
    let total = before + all;
    let state = StateView::Detecting(window);
    let chunk = chunks[0];
    let text = chunk_text(chunk);
    let rest = chunks_text(chunks.skip(1));
    let whole = window + text;
    let nothing = Seq::<char>::empty();
    let none = Seq::<ToolCallView>::empty();
    assert(plain(chunks[0]));
    assert(window + (text + rest) =~= whole + rest);
    assert(whole + rest == total);
    assert(whole =~= total.take(whole.len() as int));
    if chunks.len() == 1 {
        assert(chunks.skip(1) =~= Seq::<ChunkView>::empty());
        assert(rest =~= nothing);
    } else {
        lemma_first_text(chunks);
    }
    assert forall|k: int| 0 <= k < chunks.skip(1).len() implies plain(
        #[trigger] chunks.skip(1)[k],
    ) by {
        assert(chunks.skip(1)[k] == chunks[k + 1]);
    }
    if whole.len() < before.len() + 19 {
        assert(chunks.len() > 1);
        lemma_no_start_yet(before, content, behind, whole.len() as int, g);
        lemma_no_calls_yet(window, chunk, first, g);
        lemma_plain_chunk(window, chunk, g.starts, g.ends, first);
        lemma_chunk_cuts_no_tag(window, chunk, rest, g.starts, g.ends, first);
        let (next, out, id) = after_chunk(state, chunk, g.starts, g.ends, first);
        let kept = next->Detecting_0;
        lemma_start_found(before, all, g);
        lemma_first_hit_bounds(kept + rest, start_probes(known_starts() + g.starts));
        assert(out.len() <= before.len());
        let left = before.skip(out.len() as int);
        assert(kept + rest =~= left + all) by {
            assert(out + (kept + rest) =~= total);
            assert((out + (kept + rest)).skip(out.len() as int) =~= kept + rest);
            assert(total.skip(out.len() as int) =~= left + all);
        }
        assert(out =~= before.take(out.len() as int)) by {
            assert((out + (kept + rest)).take(out.len() as int) =~= out);
            assert(total.take(out.len() as int) =~= before.take(out.len() as int));
            assert(out + (kept + rest) =~= total);
        }
        lemma_no_start_before_rest(before, out.len() as int, g);
        lemma_block_comes_in(kept, left, content, behind, chunks.skip(1), calls, first, g);
        assert(out + left =~= before);
        assert(none + calls =~= calls);
    } else {
        let n = whole.len() - before.len();
        assert(whole =~= before + all.take(n));
        lemma_detect_step(window, before, content, behind, n, chunk, calls, first, g);
        let (next, given, id) = after_chunk(state, chunk, g.starts, g.ends, first);
        let now = chunk_calls(state, chunk, g.starts, g.ends, first);
        if n < enough(content) {
            assert(chunks.len() > 1);
            assert(all.take(n) + rest =~= all) by {
                assert((whole + rest).skip(before.len() as int) =~= all.take(n) + rest);
                assert(total.skip(before.len() as int) =~= all);
            }
            lemma_rest_comes_in(content, behind, n, chunks.skip(1), calls, first, g);
            assert(now + calls =~= calls);
            assert(given + nothing =~= before);
        } else {
            assert(chunks.len() == 1);
            assert(run(next, chunks.skip(1), g.starts, g.ends, id) == (next, nothing));
            assert(run_calls(next, chunks.skip(1), g.starts, g.ends, id) == none);
            assert(now + none =~= calls);
            assert(given + nothing =~= before);
        }
    }
}

/// However a block of tool calls is cut into chunks, it gives the calls that it gives as a
/// whole: the consumer gets the text before the block and then, with the chunk that completes
/// the end tag, the calls; nothing of the block itself and nothing behind it.
///
/// No other tag stands where it would be taken for one of the block's, and the block fits in
/// what is collected for one.
pub proof fn law_block_in_pieces(
    before: Seq<char>,
    content: Seq<char>,
    behind: Seq<char>,
    chunks: Seq<ChunkView>,
    calls: Seq<ToolCallView>,
    first: u64,
    g: Tags,
)
    requires
        no_start_before(before, g),
        usable(g),
        trim(content).len() > 0,
        no_end_before(content, behind, g),
        byte_len(block_and_rest(content, behind)) <= MAX_XML_BUF_LEN,
        !content_faults(pipes_normalized(content)),
        content_calls(pipes_normalized(content), first) == Some(calls),
        chunks_text(chunks) == block_text(before, content, behind),
        forall|k: int| 0 <= k < chunks.len() ==> plain(#[trigger] chunks[k]),
        chunks.len() > 0,
        chunks_text(chunks.drop_last()).len() < before.len() + enough(content),
    ensures
        run(StateView::Detecting(seq![]), chunks, g.starts, g.ends, first) == (
            StateView::Done,
            before,
        ),
        run_calls(StateView::Detecting(seq![]), chunks, g.starts, g.ends, first) == calls,
{
    let nothing = Seq::<char>::empty();
    assert(nothing + chunks_text(chunks) =~= before + block_and_rest(content, behind));
    lemma_block_comes_in(nothing, before, content, behind, chunks, calls, first, g);
}

} // verus!
