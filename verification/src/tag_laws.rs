//! What holds of tags and of where they are found.
use crate::search::find;
use crate::search::lemma_find;
use crate::search::lemma_trim_end_char;
use crate::search::lemma_trim_end_char_fixed;
use crate::search::occurs_at;
use crate::search::trim_end_char;
use crate::tags::can_be_closed;
use crate::tags::closing_probes;
use crate::tags::end_probe;
use crate::tags::end_tag_probes;
use crate::tags::ends_in_force;
use crate::tags::find_end;
use crate::tags::find_start;
use crate::tags::first_hit;
use crate::tags::hit;
use crate::tags::known_starts;
use crate::tags::lemma_first_hit_append;
use crate::tags::lemma_hit_bounds;
use crate::tags::loose_find;
use crate::tags::normalized;
use crate::tags::opens_section;
use crate::tags::start_probe;
use crate::tags::start_probes;
use crate::tags::starts_in_force;
use crate::tags::tag_char;
use crate::tags::NEW_TOOL_CALL_SENTINEL;
use crate::tags::NEW_TOOL_CALL_START;
use crate::tags::PIPE_TOOL_CALLS_START;
use crate::tags::SECTION_END;
use crate::tags::SECTION_START;
use crate::tags::TOOL_CALL_END;
use crate::tags::TOOL_CALL_START;
use crate::tool_parser::fenced;
use crate::tool_parser::locate;
use vstd::prelude::*;

verus! {

/// What stands in place of a variant is no variant itself.
pub proof fn law_tag_char_idempotent(c: char)
    ensures
        tag_char(tag_char(c)) == tag_char(c),
{
}

/// Replacing variants twice is replacing them once.
pub proof fn law_normalized_idempotent(s: Seq<char>)
    ensures
        normalized(normalized(s)) == normalized(s),
{
    assert(normalized(normalized(s)) =~= normalized(s));
}

// ---------------------------------------------------------------------------------------
// Variants do not matter
// ---------------------------------------------------------------------------------------
/// Where a text stands as it is written, it stands up to variants too.
proof fn lemma_exact_is_loose(s: Seq<char>, p: Seq<char>)
    requires
        p.len() > 0,
        find(s, p) is Some,
    ensures
        loose_find(s, p) is Some,
{
    lemma_find(s, p);
    lemma_find(normalized(s), normalized(p));
    let i = find(s, p)->0;
    assert(normalized(s).subrange(i, i + p.len()) =~= normalized(s.subrange(i, i + p.len())));
    assert(occurs_at(normalized(s), normalized(p), i));
}

proof fn lemma_start_hit_by_variants(s: Seq<char>, t: Seq<char>, tag: Seq<char>)
    requires
        normalized(s) == normalized(t),
    ensures
        hit(s, start_probe(tag)) is Some == hit(t, start_probe(tag)) is Some,
{
    let p = trim_end_char(tag, '>');
    if p.len() == 0 {
        lemma_find(s, p);
        lemma_find(t, p);
        assert(s.subrange(0, 0) =~= p);
        assert(t.subrange(0, 0) =~= p);
        assert(occurs_at(s, p, 0));
        assert(occurs_at(t, p, 0));
    } else {
        if find(s, p) is Some {
            lemma_exact_is_loose(s, p);
        }
        if find(t, p) is Some {
            lemma_exact_is_loose(t, p);
        }
    }
}

proof fn lemma_first_hit_by_variants(s: Seq<char>, t: Seq<char>, tags: Seq<Seq<char>>)
    requires
        normalized(s) == normalized(t),
    ensures
        first_hit(s, start_probes(tags)) is Some == first_hit(t, start_probes(tags)) is Some,
    decreases tags.len(),
{
    if tags.len() > 0 {
        lemma_start_hit_by_variants(s, t, tags[0]);
        lemma_first_hit_by_variants(s, t, tags.skip(1));
        assert(start_probes(tags).skip(1) =~= start_probes(tags.skip(1)));
    }
}

/// Two texts that differ only in variants of tag characters both hold a start tag, or neither
/// does.
pub proof fn law_start_found_up_to_variants(s: Seq<char>, t: Seq<char>, starts: Seq<Seq<char>>)
    requires
        normalized(s) == normalized(t),
    ensures
        find_start(s, starts) is Some == find_start(t, starts) is Some,
{
    lemma_first_hit_by_variants(s, t, known_starts() + starts);
}

// ---------------------------------------------------------------------------------------
// What is found can be closed
// ---------------------------------------------------------------------------------------
/// A start tag, without its closing angle brackets, begins with `<`.
pub open spec fn opens_with_bracket(tag: Seq<char>) -> bool {
    trim_end_char(tag, '>').len() > 0 && trim_end_char(tag, '>')[0] == '<'
}

/// The text that a start tag's probe hits can be closed.
proof fn lemma_hit_can_be_closed(s: Seq<char>, tag: Seq<char>)
    requires
        opens_with_bracket(tag),
    ensures
        hit(s, start_probe(tag)) matches Some((i, n)) ==> can_be_closed(s.subrange(i, i + n)),
{
    let p = trim_end_char(tag, '>');
    lemma_trim_end_char(tag, '>');
    lemma_find(s, p);
    lemma_find(normalized(s), normalized(p));
    lemma_hit_bounds(s, start_probe(tag));
    if let Some((i, n)) = hit(s, start_probe(tag)) {
        let t = s.subrange(i, i + n);
        assert(n == p.len());
        assert(normalized(t) =~= normalized(p)) by {
            if find(s, p) is None {
                assert(normalized(s).subrange(i, i + n) =~= normalized(t));
            }
        }
        assert(normalized(t)[0] == tag_char(t[0]));
        assert(normalized(p)[0] == tag_char(p[0]));
        assert(normalized(t)[n - 1] == tag_char(t[n - 1]));
        assert(normalized(p)[n - 1] == tag_char(p[n - 1]));
        assert(p.last() != '>');
        assert(t.last() != '>');
        lemma_trim_end_char_fixed(t, '>');
    }
}

proof fn lemma_first_hit_can_be_closed(s: Seq<char>, tags: Seq<Seq<char>>)
    requires
        forall|k: int| 0 <= k < tags.len() ==> opens_with_bracket(#[trigger] tags[k]),
    ensures
        first_hit(s, start_probes(tags)) matches Some((i, n)) ==> can_be_closed(
            s.subrange(i, i + n),
        ),
    decreases tags.len(),
{
    if tags.len() > 0 {
        lemma_hit_can_be_closed(s, tags[0]);
        assert(start_probes(tags).skip(1) =~= start_probes(tags.skip(1)));
        assert forall|k: int| 0 <= k < tags.skip(1).len() implies opens_with_bracket(
            #[trigger] tags.skip(1)[k],
        ) by {
            assert(tags.skip(1)[k] == tags[k + 1]);
        }
        lemma_first_hit_can_be_closed(s, tags.skip(1));
    }
}

/// The known start tags begin with `<`.
pub proof fn lemma_known_open_with_bracket()
    ensures
        forall|k: int|
            0 <= k < known_starts().len() ==> opens_with_bracket(#[trigger] known_starts()[k]),
{
    reveal_strlit("<|tool_calls_begin|>");
    reveal_strlit("<|tool_calls_start|>");
    reveal_strlit("<|tool_calls_sentinel|>");
    reveal_strlit("<|tool_calls|>");
    reveal_strlit("<|tool_calls_section_begin|>");
    reveal_with_fuel(trim_end_char, 2);
    assert(opens_with_bracket(TOOL_CALL_START@));
    assert(opens_with_bracket(NEW_TOOL_CALL_START@));
    assert(opens_with_bracket(NEW_TOOL_CALL_SENTINEL@));
    assert(opens_with_bracket(PIPE_TOOL_CALLS_START@));
    assert(opens_with_bracket(SECTION_START@));
}

/// Where all additional start tags begin with `<`, a closing tag can be made from every start
/// tag that is found: looking for a block never ends in a fault.
pub proof fn law_bracketed_tags_never_fault(
    xml: Seq<char>,
    starts: Seq<Seq<char>>,
    ends: Seq<Seq<char>>,
)
    requires
        forall|k: int| 0 <= k < starts.len() ==> opens_with_bracket(#[trigger] starts[k]),
    ensures
        !(locate(xml, starts, ends) is Fault),
        find_start(xml, starts) matches Some((p, n)) ==> can_be_closed(xml.subrange(p, p + n)),
{
    lemma_known_open_with_bracket();
    let tags = known_starts() + starts;
    assert forall|k: int| 0 <= k < tags.len() implies opens_with_bracket(#[trigger] tags[k]) by {
        if k < known_starts().len() {
            assert(tags[k] == known_starts()[k]);
        } else {
            assert(tags[k] == starts[k - known_starts().len()]);
        }
    }
    lemma_first_hit_can_be_closed(xml, tags);
}

// ---------------------------------------------------------------------------------------
// What closes a block
// ---------------------------------------------------------------------------------------
/// A closing tag that lacks its first bar, `</tag|>`, closes `<|tag|>`, whose text is found
/// without the closing angle bracket.
pub proof fn law_half_piped_closing_tag(name: Seq<char>)
    requires
        name.len() > 0,
        name.last() != '|',
    ensures
        closing_probes(Some("<|"@ + name + "|"@)).contains(end_probe("</"@ + name + "|>"@)),
{
    reveal_strlit("<|");
    reveal_strlit("|");
    let tag = "<|"@ + name + "|"@;
    assert(tag.last() == '|');
    lemma_trim_end_char_fixed(tag, '>');
    let inner = tag.skip(2);
    assert(inner =~= name.push('|'));
    assert(inner.drop_last() =~= name);
    reveal_with_fuel(trim_end_char, 2);
    assert(trim_end_char(inner, '|') == name);
    assert("<|"@.is_prefix_of(tag)) by {
        assert(tag.take(2) =~= "<|"@);
    }
    assert(closing_probes(Some(tag))[1] == end_probe("</"@ + name + "|>"@));
}

/// A section is closed by its own end tag wherever that stands, and by the end tag of an inner
/// block only where its own is missing; a closing tag of its start tag comes before both.
pub proof fn law_section_closed_by_its_own_end(
    s: Seq<char>,
    starts: Seq<Seq<char>>,
    ends: Seq<Seq<char>>,
    tag: Seq<char>,
)
    requires
        opens_section(tag),
        first_hit(s, closing_probes(Some(tag))) is None,
    ensures
        match hit(s, end_probe(SECTION_END@)) {
            Some(h) => find_end(s, 0, starts, ends, Some(tag)) == Some(h),
            None => hit(s, end_probe(TOOL_CALL_END@)) matches Some(h) ==> find_end(
                s,
                0,
                starts,
                ends,
                Some(tag),
            ) == Some(h),
        },
{
    let a = closing_probes(Some(tag));
    let b = end_tag_probes(ends_in_force(Some(tag), ends));
    let c = start_probes(starts_in_force(Some(tag), starts));
    assert(s.skip(0) =~= s);
    lemma_first_hit_append(s, a + b, c);
    lemma_first_hit_append(s, a, b);
    assert(b =~= seq![end_probe(SECTION_END@), end_probe(TOOL_CALL_END@)]);
    assert(b.skip(1)[0] == b[1]);
    reveal_with_fuel(first_hit, 3);
}

// ---------------------------------------------------------------------------------------
// Where there is no block
// ---------------------------------------------------------------------------------------
/// A text without a start tag has no block, and neither has one whose start tag lies inside a
/// code fence.
pub proof fn law_no_block(xml: Seq<char>, starts: Seq<Seq<char>>, ends: Seq<Seq<char>>)
    ensures
        locate(xml, starts, ends) is Absent <==> (match find_start(xml, starts) {
            Some((p, _)) => fenced(xml.take(p)),
            None => true,
        }),
{
}

} // verus!
