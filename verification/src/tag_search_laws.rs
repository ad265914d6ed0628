//! Which tags are looked for, in which order, in which spellings, and where they are found.
use crate::search::lemma_find;
use crate::search::lemma_trim_end_char;
use crate::search::lemma_trim_end_char_fixed;
use crate::search::occurs_at;
use crate::search::trim_end_char;
use crate::search_laws::law_character_trimmed;
use crate::tags::can_be_closed;
use crate::tags::closing_probes;
use crate::tags::closing_tag;
use crate::tags::end_probes;
use crate::tags::end_tag_probes;
use crate::tags::ends_in_force;
use crate::tags::find_end;
use crate::tags::find_one_start;
use crate::tags::find_start;
use crate::tags::first_hit;
use crate::tags::half_piped_closing_tag;
use crate::tags::hit;
use crate::tags::is_hit;
use crate::tags::known_starts;
use crate::tags::lemma_first_hit_bounds;
use crate::tags::loose_find;
use crate::tags::normalized;
use crate::tags::one_begins_other;
use crate::tags::opens_section;
use crate::tags::resembles_start;
use crate::tags::start_probe;
use crate::tags::start_probes;
use crate::tags::starts_in_force;
use crate::tags::tag_char;
use crate::tags::Probe;
use crate::text::byte_len;
use vstd::prelude::*;

verus! {

// ---------------------------------------------------------------------------------------
// Spellings
// ---------------------------------------------------------------------------------------
/// A bar: the plain one or the full-width one.
pub open spec fn is_bar(c: char) -> bool {
    c == '|' || c == '\u{FF5C}'
}

/// An underscore, or one of the eight lower blocks that stand for it.
pub open spec fn is_underscore(c: char) -> bool {
    c == '_' || '\u{2581}' <= c <= '\u{2588}'
}

/// Two characters mean the same in a tag.
pub open spec fn same_in_tag(c: char, d: char) -> bool {
    c == d || is_bar(c) && is_bar(d) || is_underscore(c) && is_underscore(d)
}

/// Two texts are spellings of the same tag.
pub open spec fn same_tag(a: Seq<char>, b: Seq<char>) -> bool {
    a.len() == b.len() && forall|i: int|
        0 <= i < a.len() ==> same_in_tag(#[trigger] a[i], b[i])
}

/// Bars mean the same in tags, and so do underscores and the blocks that stand for them; every
/// other character means itself.
pub proof fn law_spellings(c: char, d: char)
    ensures
        tag_char(c) == tag_char(d) <==> same_in_tag(c, d),
{
}

proof fn lemma_same_tag(a: Seq<char>, b: Seq<char>)
    ensures
        normalized(a) == normalized(b) <==> same_tag(a, b),
{
    if normalized(a) == normalized(b) {
        assert(normalized(a).len() == a.len() && normalized(b).len() == b.len());
        assert forall|i: int| 0 <= i < a.len() implies same_in_tag(#[trigger] a[i], b[i]) by {
            assert(normalized(a)[i] == tag_char(a[i]));
            assert(normalized(b)[i] == tag_char(b[i]));
            law_spellings(a[i], b[i]);
        }
    }
    if same_tag(a, b) {
        assert forall|i: int| 0 <= i < a.len() implies tag_char(#[trigger] a[i]) == tag_char(
            b[i],
        ) by {
            law_spellings(a[i], b[i]);
        }
        assert(normalized(a) =~= normalized(b));
    }
}

// ---------------------------------------------------------------------------------------
// One thing to look for
// ---------------------------------------------------------------------------------------
/// `p` stands in `s` at `i` as it is written.
pub open spec fn stands(s: Seq<char>, p: Seq<char>, i: int) -> bool {
    0 <= i && i + p.len() <= s.len() && s.subrange(i, i + p.len()) == p
}

/// `p` stands in `s` at `i` in some spelling.
pub open spec fn stands_in_a_spelling(s: Seq<char>, p: Seq<char>, i: int) -> bool {
    0 <= i && i + p.len() <= s.len() && same_tag(s.subrange(i, i + p.len()), p)
}

/// What is looked for: a text as it is written and, where that stands nowhere, another in any
/// spelling, which is not empty.
pub struct Sought {
    pub written: Seq<char>,
    pub spelt: Seq<char>,
}

/// What is looked for is found in `s` at `i`, and takes up `n` characters: it is the first of
/// its kind.
pub open spec fn found_at(s: Seq<char>, p: Sought, i: int, n: int) -> bool {
    ||| stands(s, p.written, i) && n == p.written.len() && forall|j: int|
        0 <= j < i ==> !#[trigger] stands(s, p.written, j)
    ||| p.spelt.len() > 0 && stands_in_a_spelling(s, p.spelt, i) && n == p.spelt.len() && (forall|
        j: int,
    |
        !#[trigger] stands(s, p.written, j)) && forall|j: int|
        0 <= j < i ==> !#[trigger] stands_in_a_spelling(s, p.spelt, j)
}

/// What is looked for stands nowhere in `s`.
pub open spec fn found_nowhere(s: Seq<char>, p: Sought) -> bool {
    (forall|j: int| !#[trigger] stands(s, p.written, j)) && (p.spelt.len() > 0 ==> forall|j: int|
        !#[trigger] stands_in_a_spelling(s, p.spelt, j))
}

spec fn probe_of(p: Sought) -> Probe {
    Probe { exact: p.written, loose: p.spelt }
}

proof fn lemma_stands(s: Seq<char>, p: Seq<char>, i: int)
    ensures
        occurs_at(s, p, i) == stands(s, p, i),
        occurs_at(normalized(s), normalized(p), i) == stands_in_a_spelling(s, p, i),
{
    if 0 <= i && i + p.len() <= s.len() {
        lemma_same_tag(s.subrange(i, i + p.len()), p);
        assert(normalized(s).subrange(i, i + p.len()) =~= normalized(s.subrange(i, i + p.len())));
    }
}

proof fn lemma_hit_is(s: Seq<char>, p: Sought)
    ensures
        hit(s, probe_of(p)) matches Some((i, n)) ==> found_at(s, p, i, n),
        hit(s, probe_of(p)) is None ==> found_nowhere(s, p),
{
    lemma_find(s, p.written);
    lemma_find(normalized(s), normalized(p.spelt));
    assert forall|j: int| #[trigger] stands(s, p.written, j) == occurs_at(s, p.written, j) by {
        lemma_stands(s, p.written, j);
    }
    assert forall|j: int| #[trigger]
        stands_in_a_spelling(s, p.spelt, j) == occurs_at(
            normalized(s),
            normalized(p.spelt),
            j,
        ) by {
        lemma_stands(s, p.spelt, j);
    }
}

/// A thing is found in one place only.
proof fn lemma_found_once(s: Seq<char>, p: Sought, i: int, n: int, j: int, m: int)
    requires
        found_at(s, p, i, n),
        found_at(s, p, j, m),
    ensures
        i == j,
        n == m,
{
}

/// Of several things, the first that is found anywhere counts, wherever it stands.
pub open spec fn first_found(s: Seq<char>, list: Seq<Sought>, i: int, n: int) -> bool {
    exists|k: int|
        0 <= k < list.len() && found_at(s, #[trigger] list[k], i, n) && forall|j: int|
            0 <= j < k ==> found_nowhere(s, #[trigger] list[j])
}

spec fn probes_of(list: Seq<Sought>) -> Seq<Probe> {
    list.map_values(|p: Sought| probe_of(p))
}

proof fn lemma_first_hit_is(s: Seq<char>, list: Seq<Sought>)
    ensures
        first_hit(s, probes_of(list)) matches Some((i, n)) ==> first_found(s, list, i, n),
        first_hit(s, probes_of(list)) is None ==> forall|k: int|
            0 <= k < list.len() ==> found_nowhere(s, #[trigger] list[k]),
    decreases list.len(),
{
    if list.len() > 0 {
        let rest = list.skip(1);
        lemma_hit_is(s, list[0]);
        lemma_first_hit_is(s, rest);
        assert(probes_of(list).skip(1) =~= probes_of(rest));
        match hit(s, probe_of(list[0])) {
            Some((i, n)) => {
                assert(found_at(s, list[0], i, n));
            },
            None => {
                match first_hit(s, probes_of(rest)) {
                    Some((i, n)) => {
                        let k = choose|k: int|
                            0 <= k < rest.len() && found_at(s, #[trigger] rest[k], i, n) && forall|
                                j: int,
                            |
                                0 <= j < k ==> found_nowhere(s, #[trigger] rest[j]);
                        assert(list[k + 1] == rest[k]);
                        assert forall|j: int| 0 <= j < k + 1 implies found_nowhere(
                            s,
                            #[trigger] list[j],
                        ) by {
                            if j > 0 {
                                assert(rest[j - 1] == list[j]);
                            }
                        }
                    },
                    None => {
                        assert forall|k: int| 0 <= k < list.len() implies found_nowhere(
                            s,
                            #[trigger] list[k],
                        ) by {
                            if k > 0 {
                                assert(rest[k - 1] == list[k]);
                            }
                        }
                    },
                }
            },
        }
    }
}

// ---------------------------------------------------------------------------------------
// Start tags
// ---------------------------------------------------------------------------------------
/// A start tag is looked for without the angle brackets that it ends with.
pub open spec fn sought_start(tag: Seq<char>) -> Sought {
    Sought { written: trim_end_char(tag, '>'), spelt: trim_end_char(tag, '>') }
}

/// The start tags that are looked for, in their order: five that are known, and then those of
/// the deployment.
pub open spec fn sought_starts(starts: Seq<Seq<char>>) -> Seq<Sought> {
    seq![
        Sought { written: "<|tool_calls_begin|"@, spelt: "<|tool_calls_begin|"@ },
        Sought { written: "<|tool_calls_start|"@, spelt: "<|tool_calls_start|"@ },
        Sought { written: "<|tool_calls_sentinel|"@, spelt: "<|tool_calls_sentinel|"@ },
        Sought { written: "<|tool_calls|"@, spelt: "<|tool_calls|"@ },
        Sought { written: "<|tool_calls_section_begin|"@, spelt: "<|tool_calls_section_begin|"@ },
    ] + starts.map_values(|t: Seq<char>| sought_start(t))
}

proof fn lemma_known_bare()
    ensures
        trim_end_char("<|tool_calls_begin|>"@, '>') == "<|tool_calls_begin|"@,
        trim_end_char("<|tool_calls_start|>"@, '>') == "<|tool_calls_start|"@,
        trim_end_char("<|tool_calls_sentinel|>"@, '>') == "<|tool_calls_sentinel|"@,
        trim_end_char("<|tool_calls|>"@, '>') == "<|tool_calls|"@,
        trim_end_char("<|tool_calls_section_begin|>"@, '>') == "<|tool_calls_section_begin|"@,
        trim_end_char("<|tool_calls_end|>"@, '>') == "<|tool_calls_end|"@,
        trim_end_char("<|tool_calls_section_end|>"@, '>') == "<|tool_calls_section_end|"@,
{
    reveal_strlit("<|tool_calls_begin|>");
    reveal_strlit("<|tool_calls_start|>");
    reveal_strlit("<|tool_calls_sentinel|>");
    reveal_strlit("<|tool_calls|>");
    reveal_strlit("<|tool_calls_section_begin|>");
    reveal_strlit("<|tool_calls_end|>");
    reveal_strlit("<|tool_calls_section_end|>");
    reveal_strlit("<|tool_calls_begin|");
    reveal_strlit("<|tool_calls_start|");
    reveal_strlit("<|tool_calls_sentinel|");
    reveal_strlit("<|tool_calls|");
    reveal_strlit("<|tool_calls_section_begin|");
    reveal_strlit("<|tool_calls_end|");
    reveal_strlit("<|tool_calls_section_end|");
    lemma_bare("<|tool_calls_begin|>"@, "<|tool_calls_begin|"@);
    lemma_bare("<|tool_calls_start|>"@, "<|tool_calls_start|"@);
    lemma_bare("<|tool_calls_sentinel|>"@, "<|tool_calls_sentinel|"@);
    lemma_bare("<|tool_calls|>"@, "<|tool_calls|"@);
    lemma_bare("<|tool_calls_section_begin|>"@, "<|tool_calls_section_begin|"@);
    lemma_bare("<|tool_calls_end|>"@, "<|tool_calls_end|"@);
    lemma_bare("<|tool_calls_section_end|>"@, "<|tool_calls_section_end|"@);
}

proof fn lemma_bare(tag: Seq<char>, bare: Seq<char>)
    requires
        tag.len() == bare.len() + 1,
        tag.last() == '>',
        bare.len() > 0,
        bare.last() != '>',
        forall|i: int| 0 <= i < bare.len() ==> tag[i] == bare[i],
    ensures
        trim_end_char(tag, '>') == bare,
{
    assert(tag.drop_last() =~= bare);
    lemma_trim_end_char_fixed(bare, '>');
}

proof fn lemma_sought_starts(starts: Seq<Seq<char>>)
    ensures
        start_probes(known_starts() + starts) == probes_of(sought_starts(starts)),
{
    lemma_known_bare();
    let list = sought_starts(starts);
    let all = known_starts() + starts;
    assert forall|k: int| 0 <= k < all.len() implies start_probes(all)[k] == probes_of(list)[k] by {
        if k < 5 {
            assert(all[k] == known_starts()[k]);
        } else {
            assert(all[k] == starts[k - 5]);
            assert(list[k] == sought_start(starts[k - 5]));
        }
    }
    assert(start_probes(all) =~= probes_of(list));
}

/// A block begins at the first of the start tags that stands in the text, and none begins only
/// where none of them does. The order of the tags counts, not that of their places.
pub proof fn law_start_tags_sought(s: Seq<char>, starts: Seq<Seq<char>>)
    ensures
        find_start(s, starts) matches Some((i, n)) ==> first_found(s, sought_starts(starts), i, n),
        find_start(s, starts) is None ==> forall|k: int|
            0 <= k < sought_starts(starts).len() ==> found_nowhere(
                s,
                #[trigger] sought_starts(starts)[k],
            ),
{
    lemma_sought_starts(starts);
    lemma_first_hit_is(s, sought_starts(starts));
}

/// One start tag is found where it first stands, as it is written or, where it stands nowhere so,
/// in another spelling.
pub proof fn law_one_start_sought(s: Seq<char>, tag: Seq<char>)
    ensures
        find_one_start(s, tag) matches Some((i, n)) ==> found_at(s, sought_start(tag), i, n),
        find_one_start(s, tag) is None ==> found_nowhere(s, sought_start(tag)),
{
    lemma_hit_is(s, sought_start(tag));
}

/// A text is found in any spelling where it first stands in one; an empty text is not found.
pub proof fn law_spelling_sought(s: Seq<char>, p: Seq<char>)
    ensures
        loose_find(s, p) matches Some(i) ==> p.len() > 0 && stands_in_a_spelling(s, p, i) && forall|
            j: int,
        |
            0 <= j < i ==> !#[trigger] stands_in_a_spelling(s, p, j),
        loose_find(s, p) is None ==> p.len() == 0 || forall|j: int|
            !#[trigger] stands_in_a_spelling(s, p, j),
{
    lemma_find(normalized(s), normalized(p));
    assert forall|j: int| #[trigger]
        stands_in_a_spelling(s, p, j) == occurs_at(normalized(s), normalized(p), j) by {
        lemma_stands(s, p, j);
    }
}

/// A start tag in any spelling is found behind a text without `<` when no other stands in what
/// follows: it begins there and takes up its own length.
pub proof fn law_start_tag_found_in_any_spelling(
    before: Seq<char>,
    tag: Seq<char>,
    rest: Seq<char>,
    starts: Seq<Seq<char>>,
    k: int,
)
    requires
        0 <= k < sought_starts(starts).len(),
        same_tag(tag, sought_starts(starts)[k].spelt),
        tag.len() > 0,
        tag[0] == '<',
        !before.contains('<'),
        forall|j: int|
            0 <= j < k ==> found_nowhere(before + tag + rest, #[trigger] sought_starts(starts)[j]),
        !(tag == sought_starts(starts)[k].written) ==> forall|j: int|
            !#[trigger] stands(before + tag + rest, sought_starts(starts)[k].written, j),
    ensures
        find_start(before + tag + rest, starts) == Some((before.len() as int, tag.len() as int)),
{
    let s = before + tag + rest;
    let list = sought_starts(starts);
    let p = list[k];
    lemma_sought_starts(starts);
    assert(p.written == p.spelt) by {
        if k >= 5 {
            assert(p == sought_start(starts[k - 5]));
        }
    }
    let b = before.len() as int;
    assert(s.subrange(b, b + tag.len()) =~= tag);
    assert(stands_in_a_spelling(s, p.spelt, b));
    assert(p.spelt[0] == '<') by {
        assert(same_in_tag(tag[0], p.spelt[0]));
    }
    assert forall|j: int| 0 <= j < b implies !#[trigger] stands_in_a_spelling(s, p.spelt, j)
        && !stands(s, p.written, j) by {
        assert(s[j] == before[j]);
        if stands_in_a_spelling(s, p.spelt, j) {
            let there = s.subrange(j, j + p.spelt.len());
            assert(same_in_tag(there[0], p.spelt[0]));
            assert(there[0] == s[j]);
            assert(before.contains('<'));
        }
        if stands(s, p.written, j) {
            assert(s.subrange(j, j + p.written.len())[0] == s[j]);
            assert(before.contains('<'));
        }
    }
    assert(found_at(s, p, b, tag.len() as int)) by {
        if tag == p.written {
            assert(stands(s, p.written, b));
            assert forall|j: int| 0 <= j < b implies !#[trigger] stands(s, p.written, j) by {
                assert(!stands_in_a_spelling(s, p.spelt, j) && !stands(s, p.written, j));
            }
        }
    }
    lemma_first_found_once(s, list, k, b, tag.len() as int);
}

proof fn lemma_first_found_once(s: Seq<char>, list: Seq<Sought>, k: int, i: int, n: int)
    requires
        0 <= k < list.len(),
        found_at(s, list[k], i, n),
        forall|j: int| 0 <= j < k ==> found_nowhere(s, #[trigger] list[j]),
    ensures
        first_hit(s, probes_of(list)) == Some((i, n)),
{
    lemma_first_hit_is(s, list);
    lemma_found_somewhere(s, list[k], i, n);
    assert(first_hit(s, probes_of(list)) is Some) by {
        if first_hit(s, probes_of(list)) is None {
            assert(found_nowhere(s, list[k]));
        }
    }
    let (a, m) = first_hit(s, probes_of(list))->0;
    let l = choose|l: int|
        0 <= l < list.len() && found_at(s, #[trigger] list[l], a, m) && forall|j: int|
            0 <= j < l ==> found_nowhere(s, #[trigger] list[j]);
    lemma_found_somewhere(s, list[l], a, m);
    if l < k {
        assert(found_nowhere(s, list[l]));
    } else if k < l {
        assert(found_nowhere(s, list[k]));
    }
    lemma_found_once(s, list[k], i, n, a, m);
}

proof fn lemma_found_somewhere(s: Seq<char>, p: Sought, i: int, n: int)
    requires
        found_at(s, p, i, n),
    ensures
        !found_nowhere(s, p),
{
}

// ---------------------------------------------------------------------------------------
// What ends a block
// ---------------------------------------------------------------------------------------
/// An end tag is looked for as it is written and, in other spellings, without the angle brackets
/// that it ends with.
pub open spec fn sought_end(tag: Seq<char>) -> Sought {
    Sought { written: tag, spelt: trim_end_char(tag, '>') }
}

/// The closing tags of a start tag: with a slash behind its first character; and, where it
/// begins with `<|`, with a slash in the place of the first bar.
pub open spec fn sought_closings(tag: Seq<char>) -> Seq<Sought> {
    let open = trim_end_char(tag, '>');
    let slashed = Sought {
        written: "</"@ + open.skip(1) + ">"@,
        spelt: "</"@ + open.skip(1),
    };
    if open.len() >= 2 && open[0] == '<' && open[1] == '|' {
        let name = trim_end_char(open.skip(2), '|');
        seq![slashed, Sought { written: "</"@ + name + "|>"@, spelt: "</"@ + name + "|"@ }]
    } else {
        seq![slashed]
    }
}

/// A tag that opens a section.
pub open spec fn is_section(tag: Seq<char>) -> bool {
    "<|tool_calls_section_begin|"@.is_prefix_of(tag) || "<|tool_calls|"@.is_prefix_of(tag)
}

/// The end tags of a block: for a section its own before that of a list, and otherwise the other
/// way round, with those of the deployment behind them.
pub open spec fn sought_ends(tag: Seq<char>, ends: Seq<Seq<char>>) -> Seq<Sought> {
    let list = Sought { written: "<|tool_calls_end|>"@, spelt: "<|tool_calls_end|"@ };
    let section = Sought {
        written: "<|tool_calls_section_end|>"@,
        spelt: "<|tool_calls_section_end|"@,
    };
    if is_section(tag) {
        seq![section, list]
    } else {
        seq![list, section] + ends.map_values(|t: Seq<char>| sought_end(t))
    }
}

/// All that ends a block, in its order: a closing tag of its start tag, an end tag, its start
/// tag again, and any other start tag.
pub open spec fn sought_behind(
    tag: Seq<char>,
    starts: Seq<Seq<char>>,
    ends: Seq<Seq<char>>,
) -> Seq<Sought> {
    sought_closings(tag) + sought_ends(tag, ends) + (seq![sought_start(tag)] + sought_starts(
        starts,
    ))
}

proof fn lemma_sought_closings(tag: Seq<char>)
    requires
        can_be_closed(tag),
    ensures
        closing_probes(Some(tag)) == probes_of(sought_closings(tag)),
{
    reveal_strlit("</");
    reveal_strlit(">");
    reveal_strlit("|>");
    reveal_strlit("|");
    reveal_strlit("<|");
    let open = trim_end_char(tag, '>');
    lemma_trim_end_char(tag, '>');
    let a = "</"@ + open.skip(1);
    let whole = a + ">"@;
    assert(whole.drop_last() =~= a);
    assert(a.last() != '>') by {
        if open.len() > 1 {
            assert(a.last() == open.last());
        } else {
            assert(a.last() == '/');
        }
    }
    lemma_trim_end_char_fixed(a, '>');
    assert(trim_end_char(closing_tag(tag), '>') == a);
    let name = trim_end_char(open.skip(2), '|');
    let b = "</"@ + name + "|"@;
    let half = "</"@ + name + "|>"@;
    assert(half.drop_last() =~= b);
    assert(b.last() == '|');
    lemma_trim_end_char_fixed(b, '>');
    assert(trim_end_char(half_piped_closing_tag(tag), '>') == b);
    assert("<|"@.is_prefix_of(open) <==> open.len() >= 2 && open[0] == '<' && open[1] == '|') by {
        if open.len() >= 2 && open[0] == '<' && open[1] == '|' {
            assert(open.take(2) =~= "<|"@);
            assert(open.subrange(0, 2) =~= "<|"@);
        }
        if "<|"@.is_prefix_of(open) {
            assert(open.subrange(0, 2)[0] == open[0]);
            assert(open.subrange(0, 2)[1] == open[1]);
        }
    }
    assert(closing_probes(Some(tag)) =~= probes_of(sought_closings(tag)));
}

proof fn lemma_sought_behind(tag: Seq<char>, starts: Seq<Seq<char>>, ends: Seq<Seq<char>>)
    requires
        can_be_closed(tag),
    ensures
        end_probes(starts, ends, Some(tag)) == probes_of(sought_behind(tag, starts, ends)),
{
    lemma_known_bare();
    lemma_sought_closings(tag);
    lemma_sought_starts(starts);
    assert(opens_section(tag) == is_section(tag));
    let a = end_tag_probes(ends_in_force(Some(tag), ends));
    let b = probes_of(sought_ends(tag, ends));
    assert(a =~= b) by {
        if !is_section(tag) {
            assert forall|k: int| 0 <= k < a.len() implies a[k] == b[k] by {
                if k >= 2 {
                    assert(sought_ends(tag, ends)[k] == sought_end(ends[k - 2]));
                }
            }
        }
    }
    let c = start_probes(starts_in_force(Some(tag), starts));
    let d = probes_of(seq![sought_start(tag)] + sought_starts(starts));
    assert(c =~= d) by {
        assert(c =~= seq![start_probe(tag)] + start_probes(known_starts() + starts));
        assert(d =~= seq![probe_of(sought_start(tag))] + probes_of(sought_starts(starts)));
    }
    assert(probes_of(sought_behind(tag, starts, ends)) =~= probes_of(sought_closings(tag)) + b + d);
}

/// A block ends at the first of the things that end it that stands behind its start tag: the
/// order of the things counts, not that of their places. Where none of them stands there, it
/// does not end.
pub proof fn law_ends_sought(
    s: Seq<char>,
    from: int,
    starts: Seq<Seq<char>>,
    ends: Seq<Seq<char>>,
    tag: Seq<char>,
)
    requires
        can_be_closed(tag),
        0 <= from <= s.len(),
    ensures
        find_end(s, from, starts, ends, Some(tag)) matches Some((q, n)) ==> from <= q && q + n
            <= s.len() && first_found(s.skip(from), sought_behind(tag, starts, ends), q - from, n),
        find_end(s, from, starts, ends, Some(tag)) is None ==> forall|k: int|
            0 <= k < sought_behind(tag, starts, ends).len() ==> found_nowhere(
                s.skip(from),
                #[trigger] sought_behind(tag, starts, ends)[k],
            ),
{
    lemma_sought_behind(tag, starts, ends);
    lemma_first_hit_is(s.skip(from), sought_behind(tag, starts, ends));
    lemma_first_hit_bounds(s.skip(from), end_probes(starts, ends, Some(tag)));
}

/// Without a start tag there are no closing tags to look for: a block ends at an end tag or, where
/// there is none, at a start tag.
pub proof fn law_ends_sought_without_start(
    s: Seq<char>,
    from: int,
    starts: Seq<Seq<char>>,
    ends: Seq<Seq<char>>,
)
    requires
        0 <= from <= s.len(),
    ensures
        ({
            let list = sought_ends(seq![], ends) + sought_starts(starts);
            &&& find_end(s, from, starts, ends, None) matches Some((q, n)) ==> from <= q && q + n
                <= s.len() && first_found(s.skip(from), list, q - from, n)
            &&& find_end(s, from, starts, ends, None) is None ==> forall|k: int|
                0 <= k < list.len() ==> found_nowhere(s.skip(from), #[trigger] list[k])
        }),
{
    reveal_strlit("<|tool_calls_section_begin|");
    reveal_strlit("<|tool_calls|");
    lemma_known_bare();
    lemma_sought_starts(starts);
    let none = Seq::<char>::empty();
    let list = sought_ends(none, ends) + sought_starts(starts);
    let a = end_tag_probes(ends_in_force(None, ends));
    let b = probes_of(sought_ends(none, ends));
    assert(a =~= b) by {
        assert forall|k: int| 0 <= k < a.len() implies a[k] == b[k] by {
            if k >= 2 {
                assert(sought_ends(none, ends)[k] == sought_end(ends[k - 2]));
            }
        }
    }
    assert(probes_of(list) =~= b + probes_of(sought_starts(starts)));
    assert(closing_probes(None) + a =~= a);
    assert(end_probes(starts, ends, None) =~= probes_of(list));
    lemma_first_hit_is(s.skip(from), list);
    lemma_first_hit_bounds(s.skip(from), end_probes(starts, ends, None));
}

/// What a search tells of a place: the byte at which the text before it ends, and the text that
/// stands there.
pub proof fn law_place_told(s: Seq<char>, b: usize, t: &str, i: int, n: int)
    requires
        is_hit(s, Some((b, t)), Some((i, n))),
        0 <= i,
        0 <= n,
        i + n <= s.len(),
    ensures
        s == s.take(i) + t@ + s.skip(i + n),
        b == byte_len(s.take(i)),
        t@.len() == n,
        !is_hit(s, Some((b, t)), None),
        !is_hit(s, None, Some((i, n))),
{
    assert(s =~= s.take(i) + s.subrange(i, i + n) + s.skip(i + n));
}

/// A closing tag can be made from a start tag whose first character is there and is ASCII.
pub proof fn law_tags_that_can_be_closed(open: Seq<char>, brackets: Seq<char>)
    requires
        open.len() > 0,
        open.last() != '>',
        forall|i: int| 0 <= i < brackets.len() ==> #[trigger] brackets[i] == '>',
    ensures
        can_be_closed(open + brackets) <==> open[0] <= '\u{7f}',
{
    law_character_trimmed(open, '>', brackets);
}

// ---------------------------------------------------------------------------------------
// Tags that resemble start tags
// ---------------------------------------------------------------------------------------
/// One of two texts is, in some spelling, the beginning of the other.
pub open spec fn one_is_beginning(a: Seq<char>, b: Seq<char>) -> bool {
    forall|i: int| 0 <= i < a.len() && i < b.len() ==> same_in_tag(#[trigger] a[i], b[i])
}

/// A tag resembles a start tag where it begins with `<` and it, or one of the start tags, is the
/// beginning of the other, in some spelling.
pub proof fn law_resemblance(tag: Seq<char>, starts: Seq<Seq<char>>)
    ensures
        resembles_start(tag, starts) <==> tag.len() > 0 && tag[0] == '<' && exists|k: int|
            0 <= k < sought_starts(starts).len() && one_is_beginning(
                tag,
                (#[trigger] sought_starts(starts)[k]).spelt,
            ),
{
    lemma_known_bare();
    let list = sought_starts(starts);
    let all = known_starts() + starts;
    assert forall|k: int| 0 <= k < all.len() implies (#[trigger] list[k]).spelt == trim_end_char(
        all[k],
        '>',
    ) by {
        if k >= 5 {
            assert(list[k] == sought_start(starts[k - 5]));
            assert(all[k] == starts[k - 5]);
        } else {
            assert(all[k] == known_starts()[k]);
        }
    }
    assert forall|k: int| 0 <= k < all.len() implies one_begins_other(
        normalized(tag),
        normalized(trim_end_char(#[trigger] all[k], '>')),
    ) == one_is_beginning(tag, list[k].spelt) by {
        lemma_beginning(tag, trim_end_char(all[k], '>'));
        assert(list[k].spelt == trim_end_char(all[k], '>'));
    }
    if exists|k: int| 0 <= k < list.len() && one_is_beginning(tag, (#[trigger] list[k]).spelt) {
        let k = choose|k: int|
            0 <= k < list.len() && one_is_beginning(tag, (#[trigger] list[k]).spelt);
        assert(one_begins_other(
            normalized(tag),
            normalized(trim_end_char(all[k], '>')),
        ));
    }
    if resembles_start(tag, starts) {
        let k = choose|k: int|
            0 <= k < all.len() && one_begins_other(
                normalized(tag),
                normalized(trim_end_char(#[trigger] all[k], '>')),
            );
        assert(one_is_beginning(tag, list[k].spelt));
    }
}

proof fn lemma_beginning(a: Seq<char>, b: Seq<char>)
    ensures
        one_begins_other(normalized(a), normalized(b)) == one_is_beginning(a, b),
{
    let x = normalized(a);
    let y = normalized(b);
    if one_begins_other(x, y) {
        assert forall|i: int| 0 <= i < a.len() && i < b.len() implies same_in_tag(
            #[trigger] a[i],
            b[i],
        ) by {
            assert(x[i] == tag_char(a[i]) && y[i] == tag_char(b[i]));
            if x.is_prefix_of(y) {
                assert(y.subrange(0, x.len() as int)[i] == y[i]);
            } else {
                assert(x.subrange(0, y.len() as int)[i] == x[i]);
            }
            law_spellings(a[i], b[i]);
        }
    }
    if one_is_beginning(a, b) {
        assert forall|i: int| 0 <= i < a.len() && i < b.len() implies #[trigger] x[i] == y[i] by {
            assert(same_in_tag(a[i], b[i]));
            law_spellings(a[i], b[i]);
        }
        if a.len() <= b.len() {
            assert(y.subrange(0, x.len() as int) =~= x);
        } else {
            assert(x.subrange(0, y.len() as int) =~= y);
        }
    }
}

} // verus!
