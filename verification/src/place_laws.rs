//! Where a block of tool calls lies in a text and in a stream, and what becomes of it there.
use crate::chunk_laws::law_content_set_alone;
use crate::chunk_laws::unchanged_but_content;
use crate::search::contains;
use crate::search::find;
use crate::search::is_space;
use crate::search::lemma_find;
use crate::search::lemma_find_is;
use crate::search::occurs_at;
use crate::search::replace;
use crate::search::trim;
use crate::search::without_first;
use crate::search_laws::first_behind;
use crate::search_laws::law_character_found;
use crate::search_laws::law_counted;
use crate::search_laws::law_first_removed;
use crate::search_laws::law_replaced;
use crate::search_laws::law_trimmed;
use crate::search_laws::law_trimmed_keeps;
use crate::search_laws::white;
use crate::tags::can_be_closed;
use crate::tags::find_end;
use crate::tags::find_start;
use crate::tags::known_starts;
use crate::tags::lemma_first_hit_bounds;
use crate::tags::resembles_start;
use crate::tags::start_probes;
use crate::text::byte_len;
use crate::tool_parser::content_calls;
use crate::tool_parser::content_faults;
use crate::tool_parser::content_ids;
use crate::tool_parser::fenced;
use crate::tool_parser::locate;
use crate::tool_parser::parse_faults;
use crate::tool_parser::parse_ids;
use crate::tool_parser::parsed;
use crate::tool_parser::pipes_normalized;
use crate::tool_parser::Located;
use crate::tool_stream::behind_tag;
use crate::tool_stream::chunk_outcome;
use crate::tool_stream::closed_block;
use crate::tool_stream::empty_pair;
use crate::tool_stream::state_after;
use crate::tool_stream::without_bracket;
use crate::tool_stream::StateView;
use crate::tool_stream::StepView;
use crate::types::ChunkView;
use vstd::prelude::*;

verus! {

// ---------------------------------------------------------------------------------------
// Code fences
// ---------------------------------------------------------------------------------------
/// A fence mark turns the inside of a code fence into the outside and the other way round; a
/// text without marks lies outside.
pub proof fn law_fence_marks_alternate(a: Seq<char>, b: Seq<char>)
    ensures
        first_behind(a, "```"@, b) ==> fenced(a + "```"@ + b) == !fenced(b),
        !contains(a, "```"@) ==> !fenced(a),
{
    reveal_strlit("```");
    law_counted(a, "```"@, b);
}

// ---------------------------------------------------------------------------------------
// Tags in bars
// ---------------------------------------------------------------------------------------
/// No `p` reaches from `a` into `b`.
spec fn none_across(a: Seq<char>, b: Seq<char>, p: Seq<char>) -> bool {
    forall|i: int| i < a.len() && i + p.len() > a.len() ==> !occurs_at(a + b, p, i)
}

proof fn lemma_replace_parts(a: Seq<char>, b: Seq<char>, p: Seq<char>, to: Seq<char>)
    requires
        p.len() > 0,
        none_across(a, b, p),
    ensures
        replace(a + b, p, to) == replace(a, p, to) + replace(b, p, to),
    decreases a.len(),
{
    let s = a + b;
    let n = a.len() as int;
    lemma_find(a, p);
    lemma_find(b, p);
    lemma_find(s, p);
    assert forall|i: int| 0 <= i && i + p.len() <= n implies occurs_at(s, p, i) == occurs_at(
        a,
        p,
        i,
    ) by {
        assert(s.subrange(i, i + p.len()) =~= a.subrange(i, i + p.len()));
    }
    assert forall|i: int| 0 <= i implies occurs_at(s, p, n + i) == occurs_at(b, p, i) by {
        if i + p.len() <= b.len() {
            assert(s.subrange(n + i, n + i + p.len()) =~= b.subrange(i, i + p.len()));
        }
    }
    match find(a, p) {
        Some(i) => {
            assert(occurs_at(s, p, i));
            assert forall|j: int| 0 <= j < i implies !occurs_at(s, p, j) by {
                assert(!occurs_at(a, p, j));
            }
            lemma_find_is(s, p, i);
            let rest = a.skip(i + p.len());
            assert(s.skip(i + p.len()) =~= rest + b);
            assert(s.take(i) =~= a.take(i));
            assert(none_across(rest, b, p)) by {
                assert forall|j: int| j < rest.len() && j + p.len() > rest.len() implies !occurs_at(
                    rest + b,
                    p,
                    j,
                ) by {
                    if occurs_at(rest + b, p, j) {
                        let k = i + p.len() + j;
                        assert(s.subrange(k, k + p.len()) =~= (rest + b).subrange(j, j + p.len()));
                        assert(occurs_at(s, p, k));
                    }
                }
            }
            lemma_replace_parts(rest, b, p, to);
            let x = replace(rest, p, to);
            let y = replace(b, p, to);
            assert(a.take(i) + to + (x + y) =~= (a.take(i) + to + x) + y);
        },
        None => {
            match find(b, p) {
                Some(i) => {
                    assert(occurs_at(s, p, n + i));
                    assert forall|j: int| 0 <= j < n + i implies !occurs_at(s, p, j) by {
                        if j >= n {
                            assert(!occurs_at(b, p, j - n));
                        } else if j + p.len() <= n {
                            assert(!occurs_at(a, p, j));
                        }
                    }
                    lemma_find_is(s, p, n + i);
                    assert(s.take(n + i) =~= a + b.take(i));
                    assert(s.skip(n + i + p.len()) =~= b.skip(i + p.len()));
                    let y = replace(b.skip(i + p.len()), p, to);
                    assert((a + b.take(i)) + to + y =~= a + (b.take(i) + to + y));
                },
                None => {
                    if let Some(k) = find(s, p) {
                        assert(occurs_at(s, p, k));
                        if k >= n {
                            assert(occurs_at(b, p, k - n));
                        } else if k + p.len() <= n {
                            assert(occurs_at(a, p, k));
                        }
                    }
                },
            }
        },
    }
}

/// Neither ends in the middle of a tag in bars.
spec fn whole(a: Seq<char>) -> bool {
    a.len() > 0 ==> a.last() != '<' && a.last() != '/' && a.last() != '|'
}

proof fn lemma_replace_keeps_end(a: Seq<char>, p: Seq<char>, to: Seq<char>)
    requires
        whole(a),
        p.len() > 0,
        p.last() == '|',
    ensures
        whole(replace(a, p, to)),
        a.len() > 0 ==> replace(a, p, to).len() > 0 && replace(a, p, to).last() == a.last(),
    decreases a.len(),
{
    lemma_find(a, p);
    if let Some(i) = find(a, p) {
        let rest = a.skip(i + p.len());
        assert(rest.len() > 0) by {
            if rest.len() == 0 {
                assert(a.subrange(i, i + p.len()).last() == a.last());
            }
        }
        assert(rest.last() == a.last());
        lemma_replace_keeps_end(rest, p, to);
    }
}

/// The bars of tags are taken out piece by piece: of a text that does not end in the middle of a
/// tag, and of what follows it.
pub proof fn law_bars_taken_out_of_pieces(a: Seq<char>, b: Seq<char>)
    requires
        a.len() > 0 ==> a.last() != '<' && a.last() != '/' && a.last() != '|',
    ensures
        pipes_normalized(a + b) == pipes_normalized(a) + pipes_normalized(b),
{
    reveal_strlit("</|");
    reveal_strlit("<|");
    reveal_strlit("|>");
    let p = "</|"@;
    let q = "<|"@;
    let r = "|>"@;
    lemma_none_across(a, b, p);
    lemma_replace_parts(a, b, p, "</"@);
    let a1 = replace(a, p, "</"@);
    let b1 = replace(b, p, "</"@);
    lemma_replace_keeps_end(a, p, "</"@);
    if a.len() == 0 {
        lemma_find(a, p);
    }
    lemma_none_across(a1, b1, q);
    lemma_replace_parts(a1, b1, q, "<"@);
    let a2 = replace(a1, q, "<"@);
    let b2 = replace(b1, q, "<"@);
    lemma_replace_keeps_end(a1, q, "<"@);
    if a1.len() == 0 {
        lemma_find(a1, q);
    }
    lemma_none_across(a2, b2, r);
    lemma_replace_parts(a2, b2, r, ">"@);
}

proof fn lemma_none_across(a: Seq<char>, b: Seq<char>, p: Seq<char>)
    requires
        whole(a),
        p.len() > 0,
        forall|i: int|
            0 <= i < p.len() - 1 ==> #[trigger] p[i] == '<' || p[i] == '/' || p[i] == '|',
    ensures
        none_across(a, b, p),
{
    assert forall|i: int| i < a.len() && i + p.len() > a.len() implies !occurs_at(a + b, p, i) by {
        if occurs_at(a + b, p, i) {
            let k = a.len() - 1 - i;
            assert((a + b).subrange(i, i + p.len())[k] == (a + b)[i + k]);
            assert(p[k] == a.last());
        }
    }
}

/// A tag in bars loses its bars, whether it opens or closes.
pub proof fn law_bars_of_tag_taken_out(name: Seq<char>)
    requires
        name.len() > 0,
        !name.contains('<'),
        !name.contains('/'),
        !name.contains('|'),
        !name.contains('>'),
    ensures
        pipes_normalized("<|"@ + name + "|>"@) == "<"@ + name + ">"@,
        pipes_normalized("</|"@ + name + "|>"@) == "</"@ + name + ">"@,
{
    lemma_opening_bars(name);
    lemma_closing_bars(name);
}

proof fn lemma_last_bar(front: Seq<char>)
    requires
        !front.contains('|'),
    ensures
        replace(front + "|>"@, "|>"@, ">"@) == front + ">"@,
{
    reveal_strlit("|>");
    let r = "|>"@;
    let none = Seq::<char>::empty();
    assert(first_behind(front, r, none)) by {
        assert forall|j: int| 0 <= j < front.len() implies #[trigger] (front + r + none).subrange(
            j,
            j + r.len(),
        ) != r by {
            assert((front + r + none).subrange(j, j + 2)[0] == front[j]);
            assert(front.contains(front[j]));
        }
    }
    law_replaced(front, r, none, ">"@);
    assert(replace(none, r, ">"@) =~= none) by {
        lemma_find(none, r);
    }
    assert(front + r + none =~= front + r);
    assert(front + ">"@ + none =~= front + ">"@);
}

/// A text without the first character of `p`, or without one of its later ones, does not hold
/// it.
proof fn lemma_absent(s: Seq<char>, p: Seq<char>, k: int)
    requires
        0 <= k < p.len(),
        !s.contains(p[k]),
    ensures
        !contains(s, p),
{
    lemma_find(s, p);
    if let Some(i) = find(s, p) {
        assert(s.subrange(i, i + p.len())[k] == s[i + k]);
    }
}

proof fn lemma_opening_bars(name: Seq<char>)
    requires
        !name.contains('<'),
        !name.contains('/'),
        !name.contains('|'),
    ensures
        pipes_normalized("<|"@ + name + "|>"@) == "<"@ + name + ">"@,
{
    reveal_strlit("</|");
    reveal_strlit("<|");
    reveal_strlit("<");
    reveal_strlit("|>");
    let p = "</|"@;
    let q = "<|"@;
    let r = "|>"@;
    let none = Seq::<char>::empty();
    let tail = name + r;
    let s = q + name + r;
    assert(replace(s, p, "</"@) == s) by {
        assert(!s.contains('/')) by {
            assert forall|i: int| 0 <= i < s.len() implies s[i] != '/' by {
                if 2 <= i < 2 + name.len() {
                    assert(name.contains(name[i - 2]));
                }
            }
        }
        lemma_absent(s, p, 1);
        law_replaced(s, p, none, "</"@);
    }
    assert(replace(s, q, "<"@) == "<"@ + tail) by {
        assert(!tail.contains('<')) by {
            assert forall|i: int| 0 <= i < tail.len() implies tail[i] != '<' by {
                if i < name.len() {
                    assert(name.contains(name[i]));
                }
            }
        }
        lemma_absent(tail, q, 0);
        law_replaced(tail, q, none, "<"@);
        assert(first_behind(none, q, tail));
        law_replaced(none, q, tail, "<"@);
        assert(s =~= none + q + tail);
        assert(none + "<"@ + tail =~= "<"@ + tail);
    }
    let front = "<"@ + name;
    assert(!front.contains('|')) by {
        assert forall|i: int| 0 <= i < front.len() implies front[i] != '|' by {
            if i >= 1 {
                assert(name.contains(name[i - 1]));
            }
        }
    }
    lemma_last_bar(front);
    assert("<"@ + tail =~= front + r);
}

proof fn lemma_slash_before_bar(tail: Seq<char>)
    requires
        !tail.contains('<'),
    ensures
        !contains("</"@ + tail, "<|"@),
{
    reveal_strlit("</");
    reveal_strlit("<|");
    let s = "</"@ + tail;
    let q = "<|"@;
    lemma_find(s, q);
    if let Some(i) = find(s, q) {
        let there = s.subrange(i, i + 2);
        assert(there[0] == s[i] && there[1] == s[i + 1]);
        if i >= 2 {
            assert(tail.contains(tail[i - 2]));
        }
    }
}

proof fn lemma_closing_bars(name: Seq<char>)
    requires
        !name.contains('<'),
        !name.contains('|'),
    ensures
        pipes_normalized("</|"@ + name + "|>"@) == "</"@ + name + ">"@,
{
    reveal_strlit("</|");
    reveal_strlit("</");
    reveal_strlit("<|");
    reveal_strlit("|>");
    let p = "</|"@;
    let q = "<|"@;
    let r = "|>"@;
    let none = Seq::<char>::empty();
    let tail = name + r;
    let s = p + name + r;
    let once = "</"@ + tail;
    assert(!tail.contains('<')) by {
        assert forall|i: int| 0 <= i < tail.len() implies tail[i] != '<' by {
            if i < name.len() {
                assert(name.contains(name[i]));
            }
        }
    }
    assert(replace(s, p, "</"@) == once) by {
        lemma_absent(tail, p, 0);
        law_replaced(tail, p, none, "</"@);
        assert(first_behind(none, p, tail));
        law_replaced(none, p, tail, "</"@);
        assert(s =~= none + p + tail);
        assert(none + "</"@ + tail =~= once);
    }
    assert(replace(once, q, "<"@) == once) by {
        lemma_slash_before_bar(tail);
        law_replaced(once, q, none, "<"@);
    }
    let front = "</"@ + name;
    assert(!front.contains('|')) by {
        assert forall|i: int| 0 <= i < front.len() implies front[i] != '|' by {
            if i >= 2 {
                assert(name.contains(name[i - 2]));
            }
        }
    }
    lemma_last_bar(front);
    assert(once =~= front + r);
}

// ---------------------------------------------------------------------------------------
// The place of a block
// ---------------------------------------------------------------------------------------
/// A block begins where its start tag does, outside code fences. Its content begins behind the
/// tag, or behind the closing angle bracket that follows the tag, and goes to what ends the
/// block or, where nothing does, to the end of the text. All that ends the block belongs to it.
pub proof fn law_place_of_block(xml: Seq<char>, starts: Seq<Seq<char>>, ends: Seq<Seq<char>>)
    ensures
        locate(xml, starts, ends) is Absent <==> find_start(xml, starts) is None || (find_start(
            xml,
            starts,
        ) matches Some((p, n)) && fenced(xml.take(p))),
        locate(xml, starts, ends) is Fault <==> (find_start(xml, starts) matches Some((p, n))
            && !fenced(xml.take(p)) && !can_be_closed(xml.subrange(p, p + n))),
        locate(xml, starts, ends) matches Located::At { start, after, inner_end, end } ==> (
        find_start(xml, starts) matches Some((p, n)) && {
            let tag = xml.subrange(p, p + n);
            let stop = find_end(xml, after, starts, ends, Some(tag));
            let bracket = p + n < xml.len() && xml[p + n] == '>';
            &&& start == p
            &&& bracket ==> after == p + n + 1
            &&& !bracket ==> after == p + n
            &&& stop matches Some((q, m)) ==> inner_end == q && end == q + m
            &&& stop is None ==> inner_end == xml.len() && end == xml.len()
        }),
{
}

/// What is parsed from a text are the calls in the content of its block, bars taken out of its
/// tags, and the text without the block; where there is no block, or no calls are in it, there
/// is nothing.
pub proof fn law_parsed_from_content(
    xml: Seq<char>,
    starts: Seq<Seq<char>>,
    ends: Seq<Seq<char>>,
    first: u64,
)
    ensures
        !(locate(xml, starts, ends) is At) ==> parsed(xml, starts, ends, first) is None
            && parse_ids(xml, starts, ends) == 0,
        locate(xml, starts, ends) is Fault ==> parse_faults(xml, starts, ends),
        locate(xml, starts, ends) is Absent ==> !parse_faults(xml, starts, ends),
        locate(xml, starts, ends) matches Located::At { start, after, inner_end, end } ==> {
            let inner = pipes_normalized(xml.subrange(after, inner_end));
            &&& parsed(xml, starts, ends, first) is Some <==> content_calls(inner, first) is Some
            &&& parsed(xml, starts, ends, first) matches Some((calls, rest)) ==> content_calls(
                inner,
                first,
            ) == Some(calls) && rest == xml.take(start) + xml.skip(end)
            &&& parse_ids(xml, starts, ends) == content_ids(inner)
            &&& parse_faults(xml, starts, ends) == content_faults(inner)
        },
{
}

// ---------------------------------------------------------------------------------------
// A block in a stream
// ---------------------------------------------------------------------------------------
/// Where a start tag is found and nothing that ends its block, the block is collected from its
/// start tag on, and the text before it is given at once, if there is any.
pub proof fn law_block_begins_in_stream(
    c: ChunkView,
    window: Seq<char>,
    content: Seq<char>,
    starts: Seq<Seq<char>>,
    ends: Seq<Seq<char>>,
    first: u64,
    p: int,
    n: int,
)
    requires
        c.choices.len() > 0,
        c.choices[0].delta.content == Some(content),
        content.len() > 0,
        find_start(window + content, starts) == Some((p, n)),
        can_be_closed((window + content).subrange(p, p + n)),
        find_end(
            (window + content).skip(p),
            n,
            starts,
            ends,
            Some((window + content).subrange(p, p + n)),
        ) is None,
    ensures
        ({
            let state = StateView::Detecting(window);
            let all = window + content;
            let o = chunk_outcome(c, state, starts, ends, first);
            &&& state_after(state, o) == StateView::Collecting(all.skip(p), all.subrange(p, p + n))
            &&& p == 0 ==> o.step is Again
            &&& p > 0 ==> (o.step matches StepView::Emit(out) && unchanged_but_content(out, c)
                && out.choices[0].delta.content == Some(all.take(p)))
            &&& o.ids == 0
        }),
{
    let all = window + content;
    lemma_first_hit_bounds(all, start_probes(known_starts() + starts));
    assert(all.skip(p).take(n) =~= all.subrange(p, p + n));
    law_content_set_alone(c, Some(all.take(p)));
}

/// Where a start tag is found and what ends its block, the block is complete. Only where nothing
/// but white characters stand before another start tag is it collected further.
pub proof fn law_block_complete_in_stream(
    c: ChunkView,
    window: Seq<char>,
    content: Seq<char>,
    starts: Seq<Seq<char>>,
    ends: Seq<Seq<char>>,
    first: u64,
    p: int,
    n: int,
    q: int,
    m: int,
)
    requires
        c.choices.len() > 0,
        c.choices[0].delta.content == Some(content),
        content.len() > 0,
        find_start(window + content, starts) == Some((p, n)),
        can_be_closed((window + content).subrange(p, p + n)),
        find_end(
            (window + content).skip(p),
            n,
            starts,
            ends,
            Some((window + content).subrange(p, p + n)),
        ) == Some((q, m)),
    ensures
        ({
            let state = StateView::Detecting(window);
            let all = window + content;
            let rest = all.skip(p);
            let tag = all.subrange(p, p + n);
            let end_tag = rest.subrange(q, q + m);
            let o = chunk_outcome(c, state, starts, ends, first);
            let early = resembles_start(end_tag, starts) && trim(rest.subrange(n, q)).len() == 0;
            &&& early ==> o.step is Again && o.ids == 0 && state_after(state, o)
                == StateView::Collecting(rest, tag)
            &&& !early ==> o == closed_block(
                c,
                all.take(p),
                rest.take(q + m),
                tag,
                end_tag,
                first,
                false,
            )
        }),
{
    let all = window + content;
    lemma_first_hit_bounds(all, start_probes(known_starts() + starts));
    assert(all.skip(p).take(n) =~= all.subrange(p, p + n));
}

/// What comes in while a block is collected goes behind what was collected, unless that is too
/// much: then all of it is given as content. The end of the block is looked for behind the first
/// closing angle bracket; where it is found the block is complete, with the exception of
/// another start tag behind white characters, and where it is not nothing is given.
pub proof fn law_block_goes_on_in_stream(
    c: ChunkView,
    buf: Seq<char>,
    tag: Seq<char>,
    content: Seq<char>,
    starts: Seq<Seq<char>>,
    ends: Seq<Seq<char>>,
    first: u64,
)
    requires
        c.choices.len() > 0,
        c.choices[0].delta.content == Some(content),
        content.len() > 0,
        can_be_closed(tag),
    ensures
        ({
            let state = StateView::Collecting(buf, tag);
            let all = buf + content;
            let from = behind_tag(all);
            let o = chunk_outcome(c, state, starts, ends, first);
            &&& byte_len(all) > 65536 ==> o.ids == 0 && state_after(state, o)
                == StateView::Detecting(seq![]) && (o.step matches StepView::Emit(out)
                && unchanged_but_content(out, c) && out.choices[0].delta.content == Some(all))
            &&& byte_len(all) <= 65536 ==> match find_end(all, from, starts, ends, Some(tag)) {
                None => o.step is Again && o.ids == 0 && state_after(state, o)
                    == StateView::Collecting(all, tag),
                Some((q, m)) => {
                    let end_tag = all.subrange(q, q + m);
                    let early = resembles_start(end_tag, starts) && trim(
                        all.subrange(from, q),
                    ).len() == 0;
                    &&& early ==> o.step is Again && o.ids == 0 && state_after(state, o)
                        == StateView::Collecting(all, tag)
                    &&& !early ==> o == closed_block(
                        c,
                        seq![],
                        all.take(q + m),
                        tag,
                        end_tag,
                        first,
                        true,
                    )
                },
            }
        }),
{
    law_content_set_alone(c, Some(buf + content));
}

/// The content of a collected block begins behind its first closing angle bracket, and at its
/// beginning where there is none.
pub proof fn law_behind_tag(a: Seq<char>, b: Seq<char>)
    requires
        !a.contains('>'),
    ensures
        behind_tag(a + seq!['>'] + b) == a.len() + 1,
        behind_tag(a) == 0,
{
    law_character_found(a, '>', b);
}

/// Between the tags of a block stands what is left when the tags are taken out.
proof fn lemma_between_tags(
    start_tag: Seq<char>,
    bracket: Seq<char>,
    inner: Seq<char>,
    end_tag: Seq<char>,
)
    requires
        bracket == seq!['>'] || bracket.len() == 0 && (inner + end_tag).len() > 0 && (inner
            + end_tag)[0] != '>',
        first_behind(inner, end_tag, seq![]),
    ensures
        empty_pair(start_tag + bracket + inner + end_tag, start_tag, end_tag) == (trim(inner).len()
            == 0),
{
    let block = start_tag + bracket + inner + end_tag;
    let none = Seq::<char>::empty();
    let core = inner + end_tag;
    let rest = bracket + core;
    assert(without_first(block, start_tag) == rest) by {
        assert(block =~= none + start_tag + rest);
        assert(first_behind(none, start_tag, rest));
        law_first_removed(none, start_tag, rest);
        assert(none + rest =~= rest);
    }
    assert(without_bracket(rest) == core) by {
        if bracket.len() == 0 {
            assert(rest =~= core);
        } else {
            assert(rest[0] == '>');
            assert(rest.skip(1) =~= core);
        }
    }
    assert(without_first(core, end_tag) == inner) by {
        law_first_removed(inner, end_tag, none);
        assert(core =~= inner + end_tag + none);
        assert(inner + none =~= inner);
    }
}

/// A block that is complete, in which no calls are found and which is not empty, is given back:
/// all of it becomes content, behind the text before it.
pub proof fn law_unread_block_given_back(
    c: ChunkView,
    before: Seq<char>,
    start_tag: Seq<char>,
    bracket: Seq<char>,
    inner: Seq<char>,
    end_tag: Seq<char>,
    first: u64,
    keep_empty: bool,
    i: int,
)
    requires
        c.choices.len() > 0,
        bracket == seq!['>'] || bracket.len() == 0 && inner[0] != '>',
        0 <= i < inner.len(),
        !is_space(inner[i]),
        first_behind(inner, end_tag, seq![]),
        !parse_faults(start_tag + bracket + inner + end_tag, seq![], seq![]),
        parsed(start_tag + bracket + inner + end_tag, seq![], seq![], first) is None,
    ensures
        ({
            let block = start_tag + bracket + inner + end_tag;
            let o = closed_block(c, before, block, start_tag, end_tag, first, keep_empty);
            &&& o.state == Some(StateView::Detecting(seq![]))
            &&& o.step matches StepView::Emit(out) && unchanged_but_content(out, c)
                && out.choices[0].delta.content == Some(before + block)
        }),
{
    let block = start_tag + bracket + inner + end_tag;
    assert((inner + end_tag)[0] == inner[0]);
    lemma_between_tags(start_tag, bracket, inner, end_tag);
    law_trimmed_keeps(inner, i);
    law_content_set_alone(c, Some(before + block));
}

/// A block of nothing but its tags and white characters gives nothing where it came in as a
/// whole; where it was collected, the chunk that completes it is given without content.
pub proof fn law_empty_block_leaves_no_text(
    c: ChunkView,
    before: Seq<char>,
    start_tag: Seq<char>,
    bracket: Seq<char>,
    inner: Seq<char>,
    end_tag: Seq<char>,
    first: u64,
    keep_empty: bool,
)
    requires
        c.choices.len() > 0,
        bracket == seq!['>'] || bracket.len() == 0,
        white(inner),
        end_tag.len() > 0,
        end_tag[0] == '<',
        !parse_faults(start_tag + bracket + inner + end_tag, seq![], seq![]),
        parsed(start_tag + bracket + inner + end_tag, seq![], seq![], first) is None,
    ensures
        ({
            let block = start_tag + bracket + inner + end_tag;
            let o = closed_block(c, before, block, start_tag, end_tag, first, keep_empty);
            &&& o.state == Some(StateView::Detecting(seq![]))
            &&& !keep_empty ==> o.step is Again
            &&& keep_empty ==> (o.step matches StepView::Emit(out) && unchanged_but_content(out, c)
                && out.choices[0].delta.content is None)
        }),
{
    let none = Seq::<char>::empty();
    let core = inner + end_tag;
    assert(core[0] != '>') by {
        if inner.len() > 0 {
            assert(is_space(inner[0]));
            assert(core[0] == inner[0]);
        } else {
            assert(core[0] == end_tag[0]);
        }
    }
    assert(first_behind(inner, end_tag, none)) by {
        assert forall|j: int| 0 <= j < inner.len() implies #[trigger] (inner + end_tag
            + none).subrange(j, j + end_tag.len()) != end_tag by {
            assert((inner + end_tag + none).subrange(j, j + end_tag.len())[0] == inner[j]);
            assert(is_space(inner[j]));
        }
    }
    lemma_between_tags(start_tag, bracket, inner, end_tag);
    assert(trim(inner).len() == 0) by {
        law_trimmed(inner, none, none);
        assert(inner + none + none =~= inner);
    }
    law_content_set_alone(c, None);
}

} // verus!
