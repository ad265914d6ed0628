//! What holds of parsing tool calls in complete texts.
use crate::calls::item_calls;
use crate::json::json_parse;
use crate::json::Json;
use crate::search::contains;
use crate::search::find;
use crate::search::find_char;
use crate::search::is_space;
use crate::search::leading_spaces;
use crate::search::lemma_find;
use crate::search::lemma_find_char;
use crate::search::lemma_find_is;
use crate::search::lemma_leading_spaces;
use crate::search::lemma_rfind_char;
use crate::search::lemma_trim_end_char;
use crate::search::lemma_trim_end_char_fixed;
use crate::search::occurs_at;
use crate::search::replace;
use crate::search::rfind_char;
use crate::search::trim;
use crate::search::trim_end;
use crate::search::trim_end_char;
use crate::search::trim_start;
use crate::tags::can_be_closed;
use crate::tags::closing_probes;
use crate::tags::closing_tag;
use crate::tags::end_probe;
use crate::tags::end_probes;
use crate::tags::end_tag_probes;
use crate::tags::ends_in_force;
use crate::tags::find_start;
use crate::tags::first_hit;
use crate::tags::half_piped_closing_tag;
use crate::tags::hit;
use crate::tags::known_starts;
use crate::tags::lemma_first_hit_append;
use crate::tags::lemma_first_hit_bounds;
use crate::tags::normalized;
use crate::tags::start_probe;
use crate::tags::start_probes;
use crate::tags::starts_in_force;
use crate::tags::tag_char;
use crate::tags::opens_section;
use crate::tags::Probe;
use crate::tags::NEW_TOOL_CALL_BLOCK;
use crate::tags::PIPE_TOOL_CALLS_START;
use crate::tags::SECTION_START;
use crate::tags::TOOL_CALL_END;
use crate::tags::TOOL_CALL_START;
use crate::tool_parser::array_contents;
use crate::tool_parser::array_text;
use crate::tool_parser::content_calls;
use crate::tool_parser::content_faults;
use crate::tool_parser::content_start;
use crate::tool_parser::contents;
use crate::tool_parser::fenced;
use crate::tool_parser::locate;
use crate::tool_parser::parse_faults;
use crate::tool_parser::parse_ids;
use crate::tool_parser::parsed;
use crate::tool_parser::pipes_normalized;
use crate::tool_parser::Contents;
use crate::tool_parser::Located;
use vstd::prelude::*;

verus! {

// ---------------------------------------------------------------------------------------
// Nothing but the block is taken out
// ---------------------------------------------------------------------------------------
/// A block lies within the text, its parts in their order.
pub proof fn law_block_within_text(xml: Seq<char>, starts: Seq<Seq<char>>, ends: Seq<Seq<char>>)
    ensures
        locate(xml, starts, ends) matches Located::At { start, after, inner_end, end } ==> 0
            <= start <= after <= inner_end <= end <= xml.len(),
{
    lemma_first_hit_bounds(xml, start_probes(known_starts() + starts));
    if let Some((p, n)) = find_start(xml, starts) {
        let tag = xml.subrange(p, p + n);
        let after = content_start(xml, p, n);
        lemma_first_hit_bounds(xml.skip(after), end_probes(starts, ends, Some(tag)));
    }
}

/// Where calls are given there is a block, and what stood before it and behind it remains as it
/// was.
pub proof fn law_remaining(
    xml: Seq<char>,
    starts: Seq<Seq<char>>,
    ends: Seq<Seq<char>>,
    first: u64,
)
    ensures
        parsed(xml, starts, ends, first) matches Some((_, remaining)) ==> (locate(
            xml,
            starts,
            ends,
        ) matches Located::At { start, after, inner_end, end } && 0 <= start <= end <= xml.len()
            && remaining == xml.take(start) + xml.skip(end)),
{
    law_block_within_text(xml, starts, ends);
}

/// A text without a block gives no calls, hands out no identifier, and can always be parsed.
pub proof fn law_nothing_without_block(
    xml: Seq<char>,
    starts: Seq<Seq<char>>,
    ends: Seq<Seq<char>>,
    first: u64,
)
    requires
        match find_start(xml, starts) {
            Some((p, _)) => fenced(xml.take(p)),
            None => true,
        },
    ensures
        parsed(xml, starts, ends, first) is None,
        parse_ids(xml, starts, ends) == 0,
        !parse_faults(xml, starts, ends),
{
}

// ---------------------------------------------------------------------------------------
// What is written as a block is read back
// ---------------------------------------------------------------------------------------
/// A block of tool calls with text before and behind it.
pub open spec fn block_text(before: Seq<char>, content: Seq<char>, behind: Seq<char>) -> Seq<char> {
    before + TOOL_CALL_START@ + content + TOOL_CALL_END@ + behind
}

/// The start tag as it is looked for: without its closing angle bracket.
pub open spec fn bare_start() -> Seq<char> {
    TOOL_CALL_START@.drop_last()
}

/// The tags of a block are the only ones: the start tag does not stand in the text before it,
/// and neither its end tag nor any closing tag of its start tag stands before its end.
pub open spec fn tags_stand_alone(
    before: Seq<char>,
    content: Seq<char>,
    behind: Seq<char>,
) -> bool {
    let rest = content + TOOL_CALL_END@ + behind;
    &&& find(block_text(before, content, behind), bare_start()) == Some(before.len() as int)
    &&& first_hit(rest, closing_probes(Some(bare_start()))) is None
    &&& find(rest, TOOL_CALL_END@) == Some(content.len() as int)
}

pub proof fn lemma_bare_start()
    ensures
        TOOL_CALL_START@.len() == 20,
        bare_start().len() == 19,
        TOOL_CALL_START@ == bare_start().push('>'),
        bare_start()[0] == '<',
        bare_start()[1] == '|',
        bare_start().last() == '|',
        trim_end_char(TOOL_CALL_START@, '>') == bare_start(),
        trim_end_char(bare_start(), '>') == bare_start(),
        can_be_closed(bare_start()),
        TOOL_CALL_END@.len() == 18,
        TOOL_CALL_END@[0] == '<',
        forall|k: int| 0 < k < 18 ==> TOOL_CALL_END@[k] != '<',
        TOOL_CALL_END@[1] == '|',
{
    reveal_strlit("<|tool_calls_begin|>");
    reveal_strlit("<|tool_calls_end|>");
    reveal_with_fuel(trim_end_char, 2);
    let t = TOOL_CALL_START@;
    assert(t.drop_last().last() == '|');
    assert(t =~= bare_start().push('>'));
}

/// The start tag opens no section.
pub proof fn lemma_bare_start_opens_no_section()
    ensures
        !opens_section(bare_start()),
{
    reveal_strlit("<|tool_calls_begin|>");
    reveal_strlit("<|tool_calls|>");
    reveal_strlit("<|tool_calls_section_begin|>");
    reveal_with_fuel(trim_end_char, 2);
    let section = trim_end_char(SECTION_START@, '>');
    let pipe = trim_end_char(PIPE_TOOL_CALLS_START@, '>');
    assert(section.len() == 27);
    assert(pipe.len() == 13);
    assert(pipe[12] == '|');
    assert(bare_start()[12] == '_');
}

/// The block of tool calls is found where it was put.
pub proof fn law_block_located(
    before: Seq<char>,
    content: Seq<char>,
    behind: Seq<char>,
    starts: Seq<Seq<char>>,
    ends: Seq<Seq<char>>,
)
    requires
        tags_stand_alone(before, content, behind),
        !fenced(before),
    ensures
        locate(block_text(before, content, behind), starts, ends) == (Located::At {
            start: before.len() as int,
            after: before.len() as int + 20,
            inner_end: before.len() as int + 20 + content.len(),
            end: before.len() as int + 20 + content.len() + 18,
        }),
{
    lemma_bare_start();
    let xml = block_text(before, content, behind);
    let p = before.len() as int;
    let probes = start_probes(known_starts() + starts);
    assert(probes[0] == start_probe(TOOL_CALL_START@));
    assert(hit(xml, probes[0]) == Some((p, 19int)));
    assert(find_start(xml, starts) == Some((p, 19int)));
    let tag = xml.subrange(p, p + 19);
    assert(tag =~= bare_start());
    assert(xml[p + 19] == '>');
    assert(xml.take(p) =~= before);
    let rest = content + TOOL_CALL_END@ + behind;
    assert(xml.skip(p + 20) =~= rest);
    let a = closing_probes(Some(tag));
    let b = end_tag_probes(ends_in_force(Some(tag), ends));
    let c = start_probes(starts_in_force(Some(tag), starts));
    lemma_first_hit_append(rest, a + b, c);
    lemma_first_hit_append(rest, a, b);
    lemma_bare_start_opens_no_section();
    assert(b[0] == end_probe(TOOL_CALL_END@));
    assert(hit(rest, b[0]) == Some((content.len() as int, 18int)));
    assert(first_hit(rest, b) == Some((content.len() as int, 18int)));
}

/// What is written as a block is read back: the calls are those that its content stands for,
/// and what remains is the text before and behind it.
pub proof fn law_block_read_back(
    before: Seq<char>,
    content: Seq<char>,
    behind: Seq<char>,
    starts: Seq<Seq<char>>,
    ends: Seq<Seq<char>>,
    first: u64,
)
    requires
        tags_stand_alone(before, content, behind),
        !fenced(before),
    ensures
        parsed(block_text(before, content, behind), starts, ends, first) == (match content_calls(
            pipes_normalized(content),
            first,
        ) {
            Some(calls) => Some((calls, before + behind)),
            None => None,
        }),
        parse_faults(block_text(before, content, behind), starts, ends) == content_faults(
            pipes_normalized(content),
        ),
{
    law_block_located(before, content, behind, starts, ends);
    lemma_bare_start();
    let xml = block_text(before, content, behind);
    let p = before.len() as int;
    assert(xml.subrange(p + 20, p + 20 + content.len()) =~= content);
    assert(xml.take(p) + xml.skip(p + 20 + content.len() + 18) =~= before + behind);
}

/// A text whose only `<` is that of the end tag holds no closing tag: a slash follows the `<`
/// of a closing tag, and a bar follows that of the end tag.
proof fn lemma_no_closing_tag(rest: Seq<char>, n: int, tag: Seq<char>)
    requires
        0 <= n < rest.len() - 1,
        rest[n + 1] == '|',
        forall|i: int| 0 <= i < rest.len() && i != n ==> rest[i] != '<',
        tag.len() >= 2,
        tag[0] == '<',
        tag[1] == '/',
    ensures
        !contains(rest, tag),
        !contains(normalized(rest), normalized(tag)),
{
    assert forall|i: int| !occurs_at(rest, tag, i) by {
        if occurs_at(rest, tag, i) {
            let there = rest.subrange(i, i + tag.len());
            assert(there[0] == rest[i]);
            assert(there[1] == rest[i + 1]);
        }
    }
    assert forall|i: int| !occurs_at(normalized(rest), normalized(tag), i) by {
        if occurs_at(normalized(rest), normalized(tag), i) {
            let there = normalized(rest).subrange(i, i + tag.len());
            assert(there[0] == tag_char(rest[i]));
            assert(there[1] == tag_char(rest[i + 1]));
            assert(normalized(tag)[0] == '<');
            assert(normalized(tag)[1] == '/');
        }
    }
}

proof fn lemma_no_closing_hit(rest: Seq<char>, n: int, tag: Seq<char>)
    requires
        0 <= n < rest.len() - 1,
        rest[n + 1] == '|',
        forall|i: int| 0 <= i < rest.len() && i != n ==> rest[i] != '<',
        trim_end_char(tag, '>').len() >= 2,
        tag[0] == '<',
        tag[1] == '/',
    ensures
        hit(rest, end_probe(tag)) is None,
{
    let bare = trim_end_char(tag, '>');
    lemma_trim_end_char(tag, '>');
    assert(bare[0] == tag[0]);
    assert(bare[1] == tag[1]);
    lemma_no_closing_tag(rest, n, tag);
    lemma_no_closing_tag(rest, n, bare);
    lemma_find(rest, tag);
    lemma_find(normalized(rest), normalized(bare));
}

/// The first `<` of a text is where a tag is found first.
pub proof fn lemma_first_bracket(s: Seq<char>, tag: Seq<char>, n: int)
    requires
        occurs_at(s, tag, n),
        tag.len() > 0,
        tag[0] == '<',
        forall|i: int| 0 <= i < n ==> s[i] != '<',
    ensures
        find(s, tag) == Some(n),
{
    assert forall|j: int| 0 <= j < n implies !occurs_at(s, tag, j) by {
        if occurs_at(s, tag, j) {
            assert(s.subrange(j, j + tag.len())[0] == s[j]);
        }
    }
    lemma_find_is(s, tag, n);
}

/// The closing tags of the start tag begin with a slash behind their `<`.
proof fn lemma_closing_tags(tag: Seq<char>)
    requires
        tag.len() > 2,
        tag[0] == '<',
        tag[1] == '|',
        tag.last() == '|',
    ensures
        closing_tag(tag)[0] == '<',
        closing_tag(tag)[1] == '/',
        trim_end_char(closing_tag(tag), '>').len() >= 2,
        half_piped_closing_tag(tag)[0] == '<',
        half_piped_closing_tag(tag)[1] == '/',
        trim_end_char(half_piped_closing_tag(tag), '>').len() >= 2,
{
    reveal_strlit("</");
    reveal_strlit(">");
    reveal_strlit("|>");
    lemma_trim_end_char_fixed(tag, '>');
    let a = closing_tag(tag);
    let b = half_piped_closing_tag(tag);
    assert(a.drop_last() =~= "</"@ + tag.skip(1));
    assert(a.drop_last().last() == '|');
    lemma_trim_end_char_fixed(a.drop_last(), '>');
    assert(b.drop_last() =~= "</"@ + trim_end_char(tag.skip(2), '|') + seq!['|']);
    assert(b.drop_last().last() == '|');
    lemma_trim_end_char_fixed(b.drop_last(), '>');
}

pub proof fn lemma_no_closing_probe(rest: Seq<char>, n: int, tag: Seq<char>)
    requires
        0 <= n < rest.len() - 1,
        rest[n + 1] == '|',
        forall|i: int| 0 <= i < rest.len() && i != n ==> rest[i] != '<',
        tag.len() > 2,
        tag[0] == '<',
        tag[1] == '|',
        tag.last() == '|',
    ensures
        first_hit(rest, closing_probes(Some(tag))) is None,
{
    lemma_closing_tags(tag);
    lemma_no_closing_hit(rest, n, closing_tag(tag));
    lemma_no_closing_hit(rest, n, half_piped_closing_tag(tag));
    let probes = closing_probes(Some(tag));
    reveal_with_fuel(first_hit, 3);
    assert(probes.len() == 2 ==> probes.skip(1)[0] == end_probe(half_piped_closing_tag(tag)));
    assert(probes.len() == 2 ==> probes.skip(1).skip(1) =~= Seq::<Probe>::empty());
    assert(probes.len() == 1 ==> probes.skip(1) =~= Seq::<Probe>::empty());
}

/// In texts without `<` the tags of a block are the only ones.
pub proof fn law_tags_alone_without_brackets(
    before: Seq<char>,
    content: Seq<char>,
    behind: Seq<char>,
)
    requires
        !before.contains('<'),
        !content.contains('<'),
        !behind.contains('<'),
    ensures
        tags_stand_alone(before, content, behind),
{
    lemma_bare_start();
    let xml = block_text(before, content, behind);
    let rest = content + TOOL_CALL_END@ + behind;
    let p = before.len() as int;
    let n = content.len() as int;
    assert(xml.subrange(p, p + 19) =~= bare_start());
    assert forall|i: int| 0 <= i < p implies xml[i] != '<' by {
        assert(before.contains(before[i]));
    }
    lemma_first_bracket(xml, bare_start(), p);
    assert(rest.subrange(n, n + 18) =~= TOOL_CALL_END@);
    assert forall|i: int| 0 <= i < rest.len() && i != n implies rest[i] != '<' by {
        if i < n {
            assert(content.contains(content[i]));
        } else if i < n + 18 {
            assert(rest[i] == TOOL_CALL_END@[i - n]);
        } else {
            assert(behind.contains(behind[i - n - 18]));
        }
    }
    lemma_first_bracket(rest, TOOL_CALL_END@, n);
    lemma_no_closing_probe(rest, n, bare_start());
}

// ---------------------------------------------------------------------------------------
// Arrays of calls
// ---------------------------------------------------------------------------------------
proof fn lemma_nothing_to_replace(s: Seq<char>, from: Seq<char>, to: Seq<char>)
    requires
        !contains(s, from),
    ensures
        replace(s, from, to) == s,
{
    lemma_find(s, from);
}

/// A text without bars beside angle brackets is left as it is.
pub proof fn law_pipes_keep_plain_text(s: Seq<char>)
    requires
        !s.contains('<'),
        !contains(s, "|>"@),
    ensures
        pipes_normalized(s) == s,
{
    reveal_strlit("</|");
    reveal_strlit("<|");
    assert forall|i: int| !occurs_at(s, "</|"@, i) by {
        if occurs_at(s, "</|"@, i) {
            assert(s.subrange(i, i + 3)[0] == s[i]);
            assert(s.contains(s[i]));
        }
    }
    assert forall|i: int| !occurs_at(s, "<|"@, i) by {
        if occurs_at(s, "<|"@, i) {
            assert(s.subrange(i, i + 2)[0] == s[i]);
            assert(s.contains(s[i]));
        }
    }
    lemma_nothing_to_replace(s, "</|"@, "</"@);
    lemma_nothing_to_replace(s, "<|"@, "<"@);
    lemma_nothing_to_replace(s, "|>"@, ">"@);
}

/// A content from `[` to `]` is read as an array, whole.
pub proof fn law_bracketed_content_is_array(s: Seq<char>)
    requires
        s.len() >= 2,
        s[0] == '[',
        s.last() == ']',
    ensures
        array_text(s) == s,
        trim(s) == s,
        contents(s) == array_contents(s),
{
    lemma_find_char(s, '[');
    assert(rfind_char(s, ']') == Some(s.len() - 1));
    assert(leading_spaces(s) == 0);
    assert(trim_start(s) =~= s);
    assert(array_text(s) =~= s);
}

/// The central use: a block around a JSON array of named calls gives those calls, each with its
/// name and its arguments, and what remains is the text before and behind the block.
pub proof fn law_array_block_gives_calls(
    before: Seq<char>,
    array: Seq<char>,
    behind: Seq<char>,
    items: Seq<Json>,
    starts: Seq<Seq<char>>,
    ends: Seq<Seq<char>>,
    first: u64,
)
    requires
        tags_stand_alone(before, array, behind),
        !fenced(before),
        pipes_normalized(array) == array,
        array.len() > 2,
        array[0] == '[',
        array.last() == ']',
        json_parse(array) == Some(Json::Array(items)),
    ensures
        parsed(block_text(before, array, behind), starts, ends, first) == (match item_calls(
            items,
            first,
        ) {
            Some(calls) => Some((calls, before + behind)),
            None => None,
        }),
{
    law_block_read_back(before, array, behind, starts, ends, first);
    law_bracketed_content_is_array(array);
    reveal_strlit("[]");
}

/// A content from `{` to `}` without tags that is a JSON object is read as that object, and
/// gives the call that it names.
pub proof fn law_object_content_gives_call(s: Seq<char>, o: Map<Seq<char>, Json>, first: u64)
    requires
        s.len() >= 2,
        s[0] == '{',
        s.last() == '}',
        !contains(s, NEW_TOOL_CALL_BLOCK@),
        !contains(s, TOOL_CALL_START@),
        json_parse(s) == Some(Json::Object(o)),
    ensures
        contents(s) == Contents::Items(seq![Json::Object(o)]),
        content_calls(s, first) == item_calls(seq![Json::Object(o)], first),
{
    lemma_leading_spaces(s);
    lemma_find_char(s, '{');
    lemma_rfind_char(s, '}');
    lemma_trim_end_is(s, s.len() as int);
    assert(trim_start(s) =~= s);
    assert(s.take(s.len() as int) =~= s);
    assert(find_char(s, '{') == Some(0int));
    assert(s.subrange(0, s.len() as int) =~= s);
}

proof fn lemma_trim_end_is(s: Seq<char>, n: int)
    requires
        0 <= n <= s.len(),
        n > 0 ==> !is_space(s[n - 1]),
        forall|i: int| n <= i < s.len() ==> is_space(#[trigger] s[i]),
    ensures
        trim_end(s) == s.take(n),
    decreases s.len(),
{
    if s.len() > n {
        assert(is_space(s[s.len() - 1]));
        assert forall|i: int| n <= i < s.drop_last().len() implies is_space(
            #[trigger] s.drop_last()[i],
        ) by {
            assert(s.drop_last()[i] == s[i]);
        }
        lemma_trim_end_is(s.drop_last(), n);
        assert(s.drop_last().take(n) =~= s.take(n));
    } else {
        assert(s.take(n) =~= s);
    }
}

/// An empty array, with white characters round it or not, gives no calls.
pub proof fn law_empty_array_gives_nothing(spaces: Seq<char>, more: Seq<char>, first: u64)
    requires
        forall|i: int| 0 <= i < spaces.len() ==> is_space(#[trigger] spaces[i]),
        forall|i: int| 0 <= i < more.len() ==> is_space(#[trigger] more[i]),
    ensures
        contents(spaces + "[]"@ + more) is Nothing,
        content_calls(spaces + "[]"@ + more, first) is None,
{
    reveal_strlit("[]");
    let s = spaces + "[]"@ + more;
    let n = spaces.len() as int;
    lemma_leading_spaces(s);
    assert(s[n] == '[');
    assert(s[n + 1] == ']');
    if leading_spaces(s) < n {
        assert(s[leading_spaces(s) as int] == spaces[leading_spaces(s) as int]);
    }
    assert(leading_spaces(s) == n);
    assert(trim_start(s) =~= "[]"@ + more);
    assert forall|i: int| 2 <= i < trim_start(s).len() implies is_space(
        #[trigger] trim_start(s)[i],
    ) by {
        assert(trim_start(s)[i] == more[i - 2]);
    }
    lemma_trim_end_is(trim_start(s), 2);
    assert(trim(s) =~= "[]"@);
    lemma_find_char(s, '[');
    lemma_rfind_char(s, ']');
    let i = find_char(s, '[')->0;
    if i < n {
        assert(is_space(spaces[i]));
        assert(s[i] == spaces[i]);
    }
    let j = rfind_char(s, ']')->0;
    if j > n + 1 {
        assert(is_space(more[j - n - 2]));
        assert(s[j] == more[j - n - 2]);
    }
    assert(array_text(s) =~= "[]"@);
    lemma_leading_spaces("[]"@);
    assert(leading_spaces("[]"@) == 0);
    assert(trim_start("[]"@) =~= "[]"@);
    lemma_trim_end_is("[]"@, 2);
    assert(trim("[]"@) =~= "[]"@);
}

} // verus!
