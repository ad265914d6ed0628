//! Parsing the tool calls in a model's output: where the block of tool calls lies, how its
//! content is read, and what calls it stands for.
use crate::blocks::block_calls;
use crate::blocks::blocks;
use crate::blocks::numbered_calls;
use crate::blocks::parse_new_tool_calls;
use crate::calls::calls_of_items;
use crate::calls::item_calls;
use crate::calls::lemma_nth_id_step;
use crate::calls::named_items;
use crate::calls::nth_id;
use crate::calls::CallIds;
use crate::invoke::invocations;
use crate::invoke::invoke_calls;
use crate::invoke::parse_invoke_calls;
use crate::invoke::read_invokes;
use crate::invoke::ScanEnd;
use crate::json::json_of;
use crate::json::json_parse;
use crate::json::json_seq;
use crate::json::parse_value;
use crate::json::parse_values;
use crate::json::Json;
use crate::repair::repair_json;
use crate::repair::repaired;
use crate::search::contains;
use crate::search::find_char;
use crate::search::first_char;
use crate::search::has;
use crate::search::is_space;
use crate::search::last_char;
use crate::search::leading_spaces;
use crate::search::lemma_find_char;
use crate::search::lemma_leading_spaces;
use crate::search::lemma_rfind_char;
use crate::search::occurrences;
use crate::search::occurs_oddly;
use crate::search::replace;
use crate::search::replaced;
use crate::search::rfind_char;
use crate::search::trim;
use crate::search::trim_end;
use crate::search::trim_start;
use crate::search::trim_start_char;
use crate::search::trimmed;
use crate::search::without_leading;
use crate::search::without_trailing;
use crate::tags::can_be_closed;
use crate::tags::find_end;
use crate::tags::find_start;
use crate::tags::seek_end;
use crate::tags::seek_start;
use crate::tags::TagConfig;
use crate::tags::ToolCallTagConfig;
use crate::tags::NEW_TOOL_CALL_BLOCK;
use crate::tags::TOOL_CALL_START;
use crate::text::char_pos;
use crate::text::chars_of;
use crate::text::extend_chars;
use crate::text::lemma_char_pos_bounds;
use crate::text::part;
use crate::text::position_of_byte;
use crate::text::same_chars;
use crate::text::text_of;
use crate::types::call_views;
use crate::types::ToolCall;
use crate::types::ToolCallView;
use vstd::prelude::*;

verus! {

// ---------------------------------------------------------------------------------------
// Where a block lies
// ---------------------------------------------------------------------------------------
/// A position lies inside a code fence when an odd number of fence marks stand before it.
pub open spec fn fenced(before: Seq<char>) -> bool {
    occurrences(before, "```"@) % 2 == 1
}

/// Where the block of tool calls lies in a text. Positions are in characters: `start` is where
/// its start tag begins, `after` where its content begins, `inner_end` where its content ends,
/// `end` where what follows it begins.
pub enum Located {
    Absent,
    Fault,
    At { start: int, after: int, inner_end: int, end: int },
}

/// Where the content begins behind a start tag of `n` characters at position `p`. The tag was
/// found without its closing angle bracket, which is passed over where it stands there.
pub open spec fn content_start(xml: Seq<char>, p: int, n: int) -> int {
    if p + n < xml.len() && xml[p + n] == '>' {
        p + n + 1
    } else {
        p + n
    }
}

/// Where the block of tool calls lies. A block that is not closed goes to the end of the text.
/// No closing tag can be made from a start tag that is empty or begins with a character of
/// several bytes: that is a fault.
pub open spec fn locate(xml: Seq<char>, starts: Seq<Seq<char>>, ends: Seq<Seq<char>>) -> Located {
    match find_start(xml, starts) {
        None => Located::Absent,
        Some((p, n)) => {
            let tag = xml.subrange(p, p + n);
            let after = content_start(xml, p, n);
            if fenced(xml.take(p)) {
                Located::Absent
            } else if !can_be_closed(tag) {
                Located::Fault
            } else {
                match find_end(xml, after, starts, ends, Some(tag)) {
                    Some((q, m)) => Located::At { start: p, after, inner_end: q, end: q + m },
                    None => Located::At {
                        start: p,
                        after,
                        inner_end: xml.len() as int,
                        end: xml.len() as int,
                    },
                }
            }
        },
    }
}

/// Tags in bars without the bars: `<|tag|>` becomes `<tag>`, `</|tag|>` becomes `</tag>`.
pub open spec fn pipes_normalized(s: Seq<char>) -> Seq<char> {
    replace(replace(replace(s, "</|"@, "</"@), "<|"@, "<"@), "|>"@, ">"@)
}

/// Whether the byte offset `tag_pos` lies inside a code fence.
pub fn is_inside_code_fence(xml: &str, tag_pos: usize) -> (r: bool)
    requires
        char_pos(xml@, tag_pos as int) is Some,
    ensures
        r == fenced(xml@.take(char_pos(xml@, tag_pos as int)->0)),
{
    proof {
        reveal_strlit("```");
        lemma_char_pos_bounds(xml@, tag_pos as int);
    }
    let chars = chars_of(xml);
    match position_of_byte(chars.as_slice(), tag_pos) {
        Some(i) => {
            assert(chars@.subrange(0, i as int) =~= xml@.take(i as int));
            occurs_oddly(part(chars.as_slice(), 0, i), chars_of("```").as_slice())
        },
        None => false,
    }
}

/// Takes the bars out of tags in bars.
fn without_pipes(s: &[char]) -> (r: Vec<char>)
    ensures
        r@ == pipes_normalized(s@),
{
    proof {
        reveal_strlit("</|");
        reveal_strlit("<|");
        reveal_strlit("|>");
    }
    let a = replaced(s, chars_of("</|").as_slice(), chars_of("</").as_slice());
    let b = replaced(a.as_slice(), chars_of("<|").as_slice(), chars_of("<").as_slice());
    replaced(b.as_slice(), chars_of("|>").as_slice(), chars_of(">").as_slice())
}

/// Takes the bars out of tags in bars.
pub fn normalize_xml_pipes(s: &str) -> (r: String)
    ensures
        r@ == pipes_normalized(s@),
{
    text_of(without_pipes(chars_of(s).as_slice()).as_slice())
}

/// Where a block of tool calls was found.
struct Place {
    start: usize,
    after: usize,
    inner_end: usize,
    end: usize,
}

/// The outcome of looking for a block of tool calls.
enum Found {
    Absent,
    Fault,
    At(Place),
}

spec fn located(f: Found) -> Located {
    match f {
        Found::Absent => Located::Absent,
        Found::Fault => Located::Fault,
        Found::At(p) => Located::At {
            start: p.start as int,
            after: p.after as int,
            inner_end: p.inner_end as int,
            end: p.end as int,
        },
    }
}

/// Whether a closing tag can be made from a start tag.
pub fn closable(tag: &[char]) -> (r: bool)
    ensures
        r == can_be_closed(tag@),
{
    let open = without_trailing(tag, '>');
    open.len() > 0 && open[0] <= '\u{7f}'
}

/// Looks for the block of tool calls.
fn seek_block(xml: &[char], cfg: &TagConfig) -> (r: Found)
    ensures
        located(r) == locate(xml@, cfg.start_texts(), cfg.end_texts()),
        r matches Found::At(p) ==> p.start <= p.after <= p.inner_end <= p.end <= xml@.len(),
{
    let len: usize = xml.len();
    proof {
        reveal_strlit("```");
    }
    match seek_start(xml, cfg) {
        None => Found::Absent,
        Some((p, n)) => {
            let tag = part(xml, p, p + n);
            let after: usize = if p + n < len && xml[p + n] == '>' {
                p + n + 1
            } else {
                p + n
            };
            assert(xml@.subrange(0, p as int) =~= xml@.take(p as int));
            if occurs_oddly(part(xml, 0, p), chars_of("```").as_slice()) {
                Found::Absent
            } else if !closable(tag) {
                Found::Fault
            } else {
                match seek_end(xml, after, cfg, Some(tag)) {
                    Some((q, m)) => Found::At(
                        Place { start: p, after, inner_end: q, end: q + m },
                    ),
                    None => Found::At(Place { start: p, after, inner_end: len, end: len }),
                }
            }
        },
    }
}

// ---------------------------------------------------------------------------------------
// How the content is read
// ---------------------------------------------------------------------------------------
/// How the content of a block is read: as JSON values, as a list of blocks, as invocations, or
/// not at all. Where the last closing bracket stands before the first opening one there is
/// nothing to cut out: that is a fault.
pub enum Contents {
    Fault,
    Nothing,
    Items(Seq<Json>),
    Blocks,
    Invokes,
}

/// The position behind the last `c` in `s`; the end of `s` where there is none.
pub open spec fn up_to_last(s: Seq<char>, c: char) -> int {
    match rfind_char(s, c) {
        Some(j) => j + 1,
        None => s.len() as int,
    }
}

/// The text of the JSON array in a content that begins with one.
pub open spec fn array_text(inner: Seq<char>) -> Seq<char> {
    inner.subrange(find_char(inner, '[')->0, up_to_last(inner, ']'))
}

/// The JSON object that a text is.
pub open spec fn object_text(s: Seq<char>) -> Contents {
    match json_parse(s) {
        Some(Json::Object(o)) => Contents::Items(seq![Json::Object(o)]),
        _ => Contents::Nothing,
    }
}

/// The JSON object in the repair of an array that could not be read.
pub open spec fn repaired_array(s: Seq<char>) -> Contents {
    let mended = match repaired(s) {
        Some(t) => t,
        None => seq![],
    };
    let object = trim_start_char(mended, '[');
    match find_char(object, '{') {
        None => Contents::Nothing,
        Some(i) => if up_to_last(object, '}') < i {
            Contents::Fault
        } else {
            object_text(object.subrange(i, up_to_last(object, '}')))
        },
    }
}

/// How the text of an array is read. The empty array is nothing; an array that cannot be read
/// is repaired, and then only an object in it is taken.
pub open spec fn array_contents(s: Seq<char>) -> Contents {
    if trim(s) == "[]"@ {
        Contents::Nothing
    } else {
        match json_parse(s) {
            Some(Json::Array(items)) => Contents::Items(items),
            _ => repaired_array(s),
        }
    }
}

/// How a content with an opening brace at position `i` is read: the object from there to the
/// last closing brace, repaired where it cannot be read.
pub open spec fn object_contents(inner: Seq<char>, i: int) -> Contents {
    if up_to_last(inner, '}') < i {
        Contents::Fault
    } else {
        let s = inner.subrange(i, up_to_last(inner, '}'));
        match object_text(s) {
            Contents::Items(items) => Contents::Items(items),
            _ => match repaired(s) {
                Some(t) => object_text(t),
                None => Contents::Nothing,
            },
        }
    }
}

/// How the content of a block is read.
pub open spec fn contents(inner: Seq<char>) -> Contents {
    if trim(inner).len() > 0 && trim(inner)[0] == '[' {
        array_contents(array_text(inner))
    } else if contains(inner, NEW_TOOL_CALL_BLOCK@) || contains(inner, TOOL_CALL_START@) {
        Contents::Blocks
    } else {
        match find_char(inner, '{') {
            Some(i) => object_contents(inner, i),
            None => Contents::Invokes,
        }
    }
}

/// How the content of a block was read.
enum Content {
    Fault,
    Nothing,
    Items(Vec<serde_json::Value>),
    Blocks,
    Invokes,
}

spec fn content_view(c: Content) -> Contents {
    match c {
        Content::Fault => Contents::Fault,
        Content::Nothing => Contents::Nothing,
        Content::Items(v) => Contents::Items(json_seq(v@)),
        Content::Blocks => Contents::Blocks,
        Content::Invokes => Contents::Invokes,
    }
}

fn end_of_last(s: &[char], c: char) -> (r: usize)
    ensures
        r == up_to_last(s@, c),
        r <= s@.len(),
{
    let len: usize = s.len();
    match last_char(s, c) {
        Some(j) => j + 1,
        None => len,
    }
}

/// Reads a text as a JSON object.
fn read_object(s: &str) -> (r: Content)
    ensures
        content_view(r) == object_text(s@),
{
    match parse_value(s) {
        Some(v) => {
            if v.is_object() {
                let mut items: Vec<serde_json::Value> = Vec::new();
                items.push(v);
                assert(json_seq(items@) =~= seq![json_of(v)]);
                Content::Items(items)
            } else {
                Content::Nothing
            }
        },
        None => Content::Nothing,
    }
}

/// Repairs an array that could not be read.
fn read_repaired_array(s: &str) -> (r: Content)
    ensures
        content_view(r) == repaired_array(s@),
{
    let mended = match repair_json(s) {
        Some(t) => chars_of(t.as_str()),
        None => Vec::new(),
    };
    let object = without_leading(mended.as_slice(), '[');
    match first_char(object, '{') {
        None => Content::Nothing,
        Some(i) => {
            let j: usize = end_of_last(object, '}');
            if j < i {
                Content::Fault
            } else {
                read_object(text_of(part(object, i, j)).as_str())
            }
        },
    }
}

/// Reads the text of an array.
fn read_array(s: &[char]) -> (r: Content)
    ensures
        content_view(r) == array_contents(s@),
{
    if same_chars(trimmed(s), chars_of("[]").as_slice()) {
        return Content::Nothing;
    }
    let text = text_of(s);
    match parse_values(text.as_str()) {
        Some(items) => Content::Items(items),
        None => read_repaired_array(text.as_str()),
    }
}

pub proof fn lemma_trim_end(s: Seq<char>)
    ensures
        trim_end(s).len() <= s.len(),
        trim_end(s).len() > 0 ==> trim_end(s)[0] == s[0],
    decreases s.len(),
{
    if s.len() > 0 && is_space(s.last()) {
        lemma_trim_end(s.drop_last());
    }
}

/// A text whose first character behind white ones is `[`: the last `]` stands behind it.
proof fn lemma_array_text(inner: Seq<char>)
    requires
        trim(inner).len() > 0,
        trim(inner)[0] == '[',
    ensures
        find_char(inner, '[') matches Some(i) && 0 <= i <= up_to_last(inner, ']') <= inner.len(),
{
    lemma_leading_spaces(inner);
    lemma_trim_end(trim_start(inner));
    lemma_find_char(inner, '[');
    lemma_rfind_char(inner, ']');
    let n = leading_spaces(inner) as int;
    assert(inner[n] == '[');
    assert(find_char(inner, '[') is Some);
    let i = find_char(inner, '[')->0;
    assert(i <= n);
    if let Some(j) = rfind_char(inner, ']') {
        if j < i {
            assert(is_space(inner[j]));
        }
    }
}

/// Reads the content of a block.
fn read_content(inner: &[char]) -> (r: Content)
    ensures
        content_view(r) == contents(inner@),
{
    let core = trimmed(inner);
    if core.len() > 0 && core[0] == '[' {
        proof {
            lemma_array_text(inner@);
        }
        match first_char(inner, '[') {
            Some(i) => read_array(part(inner, i, end_of_last(inner, ']'))),
            None => Content::Nothing,
        }
    } else if has(inner, chars_of(NEW_TOOL_CALL_BLOCK).as_slice()) || has(
        inner,
        chars_of(TOOL_CALL_START).as_slice(),
    ) {
        Content::Blocks
    } else {
        match first_char(inner, '{') {
            Some(i) => {
                let j: usize = end_of_last(inner, '}');
                if j < i {
                    return Content::Fault;
                }
                let text = text_of(part(inner, i, j));
                match read_object(text.as_str()) {
                    Content::Items(items) => Content::Items(items),
                    _ => match repair_json(text.as_str()) {
                        Some(t) => read_object(t.as_str()),
                        None => Content::Nothing,
                    },
                }
            },
            None => Content::Invokes,
        }
    }
}

// ---------------------------------------------------------------------------------------
// The calls
// ---------------------------------------------------------------------------------------
/// Reading the content meets a place at which it cannot be cut.
pub open spec fn content_faults(inner: Seq<char>) -> bool {
    match contents(inner) {
        Contents::Fault => true,
        Contents::Invokes => invocations(inner).end is Fault,
        _ => false,
    }
}

/// The calls that a content stands for.
pub open spec fn content_calls(inner: Seq<char>, first: u64) -> Option<Seq<ToolCallView>> {
    match contents(inner) {
        Contents::Items(items) => item_calls(items, first),
        Contents::Blocks => {
            let list = block_calls(blocks(inner).bodies);
            if blocks(inner).complete && list.len() > 0 {
                Some(numbered_calls(list, first))
            } else {
                None
            }
        },
        Contents::Invokes => {
            let scan = invocations(inner);
            if scan.end is Done && scan.found.len() > 0 {
                Some(invoke_calls(scan.found, first))
            } else {
                None
            }
        },
        _ => None,
    }
}

/// How many identifiers reading a content hands out.
pub open spec fn content_ids(inner: Seq<char>) -> nat {
    match contents(inner) {
        Contents::Items(items) => named_items(items),
        Contents::Blocks => block_calls(blocks(inner).bodies).len(),
        Contents::Invokes => invocations(inner).found.len(),
        _ => 0,
    }
}

/// The content of the block of tool calls in a text.
pub open spec fn inner_of(xml: Seq<char>, after: int, inner_end: int) -> Seq<char> {
    pipes_normalized(xml.subrange(after, inner_end))
}

/// Parsing a text meets a place at which it cannot be cut.
pub open spec fn parse_faults(
    xml: Seq<char>,
    starts: Seq<Seq<char>>,
    ends: Seq<Seq<char>>,
) -> bool {
    match locate(xml, starts, ends) {
        Located::Absent => false,
        Located::Fault => true,
        Located::At { start, after, inner_end, end } => content_faults(
            inner_of(xml, after, inner_end),
        ),
    }
}

/// The tool calls in a text, and the text without their block.
pub open spec fn parsed(
    xml: Seq<char>,
    starts: Seq<Seq<char>>,
    ends: Seq<Seq<char>>,
    first: u64,
) -> Option<(Seq<ToolCallView>, Seq<char>)> {
    match locate(xml, starts, ends) {
        Located::At { start, after, inner_end, end } => match content_calls(
            inner_of(xml, after, inner_end),
            first,
        ) {
            Some(calls) => Some((calls, xml.take(start) + xml.skip(end))),
            None => None,
        },
        _ => None,
    }
}

/// How many identifiers parsing a text hands out.
pub open spec fn parse_ids(xml: Seq<char>, starts: Seq<Seq<char>>, ends: Seq<Seq<char>>) -> nat {
    match locate(xml, starts, ends) {
        Located::At { start, after, inner_end, end } => content_ids(
            inner_of(xml, after, inner_end),
        ),
        _ => 0,
    }
}

/// What a parse gave, as the contracts speak of it.
pub open spec fn parsed_view(r: Option<(Vec<ToolCall>, String)>) -> Option<
    (Seq<ToolCallView>, Seq<char>),
> {
    match r {
        Some((calls, remaining)) => Some((call_views(calls@), remaining@)),
        None => None,
    }
}

/// Parses the tool calls in a text; gives them and the text without their block.
pub fn parse_tool_calls_with(xml: &str, cfg: &TagConfig, ids: &mut CallIds) -> (r: Option<
    (Vec<ToolCall>, String),
>)
    requires
        !parse_faults(xml@, cfg.start_texts(), cfg.end_texts()),
    ensures
        parsed_view(r) == parsed(xml@, cfg.start_texts(), cfg.end_texts(), old(ids).next),
        final(ids).next == nth_id(
            old(ids).next,
            parse_ids(xml@, cfg.start_texts(), cfg.end_texts()),
        ),
{
    let ghost first = ids.next;
    proof {
        lemma_nth_id_step(first, 0);
    }
    let chars = chars_of(xml);
    let len: usize = chars.len();
    let place = match seek_block(chars.as_slice(), cfg) {
        Found::At(place) => place,
        _ => return None,
    };
    let inner = without_pipes(part(chars.as_slice(), place.after, place.inner_end));
    let before = part(chars.as_slice(), 0, place.start);
    let behind = part(chars.as_slice(), place.end, len);
    assert(before@ =~= xml@.take(place.start as int));
    assert(behind@ =~= xml@.skip(place.end as int));
    let calls = match read_content(inner.as_slice()) {
        Content::Items(items) => calls_of_items(&items, ids),
        Content::Blocks => parse_new_tool_calls(text_of(inner.as_slice()).as_str(), ids),
        Content::Invokes => {
            return parse_invoke_calls(
                text_of(inner.as_slice()).as_str(),
                text_of(before).as_str(),
                text_of(behind).as_str(),
                ids,
            );
        },
        _ => None,
    };
    match calls {
        Some(calls) => {
            let mut remaining: Vec<char> = Vec::new();
            extend_chars(&mut remaining, before);
            extend_chars(&mut remaining, behind);
            assert(remaining@ =~= before@ + behind@);
            Some((calls, text_of(remaining.as_slice())))
        },
        None => None,
    }
}

/// Parses the tool calls in a text, with no tags beside the known ones.
pub fn parse_tool_calls(xml: &str, ids: &mut CallIds) -> (r: Option<(Vec<ToolCall>, String)>)
    requires
        !parse_faults(xml@, seq![], seq![]),
    ensures
        parsed_view(r) == parsed(xml@, seq![], seq![], old(ids).next),
        final(ids).next == nth_id(old(ids).next, parse_ids(xml@, seq![], seq![])),
{
    let cfg = TagConfig::from_config(&ToolCallTagConfig::default());
    assert(cfg.start_texts() =~= seq![]);
    assert(cfg.end_texts() =~= seq![]);
    parse_tool_calls_with(xml, &cfg, ids)
}

// ---------------------------------------------------------------------------------------
// Parsing any text
// ---------------------------------------------------------------------------------------
/// The text cannot be cut at a place at which parsing has to cut it.
#[derive(Debug, Clone, Copy)]
pub struct SliceFault;

/// Whether parsing the text meets a place at which it cannot be cut.
pub fn meets_fault(xml: &str, cfg: &TagConfig) -> (r: bool)
    ensures
        r == parse_faults(xml@, cfg.start_texts(), cfg.end_texts()),
{
    let chars = chars_of(xml);
    match seek_block(chars.as_slice(), cfg) {
        Found::Absent => false,
        Found::Fault => true,
        Found::At(place) => {
            let inner = without_pipes(part(chars.as_slice(), place.after, place.inner_end));
            match read_content(inner.as_slice()) {
                Content::Fault => true,
                Content::Invokes => match read_invokes(inner.as_slice()).1 {
                    ScanEnd::Fault => true,
                    _ => false,
                },
                _ => false,
            }
        },
    }
}

/// Parses the tool calls in any text.
pub fn checked_parse_tool_calls_with(xml: &str, cfg: &TagConfig, ids: &mut CallIds) -> (r: Result<
    Option<(Vec<ToolCall>, String)>,
    SliceFault,
>)
    ensures
        match r {
            Ok(p) => !parse_faults(xml@, cfg.start_texts(), cfg.end_texts()) && parsed_view(p)
                == parsed(xml@, cfg.start_texts(), cfg.end_texts(), old(ids).next)
                && final(ids).next == nth_id(
                old(ids).next,
                parse_ids(xml@, cfg.start_texts(), cfg.end_texts()),
            ),
            Err(_) => parse_faults(xml@, cfg.start_texts(), cfg.end_texts()) && *final(ids)
                == *old(ids),
        },
{
    if meets_fault(xml, cfg) {
        Err(SliceFault)
    } else {
        Ok(parse_tool_calls_with(xml, cfg, ids))
    }
}

/// Parses the tool calls in any text, with no tags beside the known ones.
pub fn checked_parse_tool_calls(xml: &str, ids: &mut CallIds) -> (r: Result<
    Option<(Vec<ToolCall>, String)>,
    SliceFault,
>)
    ensures
        match r {
            Ok(p) => !parse_faults(xml@, seq![], seq![]) && parsed_view(p) == parsed(
                xml@,
                seq![],
                seq![],
                old(ids).next,
            ) && final(ids).next == nth_id(old(ids).next, parse_ids(xml@, seq![], seq![])),
            Err(_) => parse_faults(xml@, seq![], seq![]) && *final(ids) == *old(ids),
        },
{
    let cfg = TagConfig::from_config(&ToolCallTagConfig::default());
    assert(cfg.start_texts() =~= seq![]);
    assert(cfg.end_texts() =~= seq![]);
    if meets_fault(xml, &cfg) {
        Err(SliceFault)
    } else {
        Ok(parse_tool_calls(xml, ids))
    }
}

} // verus!
