//! Tags that mark tool calls in a model's output: the known ones, their loose matching, and
//! where a block of tool calls begins and ends.
use crate::search::begins_with;
use crate::search::find;
use crate::search::find_in;
use crate::search::lemma_find;
use crate::search::lemma_find_is;
use crate::search::occurs_at;
use crate::search::trim_end_char;
use crate::search::without_trailing;
use crate::text::byte_offset;
use crate::text::byte_pos;
use crate::text::char_pos;
use crate::text::chars_of;
use crate::text::extend_chars;
use crate::text::part;
use crate::text::pos;
use crate::text::position_of_byte;
use vstd::prelude::*;

verus! {

pub const TOOL_CALL_START: &'static str = "<|tool_calls_begin|>";

pub const TOOL_CALL_END: &'static str = "<|tool_calls_end|>";

pub const NEW_TOOL_CALL_START: &'static str = "<|tool_calls_start|>";

pub const NEW_TOOL_CALL_END: &'static str = "<|tool_calls_end|>";

pub const NEW_TOOL_CALL_BLOCK: &'static str = "<|tool_call|>";

pub const NEW_TOOL_CALL_BLOCK_END: &'static str = "<|tool_call_end|>";

pub const NEW_TOOL_CALL_SENTINEL: &'static str = "<|tool_calls_sentinel|>";

pub const PIPE_TOOL_CALLS_START: &'static str = "<|tool_calls|>";

pub const SECTION_START: &'static str = "<|tool_calls_section_begin|>";

pub const SECTION_END: &'static str = "<|tool_calls_section_end|>";

/// The tags that a deployment adds to the known ones.
#[derive(Debug, Clone)]
pub struct ToolCallTagConfig {
    pub extra_starts: Vec<String>,
    pub extra_ends: Vec<String>,
}

/// The tags to look for beside the known ones.
#[derive(Debug, Clone)]
pub struct TagConfig {
    pub starts: Vec<String>,
    pub ends: Vec<String>,
}

/// The texts of some strings.
pub open spec fn texts(v: Seq<String>) -> Seq<Seq<char>> {
    v.map_values(|t: String| t@)
}

impl Default for ToolCallTagConfig {
    fn default() -> (r: Self)
        ensures
            r.extra_starts@.len() == 0,
            r.extra_ends@.len() == 0,
    {
        ToolCallTagConfig { extra_starts: Vec::new(), extra_ends: Vec::new() }
    }
}

impl TagConfig {
    /// The texts of the additional start tags.
    pub open spec fn start_texts(&self) -> Seq<Seq<char>> {
        texts(self.starts@)
    }

    /// The texts of the additional end tags.
    pub open spec fn end_texts(&self) -> Seq<Seq<char>> {
        texts(self.ends@)
    }

    /// Takes the additional tags over.
    pub fn from_config(cfg: &ToolCallTagConfig) -> (r: Self)
        ensures
            r.start_texts() == texts(cfg.extra_starts@),
            r.end_texts() == texts(cfg.extra_ends@),
    {
        let r = TagConfig { starts: cfg.extra_starts.clone(), ends: cfg.extra_ends.clone() };
        assert(r.start_texts() =~= texts(cfg.extra_starts@));
        assert(r.end_texts() =~= texts(cfg.extra_ends@));
        r
    }
}

// ---------------------------------------------------------------------------------------
// Loose matching
// ---------------------------------------------------------------------------------------
/// The tag character that `c` is a variant of: the full-width bar stands for `|`, the lower
/// block characters stand for `_`.
pub open spec fn tag_char(c: char) -> char {
    if c == '\u{FF5C}' {
        '|'
    } else if '\u{2581}' <= c <= '\u{2588}' {
        '_'
    } else {
        c
    }
}

/// `s` with tag characters in place of their variants.
pub open spec fn normalized(s: Seq<char>) -> Seq<char> {
    s.map_values(|c: char| tag_char(c))
}

/// The first position where `p`, which is not empty, stands in `s` up to variants of tag
/// characters.
pub open spec fn loose_find(s: Seq<char>, p: Seq<char>) -> Option<int> {
    if p.len() == 0 {
        None
    } else {
        find(normalized(s), normalized(p))
    }
}

/// Replaces a variant of a tag character by the tag character.
pub fn norm_tag_char(c: char) -> (r: char)
    ensures
        r == tag_char(c),
{
    if c == '\u{FF5C}' {
        '|'
    } else if c >= '\u{2581}' && c <= '\u{2588}' {
        '_'
    } else {
        c
    }
}

/// Whether two characters are the same up to variants of tag characters.
pub fn eq_tag_char(a: char, b: char) -> (r: bool)
    ensures
        r == (tag_char(a) == tag_char(b)),
{
    a == b || norm_tag_char(a) == norm_tag_char(b)
}

/// `s` with tag characters in place of their variants.
fn normalize(s: &[char]) -> (r: Vec<char>)
    ensures
        r@ == normalized(s@),
{
    let mut r: Vec<char> = Vec::new();
    let mut i: usize = 0;
    while i < s.len()
        invariant
            i <= s@.len(),
            r@ =~= normalized(s@.take(i as int)),
        decreases s@.len() - i,
    {
        r.push(norm_tag_char(s[i]));
        assert(s@.take(i + 1) =~= s@.take(i as int).push(s@[i as int]));
        i = i + 1;
    }
    assert(s@.take(s@.len() as int) =~= s@);
    r
}

/// Whether `p` stands in `s` at position `i`, up to variants of tag characters.
fn stands_loosely_at(s: &[char], p: &[char], i: usize) -> (r: bool)
    requires
        i + p@.len() <= s@.len(),
    ensures
        r == occurs_at(normalized(s@), normalized(p@), i as int),
{
    let n: usize = s.len();
    let mut j: usize = 0;
    while j < p.len()
        invariant
            j <= p@.len(),
            n == s@.len(),
            i + p@.len() <= n,
            forall|k: int| 0 <= k < j ==> tag_char(s@[i + k]) == tag_char(p@[k]),
        decreases p@.len() - j,
    {
        if !eq_tag_char(p[j], s[i + j]) {
            proof {
                let there = normalized(s@).subrange(i as int, i + p@.len());
                if there == normalized(p@) {
                    assert(there[j as int] == tag_char(s@[i + j]));
                    assert(normalized(p@)[j as int] == tag_char(p@[j as int]));
                }
            }
            return false;
        }
        j = j + 1;
    }
    assert(normalized(s@).subrange(i as int, i + p@.len()) =~= normalized(p@));
    true
}

/// The first position where `p` stands in `s` up to variants of tag characters.
pub fn find_loosely(s: &[char], p: &[char]) -> (r: Option<usize>)
    ensures
        pos(r) == loose_find(s@, p@),
{
    proof {
        lemma_find(normalized(s@), normalized(p@));
    }
    if p.len() == 0 || s.len() < p.len() {
        return None;
    }
    let last: usize = s.len() - p.len();
    let mut i: usize = 0;
    loop
        invariant
            p@.len() > 0,
            last == s@.len() - p@.len(),
            i <= last,
            forall|j: int| 0 <= j < i ==> !occurs_at(normalized(s@), normalized(p@), j),
        decreases last - i,
    {
        if stands_loosely_at(s, p, i) {
            proof {
                lemma_find_is(normalized(s@), normalized(p@), i as int);
            }
            return Some(i);
        }
        if i == last {
            proof {
                lemma_find(normalized(s@), normalized(p@));
            }
            return None;
        }
        i = i + 1;
    }
}

// ---------------------------------------------------------------------------------------
// Probes
// ---------------------------------------------------------------------------------------
/// One thing to look for: `exact` as it is written and, failing that, `loose` up to variants of
/// tag characters.
pub struct Probe {
    pub exact: Seq<char>,
    pub loose: Seq<char>,
}

/// Where a probe hits `s`: the position and the number of characters.
pub open spec fn hit(s: Seq<char>, p: Probe) -> Option<(int, int)> {
    match find(s, p.exact) {
        Some(i) => Some((i, p.exact.len() as int)),
        None => match loose_find(s, p.loose) {
            Some(i) => Some((i, p.loose.len() as int)),
            None => None,
        },
    }
}

/// Where the first of the probes that hits `s` hits it.
pub open spec fn first_hit(s: Seq<char>, probes: Seq<Probe>) -> Option<(int, int)>
    decreases probes.len(),
{
    if probes.len() == 0 {
        None
    } else {
        match hit(s, probes[0]) {
            Some(h) => Some(h),
            None => first_hit(s, probes.skip(1)),
        }
    }
}

/// A start tag is looked for without its closing angle bracket.
pub open spec fn start_probe(tag: Seq<char>) -> Probe {
    Probe { exact: trim_end_char(tag, '>'), loose: trim_end_char(tag, '>') }
}

/// An end tag is looked for as it is written; loosely, without its closing angle bracket.
pub open spec fn end_probe(tag: Seq<char>) -> Probe {
    Probe { exact: tag, loose: trim_end_char(tag, '>') }
}

pub open spec fn start_probes(tags: Seq<Seq<char>>) -> Seq<Probe> {
    tags.map_values(|t: Seq<char>| start_probe(t))
}

pub open spec fn end_tag_probes(tags: Seq<Seq<char>>) -> Seq<Probe> {
    tags.map_values(|t: Seq<char>| end_probe(t))
}

/// The known start tags, in the order in which they are looked for.
pub open spec fn known_starts() -> Seq<Seq<char>> {
    seq![
        TOOL_CALL_START@,
        NEW_TOOL_CALL_START@,
        NEW_TOOL_CALL_SENTINEL@,
        PIPE_TOOL_CALLS_START@,
        SECTION_START@,
    ]
}

/// Where a block of tool calls begins in `s`: the known start tags come first, then the
/// additional ones, each in its order.
pub open spec fn find_start(s: Seq<char>, starts: Seq<Seq<char>>) -> Option<(int, int)> {
    first_hit(s, start_probes(known_starts() + starts))
}

/// Where the probe for one start tag hits `s`.
pub open spec fn find_one_start(s: Seq<char>, tag: Seq<char>) -> Option<(int, int)> {
    hit(s, start_probe(tag))
}

/// A start tag's text can be turned into a closing tag: its first character, which the slash
/// goes behind, is there and takes one byte.
pub open spec fn can_be_closed(tag: Seq<char>) -> bool {
    let open = trim_end_char(tag, '>');
    open.len() > 0 && open[0] <= '\u{7f}'
}

/// The closing tag of a start tag: a slash behind the first character.
pub open spec fn closing_tag(tag: Seq<char>) -> Seq<char> {
    "</"@ + trim_end_char(tag, '>').skip(1) + ">"@
}

/// The closing tag of a start tag in bars, with one bar missing: `</tag|>` for `<|tag|>`.
pub open spec fn half_piped_closing_tag(tag: Seq<char>) -> Seq<char> {
    "</"@ + trim_end_char(trim_end_char(tag, '>').skip(2), '|') + "|>"@
}

/// A start tag that opens a section: additional end tags do not close it.
pub open spec fn opens_section(tag: Seq<char>) -> bool {
    trim_end_char(SECTION_START@, '>').is_prefix_of(tag) || trim_end_char(
        PIPE_TOOL_CALLS_START@,
        '>',
    ).is_prefix_of(tag)
}

/// The probes for the closing tags of a start tag.
pub open spec fn closing_probes(start_tag: Option<Seq<char>>) -> Seq<Probe> {
    match start_tag {
        Some(t) => if "<|"@.is_prefix_of(trim_end_char(t, '>')) {
            seq![end_probe(closing_tag(t)), end_probe(half_piped_closing_tag(t))]
        } else {
            seq![end_probe(closing_tag(t))]
        },
        None => seq![],
    }
}

/// The end tags that close a block: the known ones, then the additional ones. A section is
/// closed by its own end tag before all others, and by the additional ones not at all.
pub open spec fn ends_in_force(
    start_tag: Option<Seq<char>>,
    ends: Seq<Seq<char>>,
) -> Seq<Seq<char>> {
    if start_tag matches Some(t) && opens_section(t) {
        seq![SECTION_END@, TOOL_CALL_END@]
    } else {
        seq![TOOL_CALL_END@, SECTION_END@] + ends
    }
}

/// The start tags that end a block, because another begins there.
pub open spec fn starts_in_force(
    start_tag: Option<Seq<char>>,
    starts: Seq<Seq<char>>,
) -> Seq<Seq<char>> {
    match start_tag {
        Some(t) => seq![t] + (known_starts() + starts),
        None => known_starts() + starts,
    }
}

/// All that ends a block of tool calls, in the order in which it is looked for.
pub open spec fn end_probes(
    starts: Seq<Seq<char>>,
    ends: Seq<Seq<char>>,
    start_tag: Option<Seq<char>>,
) -> Seq<Probe> {
    closing_probes(start_tag) + end_tag_probes(ends_in_force(start_tag, ends)) + start_probes(
        starts_in_force(start_tag, starts),
    )
}

/// Where a block of tool calls ends in `s`, looked for from position `from` on.
pub open spec fn find_end(
    s: Seq<char>,
    from: int,
    starts: Seq<Seq<char>>,
    ends: Seq<Seq<char>>,
    start_tag: Option<Seq<char>>,
) -> Option<(int, int)> {
    match first_hit(s.skip(from), end_probes(starts, ends, start_tag)) {
        Some((i, n)) => Some((from + i, n)),
        None => None,
    }
}

/// A hit lies within the text.
pub proof fn lemma_hit_bounds(s: Seq<char>, p: Probe)
    ensures
        hit(s, p) matches Some((i, n)) ==> 0 <= i && 0 <= n && i + n <= s.len(),
{
    lemma_find(s, p.exact);
    lemma_find(normalized(s), normalized(p.loose));
}

pub proof fn lemma_first_hit_bounds(s: Seq<char>, probes: Seq<Probe>)
    ensures
        first_hit(s, probes) matches Some((i, n)) ==> 0 <= i && 0 <= n && i + n <= s.len(),
    decreases probes.len(),
{
    if probes.len() > 0 {
        lemma_hit_bounds(s, probes[0]);
        lemma_first_hit_bounds(s, probes.skip(1));
    }
}

/// The position and length that a search gave, as mathematical integers.
pub open spec fn span(r: Option<(usize, usize)>) -> Option<(int, int)> {
    match r {
        Some((i, n)) => Some((i as int, n as int)),
        None => None,
    }
}

/// A search result in bytes and text is the hit `h` in `s`.
pub open spec fn is_hit(s: Seq<char>, r: Option<(usize, &str)>, h: Option<(int, int)>) -> bool {
    match (r, h) {
        (Some((b, t)), Some((i, n))) => b == byte_pos(s, i) && t@ == s.subrange(i, i + n),
        (None, None) => true,
        _ => false,
    }
}

/// Looks for one probe.
fn probe(s: &[char], exact: &[char], loose: &[char]) -> (r: Option<(usize, usize)>)
    ensures
        span(r) == hit(s@, (Probe { exact: exact@, loose: loose@ })),
        r matches Some((i, n)) ==> i + n <= s@.len(),
{
    proof {
        lemma_hit_bounds(s@, Probe { exact: exact@, loose: loose@ });
    }
    match find_in(s, exact) {
        Some(i) => Some((i, exact.len())),
        None => match find_loosely(s, loose) {
            Some(i) => Some((i, loose.len())),
            None => None,
        },
    }
}

/// Looks for one start tag.
pub fn probe_start(s: &[char], tag: &[char]) -> (r: Option<(usize, usize)>)
    ensures
        span(r) == hit(s@, start_probe(tag@)),
        r matches Some((i, n)) ==> i + n <= s@.len(),
{
    let partial = without_trailing(tag, '>');
    probe(s, partial, partial)
}

/// Looks for one end tag.
fn probe_end(s: &[char], tag: &[char]) -> (r: Option<(usize, usize)>)
    ensures
        span(r) == hit(s@, end_probe(tag@)),
        r matches Some((i, n)) ==> i + n <= s@.len(),
{
    probe(s, tag, without_trailing(tag, '>'))
}

pub proof fn lemma_first_hit_append(s: Seq<char>, a: Seq<Probe>, b: Seq<Probe>)
    ensures
        first_hit(s, a + b) == (match first_hit(s, a) {
            Some(h) => Some(h),
            None => first_hit(s, b),
        }),
    decreases a.len(),
{
    if a.len() == 0 {
        assert(a + b =~= b);
    } else {
        assert((a + b).skip(1) =~= a.skip(1) + b);
        lemma_first_hit_append(s, a.skip(1), b);
    }
}

/// Looks for start tags one after the other.
fn probe_starts(s: &[char], tags: &Vec<String>) -> (r: Option<(usize, usize)>)
    ensures
        span(r) == first_hit(s@, start_probes(texts(tags@))),
        r matches Some((i, n)) ==> i + n <= s@.len(),
{
    let ghost probes = start_probes(texts(tags@));
    let mut k: usize = 0;
    assert(probes.skip(0) =~= probes);
    while k < tags.len()
        invariant
            k <= tags@.len(),
            probes == start_probes(texts(tags@)),
            first_hit(s@, probes.skip(k as int)) == first_hit(s@, probes),
        decreases tags@.len() - k,
    {
        let tag = chars_of(tags[k].as_str());
        assert(probes.skip(k as int)[0] == start_probe(tag@));
        assert(probes.skip(k as int).skip(1) =~= probes.skip(k + 1));
        let r = probe_start(s, tag.as_slice());
        if r.is_some() {
            return r;
        }
        k = k + 1;
    }
    None
}

/// Looks for end tags one after the other.
fn probe_ends(s: &[char], tags: &Vec<String>) -> (r: Option<(usize, usize)>)
    ensures
        span(r) == first_hit(s@, end_tag_probes(texts(tags@))),
        r matches Some((i, n)) ==> i + n <= s@.len(),
{
    let ghost probes = end_tag_probes(texts(tags@));
    let mut k: usize = 0;
    assert(probes.skip(0) =~= probes);
    while k < tags.len()
        invariant
            k <= tags@.len(),
            probes == end_tag_probes(texts(tags@)),
            first_hit(s@, probes.skip(k as int)) == first_hit(s@, probes),
        decreases tags@.len() - k,
    {
        let tag = chars_of(tags[k].as_str());
        assert(probes.skip(k as int)[0] == end_probe(tag@));
        assert(probes.skip(k as int).skip(1) =~= probes.skip(k + 1));
        let r = probe_end(s, tag.as_slice());
        if r.is_some() {
            return r;
        }
        k = k + 1;
    }
    None
}

/// Looks for the known start tags, then for the additional ones.
pub fn seek_start(s: &[char], cfg: &TagConfig) -> (r: Option<(usize, usize)>)
    ensures
        span(r) == find_start(s@, cfg.start_texts()),
        r matches Some((i, n)) ==> i + n <= s@.len(),
{
    proof {
        let k = start_probes(known_starts());
        assert(start_probes(known_starts() + cfg.start_texts()) =~= k + start_probes(
            cfg.start_texts(),
        ));
        lemma_first_hit_append(s@, k, start_probes(cfg.start_texts()));
        assert(k.skip(1).skip(1) =~= k.skip(2));
        assert(k.skip(2).skip(1) =~= k.skip(3));
        assert(k.skip(3).skip(1) =~= k.skip(4));
        assert(k.skip(4).skip(1) =~= Seq::<Probe>::empty());
        reveal_with_fuel(first_hit, 6);
    }
    let r = probe_start(s, chars_of(TOOL_CALL_START).as_slice());
    if r.is_some() {
        return r;
    }
    let r = probe_start(s, chars_of(NEW_TOOL_CALL_START).as_slice());
    if r.is_some() {
        return r;
    }
    let r = probe_start(s, chars_of(NEW_TOOL_CALL_SENTINEL).as_slice());
    if r.is_some() {
        return r;
    }
    let r = probe_start(s, chars_of(PIPE_TOOL_CALLS_START).as_slice());
    if r.is_some() {
        return r;
    }
    let r = probe_start(s, chars_of(SECTION_START).as_slice());
    if r.is_some() {
        return r;
    }
    probe_starts(s, &cfg.starts)
}

/// The closing tag of a start tag.
fn close_of(tag: &[char]) -> (r: Vec<char>)
    requires
        can_be_closed(tag@),
    ensures
        r@ == closing_tag(tag@),
{
    let open = without_trailing(tag, '>');
    let mut r: Vec<char> = chars_of("</");
    extend_chars(&mut r, part(open, 1, open.len()));
    extend_chars(&mut r, chars_of(">").as_slice());
    assert(open@.subrange(1, open@.len() as int) =~= open@.skip(1));
    assert(r@ =~= closing_tag(tag@));
    r
}

/// The closing tag of a start tag in bars, with one bar missing.
fn half_piped_close_of(tag: &[char]) -> (r: Vec<char>)
    requires
        "<|"@.is_prefix_of(trim_end_char(tag@, '>')),
    ensures
        r@ == half_piped_closing_tag(tag@),
{
    proof {
        reveal_strlit("<|");
    }
    let open = without_trailing(tag, '>');
    let mut r: Vec<char> = chars_of("</");
    extend_chars(&mut r, without_trailing(part(open, 2, open.len()), '|'));
    extend_chars(&mut r, chars_of("|>").as_slice());
    assert(open@.subrange(2, open@.len() as int) =~= open@.skip(2));
    assert(r@ =~= half_piped_closing_tag(tag@));
    r
}

/// Looks for the closing tags of a start tag.
fn probe_closing(s: &[char], tag: &[char]) -> (r: Option<(usize, usize)>)
    requires
        can_be_closed(tag@),
    ensures
        span(r) == first_hit(s@, closing_probes(Some(tag@))),
        r matches Some((i, n)) ==> i + n <= s@.len(),
{
    proof {
        let p = closing_probes(Some(tag@));
        reveal_with_fuel(first_hit, 3);
        assert(p.len() == 2 ==> p.skip(1).skip(1) =~= Seq::<Probe>::empty());
        assert(p.len() == 1 ==> p.skip(1) =~= Seq::<Probe>::empty());
    }
    let r = probe_end(s, close_of(tag).as_slice());
    if r.is_some() {
        return r;
    }
    if begins_with(without_trailing(tag, '>'), chars_of("<|").as_slice()) {
        probe_end(s, half_piped_close_of(tag).as_slice())
    } else {
        None
    }
}

/// Whether a start tag opens a section.
fn is_section(tag: &[char]) -> (r: bool)
    ensures
        r == opens_section(tag@),
{
    begins_with(tag, without_trailing(chars_of(SECTION_START).as_slice(), '>')) || begins_with(
        tag,
        without_trailing(chars_of(PIPE_TOOL_CALLS_START).as_slice(), '>'),
    )
}

/// Looks for the end tags that are in force.
fn probe_ends_in_force(s: &[char], cfg: &TagConfig, section: bool) -> (r: Option<(usize, usize)>)
    ensures
        span(r) == first_hit(
            s@,
            end_tag_probes(
                if section {
                    seq![SECTION_END@, TOOL_CALL_END@]
                } else {
                    seq![TOOL_CALL_END@, SECTION_END@] + cfg.end_texts()
                },
            ),
        ),
        r matches Some((i, n)) ==> i + n <= s@.len(),
{
    proof {
        let k = end_tag_probes(seq![TOOL_CALL_END@, SECTION_END@]);
        let sections = end_tag_probes(seq![SECTION_END@, TOOL_CALL_END@]);
        let more = end_tag_probes(cfg.end_texts());
        assert(end_tag_probes(seq![TOOL_CALL_END@, SECTION_END@] + cfg.end_texts()) =~= k + more);
        lemma_first_hit_append(s@, k, more);
        assert(k.skip(1).skip(1) =~= Seq::<Probe>::empty());
        assert(sections.skip(1).skip(1) =~= Seq::<Probe>::empty());
        reveal_with_fuel(first_hit, 3);
    }
    if section {
        let r = probe_end(s, chars_of(SECTION_END).as_slice());
        if r.is_some() {
            return r;
        }
        return probe_end(s, chars_of(TOOL_CALL_END).as_slice());
    }
    let r = probe_end(s, chars_of(TOOL_CALL_END).as_slice());
    if r.is_some() {
        return r;
    }
    let r = probe_end(s, chars_of(SECTION_END).as_slice());
    if r.is_some() {
        return r;
    }
    probe_ends(s, &cfg.ends)
}

/// Looks for what ends a block of tool calls, from position `from` on.
pub fn seek_end(s: &[char], from: usize, cfg: &TagConfig, start_tag: Option<&[char]>) -> (r: Option<
    (usize, usize),
>)
    requires
        from <= s@.len(),
        start_tag matches Some(t) ==> can_be_closed(t@),
    ensures
        span(r) == find_end(
            s@,
            from as int,
            cfg.start_texts(),
            cfg.end_texts(),
            (match start_tag {
                Some(t) => Some(t@),
                None => None,
            }),
        ),
        r matches Some((i, n)) ==> from <= i && i + n <= s@.len(),
{
    let len: usize = s.len();
    let rest = part(s, from, len);
    assert(rest@ =~= s@.skip(from as int));
    let ghost tag: Option<Seq<char>> = match start_tag {
        Some(t) => Some(t@),
        None => None,
    };
    let ghost known = start_probes(known_starts() + cfg.start_texts());
    let ghost a = closing_probes(tag);
    let ghost b = end_tag_probes(ends_in_force(tag, cfg.end_texts()));
    let ghost c = start_probes(starts_in_force(tag, cfg.start_texts()));
    proof {
        lemma_first_hit_append(rest@, a + b, c);
        lemma_first_hit_append(rest@, a, b);
        if start_tag is Some {
            assert(c =~= seq![start_probe(tag->0)] + known);
            assert(c.skip(1) =~= known);
        } else {
            assert(c =~= known);
        }
        lemma_first_hit_bounds(rest@, end_probes(cfg.start_texts(), cfg.end_texts(), tag));
    }
    let mut section: bool = false;
    if let Some(t) = start_tag {
        if let Some((i, n)) = probe_closing(rest, t) {
            return Some((from + i, n));
        }
        section = is_section(t);
    }
    if let Some((i, n)) = probe_ends_in_force(rest, cfg, section) {
        return Some((from + i, n));
    }
    if let Some(t) = start_tag {
        if let Some((i, n)) = probe_start(rest, t) {
            return Some((from + i, n));
        }
    }
    match seek_start(rest, cfg) {
        Some((i, n)) => Some((from + i, n)),
        None => None,
    }
}

// ---------------------------------------------------------------------------------------
// Searches in strings, with byte offsets
// ---------------------------------------------------------------------------------------
/// A hit in characters, as byte offset and text.
fn hit_in<'a>(s: &'a str, chars: &Vec<char>, h: Option<(usize, usize)>) -> (r: Option<
    (usize, &'a str),
>)
    requires
        chars@ == s@,
        h matches Some((i, n)) ==> i + n <= s@.len(),
    ensures
        is_hit(s@, r, span(h)),
{
    assert(chars@.len() == chars.len());
    match h {
        Some((i, n)) => Some((byte_offset(chars.as_slice(), i), s.substring_char(i, i + n))),
        None => None,
    }
}

/// Looks for `partial` in `haystack` up to variants of tag characters; gives the byte offset
/// and the text that stands there.
pub fn fuzzy_match_tag<'a>(haystack: &'a str, partial: &str) -> (r: Option<(usize, &'a str)>)
    ensures
        is_hit(
            haystack@,
            r,
            (match loose_find(haystack@, partial@) {
                Some(i) => Some((i, partial@.len() as int)),
                None => None,
            }),
        ),
{
    let h = chars_of(haystack);
    let p = chars_of(partial);
    proof {
        lemma_find(normalized(h@), normalized(p@));
    }
    match find_loosely(h.as_slice(), p.as_slice()) {
        Some(i) => hit_in(haystack, &h, Some((i, p.len()))),
        None => None,
    }
}

/// Looks for one start tag, without its closing angle bracket.
pub fn match_start_tag<'a>(s: &'a str, tag: &str) -> (r: Option<(usize, &'a str)>)
    ensures
        is_hit(s@, r, find_one_start(s@, tag@)),
{
    let chars = chars_of(s);
    let h = probe_start(chars.as_slice(), chars_of(tag).as_slice());
    hit_in(s, &chars, h)
}

/// Looks for the start of a block of tool calls.
pub fn find_start_tag_with<'a>(s: &'a str, cfg: &TagConfig) -> (r: Option<(usize, &'a str)>)
    ensures
        is_hit(s@, r, find_start(s@, cfg.start_texts())),
{
    let chars = chars_of(s);
    let h = seek_start(chars.as_slice(), cfg);
    hit_in(s, &chars, h)
}

/// Looks for the end of a block of tool calls, from the byte offset `from` on.
pub fn find_end_tag_with<'a>(
    s: &'a str,
    from: usize,
    cfg: &TagConfig,
    start_tag: Option<&str>,
) -> (r: Option<(usize, &'a str)>)
    requires
        char_pos(s@, from as int) is Some,
        start_tag matches Some(t) ==> can_be_closed(t@),
    ensures
        is_hit(
            s@,
            r,
            find_end(
                s@,
                char_pos(s@, from as int)->0,
                cfg.start_texts(),
                cfg.end_texts(),
                (match start_tag {
                    Some(t) => Some(t@),
                    None => None,
                }),
            ),
        ),
{
    let chars = chars_of(s);
    match position_of_byte(chars.as_slice(), from) {
        Some(i) => {
            let h = match start_tag {
                Some(t) => {
                    let tag = chars_of(t);
                    seek_end(chars.as_slice(), i, cfg, Some(tag.as_slice()))
                },
                None => seek_end(chars.as_slice(), i, cfg, None),
            };
            hit_in(s, &chars, h)
        },
        None => None,
    }
}

/// One of two texts begins with the other.
pub open spec fn one_begins_other(a: Seq<char>, b: Seq<char>) -> bool {
    a.is_prefix_of(b) || b.is_prefix_of(a)
}

/// `tag` begins with `<` and is a start tag, the beginning of one, or begins with one, up to
/// variants of tag characters.
pub open spec fn resembles_start(tag: Seq<char>, starts: Seq<Seq<char>>) -> bool {
    let all = known_starts() + starts;
    tag.len() > 0 && tag[0] == '<' && exists|k: int|
        0 <= k < all.len() && one_begins_other(
            normalized(tag),
            normalized(trim_end_char(#[trigger] all[k], '>')),
        )
}

/// Whether a normalized tag resembles one start tag.
fn resembles(tag: &[char], start: &str) -> (r: bool)
    ensures
        r == one_begins_other(tag@, normalized(trim_end_char(start@, '>'))),
{
    let start_chars = chars_of(start);
    let p = normalize(without_trailing(start_chars.as_slice(), '>'));
    begins_with(p.as_slice(), tag) || begins_with(tag, p.as_slice())
}

/// Whether a tag is a start tag or resembles one.
pub fn is_start_tag(tag: &str, cfg: &TagConfig) -> (r: bool)
    ensures
        r == resembles_start(tag@, cfg.start_texts()),
{
    let chars = chars_of(tag);
    if chars.len() == 0 || chars[0] != '<' {
        return false;
    }
    let norm = normalize(chars.as_slice());
    let ghost all = known_starts() + cfg.start_texts();
    proof {
        assert(all[0] == TOOL_CALL_START@ && all[1] == NEW_TOOL_CALL_START@ && all[2]
            == NEW_TOOL_CALL_SENTINEL@ && all[3] == PIPE_TOOL_CALLS_START@ && all[4]
            == SECTION_START@);
    }
    if resembles(norm.as_slice(), TOOL_CALL_START) || resembles(
        norm.as_slice(),
        NEW_TOOL_CALL_START,
    ) || resembles(norm.as_slice(), NEW_TOOL_CALL_SENTINEL) || resembles(
        norm.as_slice(),
        PIPE_TOOL_CALLS_START,
    ) || resembles(norm.as_slice(), SECTION_START) {
        return true;
    }
    let mut k: usize = 0;
    while k < cfg.starts.len()
        invariant
            k <= cfg.starts@.len(),
            all == known_starts() + cfg.start_texts(),
            norm@ == normalized(tag@),
            tag@.len() > 0 && tag@[0] == '<',
            forall|j: int|
                0 <= j < 5 + k ==> !one_begins_other(
                    norm@,
                    normalized(trim_end_char(#[trigger] all[j], '>')),
                ),
        decreases cfg.starts@.len() - k,
    {
        assert(all[5 + k] == cfg.starts@[k as int]@);
        if resembles(norm.as_slice(), cfg.starts[k].as_str()) {
            return true;
        }
        k = k + 1;
    }
    false
}

} // verus!
