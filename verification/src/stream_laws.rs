//! What holds of tool calls in a stream of chunks.
use crate::calls::nth_id;
use crate::search::find;
use crate::search::lemma_find;
use crate::search::lemma_find_is;
use crate::search::lemma_trim_end_char_fixed;
use crate::search::occurs_at;
use crate::search::trim_end_char;
use crate::tags::find_start;
use crate::tags::first_hit;
use crate::tags::hit;
use crate::tags::known_starts;
use crate::tags::normalized;
use crate::tags::start_probe;
use crate::tags::start_probes;
use crate::tags::tag_char;
use crate::tags::NEW_TOOL_CALL_SENTINEL;
use crate::tags::NEW_TOOL_CALL_START;
use crate::tags::PIPE_TOOL_CALLS_START;
use crate::tags::SECTION_START;
use crate::tags::TOOL_CALL_START;
use crate::text::byte_len;
use crate::text::char_width;
use crate::text::lemma_byte_len_push;
use crate::text::lemma_byte_pos_between;
use crate::text::lemma_chars_within;
use crate::tool_stream::chunk_outcome;
use crate::tool_stream::drained_step;
use crate::tool_stream::ended_outcome;
use crate::tool_stream::released;
use crate::tool_stream::state_after;
use crate::tool_stream::Event;
use crate::tool_stream::StateView;
use crate::tool_stream::StepView;
use crate::tool_stream::MAX_XML_BUF_LEN;
use crate::tool_stream::W;
use crate::types::ChunkView;
use crate::types::ToolCallView;
use crate::types::Usage;
use vstd::prelude::*;

verus! {

// ---------------------------------------------------------------------------------------
// The width of tags
// ---------------------------------------------------------------------------------------
/// The most bytes that a variant of a tag's character takes.
pub open spec fn widest_char(c: char) -> nat {
    if tag_char(c) == '|' || tag_char(c) == '_' {
        3
    } else {
        char_width(c)
    }
}

/// The most bytes that a variant of the first `n` characters of a tag takes.
pub open spec fn widest(tag: Seq<char>, n: nat) -> nat
    decreases n,
{
    if n == 0 {
        0
    } else {
        widest(tag, (n - 1) as nat) + widest_char(tag[n - 1])
    }
}

/// A start tag, without its closing angle bracket, fits in the sliding window in every variant.
pub open spec fn fits_window(tag: Seq<char>) -> bool {
    let bare = trim_end_char(tag, '>');
    widest(bare, bare.len()) <= W
}

proof fn lemma_variant_width(c: char, d: char)
    requires
        tag_char(c) == tag_char(d),
    ensures
        char_width(c) <= widest_char(d),
{
}

proof fn lemma_widest_grows(tag: Seq<char>, i: nat, j: nat)
    requires
        i <= j,
    ensures
        widest(tag, i) + (j - i) <= widest(tag, j),
    decreases j - i,
{
    if i < j {
        lemma_widest_grows(tag, i, (j - 1) as nat);
    }
}

/// A variant of a part of a tag takes no more bytes than the widest.
proof fn lemma_widest_part(s: Seq<char>, tag: Seq<char>, a: nat, n: nat)
    requires
        n <= s.len(),
        forall|k: int| 0 <= k < s.len() ==> tag_char(#[trigger] s[k]) == tag_char(tag[a + k]),
    ensures
        widest(tag, a) + byte_len(s.take(n as int)) <= widest(tag, a + n),
    decreases n,
{
    if n > 0 {
        lemma_widest_part(s, tag, a, (n - 1) as nat);
        assert(tag_char(s[n - 1]) == tag_char(tag[a + (n - 1)]));
        lemma_variant_width(s[n - 1], tag[a + (n - 1)]);
        assert(s.take(n as int) =~= s.take(n - 1).push(s[n - 1]));
        lemma_byte_len_push(s.take(n - 1), s[n - 1]);
    } else {
        assert(s.take(0) =~= Seq::<char>::empty());
    }
}

/// A variant of an ASCII character takes at most three bytes.
proof fn lemma_widest_ascii(tag: Seq<char>, i: nat, j: nat)
    requires
        i <= j <= tag.len(),
        forall|k: int| 0 <= k < tag.len() ==> #[trigger] tag[k] <= '\u{7f}',
    ensures
        widest(tag, j) <= widest(tag, i) + 3 * (j - i),
    decreases j - i,
{
    if i < j {
        lemma_widest_ascii(tag, i, (j - 1) as nat);
        assert(tag[j - 1] <= '\u{7f}');
    }
}

/// An ASCII tag fits in the sliding window when it is short, or has some letters in front.
proof fn lemma_fits(tag: Seq<char>)
    requires
        tag.len() > 6,
        tag.last() == '>',
        tag[tag.len() - 2] != '>',
        forall|k: int| 0 <= k < tag.len() ==> #[trigger] tag[k] <= '\u{7f}',
        tag[0] == '<' && tag[2] == 't' && tag[3] == 'o' && tag[4] == 'o' && tag[5] == 'l',
        tag.len() <= 28,
    ensures
        fits_window(tag),
{
    let bare = tag.drop_last();
    lemma_trim_end_char_fixed(bare, '>');
    assert(trim_end_char(tag, '>') == bare);
    assert forall|k: int| 0 <= k < bare.len() implies #[trigger] bare[k] <= '\u{7f}' by {
        assert(bare[k] == tag[k]);
    }
    assert(widest(bare, 6) <= 8) by {
        reveal_with_fuel(widest, 7);
        assert(bare[1] <= '\u{7f}');
    }
    lemma_widest_ascii(bare, 6, bare.len());
}

/// The known start tags fit in the sliding window.
pub proof fn law_known_tags_fit()
    ensures
        forall|k: int| 0 <= k < known_starts().len() ==> fits_window(#[trigger] known_starts()[k]),
{
    reveal_strlit("<|tool_calls_begin|>");
    reveal_strlit("<|tool_calls_start|>");
    reveal_strlit("<|tool_calls_sentinel|>");
    reveal_strlit("<|tool_calls|>");
    reveal_strlit("<|tool_calls_section_begin|>");
    lemma_fits(TOOL_CALL_START@);
    lemma_fits(NEW_TOOL_CALL_START@);
    lemma_fits(NEW_TOOL_CALL_SENTINEL@);
    lemma_fits(PIPE_TOOL_CALLS_START@);
    lemma_fits(SECTION_START@);
}

// ---------------------------------------------------------------------------------------
// The sliding window
// ---------------------------------------------------------------------------------------
/// What a window keeps: as much as the width, or a little more where that would cut a
/// character, or all there is.
pub proof fn law_window_width(window: Seq<char>)
    ensures
        ({
            let kept = window.skip(released(window) as int);
            &&& released(window) <= window.len()
            &&& window == window.take(released(window) as int) + kept
            &&& byte_len(kept) <= W + 3
            &&& released(window) > 0 ==> byte_len(kept) >= W
        }),
{
    let bytes = byte_len(window);
    let max = if bytes > W {
        (bytes - W) as nat
    } else {
        0
    };
    let n = released(window) as int;
    lemma_chars_within(window, max);
    lemma_byte_pos_between(window, n, window.len() as int);
    assert(window.subrange(n, window.len() as int) =~= window.skip(n));
    assert(window =~= window.take(n) + window.skip(n));
    lemma_byte_pos_between(window, 0, n);
    assert(window.take(0) =~= Seq::<char>::empty());
    if n < window.len() {
        assert(window.take(n + 1) =~= window.take(n).push(window[n]));
        lemma_byte_len_push(window.take(n), window[n]);
    } else {
        assert(window.skip(n) =~= Seq::<char>::empty());
    }
}

/// Where `p` does not begin in `r`, it is found in `r + y` where it is found in `y`.
pub proof fn lemma_find_behind(r: Seq<char>, y: Seq<char>, p: Seq<char>)
    requires
        forall|i: int| 0 <= i < r.len() ==> !occurs_at(r + y, p, i),
    ensures
        find(r + y, p) == (match find(y, p) {
            Some(i) => Some(r.len() + i),
            None => None,
        }),
{
    let s = r + y;
    let n = r.len() as int;
    assert forall|i: int| 0 <= i implies occurs_at(s, p, n + i) == occurs_at(y, p, i) by {
        if i + p.len() <= y.len() {
            assert(s.subrange(n + i, n + i + p.len()) =~= y.subrange(i, i + p.len()));
        }
    }
    lemma_find(s, p);
    lemma_find(y, p);
    match find(y, p) {
        Some(i) => {
            assert(occurs_at(s, p, n + i));
            assert forall|j: int| 0 <= j < n + i implies !occurs_at(s, p, j) by {
                if j >= n {
                    assert(!occurs_at(y, p, j - n));
                }
            }
            lemma_find_is(s, p, n + i);
        },
        None => {
            if let Some(k) = find(s, p) {
                assert(occurs_at(s, p, k));
                assert(k >= n);
                assert(occurs_at(y, p, k - n));
            }
        },
    }
}

/// What stands in a part of a text stands in the text.
pub proof fn lemma_occurs_within(a: Seq<char>, b: Seq<char>, c: Seq<char>, p: Seq<char>, i: int)
    requires
        occurs_at(b, p, i),
    ensures
        occurs_at(a + b + c, p, a.len() + i),
{
    let s = a + b + c;
    let n = a.len() as int;
    assert(s.subrange(n + i, n + i + p.len()) =~= b.subrange(i, i + p.len()));
}

/// The same up to variants.
pub proof fn lemma_normalized_concat(a: Seq<char>, b: Seq<char>)
    ensures
        normalized(a + b) == normalized(a) + normalized(b),
{
    assert(normalized(a + b) =~= normalized(a) + normalized(b));
}

/// A tag that does not stand in `r + t` does not begin in `r` either when more text follows,
/// because `t` is too long to lie inside it.
proof fn lemma_tag_begins_behind(r: Seq<char>, t: Seq<char>, more: Seq<char>, tag: Seq<char>, i: int)
    requires
        0 <= i < r.len(),
        widest(tag, tag.len()) <= W,
        byte_len(t) >= W,
        forall|j: int| !occurs_at(normalized(r + t), normalized(tag), j),
    ensures
        !occurs_at(normalized(r + (t + more)), normalized(tag), i),
{
    let whole = r + (t + more);
    let nt = normalized(tag);
    if occurs_at(normalized(whole), nt, i) {
        if i + tag.len() <= r.len() + t.len() {
            assert(normalized(r + t).subrange(i, i + tag.len()) =~= normalized(whole).subrange(
                i,
                i + tag.len(),
            ));
            assert(occurs_at(normalized(r + t), nt, i));
        } else {
            let a = (r.len() - i) as nat;
            assert forall|k: int| 0 <= k < t.len() implies tag_char(#[trigger] t[k]) == tag_char(
                tag[a + k],
            ) by {
                assert(normalized(whole).subrange(i, i + tag.len())[a + k] == normalized(whole)[i
                    + (a + k)]);
                assert(nt[a + k] == tag_char(tag[a + k]));
                assert(whole[i + (a + k)] == t[k]);
            }
            lemma_widest_part(t, tag, a, t.len());
            assert(t.take(t.len() as int) =~= t);
            lemma_widest_grows(tag, 0, a);
            lemma_widest_grows(tag, a + t.len(), tag.len());
        }
    }
}

/// The position of a hit, with so many characters before it.
pub open spec fn moved(h: Option<(int, int)>, by: int) -> Option<(int, int)> {
    match h {
        Some((i, n)) => Some((by + i, n)),
        None => None,
    }
}

proof fn lemma_hit_moves(r: Seq<char>, t: Seq<char>, more: Seq<char>, tag: Seq<char>)
    requires
        hit(r + t, start_probe(tag)) is None,
        fits_window(tag),
        r.len() > 0 ==> byte_len(t) >= W,
    ensures
        hit(r + (t + more), start_probe(tag)) == moved(
            hit(t + more, start_probe(tag)),
            r.len() as int,
        ),
{
    let bare = trim_end_char(tag, '>');
    let y = t + more;
    let whole = r + y;
    lemma_find(r + t, bare);
    if bare.len() == 0 {
        assert((r + t).subrange(0, 0) =~= bare);
        assert(occurs_at(r + t, bare, 0));
    }
    lemma_find(normalized(r + t), normalized(bare));
    assert forall|i: int| 0 <= i < r.len() implies !occurs_at(
        normalized(whole),
        normalized(bare),
        i,
    ) by {
        lemma_tag_begins_behind(r, t, more, bare, i);
    }
    assert forall|i: int| 0 <= i < r.len() implies !occurs_at(whole, bare, i) by {
        if occurs_at(whole, bare, i) {
            assert(normalized(whole).subrange(i, i + bare.len()) =~= normalized(
                whole.subrange(i, i + bare.len()),
            ));
            assert(occurs_at(normalized(whole), normalized(bare), i));
        }
    }
    lemma_find_behind(r, y, bare);
    lemma_normalized_concat(r, y);
    lemma_find_behind(normalized(r), normalized(y), normalized(bare));
}

proof fn lemma_first_hit_moves(r: Seq<char>, t: Seq<char>, more: Seq<char>, tags: Seq<Seq<char>>)
    requires
        first_hit(r + t, start_probes(tags)) is None,
        forall|k: int| 0 <= k < tags.len() ==> fits_window(#[trigger] tags[k]),
        r.len() > 0 ==> byte_len(t) >= W,
    ensures
        first_hit(r + (t + more), start_probes(tags)) == moved(
            first_hit(t + more, start_probes(tags)),
            r.len() as int,
        ),
    decreases tags.len(),
{
    if tags.len() > 0 {
        assert(fits_window(tags[0]));
        lemma_hit_moves(r, t, more, tags[0]);
        assert(start_probes(tags).skip(1) =~= start_probes(tags.skip(1)));
        assert forall|k: int| 0 <= k < tags.skip(1).len() implies fits_window(
            #[trigger] tags.skip(1)[k],
        ) by {
            assert(tags.skip(1)[k] == tags[k + 1]);
        }
        lemma_first_hit_moves(r, t, more, tags.skip(1));
    }
}

proof fn lemma_find_start_moves(
    r: Seq<char>,
    t: Seq<char>,
    more: Seq<char>,
    starts: Seq<Seq<char>>,
)
    requires
        find_start(r + t, starts) is None,
        forall|k: int| 0 <= k < starts.len() ==> fits_window(#[trigger] starts[k]),
        r.len() > 0 ==> byte_len(t) >= W,
    ensures
        find_start(r + (t + more), starts) == moved(find_start(t + more, starts), r.len() as int),
{
    law_known_tags_fit();
    let tags = known_starts() + starts;
    assert forall|k: int| 0 <= k < tags.len() implies fits_window(#[trigger] tags[k]) by {
        if k < known_starts().len() {
            assert(tags[k] == known_starts()[k]);
        } else {
            assert(tags[k] == starts[k - known_starts().len()]);
        }
    }
    lemma_first_hit_moves(r, t, more, tags);
}

/// No start tag is cut by the window: whatever text follows, a start tag is found in what the
/// window kept and that text exactly where it stands in the whole.
pub proof fn law_window_cuts_no_tag(
    window: Seq<char>,
    more: Seq<char>,
    starts: Seq<Seq<char>>,
)
    requires
        find_start(window, starts) is None,
        forall|k: int| 0 <= k < starts.len() ==> fits_window(#[trigger] starts[k]),
    ensures
        find_start(window + more, starts) == moved(
            find_start(window.skip(released(window) as int) + more, starts),
            released(window) as int,
        ),
{
    law_window_width(window);
    let n = released(window) as int;
    let r = window.take(n);
    let t = window.skip(n);
    assert(r + t =~= window);
    assert(r + (t + more) =~= window + more);
    lemma_find_start_moves(r, t, more, starts);
}

// ---------------------------------------------------------------------------------------
// Whole streams
// ---------------------------------------------------------------------------------------
/// The content in the first choice of a chunk.
pub open spec fn chunk_text(c: ChunkView) -> Seq<char> {
    if c.choices.len() == 0 {
        seq![]
    } else {
        match c.choices[0].delta.content {
            Some(t) => t,
            None => seq![],
        }
    }
}

/// The content of some chunks, one behind the other.
pub open spec fn chunks_text(chunks: Seq<ChunkView>) -> Seq<char>
    decreases chunks.len(),
{
    if chunks.len() == 0 {
        seq![]
    } else {
        chunk_text(chunks[0]) + chunks_text(chunks.skip(1))
    }
}

/// The content that a step gives to the consumer.
pub open spec fn step_text(step: StepView) -> Seq<char> {
    match step {
        StepView::Emit(c) => chunk_text(c),
        _ => seq![],
    }
}

/// The state after a chunk, the content given to the consumer, and the number of the next
/// identifier.
#[verifier::opaque]
pub open spec fn after_chunk(
    state: StateView,
    chunk: ChunkView,
    starts: Seq<Seq<char>>,
    ends: Seq<Seq<char>>,
    first: u64,
) -> (StateView, Seq<char>, u64) {
    let o = chunk_outcome(chunk, state, starts, ends, first);
    (state_after(state, o), step_text(o.step), nth_id(first, o.ids))
}

/// The tool calls that a step gives to the consumer.
pub open spec fn step_calls(step: StepView) -> Seq<ToolCallView> {
    match step {
        StepView::Emit(c) => if c.choices.len() == 0 {
            seq![]
        } else {
            match c.choices[0].delta.tool_calls {
                Some(calls) => calls,
                None => seq![],
            }
        },
        _ => seq![],
    }
}

/// The tool calls that are given to the consumer for a chunk.
#[verifier::opaque]
pub open spec fn chunk_calls(
    state: StateView,
    chunk: ChunkView,
    starts: Seq<Seq<char>>,
    ends: Seq<Seq<char>>,
    first: u64,
) -> Seq<ToolCallView> {
    step_calls(chunk_outcome(chunk, state, starts, ends, first).step)
}

/// The tool calls that are given to the consumer for some chunks.
pub open spec fn run_calls(
    state: StateView,
    chunks: Seq<ChunkView>,
    starts: Seq<Seq<char>>,
    ends: Seq<Seq<char>>,
    first: u64,
) -> Seq<ToolCallView>
    decreases chunks.len(),
{
    if chunks.len() == 0 {
        seq![]
    } else {
        let (next, _, id) = after_chunk(state, chunks[0], starts, ends, first);
        chunk_calls(state, chunks[0], starts, ends, first) + run_calls(
            next,
            chunks.skip(1),
            starts,
            ends,
            id,
        )
    }
}

/// The state after some chunks, and the content given to the consumer on the way.
pub open spec fn run(
    state: StateView,
    chunks: Seq<ChunkView>,
    starts: Seq<Seq<char>>,
    ends: Seq<Seq<char>>,
    first: u64,
) -> (StateView, Seq<char>)
    decreases chunks.len(),
{
    if chunks.len() == 0 {
        (state, seq![])
    } else {
        let (next, given, id) = after_chunk(state, chunks[0], starts, ends, first);
        let (end, text) = run(next, chunks.skip(1), starts, ends, id);
        (end, given + text)
    }
}

/// A part of a text without a start tag has none.
proof fn lemma_no_hit_within(a: Seq<char>, b: Seq<char>, c: Seq<char>, tag: Seq<char>)
    requires
        hit(a + b + c, start_probe(tag)) is None,
    ensures
        hit(b, start_probe(tag)) is None,
{
    let bare = trim_end_char(tag, '>');
    let s = a + b + c;
    lemma_find(s, bare);
    lemma_find(b, bare);
    if let Some(i) = find(b, bare) {
        lemma_occurs_within(a, b, c, bare, i);
    }
    lemma_normalized_concat(a, b);
    lemma_normalized_concat(a + b, c);
    lemma_find(normalized(s), normalized(bare));
    lemma_find(normalized(b), normalized(bare));
    if let Some(i) = find(normalized(b), normalized(bare)) {
        lemma_occurs_within(normalized(a), normalized(b), normalized(c), normalized(bare), i);
    }
}

proof fn lemma_no_first_hit_within(
    a: Seq<char>,
    b: Seq<char>,
    c: Seq<char>,
    tags: Seq<Seq<char>>,
)
    requires
        first_hit(a + b + c, start_probes(tags)) is None,
    ensures
        first_hit(b, start_probes(tags)) is None,
    decreases tags.len(),
{
    if tags.len() > 0 {
        lemma_no_hit_within(a, b, c, tags[0]);
        assert(start_probes(tags).skip(1) =~= start_probes(tags.skip(1)));
        lemma_no_first_hit_within(a, b, c, tags.skip(1));
    }
}

pub proof fn lemma_no_start_within(a: Seq<char>, b: Seq<char>, c: Seq<char>, starts: Seq<Seq<char>>)
    requires
        find_start(a + b + c, starts) is None,
    ensures
        find_start(b, starts) is None,
{
    lemma_no_first_hit_within(a, b, c, known_starts() + starts);
}

/// One chunk whose content, behind the window, holds no start tag.
pub proof fn lemma_plain_chunk(
    window: Seq<char>,
    chunk: ChunkView,
    starts: Seq<Seq<char>>,
    ends: Seq<Seq<char>>,
    first: u64,
)
    requires
        find_start(window + chunk_text(chunk), starts) is None,
    ensures
        after_chunk(StateView::Detecting(window), chunk, starts, ends, first) matches (
            StateView::Detecting(kept),
            given,
            id,
        ) && given + kept == window + chunk_text(chunk) && id == first,
{
    reveal(after_chunk);
    let whole = window + chunk_text(chunk);
    if chunk_text(chunk).len() == 0 {
        assert(whole =~= window);
        assert(chunk_text(chunk) + window =~= window);
        assert(window + Seq::<char>::empty() =~= window);
    } else {
        law_window_width(whole);
        let n = released(whole) as int;
        if n == 0 {
            assert(whole.skip(0) =~= whole);
            assert(Seq::<char>::empty() + whole =~= whole);
        }
    }
}

/// Text without a start tag passes unchanged: what the consumer was given and what the window
/// still holds is, in order, all that came in.
pub proof fn law_plain_text_passes(
    window: Seq<char>,
    chunks: Seq<ChunkView>,
    starts: Seq<Seq<char>>,
    ends: Seq<Seq<char>>,
    first: u64,
)
    requires
        find_start(window + chunks_text(chunks), starts) is None,
    ensures
        run(StateView::Detecting(window), chunks, starts, ends, first) matches (
            StateView::Detecting(kept),
            given,
        ) && given + kept == window + chunks_text(chunks),
    decreases chunks.len(),
{
    if chunks.len() == 0 {
        assert(Seq::<char>::empty() + window =~= window + chunks_text(chunks));
    } else {
        let text = chunk_text(chunks[0]);
        let rest = chunks_text(chunks.skip(1));
        assert(Seq::<char>::empty() + (window + text) + rest =~= window + chunks_text(chunks));
        lemma_no_start_within(seq![], window + text, rest, starts);
        lemma_plain_chunk(window, chunks[0], starts, ends, first);
        let (next, out, id) = after_chunk(
            StateView::Detecting(window),
            chunks[0],
            starts,
            ends,
            first,
        );
        let kept = next->Detecting_0;
        assert(out + (kept + rest) + Seq::<char>::empty() =~= window + chunks_text(chunks));
        lemma_no_start_within(out, kept + rest, seq![], starts);
        law_plain_text_passes(kept, chunks.skip(1), starts, ends, id);
        let (end, given) = run(next, chunks.skip(1), starts, ends, id);
        let last = end->Detecting_0;
        assert((out + given) + last =~= out + (given + last));
        assert(out + (kept + rest) =~= window + chunks_text(chunks));
    }
}

/// A stream of text without a start tag gives the consumer all of its text, the rest of it when
/// the inner stream ends.
pub proof fn law_plain_stream_unchanged(
    chunks: Seq<ChunkView>,
    starts: Seq<Seq<char>>,
    ends: Seq<Seq<char>>,
    model: Seq<char>,
    id: Seq<char>,
    created: u64,
    first: u64,
)
    requires
        find_start(chunks_text(chunks), starts) is None,
    ensures
        ({
            let (end, given) = run(StateView::Detecting(seq![]), chunks, starts, ends, first);
            let o = ended_outcome(end, false, model, id, created, first);
            given + step_text(o.step) == chunks_text(chunks)
        }),
{
    let nothing = Seq::<char>::empty();
    assert(nothing + chunks_text(chunks) =~= chunks_text(chunks));
    law_plain_text_passes(nothing, chunks, starts, ends, first);
    let (end, given) = run(StateView::Detecting(nothing), chunks, starts, ends, first);
    if let StateView::Detecting(kept) = end {
        if kept.len() == 0 {
            assert(given + nothing =~= given + kept);
        }
    }
}

/// A chunk that ends the message without content of its own: it empties the window.
pub open spec fn flushes(c: ChunkView) -> bool {
    c.choices.len() > 0 && c.choices[0].delta.content is None && c.choices[0].finish_reason is Some
}

/// One chunk whose content, behind the window, holds no start tag: a start tag that later text
/// completes is found in what the window keeps.
pub proof fn lemma_chunk_cuts_no_tag(
    window: Seq<char>,
    chunk: ChunkView,
    more: Seq<char>,
    starts: Seq<Seq<char>>,
    ends: Seq<Seq<char>>,
    first: u64,
)
    requires
        find_start(window + chunk_text(chunk), starts) is None,
        forall|k: int| 0 <= k < starts.len() ==> fits_window(#[trigger] starts[k]),
        !flushes(chunk),
    ensures
        after_chunk(StateView::Detecting(window), chunk, starts, ends, first) matches (
            StateView::Detecting(kept),
            given,
            _,
        ) && find_start(window + chunk_text(chunk) + more, starts) == moved(
            find_start(kept + more, starts),
            given.len() as int,
        ),
{
    reveal(after_chunk);
    let whole = window + chunk_text(chunk);
    if chunk_text(chunk).len() == 0 {
        assert(whole =~= window);
    } else {
        law_window_cuts_no_tag(whole, more, starts);
        law_window_width(whole);
    }
}

/// However a text is cut into chunks, no start tag is missed: as long as there is none in what
/// came in, a start tag that later text completes is found in the window and that text exactly
/// where it stands in the whole.
pub proof fn law_split_tag_is_found(
    window: Seq<char>,
    chunks: Seq<ChunkView>,
    more: Seq<char>,
    starts: Seq<Seq<char>>,
    ends: Seq<Seq<char>>,
    first: u64,
)
    requires
        find_start(window + chunks_text(chunks), starts) is None,
        forall|k: int| 0 <= k < starts.len() ==> fits_window(#[trigger] starts[k]),
        forall|k: int| 0 <= k < chunks.len() ==> !flushes(#[trigger] chunks[k]),
    ensures
        run(StateView::Detecting(window), chunks, starts, ends, first) matches (
            StateView::Detecting(kept),
            given,
        ) && find_start(window + chunks_text(chunks) + more, starts) == moved(
            find_start(kept + more, starts),
            given.len() as int,
        ),
    decreases chunks.len(),
{
    if chunks.len() == 0 {
        assert(window + chunks_text(chunks) + more =~= window + more);
    } else {
        let state = StateView::Detecting(window);
        let chunk = chunks[0];
        let rest = chunks_text(chunks.skip(1));
        let whole = window + chunk_text(chunk);
        assert(!flushes(chunks[0]));
        assert(Seq::<char>::empty() + whole + rest =~= window + chunks_text(chunks));
        lemma_no_start_within(seq![], whole, rest, starts);
        lemma_plain_chunk(window, chunk, starts, ends, first);
        lemma_chunk_cuts_no_tag(window, chunk, rest + more, starts, ends, first);
        let (next, out, id) = after_chunk(state, chunk, starts, ends, first);
        let kept = next->Detecting_0;
        assert(whole + (rest + more) =~= window + chunks_text(chunks) + more);
        assert(kept + (rest + more) =~= kept + rest + more);
        assert(out + (kept + rest) + Seq::<char>::empty() =~= window + chunks_text(chunks));
        lemma_no_start_within(out, kept + rest, seq![], starts);
        assert forall|k: int| 0 <= k < chunks.skip(1).len() implies !flushes(
            #[trigger] chunks.skip(1)[k],
        ) by {
            assert(chunks.skip(1)[k] == chunks[k + 1]);
        }
        law_split_tag_is_found(kept, chunks.skip(1), more, starts, ends, id);
    }
}

// ---------------------------------------------------------------------------------------
// After the tool calls
// ---------------------------------------------------------------------------------------
/// Once tool calls were given, no content is given to the consumer any more, unless it comes
/// with a usage: a chunk with content is never passed on itself, and of the chunks that are
/// asked for after it only those are that have a usage or no choices, or the one that ends the
/// message.
pub proof fn law_done_gives_no_content(
    chunk: ChunkView,
    starts: Seq<Seq<char>>,
    ends: Seq<Seq<char>>,
    first: u64,
    event: Event,
    carried: Option<Usage>,
    finish_emitted: bool,
    model: Seq<char>,
    id: Seq<char>,
    created: u64,
)
    ensures
        ({
            let o = chunk_outcome(chunk, StateView::Done, starts, ends, first);
            &&& state_after(StateView::Done, o) is Done
            &&& step_text(o.step).len() == 0
        }),
        drained_step(event, carried, finish_emitted, model, id, created) matches StepView::Emit(c)
            ==> c.usage is Some || chunk_text(c).len() == 0,
{
}

/// Once the chunk that ends the message was given, the end of the inner stream ends this one.
pub proof fn law_message_ended_once(
    event: Event,
    carried: Option<Usage>,
    model: Seq<char>,
    id: Seq<char>,
    created: u64,
    first: u64,
)
    requires
        !(event is Chunk),
    ensures
        ended_outcome(StateView::Done, true, model, id, created, first).step is End,
        drained_step(event, carried, true, model, id, created) is End,
{
}

/// What is collected for a block never grows beyond its limit: it is given back as content
/// instead, all of it.
pub proof fn law_collecting_bounded(
    chunk: ChunkView,
    buf: Seq<char>,
    tag: Seq<char>,
    starts: Seq<Seq<char>>,
    ends: Seq<Seq<char>>,
    first: u64,
)
    requires
        chunk.choices.len() > 0,
        chunk_text(chunk).len() > 0,
    ensures
        ({
            let o = chunk_outcome(chunk, StateView::Collecting(buf, tag), starts, ends, first);
            let whole = buf + chunk_text(chunk);
            if byte_len(whole) > MAX_XML_BUF_LEN {
                o.step is Emit && step_text(o.step) == whole && o.state == Some(
                    StateView::Detecting(seq![]),
                )
            } else {
                o.state matches Some(StateView::Collecting(b, _)) ==> byte_len(b)
                    <= MAX_XML_BUF_LEN
            }
        }),
{
}

} // verus!
