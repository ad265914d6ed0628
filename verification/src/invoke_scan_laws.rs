//! How invocations and their parameters are found in a text: their tags in either case, with other
//! text between them, one behind the other; and what becomes of those that are not complete. Most
//! of it is said of ASCII, in which lower case keeps every character in its place.
use crate::invoke::attr_name;
use crate::invoke::invocations;
use crate::invoke::invocations_from;
use crate::invoke::invoke_at;
use crate::invoke::lemma_param;
use crate::invoke::lowercase;
use crate::invoke::param;
use crate::invoke::params;
use crate::invoke::Invocation;
use crate::invoke::InvokeAt;
use crate::invoke_text_laws::invoke_text;
use crate::invoke_text_laws::lemma_ascii_pos;
use crate::invoke_text_laws::lemma_invoke_read;
use crate::invoke_text_laws::lemma_lowered;
use crate::invoke_text_laws::lowered;
use crate::invoke_text_laws::lowers_as_ascii;
use crate::invoke_text_laws::plain_invocation;
use crate::search::contains;
use crate::search::find;
use crate::search::lemma_find;
use crate::search::lemma_find_is;
use crate::search::occurs_at;
use crate::stream_laws::lemma_find_behind;
use crate::text::byte_pos;
use crate::text::char_pos;
use vstd::prelude::*;
use vstd::utf8::is_ascii_chars;

verus! {

// ---------------------------------------------------------------------------------------
// Parts of a text
// ---------------------------------------------------------------------------------------
/// What stands behind a part of a text is lower-cased as the text is.
proof fn lemma_part_lowers(a: Seq<char>, s: Seq<char>)
    requires
        lowers_as_ascii(a + s),
    ensures
        lowers_as_ascii(s),
        lowercase(s) == lowered(s),
        lowercase(a + s) == lowered(a + s),
        lowered(a + s) == lowered(a) + lowered(s),
        is_ascii_chars(a),
{
    let t = a + s;
    let n = a.len() as int;
    assert forall|i: int| 0 <= i < s.len() implies #[trigger] s[i] == t[n + i] by {}
    assert(is_ascii_chars(s));
    assert(is_ascii_chars(a)) by {
        assert forall|i: int| 0 <= i < a.len() implies #[trigger] a[i] == t[i] by {}
    }
    assert forall|i: int, j: int| 0 <= i <= j <= s.len() implies lowercase(
        #[trigger] s.subrange(i, j),
    ) == lowered(s.subrange(i, j)) by {
        assert(s.subrange(i, j) =~= t.subrange(n + i, n + j));
    }
    assert(s.subrange(0, s.len() as int) =~= s);
    assert(t.subrange(0, t.len() as int) =~= t);
    assert(lowered(t) =~= lowered(a) + lowered(s));
}

/// A tag does not begin in a text without `<`.
proof fn lemma_tag_behind(gap: Seq<char>, s: Seq<char>, tag: Seq<char>)
    requires
        !gap.contains('<'),
        tag.len() > 0,
        tag[0] == '<',
    ensures
        find(lowered(gap) + lowered(s), tag) == (match find(lowered(s), tag) {
            Some(i) => Some(gap.len() + i),
            None => None,
        }),
{
    let r = lowered(gap);
    let y = lowered(s);
    assert forall|i: int| 0 <= i < r.len() implies !occurs_at(r + y, tag, i) by {
        if occurs_at(r + y, tag, i) {
            assert((r + y).subrange(i, i + tag.len())[0] == r[i]);
            assert(gap.contains(gap[i]));
        }
    }
    lemma_find_behind(r, y, tag);
}

// ---------------------------------------------------------------------------------------
// Parameters
// ---------------------------------------------------------------------------------------
proof fn lemma_params_shift(a: Seq<char>, s: Seq<char>, k: int)
    requires
        is_ascii_chars(a + s),
        0 <= k <= s.len(),
    ensures
        params(a + s, lowered(a + s), a.len() + k) == params(s, lowered(s), k),
    decreases s.len() - k,
{
    let t = a + s;
    let n = a.len() as int;
    let lt = lowered(t);
    let ls = lowered(s);
    assert forall|i: int| 0 <= i < s.len() implies #[trigger] s[i] == t[n + i] by {}
    assert(is_ascii_chars(s));
    lemma_lowered(t);
    lemma_lowered(s);
    lemma_ascii_pos(lt, n + k);
    lemma_ascii_pos(ls, k);
    assert(lt.skip(n + k) =~= ls.skip(k));
    let tag = "<parameter "@;
    lemma_find(ls.skip(k), tag);
    if let Some(p) = find(ls.skip(k), tag) {
        reveal_strlit("<parameter ");
        let x = k + p;
        lemma_ascii_pos(lt, n + x);
        lemma_ascii_pos(ls, x);
        lemma_ascii_pos(t, n + x);
        lemma_ascii_pos(s, x);
        let rest = s.skip(x);
        assert(t.skip(n + x) =~= rest);
        assert(is_ascii_chars(rest)) by {
            assert forall|i: int| 0 <= i < rest.len() implies #[trigger] rest[i] == s[x + i] by {}
        }
        if let Some((name, value, m)) = param(rest) {
            lemma_param(rest);
            lemma_ascii_pos(rest, m);
            lemma_params_shift(a, s, x + m);
        }
    }
}

/// A text without an opening tag of a parameter has none.
pub proof fn law_no_parameters(s: Seq<char>)
    requires
        is_ascii_chars(s),
        !contains(lowered(s), "<parameter "@),
    ensures
        params(s, lowered(s), 0).found.len() == 0,
        params(s, lowered(s), 0).end is Done,
{
    lemma_lowered(s);
    lemma_ascii_pos(lowered(s), 0);
    assert(lowered(s).skip(0) =~= lowered(s));
    lemma_find(lowered(s), "<parameter "@);
}

/// Text without `<` before a parameter is passed over; the parameter is read, its opening tag in
/// either case, and what stands behind it next. One that is not complete ends the reading, and
/// all is refused.
pub proof fn law_parameter_then_rest(gap: Seq<char>, s: Seq<char>)
    requires
        is_ascii_chars(gap + s),
        !gap.contains('<'),
        occurs_at(lowered(s), "<parameter "@, 0),
    ensures
        param(s) matches Some((name, value, n)) ==> 0 < n <= s.len() && {
            let rest = params(s.skip(n), lowered(s.skip(n)), 0);
            &&& params(gap + s, lowered(gap + s), 0).found == seq![(name, value)] + rest.found
            &&& params(gap + s, lowered(gap + s), 0).end == rest.end
        },
        param(s) is None ==> params(gap + s, lowered(gap + s), 0).end is Reject,
{
    reveal_strlit("<parameter ");
    let tag = "<parameter "@;
    let t = gap + s;
    let g = gap.len() as int;
    assert forall|i: int| 0 <= i < s.len() implies #[trigger] s[i] == t[g + i] by {}
    assert(is_ascii_chars(s));
    assert(lowered(t) =~= lowered(gap) + lowered(s));
    lemma_lowered(t);
    lemma_lowered(s);
    lemma_ascii_pos(lowered(t), 0);
    lemma_ascii_pos(lowered(t), g);
    lemma_ascii_pos(t, g);
    assert(lowered(t).skip(0) =~= lowered(t));
    lemma_tag_behind(gap, s, tag);
    lemma_find_is(lowered(s), tag, 0);
    assert(t.skip(g) =~= s);
    if let Some((name, value, n)) = param(s) {
        lemma_param(s);
        lemma_ascii_pos(s, n);
        let front = gap + s.take(n);
        assert(t =~= front + s.skip(n));
        lemma_params_shift(front, s.skip(n), 0);
    }
}

// ---------------------------------------------------------------------------------------
// Invocations
// ---------------------------------------------------------------------------------------
proof fn lemma_invoke_shift(a: Seq<char>, s: Seq<char>, y: int)
    requires
        lowers_as_ascii(a + s),
        0 <= y <= s.len(),
    ensures
        invoke_at(a + s, lowered(a + s), a.len() + y) == invoke_at(s, lowered(s), y),
{
    let t = a + s;
    let n = a.len() as int;
    lemma_part_lowers(a, s);
    lemma_lowered(t);
    lemma_lowered(s);
    let lt = lowered(t);
    let ls = lowered(s);
    lemma_ascii_pos(lt, n + y);
    lemma_ascii_pos(ls, y);
    lemma_ascii_pos(t, n + y);
    lemma_ascii_pos(s, y);
    assert(t.skip(n + y) =~= s.skip(y));
    assert(lt.skip(n + y) =~= ls.skip(y));
    reveal_strlit("</invoke>");
    lemma_find(ls.skip(y), "</invoke>"@);
    if let Some(q) = find(ls.skip(y), "</invoke>"@) {
        let e = y + q + 9;
        lemma_ascii_pos(lt, n + e);
        lemma_ascii_pos(ls, e);
        lemma_ascii_pos(t, n + e);
        lemma_ascii_pos(s, e);
        assert(t.subrange(n + y, n + e) =~= s.subrange(y, e));
    }
}

/// An invocation lies within the text.
proof fn lemma_read_within(s: Seq<char>, y: int)
    requires
        0 <= y <= s.len(),
    ensures
        invoke_at(s, lowered(s), y) matches InvokeAt::Read(_, m) ==> 0 < m && y + m <= s.len(),
{
    reveal_strlit("</invoke>");
    lemma_find(lowered(s).skip(y), "</invoke>"@);
}

#[verifier::spinoff_prover]
#[verifier::rlimit(50)]
proof fn lemma_invocations_shift(a: Seq<char>, s: Seq<char>, k: int)
    requires
        lowers_as_ascii(a + s),
        0 <= k <= s.len(),
    ensures
        invocations_from(a + s, lowered(a + s), a.len() + k) == invocations_from(
            s,
            lowered(s),
            k,
        ),
    decreases s.len() - k,
{
    let t = a + s;
    let n = a.len() as int;
    let lt = lowered(t);
    let ls = lowered(s);
    let tag = "<invoke "@;
    assert(lt.skip(n + k) =~= ls.skip(k));
    lemma_find(ls.skip(k), tag);
    if let Some(p) = find(ls.skip(k), tag) {
        lemma_invoke_shift(a, s, k + p);
        lemma_read_within(s, k + p);
        if let InvokeAt::Read(inv, m) = invoke_at(s, ls, k + p) {
            lemma_invocations_shift(a, s, k + p + m);
        }
    }
}

/// A text without an opening tag of an invocation has none.
pub proof fn law_no_invocations(s: Seq<char>)
    requires
        lowers_as_ascii(s),
        !contains(lowered(s), "<invoke "@),
    ensures
        invocations(s).found.len() == 0,
        invocations(s).end is Done,
{
    let none = Seq::<char>::empty();
    assert(none + s =~= s);
    lemma_part_lowers(none, s);
    assert(lowered(s).skip(0) =~= lowered(s));
    lemma_find(lowered(s), "<invoke "@);
}

/// Text without `<` before an invocation is passed over.
pub proof fn law_text_before_invocations(gap: Seq<char>, s: Seq<char>)
    requires
        lowers_as_ascii(gap + s),
        !gap.contains('<'),
    ensures
        invocations(gap + s) == invocations(s),
{
    reveal_strlit("<invoke ");
    let tag = "<invoke "@;
    let t = gap + s;
    let n = gap.len() as int;
    lemma_part_lowers(gap, s);
    lemma_tag_behind(gap, s, tag);
    lemma_invocations_shift(gap, s, 0);
    let lt = lowered(t);
    assert(lt.skip(0) =~= lt);
    assert(lt.skip(n) =~= lowered(s));
    assert(lowered(s).skip(0) =~= lowered(s));
    lemma_find(lowered(s), tag);
    assert(invocations_from(t, lt, 0) == invocations_from(t, lt, n));
}

/// An invocation that is written down is read, and what stands behind it next.
pub proof fn law_invocation_then_rest(i: Invocation, s: Seq<char>)
    requires
        lowers_as_ascii(invoke_text(i) + s),
        plain_invocation(i),
    ensures
        invocations(invoke_text(i) + s).found == seq![i] + invocations(s).found,
        invocations(invoke_text(i) + s).end == invocations(s).end,
{
    let a = invoke_text(i);
    let t = a + s;
    let n = a.len() as int;
    lemma_part_lowers(a, s);
    assert(t.skip(0) =~= t);
    assert(t.take(n) =~= a);
    assert(a.is_prefix_of(t.skip(0)));
    lemma_invoke_read(t, 0, i);
    assert(lowered(t).skip(0) =~= lowered(t));
    lemma_find_is(lowered(t), "<invoke "@, 0);
    lemma_invocations_shift(a, s, 0);
}

/// An invocation goes from its opening tag to the first closing tag, both in either case: its
/// name stands in its opening tag and its parameters in between. What stands behind it is read
/// next. One without a name or without a closing tag, or with a parameter that is not complete,
/// ends the reading, and all is refused.
pub proof fn law_invocation_read_in_place(s: Seq<char>)
    requires
        lowers_as_ascii(s),
        occurs_at(lowered(s), "<invoke "@, 0),
    ensures
        attr_name(s) is None ==> invocations(s).end is Reject,
        !contains(lowered(s), "</invoke>"@) ==> invocations(s).end is Reject,
        attr_name(s) matches Some(name) ==> (find(lowered(s), "</invoke>"@) matches Some(q) ==> {
            let body = s.take(q + 9);
            let behind = invocations(s.skip(q + 9));
            let scan = params(body, lowered(body), 0);
            &&& scan.end is Reject ==> invocations(s).end is Reject
            &&& scan.end is Done ==> invocations(s).end == behind.end && invocations(s).found
                == seq![Invocation { name, params: scan.found }] + behind.found
        }),
{
    reveal_strlit("</invoke>");
    let none = Seq::<char>::empty();
    assert(none + s =~= s);
    lemma_part_lowers(none, s);
    lemma_lowered(s);
    let ls = lowered(s);
    assert(ls.skip(0) =~= ls);
    assert(s.skip(0) =~= s);
    lemma_find_is(ls, "<invoke "@, 0);
    lemma_find(ls, "</invoke>"@);
    lemma_ascii_pos(ls, 0);
    lemma_ascii_pos(s, 0);
    if let Some(q) = find(ls, "</invoke>"@) {
        let e = q + 9;
        lemma_ascii_pos(ls, e);
        lemma_ascii_pos(s, e);
        let body = s.take(e);
        assert(s.subrange(0, e) =~= body);
        assert(lowercase(body) == lowered(body));
        assert(s =~= body + s.skip(e));
        lemma_part_lowers(body, s.skip(e));
        lemma_invocations_shift(body, s.skip(e), 0);
    }
}

// ---------------------------------------------------------------------------------------
// Any text
// ---------------------------------------------------------------------------------------
/// In any text, an invocation is found in its lower case and cut out at the same bytes of the text
/// itself. Where a character is cut there, reading ends in a fault; where it is not complete, all
/// is refused; and otherwise it is read, and what stands behind it next.
pub proof fn law_invocation_cut_out(inner: Seq<char>, a: int)
    requires
        find(lowercase(inner), "<invoke "@) == Some(a),
    ensures
        ({
            let lower = lowercase(inner);
            let all = invocations(inner);
            let closing = find(lower.skip(a), "</invoke>"@);
            match char_pos(inner, byte_pos(lower, a) as int) {
                None => all.end is Fault && all.found.len() == 0,
                Some(i) => {
                    &&& attr_name(inner.skip(i)) is None || closing is None ==> all.end is Reject
                        && all.found.len() == 0
                    &&& attr_name(inner.skip(i)) matches Some(name) ==> (closing matches Some(q)
                        ==> match char_pos(inner, byte_pos(lower, a + q + 9) as int) {
                        None => all.end is Fault,
                        Some(j) => {
                            let body = inner.subrange(i, j);
                            let scan = params(body, lowercase(body), 0);
                            let rest = invocations_from(inner, lower, a + q + 9);
                            &&& scan.end is Done ==> all.end == rest.end && all.found
                                == seq![Invocation { name, params: scan.found }] + rest.found
                            &&& scan.end is Reject ==> all.end is Reject && all.found.len() == 0
                            &&& scan.end is Fault ==> all.end is Fault && all.found.len() == 0
                        },
                    })
                },
            }
        }),
{
    let lower = lowercase(inner);
    assert(lower.skip(0) =~= lower);
    lemma_find(lower, "<invoke "@);
}

/// In any text, a parameter is found in its lower case and cut out at the same byte of the text
/// itself. Where a character is cut there, reading ends in a fault; where it is not complete, all
/// is refused; and otherwise it is read, and what stands behind it next.
pub proof fn law_parameter_cut_out(body: Seq<char>, lower: Seq<char>, at: int, k: int, p: int)
    requires
        char_pos(lower, at) == Some(k),
        find(lower.skip(k), "<parameter "@) == Some(p),
    ensures
        ({
            let all = params(body, lower, at);
            let from = byte_pos(lower, k + p) as int;
            match char_pos(body, from) {
                None => all.end is Fault && all.found.len() == 0,
                Some(m) => match param(body.skip(m)) {
                    None => all.end is Reject && all.found.len() == 0,
                    Some((name, value, n)) => {
                        let rest = params(body, lower, from + byte_pos(body.skip(m), n));
                        all.end == rest.end && all.found == seq![(name, value)] + rest.found
                    },
                },
            }
        }),
{
}

/// Where there is no tag of a parameter from some byte on there are no more parameters, and a byte
/// inside a character is a fault.
pub proof fn law_parameters_end(body: Seq<char>, lower: Seq<char>, at: int)
    ensures
        char_pos(lower, at) is None ==> params(body, lower, at).end is Fault && params(
            body,
            lower,
            at,
        ).found.len() == 0,
        char_pos(lower, at) matches Some(k) ==> find(lower.skip(k), "<parameter "@) is None ==> (
        params(body, lower, at).end is Done && params(body, lower, at).found.len() == 0),
{
}

} // verus!
