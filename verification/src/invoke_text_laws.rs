//! Invocations that are written down are read back.
use crate::invoke::ascii_lower;
use crate::invoke::attr_name;
use crate::invoke::invocations;
use crate::invoke::invocations_from;
use crate::invoke::invoke_at;
use crate::invoke::invoke_calls;
use crate::invoke::lowercase;
use crate::invoke::param;
use crate::invoke::params;
use crate::invoke::Invocation;
use crate::invoke::InvokeAt;
use crate::invoke::InvokeScan;
use crate::invoke::ParamScan;
use crate::invoke::ScanEnd;
use crate::parser_laws::lemma_first_bracket;
use crate::search::contains;
use crate::search::find;
use crate::search::find_char;
use crate::search::leading_spaces;
use crate::search::lemma_find;
use crate::search::lemma_find_char;
use crate::search::lemma_find_is;
use crate::search::lemma_leading_spaces;
use crate::search::occurs_at;
use crate::search::trim;
use crate::search::trim_start;
use crate::tags::NEW_TOOL_CALL_BLOCK;
use crate::tags::TOOL_CALL_START;
use crate::text::byte_pos;
use crate::text::char_pos;
use crate::text::lemma_char_pos;
use crate::tool_parser::content_calls;
use crate::tool_parser::content_faults;
use crate::tool_parser::lemma_trim_end;
use vstd::prelude::*;
use vstd::utf8::is_ascii_chars;
use vstd::utf8::is_ascii_chars_encode_utf8;

verus! {

// ---------------------------------------------------------------------------------------
// How invocations are written
// ---------------------------------------------------------------------------------------
/// A parameter: its name and its value.
pub open spec fn param_text(p: (Seq<char>, Seq<char>)) -> Seq<char> {
    "<parameter name=\""@ + p.0 + "\">"@ + p.1 + "</parameter>"@
}

/// Parameters, one behind the other.
pub open spec fn params_text(list: Seq<(Seq<char>, Seq<char>)>) -> Seq<char>
    decreases list.len(),
{
    if list.len() == 0 {
        seq![]
    } else {
        param_text(list[0]) + params_text(list.skip(1))
    }
}

/// The opening tag of an invocation.
pub open spec fn opening_text(name: Seq<char>) -> Seq<char> {
    "<invoke name=\""@ + name + "\">"@
}

/// An invocation with its parameters.
pub open spec fn invoke_text(i: Invocation) -> Seq<char> {
    opening_text(i.name) + params_text(i.params) + "</invoke>"@
}

/// Invocations, one behind the other.
pub open spec fn invokes_text(list: Seq<Invocation>) -> Seq<char>
    decreases list.len(),
{
    if list.len() == 0 {
        seq![]
    } else {
        invoke_text(list[0]) + invokes_text(list.skip(1))
    }
}

/// A name that needs no escaping: without angle brackets and quotes.
pub open spec fn plain_name(s: Seq<char>) -> bool {
    !s.contains('<') && !s.contains('>') && !s.contains('"')
}

/// A parameter with a plain name, and no `<` in its value.
pub open spec fn plain_param(p: (Seq<char>, Seq<char>)) -> bool {
    plain_name(p.0) && !p.1.contains('<')
}

/// An invocation with plain names, and no `<` in its values.
pub open spec fn plain_invocation(i: Invocation) -> bool {
    plain_name(i.name) && forall|k: int|
        0 <= k < i.params.len() ==> plain_param(#[trigger] i.params[k])
}

// ---------------------------------------------------------------------------------------
// Lower case
// ---------------------------------------------------------------------------------------
/// `s` with lower-case letters for its ASCII capitals.
pub open spec fn lowered(s: Seq<char>) -> Seq<char> {
    s.map_values(|c: char| ascii_lower(c))
}

/// ASCII text, of every part of which the lower case is what it is for ASCII.
pub open spec fn lowers_as_ascii(s: Seq<char>) -> bool {
    is_ascii_chars(s) && forall|i: int, j: int|
        0 <= i <= j <= s.len() ==> lowercase(#[trigger] s.subrange(i, j)) == lowered(
            s.subrange(i, j),
        )
}

proof fn lemma_lower_char(c: char)
    ensures
        c <= '\u{7f}' ==> ascii_lower(c) <= '\u{7f}',
        ascii_lower(c) == '<' <==> c == '<',
        c == 'i' || c == 'p' || c == '/' ==> ascii_lower(c) == c,
{
}

/// In ASCII text a position is its byte offset.
pub proof fn lemma_ascii_pos(s: Seq<char>, i: int)
    requires
        is_ascii_chars(s),
        0 <= i <= s.len(),
    ensures
        byte_pos(s, i) == i,
        char_pos(s, i) == Some(i),
{
    assert(is_ascii_chars(s.take(i)));
    is_ascii_chars_encode_utf8(s.take(i));
    lemma_char_pos(s, i);
}

pub proof fn lemma_lowered(s: Seq<char>)
    requires
        is_ascii_chars(s),
    ensures
        is_ascii_chars(lowered(s)),
        lowered(s).len() == s.len(),
        forall|i: int| 0 <= i < s.len() ==> #[trigger] lowered(s)[i] == ascii_lower(s[i]),
{
    assert forall|i: int| 0 <= i < s.len() implies '\0' <= #[trigger] lowered(s)[i]
        <= '\u{7f}' by {
        lemma_lower_char(s[i]);
        assert(s[i] <= '\u{7f}');
    }
}

/// A tag in lower case that stands in a text stands in its lower case.
proof fn lemma_tag_in_lower(s: Seq<char>, tag: Seq<char>, i: int)
    requires
        is_ascii_chars(s),
        occurs_at(s, tag, i),
        forall|k: int| 0 <= k < tag.len() ==> ascii_lower(#[trigger] tag[k]) == tag[k],
    ensures
        occurs_at(lowered(s), tag, i),
{
    lemma_lowered(s);
    assert forall|k: int| 0 <= k < tag.len() implies lowered(s)[i + k] == tag[k] by {
        assert(s.subrange(i, i + tag.len())[k] == s[i + k]);
    }
    assert(lowered(s).subrange(i, i + tag.len()) =~= tag);
}

/// Nothing begins in front: `tag` is found behind it.
proof fn lemma_find_behind(s: Seq<char>, tag: Seq<char>, n: int)
    requires
        0 <= n <= s.len(),
        forall|i: int| 0 <= i < n ==> !occurs_at(s, tag, i),
    ensures
        find(s, tag) == (match find(s.skip(n), tag) {
            Some(i) => Some(n + i),
            None => None,
        }),
{
    lemma_find(s, tag);
    lemma_find(s.skip(n), tag);
    assert forall|i: int| 0 <= i implies occurs_at(s.skip(n), tag, i) == occurs_at(
        s,
        tag,
        n + i,
    ) by {
        if i + tag.len() <= s.len() - n {
            assert(s.skip(n).subrange(i, i + tag.len()) =~= s.subrange(n + i, n + i + tag.len()));
        }
    }
    match find(s.skip(n), tag) {
        Some(i) => {
            assert forall|j: int| 0 <= j < n + i implies !occurs_at(s, tag, j) by {
                if j >= n {
                    assert(!occurs_at(s.skip(n), tag, j - n));
                }
            }
            lemma_find_is(s, tag, n + i);
        },
        None => {
            if let Some(j) = find(s, tag) {
                assert(occurs_at(s.skip(n), tag, j - n));
            }
        },
    }
}

// ---------------------------------------------------------------------------------------
// Parameters
// ---------------------------------------------------------------------------------------
/// Every tag in `s` is one of a parameter.
spec fn only_param_tags(s: Seq<char>) -> bool {
    forall|i: int|
        0 <= i < s.len() && #[trigger] s[i] == '<' ==> i + 2 < s.len() && (s[i + 1] == 'p' || (s[i
            + 1] == '/' && s[i + 2] == 'p'))
}

/// What stands behind `name="` up to the quote that follows a plain name.
proof fn lemma_attr_name_is(s: Seq<char>, n: int, name: Seq<char>)
    requires
        plain_name(name),
        occurs_at(s, "name=\""@, n),
        forall|i: int| 0 <= i < n ==> !occurs_at(s, "name=\""@, i),
        n + 6 + name.len() + 2 <= s.len(),
        s.subrange(n + 6, n + 6 + name.len()) == name,
        s[n + 6 + name.len()] == '"',
        s[n + 6 + name.len() + 1] == '>',
    ensures
        attr_name(s) == Some(name),
{
    lemma_find_is(s, "name=\""@, n);
    let tail = s.skip(n + 6);
    let m = name.len() as int;
    assert forall|i: int| 0 <= i < m implies tail[i] == name[i] by {
        assert(s.subrange(n + 6, n + 6 + m)[i] == s[n + 6 + i]);
    }
    lemma_find_char(tail, '"');
    lemma_find_char(tail, '>');
    assert(tail[m] == '"');
    assert(tail[m + 1] == '>');
    assert(find_char(tail, '"') == Some(m)) by {
        let a = find_char(tail, '"')->0;
        if a < m {
            assert(name[a] == '"');
        }
    }
    assert(find_char(tail, '>') == Some(m + 1)) by {
        let b = find_char(tail, '>')->0;
        if b < m {
            assert(name[b] == '>');
        }
    }
    assert(tail.take(m) =~= name);
}

/// A parameter that a text begins with is read back.
proof fn lemma_param_read(p: (Seq<char>, Seq<char>), behind: Seq<char>)
    requires
        plain_param(p),
    ensures
        occurs_at(param_text(p) + behind, "<parameter "@, 0),
        param(param_text(p) + behind) == Some((p.0, p.1, param_text(p).len() as int)),
        only_param_tags(param_text(p)),
{
    reveal_strlit("<parameter name=\"");
    reveal_strlit("<parameter ");
    reveal_strlit("name=\"");
    reveal_strlit("\">");
    reveal_strlit("</parameter>");
    let t = param_text(p);
    let s = t + behind;
    let n = p.0.len() as int;
    let m = p.1.len() as int;
    assert(t.len() == 17 + n + 2 + m + 12);
    assert(s.subrange(0, 11) =~= "<parameter "@);
    assert(s.subrange(11, 17) =~= "name=\""@);
    assert forall|i: int| 0 <= i < 11 implies !occurs_at(s, "name=\""@, i) by {
        if occurs_at(s, "name=\""@, i) {
            assert(s.subrange(i, i + 6)[0] == s[i]);
            assert("name=\""@[0] == 'n');
            assert(s[i] == "<parameter name=\""@[i]);
        }
    }
    assert(s.subrange(17, 17 + n) =~= p.0);
    lemma_attr_name_is(s, 11, p.0);
    let g = 17 + n + 1;
    assert(s[g] == '>');
    lemma_find_char(s, '>');
    assert(find_char(s, '>') == Some(g)) by {
        let f = find_char(s, '>')->0;
        if f < 17 {
            assert(s[f] == "<parameter name=\""@[f]);
        } else if f < 17 + n {
            assert(s[f] == p.0[f - 17]);
            assert(p.0.contains('>'));
        }
    }
    let rest = s.skip(g + 1);
    assert(rest.subrange(m, m + 12) =~= "</parameter>"@);
    assert forall|i: int| 0 <= i < m implies rest[i] != '<' by {
        assert(rest[i] == p.1[i]);
    }
    lemma_first_bracket(rest, "</parameter>"@, m);
    assert(s.subrange(g + 1, g + 1 + m) =~= p.1);
    assert forall|i: int| 0 <= i < t.len() && #[trigger] t[i] == '<' implies i + 2 < t.len() && (t[i
        + 1] == 'p' || (t[i + 1] == '/' && t[i + 2] == 'p')) by {
        let c = 17 + n + 2 + m;
        if 0 < i < 17 {
            assert(t[i] == "<parameter name=\""@[i]);
        } else if 17 <= i < 17 + n {
            assert(t[i] == p.0[i - 17]);
            assert(p.0.contains('<'));
        } else if 17 + n <= i < 17 + n + 2 {
            assert(t[i] == "\">"@[i - 17 - n]);
        } else if 17 + n + 2 <= i < c {
            assert(t[i] == p.1[i - 17 - n - 2]);
            assert(p.1.contains('<'));
        } else if i >= c {
            assert(t[i] == "</parameter>"@[i - c]);
            assert(i == c);
            assert(t[i + 1] == "</parameter>"@[1]);
            assert(t[i + 2] == "</parameter>"@[2]);
        } else {
            assert(t[1] == "<parameter name=\""@[1]);
        }
    }
}

proof fn lemma_only_param_tags(list: Seq<(Seq<char>, Seq<char>)>)
    requires
        forall|k: int| 0 <= k < list.len() ==> plain_param(#[trigger] list[k]),
    ensures
        only_param_tags(params_text(list)),
    decreases list.len(),
{
    if list.len() > 0 {
        let a = param_text(list[0]);
        let b = params_text(list.skip(1));
        lemma_param_read(list[0], seq![]);
        lemma_only_param_tags(list.skip(1));
        assert forall|i: int| 0 <= i < (a + b).len() && #[trigger] (a + b)[i] == '<' implies i + 2
            < (a + b).len() && ((a + b)[i + 1] == 'p' || ((a + b)[i + 1] == '/' && (a + b)[i + 2]
            == 'p')) by {
            if i < a.len() {
                assert(a[i] == '<');
            } else {
                assert(b[i - a.len()] == '<');
            }
        }
    }
}

/// One parameter is read back where it stands, and what stands behind it next.
proof fn lemma_param_step(
    body: Seq<char>,
    n: int,
    p: (Seq<char>, Seq<char>),
    behind: Seq<char>,
)
    requires
        is_ascii_chars(body),
        0 <= n <= body.len(),
        body.skip(n) == param_text(p) + behind,
        plain_param(p),
    ensures
        ({
            let rest = params(body, lowered(body), n + param_text(p).len());
            params(body, lowered(body), n) == (ParamScan {
                found: seq![p] + rest.found,
                end: rest.end,
            })
        }),
{
    let lower = lowered(body);
    let tag = "<parameter "@;
    let len = param_text(p).len() as int;
    lemma_lowered(body);
    lemma_ascii_pos(lower, n);
    lemma_ascii_pos(body, n);
    lemma_param_read(p, behind);
    assert(occurs_at(lower.skip(n), tag, 0)) by {
        reveal_strlit("<parameter ");
        assert(body.subrange(n, n + 11) =~= body.skip(n).subrange(0, 11));
        lemma_tag_in_lower(body, tag, n);
        assert(lower.skip(n).subrange(0, 11) =~= lower.subrange(n, n + 11));
    }
    lemma_find_is(lower.skip(n), tag, 0);
    assert(is_ascii_chars(body.skip(n)));
    lemma_ascii_pos(body.skip(n), len);
    assert((p.0, p.1) == p);
}

/// In the closing tag of an invocation no parameter begins.
proof fn lemma_no_more_params(body: Seq<char>, n: int)
    requires
        is_ascii_chars(body),
        0 <= n <= body.len(),
        body.skip(n) == "</invoke>"@,
    ensures
        params(body, lowered(body), n) == (ParamScan { found: seq![], end: ScanEnd::Done }),
{
    let lower = lowered(body);
    reveal_strlit("<parameter ");
    reveal_strlit("</invoke>");
    lemma_lowered(body);
    lemma_ascii_pos(lower, n);
    lemma_find(lower.skip(n), "<parameter "@);
    assert("</invoke>"@.len() < "<parameter "@.len());
}

/// The parameters of an invocation are read back from where they begin.
proof fn lemma_params_read(
    body: Seq<char>,
    n: int,
    list: Seq<(Seq<char>, Seq<char>)>,
)
    requires
        is_ascii_chars(body),
        0 <= n <= body.len(),
        body.skip(n) == params_text(list) + "</invoke>"@,
        forall|k: int| 0 <= k < list.len() ==> plain_param(#[trigger] list[k]),
    ensures
        params(body, lowered(body), n) == (ParamScan { found: list, end: ScanEnd::Done }),
    decreases list.len(),
{
    if list.len() == 0 {
        assert(body.skip(n) =~= "</invoke>"@);
        lemma_no_more_params(body, n);
        assert(list =~= seq![]);
    } else {
        let t = param_text(list[0]);
        let more = params_text(list.skip(1)) + "</invoke>"@;
        let len = t.len() as int;
        assert(body.skip(n) =~= t + more);
        lemma_param_step(body, n, list[0], more);
        assert(body.skip(n + len) =~= body.skip(n).skip(len));
        assert(body.skip(n).skip(len) =~= more);
        lemma_params_read(body, n + len, list.skip(1));
        assert(seq![list[0]] + list.skip(1) =~= list);
    }
}

/// In the opening tag of an invocation no parameter begins.
proof fn lemma_params_behind_opening(name: Seq<char>, body: Seq<char>)
    requires
        is_ascii_chars(body),
        plain_name(name),
        opening_text(name).is_prefix_of(body),
    ensures
        params(body, lowered(body), 0) == params(
            body,
            lowered(body),
            opening_text(name).len() as int,
        ),
{
    let front = opening_text(name);
    let n = front.len() as int;
    let lower = lowered(body);
    let tag = "<parameter "@;
    reveal_strlit("<parameter ");
    reveal_strlit("<invoke name=\"");
    reveal_strlit("\">");
    lemma_lowered(body);
    lemma_ascii_pos(lower, 0);
    lemma_ascii_pos(lower, n);
    assert forall|i: int| 0 <= i < n implies !occurs_at(lower, tag, i) by {
        if occurs_at(lower, tag, i) {
            assert(lower.subrange(i, i + 11)[0] == lower[i]);
            assert(lower.subrange(i, i + 11)[1] == lower[i + 1]);
            lemma_lower_char(body[i]);
            assert(body[i] == front[i]);
            if i == 0 {
                assert(body[1] == front[1]);
                assert(front[1] == "<invoke name=\""@[1]);
                lemma_lower_char(body[1]);
            } else if i < 14 {
                assert(front[i] == "<invoke name=\""@[i]);
            } else if i < 14 + name.len() {
                assert(front[i] == name[i - 14]);
                assert(name.contains('<'));
            } else {
                assert(front[i] == "\">"@[i - 14 - name.len()]);
            }
        }
    }
    lemma_find_behind(lower, tag, n);
    assert(lower.skip(0) =~= lower);
}

// ---------------------------------------------------------------------------------------
// Invocations
// ---------------------------------------------------------------------------------------
/// The closing tag of an invocation is the first behind its opening tag.
proof fn lemma_closing_found(i: Invocation, s: Seq<char>)
    requires
        is_ascii_chars(s),
        plain_invocation(i),
        invoke_text(i).is_prefix_of(s),
    ensures
        find(lowered(s), "</invoke>"@) == Some(invoke_text(i).len() - 9),
{
    let t = invoke_text(i);
    let front = opening_text(i.name);
    let mid = params_text(i.params);
    let q = t.len() - 9;
    let lower = lowered(s);
    let tag = "</invoke>"@;
    reveal_strlit("</invoke>");
    reveal_strlit("<invoke name=\"");
    reveal_strlit("\">");
    lemma_only_param_tags(i.params);
    lemma_lowered(s);
    assert(s.subrange(0, t.len() as int) =~= t);
    assert(s.subrange(q, q + 9) =~= tag) by {
        assert forall|k: int| 0 <= k < 9 implies s[q + k] == tag[k] by {
            assert(s[q + k] == t[q + k]);
        }
    }
    lemma_tag_in_lower(s, tag, q);
    assert forall|j: int| 0 <= j < q implies !occurs_at(lower, tag, j) by {
        if occurs_at(lower, tag, j) {
            assert(lower.subrange(j, j + 9)[0] == lower[j]);
            assert(lower.subrange(j, j + 9)[1] == lower[j + 1]);
            assert(lower.subrange(j, j + 9)[2] == lower[j + 2]);
            lemma_lower_char(s[j]);
            lemma_lower_char(s[j + 1]);
            lemma_lower_char(s[j + 2]);
            assert(s[j] == t[j] && s[j + 1] == t[j + 1] && s[j + 2] == t[j + 2]);
            let f = front.len() as int;
            if j < f {
                assert(t[j] == front[j]);
                if j == 0 {
                    assert(t[1] == front[1]);
                    assert(front[1] == "<invoke name=\""@[1]);
                } else if j < 14 {
                    assert(front[j] == "<invoke name=\""@[j]);
                } else if j < 14 + i.name.len() {
                    assert(front[j] == i.name[j - 14]);
                    assert(i.name.contains('<'));
                } else {
                    assert(front[j] == "\">"@[j - 14 - i.name.len()]);
                }
            } else {
                assert(t[j] == mid[j - f]);
                assert(t[j + 1] == mid[j - f + 1]);
                assert(t[j + 2] == mid[j - f + 2]);
            }
        }
    }
    lemma_find_is(lower, tag, q);
}

/// The name in the opening tag of an invocation.
proof fn lemma_opening_read(name: Seq<char>, s: Seq<char>)
    requires
        plain_name(name),
        opening_text(name).is_prefix_of(s),
    ensures
        occurs_at(s, "<invoke "@, 0),
        attr_name(s) == Some(name),
{
    let front = opening_text(name);
    let n = name.len() as int;
    reveal_strlit("<invoke ");
    reveal_strlit("<invoke name=\"");
    reveal_strlit("name=\"");
    reveal_strlit("\">");
    assert(forall|i: int| 0 <= i < front.len() ==> s[i] == front[i]);
    assert(s.subrange(0, 8) =~= "<invoke "@);
    assert(s.subrange(8, 14) =~= "name=\""@);
    assert forall|i: int| 0 <= i < 8 implies !occurs_at(s, "name=\""@, i) by {
        if occurs_at(s, "name=\""@, i) {
            assert(s.subrange(i, i + 6)[0] == s[i]);
            assert(s.subrange(i, i + 6)[1] == s[i + 1]);
            assert(s[i] == "<invoke name=\""@[i]);
            assert(s[i + 1] == "<invoke name=\""@[i + 1]);
        }
    }
    assert(s.subrange(14, 14 + n) =~= name);
    lemma_attr_name_is(s, 8, name);
}

/// An invocation is read back where it stands.
pub proof fn lemma_invoke_read(inner: Seq<char>, a: int, i: Invocation)
    requires
        lowers_as_ascii(inner),
        0 <= a <= inner.len(),
        invoke_text(i).is_prefix_of(inner.skip(a)),
        plain_invocation(i),
    ensures
        invoke_at(inner, lowered(inner), a) == InvokeAt::Read(i, invoke_text(i).len() as int),
        occurs_at(lowered(inner).skip(a), "<invoke "@, 0),
{
    let s = inner.skip(a);
    let lower = lowered(inner);
    let t = invoke_text(i);
    let n = t.len() as int;
    lemma_lowered(inner);
    lemma_ascii_pos(lower, a);
    lemma_ascii_pos(inner, a);
    assert(is_ascii_chars(s));
    assert(lowered(s) =~= lower.skip(a));
    reveal_strlit("</invoke>");
    assert(opening_text(i.name).is_prefix_of(s)) by {
        let front = opening_text(i.name);
        assert(front =~= t.take(front.len() as int));
        assert(s.take(n) =~= t);
        assert(s.take(front.len() as int) =~= front);
    }
    lemma_opening_read(i.name, s);
    reveal_strlit("<invoke ");
    lemma_tag_in_lower(s, "<invoke "@, 0);
    lemma_closing_found(i, s);
    lemma_ascii_pos(lower, a + n);
    lemma_ascii_pos(inner, a + n);
    let body = inner.subrange(a, a + n);
    assert(body =~= t) by {
        assert(s.take(n) =~= t);
        assert(s.take(n) =~= body);
    }
    assert(is_ascii_chars(body));
    assert(opening_text(i.name).is_prefix_of(body)) by {
        let front = opening_text(i.name);
        assert(body.take(front.len() as int) =~= front);
    }
    lemma_params_behind_opening(i.name, body);
    let f = opening_text(i.name).len() as int;
    assert(body.skip(f) =~= params_text(i.params) + "</invoke>"@);
    lemma_params_read(body, f, i.params);
    assert(lowercase(body) == lowered(body));
}

proof fn lemma_invokes_read(inner: Seq<char>, a: int, list: Seq<Invocation>)
    requires
        lowers_as_ascii(inner),
        0 <= a <= inner.len(),
        inner.skip(a) == invokes_text(list),
        forall|k: int| 0 <= k < list.len() ==> plain_invocation(#[trigger] list[k]),
    ensures
        invocations_from(inner, lowered(inner), a) == (InvokeScan {
            found: list,
            end: ScanEnd::Done,
        }),
    decreases list.len(),
{
    let lower = lowered(inner);
    lemma_lowered(inner);
    reveal_strlit("<invoke ");
    if list.len() == 0 {
        assert(inner.skip(a).len() == 0);
        lemma_find(lower.skip(a), "<invoke "@);
        assert(list =~= Seq::<Invocation>::empty());
    } else {
        let t = invoke_text(list[0]);
        let n = t.len() as int;
        assert(inner.skip(a).take(n) =~= t);
        lemma_invoke_read(inner, a, list[0]);
        lemma_find_is(lower.skip(a), "<invoke "@, 0);
        assert(inner.skip(a + n) =~= inner.skip(a).skip(n));
        assert(inner.skip(a).skip(n) =~= invokes_text(list.skip(1)));
        lemma_invokes_read(inner, a + n, list.skip(1));
        assert(seq![list[0]] + list.skip(1) =~= list);
    }
}

/// Invocations that are written down one behind the other, in ASCII, are read back: each with
/// its name and its parameters, in their order.
pub proof fn law_invocations_read_back(list: Seq<Invocation>)
    requires
        lowers_as_ascii(invokes_text(list)),
        forall|k: int| 0 <= k < list.len() ==> plain_invocation(#[trigger] list[k]),
    ensures
        invocations(invokes_text(list)) == (InvokeScan { found: list, end: ScanEnd::Done }),
{
    let inner = invokes_text(list);
    assert(inner.subrange(0, inner.len() as int) =~= inner);
    assert(inner.skip(0) =~= inner);
    lemma_invokes_read(inner, 0, list);
}

/// No tag in `s` is one in bars.
spec fn no_bar_tags(s: Seq<char>) -> bool {
    forall|i: int|
        0 <= i < s.len() && #[trigger] s[i] == '<' ==> i + 1 < s.len() && s[i + 1] != '|'
}

proof fn lemma_no_bar_tags(a: Seq<char>, b: Seq<char>)
    requires
        no_bar_tags(a),
        no_bar_tags(b),
    ensures
        no_bar_tags(a + b),
{
    assert forall|i: int| 0 <= i < (a + b).len() && #[trigger] (a + b)[i] == '<' implies i + 1 < (a
        + b).len() && (a + b)[i + 1] != '|' by {
        if i < a.len() {
            assert(a[i] == '<');
        } else {
            assert(b[i - a.len()] == '<');
        }
    }
}

proof fn lemma_invoke_has_no_bar_tags(i: Invocation)
    requires
        plain_invocation(i),
    ensures
        no_bar_tags(invoke_text(i)),
{
    let name = i.name;
    let front = opening_text(name);
    reveal_strlit("<invoke name=\"");
    reveal_strlit("\">");
    reveal_strlit("</invoke>");
    lemma_only_param_tags(i.params);
    assert forall|k: int| 0 <= k < front.len() && #[trigger] front[k] == '<' implies k + 1
        < front.len() && front[k + 1] != '|' by {
        if k < 14 {
            assert(front[k] == "<invoke name=\""@[k]);
            assert(front[1] == "<invoke name=\""@[1]);
        } else if k < 14 + name.len() {
            assert(front[k] == name[k - 14]);
            assert(name.contains('<'));
        } else {
            assert(front[k] == "\">"@[k - 14 - name.len()]);
        }
    }
    lemma_no_bar_tags(front, params_text(i.params));
    lemma_no_bar_tags(front + params_text(i.params), "</invoke>"@);
}

proof fn lemma_invokes_have_no_bar_tags(list: Seq<Invocation>)
    requires
        forall|k: int| 0 <= k < list.len() ==> plain_invocation(#[trigger] list[k]),
    ensures
        no_bar_tags(invokes_text(list)),
    decreases list.len(),
{
    if list.len() > 0 {
        lemma_invoke_has_no_bar_tags(list[0]);
        lemma_invokes_have_no_bar_tags(list.skip(1));
        lemma_no_bar_tags(invoke_text(list[0]), invokes_text(list.skip(1)));
    }
}

/// A tag in bars does not stand where none does.
proof fn lemma_bar_tag_absent(s: Seq<char>, tag: Seq<char>)
    requires
        no_bar_tags(s),
        tag.len() >= 2,
        tag[0] == '<',
        tag[1] == '|',
    ensures
        !contains(s, tag),
{
    assert forall|i: int| !occurs_at(s, tag, i) by {
        if occurs_at(s, tag, i) {
            assert(s.subrange(i, i + tag.len())[0] == s[i]);
            assert(s.subrange(i, i + tag.len())[1] == s[i + 1]);
        }
    }
}

/// A content of nothing but invocations, in ASCII and without braces, gives one call for each:
/// with its name, and with its parameters as arguments.
pub proof fn law_invocations_give_calls(list: Seq<Invocation>, first: u64)
    requires
        list.len() > 0,
        lowers_as_ascii(invokes_text(list)),
        forall|k: int| 0 <= k < list.len() ==> plain_invocation(#[trigger] list[k]),
        !invokes_text(list).contains('{'),
    ensures
        content_calls(invokes_text(list), first) == Some(invoke_calls(list, first)),
        !content_faults(invokes_text(list)),
{
    let inner = invokes_text(list);
    law_invocations_read_back(list);
    lemma_invokes_have_no_bar_tags(list);
    assert(!contains(inner, NEW_TOOL_CALL_BLOCK@)) by {
        reveal_strlit("<|tool_call|>");
        lemma_bar_tag_absent(inner, NEW_TOOL_CALL_BLOCK@);
    }
    assert(!contains(inner, TOOL_CALL_START@)) by {
        reveal_strlit("<|tool_calls_begin|>");
        lemma_bar_tag_absent(inner, TOOL_CALL_START@);
    }
    lemma_find_char(inner, '{');
    assert(inner[0] == '<') by {
        reveal_strlit("<invoke name=\"");
        assert(inner[0] == invoke_text(list[0])[0]);
        assert(inner[0] == "<invoke name=\""@[0]);
    }
    assert(trim(inner).len() > 0 ==> trim(inner)[0] == '<') by {
        lemma_leading_spaces(inner);
        assert(leading_spaces(inner) == 0);
        assert(trim_start(inner) =~= inner);
        lemma_trim_end(inner);
    }
}

} // verus!
