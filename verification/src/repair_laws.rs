//! What holds of the repairs of almost-JSON text.
use crate::repair::backslashes_repaired;
use crate::repair::commas_repaired;
use crate::repair::controls_stripped;
use crate::repair::is_json;
use crate::repair::is_kept;
use crate::repair::is_letter;
use crate::repair::is_numeral;
use crate::repair::key_quoted;
use crate::repair::keys_quoted;
use crate::repair::leading_word;
use crate::repair::may_be_escaped;
use crate::repair::newlines_escaped;
use crate::repair::plain_quote;
use crate::repair::quotes_plain;
use crate::repair::quotes_repaired;
use crate::repair::repair_stage;
use crate::repair::repaired;
use crate::repair::repaired_from;
use crate::search::is_space;
use crate::search::leading_spaces;
use crate::search::lemma_leading_spaces;
use crate::search::trim_start;
use vstd::prelude::*;

verus! {

// ---------------------------------------------------------------------------------------
// The chain of repairs
// ---------------------------------------------------------------------------------------
/// Stage `n` is the first of the repair stages that is a JSON text.
pub open spec fn first_good_stage(s: Seq<char>, n: nat) -> bool {
    n <= 5 && is_json(repair_stage(s, n)) && forall|k: nat|
        k < n ==> !is_json(#[trigger] repair_stage(s, k))
}

proof fn lemma_repaired_from(s: Seq<char>, n: nat)
    requires
        n <= 6,
        forall|k: nat| k < n ==> !is_json(#[trigger] repair_stage(s, k)),
    ensures
        match repaired_from(s, n) {
            Some(t) => exists|k: nat| #[trigger] first_good_stage(s, k) && t == repair_stage(s, k),
            None => forall|k: nat| k <= 5 ==> !is_json(#[trigger] repair_stage(s, k)),
        },
    decreases 6 - n,
{
    if n <= 5 {
        if is_json(repair_stage(s, n)) {
            assert(first_good_stage(s, n));
        } else {
            lemma_repaired_from(s, n + 1);
        }
    }
}

/// A repair gives the first of its stages that is a JSON text, and nothing only where none is.
pub proof fn law_repair_gives_first_json_stage(s: Seq<char>)
    ensures
        match repaired(s) {
            Some(t) => is_json(t) && exists|k: nat| #[trigger]
                first_good_stage(s, k) && t == repair_stage(s, k),
            None => forall|k: nat| k <= 5 ==> !is_json(#[trigger] repair_stage(s, k)),
        },
{
    lemma_repaired_from(s, 0);
}

/// A JSON text without control characters and typographic quotes is left as it is.
pub proof fn law_repair_keeps_json(s: Seq<char>)
    requires
        is_json(s),
        forall|i: int| 0 <= i < s.len() ==> is_kept(#[trigger] s[i]) && plain_quote(s[i]) == s[i],
    ensures
        repaired(s) == Some(s),
{
    law_strip_keeps_clean_text(s);
    assert(quotes_plain(s) =~= s);
}

// ---------------------------------------------------------------------------------------
// Control characters and typographic quotes
// ---------------------------------------------------------------------------------------
/// Stripping leaves only characters that are kept.
pub proof fn law_strip_leaves_kept(s: Seq<char>)
    ensures
        forall|i: int|
            0 <= i < controls_stripped(s).len() ==> is_kept(#[trigger] controls_stripped(s)[i]),
    decreases s.len(),
{
    reveal(Seq::filter);
    if s.len() > 0 {
        law_strip_leaves_kept(s.drop_last());
    }
}

/// A text of nothing but characters that are kept (line feeds and tabs among them) is left as
/// it is.
pub proof fn law_strip_keeps_clean_text(s: Seq<char>)
    requires
        forall|i: int| 0 <= i < s.len() ==> is_kept(#[trigger] s[i]),
    ensures
        controls_stripped(s) == s,
    decreases s.len(),
{
    reveal(Seq::filter);
    if s.len() > 0 {
        assert forall|i: int| 0 <= i < s.drop_last().len() implies is_kept(
            #[trigger] s.drop_last()[i],
        ) by {
            assert(s.drop_last()[i] == s[i]);
        }
        law_strip_keeps_clean_text(s.drop_last());
        assert(is_kept(s[s.len() - 1]));
        assert(s.drop_last().push(s.last()) =~= s);
    }
    assert(controls_stripped(s) =~= s);
}

/// Stripping twice is stripping once.
pub proof fn law_strip_idempotent(s: Seq<char>)
    ensures
        controls_stripped(controls_stripped(s)) == controls_stripped(s),
{
    law_strip_leaves_kept(s);
    law_strip_keeps_clean_text(controls_stripped(s));
}

/// Plain quotes stay plain, one for one: nothing is added, lost or moved.
pub proof fn law_quotes_plain(s: Seq<char>)
    ensures
        quotes_plain(s).len() == s.len(),
        forall|i: int|
            0 <= i < s.len() ==> #[trigger] quotes_plain(s)[i] == plain_quote(s[i]),
        quotes_plain(quotes_plain(s)) == quotes_plain(s),
{
    assert(quotes_plain(quotes_plain(s)) =~= quotes_plain(s));
}

// ---------------------------------------------------------------------------------------
// Backslashes
// ---------------------------------------------------------------------------------------
/// Every backslash begins a JSON escape, or stands at the very end.
pub open spec fn well_escaped(s: Seq<char>) -> bool
    decreases s.len(),
{
    if s.len() == 0 {
        true
    } else if s[0] != '\\' {
        well_escaped(s.skip(1))
    } else if s.len() == 1 {
        true
    } else {
        may_be_escaped(s[1]) && well_escaped(s.skip(2))
    }
}

/// After the repair every backslash begins a JSON escape, or stands at the very end.
pub proof fn law_backslashes_valid(s: Seq<char>)
    ensures
        well_escaped(backslashes_repaired(s)),
    decreases s.len(),
{
    reveal_with_fuel(well_escaped, 3);
    let r = backslashes_repaired(s);
    if s.len() == 0 {
    } else if s[0] != '\\' {
        law_backslashes_valid(s.skip(1));
        assert(r.skip(1) =~= backslashes_repaired(s.skip(1)));
    } else if s.len() == 1 {
    } else {
        law_backslashes_valid(s.skip(2));
        let tail = backslashes_repaired(s.skip(2));
        if may_be_escaped(s[1]) {
            assert(r.skip(2) =~= tail);
        } else {
            assert(r.skip(2) =~= seq![s[1]] + tail);
            assert(r.skip(2).skip(1) =~= tail);
        }
    }
}

/// A text with valid escapes is left as it is.
pub proof fn law_backslashes_keep_valid(s: Seq<char>)
    requires
        well_escaped(s),
    ensures
        backslashes_repaired(s) == s,
    decreases s.len(),
{
    if s.len() == 0 {
    } else if s[0] != '\\' {
        law_backslashes_keep_valid(s.skip(1));
        assert(seq![s[0]] + s.skip(1) =~= s);
    } else if s.len() == 1 {
        assert(seq!['\\'] =~= s);
    } else {
        law_backslashes_keep_valid(s.skip(2));
        assert(seq!['\\', s[1]] + s.skip(2) =~= s);
    }
    assert(backslashes_repaired(s) =~= s);
}

/// Repairing backslashes twice is repairing them once.
pub proof fn law_backslashes_idempotent(s: Seq<char>)
    ensures
        backslashes_repaired(backslashes_repaired(s)) == backslashes_repaired(s),
{
    law_backslashes_valid(s);
    law_backslashes_keep_valid(backslashes_repaired(s));
}

// ---------------------------------------------------------------------------------------
// Line breaks
// ---------------------------------------------------------------------------------------
/// Escaping line breaks twice is escaping them once.
pub proof fn law_newlines_idempotent(s: Seq<char>, in_string: bool, escaped: bool)
    ensures
        newlines_escaped(newlines_escaped(s, in_string, escaped), in_string, escaped)
            == newlines_escaped(s, in_string, escaped),
    decreases s.len(),
{
    let r = newlines_escaped(s, in_string, escaped);
    reveal_with_fuel(newlines_escaped, 3);
    if s.len() > 0 {
        law_newlines_idempotent(s.skip(1), in_string, false);
        law_newlines_idempotent(s.skip(1), in_string, true);
        law_newlines_idempotent(s.skip(1), !in_string, false);
        if !escaped && in_string && (s[0] == '\n' || s[0] == '\r') {
            let tail = newlines_escaped(s.skip(1), in_string, false);
            assert(r.skip(1) =~= seq!['n'] + tail);
            assert(r.skip(1).skip(1) =~= tail);
            assert(newlines_escaped(r.skip(1), in_string, true) =~= seq!['n'] + tail);
        } else {
            assert(r.skip(1) =~= newlines_escaped(
                s.skip(1),
                if !escaped && s[0] == '"' {
                    !in_string
                } else {
                    in_string
                },
                !escaped && s[0] == '\\' && in_string,
            ));
        }
        assert(newlines_escaped(r, in_string, escaped) =~= r);
    }
}

/// A text without line breaks is left as it is.
pub proof fn law_newlines_keep_one_line(s: Seq<char>, in_string: bool, escaped: bool)
    requires
        !s.contains('\n'),
        !s.contains('\r'),
    ensures
        newlines_escaped(s, in_string, escaped) == s,
    decreases s.len(),
{
    if s.len() > 0 {
        lemma_contains_skip(s, '\n');
        lemma_contains_skip(s, '\r');
        law_newlines_keep_one_line(s.skip(1), in_string, false);
        law_newlines_keep_one_line(s.skip(1), in_string, true);
        law_newlines_keep_one_line(s.skip(1), !in_string, false);
        assert(seq![s[0]] + s.skip(1) =~= s);
    }
    assert(newlines_escaped(s, in_string, escaped) =~= s);
}

proof fn lemma_contains_skip(s: Seq<char>, c: char)
    requires
        s.len() > 0,
        !s.contains(c),
    ensures
        s[0] != c,
        !s.skip(1).contains(c),
{
    assert(s.contains(s[0]));
    assert forall|i: int| 0 <= i < s.skip(1).len() implies s.skip(1)[i] != c by {
        assert(s.contains(s[i + 1]));
    }
}

// ---------------------------------------------------------------------------------------
// Quotes, commas and keys
// ---------------------------------------------------------------------------------------
/// A text without single quotes is left as it is.
pub proof fn law_quotes_keep_double_quoted(s: Seq<char>, in_double: bool, escaped: bool)
    requires
        !s.contains('\''),
    ensures
        quotes_repaired(s, in_double, false, escaped) == s,
    decreases s.len(),
{
    if s.len() > 0 {
        lemma_contains_skip(s, '\'');
        law_quotes_keep_double_quoted(s.skip(1), in_double, false);
        law_quotes_keep_double_quoted(s.skip(1), in_double, true);
        law_quotes_keep_double_quoted(s.skip(1), !in_double, false);
        assert(seq![s[0]] + s.skip(1) =~= s);
    }
    assert(quotes_repaired(s, in_double, false, escaped) =~= s);
}

/// Inside a string no comma is taken out: up to a closing quote the text is left as it is.
pub proof fn law_commas_keep_strings(s: Seq<char>, escaped: bool)
    requires
        !s.contains('"'),
    ensures
        commas_repaired(s, true, escaped) == s,
    decreases s.len(),
{
    if s.len() > 0 {
        lemma_contains_skip(s, '"');
        law_commas_keep_strings(s.skip(1), false);
        law_commas_keep_strings(s.skip(1), true);
        assert(seq![s[0]] + s.skip(1) =~= s);
    }
    assert(commas_repaired(s, true, escaped) =~= s);
}

/// A text without commas is left as it is by the repair of commas.
pub proof fn law_commas_keep_text_without(s: Seq<char>, in_string: bool, escaped: bool)
    requires
        !s.contains(','),
    ensures
        commas_repaired(s, in_string, escaped) == s,
    decreases s.len(),
{
    if s.len() > 0 {
        lemma_contains_skip(s, ',');
        law_commas_keep_text_without(s.skip(1), in_string, false);
        law_commas_keep_text_without(s.skip(1), in_string, true);
        law_commas_keep_text_without(s.skip(1), !in_string, false);
        assert(seq![s[0]] + s.skip(1) =~= s);
    }
    assert(commas_repaired(s, in_string, escaped) =~= s);
}

/// Neither a comma nor a white character.
pub open spec fn is_solid(c: char) -> bool {
    c != ',' && !is_space(c)
}

proof fn lemma_solid_step(s: Seq<char>)
    requires
        s.len() > 0,
    ensures
        s.filter(|c: char| is_solid(c)) == seq![s[0]].filter(|c: char| is_solid(c)) + s.skip(
            1,
        ).filter(|c: char| is_solid(c)),
{
    assert(s =~= seq![s[0]] + s.skip(1));
    Seq::filter_distributes_over_add(seq![s[0]], s.skip(1), |c: char| is_solid(c));
}

/// White characters in front, and a comma before them, are no solid ones.
proof fn lemma_nothing_solid(s: Seq<char>, n: int)
    requires
        0 <= n <= s.len(),
        forall|i: int| 0 <= i < n ==> !is_solid(#[trigger] s[i]),
    ensures
        s.filter(|c: char| is_solid(c)) == s.skip(n).filter(|c: char| is_solid(c)),
    decreases n,
{
    if n == 0 {
        assert(s.skip(0) =~= s);
    } else {
        let one = seq![s[0]];
        lemma_solid_step(s);
        lemma_nothing_solid(s.skip(1), n - 1);
        assert(s.skip(1).skip(n - 1) =~= s.skip(n));
        reveal_with_fuel(Seq::filter, 2);
        assert(!is_solid(s[0]));
        assert(one.drop_last() =~= Seq::<char>::empty());
        assert(one.filter(|c: char| is_solid(c)) =~= Seq::<char>::empty());
    }
}

/// The repair of commas takes out nothing but commas and white characters: all others stay, in
/// their order.
pub proof fn law_commas_keep_the_rest(s: Seq<char>, in_string: bool, escaped: bool)
    ensures
        commas_repaired(s, in_string, escaped).filter(|c: char| is_solid(c)) == s.filter(
            |c: char| is_solid(c),
        ),
    decreases s.len(),
{
    if s.len() > 0 {
        let rest = s.skip(1);
        law_commas_keep_the_rest(rest, in_string, false);
        law_commas_keep_the_rest(rest, in_string, true);
        law_commas_keep_the_rest(rest, !in_string, false);
        lemma_solid_step(s);
        let out = commas_repaired(s, in_string, escaped);
        if !escaped && s[0] == ',' && !in_string {
            let n = leading_spaces(rest) as int;
            lemma_leading_spaces(rest);
            let after = s.skip(1 + n);
            if after.len() > 0 && (after[0] == ']' || after[0] == '}') {
                law_commas_keep_the_rest(after, in_string, false);
                assert forall|i: int| 0 <= i < 1 + n implies !is_solid(#[trigger] s[i]) by {
                    assert(i > 0 ==> s[i] == rest[i - 1]);
                }
                lemma_nothing_solid(s, 1 + n);
            } else {
                lemma_solid_step(out);
                assert(out.skip(1) =~= commas_repaired(rest, in_string, false));
            }
        } else {
            lemma_solid_step(out);
            assert(out.skip(1) =~= commas_repaired(
                rest,
                if !escaped && s[0] == '"' {
                    !in_string
                } else {
                    in_string
                },
                !escaped && s[0] == '\\',
            ));
        }
    }
}

/// The repair of commas makes no text longer.
pub proof fn law_commas_never_longer(s: Seq<char>, in_string: bool, escaped: bool)
    ensures
        commas_repaired(s, in_string, escaped).len() <= s.len(),
    decreases s.len(),
{
    if s.len() > 0 {
        law_commas_never_longer(s.skip(1), in_string, false);
        law_commas_never_longer(s.skip(1), in_string, true);
        law_commas_never_longer(s.skip(1), !in_string, false);
        lemma_leading_spaces(s.skip(1));
        let after = s.skip(1 + leading_spaces(s.skip(1)) as int);
        law_commas_never_longer(after, in_string, false);
    }
}

/// Without a brace or a comma before it there is no key to quote: the text is left as it is.
pub proof fn law_keys_keep_text_without(s: Seq<char>)
    requires
        !s.contains('{'),
        !s.contains(','),
    ensures
        keys_quoted(s) == s,
    decreases s.len(),
{
    if s.len() > 0 {
        lemma_contains_skip(s, '{');
        lemma_contains_skip(s, ',');
        law_keys_keep_text_without(s.skip(1));
        assert(seq![s[0]] + s.skip(1) =~= s);
    }
    assert(keys_quoted(s) =~= s);
}

/// No bare word stands in a key position: what follows a brace or a comma, white characters
/// apart, is neither a letter nor an underscore.
pub open spec fn no_bare_keys(s: Seq<char>) -> bool {
    forall|i: int|
        0 <= i < s.len() && (#[trigger] s[i] == '{' || s[i] == ',') ==> !begins_word(
            trim_start(s.skip(i + 1)),
        )
}

pub open spec fn begins_word(s: Seq<char>) -> bool {
    s.len() > 0 && (is_letter(s[0]) || s[0] == '_')
}

/// A text without bare words in key positions, such as one whose keys are in quotes, is left as
/// it is.
pub proof fn law_keys_keep_quoted(s: Seq<char>)
    requires
        no_bare_keys(s),
    ensures
        keys_quoted(s) == s,
    decreases s.len(),
{
    if s.len() == 0 {
        assert(keys_quoted(s) =~= s);
    } else if (s[0] == '{' || s[0] == ',') && s.len() > 1 {
        let tail = s.skip(1);
        let n = leading_spaces(tail) as int;
        lemma_leading_spaces(tail);
        assert(!begins_word(trim_start(s.skip(0int + 1))));
        let after = tail.skip(n);
        assert(trim_start(tail) == after);
        lemma_bare_keys_skip(s, 1 + n);
        assert(s.skip(1 + n) =~= after);
        law_keys_keep_quoted(after);
        assert(seq![s[0]] + tail.take(n) + after =~= s);
    } else {
        lemma_bare_keys_skip(s, 1);
        law_keys_keep_quoted(s.skip(1));
        assert(seq![s[0]] + s.skip(1) =~= s);
    }
}

proof fn lemma_bare_keys_skip(s: Seq<char>, n: int)
    requires
        no_bare_keys(s),
        0 <= n <= s.len(),
    ensures
        no_bare_keys(s.skip(n)),
{
    let t = s.skip(n);
    assert forall|i: int| 0 <= i < t.len() && (#[trigger] t[i] == '{' || t[i] == ',') implies
        !begins_word(trim_start(t.skip(i + 1))) by {
        assert(t[i] == s[n + i]);
        assert(t.skip(i + 1) =~= s.skip(n + i + 1));
    }
}

/// A character of a word.
pub open spec fn in_word(c: char) -> bool {
    is_letter(c) || is_numeral(c) || c == '_'
}

proof fn lemma_leading_word_is(s: Seq<char>, n: int)
    requires
        0 <= n <= s.len(),
        forall|i: int| 0 <= i < n ==> in_word(#[trigger] s[i]),
        n < s.len() ==> !in_word(s[n]),
    ensures
        leading_word(s) == n,
    decreases n,
{
    if n > 0 {
        assert(in_word(s[0]));
        assert forall|i: int| 0 <= i < n - 1 implies in_word(#[trigger] s.skip(1)[i]) by {
            assert(s.skip(1)[i] == s[i + 1]);
        }
        lemma_leading_word_is(s.skip(1), n - 1);
    }
}

proof fn lemma_leading_word_ends(s: Seq<char>)
    ensures
        leading_word(s) <= s.len(),
        forall|i: int| 0 <= i < leading_word(s) ==> in_word(#[trigger] s[i]),
        leading_word(s) < s.len() ==> !in_word(s[leading_word(s) as int]),
    decreases s.len(),
{
    if s.len() > 0 && in_word(s[0]) {
        lemma_leading_word_ends(s.skip(1));
        assert forall|i: int| 0 <= i < leading_word(s) implies in_word(#[trigger] s[i]) by {
            if i > 0 {
                assert(s.skip(1)[i - 1] == s[i]);
            }
        }
    }
}

proof fn lemma_leading_spaces_is(s: Seq<char>, n: int)
    requires
        0 <= n <= s.len(),
        forall|i: int| 0 <= i < n ==> is_space(#[trigger] s[i]),
        n < s.len() ==> !is_space(s[n]),
    ensures
        leading_spaces(s) == n,
    decreases n,
{
    if n > 0 {
        assert(is_space(s[0]));
        assert forall|i: int| 0 <= i < n - 1 implies is_space(#[trigger] s.skip(1)[i]) by {
            assert(s.skip(1)[i] == s[i + 1]);
        }
        lemma_leading_spaces_is(s.skip(1), n - 1);
    }
}

/// A text begins with the same character when its keys are in quotes.
proof fn lemma_keys_keep_front(s: Seq<char>)
    ensures
        s.len() == 0 <==> keys_quoted(s).len() == 0,
        s.len() > 0 ==> keys_quoted(s)[0] == s[0],
{
}

/// A text without braces and commas is passed over.
proof fn lemma_keys_pass(w: Seq<char>, rest: Seq<char>)
    requires
        forall|i: int| 0 <= i < w.len() ==> #[trigger] w[i] != '{' && w[i] != ',',
    ensures
        keys_quoted(w + rest) == w + keys_quoted(rest),
    decreases w.len(),
{
    if w.len() == 0 {
        assert(w + rest =~= rest);
        assert(w + keys_quoted(rest) =~= keys_quoted(rest));
    } else {
        assert((w + rest).skip(1) =~= w.skip(1) + rest);
        assert(w[0] != '{' && w[0] != ',');
        assert forall|i: int| 0 <= i < w.skip(1).len() implies #[trigger] w.skip(1)[i] != '{'
            && w.skip(1)[i] != ',' by {
            assert(w.skip(1)[i] == w[i + 1]);
        }
        lemma_keys_pass(w.skip(1), rest);
        assert(seq![w[0]] + (w.skip(1) + keys_quoted(rest)) =~= w + keys_quoted(rest));
    }
}

/// What a key position became stays as it is: `rest` is what stands behind it.
proof fn lemma_key_position_fixed(tail: Seq<char>, rest: Seq<char>)
    requires
        ({
            let after = key_quoted(tail).1;
            &&& after.len() == 0 <==> rest.len() == 0
            &&& after.len() > 0 ==> rest[0] == after[0]
        }),
        keys_quoted(rest) == rest,
    ensures
        ({
            let (out, _) = key_quoted(tail);
            let (again, behind) = key_quoted(out + rest);
            again + keys_quoted(behind) == out + rest
        }),
{
    let (out, after) = key_quoted(tail);
    let k = leading_spaces(tail) as int;
    lemma_leading_spaces(tail);
    let spaces = tail.take(k);
    let body = tail.skip(k);
    let whole = out + rest;
    assert forall|i: int| 0 <= i < k implies is_space(#[trigger] whole[i]) by {
        assert(whole[i] == tail[i]);
    }
    if body.len() > 0 && (is_letter(body[0]) || body[0] == '_') {
        let n = leading_word(body) as int;
        lemma_leading_word_ends(body);
        let word = body.take(n);
        assert(in_word(body[0]));
        if body.skip(n).len() > 0 && body.skip(n)[0] == ':' {
            let quoted = seq!['"'] + word + seq!['"'];
            assert(whole[k] == '"');
            lemma_leading_spaces_is(whole, k);
            assert(whole.take(k) =~= spaces);
            assert(whole.skip(k) =~= quoted + rest);
            assert forall|i: int| 0 <= i < quoted.len() implies #[trigger] quoted[i] != '{'
                && quoted[i] != ',' by {
                if 0 < i < n + 1 {
                    assert(quoted[i] == body[i - 1]);
                }
            }
            lemma_keys_pass(quoted, rest);
            assert(spaces + (quoted + rest) =~= whole);
        } else {
            assert(whole[k] == body[0]);
            lemma_leading_spaces_is(whole, k);
            assert(whole.take(k) =~= spaces);
            assert(whole.skip(k) =~= word + rest);
            assert forall|i: int| 0 <= i < n implies in_word(#[trigger] (word + rest)[i]) by {
                assert((word + rest)[i] == body[i]);
            }
            assert(n < body.len() ==> body.skip(n)[0] == body[n]);
            lemma_leading_word_is(word + rest, n);
            assert((word + rest).take(n) =~= word);
            assert((word + rest).skip(n) =~= rest);
            assert((word + rest)[0] == body[0]);
        }
    } else {
        assert(whole =~= spaces + rest);
        assert(rest.len() > 0 ==> whole[k] == body[0]);
        lemma_leading_spaces_is(whole, k);
        assert(whole.take(k) =~= spaces);
        assert(whole.skip(k) =~= rest);
    }
}

/// Quoting keys twice is quoting them once.
pub proof fn law_keys_idempotent(s: Seq<char>)
    ensures
        keys_quoted(keys_quoted(s)) == keys_quoted(s),
    decreases s.len(),
{
    let r = keys_quoted(s);
    if s.len() == 0 {
        assert(r =~= seq![]);
    } else if (s[0] == '{' || s[0] == ',') && s.len() > 1 {
        let tail = s.skip(1);
        let (out, after) = key_quoted(tail);
        lemma_leading_spaces(tail);
        lemma_leading_word_ends(tail.skip(leading_spaces(tail) as int));
        law_keys_idempotent(after);
        lemma_keys_keep_front(after);
        let rest = keys_quoted(after);
        lemma_key_position_fixed(tail, rest);
        assert(r.skip(1) =~= out + rest);
        assert(out.len() + rest.len() > 0) by {
            if out.len() == 0 {
                assert(leading_spaces(tail) == 0);
                assert(after.len() > 0);
            }
        }
        let (again, behind) = key_quoted(out + rest);
        assert(seq![s[0]] + again + keys_quoted(behind) =~= seq![s[0]] + (again + keys_quoted(
            behind,
        )));
        assert(seq![s[0]] + (out + rest) =~= r);
    } else {
        let rest = keys_quoted(s.skip(1));
        law_keys_idempotent(s.skip(1));
        assert(r.skip(1) =~= rest);
    }
}

/// Not a double quote.
pub open spec fn no_quote(c: char) -> bool {
    c != '"'
}

proof fn lemma_quotes_dropped(a: Seq<char>, w: Seq<char>)
    ensures
        (a + seq!['"'] + w + seq!['"']).filter(|c: char| no_quote(c)) == (a + w).filter(
            |c: char| no_quote(c),
        ),
{
    let f = |c: char| no_quote(c);
    let q = seq!['"'];
    Seq::filter_distributes_over_add(a + q + w, q, f);
    Seq::filter_distributes_over_add(a + q, w, f);
    Seq::filter_distributes_over_add(a, q, f);
    Seq::filter_distributes_over_add(a, w, f);
    reveal_with_fuel(Seq::filter, 2);
    assert(q.drop_last() =~= Seq::<char>::empty());
    assert(q.filter(f) =~= Seq::<char>::empty());
    assert(a.filter(f) + q.filter(f) =~= a.filter(f));
    assert(a.filter(f) + w.filter(f) + q.filter(f) =~= a.filter(f) + w.filter(f));
}

/// Quoting keys adds nothing but double quotes: all other characters stay, in their order.
pub proof fn law_keys_only_add_quotes(s: Seq<char>)
    ensures
        keys_quoted(s).filter(|c: char| no_quote(c)) == s.filter(|c: char| no_quote(c)),
    decreases s.len(),
{
    let f = |c: char| no_quote(c);
    if s.len() == 0 {
        assert(keys_quoted(s) =~= s);
    } else if (s[0] == '{' || s[0] == ',') && s.len() > 1 {
        let tail = s.skip(1);
        let (out, after) = key_quoted(tail);
        let k = leading_spaces(tail) as int;
        lemma_leading_spaces(tail);
        let body = tail.skip(k);
        let n = leading_word(body) as int;
        lemma_leading_word_ends(body);
        law_keys_only_add_quotes(after);
        let front = seq![s[0]];
        let taken = tail.take(tail.len() - after.len());
        assert(out.filter(f) == taken.filter(f)) by {
            if body.len() > 0 && (is_letter(body[0]) || body[0] == '_') {
                assert(taken =~= tail.take(k) + body.take(n));
                lemma_quotes_dropped(tail.take(k), body.take(n));
            } else {
                assert(taken =~= tail.take(k));
            }
        }
        assert(after =~= tail.skip(tail.len() - after.len()));
        assert(s =~= front + taken + after);
        Seq::filter_distributes_over_add(front + out, keys_quoted(after), f);
        Seq::filter_distributes_over_add(front, out, f);
        Seq::filter_distributes_over_add(front + taken, after, f);
        Seq::filter_distributes_over_add(front, taken, f);
    } else {
        law_keys_only_add_quotes(s.skip(1));
        assert(s =~= seq![s[0]] + s.skip(1));
        Seq::filter_distributes_over_add(seq![s[0]], keys_quoted(s.skip(1)), f);
        Seq::filter_distributes_over_add(seq![s[0]], s.skip(1), f);
    }
}

} // verus!
