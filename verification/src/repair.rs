//! Repairs of almost-JSON text, as language models write it.
use crate::json::json_parse;
use crate::json::parse_value;
use crate::search::count_leading_spaces;
use crate::search::leading_spaces;
use crate::search::lemma_leading_spaces;
use crate::text::chars_of;
use crate::text::part;
use crate::text::text_of;
use vstd::prelude::*;

verus! {

// ---------------------------------------------------------------------------------------
// Backslashes
// ---------------------------------------------------------------------------------------
/// The characters that may follow a backslash in a JSON string.
pub open spec fn may_be_escaped(c: char) -> bool {
    c == '"' || c == '\\' || c == '/' || c == 'b' || c == 'f' || c == 'n' || c == 'r' || c == 't'
        || c == 'u'
}

/// `s` with every backslash that begins no JSON escape doubled.
pub open spec fn backslashes_repaired(s: Seq<char>) -> Seq<char>
    decreases s.len(),
{
    if s.len() == 0 {
        seq![]
    } else if s[0] != '\\' {
        seq![s[0]] + backslashes_repaired(s.skip(1))
    } else if s.len() == 1 {
        seq!['\\']
    } else if may_be_escaped(s[1]) {
        seq!['\\', s[1]] + backslashes_repaired(s.skip(2))
    } else {
        seq!['\\', '\\', s[1]] + backslashes_repaired(s.skip(2))
    }
}

/// Doubles every backslash that begins no JSON escape.
pub fn repair_invalid_backslashes(s: &str) -> (r: String)
    ensures
        r@ == backslashes_repaired(s@),
{
    let chars = chars_of(s);
    let mut out = String::new();
    let mut i: usize = 0;
    assert(chars@.skip(0) =~= chars@);
    assert(out@ + backslashes_repaired(chars@) =~= backslashes_repaired(chars@));
    while i < chars.len()
        invariant
            i <= chars@.len(),
            out@ + backslashes_repaired(chars@.skip(i as int)) == backslashes_repaired(chars@),
        decreases chars@.len() - i,
    {
        let c = chars[i];
        let ghost before = out@;
        let ghost rest = chars@.skip(i as int);
        if c != '\\' {
            out.push(c);
            i = i + 1;
            proof {
                assert(rest.skip(1) =~= chars@.skip(i as int));
                assert(out@ =~= before + seq![c]);
            }
        } else if i + 1 == chars.len() {
            out.push('\\');
            i = i + 1;
            proof {
                assert(chars@.skip(i as int) =~= Seq::<char>::empty());
                assert(out@ =~= before + seq!['\\']);
                assert(backslashes_repaired(Seq::<char>::empty()) =~= Seq::<char>::empty());
            }
        } else {
            let next = chars[i + 1];
            out.push('\\');
            if next == '"' || next == '\\' || next == '/' || next == 'b' || next == 'f' || next
                == 'n' || next == 'r' || next == 't' || next == 'u' {
                out.push(next);
                assert(out@ =~= before + seq!['\\', next]);
            } else {
                out.push('\\');
                out.push(next);
                assert(out@ =~= before + seq!['\\', '\\', next]);
            }
            i = i + 2;
            assert(rest.skip(2) =~= chars@.skip(i as int));
        }
        assert(out@ + backslashes_repaired(chars@.skip(i as int)) =~= before
            + backslashes_repaired(rest));
    }
    assert(chars@.skip(chars@.len() as int) =~= Seq::<char>::empty());
    assert(out@ + backslashes_repaired(Seq::<char>::empty()) =~= out@);
    out
}

// ---------------------------------------------------------------------------------------
// Unquoted keys
// ---------------------------------------------------------------------------------------
/// Whether a character beyond ASCII is alphabetic.
pub uninterp spec fn wide_alphabetic(c: char) -> bool;

/// Whether a character beyond ASCII is numeric.
pub uninterp spec fn wide_numeric(c: char) -> bool;

/// The alphabetic characters: in ASCII the letters.
pub open spec fn is_letter(c: char) -> bool {
    if c <= '\u{7f}' {
        'a' <= c <= 'z' || 'A' <= c <= 'Z'
    } else {
        wide_alphabetic(c)
    }
}

/// The numeric characters: in ASCII the digits.
pub open spec fn is_numeral(c: char) -> bool {
    if c <= '\u{7f}' {
        '0' <= c <= '9'
    } else {
        wide_numeric(c)
    }
}

/// `char::is_alphabetic`: the Unicode property Alphabetic, which in ASCII the letters have;
/// of the characters beyond ASCII it is named and nothing more is said.
pub assume_specification[ char::is_alphabetic ](c: char) -> (r: bool)
    ensures
        c <= '\u{7f}' ==> r == is_letter(c),
        c > '\u{7f}' ==> r == wide_alphabetic(c),
;

/// `char::is_alphanumeric`: alphabetic or numeric; of the characters beyond ASCII it is named
/// and nothing more is said.
pub assume_specification[ char::is_alphanumeric ](c: char) -> (r: bool)
    ensures
        c <= '\u{7f}' ==> r == (is_letter(c) || is_numeral(c)),
        c > '\u{7f}' ==> r == (wide_alphabetic(c) || wide_numeric(c)),
;

/// The length of the word that `s` begins with.
pub open spec fn leading_word(s: Seq<char>) -> nat
    decreases s.len(),
{
    if s.len() > 0 && (is_letter(s[0]) || is_numeral(s[0]) || s[0] == '_') {
        1 + leading_word(s.skip(1))
    } else {
        0
    }
}

/// What a key position becomes: `s` is what follows a `{` or a `,`. White characters are kept;
/// a word after them that a colon follows is put in quotes.
pub open spec fn key_quoted(s: Seq<char>) -> (Seq<char>, Seq<char>) {
    let spaces = s.take(leading_spaces(s) as int);
    let rest = s.skip(leading_spaces(s) as int);
    if rest.len() > 0 && (is_letter(rest[0]) || rest[0] == '_') {
        let n = leading_word(rest) as int;
        let word = rest.take(n);
        let after = rest.skip(n);
        if after.len() > 0 && after[0] == ':' {
            (spaces + seq!['"'] + word + seq!['"'], after)
        } else {
            (spaces + word, after)
        }
    } else {
        (spaces, rest)
    }
}

/// `s` with every bare word in a key position (after a `{` or a `,`, before a colon) in quotes.
pub open spec fn keys_quoted(s: Seq<char>) -> Seq<char>
    decreases s.len(),
{
    if s.len() == 0 {
        seq![]
    } else if (s[0] == '{' || s[0] == ',') && s.len() > 1 {
        let (out, after) = key_quoted(s.skip(1));
        proof {
            lemma_leading_spaces(s.skip(1));
            lemma_leading_word(s.skip(1).skip(leading_spaces(s.skip(1)) as int));
        }
        seq![s[0]] + out + keys_quoted(after)
    } else {
        seq![s[0]] + keys_quoted(s.skip(1))
    }
}

pub proof fn lemma_leading_word(s: Seq<char>)
    ensures
        leading_word(s) <= s.len(),
    decreases s.len(),
{
    if s.len() > 0 && (is_letter(s[0]) || is_numeral(s[0]) || s[0] == '_') {
        lemma_leading_word(s.skip(1));
    }
}

/// The length of the word that `s` begins with.
fn count_leading_word(s: &[char]) -> (n: usize)
    ensures
        n == leading_word(s@),
        n <= s@.len(),
{
    let mut n: usize = 0;
    assert(s@.skip(0) =~= s@);
    while n < s.len() && (s[n].is_alphanumeric() || s[n] == '_')
        invariant
            n <= s@.len(),
            leading_word(s@) == n + leading_word(s@.skip(n as int)),
        decreases s@.len() - n,
    {
        assert(s@.skip(n as int).skip(1) =~= s@.skip(n + 1));
        n = n + 1;
    }
    n
}

/// Writes what a key position becomes to `out`; returns how many characters that takes up.
fn quote_key(tail: &[char], out: &mut String) -> (taken: usize)
    ensures
        taken <= tail@.len(),
        final(out)@ == old(out)@ + key_quoted(tail@).0,
        key_quoted(tail@).1 == tail@.skip(taken as int),
{
    let ghost before = out@;
    let len: usize = tail.len();
    let spaces: usize = count_leading_spaces(tail);
    out.append(text_of(part(tail, 0, spaces)).as_str());
    assert(tail@.subrange(0, spaces as int) =~= tail@.take(spaces as int));
    let word = part(tail, spaces, len);
    assert(word@ =~= tail@.skip(spaces as int));
    if word.len() > 0 && (word[0].is_alphabetic() || word[0] == '_') {
        let n: usize = count_leading_word(word);
        assert(word@.subrange(0, n as int) =~= word@.take(n as int));
        assert(word@.skip(n as int) =~= tail@.skip(spaces + n));
        if n < word.len() && word[n] == ':' {
            out.push('"');
            out.append(text_of(part(word, 0, n)).as_str());
            out.push('"');
            assert(word@.skip(n as int)[0] == ':');
        } else {
            out.append(text_of(part(word, 0, n)).as_str());
        }
        assert(out@ =~= before + key_quoted(tail@).0);
        spaces + n
    } else {
        assert(out@ =~= before + key_quoted(tail@).0);
        spaces
    }
}

/// Puts every bare word in a key position in quotes.
pub fn repair_unquoted_keys(s: &str) -> (r: String)
    ensures
        r@ == keys_quoted(s@),
{
    let chars = chars_of(s);
    let len: usize = chars.len();
    let mut out = String::new();
    let mut i: usize = 0;
    assert(chars@.skip(0) =~= chars@);
    assert(out@ + keys_quoted(chars@) =~= keys_quoted(chars@));
    while i < len
        invariant
            len == chars@.len(),
            i <= len,
            out@ + keys_quoted(chars@.skip(i as int)) == keys_quoted(chars@),
        decreases len - i,
    {
        let c = chars[i];
        let ghost before = out@;
        let ghost rest = chars@.skip(i as int);
        out.push(c);
        assert(out@ =~= before + seq![c]);
        if (c == '{' || c == ',') && i + 1 < len {
            let tail = part(chars.as_slice(), i + 1, len);
            assert(tail@ =~= rest.skip(1));
            let taken: usize = quote_key(tail, &mut out);
            i = i + 1 + taken;
            assert(tail@.skip(taken as int) =~= chars@.skip(i as int));
        } else {
            i = i + 1;
            assert(rest.skip(1) =~= chars@.skip(i as int));
        }
        assert(out@ + keys_quoted(chars@.skip(i as int)) =~= before + keys_quoted(rest));
    }
    assert(chars@.skip(len as int) =~= Seq::<char>::empty());
    assert(out@ + keys_quoted(Seq::<char>::empty()) =~= out@);
    out
}

// ---------------------------------------------------------------------------------------
// Trailing commas
// ---------------------------------------------------------------------------------------
/// `s` with every comma that only white characters part from a closing `]` or `}` taken out,
/// together with those white characters. Nothing changes inside a string: `in_string` says
/// whether `s` begins inside one, `escaped` whether a backslash stands before it.
pub open spec fn commas_repaired(s: Seq<char>, in_string: bool, escaped: bool) -> Seq<char>
    decreases s.len(),
{
    if s.len() == 0 {
        seq![]
    } else if escaped {
        seq![s[0]] + commas_repaired(s.skip(1), in_string, false)
    } else if s[0] == '\\' {
        seq![s[0]] + commas_repaired(s.skip(1), in_string, true)
    } else if s[0] == '"' {
        seq![s[0]] + commas_repaired(s.skip(1), !in_string, false)
    } else if !in_string && s[0] == ',' {
        let after = s.skip(1 + leading_spaces(s.skip(1)) as int);
        proof {
            lemma_leading_spaces(s.skip(1));
        }
        if after.len() > 0 && (after[0] == ']' || after[0] == '}') {
            commas_repaired(after, in_string, false)
        } else {
            seq![s[0]] + commas_repaired(s.skip(1), in_string, false)
        }
    } else {
        seq![s[0]] + commas_repaired(s.skip(1), in_string, false)
    }
}

/// Takes out the commas that stand before a closing `]` or `}`.
pub fn repair_trailing_commas(s: &str) -> (r: String)
    ensures
        r@ == commas_repaired(s@, false, false),
{
    let chars = chars_of(s);
    let len: usize = chars.len();
    let mut out = String::new();
    let mut in_string: bool = false;
    let mut escaped: bool = false;
    let mut i: usize = 0;
    assert(chars@.skip(0) =~= chars@);
    assert(out@ + commas_repaired(chars@, false, false) =~= commas_repaired(chars@, false, false));
    while i < len
        invariant
            len == chars@.len(),
            i <= len,
            out@ + commas_repaired(chars@.skip(i as int), in_string, escaped) == commas_repaired(
                chars@,
                false,
                false,
            ),
        decreases len - i,
    {
        let c = chars[i];
        let ghost before = out@;
        let ghost rest = chars@.skip(i as int);
        let ghost was_in_string = in_string;
        let ghost was_escaped = escaped;
        assert(rest.skip(1) =~= chars@.skip(i + 1));
        if escaped {
            escaped = false;
            out.push(c);
            i = i + 1;
        } else if c == '\\' {
            escaped = true;
            out.push(c);
            i = i + 1;
        } else if c == '"' {
            in_string = !in_string;
            out.push(c);
            i = i + 1;
        } else if !in_string && c == ',' {
            let tail = part(chars.as_slice(), i + 1, len);
            assert(tail@ =~= rest.skip(1));
            let j: usize = i + 1 + count_leading_spaces(tail);
            assert(rest.skip(1 + leading_spaces(rest.skip(1)) as int) =~= chars@.skip(j as int));
            if j < len && (chars[j] == ']' || chars[j] == '}') {
                i = j;
            } else {
                out.push(c);
                i = i + 1;
            }
        } else {
            out.push(c);
            i = i + 1;
        }
        assert(out@ =~= before || out@ =~= before + seq![c]);
        assert(out@ + commas_repaired(chars@.skip(i as int), in_string, escaped) =~= before
            + commas_repaired(rest, was_in_string, was_escaped));
    }
    assert(chars@.skip(len as int) =~= Seq::<char>::empty());
    assert(out@ + commas_repaired(Seq::<char>::empty(), in_string, escaped) =~= out@);
    out
}

// ---------------------------------------------------------------------------------------
// Single quotes
// ---------------------------------------------------------------------------------------
/// `s` with strings in single quotes put in double quotes. `in_double` and `in_single` say in
/// which kind of string `s` begins, `escaped` whether a backslash stands before it.
pub open spec fn quotes_repaired(
    s: Seq<char>,
    in_double: bool,
    in_single: bool,
    escaped: bool,
) -> Seq<char>
    decreases s.len(),
{
    if s.len() == 0 {
        seq![]
    } else if escaped {
        seq![s[0]] + quotes_repaired(s.skip(1), in_double, in_single, false)
    } else if s[0] == '\\' {
        seq![s[0]] + quotes_repaired(s.skip(1), in_double, in_single, true)
    } else if s[0] == '\'' && !in_double {
        seq!['"'] + quotes_repaired(s.skip(1), in_double, !in_single, false)
    } else if s[0] == '"' && !in_single {
        seq!['"'] + quotes_repaired(s.skip(1), !in_double, in_single, false)
    } else if s[0] == '"' {
        seq!['\\', '"'] + quotes_repaired(s.skip(1), in_double, in_single, false)
    } else {
        seq![s[0]] + quotes_repaired(s.skip(1), in_double, in_single, false)
    }
}

/// Puts strings that stand in single quotes in double quotes.
pub fn repair_single_quotes(s: &str) -> (r: String)
    ensures
        r@ == quotes_repaired(s@, false, false, false),
{
    let chars = chars_of(s);
    let mut out = String::new();
    let mut in_double: bool = false;
    let mut in_single: bool = false;
    let mut escaped: bool = false;
    let mut i: usize = 0;
    let ghost whole = quotes_repaired(chars@, false, false, false);
    assert(chars@.skip(0) =~= chars@);
    assert(out@ + whole =~= whole);
    while i < chars.len()
        invariant
            i <= chars@.len(),
            out@ + quotes_repaired(chars@.skip(i as int), in_double, in_single, escaped) == whole,
        decreases chars@.len() - i,
    {
        let c = chars[i];
        let ghost before = out@;
        let ghost rest = chars@.skip(i as int);
        let ghost was = quotes_repaired(rest, in_double, in_single, escaped);
        assert(rest.skip(1) =~= chars@.skip(i + 1));
        if escaped {
            escaped = false;
            out.push(c);
            assert(out@ =~= before + seq![c]);
        } else if c == '\\' {
            out.push(c);
            escaped = true;
            assert(out@ =~= before + seq![c]);
        } else if c == '\'' && !in_double {
            in_single = !in_single;
            out.push('"');
            assert(out@ =~= before + seq!['"']);
        } else if c == '"' && !in_single {
            in_double = !in_double;
            out.push(c);
            assert(out@ =~= before + seq!['"']);
        } else if c == '"' {
            out.push('\\');
            out.push('"');
            assert(out@ =~= before + seq!['\\', '"']);
        } else {
            out.push(c);
            assert(out@ =~= before + seq![c]);
        }
        i = i + 1;
        assert(out@ + quotes_repaired(chars@.skip(i as int), in_double, in_single, escaped)
            =~= before + was);
    }
    assert(chars@.skip(chars@.len() as int) =~= Seq::<char>::empty());
    assert(out@ + quotes_repaired(Seq::<char>::empty(), in_double, in_single, escaped) =~= out@);
    out
}

// ---------------------------------------------------------------------------------------
// Control characters and typographic quotes
// ---------------------------------------------------------------------------------------
/// The characters of the Unicode category Control.
pub open spec fn is_control(c: char) -> bool {
    c <= '\u{1f}' || '\u{7f}' <= c <= '\u{9f}'
}

/// The characters that stay: line feed, tab, carriage return, and all but controls.
pub open spec fn is_kept(c: char) -> bool {
    c == '\n' || c == '\t' || c == '\r' || !is_control(c)
}

/// `s` without control characters other than line feed, tab and carriage return.
pub open spec fn controls_stripped(s: Seq<char>) -> Seq<char> {
    s.filter(|c: char| is_kept(c))
}

/// Takes out the control characters other than line feed, tab and carriage return.
pub fn strip_control_chars(s: &str) -> (r: String)
    ensures
        r@ == controls_stripped(s@),
{
    let chars = chars_of(s);
    let mut out = String::new();
    let mut i: usize = 0;
    assert(chars@.take(0) =~= Seq::<char>::empty());
    assert(controls_stripped(Seq::<char>::empty()) =~= Seq::<char>::empty()) by {
        reveal(Seq::filter);
    }
    while i < chars.len()
        invariant
            i <= chars@.len(),
            out@ == controls_stripped(chars@.take(i as int)),
        decreases chars@.len() - i,
    {
        let c = chars[i];
        proof {
            reveal(Seq::filter);
            assert(chars@.take(i + 1).drop_last() =~= chars@.take(i as int));
        }
        if c == '\n' || c == '\t' || c == '\r' || !(c <= '\u{1f}' || ('\u{7f}' <= c && c
            <= '\u{9f}')) {
            out.push(c);
        }
        i = i + 1;
    }
    assert(chars@.take(chars@.len() as int) =~= chars@);
    out
}

/// The ASCII quote that a typographic quote stands for; any other character is itself.
pub open spec fn plain_quote(c: char) -> char {
    if c == '\u{201C}' || c == '\u{201D}' || c == '\u{300C}' || c == '\u{300D}' || c == '\u{FF02}' {
        '"'
    } else if c == '\u{2018}' || c == '\u{2019}' {
        '\''
    } else {
        c
    }
}

/// `s` with ASCII quotes in place of typographic ones.
pub open spec fn quotes_plain(s: Seq<char>) -> Seq<char> {
    s.map_values(|c: char| plain_quote(c))
}

/// Puts ASCII quotes in place of typographic ones.
pub fn normalize_unicode_quotes(s: &str) -> (r: String)
    ensures
        r@ == quotes_plain(s@),
{
    let chars = chars_of(s);
    let mut out = String::new();
    let mut i: usize = 0;
    while i < chars.len()
        invariant
            i <= chars@.len(),
            out@ =~= quotes_plain(chars@.take(i as int)),
        decreases chars@.len() - i,
    {
        let c = chars[i];
        if c == '\u{201C}' || c == '\u{201D}' || c == '\u{300C}' || c == '\u{300D}' || c
            == '\u{FF02}' {
            out.push('"');
        } else if c == '\u{2018}' || c == '\u{2019}' {
            out.push('\'');
        } else {
            out.push(c);
        }
        assert(chars@.take(i + 1) =~= chars@.take(i as int).push(c));
        i = i + 1;
    }
    assert(chars@.take(chars@.len() as int) =~= chars@);
    out
}

// ---------------------------------------------------------------------------------------
// Line breaks in strings
// ---------------------------------------------------------------------------------------
/// `s` with every line break inside a JSON string written as `\n`. `in_string` says whether `s`
/// begins inside a string, `escaped` whether a backslash stands before it.
pub open spec fn newlines_escaped(s: Seq<char>, in_string: bool, escaped: bool) -> Seq<char>
    decreases s.len(),
{
    if s.len() == 0 {
        seq![]
    } else if escaped {
        seq![s[0]] + newlines_escaped(s.skip(1), in_string, false)
    } else if s[0] == '\\' && in_string {
        seq![s[0]] + newlines_escaped(s.skip(1), in_string, true)
    } else if s[0] == '"' {
        seq![s[0]] + newlines_escaped(s.skip(1), !in_string, false)
    } else if in_string && (s[0] == '\n' || s[0] == '\r') {
        seq!['\\', 'n'] + newlines_escaped(s.skip(1), in_string, false)
    } else {
        seq![s[0]] + newlines_escaped(s.skip(1), in_string, false)
    }
}

/// Writes every line break inside a JSON string as `\n`.
pub fn escape_newlines_in_strings(s: &str) -> (r: String)
    ensures
        r@ == newlines_escaped(s@, false, false),
{
    let chars = chars_of(s);
    let mut out = String::new();
    let mut in_string: bool = false;
    let mut escaped: bool = false;
    let mut i: usize = 0;
    let ghost whole = newlines_escaped(chars@, false, false);
    assert(chars@.skip(0) =~= chars@);
    assert(out@ + whole =~= whole);
    while i < chars.len()
        invariant
            i <= chars@.len(),
            out@ + newlines_escaped(chars@.skip(i as int), in_string, escaped) == whole,
        decreases chars@.len() - i,
    {
        let c = chars[i];
        let ghost before = out@;
        let ghost rest = chars@.skip(i as int);
        let ghost was = newlines_escaped(rest, in_string, escaped);
        assert(rest.skip(1) =~= chars@.skip(i + 1));
        if escaped {
            escaped = false;
            out.push(c);
            assert(out@ =~= before + seq![c]);
        } else if c == '\\' && in_string {
            escaped = true;
            out.push(c);
            assert(out@ =~= before + seq![c]);
        } else if c == '"' {
            in_string = !in_string;
            out.push(c);
            assert(out@ =~= before + seq![c]);
        } else if in_string && (c == '\n' || c == '\r') {
            out.push('\\');
            out.push('n');
            assert(out@ =~= before + seq!['\\', 'n']);
        } else {
            out.push(c);
            assert(out@ =~= before + seq![c]);
        }
        i = i + 1;
        assert(out@ + newlines_escaped(chars@.skip(i as int), in_string, escaped) =~= before + was);
    }
    assert(chars@.skip(chars@.len() as int) =~= Seq::<char>::empty());
    assert(out@ + newlines_escaped(Seq::<char>::empty(), in_string, escaped) =~= out@);
    out
}

// ---------------------------------------------------------------------------------------
// The chain of repairs
// ---------------------------------------------------------------------------------------
/// `s` is a JSON text.
pub open spec fn is_json(s: Seq<char>) -> bool {
    json_parse(s) is Some
}

/// The text after the first `n` repairs, each applied to what the one before it gave.
pub open spec fn repair_stage(s: Seq<char>, n: nat) -> Seq<char>
    decreases n,
{
    if n == 0 {
        quotes_plain(controls_stripped(s))
    } else {
        let t = repair_stage(s, (n - 1) as nat);
        if n == 1 {
            newlines_escaped(t, false, false)
        } else if n == 2 {
            backslashes_repaired(t)
        } else if n == 3 {
            quotes_repaired(t, false, false, false)
        } else if n == 4 {
            commas_repaired(t, false, false)
        } else {
            keys_quoted(t)
        }
    }
}

/// The first repair stage, from the `n`th on, that is a JSON text.
pub open spec fn repaired_from(s: Seq<char>, n: nat) -> Option<Seq<char>>
    decreases 6 - n,
{
    if n > 5 {
        None
    } else if is_json(repair_stage(s, n)) {
        Some(repair_stage(s, n))
    } else {
        repaired_from(s, n + 1)
    }
}

/// The first of the six repair stages of `s` that is a JSON text.
pub open spec fn repaired(s: Seq<char>) -> Option<Seq<char>> {
    repaired_from(s, 0)
}

/// The text itself where it is JSON.
pub fn try_json_parse(s: &str) -> (r: Option<String>)
    ensures
        match r {
            Some(t) => is_json(s@) && t@ == s@,
            None => !is_json(s@),
        },
{
    match parse_value(s) {
        Some(_) => Some(s.to_owned()),
        None => None,
    }
}

/// Applies one repair after the other until the text is JSON.
pub fn repair_json(s: &str) -> (r: Option<String>)
    ensures
        match r {
            Some(t) => repaired(s@) == Some(t@),
            None => repaired(s@) is None,
        },
{
    reveal_with_fuel(repair_stage, 6);
    reveal_with_fuel(repaired_from, 7);
    let mut current = strip_control_chars(s);
    current = normalize_unicode_quotes(current.as_str());
    if try_json_parse(current.as_str()).is_some() {
        return Some(current);
    }
    current = escape_newlines_in_strings(current.as_str());
    if try_json_parse(current.as_str()).is_some() {
        return Some(current);
    }
    current = repair_invalid_backslashes(current.as_str());
    if try_json_parse(current.as_str()).is_some() {
        return Some(current);
    }
    current = repair_single_quotes(current.as_str());
    if try_json_parse(current.as_str()).is_some() {
        return Some(current);
    }
    current = repair_trailing_commas(current.as_str());
    if try_json_parse(current.as_str()).is_some() {
        return Some(current);
    }
    current = repair_unquoted_keys(current.as_str());
    if try_json_parse(current.as_str()).is_some() {
        return Some(current);
    }
    None
}

} // verus!
