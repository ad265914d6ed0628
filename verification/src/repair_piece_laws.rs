//! What each repair does to each character of a text: which characters stay, which are taken
//! out, and what is put in the place of the others. What becomes of a character depends on where
//! it stands, which is said here of the text before and behind it.
use crate::json::json_parse;
use crate::repair::backslashes_repaired;
use crate::repair::commas_repaired;
use crate::repair::controls_stripped;
use crate::repair::is_kept;
use crate::repair::is_letter;
use crate::repair::key_quoted;
use crate::repair::keys_quoted;
use crate::repair::leading_word;
use crate::repair::lemma_leading_word;
use crate::repair::may_be_escaped;
use crate::repair::newlines_escaped;
use crate::repair::quotes_plain;
use crate::repair::quotes_repaired;
use crate::repair::repair_stage;
use crate::repair::repaired;
use crate::repair::repaired_from;
use crate::repair_laws::in_word;
use crate::repair_laws::law_repair_gives_first_json_stage;
use crate::search::is_space;
use crate::search::leading_spaces;
use crate::search::lemma_leading_spaces;
use vstd::prelude::*;

verus! {

/// The pieces for the positions from `n` on, one behind the other.
pub open spec fn spread(n: int, len: int, piece: spec_fn(int) -> Seq<char>) -> Seq<char>
    decreases len - n,
{
    if n >= len {
        seq![]
    } else {
        piece(n) + spread(n + 1, len, piece)
    }
}

/// Where every piece is the character of its position, the text is left as it is.
proof fn lemma_spread_same(s: Seq<char>, n: int, piece: spec_fn(int) -> Seq<char>)
    requires
        0 <= n <= s.len(),
        forall|i: int| n <= i < s.len() ==> #[trigger] piece(i) == seq![s[i]],
    ensures
        spread(n, s.len() as int, piece) == s.skip(n),
    decreases s.len() - n,
{
    if n < s.len() {
        lemma_spread_same(s, n + 1, piece);
        assert(piece(n) == seq![s[n]]);
        assert(seq![s[n]] + s.skip(n + 1) =~= s.skip(n));
    } else {
        assert(s.skip(n) =~= Seq::<char>::empty());
    }
}

// ---------------------------------------------------------------------------------------
// Trailing commas
// ---------------------------------------------------------------------------------------
/// Whether position `n` lies inside a string, and whether a backslash before it takes its
/// meaning away.
pub open spec fn lexed(s: Seq<char>, n: int) -> (bool, bool)
    decreases n,
{
    if n <= 0 {
        (false, false)
    } else {
        let (inside, escaped) = lexed(s, n - 1);
        if escaped {
            (inside, false)
        } else if s[n - 1] == '\\' {
            (inside, true)
        } else if s[n - 1] == '"' {
            (!inside, false)
        } else {
            (inside, false)
        }
    }
}

/// A trailing comma: outside strings, the first character behind it that is not white is a
/// closing bracket or brace.
pub open spec fn trailing(s: Seq<char>, j: int) -> bool {
    &&& 0 <= j < s.len()
    &&& s[j] == ','
    &&& lexed(s, j) == (false, false)
    &&& exists|e: int| #[trigger] closes(s, j, e)
}

/// The first character behind position `j` that is not white is a closing bracket or brace, and
/// stands at `e`.
pub open spec fn closes(s: Seq<char>, j: int, e: int) -> bool {
    &&& j < e < s.len()
    &&& s[e] == ']' || s[e] == '}'
    &&& white_between(s, j, e)
}

/// White characters stand at the positions behind `j` and before `e`.
pub open spec fn white_between(s: Seq<char>, j: int, e: int) -> bool {
    forall|k: int| j < k < e ==> is_space(#[trigger] s[k])
}

/// A trailing comma, or a white character behind one.
pub open spec fn goes_with_comma(s: Seq<char>, i: int) -> bool {
    exists|j: int| j <= i && #[trigger] trailing(s, j) && white_between(s, j, i + 1)
}

/// What becomes of a character: trailing commas go, and the white characters behind them.
pub open spec fn comma_piece(s: Seq<char>) -> spec_fn(int) -> Seq<char> {
    |i: int|
        if goes_with_comma(s, i) {
            Seq::<char>::empty()
        } else {
            seq![s[i]]
        }
}

/// The repair of commas takes out the trailing commas with the white characters behind them, all
/// of them, and nothing else.
pub proof fn law_trailing_commas_go(s: Seq<char>)
    ensures
        commas_repaired(s, false, false) == spread(0, s.len() as int, comma_piece(s)),
{
    assert(s.skip(0) =~= s);
    assert forall|j: int| j < 0 implies !(#[trigger] trailing(s, j)) by {}
    lemma_commas(s, 0);
}

/// A text without trailing commas is left as it is.
pub proof fn law_other_commas_stay(s: Seq<char>)
    requires
        forall|j: int| !#[trigger] trailing(s, j),
    ensures
        commas_repaired(s, false, false) == s,
{
    law_trailing_commas_go(s);
    let piece = comma_piece(s);
    assert forall|i: int| 0 <= i < s.len() implies #[trigger] piece(i) == seq![s[i]] by {
        assert(!goes_with_comma(s, i));
    }
    lemma_spread_same(s, 0, piece);
    assert(s.skip(0) =~= s);
}

/// No trailing comma before `n` reaches up to it.
spec fn reached_by_none(s: Seq<char>, n: int) -> bool {
    forall|j: int| j < n && #[trigger] trailing(s, j) ==> !white_between(s, j, n + 1)
}

proof fn lemma_lexed_white(s: Seq<char>, j: int, e: int)
    requires
        0 <= j < e <= s.len(),
        s[j] == ',',
        lexed(s, j) == (false, false),
        white_between(s, j, e),
    ensures
        lexed(s, e) == (false, false),
    decreases e - j,
{
    if e > j + 1 {
        assert(white_between(s, j, e - 1));
        lemma_lexed_white(s, j, e - 1);
        assert(is_space(s[e - 1]));
    }
}

proof fn lemma_spread_gone(s: Seq<char>, j: int, n: int, e: int)
    requires
        trailing(s, j),
        0 <= j <= n <= e <= s.len(),
        white_between(s, j, e),
    ensures
        spread(n, s.len() as int, comma_piece(s)) == spread(e, s.len() as int, comma_piece(s)),
    decreases e - n,
{
    if n < e {
        lemma_spread_gone(s, j, n + 1, e);
        assert(white_between(s, j, n + 1));
        assert(goes_with_comma(s, n));
        let rest = spread(n + 1, s.len() as int, comma_piece(s));
        assert(comma_piece(s)(n) =~= Seq::<char>::empty());
        assert(Seq::<char>::empty() + rest =~= rest);
    }
}

proof fn lemma_commas(s: Seq<char>, n: int)
    requires
        0 <= n <= s.len(),
        reached_by_none(s, n),
    ensures
        commas_repaired(s.skip(n), lexed(s, n).0, lexed(s, n).1) == spread(
            n,
            s.len() as int,
            comma_piece(s),
        ),
    decreases s.len() - n,
{
    let t = s.skip(n);
    let (inside, escaped) = lexed(s, n);
    if n < s.len() {
        assert(t[0] == s[n]);
        assert(t.skip(1) =~= s.skip(n + 1));
        let m = leading_spaces(t.skip(1)) as int;
        lemma_leading_spaces(t.skip(1));
        let e = n + 1 + m;
        assert(t.skip(1 + m) =~= s.skip(e));
        assert(white_between(s, n, e)) by {
            assert forall|k: int| n < k < e implies is_space(#[trigger] s[k]) by {
                assert(t.skip(1)[k - n - 1] == s[k]);
            }
        }
        if e < s.len() {
            assert(t.skip(1)[m] == s[e]);
        }
        let takes_out = !escaped && !inside && s[n] == ',' && e < s.len() && (s[e] == ']' || s[e]
            == '}');
        if takes_out {
            assert(closes(s, n, e));
            assert(trailing(s, n));
            lemma_lexed_white(s, n, e);
            assert forall|j: int| j < e && #[trigger] trailing(s, j) implies !white_between(
                s,
                j,
                e + 1,
            ) by {
                assert(!is_space(s[e]));
            }
            lemma_commas(s, e);
            lemma_spread_gone(s, n, n, e);
            assert(s.skip(e)[0] == s[e]);
        } else {
            assert(!trailing(s, n)) by {
                if trailing(s, n) {
                    let f = choose|f: int| #[trigger] closes(s, n, f);
                    assert(!is_space(s[f]));
                    if f < e {
                        assert(is_space(s[f]));
                    } else if e < f {
                        assert(is_space(s[e]));
                    }
                }
            }
            assert(!goes_with_comma(s, n)) by {
                if goes_with_comma(s, n) {
                    let j = choose|j: int|
                        j <= n && #[trigger] trailing(s, j) && white_between(s, j, n + 1);
                    assert(j < n);
                }
            }
            assert forall|j: int| j < n + 1 && #[trigger] trailing(s, j) implies !white_between(
                s,
                j,
                n + 2,
            ) by {
                if white_between(s, j, n + 2) {
                    assert(white_between(s, j, n + 1));
                }
            }
            lemma_commas(s, n + 1);
            assert(comma_piece(s)(n) =~= seq![s[n]]);
        }
    }
}

/// A trailing comma goes, and the white characters behind it with it: behind a text that ends
/// outside strings, what follows is read as if they were not there.
pub proof fn law_trailing_comma_goes(a: Seq<char>, spaces: Seq<char>, close: char, rest: Seq<char>)
    requires
        lexed(a, a.len() as int) == (false, false),
        !a.contains(','),
        forall|i: int| 0 <= i < spaces.len() ==> is_space(#[trigger] spaces[i]),
        close == ']' || close == '}',
    ensures
        commas_repaired(a + seq![','] + spaces + seq![close] + rest, false, false)
            == commas_repaired(a + seq![close] + rest, false, false),
{
    let x = seq![','] + spaces + seq![close] + rest;
    let y = seq![close] + rest;
    assert(a + seq![','] + spaces + seq![close] + rest =~= a + x);
    assert(a + seq![close] + rest =~= a + y);
    assert((a + x).skip(0) =~= a + x);
    assert((a + y).skip(0) =~= a + y);
    lemma_up_to(a, x, 0);
    lemma_up_to(a, y, 0);
    let n = leading_spaces(x.skip(1)) as int;
    lemma_leading_spaces(x.skip(1));
    let m = spaces.len() as int;
    assert(x.skip(1)[m] == close);
    if n < m {
        assert(x.skip(1)[n] == spaces[n]);
    }
    if m < n {
        assert(is_space(x.skip(1)[m]));
    }
    assert(n == m);
    assert(x.skip(1 + m) =~= y);
    assert(x[0] == ',');
}

/// A text without commas stays, whatever stands behind it.
proof fn lemma_up_to(a: Seq<char>, x: Seq<char>, n: int)
    requires
        0 <= n <= a.len(),
        !a.contains(','),
    ensures
        commas_repaired((a + x).skip(n), lexed(a, n).0, lexed(a, n).1) == a.skip(n)
            + commas_repaired(x, lexed(a, a.len() as int).0, lexed(a, a.len() as int).1),
    decreases a.len() - n,
{
    let t = (a + x).skip(n);
    let end = commas_repaired(x, lexed(a, a.len() as int).0, lexed(a, a.len() as int).1);
    if n < a.len() {
        lemma_up_to(a, x, n + 1);
        assert(t[0] == a[n]);
        assert(t.skip(1) =~= (a + x).skip(n + 1));
        assert(a.contains(a[n]));
        assert(a.skip(n) + end =~= seq![a[n]] + (a.skip(n + 1) + end));
    } else {
        assert(t =~= x);
        assert(a.skip(n) + end =~= end);
    }
}

// ---------------------------------------------------------------------------------------
// Line breaks in strings
// ---------------------------------------------------------------------------------------
/// Whether position `n` lies inside a string, and whether a backslash in the string takes its
/// meaning away. Outside strings a backslash means nothing.
pub open spec fn quoted(s: Seq<char>, n: int) -> (bool, bool)
    decreases n,
{
    if n <= 0 {
        (false, false)
    } else {
        let (inside, escaped) = quoted(s, n - 1);
        if escaped {
            (inside, false)
        } else if s[n - 1] == '\\' {
            (inside, inside)
        } else if s[n - 1] == '"' {
            (!inside, false)
        } else {
            (inside, false)
        }
    }
}

/// What becomes of a character: a line feed or a carriage return inside a string becomes an
/// escape, unless a backslash stands before it.
pub open spec fn break_piece(s: Seq<char>) -> spec_fn(int) -> Seq<char> {
    |i: int|
        if quoted(s, i) == (true, false) && (s[i] == '\n' || s[i] == '\r') {
            seq!['\\', 'n']
        } else {
            seq![s[i]]
        }
}

/// Every line break inside a string becomes an escape, and every other character stays.
pub proof fn law_breaks_escaped(s: Seq<char>)
    ensures
        newlines_escaped(s, false, false) == spread(0, s.len() as int, break_piece(s)),
{
    assert(s.skip(0) =~= s);
    lemma_breaks(s, 0);
}

proof fn lemma_breaks(s: Seq<char>, n: int)
    requires
        0 <= n <= s.len(),
    ensures
        newlines_escaped(s.skip(n), quoted(s, n).0, quoted(s, n).1) == spread(
            n,
            s.len() as int,
            break_piece(s),
        ),
    decreases s.len() - n,
{
    if n < s.len() {
        let t = s.skip(n);
        assert(t[0] == s[n]);
        assert(t.skip(1) =~= s.skip(n + 1));
        lemma_breaks(s, n + 1);
    }
}

// ---------------------------------------------------------------------------------------
// Backslashes
// ---------------------------------------------------------------------------------------
/// A backslash that is not itself behind one stands before position `i`.
pub open spec fn behind_backslash(s: Seq<char>, i: int) -> bool
    decreases i,
{
    i > 0 && s[i - 1] == '\\' && !behind_backslash(s, i - 1)
}

/// The characters that make an escape of a backslash before them.
pub open spec fn makes_escape(c: char) -> bool {
    "\"\\/bfnrtu"@.contains(c)
}

/// What becomes of a character: a backslash is doubled where what follows makes no escape of it.
pub open spec fn backslash_piece(s: Seq<char>) -> spec_fn(int) -> Seq<char> {
    |i: int|
        if s[i] == '\\' && !behind_backslash(s, i) && i + 1 < s.len() && !makes_escape(s[i + 1]) {
            seq!['\\', '\\']
        } else {
            seq![s[i]]
        }
}

/// Every backslash that begins no escape is doubled, and every other character stays.
pub proof fn law_backslashes_doubled(s: Seq<char>)
    ensures
        backslashes_repaired(s) == spread(0, s.len() as int, backslash_piece(s)),
{
    assert(s.skip(0) =~= s);
    lemma_backslashes(s, 0);
}

proof fn lemma_makes_escape(c: char)
    ensures
        makes_escape(c) == may_be_escaped(c),
{
    reveal_strlit("\"\\/bfnrtu");
    let list = "\"\\/bfnrtu"@;
    if may_be_escaped(c) {
        assert(list[0] == '"' && list[1] == '\\' && list[2] == '/' && list[3] == 'b' && list[4]
            == 'f' && list[5] == 'n' && list[6] == 'r' && list[7] == 't' && list[8] == 'u');
    }
}

proof fn lemma_backslashes(s: Seq<char>, n: int)
    requires
        0 <= n <= s.len(),
        !behind_backslash(s, n),
    ensures
        backslashes_repaired(s.skip(n)) == spread(n, s.len() as int, backslash_piece(s)),
    decreases s.len() - n,
{
    if n < s.len() {
        let t = s.skip(n);
        let len = s.len() as int;
        let piece = backslash_piece(s);
        assert(t[0] == s[n]);
        if s[n] != '\\' {
            assert(t.skip(1) =~= s.skip(n + 1));
            lemma_backslashes(s, n + 1);
        } else if n + 1 == len {
            assert(spread(len, len, piece) =~= Seq::<char>::empty());
            assert(piece(n) + spread(n + 1, len, piece) =~= seq!['\\']);
        } else {
            let c = s[n + 1];
            assert(t[1] == c);
            assert(t.skip(2) =~= s.skip(n + 2));
            lemma_makes_escape(c);
            assert(behind_backslash(s, n + 1));
            lemma_backslashes(s, n + 2);
            let rest = spread(n + 2, len, piece);
            assert(spread(n + 1, len, piece) == piece(n + 1) + rest);
            assert(piece(n + 1) == seq![c]);
            if makes_escape(c) {
                assert(seq!['\\'] + (seq![c] + rest) =~= seq!['\\', c] + rest);
            } else {
                assert(seq!['\\', '\\'] + (seq![c] + rest) =~= seq!['\\', '\\', c] + rest);
            }
        }
    }
}

// ---------------------------------------------------------------------------------------
// Single quotes
// ---------------------------------------------------------------------------------------
/// Where a position lies: inside a string in double quotes, inside one in single quotes, and
/// behind a backslash that takes its meaning away.
pub struct Lexed {
    pub double: bool,
    pub single: bool,
    pub escaped: bool,
}

/// Where position `n` lies. A quote of the other kind inside a string does not end it.
pub open spec fn either_quoted(s: Seq<char>, n: int) -> Lexed
    decreases n,
{
    if n <= 0 {
        Lexed { double: false, single: false, escaped: false }
    } else {
        let at = either_quoted(s, n - 1);
        let c = s[n - 1];
        if at.escaped {
            Lexed { escaped: false, ..at }
        } else {
            Lexed {
                double: at.double != (c == '"' && !at.single),
                single: at.single != (c == '\'' && !at.double),
                escaped: c == '\\',
            }
        }
    }
}

/// What becomes of a character: a single quote that begins or ends a string becomes a double
/// one, and a double quote inside such a string is escaped.
pub open spec fn quote_piece(s: Seq<char>) -> spec_fn(int) -> Seq<char> {
    |i: int|
        {
            let at = either_quoted(s, i);
            if !at.escaped && !at.double && s[i] == '\'' {
                seq!['"']
            } else if !at.escaped && at.single && s[i] == '"' {
                seq!['\\', '"']
            } else {
                seq![s[i]]
            }
        }
}

/// No position lies in strings of both kinds.
proof fn lemma_one_kind(s: Seq<char>, n: int)
    ensures
        !(either_quoted(s, n).double && either_quoted(s, n).single),
    decreases n,
{
    if n > 0 {
        lemma_one_kind(s, n - 1);
    }
}

/// Strings in single quotes are put in double ones, and the double quotes in them are escaped;
/// every other character stays.
pub proof fn law_single_quotes_replaced(s: Seq<char>)
    ensures
        quotes_repaired(s, false, false, false) == spread(0, s.len() as int, quote_piece(s)),
{
    assert(s.skip(0) =~= s);
    lemma_quotes(s, 0);
}

proof fn lemma_quotes(s: Seq<char>, n: int)
    requires
        0 <= n <= s.len(),
    ensures
        ({
            let at = either_quoted(s, n);
            quotes_repaired(s.skip(n), at.double, at.single, at.escaped) == spread(
                n,
                s.len() as int,
                quote_piece(s),
            )
        }),
    decreases s.len() - n,
{
    if n < s.len() {
        let t = s.skip(n);
        assert(t[0] == s[n]);
        assert(t.skip(1) =~= s.skip(n + 1));
        lemma_quotes(s, n + 1);
        lemma_one_kind(s, n);
        let at = either_quoted(s, n);
        let next = either_quoted(s, n + 1);
        let rest = quotes_repaired(s.skip(n + 1), next.double, next.single, next.escaped);
        assert(quotes_repaired(t, at.double, at.single, at.escaped) == quote_piece(s)(n) + rest);
    }
}

/// A word in single quotes becomes one in double quotes.
pub proof fn law_quoted_word(word: Seq<char>, rest: Seq<char>)
    requires
        !word.contains('\''),
        !word.contains('"'),
        !word.contains('\\'),
    ensures
        quotes_repaired(seq!['\''] + word + seq!['\''] + rest, false, false, false) == seq!['"']
            + word + seq!['"'] + quotes_repaired(rest, false, false, false),
{
    let s = seq!['\''] + word + seq!['\''] + rest;
    let t = word + seq!['\''] + rest;
    assert(s.skip(1) =~= t);
    lemma_word_stays(word, seq!['\''] + rest);
    assert(word + (seq!['\''] + rest) =~= t);
    assert((seq!['\''] + rest).skip(1) =~= rest);
    assert((seq!['\''] + rest)[0] == '\'');
    let end = quotes_repaired(rest, false, false, false);
    assert(seq!['"'] + (word + (seq!['"'] + end)) =~= seq!['"'] + word + seq!['"'] + end);
}

proof fn lemma_word_stays(word: Seq<char>, rest: Seq<char>)
    requires
        !word.contains('\''),
        !word.contains('"'),
        !word.contains('\\'),
    ensures
        quotes_repaired(word + rest, false, true, false) == word + quotes_repaired(
            rest,
            false,
            true,
            false,
        ),
    decreases word.len(),
{
    let end = quotes_repaired(rest, false, true, false);
    if word.len() > 0 {
        let more = word.skip(1);
        assert(word.contains(word[0]));
        assert(!more.contains('\'') && !more.contains('"') && !more.contains('\\')) by {
            assert forall|c: char| more.contains(c) implies word.contains(c) by {
                let i = choose|i: int| 0 <= i < more.len() && more[i] == c;
                assert(word[i + 1] == c);
            }
        }
        lemma_word_stays(more, rest);
        assert((word + rest).skip(1) =~= more + rest);
        assert((word + rest)[0] == word[0]);
        assert(seq![word[0]] + (more + end) =~= word + end);
    } else {
        assert(word + rest =~= rest);
        assert(word + end =~= end);
    }
}

// ---------------------------------------------------------------------------------------
// Control characters and typographic quotes
// ---------------------------------------------------------------------------------------
/// Exactly the control characters go, but for the tab, the line feed and the carriage return.
pub proof fn law_controls_go(s: Seq<char>)
    ensures
        controls_stripped(s) == s.filter(
            |c: char|
                c == '\u{9}' || c == '\u{a}' || c == '\u{d}' || '\u{20}' <= c <= '\u{7e}' || c
                    >= '\u{a0}',
        ),
{
    let f = |c: char|
        c == '\u{9}' || c == '\u{a}' || c == '\u{d}' || '\u{20}' <= c <= '\u{7e}' || c >= '\u{a0}';
    let g = |c: char| is_kept(c);
    assert forall|c: char| #[trigger] f(c) == g(c) by {}
    assert(f =~= g);
}

/// Five typographic quotes become double quotes and two become single ones, each in its place;
/// every other character stays.
pub proof fn law_quotes_become_plain(s: Seq<char>, i: int)
    requires
        0 <= i < s.len(),
    ensures
        quotes_plain(s).len() == s.len(),
        ({
            let double = s[i] == '\u{201C}' || s[i] == '\u{201D}' || s[i] == '\u{300C}' || s[i]
                == '\u{300D}' || s[i] == '\u{FF02}';
            let single = s[i] == '\u{2018}' || s[i] == '\u{2019}';
            &&& double ==> quotes_plain(s)[i] == '"'
            &&& single ==> quotes_plain(s)[i] == '\''
            &&& !double && !single ==> quotes_plain(s)[i] == s[i]
        }),
{
}

// ---------------------------------------------------------------------------------------
// Keys
// ---------------------------------------------------------------------------------------
/// A bare key goes from `b` up to `w`: it is a word that begins with a letter or an underscore,
/// white characters apart stands behind a brace or a comma, and has a colon behind it.
pub open spec fn bare_key(s: Seq<char>, p: int, b: int, w: int) -> bool {
    &&& 0 <= p < b < w < s.len()
    &&& s[p] == '{' || s[p] == ','
    &&& white_between(s, p, b)
    &&& !is_space(s[b])
    &&& is_letter(s[b]) || s[b] == '_'
    &&& word_between(s, b, w)
    &&& s[w] == ':'
}

/// Characters of a word stand from `b` up to `w`.
pub open spec fn word_between(s: Seq<char>, b: int, w: int) -> bool {
    forall|k: int| b <= k < w ==> in_word(#[trigger] s[k])
}

/// A bare key begins at `i`.
pub open spec fn key_begins(s: Seq<char>, i: int) -> bool {
    exists|p: int, w: int| #[trigger] bare_key(s, p, i, w)
}

/// A bare key ends with the character at `i`.
pub open spec fn key_ends(s: Seq<char>, i: int) -> bool {
    exists|p: int, b: int| #[trigger] bare_key(s, p, b, i + 1)
}

/// What becomes of a character: a quote stands before it where a bare key begins, and behind it
/// where one ends.
pub open spec fn key_piece(s: Seq<char>) -> spec_fn(int) -> Seq<char> {
    |i: int|
        {
            let before = if key_begins(s, i) {
                seq!['"']
            } else {
                Seq::<char>::empty()
            };
            let behind = if key_ends(s, i) {
                seq!['"']
            } else {
                Seq::<char>::empty()
            };
            before + seq![s[i]] + behind
        }
}

/// A character that neither begins nor ends a bare key stays as it is.
proof fn lemma_no_key_at(s: Seq<char>, a: int, e: int)
    requires
        0 <= a <= e <= s.len(),
        forall|i: int| a <= i < e ==> !key_begins(s, i) && !key_ends(s, i),
    ensures
        spread(a, s.len() as int, key_piece(s)) == s.subrange(a, e) + spread(
            e,
            s.len() as int,
            key_piece(s),
        ),
    decreases e - a,
{
    let rest = spread(e, s.len() as int, key_piece(s));
    if a < e {
        lemma_no_key_at(s, a + 1, e);
        assert(!key_begins(s, a) && !key_ends(s, a));
        assert(key_piece(s)(a) =~= seq![s[a]]);
        assert(seq![s[a]] + (s.subrange(a + 1, e) + rest) =~= s.subrange(a, e) + rest);
    } else {
        assert(s.subrange(a, e) + rest =~= rest);
    }
}

proof fn lemma_word_end(s: Seq<char>, b: int)
    requires
        0 <= b <= s.len(),
    ensures
        ({
            let w = b + leading_word(s.skip(b));
            &&& b <= w <= s.len()
            &&& word_between(s, b, w)
            &&& w < s.len() ==> !in_word(s[w])
        }),
    decreases s.len() - b,
{
    lemma_leading_word(s.skip(b));
    if b < s.len() && in_word(s[b]) {
        lemma_word_end(s, b + 1);
        assert(s.skip(b).skip(1) =~= s.skip(b + 1));
        assert(s.skip(b)[0] == s[b]);
    }
}

/// Two bare keys that share a character are the same.
proof fn lemma_one_key(s: Seq<char>, p: int, b: int, w: int, q: int, c: int, v: int)
    requires
        bare_key(s, p, b, w),
        bare_key(s, q, c, v),
        b <= c < w,
    ensures
        c == b && v == w,
{
    assert(!in_word('{') && !in_word(',') && !in_word(':'));
    assert(!is_space('{') && !is_space(',') && !is_space(':'));
    if c > b {
        if q >= b {
            assert(in_word(s[q]));
        } else {
            assert(is_space(s[b]));
        }
    }
    if v < w {
        assert(in_word(s[v]));
    } else if w < v {
        assert(in_word(s[w]));
    }
}

/// Neither inside white characters behind a brace or a comma, nor at the brace or the comma
/// itself, does a bare key begin or end.
proof fn lemma_no_key_in_white(s: Seq<char>, p: int, b: int, i: int)
    requires
        0 <= p <= i < b <= s.len(),
        s[p] == '{' || s[p] == ',',
        white_between(s, p, b),
    ensures
        !key_begins(s, i),
        !key_ends(s, i),
{
    assert(!in_word('{') && !in_word(',') && !is_space('{') && !is_space(','));
    if key_begins(s, i) {
        let (q, w) = choose|q: int, w: int| #[trigger] bare_key(s, q, i, w);
        assert(in_word(s[i]));
        if i > p {
            assert(is_space(s[i]));
        }
    }
    if key_ends(s, i) {
        let (q, c) = choose|q: int, c: int| #[trigger] bare_key(s, q, c, i + 1);
        assert(in_word(s[i]));
        if c <= p {
            assert(in_word(s[p]));
        } else {
            assert(is_space(s[c]));
        }
    }
}

/// Where no bare key stands behind a brace or a comma, none begins or ends in the word there.
proof fn lemma_no_key_in_word(s: Seq<char>, p: int, b: int, w: int, i: int)
    requires
        0 <= p < b <= i < w <= s.len(),
        s[p] == '{' || s[p] == ',',
        white_between(s, p, b),
        !is_space(s[b]),
        word_between(s, b, w),
        w < s.len() ==> s[w] != ':' && !in_word(s[w]),
    ensures
        !key_begins(s, i),
        !key_ends(s, i),
{
    assert(!in_word('{') && !in_word(',') && !is_space('{') && !is_space(','));
    if key_begins(s, i) {
        let (q, v) = choose|q: int, v: int| #[trigger] bare_key(s, q, i, v);
        if v < w {
            assert(in_word(s[v]));
            assert(!in_word(':'));
        } else if v > w {
            assert(in_word(s[w]));
        }
    }
    if key_ends(s, i) {
        let (q, c) = choose|q: int, c: int| #[trigger] bare_key(s, q, c, i + 1);
        if i + 1 < w {
            assert(in_word(s[i + 1]));
            assert(!in_word(':'));
        }
    }
}

/// From a brace or a comma at `q`, white characters and then a part of a word reach up to
/// position `n` and over it.
spec fn covers(s: Seq<char>, q: int, n: int) -> bool {
    &&& 0 <= q < n < s.len()
    &&& s[q] == '{' || s[q] == ','
    &&& exists|c: int| #[trigger] covers_from(s, q, c, n)
}

spec fn covers_from(s: Seq<char>, q: int, c: int, n: int) -> bool {
    &&& q < c <= n + 1
    &&& white_between(s, q, c)
    &&& word_between(s, c, n + 1)
    &&& c <= n ==> !is_space(s[c]) && (is_letter(s[c]) || s[c] == '_')
}

/// No brace or comma before `n` reaches over it in this way.
spec fn nothing_pending(s: Seq<char>, n: int) -> bool {
    forall|q: int| q < n ==> !(#[trigger] covers(s, q, n))
}

/// Where nothing is pending, no bare key begins or ends, and behind it nothing is pending
/// either, unless a brace or a comma stands there.
proof fn lemma_no_key_apart(s: Seq<char>, n: int)
    requires
        0 <= n < s.len(),
        nothing_pending(s, n),
        !((s[n] == '{' || s[n] == ',') && n + 1 < s.len()),
    ensures
        !key_begins(s, n),
        !key_ends(s, n),
        nothing_pending(s, n + 1),
{
    if key_begins(s, n) {
        let (q, w) = choose|q: int, w: int| #[trigger] bare_key(s, q, n, w);
        assert(covers_from(s, q, n, n));
        assert(covers(s, q, n));
    }
    if key_ends(s, n) {
        let (q, c) = choose|q: int, c: int| #[trigger] bare_key(s, q, c, n + 1);
        assert(covers_from(s, q, c, n));
        assert(covers(s, q, n));
    }
    assert forall|q: int| q < n + 1 implies !(#[trigger] covers(s, q, n + 1)) by {
        if covers(s, q, n + 1) {
            let c = choose|c: int| #[trigger] covers_from(s, q, c, n + 1);
            if q < n {
                if c <= n {
                    assert(covers_from(s, q, c, n));
                } else {
                    assert(covers_from(s, q, n + 1, n));
                }
                assert(covers(s, q, n));
            }
        }
    }
}

/// A bare key is put in quotes.
proof fn lemma_key_in_quotes(s: Seq<char>, p: int, b: int, w: int)
    requires
        bare_key(s, p, b, w),
    ensures
        spread(b, s.len() as int, key_piece(s)) == seq!['"'] + s.subrange(b, w) + seq!['"']
            + spread(w, s.len() as int, key_piece(s)),
{
    let len = s.len() as int;
    let piece = key_piece(s);
    let rest = spread(w, len, piece);
    assert(key_begins(s, b));
    assert(bare_key(s, p, b, (w - 1) + 1));
    assert(key_ends(s, w - 1));
    assert forall|i: int| b < i < w implies !key_begins(s, i) by {
        if key_begins(s, i) {
            let (q, v) = choose|q: int, v: int| #[trigger] bare_key(s, q, i, v);
            lemma_one_key(s, p, b, w, q, i, v);
        }
    }
    assert forall|i: int| b <= i < w - 1 implies !key_ends(s, i) by {
        if key_ends(s, i) {
            assert(in_word(s[i + 1]));
            assert(!in_word(':'));
        }
    }
    assert(spread(w - 1, len, piece) == piece(w - 1) + rest);
    if w == b + 1 {
        assert(piece(b) =~= seq!['"', s[b], '"']);
        assert(piece(b) + rest =~= seq!['"'] + s.subrange(b, w) + seq!['"'] + rest);
    } else {
        assert(piece(b) =~= seq!['"', s[b]]);
        assert(piece(w - 1) =~= seq![s[w - 1], '"']);
        lemma_no_key_at(s, b + 1, w - 1);
        assert(spread(b, len, piece) == piece(b) + spread(b + 1, len, piece));
        assert(piece(b) + (s.subrange(b + 1, w - 1) + (piece(w - 1) + rest)) =~= seq!['"']
            + s.subrange(b, w) + seq!['"'] + rest);
    }
}

/// What the keys of a text become from a brace or a comma on: nothing is pending behind what was
/// read with it.
proof fn lemma_key_position(s: Seq<char>, n: int) -> (next: int)
    requires
        0 <= n,
        n + 1 < s.len(),
        s[n] == '{' || s[n] == ',',
    ensures
        n < next <= s.len(),
        nothing_pending(s, next),
        key_quoted(s.skip(n + 1)).1 == s.skip(next),
        spread(n, s.len() as int, key_piece(s)) == seq![s[n]] + key_quoted(s.skip(n + 1)).0
            + spread(next, s.len() as int, key_piece(s)),
{
    let len = s.len() as int;
    let tail = s.skip(n + 1);
    let m = leading_spaces(tail) as int;
    let b = n + 1 + m;
    let piece = key_piece(s);
    lemma_leading_spaces(tail);
    assert(!in_word('{') && !in_word(',') && !in_word(':'));
    assert(!is_space('{') && !is_space(',') && !is_space(':'));
    assert(white_between(s, n, b)) by {
        assert forall|k: int| n < k < b implies is_space(#[trigger] s[k]) by {
            assert(tail[k - n - 1] == s[k]);
        }
    }
    if b < len {
        assert(tail[m] == s[b]);
    }
    assert forall|i: int| n <= i < b implies !key_begins(s, i) && !key_ends(s, i) by {
        lemma_no_key_in_white(s, n, b, i);
    }
    lemma_no_key_at(s, n, b);
    let rest = tail.skip(m);
    assert(rest =~= s.skip(b));
    assert(s.subrange(n, b) =~= seq![s[n]] + tail.take(m));
    if b < len && (is_letter(s[b]) || s[b] == '_') {
        let k = leading_word(rest) as int;
        let w = b + k;
        lemma_word_end(s, b);
        assert(in_word(s[b]));
        assert(w > b);
        assert(rest.take(k) =~= s.subrange(b, w));
        assert(rest.skip(k) =~= s.skip(w));
        if w < len {
            assert(rest.skip(k)[0] == s[w]);
        }
        assert(nothing_pending(s, w)) by {
            assert forall|q: int| q < w implies !(#[trigger] covers(s, q, w)) by {
                if covers(s, q, w) {
                    let c = choose|c: int| #[trigger] covers_from(s, q, c, w);
                    if c <= w {
                        assert(in_word(s[w]));
                    } else if q < b {
                        assert(is_space(s[b]));
                    } else {
                        assert(in_word(s[q]));
                    }
                }
            }
        }
        let end = spread(w, len, piece);
        if w < len && s[w] == ':' {
            assert(bare_key(s, n, b, w));
            lemma_key_in_quotes(s, n, b, w);
            assert(s.subrange(n, b) + (seq!['"'] + s.subrange(b, w) + seq!['"'] + end)
                =~= seq![s[n]] + (tail.take(m) + seq!['"'] + s.subrange(b, w) + seq!['"']) + end);
        } else {
            assert forall|i: int| b <= i < w implies !key_begins(s, i) && !key_ends(s, i) by {
                lemma_no_key_in_word(s, n, b, w, i);
            }
            lemma_no_key_at(s, b, w);
            assert(s.subrange(n, b) + (s.subrange(b, w) + end) =~= seq![s[n]] + (tail.take(m)
                + s.subrange(b, w)) + end);
        }
        w
    } else {
        assert(nothing_pending(s, b)) by {
            assert forall|q: int| q < b implies !(#[trigger] covers(s, q, b)) by {
                if covers(s, q, b) {
                    let c = choose|c: int| #[trigger] covers_from(s, q, c, b);
                    if c == b + 1 {
                        assert(is_space(s[b]));
                    } else if q == n {
                        assert(is_space(s[c]));
                    } else if q < n {
                        if n < c {
                            assert(is_space(s[n]));
                        } else {
                            assert(in_word(s[n]));
                        }
                    } else {
                        assert(is_space(s[q]));
                    }
                }
            }
        }
        let end = spread(b, len, piece);
        assert(s.subrange(n, b) + end =~= seq![s[n]] + tail.take(m) + end);
        b
    }
}

proof fn lemma_keys(s: Seq<char>, n: int)
    requires
        0 <= n <= s.len(),
        nothing_pending(s, n),
    ensures
        keys_quoted(s.skip(n)) == spread(n, s.len() as int, key_piece(s)),
    decreases s.len() - n,
{
    if n < s.len() {
        let t = s.skip(n);
        assert(t[0] == s[n]);
        assert(t.skip(1) =~= s.skip(n + 1));
        if (s[n] == '{' || s[n] == ',') && n + 1 < s.len() {
            let next = lemma_key_position(s, n);
            lemma_keys(s, next);
        } else {
            lemma_no_key_apart(s, n);
            lemma_keys(s, n + 1);
            assert(key_piece(s)(n) =~= seq![s[n]]);
        }
    }
}

/// Every bare key is put in quotes, and every other character stays.
pub proof fn law_bare_keys_quoted(s: Seq<char>)
    ensures
        keys_quoted(s) == spread(0, s.len() as int, key_piece(s)),
{
    assert(s.skip(0) =~= s);
    assert forall|q: int| q < 0 implies !(#[trigger] covers(s, q, 0)) by {}
    lemma_keys(s, 0);
}

// ---------------------------------------------------------------------------------------
// The chain of repairs
// ---------------------------------------------------------------------------------------
/// The repairs come in a fixed order, each on what the one before it gave: control characters
/// and typographic quotes, line breaks, backslashes, single quotes, commas, keys.
pub proof fn law_order_of_repairs(s: Seq<char>)
    ensures
        repair_stage(s, 0) == quotes_plain(controls_stripped(s)),
        repair_stage(s, 1) == newlines_escaped(repair_stage(s, 0), false, false),
        repair_stage(s, 2) == backslashes_repaired(repair_stage(s, 1)),
        repair_stage(s, 3) == quotes_repaired(repair_stage(s, 2), false, false, false),
        repair_stage(s, 4) == commas_repaired(repair_stage(s, 3), false, false),
        repair_stage(s, 5) == keys_quoted(repair_stage(s, 4)),
{
}

/// A repair is tried after the other only as long as the text is no JSON: what is given is the
/// first that is, and there is none only where all six are not.
pub proof fn law_repaired_as_little_as_possible(s: Seq<char>)
    ensures
        repaired(s) matches Some(t) ==> json_parse(t) is Some && exists|n: nat|
            n <= 5 && t == #[trigger] repair_stage(s, n) && forall|k: nat|
                k < n ==> json_parse(#[trigger] repair_stage(s, k)) is None,
        repaired(s) is None <==> forall|k: nat|
            k <= 5 ==> json_parse(#[trigger] repair_stage(s, k)) is None,
{
    reveal_with_fuel(repaired_from, 7);
    law_repair_gives_first_json_stage(s);
}

} // verus!
