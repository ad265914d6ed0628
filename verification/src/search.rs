//! Searching, trimming and replacing on runs of characters.
use crate::text::extend_chars;
use crate::text::part;
use crate::text::pos;
use vstd::prelude::*;

verus! {

// ---------------------------------------------------------------------------------------
// Finding
// ---------------------------------------------------------------------------------------
/// `p` stands in `s` at position `i`.
pub open spec fn occurs_at(s: Seq<char>, p: Seq<char>, i: int) -> bool {
    0 <= i && i + p.len() <= s.len() && s.subrange(i, i + p.len()) == p
}

/// The first occurrence of `p` in `s` is at position `i`.
pub open spec fn occurs_first(s: Seq<char>, p: Seq<char>, i: int) -> bool {
    occurs_at(s, p, i) && forall|j: int| 0 <= j < i ==> !occurs_at(s, p, j)
}

/// The position of the first occurrence of `p` in `s`.
pub open spec fn find(s: Seq<char>, p: Seq<char>) -> Option<int> {
    if exists|i: int| occurs_first(s, p, i) {
        Some(choose|i: int| occurs_first(s, p, i))
    } else {
        None
    }
}

/// `p` occurs in `s`.
pub open spec fn contains(s: Seq<char>, p: Seq<char>) -> bool {
    exists|i: int| occurs_at(s, p, i)
}

/// The position of the first `c` in `s`.
pub open spec fn find_char(s: Seq<char>, c: char) -> Option<int> {
    find(s, seq![c])
}

/// The position of the last `c` in `s`.
pub open spec fn rfind_char(s: Seq<char>, c: char) -> Option<int>
    decreases s.len(),
{
    if s.len() == 0 {
        None
    } else if s.last() == c {
        Some(s.len() - 1)
    } else {
        rfind_char(s.drop_last(), c)
    }
}

proof fn lemma_some_first(s: Seq<char>, p: Seq<char>, i: int)
    requires
        occurs_at(s, p, i),
    ensures
        exists|k: int| occurs_first(s, p, k),
    decreases i,
{
    if exists|j: int| 0 <= j < i && occurs_at(s, p, j) {
        let j = choose|j: int| 0 <= j < i && occurs_at(s, p, j);
        lemma_some_first(s, p, j);
    } else {
        assert(occurs_first(s, p, i));
    }
}

/// What `find` gives: a first occurrence, or none because there is none at all.
pub proof fn lemma_find(s: Seq<char>, p: Seq<char>)
    ensures
        match find(s, p) {
            Some(i) => occurs_first(s, p, i) && i + p.len() <= s.len(),
            None => forall|i: int| !occurs_at(s, p, i),
        },
        contains(s, p) <==> find(s, p) is Some,
{
    if exists|i: int| occurs_at(s, p, i) {
        let i = choose|i: int| occurs_at(s, p, i);
        lemma_some_first(s, p, i);
    }
}

/// There is one first occurrence.
pub proof fn lemma_find_is(s: Seq<char>, p: Seq<char>, i: int)
    requires
        occurs_first(s, p, i),
    ensures
        find(s, p) == Some(i),
{
    let k = choose|k: int| occurs_first(s, p, k);
    if k < i {
        assert(!occurs_at(s, p, k));
    } else if i < k {
        assert(!occurs_at(s, p, i));
    }
}

/// A single character is found where it stands first.
pub proof fn lemma_find_char(s: Seq<char>, c: char)
    ensures
        match find_char(s, c) {
            Some(i) => 0 <= i < s.len() && s[i] == c && forall|j: int| 0 <= j < i ==> s[j] != c,
            None => forall|j: int| 0 <= j < s.len() ==> s[j] != c,
        },
{
    lemma_find(s, seq![c]);
    assert forall|j: int| 0 <= j < s.len() implies occurs_at(s, seq![c], j) == (s[j] == c) by {
        assert(s.subrange(j, j + 1) =~= seq![s[j]]);
        assert(seq![s[j]][0] == s[j]);
        assert(seq![c][0] == c);
    }
}

pub proof fn lemma_rfind_char(s: Seq<char>, c: char)
    ensures
        match rfind_char(s, c) {
            Some(i) => 0 <= i < s.len() && s[i] == c && forall|j: int| i < j < s.len() ==> s[j] != c,
            None => forall|j: int| 0 <= j < s.len() ==> s[j] != c,
        },
    decreases s.len(),
{
    if s.len() > 0 && s.last() != c {
        lemma_rfind_char(s.drop_last(), c);
        assert(forall|j: int| 0 <= j < s.len() - 1 ==> s.drop_last()[j] == s[j]);
    }
}

/// Whether `p` stands in `s` at position `i`.
pub fn stands_at(s: &[char], p: &[char], i: usize) -> (r: bool)
    ensures
        r == occurs_at(s@, p@, i as int),
{
    let n: usize = s.len();
    if i > n || p.len() > n - i {
        return false;
    }
    let mut j: usize = 0;
    while j < p.len()
        invariant
            j <= p@.len(),
            n == s@.len(),
            i + p@.len() <= n,
            forall|k: int| 0 <= k < j ==> s@[i + k] == p@[k],
        decreases p@.len() - j,
    {
        if s[i + j] != p[j] {
            proof {
                if s@.subrange(i as int, i + p@.len()) == p@ {
                    assert(s@.subrange(i as int, i + p@.len())[j as int] == s@[i + j]);
                }
            }
            return false;
        }
        j = j + 1;
    }
    assert(s@.subrange(i as int, i + p@.len()) =~= p@);
    true
}

/// The position of the first occurrence of `p` in `s`.
pub fn find_in(s: &[char], p: &[char]) -> (r: Option<usize>)
    ensures
        pos(r) == find(s@, p@),
{
    if p.len() > s.len() {
        proof {
            lemma_find(s@, p@);
        }
        return None;
    }
    let last: usize = s.len() - p.len();
    let mut i: usize = 0;
    loop
        invariant
            last == s@.len() - p@.len(),
            i <= last,
            forall|j: int| 0 <= j < i ==> !occurs_at(s@, p@, j),
        decreases last - i,
    {
        if stands_at(s, p, i) {
            proof {
                lemma_find_is(s@, p@, i as int);
            }
            return Some(i);
        }
        if i == last {
            proof {
                lemma_find(s@, p@);
            }
            return None;
        }
        i = i + 1;
    }
}

/// Whether `p` occurs in `s`.
pub fn has(s: &[char], p: &[char]) -> (r: bool)
    ensures
        r == contains(s@, p@),
{
    proof {
        lemma_find(s@, p@);
    }
    find_in(s, p).is_some()
}

/// The position of the first `c` in `s`.
pub fn first_char(s: &[char], c: char) -> (r: Option<usize>)
    ensures
        pos(r) == find_char(s@, c),
        r matches Some(i) ==> i < s@.len(),
{
    let p: [char; 1] = [c];
    let r = find_in(s, p.as_slice());
    proof {
        assert(p@ =~= seq![c]);
        lemma_find_char(s@, c);
    }
    r
}

/// The position of the last `c` in `s`.
pub fn last_char(s: &[char], c: char) -> (r: Option<usize>)
    ensures
        pos(r) == rfind_char(s@, c),
        r matches Some(i) ==> i < s@.len(),
{
    let mut n: usize = s.len();
    assert(s@.take(n as int) =~= s@);
    while n > 0
        invariant
            n <= s@.len(),
            rfind_char(s@.take(n as int), c) == rfind_char(s@, c),
        decreases n,
    {
        if s[n - 1] == c {
            return Some(n - 1);
        }
        assert(s@.take(n as int).drop_last() =~= s@.take(n - 1));
        n = n - 1;
    }
    None
}

/// Whether `s` begins with `p`.
pub fn begins_with(s: &[char], p: &[char]) -> (r: bool)
    ensures
        r == p@.is_prefix_of(s@),
{
    let r = stands_at(s, p, 0);
    r
}

// ---------------------------------------------------------------------------------------
// Trimming
// ---------------------------------------------------------------------------------------
/// The characters that have the Unicode property White_Space.
pub open spec fn is_space(c: char) -> bool {
    ||| '\u{9}' <= c <= '\u{d}'
    ||| c == ' '
    ||| c == '\u{85}'
    ||| c == '\u{a0}'
    ||| c == '\u{1680}'
    ||| '\u{2000}' <= c <= '\u{200a}'
    ||| c == '\u{2028}'
    ||| c == '\u{2029}'
    ||| c == '\u{202f}'
    ||| c == '\u{205f}'
    ||| c == '\u{3000}'
}

/// Whether a character has the Unicode property White_Space.
pub fn is_white(c: char) -> (r: bool)
    ensures
        r == is_space(c),
{
    ('\u{9}' <= c && c <= '\u{d}') || c == ' ' || c == '\u{85}' || c == '\u{a0}' || c == '\u{1680}'
        || ('\u{2000}' <= c && c <= '\u{200a}') || c == '\u{2028}' || c == '\u{2029}' || c
        == '\u{202f}' || c == '\u{205f}' || c == '\u{3000}'
}

/// The number of white characters that `s` begins with.
pub open spec fn leading_spaces(s: Seq<char>) -> nat
    decreases s.len(),
{
    if s.len() > 0 && is_space(s[0]) {
        1 + leading_spaces(s.skip(1))
    } else {
        0
    }
}

pub open spec fn trim_start(s: Seq<char>) -> Seq<char> {
    s.skip(leading_spaces(s) as int)
}

pub open spec fn trim_end(s: Seq<char>) -> Seq<char>
    decreases s.len(),
{
    if s.len() > 0 && is_space(s.last()) {
        trim_end(s.drop_last())
    } else {
        s
    }
}

/// `s` without the white characters at either end.
pub open spec fn trim(s: Seq<char>) -> Seq<char> {
    trim_end(trim_start(s))
}

/// `s` without the `c`s that it ends with.
pub open spec fn trim_end_char(s: Seq<char>, c: char) -> Seq<char>
    decreases s.len(),
{
    if s.len() > 0 && s.last() == c {
        trim_end_char(s.drop_last(), c)
    } else {
        s
    }
}

/// `s` without the `c`s that it begins with.
pub open spec fn trim_start_char(s: Seq<char>, c: char) -> Seq<char>
    decreases s.len(),
{
    if s.len() > 0 && s[0] == c {
        trim_start_char(s.skip(1), c)
    } else {
        s
    }
}

pub proof fn lemma_leading_spaces(s: Seq<char>)
    ensures
        leading_spaces(s) <= s.len(),
        forall|i: int| 0 <= i < leading_spaces(s) ==> is_space(#[trigger] s[i]),
        leading_spaces(s) < s.len() ==> !is_space(s[leading_spaces(s) as int]),
    decreases s.len(),
{
    if s.len() > 0 && is_space(s[0]) {
        lemma_leading_spaces(s.skip(1));
        assert forall|i: int| 0 <= i < leading_spaces(s) implies is_space(#[trigger] s[i]) by {
            if i > 0 {
                assert(s.skip(1)[i - 1] == s[i]);
            }
        }
    }
}

pub proof fn lemma_trim_end_char(s: Seq<char>, c: char)
    ensures
        trim_end_char(s, c).len() <= s.len(),
        trim_end_char(s, c) == s.take(trim_end_char(s, c).len() as int),
        trim_end_char(s, c).len() > 0 ==> trim_end_char(s, c).last() != c,
    decreases s.len(),
{
    if s.len() > 0 && s.last() == c {
        lemma_trim_end_char(s.drop_last(), c);
        let n = trim_end_char(s, c).len() as int;
        assert(s.drop_last().take(n) =~= s.take(n));
    } else {
        assert(s.take(s.len() as int) =~= s);
    }
}

/// A text that does not end with `c` is left alone.
pub proof fn lemma_trim_end_char_fixed(s: Seq<char>, c: char)
    requires
        s.len() > 0 ==> s.last() != c,
    ensures
        trim_end_char(s, c) == s,
{
}

/// The number of white characters that `s` begins with.
pub fn count_leading_spaces(s: &[char]) -> (n: usize)
    ensures
        n == leading_spaces(s@),
        n <= s@.len(),
{
    let mut n: usize = 0;
    assert(s@.skip(0) =~= s@);
    while n < s.len() && is_white(s[n])
        invariant
            n <= s@.len(),
            leading_spaces(s@) == n + leading_spaces(s@.skip(n as int)),
        decreases s@.len() - n,
    {
        assert(s@.skip(n as int).skip(1) =~= s@.skip(n + 1));
        n = n + 1;
    }
    n
}

/// `s` without the white characters at either end.
pub fn trimmed(s: &[char]) -> (r: &[char])
    ensures
        r@ == trim(s@),
{
    let from: usize = count_leading_spaces(s);
    let mut to: usize = s.len();
    assert(s@.subrange(from as int, to as int) =~= trim_start(s@));
    while to > from && is_white(s[to - 1])
        invariant
            from <= to <= s@.len(),
            trim_end(s@.subrange(from as int, to as int)) == trim(s@),
        decreases to,
    {
        assert(s@.subrange(from as int, to as int).drop_last() =~= s@.subrange(
            from as int,
            to - 1,
        ));
        to = to - 1;
    }
    part(s, from, to)
}

/// `s` without the `c`s that it ends with.
pub fn without_trailing(s: &[char], c: char) -> (r: &[char])
    ensures
        r@ == trim_end_char(s@, c),
{
    let mut to: usize = s.len();
    assert(s@.subrange(0, to as int) =~= s@);
    while to > 0 && s[to - 1] == c
        invariant
            to <= s@.len(),
            trim_end_char(s@.subrange(0, to as int), c) == trim_end_char(s@, c),
        decreases to,
    {
        assert(s@.subrange(0, to as int).drop_last() =~= s@.subrange(0, to - 1));
        to = to - 1;
    }
    part(s, 0, to)
}

/// `s` without the `c`s that it begins with.
pub fn without_leading(s: &[char], c: char) -> (r: &[char])
    ensures
        r@ == trim_start_char(s@, c),
{
    let mut from: usize = 0;
    assert(s@.skip(0) =~= s@);
    while from < s.len() && s[from] == c
        invariant
            from <= s@.len(),
            trim_start_char(s@.skip(from as int), c) == trim_start_char(s@, c),
        decreases s@.len() - from,
    {
        assert(s@.skip(from as int).skip(1) =~= s@.skip(from + 1));
        from = from + 1;
    }
    assert(s@.subrange(from as int, s@.len() as int) =~= s@.skip(from as int));
    part(s, from, s.len())
}

// ---------------------------------------------------------------------------------------
// Replacing and counting
// ---------------------------------------------------------------------------------------
/// `s` with every occurrence of `from`, taken from the left without overlap, replaced by `to`.
pub open spec fn replace(s: Seq<char>, from: Seq<char>, to: Seq<char>) -> Seq<char>
    recommends
        from.len() > 0,
    decreases s.len(),
{
    if from.len() == 0 {
        s
    } else {
        match find(s, from) {
            Some(i) => {
                proof {
                    lemma_find(s, from);
                }
                s.take(i) + to + replace(s.skip(i + from.len()), from, to)
            },
            None => s,
        }
    }
}

/// `s` with the first occurrence of `from` taken out.
pub open spec fn without_first(s: Seq<char>, from: Seq<char>) -> Seq<char> {
    match find(s, from) {
        Some(i) => s.take(i) + s.skip(i + from.len()),
        None => s,
    }
}

/// The number of occurrences of `p` in `s`, taken from the left without overlap.
pub open spec fn occurrences(s: Seq<char>, p: Seq<char>) -> nat
    recommends
        p.len() > 0,
    decreases s.len(),
{
    if p.len() == 0 {
        0
    } else {
        match find(s, p) {
            Some(i) => {
                proof {
                    lemma_find(s, p);
                }
                1 + occurrences(s.skip(i + p.len()), p)
            },
            None => 0,
        }
    }
}

/// `s` with every occurrence of `from` replaced by `to`.
pub fn replaced(s: &[char], from: &[char], to: &[char]) -> (r: Vec<char>)
    requires
        from@.len() > 0,
    ensures
        r@ == replace(s@, from@, to@),
{
    let mut out: Vec<char> = Vec::new();
    let mut at: usize = 0;
    assert(s@.skip(0) =~= s@);
    assert(out@ + replace(s@, from@, to@) =~= replace(s@, from@, to@));
    loop
        invariant
            from@.len() > 0,
            at <= s@.len(),
            out@ + replace(s@.skip(at as int), from@, to@) == replace(s@, from@, to@),
        decreases s@.len() - at,
    {
        let rest = part(s, at, s.len());
        assert(rest@ =~= s@.skip(at as int));
        proof {
            lemma_find(rest@, from@);
        }
        match find_in(rest, from) {
            Some(i) => {
                let ghost before = out@;
                extend_chars(&mut out, part(rest, 0, i));
                extend_chars(&mut out, to);
                proof {
                    assert(rest@.subrange(0, i as int) =~= rest@.take(i as int));
                    assert(rest@.skip(i + from@.len()) =~= s@.skip(at + i + from@.len()));
                    let tail = replace(s@.skip(at + i + from@.len()), from@, to@);
                    assert(before + rest@.take(i as int) + to@ + tail =~= before + (rest@.take(
                        i as int,
                    ) + to@ + tail));
                }
                at = at + i + from.len();
            },
            None => {
                extend_chars(&mut out, rest);
                return out;
            },
        }
    }
}

/// `s` with the first occurrence of `from` taken out.
pub fn with_first_removed(s: &[char], from: &[char]) -> (r: Vec<char>)
    ensures
        r@ == without_first(s@, from@),
{
    let mut out: Vec<char> = Vec::new();
    let n: usize = s.len();
    proof {
        lemma_find(s@, from@);
    }
    match find_in(s, from) {
        Some(i) => {
            extend_chars(&mut out, part(s, 0, i));
            extend_chars(&mut out, part(s, i + from.len(), n));
            assert(out@ =~= s@.take(i as int) + s@.skip(i + from@.len()));
        },
        None => {
            extend_chars(&mut out, s);
            assert(out@ =~= s@);
        },
    }
    out
}

/// Whether `p` occurs an odd number of times in `s`.
pub fn occurs_oddly(s: &[char], p: &[char]) -> (r: bool)
    requires
        p@.len() > 0,
    ensures
        r == (occurrences(s@, p@) % 2 == 1),
{
    let mut odd: bool = false;
    let mut at: usize = 0;
    assert(s@.skip(0) =~= s@);
    loop
        invariant
            p@.len() > 0,
            at <= s@.len(),
            (occurrences(s@, p@) % 2 == 1) == (odd != (occurrences(s@.skip(at as int), p@) % 2
                == 1)),
        decreases s@.len() - at,
    {
        let rest = part(s, at, s.len());
        assert(rest@ =~= s@.skip(at as int));
        proof {
            lemma_find(rest@, p@);
        }
        match find_in(rest, p) {
            Some(i) => {
                assert(rest@.skip(i + p@.len()) =~= s@.skip(at + i + p@.len()));
                odd = !odd;
                at = at + i + p.len();
            },
            None => {
                return odd;
            },
        }
    }
}

} // verus!
