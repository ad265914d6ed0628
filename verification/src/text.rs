//! Text primitives: searching, trimming and replacing on runs of characters, and the
//! correspondence between character positions and byte offsets of a string.
use vstd::prelude::*;
use vstd::slice::slice_subrange;
use vstd::utf8::encode_scalar;
use vstd::utf8::encode_utf8;

verus! {

// ---------------------------------------------------------------------------------------
// Characters and strings
// ---------------------------------------------------------------------------------------
/// `std::string::String::push` appends one character to the end of the string.
pub assume_specification[ String::push ](s: &mut String, c: char)
    ensures
        final(s)@ == old(s)@.push(c),
;

/// The characters of a string.
pub fn chars_of(s: &str) -> (v: Vec<char>)
    ensures
        v@ == s@,
{
    let mut v: Vec<char> = Vec::new();
    for c in it: s.chars()
        invariant
            v@ == s@.take(it.index()),
            it.seq() == s@,
    {
        v.push(c);
        assert(s@.take(it.index() + 1) == s@.take(it.index()).push(c));
    }
    assert(s@.take(s@.len() as int) == s@);
    v
}

/// The string that a run of characters spells.
pub fn text_of(s: &[char]) -> (t: String)
    ensures
        t@ == s@,
{
    let mut t = String::new();
    let mut i: usize = 0;
    while i < s.len()
        invariant
            i <= s@.len(),
            t@ == s@.take(i as int),
        decreases s@.len() - i,
    {
        t.push(s[i]);
        assert(s@.take(i + 1) == s@.take(i as int).push(s@[i as int]));
        i = i + 1;
    }
    assert(s@.take(s@.len() as int) == s@);
    t
}

/// The part of a run of characters from `from` up to `to`.
pub fn part(s: &[char], from: usize, to: usize) -> (r: &[char])
    requires
        from <= to <= s@.len(),
    ensures
        r@ == s@.subrange(from as int, to as int),
{
    slice_subrange(s, from, to)
}

/// Adds the characters of `b` to the end of `a`.
pub fn extend_chars(a: &mut Vec<char>, b: &[char])
    ensures
        final(a)@ == old(a)@ + b@,
{
    let ghost before = a@;
    let mut i: usize = 0;
    while i < b.len()
        invariant
            i <= b@.len(),
            a@ == before + b@.take(i as int),
        decreases b@.len() - i,
    {
        a.push(b[i]);
        assert(b@.take(i + 1) == b@.take(i as int).push(b@[i as int]));
        i = i + 1;
    }
    assert(b@.take(b@.len() as int) == b@);
}

/// Whether two runs of characters are the same.
pub fn same_chars(a: &[char], b: &[char]) -> (r: bool)
    ensures
        r == (a@ == b@),
{
    if a.len() != b.len() {
        return false;
    }
    let mut i: usize = 0;
    while i < a.len()
        invariant
            i <= a@.len(),
            a@.len() == b@.len(),
            forall|j: int| 0 <= j < i ==> a@[j] == b@[j],
        decreases a@.len() - i,
    {
        if a[i] != b[i] {
            return false;
        }
        i = i + 1;
    }
    assert(a@ =~= b@);
    true
}

/// Whether two strings are the same.
pub fn same_text(a: &str, b: &str) -> (r: bool)
    ensures
        r == (a@ == b@),
{
    same_chars(chars_of(a).as_slice(), chars_of(b).as_slice())
}

/// Puts one text behind another.
pub fn joined(a: &str, b: &str) -> (r: String)
    ensures
        r@ == a@ + b@,
{
    let mut r = a.to_owned();
    r.append(b);
    r
}

/// A position found in a run of characters, as a mathematical integer.
pub open spec fn pos(r: Option<usize>) -> Option<int> {
    match r {
        Some(i) => Some(i as int),
        None => None,
    }
}

// ---------------------------------------------------------------------------------------
// Bytes
// ---------------------------------------------------------------------------------------
/// The length in bytes of the UTF-8 encoding of `s`.
pub open spec fn byte_len(s: Seq<char>) -> nat {
    encode_utf8(s).len()
}

/// The byte offset of the character at position `i` of `s`.
pub open spec fn byte_pos(s: Seq<char>, i: int) -> nat {
    byte_len(s.take(i))
}

/// `b` is the byte offset of the character position `i` of `s`.
pub open spec fn lies_at(s: Seq<char>, i: int, b: int) -> bool {
    0 <= i <= s.len() && byte_pos(s, i) == b
}

/// The character position whose byte offset is `b`; none where `b` lies inside a character
/// or beyond the end.
pub open spec fn char_pos(s: Seq<char>, b: int) -> Option<int> {
    if exists|i: int| lies_at(s, i, b) {
        Some(choose|i: int| lies_at(s, i, b))
    } else {
        None
    }
}

/// The number of bytes that one character takes.
pub open spec fn char_width(c: char) -> nat {
    if c <= '\u{7f}' {
        1
    } else if c <= '\u{7ff}' {
        2
    } else if c <= '\u{ffff}' {
        3
    } else {
        4
    }
}

proof fn lemma_width_of_scalar(c: char)
    ensures
        encode_scalar(c as u32).len() == char_width(c),
{
}

/// Encoding distributes over concatenation.
pub proof fn lemma_encode_concat(a: Seq<char>, b: Seq<char>)
    ensures
        encode_utf8(a + b) == encode_utf8(a) + encode_utf8(b),
        byte_len(a + b) == byte_len(a) + byte_len(b),
    decreases a.len(),
{
    if a.len() == 0 {
        assert(a + b =~= b);
        assert(encode_utf8(a) + encode_utf8(b) =~= encode_utf8(b));
    } else {
        assert((a + b).drop_first() =~= a.drop_first() + b);
        lemma_encode_concat(a.drop_first(), b);
        assert(encode_utf8(a + b) =~= encode_utf8(a) + encode_utf8(b));
    }
}

pub proof fn lemma_byte_len_one(c: char)
    ensures
        byte_len(seq![c]) == char_width(c),
{
    lemma_width_of_scalar(c);
    assert(seq![c].drop_first() =~= Seq::<char>::empty());
    reveal_with_fuel(encode_utf8, 2);
}

pub proof fn lemma_byte_len_push(s: Seq<char>, c: char)
    ensures
        byte_len(s.push(c)) == byte_len(s) + char_width(c),
{
    assert(s.push(c) =~= s + seq![c]);
    lemma_encode_concat(s, seq![c]);
    lemma_byte_len_one(c);
}

/// A later position has a greater byte offset, and the difference is the length of what
/// lies between.
pub proof fn lemma_byte_pos_between(s: Seq<char>, i: int, j: int)
    requires
        0 <= i <= j <= s.len(),
    ensures
        byte_pos(s, j) == byte_pos(s, i) + byte_len(s.subrange(i, j)),
        byte_pos(s, j) >= byte_pos(s, i) + (j - i),
        byte_pos(s, s.len() as int) == byte_len(s),
        byte_pos(s, i) <= byte_len(s),
    decreases j - i,
{
    assert(s.take(s.len() as int) =~= s);
    assert(s =~= s.take(i) + s.skip(i));
    lemma_encode_concat(s.take(i), s.skip(i));
    if i == j {
        assert(s.subrange(i, j) =~= Seq::<char>::empty());
    } else {
        lemma_byte_pos_between(s, i, j - 1);
        assert(s.take(j) =~= s.take(j - 1).push(s[j - 1]));
        lemma_byte_len_push(s.take(j - 1), s[j - 1]);
        assert(s.subrange(i, j) =~= s.subrange(i, j - 1).push(s[j - 1]));
        lemma_byte_len_push(s.subrange(i, j - 1), s[j - 1]);
    }
}

/// A byte offset determines the position.
pub proof fn lemma_char_pos(s: Seq<char>, i: int)
    requires
        0 <= i <= s.len(),
    ensures
        char_pos(s, byte_pos(s, i) as int) == Some(i),
{
    let b = byte_pos(s, i) as int;
    assert(lies_at(s, i, b));
    let k = choose|k: int| lies_at(s, k, b);
    if k < i {
        lemma_byte_pos_between(s, k, i);
    } else if i < k {
        lemma_byte_pos_between(s, i, k);
    }
}

/// A position that a byte offset has.
pub proof fn lemma_char_pos_bounds(s: Seq<char>, b: int)
    ensures
        char_pos(s, b) matches Some(i) ==> lies_at(s, i, b) && 0 <= b <= byte_len(s),
{
    if let Some(i) = char_pos(s, b) {
        lemma_byte_pos_between(s, i, i);
    }
}

/// The width of a character in bytes.
pub fn width(c: char) -> (w: usize)
    ensures
        w == char_width(c),
{
    if c <= '\u{7f}' {
        1
    } else if c <= '\u{7ff}' {
        2
    } else if c <= '\u{ffff}' {
        3
    } else {
        4
    }
}

/// The length of a string in bytes.
pub fn len_in_bytes(s: &str) -> (n: usize)
    ensures
        n == byte_len(s@),
{
    s.as_bytes().len()
}

/// The byte offset of the character at position `i`.
pub fn byte_offset(s: &[char], i: usize) -> (b: usize)
    requires
        i <= s@.len(),
    ensures
        b == byte_pos(s@, i as int),
{
    assert(s@.subrange(0, i as int) =~= s@.take(i as int));
    len_in_bytes(text_of(part(s, 0, i)).as_str())
}

/// The position of the character that begins at byte offset `b`.
pub fn position_of_byte(s: &[char], b: usize) -> (r: Option<usize>)
    ensures
        pos(r) == char_pos(s@, b as int),
{
    let mut left: usize = b;
    let mut k: usize = 0;
    proof {
        assert(s@.take(0) =~= Seq::<char>::empty());
    }
    while k < s.len() && left > 0
        invariant
            k <= s@.len(),
            left == b - byte_pos(s@, k as int),
        decreases s@.len() - k,
    {
        proof {
            assert(s@.take(k + 1) =~= s@.take(k as int).push(s@[k as int]));
            lemma_byte_len_push(s@.take(k as int), s@[k as int]);
        }
        if width(s[k]) > left {
            proof {
                if char_pos(s@, b as int) is Some {
                    let i = choose|i: int| lies_at(s@, i, b as int);
                    if i <= k {
                        lemma_byte_pos_between(s@, i, k as int);
                    } else {
                        lemma_byte_pos_between(s@, k + 1, i);
                    }
                }
            }
            return None;
        }
        left = left - width(s[k]);
        k = k + 1;
    }
    if left == 0 {
        proof {
            lemma_char_pos(s@, k as int);
        }
        Some(k)
    } else {
        proof {
            if char_pos(s@, b as int) is Some {
                let i = choose|i: int| lies_at(s@, i, b as int);
                lemma_byte_pos_between(s@, i, k as int);
            }
        }
        None
    }
}

// ---------------------------------------------------------------------------------------
// Cutting at a byte limit
// ---------------------------------------------------------------------------------------
/// How many characters of `s` from its beginning fit in `max` bytes.
pub open spec fn chars_within(s: Seq<char>, max: nat) -> nat
    decreases s.len(),
{
    if s.len() == 0 || byte_len(s) <= max {
        s.len()
    } else {
        chars_within(s.drop_last(), max)
    }
}

/// The characters that fit are the longest beginning of the text that does.
pub proof fn lemma_chars_within(s: Seq<char>, max: nat)
    ensures
        chars_within(s, max) <= s.len(),
        byte_pos(s, chars_within(s, max) as int) <= max,
        chars_within(s, max) < s.len() ==> byte_pos(s, chars_within(s, max) as int + 1) > max,
    decreases s.len(),
{
    assert(s.take(s.len() as int) =~= s);
    if s.len() == 0 {
    } else if byte_len(s) > max {
        let t = s.drop_last();
        let n = chars_within(t, max) as int;
        lemma_chars_within(t, max);
        assert(s.take(n) =~= t.take(n));
        if n < t.len() {
            assert(s.take(n + 1) =~= t.take(n + 1));
        }
    }
}

/// Where the characters that fit end is determined.
pub proof fn lemma_chars_within_is(s: Seq<char>, max: nat, n: int)
    requires
        0 <= n <= s.len(),
        byte_pos(s, n) <= max,
        n < s.len() ==> byte_pos(s, n + 1) > max,
    ensures
        chars_within(s, max) == n,
{
    lemma_chars_within(s, max);
    let m = chars_within(s, max) as int;
    if m < n {
        lemma_byte_pos_between(s, m + 1, n);
    } else if n < m {
        lemma_byte_pos_between(s, n + 1, m);
    }
}

/// How many characters from the beginning fit in `max` bytes.
pub fn count_within(s: &[char], max: usize) -> (n: usize)
    ensures
        n == chars_within(s@, max as nat),
        n <= s@.len(),
{
    let mut n: usize = 0;
    let mut left: usize = max;
    assert(s@.take(0) =~= Seq::<char>::empty());
    while n < s.len()
        invariant
            n <= s@.len(),
            left == max - byte_pos(s@, n as int),
        decreases s@.len() - n,
    {
        proof {
            assert(s@.take(n + 1) =~= s@.take(n as int).push(s@[n as int]));
            lemma_byte_len_push(s@.take(n as int), s@[n as int]);
        }
        if width(s[n]) > left {
            proof {
                lemma_chars_within_is(s@, max as nat, n as int);
            }
            return n;
        }
        left = left - width(s[n]);
        n = n + 1;
    }
    proof {
        lemma_chars_within_is(s@, max as nat, n as int);
    }
    n
}

/// The greatest byte offset up to `max` at which a character begins or the string ends.
pub fn floor_char_boundary(s: &str, max: usize) -> (b: usize)
    ensures
        b == byte_pos(s@, chars_within(s@, max as nat) as int),
{
    let chars = chars_of(s);
    let n: usize = count_within(chars.as_slice(), max);
    byte_offset(chars.as_slice(), n)
}

/// The longest beginning of the string that takes at most `max_len` bytes.
pub fn safe_truncate(s: &str, max_len: usize) -> (r: &str)
    ensures
        r@ == s@.take(chars_within(s@, max_len as nat) as int),
{
    let chars = chars_of(s);
    let n: usize = count_within(chars.as_slice(), max_len);
    assert(s@.subrange(0, n as int) =~= s@.take(n as int));
    s.substring_char(0, n)
}

// ---------------------------------------------------------------------------------------
// Decimal numbers
// ---------------------------------------------------------------------------------------
/// The decimal digit for `d`.
pub open spec fn decimal_digit(d: int) -> char {
    ('0' as int + d) as char
}

/// A number in decimal digits.
pub open spec fn decimal(n: nat) -> Seq<char>
    decreases n,
{
    if n < 10 {
        seq![decimal_digit(n as int)]
    } else {
        decimal(n / 10).push(decimal_digit((n % 10) as int))
    }
}

/// Writes a number in decimal digits.
pub fn decimal_text(n: usize) -> (r: String)
    ensures
        r@ == decimal(n as nat),
    decreases n,
{
    let digits: [char; 10] = ['0', '1', '2', '3', '4', '5', '6', '7', '8', '9'];
    let mut r = if n < 10 {
        String::new()
    } else {
        decimal_text(n / 10)
    };
    r.push(digits[n % 10]);
    assert(r@ =~= decimal(n as nat));
    r
}

} // verus!
