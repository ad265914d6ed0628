//! What searching, trimming and replacing give, said of the parts that a text is made of.
use crate::search::contains;
use crate::search::find;
use crate::search::find_char;
use crate::search::is_space;
use crate::search::leading_spaces;
use crate::search::lemma_find;
use crate::search::lemma_find_char;
use crate::search::lemma_find_is;
use crate::search::lemma_leading_spaces;
use crate::search::lemma_rfind_char;
use crate::search::occurrences;
use crate::search::occurs_at;
use crate::search::replace;
use crate::search::rfind_char;
use crate::search::trim;
use crate::search::trim_end;
use crate::search::trim_end_char;
use crate::search::trim_start;
use crate::search::trim_start_char;
use crate::search::without_first;
use crate::text::decimal;
use vstd::prelude::*;

verus! {

// ---------------------------------------------------------------------------------------
// Finding
// ---------------------------------------------------------------------------------------
/// `p` stands in `a + p + b` behind `a`, and nowhere before.
pub open spec fn first_behind(a: Seq<char>, p: Seq<char>, b: Seq<char>) -> bool {
    forall|j: int|
        0 <= j < a.len() ==> #[trigger] (a + p + b).subrange(j, j + p.len()) != p
}

/// A text is found where it first stands: behind `a` in `a + p + b`, where it stands nowhere
/// before.
pub proof fn law_found_first(a: Seq<char>, p: Seq<char>, b: Seq<char>)
    requires
        first_behind(a, p, b),
    ensures
        find(a + p + b, p) == Some(a.len() as int),
        contains(a + p + b, p),
{
    let s = a + p + b;
    let n = a.len() as int;
    assert(s.subrange(n, n + p.len()) =~= p);
    assert(occurs_at(s, p, n));
    assert forall|j: int| 0 <= j < n implies !occurs_at(s, p, j) by {
        assert(s.subrange(j, j + p.len()) != p);
    }
    lemma_find_is(s, p, n);
}

/// What is found stands where it is found, with the text before and behind it; a text that is
/// not found stands nowhere.
pub proof fn law_found_stands(s: Seq<char>, p: Seq<char>)
    ensures
        find(s, p) matches Some(i) ==> 0 <= i && i + p.len() <= s.len() && s == s.take(i) + p
            + s.skip(i + p.len()) && first_behind(s.take(i), p, s.skip(i + p.len())),
        find(s, p) is None ==> forall|a: Seq<char>, b: Seq<char>| s != #[trigger] (a + p + b),
        contains(s, p) <==> find(s, p) is Some,
{
    lemma_find(s, p);
    match find(s, p) {
        Some(i) => {
            assert(s =~= s.take(i) + p + s.skip(i + p.len()));
            assert forall|j: int| 0 <= j < i implies #[trigger] s.subrange(j, j + p.len()) != p by {
                assert(!occurs_at(s, p, j));
            }
        },
        None => {
            assert forall|a: Seq<char>, b: Seq<char>| s != #[trigger] (a + p + b) by {
                let n = a.len() as int;
                assert((a + p + b).subrange(n, n + p.len()) =~= p);
                assert(!occurs_at(s, p, n));
            }
        },
    }
}

/// A character is found where it stands first; one that does not stand in a text is not found.
pub proof fn law_character_found(a: Seq<char>, c: char, b: Seq<char>)
    requires
        !a.contains(c),
    ensures
        find_char(a + seq![c] + b, c) == Some(a.len() as int),
        find_char(a, c) is None,
{
    let s = a + seq![c] + b;
    let n = a.len() as int;
    assert(s[n] == c);
    assert(find_char(s, c) == Some(n)) by {
        lemma_find_char(s, c);
        let i = find_char(s, c)->0;
        if i < n {
            assert(s[i] == a[i]);
        }
    }
    assert(find_char(a, c) is None) by {
        lemma_find_char(a, c);
    }
}

/// From the end, a character is found where it stands last.
pub proof fn law_last_character_found(a: Seq<char>, c: char, b: Seq<char>)
    requires
        !b.contains(c),
    ensures
        rfind_char(a + seq![c] + b, c) == Some(a.len() as int),
        rfind_char(b, c) is None,
{
    let s = a + seq![c] + b;
    let n = a.len() as int;
    assert(s[n] == c);
    assert(rfind_char(s, c) == Some(n)) by {
        lemma_rfind_char(s, c);
        let i = rfind_char(s, c)->0;
        if i > n {
            assert(s[i] == b[i - n - 1]);
        }
    }
    assert(rfind_char(b, c) is None) by {
        lemma_rfind_char(b, c);
    }
}

// ---------------------------------------------------------------------------------------
// Trimming
// ---------------------------------------------------------------------------------------
/// Nothing but white characters.
pub open spec fn white(s: Seq<char>) -> bool {
    forall|i: int| 0 <= i < s.len() ==> is_space(#[trigger] s[i])
}

/// Neither begins nor ends with a white character.
pub open spec fn tight(s: Seq<char>) -> bool {
    s.len() > 0 ==> !is_space(s[0]) && !is_space(s.last())
}

/// The white characters that a text begins with are counted: all of them, and no others.
pub proof fn law_leading_white(a: Seq<char>, s: Seq<char>)
    requires
        white(a),
        s.len() > 0 ==> !is_space(s[0]),
    ensures
        leading_spaces(a + s) == a.len(),
        trim_start(a + s) == s,
{
    let t = a + s;
    lemma_leading_spaces(t);
    let n = leading_spaces(t) as int;
    if n < a.len() {
        assert(t[n] == a[n]);
    }
    if n > a.len() {
        assert(t[a.len() as int] == s[0]);
        assert(is_space(t[a.len() as int]));
    }
    assert(t.skip(a.len() as int) =~= s);
}

proof fn lemma_trailing_white(s: Seq<char>, b: Seq<char>)
    requires
        white(b),
        s.len() > 0 ==> !is_space(s.last()),
    ensures
        trim_end(s + b) == s,
    decreases b.len(),
{
    if b.len() > 0 {
        assert((s + b).last() == b.last());
        assert(is_space(b[b.len() - 1]));
        assert((s + b).drop_last() =~= s + b.drop_last());
        assert forall|i: int| 0 <= i < b.drop_last().len() implies is_space(
            #[trigger] b.drop_last()[i],
        ) by {
            assert(b.drop_last()[i] == b[i]);
        }
        lemma_trailing_white(s, b.drop_last());
    } else {
        assert(s + b =~= s);
    }
}

/// Trimming takes the white characters from either end, all of them, and nothing else.
pub proof fn law_trimmed(a: Seq<char>, s: Seq<char>, b: Seq<char>)
    requires
        white(a),
        white(b),
        tight(s),
    ensures
        trim(a + s + b) == s,
{
    if s.len() == 0 {
        let all = a + s + b;
        assert(white(all)) by {
            assert forall|i: int| 0 <= i < all.len() implies is_space(#[trigger] all[i]) by {
                if i < a.len() {
                    assert(all[i] == a[i]);
                } else {
                    assert(all[i] == b[i - a.len()]);
                }
            }
        }
        law_leading_white(all, s);
        assert(all + s =~= all);
        assert(trim(all) =~= s);
    } else {
        assert(a + s + b =~= a + (s + b));
        assert((s + b)[0] == s[0]);
        law_leading_white(a, s + b);
        lemma_trailing_white(s, b);
    }
}

/// A text that is not all white is not trimmed to nothing.
pub proof fn law_trimmed_keeps(s: Seq<char>, i: int)
    requires
        0 <= i < s.len(),
        !is_space(s[i]),
    ensures
        trim(s).len() > 0,
{
    lemma_leading_spaces(s);
    let n = leading_spaces(s) as int;
    assert(n <= i);
    let t = trim_start(s);
    assert(t[i - n] == s[i]);
    lemma_trim_end_keeps(t, i - n);
}

proof fn lemma_trim_end_keeps(s: Seq<char>, i: int)
    requires
        0 <= i < s.len(),
        !is_space(s[i]),
    ensures
        trim_end(s).len() > 0,
    decreases s.len(),
{
    if is_space(s.last()) {
        assert(s.drop_last()[i] == s[i]);
        lemma_trim_end_keeps(s.drop_last(), i);
    }
}

/// Taking a character from the end of a text, or from its beginning, takes all that stand there.
pub proof fn law_character_trimmed(s: Seq<char>, c: char, run: Seq<char>)
    requires
        forall|i: int| 0 <= i < run.len() ==> #[trigger] run[i] == c,
    ensures
        s.len() > 0 ==> s.last() != c ==> trim_end_char(s + run, c) == s,
        s.len() > 0 ==> s[0] != c ==> trim_start_char(run + s, c) == s,
    decreases run.len(),
{
    if s.len() > 0 {
        if run.len() > 0 {
            assert((s + run).last() == run[run.len() - 1]);
            assert((s + run).drop_last() =~= s + run.drop_last());
            assert((run + s)[0] == run[0]);
            assert((run + s).skip(1) =~= run.skip(1) + s);
            assert(run.skip(1) =~= run.drop_last()) by {
                assert forall|i: int| 0 <= i < run.len() - 1 implies run.skip(1)[i]
                    == run.drop_last()[i] by {
                    assert(run[i] == c);
                    assert(run[i + 1] == c);
                }
            }
            assert forall|i: int| 0 <= i < run.drop_last().len() implies #[trigger] run.drop_last()[i]
                == c by {
                assert(run[i] == c);
            }
            law_character_trimmed(s, c, run.drop_last());
        } else {
            assert(s + run =~= s);
            assert(run + s =~= s);
        }
    }
}

// ---------------------------------------------------------------------------------------
// Replacing, removing, counting
// ---------------------------------------------------------------------------------------
/// Replacing puts the new text in the place of the first that is found, and goes on behind it;
/// a text in which nothing is found is left as it is.
pub proof fn law_replaced(a: Seq<char>, p: Seq<char>, b: Seq<char>, to: Seq<char>)
    requires
        p.len() > 0,
    ensures
        first_behind(a, p, b) ==> replace(a + p + b, p, to) == a + to + replace(b, p, to),
        !contains(a, p) ==> replace(a, p, to) == a,
{
    if first_behind(a, p, b) {
        law_found_first(a, p, b);
        assert((a + p + b).take(a.len() as int) =~= a);
        assert((a + p + b).skip((a.len() + p.len()) as int) =~= b);
    }
    law_found_stands(a, p);
}

/// Removing the first occurrence leaves what stands before and behind it; where there is none,
/// the text is left as it is.
pub proof fn law_first_removed(a: Seq<char>, p: Seq<char>, b: Seq<char>)
    ensures
        first_behind(a, p, b) ==> without_first(a + p + b, p) == a + b,
        !contains(a, p) ==> without_first(a, p) == a,
{
    if first_behind(a, p, b) {
        law_found_first(a, p, b);
        assert((a + p + b).take(a.len() as int) =~= a);
        assert((a + p + b).skip((a.len() + p.len()) as int) =~= b);
    }
    law_found_stands(a, p);
}

/// Occurrences are counted one behind the other: one more than behind the first, and none where
/// there is none.
pub proof fn law_counted(a: Seq<char>, p: Seq<char>, b: Seq<char>)
    requires
        p.len() > 0,
    ensures
        first_behind(a, p, b) ==> occurrences(a + p + b, p) == 1 + occurrences(b, p),
        !contains(a, p) ==> occurrences(a, p) == 0,
{
    if first_behind(a, p, b) {
        law_found_first(a, p, b);
        assert((a + p + b).skip((a.len() + p.len()) as int) =~= b);
    }
    law_found_stands(a, p);
}

// ---------------------------------------------------------------------------------------
// Numbers
// ---------------------------------------------------------------------------------------
/// The number that some decimal digits stand for.
pub open spec fn decimal_value(s: Seq<char>) -> nat
    decreases s.len(),
{
    if s.len() == 0 {
        0
    } else {
        10 * decimal_value(s.drop_last()) + (s.last() as int - '0' as int) as nat
    }
}

/// A number is written in decimal digits that stand for it, without a zero in front.
pub proof fn law_decimal(n: nat)
    ensures
        decimal_value(decimal(n)) == n,
        forall|i: int| 0 <= i < decimal(n).len() ==> '0' <= #[trigger] decimal(n)[i] <= '9',
        n > 0 ==> decimal(n)[0] != '0',
        decimal(n).len() > 0,
    decreases n,
{
    let s = decimal(n);
    if n < 10 {
        assert(s.drop_last() =~= Seq::<char>::empty());
        assert(s.last() as int == '0' as int + n);
        assert(decimal_value(s.drop_last()) == 0);
        assert(decimal_value(s) == 10 * decimal_value(s.drop_last()) + n);
    } else {
        law_decimal(n / 10);
        assert(s.drop_last() =~= decimal(n / 10));
        assert(s.last() as int == '0' as int + (n % 10) as int);
        assert(decimal_value(s) == 10 * decimal_value(s.drop_last()) + n % 10);
        assert forall|i: int| 0 <= i < s.len() implies '0' <= #[trigger] s[i] <= '9' by {
            if i < s.len() - 1 {
                assert(s[i] == decimal(n / 10)[i]);
            }
        }
        assert(s[0] == decimal(n / 10)[0]);
    }
}

} // verus!
