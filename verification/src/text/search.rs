//! Searching and replacing in sequences and texts.

use vstd::prelude::*;
use crate::text::chars;

verus! {

/// `pat` stands in `s` at position `i`.
pub open spec fn occurs_at<T>(s: Seq<T>, pat: Seq<T>, i: int) -> bool {
    &&& 0 <= i
    &&& i + pat.len() <= s.len()
    &&& s.subrange(i, i + pat.len()) == pat
}

/// The first position at or after `i` at which `pat` stands in `s`.
pub open spec fn find_from<T>(s: Seq<T>, pat: Seq<T>, i: int) -> Option<int>
    decreases s.len() - i + 1,
{
    if i + pat.len() > s.len() {
        None
    } else if occurs_at(s, pat, i) {
        Some(i)
    } else {
        find_from(s, pat, i + 1)
    }
}

/// The first position at which `pat` stands in `s`.
pub open spec fn find<T>(s: Seq<T>, pat: Seq<T>) -> Option<int> {
    find_from(s, pat, 0)
}

/// `pat` stands somewhere in `s`.
pub open spec fn contains<T>(s: Seq<T>, pat: Seq<T>) -> bool {
    find(s, pat) is Some
}

/// `s` begins with `pat`.
pub open spec fn starts_with<T>(s: Seq<T>, pat: Seq<T>) -> bool {
    pat.len() <= s.len() && s.take(pat.len() as int) == pat
}

/// `s` ends with `pat`.
pub open spec fn ends_with<T>(s: Seq<T>, pat: Seq<T>) -> bool {
    pat.len() <= s.len() && s.skip(s.len() - pat.len()) == pat
}

/// `find_from` finds the least occurrence, and finds one where there is one.
pub proof fn lemma_find_from<T>(s: Seq<T>, pat: Seq<T>, i: int)
    requires
        0 <= i,
    ensures
        match find_from(s, pat, i) {
            Some(k) => i <= k && occurs_at(s, pat, k) && forall|j: int|
                i <= j < k ==> !#[trigger] occurs_at(s, pat, j),
            None => forall|j: int| i <= j ==> !#[trigger] occurs_at(s, pat, j),
        },
    decreases s.len() - i + 1,
{
    if i + pat.len() <= s.len() && !occurs_at(s, pat, i) {
        lemma_find_from(s, pat, i + 1);
    }
}

/// The least occurrence is the one that `find_from` finds.
pub proof fn lemma_find_from_is<T>(s: Seq<T>, pat: Seq<T>, i: int, k: int)
    requires
        0 <= i <= k,
        occurs_at(s, pat, k),
        forall|j: int| i <= j < k ==> !#[trigger] occurs_at(s, pat, j),
    ensures
        find_from(s, pat, i) == Some(k),
{
    lemma_find_from(s, pat, i);
}

/// Whether `pat` stands in `s` at position `i`.
fn chars_occur_at(s: &[char], pat: &[char], i: usize) -> (b: bool)
    requires
        i + pat.len() <= s.len(),
    ensures
        b == occurs_at(s@, pat@, i as int),
{
    let mut j: usize = 0;
    while j < pat.len()
        invariant
            i + pat.len() <= s.len(),
            j <= pat.len(),
            forall|k: int| 0 <= k < j ==> s@[i + k] == pat@[k],
        decreases pat.len() - j,
    {
        if s[i + j] != pat[j] {
            assert(s@.subrange(i as int, i + pat.len())[j as int] != pat@[j as int]);
            return false;
        }
        j += 1;
    }
    assert(s@.subrange(i as int, i + pat.len()) =~= pat@);
    true
}

/// The first position at or after `from` at which `pat` stands in `s`.
pub fn find_chars(s: &[char], pat: &[char], from: usize) -> (r: Option<usize>)
    requires
        from <= s.len(),
    ensures
        match r {
            Some(k) => find_from(s@, pat@, from as int) == Some(k as int) && from <= k && k
                + pat.len() <= s.len(),
            None => find_from(s@, pat@, from as int) is None,
        },
{
    if pat.len() > s.len() {
        return None;
    }
    let last: usize = s.len() - pat.len();
    let mut i: usize = from;
    while i <= last
        invariant
            pat.len() <= s.len(),
            last == s.len() - pat.len(),
            from <= i <= s.len() + 1,
            find_from(s@, pat@, from as int) == find_from(s@, pat@, i as int),
        decreases s.len() + 1 - i,
    {
        if chars_occur_at(s, pat, i) {
            return Some(i);
        }
        if i == last {
            assert(find_from(s@, pat@, i + 1) is None);
            return None;
        }
        i += 1;
    }
    None
}

/// The first position of the byte sequence `pat` in `s`.
pub fn find_bytes(s: &[u8], pat: &[u8]) -> (r: Option<usize>)
    ensures
        match r {
            Some(k) => find(s@, pat@) == Some(k as int) && k + pat.len() <= s.len(),
            None => find(s@, pat@) is None,
        },
{
    if pat.len() > s.len() {
        return None;
    }
    let last: usize = s.len() - pat.len();
    let mut i: usize = 0;
    while i <= last
        invariant
            pat.len() <= s.len(),
            last == s.len() - pat.len(),
            i <= s.len() + 1,
            find(s@, pat@) == find_from(s@, pat@, i as int),
        decreases s.len() + 1 - i,
    {
        let mut j: usize = 0;
        while j < pat.len() && s[i + j] == pat[j]
            invariant
                i + pat.len() <= s.len(),
                j <= pat.len(),
                forall|k: int| 0 <= k < j ==> s@[i + k] == pat@[k],
            decreases pat.len() - j,
        {
            j += 1;
        }
        if j == pat.len() {
            assert(s@.subrange(i as int, i + pat.len()) =~= pat@);
            return Some(i);
        }
        assert(s@.subrange(i as int, i + pat.len())[j as int] != pat@[j as int]);
        if i == last {
            assert(find_from(s@, pat@, i + 1) is None);
            return None;
        }
        i += 1;
    }
    None
}

/// The first position, counted in characters, at which `pat` stands in `s`.
pub fn find_text(s: &str, pat: &str) -> (r: Option<usize>)
    ensures
        match r {
            Some(k) => find(s@, pat@) == Some(k as int) && k + pat@.len() <= s@.len(),
            None => find(s@, pat@) is None,
        },
{
    let v = chars::chars_of(s);
    let p = chars::chars_of(pat);
    find_chars(&v, &p, 0)
}

/// Whether `pat` stands somewhere in `s`.
pub fn contains_text(s: &str, pat: &str) -> (b: bool)
    ensures
        b == contains(s@, pat@),
{
    find_text(s, pat).is_some()
}

/// Whether `s` begins with `pat`.
pub fn text_starts_with(s: &str, pat: &str) -> (b: bool)
    ensures
        b == starts_with(s@, pat@),
{
    let v = chars::chars_of(s);
    let p = chars::chars_of(pat);
    if p.len() > v.len() {
        return false;
    }
    assert(s@.subrange(0, pat@.len() as int) =~= s@.take(pat@.len() as int));
    chars_occur_at(&v, &p, 0)
}

/// Whether `s` ends with `pat`.
pub fn text_ends_with(s: &str, pat: &str) -> (b: bool)
    ensures
        b == ends_with(s@, pat@),
{
    let v = chars::chars_of(s);
    let p = chars::chars_of(pat);
    if p.len() > v.len() {
        return false;
    }
    let at: usize = v.len() - p.len();
    assert(s@.subrange(at as int, s@.len() as int) =~= s@.skip(at as int));
    chars_occur_at(&v, &p, at)
}

/// The first position of the character `c` in `s`.
pub open spec fn index_of_char(s: Seq<char>, c: char) -> Option<int>
    decreases s.len(),
{
    if s.len() == 0 {
        None
    } else if s[0] == c {
        Some(0)
    } else {
        match index_of_char(s.drop_first(), c) {
            Some(k) => Some(k + 1),
            None => None,
        }
    }
}

/// `index_of_char` is the least position of the character.
pub proof fn lemma_index_of_char(s: Seq<char>, c: char)
    ensures
        match index_of_char(s, c) {
            Some(k) => 0 <= k < s.len() && s[k] == c && forall|j: int| 0 <= j < k ==> s[j] != c,
            None => forall|j: int| 0 <= j < s.len() ==> s[j] != c,
        },
    decreases s.len(),
{
    if s.len() > 0 && s[0] != c {
        lemma_index_of_char(s.drop_first(), c);
        assert forall|j: int| 0 < j < s.len() implies s[j] == s.drop_first()[j - 1] by {}
        match index_of_char(s.drop_first(), c) {
            Some(k) => {
                assert(s[k + 1] == s.drop_first()[k]);
                assert forall|j: int| 0 <= j < k + 1 implies s[j] != c by {
                    if j > 0 {
                        assert(s[j] == s.drop_first()[j - 1]);
                    }
                }
            },
            None => {
                assert forall|j: int| 0 <= j < s.len() implies s[j] != c by {
                    if j > 0 {
                        assert(s[j] == s.drop_first()[j - 1]);
                    }
                }
            },
        }
    }
}

/// The least position of a character is the one that `index_of_char` gives.
pub proof fn lemma_index_of_char_is(s: Seq<char>, c: char, k: int)
    requires
        0 <= k < s.len(),
        s[k] == c,
        forall|j: int| 0 <= j < k ==> s[j] != c,
    ensures
        index_of_char(s, c) == Some(k),
{
    lemma_index_of_char(s, c);
}

/// The first position of `c` in `s`.
pub fn position_of(s: &[char], c: char) -> (r: Option<usize>)
    ensures
        match r {
            Some(k) => index_of_char(s@, c) == Some(k as int) && k < s.len(),
            None => index_of_char(s@, c) is None,
        },
{
    let mut i: usize = 0;
    while i < s.len()
        invariant
            i <= s.len(),
            forall|j: int| 0 <= j < i ==> s@[j] != c,
        decreases s.len() - i,
    {
        if s[i] == c {
            proof {
                lemma_index_of_char_is(s@, c, i as int);
            }
            return Some(i);
        }
        i += 1;
    }
    proof {
        lemma_index_of_char(s@, c);
    }
    None
}

/// `s` with every occurrence of `from` replaced by `to`, the occurrences
/// taken from the left and without overlap.
pub open spec fn replace(s: Seq<char>, from: Seq<char>, to: Seq<char>) -> Seq<char>
    decreases s.len(),
{
    if from.len() == 0 || from.len() > s.len() {
        s
    } else if s.take(from.len() as int) == from {
        to + replace(s.skip(from.len() as int), from, to)
    } else {
        seq![s[0]] + replace(s.drop_first(), from, to)
    }
}

/// `s` with every occurrence of `from` replaced by `to`.
pub fn replace_text(s: &str, from: &str, to: &str) -> (r: String)
    requires
        from@.len() > 0,
    ensures
        r@ == replace(s@, from@, to@),
{
    let v = chars::chars_of(s);
    let p = chars::chars_of(from);
    let mut out = String::new();
    let mut i: usize = 0;
    assert(s@.skip(0) =~= s@);
    assert(out@ + replace(s@, from@, to@) =~= replace(s@, from@, to@));
    while i < v.len() && p.len() <= v.len() - i
        invariant
            v@ == s@,
            p@ == from@,
            p.len() > 0,
            i <= v.len(),
            out@ + replace(s@.skip(i as int), from@, to@) == replace(s@, from@, to@),
        decreases v.len() - i,
    {
        let ghost rest = s@.skip(i as int);
        let ghost before = out@;
        assert(s@.subrange(i as int, i + p.len()) =~= rest.take(p.len() as int));
        if chars_occur_at(&v, &p, i) {
            out.append(to);
            i += p.len();
            assert(rest.skip(p.len() as int) =~= s@.skip(i as int));
            assert(before + (to@ + replace(s@.skip(i as int), from@, to@)) =~= before + to@
                + replace(s@.skip(i as int), from@, to@));
        } else {
            out.push(v[i]);
            i += 1;
            assert(rest.drop_first() =~= s@.skip(i as int));
            assert(before + (seq![rest[0]] + replace(s@.skip(i as int), from@, to@)) =~= before.push(
                rest[0],
            ) + replace(s@.skip(i as int), from@, to@));
        }
    }
    let tail: &[char] = &v[i..v.len()];
    chars::push_chars(&mut out, tail);
    assert(tail@ =~= s@.skip(i as int));
    out
}

/// Nothing is replaced in a text that lacks the first character of what is
/// looked for.
pub proof fn lemma_replace_absent(s: Seq<char>, from: Seq<char>, to: Seq<char>)
    requires
        from.len() > 0,
        !s.contains(from[0]),
    ensures
        replace(s, from, to) == s,
    decreases s.len(),
{
    if s.len() > 0 {
        let rest = s.drop_first();
        assert(s.contains(s[0]));
        if from.len() <= s.len() {
            assert(s.take(from.len() as int)[0] == s[0]);
        }
        assert forall|i: int| 0 <= i < rest.len() implies rest[i] != from[0] by {
            assert(s.contains(s[i + 1]));
        }
        lemma_replace_absent(rest, from, to);
        assert(seq![s[0]] + rest =~= s);
    }
}

/// What stands before the first character of what is looked for stays.
pub proof fn lemma_replace_behind(a: Seq<char>, rest: Seq<char>, from: Seq<char>, to: Seq<char>)
    requires
        from.len() > 0,
        !a.contains(from[0]),
    ensures
        replace(a + rest, from, to) == a + replace(rest, from, to),
    decreases a.len(),
{
    let s = a + rest;
    if a.len() > 0 {
        let b = a.drop_first();
        assert(a.contains(a[0]));
        assert forall|i: int| 0 <= i < b.len() implies b[i] != from[0] by {
            assert(a.contains(a[i + 1]));
        }
        lemma_replace_behind(b, rest, from, to);
        assert(s.drop_first() =~= b + rest);
        if from.len() <= s.len() {
            assert(s.take(from.len() as int)[0] == a[0]);
            assert(seq![a[0]] + (b + replace(rest, from, to)) =~= a + replace(rest, from, to));
        } else {
            assert(replace(rest, from, to) == rest);
        }
    } else {
        assert(s =~= rest);
        assert(a + replace(rest, from, to) =~= replace(rest, from, to));
    }
}

/// The first occurrence is replaced, and then those behind it.
pub proof fn law_first_occurrence_is_replaced(
    a: Seq<char>,
    from: Seq<char>,
    to: Seq<char>,
    rest: Seq<char>,
)
    requires
        from.len() > 0,
        !a.contains(from[0]),
    ensures
        replace(a + from + rest, from, to) == a + to + replace(rest, from, to),
{
    let s = from + rest;
    lemma_replace_behind(a, s, from, to);
    assert(a + from + rest =~= a + s);
    assert(s.take(from.len() as int) =~= from);
    assert(s.skip(from.len() as int) =~= rest);
    assert(a + (to + replace(rest, from, to)) =~= a + to + replace(rest, from, to));
}

} // verus!
