//! Taking characters off the ends of a text.

use vstd::prelude::*;
use crate::text::{chars, search};

verus! {

/// `s` without the white space at its front.
pub open spec fn trim_start(s: Seq<char>) -> Seq<char>
    decreases s.len(),
{
    if s.len() > 0 && chars::white_space(s[0]) {
        trim_start(s.drop_first())
    } else {
        s
    }
}

/// `s` without the white space at its end.
pub open spec fn trim_end(s: Seq<char>) -> Seq<char>
    decreases s.len(),
{
    if s.len() > 0 && chars::white_space(s.last()) {
        trim_end(s.drop_last())
    } else {
        s
    }
}

/// `s` without the white space at both ends.
pub open spec fn trim(s: Seq<char>) -> Seq<char> {
    trim_end(trim_start(s))
}

/// `s` without the characters of `set` at its front.
pub open spec fn trim_start_set(s: Seq<char>, set: Seq<char>) -> Seq<char>
    decreases s.len(),
{
    if s.len() > 0 && set.contains(s[0]) {
        trim_start_set(s.drop_first(), set)
    } else {
        s
    }
}

/// `s` without the characters of `set` at its end.
pub open spec fn trim_end_set(s: Seq<char>, set: Seq<char>) -> Seq<char>
    decreases s.len(),
{
    if s.len() > 0 && set.contains(s.last()) {
        trim_end_set(s.drop_last(), set)
    } else {
        s
    }
}

/// `s` without the characters of `set` at both ends.
pub open spec fn trim_set(s: Seq<char>, set: Seq<char>) -> Seq<char> {
    trim_end_set(trim_start_set(s, set), set)
}

/// `s` without the copies of `mark` that stand one after another at its front.
pub open spec fn trim_start_text(s: Seq<char>, mark: Seq<char>) -> Seq<char>
    decreases s.len(),
{
    if mark.len() > 0 && search::starts_with(s, mark) {
        trim_start_text(s.skip(mark.len() as int), mark)
    } else {
        s
    }
}

/// `s` without the copies of `mark` that stand one after another at its end.
pub open spec fn trim_end_text(s: Seq<char>, mark: Seq<char>) -> Seq<char>
    decreases s.len(),
{
    if mark.len() > 0 && search::ends_with(s, mark) {
        trim_end_text(s.take(s.len() - mark.len()), mark)
    } else {
        s
    }
}

/// A trimmed text is a part of the text, and has no white space at its ends.
pub proof fn lemma_trim_start(s: Seq<char>)
    ensures
        trim_start(s).len() <= s.len(),
        trim_start(s) == s.skip(s.len() - trim_start(s).len()),
        trim_start(s).len() > 0 ==> !chars::white_space(trim_start(s)[0]),
    decreases s.len(),
{
    if s.len() > 0 && chars::white_space(s[0]) {
        lemma_trim_start(s.drop_first());
        let n = trim_start(s).len();
        assert(s.skip(s.len() - n) =~= s.drop_first().skip(s.len() - 1 - n));
    } else {
        assert(s.skip(0) =~= s);
    }
}

/// A trimmed text is a part of the text, and has no white space at its end.
pub proof fn lemma_trim_end(s: Seq<char>)
    ensures
        trim_end(s).len() <= s.len(),
        trim_end(s) == s.take(trim_end(s).len() as int),
        trim_end(s).len() > 0 ==> !chars::white_space(trim_end(s).last()),
    decreases s.len(),
{
    if s.len() > 0 && chars::white_space(s.last()) {
        lemma_trim_end(s.drop_last());
        let n = trim_end(s).len();
        assert(s.take(n as int) =~= s.drop_last().take(n as int));
    } else {
        assert(s.take(s.len() as int) =~= s);
    }
}

/// Trimming the end of a text leaves what stands up to a character that is no
/// white space.
pub proof fn lemma_trim_end_keeps(s: Seq<char>, n: int)
    requires
        0 < n <= s.len(),
        !chars::white_space(s[n - 1]),
    ensures
        trim_end(s).len() >= n,
    decreases s.len(),
{
    if chars::white_space(s.last()) {
        assert(s.drop_last()[n - 1] == s[n - 1]);
        lemma_trim_end_keeps(s.drop_last(), n);
    }
}

/// A text without the characters of a set at its ends is a part of the text.
pub proof fn lemma_trim_set_part(s: Seq<char>, set: Seq<char>)
    ensures
        exists|a: int, b: int|
            0 <= a <= b <= s.len() && trim_set(s, set) == #[trigger] s.subrange(a, b),
{
    lemma_trim_start_set_part(s, set);
    let front = trim_start_set(s, set);
    let a = s.len() - front.len();
    lemma_trim_end_set_part(front, set);
    let b = a + trim_end_set(front, set).len();
    assert(trim_set(s, set) =~= s.subrange(a, b));
}

proof fn lemma_trim_start_set_part(s: Seq<char>, set: Seq<char>)
    ensures
        trim_start_set(s, set).len() <= s.len(),
        trim_start_set(s, set) == s.skip(s.len() - trim_start_set(s, set).len()),
    decreases s.len(),
{
    if s.len() > 0 && set.contains(s[0]) {
        lemma_trim_start_set_part(s.drop_first(), set);
        let n = trim_start_set(s, set).len();
        assert(s.drop_first().skip(s.len() - 1 - n) =~= s.skip(s.len() - n));
    } else {
        assert(s.skip(0) =~= s);
    }
}

proof fn lemma_trim_end_set_part(s: Seq<char>, set: Seq<char>)
    ensures
        trim_end_set(s, set).len() <= s.len(),
        trim_end_set(s, set) == s.take(trim_end_set(s, set).len() as int),
    decreases s.len(),
{
    if s.len() > 0 && set.contains(s.last()) {
        lemma_trim_end_set_part(s.drop_last(), set);
        let n = trim_end_set(s, set).len();
        assert(s.drop_last().take(n as int) =~= s.take(n as int));
    } else {
        assert(s.take(s.len() as int) =~= s);
    }
}

/// A trimmed text has no white space at its ends.
pub proof fn lemma_trim_ends(s: Seq<char>)
    ensures
        trim(s).len() <= s.len(),
        trim(s).len() > 0 ==> !chars::white_space(trim(s)[0]) && !chars::white_space(
            trim(s).last(),
        ),
{
    lemma_trim_start(s);
    lemma_trim_end(trim_start(s));
}

/// A text with no white space at its ends is its own trimmed form.
pub proof fn lemma_trim_is_same(s: Seq<char>)
    requires
        s.len() > 0 ==> !chars::white_space(s[0]) && !chars::white_space(s.last()),
    ensures
        trim(s) == s,
{
}

/// Trimming twice is trimming once.
pub proof fn lemma_trim_twice(s: Seq<char>)
    ensures
        trim(trim(s)) == trim(s),
{
    lemma_trim_ends(s);
    lemma_trim_is_same(trim(s));
}

/// `s` without the white space at its end.
pub fn trim_text_end(s: &str) -> (r: String)
    ensures
        r@ == trim_end(s@),
{
    let v = chars::chars_of(s);
    let mut n: usize = v.len();
    assert(s@.take(n as int) =~= s@);
    while n > 0 && chars::is_white_space(v[n - 1])
        invariant
            v@ == s@,
            n <= v.len(),
            trim_end(s@.take(n as int)) == trim_end(s@),
        decreases n,
    {
        assert(s@.take(n as int).drop_last() =~= s@.take(n - 1));
        n -= 1;
    }
    let part: &[char] = &v[0..n];
    assert(part@ =~= s@.take(n as int));
    chars::text_of(part)
}

/// `s` without the white space at both ends.
pub fn trim_text(s: &str) -> (r: String)
    ensures
        r@ == trim(s@),
{
    let v = chars::chars_of(s);
    let mut i: usize = 0;
    assert(s@.skip(0) =~= s@);
    while i < v.len() && chars::is_white_space(v[i])
        invariant
            v@ == s@,
            i <= v.len(),
            trim_start(s@.skip(i as int)) == trim_start(s@),
        decreases v.len() - i,
    {
        assert(s@.skip(i as int).drop_first() =~= s@.skip(i + 1));
        i += 1;
    }
    let part: &[char] = &v[i..v.len()];
    assert(part@ =~= s@.skip(i as int));
    let front = chars::text_of(part);
    trim_text_end(&front)
}

/// Whether `c` is one of `set`.
fn is_one_of(c: char, set: &[char]) -> (b: bool)
    ensures
        b == set@.contains(c),
{
    let mut i: usize = 0;
    while i < set.len()
        invariant
            i <= set.len(),
            forall|j: int| 0 <= j < i ==> set@[j] != c,
        decreases set.len() - i,
    {
        if set[i] == c {
            return true;
        }
        i += 1;
    }
    false
}

/// `s` without the characters of `set` at its front.
pub fn trim_text_start_set(s: &str, set: &[char]) -> (r: String)
    ensures
        r@ == trim_start_set(s@, set@),
{
    let v = chars::chars_of(s);
    let mut i: usize = 0;
    assert(s@.skip(0) =~= s@);
    while i < v.len() && is_one_of(v[i], set)
        invariant
            v@ == s@,
            i <= v.len(),
            trim_start_set(s@.skip(i as int), set@) == trim_start_set(s@, set@),
        decreases v.len() - i,
    {
        assert(s@.skip(i as int).drop_first() =~= s@.skip(i + 1));
        i += 1;
    }
    let part: &[char] = &v[i..v.len()];
    assert(part@ =~= s@.skip(i as int));
    chars::text_of(part)
}

/// `s` without the characters of `set` at its end.
pub fn trim_text_end_set(s: &str, set: &[char]) -> (r: String)
    ensures
        r@ == trim_end_set(s@, set@),
{
    let v = chars::chars_of(s);
    let mut n: usize = v.len();
    assert(s@.take(n as int) =~= s@);
    while n > 0 && is_one_of(v[n - 1], set)
        invariant
            v@ == s@,
            n <= v.len(),
            trim_end_set(s@.take(n as int), set@) == trim_end_set(s@, set@),
        decreases n,
    {
        assert(s@.take(n as int).drop_last() =~= s@.take(n - 1));
        n -= 1;
    }
    let part: &[char] = &v[0..n];
    assert(part@ =~= s@.take(n as int));
    chars::text_of(part)
}

/// `s` without the characters of `set` at both ends.
pub fn trim_text_set(s: &str, set: &[char]) -> (r: String)
    ensures
        r@ == trim_set(s@, set@),
{
    let front = trim_text_start_set(s, set);
    trim_text_end_set(&front, set)
}

/// `s` without the copies of `mark` at its front.
pub fn strip_marks_front(s: &str, mark: &str) -> (r: String)
    requires
        mark@.len() > 0,
    ensures
        r@ == trim_start_text(s@, mark@),
{
    let n: usize = mark.unicode_len();
    let mut cur = s.to_owned();
    while search::text_starts_with(&cur, mark)
        invariant
            n == mark@.len(),
            n > 0,
            trim_start_text(cur@, mark@) == trim_start_text(s@, mark@),
        decreases cur@.len(),
    {
        let len: usize = cur.as_str().unicode_len();
        let rest = cur.as_str().substring_char(n, len).to_owned();
        assert(rest@ =~= cur@.skip(n as int));
        cur = rest;
    }
    cur
}

/// `s` without the copies of `mark` at its end.
pub fn strip_marks_back(s: &str, mark: &str) -> (r: String)
    requires
        mark@.len() > 0,
    ensures
        r@ == trim_end_text(s@, mark@),
{
    let n: usize = mark.unicode_len();
    let mut cur = s.to_owned();
    while search::text_ends_with(&cur, mark)
        invariant
            n == mark@.len(),
            n > 0,
            trim_end_text(cur@, mark@) == trim_end_text(s@, mark@),
        decreases cur@.len(),
    {
        let len: usize = cur.as_str().unicode_len();
        let rest = cur.as_str().substring_char(0, len - n).to_owned();
        assert(rest@ =~= cur@.take(len - n));
        cur = rest;
    }
    cur
}

} // verus!
