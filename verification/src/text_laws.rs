//! What is white space, a number, a line or a part of a text.

use vstd::prelude::*;
use crate::base64;
use crate::text::{chars, number, pieces, search, trim, unicode};

verus! {

/// Blanks, tabs and line ends are white space, and so are the blanks and line
/// ends of other scripts; nothing else is.
pub proof fn law_what_is_white_space(c: char)
    ensures
        chars::white_space(c) <==> c == ' ' || '\t' <= c <= '\r' || c == '\u{85}' || c == '\u{a0}'
            || c == '\u{1680}' || '\u{2000}' <= c <= '\u{200a}' || c == '\u{2028}' || c == '\u{2029}'
            || c == '\u{202f}' || c == '\u{205f}' || c == '\u{3000}',
{
}

/// White space at the front of a text is taken off.
proof fn lemma_front_comes_off(front: Seq<char>, s: Seq<char>)
    requires
        forall|i: int| 0 <= i < front.len() ==> chars::white_space(#[trigger] front[i]),
        s.len() > 0 ==> !chars::white_space(s[0]),
    ensures
        trim::trim_start(front + s) == s,
    decreases front.len(),
{
    let all = front + s;
    if front.len() > 0 {
        assert(chars::white_space(front[0]));
        assert(all[0] == front[0]);
        let rest = front.drop_first();
        assert forall|i: int| 0 <= i < rest.len() implies chars::white_space(
            #[trigger] rest[i],
        ) by {
            assert(rest[i] == front[i + 1]);
        }
        lemma_front_comes_off(rest, s);
        assert(all.drop_first() =~= rest + s);
    } else {
        assert(all =~= s);
    }
}

/// White space at the end of a text is taken off.
proof fn lemma_back_comes_off(s: Seq<char>, back: Seq<char>)
    requires
        forall|i: int| 0 <= i < back.len() ==> chars::white_space(#[trigger] back[i]),
        s.len() > 0 ==> !chars::white_space(s.last()),
    ensures
        trim::trim_end(s + back) == s,
    decreases back.len(),
{
    let all = s + back;
    if back.len() > 0 {
        assert(chars::white_space(back[back.len() - 1]));
        assert(all.last() == back[back.len() - 1]);
        let rest = back.drop_last();
        assert forall|i: int| 0 <= i < rest.len() implies chars::white_space(
            #[trigger] rest[i],
        ) by {
            assert(rest[i] == back[i]);
        }
        lemma_back_comes_off(s, rest);
        assert(all.drop_last() =~= s + rest);
    } else {
        assert(all =~= s);
    }
}

/// White space around a text is taken off, that inside it is kept.
pub proof fn law_white_space_around_a_text_is_taken_off(
    front: Seq<char>,
    s: Seq<char>,
    back: Seq<char>,
)
    requires
        forall|i: int| 0 <= i < front.len() ==> chars::white_space(#[trigger] front[i]),
        forall|i: int| 0 <= i < back.len() ==> chars::white_space(#[trigger] back[i]),
        s.len() > 0,
        !chars::white_space(s[0]),
        !chars::white_space(s.last()),
    ensures
        trim::trim(front + s + back) == s,
        trim::trim(front) == Seq::<char>::empty(),
{
    assert((s + back)[0] == s[0]);
    lemma_front_comes_off(front, s + back);
    assert(front + s + back =~= front + (s + back));
    lemma_back_comes_off(s, back);
    let none = Seq::<char>::empty();
    lemma_front_comes_off(front, none);
    assert(front + none =~= front);
}

/// Letters of ASCII are turned into small letters and capitals one by one;
/// other characters are kept.
pub proof fn law_letters_have_two_forms(s: Seq<char>, i: int)
    requires
        0 <= i < s.len(),
    ensures
        unicode::ascii_lower(s).len() == s.len(),
        unicode::ascii_upper(s).len() == s.len(),
        'A' <= s[i] <= 'Z' ==> unicode::ascii_lower(s)[i] as int - 'a' as int == s[i] as int
            - 'A' as int && unicode::ascii_upper(s)[i] == s[i],
        'a' <= s[i] <= 'z' ==> unicode::ascii_upper(s)[i] as int - 'A' as int == s[i] as int
            - 'a' as int && unicode::ascii_lower(s)[i] == s[i],
        !('A' <= s[i] <= 'Z') && !('a' <= s[i] <= 'z') ==> unicode::ascii_lower(s)[i] == s[i]
            && unicode::ascii_upper(s)[i] == s[i],
{
}

/// Texts agree up to their case where their small letters do.
pub proof fn law_case_does_not_count(s: Seq<char>, t: Seq<char>)
    ensures
        chars::same_ignoring_case(s, t) <==> unicode::ascii_lower(s) == unicode::ascii_lower(t),
        chars::same_ignoring_case(s, unicode::ascii_upper(s)),
        chars::same_ignoring_case(unicode::ascii_lower(s), s),
{
    assert(unicode::ascii_lower(unicode::ascii_upper(s)) =~= unicode::ascii_lower(s));
    assert(unicode::ascii_lower(unicode::ascii_lower(s)) =~= unicode::ascii_lower(s));
}

/// A number is written with its digits from the highest on, without a sign and
/// without leading zeros, and is read so. A plus sign may stand in front of it.
pub proof fn law_numbers_are_written_in_digits(n: nat, d: nat, max: nat)
    requires
        d < 10,
        n * 10 + d <= max,
    ensures
        number::decimal(d) == seq!["0123456789"@[d as int]],
        n > 0 ==> number::decimal(n * 10 + d) == number::decimal(n).push("0123456789"@[d as int]),
        number::unsigned(number::decimal(n * 10 + d), max) == Some(n * 10 + d),
        number::unsigned(seq!['+'] + number::decimal(n * 10 + d), max) == Some(n * 10 + d),
{
    reveal_strlit("0123456789");
    let all = "0123456789"@;
    let i = d as int;
    assert(all[i] as u32 == '0' as u32 + i);
    assert(number::digit(d) == all[i]);
    let whole = n * 10 + d;
    if n > 0 {
        assert(whole / 10 == n && whole % 10 == d);
    }
    number::lemma_unsigned_decimal(whole, max);
    number::lemma_decimal(whole);
    assert((seq!['+'] + number::decimal(whole)).drop_first() =~= number::decimal(whole));
}

/// What is empty, holds anything but digits behind an optional plus sign, or is
/// too large, is no number.
pub proof fn law_other_texts_are_no_numbers(s: Seq<char>, i: int, max: nat, n: nat)
    ensures
        number::unsigned(Seq::empty(), max) is None,
        number::unsigned(seq!['+'], max) is None,
        0 < i < s.len() && !('0' <= s[i] <= '9') ==> number::unsigned(s, max) is None,
        s.len() > 0 && s[0] != '+' && !('0' <= s[0] <= '9') ==> number::unsigned(s, max) is None,
        n > max ==> number::unsigned(number::decimal(n), max) is None,
{
    assert(seq!['+'].drop_first() =~= seq![]);
    if 0 < i < s.len() && !('0' <= s[i] <= '9') {
        if s[0] == '+' {
            assert(s.drop_first()[i - 1] == s[i]);
            assert(!number::is_digit(s.drop_first()[i - 1]));
        } else {
            assert(!number::is_digit(s[i]));
        }
    }
    if s.len() > 0 && s[0] != '+' && !('0' <= s[0] <= '9') {
        assert(!number::is_digit(s[0]));
    }
    number::lemma_decimal(n);
    assert(number::is_digit(number::decimal(n)[0]));
}

/// A text is found where it stands, and nowhere else.
pub proof fn law_parts_of_a_text_are_found(a: Seq<char>, p: Seq<char>, b: Seq<char>)
    ensures
        search::contains(a + p + b, p),
        search::starts_with(p + b, p),
        search::ends_with(a + p, p),
        search::contains(a, p) ==> exists|x: Seq<char>, y: Seq<char>| a == #[trigger] (x + p + y),
        search::starts_with(a, p) ==> exists|y: Seq<char>| a == #[trigger] (p + y),
        search::ends_with(a, p) ==> exists|x: Seq<char>| a == #[trigger] (x + p),
{
    let all = a + p + b;
    let n = a.len() as int;
    assert(all.subrange(n, n + p.len()) =~= p);
    assert(search::occurs_at(all, p, n));
    search::lemma_find_from(all, p, 0);
    assert((p + b).take(p.len() as int) =~= p);
    assert((a + p).skip(n) =~= p);
    search::lemma_find_from(a, p, 0);
    if let Some(k) = search::find_from(a, p, 0) {
        let x = a.take(k);
        let y = a.skip(k + p.len());
        assert(a =~= x + a.subrange(k, k + p.len()) + y);
        assert(a == x + p + y);
    }
    if search::starts_with(a, p) {
        assert(a =~= p + a.skip(p.len() as int));
    }
    if search::ends_with(a, p) {
        assert(a =~= a.take(a.len() - p.len()) + p);
    }
}

/// A line ends with a line feed, which a carriage return may precede; what
/// follows the last of them is a line where it is not empty.
pub proof fn law_lines_end_with_line_feeds(line: Seq<char>, rest: Seq<char>)
    requires
        !line.contains('\n'),
    ensures
        line.len() > 0 && line.last() == '\r' || pieces::lines(line + seq!['\n'] + rest) == seq![
            line,
        ] + pieces::lines(rest),
        pieces::lines(line + seq!['\r', '\n'] + rest) == seq![line] + pieces::lines(rest),
        line.len() > 0 ==> pieces::lines(line) == seq![line],
        pieces::lines(Seq::empty()) == Seq::<Seq<char>>::empty(),
{
    let n = line.len() as int;
    let a = line + seq!['\n'] + rest;
    assert forall|j: int| 0 <= j < n implies a[j] != '\n' by {
        assert(a[j] == line[j]);
    }
    search::lemma_index_of_char_is(a, '\n', n);
    assert(a.take(n) =~= line);
    assert(a.skip(n + 1) =~= rest);
    let b = line + seq!['\r', '\n'] + rest;
    assert forall|j: int| 0 <= j < n + 1 implies b[j] != '\n' by {
        if j < n {
            assert(b[j] == line[j]);
        }
    }
    search::lemma_index_of_char_is(b, '\n', n + 1);
    assert(b.take(n + 1) =~= line.push('\r'));
    assert(line.push('\r').drop_last() =~= line);
    assert(b.skip(n + 2) =~= rest);
    search::lemma_index_of_char(line, '\n');
}

/// A text falls into pieces at each separator, and pieces are put together with
/// one between each two.
pub proof fn law_texts_fall_into_pieces(
    piece: Seq<char>,
    sep: char,
    rest: Seq<char>,
    all: Seq<Seq<char>>,
    last: Seq<char>,
)
    requires
        !piece.contains(sep),
    ensures
        pieces::split(piece + seq![sep] + rest, sep) == seq![piece] + pieces::split(rest, sep),
        pieces::split(piece, sep) == seq![piece],
        all.len() > 0 ==> pieces::join(all.push(last), seq![sep]) == pieces::join(all, seq![sep])
            + seq![sep] + last,
        pieces::join(seq![last], seq![sep]) == last,
        pieces::join(Seq::empty(), seq![sep]) == Seq::<char>::empty(),
{
    pieces::lemma_split_front(piece, sep, rest);
    assert(all.push(last).drop_last() =~= all);
}

/// A base64 text ends at its first equals sign.
pub proof fn law_base64_ends_at_an_equals_sign(s: Seq<char>, rest: Seq<char>)
    requires
        !s.contains('='),
    ensures
        base64::b64_bytes(s + seq!['='] + rest) == base64::b64_bytes(s),
{
    let all = s + seq!['='] + rest;
    let n = s.len() as int;
    assert forall|j: int| 0 <= j < n implies all[j] != '=' by {
        assert(all[j] == s[j]);
    }
    search::lemma_index_of_char_is(all, '=', n);
    search::lemma_index_of_char(s, '=');
    assert(all.take(n) =~= s);
}

} // verus!
