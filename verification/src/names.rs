//! File names that stand for messages, and the numbers in them.

use vstd::prelude::*;
use crate::text::{chars, number, pieces, search, trim};

verus! {

/// `c` cannot stand in a file name.
pub open spec fn is_forbidden(c: char) -> bool {
    c == '\\' || c == '/' || c == ':' || c == '*' || c == '?' || c == '"' || c == '<' || c == '>'
        || c == '|' || c == '\r' || c == '\n' || c == '\t'
}

/// `c`, or an underscore where it cannot stand in a file name.
pub open spec fn safe_char(c: char) -> char {
    if is_forbidden(c) {
        '_'
    } else {
        c
    }
}

/// `s` with every character that cannot stand in a file name replaced by an
/// underscore.
pub open spec fn sanitized(s: Seq<char>) -> Seq<char> {
    s.map_values(|c: char| safe_char(c))
}

/// `s` with every character that cannot stand in a file name replaced by an
/// underscore.
pub fn sanitize_filename(s: &str) -> (r: String)
    ensures
        r@ == sanitized(s@),
{
    let v = chars::chars_of(s);
    let mut out = String::new();
    let mut i: usize = 0;
    while i < v.len()
        invariant
            v@ == s@,
            i <= v.len(),
            out@ == sanitized(s@.take(i as int)),
        decreases v.len() - i,
    {
        let c: char = v[i];
        if c == '\\' || c == '/' || c == ':' || c == '*' || c == '?' || c == '"' || c == '<' || c
            == '>' || c == '|' || c == '\r' || c == '\n' || c == '\t' {
            out.push('_');
        } else {
            out.push(c);
        }
        i += 1;
        assert(out@ =~= sanitized(s@.take(i as int)));
    }
    assert(s@.take(i as int) =~= s@);
    out
}

/// A sanitized name is as long as the name and holds nothing that cannot stand
/// in a file name.
pub proof fn law_sanitized_is_safe(s: Seq<char>)
    ensures
        sanitized(s).len() == s.len(),
        forall|i: int| 0 <= i < s.len() ==> !is_forbidden(#[trigger] sanitized(s)[i]),
{
}

/// Sanitizing twice is sanitizing once.
pub proof fn law_sanitizing_is_idempotent(s: Seq<char>)
    ensures
        sanitized(sanitized(s)) == sanitized(s),
{
    assert(sanitized(sanitized(s)) =~= sanitized(s));
}

/// The dots that stand for what was cut off: three, or as many as there is room
/// for.
pub open spec fn dots(max: nat) -> Seq<char> {
    seq!['.', '.', '.'].take(
        if max < 3 {
            max as int
        } else {
            3
        },
    )
}

/// `s` where it has at most `max` characters, and otherwise its first
/// characters, without white space at their end, and three dots. Where there is
/// no room for three dots there are only as many as fit.
pub open spec fn truncated(s: Seq<char>, max: nat) -> Seq<char> {
    if s.len() <= max {
        s
    } else {
        let kept: int = if max >= 3 {
            max - 3
        } else {
            0
        };
        trim::trim_end(s.take(kept)) + dots(max)
    }
}

/// `s` cut down to `max_chars` characters.
pub fn truncate_str(s: &str, max_chars: usize) -> (r: String)
    ensures
        r@ == truncated(s@, max_chars as nat),
        r@.len() <= max_chars,
{
    proof {
        law_truncated_fits(s@, max_chars as nat);
    }
    let count: usize = s.unicode_len();
    if count <= max_chars {
        return s.to_owned();
    }
    let budget: usize = if max_chars >= 3 {
        max_chars - 3
    } else {
        0
    };
    let cut = s.substring_char(0, budget);
    assert(cut@ =~= s@.take(budget as int));
    let mut r = trim::trim_text_end(cut);
    let marks: usize = max_chars - budget;
    let ghost front = r@;
    let mut i: usize = 0;
    while i < marks
        invariant
            i <= marks <= 3,
            r@ == front + seq!['.', '.', '.'].take(i as int),
        decreases marks - i,
    {
        r.push('.');
        i += 1;
        assert(r@ =~= front + seq!['.', '.', '.'].take(i as int));
    }
    r
}

/// A name that is cut down has at most as many characters as it was given, and
/// one that has no more than that stays as it is.
pub proof fn law_truncated_fits(s: Seq<char>, max: nat)
    ensures
        truncated(s, max).len() <= max,
        s.len() <= max ==> truncated(s, max) == s,
{
    if s.len() > max {
        let kept: int = if max >= 3 {
            max - 3
        } else {
            0
        };
        trim::lemma_trim_end(s.take(kept));
    }
}

/// Cutting a name down and once more to as many characters changes nothing the
/// second time.
pub proof fn law_truncating_is_idempotent(s: Seq<char>, max: nat)
    ensures
        truncated(truncated(s, max), max) == truncated(s, max),
{
    law_truncated_fits(s, max);
}

/// A cut down name holds nothing that cannot stand in a file name where the
/// name holds nothing of the kind.
pub proof fn law_truncated_stays_safe(s: Seq<char>, max: nat)
    requires
        forall|i: int| 0 <= i < s.len() ==> !is_forbidden(#[trigger] s[i]),
    ensures
        forall|i: int|
            0 <= i < truncated(s, max).len() ==> !is_forbidden(#[trigger] truncated(s, max)[i]),
{
    if s.len() > max {
        let kept: int = if max >= 3 {
            max - 3
        } else {
            0
        };
        let part = s.take(kept);
        trim::lemma_trim_end(part);
        let front = trim::trim_end(part);
        assert forall|i: int| 0 <= i < truncated(s, max).len() implies !is_forbidden(
            #[trigger] truncated(s, max)[i],
        ) by {
            if i < front.len() {
                assert(front[i] == part.take(front.len() as int)[i]);
                assert(truncated(s, max)[i] == s[i]);
            }
        }
    }
}

/// The number in front of a closing bracket, white space around it left out.
pub open spec fn bracketed_uid(part: Seq<char>) -> Option<nat> {
    match search::index_of_char(part, ']') {
        Some(k) => number::unsigned(trim::trim(part.take(k)), u32::MAX as nat),
        None => None,
    }
}

/// The first number in front of a closing bracket in a list of pieces.
pub open spec fn first_bracketed_uid(parts: Seq<Seq<char>>) -> Option<nat>
    decreases parts.len(),
{
    if parts.len() == 0 {
        None
    } else if bracketed_uid(parts[0]) is Some {
        bracketed_uid(parts[0])
    } else {
        first_bracketed_uid(parts.drop_first())
    }
}

/// The message number in a file name: the whole name where that is a number,
/// and otherwise the first number between brackets.
pub open spec fn uid_in(filename: Seq<char>) -> Option<nat> {
    let t = trim::trim(filename);
    if number::unsigned(t, u32::MAX as nat) is Some {
        number::unsigned(t, u32::MAX as nat)
    } else {
        first_bracketed_uid(pieces::split(t, '['))
    }
}

/// The message number in the file name `filename`.
pub fn extract_uid(filename: &str) -> (r: Option<u32>)
    ensures
        match r {
            Some(n) => uid_in(filename@) == Some(n as nat),
            None => uid_in(filename@) is None,
        },
{
    let trimmed = trim::trim_text(filename);
    if let Some(uid) = number::parse_u32(&trimmed) {
        return Some(uid);
    }
    let parts = pieces::split_text(&trimmed, '[');
    let ghost all = chars::texts(parts@);
    let mut i: usize = 0;
    assert(all.skip(0) =~= all);
    while i < parts.len()
        invariant
            all == chars::texts(parts@),
            i <= parts.len(),
            uid_in(filename@) == first_bracketed_uid(all),
            first_bracketed_uid(all) == first_bracketed_uid(all.skip(i as int)),
        decreases parts.len() - i,
    {
        assert(all.skip(i as int)[0] == parts@[i as int]@);
        let v = chars::chars_of(&parts[i]);
        if let Some(k) = search::position_of(&v, ']') {
            let inner: &[char] = &v[0..k];
            assert(inner@ =~= parts@[i as int]@.take(k as int));
            let candidate = trim::trim_text(&chars::text_of(inner));
            if let Some(uid) = number::parse_u32(&candidate) {
                return Some(uid);
            }
        }
        assert(all.skip(i as int).drop_first() =~= all.skip(i + 1));
        i += 1;
    }
    None
}

/// A name that begins with a number in brackets has that number as its message
/// number, whatever stands behind it.
pub proof fn law_leading_uid_is_read(uid: u32, rest: Seq<char>)
    ensures
        uid_in(seq!['['] + number::decimal(uid as nat) + seq![']'] + rest) == Some(uid as nat),
{
    let digits = number::decimal(uid as nat);
    let whole = seq!['['] + digits + seq![']'] + rest;
    let head = digits.len() as int + 2;
    number::lemma_decimal(uid as nat);
    number::lemma_unsigned_decimal(uid as nat, u32::MAX as nat);
    assert(whole[0] == '[');
    assert(whole[head - 1] == ']');
    let name = trim::trim(whole);
    trim::lemma_trim_end_keeps(whole, head);
    trim::lemma_trim_end(whole);
    let kept = whole.take(name.len() as int).skip(head);
    assert(name =~= seq!['['] + digits + seq![']'] + kept);
    assert(number::unsigned(name, u32::MAX as nat) is None) by {
        assert(number::unsigned_digits(name) == name);
        assert(!number::is_digit(name[0]));
    }
    search::lemma_index_of_char_is(name, '[', 0);
    let after = name.skip(1);
    let parts = pieces::split(name, '[');
    assert(parts == seq![name.take(0)] + pieces::split(after, '['));
    assert(bracketed_uid(name.take(0)) is None);
    assert(parts.drop_first() =~= pieces::split(after, '['));
    lemma_bracket_closes(digits, kept, uid);
    assert(after =~= digits + seq![']'] + kept);
}

/// The first piece of `digits`, a closing bracket and `rest` has the number
/// that the digits stand for.
proof fn lemma_bracket_closes(digits: Seq<char>, rest: Seq<char>, uid: u32)
    requires
        number::all_digits(digits),
        number::unsigned(digits, u32::MAX as nat) == Some(uid as nat),
    ensures
        first_bracketed_uid(pieces::split(digits + seq![']'] + rest, '[')) == Some(uid as nat),
{
    let s = digits + seq![']'] + rest;
    let parts = pieces::split(s, '[');
    search::lemma_index_of_char(s, '[');
    assert forall|i: int| 0 <= i < digits.len() implies number::is_digit(#[trigger] s[i]) by {
        assert(s[i] == digits[i]);
    }
    assert(s[digits.len() as int] == ']');
    let first = parts[0];
    let n = digits.len() as int;
    match search::index_of_char(s, '[') {
        Some(k) => {
            assert(k > n) by {
                if k < n {
                    assert(number::is_digit(s[k]));
                }
            }
            assert(first == s.take(k));
        },
        None => {
            assert(first == s);
        },
    }
    assert(first.len() > n);
    assert forall|i: int| 0 <= i <= n implies first[i] == s[i] by {}
    search::lemma_index_of_char_is(first, ']', n);
    assert(first.take(n) =~= digits);
    assert(number::is_digit(digits[0]) && number::is_digit(digits.last()));
    trim::lemma_trim_is_same(digits);
}

/// Backslashes, slashes, colons, asterisks, question marks, double quotes,
/// angle brackets, bars, line ends and tabs become underscores, and every other
/// character stays.
pub proof fn law_what_becomes_an_underscore(s: Seq<char>, i: int)
    requires
        0 <= i < s.len(),
    ensures
        ({
            let c = s[i];
            let forbidden = c == '\\' || c == '/' || c == ':' || c == '*' || c == '?' || c == '"' || c
                == '<' || c == '>' || c == '|' || c == '\r' || c == '\n' || c == '\t';
            &&& forbidden ==> sanitized(s)[i] == '_'
            &&& !forbidden ==> sanitized(s)[i] == c
        }),
{
}

/// A name that is too long keeps its front, without white space at the end of
/// it, and ends with three dots; where there is no room for three dots, it is
/// nothing but dots.
pub proof fn law_long_names_end_with_dots(s: Seq<char>, max: nat)
    requires
        s.len() > max,
    ensures
        max >= 3 ==> truncated(s, max) == trim::trim_end(s.take(max - 3)) + seq!['.', '.', '.'],
        max == 2 ==> truncated(s, max) == seq!['.', '.'],
        max == 1 ==> truncated(s, max) == seq!['.'],
        max == 0 ==> truncated(s, max) == Seq::<char>::empty(),
{
    let three = seq!['.', '.', '.'];
    assert(three.take(3) =~= three);
    assert(three.take(2) =~= seq!['.', '.']);
    assert(three.take(1) =~= seq!['.']);
    assert(three.take(0) =~= seq![]);
    assert(s.take(0) =~= seq![]);
    assert(trim::trim_end(s.take(0)) =~= seq![]);
    assert(truncated(s, max) =~= trim::trim_end(
        s.take(
            if max >= 3 {
                max - 3
            } else {
                0
            },
        ),
    ) + dots(max));
    if max < 3 {
        assert(truncated(s, max) =~= dots(max));
    }
}

/// A number is the message number of the file name that it is.
pub proof fn law_bare_number_is_read(uid: u32)
    ensures
        uid_in(number::decimal(uid as nat)) == Some(uid as nat),
{
    number::lemma_decimal(uid as nat);
    number::lemma_unsigned_decimal(uid as nat, u32::MAX as nat);
    trim::lemma_trim_is_same(number::decimal(uid as nat));
}

/// The first number in brackets is the message number of a file name, whatever
/// stands before it without brackets and whatever stands behind it.
pub proof fn law_bracketed_number_is_read(front: Seq<char>, uid: u32, rest: Seq<char>)
    requires
        front.len() > 0,
        !chars::white_space(front[0]),
        !front.contains('['),
        !front.contains(']'),
    ensures
        uid_in(front + seq!['['] + number::decimal(uid as nat) + seq![']'] + rest) == Some(
            uid as nat,
        ),
{
    let digits = number::decimal(uid as nat);
    let whole = front + seq!['['] + digits + seq![']'] + rest;
    let head = front.len() as int + digits.len() as int + 2;
    number::lemma_decimal(uid as nat);
    number::lemma_unsigned_decimal(uid as nat, u32::MAX as nat);
    assert(whole[0] == front[0]);
    assert(whole[head - 1] == ']');
    let name = trim::trim(whole);
    trim::lemma_trim_end_keeps(whole, head);
    trim::lemma_trim_end(whole);
    let kept = whole.take(name.len() as int).skip(head);
    let after = digits + seq![']'] + kept;
    assert(name =~= front + seq!['['] + after);
    assert(number::unsigned(name, u32::MAX as nat) is None) by {
        let d = number::unsigned_digits(name);
        let k = if name[0] == '+' {
            front.len() - 1
        } else {
            front.len() as int
        };
        assert(d[k] == '[');
        assert(!number::is_digit(d[k]));
    }
    pieces::lemma_split_front(front, '[', after);
    let parts = pieces::split(name, '[');
    assert(parts[0] == front);
    assert(parts.drop_first() =~= pieces::split(after, '['));
    search::lemma_index_of_char(front, ']');
    if let Some(k) = search::index_of_char(front, ']') {
        assert(front.contains(front[k]));
    }
    assert(bracketed_uid(front) is None);
    lemma_bracket_closes(digits, kept, uid);
}

/// A file name without a closing bracket that is no number has no message
/// number.
pub proof fn law_other_names_have_no_number(name: Seq<char>)
    requires
        !name.contains(']'),
        number::unsigned(trim::trim(name), u32::MAX as nat) is None,
    ensures
        uid_in(name) is None,
{
    let t = trim::trim(name);
    let front = trim::trim_start(name);
    trim::lemma_trim_start(name);
    trim::lemma_trim_end(front);
    assert forall|i: int| 0 <= i < t.len() implies t[i] != ']' by {
        assert(t[i] == name[name.len() - front.len() + i]);
        assert(name.contains(name[name.len() - front.len() + i]));
    }
    lemma_no_bracketed_number(t);
}

/// A text without a closing bracket has no number in front of one.
proof fn lemma_no_bracketed_number(s: Seq<char>)
    requires
        !s.contains(']'),
    ensures
        first_bracketed_uid(pieces::split(s, '[')) is None,
    decreases s.len(),
{
    let parts = pieces::split(s, '[');
    search::lemma_index_of_char(s, '[');
    match search::index_of_char(s, '[') {
        Some(k) => {
            let rest = s.skip(k + 1);
            assert forall|i: int| 0 <= i < rest.len() implies rest[i] != ']' by {
                assert(s.contains(s[k + 1 + i]));
            }
            lemma_no_bracketed_number(rest);
            assert(parts.drop_first() =~= pieces::split(rest, '['));
            assert forall|i: int| 0 <= i < k implies s.take(k)[i] != ']' by {
                assert(s.contains(s[i]));
            }
            lemma_no_closing_bracket(s.take(k));
            assert(parts[0] == s.take(k));
        },
        None => {
            assert forall|i: int| 0 <= i < s.len() implies s[i] != ']' by {
                assert(s.contains(s[i]));
            }
            lemma_no_closing_bracket(s);
            assert(parts[0] == s);
            assert(parts.drop_first() =~= seq![]);
            reveal_with_fuel(first_bracketed_uid, 2);
        },
    }
}

/// A piece without a closing bracket has no number in front of it.
proof fn lemma_no_closing_bracket(part: Seq<char>)
    requires
        forall|i: int| 0 <= i < part.len() ==> part[i] != ']',
    ensures
        bracketed_uid(part) is None,
{
    search::lemma_index_of_char(part, ']');
}

} // verus!
