//! Encoded words in mail headers: `=?charset?encoding?text?=`, and the same
//! with underscores in place of the question marks, as file names have it.

use vstd::prelude::*;
use vstd::utf8::*;
use crate::base64;
use crate::charset;
use crate::error::DecodeError;
use crate::text::{chars, search, trim, unicode};

verus! {

/// The number that a hexadecimal digit stands for.
pub open spec fn hex_value(b: u8) -> Option<u8> {
    if '0' as u8 <= b <= '9' as u8 {
        Some((b - '0' as u8) as u8)
    } else if 'a' as u8 <= b <= 'f' as u8 {
        Some((b - 'a' as u8 + 10) as u8)
    } else if 'A' as u8 <= b <= 'F' as u8 {
        Some((b - 'A' as u8 + 10) as u8)
    } else {
        None
    }
}

/// The byte that two characters stand for: two hexadecimal digits, or a plus
/// sign and one.
pub open spec fn hex_pair(a: u8, b: u8) -> Option<u8> {
    if a == '+' as u8 {
        hex_value(b)
    } else {
        match (hex_value(a), hex_value(b)) {
            (Some(x), Some(y)) => Some((x * 16 + y) as u8),
            _ => None,
        }
    }
}

/// `b` in front of `rest`, where there is one.
pub open spec fn after_byte(b: u8, rest: Result<Seq<u8>, DecodeError>) -> Result<
    Seq<u8>,
    DecodeError,
> {
    match rest {
        Ok(r) => Ok(seq![b] + r),
        Err(e) => Err(e),
    }
}

/// The bytes that a text in the Q encoding stands for: `=` and two hexadecimal
/// digits are a byte, an underscore is a space, and anything else is itself.
/// An equals sign must not be followed by two bytes that are no text.
pub open spec fn qp(s: Seq<u8>) -> Result<Seq<u8>, DecodeError>
    decreases s.len(),
{
    if s.len() == 0 {
        Ok(seq![])
    } else if s[0] == '=' as u8 && s.len() > 2 {
        if !valid_utf8(seq![s[1], s[2]]) {
            Err(DecodeError::Escape)
        } else {
            match hex_pair(s[1], s[2]) {
                Some(v) => after_byte(v, qp(s.skip(3))),
                None => after_byte('=' as u8, qp(s.drop_first())),
            }
        }
    } else if s[0] == '_' as u8 {
        after_byte(' ' as u8, qp(s.drop_first()))
    } else {
        after_byte(s[0], qp(s.drop_first()))
    }
}

/// Two bytes are text where both are ASCII, or where they are one character.
pub proof fn lemma_two_bytes_valid(a: u8, b: u8)
    ensures
        valid_utf8(seq![a, b]) == (a < 0x80 && b < 0x80 || 0xc2 <= a <= 0xdf && 0x80 <= b <= 0xbf),
{
    let s = seq![a, b];
    reveal_with_fuel(valid_utf8, 3);
    if is_leading_byte_width_1(a) {
        assert(pop_first_scalar(s) =~= seq![b]);
        if b < 0x80 {
            assert(pop_first_scalar(seq![b]) =~= seq![]);
        }
    } else if is_leading_byte_width_2(a) && is_continuation_byte(b) {
        assert(pop_first_scalar(s) =~= seq![]);
        assert(0xc0 <= a <= 0xdf && 0x80 <= b <= 0xbf ==> ((((a & 0x1F) as u32) << 6) | ((b
            & 0x3F) as u32) >= 0x80 <==> a >= 0xc2)) by (bit_vector);
        assert(0xc0 <= a <= 0xdf && 0x80 <= b <= 0xbf ==> (((a & 0x1F) as u32) << 6) | ((b
            & 0x3F) as u32) <= 0x7ff) by (bit_vector);
    }
}

/// The number that the hexadecimal digit `b` stands for.
fn hex_digit(b: u8) -> (r: Option<u8>)
    ensures
        r == hex_value(b),
{
    if 48 <= b && b <= 57 {
        Some(b - 48)
    } else if 97 <= b && b <= 102 {
        Some(b - 87)
    } else if 65 <= b && b <= 70 {
        Some(b - 55)
    } else {
        None
    }
}

/// The byte that `a` and `b` stand for.
fn hex_byte(a: u8, b: u8) -> (r: Option<u8>)
    ensures
        r == hex_pair(a, b),
{
    if a == 43 {
        return hex_digit(b);
    }
    match (hex_digit(a), hex_digit(b)) {
        (Some(x), Some(y)) => Some(x * 16 + y),
        _ => None,
    }
}

/// The bytes that the text `s` in the Q encoding stands for.
pub fn decode_qp(s: &str) -> (r: Result<Vec<u8>, DecodeError>)
    ensures
        match r {
            Ok(b) => qp(encode_utf8(s@)) == Ok::<Seq<u8>, DecodeError>(b@),
            Err(e) => qp(encode_utf8(s@)) == Err::<Seq<u8>, DecodeError>(e),
        },
{
    let bytes = s.as_bytes();
    let ghost all = qp(bytes@);
    let mut out: Vec<u8> = Vec::new();
    let mut i: usize = 0;
    assert(bytes@.skip(0) =~= bytes@);
    while i < bytes.len()
        invariant
            bytes@ == encode_utf8(s@),
            all == qp(bytes@),
            i <= bytes.len(),
            match qp(bytes@.skip(i as int)) {
                Ok(rest) => all == Ok::<Seq<u8>, DecodeError>(out@ + rest),
                Err(e) => all == Err::<Seq<u8>, DecodeError>(e),
            },
        decreases bytes.len() - i,
    {
        let ghost rest = bytes@.skip(i as int);
        let ghost before = out@;
        if bytes[i] == 61 && bytes.len() - i > 2 {
            let a: u8 = bytes[i + 1];
            let b: u8 = bytes[i + 2];
            proof {
                lemma_two_bytes_valid(a, b);
            }
            if !((a < 0x80 && b < 0x80) || (0xc2 <= a && a <= 0xdf && 0x80 <= b && b <= 0xbf)) {
                return Err(DecodeError::Escape);
            }
            match hex_byte(a, b) {
                Some(v) => {
                    out.push(v);
                    i += 3;
                    assert(rest.skip(3) =~= bytes@.skip(i as int));
                },
                None => {
                    out.push(61);
                    i += 1;
                    assert(rest.drop_first() =~= bytes@.skip(i as int));
                },
            }
        } else if bytes[i] == 95 {
            out.push(32);
            i += 1;
            assert(rest.drop_first() =~= bytes@.skip(i as int));
        } else {
            out.push(bytes[i]);
            i += 1;
            assert(rest.drop_first() =~= bytes@.skip(i as int));
        }
        proof {
            let v = out@.last();
            match qp(bytes@.skip(i as int)) {
                Ok(r) => {
                    assert(before + (seq![v] + r) =~= out@ + r);
                },
                Err(_) => {},
            }
        }
    }
    assert(bytes@.skip(i as int) =~= seq![]);
    assert(out@ + seq![] =~= out@);
    Ok(out)
}

/// The three fields of an encoded word: the word without its opening and
/// closing marks, cut at the first two delimiters.
pub open spec fn word_fields(word: Seq<char>, delim: char) -> Option<
    (Seq<char>, Seq<char>, Seq<char>),
> {
    let inner = trim::trim_end_text(
        trim::trim_start_text(word, seq!['=', delim]),
        seq![delim, '='],
    );
    match search::index_of_char(inner, delim) {
        None => None,
        Some(i) => {
            let tail = inner.skip(i + 1);
            match search::index_of_char(tail, delim) {
                None => None,
                Some(j) => Some((inner.take(i), tail.take(j), tail.skip(j + 1))),
            }
        },
    }
}

/// The bytes that the text of an encoded word stands for. `encoding` is in
/// upper case.
pub open spec fn word_bytes(encoding: Seq<char>, text: Seq<char>) -> Result<Seq<u8>, DecodeError> {
    if encoding == seq!['B'] {
        Ok(base64::b64_bytes(text))
    } else if encoding == seq!['Q'] {
        qp(encode_utf8(text))
    } else {
        Err(DecodeError::Encoding)
    }
}

/// The text that an encoded word with the given fields stands for. `charset`
/// is in lower case and `encoding` in upper case.
pub open spec fn fields_text(
    charset: Seq<char>,
    encoding: Seq<char>,
    text: Seq<char>,
) -> Result<Seq<char>, DecodeError> {
    let set = charset::charset_of(charset);
    match word_bytes(encoding, text) {
        Err(e) => Err(e),
        Ok(b) => if !charset::is_decodable(set, b) {
            Err(DecodeError::TooLong)
        } else {
            Ok(charset::charset_text(set, b))
        },
    }
}

/// The text that an encoded word stands for.
pub open spec fn word_text(word: Seq<char>, delim: char) -> Result<Seq<char>, DecodeError> {
    match word_fields(word, delim) {
        None => Err(DecodeError::Syntax),
        Some((c, e, t)) => fields_text(unicode::lower(c), unicode::upper(e), t),
    }
}

/// The text that the fields of an encoded word stand for, `charset` in lower
/// case and `encoding` in upper case.
pub fn decode_fields(charset: &str, encoding: &str, text: &str) -> (r: Result<String, DecodeError>)
    ensures
        match r {
            Ok(t) => fields_text(charset@, encoding@, text@) == Ok::<Seq<char>, DecodeError>(t@),
            Err(e) => fields_text(charset@, encoding@, text@) == Err::<Seq<char>, DecodeError>(e),
        },
{
    proof {
        reveal_strlit("B");
        reveal_strlit("Q");
        assert("B"@ =~= seq!['B']);
        assert("Q"@ =~= seq!['Q']);
    }
    let bytes = if chars::same_text(encoding, "B") {
        base64::decode_b64(text)
    } else if chars::same_text(encoding, "Q") {
        decode_qp(text)
    } else {
        Err(DecodeError::Encoding)
    };
    match bytes {
        Err(e) => Err(e),
        Ok(b) => match charset::decode_charset(charset::charset_named(charset), &b) {
            Some(t) => Ok(t),
            None => Err(DecodeError::TooLong),
        },
    }
}

/// The text that the encoded word `encoded` stands for.
pub fn decode_single_rfc2047(encoded: &str, delim: char) -> (r: Result<String, DecodeError>)
    ensures
        match r {
            Ok(t) => word_text(encoded@, delim) == Ok::<Seq<char>, DecodeError>(t@),
            Err(e) => word_text(encoded@, delim) == Err::<Seq<char>, DecodeError>(e),
        },
{
    let mut opening = String::new();
    opening.push('=');
    opening.push(delim);
    let mut closing = String::new();
    closing.push(delim);
    closing.push('=');
    assert(opening@ =~= seq!['=', delim]);
    assert(closing@ =~= seq![delim, '=']);
    let front = trim::strip_marks_front(encoded, &opening);
    let inner = trim::strip_marks_back(&front, &closing);
    let v = chars::chars_of(&inner);
    match search::position_of(&v, delim) {
        None => Err(DecodeError::Syntax),
        Some(i) => {
            let tail: &[char] = &v[i + 1..v.len()];
            assert(tail@ =~= inner@.skip(i + 1));
            match search::position_of(tail, delim) {
                None => Err(DecodeError::Syntax),
                Some(j) => {
                    let c: &[char] = &v[0..i];
                    let e: &[char] = &tail[0..j];
                    let t: &[char] = &tail[j + 1..tail.len()];
                    assert(c@ =~= inner@.take(i as int));
                    assert(e@ =~= tail@.take(j as int));
                    assert(t@ =~= tail@.skip(j + 1));
                    let charset = unicode::lower_text(&chars::text_of(c));
                    let encoding = unicode::upper_text(&chars::text_of(e));
                    decode_fields(&charset, &encoding, &chars::text_of(t))
                },
            }
        },
    }
}

/// Where an encoded word ends, looked for from position `j` on with `seen`
/// delimiters passed: behind the first delimiter that an equals sign follows
/// and that two delimiters precede.
pub open spec fn word_end(s: Seq<char>, delim: char, j: int, seen: nat) -> Option<int>
    decreases s.len() - j,
{
    if j < 0 || j >= s.len() {
        None
    } else if s[j] != delim {
        word_end(s, delim, j + 1, seen)
    } else if j + 1 < s.len() && s[j + 1] == '=' && seen >= 2 {
        Some(j + 2)
    } else {
        word_end(s, delim, j + 1, seen + 1)
    }
}

/// The encoded word at the front of `s`, where one stands there that can be
/// decoded: its length and its text.
pub open spec fn leading_word(s: Seq<char>) -> Option<(int, Seq<char>)> {
    if s.len() > 1 && s[0] == '=' && (s[1] == '?' || s[1] == '_') {
        match word_end(s, s[1], 2, 0) {
            None => None,
            Some(n) => match word_text(s.take(n), s[1]) {
                Ok(t) => Some((n, t)),
                Err(_) => None,
            },
        }
    } else {
        None
    }
}

/// `s` with each encoded word in it, from the left, replaced by its text.
pub open spec fn decode_words(s: Seq<char>) -> Seq<char>
    decreases s.len(),
    via decode_words_decreases
{
    if s.len() == 0 {
        seq![]
    } else {
        match leading_word(s) {
            Some((n, t)) => t + decode_words(s.skip(n)),
            None => seq![s[0]] + decode_words(s.drop_first()),
        }
    }
}

#[via_fn]
proof fn decode_words_decreases(s: Seq<char>) {
    if s.len() > 1 {
        lemma_word_end(s, s[1], 2, 0);
    }
}

/// A word ends inside the text.
proof fn lemma_word_end(s: Seq<char>, delim: char, j: int, seen: nat)
    requires
        0 <= j,
    ensures
        match word_end(s, delim, j, seen) {
            Some(n) => j + 2 <= n <= s.len(),
            None => true,
        },
    decreases s.len() - j,
{
    if j < s.len() {
        if s[j] != delim {
            lemma_word_end(s, delim, j + 1, seen);
        } else if !(j + 1 < s.len() && s[j + 1] == '=' && seen >= 2) {
            lemma_word_end(s, delim, j + 1, seen + 1);
        }
    }
}

/// The readable form of a header text: its encoded words decoded, or the text
/// as it stands where nothing would be left of it.
pub open spec fn header_text(s: Seq<char>) -> Seq<char> {
    if decode_words(s).len() == 0 {
        s
    } else {
        decode_words(s)
    }
}

/// Where the encoded word that begins at `start` ends.
fn find_word_end(s: &[char], start: usize, delim: char) -> (r: Option<usize>)
    requires
        start + 2 <= s.len(),
    ensures
        match r {
            Some(n) => word_end(s@.skip(start as int), delim, 2, 0) == Some(n - start) && start + 2
                <= n <= s.len(),
            None => word_end(s@.skip(start as int), delim, 2, 0) is None,
        },
{
    let ghost rest = s@.skip(start as int);
    let mut seen: usize = 0;
    let mut j: usize = start + 2;
    while j < s.len()
        invariant
            start + 2 <= j <= s.len(),
            rest == s@.skip(start as int),
            seen <= j - start,
            word_end(rest, delim, 2, 0) == word_end(rest, delim, j - start, seen as nat),
        decreases s.len() - j,
    {
        if s[j] == delim {
            if j + 1 < s.len() && s[j + 1] == '=' && seen >= 2 {
                return Some(j + 2);
            }
            seen += 1;
        }
        j += 1;
    }
    None
}

/// `text` with its encoded words decoded.
pub fn scan_and_decode_rfc2047(text: &str) -> (r: String)
    ensures
        r@ == header_text(text@),
{
    let v = chars::chars_of(text);
    let ghost s = text@;
    let mut out = String::new();
    let mut i: usize = 0;
    assert(s.skip(0) =~= s);
    assert(out@ + decode_words(s) =~= decode_words(s));
    while i < v.len()
        invariant
            v@ == s,
            s == text@,
            i <= v.len(),
            out@ + decode_words(s.skip(i as int)) == decode_words(s),
        decreases v.len() - i,
    {
        let ghost rest = s.skip(i as int);
        let ghost before = out@;
        let mut next: usize = i;
        if v[i] == '=' && v.len() - i > 1 && (v[i + 1] == '?' || v[i + 1] == '_') {
            let delim: char = v[i + 1];
            if let Some(end) = find_word_end(&v, i, delim) {
                let part: &[char] = &v[i..end];
                assert(part@ =~= rest.take(end - i));
                let word = chars::text_of(part);
                if let Ok(t) = decode_single_rfc2047(&word, delim) {
                    out.append(&t);
                    next = end;
                }
            }
        }
        if next == i {
            assert(leading_word(rest) is None);
            out.push(v[i]);
            i += 1;
            assert(rest.drop_first() =~= s.skip(i as int));
            assert(before + (seq![rest[0]] + decode_words(s.skip(i as int))) =~= out@
                + decode_words(s.skip(i as int)));
        } else {
            assert(rest.skip(next - i) =~= s.skip(next as int));
            proof {
                let (_, t) = leading_word(rest)->0;
                assert(out@ + decode_words(s.skip(next as int)) =~= before + (t + decode_words(
                    s.skip(next as int),
                )));
            }
            i = next;
        }
    }
    assert(s.skip(i as int) =~= seq![]);
    assert(out@ + decode_words(seq![]) =~= out@);
    if out.as_str().unicode_len() == 0 {
        text.to_owned()
    } else {
        out
    }
}

/// The readable form of the header bytes `raw`.
pub fn decode_mime_header(raw: &[u8]) -> (r: String)
    ensures
        r@ == header_text(unicode::utf8_text(raw@)),
{
    let s = unicode::text_of_bytes(raw);
    scan_and_decode_rfc2047(&s)
}

/// A text that opens no encoded word is its own readable form.
pub proof fn law_plain_text_is_kept(s: Seq<char>)
    requires
        forall|i: int|
            0 <= i < s.len() - 1 ==> !(#[trigger] s[i] == '=' && (s[i + 1] == '?' || s[i + 1]
                == '_')),
    ensures
        header_text(s) == s,
    decreases s.len(),
{
    if s.len() > 0 {
        let rest = s.drop_first();
        assert(leading_word(s) is None);
        assert forall|i: int| 0 <= i < rest.len() - 1 implies !(#[trigger] rest[i] == '=' && (rest[i
            + 1] == '?' || rest[i + 1] == '_')) by {
            assert(s[i + 1] == rest[i]);
        }
        law_plain_text_is_kept(rest);
        assert(seq![s[0]] + rest =~= s);
    }
}

/// The readable form of a text is empty for the empty text only.
pub proof fn law_readable_form_is_not_empty(s: Seq<char>)
    ensures
        header_text(s).len() == 0 <==> s.len() == 0,
{
}

/// The encoded word that carries `t` in UTF-8 and base64, with `padding`
/// equals signs behind the base64 digits.
pub open spec fn base64_word(t: Seq<char>, padding: nat) -> Seq<char> {
    "=?UTF-8?B?"@ + base64::encoded(encode_utf8(t), '/') + Seq::new(padding, |i: int| '=')
        + seq!['?', '=']
}

/// A closing mark is found behind two delimiters and a stretch without any.
proof fn lemma_word_end_after(s: Seq<char>, delim: char, j: int, end: int)
    requires
        0 <= j <= end,
        end + 1 < s.len(),
        s[end] == delim,
        s[end + 1] == '=',
        forall|i: int| j <= i < end ==> s[i] != delim,
    ensures
        word_end(s, delim, j, 2) == Some(end + 2),
    decreases end - j,
{
    if j < end {
        lemma_word_end_after(s, delim, j + 1, end);
    }
}

/// Where the word `=?UTF-8?B?text?=` ends, and what its fields are, for a text
/// without question marks and of two characters or more.
proof fn lemma_word_around(text: Seq<char>)
    requires
        text.len() >= 2,
        forall|i: int| 0 <= i < text.len() ==> text[i] != '?',
    ensures
        word_end("=?UTF-8?B?"@ + text + seq!['?', '='], '?', 2, 0) == Some(
            (text.len() + 12) as int,
        ),
        word_fields("=?UTF-8?B?"@ + text + seq!['?', '='], '?') == Some(
            (seq!['U', 'T', 'F', '-', '8'], seq!['B'], text),
        ),
{
    reveal_strlit("=?UTF-8?B?");
    let w = "=?UTF-8?B?"@ + text + seq!['?', '='];
    let end = text.len() as int + 10;
    assert forall|i: int| 10 <= i < end implies w[i] != '?' by {
        assert(w[i] == text[i - 10]);
    }
    assert(word_end(w, '?', 2, 0) == Some(end + 2)) by {
        lemma_word_end_after(w, '?', 10, end);
        assert(w[9] == '?' && w[7] == '?');
        assert(word_end(w, '?', 9, 1) == word_end(w, '?', 10, 2));
        assert(word_end(w, '?', 8, 1) == word_end(w, '?', 9, 1));
        assert(word_end(w, '?', 7, 0) == word_end(w, '?', 8, 1));
        assert(word_end(w, '?', 6, 0) == word_end(w, '?', 7, 0));
        assert(word_end(w, '?', 5, 0) == word_end(w, '?', 6, 0));
        assert(word_end(w, '?', 4, 0) == word_end(w, '?', 5, 0));
        assert(word_end(w, '?', 3, 0) == word_end(w, '?', 4, 0));
    }
    let a = w.skip(2);
    let inner = seq!['U', 'T', 'F', '-', '8', '?', 'B', '?'] + text;
    assert(trim::trim_start_text(w, seq!['=', '?']) == a) by {
        reveal_with_fuel(trim::trim_start_text, 2);
        assert(w.take(2) =~= seq!['=', '?']);
        assert(a.take(2)[0] == 'U');
    }
    assert(trim::trim_end_text(a, seq!['?', '=']) == inner) by {
        reveal_with_fuel(trim::trim_end_text, 2);
        assert(a.skip(a.len() - 2) =~= seq!['?', '=']);
        assert(a.take(a.len() - 2) =~= inner);
        let last = inner.skip(inner.len() - 2);
        assert(last[0] == text[text.len() - 2]);
    }
    search::lemma_index_of_char_is(inner, '?', 5);
    let tail = inner.skip(6);
    assert(tail[0] == 'B' && tail[1] == '?');
    search::lemma_index_of_char_is(tail, '?', 1);
    assert(inner.take(5) =~= seq!['U', 'T', 'F', '-', '8']);
    assert(tail.take(1) =~= seq!['B']);
    assert(tail.skip(2) =~= text);
}

/// `UTF-8` and `B` name what they should.
proof fn lemma_utf8_and_b()
    ensures
        charset::charset_of(unicode::lower(seq!['U', 'T', 'F', '-', '8'])) is Utf8,
        unicode::upper(seq!['B']) == seq!['B'],
{
    reveal_strlit("utf-8");
    let name = seq!['U', 'T', 'F', '-', '8'];
    assert(is_ascii_chars(name));
    assert(is_ascii_chars(seq!['B']));
    assert(unicode::lower(name) =~= "utf-8"@);
    assert(unicode::upper(seq!['B']) =~= seq!['B']);
    assert("utf-8"@.subrange(0, 5) =~= "utf-8"@);
}

/// A text that is carried by an encoded word in UTF-8 and base64 is the
/// readable form of that word.
pub proof fn law_base64_word_gives_the_text_back(t: Seq<char>, padding: nat)
    requires
        t.len() > 0,
    ensures
        header_text(base64_word(t, padding)) == t,
{
    let digits = base64::encoded(encode_utf8(t), '/');
    let text = digits + Seq::new(padding, |i: int| '=');
    let w = base64_word(t, padding);
    assert(w =~= "=?UTF-8?B?"@ + text + seq!['?', '=']);
    reveal_strlit("=?UTF-8?B?");
    base64::lemma_sextets_six_bit(encode_utf8(t));
    assert forall|i: int| 0 <= i < text.len() implies text[i] != '?' by {
        if i < digits.len() {
            base64::lemma_sextet_char(base64::sextets(encode_utf8(t))[i], '/');
        }
    }
    assert(encode_utf8(t).len() > 0);
    lemma_word_around(text);
    lemma_utf8_and_b();
    base64::law_b64_decodes_what_was_encoded(encode_utf8(t), padding);
    unicode::lemma_utf8_text(t);
    assert(word_text(w, '?') == Ok::<Seq<char>, DecodeError>(t));
    assert(w.take(w.len() as int) =~= w);
    assert(w.skip(w.len() as int) =~= seq![]);
    assert(t + decode_words(seq![]) =~= t);
}

} // verus!
