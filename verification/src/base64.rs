//! Base64: six-bit groups, the bytes that they make up, and the two alphabets
//! in which mail writes them.

use vstd::prelude::*;
use crate::error::DecodeError;
use crate::text::{chars, search};

verus! {

/// The six-bit value that `c` stands for in the alphabet whose last character
/// is `last`.
pub open spec fn sextet_of(c: char, last: char) -> Option<u8> {
    if 'A' <= c <= 'Z' {
        Some((c as u32 - 'A' as u32) as u8)
    } else if 'a' <= c <= 'z' {
        Some((c as u32 - 'a' as u32 + 26) as u8)
    } else if '0' <= c <= '9' {
        Some((c as u32 - '0' as u32 + 52) as u8)
    } else if c == '+' {
        Some(62u8)
    } else if c == last {
        Some(63u8)
    } else {
        None
    }
}

/// The character that stands for the six-bit value `v` in the alphabet whose
/// last character is `last`.
pub open spec fn sextet_char(v: u8, last: char) -> char {
    if v < 26 {
        (v + 'A' as u32) as char
    } else if v < 52 {
        (v - 26 + 'a' as u32) as char
    } else if v < 62 {
        (v - 52 + '0' as u32) as char
    } else if v == 62 {
        '+'
    } else {
        last
    }
}

/// The six-bit values that the characters of `s` stand for; characters outside
/// the alphabet stand for nothing.
pub open spec fn sextets_in(s: Seq<char>, last: char) -> Seq<u8>
    decreases s.len(),
{
    if s.len() == 0 {
        seq![]
    } else {
        match sextet_of(s.last(), last) {
            Some(v) => sextets_in(s.drop_last(), last).push(v),
            None => sextets_in(s.drop_last(), last),
        }
    }
}

/// Every element of `v` is a six-bit value.
pub open spec fn six_bit(v: Seq<u8>) -> bool {
    forall|i: int| 0 <= i < v.len() ==> #[trigger] v[i] < 64
}

/// The byte that the bits 8j to 8j + 7 of a row of six-bit values make up.
pub open spec fn octet_at(v: Seq<u8>, j: int) -> u8 {
    let q = j / 3;
    if j % 3 == 0 {
        (v[4 * q] * 4 + v[4 * q + 1] / 16) as u8
    } else if j % 3 == 1 {
        ((v[4 * q + 1] % 16) * 16 + v[4 * q + 2] / 4) as u8
    } else {
        ((v[4 * q + 2] % 4) * 64 + v[4 * q + 3]) as u8
    }
}

/// The whole bytes in a row of six-bit values; bits that fill no byte are
/// dropped.
pub open spec fn octets(v: Seq<u8>) -> Seq<u8> {
    Seq::new((v.len() * 6 / 8) as nat, |j: int| octet_at(v, j))
}

/// The byte at `k`, or zero behind the end.
pub open spec fn octet_or_zero(b: Seq<u8>, k: int) -> u8 {
    if k < b.len() {
        b[k]
    } else {
        0
    }
}

/// The bits 6j to 6j + 5 of a row of bytes, with zeros behind its end.
pub open spec fn sextet_at(b: Seq<u8>, j: int) -> u8 {
    let q = j / 4;
    if j % 4 == 0 {
        octet_or_zero(b, 3 * q) / 4
    } else if j % 4 == 1 {
        ((octet_or_zero(b, 3 * q) % 4) * 16 + octet_or_zero(b, 3 * q + 1) / 16) as u8
    } else if j % 4 == 2 {
        ((octet_or_zero(b, 3 * q + 1) % 16) * 4 + octet_or_zero(b, 3 * q + 2) / 64) as u8
    } else {
        octet_or_zero(b, 3 * q + 2) % 64
    }
}

/// The six-bit values that cover a row of bytes.
pub open spec fn sextets(b: Seq<u8>) -> Seq<u8> {
    Seq::new(((b.len() * 8 + 5) / 6) as nat, |j: int| sextet_at(b, j))
}

/// The base64 form of a row of bytes, without padding.
pub open spec fn encoded(b: Seq<u8>, last: char) -> Seq<char> {
    sextets(b).map_values(|v: u8| sextet_char(v, last))
}

/// What stands before the first equals sign.
pub open spec fn before_padding(s: Seq<char>) -> Seq<char> {
    match search::index_of_char(s, '=') {
        Some(k) => s.take(k),
        None => s,
    }
}

/// The bytes that a base64 text stands for: it ends at the first equals sign,
/// and characters outside the alphabet (white space among them) are skipped.
pub open spec fn b64_bytes(s: Seq<char>) -> Seq<u8> {
    octets(sextets_in(before_padding(s), '/'))
}

/// The values in a text are six-bit values.
pub proof fn lemma_sextets_in_six_bit(s: Seq<char>, last: char)
    ensures
        six_bit(sextets_in(s, last)),
    decreases s.len(),
{
    if s.len() > 0 {
        lemma_sextets_in_six_bit(s.drop_last(), last);
    }
}

/// The bits of bytes are six-bit values.
pub proof fn lemma_sextets_six_bit(b: Seq<u8>)
    ensures
        six_bit(sextets(b)),
{
}

/// Cutting bytes into six-bit values and putting them together again gives the
/// bytes back.
pub proof fn lemma_octets_sextets(b: Seq<u8>)
    ensures
        octets(sextets(b)) == b,
{
    let v = sextets(b);
    assert(octets(v).len() == b.len());
    assert forall|j: int| 0 <= j < b.len() implies octet_at(v, j) == b[j] by {
        let q = j / 3;
        assert(j == 3 * q + j % 3);
        assert(4 * q + 1 < v.len());
        assert(v[4 * q] == sextet_at(b, 4 * q));
        assert(v[4 * q + 1] == sextet_at(b, 4 * q + 1));
        if j % 3 >= 1 {
            assert(4 * q + 2 < v.len());
            assert(v[4 * q + 2] == sextet_at(b, 4 * q + 2));
        }
        if j % 3 == 2 {
            assert(4 * q + 3 < v.len());
            assert(v[4 * q + 3] == sextet_at(b, 4 * q + 3));
        }
    }
    assert(octets(v) =~= b);
}

/// A character of the alphabet stands for the value that it was chosen for.
pub proof fn lemma_sextet_char(v: u8, last: char)
    requires
        v < 64,
        last == '/' || last == ',',
    ensures
        sextet_of(sextet_char(v, last), last) == Some(v),
        sextet_char(v, last) != '=',
        sextet_char(v, last) != '-',
{
}

/// A text written in the alphabet holds the values that it was written from.
pub proof fn lemma_sextets_in_written(v: Seq<u8>, last: char)
    requires
        six_bit(v),
        last == '/' || last == ',',
    ensures
        sextets_in(v.map_values(|x: u8| sextet_char(x, last)), last) == v,
    decreases v.len(),
{
    let text = v.map_values(|x: u8| sextet_char(x, last));
    if v.len() > 0 {
        lemma_sextets_in_written(v.drop_last(), last);
        lemma_sextet_char(v.last(), last);
        assert(text.drop_last() =~= v.drop_last().map_values(|x: u8| sextet_char(x, last)));
        assert(text.last() == sextet_char(v.last(), last));
        assert(v.drop_last().push(v.last()) =~= v);
    } else {
        assert(v =~= seq![]);
    }
}

/// Decoding the base64 form of a row of bytes, whatever padding of equals
/// signs follows it, gives the bytes back.
pub proof fn law_b64_decodes_what_was_encoded(b: Seq<u8>, padding: nat)
    ensures
        b64_bytes(encoded(b, '/') + Seq::new(padding, |i: int| '=')) == b,
{
    let text = encoded(b, '/');
    let pad = Seq::new(padding, |i: int| '=');
    let all = text + pad;
    lemma_sextets_six_bit(b);
    lemma_sextets_in_written(sextets(b), '/');
    lemma_octets_sextets(b);
    assert forall|i: int| 0 <= i < text.len() implies text[i] != '=' by {
        lemma_sextet_char(sextets(b)[i], '/');
    }
    if padding > 0 {
        search::lemma_index_of_char_is(all, '=', text.len() as int);
        assert(all.take(text.len() as int) =~= text);
    } else {
        search::lemma_index_of_char(all, '=');
        assert(all =~= text);
    }
}

/// `s` without the white space in it.
pub open spec fn without_space(s: Seq<char>) -> Seq<char>
    decreases s.len(),
{
    if s.len() == 0 {
        seq![]
    } else if chars::white_space(s.last()) {
        without_space(s.drop_last())
    } else {
        without_space(s.drop_last()).push(s.last())
    }
}

/// What stands before the first equals sign of a text that is one character
/// longer.
proof fn lemma_padding_pushed(s: Seq<char>, c: char)
    ensures
        before_padding(s.push(c)) == if search::index_of_char(s, '=') is Some || c == '=' {
            before_padding(s)
        } else {
            s.push(c)
        },
{
    let t = s.push(c);
    search::lemma_index_of_char(s, '=');
    search::lemma_index_of_char(t, '=');
    match search::index_of_char(s, '=') {
        Some(k) => {
            assert(t[k] == '=');
            search::lemma_index_of_char_is(t, '=', k);
            assert(t.take(k) =~= s.take(k));
        },
        None => {
            if c == '=' {
                assert(t[s.len() as int] == '=');
                search::lemma_index_of_char_is(t, '=', s.len() as int);
                assert(t.take(s.len() as int) =~= s);
            } else if let Some(k) = search::index_of_char(t, '=') {
                assert(t[k] == s[k]);
            }
        },
    }
}

/// White space is left out before the first equals sign as in the whole text.
proof fn lemma_space_before_padding(s: Seq<char>)
    ensures
        before_padding(without_space(s)) == without_space(before_padding(s)),
        search::index_of_char(without_space(s), '=') is Some == search::index_of_char(
            s,
            '=',
        ) is Some,
    decreases s.len(),
{
    search::lemma_index_of_char(s, '=');
    search::lemma_index_of_char(without_space(s), '=');
    if s.len() > 0 {
        let t = s.drop_last();
        let c = s.last();
        let u = without_space(t);
        lemma_space_before_padding(t);
        assert(t.push(c) =~= s);
        lemma_padding_pushed(t, c);
        search::lemma_index_of_char(t, '=');
        search::lemma_index_of_char(u, '=');
        if let Some(k) = search::index_of_char(t, '=') {
            assert(s[k] == '=');
        }
        if let Some(k) = search::index_of_char(s, '=') {
            assert(k < t.len() ==> t[k] == '=');
        }
        if !chars::white_space(c) {
            let w = u.push(c);
            assert(without_space(s) == w);
            lemma_padding_pushed(u, c);
            if let Some(k) = search::index_of_char(u, '=') {
                assert(w[k] == '=');
            }
            if let Some(k) = search::index_of_char(w, '=') {
                assert(k < u.len() ==> u[k] == '=');
            }
            if c == '=' {
                assert(w[u.len() as int] == '=');
                assert(s[t.len() as int] == '=');
            }
        }
    }
}

/// White space stands for nothing.
proof fn lemma_sextets_without_space(s: Seq<char>)
    ensures
        sextets_in(without_space(s), '/') == sextets_in(s, '/'),
    decreases s.len(),
{
    if s.len() > 0 {
        let t = s.drop_last();
        lemma_sextets_without_space(t);
        if !chars::white_space(s.last()) {
            assert(without_space(s).drop_last() =~= without_space(t));
        }
    }
}

/// A base64 text stands for the same bytes whatever white space stands in it.
pub proof fn law_b64_white_space_does_not_count(s: Seq<char>)
    ensures
        b64_bytes(without_space(s)) == b64_bytes(s),
{
    lemma_space_before_padding(s);
    lemma_sextets_without_space(before_padding(s));
}

/// The value that `c` stands for in the alphabet that ends with `last`.
pub fn sextet_value(c: char, last: char) -> (r: Option<u8>)
    ensures
        r == sextet_of(c, last),
{
    let n: u32 = c as u32;
    if 65 <= n && n <= 90 {
        Some((n - 65) as u8)
    } else if 97 <= n && n <= 122 {
        Some((n - 97 + 26) as u8)
    } else if 48 <= n && n <= 57 {
        Some((n - 48 + 52) as u8)
    } else if c == '+' {
        Some(62)
    } else if c == last {
        Some(63)
    } else {
        None
    }
}

/// The character that stands for `v` in the alphabet that ends with `last`.
pub fn char_for_sextet(v: u8, last: char) -> (c: char)
    requires
        v < 64,
    ensures
        c == sextet_char(v, last),
{
    if v < 26 {
        (v + 65) as char
    } else if v < 52 {
        (v - 26 + 97) as char
    } else if v < 62 {
        (v - 52 + 48) as char
    } else if v == 62 {
        '+'
    } else {
        last
    }
}

/// The six-bit values that the characters of `s` stand for.
pub fn read_sextets(s: &[char], last: char) -> (r: Vec<u8>)
    ensures
        r@ == sextets_in(s@, last),
        six_bit(r@),
{
    let mut out: Vec<u8> = Vec::new();
    let mut i: usize = 0;
    assert(s@.take(0) =~= seq![]);
    while i < s.len()
        invariant
            i <= s.len(),
            out@ == sextets_in(s@.take(i as int), last),
        decreases s.len() - i,
    {
        assert(s@.take(i + 1).drop_last() =~= s@.take(i as int));
        assert(s@.take(i + 1).last() == s@[i as int]);
        match sextet_value(s[i], last) {
            Some(v) => out.push(v),
            None => {},
        }
        i += 1;
    }
    assert(s@.take(s@.len() as int) =~= s@);
    proof {
        lemma_sextets_in_six_bit(s@, last);
    }
    out
}

/// The whole bytes in a row of six-bit values.
pub fn bytes_of_sextets(v: &Vec<u8>) -> (r: Vec<u8>)
    requires
        six_bit(v@),
    ensures
        r@ == octets(v@),
{
    let mut out: Vec<u8> = Vec::new();
    let mut q: usize = 0;
    while q < v.len()
        invariant
            six_bit(v@),
            q <= v.len() + 3,
            q % 4 == 0,
            out.len() == if q <= v.len() {
                (q / 4) * 3
            } else {
                v.len() * 6 / 8
            },
            forall|j: int| 0 <= j < out.len() ==> out@[j] == octet_at(v@, j),
        decreases v.len() + 3 - q,
    {
        assert(v@[q as int] < 64);
        if v.len() - q >= 2 {
            assert(v@[q + 1] < 64);
            out.push(v[q] * 4 + v[q + 1] / 16);
        }
        if v.len() - q >= 3 {
            assert(v@[q + 2] < 64);
            out.push((v[q + 1] % 16) * 16 + v[q + 2] / 4);
        }
        if v.len() - q >= 4 {
            assert(v@[q + 3] < 64);
            out.push((v[q + 2] % 4) * 64 + v[q + 3]);
        }
        if v.len() - q < 4 {
            assert(out@ =~= octets(v@));
            return out;
        }
        q += 4;
    }
    assert(out@ =~= octets(v@));
    out
}

/// The six-bit values that cover a row of bytes.
pub fn sextets_of_bytes(b: &Vec<u8>) -> (r: Vec<u8>)
    ensures
        r@ == sextets(b@),
{
    let mut out: Vec<u8> = Vec::new();
    let mut q: usize = 0;
    while q < b.len()
        invariant
            q <= b.len(),
            q % 3 == 0 || q == b.len(),
            out.len() == (q * 8 + 5) / 6,
            forall|k: int| 0 <= k < out.len() ==> out@[k] == sextet_at(b@, k),
        decreases b.len() - q,
    {
        let rem: usize = b.len() - q;
        let b0: u8 = b[q];
        let b1: u8 = if rem >= 2 {
            b[q + 1]
        } else {
            0
        };
        let b2: u8 = if rem >= 3 {
            b[q + 2]
        } else {
            0
        };
        out.push(b0 / 4);
        out.push((b0 % 4) * 16 + b1 / 16);
        if rem >= 2 {
            out.push((b1 % 16) * 4 + b2 / 64);
        }
        if rem >= 3 {
            out.push(b2 % 64);
            q += 3;
        } else {
            q = b.len();
        }
    }
    assert(out@ =~= sextets(b@));
    out
}

/// The bytes that a base64 text stands for. Every text stands for some bytes:
/// the call never fails.
pub fn decode_b64(s: &str) -> (r: Result<Vec<u8>, DecodeError>)
    ensures
        r matches Ok(bytes) && bytes@ == b64_bytes(s@),
{
    let v = chars::chars_of(s);
    let end: usize = match search::position_of(&v, '=') {
        Some(k) => k,
        None => v.len(),
    };
    let part: &[char] = &v[0..end];
    assert(part@ =~= before_padding(s@));
    let values = read_sextets(part, '/');
    Ok(bytes_of_sextets(&values))
}

} // verus!
