//! The modified UTF-7 in which IMAP names its mailboxes.

use vstd::prelude::*;
use crate::base64;
use crate::error::DecodeError;
use crate::text::{chars, search};
use crate::utf16;

verus! {

/// `c` stands for itself: it is printable ASCII other than the ampersand.
pub open spec fn is_direct(c: char) -> bool {
    ' ' <= c <= '~' && c != '&'
}

/// `c` is written in base64: it is neither direct nor the ampersand.
pub open spec fn is_shifted(c: char) -> bool {
    !is_direct(c) && c != '&'
}

/// The number of characters at the front of `s` that are written in base64.
pub open spec fn shifted_run(s: Seq<char>) -> nat
    decreases s.len(),
{
    if s.len() > 0 && is_shifted(s[0]) {
        1 + shifted_run(s.drop_first())
    } else {
        0
    }
}

/// The base64 form of a row of UTF-16 code units.
pub open spec fn units_b64(u: Seq<u16>) -> Seq<char> {
    base64::encoded(utf16::units_bytes(u), ',')
}

/// The modified UTF-7 form of a text: direct characters stand for themselves,
/// the ampersand is written `&-`, and each longest run of other characters is
/// written as `&`, the base64 form of its UTF-16 code units, and `-`.
pub open spec fn encode(s: Seq<char>) -> Seq<char>
    decreases s.len(),
    via encode_decreases
{
    if s.len() == 0 {
        seq![]
    } else if is_direct(s[0]) {
        seq![s[0]] + encode(s.drop_first())
    } else if s[0] == '&' {
        seq!['&', '-'] + encode(s.drop_first())
    } else {
        let k = shifted_run(s) as int;
        seq!['&'] + units_b64(utf16::units(s.take(k))) + seq!['-'] + encode(s.skip(k))
    }
}

#[via_fn]
proof fn encode_decreases(s: Seq<char>) {
    lemma_shifted_run(s);
}

/// The bytes that the base64 between `&` and `-` stands for.
pub open spec fn shifted_bytes(s: Seq<char>) -> Seq<u8> {
    base64::octets(base64::sextets_in(s, ','))
}

/// The text that the base64 between `&` and `-` stands for, or why there is
/// none.
pub open spec fn shifted_text(s: Seq<char>) -> Result<Seq<char>, DecodeError> {
    let b = shifted_bytes(s);
    if b.len() % 2 != 0 {
        Err(DecodeError::OddLength)
    } else {
        match utf16::text(utf16::bytes_units(b)) {
            Some(t) => Ok(t),
            None => Err(DecodeError::Surrogate),
        }
    }
}

/// What `&`, `inner`, `-` stands for: an ampersand when `inner` is empty, and
/// itself when `inner` cannot be decoded.
pub open spec fn shifted_piece(inner: Seq<char>) -> Seq<char> {
    if inner.len() == 0 {
        seq!['&']
    } else {
        match shifted_text(inner) {
            Ok(t) => t,
            Err(_) => seq!['&'] + inner + seq!['-'],
        }
    }
}

/// The text that a modified UTF-7 text stands for. An ampersand with no hyphen
/// behind it stands for itself.
pub open spec fn decode(s: Seq<char>) -> Seq<char>
    decreases s.len(),
    via decode_decreases
{
    if s.len() == 0 {
        seq![]
    } else if s[0] == '&' {
        match search::index_of_char(s.drop_first(), '-') {
            Some(p) => shifted_piece(s.drop_first().take(p)) + decode(s.skip(p + 2)),
            None => seq!['&'] + decode(s.drop_first()),
        }
    } else {
        seq![s[0]] + decode(s.drop_first())
    }
}

#[via_fn]
proof fn decode_decreases(s: Seq<char>) {
    if s.len() > 0 {
        search::lemma_index_of_char(s.drop_first(), '-');
    }
}

/// A run of characters written in base64 lies inside the text and is as long
/// as can be.
proof fn lemma_shifted_run(s: Seq<char>)
    ensures
        shifted_run(s) <= s.len(),
        s.len() > 0 && is_shifted(s[0]) ==> shifted_run(s) > 0,
    decreases s.len(),
{
    if s.len() > 0 && is_shifted(s[0]) {
        lemma_shifted_run(s.drop_first());
    }
}

/// The base64 form of a text's code units stands for the text.
proof fn lemma_shifted_text(t: Seq<char>)
    ensures
        shifted_text(units_b64(utf16::units(t))) == Ok::<Seq<char>, DecodeError>(t),
{
    let u = utf16::units(t);
    let b = utf16::units_bytes(u);
    base64::lemma_sextets_six_bit(b);
    base64::lemma_sextets_in_written(base64::sextets(b), ',');
    base64::lemma_octets_sextets(b);
    utf16::lemma_bytes_units(u);
    utf16::lemma_text_units(t);
}

/// The base64 form of code units has no hyphen, and is empty for none only.
proof fn lemma_units_b64(u: Seq<u16>)
    ensures
        forall|i: int| 0 <= i < units_b64(u).len() ==> units_b64(u)[i] != '-',
        forall|i: int| 0 <= i < units_b64(u).len() ==> is_direct(#[trigger] units_b64(u)[i]),
        u.len() > 0 ==> units_b64(u).len() > 0,
{
    let b = utf16::units_bytes(u);
    base64::lemma_sextets_six_bit(b);
    assert forall|i: int| 0 <= i < units_b64(u).len() implies units_b64(u)[i] != '-' && is_direct(
        #[trigger] units_b64(u)[i],
    ) by {
        base64::lemma_sextet_char(base64::sextets(b)[i], ',');
    }
}

/// What an ampersand, characters other than hyphens, and a hyphen stand for
/// stands in front of what follows them.
proof fn lemma_decode_piece(inner: Seq<char>, rest: Seq<char>)
    requires
        forall|i: int| 0 <= i < inner.len() ==> inner[i] != '-',
    ensures
        decode(seq!['&'] + inner + seq!['-'] + rest) == shifted_piece(inner) + decode(rest),
{
    let e = seq!['&'] + inner + seq!['-'] + rest;
    let tail = e.drop_first();
    let n = inner.len() as int;
    assert(tail =~= inner + seq!['-'] + rest);
    assert forall|j: int| 0 <= j < n implies tail[j] != '-' by {
        assert(tail[j] == inner[j]);
    }
    search::lemma_index_of_char_is(tail, '-', n);
    assert(tail.take(n) =~= inner);
    assert(e.skip(n + 2) =~= rest);
}

/// The modified UTF-7 form of a run of characters, and a text behind it, stand
/// for the run and what the text stands for.
proof fn lemma_decode_run(t: Seq<char>, rest: Seq<char>)
    requires
        t.len() > 0,
    ensures
        decode(seq!['&'] + units_b64(utf16::units(t)) + seq!['-'] + rest) == t + decode(rest),
{
    let b = units_b64(utf16::units(t));
    lemma_shifted_text(t);
    lemma_units_b64(utf16::units(t));
    assert(utf16::units(t).len() > 0);
    lemma_decode_piece(b, rest);
}

/// Decoding the modified UTF-7 form of a text gives the text back.
pub proof fn law_decode_undoes_encode(s: Seq<char>)
    ensures
        decode(encode(s)) == s,
    decreases s.len(),
{
    let e = encode(s);
    if s.len() == 0 {
        assert(s =~= seq![]);
    } else if is_direct(s[0]) {
        law_decode_undoes_encode(s.drop_first());
        assert(e.drop_first() =~= encode(s.drop_first()));
        assert(seq![s[0]] + s.drop_first() =~= s);
    } else if s[0] == '&' {
        let rest = encode(s.drop_first());
        law_decode_undoes_encode(s.drop_first());
        lemma_decode_piece(seq![], rest);
        assert(e =~= seq!['&'] + seq![] + seq!['-'] + rest);
        assert(seq![s[0]] + s.drop_first() =~= s);
    } else {
        lemma_shifted_run(s);
        let k = shifted_run(s) as int;
        law_decode_undoes_encode(s.skip(k));
        lemma_decode_run(s.take(k), encode(s.skip(k)));
        assert(s.take(k) + s.skip(k) =~= s);
    }
}

/// The modified UTF-7 form of a text is printable ASCII.
pub proof fn law_encode_is_printable_ascii(s: Seq<char>)
    ensures
        forall|i: int| 0 <= i < encode(s).len() ==> ' ' <= #[trigger] encode(s)[i] <= '~',
    decreases s.len(),
{
    if s.len() > 0 {
        if is_direct(s[0]) || s[0] == '&' {
            law_encode_is_printable_ascii(s.drop_first());
            let head = if is_direct(s[0]) {
                seq![s[0]]
            } else {
                seq!['&', '-']
            };
            let rest = encode(s.drop_first());
            assert(encode(s) =~= head + rest);
            assert forall|i: int| 0 <= i < encode(s).len() implies ' ' <= #[trigger] encode(s)[i]
                <= '~' by {
                if i >= head.len() {
                    assert(encode(s)[i] == rest[i - head.len()]);
                }
            }
        } else {
            lemma_shifted_run(s);
            let k = shifted_run(s) as int;
            let b = units_b64(utf16::units(s.take(k)));
            let rest = encode(s.skip(k));
            law_encode_is_printable_ascii(s.skip(k));
            lemma_units_b64(utf16::units(s.take(k)));
            assert forall|i: int| 0 <= i < encode(s).len() implies ' ' <= #[trigger] encode(s)[i]
                <= '~' by {
                if 1 <= i < 1 + b.len() {
                    assert(encode(s)[i] == b[i - 1]);
                    assert(is_direct(b[i - 1]));
                } else if i >= b.len() + 2 {
                    assert(encode(s)[i] == rest[i - b.len() - 2]);
                }
            }
        }
    }
}

/// Different texts have different modified UTF-7 forms.
pub proof fn law_encode_is_injective(a: Seq<char>, b: Seq<char>)
    requires
        encode(a) == encode(b),
    ensures
        a == b,
{
    law_decode_undoes_encode(a);
    law_decode_undoes_encode(b);
}

/// A text of direct characters is its own modified UTF-7 form.
pub proof fn law_direct_text_is_kept(s: Seq<char>)
    requires
        forall|i: int| 0 <= i < s.len() ==> is_direct(#[trigger] s[i]),
    ensures
        encode(s) == s,
        decode(s) == s,
    decreases s.len(),
{
    if s.len() > 0 {
        assert(is_direct(s[0]));
        assert forall|i: int| 0 <= i < s.drop_first().len() implies is_direct(
            #[trigger] s.drop_first()[i],
        ) by {
            assert(is_direct(s[i + 1]));
        }
        law_direct_text_is_kept(s.drop_first());
        assert(seq![s[0]] + s.drop_first() =~= s);
    } else {
        assert(s =~= seq![]);
    }
}

/// The text that the base64 between `&` and `-` stands for. It fails where the
/// bytes do not come in pairs, and where a surrogate has no partner.
pub fn decode_modified_b64(s: &str) -> (r: Result<String, DecodeError>)
    ensures
        match r {
            Ok(t) => shifted_text(s@) == Ok::<Seq<char>, DecodeError>(t@),
            Err(e) => shifted_text(s@) == Err::<Seq<char>, DecodeError>(e),
        },
{
    let v = chars::chars_of(s);
    let values = base64::read_sextets(&v, ',');
    let bytes = base64::bytes_of_sextets(&values);
    if bytes.len() % 2 != 0 {
        return Err(DecodeError::OddLength);
    }
    let u = utf16::units_of_bytes(&bytes);
    match utf16::text_of_units(&u) {
        Some(t) => Ok(t),
        None => Err(DecodeError::Surrogate),
    }
}

/// The base64 form of a row of UTF-16 code units.
pub fn encode_modified_b64(u16_slice: &[u16]) -> (r: String)
    ensures
        r@ == units_b64(u16_slice@),
{
    let bytes = utf16::bytes_of_units(u16_slice);
    let values = base64::sextets_of_bytes(&bytes);
    let mut out = String::new();
    let mut i: usize = 0;
    proof {
        base64::lemma_sextets_six_bit(bytes@);
    }
    while i < values.len()
        invariant
            base64::six_bit(values@),
            i <= values.len(),
            out@ == values@.take(i as int).map_values(|v: u8| base64::sextet_char(v, ',')),
        decreases values.len() - i,
    {
        assert(values@[i as int] < 64);
        out.push(base64::char_for_sextet(values[i], ','));
        i += 1;
        assert(out@ =~= values@.take(i as int).map_values(|v: u8| base64::sextet_char(v, ',')));
    }
    assert(values@.take(values@.len() as int) =~= values@);
    out
}

/// The text that the modified UTF-7 text `s` stands for.
pub fn decode_modified_utf7(s: &str) -> (r: String)
    ensures
        r@ == decode(s@),
{
    let v = chars::chars_of(s);
    let mut out = String::new();
    let mut i: usize = 0;
    assert(s@.skip(0) =~= s@);
    assert(out@ + decode(s@) =~= decode(s@));
    while i < v.len()
        invariant
            v@ == s@,
            i <= v.len(),
            out@ + decode(s@.skip(i as int)) == decode(s@),
        decreases v.len() - i,
    {
        let ghost rest = s@.skip(i as int);
        let ghost before = out@;
        if v[i] == '&' {
            let tail: &[char] = &v[i + 1..v.len()];
            assert(tail@ =~= rest.drop_first());
            match search::position_of(tail, '-') {
                Some(p) => {
                    let inner: &[char] = &tail[0..p];
                    assert(inner@ =~= rest.drop_first().take(p as int));
                    if p == 0 {
                        out.push('&');
                        assert(out@ =~= before + shifted_piece(inner@));
                    } else {
                        let b64 = chars::text_of(inner);
                        match decode_modified_b64(&b64) {
                            Ok(t) => {
                                out.append(&t);
                            },
                            Err(_) => {
                                out.push('&');
                                out.append(&b64);
                                out.push('-');
                                assert(out@ =~= before + shifted_piece(inner@));
                            },
                        }
                    }
                    i += p + 2;
                    assert(rest.skip(p + 2) =~= s@.skip(i as int));
                    assert(before + (shifted_piece(inner@) + decode(s@.skip(i as int))) =~= out@
                        + decode(s@.skip(i as int)));
                },
                None => {
                    out.push('&');
                    i += 1;
                    assert(rest.drop_first() =~= s@.skip(i as int));
                    assert(before + (seq!['&'] + decode(s@.skip(i as int))) =~= out@ + decode(
                        s@.skip(i as int),
                    ));
                },
            }
        } else {
            out.push(v[i]);
            i += 1;
            assert(rest.drop_first() =~= s@.skip(i as int));
            assert(before + (seq![rest[0]] + decode(s@.skip(i as int))) =~= out@ + decode(
                s@.skip(i as int),
            ));
        }
    }
    assert(s@.skip(i as int) =~= seq![]);
    assert(out@ + decode(seq![]) =~= out@);
    out
}

/// Whether `c` stands for itself.
fn stands_for_itself(c: char) -> (b: bool)
    ensures
        b == is_direct(c),
{
    ' ' <= c && c <= '~' && c != '&'
}

/// The modified UTF-7 form of `s`.
pub fn encode_modified_utf7(s: &str) -> (r: String)
    ensures
        r@ == encode(s@),
{
    let v = chars::chars_of(s);
    let mut out = String::new();
    let mut i: usize = 0;
    assert(s@.skip(0) =~= s@);
    assert(out@ + encode(s@) =~= encode(s@));
    while i < v.len()
        invariant
            v@ == s@,
            i <= v.len(),
            out@ + encode(s@.skip(i as int)) == encode(s@),
        decreases v.len() - i,
    {
        let ghost rest = s@.skip(i as int);
        let ghost before = out@;
        if stands_for_itself(v[i]) {
            out.push(v[i]);
            i += 1;
            assert(rest.drop_first() =~= s@.skip(i as int));
            assert(before + (seq![rest[0]] + encode(s@.skip(i as int))) =~= out@ + encode(
                s@.skip(i as int),
            ));
        } else if v[i] == '&' {
            out.push('&');
            out.push('-');
            i += 1;
            assert(rest.drop_first() =~= s@.skip(i as int));
            assert(before + (seq!['&', '-'] + encode(s@.skip(i as int))) =~= out@ + encode(
                s@.skip(i as int),
            ));
        } else {
            let start: usize = i;
            assert(rest.skip(0) =~= rest);
            while i < v.len() && !stands_for_itself(v[i]) && v[i] != '&'
                invariant
                    v@ == s@,
                    start <= i <= v.len(),
                    rest == s@.skip(start as int),
                    shifted_run(rest) == (i - start) + shifted_run(rest.skip(i - start)),
                decreases v.len() - i,
            {
                assert(rest.skip(i - start).drop_first() =~= rest.skip(i - start + 1));
                i += 1;
            }
            assert(shifted_run(rest.skip(i - start)) == 0);
            let ghost k = i - start;
            let part: &[char] = &v[start..i];
            assert(part@ =~= rest.take(k));
            let u = utf16::units_of(part);
            let b64 = encode_modified_b64(&u);
            out.push('&');
            out.append(&b64);
            out.push('-');
            assert(rest.skip(k) =~= s@.skip(i as int));
            proof {
                lemma_shifted_run(rest);
            }
            assert(before + (seq!['&'] + b64@ + seq!['-'] + encode(s@.skip(i as int))) =~= out@
                + encode(s@.skip(i as int)));
        }
    }
    assert(s@.skip(i as int) =~= seq![]);
    assert(out@ + encode(seq![]) =~= out@);
    out
}

} // verus!
