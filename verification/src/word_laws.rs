//! How encoded words in headers are read.

use vstd::prelude::*;
use vstd::utf8::*;
use crate::base64;
use crate::charset;
use crate::charset::Charset;
use crate::error::DecodeError;
use crate::rfc2047;
use crate::text::{search, trim, unicode};

verus! {

/// A name in lower case means the first of four character sets that it
/// mentions, Shift_JIS under any of four names; without one it means UTF-8.
pub proof fn law_character_sets_have_names(name: Seq<char>)
    ensures
        ({
            let utf8 = search::contains(name, "utf-8"@);
            let iso = search::contains(name, "iso-2022-jp"@);
            let sjis = search::contains(name, "shift_jis"@) || search::contains(name, "sjis"@)
                || search::contains(name, "windows-31j"@) || search::contains(name, "cp932"@);
            let euc = search::contains(name, "euc-jp"@);
            &&& utf8 ==> charset::charset_of(name) is Utf8
            &&& !utf8 && iso ==> charset::charset_of(name) is Iso2022Jp
            &&& !utf8 && !iso && sjis ==> charset::charset_of(name) is ShiftJis
            &&& !utf8 && !iso && !sjis && euc ==> charset::charset_of(name) is EucJp
            &&& !utf8 && !iso && !sjis && !euc ==> charset::charset_of(name) is Utf8
        }),
{
}

/// Bytes are read by the decoder of their character set.
pub proof fn law_bytes_are_read_in_their_character_set(bytes: Seq<u8>)
    ensures
        charset::charset_text(Charset::Iso2022Jp, bytes) == charset::iso_2022_jp_text(bytes),
        charset::charset_text(Charset::ShiftJis, bytes) == charset::shift_jis_text(bytes),
        charset::charset_text(Charset::EucJp, bytes) == charset::euc_jp_text(bytes),
        valid_utf8(bytes) ==> charset::charset_text(Charset::Utf8, bytes) == decode_utf8(bytes),
{
}

/// Every decoder has room for what a header can hold.
pub proof fn law_headers_can_be_decoded(set: Charset, bytes: Seq<u8>)
    requires
        bytes.len() <= 0x1000_0000,
    ensures
        charset::is_decodable(set, bytes),
{
}

/// A hexadecimal digit has its value, in capitals or not.
proof fn lemma_hex_digits(d: int)
    requires
        0 <= d < 16,
    ensures
        rfc2047::hex_value("0123456789ABCDEF"@[d] as u8) == Some(d as u8),
        rfc2047::hex_value("0123456789abcdef"@[d] as u8) == Some(d as u8),
        ("0123456789ABCDEF"@[d] as u8) < 0x80,
        ("0123456789abcdef"@[d] as u8) < 0x80,
        "0123456789ABCDEF"@[d] as u8 != '+' as u8,
        "0123456789abcdef"@[d] as u8 != '+' as u8,
{
    reveal_strlit("0123456789ABCDEF");
    reveal_strlit("0123456789abcdef");
    let a = "0123456789ABCDEF"@;
    let b = "0123456789abcdef"@;
    assert(d < 10 ==> a[d] as u8 == '0' as u8 + d && b[d] as u8 == '0' as u8 + d);
    assert(d >= 10 ==> a[d] as u8 == 'A' as u8 + d - 10 && b[d] as u8 == 'a' as u8 + d - 10);
}

/// In the Q encoding an equals sign and two hexadecimal digits, in capitals or
/// not, are the byte that the digits write; an underscore is a space; other
/// bytes are themselves.
pub proof fn law_quoted_bytes_are_read(byte: u8, plain: u8, rest: Seq<u8>, bytes: Seq<u8>)
    requires
        rfc2047::qp(rest) == Ok::<Seq<u8>, DecodeError>(bytes),
        plain != '=' as u8,
        plain != '_' as u8,
    ensures
        ({
            let large = "0123456789ABCDEF"@;
            let small = "0123456789abcdef"@;
            let high = byte as int / 16;
            let low = byte as int % 16;
            &&& rfc2047::qp(seq!['=' as u8, large[high] as u8, large[low] as u8] + rest) == Ok::<
                Seq<u8>,
                DecodeError,
            >(seq![byte] + bytes)
            &&& rfc2047::qp(seq!['=' as u8, small[high] as u8, small[low] as u8] + rest) == Ok::<
                Seq<u8>,
                DecodeError,
            >(seq![byte] + bytes)
        }),
        rfc2047::qp(seq!['_' as u8] + rest) == Ok::<Seq<u8>, DecodeError>(
            seq![0x20u8] + bytes,
        ),
        rfc2047::qp(seq![plain] + rest) == Ok::<Seq<u8>, DecodeError>(
            seq![plain] + bytes,
        ),
        rfc2047::qp(Seq::empty()) == Ok::<Seq<u8>, DecodeError>(Seq::empty()),
{
    let high = byte as int / 16;
    let low = byte as int % 16;
    let large = "0123456789ABCDEF"@;
    let small = "0123456789abcdef"@;
    lemma_hex_digits(high);
    lemma_hex_digits(low);
    rfc2047::lemma_two_bytes_valid(large[high] as u8, large[low] as u8);
    rfc2047::lemma_two_bytes_valid(small[high] as u8, small[low] as u8);
    let a = seq!['=' as u8, large[high] as u8, large[low] as u8] + rest;
    let b = seq!['=' as u8, small[high] as u8, small[low] as u8] + rest;
    assert(a.skip(3) =~= rest);
    assert(b.skip(3) =~= rest);
    assert((seq!['_' as u8] + rest).drop_first() =~= rest);
    assert((seq![plain] + rest).drop_first() =~= rest);
}

/// A word of three fields between the given marks.
pub open spec fn word_of(delim: char, set: Seq<char>, encoding: Seq<char>, text: Seq<char>) -> Seq<
    char,
> {
    seq!['=', delim] + set + seq![delim] + encoding + seq![delim] + text + seq![delim, '=']
}

/// The fields can be told apart in a word.
pub open spec fn are_fields(delim: char, set: Seq<char>, encoding: Seq<char>, text: Seq<char>) -> bool {
    &&& delim == '?' || delim == '_'
    &&& !set.contains(delim) && set != seq!['=']
    &&& !encoding.contains(delim)
    &&& !text.contains(delim) && text != seq!['=']
}

/// No encoded word begins in the text.
pub open spec fn opens_no_word(s: Seq<char>) -> bool {
    forall|i: int|
        0 <= i < s.len() - 1 ==> !(#[trigger] s[i] == '=' && (s[i + 1] == '?' || s[i + 1] == '_'))
}

/// The search for the end of a word goes on behind a stretch without
/// delimiters.
proof fn lemma_word_end_moves(s: Seq<char>, delim: char, j: int, to: int, seen: nat)
    requires
        0 <= j <= to <= s.len(),
        forall|i: int| j <= i < to ==> s[i] != delim,
    ensures
        rfc2047::word_end(s, delim, j, seen) == rfc2047::word_end(s, delim, to, seen),
    decreases to - j,
{
    if j < to {
        lemma_word_end_moves(s, delim, j + 1, to, seen);
    }
}

/// A word ends with its closing mark, whatever follows it.
proof fn lemma_word_of_ends(
    delim: char,
    set: Seq<char>,
    encoding: Seq<char>,
    text: Seq<char>,
    back: Seq<char>,
)
    requires
        are_fields(delim, set, encoding, text),
    ensures
        rfc2047::word_end(word_of(delim, set, encoding, text) + back, delim, 2, 0) == Some(
            word_of(delim, set, encoding, text).len() as int,
        ),
{
    let w = word_of(delim, set, encoding, text);
    let s = w + back;
    let a = 2 + set.len() as int;
    let b = a + 1 + encoding.len();
    let c = b + 1 + text.len();
    assert forall|i: int| 2 <= i < a implies s[i] != delim by {
        assert(s[i] == set[i - 2]);
    }
    assert forall|i: int| a + 1 <= i < b implies s[i] != delim by {
        assert(s[i] == encoding[i - a - 1]);
    }
    assert forall|i: int| b + 1 <= i < c implies s[i] != delim by {
        assert(s[i] == text[i - b - 1]);
    }
    assert(s[a] == delim && s[b] == delim && s[c] == delim && s[c + 1] == '=');
    lemma_word_end_moves(s, delim, 2, a, 0);
    assert(rfc2047::word_end(s, delim, a, 0) == rfc2047::word_end(s, delim, a + 1, 1));
    lemma_word_end_moves(s, delim, a + 1, b, 1);
    assert(rfc2047::word_end(s, delim, b, 1) == rfc2047::word_end(s, delim, b + 1, 2));
    lemma_word_end_moves(s, delim, b + 1, c, 2);
    assert(rfc2047::word_end(s, delim, c, 2) == Some(c + 2));
}

/// The fields of a word are found in it.
proof fn lemma_word_of_fields(delim: char, set: Seq<char>, encoding: Seq<char>, text: Seq<char>)
    requires
        are_fields(delim, set, encoding, text),
    ensures
        rfc2047::word_fields(word_of(delim, set, encoding, text), delim) == Some(
            (set, encoding, text),
        ),
{
    let w = word_of(delim, set, encoding, text);
    let inner = set + seq![delim] + encoding + seq![delim] + text;
    let a = w.skip(2);
    assert(trim::trim_start_text(w, seq!['=', delim]) == a) by {
        reveal_with_fuel(trim::trim_start_text, 2);
        assert(w.take(2) =~= seq!['=', delim]);
        if a.take(2) =~= seq!['=', delim] {
            assert(a.take(2)[0] == '=' && a.take(2)[1] == delim);
            assert(a[0] == '=' && a[1] == delim);
            if set.len() == 0 {
                assert(a[0] == delim);
            } else if set.len() == 1 {
                assert(a[0] == set[0]);
                assert(set =~= seq!['=']);
            } else {
                assert(a[1] == set[1]);
            }
            assert(false);
        }
    }
    assert(trim::trim_end_text(a, seq![delim, '=']) == inner) by {
        reveal_with_fuel(trim::trim_end_text, 2);
        assert(a.skip(a.len() - 2) =~= seq![delim, '=']);
        assert(a.take(a.len() - 2) =~= inner);
        let n = inner.len() as int;
        if inner.skip(n - 2) =~= seq![delim, '='] {
            assert(inner.skip(n - 2)[0] == delim && inner.skip(n - 2)[1] == '=');
            assert(inner[n - 2] == delim && inner[n - 1] == '=');
            if text.len() == 0 {
                assert(inner[n - 1] == delim);
            } else if text.len() == 1 {
                assert(inner[n - 1] == text[0]);
                assert(text =~= seq!['=']);
            } else {
                assert(inner[n - 2] == text[text.len() - 2]);
            }
            assert(false);
        }
    }
    let i = set.len() as int;
    let j = encoding.len() as int;
    let tail = inner.skip(i + 1);
    assert forall|k: int| 0 <= k < i implies inner[k] != delim by {
        assert(inner[k] == set[k]);
    }
    search::lemma_index_of_char_is(inner, delim, i);
    assert(tail =~= encoding + seq![delim] + text);
    assert forall|k: int| 0 <= k < j implies tail[k] != delim by {
        assert(tail[k] == encoding[k]);
    }
    search::lemma_index_of_char_is(tail, delim, j);
    assert(inner.take(i) =~= set);
    assert(tail.take(j) =~= encoding);
    assert(tail.skip(j + 1) =~= text);
}

/// A text that opens no word stands in front of what is read behind it.
proof fn lemma_front_is_kept(front: Seq<char>, rest: Seq<char>)
    requires
        opens_no_word(front),
        rest.len() > 0 ==> rest[0] != '?' && rest[0] != '_',
    ensures
        rfc2047::decode_words(front + rest) == front + rfc2047::decode_words(rest),
    decreases front.len(),
{
    let s = front + rest;
    if front.len() > 0 {
        let tail = front.drop_first();
        assert forall|i: int| 0 <= i < tail.len() - 1 implies !(#[trigger] tail[i] == '=' && (tail[i
            + 1] == '?' || tail[i + 1] == '_')) by {
            assert(front[i + 1] == tail[i]);
        }
        lemma_front_is_kept(tail, rest);
        assert(s.drop_first() =~= tail + rest);
        assert(s[0] == front[0]);
        if front.len() > 1 {
            assert(s[1] == front[1]);
        }
        assert(rfc2047::leading_word(s) is None);
        assert(seq![front[0]] + (tail + rfc2047::decode_words(rest)) =~= front
            + rfc2047::decode_words(rest));
    } else {
        assert(s =~= rest);
        assert(front + rfc2047::decode_words(rest) =~= rfc2047::decode_words(rest));
    }
}

/// A word that stands for a text is replaced by it, and what stands before and
/// behind it is kept.
proof fn lemma_word_is_replaced(
    front: Seq<char>,
    delim: char,
    set: Seq<char>,
    encoding: Seq<char>,
    text: Seq<char>,
    back: Seq<char>,
    t: Seq<char>,
)
    requires
        opens_no_word(front),
        are_fields(delim, set, encoding, text),
        rfc2047::fields_text(unicode::lower(set), unicode::upper(encoding), text) == Ok::<
            Seq<char>,
            DecodeError,
        >(t),
    ensures
        rfc2047::decode_words(front + word_of(delim, set, encoding, text) + back) == front + t
            + rfc2047::decode_words(back),
{
    let w = word_of(delim, set, encoding, text);
    let s = w + back;
    lemma_word_of_ends(delim, set, encoding, text, back);
    lemma_word_of_fields(delim, set, encoding, text);
    assert(s[0] == '=' && s[1] == delim);
    assert(s.take(w.len() as int) =~= w);
    assert(s.skip(w.len() as int) =~= back);
    assert(rfc2047::decode_words(s) == t + rfc2047::decode_words(back));
    lemma_front_is_kept(front, s);
    assert(front + w + back =~= front + s);
    assert(front + (t + rfc2047::decode_words(back)) =~= front + t + rfc2047::decode_words(back));
}

/// A word in base64, written `B` or `b`, is read wherever it stands: its bytes
/// in its character set take its place, and the rest of the header is read as
/// it is without it.
pub proof fn law_base64_words_are_read(
    front: Seq<char>,
    delim: char,
    set: Seq<char>,
    encoding: Seq<char>,
    text: Seq<char>,
    back: Seq<char>,
)
    requires
        opens_no_word(front),
        are_fields(delim, set, encoding, text),
        encoding == seq!['B'] || encoding == seq!['b'],
        charset::is_decodable(
            charset::charset_of(unicode::lower(set)),
            base64::b64_bytes(text),
        ),
    ensures
        rfc2047::decode_words(
            front + (seq!['=', delim] + set + seq![delim] + encoding + seq![delim] + text + seq![
                delim,
                '=',
            ]) + back,
        ) == front + charset::charset_text(
            charset::charset_of(unicode::lower(set)),
            base64::b64_bytes(text),
        ) + rfc2047::decode_words(back),
{
    assert(is_ascii_chars(encoding));
    assert(unicode::upper(encoding) =~= seq!['B']);
    lemma_word_is_replaced(
        front,
        delim,
        set,
        encoding,
        text,
        back,
        charset::charset_text(
            charset::charset_of(unicode::lower(set)),
            base64::b64_bytes(text),
        ),
    );
}

/// A word in the Q encoding, written `Q` or `q`, is read wherever it stands.
pub proof fn law_quoted_words_are_read(
    front: Seq<char>,
    delim: char,
    set: Seq<char>,
    encoding: Seq<char>,
    text: Seq<char>,
    back: Seq<char>,
    bytes: Seq<u8>,
)
    requires
        opens_no_word(front),
        are_fields(delim, set, encoding, text),
        encoding == seq!['Q'] || encoding == seq!['q'],
        rfc2047::qp(encode_utf8(text)) == Ok::<Seq<u8>, DecodeError>(bytes),
        charset::is_decodable(charset::charset_of(unicode::lower(set)), bytes),
    ensures
        rfc2047::decode_words(
            front + (seq!['=', delim] + set + seq![delim] + encoding + seq![delim] + text + seq![
                delim,
                '=',
            ]) + back,
        ) == front + charset::charset_text(charset::charset_of(unicode::lower(set)), bytes)
            + rfc2047::decode_words(back),
{
    assert(is_ascii_chars(encoding));
    assert(unicode::upper(encoding) =~= seq!['Q']);
    assert(seq!['Q'][0] != seq!['B'][0]);
    lemma_word_is_replaced(
        front,
        delim,
        set,
        encoding,
        text,
        back,
        charset::charset_text(charset::charset_of(unicode::lower(set)), bytes),
    );
}

/// A word in another encoding is left as it stands: its equals sign is kept,
/// and reading goes on behind it.
pub proof fn law_other_words_are_left(
    delim: char,
    set: Seq<char>,
    encoding: Seq<char>,
    text: Seq<char>,
    back: Seq<char>,
)
    requires
        are_fields(delim, set, encoding, text),
        is_ascii_chars(encoding),
        encoding != seq!['B'],
        encoding != seq!['b'],
        encoding != seq!['Q'],
        encoding != seq!['q'],
    ensures
        rfc2047::decode_words(
            seq!['=', delim] + set + seq![delim] + encoding + seq![delim] + text + seq![delim, '=']
                + back,
        ) == seq!['='] + rfc2047::decode_words(
            seq![delim] + set + seq![delim] + encoding + seq![delim] + text + seq![delim, '=']
                + back,
        ),
{
    let w = word_of(delim, set, encoding, text);
    let s = w + back;
    let up = unicode::upper(encoding);
    lemma_word_of_ends(delim, set, encoding, text, back);
    lemma_word_of_fields(delim, set, encoding, text);
    assert(s[0] == '=' && s[1] == delim);
    assert(s.take(w.len() as int) =~= w);
    if up == seq!['B'] || up == seq!['Q'] {
        assert(up.len() == encoding.len());
        assert(up[0] == unicode::ascii_upper_char(encoding[0]));
        assert(encoding =~= seq![encoding[0]]);
        assert(false);
    }
    assert(rfc2047::leading_word(s) is None);
    assert(s.drop_first() =~= seq![delim] + set + seq![delim] + encoding + seq![delim] + text
        + seq![delim, '='] + back);
}

} // verus!
