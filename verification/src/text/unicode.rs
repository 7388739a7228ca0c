//! What the standard library knows about Unicode and this crate relies on.

use vstd::prelude::*;
use vstd::utf8::*;
use crate::text::search;

verus! {

/// The lower-case form of a text, as `str::to_lowercase` gives it.
pub uninterp spec fn lowercase(s: Seq<char>) -> Seq<char>;

/// The upper-case form of a text, as `str::to_uppercase` gives it.
pub uninterp spec fn uppercase(s: Seq<char>) -> Seq<char>;

/// The text that `String::from_utf8_lossy` reads out of a byte sequence.
pub uninterp spec fn utf8_lossy(bytes: Seq<u8>) -> Seq<char>;

/// `c` with an ASCII capital replaced by its small letter.
pub open spec fn ascii_lower_char(c: char) -> char {
    if 'A' <= c <= 'Z' {
        (c as u32 + 32) as char
    } else {
        c
    }
}

/// `c` with an ASCII small letter replaced by its capital.
pub open spec fn ascii_upper_char(c: char) -> char {
    if 'a' <= c <= 'z' {
        (c as u32 - 32) as char
    } else {
        c
    }
}

/// `s` with every ASCII capital replaced by its small letter.
pub open spec fn ascii_lower(s: Seq<char>) -> Seq<char> {
    Seq::new(s.len(), |i: int| ascii_lower_char(s[i]))
}

/// `s` with every ASCII small letter replaced by its capital.
pub open spec fn ascii_upper(s: Seq<char>) -> Seq<char> {
    Seq::new(s.len(), |i: int| ascii_upper_char(s[i]))
}

/// What stands for the character `c` in the lower-case form of a text: for an
/// ASCII character that character, a capital replaced, and for another what it
/// becomes in a text of its own.
pub open spec fn lower_piece(c: char) -> Seq<char> {
    if '\0' <= c <= '\u{7f}' {
        seq![ascii_lower_char(c)]
    } else {
        lowercase(seq![c])
    }
}

/// `r` is `s` with one character after another in lower case. A capital sigma
/// becomes one of the two small ones; which of them depends on whether it ends
/// a word.
pub open spec fn is_lower_form(s: Seq<char>, r: Seq<char>) -> bool
    decreases s.len(),
{
    if s.len() == 0 {
        r.len() == 0
    } else if s[0] == '\u{3a3}' {
        &&& r.len() > 0
        &&& r[0] == '\u{3c3}' || r[0] == '\u{3c2}'
        &&& is_lower_form(s.drop_first(), r.drop_first())
    } else {
        let piece = lower_piece(s[0]);
        &&& search::starts_with(r, piece)
        &&& is_lower_form(s.drop_first(), r.skip(piece.len() as int))
    }
}

/// `s` with one character after another in lower case, each capital sigma as
/// in the middle of a word.
pub open spec fn plain_lower(s: Seq<char>) -> Seq<char>
    decreases s.len(),
{
    if s.len() == 0 {
        seq![]
    } else if s[0] == '\u{3a3}' {
        seq!['\u{3c3}'] + plain_lower(s.drop_first())
    } else {
        lower_piece(s[0]) + plain_lower(s.drop_first())
    }
}

/// The lower-case form of a text. Of a text of ASCII characters it is that
/// with the capitals replaced; of any other it is the one that
/// `str::to_lowercase` gives, which is always a lower-case form.
pub open spec fn lower(s: Seq<char>) -> Seq<char> {
    if is_ascii_chars(s) {
        ascii_lower(s)
    } else if is_lower_form(s, lowercase(s)) {
        lowercase(s)
    } else {
        plain_lower(s)
    }
}

/// The upper-case form of a text.
pub open spec fn upper(s: Seq<char>) -> Seq<char> {
    if is_ascii_chars(s) {
        ascii_upper(s)
    } else {
        uppercase(s)
    }
}

/// The text that a byte sequence holds: the one that it encodes in UTF-8, or,
/// where it is not valid UTF-8, one with replacement characters in it.
pub open spec fn utf8_text(bytes: Seq<u8>) -> Seq<char> {
    if valid_utf8(bytes) {
        decode_utf8(bytes)
    } else {
        utf8_lossy(bytes)
    }
}

/// `String::push` appends one character.
pub assume_specification[ String::push ](s: &mut String, c: char)
    ensures
        final(s)@ == old(s)@.push(c),
;

/// `char::from_u32` gives the character with the code point `n`, where `n` is
/// one: at most 0x10FFFF and no surrogate.
pub assume_specification[ char::from_u32 ](n: u32) -> (r: Option<char>)
    ensures
        r == if n < 0xd800 || 0xe000 <= n <= 0x10ffff {
            Some(n as char)
        } else {
            None
        },
;

/// `str::to_lowercase` is a function of the text alone. It puts one character
/// after another in lower case: of the ASCII characters the capitals A to Z,
/// and any other as if it stood alone, but for the capital sigma, which becomes
/// one small letter at the end of a word and another elsewhere.
pub assume_specification[ str::to_lowercase ](s: &str) -> (r: String)
    ensures
        r@ == lowercase(s@),
        is_lower_form(s@, r@),
;

/// `str::to_uppercase` is a function of the text alone; on a text of ASCII
/// characters it replaces the small letters a to z and nothing else.
pub assume_specification[ str::to_uppercase ](s: &str) -> (r: String)
    ensures
        r@ == uppercase(s@),
        is_ascii_chars(s@) ==> r@ == ascii_upper(s@),
;

/// Calls `String::from_utf8_lossy`: a function of the bytes alone, which
/// reads valid UTF-8 as the text that it encodes. Where the replacement
/// characters stand in other input is left to the name.
#[verifier::external_body]
fn from_utf8_lossy(bytes: &[u8]) -> (r: String)
    ensures
        r@ == utf8_lossy(bytes@),
        valid_utf8(bytes@) ==> r@ == decode_utf8(bytes@),
{
    String::from_utf8_lossy(bytes).into_owned()
}

/// The lower-case form of `s`.
pub fn lower_text(s: &str) -> (r: String)
    ensures
        r@ == lower(s@),
{
    let r = s.to_lowercase();
    proof {
        if is_ascii_chars(s@) {
            assert(s@.take(s@.len() as int) =~= s@);
            lemma_form_front(s@, r@, s@.len() as int);
        }
    }
    r
}

/// The upper-case form of `s`.
pub fn upper_text(s: &str) -> (r: String)
    ensures
        r@ == upper(s@),
{
    s.to_uppercase()
}

/// The text that `bytes` holds.
pub fn text_of_bytes(bytes: &[u8]) -> (r: String)
    ensures
        r@ == utf8_text(bytes@),
{
    from_utf8_lossy(bytes)
}

/// A lower-case form begins with that of an ASCII front, and is no longer
/// where there is no more.
proof fn lemma_form_front(s: Seq<char>, r: Seq<char>, k: int)
    requires
        0 <= k <= s.len(),
        is_ascii_chars(s.take(k)),
        is_lower_form(s, r),
    ensures
        r.len() >= k,
        r.take(k) == ascii_lower(s.take(k)),
        k == s.len() ==> r == ascii_lower(s),
    decreases s.len(),
{
    if k > 0 {
        let rest = s.drop_first();
        let tail = r.skip(1);
        assert(s.take(k)[0] == s[0]);
        assert(lower_piece(s[0]) =~= seq![ascii_lower_char(s[0])]);
        assert forall|i: int| 0 <= i < k - 1 implies '\0' <= #[trigger] rest.take(k - 1)[i]
            <= '\u{7f}' by {
            assert(rest.take(k - 1)[i] == s.take(k)[i + 1]);
        }
        lemma_form_front(rest, tail, k - 1);
        assert(r.take(1)[0] == r[0]);
        assert forall|i: int| 0 <= i < k implies r[i] == ascii_lower_char(s[i]) by {
            if i > 0 {
                assert(tail.take(k - 1)[i - 1] == r[i]);
                assert(ascii_lower(rest.take(k - 1))[i - 1] == ascii_lower_char(s[i]));
            }
        }
    }
    assert(r.take(k) =~= ascii_lower(s.take(k)));
    if k == s.len() {
        if k > 0 {
            assert(r.len() == s.len());
        }
        assert(r =~= ascii_lower(s));
    }
}

/// Plain lower case is a lower-case form.
proof fn lemma_plain_form(s: Seq<char>)
    ensures
        is_lower_form(s, plain_lower(s)),
    decreases s.len(),
{
    if s.len() > 0 {
        let rest = s.drop_first();
        lemma_plain_form(rest);
        let r = plain_lower(s);
        if s[0] == '\u{3a3}' {
            assert(r.drop_first() =~= plain_lower(rest));
        } else {
            let piece = lower_piece(s[0]);
            assert(r.take(piece.len() as int) =~= piece);
            assert(r.skip(piece.len() as int) =~= plain_lower(rest));
        }
    }
}

/// The lower-case form of a text is one.
pub proof fn lemma_lower_form(s: Seq<char>)
    ensures
        is_lower_form(s, lower(s)),
{
    lemma_plain_form(s);
    if is_ascii_chars(s) {
        assert(s.take(s.len() as int) =~= s);
        lemma_form_front(s, plain_lower(s), s.len() as int);
    }
}

/// The lower-case form of a text begins with that of its ASCII front.
pub proof fn lemma_lower_front(s: Seq<char>, k: int)
    requires
        0 <= k <= s.len(),
        is_ascii_chars(s.take(k)),
    ensures
        lower(s).len() >= k,
        lower(s).take(k) == ascii_lower(s.take(k)),
{
    lemma_lower_form(s);
    lemma_form_front(s, lower(s), k);
}

/// The plain lower case of an ASCII text is its lower-case form.
pub proof fn lemma_plain_ascii(s: Seq<char>)
    requires
        is_ascii_chars(s),
    ensures
        plain_lower(s) == ascii_lower(s),
{
    lemma_plain_form(s);
    assert(s.take(s.len() as int) =~= s);
    lemma_form_front(s, plain_lower(s), s.len() as int);
}

/// Plain lower case is put together like the text.
pub proof fn lemma_plain_concat(a: Seq<char>, b: Seq<char>)
    ensures
        plain_lower(a + b) == plain_lower(a) + plain_lower(b),
    decreases a.len(),
{
    if a.len() == 0 {
        assert(a + b =~= b);
    } else {
        assert((a + b).drop_first() =~= a.drop_first() + b);
        lemma_plain_concat(a.drop_first(), b);
    }
    assert(plain_lower(a + b) =~= plain_lower(a) + plain_lower(b));
}

/// Two characters are equal, or both are small sigmas.
pub open spec fn same_but_for_sigma(a: char, b: char) -> bool {
    ||| a == b
    ||| a == '\u{3c3}' && b == '\u{3c2}'
    ||| a == '\u{3c2}' && b == '\u{3c3}'
}

/// A lower-case form differs from plain lower case in its sigmas alone.
pub proof fn lemma_form_is_plain(s: Seq<char>, r: Seq<char>)
    requires
        is_lower_form(s, r),
    ensures
        r.len() == plain_lower(s).len(),
        forall|k: int| 0 <= k < r.len() ==> same_but_for_sigma(#[trigger] r[k], plain_lower(s)[k]),
    decreases s.len(),
{
    if s.len() > 0 {
        let rest = s.drop_first();
        let p = plain_lower(s);
        let n: int = if s[0] == '\u{3a3}' {
            1
        } else {
            lower_piece(s[0]).len() as int
        };
        let tail = r.skip(n);
        assert(r.drop_first() =~= r.skip(1));
        lemma_form_is_plain(rest, tail);
        assert forall|k: int| 0 <= k < r.len() implies same_but_for_sigma(#[trigger] r[k], p[k]) by {
            if k >= n {
                assert(tail[k - n] == r[k]);
                assert(plain_lower(rest)[k - n] == p[k]);
            } else if s[0] != '\u{3a3}' {
                assert(r.take(n)[k] == r[k]);
            }
        }
    }
}

/// A character of one byte is an ASCII character.
proof fn lemma_one_byte(c: char)
    requires
        encode_scalar(c as u32).len() == 1,
    ensures
        '\0' <= c <= '\u{7f}',
{
    if !has_width_1_encoding(c as u32) {
        assert(encode_scalar(c as u32).len() >= 2);
    }
}

/// A text whose bytes begin with those of an ASCII text begins with it.
proof fn lemma_bytes_begin(s: Seq<char>, pat: Seq<char>)
    requires
        is_ascii_chars(pat),
        search::starts_with(encode_utf8(s), encode_utf8(pat)),
    ensures
        search::starts_with(s, pat),
    decreases pat.len(),
{
    is_ascii_chars_encode_utf8(pat);
    if pat.len() == 0 {
        assert(s.take(0) =~= pat);
    } else {
        let b = encode_utf8(s);
        let m = encode_utf8(pat);
        assert(b.take(m.len() as int)[0] == b[0]);
        assert('\0' <= pat[0] <= '\u{7f}');
        assert(s.len() > 0);
        encode_utf8_first_scalar(s);
        lemma_one_byte(s[0]);
        let one = seq![s[0]];
        is_ascii_chars_encode_utf8(one);
        assert(one + s.drop_first() =~= s);
        lemma_encode_concat(one, s.drop_first());
        assert(b[0] == encode_utf8(one)[0]);
        assert(s[0] as u8 == pat[0] as u8);
        assert(s[0] == pat[0]);
        let rest = pat.drop_first();
        assert(seq![pat[0]] + rest =~= pat);
        lemma_encode_concat(seq![pat[0]], rest);
        assert(is_ascii_chars(rest));
        is_ascii_chars_encode_utf8(rest);
        let rb = encode_utf8(s.drop_first());
        assert(rb =~= b.skip(1));
        assert(rb.take(rest.len() as int) =~= encode_utf8(rest)) by {
            assert forall|k: int| 0 <= k < rest.len() implies rb[k] == encode_utf8(rest)[k] by {
                assert(b.take(m.len() as int)[k + 1] == b[k + 1]);
                assert(m[k + 1] == encode_utf8(rest)[k]);
            }
        }
        lemma_bytes_begin(s.drop_first(), rest);
        assert forall|k: int| 0 <= k < pat.len() implies s.take(pat.len() as int)[k] == pat[k] by {
            if k > 0 {
                assert(s.drop_first().take(rest.len() as int)[k - 1] == rest[k - 1]);
            }
        }
        assert(s.take(pat.len() as int) =~= pat);
    }
}

/// The place in a text at which an ASCII text stands whose bytes stand in the
/// text's: not at the front where they do not stand at the front.
pub proof fn lemma_bytes_occur(s: Seq<char>, pat: Seq<char>, p: int) -> (k: int)
    requires
        is_ascii_chars(pat),
        pat.len() > 0,
        search::occurs_at(encode_utf8(s), encode_utf8(pat), p),
    ensures
        search::occurs_at(s, pat, k),
        p > 0 ==> k > 0,
    decreases s.len(),
{
    let b = encode_utf8(s);
    let m = encode_utf8(pat);
    is_ascii_chars_encode_utf8(pat);
    if p == 0 {
        assert(b.take(m.len() as int) =~= b.subrange(0, m.len() as int));
        lemma_bytes_begin(s, pat);
        assert(s.subrange(0, pat.len() as int) =~= s.take(pat.len() as int));
        0
    } else {
        assert(s.len() > 0);
        encode_utf8_valid_utf8(s);
        encode_utf8_first_scalar(s);
        let w = encode_scalar(s[0] as u32).len() as int;
        assert(b[p] == m[0]) by {
            assert(b.subrange(p, p + m.len())[0] == b[p]);
        }
        assert('\0' <= pat[0] <= '\u{7f}');
        assert(b[p] <= 0x7f);
        is_char_boundary_iff_not_is_continuation_byte(b, p);
        assert(is_char_boundary(b, p));
        assert(p >= w);
        let rest = s.drop_first();
        assert(encode_utf8(rest) =~= b.skip(w));
        assert(encode_utf8(rest).subrange(p - w, p - w + m.len()) =~= b.subrange(p, p + m.len()));
        let j = lemma_bytes_occur(rest, pat, p - w);
        assert(s.subrange(j + 1, j + 1 + pat.len()) =~= rest.subrange(j, j + pat.len()));
        j + 1
    }
}

/// The UTF-8 form of a text is that of its front and then that of the rest.
pub proof fn lemma_encode_concat(a: Seq<char>, b: Seq<char>)
    ensures
        encode_utf8(a + b) == encode_utf8(a) + encode_utf8(b),
    decreases a.len(),
{
    if a.len() == 0 {
        assert(a + b =~= b);
        assert(encode_utf8(a) =~= seq![]);
    } else {
        assert((a + b).drop_first() =~= a.drop_first() + b);
        lemma_encode_concat(a.drop_first(), b);
    }
    assert(encode_utf8(a + b) =~= encode_utf8(a) + encode_utf8(b));
}

/// The text that a text's UTF-8 form holds is the text.
pub proof fn lemma_utf8_text(s: Seq<char>)
    ensures
        utf8_text(encode_utf8(s)) == s,
{
    encode_utf8_valid_utf8(s);
    encode_utf8_decode_utf8(s);
}

} // verus!
