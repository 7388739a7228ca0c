//! How base64, UTF-16 and modified UTF-7 write what they write.

use vstd::prelude::*;
use crate::base64;
use crate::text::search;
use crate::utf16;
use crate::utf7;

verus! {

/// The alphabet of base64 in its order: capitals, small letters, digits, the
/// plus sign, and one last character.
pub proof fn law_alphabet_stands_in_order(v: u8, last: char)
    requires
        v < 62,
    ensures
        base64::sextet_char(v, last)
            == "ABCDEFGHIJKLMNOPQRSTUVWXYZabcdefghijklmnopqrstuvwxyz0123456789"@[v as int],
        base64::sextet_char(62, last) == '+',
        base64::sextet_char(63, last) == last,
{
    reveal_strlit("ABCDEFGHIJKLMNOPQRSTUVWXYZabcdefghijklmnopqrstuvwxyz0123456789");
    let all = "ABCDEFGHIJKLMNOPQRSTUVWXYZabcdefghijklmnopqrstuvwxyz0123456789"@;
    let i = v as int;
    assert(i < 26 ==> all[i] as u32 == 'A' as u32 + i);
    assert(26 <= i < 52 ==> all[i] as u32 == 'a' as u32 + i - 26);
    assert(52 <= i ==> all[i] as u32 == '0' as u32 + i - 52);
}

/// Characters outside the alphabet stand for nothing, each other one for its
/// place in the alphabet.
pub proof fn law_characters_stand_for_their_place(s: Seq<char>, c: char, v: u8, last: char)
    requires
        v < 64,
        last == '/' || last == ',',
    ensures
        base64::sextets_in(s.push(base64::sextet_char(v, last)), last) == base64::sextets_in(
            s,
            last,
        ).push(v),
        !('A' <= c <= 'Z' || 'a' <= c <= 'z' || '0' <= c <= '9' || c == '+' || c == last)
            ==> base64::sextets_in(s.push(c), last) == base64::sextets_in(s, last),
        base64::sextets_in(Seq::empty(), last).len() == 0,
{
    base64::lemma_sextet_char(v, last);
    assert(s.push(base64::sextet_char(v, last)).drop_last() =~= s);
    assert(s.push(c).drop_last() =~= s);
}

/// Four values of six bits and three bytes are the same number of twenty-four
/// bits. At the end of a row, three values give two bytes, two give one, and
/// one gives none; the bits that are left over are dropped.
pub proof fn law_bits_are_regrouped(v: Seq<u8>, q: int)
    requires
        base64::six_bit(v),
        q >= 0,
    ensures
        ({
            let o = base64::octets(v);
            let n = v.len() as int;
            &&& 4 * q + 4 <= n ==> 3 * q + 3 <= o.len() && o[3 * q] * 65536 + o[3 * q + 1] * 256
                + o[3 * q + 2] == v[4 * q] * 262144 + v[4 * q + 1] * 4096 + v[4 * q + 2] * 64
                + v[4 * q + 3]
            &&& 4 * q + 3 == n ==> o.len() == 3 * q + 2 && o[3 * q] * 256 + o[3 * q + 1] == (
            v[4 * q] * 4096 + v[4 * q + 1] * 64 + v[4 * q + 2]) / 4
            &&& 4 * q + 2 == n ==> o.len() == 3 * q + 1 && o[3 * q] == (v[4 * q] * 64 + v[4 * q
                + 1]) / 4 / 4
            &&& 4 * q + 1 == n ==> o.len() == 3 * q
            &&& 4 * q == n ==> o.len() == 3 * q
        }),
{
    let o = base64::octets(v);
    let n = v.len() as int;
    assert((3 * q) / 3 == q && (3 * q) % 3 == 0);
    assert((3 * q + 1) / 3 == q && (3 * q + 1) % 3 == 1);
    assert((3 * q + 2) / 3 == q && (3 * q + 2) % 3 == 2);
    if 4 * q + 2 <= n {
        let (a, b) = (v[4 * q], v[4 * q + 1]);
        assert(a < 64 && b < 64);
        assert(o[3 * q] == a * 4 + b / 16);
        if 4 * q + 3 <= n {
            let c = v[4 * q + 2];
            assert(c < 64);
            assert(o[3 * q + 1] == (b % 16) * 16 + c / 4);
            if 4 * q + 4 <= n {
                let d = v[4 * q + 3];
                assert(d < 64);
                assert(o[3 * q + 2] == (c % 4) * 64 + d);
            }
        }
    }
}

/// A character of up to sixteen bits is one code unit. Any other is a pair of
/// surrogates that carry ten bits each, the high ones first, of what it exceeds
/// sixteen bits by.
pub proof fn law_characters_have_code_units(c: char, s: Seq<char>)
    ensures
        ({
            let u = utf16::units(seq![c] + s);
            let rest = utf16::units(s);
            &&& (c as u32) < 65536 ==> u.len() == 1 + rest.len() && u[0] == c as u32 && u.skip(1)
                == rest
            &&& c as u32 >= 65536 ==> u.len() == 2 + rest.len() && 0xd800 <= u[0] < 0xdc00
                && 0xdc00 <= u[1] < 0xe000 && (u[0] - 0xd800) * 1024 + (u[1] - 0xdc00)
                == c as u32 - 65536 && u.skip(2) == rest
        }),
        utf16::units(Seq::empty()).len() == 0,
{
    let all = seq![c] + s;
    assert(all.drop_first() =~= s);
    let u = utf16::units(all);
    let head = utf16::char_units(c);
    assert(u =~= head + utf16::units(s));
    assert(u.skip(head.len() as int) =~= utf16::units(s));
    let n = c as u32;
    if n >= 65536 {
        assert(u[0] == head[0] && u[1] == head[1]);
    }
}

/// A surrogate without its partner stands for nothing: there is no text with
/// it.
pub proof fn law_lone_surrogates_are_no_text(u: Seq<u16>)
    requires
        u.len() > 0,
    ensures
        0xdc00 <= u[0] < 0xe000 ==> utf16::text(u) is None,
        0xd800 <= u[0] < 0xdc00 && u.len() == 1 ==> utf16::text(u) is None,
        0xd800 <= u[0] < 0xdc00 && u.len() > 1 && !(0xdc00 <= u[1] < 0xe000) ==> utf16::text(
            u,
        ) is None,
{
}

/// A code unit is written with its high byte first, and read so.
pub proof fn law_high_byte_stands_first(u: Seq<u16>, b: Seq<u8>, i: int)
    requires
        0 <= i < u.len(),
        b.len() == 2 * u.len(),
    ensures
        utf16::units_bytes(u).len() == 2 * u.len(),
        utf16::units_bytes(u)[2 * i] * 256 + utf16::units_bytes(u)[2 * i + 1] == u[i],
        utf16::bytes_units(b).len() == u.len(),
        utf16::bytes_units(b)[i] == b[2 * i] * 256 + b[2 * i + 1],
{
    assert((2 * i) / 2 == i && (2 * i) % 2 == 0);
    assert((2 * i + 1) / 2 == i && (2 * i + 1) % 2 == 1);
}

/// Printable ASCII stands for itself in modified UTF-7, but for the ampersand,
/// which is written with a hyphen behind it.
pub proof fn law_printable_characters_stand_for_themselves(c: char, s: Seq<char>)
    requires
        ' ' <= c <= '~',
    ensures
        c != '&' ==> utf7::encode(seq![c] + s) == seq![c] + utf7::encode(s),
        c == '&' ==> utf7::encode(seq![c] + s) == seq!['&', '-'] + utf7::encode(s),
        utf7::encode(Seq::empty()).len() == 0,
{
    assert((seq![c] + s).drop_first() =~= s);
}

/// All characters of a run are written in base64.
proof fn lemma_run_is_counted(run: Seq<char>, s: Seq<char>)
    requires
        forall|i: int| 0 <= i < run.len() ==> !(' ' <= #[trigger] run[i] <= '~'),
        s.len() > 0 ==> ' ' <= s[0] <= '~',
    ensures
        utf7::shifted_run(run + s) == run.len(),
    decreases run.len(),
{
    let all = run + s;
    if run.len() > 0 {
        let rest = run.drop_first();
        assert(!(' ' <= run[0] <= '~'));
        assert forall|i: int| 0 <= i < rest.len() implies !(' ' <= #[trigger] rest[i]
            <= '~') by {
            assert(rest[i] == run[i + 1]);
        }
        lemma_run_is_counted(rest, s);
        assert(all.drop_first() =~= rest + s);
        assert(all[0] == run[0]);
        assert(utf7::is_shifted(all[0]));
    } else {
        assert(all =~= s);
        assert(s.len() > 0 ==> !utf7::is_shifted(s[0]));
    }
}

/// Each longest run of other characters is written as an ampersand, the base64
/// form of its code units without padding and with a comma as its last
/// character, and a hyphen.
pub proof fn law_other_characters_are_written_in_base64(run: Seq<char>, s: Seq<char>)
    requires
        run.len() > 0,
        forall|i: int| 0 <= i < run.len() ==> !(' ' <= #[trigger] run[i] <= '~'),
        s.len() > 0 ==> ' ' <= s[0] <= '~',
    ensures
        utf7::encode(run + s) == seq!['&'] + base64::encoded(
            utf16::units_bytes(utf16::units(run)),
            ',',
        ) + seq!['-'] + utf7::encode(s),
{
    let all = run + s;
    lemma_run_is_counted(run, s);
    assert(!(' ' <= run[0] <= '~'));
    assert(all[0] == run[0]);
    assert(all.take(run.len() as int) =~= run);
    assert(all.skip(run.len() as int) =~= s);
}

/// In modified UTF-7, what stands outside `&` and `-` stands for itself, `&-`
/// stands for an ampersand, and an ampersand without a hyphen behind it is
/// kept.
pub proof fn law_plain_parts_of_a_name_are_kept(c: char, s: Seq<char>)
    ensures
        c != '&' ==> utf7::decode(seq![c] + s) == seq![c] + utf7::decode(s),
        utf7::decode(seq!['&', '-'] + s) == seq!['&'] + utf7::decode(s),
        !s.contains('-') ==> utf7::decode(seq!['&'] + s) == seq!['&'] + utf7::decode(s),
        utf7::decode(Seq::empty()).len() == 0,
{
    assert((seq![c] + s).drop_first() =~= s);
    let a = seq!['&', '-'] + s;
    search::lemma_index_of_char_is(a.drop_first(), '-', 0);
    assert(a.drop_first().take(0).len() == 0);
    assert(a.skip(2) =~= s);
    let b = seq!['&'] + s;
    assert(b.drop_first() =~= s);
    search::lemma_index_of_char(s, '-');
}

/// What stands between `&` and `-` is base64 of code units with the high byte
/// first. It is kept, with the ampersand and the hyphen, where it makes up half
/// a code unit or lone surrogates.
pub proof fn law_shifted_parts_of_a_name_are_read(inner: Seq<char>, s: Seq<char>)
    requires
        inner.len() > 0,
        !inner.contains('-'),
    ensures
        ({
            let bytes = base64::octets(base64::sextets_in(inner, ','));
            let all = seq!['&'] + inner + seq!['-'] + s;
            &&& bytes.len() % 2 == 0 && utf16::text(utf16::bytes_units(bytes)) is Some
                ==> utf7::decode(all) == utf16::text(utf16::bytes_units(bytes))->0 + utf7::decode(s)
            &&& bytes.len() % 2 != 0 || utf16::text(utf16::bytes_units(bytes)) is None
                ==> utf7::decode(all) == seq!['&'] + inner + seq!['-'] + utf7::decode(s)
        }),
{
    let all = seq!['&'] + inner + seq!['-'] + s;
    let tail = all.drop_first();
    let n = inner.len() as int;
    assert forall|j: int| 0 <= j < n implies tail[j] != '-' by {
        assert(tail[j] == inner[j]);
    }
    search::lemma_index_of_char_is(tail, '-', n);
    assert(tail.take(n) =~= inner);
    assert(all.skip(n + 2) =~= s);
}

} // verus!
