//! UTF-16 code units.

use vstd::prelude::*;

verus! {

/// The code units of one character: one, or a pair of surrogates.
pub open spec fn char_units(c: char) -> Seq<u16> {
    let n = c as u32;
    if n < 0x10000 {
        seq![n as u16]
    } else {
        seq![
            (0xd800 + (n - 0x10000) / 0x400) as u16,
            (0xdc00 + (n - 0x10000) % 0x400) as u16,
        ]
    }
}

/// The code units of a text.
pub open spec fn units(s: Seq<char>) -> Seq<u16>
    decreases s.len(),
{
    if s.len() == 0 {
        seq![]
    } else {
        char_units(s[0]) + units(s.drop_first())
    }
}

/// `u` is the first half of a surrogate pair.
pub open spec fn is_high(u: u16) -> bool {
    0xd800 <= u <= 0xdbff
}

/// `u` is the second half of a surrogate pair.
pub open spec fn is_low(u: u16) -> bool {
    0xdc00 <= u <= 0xdfff
}

/// The text that a row of code units stands for, if every surrogate in it has
/// its partner.
pub open spec fn text(u: Seq<u16>) -> Option<Seq<char>>
    decreases u.len(),
{
    if u.len() == 0 {
        Some(seq![])
    } else if !is_high(u[0]) && !is_low(u[0]) {
        match text(u.skip(1)) {
            Some(t) => Some(seq![u[0] as char] + t),
            None => None,
        }
    } else if is_high(u[0]) && u.len() > 1 && is_low(u[1]) {
        match text(u.skip(2)) {
            Some(t) => Some(
                seq![(0x10000 + (u[0] - 0xd800) * 0x400 + (u[1] - 0xdc00)) as char] + t,
            ),
            None => None,
        }
    } else {
        None
    }
}

/// The bytes of a row of code units, the high byte first.
pub open spec fn units_bytes(u: Seq<u16>) -> Seq<u8> {
    Seq::new(
        2 * u.len(),
        |i: int|
            if i % 2 == 0 {
                (u[i / 2] / 256) as u8
            } else {
                (u[i / 2] % 256) as u8
            },
    )
}

/// The code units that a row of bytes makes up in pairs, the high byte first.
pub open spec fn bytes_units(b: Seq<u8>) -> Seq<u16> {
    Seq::new(b.len() / 2, |i: int| (b[2 * i] * 256 + b[2 * i + 1]) as u16)
}

/// The bytes of code units make up the code units.
pub proof fn lemma_bytes_units(u: Seq<u16>)
    ensures
        bytes_units(units_bytes(u)) == u,
        units_bytes(u).len() % 2 == 0,
{
    let b = units_bytes(u);
    assert forall|i: int| 0 <= i < u.len() implies (b[2 * i] * 256 + b[2 * i + 1]) as u16
        == u[i] by {
        assert((2 * i) / 2 == i);
        assert((2 * i + 1) / 2 == i);
    }
    assert(bytes_units(b) =~= u);
}

/// The code units of a character, taken by themselves, stand for it.
proof fn lemma_char_units(c: char)
    ensures
        ({
            let u = char_units(c);
            if u.len() == 1 {
                !is_high(u[0]) && !is_low(u[0]) && u[0] as char == c
            } else {
                u.len() == 2 && is_high(u[0]) && is_low(u[1]) && (0x10000 + (u[0] - 0xd800) * 0x400
                    + (u[1] - 0xdc00)) as char == c
            }
        }),
{
}

/// The code units of a text stand for the text.
pub proof fn lemma_text_units(s: Seq<char>)
    ensures
        text(units(s)) == Some(s),
    decreases s.len(),
{
    if s.len() > 0 {
        let rest = s.drop_first();
        lemma_text_units(rest);
        let head = char_units(s[0]);
        let u = units(s);
        assert(u.skip(head.len() as int) =~= units(rest));
        assert(u[0] == head[0]);
        lemma_char_units(s[0]);
        if head.len() == 2 {
            assert(u[1] == head[1]);
        }
        assert(seq![s[0]] + rest =~= s);
    } else {
        assert(s =~= seq![]);
    }
}

/// Appends the code units of `c`.
pub fn push_char_units(out: &mut Vec<u16>, c: char)
    ensures
        final(out)@ == old(out)@ + char_units(c),
{
    let n: u32 = c as u32;
    if n < 0x10000 {
        out.push(n as u16);
    } else {
        out.push((0xd800 + (n - 0x10000) / 0x400) as u16);
        out.push((0xdc00 + (n - 0x10000) % 0x400) as u16);
    }
    assert(out@ =~= old(out)@ + char_units(c));
}

/// The code units of a row of characters.
pub fn units_of(s: &[char]) -> (r: Vec<u16>)
    ensures
        r@ == units(s@),
{
    let mut out: Vec<u16> = Vec::new();
    let mut i: usize = 0;
    assert(s@.skip(0) =~= s@);
    assert(out@ + units(s@) =~= units(s@));
    while i < s.len()
        invariant
            i <= s.len(),
            out@ + units(s@.skip(i as int)) == units(s@),
        decreases s.len() - i,
    {
        let ghost before = out@;
        let ghost rest = s@.skip(i as int);
        push_char_units(&mut out, s[i]);
        i += 1;
        assert(rest.drop_first() =~= s@.skip(i as int));
        assert(before + (char_units(rest[0]) + units(s@.skip(i as int))) =~= out@ + units(
            s@.skip(i as int),
        ));
    }
    assert(s@.skip(i as int) =~= seq![]);
    assert(out@ + units(seq![]) =~= out@);
    out
}

/// The bytes of a row of code units.
pub fn bytes_of_units(u: &[u16]) -> (r: Vec<u8>)
    ensures
        r@ == units_bytes(u@),
{
    let mut out: Vec<u8> = Vec::new();
    let mut i: usize = 0;
    while i < u.len()
        invariant
            i <= u.len(),
            out.len() == 2 * i,
            forall|k: int| 0 <= k < out.len() ==> out@[k] == units_bytes(u@)[k],
        decreases u.len() - i,
    {
        out.push((u[i] / 256) as u8);
        out.push((u[i] % 256) as u8);
        i += 1;
    }
    assert(out@ =~= units_bytes(u@));
    out
}

/// The code units that a row of bytes makes up in pairs.
pub fn units_of_bytes(b: &Vec<u8>) -> (r: Vec<u16>)
    ensures
        r@ == bytes_units(b@),
{
    let n: usize = b.len() / 2;
    let mut out: Vec<u16> = Vec::new();
    let mut i: usize = 0;
    while i < n
        invariant
            n == b.len() / 2,
            i <= n,
            out.len() == i,
            forall|k: int| 0 <= k < i ==> out@[k] == bytes_units(b@)[k],
        decreases n - i,
    {
        out.push(b[2 * i] as u16 * 256 + b[2 * i + 1] as u16);
        i += 1;
    }
    assert(out@ =~= bytes_units(b@));
    out
}

/// The character with the code point `n`.
fn char_of_code(n: u32) -> (c: char)
    requires
        n < 0xd800 || 0xe000 <= n <= 0x10ffff,
    ensures
        c == n as char,
{
    match char::from_u32(n) {
        Some(c) => c,
        None => '\u{fffd}',
    }
}

/// The text that a row of code units stands for.
pub fn text_of_units(u: &Vec<u16>) -> (r: Option<String>)
    ensures
        match r {
            Some(t) => text(u@) == Some(t@),
            None => text(u@) is None,
        },
{
    let mut out = String::new();
    let mut i: usize = 0;
    assert(u@.skip(0) =~= u@);
    proof {
        if text(u@) is Some {
            assert(out@ + text(u@)->0 =~= text(u@)->0);
        }
    }
    while i < u.len()
        invariant
            i <= u.len(),
            text(u@) is Some <==> text(u@.skip(i as int)) is Some,
            text(u@) is Some ==> out@ + text(u@.skip(i as int))->0 == text(u@)->0,
        decreases u.len() - i,
    {
        let ghost rest = u@.skip(i as int);
        let ghost before = out@;
        let a: u16 = u[i];
        if !(0xd800 <= a && a <= 0xdfff) {
            let c = char_of_code(a as u32);
            out.push(c);
            i += 1;
            assert(rest.skip(1) =~= u@.skip(i as int));
            proof {
                if text(u@) is Some {
                    let t = text(u@.skip(i as int))->0;
                    assert(before + (seq![c] + t) =~= out@ + t);
                }
            }
        } else {
            if !(a <= 0xdbff && i + 1 < u.len()) {
                return None;
            }
            let b: u16 = u[i + 1];
            assert(rest[1] == b);
            if !(0xdc00 <= b && b <= 0xdfff) {
                return None;
            }
            let n: u32 = 0x10000 + (a as u32 - 0xd800) * 0x400 + (b as u32 - 0xdc00);
            let c = char_of_code(n);
            out.push(c);
            i += 2;
            assert(rest.skip(2) =~= u@.skip(i as int));
            proof {
                if text(u@) is Some {
                    let t = text(u@.skip(i as int))->0;
                    assert(before + (seq![c] + t) =~= out@ + t);
                }
            }
        }
    }
    assert(u@.skip(i as int) =~= seq![]);
    assert(out@ + seq![] =~= out@);
    Some(out)
}

} // verus!
