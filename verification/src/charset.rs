//! The character sets in which header words are written.

use vstd::prelude::*;
use crate::text::{search, unicode};

verus! {

/// The character sets that are told apart.
#[derive(Debug, Clone, Copy, PartialEq, Eq, Structural)]
pub enum Charset {
    Utf8,
    Iso2022Jp,
    ShiftJis,
    EucJp,
}

/// The bytes open with a UTF-8 byte order mark. A decoder then reads what
/// follows as UTF-8, whatever character set it is for.
pub open spec fn has_utf8_mark(bytes: Seq<u8>) -> bool {
    bytes.len() >= 3 && bytes[0] == 0xef && bytes[1] == 0xbb && bytes[2] == 0xbf
}

/// The decoder of a character set has room for what it makes of the bytes.
///
/// For ISO-2022-JP and Shift_JIS it sets three times the length aside, which
/// has to fit in `isize::MAX` bytes. UTF-8 behind a byte order mark and EUC-JP
/// begin with less, rounded up to a power of two, and where malformed bytes
/// outgrow that it is doubled: from an eighth of `usize::MAX` up for UTF-8 and
/// from a twelfth up for EUC-JP, the double no longer fits.
pub open spec fn is_decodable(charset: Charset, bytes: Seq<u8>) -> bool {
    match charset {
        Charset::Utf8 => true,
        Charset::Iso2022Jp | Charset::ShiftJis => if has_utf8_mark(bytes) {
            bytes.len() <= usize::MAX / 8
        } else {
            bytes.len() <= isize::MAX / 3
        },
        Charset::EucJp => bytes.len() <= usize::MAX / 12,
    }
}

/// The text that `encoding_rs` reads out of ISO-2022-JP bytes.
pub uninterp spec fn iso_2022_jp_text(bytes: Seq<u8>) -> Seq<char>;

/// The text that `encoding_rs` reads out of Shift_JIS bytes.
pub uninterp spec fn shift_jis_text(bytes: Seq<u8>) -> Seq<char>;

/// The text that `encoding_rs` reads out of EUC-JP bytes.
pub uninterp spec fn euc_jp_text(bytes: Seq<u8>) -> Seq<char>;

/// Calls `encoding_rs::Encoding::decode` on `ISO_2022_JP`: the text is a
/// function of the bytes alone. The length is bounded because the call panics
/// where its buffer would have to be longer than `isize::MAX`.
#[verifier::external_body]
fn decode_iso_2022_jp(bytes: &[u8]) -> (r: String)
    requires
        is_decodable(Charset::Iso2022Jp, bytes@),
    ensures
        r@ == iso_2022_jp_text(bytes@),
{
    encoding_rs::ISO_2022_JP.decode(bytes).0.into_owned()
}

/// Calls `encoding_rs::Encoding::decode` on `SHIFT_JIS`: the text is a
/// function of the bytes alone. The length is bounded because the call panics
/// where its buffer would have to be longer than `isize::MAX`.
#[verifier::external_body]
fn decode_shift_jis(bytes: &[u8]) -> (r: String)
    requires
        is_decodable(Charset::ShiftJis, bytes@),
    ensures
        r@ == shift_jis_text(bytes@),
{
    encoding_rs::SHIFT_JIS.decode(bytes).0.into_owned()
}

/// Calls `encoding_rs::Encoding::decode` on `EUC_JP`: the text is a function
/// of the bytes alone. The length is bounded because the call panics where its
/// buffer would have to be longer than `isize::MAX`.
#[verifier::external_body]
fn decode_euc_jp(bytes: &[u8]) -> (r: String)
    requires
        is_decodable(Charset::EucJp, bytes@),
    ensures
        r@ == euc_jp_text(bytes@),
{
    encoding_rs::EUC_JP.decode(bytes).0.into_owned()
}

/// The character set that a lower-case name means: the first of those that it
/// mentions, and UTF-8 where it mentions none.
pub open spec fn charset_of(name: Seq<char>) -> Charset {
    if search::contains(name, "utf-8"@) {
        Charset::Utf8
    } else if search::contains(name, "iso-2022-jp"@) {
        Charset::Iso2022Jp
    } else if search::contains(name, "shift_jis"@) || search::contains(name, "sjis"@)
        || search::contains(name, "windows-31j"@) || search::contains(name, "cp932"@) {
        Charset::ShiftJis
    } else if search::contains(name, "euc-jp"@) {
        Charset::EucJp
    } else {
        Charset::Utf8
    }
}

/// The text that bytes in a character set hold.
pub open spec fn charset_text(charset: Charset, bytes: Seq<u8>) -> Seq<char> {
    match charset {
        Charset::Utf8 => unicode::utf8_text(bytes),
        Charset::Iso2022Jp => iso_2022_jp_text(bytes),
        Charset::ShiftJis => shift_jis_text(bytes),
        Charset::EucJp => euc_jp_text(bytes),
    }
}

/// The character set that the lower-case name `name` means.
pub fn charset_named(name: &str) -> (r: Charset)
    ensures
        r == charset_of(name@),
{
    if search::contains_text(name, "utf-8") {
        Charset::Utf8
    } else if search::contains_text(name, "iso-2022-jp") {
        Charset::Iso2022Jp
    } else if search::contains_text(name, "shift_jis") || search::contains_text(name, "sjis")
        || search::contains_text(name, "windows-31j") || search::contains_text(name, "cp932") {
        Charset::ShiftJis
    } else if search::contains_text(name, "euc-jp") {
        Charset::EucJp
    } else {
        Charset::Utf8
    }
}

/// The decoder of the given character set has room for `bytes`.
pub fn can_decode(charset: Charset, bytes: &[u8]) -> (r: bool)
    ensures
        r == is_decodable(charset, bytes@),
{
    let n: usize = bytes.len();
    match charset {
        Charset::Utf8 => true,
        Charset::Iso2022Jp | Charset::ShiftJis => {
            if n >= 3 && bytes[0] == 0xef && bytes[1] == 0xbb && bytes[2] == 0xbf {
                n <= usize::MAX / 8
            } else {
                n <= isize::MAX as usize / 3
            }
        },
        Charset::EucJp => n <= usize::MAX / 12,
    }
}

/// The text that `bytes` hold in the given character set. `None` is owed only
/// to bytes for which its decoder has no room.
pub fn decode_charset(charset: Charset, bytes: &[u8]) -> (r: Option<String>)
    ensures
        match r {
            Some(t) => is_decodable(charset, bytes@) && t@ == charset_text(charset, bytes@),
            None => !is_decodable(charset, bytes@),
        },
{
    if !can_decode(charset, bytes) {
        return None;
    }
    match charset {
        Charset::Utf8 => Some(unicode::text_of_bytes(bytes)),
        Charset::Iso2022Jp => Some(decode_iso_2022_jp(bytes)),
        Charset::ShiftJis => Some(decode_shift_jis(bytes)),
        Charset::EucJp => Some(decode_euc_jp(bytes)),
    }
}

} // verus!
