use auximap::base64::decode_b64;
use auximap::charset::{can_decode, charset_named, decode_charset, Charset};
use auximap::error::DecodeError;
use auximap::rfc2047::{
    decode_fields, decode_mime_header, decode_qp, decode_single_rfc2047, scan_and_decode_rfc2047,
};
use auximap::utf16::{text_of_units, units_of};
use auximap::utf7::{
    decode_modified_b64, decode_modified_utf7, encode_modified_b64, encode_modified_utf7,
};

const ALPHABET: &[u8; 64] = b"ABCDEFGHIJKLMNOPQRSTUVWXYZabcdefghijklmnopqrstuvwxyz0123456789+/";

fn to_base64(bytes: &[u8], padding: usize) -> String {
    let mut out = String::new();
    let mut bits = 0u32;
    let mut count = 0;
    for &b in bytes {
        bits = (bits << 8) | u32::from(b);
        count += 8;
        while count >= 6 {
            count -= 6;
            out.push(char::from(ALPHABET[((bits >> count) & 63) as usize]));
        }
        bits &= (1 << count) - 1;
    }
    if count > 0 {
        out.push(char::from(ALPHABET[((bits << (6 - count)) & 63) as usize]));
    }
    for _ in 0..padding {
        out.push('=');
    }
    out
}

#[test]
fn base64_is_decoded() {
    assert_eq!(decode_b64("aGVsbG8gd29ybGQ="), Ok(b"hello world".to_vec()));
    assert_eq!(decode_b64("aGVs bG8*gd2\n9ybGQ"), Ok(b"hello world".to_vec()));
    assert_eq!(decode_b64("aGVs=bG8"), Ok(b"hel".to_vec()));
    assert_eq!(decode_b64(""), Ok(Vec::new()));
    for len in 0..40usize {
        let bytes: Vec<u8> = (0..len).map(|i| (i * 37 + 11) as u8).collect();
        for padding in 0..3 {
            assert_eq!(decode_b64(&to_base64(&bytes, padding)), Ok(bytes.clone()));
        }
    }
}

#[test]
fn utf16_round_trip() {
    let text = "aé日😀\u{10ffff}";
    let chars: Vec<char> = text.chars().collect();
    let units = units_of(&chars);
    let expected: Vec<u16> = text.encode_utf16().collect();
    assert_eq!(units, expected);
    assert_eq!(text_of_units(&units).as_deref(), Some(text));
    assert_eq!(text_of_units(&vec![0xd800]), None);
    assert_eq!(text_of_units(&vec![0xdc00, 0xd800]), None);
}

#[test]
fn modified_base64_errors() {
    assert_eq!(decode_modified_b64("AA"), Err(DecodeError::OddLength));
    assert_eq!(decode_modified_b64("2AA"), Err(DecodeError::Surrogate));
    assert_eq!(decode_modified_b64("ZeVnLIqe").as_deref(), Ok("日本語"));
    assert_eq!(encode_modified_b64(&[0x53f0, 0x5317]), "U,BTFw");
}

#[test]
fn mailbox_names_survive_a_round_trip() {
    for name in ["", "&", "&-", "a&b", "日本語", "é&日-本", "😀", "a\tb", "\u{7f}", "~", " "] {
        let encoded = encode_modified_utf7(name);
        assert!(encoded.chars().all(|c| (' '..='~').contains(&c)));
        assert_eq!(decode_modified_utf7(&encoded), name);
    }
    assert_eq!(encode_modified_utf7("Sent Items"), "Sent Items");
    assert_ne!(encode_modified_utf7("日"), encode_modified_utf7("本"));
}

#[test]
fn faulty_mailbox_names_are_kept() {
    assert_eq!(decode_modified_utf7("a&b"), "a&b");
    assert_eq!(decode_modified_utf7("&AA-x"), "&AA-x");
    assert_eq!(decode_modified_utf7("&2AA-"), "&2AA-");
    assert_eq!(decode_modified_utf7("&-&-"), "&&");
}

#[test]
fn quoted_printable_is_decoded() {
    assert_eq!(decode_qp("a_b=20c"), Ok(b"a b c".to_vec()));
    assert_eq!(decode_qp("=e3=81=82"), Ok("あ".as_bytes().to_vec()));
    assert_eq!(decode_qp("=+5x"), Ok(vec![5, b'x']));
    assert_eq!(decode_qp("=zz"), Ok(b"=zz".to_vec()));
    assert_eq!(decode_qp("=4"), Ok(b"=4".to_vec()));
    assert_eq!(decode_qp("é="), Ok("é=".as_bytes().to_vec()));
    assert_eq!(decode_qp("=é"), Ok("=é".as_bytes().to_vec()));
    assert_eq!(decode_qp("=あ"), Err(DecodeError::Escape));
}

#[test]
fn encoded_words_can_fail() {
    assert_eq!(decode_single_rfc2047("=?utf-8?=", '?'), Err(DecodeError::Syntax));
    assert_eq!(decode_single_rfc2047("=?utf-8?X?abc?=", '?'), Err(DecodeError::Encoding));
    assert_eq!(decode_single_rfc2047("=?utf-8?Q?=あ?=", '?'), Err(DecodeError::Escape));
    assert_eq!(decode_single_rfc2047("=?utf-8?q?a_b?=", '?').as_deref(), Ok("a b"));
    assert_eq!(decode_fields("utf-8", "Q", "x").as_deref(), Ok("x"));
    assert_eq!(decode_fields("utf-8", "q", "x"), Err(DecodeError::Encoding));
}

#[test]
fn japanese_character_sets_are_decoded() {
    assert_eq!(scan_and_decode_rfc2047("=?ISO-2022-JP?B?GyRCRnxLXBsoQg==?="), "日本");
    assert_eq!(scan_and_decode_rfc2047("=?Shift_JIS?B?k/qWew==?="), "日本");
    assert_eq!(scan_and_decode_rfc2047("=?cp932?Q?=93=FA=96=7B?="), "日本");
    assert_eq!(scan_and_decode_rfc2047("=?EUC-JP?B?xvzL3A==?="), "日本");
    assert_eq!(scan_and_decode_rfc2047("=?unknown?B?5pel?="), "日");
}

#[test]
fn charsets_are_told_apart() {
    assert_eq!(charset_named("utf-8"), Charset::Utf8);
    assert_eq!(charset_named("x-utf-8-sjis"), Charset::Utf8);
    assert_eq!(charset_named("iso-2022-jp-ms"), Charset::Iso2022Jp);
    assert_eq!(charset_named("x-sjis"), Charset::ShiftJis);
    assert_eq!(charset_named("windows-31j"), Charset::ShiftJis);
    assert_eq!(charset_named("euc-jp"), Charset::EucJp);
    assert_eq!(charset_named("latin1"), Charset::Utf8);
    assert_eq!(decode_charset(Charset::ShiftJis, b"\x93\xfa").as_deref(), Some("日"));
    assert_eq!(decode_charset(Charset::EucJp, b"\xc6\xfc").as_deref(), Some("日"));
    assert_eq!(decode_charset(Charset::Iso2022Jp, b"\x1b$BF|\x1b(B").as_deref(), Some("日"));
    assert_eq!(decode_charset(Charset::Utf8, b"\xe6\x97\xa5").as_deref(), Some("日"));
}

#[test]
fn decoders_follow_a_byte_order_mark() {
    for charset in [Charset::Iso2022Jp, Charset::ShiftJis, Charset::EucJp] {
        assert!(can_decode(charset, b""));
        assert!(can_decode(charset, b"\xef\xbb\xbf\xe6\x97\xa5"));
        assert_eq!(decode_charset(charset, b"\xef\xbb\xbf\xe6\x97\xa5").as_deref(), Some("日"));
        assert_eq!(decode_charset(charset, b"\xef\xbb\xbf\xff").as_deref(), Some("\u{fffd}"));
    }
    assert!(can_decode(Charset::Utf8, b"\xff"));
}

#[test]
fn white_space_in_base64_does_not_count() {
    for text in ["aGVs\r\n bG8g\td29y\u{3000}bGQ=", " aGVs bG8 = d29y", "\n=\n", " ", "a G V s"] {
        let bare: String = text.chars().filter(|c| !c.is_whitespace()).collect();
        assert_eq!(decode_b64(text), decode_b64(&bare), "{:?}", text);
    }
    assert_eq!(decode_b64("aGVs\r\n bG8g\td29y\u{3000}bGQ="), Ok(b"hello world".to_vec()));
}

#[test]
fn header_texts_are_decoded_in_place() {
    assert_eq!(scan_and_decode_rfc2047("plain = text"), "plain = text");
    assert_eq!(
        scan_and_decode_rfc2047("Re: =?utf-8?B?5pel?= and =?utf-8?Q?=E6=9C=AC?=!"),
        "Re: 日 and 本!"
    );
    assert_eq!(scan_and_decode_rfc2047("=?utf-8?X?abc?= x"), "=?utf-8?X?abc?= x");
    assert_eq!(scan_and_decode_rfc2047("=?utf-8?B?"), "=?utf-8?B?");
    assert_eq!(scan_and_decode_rfc2047("=?utf-8?B??="), "=?utf-8?B??=");
    assert_eq!(scan_and_decode_rfc2047(""), "");
    assert_eq!(decode_mime_header(b"=?UTF-8?B?44Oh44Or44Kr44Oq?="), "メルカリ");
    assert_eq!(decode_mime_header("生の日本語".as_bytes()), "生の日本語");
    assert_eq!(decode_mime_header(b"a\xff"), "a\u{fffd}");
}

#[test]
fn base64_words_give_their_text_back() {
    for text in ["a", "日本語", "x?y=z", "😀 mixed テスト"] {
        for padding in 0..3 {
            let word = format!("=?UTF-8?B?{}?=", to_base64(text.as_bytes(), padding));
            assert_eq!(scan_and_decode_rfc2047(&word), text);
        }
    }
}
