use auximap::text::chars::{concat2, concat3, eq_ignore_case, is_white_space, same_text};
use auximap::text::number::{decimal_text, parse_u16, parse_u32};
use auximap::text::pieces::{join_texts, lines_of, split_text};
use auximap::text::search::{
    contains_text, find_text, replace_text, text_ends_with, text_starts_with,
};
use auximap::text::trim::{
    strip_marks_back, strip_marks_front, trim_text, trim_text_end, trim_text_set,
};
use auximap::text::unicode::{lower_text, text_of_bytes, upper_text};

const SAMPLES: [&str; 12] = [
    "",
    " ",
    "abc",
    "  a b  ",
    "\u{3000}日本 語\u{3000}",
    "a\r\nb\n\nc\r",
    "\n",
    "a/b//c/",
    "aaa",
    "İstanbul Σ ß ΟΔΟΣ",
    "x=y=z",
    "\u{85}\u{a0}\u{2028}t\u{2029}",
];

#[test]
fn white_space_is_what_the_standard_says() {
    for n in 0..=0x10ffffu32 {
        if let Some(c) = char::from_u32(n) {
            assert_eq!(is_white_space(c), c.is_whitespace(), "U+{:04X}", n);
        }
    }
}

#[test]
fn trimming_agrees_with_the_standard() {
    for s in SAMPLES {
        assert_eq!(trim_text(s), s.trim());
        assert_eq!(trim_text_end(s), s.trim_end());
        assert_eq!(trim_text_set(s, &['a', '/']), s.trim_matches(['a', '/']));
    }
    assert_eq!(strip_marks_front("=?=?x=?", "=?"), "x=?");
    assert_eq!(strip_marks_back("x?=?=", "?="), "x");
    assert_eq!(trim_text(&trim_text("  a ")), trim_text("  a "));
}

#[test]
fn splitting_agrees_with_the_standard() {
    for s in SAMPLES {
        for sep in ['/', '\n', 'a', ' '] {
            let expected: Vec<&str> = s.split(sep).collect();
            assert_eq!(split_text(s, sep), expected);
        }
        let expected: Vec<&str> = s.lines().collect();
        assert_eq!(lines_of(s), expected);
    }
    let pieces = vec!["a".to_string(), "".to_string(), "b".to_string()];
    assert_eq!(join_texts(&pieces, ", "), "a, , b");
    assert_eq!(join_texts(&Vec::new(), ", "), "");
}

#[test]
fn searching_agrees_with_the_standard() {
    for s in SAMPLES {
        for pat in ["", "a", "aa", "/", "b//", "語", "xyz"] {
            assert_eq!(contains_text(s, pat), s.contains(pat));
            assert_eq!(text_starts_with(s, pat), s.starts_with(pat));
            assert_eq!(text_ends_with(s, pat), s.ends_with(pat));
            if !pat.is_empty() {
                assert_eq!(replace_text(s, pat, "-"), s.replace(pat, "-"));
                assert_eq!(replace_text(s, pat, ""), s.replace(pat, ""));
            }
        }
    }
    assert_eq!(find_text("日本語", "語"), Some(2));
    assert_eq!(find_text("日本語", "x"), None);
}

#[test]
fn numbers_agree_with_the_standard() {
    for s in [
        "0", "7", "+7", "-7", "007", "4294967295", "4294967296", "65535", "65536", "", "+", " 1", "1 ",
        "1a", "１", "99999999999999999999",
    ] {
        assert_eq!(parse_u32(s), s.parse::<u32>().ok(), "{}", s);
        assert_eq!(parse_u16(s), s.parse::<u16>().ok(), "{}", s);
    }
    for n in [0u64, 9, 10, 12345, u64::MAX] {
        assert_eq!(decimal_text(n), n.to_string());
    }
}

#[test]
fn cases_agree_with_the_standard() {
    for s in SAMPLES {
        assert_eq!(lower_text(s), s.to_lowercase());
        assert_eq!(upper_text(s), s.to_uppercase());
    }
    assert_eq!(lower_text("ABC Xyz"), "abc xyz");
    assert_eq!(upper_text("abc Xyz"), "ABC XYZ");
    assert!(eq_ignore_case("Trash", "tRASH"));
    assert!(!eq_ignore_case("É", "é"));
    assert!(!eq_ignore_case("a", "ab"));
    assert!(same_text("日本", "日本"));
    assert!(!same_text("日本", "日"));
}

#[test]
fn lower_case_goes_by_characters() {
    let alike = |s: String| s.replace('ς', "σ");
    for c in (0..0x20000).filter_map(char::from_u32) {
        let alone = alike(lower_text(&c.to_string()));
        assert_eq!(alike(lower_text(&format!("A{}Σ/", c))), format!("a{}σ/", alone));
        assert_eq!(alike(lower_text(&format!("é{}Z", c))), format!("é{}z", alone));
    }
    assert_eq!(lower_text("ΟΔΥΣΣΕΥΣ"), "οδυσσευς");
    assert_eq!(lower_text("Σ"), "σ");
}

#[test]
fn bytes_are_read_as_text() {
    assert_eq!(text_of_bytes("日本語".as_bytes()), "日本語");
    assert_eq!(text_of_bytes(b"a\xffb"), "a\u{fffd}b");
    assert_eq!(concat2("a", "b"), "ab");
    assert_eq!(concat3("a", "", "b"), "ab");
}
