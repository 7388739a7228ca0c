use auximap::mailpath::{
    clean_path, is_local_lowered, is_local_path, parse_mail_path, path_of_segments, segments_of,
    strip_prefix, try_parse_mail_path, MailPath,
};
use auximap::names::{extract_uid, sanitize_filename, truncate_str};

fn path(account: Option<&str>, folder: Option<&str>, filename: Option<&str>, uid: Option<u32>) -> MailPath {
    MailPath {
        account: account.map(str::to_string),
        folder: folder.map(str::to_string),
        filename: filename.map(str::to_string),
        uid,
    }
}

#[test]
fn paths_are_cleaned() {
    assert_eq!(clean_path("  \"'a\\b'\"  "), "a/b");
    assert_eq!(clean_path("''\"x\""), "\"x");
}

#[test]
fn prefixes_are_taken_off() {
    for prefix in [
        "aux://S_auximap/",
        "aux:/S_auximap/",
        "aux:S_auximap/",
        "AUX://s_auximapmail/",
        "aux:/s_AUXIMAPMAIL/",
        "aux:S_auximapmail/",
        "aux://S_imapmail/",
        "aux:/S_imapmail/",
        "aux:S_imapmail/",
        "aux://other/",
        "aux:anything/",
    ] {
        let full = format!("{}gmail/INBOX", prefix);
        assert_eq!(parse_mail_path(&full), path(Some("gmail"), Some("INBOX"), None, None), "{}", full);
    }
    assert_eq!(parse_mail_path("aux://gmail"), path(Some("aux:"), Some("gmail"), None, None));
    assert_eq!(parse_mail_path("aux:gmail"), path(Some("aux:gmail"), None, None, None));
    assert_eq!(parse_mail_path("aux://S_auximap/"), path(None, None, None, None));
    assert_eq!(parse_mail_path(""), path(None, None, None, None));
}

#[test]
fn segments_are_told_apart() {
    assert_eq!(segments_of(" a / /b//c "), vec!["a", "b", "c"]);
    assert!(segments_of("//").is_empty());
    let segs = vec!["a".to_string(), "b".to_string(), "x.eml".to_string()];
    assert_eq!(path_of_segments(&segs, "x.eml"), path(Some("a"), Some("b"), Some("x.eml"), None));
    assert_eq!(path_of_segments(&segs, "x.EML"), path(Some("a"), Some("b/x.eml"), None, None));
}

#[test]
fn messages_are_told_from_folders() {
    assert_eq!(parse_mail_path("a/b/C.EML"), path(Some("a"), Some("b"), Some("C.EML"), None));
    assert_eq!(parse_mail_path("a/77"), path(Some("a"), None, Some("77"), Some(77)));
    assert_eq!(parse_mail_path("a/b/c/[5] x"), path(Some("a"), Some("b/c"), Some("[5] x"), Some(5)));
    assert_eq!(parse_mail_path("a/b/c"), path(Some("a"), Some("b/c"), None, None));
    assert_eq!(try_parse_mail_path("sakura/日本"), Some(path(Some("sakura"), Some("日本"), None, None)));
}

#[test]
fn path_that_cannot_be_cut_is_refused() {
    // The lower-case form of this letter is a byte longer, so that the cut
    // behind the prefix falls inside the next character.
    assert_eq!(try_parse_mail_path("İaux:S_auximap/日"), None);
    assert_eq!(strip_prefix("İaux:S_auximap/日", "i\u{307}aux:s_auximap/日"), None);
    assert_eq!(strip_prefix("aux:x/y", "aux:x/y").as_deref(), Some("y"));
}

#[test]
fn local_paths_are_told_apart() {
    assert!(is_local_path("  c:file"));
    assert!(is_local_path("//server/share"));
    assert!(is_local_path("日:x"));
    assert!(!is_local_path("/usr"));
    assert!(!is_local_path("AUX://x"));
    assert!(!is_local_path(""));
    assert!(!is_local_lowered("c:", "aux:"));
}

#[test]
fn message_numbers_are_read() {
    assert_eq!(extract_uid("[12345] x.eml"), Some(12345));
    assert_eq!(extract_uid("  678 "), Some(678));
    assert_eq!(extract_uid("a [x] [ 9 ] b"), Some(9));
    assert_eq!(extract_uid("12] x"), Some(12));
    assert_eq!(extract_uid("[4294967296]"), None);
    assert_eq!(extract_uid("no number"), None);
    assert_eq!(extract_uid("[4294967295]   "), Some(u32::MAX));
}

#[test]
fn file_names_are_made_safe() {
    assert_eq!(sanitize_filename("a\\b/c:d*e?f\"g<h>i|j\rk\nl\tm"), "a_b_c_d_e_f_g_h_i_j_k_l_m");
    assert_eq!(sanitize_filename("日本 語"), "日本 語");
    let once = sanitize_filename("a/b");
    assert_eq!(sanitize_filename(&once), once);
}

#[test]
fn long_names_are_cut() {
    assert_eq!(truncate_str("ab cdefgh", 6), "ab...");
    assert_eq!(truncate_str("abcdef", 3), "...");
    assert_eq!(truncate_str("abcdef", 2), "..");
    assert_eq!(truncate_str("abcdef", 1), ".");
    assert_eq!(truncate_str("abcdef", 0), "");
    assert_eq!(truncate_str("abcdef", 6), "abcdef");
    let cut = truncate_str("0123456789", 7);
    assert_eq!(cut, "0123...");
    assert_eq!(truncate_str(&cut, 7), cut);
}

#[test]
fn paths_with_other_letters_are_read() {
    assert_eq!(parse_mail_path("AUX:s_IMAPMAIL/仕事用/Σ"), path(Some("仕事用"), Some("Σ"), None, None));
    assert_eq!(parse_mail_path("仕事用/ÄÖ/受信"), path(Some("仕事用"), Some("ÄÖ/受信"), None, None));
    let twice = "aux://S_auximap/a/aux://S_auximap/b";
    assert_eq!(parse_mail_path(twice), path(Some("a"), Some("aux:/S_auximap/b"), None, None));
}

#[test]
fn cutting_a_name_again_changes_nothing() {
    for max in 0..8 {
        for name in ["", "ab", "abc def", "a     b", "日本語の件名です"] {
            let once = truncate_str(name, max);
            assert_eq!(truncate_str(&once, max), once);
            assert!(once.chars().count() <= max);
        }
    }
}

#[test]
fn slashes_and_backslashes_read_alike() {
    for raw in ["a/b/[7] x.eml", " \"aux://S_auximap/a/b/c\" ", "aux:S_imapmail/日本/仕事", "//a//b//", ""] {
        assert_eq!(parse_mail_path(&raw.replace('/', "\\")), parse_mail_path(raw), "{}", raw);
    }
}

#[test]
fn known_prefixes_change_nothing() {
    for prefix in ["aux://S_auximap/", "AUX:/s_AUXIMAPMAIL/", "aux:S_imapmail/"] {
        for rest in [
            "a/b/[7] x.eml", "  a\\b  ", " /a//c.EML/ ", "仕事用/受信", "   ", "",
            "İİ/ΟΔΥΣΣΕΥΣ/[8] KΣ.EML", "\u{2003}Σ\\Σa\u{3000}", "aΣ", "Ⱥux/:",
        ] {
            let full = format!("{}{}", prefix, rest);
            assert_eq!(parse_mail_path(&full), parse_mail_path(rest), "{}", full);
        }
    }
}

#[test]
fn what_a_path_names_fits_together() {
    for raw in [
        "", "a", "a/b", "a/5", "a/b/5", "a/b/x.eml", "/ a / / b\\c /", "aux://x/y", "aux:", "aux:a\\b",
        "aux://S_auximap//[1]//", "\"a/[2] b/c\"",
    ] {
        let m = parse_mail_path(raw);
        assert!(m.account.is_some() || (m.folder.is_none() && m.filename.is_none()));
        assert!(m.filename.is_some() || m.uid.is_none());
        for part in [&m.account, &m.filename].into_iter().flatten() {
            assert!(!part.is_empty() && part.trim() == part && !part.contains(['/', '\\']));
        }
        if let Some(name) = &m.filename {
            assert_eq!(m.uid, extract_uid(name));
            assert!(m.uid.is_some() || name.to_lowercase().ends_with(".eml"));
        }
        if let Some(folder) = &m.folder {
            assert!(!folder.is_empty() && !folder.contains('\\') && !folder.contains("//"));
            assert!(!folder.starts_with('/') && !folder.ends_with('/'));
        }
    }
}
