use auximap::cli::{mask_args, parse_cli_args};
use auximap::config::ViewConfig;
use auximap::html::strip_html_tags;
use auximap::listing::calculate_seq_range;
use auximap::mailpath::{is_local_path, parse_mail_path};
use auximap::message::format_mail_content;
use auximap::names::truncate_str;
use auximap::rfc2047::scan_and_decode_rfc2047;
use auximap::rules::{expand_template, match_rule_pattern};
use auximap::template::{apply_template, load_template};
use auximap::utf7::{decode_modified_utf7, encode_modified_utf7};

#[test]
fn test_parse_mail_path() {
    let p1 = parse_mail_path("aux://S_imapmail/sakura/INBOX/[12345] sender - subject.eml");
    assert_eq!(p1.account.as_deref(), Some("sakura"));
    assert_eq!(p1.folder.as_deref(), Some("INBOX"));
    assert_eq!(p1.filename.as_deref(), Some("[12345] sender - subject.eml"));
    assert_eq!(p1.uid, Some(12345));

    let p2 = parse_mail_path("sakura/INBOX.Archive/[999] test.eml");
    assert_eq!(p2.account.as_deref(), Some("sakura"));
    assert_eq!(p2.folder.as_deref(), Some("INBOX.Archive"));
    assert_eq!(p2.filename.as_deref(), Some("[999] test.eml"));
    assert_eq!(p2.uid, Some(999));

    let p3 = parse_mail_path("aux://S_imapmail/sakura/INBOX");
    assert_eq!(p3.account.as_deref(), Some("sakura"));
    assert_eq!(p3.folder.as_deref(), Some("INBOX"));
    assert_eq!(p3.filename, None);

    let p4 = parse_mail_path("sakura");
    assert_eq!(p4.account.as_deref(), Some("sakura"));
    assert_eq!(p4.folder, None);
    assert_eq!(p4.filename, None);

    let p5 = parse_mail_path("sakura/INBOX/SubFolder/[555] hello.eml");
    assert_eq!(p5.account.as_deref(), Some("sakura"));
    assert_eq!(p5.folder.as_deref(), Some("INBOX/SubFolder"));
    assert_eq!(p5.uid, Some(555));
    let p6 = parse_mail_path(r"aux://S_imapmail\sakura\INBOX");
    assert_eq!(p6.account.as_deref(), Some("sakura"));
    assert_eq!(p6.folder.as_deref(), Some("INBOX"));

    let p7 = parse_mail_path(r"aux:S_imapmail\sakura\仕事");
    assert_eq!(p7.account.as_deref(), Some("sakura"));
    assert_eq!(p7.folder.as_deref(), Some("仕事"));

    let p8 = parse_mail_path(r#""aux://S_imapmail/sakura/仕事""#);
    assert_eq!(p8.account.as_deref(), Some("sakura"));
    assert_eq!(p8.folder.as_deref(), Some("仕事"));

    let p9 = parse_mail_path("aux://S_auximap/sakura/INBOX/[12345] test.eml");
    assert_eq!(p9.account.as_deref(), Some("sakura"));
    assert_eq!(p9.folder.as_deref(), Some("INBOX"));
    assert_eq!(p9.uid, Some(12345));
}

#[test]
fn test_is_local_path() {
    assert!(is_local_path(r"C:\Users\username\Desktop"));
    assert!(is_local_path("D:/Mails/test.eml"));
    assert!(is_local_path(r"\\server\share"));
    assert!(!is_local_path("aux://S_imapmail/sakura/INBOX"));
    assert!(!is_local_path("sakura/Trash"));
}

#[test]
fn test_modified_utf7_roundtrip() {
    let cases = [
        ("INBOX.Archive", "INBOX.Archive"),
        ("INBOX.迷惑メール", "INBOX.&j,dg0TDhMPww6w-"),
        ("INBOX.証券会社", "INBOX.&ijxSOE8aeT4-"),
        ("INBOX.白饅頭日誌", "INBOX.&dn2ZRZgtZeWKjA-"),
        ("INBOX.未整理1", "INBOX.&ZypldHQG-1"),
        ("INBOX.会員登録", "INBOX.&TxpU4XZ7kzI-"),
        ("INBOX.会社から", "INBOX.&Txp5PjBLMIk-"),
        ("INBOX.下書き", "INBOX.&Tgtm+DBN-"),
        ("INBOX.ショッピング", "INBOX.&MLcw5zDDMNQw8zCw-"),
        ("INBOX.オークション", "INBOX.&MKow,DCvMLcw5zDz-"),
        ("INBOX.クレジットカード", "INBOX.&MK8w7DC4MMMwyDCrMPwwyQ-"),
        ("INBOX.その他", "INBOX.&MF0wbk7W-"),
        ("Test &- Co", "Test &-- Co"),
        ("~peter/mail/&/台北/日本語", "~peter/mail/&-/&U,BTFw-/&ZeVnLIqe-"),
    ];

    for (plain, encoded) in cases {
        assert_eq!(encode_modified_utf7(plain), encoded, "Encoding mismatch for: {}", plain);
        assert_eq!(decode_modified_utf7(encoded), plain, "Decoding mismatch for: {}", encoded);
    }
}

#[test]
fn test_truncate_str() {
    assert_eq!(truncate_str("hello", 10), "hello");
    assert_eq!(truncate_str("1234567890", 5), "12...");
    assert_eq!(truncate_str("あいうえおかきくけこ", 6), "あいう...");
}

#[test]
fn test_underscore_mime_decode() {
    let raw = "=_utf-8_q_=E3=83=A1=E3=83=AB=E3=82=AB=E3=83=AA_=";
    assert_eq!(scan_and_decode_rfc2047(raw), "メルカリ");

    let raw_standard = "=?UTF-8?B?44Oh44Or44Kr44Oq?=";
    assert_eq!(scan_and_decode_rfc2047(raw_standard), "メルカリ");
}

#[test]
fn test_strip_html_tags() {
    let html = "<html><head><style>body { color: red; }</style></head><body><p>こんにちは</p><br><div>テスト&amp;メール &lt;OK&gt;</div><script>console.log('hi');</script></body></html>";
    let text = strip_html_tags(html);
    assert!(text.contains("こんにちは"));
    assert!(text.contains("テスト&メール <OK>"));
    assert!(!text.contains("body { color: red; }"));
    assert!(!text.contains("console.log"));
}

#[test]
fn test_apply_template() {
    let tmpl = "From: {from}\nTo: {to}\nCc: {cc}\nSubject: {subject}\nAttach: {attachments}\n---\n{body}";
    let res = apply_template(
        tmpl,
        "sender@example.com",
        "to@example.com",
        "",
        "2026-09-18 01:00:00",
        "テスト件名",
        "",
        "テスト本文です。",
    );

    assert!(res.contains("From: sender@example.com"));
    assert!(res.contains("To: to@example.com"));
    assert!(!res.contains("Cc:"));
    assert!(!res.contains("Attach:"));
    assert!(res.contains("テスト件名"));
    assert!(res.contains("テスト本文です。"));
}

#[test]
fn test_format_mail_content() {
    let raw_eml = b"From: =?UTF-8?B?5bGx55Sw?= <yamada@example.com>\r\n\
To: target@example.com\r\n\
Subject: =?UTF-8?B?44OG44K544OI44Oh44O844Or?=\r\n\
Date: Fri, 18 Sep 2026 02:00:00 +0900\r\n\
Content-Type: text/plain; charset=UTF-8\r\n\
Content-Transfer-Encoding: base64\r\n\
\r\n\
44GT44KT44Gr44Gh44Gv44CB44OG44K544OI44Gn44GZ44CC\r\n";

    let view_conf = ViewConfig {
        template_file: None,
        template_inline: None,
        html_policy: "text".to_string(),
    };

    let template = load_template(None, None, &view_conf.template_inline);
    let formatted = format_mail_content(raw_eml, "local", &view_conf, &template).unwrap();
    assert!(formatted.contains("山田"));
    assert!(formatted.contains("yamada@example.com"));
    assert!(formatted.contains("テストメール"));
    assert!(formatted.contains("こんにちは、テストです。"));
}

#[test]
fn test_parse_cli_args() {
    let raw1 = vec![
        "auximap".to_string(),
        "list".to_string(),
        "sakura/INBOX".to_string(),
        "out.txt".to_string(),
        "--pass".to_string(),
        "secret123".to_string(),
        "--user".to_string(),
        "user1@example.com".to_string(),
        "--chunk".to_string(),
    ];
    let (clean1, pass1, user1) = parse_cli_args(&raw1);
    assert_eq!(pass1.as_deref(), Some("secret123"));
    assert_eq!(user1.as_deref(), Some("user1@example.com"));
    assert_eq!(clean1, vec!["auximap", "list", "sakura/INBOX", "out.txt", "--chunk"]);
    let raw2 = vec![
        "auximap".to_string(),
        "read".to_string(),
        "sakura/INBOX".to_string(),
        "100".to_string(),
        "--pass=secret456".to_string(),
        "--user=user2@example.com".to_string(),
    ];
    let (clean2, pass2, user2) = parse_cli_args(&raw2);
    assert_eq!(pass2.as_deref(), Some("secret456"));
    assert_eq!(user2.as_deref(), Some("user2@example.com"));
    assert_eq!(clean2, vec!["auximap", "read", "sakura/INBOX", "100"]);
    let raw4 = vec![
        "auximap".to_string(),
        "-debug".to_string(),
        "list".to_string(),
        "-pass".to_string(),
        "secret789".to_string(),
        "/user:user3@example.com".to_string(),
    ];
    let (clean4, pass4, user4) = parse_cli_args(&raw4);
    assert_eq!(pass4.as_deref(), Some("secret789"));
    assert_eq!(user4.as_deref(), Some("user3@example.com"));
    assert_eq!(clean4, vec!["auximap", "list"]);
}

#[test]
fn test_domain_rule_matching() {
    assert!(match_rule_pattern("gmail.com", "gmail.com"));
    assert!(match_rule_pattern("gmail.com", "GMAIL.COM"));
    assert!(!match_rule_pattern("gmail.com", "yahoo.co.jp"));
    assert!(match_rule_pattern("*.sakura.ne.jp", "example.sakura.ne.jp"));
    assert!(match_rule_pattern("*.sakura.ne.jp", "sub.tenant.sakura.ne.jp"));
    assert!(match_rule_pattern("*.sakura.ne.jp", "sakura.ne.jp"));
    assert!(!match_rule_pattern("*.sakura.ne.jp", "example.com"));

    // DEFAULT / *
    assert!(match_rule_pattern("default", "anydomain.com"));
    assert!(match_rule_pattern("*", "anydomain.com"));
}

#[test]
fn test_expand_template() {
    let tmpl1 = "{domain}";
    assert_eq!(expand_template(tmpl1, "info@example.sakura.ne.jp", "example.sakura.ne.jp"), "example.sakura.ne.jp");

    let tmpl2 = "mail.{domain}";
    assert_eq!(expand_template(tmpl2, "user@domain.com", "domain.com"), "mail.domain.com");

    let tmpl3 = "imap.{user_part}.{domain}";
    assert_eq!(expand_template(tmpl3, "admin@host.net", "host.net"), "imap.admin.host.net");
}

#[test]
fn test_calculate_seq_range() {
    assert_eq!(calculate_seq_range(10000, 100, 0), Some((9901, 10000)));
    assert_eq!(calculate_seq_range(10000, 100, 3000), Some((6901, 7000)));
    assert_eq!(calculate_seq_range(10000, 100, 9950), Some((1, 50)));
    assert_eq!(calculate_seq_range(10000, 100, 10000), None);
    assert_eq!(calculate_seq_range(10000, 100, 12000), None);
    assert_eq!(calculate_seq_range(0, 100, 0), None);
    assert_eq!(calculate_seq_range(50, 100, 0), Some((1, 50)));
    assert_eq!(calculate_seq_range(50, 100, 20), Some((1, 30)));
}

#[test]
fn test_mask_args() {
    let args1 = vec!["auximap".into(), "list".into(), "--pass".into(), "secret123".into(), "--user".into(), "test@example.com".into()];
    let masked1 = mask_args(&args1);
    assert_eq!(masked1, vec!["auximap", "list", "--pass", "********", "--user", "test@example.com"]);

    let args2 = vec!["auximap".into(), "copy".into(), "--pass=secret456".into(), "dest".into()];
    let masked2 = mask_args(&args2);
    assert_eq!(masked2, vec!["auximap", "copy", "--pass=********", "dest"]);

    let args3 = vec!["auximap".into(), "-pass".into(), "secret789".into(), "/pass:secret000".into()];
    let masked3 = mask_args(&args3);
    assert_eq!(masked3, vec!["auximap", "-pass", "********", "/pass=********"]);
}
