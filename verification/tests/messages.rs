use auximap::config::{AccountConfig, ViewConfig, Written};
use auximap::date::{
    choose_date, clock_named, format_date, format_message_date, local_offset, offset_for,
    offset_shown, parse_envelope_date, parse_header_date, Clock, MailDate,
};
use auximap::entry::{
    combine_sender, date_of, directory_line, folder_line, list_heading, make_entry_line,
    make_entry_name, message_line_at, message_sender, message_subject, write_message_entries,
    write_message_entry, write_opening, Address, Envelope, ListStep, MessageSummary,
};
use auximap::html::{decode_html_entities, strip_html_tags, tag_kind_of, TagKind};
use auximap::listing::{Listing, Request};
use auximap::mailpath::parse_mail_path;
use auximap::message::{
    extract_mail_parts, format_mail_content, get_header, read_mail, show_mail, Mail, MailError,
    MailPart,
};
use auximap::names::extract_uid;
use auximap::template::{apply_template, load_template};

fn view(policy: &str) -> ViewConfig {
    ViewConfig { template_file: None, template_inline: None, html_policy: policy.to_string() }
}

fn part(mimetype: &str, body: Option<&str>) -> MailPart {
    MailPart {
        subparts: 0,
        attachment: false,
        disposition_params: Vec::new(),
        mimetype: mimetype.to_string(),
        type_params: Vec::new(),
        raw_body: body.map(|b| b.as_bytes().to_vec()),
        body: body.map(str::to_string),
    }
}

fn bytes(s: &str) -> Option<Vec<u8>> {
    Some(s.as_bytes().to_vec())
}

fn summary() -> MessageSummary {
    MessageSummary {
        uid: Some(42),
        size: Some(1234),
        internal_date: Some(MailDate { seconds: 1_758_153_600, nanos: 0, offset: 32400 }),
        envelope: Some(Envelope {
            date: bytes(" Thu, 18 Sep 2025 02:00:00 +0900 "),
            subject: bytes("=?UTF-8?B?44OG44K544OI?= a/b"),
            from: Some(vec![Address {
                name: bytes("=?utf-8?Q?Yamada?="),
                mailbox: bytes("yamada"),
                host: bytes("example.com"),
            }]),
        }),
    }
}

fn account(timezone: &str, date_source: &str) -> AccountConfig {
    AccountConfig {
        name: "x".to_string(),
        host: String::new(),
        port: 993,
        user: String::new(),
        pass: String::new(),
        ssl: true,
        trash_folder: String::new(),
        limit: 0,
        offset: 0,
        chunk_size: 0,
        timezone: timezone.to_string(),
        date_source: date_source.to_string(),
        written: Written { host: None, port: None, ssl: None, trash_folder: None },
    }
}

#[test]
fn dates_are_read_and_shown() {
    let d = parse_header_date("  Fri, 18 Sep 2026 02:00:00 +0900 ").unwrap();
    assert_eq!(d, MailDate { seconds: 1_789_664_400, nanos: 0, offset: 32400 });
    assert_eq!(parse_header_date("yesterday"), None);
    assert_eq!(format_date(d, Clock::Server, None).as_deref(), Some("2026-09-18 02:00:00"));
    assert_eq!(format_date(d, Clock::Utc, None).as_deref(), Some("2026-09-17 17:00:00"));
    assert_eq!(format_date(d, Clock::Local, Some(3600)).as_deref(), Some("2026-09-17 18:00:00"));
    assert_eq!(format_date(d, Clock::Local, None), None);
    assert_eq!(format_date(d, Clock::Local, Some(100_000)), None);
    let beyond = MailDate { seconds: i64::MAX, nanos: 0, offset: 0 };
    assert_eq!(format_date(beyond, Clock::Utc, None), None);
    assert_eq!(local_offset(None), None);
    let offset_at = |seconds: i64| local_offset(Some(MailDate { seconds, nanos: 0, offset: 0 }));
    for seconds in [d.seconds, 0, -8_334_601_228_800, 8_210_266_876_799] {
        assert!(matches!(offset_at(seconds), Some(o) if -86_400 < o && o < 86_400));
    }
    for seconds in [-8_334_601_228_801, 8_210_266_876_800, i64::MIN, i64::MAX] {
        assert_eq!(offset_at(seconds), None);
    }
}

#[test]
fn the_machine_is_asked_for_its_own_clock_only() {
    let d = Some(MailDate { seconds: 1_789_664_400, nanos: 0, offset: 32400 });
    assert_eq!(offset_for(d, Clock::Server), None);
    assert_eq!(offset_for(d, Clock::Utc), None);
    assert_eq!(offset_for(d, Clock::Local), local_offset(d));
    assert_eq!(offset_for(None, Clock::Local), None);
}

#[test]
fn clocks_are_named() {
    assert_eq!(clock_named("server"), Clock::Server);
    assert_eq!(clock_named("raw"), Clock::Server);
    assert_eq!(clock_named("utc"), Clock::Utc);
    assert_eq!(clock_named("local"), Clock::Local);
    assert_eq!(clock_named("UTC"), Clock::Local);
    let d = MailDate { seconds: 0, nanos: 0, offset: 60 };
    assert_eq!(offset_shown(d, Clock::Server, Some(5)), Some(60));
    assert_eq!(offset_shown(d, Clock::Utc, Some(5)), Some(0));
    assert_eq!(offset_shown(d, Clock::Local, Some(5)), Some(5));
}

#[test]
fn either_date_is_taken() {
    let a = MailDate { seconds: 1, nanos: 0, offset: 0 };
    let b = MailDate { seconds: 2, nanos: 0, offset: 0 };
    assert_eq!(choose_date(Some(a), Some(b), "internal"), Some(a));
    assert_eq!(choose_date(Some(a), Some(b), "header"), Some(b));
    assert_eq!(choose_date(None, Some(b), "internal"), Some(b));
    assert_eq!(choose_date(Some(a), None, "header"), Some(a));
    assert_eq!(choose_date(None, None, "header"), None);
    assert_eq!(parse_envelope_date(&None), None);
    assert_eq!(format_message_date(None, "utc", None, "now"), "now");
    assert_eq!(format_message_date(Some(a), "utc", None, "now"), "1970-01-01 00:00:01");
}

#[test]
fn entries_are_written() {
    let s = summary();
    assert_eq!(message_sender(&s.envelope), "Yamada (yamada@example.com)");
    assert_eq!(message_subject(&s.envelope), "テスト a/b");
    assert_eq!(
        make_entry_line(&s, "2025-09-18 09:00:00"),
        "\"[42] テスト a_b - Yamada (yamada@example.com).eml\",A:H20,S:1234,W:2025-09-18 09:00:00\r\n"
    );
    assert_eq!(
        write_message_entry(&s, &account("utc", "internal"), "now"),
        "\"[42] テスト a_b - Yamada (yamada@example.com).eml\",A:H20,S:1234,W:2025-09-18 00:00:00\r\n"
    );
    assert_eq!(
        message_line_at(&s, "server", "header", None, "now"),
        "\"[42] テスト a_b - Yamada (yamada@example.com).eml\",A:H20,S:1234,W:2025-09-18 02:00:00\r\n"
    );
    assert_eq!(date_of(&s, "header").map(|d| d.seconds), Some(1_758_128_400));
    assert_eq!(directory_line("日本", "now"), "\"日本\",A:H10,W:now\r\n");
}

#[test]
fn entries_without_an_envelope_are_written() {
    let s = MessageSummary { uid: None, size: None, internal_date: None, envelope: None };
    assert_eq!(
        write_message_entry(&s, &account("local", "internal"), "now"),
        "\"[0] (no subject) - unknown.eml\",A:H20,S:0,W:now\r\n"
    );
}

#[test]
fn folders_are_listed_by_their_readable_names() {
    assert_eq!(list_heading(), ";ListFile\r\n");
    assert_eq!(folder_line("&ZeVnLIqe-", "now").as_deref(), Some("\"日本語\",A:H10,W:now\r\n"));
    assert_eq!(folder_line("", "now"), None);
}

#[test]
fn listings_are_opened() {
    for (step, on_success, on_failure) in [
        (ListStep::Settings, "", ";ListFile\r\n"),
        (ListStep::Account, "", ""),
        (ListStep::Connection, "", ";ListFile\r\n"),
        (ListStep::Contents, ";ListFile\r\n", ""),
    ] {
        assert_eq!(write_opening(step, true), on_success, "{:?}", step);
        assert_eq!(write_opening(step, false), on_failure, "{:?}", step);
    }
}

#[test]
fn answers_are_listed_newest_first() {
    let numbered = |uid: u32| MessageSummary {
        uid: Some(uid),
        size: None,
        internal_date: None,
        envelope: None,
    };
    let acc = account("utc", "header");
    let answer = vec![numbered(1), numbered(2), numbered(3)];
    let line = |uid: u32| format!("\"[{}] (no subject) - unknown.eml\",A:H20,S:0,W:now\r\n", uid);
    assert_eq!(
        write_message_entries(Request::Range(1, 3), &answer, &acc, "now"),
        vec![line(3), line(2), line(1)]
    );
    assert_eq!(
        write_message_entries(Request::One(1), &answer, &acc, "now"),
        vec![line(1), line(2), line(3)]
    );
    assert!(write_message_entries(Request::Range(1, 3), &Vec::new(), &acc, "now").is_empty());
}

#[test]
fn senders_are_combined() {
    assert_eq!(combine_sender("A".into(), "a@b".into()), "A (a@b)");
    assert_eq!(combine_sender("A@B".into(), "a@b".into()), "a@b");
    assert_eq!(combine_sender("A".into(), "".into()), "A");
    assert_eq!(combine_sender("".into(), "a@b".into()), "a@b");
    assert_eq!(combine_sender("".into(), "".into()), "unknown");
    let half = Some(Envelope {
        date: None,
        subject: None,
        from: Some(vec![Address { name: None, mailbox: bytes("m"), host: None }]),
    });
    assert_eq!(message_sender(&half), "unknown");
    let none = Some(Envelope { date: None, subject: None, from: Some(Vec::new()) });
    assert_eq!(message_sender(&none), "unknown");
    assert_eq!(message_subject(&none), "(no subject)");
}

#[test]
fn entry_names_are_short_safe_and_numbered() {
    let subject = "件名/".repeat(100);
    let sender = "sender<x>".repeat(30);
    for uid in [0, 7, u32::MAX] {
        let name = make_entry_name(uid, &subject, &sender);
        assert!(name.chars().count() <= 160);
        assert!(name.ends_with(".eml"));
        assert!(!name.contains(['\\', '/', ':', '*', '?', '"', '<', '>', '|', '\r', '\n', '\t']));
        assert_eq!(extract_uid(&name), Some(uid));
    }
    assert_eq!(make_entry_name(1, "s", "f"), "[1] s - f.eml");
}

#[test]
fn html_becomes_text() {
    assert_eq!(strip_html_tags("<p>a</p><br>b"), "a\n\nb");
    assert_eq!(strip_html_tags("<ul><li>x</li><LI>y</li></ul>"), "x\ny");
    assert_eq!(strip_html_tags("a<SCRIPT src=x>if (1) {}</ScRiPt>b<style>c</style>d"), "abd");
    assert_eq!(strip_html_tags("open <b unclosed"), "open");
    assert_eq!(strip_html_tags("no tags &amp; none"), "no tags & none");
    assert_eq!(tag_kind_of("script"), TagKind::Hide);
    assert_eq!(tag_kind_of("/style"), TagKind::Show);
    assert_eq!(tag_kind_of("br/"), TagKind::Break);
    assert_eq!(tag_kind_of("/h1"), TagKind::Break);
    assert_eq!(tag_kind_of("li"), TagKind::Break);
    assert_eq!(tag_kind_of("b"), TagKind::Other);
}

#[test]
fn entities_are_decoded() {
    assert_eq!(
        decode_html_entities("a&nbsp;&lt;b&gt;&amp;amp;\r\n\n\n\nc &copy;&reg;&quot;&apos;&#39; "),
        "a <b>&amp;\n\nc ©®\"''"
    );
    assert_eq!(decode_html_entities("&amp;lt;"), "<");
    assert_eq!(decode_html_entities("\n\n x \r\n \n"), "x");
    let tidy = decode_html_entities("a\n\r\n\n\nb");
    assert_eq!(tidy, "a\n\nb");
}

#[test]
fn templates_are_filled() {
    assert_eq!(
        apply_template("{from}|{to}\r\n{cc}\n{attachments}{date}\n{subject}\n{body}", "F", "T", "C", "D", "S", "A", "B"),
        "F|T\r\nC\r\nAD\r\nS\r\nB"
    );
    assert_eq!(apply_template("a\nCc: {cc}\nb", "", "", "", "", "", "x", ""), "a\r\nb");
    assert_eq!(apply_template("a\nAt: {attachments}\nb", "", "", "c", "", "", "", ""), "a\r\nb");
    assert_eq!(apply_template("{from}", "{to}", "T", "c", "", "", "a", ""), "T");
    assert_eq!(apply_template("", "f", "t", "c", "d", "s", "a", "b"), "");
}

#[test]
fn templates_are_chosen() {
    let some = |s: &str| Some(s.to_string());
    assert_eq!(load_template(some("1"), some("2"), &some("3")), "1");
    assert_eq!(load_template(None, some("2"), &some("3")), "2");
    assert_eq!(load_template(None, None, &some("3")), "3");
    let default = load_template(None, None, &some(""));
    assert_eq!(default, load_template(None, None, &None));
    assert!(default.starts_with("From   : {from}\nTo     : {to}\n"));
    assert!(default.ends_with("----\n\n{body}"));
}

#[test]
fn parts_are_sorted_out() {
    let mut attached = part("application/pdf", Some("12345"));
    attached.disposition_params = vec![("filename".to_string(), "=?utf-8?B?5pel?=.pdf".to_string())];
    let mut named = part("image/png", None);
    named.type_params = vec![("name".to_string(), "p.png".to_string())];
    let mut named_text = part("text/plain", Some("named"));
    named_text.type_params = vec![("name".to_string(), "n.txt".to_string())];
    let mut forced = part("text/plain", Some("forced"));
    forced.attachment = true;
    let mut outer = part("multipart/mixed", Some("outer"));
    outer.subparts = 2;
    let parts = vec![
        outer,
        part("text/plain", Some("one")),
        part("text/html", Some("<b>two</b>")),
        attached,
        named,
        named_text,
        forced,
        part("text/plain", None),
        part("application/x", Some("ignored")),
    ];
    let mut plain = vec!["zero".to_string()];
    let mut html = Vec::new();
    let mut attachments = Vec::new();
    extract_mail_parts(&parts, &mut plain, &mut html, &mut attachments);
    assert_eq!(plain, vec!["zero", "one", "named"]);
    assert_eq!(html, vec!["<b>two</b>"]);
    assert_eq!(attachments, vec!["日.pdf (5 B)", "p.png (0 B)", "attachment.bin (6 B)"]);
}

#[test]
fn messages_are_shown() {
    let mail = Mail {
        headers: vec![
            ("subject".to_string(), "S".to_string()),
            ("From".to_string(), "F".to_string()),
            ("Date".to_string(), "Fri, 18 Sep 2026 02:00:00 +0900".to_string()),
        ],
        parts: vec![part("text/html", Some("<p>x</p>")), part("text/html", Some("y"))],
    };
    let template = "{from}|{to}|{date}|{subject}|{body}";
    assert_eq!(show_mail(&mail, "utc", "text", template, None), "F||2026-09-17 17:00:00|S|x\n\ny");
    assert_eq!(show_mail(&mail, "raw", "RAW", template, None), "F||2026-09-18 02:00:00|S|<p>x</p>\r\n\r\ny");
    assert_eq!(show_mail(&mail, "local", "text", "{date}", Some(0)), "2026-09-17 17:00:00");
    assert_eq!(show_mail(&mail, "local", "text", "{date}", None), "Fri, 18 Sep 2026 02:00:00 +0900");
    assert_eq!(get_header(&mail.headers, "SUBJECT"), "S");
    assert_eq!(get_header(&mail.headers, "Cc"), "");
    let empty = Mail { headers: vec![("Date".to_string(), "soon".to_string())], parts: Vec::new() };
    assert_eq!(show_mail(&empty, "utc", "text", "{date} {body}", None), "soon (No text content)");
}

#[test]
fn plain_text_is_preferred() {
    let mail = Mail {
        headers: Vec::new(),
        parts: vec![part("text/html", Some("rich")), part("text/plain", Some("plain"))],
    };
    assert_eq!(show_mail(&mail, "utc", "text", "{body}", None), "plain");
    assert_eq!(show_mail(&mail, "utc", "raw", "{body}", None), "plain");
}

#[test]
fn multipart_messages_are_read() {
    let raw = b"Subject: =?UTF-8?B?5pel5pys?=\r\n\
Cc: c@example.com\r\n\
Content-Type: multipart/mixed; boundary=xx\r\n\
\r\n\
--xx\r\n\
Content-Type: multipart/alternative; boundary=yy\r\n\
\r\n\
--yy\r\n\
Content-Type: text/plain; charset=iso-2022-jp\r\n\
\r\n\
\x1b$BF|\x1b(B\r\n\
--yy\r\n\
Content-Type: text/html\r\n\
\r\n\
<b>x</b>\r\n\
--yy--\r\n\
--xx\r\n\
Content-Type: application/octet-stream\r\n\
Content-Disposition: attachment; filename=\"a.bin\"\r\n\
Content-Transfer-Encoding: base64\r\n\
\r\n\
AAAA\r\n\
--xx--\r\n";
    let mail = read_mail(raw).unwrap();
    let types: Vec<&str> = mail.parts.iter().map(|p| p.mimetype.as_str()).collect();
    assert_eq!(
        types,
        vec![
            "multipart/mixed",
            "multipart/alternative",
            "text/plain",
            "text/html",
            "application/octet-stream"
        ]
    );
    let held: Vec<usize> = mail.parts.iter().map(|p| p.subparts).collect();
    assert_eq!(held, vec![2, 2, 0, 0, 0]);
    assert!(mail.parts[4].attachment);
    let shown =
        format_mail_content(raw, "utc", &view("text"), "{subject}|{cc}|{attachments}|{body}").unwrap();
    assert_eq!(shown, "日本|c@example.com|a.bin (3 B)|日");
}

#[test]
fn malformed_messages_are_reported() {
    let mut raw = Vec::new();
    for i in 0..110 {
        raw.extend_from_slice(format!("Content-Type: multipart/mixed; boundary=x{:03}\n\n--x{:03}\n", i, i).as_bytes());
    }
    match format_mail_content(&raw, "utc", &view("text"), "{body}") {
        Err(MailError::Malformed(reason)) => assert_eq!(reason, "Recursion limit reached"),
        other => panic!("{:?}", other),
    }
}

#[test]
fn listed_messages_are_found_again() {
    for (folder, subject) in [("INBOX", "a/b\\c"), ("仕事/2025", "aux://S_imapmail/x 日本"), ("x", "[9]")] {
        let name = make_entry_name(77, subject, "\"Ä\" <ä@example.com>");
        let found = parse_mail_path(&format!("aux://S_auximap/sakura/{}/{}", folder, name));
        assert_eq!(found.account.as_deref(), Some("sakura"));
        assert_eq!(found.folder.as_deref(), Some(folder));
        assert_eq!(found.filename.as_deref(), Some(name.as_str()));
        assert_eq!(found.uid, Some(77));
    }
}

#[test]
fn scripts_are_hidden_with_the_tags_in_them() {
    assert_eq!(
        strip_html_tags("a<Script type=\"Ä\">if (x<y) { <b>z</b> <br> > }</SCRIPT >b"),
        "ab"
    );
    assert_eq!(strip_html_tags("a<style>p<i>q</i></style>b<script>c"), "ab");
}

#[test]
fn decoding_entities_again_changes_nothing() {
    for text in ["", " a \r\n\n\n\n b ", "\n\r\n\nx\n\n\ny\n\n", "<b>\t\n\n \n"] {
        let once = decode_html_entities(text);
        assert!(!once.contains('\r') && !once.contains("\n\n\n") && once.trim() == once);
        assert_eq!(decode_html_entities(&once), once);
    }
    let decoded = decode_html_entities("&amp;amp;");
    assert_ne!(decode_html_entities(&decoded), decoded);
}

#[test]
fn leap_seconds_and_bounds_are_shown() {
    let at = |seconds: i64, nanos: u32, offset: i32| {
        format_date(MailDate { seconds, nanos, offset }, Clock::Server, None)
    };
    assert_eq!(at(59, 1_500_000_000, 0).as_deref(), Some("1970-01-01 00:00:60"));
    assert_eq!(at(-1, 1_999_999_999, 0).as_deref(), Some("1969-12-31 23:59:60"));
    assert_eq!(at(58, 1_500_000_000, 0), None);
    assert_eq!(at(59, 2_000_000_000, 0), None);
    assert_eq!(at(0, 0, 86_399).as_deref(), Some("1970-01-01 23:59:59"));
    assert_eq!(at(0, 0, 86_400), None);
    assert_eq!(at(0, 0, -86_400), None);
    for (seconds, offset) in [(-8_334_601_228_800, -86_399), (8_210_266_876_799, 86_399)] {
        assert!(at(seconds, 0, offset).is_some());
    }
    assert_eq!(at(-8_334_601_228_801, 0, 0), None);
    assert_eq!(at(8_210_266_876_800, 0, 0), None);
    let leap = parse_header_date("Sat, 31 Dec 2016 23:59:60 +0000").unwrap();
    assert_eq!(leap.nanos, 1_000_000_000);
    assert!(format_date(leap, Clock::Utc, None).is_some());
}

#[test]
fn chunks_list_the_same_as_all_at_once() {
    let mailbox: Vec<u32> = (1..=23).collect();
    let acc = account("utc", "internal");
    let run = |chunk: Option<u32>| {
        let mut lines = Vec::new();
        let mut listing = Listing::begin(23, 15, 3, chunk).unwrap();
        while listing.next_request() != Request::Nothing {
            let request = listing.next_request();
            let asked = match request {
                Request::Range(a, b) => &mailbox[a as usize - 1..b as usize],
                Request::One(n) => &mailbox[n as usize - 1..n as usize],
                Request::Nothing => &[],
            };
            let answer = asked
                .iter()
                .map(|uid| MessageSummary { uid: Some(*uid), size: None, internal_date: None, envelope: None })
                .collect();
            lines.extend(write_message_entries(request, &answer, &acc, "now"));
            listing = listing.step(true);
        }
        lines
    };
    let bulk = run(None);
    assert_eq!(bulk.len(), 15);
    assert!(bulk[0].starts_with("\"[20]") && bulk[14].starts_with("\"[6]"));
    for chunk in [0, 1, 2, 7, 15, 100] {
        assert_eq!(run(Some(chunk)), bulk);
    }
}
