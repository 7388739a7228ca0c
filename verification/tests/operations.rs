use auximap::attempts::{begin_attempts, continue_attempts, Attempt};
use auximap::cli::{
    body_of, is_opt, mask_args, parse_cli_args, parse_list_options, scan_cli_args, strip_opt_val,
    ListOptions,
};
use auximap::command::{parse_command, parse_command_named, Command, CommandError, Usage};
use auximap::entry::{Address, Envelope, MessageSummary};
use auximap::folders::{
    begin_move, continue_move, fallback_names, fallback_renamings, folder_fallbacks, is_system_name, is_written_as_directory,
    name_beside, plan_copy, plan_rename, removal_after_move, rename_fallbacks, save_name,
    source_account, source_folder, source_message, text_name, CopyPlan, MoveStep, PathError, Removal,
    RenameError,
};
use auximap::help::help_text;
use auximap::listing::{
    calculate_seq_range, effective_chunk, list_target, setting_or, write_request, ListTarget, Listing,
    Progress, Request,
};
use auximap::mailpath::parse_mail_path;
use auximap::report::{find_duplicates, make_item, repeated_in_folder, ReportItem};
use auximap::trash::{
    already_in_trash, begin_deletion, continue_deletion, set_to_delete, sounds_like_trash_name,
    trash_candidates, write_uid_set, Deletion, Mailbox,
};

fn args(list: &[&str]) -> Vec<String> {
    list.iter().map(|s| s.to_string()).collect()
}

fn mailbox(name: &str, attributes: &[&str]) -> Mailbox {
    Mailbox { name: name.to_string(), attributes: args(attributes) }
}

#[test]
fn list_targets_are_told_apart() {
    assert!(matches!(list_target(&parse_mail_path("")), ListTarget::Accounts));
    match list_target(&parse_mail_path("a")) {
        ListTarget::Folders(a) => assert_eq!(a, "a"),
        other => panic!("{:?}", other),
    }
    match list_target(&parse_mail_path("a/b/c")) {
        ListTarget::Messages(a, f) => assert_eq!((a.as_str(), f.as_str()), ("a", "b/c")),
        other => panic!("{:?}", other),
    }
}

#[test]
fn chunks_are_chosen() {
    assert_eq!(effective_chunk(Some(5), 9), Some(5));
    assert_eq!(effective_chunk(Some(0), 9), None);
    assert_eq!(effective_chunk(None, 9), Some(9));
    assert_eq!(effective_chunk(None, 0), None);
    assert_eq!(setting_or(Some(1), 2), 1);
    assert_eq!(setting_or(None, 2), 2);
}

#[test]
fn ranges_touch() {
    assert_eq!(calculate_seq_range(10, 3, 0), Some((8, 10)));
    assert_eq!(calculate_seq_range(10, 3, 3), Some((5, 7)));
    assert_eq!(calculate_seq_range(10, 0, 0), None);
    assert_eq!(calculate_seq_range(u32::MAX, u32::MAX, 0), Some((1, u32::MAX)));
}

#[test]
fn bulk_listing_asks_once() {
    let listing = Listing::begin(10, 4, 0, None).unwrap();
    assert_eq!(listing.next_request(), Request::Range(7, 10));
    assert_eq!(write_request(listing.next_request()), "7:10");
    assert_eq!(listing.step(true).progress, Progress::Done);
    assert_eq!(listing.step(false).progress, Progress::Refused);
    assert_eq!(listing.step(true).next_request(), Request::Nothing);
    assert!(Listing::begin(10, 4, 10, None).is_none());
}

#[test]
fn chunked_listing_asks_newest_first() {
    let mut listing = Listing::begin(10, 10, 0, Some(4)).unwrap();
    let mut asked = Vec::new();
    while listing.next_request() != Request::Nothing {
        asked.push(write_request(listing.next_request()));
        listing = listing.step(true);
    }
    assert_eq!(asked, vec!["7:10", "3:6", "1:2"]);
    assert_eq!(listing.progress, Progress::Done);
}

#[test]
fn refused_chunk_is_asked_for_one_by_one() {
    let mut listing = Listing::begin(5, 5, 0, Some(2)).unwrap();
    let mut asked = Vec::new();
    while listing.next_request() != Request::Nothing {
        let request = listing.next_request();
        asked.push(write_request(request));
        listing = listing.step(request != Request::Range(2, 3));
    }
    assert_eq!(asked, vec!["4:5", "2:3", "3", "2", "1:1"]);
    let single = Listing::begin(1, 1, 0, Some(9)).unwrap().step(false);
    assert_eq!(single.next_request(), Request::One(1));
    assert_eq!(single.step(false).progress, Progress::Done);
}

#[test]
fn trash_folders_are_found() {
    let boxes = vec![
        mailbox("INBOX", &[]),
        mailbox("Bin", &["Custom(\"\\\\Trash\")"]),
        mailbox("INBOX.&MFQwf3ux-", &[]),
        mailbox("[Gmail]/&MLQw33ux-", &[]),
        mailbox("Deleted Items", &[]),
        mailbox("bIN", &["\\Trash"]),
        mailbox("My TRASH", &[]),
        mailbox("Trashy", &[]),
    ];
    let names = trash_candidates("Bin", &boxes);
    assert_eq!(
        names,
        vec![
            "Bin",
            "INBOX.ごみ箱",
            "[Gmail]/ゴミ箱",
            "Deleted Items",
            "My TRASH",
            "INBOX.Trash",
            "Trash",
            "[Gmail]/Trash"
        ]
    );
    assert_eq!(
        trash_candidates("", &Vec::new()),
        vec!["INBOX.Trash", "Trash", "[Gmail]/ゴミ箱", "[Gmail]/Trash", "Deleted Items", "INBOX.ごみ箱"]
    );
    assert!(sounds_like_trash_name("x.trash"));
    assert!(!sounds_like_trash_name("trash can"));
}

#[test]
fn messages_are_copied_before_they_are_removed() {
    let names = args(&["Trash", "INBOX.Trash"]);
    let first = begin_deletion("INBOX", &names);
    assert_eq!(first, Deletion::Copy(0));
    let second = continue_deletion(first, false, "INBOX", &names);
    assert_eq!(second, Deletion::Copy(1));
    assert_eq!(continue_deletion(second, false, "INBOX", &names), Deletion::Kept);
    let mark = continue_deletion(second, true, "INBOX", &names);
    assert_eq!(mark, Deletion::Mark);
    let expunge = continue_deletion(mark, true, "INBOX", &names);
    assert_eq!(expunge, Deletion::Expunge);
    assert_eq!(continue_deletion(expunge, true, "INBOX", &names), Deletion::Done);
    assert_eq!(continue_deletion(mark, false, "INBOX", &names), Deletion::Failed);
    assert_eq!(continue_deletion(expunge, false, "INBOX", &names), Deletion::Failed);
    assert_eq!(continue_deletion(Deletion::Kept, true, "INBOX", &names), Deletion::Kept);
}

#[test]
fn trash_is_emptied_for_good() {
    let names = args(&["Trash", "ゴミ箱"]);
    assert!(already_in_trash("tRASH", &names));
    assert!(already_in_trash("ゴミ箱", &names));
    assert!(!already_in_trash("INBOX", &names));
    assert_eq!(begin_deletion("trash", &names), Deletion::Mark);
    assert_eq!(begin_deletion("INBOX", &Vec::new()), Deletion::Kept);
    assert_eq!(write_uid_set(&vec![3, 1, 20]), "3,1,20");
    assert_eq!(write_uid_set(&Vec::new()), "");
    assert_eq!(set_to_delete(&vec![3, 1, 20]).as_deref(), Some("3,1,20"));
    assert_eq!(set_to_delete(&Vec::new()), None);
}

#[test]
fn sources_are_checked() {
    let full = parse_mail_path("a/b/[7] x.eml");
    assert_eq!(source_account(&full).as_deref(), Ok("a"));
    assert_eq!(source_folder(&full).as_deref(), Ok("b"));
    assert_eq!(source_message(&full), Ok(("b".to_string(), 7)));
    assert_eq!(save_name(&full), "[7] x.eml");
    assert_eq!(source_account(&parse_mail_path("")), Err(PathError::NoAccount));
    assert_eq!(source_folder(&parse_mail_path("a")), Err(PathError::NoFolder));
    assert_eq!(source_message(&parse_mail_path("a/7")), Err(PathError::NoFolder));
    assert_eq!(source_message(&parse_mail_path("a/b")), Err(PathError::NoUid));
    assert_eq!(save_name(&parse_mail_path("a/b")), "mail.eml");
    assert_eq!(text_name(7), "mail_7.txt");
    assert!(is_written_as_directory("a/"));
    assert!(is_written_as_directory("a\\"));
    assert!(!is_written_as_directory("a"));
    assert!(!is_written_as_directory(""));
}

#[test]
fn copies_are_planned() {
    let source = parse_mail_path("a/b/[7] x.eml");
    assert!(matches!(plan_copy(&source, "C:\\mails"), Ok(CopyPlan::Save)));
    match plan_copy(&source, "aux://S_auximap/A/c/d") {
        Ok(CopyPlan::Within(f)) => assert_eq!(f, "c/d"),
        other => panic!("{:?}", other),
    }
    match plan_copy(&source, "other/c") {
        Ok(CopyPlan::Across(a, f)) => assert_eq!((a.as_str(), f.as_str()), ("other", "c")),
        other => panic!("{:?}", other),
    }
    assert!(matches!(plan_copy(&source, "other"), Err(PathError::NoDestination)));
    assert!(matches!(plan_copy(&source, "İaux:S_auximap/日"), Err(PathError::Unreadable)));
    assert!(matches!(plan_copy(&parse_mail_path("a"), "x/y"), Err(PathError::NoFolder)));
    assert!(matches!(plan_copy(&parse_mail_path("a/b"), "x/y"), Err(PathError::NoUid)));
    assert_eq!(removal_after_move("D:/x"), Removal::ToTrash);
    assert_eq!(removal_after_move("a/b"), Removal::Expunge);
}

#[test]
fn other_folder_names_are_tried() {
    assert_eq!(folder_fallbacks("inbox/日本"), Some(args(&["INBOX.日本"])));
    assert_eq!(folder_fallbacks("INBOX.x"), Some(Vec::new()));
    assert_eq!(folder_fallbacks("x"), Some(args(&["INBOX.x", "INBOX/x"])));
    assert_eq!(fallback_names("ab", "INBOX/"), None);
    assert_eq!(fallback_names("ınbox/x", "INBOX/X"), Some(args(&["INBOX./x"])));
}

#[test]
fn renamings_are_planned() {
    match plan_rename("a/Old", "New") {
        Ok(Some(p)) => assert_eq!((p.account.as_str(), p.from.as_str(), p.to.as_str()), ("a", "Old", "New")),
        other => panic!("{:?}", other),
    }
    match plan_rename("a/x/Old", "'/New/'") {
        Ok(Some(p)) => assert_eq!(p.to, "x/New"),
        other => panic!("{:?}", other),
    }
    match plan_rename("a/x.Old", "a/b/New") {
        Ok(Some(p)) => assert_eq!(p.to, "b/New"),
        other => panic!("{:?}", other),
    }
    assert!(matches!(plan_rename("a/Old", "OLD"), Ok(None)));
    assert!(matches!(plan_rename("a/b/[1] x.eml", "n"), Err(RenameError::IsMessage)));
    assert!(matches!(plan_rename("", "n"), Err(RenameError::Path(PathError::NoAccount))));
    assert!(matches!(plan_rename("a", "n"), Err(RenameError::Path(PathError::NoFolder))));
    assert!(matches!(plan_rename("a/x", "\"\""), Err(RenameError::EmptyName)));
    assert!(matches!(
        plan_rename("İaux:S_auximap/日", "n"),
        Err(RenameError::Path(PathError::Unreadable))
    ));
    for folder in ["INBOX", "Trash", "sent", "Drafts", "JUNK", "Spam"] {
        match plan_rename(&format!("a/{}", folder), "n") {
            Err(RenameError::SystemFolder(f)) => assert_eq!(f, folder),
            other => panic!("{:?}", other),
        }
    }
    assert!(is_system_name("SPAM"));
    assert!(!is_system_name("spam"));
    assert_eq!(name_beside("a/b.c", "n"), "a/n");
    assert_eq!(name_beside("a.b", "n"), "a.n");
    assert_eq!(name_beside("a", "n"), "n");
}

#[test]
fn other_renamings_are_tried() {
    let pairs = |list: &[(&str, &str)]| -> Option<Vec<(String, String)>> {
        Some(list.iter().map(|(a, b)| (a.to_string(), b.to_string())).collect())
    };
    assert_eq!(rename_fallbacks("INBOX/a", "INBOX/b"), pairs(&[("INBOX.a", "INBOX.b")]));
    assert_eq!(rename_fallbacks("INBOX/a", "b"), pairs(&[("INBOX.a", "INBOX.b")]));
    assert_eq!(rename_fallbacks("a", "b"), pairs(&[("INBOX.a", "INBOX.b"), ("INBOX/a", "INBOX/b")]));
    assert_eq!(rename_fallbacks("INBOX.a", "b"), pairs(&[]));
    assert_eq!(fallback_renamings("ab", "b", "INBOX/", "B"), None);
}

#[test]
fn attempts_end_with_a_success() {
    let first = begin_attempts(2);
    assert_eq!(first, Attempt::Try(0));
    let second = continue_attempts(first, false, 2);
    assert_eq!(second, Attempt::Try(1));
    assert_eq!(continue_attempts(second, false, 2), Attempt::Failed);
    assert_eq!(continue_attempts(second, true, 2), Attempt::Succeeded);
    assert_eq!(continue_attempts(Attempt::Succeeded, false, 2), Attempt::Succeeded);
    assert_eq!(begin_attempts(0), Attempt::Failed);
}

#[test]
fn options_are_recognised() {
    for arg in ["--pass", "-PASS", "/Pass", " --pass "] {
        assert!(is_opt(arg, &["pass"]));
    }
    assert!(!is_opt("pass", &["pass"]));
    assert!(!is_opt("---pass", &["pass"]));
    assert!(is_opt("-c", &["chunk", "c"]));
    assert_eq!(strip_opt_val("--pass=x=y", &["pass"]).as_deref(), Some("x=y"));
    assert_eq!(strip_opt_val("/USER:me", &["user"]).as_deref(), Some("me"));
    assert_eq!(strip_opt_val("-chunk=5", &["c", "chunk"]).as_deref(), Some("5"));
    assert_eq!(strip_opt_val("--pass", &["pass"]), None);
    assert_eq!(strip_opt_val("--passx=1", &["pass"]), None);
    assert_eq!(strip_opt_val("--päss=1", &["pass"]), None);
    assert_eq!(body_of(" /x ").as_deref(), Some("x"));
    assert_eq!(body_of("x"), None);
}

#[test]
fn credentials_are_set_apart() {
    let read = scan_cli_args(&args(&["p", "--pass", " a ", "-d", "--pass= ", "/user:u", "x", "--user"]));
    assert_eq!(read.args, args(&["p", "x", "--user"]));
    assert_eq!(read.pass.as_deref(), Some("a"));
    assert_eq!(read.user.as_deref(), Some("u"));
    assert!(read.debug);
    let (rest, pass, user) = parse_cli_args(&args(&["p", "--pass"]));
    assert_eq!(rest, args(&["p", "--pass"]));
    assert_eq!((pass, user), (None, None));
}

#[test]
fn command_lines_are_read_in_turn() {
    let first = ["p", "--pass", "a", "x", "--user=u"];
    let second = ["-d", "y", "--pass=b", "--user"];
    let whole = scan_cli_args(&args(&[&first[..], &second[..]].concat()));
    let (a, b) = (scan_cli_args(&args(&first)), scan_cli_args(&args(&second)));
    assert_eq!(whole.args, [a.args, b.args].concat());
    assert_eq!(whole.pass, b.pass);
    assert_eq!(whole.user, a.user);
    assert!(whole.debug && b.debug && !a.debug);
    // An option that waits for its value takes it from what follows.
    let open = scan_cli_args(&args(&["p", "--pass", "x"]));
    assert_eq!((open.args, open.pass.as_deref()), (args(&["p"]), Some("x")));
}

#[test]
fn passwords_are_not_shown() {
    let shown = mask_args(&args(&["p", " --pass=s", "--pass", "--pass", "x", "/PASS:s", "-d"]));
    assert_eq!(shown, args(&["p", "-pass=********", "--pass", "********", "x", "/pass=********", "-d"]));
    for line in [
        &["p", "list", "--pass", "SECRET", "x"][..],
        &["p", "-pass=SECRET", "--user", "u"][..],
        &["p", "--user", "u", "/pass", "SECRET", "--pass:SECRET"][..],
    ] {
        let line = args(line);
        assert_eq!(scan_cli_args(&line).pass.as_deref(), Some("SECRET"));
        assert!(mask_args(&line).iter().all(|a| !a.contains("SECRET")));
        assert!(scan_cli_args(&line).args.iter().all(|a| !a.contains("SECRET")));
    }
}

#[test]
fn listing_options_are_read() {
    let none = ListOptions { chunk: None, offset: None, limit: None };
    assert_eq!(parse_list_options(&args(&[]), 4), none);
    assert_eq!(parse_list_options(&args(&["x", "--chunk"]), 1), ListOptions { chunk: Some(250), ..none });
    assert_eq!(parse_list_options(&args(&["-c", "9", "/o", "7"]), 0), ListOptions {
        chunk: Some(9),
        offset: Some(7),
        limit: None
    });
    assert_eq!(parse_list_options(&args(&["--chunk=x", "--limit:5", "--offset", "x"]), 0), ListOptions {
        chunk: Some(250),
        offset: None,
        limit: Some(5)
    });
    assert_eq!(parse_list_options(&args(&["-l", "3", "-l=x", "--offset=2", "-o:y"]), 0), ListOptions {
        chunk: None,
        offset: Some(2),
        limit: Some(3)
    });
}

#[test]
fn help_is_asked_for() {
    for line in [&["p"][..], &[][..], &["p", "HELP"][..], &["p", "-?"][..], &["p", "/h"][..]] {
        assert!(matches!(parse_command(&args(line)), Ok(Command::Help)));
    }
    let lines = help_text();
    assert_eq!(lines.len(), 45);
    assert_eq!(lines[0], "auximap v0.3.1 - PPx aux: path IMAP bridge");
    assert_eq!(lines[2], "");
    assert_eq!(lines[44], "  -h, -help, --help     Show this help message.");
}

#[test]
fn reading_is_understood() {
    let read = |line: &[&str]| match parse_command(&args(line)) {
        Ok(Command::Read(p, d)) => (p.folder, p.uid, d),
        other => panic!("{:?}", other),
    };
    let some = |s: &str| Some(s.to_string());
    assert_eq!(read(&["p", "read", "a/b/[7] x"]), (some("b"), Some(7), None));
    assert_eq!(read(&["p", "VIEW", "a/b/[7] x", "out"]), (some("b"), Some(7), some("out")));
    assert_eq!(read(&["p", "read", "a/b", " 9 ", "out"]), (some("b"), Some(9), some("out")));
    assert_eq!(read(&["p", "read", "a/b/", "\\[5] y"]), (some("b"), None, some("\\[5] y")));
    assert_eq!(read(&["p", "read", "a/b/", "[5] y", "o"]), (some("b"), Some(5), some("o")));
    assert_eq!(read(&["p", "read", "a/b\\", "/y.eml"]), (some("b"), None, None));
    assert_eq!(read(&["p", "read", "a/b", "file"]), (some("b"), None, some("file")));
}

#[test]
fn commands_are_understood() {
    match parse_command(&args(&["p", "list", "a/b", "out", "-l", "5"])) {
        Ok(Command::List(t, o, l)) => {
            assert_eq!((t.as_str(), o.as_str(), l.limit), ("a/b", "out", Some(5)));
        }
        other => panic!("{:?}", other),
    }
    match parse_command(&args(&["p", "get", "a/b/", "[5] y", "dest"])) {
        Ok(Command::Get(p, d)) => assert_eq!((p.uid, d.as_str()), (Some(5), "dest")),
        other => panic!("{:?}", other),
    }
    match parse_command(&args(&["p", "copy", "a/b/[5] y", "dest"])) {
        Ok(Command::Copy(p, d)) => assert_eq!((p.uid, d.as_str()), (Some(5), "dest")),
        other => panic!("{:?}", other),
    }
    assert!(matches!(parse_command(&args(&["p", "move", "a/b/5", "d"])), Ok(Command::Move(_, _))));
    match parse_command(&args(&["p", "delete", "a/b", "[5] y", "x", "6"])) {
        Ok(Command::DeleteAll(a, f, u)) => {
            assert_eq!((a.as_str(), f.as_str(), u), ("a", "b", vec![5, 6]));
        }
        other => panic!("{:?}", other),
    }
    match parse_command(&args(&["p", "delete", "a/", "5"])) {
        Ok(Command::Delete(p)) => assert_eq!((p.folder, p.uid), (None, Some(5))),
        other => panic!("{:?}", other),
    }
    assert!(matches!(parse_command(&args(&["p", "delete", "a/b/5", ""])), Ok(Command::Delete(_))));
    match parse_command(&args(&["p", "makedir", "a\\", "/b"])) {
        Ok(Command::MakeFolder(t)) => assert_eq!(t, "a/b"),
        other => panic!("{:?}", other),
    }
    match parse_command(&args(&["p", "deldir"])) {
        Ok(Command::DeleteFolder(t)) => assert_eq!(t, ""),
        other => panic!("{:?}", other),
    }
    match parse_command(&args(&["p", "rename", "a/b", "c"])) {
        Ok(Command::Rename(s, d)) => assert_eq!((s.as_str(), d.as_str()), ("a/b", "c")),
        other => panic!("{:?}", other),
    }
    match parse_command(&args(&["p", "report", "a", "INBOX", "--trash", "-l", "9"])) {
        Ok(Command::Report(a, f, t, l)) => {
            assert_eq!((a.as_str(), f.as_deref(), t, l), ("a", Some("INBOX"), true, Some(9)));
        }
        other => panic!("{:?}", other),
    }
    match parse_command(&args(&["p", "report", "a", "--trash"])) {
        Ok(Command::Report(a, f, t, l)) => assert_eq!((a.as_str(), f, t, l), ("a", None, true, None)),
        other => panic!("{:?}", other),
    }
}

#[test]
fn faulty_commands_are_refused() {
    for (line, usage) in [
        (&["p", "read"][..], Usage::Read),
        (&["p", "get", "x"][..], Usage::Get),
        (&["p", "copy", "x"][..], Usage::Copy),
        (&["p", "move", "x"][..], Usage::Move),
        (&["p", "delete"][..], Usage::Delete),
        (&["p", "rename", "x"][..], Usage::Rename),
        (&["p", "report"][..], Usage::Report),
        (&["p", "report", "//"][..], Usage::Report),
    ] {
        match parse_command(&args(line)) {
            Err(CommandError::Usage(u)) => assert_eq!(u, usage),
            other => panic!("{:?}", other),
        }
    }
    assert!(matches!(parse_command(&args(&["p", "list", "x"])), Err(CommandError::NoOutput)));
    assert!(matches!(
        parse_command(&args(&["p", "get", "İaux:S_auximap/日", "d"])),
        Err(CommandError::Unreadable)
    ));
    match parse_command_named("zzz", &args(&["p", "ZZZ"])) {
        Err(CommandError::Unknown(w)) => assert_eq!(w, "zzz"),
        other => panic!("{:?}", other),
    }
}

fn item(sent: Option<i64>, subject: &str) -> ReportItem {
    ReportItem { sent, sender: "s".to_string(), subject: subject.to_string(), size: 1 }
}

#[test]
fn duplicates_are_found() {
    let items = vec![
        item(Some(1), "a"),
        item(Some(2), "a"),
        item(Some(1), "a"),
        item(None, "a"),
        item(None, "a"),
        item(Some(1), "a"),
        item(Some(1), "b"),
        item(Some(2), "a"),
    ];
    assert_eq!(find_duplicates(&items), vec![(0, 2), (0, 5), (1, 7)]);
    assert!(find_duplicates(&Vec::new()).is_empty());
}

#[test]
fn report_items_are_made() {
    let summary = MessageSummary {
        uid: Some(1),
        size: Some(9),
        internal_date: None,
        envelope: Some(Envelope {
            date: Some(b"Thu, 01 Jan 1970 00:00:07 +0000".to_vec()),
            subject: Some(b"s".to_vec()),
            from: Some(vec![Address {
                name: None,
                mailbox: Some(b"m".to_vec()),
                host: Some(b"h".to_vec()),
            }]),
        }),
    };
    let made = make_item(&summary);
    assert_eq!((made.sent, made.size), (Some(7), 9));
    assert_eq!((made.sender.as_str(), made.subject.as_str()), ("m@h", "s"));
}

#[test]
fn messages_are_copied_before_they_are_moved_away() {
    assert_eq!(begin_move(), MoveStep::Copy);
    let saved = continue_move(MoveStep::Copy, true, "C:\\mails");
    assert_eq!(saved, MoveStep::Remove(Removal::ToTrash));
    let copied = continue_move(MoveStep::Copy, true, "a/b");
    assert_eq!(copied, MoveStep::Remove(Removal::Expunge));
    assert_eq!(continue_move(MoveStep::Copy, false, "a/b"), MoveStep::Failed);
    assert_eq!(continue_move(copied, true, "a/b"), MoveStep::Done);
    assert_eq!(continue_move(copied, false, "a/b"), MoveStep::Failed);
    assert_eq!(continue_move(MoveStep::Failed, true, "a/b"), MoveStep::Failed);
    assert_eq!(continue_move(MoveStep::Done, false, "a/b"), MoveStep::Done);
}

#[test]
fn repeated_messages_are_sorted_by_folder() {
    let found = vec![(0, Some(5)), (0, Some(6)), (1, Some(5)), (1, None), (1, Some(9))];
    let pairs = vec![(0, 2), (1, 3), (0, 4), (0, 1), (0, 99)];
    assert_eq!(repeated_in_folder(&pairs, &found, 0), vec![6]);
    assert_eq!(repeated_in_folder(&pairs, &found, 1), vec![5, 9]);
    assert!(repeated_in_folder(&pairs, &found, 2).is_empty());
}
