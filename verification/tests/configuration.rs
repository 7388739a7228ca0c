use auximap::accounts::{config_of_sections, load_config_raw, load_view_config};
use auximap::config::{
    apply_domain_rules_to_account, check_encryption, AccountConfig, ConfigError, RawConfig, Written,
};
use auximap::places::{config_files, Place};
use auximap::resolve::{
    find_account, load_config, password_variable_name, resolve_account_passwords,
    resolve_account_user, resolve_config,
};
use auximap::rules::{domain_of, find_rule, get_builtin_rules, match_rule_pattern, DomainRule};
use auximap::sections::{get_from, get_value, read_sections, Section};

const SAMPLE: &str = "\
[DEFAULT]
limit = 200               ; how many
offset = 5
timezone = UTC
date_source = Header

; how mail is shown
[VIEW]
template_file = view_template.txt
html_policy = RAW

[RULE:company.com]
host = mail.{domain}
port = 1993
trash_folder = Papierkorb

[sakura]
user = info@example.sakura.ne.jp

[gmail]
user = your_address@gmail.com
pass = abcd efgh ijkl mnop
limit = 50

[work]
user = taro@company.com

[dialog]
pass = secret
";

fn raw(text: &str) -> RawConfig {
    load_config_raw(text).unwrap()
}

fn account<'a>(raw: &'a RawConfig, name: &str) -> &'a AccountConfig {
    &raw.accounts[find_account(&raw.accounts, name).unwrap()]
}

fn section(name: &str, entries: &[(&str, &str)]) -> Section {
    Section {
        name: Some(name.to_string()),
        entries: entries.iter().map(|(k, v)| (k.to_string(), v.to_string())).collect(),
    }
}

fn blank_account(name: &str) -> AccountConfig {
    AccountConfig {
        name: name.to_string(),
        host: String::new(),
        port: 993,
        user: String::new(),
        pass: String::new(),
        ssl: true,
        trash_folder: String::new(),
        limit: 100,
        offset: 0,
        chunk_size: 0,
        timezone: "local".to_string(),
        date_source: "internal".to_string(),
        written: Written { host: None, port: None, ssl: None, trash_folder: None },
    }
}

fn rule(pattern: &str, host: &str) -> DomainRule {
    DomainRule {
        pattern: pattern.to_string(),
        host: Some(host.to_string()),
        port: None,
        ssl: None,
        trash_folder: None,
    }
}

#[test]
fn sections_are_read() {
    let sections = read_sections("\u{feff}a = 1\n[X]\nk = v ; note\nk = w\n[X]\nk = z\n").unwrap();
    assert_eq!(sections.len(), 3);
    assert_eq!(sections[0].name, None);
    assert_eq!(get_value(&sections[0].entries, "a").as_deref(), Some("1"));
    assert_eq!(get_from(&sections, "X", "k").as_deref(), Some("v"));
    assert_eq!(get_from(&sections, "x", "k"), None);
    assert_eq!(get_from(&sections, "X", "q"), None);
    assert_eq!(get_value(&sections[2].entries, "k").as_deref(), Some("z"));
}

#[test]
fn faulty_text_is_reported() {
    match load_config_raw("[X]\n= 1\n") {
        Err(ConfigError::Syntax(e)) => {
            assert_eq!(e.line, 2);
            assert_eq!(e.message, "missing key");
        }
        other => panic!("{:?}", other),
    }
    assert!(matches!(load_config_raw("[DEFAULT]\nlimit = 1\n"), Err(ConfigError::NoAccounts)));
    assert!(matches!(load_config_raw("[x]\nlimit = 1\n"), Err(ConfigError::NoAccounts)));
}

#[test]
fn accounts_are_read() {
    let conf = raw(SAMPLE);
    let names: Vec<&str> = conf.accounts.iter().map(|a| a.name.as_str()).collect();
    assert_eq!(names, vec!["sakura", "gmail", "work", "dialog"]);
    assert_eq!(conf.rules.len(), 1);
    assert_eq!(conf.rules[0].pattern, "company.com");
    assert_eq!(conf.default_trash, None);
    assert!(!conf.debug);

    let sakura = account(&conf, "SAKURA");
    assert_eq!(sakura.host, "example.sakura.ne.jp");
    assert_eq!((sakura.port, sakura.ssl), (993, true));
    assert_eq!(sakura.trash_folder, "Trash");
    assert_eq!((sakura.limit, sakura.offset, sakura.chunk_size), (200, 5, 0));
    assert_eq!(sakura.timezone, "utc");
    assert_eq!(sakura.date_source, "header");

    let gmail = account(&conf, "gmail");
    assert_eq!(gmail.host, "imap.gmail.com");
    assert_eq!(gmail.trash_folder, "[Gmail]/ゴミ箱");
    assert_eq!(gmail.pass, "abcd efgh ijkl mnop");
    assert_eq!(gmail.limit, 50);

    let work = account(&conf, "work");
    assert_eq!(work.host, "mail.company.com");
    assert_eq!(work.port, 1993);
    assert_eq!(work.trash_folder, "Papierkorb");

    let dialog = account(&conf, "dialog");
    assert_eq!(dialog.host, "");
    assert_eq!(dialog.user, "");
}

#[test]
fn written_settings_go_before_rules() {
    let conf = raw(
        "[RULE:company.com]\nhost = a\nport = 1\nssl = true\ntrash_folder = b\n\
         [x]\nuser = u@company.com\nhost = h\nport = 993\nssl = false\ntrash_folder = Trash\n",
    );
    let x = account(&conf, "x");
    assert_eq!(x.host, "h");
    assert_eq!(x.port, 993);
    assert!(!x.ssl);
    assert_eq!(x.trash_folder, "Trash");
    assert!(matches!(check_encryption(x), Err(ConfigError::Unencrypted)));
    assert!(check_encryption(account(&raw(SAMPLE), "gmail")).is_ok());
}

#[test]
fn common_trash_goes_before_built_in_rules() {
    let conf = raw("[DEFAULT]\ntrash_folder = Bin\n[g]\nuser = a@gmail.com\n[n]\nhost = h\n");
    assert_eq!(account(&conf, "g").trash_folder, "Bin");
    assert_eq!(account(&conf, "n").trash_folder, "Bin");
    assert_eq!(account(&raw("[n]\nhost = h\n"), "n").trash_folder, "Trash");
    let conf = raw("[DEFAULT]\ntrash_folder = \"\"\n[g]\nuser = a@gmail.com\n[n]\nhost = h\n");
    assert_eq!(account(&conf, "g").trash_folder, "[Gmail]/ゴミ箱");
    assert_eq!(account(&conf, "n").trash_folder, "");
}

#[test]
fn sections_can_be_made_by_hand() {
    let sections = vec![
        section("DEFAULT", &[("debug", "TRUE"), ("limit", " 7"), ("offset", " 3 ")]),
        section("Rule: *.example.org ", &[("ssl", "0"), ("port", "99999")]),
        section("default", &[("user", "x@y")]),
        section("View", &[("user", "x@y")]),
        section("a", &[("user", " u@mail.example.org "), ("port", "12x"), ("ssl", "no")]),
    ];
    let conf = config_of_sections(&sections).unwrap();
    assert!(conf.debug);
    assert_eq!(conf.accounts.len(), 1);
    let a = &conf.accounts[0];
    assert_eq!(a.user, "u@mail.example.org");
    assert_eq!(a.limit, 100);
    assert_eq!(a.offset, 3);
    assert_eq!(a.port, 993);
    assert!(a.ssl);
    assert_eq!(conf.rules[0].pattern, "*.example.org");
    assert_eq!(conf.rules[0].ssl, Some(false));
    assert_eq!(conf.rules[0].port, None);
}

#[test]
fn view_settings_are_read() {
    let view = load_view_config(Some(SAMPLE));
    assert_eq!(view.template_file.as_deref(), Some("view_template.txt"));
    assert_eq!(view.template_inline, None);
    assert_eq!(view.html_policy, "raw");
    let view = load_view_config(Some("[VIEW]\ntemplate = {from}\\\\n{body}\ntemplate_file = \"\"\n"));
    assert_eq!(view.template_file, None);
    assert_eq!(view.template_inline.as_deref(), Some("{from}\n{body}"));
    assert_eq!(view.html_policy, "text");
    assert_eq!(load_view_config(Some("[X]\n= 1\n")).html_policy, "text");
    assert_eq!(load_view_config(None).template_file, None);
}

#[test]
fn built_in_rules_are_found() {
    let rules = get_builtin_rules();
    assert_eq!(rules.len(), 10);
    for (domain, host, trash) in [
        ("gmail.com", "imap.gmail.com", "[Gmail]/ゴミ箱"),
        ("googlemail.com", "imap.gmail.com", "[Gmail]/ゴミ箱"),
        ("Yahoo.co.jp", "imap.mail.yahoo.co.jp", "Trash"),
        ("ymail.ne.jp", "imap.mail.yahoo.co.jp", "Trash"),
        ("x.sakura.ne.jp", "{domain}", "Trash"),
        ("outlook.com", "outlook.office365.com", "Deleted"),
        ("hotmail.com", "outlook.office365.com", "Deleted"),
        ("live.com", "outlook.office365.com", "Deleted"),
        ("icloud.com", "imap.mail.me.com", "Deleted Messages"),
        ("me.com", "imap.mail.me.com", "Deleted Messages"),
    ] {
        let found = &rules[find_rule(&rules, domain).unwrap()];
        assert_eq!(found.host.as_deref(), Some(host));
        assert_eq!(found.trash_folder.as_deref(), Some(trash));
        assert_eq!(found.port, Some(993));
        assert_eq!(found.ssl, Some(true));
    }
    assert_eq!(find_rule(&rules, "example.com"), None);
    assert_eq!(find_rule(&rules, ""), None);
}

#[test]
fn closest_rule_is_taken() {
    let rules = vec![rule("*", "any"), rule("*.b.c", "wild"), rule("a.b.c", "exact"), rule("mail.*", "m")];
    assert_eq!(find_rule(&rules, "A.B.C"), Some(2));
    assert_eq!(find_rule(&rules, "x.b.c"), Some(1));
    assert_eq!(find_rule(&rules, "b.c"), Some(1));
    assert_eq!(find_rule(&rules, "mail.org"), Some(3));
    assert_eq!(find_rule(&rules, "other.org"), Some(0));
    assert!(match_rule_pattern("mail.*", "MAIL.example"));
    assert!(!match_rule_pattern("mail.*", "mail"));
    assert!(!match_rule_pattern("*.b.c", "xb.c"));
    assert_eq!(domain_of("a@b@c"), "b@c");
    assert_eq!(domain_of("nobody"), "");
}

#[test]
fn written_rules_go_before_built_in_ones() {
    let mut acc = blank_account("x");
    acc.user = "taro@gmail.com".to_string();
    let rules = vec![rule("gmail.com", "{user_part}.{domain}")];
    apply_domain_rules_to_account(&mut acc, &rules, &None);
    assert_eq!(acc.host, "taro.gmail.com");
    assert_eq!(acc.port, 993);
    assert_eq!(acc.trash_folder, "[Gmail]/ゴミ箱");
    let again = acc.clone();
    apply_domain_rules_to_account(&mut acc, &rules, &None);
    assert_eq!(acc.host, again.host);
    assert_eq!(acc.trash_folder, again.trash_folder);
}

#[test]
fn users_are_completed() {
    let mut accounts = vec![blank_account("a"), blank_account("b")];
    accounts[1].user = "kept@example.com".to_string();
    accounts[1].host = "kept".to_string();
    let none = Vec::new();
    let r = resolve_account_user(&mut accounts, Some(" me@gmail.com "), None, &none, &None);
    assert!(r.is_ok());
    assert_eq!(accounts[0].user, "me@gmail.com");
    assert_eq!(accounts[0].host, "imap.gmail.com");
    assert_eq!(accounts[1].user, "kept@example.com");
    assert_eq!(accounts[1].host, "kept");
}

#[test]
fn only_the_account_of_a_call_is_completed() {
    let mut accounts = vec![blank_account("a"), blank_account("B"), blank_account("b")];
    let none = Vec::new();
    resolve_account_user(&mut accounts, Some("me@gmail.com"), Some("b"), &none, &None).unwrap();
    assert_eq!(accounts[0].user, "");
    assert_eq!(accounts[1].user, "me@gmail.com");
    assert_eq!(accounts[2].user, "");
    let env = Vec::new();
    resolve_account_passwords(&mut accounts, Some(" pw "), Some("B"), &env).unwrap();
    assert_eq!(accounts[0].pass, "");
    assert_eq!(accounts[1].pass, "pw");
}

#[test]
fn missing_user_host_and_password_are_reported() {
    let none = Vec::new();
    let mut accounts = vec![blank_account("a")];
    match resolve_account_user(&mut accounts, Some("  "), Some("A"), &none, &None) {
        Err(ConfigError::EmptyUser(name)) => assert_eq!(name, "a"),
        other => panic!("{:?}", other),
    }
    match resolve_account_user(&mut accounts, Some("me"), Some("a"), &none, &None) {
        Err(ConfigError::EmptyHost(name)) => assert_eq!(name, "a"),
        other => panic!("{:?}", other),
    }
    assert_eq!(accounts[0].user, "me");
    let env = Vec::new();
    match resolve_account_passwords(&mut accounts, None, Some("a"), &env) {
        Err(ConfigError::EmptyPassword(name)) => assert_eq!(name, "a"),
        other => panic!("{:?}", other),
    }
    assert!(resolve_account_passwords(&mut accounts, None, Some("zzz"), &env).is_ok());
}

#[test]
fn passwords_come_from_the_environment() {
    assert_eq!(password_variable_name("sakura_1"), "AUXIMAP_PASS_SAKURA_1");
    let env = vec![
        ("AUXIMAP_PASS_A".to_string(), " one ".to_string()),
        ("AUXIMAP_PASS".to_string(), "common".to_string()),
        ("AUXIMAP_PASS_C".to_string(), "  ".to_string()),
    ];
    let mut accounts =
        vec![blank_account("a"), blank_account("b"), blank_account("c"), blank_account("d")];
    accounts[3].pass = "own".to_string();
    resolve_account_passwords(&mut accounts, None, None, &env).unwrap();
    let found: Vec<&str> = accounts.iter().map(|a| a.pass.as_str()).collect();
    assert_eq!(found, vec!["one", "common", "", "own"]);

    let mut accounts = vec![blank_account("a")];
    resolve_account_passwords(&mut accounts, Some("call"), Some("a"), &env).unwrap();
    assert_eq!(accounts[0].pass, "call");
}

#[test]
fn whole_configuration_is_completed() {
    let env = Vec::new();
    let accounts = load_config(SAMPLE, Some("pw"), Some("z@live.com"), Some("dialog"), &env).unwrap();
    let dialog = &accounts[find_account(&accounts, "dialog").unwrap()];
    assert_eq!(dialog.user, "z@live.com");
    assert_eq!(dialog.host, "outlook.office365.com");
    assert_eq!(dialog.pass, "secret");
    assert_eq!(accounts[find_account(&accounts, "sakura").unwrap()].pass, "");
    assert!(matches!(
        load_config(SAMPLE, None, None, Some("sakura"), &env),
        Err(ConfigError::EmptyPassword(_))
    ));
    assert!(matches!(
        load_config(SAMPLE, None, None, Some("dialog"), &env),
        Err(ConfigError::EmptyUser(_))
    ));
    assert!(matches!(
        load_config("[x]\n= 1", None, None, None, &env),
        Err(ConfigError::Syntax(_))
    ));
    assert!(matches!(load_config("", None, None, None, &env), Err(ConfigError::NoAccounts)));
    assert_eq!(resolve_config(raw(SAMPLE), None, None, None, &env).unwrap().len(), 4);
    assert_eq!(find_account(&accounts, "nobody"), None);
}

#[test]
fn configuration_is_looked_for_in_order() {
    let files = config_files(true);
    assert_eq!(files.len(), 6);
    assert_eq!(files[0], (Place::Program, "auximap.ini".to_string()));
    assert_eq!(files[1], (Place::Current, "auximap.ini".to_string()));
    assert_eq!(files[3], (Place::Current, "imapmail.ini".to_string()));
    assert_eq!(files[5], (Place::Settings, "imapmail.ini".to_string()));
    assert_eq!(config_files(false).len(), 4);
}

#[test]
fn given_settings_are_kept() {
    let rules = vec![rule("example.com", "mail.{domain}")];
    let mut acc = blank_account("x");
    acc.user = "a@example.com".to_string();
    acc.host = "given".to_string();
    acc.port = 143;
    apply_domain_rules_to_account(&mut acc, &rules, &None);
    assert_eq!((acc.host.as_str(), acc.port), ("given", 143));
    let mut local = blank_account("y");
    local.user = "a@".to_string();
    local.port = 0;
    local.trash_folder = "T".to_string();
    apply_domain_rules_to_account(&mut local, &rules, &Some("U".to_string()));
    assert_eq!((local.host.as_str(), local.port, local.trash_folder.as_str()), ("", 0, "T"));
    let mut empty = blank_account("z");
    empty.user = "a@gmail.com".to_string();
    empty.port = 0;
    apply_domain_rules_to_account(&mut empty, &rules, &None);
    assert_eq!((empty.host.as_str(), empty.port), ("imap.gmail.com", 993));
    assert_eq!(empty.trash_folder, "[Gmail]/ゴミ箱");
}
