//! Rules that tell a mail server's settings from the domain of an address.

use vstd::prelude::*;
use crate::text::{chars, search, unicode};

verus! {

/// What is known about the servers of the domains that a pattern covers.
#[derive(Debug, Clone)]
pub struct DomainRule {
    pub pattern: String,
    pub host: Option<String>,
    pub port: Option<u16>,
    pub ssl: Option<bool>,
    pub trash_folder: Option<String>,
}

/// The contents of a rule.
pub struct RuleView {
    pub pattern: Seq<char>,
    pub host: Option<Seq<char>>,
    pub port: Option<u16>,
    pub ssl: Option<bool>,
    pub trash_folder: Option<Seq<char>>,
}

impl View for DomainRule {
    type V = RuleView;

    open spec fn view(&self) -> RuleView {
        RuleView {
            pattern: self.pattern@,
            host: chars::opt_text(self.host),
            port: self.port,
            ssl: self.ssl,
            trash_folder: chars::opt_text(self.trash_folder),
        }
    }
}

/// The contents of a list of rules.
pub open spec fn rule_views(rules: Seq<DomainRule>) -> Seq<RuleView> {
    Seq::new(rules.len(), |i: int| rules[i]@)
}

/// The pattern covers every domain.
pub open spec fn covers_all(pattern: Seq<char>) -> bool {
    pattern == "default"@ || pattern == "*"@
}

/// The lower-case pattern covers the lower-case domain: it covers every
/// domain, or is the domain, or is `*.` and a domain that the domain is or
/// lies under, or is the beginning of the domain up to a dot, and `.*`.
pub open spec fn covers(pattern: Seq<char>, domain: Seq<char>) -> bool {
    if covers_all(pattern) || pattern == domain {
        true
    } else if search::starts_with(pattern, seq!['*', '.']) {
        let parent = pattern.skip(2);
        search::ends_with(domain, seq!['.'] + parent) || domain == parent
    } else if search::ends_with(pattern, seq!['.', '*']) {
        search::starts_with(domain, pattern.take(pattern.len() - 2).push('.'))
    } else {
        false
    }
}

/// Whether the lower-case pattern covers the lower-case domain.
pub fn covers_lower(pattern: &str, domain: &str) -> (b: bool)
    ensures
        b == covers(pattern@, domain@),
{
    if chars::same_text(pattern, "default") || chars::same_text(pattern, "*") {
        return true;
    }
    if chars::same_text(pattern, domain) {
        return true;
    }
    proof {
        reveal_strlit("*.");
        reveal_strlit(".*");
        reveal_strlit(".");
        assert("*."@ =~= seq!['*', '.']);
        assert(".*"@ =~= seq!['.', '*']);
        assert("."@ =~= seq!['.']);
    }
    let n: usize = pattern.unicode_len();
    if search::text_starts_with(pattern, "*.") {
        let parent = pattern.substring_char(2, n);
        assert(parent@ =~= pattern@.skip(2));
        let suffix = chars::concat2(".", parent);
        return search::text_ends_with(domain, &suffix) || chars::same_text(domain, parent);
    }
    if search::text_ends_with(pattern, ".*") {
        let mut prefix = pattern.substring_char(0, n - 2).to_owned();
        assert(prefix@ =~= pattern@.take(n - 2));
        prefix.push('.');
        return search::text_starts_with(domain, &prefix);
    }
    false
}

/// Whether `pattern` covers `domain`, whatever the case of their letters.
pub fn match_rule_pattern(pattern: &str, domain: &str) -> (b: bool)
    ensures
        b == covers(unicode::lower(pattern@), unicode::lower(domain@)),
{
    let p = unicode::lower_text(pattern);
    let d = unicode::lower_text(domain);
    covers_lower(&p, &d)
}

/// The part of an address before its first at sign; all of it where there is
/// none.
pub open spec fn user_part(user: Seq<char>) -> Seq<char> {
    match search::index_of_char(user, '@') {
        Some(i) => user.take(i),
        None => user,
    }
}

/// The part of an address after its first at sign; empty where there is none.
pub open spec fn domain_part(user: Seq<char>) -> Seq<char> {
    match search::index_of_char(user, '@') {
        Some(i) => user.skip(i + 1),
        None => seq![],
    }
}

/// A template with its variables filled in, one after the other.
pub open spec fn expanded(tmpl: Seq<char>, user: Seq<char>, domain: Seq<char>) -> Seq<char> {
    search::replace(
        search::replace(search::replace(tmpl, "{domain}"@, domain), "{user_part}"@, user_part(user)),
        "{user}"@,
        user,
    )
}

/// The part of `user` before its first at sign.
fn user_part_of(user: &str) -> (r: String)
    ensures
        r@ == user_part(user@),
{
    let v = chars::chars_of(user);
    match search::position_of(&v, '@') {
        Some(i) => {
            let part: &[char] = &v[0..i];
            assert(part@ =~= user@.take(i as int));
            chars::text_of(part)
        },
        None => user.to_owned(),
    }
}

/// The part of `user` after its first at sign.
pub fn domain_of(user: &str) -> (r: String)
    ensures
        r@ == domain_part(user@),
{
    let v = chars::chars_of(user);
    match search::position_of(&v, '@') {
        Some(i) => {
            let part: &[char] = &v[i + 1..v.len()];
            assert(part@ =~= user@.skip(i + 1));
            chars::text_of(part)
        },
        None => String::new(),
    }
}

/// `tmpl` with `{domain}`, `{user_part}` and `{user}` filled in.
pub fn expand_template(tmpl: &str, user: &str, domain: &str) -> (r: String)
    ensures
        r@ == expanded(tmpl@, user@, domain@),
{
    proof {
        reveal_strlit("{domain}");
        reveal_strlit("{user_part}");
        reveal_strlit("{user}");
    }
    let part = user_part_of(user);
    let a = search::replace_text(tmpl, "{domain}", domain);
    let b = search::replace_text(&a, "{user_part}", &part);
    search::replace_text(&b, "{user}", user)
}

/// How closely a rule fits a domain. The closest fit is the domain itself.
#[derive(Debug, Clone, Copy, PartialEq, Eq, Structural)]
pub enum Fit {
    Exact,
    Wildcard,
    Fallback,
}

/// The rule's pattern stands for every domain that no other rule covers.
pub open spec fn is_fallback(pattern: Seq<char>) -> bool {
    chars::same_ignoring_case(pattern, "default"@) || pattern == "*"@
}

/// The rule with the given pattern fits the domain in the given way.
pub open spec fn fits(pattern: Seq<char>, domain: Seq<char>, fit: Fit) -> bool {
    match fit {
        Fit::Exact => chars::same_ignoring_case(pattern, domain),
        Fit::Wildcard => !is_fallback(pattern) && covers(
            unicode::lower(pattern),
            unicode::lower(domain),
        ),
        Fit::Fallback => is_fallback(pattern),
    }
}

/// The first rule that fits the domain in the given way.
pub open spec fn first_fit(rules: Seq<RuleView>, domain: Seq<char>, fit: Fit) -> Option<RuleView>
    decreases rules.len(),
{
    if rules.len() == 0 {
        None
    } else if fits(rules[0].pattern, domain, fit) {
        Some(rules[0])
    } else {
        first_fit(rules.drop_first(), domain, fit)
    }
}

/// The rule for a domain: the first that names it, else the first whose
/// pattern covers it, else the first that stands for all the others. An empty
/// domain has none.
pub open spec fn rule_for(rules: Seq<RuleView>, domain: Seq<char>) -> Option<RuleView> {
    if domain.len() == 0 {
        None
    } else if first_fit(rules, domain, Fit::Exact) is Some {
        first_fit(rules, domain, Fit::Exact)
    } else if first_fit(rules, domain, Fit::Wildcard) is Some {
        first_fit(rules, domain, Fit::Wildcard)
    } else {
        first_fit(rules, domain, Fit::Fallback)
    }
}

/// Whether the rule with the given pattern fits the domain in the given way.
fn rule_fits(pattern: &str, domain: &str, fit: Fit) -> (b: bool)
    ensures
        b == fits(pattern@, domain@, fit),
{
    match fit {
        Fit::Exact => chars::eq_ignore_case(pattern, domain),
        Fit::Wildcard => !chars::eq_ignore_case(pattern, "default") && !chars::same_text(
            pattern,
            "*",
        ) && match_rule_pattern(pattern, domain),
        Fit::Fallback => chars::eq_ignore_case(pattern, "default") || chars::same_text(
            pattern,
            "*",
        ),
    }
}

/// The index of the first rule that fits `domain` in the given way.
fn find_fit(rules: &Vec<DomainRule>, domain: &str, fit: Fit) -> (r: Option<usize>)
    ensures
        match r {
            Some(i) => i < rules.len() && first_fit(rule_views(rules@), domain@, fit) == Some(
                rules@[i as int]@,
            ),
            None => first_fit(rule_views(rules@), domain@, fit) is None,
        },
{
    let ghost all = rule_views(rules@);
    let mut i: usize = 0;
    assert(all.skip(0) =~= all);
    while i < rules.len()
        invariant
            all == rule_views(rules@),
            i <= rules.len(),
            first_fit(all, domain@, fit) == first_fit(all.skip(i as int), domain@, fit),
        decreases rules.len() - i,
    {
        assert(all.skip(i as int)[0] == rules@[i as int]@);
        if rule_fits(&rules[i].pattern, domain, fit) {
            return Some(i);
        }
        assert(all.skip(i as int).drop_first() =~= all.skip(i + 1));
        i += 1;
    }
    None
}

/// The index of the rule for `domain`.
pub fn find_rule(rules: &Vec<DomainRule>, domain: &str) -> (r: Option<usize>)
    ensures
        match r {
            Some(i) => i < rules.len() && rule_for(rule_views(rules@), domain@) == Some(
                rules@[i as int]@,
            ),
            None => rule_for(rule_views(rules@), domain@) is None,
        },
{
    if domain.unicode_len() == 0 {
        return None;
    }
    let exact = find_fit(rules, domain, Fit::Exact);
    if exact.is_some() {
        return exact;
    }
    let wildcard = find_fit(rules, domain, Fit::Wildcard);
    if wildcard.is_some() {
        return wildcard;
    }
    find_fit(rules, domain, Fit::Fallback)
}

/// A rule for the standard port with encryption.
pub open spec fn standard_rule(
    pattern: Seq<char>,
    host: Seq<char>,
    trash_folder: Seq<char>,
) -> RuleView {
    RuleView {
        pattern,
        host: Some(host),
        port: Some(993u16),
        ssl: Some(true),
        trash_folder: Some(trash_folder),
    }
}

/// The rules that hold without being written down: for Gmail, Yahoo! Japan,
/// Sakura, Outlook and iCloud.
pub open spec fn builtin_rules() -> Seq<RuleView> {
    seq![
        standard_rule("gmail.com"@, "imap.gmail.com"@, "[Gmail]/ゴミ箱"@),
        standard_rule("googlemail.com"@, "imap.gmail.com"@, "[Gmail]/ゴミ箱"@),
        standard_rule("yahoo.co.jp"@, "imap.mail.yahoo.co.jp"@, "Trash"@),
        standard_rule("ymail.ne.jp"@, "imap.mail.yahoo.co.jp"@, "Trash"@),
        standard_rule("*.sakura.ne.jp"@, "{domain}"@, "Trash"@),
        standard_rule("outlook.com"@, "outlook.office365.com"@, "Deleted"@),
        standard_rule("hotmail.com"@, "outlook.office365.com"@, "Deleted"@),
        standard_rule("live.com"@, "outlook.office365.com"@, "Deleted"@),
        standard_rule("icloud.com"@, "imap.mail.me.com"@, "Deleted Messages"@),
        standard_rule("me.com"@, "imap.mail.me.com"@, "Deleted Messages"@),
    ]
}

/// A rule for the standard port with encryption.
fn new_standard_rule(pattern: &str, host: &str, trash_folder: &str) -> (r: DomainRule)
    ensures
        r@ == standard_rule(pattern@, host@, trash_folder@),
{
    DomainRule {
        pattern: pattern.to_owned(),
        host: Some(host.to_owned()),
        port: Some(993),
        ssl: Some(true),
        trash_folder: Some(trash_folder.to_owned()),
    }
}

/// The rules that hold without being written down.
pub fn get_builtin_rules() -> (r: Vec<DomainRule>)
    ensures
        rule_views(r@) == builtin_rules(),
{
    let mut r: Vec<DomainRule> = Vec::new();
    r.push(new_standard_rule("gmail.com", "imap.gmail.com", "[Gmail]/ゴミ箱"));
    r.push(new_standard_rule("googlemail.com", "imap.gmail.com", "[Gmail]/ゴミ箱"));
    r.push(new_standard_rule("yahoo.co.jp", "imap.mail.yahoo.co.jp", "Trash"));
    r.push(new_standard_rule("ymail.ne.jp", "imap.mail.yahoo.co.jp", "Trash"));
    r.push(new_standard_rule("*.sakura.ne.jp", "{domain}", "Trash"));
    r.push(new_standard_rule("outlook.com", "outlook.office365.com", "Deleted"));
    r.push(new_standard_rule("hotmail.com", "outlook.office365.com", "Deleted"));
    r.push(new_standard_rule("live.com", "outlook.office365.com", "Deleted"));
    r.push(new_standard_rule("icloud.com", "imap.mail.me.com", "Deleted Messages"));
    r.push(new_standard_rule("me.com", "imap.mail.me.com", "Deleted Messages"));
    assert(rule_views(r@) =~= builtin_rules());
    r
}

/// Every rule that holds without being written down names a host, and asks for
/// the standard port with encryption.
pub proof fn law_builtin_rules_are_complete(i: int)
    requires
        0 <= i < builtin_rules().len(),
    ensures
        builtin_rules()[i].host is Some,
        builtin_rules()[i].port == Some(993u16),
        builtin_rules()[i].ssl == Some(true),
        builtin_rules()[i].trash_folder is Some,
{
}

/// A rule that names a domain goes before one whose pattern covers it, and
/// that before one that stands for all the others.
pub proof fn law_closest_rule_is_taken(rules: Seq<RuleView>, domain: Seq<char>, i: int)
    requires
        0 <= i < rules.len(),
        domain.len() > 0,
    ensures
        fits(rules[i].pattern, domain, Fit::Exact) ==> rule_for(rules, domain) is Some && fits(
            rule_for(rules, domain)->0.pattern,
            domain,
            Fit::Exact,
        ),
        fits(rules[i].pattern, domain, Fit::Wildcard) ==> rule_for(rules, domain) is Some && (fits(
            rule_for(rules, domain)->0.pattern,
            domain,
            Fit::Exact,
        ) || fits(rule_for(rules, domain)->0.pattern, domain, Fit::Wildcard)),
        fits(rules[i].pattern, domain, Fit::Fallback) ==> rule_for(rules, domain) is Some,
{
    lemma_first_fit(rules, domain, Fit::Exact, i);
    lemma_first_fit(rules, domain, Fit::Wildcard, i);
    lemma_first_fit(rules, domain, Fit::Fallback, i);
}

/// Where a rule fits, the first that fits is found, and it fits.
proof fn lemma_first_fit(rules: Seq<RuleView>, domain: Seq<char>, fit: Fit, i: int)
    requires
        0 <= i < rules.len(),
    ensures
        fits(rules[i].pattern, domain, fit) ==> first_fit(rules, domain, fit) is Some,
        first_fit(rules, domain, fit) is Some ==> fits(
            first_fit(rules, domain, fit)->0.pattern,
            domain,
            fit,
        ),
    decreases rules.len(),
{
    reveal_with_fuel(first_fit, 2);
    if !fits(rules[0].pattern, domain, fit) && rules.len() > 1 {
        if i > 0 {
            lemma_first_fit(rules.drop_first(), domain, fit, i - 1);
        } else {
            lemma_first_fit(rules.drop_first(), domain, fit, 0);
        }
    }
}

} // verus!
