//! The configuration: accounts, the rules that complete them, and how mail is
//! shown.

use vstd::prelude::*;
use crate::rules;
use crate::rules::DomainRule;
use crate::sections::SyntaxError;
use crate::text::{chars, number, trim, unicode};

verus! {

/// The server settings that an account's own section writes down.
#[derive(Debug, Clone)]
pub struct Written {
    pub host: Option<String>,
    pub port: Option<u16>,
    pub ssl: Option<bool>,
    pub trash_folder: Option<String>,
}

/// An account.
#[derive(Debug, Clone)]
pub struct AccountConfig {
    pub name: String,
    pub host: String,
    pub port: u16,
    pub user: String,
    pub pass: String,
    pub ssl: bool,
    pub trash_folder: String,
    pub limit: u32,
    pub offset: u32,
    pub chunk_size: u32,
    pub timezone: String,
    pub date_source: String,
    pub written: Written,
}

/// How mail is shown.
#[derive(Debug, Clone)]
pub struct ViewConfig {
    pub template_file: Option<String>,
    pub template_inline: Option<String>,
    pub html_policy: String,
}

/// What a configuration text says: its accounts, its rules, the trash folder
/// for accounts without one, and whether to keep a log.
#[derive(Debug)]
pub struct RawConfig {
    pub accounts: Vec<AccountConfig>,
    pub rules: Vec<DomainRule>,
    pub default_trash: Option<String>,
    pub debug: bool,
}

/// Why there is no usable configuration.
#[derive(Debug)]
pub enum ConfigError {
    /// The text cannot be read.
    Syntax(SyntaxError),
    /// No section describes an account.
    NoAccounts,
    /// The account of this name has no user.
    EmptyUser(String),
    /// The account of this name has no host.
    EmptyHost(String),
    /// The account of this name has no password.
    EmptyPassword(String),
    /// The account asks for a connection that is not encrypted.
    Unencrypted,
}

/// The contents of the settings that a section writes down.
pub struct WrittenView {
    pub host: Option<Seq<char>>,
    pub port: Option<u16>,
    pub ssl: Option<bool>,
    pub trash_folder: Option<Seq<char>>,
}

/// The contents of an account.
pub struct AccountView {
    pub name: Seq<char>,
    pub host: Seq<char>,
    pub port: u16,
    pub user: Seq<char>,
    pub pass: Seq<char>,
    pub ssl: bool,
    pub trash_folder: Seq<char>,
    pub limit: u32,
    pub offset: u32,
    pub chunk_size: u32,
    pub timezone: Seq<char>,
    pub date_source: Seq<char>,
    pub written: WrittenView,
}

/// The contents of the settings for showing mail.
pub struct ViewConfigView {
    pub template_file: Option<Seq<char>>,
    pub template_inline: Option<Seq<char>>,
    pub html_policy: Seq<char>,
}

impl View for Written {
    type V = WrittenView;

    open spec fn view(&self) -> WrittenView {
        WrittenView {
            host: chars::opt_text(self.host),
            port: self.port,
            ssl: self.ssl,
            trash_folder: chars::opt_text(self.trash_folder),
        }
    }
}

impl View for AccountConfig {
    type V = AccountView;

    open spec fn view(&self) -> AccountView {
        AccountView {
            name: self.name@,
            host: self.host@,
            port: self.port,
            user: self.user@,
            pass: self.pass@,
            ssl: self.ssl,
            trash_folder: self.trash_folder@,
            limit: self.limit,
            offset: self.offset,
            chunk_size: self.chunk_size,
            timezone: self.timezone@,
            date_source: self.date_source@,
            written: self.written@,
        }
    }
}

impl View for ViewConfig {
    type V = ViewConfigView;

    open spec fn view(&self) -> ViewConfigView {
        ViewConfigView {
            template_file: chars::opt_text(self.template_file),
            template_inline: chars::opt_text(self.template_inline),
            html_policy: self.html_policy@,
        }
    }
}

/// The contents of a list of accounts.
pub open spec fn account_views(accounts: Seq<AccountConfig>) -> Seq<AccountView> {
    Seq::new(accounts.len(), |i: int| accounts[i]@)
}

// ---------------------------------------------------------------------------
// Values
// ---------------------------------------------------------------------------

/// A value without the white space around it, unless nothing is left of it.
pub open spec fn filled(value: Option<Seq<char>>) -> Option<Seq<char>> {
    match value {
        Some(s) if trim::trim(s).len() > 0 => Some(trim::trim(s)),
        _ => None,
    }
}

/// The number that a value stands for, white space around it left out.
pub open spec fn number_in(value: Option<Seq<char>>, max: nat) -> Option<nat> {
    match value {
        Some(s) => number::unsigned(trim::trim(s), max),
        None => None,
    }
}

/// The switch that a value stands for: anything but `false` and `0` is on.
pub open spec fn switch_in(value: Option<Seq<char>>) -> Option<bool> {
    match value {
        Some(s) => Some(trim::trim(s) != "false"@ && trim::trim(s) != "0"@),
        None => None,
    }
}

/// A value trimmed and in lower case, or another one where there is none.
pub open spec fn word_or(value: Option<Seq<char>>, otherwise: Seq<char>) -> Seq<char> {
    match value {
        Some(s) => unicode::lower(trim::trim(s)),
        None => otherwise,
    }
}

/// The trimmed value, or nothing where there is none.
pub open spec fn trimmed_or_empty(value: Option<Seq<char>>) -> Seq<char> {
    match value {
        Some(s) => trim::trim(s),
        None => seq![],
    }
}

/// The `u16` with the given value.
pub open spec fn as_u16(n: Option<nat>) -> Option<u16> {
    match n {
        Some(n) => Some(n as u16),
        None => None,
    }
}

/// The `u32` with the given value, or another one where there is none.
pub open spec fn u32_or(n: Option<nat>, otherwise: u32) -> u32 {
    match n {
        Some(n) => n as u32,
        None => otherwise,
    }
}

/// `value` trimmed, unless nothing is left of it.
pub fn filled_text(value: Option<String>) -> (r: Option<String>)
    ensures
        chars::opt_text(r) == filled(chars::opt_text(value)),
{
    match value {
        Some(s) => {
            let t = trim::trim_text(&s);
            if t.as_str().unicode_len() == 0 {
                None
            } else {
                Some(t)
            }
        },
        None => None,
    }
}

/// The port that `value` stands for.
pub fn port_value(value: Option<String>) -> (r: Option<u16>)
    ensures
        r == as_u16(number_in(chars::opt_text(value), u16::MAX as nat)),
{
    match value {
        Some(s) => number::parse_u16(&trim::trim_text(&s)),
        None => None,
    }
}

/// The switch that `value` stands for.
pub fn switch_value(value: Option<String>) -> (r: Option<bool>)
    ensures
        r == switch_in(chars::opt_text(value)),
{
    match value {
        Some(s) => {
            let t = trim::trim_text(&s);
            Some(!chars::same_text(&t, "false") && !chars::same_text(&t, "0"))
        },
        None => None,
    }
}

/// The number that `value` stands for, or `otherwise`.
pub fn number_or(value: Option<String>, otherwise: u32) -> (r: u32)
    ensures
        r == u32_or(number_in(chars::opt_text(value), u32::MAX as nat), otherwise),
{
    match value {
        Some(s) => match number::parse_u32(&trim::trim_text(&s)) {
            Some(n) => n,
            None => otherwise,
        },
        None => otherwise,
    }
}

/// `value` trimmed and in lower case, or `otherwise`.
pub fn word_value(value: Option<String>, otherwise: &str) -> (r: String)
    ensures
        r@ == word_or(chars::opt_text(value), otherwise@),
{
    match value {
        Some(s) => unicode::lower_text(&trim::trim_text(&s)),
        None => otherwise.to_owned(),
    }
}

/// `value` trimmed, or nothing.
pub fn text_value(value: Option<String>) -> (r: String)
    ensures
        r@ == trimmed_or_empty(chars::opt_text(value)),
{
    match value {
        Some(s) => trim::trim_text(&s),
        None => {
            let r = String::new();
            assert(r@ =~= seq![]);
            r
        },
    }
}

// ---------------------------------------------------------------------------
// Server settings
// ---------------------------------------------------------------------------

/// The host that a rule gives an address, with the template filled in.
pub open spec fn rule_host(rule: Option<rules::RuleView>, user: Seq<char>) -> Option<Seq<char>> {
    match rule {
        Some(r) => match r.host {
            Some(h) => Some(rules::expanded(h, user, rules::domain_part(user))),
            None => None,
        },
        None => None,
    }
}

/// The port that a rule gives.
pub open spec fn rule_port(rule: Option<rules::RuleView>) -> Option<u16> {
    match rule {
        Some(r) => r.port,
        None => None,
    }
}

/// The encryption that a rule asks for.
pub open spec fn rule_ssl(rule: Option<rules::RuleView>) -> Option<bool> {
    match rule {
        Some(r) => r.ssl,
        None => None,
    }
}

/// The trash folder that a rule gives.
pub open spec fn rule_trash(rule: Option<rules::RuleView>) -> Option<Seq<char>> {
    match rule {
        Some(r) => r.trash_folder,
        None => None,
    }
}

/// The first of two values that there is.
pub open spec fn either<T>(a: Option<T>, b: Option<T>) -> Option<T> {
    match a {
        Some(x) => Some(x),
        None => b,
    }
}

/// A text that is not empty.
pub open spec fn not_empty(s: Option<Seq<char>>) -> Option<Seq<char>> {
    match s {
        Some(t) if t.len() > 0 => Some(t),
        _ => None,
    }
}

/// A value, or another one where there is none.
pub open spec fn or<T>(a: Option<T>, otherwise: T) -> T {
    match a {
        Some(x) => x,
        None => otherwise,
    }
}

/// The port of an account is its own: it is written down, or it is neither
/// missing nor the standard one.
pub open spec fn has_own_port(acc: AccountView) -> bool {
    acc.written.port is Some || acc.port != 0 && acc.port != 993
}

/// An account with its server settings completed by the domain of its address.
/// A setting of its own stays. Any other is taken from the first of these that
/// has it: the written rule for the domain, the common trash folder, and the
/// built-in rule for the domain. An account without a domain stays as it is.
pub open spec fn completed(
    acc: AccountView,
    rules: Seq<rules::RuleView>,
    default_trash: Option<Seq<char>>,
) -> AccountView {
    let domain = rules::domain_part(acc.user);
    let own = rules::rule_for(rules, domain);
    let builtin = rules::rule_for(rules::builtin_rules(), domain);
    if domain.len() == 0 {
        acc
    } else {
        AccountView {
            host: if acc.host.len() > 0 {
                acc.host
            } else {
                or(either(rule_host(own, acc.user), rule_host(builtin, acc.user)), acc.host)
            },
            port: if has_own_port(acc) {
                acc.port
            } else {
                or(either(rule_port(own), rule_port(builtin)), acc.port)
            },
            ssl: if acc.written.ssl is Some {
                acc.ssl
            } else {
                or(either(rule_ssl(own), rule_ssl(builtin)), acc.ssl)
            },
            trash_folder: if acc.written.trash_folder is Some {
                acc.trash_folder
            } else {
                or(
                    either(
                        rule_trash(own),
                        either(not_empty(default_trash), rule_trash(builtin)),
                    ),
                    acc.trash_folder,
                )
            },
            ..acc
        }
    }
}

/// A copy of an optional text.
fn copy_text(s: &Option<String>) -> (r: Option<String>)
    ensures
        chars::opt_text(r) == chars::opt_text(*s),
{
    match s {
        Some(t) => Some(t.clone()),
        None => None,
    }
}

/// The rule at an index of a list, where there is one.
spec fn rule_at(rules: Seq<DomainRule>, i: Option<usize>) -> Option<rules::RuleView> {
    match i {
        Some(i) => Some(rules[i as int]@),
        None => None,
    }
}

/// The host that the rule at index `i` gives `user`.
fn host_by_rule(rules: &Vec<DomainRule>, i: Option<usize>, user: &str, domain: &str) -> (r: Option<
    String,
>)
    requires
        i matches Some(k) ==> k < rules.len(),
        domain@ == rules::domain_part(user@),
    ensures
        chars::opt_text(r) == rule_host(rule_at(rules@, i), user@),
{
    match i {
        Some(k) => match &rules[k].host {
            Some(h) => Some(rules::expand_template(h, user, domain)),
            None => None,
        },
        None => None,
    }
}

/// The trash folder that the rule at index `i` gives.
fn trash_by_rule(rules: &Vec<DomainRule>, i: Option<usize>) -> (r: Option<String>)
    requires
        i matches Some(k) ==> k < rules.len(),
    ensures
        chars::opt_text(r) == rule_trash(rule_at(rules@, i)),
{
    match i {
        Some(k) => copy_text(&rules[k].trash_folder),
        None => None,
    }
}

/// The first of two texts that there is.
fn either_text(a: Option<String>, b: Option<String>) -> (r: Option<String>)
    ensures
        chars::opt_text(r) == either(chars::opt_text(a), chars::opt_text(b)),
{
    match a {
        Some(x) => Some(x),
        None => b,
    }
}

/// Completes the server settings of `acc` by the domain of its address, from
/// `rules`, from `default_trash` and from the built-in rules.
pub fn apply_domain_rules_to_account(
    acc: &mut AccountConfig,
    rules: &Vec<DomainRule>,
    default_trash: &Option<String>,
)
    ensures
        final(acc)@ == completed(
            old(acc)@,
            rules::rule_views(rules@),
            chars::opt_text(*default_trash),
        ),
{
    let domain = rules::domain_of(&acc.user);
    if domain.as_str().unicode_len() == 0 {
        return;
    }
    let builtins = rules::get_builtin_rules();
    let own = rules::find_rule(rules, &domain);
    let builtin = rules::find_rule(&builtins, &domain);

    if acc.host.as_str().unicode_len() == 0 {
        let host = either_text(
            host_by_rule(rules, own, &acc.user, &domain),
            host_by_rule(&builtins, builtin, &acc.user, &domain),
        );
        if let Some(h) = host {
            acc.host = h;
        }
    }
    if acc.written.port.is_none() && (acc.port == 0 || acc.port == 993) {
        let port_own: Option<u16> = match own {
            Some(k) => rules[k].port,
            None => None,
        };
        let port_builtin: Option<u16> = match builtin {
            Some(k) => builtins[k].port,
            None => None,
        };
        acc.port =
        match (port_own, port_builtin) {
            (Some(p), _) => p,
            (None, Some(p)) => p,
            (None, None) => acc.port,
        };
    }
    if acc.written.ssl.is_none() {
        let ssl_own: Option<bool> = match own {
            Some(k) => rules[k].ssl,
            None => None,
        };
        let ssl_builtin: Option<bool> = match builtin {
            Some(k) => builtins[k].ssl,
            None => None,
        };
        acc.ssl =
        match (ssl_own, ssl_builtin) {
            (Some(b), _) => b,
            (None, Some(b)) => b,
            (None, None) => acc.ssl,
        };
    }
    if acc.written.trash_folder.is_none() {
        let common = match default_trash {
            Some(t) => if t.as_str().unicode_len() > 0 {
                Some(t.clone())
            } else {
                None
            },
            None => None,
        };
        let trash = either_text(
            trash_by_rule(rules, own),
            either_text(common, trash_by_rule(&builtins, builtin)),
        );
        if let Some(t) = trash {
            acc.trash_folder = t;
        }
    }
}

/// What an account's own section writes down is what holds for it.
pub open spec fn agrees_with_section(acc: AccountView) -> bool {
    &&& acc.written.host matches Some(h) ==> h.len() > 0 && acc.host == h
    &&& acc.written.port matches Some(p) ==> acc.port == p
    &&& acc.written.ssl matches Some(b) ==> acc.ssl == b
    &&& acc.written.trash_folder matches Some(t) ==> acc.trash_folder == t
}

/// What an account's own section writes down goes before every rule: where it
/// holds for the account, it holds for the completed account.
pub proof fn law_written_settings_win(
    acc: AccountView,
    rules: Seq<rules::RuleView>,
    default_trash: Option<Seq<char>>,
)
    requires
        agrees_with_section(acc),
    ensures
        agrees_with_section(completed(acc, rules, default_trash)),
        completed(acc, rules, default_trash).written == acc.written,
{
}

/// A host that is not empty stays, and so does a port that is neither missing
/// nor the standard one. An account without a domain in its address stays as
/// it is, and of any other at most the host, the port, the encryption and the
/// trash folder change.
pub proof fn law_given_settings_are_kept(
    acc: AccountView,
    rules: Seq<rules::RuleView>,
    default_trash: Option<Seq<char>>,
)
    ensures
        ({
            let done = completed(acc, rules, default_trash);
            &&& acc.host.len() > 0 ==> done.host == acc.host
            &&& acc.port != 0 && acc.port != 993 ==> done.port == acc.port
            &&& rules::domain_part(acc.user).len() == 0 ==> done == acc
            &&& done == AccountView {
                host: done.host,
                port: done.port,
                ssl: done.ssl,
                trash_folder: done.trash_folder,
                ..acc
            }
        }),
{
}

/// Where an account has no setting of its own, the written rule for its domain
/// decides. Where that is silent too, the common trash folder decides, and only
/// then the built-in rule for the domain.
pub proof fn law_settings_are_taken_by_priority(
    acc: AccountView,
    rules: Seq<rules::RuleView>,
    default_trash: Option<Seq<char>>,
)
    requires
        rules::domain_part(acc.user).len() > 0,
    ensures
        ({
            let own = rules::rule_for(rules, rules::domain_part(acc.user));
            let builtin = rules::rule_for(
                rules::builtin_rules(),
                rules::domain_part(acc.user),
            );
            let done = completed(acc, rules, default_trash);
            &&& acc.host.len() == 0 ==> {
                &&& rule_host(own, acc.user) matches Some(h) ==> done.host == h
                &&& rule_host(own, acc.user) is None ==> (rule_host(builtin, acc.user) matches Some(
                    h,
                ) ==> done.host == h)
            }
            &&& !has_own_port(acc) ==> {
                &&& rule_port(own) matches Some(p) ==> done.port == p
                &&& rule_port(own) is None ==> (rule_port(builtin) matches Some(p) ==> done.port
                    == p)
            }
            &&& acc.written.ssl is None ==> {
                &&& rule_ssl(own) matches Some(b) ==> done.ssl == b
                &&& rule_ssl(own) is None ==> (rule_ssl(builtin) matches Some(b) ==> done.ssl == b)
            }
            &&& acc.written.trash_folder is None ==> {
                &&& rule_trash(own) matches Some(t) ==> done.trash_folder == t
                &&& rule_trash(own) is None ==> {
                    &&& not_empty(default_trash) matches Some(t) ==> done.trash_folder == t
                    &&& not_empty(default_trash) is None ==> (rule_trash(builtin) matches Some(t)
                        ==> done.trash_folder == t)
                }
            }
        }),
{
}

/// Completing an account's settings again changes nothing more.
pub proof fn law_completing_is_idempotent(
    acc: AccountView,
    rules: Seq<rules::RuleView>,
    default_trash: Option<Seq<char>>,
)
    ensures
        completed(completed(acc, rules, default_trash), rules, default_trash) == completed(
            acc,
            rules,
            default_trash,
        ),
{
}

/// Whether the account `acc` can be connected to: connections that are not
/// encrypted are refused.
pub fn check_encryption(acc: &AccountConfig) -> (r: Result<(), ConfigError>)
    ensures
        match r {
            Ok(_) => acc@.ssl,
            Err(e) => e is Unencrypted && !acc@.ssl,
        },
{
    if acc.ssl {
        Ok(())
    } else {
        Err(ConfigError::Unencrypted)
    }
}

} // verus!
