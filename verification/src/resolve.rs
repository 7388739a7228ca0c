//! Completing accounts with the user and the password of a call.

use vstd::prelude::*;
use crate::accounts;
use crate::config;
use crate::config::{AccountConfig, ConfigError, RawConfig};
use crate::rules;
use crate::rules::DomainRule;
use crate::sections;
use crate::text::{chars, trim, unicode};

verus! {

/// The first account of the given name, whatever the case of its letters.
pub open spec fn account_named(accounts: Seq<config::AccountView>, name: Seq<char>) -> Option<int>
    decreases accounts.len(),
{
    if accounts.len() == 0 {
        None
    } else if chars::same_ignoring_case(accounts[0].name, name) {
        Some(0)
    } else {
        match account_named(accounts.drop_first(), name) {
            Some(i) => Some(i + 1),
            None => None,
        }
    }
}

/// The account of a name is the first with that name.
pub proof fn lemma_account_named(accounts: Seq<config::AccountView>, name: Seq<char>)
    ensures
        match account_named(accounts, name) {
            Some(k) => 0 <= k < accounts.len() && chars::same_ignoring_case(
                accounts[k].name,
                name,
            ) && forall|j: int|
                0 <= j < k ==> !chars::same_ignoring_case(#[trigger] accounts[j].name, name),
            None => forall|j: int|
                0 <= j < accounts.len() ==> !chars::same_ignoring_case(
                    #[trigger] accounts[j].name,
                    name,
                ),
        },
    decreases accounts.len(),
{
    if accounts.len() > 0 && !chars::same_ignoring_case(accounts[0].name, name) {
        let rest = accounts.drop_first();
        lemma_account_named(rest, name);
        assert forall|j: int| 0 < j < accounts.len() implies #[trigger] accounts[j] == rest[j
            - 1] by {}
    }
}

/// Lists of accounts with the same names have the account of a name at the
/// same place.
proof fn lemma_account_named_by_names(
    a: Seq<config::AccountView>,
    b: Seq<config::AccountView>,
    name: Seq<char>,
)
    requires
        a.len() == b.len(),
        forall|i: int| 0 <= i < a.len() ==> (#[trigger] a[i]).name == b[i].name,
    ensures
        account_named(a, name) == account_named(b, name),
    decreases a.len(),
{
    if a.len() > 0 {
        assert(a[0].name == b[0].name);
        assert forall|i: int| 0 <= i < a.drop_first().len() implies (
        #[trigger] a.drop_first()[i]).name == b.drop_first()[i].name by {
            assert(a[i + 1].name == b[i + 1].name);
        }
        lemma_account_named_by_names(a.drop_first(), b.drop_first(), name);
    }
}

/// The index of the first account of the given name.
pub fn find_account(accounts: &Vec<AccountConfig>, name: &str) -> (r: Option<usize>)
    ensures
        match r {
            Some(i) => i < accounts.len() && account_named(
                config::account_views(accounts@),
                name@,
            ) == Some(i as int),
            None => account_named(config::account_views(accounts@), name@) is None,
        },
{
    let ghost all = config::account_views(accounts@);
    let mut i: usize = 0;
    while i < accounts.len()
        invariant
            all == config::account_views(accounts@),
            i <= accounts.len(),
            forall|j: int|
                0 <= j < i ==> !chars::same_ignoring_case(#[trigger] all[j].name, name@),
        decreases accounts.len() - i,
    {
        assert(all[i as int].name == accounts@[i as int].name@);
        if chars::eq_ignore_case(&accounts[i].name, name) {
            proof {
                lemma_account_named(all, name@);
            }
            return Some(i);
        }
        i += 1;
    }
    proof {
        lemma_account_named(all, name@);
    }
    None
}

// ---------------------------------------------------------------------------
// Users
// ---------------------------------------------------------------------------

/// Nothing but white space.
pub open spec fn is_blank(s: Seq<char>) -> bool {
    trim::trim(s).len() == 0
}

/// An account with the given user, unless it has one. Its server settings are
/// completed where it had none.
pub open spec fn with_user(
    acc: config::AccountView,
    user: Seq<char>,
    rules: Seq<rules::RuleView>,
    default_trash: Option<Seq<char>>,
) -> config::AccountView {
    if is_blank(acc.user) {
        config::completed(config::AccountView { user, ..acc }, rules, default_trash)
    } else {
        acc
    }
}

/// The accounts, completed with the user of a call: the account that the call
/// is about, or all of them where it is about none.
pub open spec fn users_resolved(
    accounts: Seq<config::AccountView>,
    cli_user: Option<Seq<char>>,
    target: Option<Seq<char>>,
    rules: Seq<rules::RuleView>,
    default_trash: Option<Seq<char>>,
) -> Seq<config::AccountView> {
    match config::filled(cli_user) {
        None => accounts,
        Some(user) => match target {
            Some(name) => match account_named(accounts, name) {
                Some(i) => accounts.update(i, with_user(accounts[i], user, rules, default_trash)),
                None => accounts,
            },
            None => Seq::new(
                accounts.len(),
                |i: int| with_user(accounts[i], user, rules, default_trash),
            ),
        },
    }
}

/// The account that a call is about.
pub open spec fn target_account(
    accounts: Seq<config::AccountView>,
    target: Option<Seq<char>>,
) -> Option<config::AccountView> {
    match target {
        Some(name) => match account_named(accounts, name) {
            Some(i) => Some(accounts[i]),
            None => None,
        },
        None => None,
    }
}

/// The account that a call is about has no user.
pub open spec fn lacks_user(
    accounts: Seq<config::AccountView>,
    target: Option<Seq<char>>,
) -> Option<Seq<char>> {
    match target_account(accounts, target) {
        Some(a) if is_blank(a.user) => Some(a.name),
        _ => None,
    }
}

/// The account that a call is about has no host.
pub open spec fn lacks_host(
    accounts: Seq<config::AccountView>,
    target: Option<Seq<char>>,
) -> Option<Seq<char>> {
    match target_account(accounts, target) {
        Some(a) if is_blank(a.host) => Some(a.name),
        _ => None,
    }
}

/// The account that a call is about has no password.
pub open spec fn lacks_password(
    accounts: Seq<config::AccountView>,
    target: Option<Seq<char>>,
) -> Option<Seq<char>> {
    match target_account(accounts, target) {
        Some(a) if is_blank(a.pass) => Some(a.name),
        _ => None,
    }
}

/// Whether `s` is nothing but white space.
fn blank(s: &str) -> (b: bool)
    ensures
        b == is_blank(s@),
{
    trim::trim_text(s).as_str().unicode_len() == 0
}

/// `s` trimmed, unless nothing is left of it.
fn filled_str(s: Option<&str>) -> (r: Option<String>)
    ensures
        chars::opt_text(r) == config::filled(chars::opt_str(s)),
{
    match s {
        Some(t) => config::filled_text(Some(t.to_owned())),
        None => None,
    }
}

/// Gives `acc` the user `user`, unless it has one.
fn give_user(
    acc: &mut AccountConfig,
    user: &str,
    rules: &Vec<DomainRule>,
    default_trash: &Option<String>,
)
    ensures
        final(acc)@ == with_user(
            old(acc)@,
            user@,
            rules::rule_views(rules@),
            chars::opt_text(*default_trash),
        ),
{
    if blank(&acc.user) {
        acc.user = user.to_owned();
        config::apply_domain_rules_to_account(acc, rules, default_trash);
    }
}

/// Completes the accounts with the user of a call. It fails where the account
/// that the call is about then lacks a user or a host.
pub fn resolve_account_user(
    accounts: &mut Vec<AccountConfig>,
    cli_user: Option<&str>,
    target: Option<&str>,
    rules: &Vec<DomainRule>,
    default_trash: &Option<String>,
) -> (r: Result<(), ConfigError>)
    ensures
        config::account_views(final(accounts)@) == users_resolved(
            config::account_views(old(accounts)@),
            chars::opt_str(cli_user),
            chars::opt_str(target),
            rules::rule_views(rules@),
            chars::opt_text(*default_trash),
        ),
        ({
            let after = config::account_views(final(accounts)@);
            match r {
                Ok(_) => lacks_user(after, chars::opt_str(target)) is None && lacks_host(
                    after,
                    chars::opt_str(target),
                ) is None,
                Err(ConfigError::EmptyUser(n)) => lacks_user(after, chars::opt_str(target)) == Some(
                    n@,
                ),
                Err(ConfigError::EmptyHost(n)) => lacks_user(after, chars::opt_str(target)) is None
                    && lacks_host(after, chars::opt_str(target)) == Some(n@),
                Err(_) => false,
            }
        }),
{
    let ghost start = config::account_views(accounts@);
    let ghost written = rules::rule_views(rules@);
    let ghost trash = chars::opt_text(*default_trash);
    if let Some(user) = filled_str(cli_user) {
        match target {
            Some(name) => {
                if let Some(i) = find_account(accounts, name) {
                    give_user(&mut accounts[i], &user, rules, default_trash);
                    assert(config::account_views(accounts@) =~= start.update(
                        i as int,
                        with_user(start[i as int], user@, written, trash),
                    ));
                }
            },
            None => {
                let mut i: usize = 0;
                while i < accounts.len()
                    invariant
                        i <= accounts.len(),
                        start.len() == accounts.len(),
                        written == rules::rule_views(rules@),
                        trash == chars::opt_text(*default_trash),
                        forall|j: int|
                            0 <= j < i ==> (#[trigger] accounts@[j])@ == with_user(
                                start[j],
                                user@,
                                written,
                                trash,
                            ),
                        forall|j: int| i <= j < start.len() ==> (#[trigger] accounts@[j])@ == start[j],
                    decreases accounts.len() - i,
                {
                    give_user(&mut accounts[i], &user, rules, default_trash);
                    i += 1;
                }
                assert(config::account_views(accounts@) =~= Seq::new(
                    start.len(),
                    |j: int| with_user(start[j], user@, written, trash),
                ));
            },
        }
    }
    if let Some(name) = target {
        if let Some(i) = find_account(accounts, name) {
            assert(config::account_views(accounts@)[i as int] == accounts@[i as int]@);
            if blank(&accounts[i].user) {
                return Err(ConfigError::EmptyUser(accounts[i].name.clone()));
            }
            if blank(&accounts[i].host) {
                return Err(ConfigError::EmptyHost(accounts[i].name.clone()));
            }
        }
    }
    Ok(())
}

// ---------------------------------------------------------------------------
// Passwords
// ---------------------------------------------------------------------------

/// An account with the given password, unless it has one.
pub open spec fn with_password(acc: config::AccountView, pass: Seq<char>) -> config::AccountView {
    if is_blank(acc.pass) {
        config::AccountView { pass, ..acc }
    } else {
        acc
    }
}

/// The environment variable that holds the password of an account.
pub open spec fn password_variable(name: Seq<char>) -> Seq<char> {
    "AUXIMAP_PASS_"@ + unicode::upper(name)
}

/// The password that the environment holds for an account: the one in the
/// account's own variable, or, where that is not set, the common one.
pub open spec fn environment_password(name: Seq<char>, env: sections::Entries) -> Option<
    Seq<char>,
> {
    match sections::value_in(env, password_variable(name)) {
        Some(v) => config::filled(Some(v)),
        None => config::filled(sections::value_in(env, "AUXIMAP_PASS"@)),
    }
}

/// An account with the password that the environment holds for it, unless it
/// has one.
pub open spec fn with_environment(
    acc: config::AccountView,
    env: sections::Entries,
) -> config::AccountView {
    match environment_password(acc.name, env) {
        Some(p) => with_password(acc, p),
        None => acc,
    }
}

/// The accounts, completed with the password of a call.
pub open spec fn call_passwords(
    accounts: Seq<config::AccountView>,
    cli_pass: Option<Seq<char>>,
    target: Option<Seq<char>>,
) -> Seq<config::AccountView> {
    match config::filled(cli_pass) {
        None => accounts,
        Some(pass) => match target {
            Some(name) => match account_named(accounts, name) {
                Some(i) => accounts.update(i, with_password(accounts[i], pass)),
                None => accounts,
            },
            None => Seq::new(accounts.len(), |i: int| with_password(accounts[i], pass)),
        },
    }
}

/// The accounts, completed with the password of a call and then with those of
/// the environment.
pub open spec fn passwords_resolved(
    accounts: Seq<config::AccountView>,
    cli_pass: Option<Seq<char>>,
    target: Option<Seq<char>>,
    env: sections::Entries,
) -> Seq<config::AccountView> {
    let called = call_passwords(accounts, cli_pass, target);
    Seq::new(called.len(), |i: int| with_environment(called[i], env))
}

/// The environment variable that holds the password of the account `name`.
pub fn password_variable_name(name: &str) -> (r: String)
    ensures
        r@ == password_variable(name@),
{
    let upper = unicode::upper_text(name);
    chars::concat2("AUXIMAP_PASS_", &upper)
}

/// Gives `acc` the password `pass`, unless it has one.
fn give_password(acc: &mut AccountConfig, pass: &str)
    ensures
        final(acc)@ == with_password(old(acc)@, pass@),
{
    if blank(&acc.pass) {
        acc.pass = pass.to_owned();
    }
}

/// The password that the environment holds for the account `name`.
fn password_in_environment(name: &str, env: &Vec<(String, String)>) -> (r: Option<String>)
    ensures
        chars::opt_text(r) == environment_password(name@, sections::entry_views(env@)),
{
    let own = sections::get_value(env, &password_variable_name(name));
    match own {
        Some(v) => config::filled_text(Some(v)),
        None => config::filled_text(sections::get_value(env, "AUXIMAP_PASS")),
    }
}

/// Completes the accounts with the password of a call and with those of the
/// environment, whose variables `env` lists. It fails where the account that
/// the call is about then lacks a password.
pub fn resolve_account_passwords(
    accounts: &mut Vec<AccountConfig>,
    cli_pass: Option<&str>,
    target: Option<&str>,
    env: &Vec<(String, String)>,
) -> (r: Result<(), ConfigError>)
    ensures
        config::account_views(final(accounts)@) == passwords_resolved(
            config::account_views(old(accounts)@),
            chars::opt_str(cli_pass),
            chars::opt_str(target),
            sections::entry_views(env@),
        ),
        ({
            let after = config::account_views(final(accounts)@);
            match r {
                Ok(_) => lacks_password(after, chars::opt_str(target)) is None,
                Err(ConfigError::EmptyPassword(n)) => lacks_password(after, chars::opt_str(target))
                    == Some(n@),
                Err(_) => false,
            }
        }),
{
    let ghost start = config::account_views(accounts@);
    let ghost variables = sections::entry_views(env@);
    if let Some(pass) = filled_str(cli_pass) {
        match target {
            Some(name) => {
                if let Some(i) = find_account(accounts, name) {
                    give_password(&mut accounts[i], &pass);
                    assert(config::account_views(accounts@) =~= start.update(
                        i as int,
                        with_password(start[i as int], pass@),
                    ));
                }
            },
            None => {
                let mut i: usize = 0;
                while i < accounts.len()
                    invariant
                        i <= accounts.len(),
                        start.len() == accounts.len(),
                        forall|j: int|
                            0 <= j < i ==> (#[trigger] accounts@[j])@ == with_password(
                                start[j],
                                pass@,
                            ),
                        forall|j: int| i <= j < start.len() ==> (#[trigger] accounts@[j])@ == start[j],
                    decreases accounts.len() - i,
                {
                    give_password(&mut accounts[i], &pass);
                    i += 1;
                }
                assert(config::account_views(accounts@) =~= Seq::new(
                    start.len(),
                    |j: int| with_password(start[j], pass@),
                ));
            },
        }
    }
    let ghost called = config::account_views(accounts@);
    assert(called == call_passwords(start, chars::opt_str(cli_pass), chars::opt_str(target)));
    let mut i: usize = 0;
    while i < accounts.len()
        invariant
            i <= accounts.len(),
            called.len() == accounts.len(),
            variables == sections::entry_views(env@),
            forall|j: int|
                0 <= j < i ==> (#[trigger] accounts@[j])@ == with_environment(called[j], variables),
            forall|j: int| i <= j < called.len() ==> (#[trigger] accounts@[j])@ == called[j],
        decreases accounts.len() - i,
    {
        let found = password_in_environment(&accounts[i].name, env);
        if let Some(p) = found {
            give_password(&mut accounts[i], &p);
        }
        i += 1;
    }
    assert(config::account_views(accounts@) =~= Seq::new(
        called.len(),
        |j: int| with_environment(called[j], variables),
    ));
    if let Some(name) = target {
        if let Some(i) = find_account(accounts, name) {
            assert(config::account_views(accounts@)[i as int] == accounts@[i as int]@);
            if blank(&accounts[i].pass) {
                return Err(ConfigError::EmptyPassword(accounts[i].name.clone()));
            }
        }
    }
    Ok(())
}

// ---------------------------------------------------------------------------
// The whole configuration
// ---------------------------------------------------------------------------

/// `r` is the outcome of completing the accounts for a call.
pub open spec fn is_resolution(
    r: Result<Vec<AccountConfig>, ConfigError>,
    accounts: Seq<config::AccountView>,
    rules: Seq<rules::RuleView>,
    default_trash: Option<Seq<char>>,
    cli_pass: Option<Seq<char>>,
    cli_user: Option<Seq<char>>,
    target: Option<Seq<char>>,
    env: sections::Entries,
) -> bool {
    let named = users_resolved(accounts, cli_user, target, rules, default_trash);
    let done = passwords_resolved(named, cli_pass, target, env);
    let has_server = lacks_user(named, target) is None && lacks_host(named, target) is None;
    match r {
        Ok(found) => has_server && lacks_password(done, target) is None && config::account_views(
            found@,
        ) == done,
        Err(ConfigError::EmptyUser(n)) => lacks_user(named, target) == Some(n@),
        Err(ConfigError::EmptyHost(n)) => lacks_user(named, target) is None && lacks_host(
            named,
            target,
        ) == Some(n@),
        Err(ConfigError::EmptyPassword(n)) => has_server && lacks_password(done, target) == Some(
            n@,
        ),
        Err(_) => false,
    }
}

/// The accounts of a configuration, completed for a call.
pub fn resolve_config(
    raw: RawConfig,
    cli_pass: Option<&str>,
    cli_user: Option<&str>,
    target: Option<&str>,
    env: &Vec<(String, String)>,
) -> (r: Result<Vec<AccountConfig>, ConfigError>)
    ensures
        is_resolution(
            r,
            config::account_views(raw.accounts@),
            rules::rule_views(raw.rules@),
            chars::opt_text(raw.default_trash),
            chars::opt_str(cli_pass),
            chars::opt_str(cli_user),
            chars::opt_str(target),
            sections::entry_views(env@),
        ),
{
    let mut accounts = raw.accounts;
    match resolve_account_user(&mut accounts, cli_user, target, &raw.rules, &raw.default_trash) {
        Ok(_) => {},
        Err(e) => {
            return Err(e);
        },
    }
    match resolve_account_passwords(&mut accounts, cli_pass, target, env) {
        Ok(_) => Ok(accounts),
        Err(e) => Err(e),
    }
}

/// The accounts that a configuration text describes, completed for a call.
pub fn load_config(
    text: &str,
    cli_pass: Option<&str>,
    cli_user: Option<&str>,
    target: Option<&str>,
    env: &Vec<(String, String)>,
) -> (r: Result<Vec<AccountConfig>, ConfigError>)
    ensures
        match sections::ini_sections(sections::without_mark(text@)) {
            Err(bad) => r matches Err(ConfigError::Syntax(e)) && e@ == bad,
            Ok(found) => if accounts::configured_accounts(found).len() == 0 {
                r matches Err(ConfigError::NoAccounts)
            } else {
                is_resolution(
                    r,
                    accounts::configured_accounts(found),
                    accounts::rules_in(found),
                    accounts::default_value(found, "trash_folder"@),
                    chars::opt_str(cli_pass),
                    chars::opt_str(cli_user),
                    chars::opt_str(target),
                    sections::entry_views(env@),
                )
            },
        },
{
    match accounts::load_config_raw(text) {
        Ok(raw) => resolve_config(raw, cli_pass, cli_user, target, env),
        Err(e) => Err(e),
    }
}

/// An account that has a user is not touched by the user of a call.
pub proof fn law_written_user_is_kept(
    accounts: Seq<config::AccountView>,
    cli_user: Option<Seq<char>>,
    target: Option<Seq<char>>,
    rules: Seq<rules::RuleView>,
    default_trash: Option<Seq<char>>,
    i: int,
)
    requires
        0 <= i < accounts.len(),
        !is_blank(accounts[i].user),
    ensures
        users_resolved(accounts, cli_user, target, rules, default_trash)[i] == accounts[i],
{
    if let Some(name) = target {
        lemma_account_named(accounts, name);
    }
}

/// An account that has a password is not touched by the password of a call,
/// nor by those of the environment.
pub proof fn law_written_password_is_kept(
    accounts: Seq<config::AccountView>,
    cli_pass: Option<Seq<char>>,
    target: Option<Seq<char>>,
    env: sections::Entries,
    i: int,
)
    requires
        0 <= i < accounts.len(),
        !is_blank(accounts[i].pass),
    ensures
        passwords_resolved(accounts, cli_pass, target, env)[i] == accounts[i],
{
    if let Some(name) = target {
        lemma_account_named(accounts, name);
    }
}

/// The password of a call goes before those of the environment.
pub proof fn law_call_password_goes_before_environment(
    accounts: Seq<config::AccountView>,
    cli_pass: Seq<char>,
    target: Seq<char>,
    env: sections::Entries,
)
    requires
        !is_blank(cli_pass),
        target_account(accounts, Some(target)) matches Some(a) && is_blank(a.pass),
    ensures
        target_account(
            passwords_resolved(accounts, Some(cli_pass), Some(target), env),
            Some(target),
        ) matches Some(a) && a.pass == trim::trim(cli_pass),
{
    let done = passwords_resolved(accounts, Some(cli_pass), Some(target), env);
    lemma_account_named(accounts, target);
    law_completing_keeps_the_accounts(
        accounts,
        None,
        Some(cli_pass),
        Some(target),
        seq![],
        None,
        env,
    );
    lemma_account_named_by_names(accounts, done, target);
    trim::lemma_trim_twice(cli_pass);
}

/// Completing the accounts neither adds nor removes nor renames any, nor does
/// it change what their sections write down, how much of them is listed or how
/// their dates are shown.
pub proof fn law_completing_keeps_the_accounts(
    accounts: Seq<config::AccountView>,
    cli_user: Option<Seq<char>>,
    cli_pass: Option<Seq<char>>,
    target: Option<Seq<char>>,
    rules: Seq<rules::RuleView>,
    default_trash: Option<Seq<char>>,
    env: sections::Entries,
)
    ensures
        ({
            let done = passwords_resolved(
                users_resolved(accounts, cli_user, target, rules, default_trash),
                cli_pass,
                target,
                env,
            );
            &&& done.len() == accounts.len()
            &&& forall|i: int|
                0 <= i < accounts.len() ==> {
                    &&& (#[trigger] done[i]).name == accounts[i].name
                    &&& done[i].written == accounts[i].written
                    &&& done[i].limit == accounts[i].limit
                    &&& done[i].offset == accounts[i].offset
                    &&& done[i].chunk_size == accounts[i].chunk_size
                    &&& done[i].timezone == accounts[i].timezone
                    &&& done[i].date_source == accounts[i].date_source
                }
        }),
{
    let named = users_resolved(accounts, cli_user, target, rules, default_trash);
    if let Some(name) = target {
        lemma_account_named(accounts, name);
        lemma_account_named(named, name);
    }
    let called = call_passwords(named, cli_pass, target);
    let done = passwords_resolved(named, cli_pass, target, env);
    assert forall|i: int| 0 <= i < accounts.len() implies {
        &&& (#[trigger] done[i]).name == accounts[i].name
        &&& done[i].written == accounts[i].written
        &&& done[i].limit == accounts[i].limit
        &&& done[i].offset == accounts[i].offset
        &&& done[i].chunk_size == accounts[i].chunk_size
        &&& done[i].timezone == accounts[i].timezone
        &&& done[i].date_source == accounts[i].date_source
    } by {
        assert(named[i].name == accounts[i].name);
        assert(called[i].name == named[i].name);
        assert(done[i] == with_environment(called[i], env));
    }
}

/// What an account's own section writes down goes before what is known at the
/// time of a call: where it held before, it holds afterwards.
pub proof fn law_written_settings_hold_for_a_call(
    accounts: Seq<config::AccountView>,
    cli_user: Option<Seq<char>>,
    cli_pass: Option<Seq<char>>,
    target: Option<Seq<char>>,
    rules: Seq<rules::RuleView>,
    default_trash: Option<Seq<char>>,
    env: sections::Entries,
    i: int,
)
    requires
        0 <= i < accounts.len(),
        config::agrees_with_section(accounts[i]),
    ensures
        config::agrees_with_section(
            passwords_resolved(
                users_resolved(accounts, cli_user, target, rules, default_trash),
                cli_pass,
                target,
                env,
            )[i],
        ),
{
    let named = users_resolved(accounts, cli_user, target, rules, default_trash);
    if let Some(name) = target {
        lemma_account_named(accounts, name);
        lemma_account_named(named, name);
    }
    if let Some(user) = config::filled(cli_user) {
        config::law_written_settings_win(
            config::AccountView { user, ..accounts[i] },
            rules,
            default_trash,
        );
    }
    assert(config::agrees_with_section(named[i]));
    let called = call_passwords(named, cli_pass, target);
    assert(config::agrees_with_section(called[i]));
    assert(passwords_resolved(named, cli_pass, target, env)[i] == with_environment(called[i], env));
}

/// A call about one account gives its user and its password to that account
/// alone.
pub proof fn law_only_the_target_is_given_credentials(
    accounts: Seq<config::AccountView>,
    cli_user: Option<Seq<char>>,
    cli_pass: Option<Seq<char>>,
    target: Seq<char>,
    rules: Seq<rules::RuleView>,
    default_trash: Option<Seq<char>>,
    i: int,
)
    requires
        0 <= i < accounts.len(),
        account_named(accounts, target) != Some(i),
    ensures
        users_resolved(accounts, cli_user, Some(target), rules, default_trash)[i] == accounts[i],
        call_passwords(accounts, cli_pass, Some(target))[i] == accounts[i],
{
    lemma_account_named(accounts, target);
}

/// Where a call about an account succeeds, the account has a user, a host and
/// a password.
pub proof fn law_resolved_target_is_complete(
    accounts: Seq<config::AccountView>,
    rules: Seq<rules::RuleView>,
    default_trash: Option<Seq<char>>,
    cli_pass: Option<Seq<char>>,
    cli_user: Option<Seq<char>>,
    target: Seq<char>,
    env: sections::Entries,
    found: Vec<AccountConfig>,
)
    requires
        is_resolution(
            Ok(found),
            accounts,
            rules,
            default_trash,
            cli_pass,
            cli_user,
            Some(target),
            env,
        ),
    ensures
        target_account(config::account_views(found@), Some(target)) matches Some(a) ==> !is_blank(
            a.user,
        ) && !is_blank(a.host) && !is_blank(a.pass),
        target_account(config::account_views(found@), Some(target)) is Some <==> target_account(
            accounts,
            Some(target),
        ) is Some,
{
    let named = users_resolved(accounts, cli_user, Some(target), rules, default_trash);
    let done = passwords_resolved(named, cli_pass, Some(target), env);
    lemma_account_named(accounts, target);
    lemma_account_named(named, target);
    law_completing_keeps_the_accounts(
        accounts,
        cli_user,
        cli_pass,
        Some(target),
        rules,
        default_trash,
        env,
    );
    law_completing_keeps_the_accounts(named, None, cli_pass, Some(target), rules, default_trash, env);
    lemma_account_named_by_names(accounts, done, target);
    lemma_account_named_by_names(named, done, target);
}

} // verus!
