//! Who a call is about, and which credentials it uses.

use vstd::prelude::*;
use crate::config;
use crate::config::{AccountConfig, AccountView, ConfigError};
use crate::resolve;
use crate::rules::RuleView;
use crate::sections;
use crate::text::{chars, trim, unicode};

verus! {

/// A call is about the first account of its name, in capitals or not; there is
/// none where no account has the name.
pub proof fn law_first_account_of_a_name_counts(
    before: Seq<AccountView>,
    acc: AccountView,
    after: Seq<AccountView>,
    name: Seq<char>,
)
    requires
        forall|i: int|
            0 <= i < before.len() ==> unicode::ascii_lower((#[trigger] before[i]).name)
                != unicode::ascii_lower(name),
        unicode::ascii_lower(acc.name) == unicode::ascii_lower(name),
    ensures
        resolve::account_named(before + seq![acc] + after, name) == Some(before.len() as int),
        resolve::account_named(before, name) is None,
        resolve::target_account(before + seq![acc] + after, Some(name)) == Some(acc),
        resolve::target_account(before + seq![acc] + after, None) is None,
    decreases before.len(),
{
    let all = before + seq![acc] + after;
    if before.len() > 0 {
        let rest = before.drop_first();
        assert(all[0] == before[0]);
        assert(all.drop_first() =~= rest + seq![acc] + after);
        law_first_account_of_a_name_counts(rest, acc, after, name);
    } else {
        assert(all[0] == acc);
    }
    assert(all[before.len() as int] == acc);
}

/// An account without a password gets the one in its own variable of the
/// environment, whose name ends with the account's in capitals. Only where that
/// variable is not set does the common one count. White space around a password
/// is left out, and one that is blank is none.
pub proof fn law_environment_gives_passwords(acc: AccountView, env: sections::Entries)
    requires
        trim::trim(acc.pass).len() == 0,
    ensures
        ({
            let own = sections::value_in(env, "AUXIMAP_PASS_"@ + unicode::upper(acc.name));
            let common = sections::value_in(env, "AUXIMAP_PASS"@);
            let done = resolve::with_environment(acc, env);
            &&& done == AccountView { pass: done.pass, ..acc }
            &&& own matches Some(v) ==> done.pass == if trim::trim(v).len() > 0 {
                trim::trim(v)
            } else {
                acc.pass
            }
            &&& own is None ==> (common matches Some(v) ==> done.pass == if trim::trim(v).len() > 0 {
                trim::trim(v)
            } else {
                acc.pass
            })
            &&& own is None && common is None ==> done == acc
        }),
{
}

/// Every account is completed from the environment, whatever account the call
/// is about, and none is added or left out.
pub proof fn law_every_account_is_completed_from_the_environment(
    accounts: Seq<AccountView>,
    target: Option<Seq<char>>,
    pass: Seq<char>,
    env: sections::Entries,
    i: int,
)
    requires
        0 <= i < accounts.len(),
    ensures
        ({
            let done = resolve::passwords_resolved(accounts, None, target, env);
            let given = resolve::passwords_resolved(accounts, Some(pass), target, env);
            &&& done.len() == accounts.len()
            &&& done[i] == resolve::with_environment(accounts[i], env)
            &&& given.len() == accounts.len()
            &&& target matches Some(name) ==> (!chars::same_ignoring_case(accounts[i].name, name)
                ==> given[i] == done[i])
        }),
{
    if let Some(name) = target {
        resolve::lemma_account_named(accounts, name);
    }
}

/// The user of a call, white space around it left out, becomes the user of the
/// account that the call is about, where this has none; the account's server is
/// then the one for the new address. A call about no account in particular
/// gives its user to every account without one.
pub proof fn law_call_gives_its_user(
    accounts: Seq<AccountView>,
    user: Seq<char>,
    name: Seq<char>,
    rules: Seq<RuleView>,
    default_trash: Option<Seq<char>>,
    i: int,
)
    requires
        0 <= i < accounts.len(),
        trim::trim(user).len() > 0,
        trim::trim(accounts[i].user).len() == 0,
    ensures
        ({
            let given = config::completed(
                AccountView { user: trim::trim(user), ..accounts[i] },
                rules,
                default_trash,
            );
            &&& given.user == trim::trim(user)
            &&& resolve::account_named(accounts, name) == Some(i) ==> resolve::users_resolved(
                accounts,
                Some(user),
                Some(name),
                rules,
                default_trash,
            )[i] == given
            &&& resolve::users_resolved(accounts, Some(user), None, rules, default_trash)[i] == given
        }),
{
}

/// The password of a call, white space around it left out, becomes the password
/// of the account that the call is about, where this has none. A call about no
/// account in particular gives its password to every account without one.
pub proof fn law_call_gives_its_password(
    accounts: Seq<AccountView>,
    pass: Seq<char>,
    name: Seq<char>,
    i: int,
)
    requires
        0 <= i < accounts.len(),
        trim::trim(pass).len() > 0,
        trim::trim(accounts[i].pass).len() == 0,
    ensures
        ({
            let given = AccountView { pass: trim::trim(pass), ..accounts[i] };
            &&& resolve::account_named(accounts, name) == Some(i) ==> resolve::call_passwords(
                accounts,
                Some(pass),
                Some(name),
            )[i] == given
            &&& resolve::call_passwords(accounts, Some(pass), None)[i] == given
        }),
{
}

/// A blank user or password of a call counts as none.
pub proof fn law_blank_credentials_count_as_none(
    accounts: Seq<AccountView>,
    blank: Option<Seq<char>>,
    target: Option<Seq<char>>,
    rules: Seq<RuleView>,
    default_trash: Option<Seq<char>>,
)
    requires
        blank matches Some(v) ==> trim::trim(v).len() == 0,
    ensures
        resolve::users_resolved(accounts, blank, target, rules, default_trash) == accounts,
        resolve::call_passwords(accounts, blank, target) == accounts,
{
}

/// What a call is told where the account that it is about lacks something: its
/// user, else its host, else its password. It is told the account's name.
pub proof fn law_missing_settings_are_told(
    r: Result<Vec<AccountConfig>, ConfigError>,
    accounts: Seq<AccountView>,
    rules: Seq<RuleView>,
    default_trash: Option<Seq<char>>,
    pass: Option<Seq<char>>,
    user: Option<Seq<char>>,
    name: Seq<char>,
    env: sections::Entries,
    i: int,
)
    requires
        resolve::is_resolution(r, accounts, rules, default_trash, pass, user, Some(name), env),
        resolve::account_named(accounts, name) == Some(i),
        0 <= i < accounts.len(),
    ensures
        ({
            let named = resolve::users_resolved(accounts, user, Some(name), rules, default_trash);
            let done = resolve::passwords_resolved(named, pass, Some(name), env);
            let lacks_user = trim::trim(named[i].user).len() == 0;
            let lacks_host = trim::trim(named[i].host).len() == 0;
            let lacks_password = trim::trim(done[i].pass).len() == 0;
            &&& lacks_user ==> (r matches Err(ConfigError::EmptyUser(n)) && n@ == accounts[i].name)
            &&& !lacks_user && lacks_host ==> (r matches Err(ConfigError::EmptyHost(n)) && n@
                == accounts[i].name)
            &&& !lacks_user && !lacks_host && lacks_password ==> (r matches Err(
                ConfigError::EmptyPassword(n),
            ) && n@ == accounts[i].name)
            &&& !lacks_user && !lacks_host && !lacks_password ==> (r matches Ok(found)
                && config::account_views(found@) == done)
        }),
{
    let named = resolve::users_resolved(accounts, user, Some(name), rules, default_trash);
    let done = resolve::passwords_resolved(named, pass, Some(name), env);
    resolve::law_completing_keeps_the_accounts(
        accounts,
        user,
        pass,
        Some(name),
        rules,
        default_trash,
        env,
    );
    assert(done[i].name == accounts[i].name);
    assert(named.len() == accounts.len());
    assert forall|k: int| 0 <= k < accounts.len() implies (#[trigger] named[k]).name
        == accounts[k].name by {
        assert(done[k].name == accounts[k].name);
        resolve::law_completing_keeps_the_accounts(
            accounts,
            user,
            None,
            Some(name),
            rules,
            default_trash,
            seq![],
        );
    }
    lemma_same_names(accounts, named, name);
    lemma_same_names(accounts, done, name);
}

/// Accounts of the same names are found at the same places.
proof fn lemma_same_names(a: Seq<AccountView>, b: Seq<AccountView>, name: Seq<char>)
    requires
        a.len() == b.len(),
        forall|k: int| 0 <= k < a.len() ==> (#[trigger] b[k]).name == a[k].name,
    ensures
        resolve::account_named(a, name) == resolve::account_named(b, name),
    decreases a.len(),
{
    if a.len() > 0 {
        assert(b[0].name == a[0].name);
        assert forall|k: int| 0 <= k < a.drop_first().len() implies (
        #[trigger] b.drop_first()[k]).name == a.drop_first()[k].name by {
            assert(b[k + 1].name == a[k + 1].name);
        }
        lemma_same_names(a.drop_first(), b.drop_first(), name);
    }
}

} // verus!
