//! Which rule holds for an address, and what it gives.

use vstd::prelude::*;
use vstd::utf8::*;
use crate::config;
use crate::config::{AccountView, WrittenView};
use crate::rules;
use crate::rules::RuleView;
use crate::text::{search, unicode};

verus! {

/// The domain of an address is what stands behind its first at sign, and its
/// user what stands before it. An address without one has no domain.
pub proof fn law_address_is_cut_at_the_at_sign(user: Seq<char>, domain: Seq<char>)
    requires
        !user.contains('@'),
    ensures
        rules::domain_part(user + seq!['@'] + domain) == domain,
        rules::user_part(user + seq!['@'] + domain) == user,
        rules::domain_part(user) == Seq::<char>::empty(),
        rules::user_part(user) == user,
{
    let s = user + seq!['@'] + domain;
    let n = user.len() as int;
    assert forall|j: int| 0 <= j < n implies s[j] != '@' by {
        assert(user.contains(user[j]));
    }
    search::lemma_index_of_char_is(s, '@', n);
    assert(s.skip(n + 1) =~= domain);
    assert(s.take(n) =~= user);
    search::lemma_index_of_char(user, '@');
    if let Some(k) = search::index_of_char(user, '@') {
        assert(user.contains(user[k]));
    }
}

/// Which domains a pattern covers, both in lower case: `default` and `*` cover
/// every one; `*.` and a domain cover that domain and those under it; a
/// beginning and `.*` cover what begins so, up to a dot; any other pattern
/// covers the domain that it is.
pub proof fn law_which_domains_a_pattern_covers(part: Seq<char>, domain: Seq<char>)
    ensures
        rules::covers("default"@, domain),
        rules::covers("*"@, domain),
        rules::covers(domain, domain),
        rules::covers(seq!['*', '.'] + part, domain) <==> {
            ||| domain == part
            ||| domain == seq!['*', '.'] + part
            ||| domain.len() > part.len() && domain.skip(domain.len() - part.len()) == part
                && domain[domain.len() - part.len() - 1] == '.'
        },
        !search::starts_with(part + seq!['.', '*'], seq!['*', '.']) ==> (rules::covers(
            part + seq!['.', '*'],
            domain,
        ) <==> {
            ||| domain == part + seq!['.', '*']
            ||| domain.len() > part.len() && domain.take(part.len() as int) == part
                && domain[part.len() as int] == '.'
        }),
        !search::starts_with(part, seq!['*', '.']) && !search::ends_with(part, seq!['.', '*'])
            && part != "default"@ && part != "*"@ ==> (rules::covers(part, domain) <==> domain
            == part),
{
    reveal_strlit("default");
    reveal_strlit("*");
    let star = seq!['*', '.'] + part;
    assert(star[0] == '*' && star[1] == '.');
    assert(star.take(2) =~= seq!['*', '.']);
    assert(star.skip(2) =~= part);
    assert(star.len() >= 2);
    let tail = seq!['.'] + part;
    let n = domain.len() - part.len();
    if search::ends_with(domain, tail) {
        let d = domain.skip(domain.len() - tail.len());
        assert(d[0] == '.');
        assert(d.skip(1) =~= domain.skip(n));
        assert(d.skip(1) =~= part);
    }
    if domain.len() > part.len() && domain.skip(n) == part && domain[n - 1] == '.' {
        assert(domain.skip(domain.len() - tail.len()) =~= tail);
    }
    let open = part + seq!['.', '*'];
    assert(open.skip(open.len() - 2) =~= seq!['.', '*']);
    assert(open[open.len() - 1] == '*' && open[open.len() - 2] == '.');
    assert(open.take(open.len() - 2) =~= part);
    let front = part.push('.');
    if search::starts_with(domain, front) {
        let d = domain.take(front.len() as int);
        assert(d[part.len() as int] == '.');
        assert(d.take(part.len() as int) =~= domain.take(part.len() as int));
        assert(d.take(part.len() as int) =~= part);
    }
    if domain.len() > part.len() && domain.take(part.len() as int) == part
        && domain[part.len() as int] == '.' {
        assert(domain.take(front.len() as int) =~= front);
    }
}

/// The rule's pattern stands for all domains.
pub open spec fn stands_for_all(pattern: Seq<char>) -> bool {
    unicode::ascii_lower(pattern) == "default"@ || pattern == "*"@
}

/// The first rule that fits is found.
proof fn lemma_first_fit(rules: Seq<RuleView>, domain: Seq<char>, fit: rules::Fit, i: int)
    requires
        0 <= i <= rules.len(),
        forall|j: int| 0 <= j < i ==> !rules::fits((#[trigger] rules[j]).pattern, domain, fit),
    ensures
        i < rules.len() && rules::fits(rules[i].pattern, domain, fit) ==> rules::first_fit(
            rules,
            domain,
            fit,
        ) == Some(rules[i]),
        i == rules.len() ==> rules::first_fit(rules, domain, fit) is None,
    decreases rules.len(),
{
    if i > 0 {
        let rest = rules.drop_first();
        assert(!rules::fits(rules[0].pattern, domain, fit));
        assert forall|j: int| 0 <= j < i - 1 implies !rules::fits(
            (#[trigger] rest[j]).pattern,
            domain,
            fit,
        ) by {
            assert(rest[j] == rules[j + 1]);
        }
        lemma_first_fit(rest, domain, fit, i - 1);
    }
}

/// The rule for a domain is the first that names it, in capitals or not; where
/// none does, the first whose pattern covers it, other than those that stand
/// for all domains; and where none does that either, the first of those. An
/// empty domain has no rule.
pub proof fn law_first_of_the_closest_rules_is_taken(
    rules: Seq<RuleView>,
    domain: Seq<char>,
    i: int,
)
    requires
        0 <= i < rules.len(),
        domain.len() > 0,
    ensures
        ({
            let named = |k: int| unicode::ascii_lower(rules[k].pattern) == unicode::ascii_lower(
                domain,
            );
            let covered = |k: int|
                !stands_for_all(rules[k].pattern) && rules::covers(
                    unicode::lower(rules[k].pattern),
                    unicode::lower(domain),
                );
            let none_named = forall|k: int| 0 <= k < rules.len() ==> !#[trigger] named(k);
            let none_covered = forall|k: int| 0 <= k < rules.len() ==> !#[trigger] covered(k);
            &&& named(i) && (forall|k: int| 0 <= k < i ==> !#[trigger] named(k)) ==> rules::rule_for(
                rules,
                domain,
            ) == Some(rules[i])
            &&& none_named && covered(i) && (forall|k: int| 0 <= k < i ==> !#[trigger] covered(k))
                ==> rules::rule_for(rules, domain) == Some(rules[i])
            &&& none_named && none_covered && stands_for_all(rules[i].pattern) && (forall|k: int|
                0 <= k < i ==> !stands_for_all((#[trigger] rules[k]).pattern)) ==> rules::rule_for(
                rules,
                domain,
            ) == Some(rules[i])
            &&& none_named && none_covered && (forall|k: int|
                0 <= k < rules.len() ==> !stands_for_all((#[trigger] rules[k]).pattern))
                ==> rules::rule_for(rules, domain) is None
        }),
        rules::rule_for(rules, Seq::empty()) is None,
{
    reveal_strlit("default");
    assert(unicode::ascii_lower("default"@) =~= "default"@);
    let named = |k: int| unicode::ascii_lower(rules[k].pattern) == unicode::ascii_lower(domain);
    let covered = |k: int|
        !stands_for_all(rules[k].pattern) && rules::covers(
            unicode::lower(rules[k].pattern),
            unicode::lower(domain),
        );
    let n = rules.len() as int;
    assert forall|k: int| 0 <= k < n implies named(k) == rules::fits(
        (#[trigger] rules[k]).pattern,
        domain,
        rules::Fit::Exact,
    ) by {}
    assert forall|k: int| 0 <= k < n implies covered(k) == rules::fits(
        (#[trigger] rules[k]).pattern,
        domain,
        rules::Fit::Wildcard,
    ) by {}
    if forall|k: int| 0 <= k < i ==> !#[trigger] named(k) {
        lemma_first_fit(rules, domain, rules::Fit::Exact, i);
    }
    if forall|k: int| 0 <= k < n ==> !#[trigger] named(k) {
        lemma_first_fit(rules, domain, rules::Fit::Exact, n);
    }
    if forall|k: int| 0 <= k < i ==> !#[trigger] covered(k) {
        lemma_first_fit(rules, domain, rules::Fit::Wildcard, i);
    }
    if forall|k: int| 0 <= k < n ==> !#[trigger] covered(k) {
        lemma_first_fit(rules, domain, rules::Fit::Wildcard, n);
    }
    if forall|k: int| 0 <= k < i ==> !stands_for_all((#[trigger] rules[k]).pattern) {
        lemma_first_fit(rules, domain, rules::Fit::Fallback, i);
    }
    if forall|k: int| 0 <= k < n ==> !stands_for_all((#[trigger] rules[k]).pattern) {
        lemma_first_fit(rules, domain, rules::Fit::Fallback, n);
    }
}

/// A variable is filled in, and the text around it stays.
pub proof fn law_variables_are_filled_in(
    a: Seq<char>,
    b: Seq<char>,
    user: Seq<char>,
    domain: Seq<char>,
)
    requires
        !a.contains('{'),
        !b.contains('{'),
        !user.contains('{'),
        !user.contains('@'),
        !domain.contains('{'),
    ensures
        ({
            let address = user + seq!['@'] + domain;
            &&& rules::expanded(a + "{domain}"@ + b, address, domain) == a + domain + b
            &&& rules::expanded(a + "{user_part}"@ + b, address, domain) == a + user + b
            &&& rules::expanded(a + "{user}"@ + b, address, domain) == a + address + b
            &&& rules::expanded(a, address, domain) == a
        }),
{
    reveal_strlit("{domain}");
    reveal_strlit("{user_part}");
    reveal_strlit("{user}");
    let address = user + seq!['@'] + domain;
    law_address_is_cut_at_the_at_sign(user, domain);
    let d = "{domain}"@;
    let p = "{user_part}"@;
    let u = "{user}"@;
    search::law_first_occurrence_is_replaced(a, d, domain, b);
    search::law_first_occurrence_is_replaced(a, p, user, b);
    search::law_first_occurrence_is_replaced(a, u, address, b);
    search::lemma_replace_absent(b, d, domain);
    search::lemma_replace_absent(b, p, user);
    search::lemma_replace_absent(b, u, address);
    search::lemma_replace_absent(a, d, domain);
    search::lemma_replace_absent(a, p, user);
    search::lemma_replace_absent(a, u, address);
    lemma_no_brace(a, domain, b);
    search::lemma_replace_absent(a + domain + b, p, user);
    search::lemma_replace_absent(a + domain + b, u, address);
    lemma_no_brace(a, user, b);
    search::lemma_replace_absent(a + user + b, u, address);
    lemma_other_variable(a, p, b, d, domain);
    lemma_other_variable(a, u, b, d, domain);
    lemma_other_variable(a, u, b, p, user);
}

/// Texts without braces put together have none.
pub proof fn lemma_no_brace(a: Seq<char>, x: Seq<char>, b: Seq<char>)
    requires
        !a.contains('{'),
        !x.contains('{'),
        !b.contains('{'),
    ensures
        !(a + x + b).contains('{'),
{
    let s = a + x + b;
    assert forall|i: int| 0 <= i < s.len() implies s[i] != '{' by {
        if i < a.len() {
            assert(a.contains(a[i]));
        } else if i < a.len() + x.len() {
            assert(x.contains(x[i - a.len()]));
        } else {
            assert(b.contains(b[i - a.len() - x.len()]));
        }
    }
}

/// A variable stays where another one is looked for.
pub proof fn lemma_other_variable(
    a: Seq<char>,
    v: Seq<char>,
    b: Seq<char>,
    from: Seq<char>,
    to: Seq<char>,
)
    requires
        !a.contains('{'),
        !b.contains('{'),
        v.len() >= 2,
        v[0] == '{',
        v.last() == '}',
        forall|i: int| 0 < i < v.len() ==> v[i] != '{',
        forall|i: int| 0 <= i < v.len() - 1 ==> v[i] != '}',
        from.len() >= 2,
        from[0] == '{',
        from.last() == '}',
        forall|i: int| 0 <= i < from.len() - 1 ==> from[i] != '}',
        v != from,
    ensures
        search::replace(a + v + b, from, to) == a + v + b,
{
    let rest = v + b;
    let n = from.len() as int;
    assert(a + v + b =~= a + rest);
    let tail = rest.drop_first();
    assert forall|i: int| 0 <= i < tail.len() implies tail[i] != '{' by {
        if i + 1 < v.len() {
            assert(tail[i] == v[i + 1]);
        } else {
            assert(b.contains(b[i + 1 - v.len()]));
        }
    }
    if n <= rest.len() && rest.take(n) == from {
        assert(from[n - 1] == rest[n - 1]);
        if n <= v.len() {
            assert(v[n - 1] == '}');
            assert(from =~= v);
        } else {
            assert(from[v.len() - 1] == rest[v.len() - 1]);
        }
    }
    search::lemma_replace_behind(a, rest, from, to);
    search::lemma_replace_absent(tail, from, to);
    assert(seq![rest[0]] + tail =~= rest);
}

// ---------------------------------------------------------------------------
// Built-in rules
// ---------------------------------------------------------------------------

/// Lengths and letters by which the domains of the built-in rules differ.
proof fn lemma_builtin_domains()
    ensures
        "gmail.com"@.len() == 9,
        "googlemail.com"@.len() == 14 && "googlemail.com"@[13] == 'm' && "googlemail.com"@[0] == 'g',
        "yahoo.co.jp"@.len() == 11 && "yahoo.co.jp"@[1] == 'a' && "yahoo.co.jp"@[0] == 'y',
        "ymail.ne.jp"@.len() == 11 && "ymail.ne.jp"@[1] == 'm' && "ymail.ne.jp"@[0] == 'y',
        "*.sakura.ne.jp"@ =~= seq!['*', '.'] + "sakura.ne.jp"@,
        "sakura.ne.jp"@.len() == 12 && "sakura.ne.jp"@[11] == 'p' && "sakura.ne.jp"@[0] == 's',
        "outlook.com"@.len() == 11 && "outlook.com"@[0] == 'o',
        "hotmail.com"@.len() == 11 && "hotmail.com"@[0] == 'h',
        "live.com"@.len() == 8,
        "icloud.com"@.len() == 10,
        "me.com"@.len() == 6,
        forall|i: int| 0 <= i < "gmail.com"@.len() ==> !('A' <= #[trigger] "gmail.com"@[i] <= 'Z'),
        unicode::ascii_lower("gmail.com"@) == "gmail.com"@,
        unicode::ascii_lower("googlemail.com"@) == "googlemail.com"@,
        unicode::ascii_lower("yahoo.co.jp"@) == "yahoo.co.jp"@,
        unicode::ascii_lower("ymail.ne.jp"@) == "ymail.ne.jp"@,
        unicode::ascii_lower("*.sakura.ne.jp"@) == "*.sakura.ne.jp"@,
        unicode::ascii_lower("outlook.com"@) == "outlook.com"@,
        unicode::ascii_lower("hotmail.com"@) == "hotmail.com"@,
        unicode::ascii_lower("live.com"@) == "live.com"@,
        unicode::ascii_lower("icloud.com"@) == "icloud.com"@,
        unicode::ascii_lower("me.com"@) == "me.com"@,
        is_ascii_chars("gmail.com"@) && is_ascii_chars("googlemail.com"@) && is_ascii_chars(
            "yahoo.co.jp"@,
        ) && is_ascii_chars("ymail.ne.jp"@) && is_ascii_chars("*.sakura.ne.jp"@),
{
    reveal_strlit("gmail.com");
    reveal_strlit("googlemail.com");
    reveal_strlit("yahoo.co.jp");
    reveal_strlit("ymail.ne.jp");
    reveal_strlit("*.sakura.ne.jp");
    reveal_strlit("sakura.ne.jp");
    reveal_strlit("outlook.com");
    reveal_strlit("hotmail.com");
    reveal_strlit("live.com");
    reveal_strlit("icloud.com");
    reveal_strlit("me.com");
    assert(unicode::ascii_lower("gmail.com"@) =~= "gmail.com"@);
    assert(unicode::ascii_lower("googlemail.com"@) =~= "googlemail.com"@);
    assert(unicode::ascii_lower("yahoo.co.jp"@) =~= "yahoo.co.jp"@);
    assert(unicode::ascii_lower("ymail.ne.jp"@) =~= "ymail.ne.jp"@);
    assert(unicode::ascii_lower("*.sakura.ne.jp"@) =~= "*.sakura.ne.jp"@);
    assert(unicode::ascii_lower("outlook.com"@) =~= "outlook.com"@);
    assert(unicode::ascii_lower("hotmail.com"@) =~= "hotmail.com"@);
    assert(unicode::ascii_lower("live.com"@) =~= "live.com"@);
    assert(unicode::ascii_lower("icloud.com"@) =~= "icloud.com"@);
    assert(unicode::ascii_lower("me.com"@) =~= "me.com"@);
}

/// The built-in rule at place `i` is the one for the domain that it names.
proof fn lemma_named_builtin(i: int, domain: Seq<char>)
    requires
        0 <= i < 10,
        i != 4,
        domain == rules::builtin_rules()[i].pattern,
    ensures
        rules::rule_for(rules::builtin_rules(), domain) == Some(rules::builtin_rules()[i]),
{
    lemma_builtin_domains();
    let all = rules::builtin_rules();
    assert forall|j: int| 0 <= j < i implies !rules::fits(
        (#[trigger] all[j]).pattern,
        domain,
        rules::Fit::Exact,
    ) by {}
    lemma_first_fit(all, domain, rules::Fit::Exact, i);
}

/// The servers that are known without being configured: for addresses of Gmail
/// and Google Mail, of Yahoo! Japan, of Outlook, Hotmail and Live, and of
/// iCloud. All of them use the port 993 with encryption.
pub proof fn law_well_known_servers(domain: Seq<char>)
    ensures
        domain == "gmail.com"@ || domain == "googlemail.com"@ ==> (rules::rule_for(
            rules::builtin_rules(),
            domain,
        ) matches Some(r) && r.host == Some("imap.gmail.com"@) && r.trash_folder == Some(
            "[Gmail]/ゴミ箱"@,
        ) && r.port == Some(993u16) && r.ssl == Some(true)),
        domain == "yahoo.co.jp"@ || domain == "ymail.ne.jp"@ ==> (rules::rule_for(
            rules::builtin_rules(),
            domain,
        ) matches Some(r) && r.host == Some("imap.mail.yahoo.co.jp"@) && r.trash_folder == Some(
            "Trash"@,
        ) && r.port == Some(993u16) && r.ssl == Some(true)),
        domain == "outlook.com"@ || domain == "hotmail.com"@ || domain == "live.com"@ ==> (
        rules::rule_for(rules::builtin_rules(), domain) matches Some(r) && r.host == Some(
            "outlook.office365.com"@,
        ) && r.trash_folder == Some("Deleted"@) && r.port == Some(993u16) && r.ssl == Some(true)),
        domain == "icloud.com"@ || domain == "me.com"@ ==> (rules::rule_for(
            rules::builtin_rules(),
            domain,
        ) matches Some(r) && r.host == Some("imap.mail.me.com"@) && r.trash_folder == Some(
            "Deleted Messages"@,
        ) && r.port == Some(993u16) && r.ssl == Some(true)),
{
    lemma_builtin_domains();
    if domain == "gmail.com"@ {
        lemma_named_builtin(0, domain);
    } else if domain == "googlemail.com"@ {
        lemma_named_builtin(1, domain);
    } else if domain == "yahoo.co.jp"@ {
        lemma_named_builtin(2, domain);
    } else if domain == "ymail.ne.jp"@ {
        lemma_named_builtin(3, domain);
    } else if domain == "outlook.com"@ {
        lemma_named_builtin(5, domain);
    } else if domain == "hotmail.com"@ {
        lemma_named_builtin(6, domain);
    } else if domain == "live.com"@ {
        lemma_named_builtin(7, domain);
    } else if domain == "icloud.com"@ {
        lemma_named_builtin(8, domain);
    } else if domain == "me.com"@ {
        lemma_named_builtin(9, domain);
    }
}

/// The server of an address at Sakura is its domain, and the trash folder is
/// named `Trash`.
pub proof fn law_servers_at_sakura(host: Seq<char>, user: Seq<char>)
    requires
        is_ascii_chars(host),
        forall|i: int| 0 <= i < host.len() ==> !('A' <= #[trigger] host[i] <= 'Z') && host[i] != '{',
        !user.contains('@'),
        !user.contains('{'),
    ensures
        ({
            let domain = host + ".sakura.ne.jp"@;
            let rule = rules::rule_for(rules::builtin_rules(), domain);
            &&& rule matches Some(r) && r.trash_folder == Some("Trash"@) && r.port == Some(993u16)
                && r.ssl == Some(true)
            &&& config::rule_host(rule, user + seq!['@'] + domain) == Some(domain)
        }),
{
    reveal_strlit(".sakura.ne.jp");
    let domain = host + ".sakura.ne.jp"@;
    assert(is_ascii_chars(domain));
    assert(unicode::ascii_lower(domain) =~= domain);
    assert(domain.skip(host.len() as int) =~= ".sakura.ne.jp"@);
    lemma_rule_at_sakura(domain);
    assert(!domain.contains('{')) by {
        if domain.contains('{') {
            let i = choose|i: int| 0 <= i < domain.len() && domain[i] == '{';
            assert(i < host.len() ==> host[i] == '{');
        }
    }
    let none = Seq::<char>::empty();
    law_variables_are_filled_in(none, none, user, domain);
    law_address_is_cut_at_the_at_sign(user, domain);
    assert(none + "{domain}"@ + none =~= "{domain}"@);
    assert(none + domain + none =~= domain);
}

/// The built-in rule for a domain at Sakura.
proof fn lemma_rule_at_sakura(domain: Seq<char>)
    requires
        is_ascii_chars(domain),
        unicode::ascii_lower(domain) == domain,
        search::ends_with(domain, ".sakura.ne.jp"@),
    ensures
        rules::rule_for(rules::builtin_rules(), domain) == Some(rules::builtin_rules()[4]),
{
    reveal_strlit(".sakura.ne.jp");
    let all = rules::builtin_rules();
    let n = domain.len() as int;
    assert(domain.skip(n - 13)[12] == domain[n - 1]);
    lemma_no_other_name(domain);
    if unicode::ascii_lower(all[4].pattern) == domain {
        lemma_first_fit(all, domain, rules::Fit::Exact, 4);
    } else {
        lemma_first_fit(all, domain, rules::Fit::Exact, 10);
        assert forall|j: int| 0 <= j < 4 implies !rules::fits(
            (#[trigger] all[j]).pattern,
            domain,
            rules::Fit::Wildcard,
        ) by {
            let p = all[j].pattern;
            lemma_plain_pattern(p);
            law_which_domains_a_pattern_covers(p, domain);
            assert(!rules::fits(p, domain, rules::Fit::Exact));
        }
        lemma_sakura_is_covered(domain);
        lemma_first_fit(all, domain, rules::Fit::Wildcard, 4);
    }
}

/// No other built-in rule names a domain at Sakura.
proof fn lemma_no_other_name(domain: Seq<char>)
    requires
        unicode::ascii_lower(domain) == domain,
        domain.len() >= 13,
        domain.last() == 'p',
    ensures
        forall|j: int|
            0 <= j < 10 && j != 4 ==> !rules::fits(
                (#[trigger] rules::builtin_rules()[j]).pattern,
                domain,
                rules::Fit::Exact,
            ),
{
    lemma_builtin_domains();
    let all = rules::builtin_rules();
    assert forall|j: int| 0 <= j < 10 && j != 4 implies !rules::fits(
        (#[trigger] all[j]).pattern,
        domain,
        rules::Fit::Exact,
    ) by {
        let p = all[j].pattern;
        assert(unicode::ascii_lower(p).len() == p.len());
        if p.len() == domain.len() {
            assert(p == "googlemail.com"@);
            assert(unicode::ascii_lower(p)[13] == 'm');
            assert(domain[13] == 'p');
        }
    }
}

/// The pattern for Sakura covers the domains there.
proof fn lemma_sakura_is_covered(domain: Seq<char>)
    requires
        is_ascii_chars(domain),
        unicode::ascii_lower(domain) == domain,
        search::ends_with(domain, ".sakura.ne.jp"@),
    ensures
        rules::fits("*.sakura.ne.jp"@, domain, rules::Fit::Wildcard),
{
    reveal_strlit(".sakura.ne.jp");
    reveal_strlit("*.sakura.ne.jp");
    reveal_strlit("sakura.ne.jp");
    reveal_strlit("default");
    reveal_strlit("*");
    let part = "sakura.ne.jp"@;
    let pattern = "*.sakura.ne.jp"@;
    assert(pattern =~= seq!['*', '.'] + part);
    assert(is_ascii_chars(pattern));
    assert(unicode::ascii_lower(pattern) =~= pattern);
    let n = domain.len() as int;
    let tail = domain.skip(n - 13);
    assert(tail[0] == domain[n - 13]);
    assert(domain.skip(n - 12) =~= tail.skip(1));
    assert(tail.skip(1) =~= part);
    law_which_domains_a_pattern_covers(part, domain);
    assert(unicode::ascii_lower("default"@).len() == 7);
    assert(unicode::ascii_lower(pattern).len() == 14);
}

/// The patterns before that for Sakura have no wildcard.
proof fn lemma_plain_pattern(p: Seq<char>)
    requires
        p == "gmail.com"@ || p == "googlemail.com"@ || p == "yahoo.co.jp"@ || p == "ymail.ne.jp"@,
    ensures
        !search::starts_with(p, seq!['*', '.']),
        !search::ends_with(p, seq!['.', '*']),
        p != "default"@,
        p != "*"@,
        unicode::lower(p) == p,
        unicode::ascii_lower(p) == p,
{
    lemma_builtin_domains();
    reveal_strlit("gmail.com");
    reveal_strlit("googlemail.com");
    reveal_strlit("yahoo.co.jp");
    reveal_strlit("ymail.ne.jp");
    reveal_strlit("default");
    reveal_strlit("*");
    assert(p.take(2)[0] == p[0]);
    assert(p.skip(p.len() - 2)[1] == p[p.len() - 1]);
}

// ---------------------------------------------------------------------------
// Completed accounts
// ---------------------------------------------------------------------------

/// An account that says nothing of its server gets the one that the rule for
/// its domain gives, where there is one in the configuration; what that rule
/// does not say is taken from the built-in rule. A trash folder that is common
/// to all accounts goes before that of the built-in rule, and not before that
/// of the rule in the configuration.
pub proof fn law_silent_account_follows_the_rules(
    acc: AccountView,
    user: Seq<char>,
    domain: Seq<char>,
    rules: Seq<RuleView>,
    default_trash: Option<Seq<char>>,
)
    requires
        !user.contains('@'),
        !user.contains('{'),
        !domain.contains('{'),
        domain.len() > 0,
        acc.user == user + seq!['@'] + domain,
        acc.host.len() == 0,
        acc.port == 993,
        acc.written == (WrittenView { host: None, port: None, ssl: None, trash_folder: None }),
    ensures
        ({
            let done = config::completed(acc, rules, default_trash);
            let own = rules::rule_for(rules, domain);
            let builtin = rules::rule_for(rules::builtin_rules(), domain);
            &&& own matches Some(r) ==> {
                &&& r.host matches Some(h) ==> (!h.contains('{') ==> done.host == h)
                &&& r.port matches Some(p) ==> done.port == p
                &&& r.ssl matches Some(b) ==> done.ssl == b
                &&& r.trash_folder matches Some(t) ==> done.trash_folder == t
            }
            &&& builtin matches Some(r) ==> {
                &&& own is None || own->0.host is None ==> (r.host matches Some(h) ==> (
                !h.contains('{') ==> done.host == h))
                &&& own is None || own->0.port is None ==> (r.port matches Some(p) ==> done.port
                    == p)
                &&& own is None || own->0.ssl is None ==> (r.ssl matches Some(b) ==> done.ssl == b)
                &&& (own is None || own->0.trash_folder is None) && (default_trash is None
                    || default_trash->0.len() == 0) ==> (r.trash_folder matches Some(t)
                    ==> done.trash_folder == t)
            }
            &&& own is None || own->0.trash_folder is None ==> (default_trash matches Some(t) ==> (
            t.len() > 0 ==> done.trash_folder == t))
            &&& own is None && builtin is None && default_trash is None ==> done == acc
        }),
{
    law_address_is_cut_at_the_at_sign(user, domain);
    if let Some(r) = rules::rule_for(rules, domain) {
        if let Some(h) = r.host {
            if !h.contains('{') {
                let none = Seq::<char>::empty();
                law_variables_are_filled_in(h, none, user, domain);
            }
        }
    }
    if let Some(r) = rules::rule_for(rules::builtin_rules(), domain) {
        if let Some(h) = r.host {
            if !h.contains('{') {
                let none = Seq::<char>::empty();
                law_variables_are_filled_in(h, none, user, domain);
            }
        }
    }
}

} // verus!
