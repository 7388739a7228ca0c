//! What a configuration text says, entry by entry.

use vstd::prelude::*;
use vstd::utf8::*;
use crate::accounts;
use crate::accounts::DefaultsView;
use crate::config::AccountView;
use crate::rules;
use crate::sections;
use crate::sections::SectionView;
use crate::text::{number, search, trim, unicode};

verus! {

// ---------------------------------------------------------------------------
// Entries
// ---------------------------------------------------------------------------

/// Of several entries with one key, the first counts; a key that no entry has
/// has no value.
pub proof fn law_first_entry_counts(
    before: sections::Entries,
    key: Seq<char>,
    value: Seq<char>,
    after: sections::Entries,
)
    requires
        forall|i: int| 0 <= i < before.len() ==> (#[trigger] before[i]).0 != key,
    ensures
        sections::value_in(before + seq![(key, value)] + after, key) == Some(value),
        sections::value_in(before, key) is None,
    decreases before.len(),
{
    let all = before + seq![(key, value)] + after;
    if before.len() > 0 {
        let rest = before.drop_first();
        assert(all[0] == before[0]);
        assert(all.drop_first() =~= rest + seq![(key, value)] + after);
        law_first_entry_counts(rest, key, value, after);
    } else {
        assert(all[0] == (key, value));
    }
}

/// Of several sections with one name, the first counts; a section that is not
/// there has no entries.
pub proof fn law_first_section_counts(
    before: Seq<SectionView>,
    name: Seq<char>,
    entries: sections::Entries,
    after: Seq<SectionView>,
)
    requires
        forall|i: int| 0 <= i < before.len() ==> (#[trigger] before[i]).name != Some(name),
    ensures
        sections::entries_of(
            before + seq![(SectionView { name: Some(name), entries })] + after,
            name,
        ) == entries,
        sections::entries_of(before, name) == Seq::<(Seq<char>, Seq<char>)>::empty(),
    decreases before.len(),
{
    let found = SectionView { name: Some(name), entries };
    let all = before + seq![found] + after;
    if before.len() > 0 {
        let rest = before.drop_first();
        assert(all[0] == before[0]);
        assert(all.drop_first() =~= rest + seq![found] + after);
        law_first_section_counts(rest, name, entries, after);
    } else {
        assert(all[0] == found);
    }
}

/// A byte order mark at the front of a text is left out, and nothing else is.
pub proof fn law_byte_order_mark_is_left_out(text: Seq<char>)
    ensures
        sections::without_mark(seq!['\u{feff}'] + text) == text,
        text.len() == 0 || text[0] != '\u{feff}' ==> sections::without_mark(text) == text,
{
    assert((seq!['\u{feff}'] + text).drop_first() =~= text);
}

// ---------------------------------------------------------------------------
// Accounts
// ---------------------------------------------------------------------------

/// How much of an account is listed and how its dates are shown is what its
/// own section writes down: a number, white space around it left out, or a
/// word, in lower case. Where the section writes nothing of the kind, the
/// common value holds.
pub proof fn law_own_section_decides_on_listings(
    section: SectionView,
    defaults: DefaultsView,
    rules: Seq<rules::RuleView>,
    default_trash: Option<Seq<char>>,
    acc: AccountView,
)
    requires
        accounts::account_in(section, defaults, rules, default_trash) == Some(acc),
    ensures
        section.name == Some(acc.name),
        match sections::value_in(section.entries, "limit"@) {
            Some(v) => match number::unsigned(trim::trim(v), u32::MAX as nat) {
                Some(n) => acc.limit == n,
                None => acc.limit == defaults.limit,
            },
            None => acc.limit == defaults.limit,
        },
        match sections::value_in(section.entries, "offset"@) {
            Some(v) => match number::unsigned(trim::trim(v), u32::MAX as nat) {
                Some(n) => acc.offset == n,
                None => acc.offset == defaults.offset,
            },
            None => acc.offset == defaults.offset,
        },
        match sections::value_in(section.entries, "chunk_size"@) {
            Some(v) => match number::unsigned(trim::trim(v), u32::MAX as nat) {
                Some(n) => acc.chunk_size == n,
                None => acc.chunk_size == defaults.chunk_size,
            },
            None => acc.chunk_size == defaults.chunk_size,
        },
        match sections::value_in(section.entries, "timezone"@) {
            Some(v) => acc.timezone == unicode::lower(trim::trim(v)),
            None => acc.timezone == defaults.timezone,
        },
        match sections::value_in(section.entries, "date_source"@) {
            Some(v) => acc.date_source == unicode::lower(trim::trim(v)),
            None => acc.date_source == defaults.date_source,
        },
{
}

/// The user and the password of an account are those that its section writes
/// down, white space around them left out.
pub proof fn law_own_section_gives_the_credentials(
    section: SectionView,
    defaults: DefaultsView,
    rules: Seq<rules::RuleView>,
    default_trash: Option<Seq<char>>,
    acc: AccountView,
)
    requires
        accounts::account_in(section, defaults, rules, default_trash) == Some(acc),
    ensures
        match sections::value_in(section.entries, "user"@) {
            Some(v) => acc.user == trim::trim(v),
            None => acc.user.len() == 0,
        },
        match sections::value_in(section.entries, "pass"@) {
            Some(v) => acc.pass == trim::trim(v),
            None => acc.pass.len() == 0,
        },
{
}

/// The host, the port, the encryption and the trash folder of an account are
/// those that its section writes down, white space around them left out: a
/// host or a folder that is not blank, a port that is a number, and an
/// encryption that only `false` and `0` switch off.
pub proof fn law_own_section_decides_on_the_server(
    section: SectionView,
    defaults: DefaultsView,
    rules: Seq<rules::RuleView>,
    default_trash: Option<Seq<char>>,
    acc: AccountView,
)
    requires
        accounts::account_in(section, defaults, rules, default_trash) == Some(acc),
    ensures
        sections::value_in(section.entries, "host"@) matches Some(v) ==> (trim::trim(v).len() > 0
            ==> acc.host == trim::trim(v)),
        sections::value_in(section.entries, "port"@) matches Some(v) ==> (number::unsigned(
            trim::trim(v),
            u16::MAX as nat,
        ) matches Some(n) ==> acc.port == n),
        sections::value_in(section.entries, "ssl"@) matches Some(v) ==> (acc.ssl <==> trim::trim(v)
            != "false"@ && trim::trim(v) != "0"@),
        sections::value_in(section.entries, "trash_folder"@) matches Some(v) ==> (trim::trim(
            v,
        ).len() > 0 ==> acc.trash_folder == trim::trim(v)),
{
}

/// An account whose user has no domain has no host, the port 993, encryption,
/// and the common trash folder, or `Trash`, unless its section says otherwise.
pub proof fn law_account_without_a_domain_has_the_usual_server(
    section: SectionView,
    defaults: DefaultsView,
    rules: Seq<rules::RuleView>,
    default_trash: Option<Seq<char>>,
    acc: AccountView,
)
    requires
        accounts::account_in(section, defaults, rules, default_trash) == Some(acc),
        !acc.user.contains('@'),
    ensures
        sections::value_in(section.entries, "host"@) is None ==> acc.host.len() == 0,
        sections::value_in(section.entries, "port"@) is None ==> acc.port == 993,
        sections::value_in(section.entries, "ssl"@) is None ==> acc.ssl,
        sections::value_in(section.entries, "trash_folder"@) is None ==> match default_trash {
            Some(t) => acc.trash_folder == t,
            None => acc.trash_folder == "Trash"@,
        },
{
    search::lemma_index_of_char(acc.user, '@');
    if let Some(i) = search::index_of_char(acc.user, '@') {
        assert(acc.user.contains(acc.user[i]));
    }
}

/// What holds for accounts that do not say otherwise is what the section
/// `DEFAULT` writes down, else 100 messages from the newest on, all at once,
/// with the dates of the server by the machine's clock.
pub proof fn law_common_settings(all: Seq<SectionView>)
    ensures
        match sections::value_of(all, "DEFAULT"@, "limit"@) {
            Some(v) => match number::unsigned(v, u32::MAX as nat) {
                Some(n) => accounts::defaults_in(all).limit == n,
                None => accounts::defaults_in(all).limit == 100,
            },
            None => accounts::defaults_in(all).limit == 100,
        },
        match sections::value_of(all, "DEFAULT"@, "offset"@) {
            Some(v) => match number::unsigned(trim::trim(v), u32::MAX as nat) {
                Some(n) => accounts::defaults_in(all).offset == n,
                None => accounts::defaults_in(all).offset == 0,
            },
            None => accounts::defaults_in(all).offset == 0,
        },
        match sections::value_of(all, "DEFAULT"@, "chunk_size"@) {
            Some(v) => match number::unsigned(trim::trim(v), u32::MAX as nat) {
                Some(n) => accounts::defaults_in(all).chunk_size == n,
                None => accounts::defaults_in(all).chunk_size == 0,
            },
            None => accounts::defaults_in(all).chunk_size == 0,
        },
        match sections::value_of(all, "DEFAULT"@, "timezone"@) {
            Some(v) => accounts::defaults_in(all).timezone == unicode::lower(trim::trim(v)),
            None => accounts::defaults_in(all).timezone == "local"@,
        },
        match sections::value_of(all, "DEFAULT"@, "date_source"@) {
            Some(v) => accounts::defaults_in(all).date_source == unicode::lower(trim::trim(v)),
            None => accounts::defaults_in(all).date_source == "internal"@,
        },
{
}

/// A section is an account where it is neither `DEFAULT` nor `VIEW` nor a rule,
/// in capitals or not, and writes down a host, a user or a password that is
/// not blank.
pub proof fn law_which_sections_are_accounts(
    section: SectionView,
    defaults: DefaultsView,
    rules: Seq<rules::RuleView>,
    default_trash: Option<Seq<char>>,
    name: Seq<char>,
)
    requires
        section.name == Some(name),
    ensures
        unicode::lower(name) == "default"@ || unicode::lower(name) == "view"@
            || search::starts_with(unicode::lower(name), "rule:"@) ==> accounts::account_in(
            section,
            defaults,
            rules,
            default_trash,
        ) is None,
        unicode::lower(name) != "default"@ && unicode::lower(name) != "view"@
            && !search::starts_with(unicode::lower(name), "rule:"@) ==> {
            &&& is_filled(section.entries, "host"@) || is_filled(section.entries, "user"@)
                || is_filled(section.entries, "pass"@) ==> accounts::account_in(
                section,
                defaults,
                rules,
                default_trash,
            ) is Some
            &&& !is_filled(section.entries, "host"@) && !is_filled(section.entries, "user"@)
                && !is_filled(section.entries, "pass"@) ==> accounts::account_in(
                section,
                defaults,
                rules,
                default_trash,
            ) is None
        },
{
    let acc = accounts::written_account(name, section.entries, defaults, default_trash);
    search::lemma_index_of_char(acc.user, '@');
}

/// The entries give the key a value that is not blank.
pub open spec fn is_filled(entries: sections::Entries, key: Seq<char>) -> bool {
    sections::value_in(entries, key) matches Some(v) && trim::trim(v).len() > 0
}

/// The account of a section is among the accounts of the sections.
proof fn lemma_account_is_listed(
    all: Seq<SectionView>,
    i: int,
    defaults: DefaultsView,
    rules: Seq<rules::RuleView>,
    default_trash: Option<Seq<char>>,
)
    requires
        0 <= i < all.len(),
        accounts::account_in(all[i], defaults, rules, default_trash) is Some,
    ensures
        accounts::accounts_in(all, defaults, rules, default_trash).contains(
            accounts::account_in(all[i], defaults, rules, default_trash)->0,
        ),
    decreases all.len(),
{
    let acc = accounts::account_in(all[i], defaults, rules, default_trash)->0;
    let list = accounts::accounts_in(all, defaults, rules, default_trash);
    let before = accounts::accounts_in(all.drop_last(), defaults, rules, default_trash);
    if i < all.len() - 1 {
        assert(all.drop_last()[i] == all[i]);
        lemma_account_is_listed(all.drop_last(), i, defaults, rules, default_trash);
        let k = choose|k: int| 0 <= k < before.len() && before[k] == acc;
        assert(list[k] == acc);
    } else {
        assert(list[list.len() - 1] == acc);
    }
}

/// An account that is listed comes from one of the sections.
proof fn lemma_listed_account_has_a_section(
    all: Seq<SectionView>,
    k: int,
    defaults: DefaultsView,
    rules: Seq<rules::RuleView>,
    default_trash: Option<Seq<char>>,
)
    requires
        0 <= k < accounts::accounts_in(all, defaults, rules, default_trash).len(),
    ensures
        exists|i: int|
            0 <= i < all.len() && accounts::account_in(
                #[trigger] all[i],
                defaults,
                rules,
                default_trash,
            ) == Some(accounts::accounts_in(all, defaults, rules, default_trash)[k]),
    decreases all.len(),
{
    if all.len() > 0 {
        let list = accounts::accounts_in(all, defaults, rules, default_trash);
        let before = accounts::accounts_in(all.drop_last(), defaults, rules, default_trash);
        if k < before.len() {
            lemma_listed_account_has_a_section(
                all.drop_last(),
                k,
                defaults,
                rules,
                default_trash,
            );
            let i = choose|i: int|
                0 <= i < all.drop_last().len() && accounts::account_in(
                    #[trigger] all.drop_last()[i],
                    defaults,
                    rules,
                    default_trash,
                ) == Some(before[k]);
            assert(all[i] == all.drop_last()[i]);
            assert(list[k] == before[k]);
        } else {
            assert(all[all.len() - 1] == all.last());
        }
    }
}

/// Every section with a user that is not blank is an account of the
/// configuration, under the section's name, with this user, with what the
/// section writes down about listings, and where it writes nothing, with what
/// the section `DEFAULT` writes down.
pub proof fn law_sections_become_accounts(all: Seq<SectionView>, i: int, name: Seq<char>)
    requires
        0 <= i < all.len(),
        all[i].name == Some(name),
        unicode::lower(name) != "default"@,
        unicode::lower(name) != "view"@,
        !search::starts_with(unicode::lower(name), "rule:"@),
        is_filled(all[i].entries, "user"@),
    ensures
        exists|k: int|
            0 <= k < accounts::configured_accounts(all).len() && {
                let acc = #[trigger] accounts::configured_accounts(all)[k];
                let e = all[i].entries;
                &&& acc.name == name
                &&& acc.user == trim::trim(sections::value_in(e, "user"@)->0)
                &&& match sections::value_in(e, "offset"@) {
                    Some(v) => number::unsigned(trim::trim(v), u32::MAX as nat) matches Some(n)
                        ==> acc.offset == n,
                    None => match sections::value_of(all, "DEFAULT"@, "offset"@) {
                        Some(v) => number::unsigned(trim::trim(v), u32::MAX as nat) matches Some(n)
                            ==> acc.offset == n,
                        None => acc.offset == 0,
                    },
                }
                &&& match sections::value_in(e, "limit"@) {
                    Some(v) => number::unsigned(trim::trim(v), u32::MAX as nat) matches Some(n)
                        ==> acc.limit == n,
                    None => match sections::value_of(all, "DEFAULT"@, "limit"@) {
                        Some(v) => number::unsigned(v, u32::MAX as nat) matches Some(n)
                            ==> acc.limit == n,
                        None => acc.limit == 100,
                    },
                }
                &&& match sections::value_in(e, "chunk_size"@) {
                    Some(v) => number::unsigned(trim::trim(v), u32::MAX as nat) matches Some(n)
                        ==> acc.chunk_size == n,
                    None => match sections::value_of(all, "DEFAULT"@, "chunk_size"@) {
                        Some(v) => number::unsigned(trim::trim(v), u32::MAX as nat) matches Some(n)
                            ==> acc.chunk_size == n,
                        None => acc.chunk_size == 0,
                    },
                }
                &&& match sections::value_in(e, "timezone"@) {
                    Some(v) => acc.timezone == unicode::lower(trim::trim(v)),
                    None => match sections::value_of(all, "DEFAULT"@, "timezone"@) {
                        Some(v) => acc.timezone == unicode::lower(trim::trim(v)),
                        None => acc.timezone == "local"@,
                    },
                }
                &&& match sections::value_in(e, "date_source"@) {
                    Some(v) => acc.date_source == unicode::lower(trim::trim(v)),
                    None => match sections::value_of(all, "DEFAULT"@, "date_source"@) {
                        Some(v) => acc.date_source == unicode::lower(trim::trim(v)),
                        None => acc.date_source == "internal"@,
                    },
                }
            },
{
    let defaults = accounts::defaults_in(all);
    let rules = accounts::rules_in(all);
    let trash = sections::value_of(all, "DEFAULT"@, "trash_folder"@);
    law_which_sections_are_accounts(all[i], defaults, rules, trash, name);
    let acc = accounts::account_in(all[i], defaults, rules, trash)->0;
    lemma_account_is_listed(all, i, defaults, rules, trash);
    law_own_section_decides_on_listings(all[i], defaults, rules, trash, acc);
    law_own_section_gives_the_credentials(all[i], defaults, rules, trash, acc);
    law_common_settings(all);
    let list = accounts::configured_accounts(all);
    let k = choose|k: int| 0 <= k < list.len() && list[k] == acc;
    assert(accounts::configured_accounts(all)[k] == acc);
}

/// Accounts stand in the order of their sections: one more section adds its
/// account at the end, or none.
pub proof fn law_accounts_stand_in_order(
    all: Seq<SectionView>,
    last: SectionView,
    defaults: DefaultsView,
    rules: Seq<rules::RuleView>,
    default_trash: Option<Seq<char>>,
)
    ensures
        accounts::accounts_in(seq![], defaults, rules, default_trash) == Seq::<
            AccountView,
        >::empty(),
        accounts::account_in(last, defaults, rules, default_trash) matches Some(acc)
            ==> accounts::accounts_in(all.push(last), defaults, rules, default_trash)
            == accounts::accounts_in(all, defaults, rules, default_trash).push(acc),
        accounts::account_in(last, defaults, rules, default_trash) is None ==> accounts::accounts_in(
            all.push(last),
            defaults,
            rules,
            default_trash,
        ) == accounts::accounts_in(all, defaults, rules, default_trash),
{
    assert(all.push(last).drop_last() =~= all);
}

/// Every account of a configuration has the name of one of its sections.
pub proof fn law_accounts_come_from_sections(all: Seq<SectionView>, k: int)
    requires
        0 <= k < accounts::configured_accounts(all).len(),
    ensures
        exists|i: int|
            0 <= i < all.len() && (#[trigger] all[i]).name == Some(
                accounts::configured_accounts(all)[k].name,
            ),
{
    let defaults = accounts::defaults_in(all);
    let rules = accounts::rules_in(all);
    let trash = sections::value_of(all, "DEFAULT"@, "trash_folder"@);
    lemma_listed_account_has_a_section(all, k, defaults, rules, trash);
    let list = accounts::configured_accounts(all);
    let i = choose|i: int|
        0 <= i < all.len() && accounts::account_in(#[trigger] all[i], defaults, rules, trash)
            == Some(list[k]);
    law_own_section_decides_on_listings(all[i], defaults, rules, trash, list[k]);
}

// ---------------------------------------------------------------------------
// Rules, logs and showing mail
// ---------------------------------------------------------------------------

/// A section whose name is `RULE:` and a pattern, in capitals or not, is the
/// rule for this pattern, with the settings that it writes down; other
/// sections are no rules.
pub proof fn law_rules_are_read(
    head: Seq<char>,
    pattern: Seq<char>,
    entries: sections::Entries,
    other: SectionView,
)
    requires
        is_ascii_chars(head),
        unicode::ascii_lower(head) == "rule:"@,
        is_ascii_chars(pattern),
        other.name matches Some(n) ==> !search::starts_with(unicode::lower(n), "rule:"@),
    ensures
        accounts::rule_in(SectionView { name: Some(head + pattern), entries }) matches Some(r) && {
            &&& r.pattern == trim::trim(unicode::ascii_lower(pattern))
            &&& match sections::value_in(entries, "host"@) {
                Some(v) => r.host == if trim::trim(v).len() > 0 {
                    Some(trim::trim(v))
                } else {
                    None
                },
                None => r.host is None,
            }
            &&& match sections::value_in(entries, "port"@) {
                Some(v) => match number::unsigned(trim::trim(v), u16::MAX as nat) {
                    Some(n) => r.port matches Some(p) && p == n,
                    None => r.port is None,
                },
                None => r.port is None,
            }
            &&& match sections::value_in(entries, "ssl"@) {
                Some(v) => r.ssl == Some(trim::trim(v) != "false"@ && trim::trim(v) != "0"@),
                None => r.ssl is None,
            }
            &&& match sections::value_in(entries, "trash_folder"@) {
                Some(v) => r.trash_folder == if trim::trim(v).len() > 0 {
                    Some(trim::trim(v))
                } else {
                    None
                },
                None => r.trash_folder is None,
            }
        },
        accounts::rule_in(other) is None,
{
    reveal_strlit("rule:");
    let name = head + pattern;
    assert(head.len() == 5) by {
        assert(unicode::ascii_lower(head).len() == head.len());
    }
    assert(is_ascii_chars(name));
    let l = unicode::lower(name);
    assert(l.take(5) =~= unicode::ascii_lower(head));
    assert(l.skip(5) =~= unicode::ascii_lower(pattern));
}

/// The rules of a configuration stand in the order of their sections.
pub proof fn law_rules_stand_in_order(all: Seq<SectionView>, last: SectionView)
    ensures
        accounts::rules_in(seq![]) == Seq::<rules::RuleView>::empty(),
        accounts::rule_in(last) matches Some(r) ==> accounts::rules_in(all.push(last))
            == accounts::rules_in(all).push(r),
        accounts::rule_in(last) is None ==> accounts::rules_in(all.push(last))
            == accounts::rules_in(all),
{
    assert(all.push(last).drop_last() =~= all);
}

/// A log is kept where the section `DEFAULT` sets `debug` to `true`, in
/// capitals or not, or to 1, and nowhere else.
pub proof fn law_log_is_asked_for(all: Seq<SectionView>)
    ensures
        accounts::asks_for_log(all) <==> (sections::value_of(all, "DEFAULT"@, "debug"@) matches Some(
            v,
        ) && (unicode::ascii_lower(v) == "true"@ || v == "1"@)),
{
    reveal_strlit("true");
    assert(unicode::ascii_lower("true"@) =~= "true"@);
}

/// How mail is shown is what the section `VIEW` writes down: the file of the
/// template, the template itself with `\n` and `\r` for line ends, and what
/// becomes of HTML, which is made plain where nothing is said.
pub proof fn law_showing_mail_is_configured(all: Seq<SectionView>)
    ensures
        match sections::value_of(all, "VIEW"@, "template_file"@) {
            Some(v) => accounts::view_config_in(all).template_file == if trim::trim(v).len() > 0 {
                Some(trim::trim(v))
            } else {
                None
            },
            None => accounts::view_config_in(all).template_file is None,
        },
        match sections::value_of(all, "VIEW"@, "html_policy"@) {
            Some(v) => accounts::view_config_in(all).html_policy == unicode::lower(trim::trim(v)),
            None => accounts::view_config_in(all).html_policy == "text"@,
        },
        match sections::value_of(all, "VIEW"@, "template"@) {
            Some(v) => v.len() > 0 && !v.contains('\\') ==> accounts::view_config_in(
                all,
            ).template_inline == Some(v),
            None => accounts::view_config_in(all).template_inline is None,
        },
{
    reveal_strlit("\\n");
    reveal_strlit("\\r");
    if let Some(v) = sections::value_of(all, "VIEW"@, "template"@) {
        if !v.contains('\\') {
            search::lemma_replace_absent(v, "\\n"@, "\n"@);
            search::lemma_replace_absent(v, "\\r"@, "\r"@);
        }
    }
}

/// A backslash and `n` in the template of the configuration stand for a line
/// feed, and a backslash and `r` for a carriage return.
pub proof fn law_line_ends_are_written_with_backslashes(
    all: Seq<SectionView>,
    a: Seq<char>,
    b: Seq<char>,
)
    requires
        !a.contains('\\'),
        !b.contains('\\'),
    ensures
        sections::value_of(all, "VIEW"@, "template"@) == Some(a + seq!['\\', 'n'] + b)
            ==> accounts::view_config_in(all).template_inline == Some(a + seq!['\n'] + b),
        sections::value_of(all, "VIEW"@, "template"@) == Some(a + seq!['\\', 'r'] + b)
            ==> accounts::view_config_in(all).template_inline == Some(a + seq!['\r'] + b),
{
    reveal_strlit("\\n");
    reveal_strlit("\\r");
    reveal_strlit("\n");
    reveal_strlit("\r");
    let n = seq!['\\', 'n'];
    let r = seq!['\\', 'r'];
    assert("\\n"@ =~= n);
    assert("\\r"@ =~= r);
    assert("\n"@ =~= seq!['\n']);
    assert("\r"@ =~= seq!['\r']);
    search::law_first_occurrence_is_replaced(a, n, seq!['\n'], b);
    search::lemma_replace_absent(b, n, seq!['\n']);
    let fed = a + seq!['\n'] + b;
    assert forall|i: int| 0 <= i < fed.len() implies fed[i] != '\\' by {
        if i < a.len() {
            assert(a.contains(a[i]));
        } else if i > a.len() {
            assert(b.contains(b[i - a.len() - 1]));
        }
    }
    search::lemma_replace_absent(fed, r, seq!['\r']);
    let rest = r + b;
    let tail = rest.drop_first();
    assert forall|i: int| 0 <= i < tail.len() implies tail[i] != '\\' by {
        if i > 0 {
            assert(b.contains(b[i - 1]));
        }
    }
    assert(a + r + b =~= a + rest);
    search::lemma_replace_behind(a, rest, n, seq!['\n']);
    assert(rest.take(2)[1] == 'r');
    search::lemma_replace_absent(tail, n, seq!['\n']);
    assert(seq![rest[0]] + tail =~= rest);
    search::law_first_occurrence_is_replaced(a, r, seq!['\r'], b);
    search::lemma_replace_absent(b, r, seq!['\r']);
}

/// Where there is no configuration text, mail is shown plainly.
pub proof fn law_mail_is_shown_plainly_without_a_configuration()
    ensures
        accounts::plain_view_config().template_file is None,
        accounts::plain_view_config().template_inline is None,
        accounts::plain_view_config().html_policy == "text"@,
{
}

} // verus!
