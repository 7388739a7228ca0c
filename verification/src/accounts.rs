//! Reading accounts out of a configuration text, and completing them with what
//! is known at the time of a call.

use vstd::prelude::*;
use crate::config;
use crate::config::{AccountConfig, ConfigError, RawConfig, ViewConfig, Written};
use crate::rules;
use crate::rules::DomainRule;
use crate::sections;
use crate::sections::Section;
use crate::text::{chars, number, search, trim, unicode};

verus! {

// ---------------------------------------------------------------------------
// Sections
// ---------------------------------------------------------------------------

/// The rule that a section writes down: one whose name begins with `rule:`, in
/// capitals or not, with the pattern behind it.
pub open spec fn rule_in(section: sections::SectionView) -> Option<rules::RuleView> {
    match section.name {
        None => None,
        Some(name) => if search::starts_with(unicode::lower(name), "rule:"@) {
            Some(
                rules::RuleView {
                    pattern: trim::trim(unicode::lower(name).skip(5)),
                    host: config::filled(sections::value_in(section.entries, "host"@)),
                    port: config::as_u16(
                        config::number_in(
                            sections::value_in(section.entries, "port"@),
                            u16::MAX as nat,
                        ),
                    ),
                    ssl: config::switch_in(sections::value_in(section.entries, "ssl"@)),
                    trash_folder: config::filled(
                        sections::value_in(section.entries, "trash_folder"@),
                    ),
                },
            )
        } else {
            None
        },
    }
}

/// The rules that sections write down, in their order.
pub open spec fn rules_in(sections: Seq<sections::SectionView>) -> Seq<rules::RuleView>
    decreases sections.len(),
{
    if sections.len() == 0 {
        seq![]
    } else {
        match rule_in(sections.last()) {
            Some(r) => rules_in(sections.drop_last()).push(r),
            None => rules_in(sections.drop_last()),
        }
    }
}

/// What holds for accounts that do not say otherwise.
pub struct Defaults {
    pub limit: u32,
    pub offset: u32,
    pub chunk_size: u32,
    pub timezone: String,
    pub date_source: String,
}

/// The contents of the defaults.
pub struct DefaultsView {
    pub limit: u32,
    pub offset: u32,
    pub chunk_size: u32,
    pub timezone: Seq<char>,
    pub date_source: Seq<char>,
}

impl View for Defaults {
    type V = DefaultsView;

    open spec fn view(&self) -> DefaultsView {
        DefaultsView {
            limit: self.limit,
            offset: self.offset,
            chunk_size: self.chunk_size,
            timezone: self.timezone@,
            date_source: self.date_source@,
        }
    }
}

/// A value of the section `DEFAULT`.
pub open spec fn default_value(sections: Seq<sections::SectionView>, key: Seq<char>) -> Option<
    Seq<char>,
> {
    sections::value_of(sections, "DEFAULT"@, key)
}

/// The number that a value is, white space around it not allowed.
pub open spec fn bare_number(value: Option<Seq<char>>) -> Option<nat> {
    match value {
        Some(s) => number::unsigned(s, u32::MAX as nat),
        None => None,
    }
}

/// What the section `DEFAULT` says, completed with the values that hold where
/// it says nothing.
pub open spec fn defaults_in(sections: Seq<sections::SectionView>) -> DefaultsView {
    DefaultsView {
        limit: config::u32_or(bare_number(default_value(sections, "limit"@)), 100),
        offset: config::u32_or(
            config::number_in(default_value(sections, "offset"@), u32::MAX as nat),
            0,
        ),
        chunk_size: config::u32_or(
            config::number_in(default_value(sections, "chunk_size"@), u32::MAX as nat),
            0,
        ),
        timezone: config::word_or(default_value(sections, "timezone"@), "local"@),
        date_source: config::word_or(default_value(sections, "date_source"@), "internal"@),
    }
}

/// The section of this name describes an account: it is neither the defaults
/// nor the settings for showing mail nor a rule.
pub open spec fn is_account_name(name: Seq<char>) -> bool {
    let l = unicode::lower(name);
    l != "default"@ && l != "view"@ && !search::starts_with(l, "rule:"@)
}

/// The settings of a server that a section's entries write down.
pub open spec fn written_in(entries: sections::Entries) -> config::WrittenView {
    config::WrittenView {
        host: config::filled(sections::value_in(entries, "host"@)),
        port: config::as_u16(
            config::number_in(sections::value_in(entries, "port"@), u16::MAX as nat),
        ),
        ssl: config::switch_in(sections::value_in(entries, "ssl"@)),
        trash_folder: config::filled(sections::value_in(entries, "trash_folder"@)),
    }
}

/// The account that a section with the given name and entries describes,
/// before its server settings are completed by the domain of its address. What
/// the section does not write down is no host, the standard port, encryption,
/// and the common trash folder or one named `Trash`.
pub open spec fn written_account(
    name: Seq<char>,
    entries: sections::Entries,
    defaults: DefaultsView,
    default_trash: Option<Seq<char>>,
) -> config::AccountView {
    let written = written_in(entries);
    config::AccountView {
        name,
        host: config::or(written.host, seq![]),
        port: config::or(written.port, 993),
        user: config::trimmed_or_empty(sections::value_in(entries, "user"@)),
        pass: config::trimmed_or_empty(sections::value_in(entries, "pass"@)),
        ssl: config::or(written.ssl, true),
        trash_folder: config::or(written.trash_folder, config::or(default_trash, "Trash"@)),
        limit: config::u32_or(
            config::number_in(sections::value_in(entries, "limit"@), u32::MAX as nat),
            defaults.limit,
        ),
        offset: config::u32_or(
            config::number_in(sections::value_in(entries, "offset"@), u32::MAX as nat),
            defaults.offset,
        ),
        chunk_size: config::u32_or(
            config::number_in(sections::value_in(entries, "chunk_size"@), u32::MAX as nat),
            defaults.chunk_size,
        ),
        timezone: config::word_or(sections::value_in(entries, "timezone"@), defaults.timezone),
        date_source: config::word_or(
            sections::value_in(entries, "date_source"@),
            defaults.date_source,
        ),
        written,
    }
}

/// The account that a section describes: one with a host, a user or a
/// password.
pub open spec fn account_in(
    section: sections::SectionView,
    defaults: DefaultsView,
    rules: Seq<rules::RuleView>,
    default_trash: Option<Seq<char>>,
) -> Option<config::AccountView> {
    match section.name {
        None => None,
        Some(name) => if is_account_name(name) {
            let acc = config::completed(
                written_account(name, section.entries, defaults, default_trash),
                rules,
                default_trash,
            );
            if acc.host.len() > 0 || acc.user.len() > 0 || acc.pass.len() > 0 {
                Some(acc)
            } else {
                None
            }
        } else {
            None
        },
    }
}

/// The accounts that sections describe, in their order.
pub open spec fn accounts_in(
    sections: Seq<sections::SectionView>,
    defaults: DefaultsView,
    rules: Seq<rules::RuleView>,
    default_trash: Option<Seq<char>>,
) -> Seq<config::AccountView>
    decreases sections.len(),
{
    if sections.len() == 0 {
        seq![]
    } else {
        let before = accounts_in(sections.drop_last(), defaults, rules, default_trash);
        match account_in(sections.last(), defaults, rules, default_trash) {
            Some(a) => before.push(a),
            None => before,
        }
    }
}

/// The accounts that a configuration describes.
pub open spec fn configured_accounts(sections: Seq<sections::SectionView>) -> Seq<
    config::AccountView,
> {
    accounts_in(
        sections,
        defaults_in(sections),
        rules_in(sections),
        default_value(sections, "trash_folder"@),
    )
}

/// The configuration asks for a log.
pub open spec fn asks_for_log(sections: Seq<sections::SectionView>) -> bool {
    match default_value(sections, "debug"@) {
        Some(v) => chars::same_ignoring_case(v, "true"@) || v == "1"@,
        None => false,
    }
}

/// `raw` is what the sections say.
pub open spec fn is_config_of(raw: RawConfig, sections: Seq<sections::SectionView>) -> bool {
    &&& config::account_views(raw.accounts@) == configured_accounts(sections)
    &&& rules::rule_views(raw.rules@) == rules_in(sections)
    &&& chars::opt_text(raw.default_trash) == default_value(sections, "trash_folder"@)
    &&& raw.debug == asks_for_log(sections)
}

/// The rule that a section writes down.
fn read_rule(section: &Section) -> (r: Option<DomainRule>)
    ensures
        match r {
            Some(rule) => rule_in(section@) == Some(rule@),
            None => rule_in(section@) is None,
        },
{
    match &section.name {
        None => None,
        Some(name) => {
            let l = unicode::lower_text(name);
            if search::text_starts_with(&l, "rule:") {
                proof {
                    reveal_strlit("rule:");
                }
                let n: usize = l.as_str().unicode_len();
                let rest = l.as_str().substring_char(5, n);
                assert(rest@ =~= l@.skip(5));
                Some(
                    DomainRule {
                        pattern: trim::trim_text(rest),
                        host: config::filled_text(sections::get_value(&section.entries, "host")),
                        port: config::port_value(sections::get_value(&section.entries, "port")),
                        ssl: config::switch_value(sections::get_value(&section.entries, "ssl")),
                        trash_folder: config::filled_text(
                            sections::get_value(&section.entries, "trash_folder"),
                        ),
                    },
                )
            } else {
                None
            }
        },
    }
}

/// The rules that sections write down.
fn read_rules(sections: &Vec<Section>) -> (r: Vec<DomainRule>)
    ensures
        rules::rule_views(r@) == rules_in(sections::section_views(sections@)),
{
    let ghost all = sections::section_views(sections@);
    let mut out: Vec<DomainRule> = Vec::new();
    let mut i: usize = 0;
    assert(rules::rule_views(out@) =~= rules_in(all.take(0)));
    while i < sections.len()
        invariant
            all == sections::section_views(sections@),
            i <= sections.len(),
            rules::rule_views(out@) == rules_in(all.take(i as int)),
        decreases sections.len() - i,
    {
        let ghost before = rules::rule_views(out@);
        assert(all.take(i + 1).drop_last() =~= all.take(i as int));
        assert(all.take(i + 1).last() == sections@[i as int]@);
        if let Some(rule) = read_rule(&sections[i]) {
            out.push(rule);
            assert(rules::rule_views(out@) =~= before.push(rule@));
        }
        i += 1;
    }
    assert(all.take(all.len() as int) =~= all);
    out
}

/// What the section `DEFAULT` says.
fn read_defaults(sections: &Vec<Section>) -> (r: Defaults)
    ensures
        r@ == defaults_in(sections::section_views(sections@)),
{
    let limit: u32 = match sections::get_from(sections, "DEFAULT", "limit") {
        Some(s) => match number::parse_u32(&s) {
            Some(n) => n,
            None => 100,
        },
        None => 100,
    };
    Defaults {
        limit,
        offset: config::number_or(sections::get_from(sections, "DEFAULT", "offset"), 0),
        chunk_size: config::number_or(sections::get_from(sections, "DEFAULT", "chunk_size"), 0),
        timezone: config::word_value(sections::get_from(sections, "DEFAULT", "timezone"), "local"),
        date_source: config::word_value(
            sections::get_from(sections, "DEFAULT", "date_source"),
            "internal",
        ),
    }
}

/// The account that a section describes.
fn read_account(
    section: &Section,
    defaults: &Defaults,
    rules: &Vec<DomainRule>,
    default_trash: &Option<String>,
) -> (r: Option<AccountConfig>)
    ensures
        match r {
            Some(acc) => account_in(
                section@,
                defaults@,
                rules::rule_views(rules@),
                chars::opt_text(*default_trash),
            ) == Some(acc@),
            None => account_in(
                section@,
                defaults@,
                rules::rule_views(rules@),
                chars::opt_text(*default_trash),
            ) is None,
        },
{
    match &section.name {
        None => None,
        Some(name) => {
            let l = unicode::lower_text(name);
            if chars::same_text(&l, "default") || chars::same_text(&l, "view")
                || search::text_starts_with(&l, "rule:") {
                return None;
            }
            let e = &section.entries;
            let written = Written {
                host: config::filled_text(sections::get_value(e, "host")),
                port: config::port_value(sections::get_value(e, "port")),
                ssl: config::switch_value(sections::get_value(e, "ssl")),
                trash_folder: config::filled_text(sections::get_value(e, "trash_folder")),
            };
            let host = match &written.host {
                Some(h) => h.clone(),
                None => String::new(),
            };
            let port: u16 = match written.port {
                Some(p) => p,
                None => 993,
            };
            let ssl = match written.ssl {
                Some(b) => b,
                None => true,
            };
            let trash_folder = match (&written.trash_folder, default_trash) {
                (Some(t), _) => t.clone(),
                (None, Some(t)) => t.clone(),
                (None, None) => "Trash".to_owned(),
            };
            assert(host@ =~= config::or(written@.host, seq![]));
            let mut acc = AccountConfig {
                name: name.clone(),
                host,
                port,
                user: config::text_value(sections::get_value(e, "user")),
                pass: config::text_value(sections::get_value(e, "pass")),
                ssl,
                trash_folder,
                limit: config::number_or(sections::get_value(e, "limit"), defaults.limit),
                offset: config::number_or(sections::get_value(e, "offset"), defaults.offset),
                chunk_size: config::number_or(
                    sections::get_value(e, "chunk_size"),
                    defaults.chunk_size,
                ),
                timezone: config::word_value(
                    sections::get_value(e, "timezone"),
                    &defaults.timezone,
                ),
                date_source: config::word_value(
                    sections::get_value(e, "date_source"),
                    &defaults.date_source,
                ),
                written,
            };
            assert(acc@ == written_account(
                name@,
                section@.entries,
                defaults@,
                chars::opt_text(*default_trash),
            ));
            config::apply_domain_rules_to_account(&mut acc, rules, default_trash);
            if acc.host.as_str().unicode_len() > 0 || acc.user.as_str().unicode_len() > 0
                || acc.pass.as_str().unicode_len() > 0 {
                Some(acc)
            } else {
                None
            }
        },
    }
}

/// What the sections of a configuration say. It fails where they describe no
/// account.
pub fn config_of_sections(sections: &Vec<Section>) -> (r: Result<RawConfig, ConfigError>)
    ensures
        match r {
            Ok(raw) => is_config_of(raw, sections::section_views(sections@)) && raw.accounts.len()
                > 0,
            Err(e) => e is NoAccounts && configured_accounts(
                sections::section_views(sections@),
            ).len() == 0,
        },
{
    let ghost all = sections::section_views(sections@);
    let debug = match sections::get_from(sections, "DEFAULT", "debug") {
        Some(v) => chars::eq_ignore_case(&v, "true") || chars::same_text(&v, "1"),
        None => false,
    };
    let defaults = read_defaults(sections);
    let default_trash = sections::get_from(sections, "DEFAULT", "trash_folder");
    let rules = read_rules(sections);
    let ghost trash = chars::opt_text(default_trash);
    let ghost written = rules::rule_views(rules@);
    let mut accounts: Vec<AccountConfig> = Vec::new();
    let mut i: usize = 0;
    assert(config::account_views(accounts@) =~= accounts_in(
        all.take(0),
        defaults@,
        written,
        trash,
    ));
    while i < sections.len()
        invariant
            all == sections::section_views(sections@),
            trash == chars::opt_text(default_trash),
            written == rules::rule_views(rules@),
            i <= sections.len(),
            config::account_views(accounts@) == accounts_in(
                all.take(i as int),
                defaults@,
                written,
                trash,
            ),
        decreases sections.len() - i,
    {
        let ghost before = config::account_views(accounts@);
        assert(all.take(i + 1).drop_last() =~= all.take(i as int));
        assert(all.take(i + 1).last() == sections@[i as int]@);
        if let Some(acc) = read_account(&sections[i], &defaults, &rules, &default_trash) {
            accounts.push(acc);
            assert(config::account_views(accounts@) =~= before.push(acc@));
        }
        i += 1;
    }
    assert(all.take(all.len() as int) =~= all);
    if accounts.len() == 0 {
        return Err(ConfigError::NoAccounts);
    }
    Ok(RawConfig { accounts, rules, default_trash, debug })
}

/// What a configuration text says. It fails where the text cannot be read and
/// where it describes no account.
pub fn load_config_raw(text: &str) -> (r: Result<RawConfig, ConfigError>)
    ensures
        match sections::ini_sections(sections::without_mark(text@)) {
            Ok(found) => match r {
                Ok(raw) => is_config_of(raw, found) && raw.accounts.len() > 0,
                Err(e) => e is NoAccounts && configured_accounts(found).len() == 0,
            },
            Err(bad) => r matches Err(ConfigError::Syntax(e)) && e@ == bad,
        },
{
    match sections::read_sections(text) {
        Ok(found) => config_of_sections(&found),
        Err(e) => Err(ConfigError::Syntax(e)),
    }
}

/// What an account's own section writes down is what holds for it once it is
/// read.
pub proof fn law_read_accounts_agree_with_their_sections(
    sections: Seq<sections::SectionView>,
    i: int,
)
    requires
        0 <= i < configured_accounts(sections).len(),
    ensures
        config::agrees_with_section(configured_accounts(sections)[i]),
{
    lemma_accounts_agree(
        sections,
        defaults_in(sections),
        rules_in(sections),
        default_value(sections, "trash_folder"@),
        i,
    );
}

/// The same of any front of the sections.
proof fn lemma_accounts_agree(
    sections: Seq<sections::SectionView>,
    defaults: DefaultsView,
    rules: Seq<rules::RuleView>,
    default_trash: Option<Seq<char>>,
    i: int,
)
    requires
        0 <= i < accounts_in(sections, defaults, rules, default_trash).len(),
    ensures
        config::agrees_with_section(accounts_in(sections, defaults, rules, default_trash)[i]),
    decreases sections.len(),
{
    if sections.len() > 0 {
        let before = accounts_in(sections.drop_last(), defaults, rules, default_trash);
        if i < before.len() {
            lemma_accounts_agree(sections.drop_last(), defaults, rules, default_trash, i);
        } else {
            let section = sections.last();
            let acc = written_account(section.name->0, section.entries, defaults, default_trash);
            config::law_written_settings_win(acc, rules, default_trash);
        }
    }
}

/// How a configuration wants mail to be shown.
pub open spec fn view_config_in(sections: Seq<sections::SectionView>) -> config::ViewConfigView {
    config::ViewConfigView {
        template_file: config::filled(sections::value_of(sections, "VIEW"@, "template_file"@)),
        template_inline: match sections::value_of(sections, "VIEW"@, "template"@) {
            Some(s) => config::not_empty(
                Some(search::replace(search::replace(s, "\\n"@, "\n"@), "\\r"@, "\r"@)),
            ),
            None => None,
        },
        html_policy: config::word_or(
            sections::value_of(sections, "VIEW"@, "html_policy"@),
            "text"@,
        ),
    }
}

/// How mail is shown where nothing is said about it.
pub open spec fn plain_view_config() -> config::ViewConfigView {
    config::ViewConfigView {
        template_file: None,
        template_inline: None,
        html_policy: "text"@,
    }
}

/// How the sections of a configuration want mail to be shown.
pub fn view_config_of_sections(sections: &Vec<Section>) -> (r: ViewConfig)
    ensures
        r@ == view_config_in(sections::section_views(sections@)),
{
    let template_inline = match sections::get_from(sections, "VIEW", "template") {
        Some(s) => {
            proof {
                reveal_strlit("\\n");
                reveal_strlit("\\r");
            }
            let t = search::replace_text(
                &search::replace_text(&s, "\\n", "\n"),
                "\\r",
                "\r",
            );
            if t.as_str().unicode_len() > 0 {
                Some(t)
            } else {
                None
            }
        },
        None => None,
    };
    ViewConfig {
        template_file: config::filled_text(sections::get_from(sections, "VIEW", "template_file")),
        template_inline,
        html_policy: config::word_value(sections::get_from(sections, "VIEW", "html_policy"), "text"),
    }
}

/// How a configuration text wants mail to be shown; plainly, where the text is
/// missing or cannot be read.
pub fn load_view_config(text: Option<&str>) -> (r: ViewConfig)
    ensures
        r@ == match text {
            Some(t) => match sections::ini_sections(sections::without_mark(t@)) {
                Ok(found) => view_config_in(found),
                Err(_) => plain_view_config(),
            },
            None => plain_view_config(),
        },
{
    if let Some(t) = text {
        if let Ok(found) = sections::read_sections(t) {
            return view_config_of_sections(&found);
        }
    }
    ViewConfig { template_file: None, template_inline: None, html_policy: "text".to_owned() }
}

} // verus!
