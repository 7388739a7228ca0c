//! What callers are answered.

use vstd::prelude::*;
use crate::account_laws;
use crate::accounts;
use crate::command;
use crate::command::{Command, CommandError};
use crate::command_laws;
use crate::config;
use crate::config::{AccountConfig, ConfigError, RawConfig};
use crate::date;
use crate::entry;
use crate::entry::MessageSummary;
use crate::folder_laws;
use crate::folders;
use crate::folders::{MoveStep, PathError, Removal};
use crate::html;
use crate::html::TagKind;
use crate::listing;
use crate::listing::ListTarget;
use crate::mailpath;
use crate::mailpath::MailPath;
use crate::report;
use crate::report::ReportItem;
use crate::sections;
use crate::sections::Section;
use crate::text::{chars, number, search, trim, unicode};
use crate::utf7;

verus! {

/// Whoever asks for a name beside a folder gets it in the folder's parent.
pub proof fn law_name_beside_a_folder(
    folder: &str,
    name: &str,
    answer: String,
    parent: Seq<char>,
    own: Seq<char>,
)
    requires
        call_ensures(folders::name_beside, (folder, name), answer),
        !own.contains('/'),
    ensures
        folder@ == parent + seq!['/'] + own ==> answer@ == parent + seq!['/'] + name@,
        folder@ == parent + seq!['.'] + own && !parent.contains('/') && !own.contains('.')
            ==> answer@ == parent + seq!['.'] + name@,
        folder@ == own && !own.contains('.') ==> answer@ == name@,
{
    folder_laws::law_renamed_folder_keeps_its_parent(parent, own, name@);
}

/// A message is saved under the name in its path, or as `mail.eml` where the
/// path has none; its text is saved under its number.
pub proof fn law_names_of_saved_messages(
    path: &MailPath,
    uid: u32,
    raw: String,
    text: String,
)
    requires
        call_ensures(folders::save_name, (path,), raw),
        call_ensures(folders::text_name, (uid,), text),
    ensures
        path@.filename matches Some(n) ==> raw@ == n,
        path@.filename is None ==> raw@ == "mail.eml"@,
        text@ == "mail_"@ + number::decimal(uid as nat) + ".txt"@,
{
}

/// A destination that ends with a slash or a backslash is a directory.
pub proof fn law_directories_end_with_slashes(dest: &str, answer: bool, s: Seq<char>, c: char)
    requires
        call_ensures(folders::is_written_as_directory, (dest,), answer),
        dest@ == s + seq![c] || dest@ == Seq::<char>::empty(),
    ensures
        dest@ == s + seq![c] ==> answer == (c == '/' || c == '\\'),
        dest@ == Seq::<char>::empty() ==> !answer,
{
    assert((s + seq![c]).last() == c);
}

/// A path is asked for its account, its folder and its message; what it lacks
/// is told, a folder before a number.
pub proof fn law_lacking_parts_of_a_path_are_told(
    path: &MailPath,
    account: Result<String, PathError>,
    folder: Result<String, PathError>,
    message: Result<(String, u32), PathError>,
)
    requires
        call_ensures(folders::source_account, (path,), account),
        call_ensures(folders::source_folder, (path,), folder),
        call_ensures(folders::source_message, (path,), message),
    ensures
        path@.account matches Some(a) ==> (account matches Ok(x) && x@ == a),
        path@.account is None ==> account matches Err(PathError::NoAccount),
        path@.folder matches Some(f) ==> (folder matches Ok(x) && x@ == f),
        path@.folder is None ==> folder matches Err(PathError::NoFolder),
        path@.folder is None ==> message matches Err(PathError::NoFolder),
        path@.folder is Some && path@.uid is None ==> message matches Err(PathError::NoUid),
        path@.folder matches Some(f) ==> (path@.uid matches Some(n) ==> (message matches Ok((x, m))
            && x@ == f && m == n)),
{
}

/// A path without an account lists the accounts, one without a folder those
/// of its account, and any other the messages of its folder.
pub proof fn law_what_a_path_lists(path: &MailPath, answer: ListTarget)
    requires
        call_ensures(listing::list_target, (path,), answer),
    ensures
        path@.account is None ==> answer is Accounts,
        path@.account matches Some(a) ==> {
            &&& path@.folder is None || path@.folder->0.len() == 0 ==> (
            answer matches ListTarget::Folders(x) && x@ == a)
            &&& path@.folder matches Some(f) ==> (f.len() > 0 ==> (
            answer matches ListTarget::Messages(x, y) && x@ == a && y@ == f))
        },
{
    if path@.folder is Some && path@.folder->0.len() == 0 {
        assert(path@.folder->0 =~= Seq::<char>::empty());
    }
}

/// A number of the call goes before the configured one.
pub proof fn law_number_of_the_call_counts(n: u32, configured: u32, given: u32, other: u32)
    requires
        call_ensures(listing::setting_or, (Some(n), configured), given),
        call_ensures(listing::setting_or, (None, configured), other),
    ensures
        given == n,
        other == configured,
{
}

/// A folder is listed under its readable name; one without a name is left out.
pub proof fn law_folders_are_listed(name: &str, now: &str, answer: Option<String>)
    requires
        call_ensures(entry::folder_line, (name, now), answer),
    ensures
        name@.len() == 0 ==> answer is None,
        name@.len() > 0 ==> (answer matches Some(line) && line@ == seq!['"'] + utf7::decode(name@)
            + "\",A:H10,W:"@ + now@ + "\r\n"@),
{
}

/// A server is only talked to over an encrypted connection.
pub proof fn law_connections_are_encrypted(acc: &AccountConfig, answer: Result<(), ConfigError>)
    requires
        call_ensures(config::check_encryption, (acc,), answer),
    ensures
        acc@.ssl ==> answer is Ok,
        !acc@.ssl ==> answer matches Err(ConfigError::Unencrypted),
{
}

/// A move begins with a copy.
pub proof fn law_move_begins_with_a_copy(
    dest: &str,
    first: MoveStep,
    copied: MoveStep,
    failed: MoveStep,
    removal: Removal,
)
    requires
        call_ensures(folders::begin_move, (), first),
        call_ensures(folders::continue_move, (MoveStep::Copy, true, dest), copied),
        call_ensures(folders::continue_move, (MoveStep::Copy, false, dest), failed),
        call_ensures(folders::removal_after_move, (dest,), removal),
    ensures
        first is Copy,
        copied == MoveStep::Remove(removal),
        failed is Failed,
{
}

/// A command line to save, to copy or to move with two arguments is understood
/// as being about the message that the first names, and its destination is the
/// second.
pub proof fn law_command_line_is_understood(
    args: &Vec<String>,
    answer: Result<Command, CommandError>,
)
    requires
        call_ensures(command::parse_command, (args,), answer),
        args@.len() == 4,
    ensures
        mailpath::mail_path(args@[2]@) matches Some(p) ==> {
            &&& command_laws::is_word(args@[1]@, "get"@) ==> (answer matches Ok(Command::Get(m, d))
                && m@ == p && d@ == args@[3]@)
            &&& command_laws::is_word(args@[1]@, "copy"@) ==> (answer matches Ok(
                Command::Copy(m, d),
            ) && m@ == p && d@ == args@[3]@)
            &&& command_laws::is_word(args@[1]@, "move"@) ==> (answer matches Ok(
                Command::Move(m, d),
            ) && m@ == p && d@ == args@[3]@)
        },
{
    let all = chars::texts(args@);
    assert(all =~= seq![args@[0]@, args@[1]@, args@[2]@, args@[3]@]);
    command_laws::law_source_and_destination_are_told_apart(
        args@[0]@,
        args@[1]@,
        args@[2]@,
        args@[3]@,
    );
}

/// With three arguments, the message is the one of the name that is the second
/// argument, in the folder that is the first, and the destination is the third.
pub proof fn law_longer_command_line_is_understood(
    args: &Vec<String>,
    answer: Result<Command, CommandError>,
)
    requires
        call_ensures(command::parse_command, (args,), answer),
        args@.len() == 5,
        args@[2]@.len() > 0 ==> args@[2]@.last() != '/',
    ensures
        mailpath::mail_path(args@[2]@ + seq!['/'] + args@[3]@) matches Some(p) ==> {
            &&& command_laws::is_word(args@[1]@, "get"@) ==> (answer matches Ok(Command::Get(m, d))
                && m@ == p && d@ == args@[4]@)
            &&& command_laws::is_word(args@[1]@, "copy"@) ==> (answer matches Ok(
                Command::Copy(m, d),
            ) && m@ == p && d@ == args@[4]@)
            &&& command_laws::is_word(args@[1]@, "move"@) ==> (answer matches Ok(
                Command::Move(m, d),
            ) && m@ == p && d@ == args@[4]@)
        },
{
    let all = chars::texts(args@);
    let none = Seq::<Seq<char>>::empty();
    let bare = args@[2]@ + Seq::new(0, |i: int| '/');
    assert(bare =~= args@[2]@);
    assert(all =~= seq![args@[0]@, args@[1]@, bare, args@[3]@, args@[4]@] + none);
    command_laws::law_source_may_be_given_in_two_parts(
        args@[0]@,
        args@[1]@,
        args@[2]@,
        0,
        args@[3]@,
        args@[4]@,
        none,
    );
}

/// The end of a paragraph, a division, a row or a heading, a line break and an
/// item of a list end a line; a script and a style sheet are hidden up to their
/// end; no other tag does anything.
pub proof fn law_what_a_tag_does(tag: &str, kind: TagKind)
    requires
        call_ensures(html::tag_kind_of, (tag,), kind),
    ensures
        ({
            let hides = search::starts_with(tag@, "script"@) || search::starts_with(
                tag@,
                "style"@,
            );
            let shows = search::starts_with(tag@, "/script"@) || search::starts_with(
                tag@,
                "/style"@,
            );
            let breaks = search::starts_with(tag@, "br"@) || search::starts_with(tag@, "/p"@)
                || search::starts_with(tag@, "/div"@) || search::starts_with(tag@, "/tr"@)
                || search::starts_with(tag@, "/h"@) || search::starts_with(tag@, "li"@);
            &&& hides ==> kind is Hide
            &&& !hides && shows ==> kind is Show
            &&& !hides && !shows && breaks ==> kind is Break
            &&& !hides && !shows && !breaks ==> kind is Other
        }),
{
}

/// The item of a message tells the second of its header's date, and nothing of
/// the kind where it has none.
pub proof fn law_item_tells_the_second(
    summary: &MessageSummary,
    item: ReportItem,
    other: &MessageSummary,
    another: ReportItem,
)
    requires
        call_ensures(report::make_item, (summary,), item),
        call_ensures(report::make_item, (other,), another),
    ensures
        summary@.envelope matches Some(e) ==> {
            &&& date::envelope_date(e.date) matches Some(d) ==> item.sent == Some(d.seconds)
            &&& date::envelope_date(e.date) is None ==> item.sent is None
            &&& other@.envelope matches Some(f) ==> (date::envelope_date(e.date) is Some
                && date::envelope_date(f.date) is Some ==> (item.sent == another.sent
                <==> date::envelope_date(e.date)->0.seconds == date::envelope_date(
                f.date,
            )->0.seconds))
        },
        summary@.envelope is None ==> item.sent is None,
        item.sender@ == entry::sender_of(summary@.envelope),
        item.subject@ == entry::subject_of(summary@.envelope),
        summary@.size matches Some(n) ==> item.size == n,
{
    assert(item@ == report::item_of(summary@));
    assert(another@ == report::item_of(other@));
}

/// A section of a configuration with a user that is not blank is an account,
/// and the number of messages to skip is the section's own; else the common
/// one, else none.
pub proof fn law_sections_are_read(
    sections: &Vec<Section>,
    answer: Result<RawConfig, ConfigError>,
    i: int,
    name: Seq<char>,
)
    requires
        call_ensures(accounts::config_of_sections, (sections,), answer),
        0 <= i < sections@.len(),
        ({
            let section = sections::section_views(sections@)[i];
            &&& section.name == Some(name)
            &&& account_laws::is_filled(section.entries, "user"@)
        }),
        unicode::lower(name) != "default"@,
        unicode::lower(name) != "view"@,
        !search::starts_with(unicode::lower(name), "rule:"@),
    ensures
        answer matches Ok(raw) && exists|k: int|
            0 <= k < raw.accounts@.len() && {
                let acc = (#[trigger] raw.accounts@[k])@;
                let all = sections::section_views(sections@);
                &&& acc.name == name
                &&& match sections::value_in(all[i].entries, "offset"@) {
                    Some(v) => number::unsigned(trim::trim(v), u32::MAX as nat) matches Some(n)
                        ==> acc.offset == n,
                    None => match sections::value_of(all, "DEFAULT"@, "offset"@) {
                        Some(v) => number::unsigned(trim::trim(v), u32::MAX as nat) matches Some(n)
                            ==> acc.offset == n,
                        None => acc.offset == 0,
                    },
                }
            },
{
    let all = sections::section_views(sections@);
    account_laws::law_sections_become_accounts(all, i, name);
    let list = accounts::configured_accounts(all);
    assert(list.len() > 0);
    if let Ok(raw) = answer {
        assert(config::account_views(raw.accounts@) == list);
        let k = choose|k: int|
            0 <= k < list.len() && {
                let acc = #[trigger] list[k];
                let e = all[i].entries;
                &&& acc.name == name
                &&& match sections::value_in(e, "offset"@) {
                    Some(v) => number::unsigned(trim::trim(v), u32::MAX as nat) matches Some(n)
                        ==> acc.offset == n,
                    None => match sections::value_of(all, "DEFAULT"@, "offset"@) {
                        Some(v) => number::unsigned(trim::trim(v), u32::MAX as nat) matches Some(n)
                            ==> acc.offset == n,
                        None => acc.offset == 0,
                    },
                }
            };
        assert(raw.accounts@[k]@ == list[k]);
    }
}

/// A folder's name comes back from the form in which the server knows it.
pub proof fn law_names_come_back(name: &str, sent: String, known: &str, read: String)
    requires
        call_ensures(utf7::encode_modified_utf7, (name,), sent),
        known@ == sent@,
        call_ensures(utf7::decode_modified_utf7, (known,), read),
    ensures
        read@ == name@,
{
    utf7::law_decode_undoes_encode(name@);
}

} // verus!
