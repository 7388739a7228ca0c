//! What command lines ask for, argument by argument.

use vstd::prelude::*;
use vstd::utf8::*;
use crate::cli;
use crate::command;
use crate::command::{CommandErrorView, CommandView, Usage};
use crate::mailpath;
use crate::mailpath::MailPathView;
use crate::names;
use crate::text::{number, search, trim, unicode};

verus! {

/// The argument is the given word, in capitals or not.
pub open spec fn is_word(arg: Seq<char>, word: Seq<char>) -> bool {
    is_ascii_chars(arg) && unicode::ascii_lower(arg) == word
}

/// Lengths and letters by which the words of the commands differ.
proof fn lemma_words()
    ensures
        "help"@.len() == 4 && "help"@[0] == 'h',
        "--help"@.len() == 6 && "--help"@[0] == '-',
        "-help"@.len() == 5 && "-help"@[0] == '-',
        "-h"@.len() == 2 && "-h"@[0] == '-',
        "/h"@.len() == 2 && "/h"@[0] == '/',
        "/help"@.len() == 5 && "/help"@[0] == '/',
        "/?"@.len() == 2 && "/?"@[0] == '/',
        "-?"@.len() == 2 && "-?"@[0] == '-',
        "read"@.len() == 4 && "read"@[0] == 'r',
        "view"@.len() == 4 && "view"@[0] == 'v',
        "list"@.len() == 4 && "list"@[0] == 'l',
        "get"@.len() == 3 && "get"@[0] == 'g',
        "copy"@.len() == 4 && "copy"@[0] == 'c',
        "move"@.len() == 4 && "move"@[0] == 'm',
        "delete"@.len() == 6 && "delete"@[0] == 'd' && "delete"@[3] == 'e',
        "makedir"@.len() == 7 && "makedir"@[0] == 'm',
        "deldir"@.len() == 6 && "deldir"@[0] == 'd' && "deldir"@[3] == 'd',
        "rename"@.len() == 6 && "rename"@[0] == 'r' && "rename"@[2] == 'n',
        "report"@.len() == 6 && "report"@[0] == 'r' && "report"@[2] == 'p',
{
    reveal_strlit("help");
    reveal_strlit("--help");
    reveal_strlit("-help");
    reveal_strlit("-h");
    reveal_strlit("/h");
    reveal_strlit("/help");
    reveal_strlit("/?");
    reveal_strlit("-?");
    reveal_strlit("read");
    reveal_strlit("view");
    reveal_strlit("list");
    reveal_strlit("get");
    reveal_strlit("copy");
    reveal_strlit("move");
    reveal_strlit("delete");
    reveal_strlit("makedir");
    reveal_strlit("deldir");
    reveal_strlit("rename");
    reveal_strlit("report");
}

/// Characters of a set at the end of a text are taken off.
proof fn lemma_end_is_taken_off(base: Seq<char>, tail: Seq<char>, set: Seq<char>)
    requires
        forall|i: int| 0 <= i < tail.len() ==> set.contains(#[trigger] tail[i]),
        base.len() > 0 ==> !set.contains(base.last()),
    ensures
        trim::trim_end_set(base + tail, set) == base,
    decreases tail.len(),
{
    let s = base + tail;
    if tail.len() > 0 {
        assert(s.last() == tail.last());
        assert(s.drop_last() =~= base + tail.drop_last());
        lemma_end_is_taken_off(base, tail.drop_last(), set);
    } else {
        assert(s =~= base);
    }
}

/// Characters of a set at the front of a text are taken off.
proof fn lemma_front_is_taken_off(head: Seq<char>, base: Seq<char>, set: Seq<char>)
    requires
        forall|i: int| 0 <= i < head.len() ==> set.contains(#[trigger] head[i]),
        base.len() > 0 ==> !set.contains(base[0]),
    ensures
        trim::trim_start_set(head + base, set) == base,
    decreases head.len(),
{
    let s = head + base;
    if head.len() > 0 {
        assert(s[0] == head[0]);
        assert(s.drop_first() =~= head.drop_first() + base);
        lemma_front_is_taken_off(head.drop_first(), base, set);
    } else {
        assert(s =~= base);
    }
}

// ---------------------------------------------------------------------------
// Saving, copying and moving
// ---------------------------------------------------------------------------

/// A command to save, to copy or to move with two arguments is about the
/// message that the first one names, and its destination is the second.
pub proof fn law_source_and_destination_are_told_apart(
    program: Seq<char>,
    word: Seq<char>,
    source: Seq<char>,
    dest: Seq<char>,
)
    ensures
        ({
            let args = seq![program, word, source, dest];
            &&& mailpath::mail_path(source) matches Some(p) ==> {
                &&& is_word(word, "get"@) ==> command::command_in(args) == Ok::<
                    CommandView,
                    CommandErrorView,
                >(CommandView::Get(p, dest))
                &&& is_word(word, "copy"@) ==> command::command_in(args) == Ok::<
                    CommandView,
                    CommandErrorView,
                >(CommandView::Copy(p, dest))
                &&& is_word(word, "move"@) ==> command::command_in(args) == Ok::<
                    CommandView,
                    CommandErrorView,
                >(CommandView::Move(p, dest))
            }
            &&& mailpath::mail_path(source) is None && (is_word(word, "get"@) || is_word(
                word,
                "copy"@,
            ) || is_word(word, "move"@)) ==> command::command_in(args) == Err::<
                CommandView,
                CommandErrorView,
            >(CommandErrorView::Unreadable)
        }),
{
    lemma_words();
    let args = seq![program, word, source, dest];
    assert(args[1] == word && args[2] == source && args[3] == dest);
}

/// With three arguments, the message is the one of the name that is the second
/// argument, in the folder that is the first, and the destination is the
/// third; further arguments do not count. Slashes at the end of the folder do
/// not count either.
pub proof fn law_source_may_be_given_in_two_parts(
    program: Seq<char>,
    word: Seq<char>,
    folder: Seq<char>,
    slashes: nat,
    name: Seq<char>,
    dest: Seq<char>,
    more: Seq<Seq<char>>,
)
    requires
        folder.len() > 0 ==> folder.last() != '/',
    ensures
        ({
            let written = folder + Seq::new(slashes, |i: int| '/');
            let args = seq![program, word, written, name, dest] + more;
            mailpath::mail_path(folder + seq!['/'] + name) matches Some(p) ==> {
                &&& is_word(word, "get"@) ==> command::command_in(args) == Ok::<
                    CommandView,
                    CommandErrorView,
                >(CommandView::Get(p, dest))
                &&& is_word(word, "copy"@) ==> command::command_in(args) == Ok::<
                    CommandView,
                    CommandErrorView,
                >(CommandView::Copy(p, dest))
                &&& is_word(word, "move"@) ==> command::command_in(args) == Ok::<
                    CommandView,
                    CommandErrorView,
                >(CommandView::Move(p, dest))
            }
        }),
{
    lemma_words();
    let tail = Seq::new(slashes, |i: int| '/');
    let written = folder + tail;
    let args = seq![program, word, written, name, dest] + more;
    let set = seq!['/'];
    assert forall|i: int| 0 <= i < tail.len() implies set.contains(#[trigger] tail[i]) by {
        assert(set[0] == tail[i]);
    }
    lemma_end_is_taken_off(folder, tail, set);
    assert(args[1] == word && args[2] == written && args[3] == name && args[4] == dest);
}

/// A command that lacks arguments is told which command it was.
pub proof fn law_lacking_arguments_are_noticed(args: Seq<Seq<char>>)
    requires
        args.len() >= 2,
    ensures
        args.len() < 4 && is_word(args[1], "get"@) ==> command::command_in(args) == Err::<
            CommandView,
            CommandErrorView,
        >(CommandErrorView::Usage(Usage::Get)),
        args.len() < 4 && is_word(args[1], "copy"@) ==> command::command_in(args) == Err::<
            CommandView,
            CommandErrorView,
        >(CommandErrorView::Usage(Usage::Copy)),
        args.len() < 4 && is_word(args[1], "move"@) ==> command::command_in(args) == Err::<
            CommandView,
            CommandErrorView,
        >(CommandErrorView::Usage(Usage::Move)),
        args.len() < 4 && is_word(args[1], "rename"@) ==> command::command_in(args) == Err::<
            CommandView,
            CommandErrorView,
        >(CommandErrorView::Usage(Usage::Rename)),
        args.len() < 3 && (is_word(args[1], "read"@) || is_word(args[1], "view"@))
            ==> command::command_in(args) == Err::<CommandView, CommandErrorView>(
            CommandErrorView::Usage(Usage::Read),
        ),
        args.len() < 3 && is_word(args[1], "delete"@) ==> command::command_in(args) == Err::<
            CommandView,
            CommandErrorView,
        >(CommandErrorView::Usage(Usage::Delete)),
        args.len() < 3 && is_word(args[1], "report"@) ==> command::command_in(args) == Err::<
            CommandView,
            CommandErrorView,
        >(CommandErrorView::Usage(Usage::Report)),
        args.len() < 4 && is_word(args[1], "list"@) ==> command::command_in(args) == Err::<
            CommandView,
            CommandErrorView,
        >(CommandErrorView::NoOutput),
{
    lemma_words();
}

// ---------------------------------------------------------------------------
// Folders
// ---------------------------------------------------------------------------

/// A command to rename is about the folder that its first argument names, and
/// the second one is the new name.
pub proof fn law_renaming_takes_two_names(
    program: Seq<char>,
    word: Seq<char>,
    folder: Seq<char>,
    name: Seq<char>,
    more: Seq<Seq<char>>,
)
    requires
        is_word(word, "rename"@),
    ensures
        command::command_in(seq![program, word, folder, name] + more) == Ok::<
            CommandView,
            CommandErrorView,
        >(CommandView::Rename(folder, name)),
{
    lemma_words();
    let args = seq![program, word, folder, name] + more;
    assert(args[1] == word && args[2] == folder && args[3] == name);
}

/// A command to make or to delete a folder is about the folder that its
/// argument names, or about the one of the name that is the second argument,
/// in the folder that is the first, with one slash between them.
pub proof fn law_folder_is_given_in_one_part_or_two(
    program: Seq<char>,
    word: Seq<char>,
    folder: Seq<char>,
    tail: Seq<char>,
    head: Seq<char>,
    name: Seq<char>,
)
    requires
        forall|i: int| 0 <= i < tail.len() ==> #[trigger] tail[i] == '/' || tail[i] == '\\',
        forall|i: int| 0 <= i < head.len() ==> #[trigger] head[i] == '/' || head[i] == '\\',
        folder.len() > 0 ==> folder.last() != '/' && folder.last() != '\\',
        name.len() > 0,
        name[0] != '/' && name[0] != '\\',
    ensures
        ({
            let one = seq![program, word, folder];
            let two = seq![program, word, folder + tail, head + name];
            &&& is_word(word, "makedir"@) ==> {
                &&& command::command_in(one) == Ok::<CommandView, CommandErrorView>(
                    CommandView::MakeFolder(folder),
                )
                &&& command::command_in(two) == Ok::<CommandView, CommandErrorView>(
                    CommandView::MakeFolder(folder + seq!['/'] + name),
                )
            }
            &&& is_word(word, "deldir"@) ==> {
                &&& command::command_in(one) == Ok::<CommandView, CommandErrorView>(
                    CommandView::DeleteFolder(folder),
                )
                &&& command::command_in(two) == Ok::<CommandView, CommandErrorView>(
                    CommandView::DeleteFolder(folder + seq!['/'] + name),
                )
            }
        }),
{
    lemma_words();
    let one = seq![program, word, folder];
    let two = seq![program, word, folder + tail, head + name];
    assert(one[1] == word && one[2] == folder);
    assert(two[1] == word && two[2] == folder + tail && two[3] == head + name);
    lemma_joined(folder, tail, head, name);
}

/// Two parts of a path are joined by one slash.
proof fn lemma_joined(folder: Seq<char>, tail: Seq<char>, head: Seq<char>, name: Seq<char>)
    requires
        forall|i: int| 0 <= i < tail.len() ==> #[trigger] tail[i] == '/' || tail[i] == '\\',
        forall|i: int| 0 <= i < head.len() ==> #[trigger] head[i] == '/' || head[i] == '\\',
        folder.len() > 0 ==> folder.last() != '/' && folder.last() != '\\',
        name.len() > 0 ==> name[0] != '/' && name[0] != '\\',
    ensures
        command::joined(folder + tail, head + name) == folder + seq!['/'] + name,
{
    let set = seq!['/', '\\'];
    assert(set[0] == '/' && set[1] == '\\');
    lemma_end_is_taken_off(folder, tail, set);
    lemma_front_is_taken_off(head, name, set);
}

// ---------------------------------------------------------------------------
// Reading
// ---------------------------------------------------------------------------

/// A command to read is about the message that its first argument names. A
/// second one is where the text goes, where the first names a message.
pub proof fn law_reading_takes_a_message_and_a_destination(
    program: Seq<char>,
    word: Seq<char>,
    source: Seq<char>,
    dest: Seq<char>,
    p: MailPathView,
)
    requires
        is_word(word, "read"@) || is_word(word, "view"@),
        mailpath::mail_path(source) == Some(p),
    ensures
        command::command_in(seq![program, word, source]) == Ok::<CommandView, CommandErrorView>(
            CommandView::Read(p, None),
        ),
        p.uid is Some ==> command::command_in(seq![program, word, source, dest]) == Ok::<
            CommandView,
            CommandErrorView,
        >(CommandView::Read(p, Some(dest))),
{
    lemma_words();
    let one = seq![program, word, source];
    let two = seq![program, word, source, dest];
    assert(one[1] == word && one[2] == source);
    assert(two[1] == word && two[2] == source && two[3] == dest);
}

/// Where the first argument of a command to read names a folder, a number as
/// the second one is that of a message in it, and a third one is where the
/// text goes.
pub proof fn law_message_is_read_by_its_number(
    program: Seq<char>,
    word: Seq<char>,
    folder: Seq<char>,
    uid: u32,
    dest: Seq<char>,
    p: MailPathView,
)
    requires
        is_word(word, "read"@) || is_word(word, "view"@),
        mailpath::mail_path(folder) == Some(p),
        p.uid is None,
    ensures
        command::command_in(seq![program, word, folder, number::decimal(uid as nat)]) == Ok::<
            CommandView,
            CommandErrorView,
        >(
            CommandView::Read(
                MailPathView {
                    account: p.account,
                    folder: p.folder,
                    filename: p.filename,
                    uid: Some(uid),
                },
                None,
            ),
        ),
        command::command_in(seq![program, word, folder, number::decimal(uid as nat), dest]) == Ok::<
            CommandView,
            CommandErrorView,
        >(
            CommandView::Read(
                MailPathView {
                    account: p.account,
                    folder: p.folder,
                    filename: p.filename,
                    uid: Some(uid),
                },
                Some(dest),
            ),
        ),
{
    lemma_words();
    let digits = number::decimal(uid as nat);
    let one = seq![program, word, folder, digits];
    let two = seq![program, word, folder, digits, dest];
    assert(one[1] == word && one[2] == folder && one[3] == digits);
    assert(two[1] == word && two[2] == folder && two[3] == digits && two[4] == dest);
    number::lemma_decimal(uid as nat);
    number::lemma_unsigned_decimal(uid as nat, u32::MAX as nat);
    trim::lemma_trim_is_same(digits);
}

/// Where the first argument of a command to read names a folder and the second
/// looks like the name of a message, with a bracket at its front or `.eml` at
/// its end, the message is the one of that name in the folder. Any other second
/// argument that is no number is where the text goes.
pub proof fn law_message_is_read_by_its_name(
    program: Seq<char>,
    word: Seq<char>,
    folder: Seq<char>,
    name: Seq<char>,
    dest: Seq<char>,
    p: MailPathView,
)
    requires
        is_word(word, "read"@) || is_word(word, "view"@),
        mailpath::mail_path(folder) == Some(p),
        p.uid is None,
        number::unsigned(trim::trim(name), u32::MAX as nat) is None,
        folder.len() > 0 ==> folder.last() != '/' && folder.last() != '\\',
        name.len() > 0,
        name[0] != '/' && name[0] != '\\',
    ensures
        name[0] == '[' || search::ends_with(name, ".eml"@) ==> (mailpath::mail_path(
            folder + seq!['/'] + name,
        ) matches Some(m) ==> command::command_in(seq![program, word, folder, name, dest]) == Ok::<
            CommandView,
            CommandErrorView,
        >(CommandView::Read(m, Some(dest)))),
        name[0] == '[' || search::ends_with(name, ".eml"@) ==> (mailpath::mail_path(
            folder + seq!['/'] + name,
        ) matches Some(m) ==> command::command_in(seq![program, word, folder, name]) == Ok::<
            CommandView,
            CommandErrorView,
        >(CommandView::Read(m, None))),
        name[0] != '[' && !search::ends_with(name, ".eml"@) ==> command::command_in(
            seq![program, word, folder, name],
        ) == Ok::<CommandView, CommandErrorView>(CommandView::Read(p, Some(name))),
{
    lemma_words();
    let one = seq![program, word, folder, name];
    let two = seq![program, word, folder, name, dest];
    assert(one[1] == word && one[2] == folder && one[3] == name);
    assert(two[1] == word && two[2] == folder && two[3] == name && two[4] == dest);
    assert(name.take(1)[0] == name[0]);
    if name[0] == '[' {
        assert(name.take(1) =~= seq!['[']);
    }
    let none = Seq::<char>::empty();
    lemma_joined(folder, none, none, name);
    assert(folder + none =~= folder);
    assert(none + name =~= name);
}

// ---------------------------------------------------------------------------
// Deleting
// ---------------------------------------------------------------------------

/// The numbers of messages are collected in their order; an argument without a
/// number adds none.
pub proof fn law_numbers_are_collected(args: Seq<Seq<char>>, last: Seq<char>)
    ensures
        command::uids_in(seq![]) == Seq::<u32>::empty(),
        names::uid_in(last) matches Some(n) ==> command::uids_in(args.push(last))
            == command::uids_in(args).push(n as u32),
        names::uid_in(last) is None ==> command::uids_in(args.push(last)) == command::uids_in(args),
{
    assert(args.push(last).drop_last() =~= args);
}

/// A command to delete with one argument is about the message that it names.
/// With several, the first names a folder, and those of the others that have a
/// number are the messages in it that are deleted; where none has one, the
/// second is the name of a message in the folder.
pub proof fn law_what_is_deleted(
    program: Seq<char>,
    word: Seq<char>,
    source: Seq<char>,
    list: Seq<Seq<char>>,
    p: MailPathView,
)
    requires
        is_word(word, "delete"@),
        mailpath::mail_path(source) == Some(p),
        list.len() > 0,
        list[0].len() > 0,
    ensures
        command::command_in(seq![program, word, source]) == Ok::<CommandView, CommandErrorView>(
            CommandView::Delete(p),
        ),
        p.account matches Some(account) ==> (p.folder matches Some(folder) ==> (command::uids_in(
            list,
        ).len() > 0 ==> command::command_in(seq![program, word, source] + list) == Ok::<
            CommandView,
            CommandErrorView,
        >(CommandView::DeleteAll(account, folder, command::uids_in(list))))),
        command::uids_in(list).len() == 0 && (source.len() > 0 ==> source.last() != '/') ==> (
        mailpath::mail_path(source + seq!['/'] + list[0]) matches Some(m) ==> command::command_in(
            seq![program, word, source] + list,
        ) == Ok::<CommandView, CommandErrorView>(CommandView::Delete(m))),
{
    lemma_words();
    let one = seq![program, word, source];
    let all = one + list;
    assert(one[1] == word && one[2] == source);
    assert(all[1] == word && all[2] == source && all[3] == list[0]);
    assert(all.skip(3) =~= list);
    if source.len() > 0 ==> source.last() != '/' {
        let none = Seq::<char>::empty();
        lemma_end_is_taken_off(source, none, seq!['/']);
        assert(source + none =~= source);
    }
}

// ---------------------------------------------------------------------------
// Listing and reporting
// ---------------------------------------------------------------------------

/// A command to list is about the place that its first argument names; the
/// listing goes to the file that the second one names, and the others are
/// options.
pub proof fn law_listing_takes_a_place_and_a_file(
    program: Seq<char>,
    word: Seq<char>,
    place: Seq<char>,
    file: Seq<char>,
    options: Seq<Seq<char>>,
)
    requires
        is_word(word, "list"@),
        file.len() > 0,
    ensures
        command::command_in(seq![program, word, place, file] + options) == Ok::<
            CommandView,
            CommandErrorView,
        >(
            CommandView::List(
                place,
                file,
                cli::list_options(
                    options,
                    (cli::ListOptions { chunk: None, offset: None, limit: None }),
                ),
            ),
        ),
        command::command_in(seq![program, word, place, Seq::empty()] + options) == Err::<
            CommandView,
            CommandErrorView,
        >(CommandErrorView::NoOutput),
{
    lemma_words();
    let args = seq![program, word, place, file] + options;
    assert(args[1] == word && args[2] == place && args[3] == file);
    assert(args.skip(4) =~= options);
    let none = seq![program, word, place, Seq::empty()] + options;
    assert(none[1] == word && none[3] == Seq::<char>::empty());
}

/// A command to report is about the account that its first argument names. A
/// second one that is no option is the folder; else it is the folder that the
/// first one names. The messages go to the trash where `--trash` is among the
/// further arguments, and the limit is the one that is given there.
pub proof fn law_report_is_about_an_account(
    program: Seq<char>,
    word: Seq<char>,
    place: Seq<char>,
    folder: Seq<char>,
    options: Seq<Seq<char>>,
    p: MailPathView,
    account: Seq<char>,
)
    requires
        is_word(word, "report"@),
        mailpath::mail_path(place) == Some(p),
        p.account == Some(account),
        options.len() > 0 ==> cli::option_body(options[0]) is Some,
        folder.len() > 0,
        cli::option_body(folder) is None,
    ensures
        command::command_in(seq![program, word, place] + options) matches Ok(
            CommandView::Report(a, f, trash, limit),
        ) && a == account && f == p.folder && (trash <==> exists|i: int|
            0 <= i < options.len() && cli::is_option(#[trigger] options[i], seq!["trash"@]))
            && limit == cli::list_options(options, cli::no_options()).limit,
        command::command_in(seq![program, word, place, folder] + options) matches Ok(
            CommandView::Report(a, f, trash, limit),
        ) && a == account && f == Some(folder) && (trash <==> exists|i: int|
            0 <= i < options.len() && cli::is_option(#[trigger] options[i], seq!["trash"@])),
{
    lemma_words();
    let one = seq![program, word, place] + options;
    let two = seq![program, word, place, folder] + options;
    assert(one[1] == word && one[2] == place);
    assert(one.skip(3) =~= options);
    if options.len() > 0 {
        assert(one[3] == options[0]);
    }
    assert(two[1] == word && two[2] == place && two[3] == folder);
    let rest = two.skip(3);
    assert(rest =~= seq![folder] + options);
    assert(!cli::is_option(folder, seq!["trash"@]));
    if exists|i: int| 0 <= i < options.len() && cli::is_option(
        #[trigger] options[i],
        seq!["trash"@],
    ) {
        let i = choose|i: int| 0 <= i < options.len() && cli::is_option(
            #[trigger] options[i],
            seq!["trash"@],
        );
        assert(rest[i + 1] == options[i]);
    }
    if command::has_option(rest, "trash"@) {
        let i = choose|i: int| 0 <= i < rest.len() && cli::is_option(
            #[trigger] rest[i],
            seq!["trash"@],
        );
        assert(i > 0);
        assert(options[i - 1] == rest[i]);
    }
}

// ---------------------------------------------------------------------------
// Other words
// ---------------------------------------------------------------------------

/// A command line without a command asks for help, and so do the words for it.
pub proof fn law_help_is_asked_for(args: Seq<Seq<char>>)
    ensures
        args.len() < 2 ==> command::command_in(args) == Ok::<CommandView, CommandErrorView>(
            CommandView::Help,
        ),
        args.len() >= 2 && (is_word(args[1], "help"@) || is_word(args[1], "--help"@) || is_word(
            args[1],
            "-help"@,
        ) || is_word(args[1], "-h"@) || is_word(args[1], "/h"@) || is_word(args[1], "/help"@)
            || is_word(args[1], "/?"@) || is_word(args[1], "-?"@)) ==> command::command_in(args)
            == Ok::<CommandView, CommandErrorView>(CommandView::Help),
{
}

/// Any other word is no command, and the error says which word it was.
pub proof fn law_other_words_are_no_commands(args: Seq<Seq<char>>)
    requires
        args.len() >= 2,
        ({
            let w = unicode::lower(args[1]);
            &&& w != "help"@ && w != "--help"@ && w != "-help"@ && w != "-h"@ && w != "/h"@ && w
                != "/help"@ && w != "/?"@ && w != "-?"@
            &&& w != "read"@ && w != "view"@ && w != "list"@ && w != "get"@ && w != "copy"@ && w
                != "move"@ && w != "delete"@ && w != "makedir"@ && w != "deldir"@ && w != "rename"@
                && w != "report"@
        }),
    ensures
        command::command_in(args) == Err::<CommandView, CommandErrorView>(
            CommandErrorView::Unknown(unicode::lower(args[1])),
        ),
{
}

} // verus!
