//! The commands of the program.

use vstd::prelude::*;
use crate::cli;
use crate::cli::ListOptions;
use crate::mailpath;
use crate::mailpath::MailPath;
use crate::names;
use crate::text::{chars, number, search, trim, unicode};

verus! {

/// What a command line asks for.
#[derive(Debug)]
pub enum Command {
    /// An explanation of the program.
    Help,
    /// The text of a message, and where it goes.
    Read(MailPath, Option<String>),
    /// A listing of a place, the file it goes to, and how much is listed.
    List(String, String, ListOptions),
    /// A message, and where it is saved.
    Get(MailPath, String),
    /// A message, and where it is copied to.
    Copy(MailPath, String),
    /// A message, and where it is moved to.
    Move(MailPath, String),
    /// A message to be deleted.
    Delete(MailPath),
    /// Messages to be deleted: their account, their folder and their numbers.
    DeleteAll(String, String, Vec<u32>),
    /// A folder to be made.
    MakeFolder(String),
    /// A folder to be deleted.
    DeleteFolder(String),
    /// A folder, and its new name.
    Rename(String, String),
    /// A report of the messages that are in an account more than once: the
    /// account, the folder where only one is looked at, whether they go to the
    /// trash, and how many of a folder are looked at.
    Report(String, Option<String>, bool, Option<u32>),
}

/// Why a command line asks for nothing that can be done.
#[derive(Debug)]
pub enum CommandError {
    /// A command lacks arguments.
    Usage(Usage),
    /// A listing lacks the file that it goes to.
    NoOutput,
    /// A path cannot be cut behind its prefix.
    Unreadable,
    /// There is no such command.
    Unknown(String),
}

/// The commands that lack arguments.
#[derive(Debug, Clone, Copy, PartialEq, Eq, Structural)]
pub enum Usage {
    Read,
    Get,
    Copy,
    Move,
    Delete,
    Rename,
    Report,
}

/// The contents of a command.
pub enum CommandView {
    Help,
    Read(mailpath::MailPathView, Option<Seq<char>>),
    List(Seq<char>, Seq<char>, ListOptions),
    Get(mailpath::MailPathView, Seq<char>),
    Copy(mailpath::MailPathView, Seq<char>),
    Move(mailpath::MailPathView, Seq<char>),
    Delete(mailpath::MailPathView),
    DeleteAll(Seq<char>, Seq<char>, Seq<u32>),
    MakeFolder(Seq<char>),
    DeleteFolder(Seq<char>),
    Rename(Seq<char>, Seq<char>),
    Report(Seq<char>, Option<Seq<char>>, bool, Option<u32>),
}

/// The contents of a command's error.
pub enum CommandErrorView {
    Usage(Usage),
    NoOutput,
    Unreadable,
    Unknown(Seq<char>),
}

impl View for Command {
    type V = CommandView;

    open spec fn view(&self) -> CommandView {
        match *self {
            Command::Help => CommandView::Help,
            Command::Read(p, d) => CommandView::Read(p@, chars::opt_text(d)),
            Command::List(t, o, l) => CommandView::List(t@, o@, l),
            Command::Get(p, d) => CommandView::Get(p@, d@),
            Command::Copy(p, d) => CommandView::Copy(p@, d@),
            Command::Move(p, d) => CommandView::Move(p@, d@),
            Command::Delete(p) => CommandView::Delete(p@),
            Command::DeleteAll(a, f, u) => CommandView::DeleteAll(a@, f@, u@),
            Command::MakeFolder(t) => CommandView::MakeFolder(t@),
            Command::DeleteFolder(t) => CommandView::DeleteFolder(t@),
            Command::Rename(a, b) => CommandView::Rename(a@, b@),
            Command::Report(a, f, t, l) => CommandView::Report(a@, chars::opt_text(f), t, l),
        }
    }
}

impl View for CommandError {
    type V = CommandErrorView;

    open spec fn view(&self) -> CommandErrorView {
        match *self {
            CommandError::Usage(u) => CommandErrorView::Usage(u),
            CommandError::NoOutput => CommandErrorView::NoOutput,
            CommandError::Unreadable => CommandErrorView::Unreadable,
            CommandError::Unknown(c) => CommandErrorView::Unknown(c@),
        }
    }
}

/// `r` is the outcome that `v` describes.
pub open spec fn is_outcome(
    r: Result<Command, CommandError>,
    v: Result<CommandView, CommandErrorView>,
) -> bool {
    match r {
        Ok(c) => v == Ok::<CommandView, CommandErrorView>(c@),
        Err(e) => v == Err::<CommandView, CommandErrorView>(e@),
    }
}

// ---------------------------------------------------------------------------
// Paths in arguments
// ---------------------------------------------------------------------------

/// A folder and what is in it, with one slash between them.
pub open spec fn joined(folder: Seq<char>, name: Seq<char>) -> Seq<char> {
    trim::trim_end_set(folder, seq!['/', '\\']) + seq!['/'] + trim::trim_start_set(
        name,
        seq!['/', '\\'],
    )
}

/// A folder and what is in it, with a slash between them.
pub open spec fn appended(folder: Seq<char>, name: Seq<char>) -> Seq<char> {
    trim::trim_end_set(folder, seq!['/']) + seq!['/'] + name
}

/// The argument at a place.
pub open spec fn arg_at(args: Seq<Seq<char>>, i: int) -> Option<Seq<char>> {
    if 0 <= i < args.len() {
        Some(args[i])
    } else {
        None
    }
}

/// The argument at a place; empty where there is none.
pub open spec fn arg_or_empty(args: Seq<Seq<char>>, i: int) -> Seq<char> {
    match arg_at(args, i) {
        Some(a) => a,
        None => seq![],
    }
}

/// `folder` and `name` with one slash between them.
fn join_args(folder: &str, name: &str) -> (r: String)
    ensures
        r@ == joined(folder@, name@),
{
    let slashes: [char; 2] = ['/', '\\'];
    assert(slashes@ =~= seq!['/', '\\']);
    let front = trim::trim_text_end_set(folder, &slashes);
    let back = trim::trim_text_start_set(name, &slashes);
    let mut r = front;
    r.push('/');
    r.append(&back);
    assert(r@ =~= joined(folder@, name@));
    r
}

/// `folder` and `name` with a slash between them.
fn append_arg(folder: &str, name: &str) -> (r: String)
    ensures
        r@ == appended(folder@, name@),
{
    let slash: [char; 1] = ['/'];
    assert(slash@ =~= seq!['/']);
    let mut r = trim::trim_text_end_set(folder, &slash);
    r.push('/');
    r.append(name);
    assert(r@ =~= appended(folder@, name@));
    r
}

/// The argument at the place `i`.
fn get_arg(args: &Vec<String>, i: usize) -> (r: Option<String>)
    ensures
        chars::opt_text(r) == arg_at(chars::texts(args@), i as int),
{
    if i < args.len() {
        assert(chars::texts(args@)[i as int] == args@[i as int]@);
        Some(args[i].clone())
    } else {
        None
    }
}

/// The argument at the place `i`; empty where there is none.
fn get_arg_or_empty(args: &Vec<String>, i: usize) -> (r: String)
    ensures
        r@ == arg_or_empty(chars::texts(args@), i as int),
{
    match get_arg(args, i) {
        Some(a) => a,
        None => {
            let r = String::new();
            assert(r@ =~= seq![]);
            r
        },
    }
}

// ---------------------------------------------------------------------------
// Reading
// ---------------------------------------------------------------------------

/// The argument looks like a message's file name.
pub open spec fn looks_like_message(arg: Seq<char>) -> bool {
    search::starts_with(arg, seq!['[']) || search::ends_with(arg, ".eml"@)
}

/// A message to be read, where its path can be read.
pub open spec fn read_of(path: Option<mailpath::MailPathView>, dest: Option<Seq<char>>) -> Result<
    CommandView,
    CommandErrorView,
> {
    match path {
        Some(p) => Ok(CommandView::Read(p, dest)),
        None => Err(CommandErrorView::Unreadable),
    }
}

/// What a command to read asks for: the path of a message and a destination,
/// or the path of a folder, a message in it, by its number or its file name,
/// and a destination.
pub open spec fn read_command(args: Seq<Seq<char>>) -> Result<CommandView, CommandErrorView> {
    if args.len() < 3 {
        Err(CommandErrorView::Usage(Usage::Read))
    } else if args.len() < 4 {
        read_of(mailpath::mail_path(args[2]), None)
    } else {
        match mailpath::mail_path(args[2]) {
            None => Err(CommandErrorView::Unreadable),
            Some(p) => if p.uid is Some {
                Ok(CommandView::Read(p, Some(args[3])))
            } else {
                match cli::number_arg(trim::trim(args[3])) {
                    Some(uid) => Ok(
                        CommandView::Read(
                            mailpath::MailPathView { uid: Some(uid), ..p },
                            arg_at(args, 4),
                        ),
                    ),
                    None => if looks_like_message(args[3]) {
                        read_of(mailpath::mail_path(joined(args[2], args[3])), arg_at(args, 4))
                    } else {
                        Ok(CommandView::Read(p, Some(args[3])))
                    },
                }
            },
        }
    }
}

/// What a command to read asks for.
pub fn parse_read(args: &Vec<String>) -> (r: Result<Command, CommandError>)
    ensures
        is_outcome(r, read_command(chars::texts(args@))),
{
    let ghost all = chars::texts(args@);
    proof {
        reveal_strlit("[");
        assert("["@ =~= seq!['[']);
    }
    if args.len() < 3 {
        return Err(CommandError::Usage(Usage::Read));
    }
    assert(all[2] == args@[2]@);
    let path = match mailpath::try_parse_mail_path(&args[2]) {
        Some(p) => p,
        None => {
            return Err(CommandError::Unreadable);
        },
    };
    if args.len() < 4 {
        return Ok(Command::Read(path, None));
    }
    assert(all[3] == args@[3]@);
    if path.uid.is_some() {
        return Ok(Command::Read(path, Some(args[3].clone())));
    }
    if let Some(uid) = number::parse_u32(&trim::trim_text(&args[3])) {
        let found = MailPath {
            account: path.account,
            folder: path.folder,
            filename: path.filename,
            uid: Some(uid),
        };
        return Ok(Command::Read(found, get_arg(args, 4)));
    }
    if search::text_starts_with(&args[3], "[") || search::text_ends_with(&args[3], ".eml") {
        let full = join_args(&args[2], &args[3]);
        return match mailpath::try_parse_mail_path(&full) {
            Some(p) => Ok(Command::Read(p, get_arg(args, 4))),
            None => Err(CommandError::Unreadable),
        };
    }
    Ok(Command::Read(path, Some(args[3].clone())))
}

// ---------------------------------------------------------------------------
// Saving, copying and moving
// ---------------------------------------------------------------------------

/// The message and the destination of a command with a source and a
/// destination: the source is one argument, or a folder and a file name.
pub open spec fn source_and_dest(args: Seq<Seq<char>>, usage: Usage) -> Result<
    (mailpath::MailPathView, Seq<char>),
    CommandErrorView,
> {
    if args.len() < 4 {
        Err(CommandErrorView::Usage(usage))
    } else {
        let (source, dest) = if args.len() >= 5 {
            (appended(args[2], args[3]), args[4])
        } else {
            (args[2], args[3])
        };
        match mailpath::mail_path(source) {
            Some(p) => Ok((p, dest)),
            None => Err(CommandErrorView::Unreadable),
        }
    }
}

/// The message and the destination of a command.
fn parse_source_and_dest(args: &Vec<String>, usage: Usage) -> (r: Result<
    (MailPath, String),
    CommandError,
>)
    ensures
        match r {
            Ok((p, d)) => source_and_dest(chars::texts(args@), usage) == Ok::<
                (mailpath::MailPathView, Seq<char>),
                CommandErrorView,
            >((p@, d@)),
            Err(e) => source_and_dest(chars::texts(args@), usage) == Err::<
                (mailpath::MailPathView, Seq<char>),
                CommandErrorView,
            >(e@),
        },
{
    let ghost all = chars::texts(args@);
    if args.len() < 4 {
        return Err(CommandError::Usage(usage));
    }
    assert(all[2] == args@[2]@);
    assert(all[3] == args@[3]@);
    let (source, dest) = if args.len() >= 5 {
        assert(all[4] == args@[4]@);
        (append_arg(&args[2], &args[3]), args[4].clone())
    } else {
        (args[2].clone(), args[3].clone())
    };
    match mailpath::try_parse_mail_path(&source) {
        Some(p) => Ok((p, dest)),
        None => Err(CommandError::Unreadable),
    }
}

// ---------------------------------------------------------------------------
// Deleting
// ---------------------------------------------------------------------------

/// The message numbers in the arguments, of those that have one.
pub open spec fn uids_in(args: Seq<Seq<char>>) -> Seq<u32>
    decreases args.len(),
{
    if args.len() == 0 {
        seq![]
    } else {
        match names::uid_in(args.last()) {
            Some(n) => uids_in(args.drop_last()).push(n as u32),
            None => uids_in(args.drop_last()),
        }
    }
}

/// A message to be deleted, where its path can be read.
pub open spec fn delete_of(path: Option<mailpath::MailPathView>) -> Result<
    CommandView,
    CommandErrorView,
> {
    match path {
        Some(p) => Ok(CommandView::Delete(p)),
        None => Err(CommandErrorView::Unreadable),
    }
}

/// What a command to delete asks for: a message, by its path or by its folder
/// and its file name, or several messages of a folder.
pub open spec fn delete_command(args: Seq<Seq<char>>) -> Result<CommandView, CommandErrorView> {
    if args.len() < 3 {
        Err(CommandErrorView::Usage(Usage::Delete))
    } else if args.len() >= 4 && args[3].len() > 0 {
        match mailpath::mail_path(args[2]) {
            None => Err(CommandErrorView::Unreadable),
            Some(p) => {
                let uids = uids_in(args.skip(3));
                match (p.account, p.folder) {
                    (Some(a), Some(f)) if uids.len() > 0 => Ok(CommandView::DeleteAll(a, f, uids)),
                    _ => delete_of(mailpath::mail_path(appended(args[2], args[3]))),
                }
            },
        }
    } else {
        delete_of(mailpath::mail_path(args[2]))
    }
}

/// The message numbers in `args` from the place `from` on.
fn collect_uids(args: &Vec<String>, from: usize) -> (r: Vec<u32>)
    requires
        from <= args.len(),
    ensures
        r@ == uids_in(chars::texts(args@).skip(from as int)),
{
    let ghost rest = chars::texts(args@).skip(from as int);
    let mut out: Vec<u32> = Vec::new();
    let mut i: usize = from;
    assert(out@ =~= uids_in(rest.take(0)));
    while i < args.len()
        invariant
            from <= i <= args.len(),
            rest == chars::texts(args@).skip(from as int),
            out@ == uids_in(rest.take(i - from)),
        decreases args.len() - i,
    {
        assert(rest.take(i - from + 1).drop_last() =~= rest.take(i - from));
        assert(rest.take(i - from + 1).last() == args@[i as int]@);
        if let Some(uid) = names::extract_uid(&args[i]) {
            out.push(uid);
        }
        i += 1;
    }
    assert(rest.take(rest.len() as int) =~= rest);
    out
}

/// A message to be deleted, where its path can be read.
fn delete_at(path: &str) -> (r: Result<Command, CommandError>)
    ensures
        is_outcome(r, delete_of(mailpath::mail_path(path@))),
{
    match mailpath::try_parse_mail_path(path) {
        Some(p) => Ok(Command::Delete(p)),
        None => Err(CommandError::Unreadable),
    }
}

/// What a command to delete asks for.
pub fn parse_delete(args: &Vec<String>) -> (r: Result<Command, CommandError>)
    ensures
        is_outcome(r, delete_command(chars::texts(args@))),
{
    let ghost all = chars::texts(args@);
    if args.len() < 3 {
        return Err(CommandError::Usage(Usage::Delete));
    }
    assert(all[2] == args@[2]@);
    if args.len() >= 4 {
        assert(all[3] == args@[3]@);
        if args[3].as_str().unicode_len() > 0 {
            let path = match mailpath::try_parse_mail_path(&args[2]) {
                Some(p) => p,
                None => {
                    return Err(CommandError::Unreadable);
                },
            };
            let uids = collect_uids(args, 3);
            if uids.len() > 0 {
                if let (Some(a), Some(f)) = (path.account, path.folder) {
                    return Ok(Command::DeleteAll(a, f, uids));
                }
            }
            let full = append_arg(&args[2], &args[3]);
            return delete_at(&full);
        }
    }
    delete_at(&args[2])
}

// ---------------------------------------------------------------------------
// Reporting
// ---------------------------------------------------------------------------

/// The option of the given name is among the arguments.
pub open spec fn has_option(args: Seq<Seq<char>>, name: Seq<char>) -> bool {
    exists|i: int| 0 <= i < args.len() && cli::is_option(#[trigger] args[i], seq![name])
}

/// The folder that a report is about: the one behind the account, where there
/// is an argument that is no option, else the one in the account's path.
pub open spec fn report_folder(
    args: Seq<Seq<char>>,
    path: mailpath::MailPathView,
) -> Option<Seq<char>> {
    if args.len() > 3 && args[3].len() > 0 && cli::option_body(args[3]) is None {
        Some(args[3])
    } else {
        path.folder
    }
}

/// What a command to report asks for: an account, a folder, and options.
pub open spec fn report_command(args: Seq<Seq<char>>) -> Result<CommandView, CommandErrorView> {
    if args.len() < 3 {
        Err(CommandErrorView::Usage(Usage::Report))
    } else {
        match mailpath::mail_path(args[2]) {
            None => Err(CommandErrorView::Unreadable),
            Some(p) => match p.account {
                None => Err(CommandErrorView::Usage(Usage::Report)),
                Some(account) => Ok(
                    CommandView::Report(
                        account,
                        report_folder(args, p),
                        has_option(args.skip(3), "trash"@),
                        cli::list_options(args.skip(3), cli::no_options()).limit,
                    ),
                ),
            },
        }
    }
}

/// Whether the option `--trash` is among `args` from the place `from` on.
fn wants_trash(args: &Vec<String>, from: usize) -> (b: bool)
    requires
        from <= args.len(),
    ensures
        b == has_option(chars::texts(args@).skip(from as int), "trash"@),
{
    let name: [&str; 1] = ["trash"];
    assert(cli::names_of(name@) =~= seq!["trash"@]);
    let ghost rest = chars::texts(args@).skip(from as int);
    let mut i: usize = from;
    while i < args.len()
        invariant
            from <= i <= args.len(),
            rest == chars::texts(args@).skip(from as int),
            cli::names_of(name@) == seq!["trash"@],
            forall|j: int|
                0 <= j < i - from ==> !cli::is_option(#[trigger] rest[j], seq!["trash"@]),
        decreases args.len() - i,
    {
        assert(rest[i - from] == args@[i as int]@);
        if cli::is_opt(&args[i], &name) {
            return true;
        }
        i += 1;
    }
    false
}

/// What a command to report asks for.
pub fn parse_report(args: &Vec<String>) -> (r: Result<Command, CommandError>)
    ensures
        is_outcome(r, report_command(chars::texts(args@))),
{
    let ghost all = chars::texts(args@);
    if args.len() < 3 {
        return Err(CommandError::Usage(Usage::Report));
    }
    assert(all[2] == args@[2]@);
    let path = match mailpath::try_parse_mail_path(&args[2]) {
        Some(p) => p,
        None => {
            return Err(CommandError::Unreadable);
        },
    };
    let account = match path.account {
        Some(a) => a,
        None => {
            return Err(CommandError::Usage(Usage::Report));
        },
    };
    let mut folder = path.folder;
    if args.len() > 3 {
        assert(all[3] == args@[3]@);
        if args[3].as_str().unicode_len() > 0 && cli::body_of(&args[3]).is_none() {
            folder = Some(args[3].clone());
        }
    }
    let trash = wants_trash(args, 3);
    let options = cli::parse_list_options(args, 3);
    Ok(Command::Report(account, folder, trash, options.limit))
}

// ---------------------------------------------------------------------------
// All commands
// ---------------------------------------------------------------------------

/// The place that a command about a folder names, in one argument or in two.
pub open spec fn folder_argument(args: Seq<Seq<char>>) -> Seq<char> {
    if args.len() >= 4 && args[3].len() > 0 {
        joined(args[2], args[3])
    } else {
        arg_or_empty(args, 2)
    }
}

/// The place that a command about a folder names.
fn parse_folder_argument(args: &Vec<String>) -> (r: String)
    ensures
        r@ == folder_argument(chars::texts(args@)),
{
    let ghost all = chars::texts(args@);
    if args.len() >= 4 {
        assert(all[2] == args@[2]@);
        assert(all[3] == args@[3]@);
        if args[3].as_str().unicode_len() > 0 {
            return join_args(&args[2], &args[3]);
        }
    }
    get_arg_or_empty(args, 2)
}

/// The word asks for an explanation of the program.
pub open spec fn asks_for_help(word: Seq<char>) -> bool {
    word == "help"@ || word == "--help"@ || word == "-help"@ || word == "-h"@ || word == "/h"@
        || word == "/help"@ || word == "/?"@ || word == "-?"@
}

/// Whether `word` asks for an explanation of the program.
fn is_help(word: &str) -> (b: bool)
    ensures
        b == asks_for_help(word@),
{
    chars::same_text(word, "help") || chars::same_text(word, "--help") || chars::same_text(
        word,
        "-help",
    ) || chars::same_text(word, "-h") || chars::same_text(word, "/h") || chars::same_text(
        word,
        "/help",
    ) || chars::same_text(word, "/?") || chars::same_text(word, "-?")
}

/// What a command line asks for whose second argument is, in lower case,
/// `word`.
pub open spec fn command_for(word: Seq<char>, args: Seq<Seq<char>>) -> Result<
    CommandView,
    CommandErrorView,
> {
    if asks_for_help(word) {
        Ok(CommandView::Help)
    } else if word == "read"@ || word == "view"@ {
        read_command(args)
    } else if word == "list"@ {
        if arg_or_empty(args, 3).len() == 0 {
            Err(CommandErrorView::NoOutput)
        } else {
            Ok(
                CommandView::List(
                    arg_or_empty(args, 2),
                    arg_or_empty(args, 3),
                    cli::list_options(args.skip(4), cli::no_options()),
                ),
            )
        }
    } else if word == "get"@ {
        match source_and_dest(args, Usage::Get) {
            Ok((p, d)) => Ok(CommandView::Get(p, d)),
            Err(e) => Err(e),
        }
    } else if word == "copy"@ {
        match source_and_dest(args, Usage::Copy) {
            Ok((p, d)) => Ok(CommandView::Copy(p, d)),
            Err(e) => Err(e),
        }
    } else if word == "move"@ {
        match source_and_dest(args, Usage::Move) {
            Ok((p, d)) => Ok(CommandView::Move(p, d)),
            Err(e) => Err(e),
        }
    } else if word == "delete"@ {
        delete_command(args)
    } else if word == "makedir"@ {
        Ok(CommandView::MakeFolder(folder_argument(args)))
    } else if word == "deldir"@ {
        Ok(CommandView::DeleteFolder(folder_argument(args)))
    } else if word == "rename"@ {
        if args.len() < 4 {
            Err(CommandErrorView::Usage(Usage::Rename))
        } else {
            Ok(CommandView::Rename(args[2], args[3]))
        }
    } else if word == "report"@ {
        report_command(args)
    } else {
        Err(CommandErrorView::Unknown(word))
    }
}

/// What the command line `args` asks for, whose second argument is, in lower
/// case, `word`.
pub fn parse_command_named(word: &str, args: &Vec<String>) -> (r: Result<Command, CommandError>)
    ensures
        is_outcome(r, command_for(word@, chars::texts(args@))),
{
    let ghost all = chars::texts(args@);
    if is_help(word) {
        Ok(Command::Help)
    } else if chars::same_text(word, "read") || chars::same_text(word, "view") {
        parse_read(args)
    } else if chars::same_text(word, "list") {
        let output = get_arg_or_empty(args, 3);
        if output.as_str().unicode_len() == 0 {
            Err(CommandError::NoOutput)
        } else {
            let options = cli::parse_list_options(args, 4);
            assert(args.len() >= 4);
            Ok(Command::List(get_arg_or_empty(args, 2), output, options))
        }
    } else if chars::same_text(word, "get") {
        match parse_source_and_dest(args, Usage::Get) {
            Ok((p, d)) => Ok(Command::Get(p, d)),
            Err(e) => Err(e),
        }
    } else if chars::same_text(word, "copy") {
        match parse_source_and_dest(args, Usage::Copy) {
            Ok((p, d)) => Ok(Command::Copy(p, d)),
            Err(e) => Err(e),
        }
    } else if chars::same_text(word, "move") {
        match parse_source_and_dest(args, Usage::Move) {
            Ok((p, d)) => Ok(Command::Move(p, d)),
            Err(e) => Err(e),
        }
    } else if chars::same_text(word, "delete") {
        parse_delete(args)
    } else if chars::same_text(word, "makedir") {
        Ok(Command::MakeFolder(parse_folder_argument(args)))
    } else if chars::same_text(word, "deldir") {
        Ok(Command::DeleteFolder(parse_folder_argument(args)))
    } else if chars::same_text(word, "rename") {
        if args.len() < 4 {
            Err(CommandError::Usage(Usage::Rename))
        } else {
            assert(all[2] == args@[2]@);
            assert(all[3] == args@[3]@);
            Ok(Command::Rename(args[2].clone(), args[3].clone()))
        }
    } else if chars::same_text(word, "report") {
        parse_report(args)
    } else {
        Err(CommandError::Unknown(word.to_owned()))
    }
}

/// What a command line asks for: an explanation where it names no command.
pub open spec fn command_in(args: Seq<Seq<char>>) -> Result<CommandView, CommandErrorView> {
    if args.len() < 2 {
        Ok(CommandView::Help)
    } else {
        command_for(unicode::lower(args[1]), args)
    }
}

/// What the command line `args` asks for.
pub fn parse_command(args: &Vec<String>) -> (r: Result<Command, CommandError>)
    ensures
        is_outcome(r, command_in(chars::texts(args@))),
{
    if args.len() < 2 {
        return Ok(Command::Help);
    }
    assert(chars::texts(args@)[1] == args@[1]@);
    let word = unicode::lower_text(&args[1]);
    parse_command_named(&word, args)
}

} // verus!
