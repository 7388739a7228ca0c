//! Creating, deleting and renaming folders, and moving messages between them.

use vstd::prelude::*;
use crate::mailpath;
use crate::mailpath::MailPath;
use crate::text::{chars, number, search, trim, unicode};

verus! {

/// Why a path does not say what a command needs to know.
#[derive(Debug, Clone, Copy, PartialEq, Eq, Structural)]
pub enum PathError {
    /// It names no account.
    NoAccount,
    /// It names no folder.
    NoFolder,
    /// It names no message.
    NoUid,
    /// The destination names no folder.
    NoDestination,
    /// It cannot be cut behind its prefix.
    Unreadable,
}

// ---------------------------------------------------------------------------
// Sources
// ---------------------------------------------------------------------------

/// The account that `path` names.
pub fn source_account(path: &MailPath) -> (r: Result<String, PathError>)
    ensures
        match r {
            Ok(a) => path@.account == Some(a@),
            Err(e) => e is NoAccount && path@.account is None,
        },
{
    match &path.account {
        Some(a) => Ok(a.clone()),
        None => Err(PathError::NoAccount),
    }
}

/// The folder that `path` names.
pub fn source_folder(path: &MailPath) -> (r: Result<String, PathError>)
    ensures
        match r {
            Ok(f) => path@.folder == Some(f@),
            Err(e) => e is NoFolder && path@.folder is None,
        },
{
    match &path.folder {
        Some(f) => Ok(f.clone()),
        None => Err(PathError::NoFolder),
    }
}

/// The folder and the message number that `path` names.
pub fn source_message(path: &MailPath) -> (r: Result<(String, u32), PathError>)
    ensures
        match r {
            Ok((f, uid)) => path@.folder == Some(f@) && path@.uid == Some(uid),
            Err(PathError::NoFolder) => path@.folder is None,
            Err(PathError::NoUid) => path@.folder is Some && path@.uid is None,
            Err(_) => false,
        },
{
    match &path.folder {
        Some(f) => match path.uid {
            Some(uid) => Ok((f.clone(), uid)),
            None => Err(PathError::NoUid),
        },
        None => Err(PathError::NoFolder),
    }
}

/// The name under which the message of `path` is saved.
pub fn save_name(path: &MailPath) -> (r: String)
    ensures
        r@ == match path@.filename {
            Some(n) => n,
            None => "mail.eml"@,
        },
{
    match &path.filename {
        Some(n) => n.clone(),
        None => "mail.eml".to_owned(),
    }
}

/// The name under which the text of the message `uid` is saved.
pub fn text_name(uid: u32) -> (r: String)
    ensures
        r@ == "mail_"@ + number::decimal(uid as nat) + ".txt"@,
{
    let digits = number::decimal_text(uid as u64);
    chars::concat3("mail_", &digits, ".txt")
}

/// Whether `dest` is written as a directory: with a slash or a backslash at
/// its end.
pub fn is_written_as_directory(dest: &str) -> (b: bool)
    ensures
        b == (dest@.len() > 0 && (dest@.last() == '\\' || dest@.last() == '/')),
{
    let n: usize = dest.unicode_len();
    if n == 0 {
        return false;
    }
    let c: char = dest.get_char(n - 1);
    c == '\\' || c == '/'
}

// ---------------------------------------------------------------------------
// Copying and moving
// ---------------------------------------------------------------------------

/// How a message is copied.
#[derive(Debug)]
pub enum CopyPlan {
    /// It is saved on the local disk.
    Save,
    /// It is copied to this folder of the same account.
    Within(String),
    /// It is appended to a folder of another account: the account's name, and
    /// the folder's.
    Across(String, String),
}

/// `r` is how the message at `source` is copied to what `dest` names.
pub open spec fn is_copy_plan(
    r: Result<CopyPlan, PathError>,
    source: mailpath::MailPathView,
    dest: Seq<char>,
) -> bool {
    if source.folder is None {
        r matches Err(PathError::NoFolder)
    } else if source.uid is None {
        r matches Err(PathError::NoUid)
    } else if mailpath::is_local(trim::trim(dest), unicode::lower(trim::trim(dest))) {
        r matches Ok(CopyPlan::Save)
    } else {
        match mailpath::mail_path(dest) {
            None => r matches Err(PathError::Unreadable),
            Some(target) => match (target.folder, source.account) {
                (None, _) => r matches Err(PathError::NoDestination),
                (Some(folder), Some(own)) => {
                    let account = match target.account {
                        Some(a) => a,
                        None => own,
                    };
                    if chars::same_ignoring_case(own, account) {
                        r matches Ok(CopyPlan::Within(f)) && f@ == folder
                    } else {
                        r matches Ok(CopyPlan::Across(a, f)) && a@ == account && f@ == folder
                    }
                },
                (Some(_), None) => r matches Err(PathError::NoAccount),
            },
        }
    }
}

/// How the message at `source` is copied to what `dest` names.
pub fn plan_copy(source: &MailPath, dest: &str) -> (r: Result<CopyPlan, PathError>)
    ensures
        is_copy_plan(r, source@, dest@),
{
    if source.folder.is_none() {
        return Err(PathError::NoFolder);
    }
    if source.uid.is_none() {
        return Err(PathError::NoUid);
    }
    if mailpath::is_local_path(dest) {
        return Ok(CopyPlan::Save);
    }
    match mailpath::try_parse_mail_path(dest) {
        None => Err(PathError::Unreadable),
        Some(target) => match (target.folder, &source.account) {
            (None, _) => Err(PathError::NoDestination),
            (Some(folder), Some(own)) => {
                let account = match target.account {
                    Some(a) => a,
                    None => own.clone(),
                };
                if chars::eq_ignore_case(own, &account) {
                    Ok(CopyPlan::Within(folder))
                } else {
                    Ok(CopyPlan::Across(account, folder))
                }
            },
            (Some(_), None) => Err(PathError::NoAccount),
        },
    }
}

/// How a message is taken from where it was, once it has been copied.
#[derive(Debug, Clone, Copy, PartialEq, Eq, Structural)]
pub enum Removal {
    /// It goes to the trash.
    ToTrash,
    /// It is removed at once.
    Expunge,
}

/// How a message that was moved is taken from where it was: at once where it
/// went to another folder, and to the trash where it was saved.
pub open spec fn removal(dest: Seq<char>) -> Removal {
    if mailpath::is_local(trim::trim(dest), unicode::lower(trim::trim(dest))) {
        Removal::ToTrash
    } else {
        Removal::Expunge
    }
}

/// How a message that was moved to `dest` is taken from where it was.
pub fn removal_after_move(dest: &str) -> (r: Removal)
    ensures
        r == removal(dest@),
{
    if mailpath::is_local_path(dest) {
        Removal::ToTrash
    } else {
        Removal::Expunge
    }
}

/// A message that was saved on the local disk goes to the trash afterwards; it
/// is removed at once only where a copy stands on the server.
pub proof fn law_moved_message_stays_on_the_server(
    r: Result<CopyPlan, PathError>,
    source: mailpath::MailPathView,
    dest: Seq<char>,
)
    requires
        is_copy_plan(r, source, dest),
        r is Ok,
    ensures
        r matches Ok(CopyPlan::Save) <==> removal(dest) is ToTrash,
{
}

/// What a move is about to do.
#[derive(Debug, Clone, Copy, PartialEq, Eq, Structural)]
pub enum MoveStep {
    /// Copy the message to its destination.
    Copy,
    /// Take the message from where it was.
    Remove(Removal),
    /// Nothing: the message was moved.
    Done,
    /// Nothing: the message could not be copied, or not be removed.
    Failed,
}

/// The step of a move after one that succeeded, or failed.
pub open spec fn next_move(step: MoveStep, succeeded: bool, dest: Seq<char>) -> MoveStep {
    match step {
        MoveStep::Copy => if succeeded {
            MoveStep::Remove(removal(dest))
        } else {
            MoveStep::Failed
        },
        MoveStep::Remove(_) => if succeeded {
            MoveStep::Done
        } else {
            MoveStep::Failed
        },
        other => other,
    }
}

/// What a move begins with.
pub fn begin_move() -> (r: MoveStep)
    ensures
        r == MoveStep::Copy,
{
    MoveStep::Copy
}

/// The step of a move to `dest` after `step`, which succeeded or failed.
pub fn continue_move(step: MoveStep, succeeded: bool, dest: &str) -> (r: MoveStep)
    ensures
        r == next_move(step, succeeded, dest@),
{
    match step {
        MoveStep::Copy => if succeeded {
            MoveStep::Remove(removal_after_move(dest))
        } else {
            MoveStep::Failed
        },
        MoveStep::Remove(_) => if succeeded {
            MoveStep::Done
        } else {
            MoveStep::Failed
        },
        MoveStep::Done => MoveStep::Done,
        MoveStep::Failed => MoveStep::Failed,
    }
}

/// The step of a move after the given outcomes, from the given step on.
pub open spec fn run_move(step: MoveStep, outcomes: Seq<bool>, dest: Seq<char>) -> MoveStep
    decreases outcomes.len(),
{
    if outcomes.len() == 0 {
        step
    } else {
        run_move(next_move(step, outcomes[0], dest), outcomes.drop_first(), dest)
    }
}

/// A message is taken from where it was only once it has been copied, and a
/// move is done only once both have succeeded.
pub proof fn law_message_is_copied_before_it_is_removed(outcomes: Seq<bool>, dest: Seq<char>)
    ensures
        run_move(MoveStep::Copy, outcomes, dest) is Remove ==> outcomes.len() == 1 && outcomes[0],
        run_move(MoveStep::Copy, outcomes, dest) is Done <==> outcomes.len() >= 2 && outcomes[0]
            && outcomes[1],
{
    reveal_with_fuel(run_move, 3);
    if outcomes.len() > 0 {
        let rest = outcomes.drop_first();
        let second = next_move(MoveStep::Copy, outcomes[0], dest);
        if outcomes[0] && rest.len() > 0 {
            lemma_move_is_over(next_move(second, rest[0], dest), rest.drop_first(), dest);
        } else if !outcomes[0] {
            lemma_move_is_over(second, rest, dest);
        }
    }
}

/// A move that is over stays as it is.
proof fn lemma_move_is_over(step: MoveStep, outcomes: Seq<bool>, dest: Seq<char>)
    requires
        step is Done || step is Failed,
    ensures
        run_move(step, outcomes, dest) == step,
    decreases outcomes.len(),
{
    if outcomes.len() > 0 {
        lemma_move_is_over(step, outcomes.drop_first(), dest);
    }
}

// ---------------------------------------------------------------------------
// Names on other servers
// ---------------------------------------------------------------------------

/// The name of the folder below the inbox, with a dot for the slash: `None`
/// where the name cannot be cut behind its sixth byte.
pub open spec fn dotted(folder: Seq<char>) -> Option<Seq<char>> {
    match mailpath::cut_at(folder, 6) {
        Some(rest) => Some("INBOX."@ + rest),
        None => None,
    }
}

/// The names to try where the server does not take a folder's name as it is:
/// a name below the inbox with a dot for the slash, and any other name below
/// the inbox, with a dot and with a slash. `upper` is the name in upper case.
pub open spec fn other_names(folder: Seq<char>, upper: Seq<char>) -> Option<Seq<Seq<char>>> {
    if search::starts_with(upper, "INBOX/"@) {
        match dotted(folder) {
            Some(name) => Some(seq![name]),
            None => None,
        }
    } else if search::starts_with(upper, "INBOX."@) {
        Some(seq![])
    } else {
        Some(seq!["INBOX."@ + folder, "INBOX/"@ + folder])
    }
}

/// The texts of an optional list.
pub open spec fn opt_texts(o: Option<Vec<String>>) -> Option<Seq<Seq<char>>> {
    match o {
        Some(v) => Some(chars::texts(v@)),
        None => None,
    }
}

/// The name of the folder below the inbox, with a dot for the slash.
fn with_dot(folder: &str) -> (r: Option<String>)
    ensures
        chars::opt_text(r) == dotted(folder@),
{
    match mailpath::cut_text(folder, 6) {
        Some(rest) => Some(chars::concat2("INBOX.", &rest)),
        None => None,
    }
}

/// The names to try where the server does not take `folder` as it is. `upper`
/// is the name in upper case.
pub fn fallback_names(folder: &str, upper: &str) -> (r: Option<Vec<String>>)
    ensures
        opt_texts(r) == other_names(folder@, upper@),
{
    let mut out: Vec<String> = Vec::new();
    if search::text_starts_with(upper, "INBOX/") {
        match with_dot(folder) {
            Some(name) => {
                out.push(name);
                assert(chars::texts(out@) =~= seq![name@]);
                Some(out)
            },
            None => None,
        }
    } else if search::text_starts_with(upper, "INBOX.") {
        assert(chars::texts(out@) =~= seq![]);
        Some(out)
    } else {
        out.push(chars::concat2("INBOX.", folder));
        out.push(chars::concat2("INBOX/", folder));
        assert(chars::texts(out@) =~= seq!["INBOX."@ + folder@, "INBOX/"@ + folder@]);
        Some(out)
    }
}

/// The names to try where the server does not take `folder` as it is.
pub fn folder_fallbacks(folder: &str) -> (r: Option<Vec<String>>)
    ensures
        opt_texts(r) == other_names(folder@, unicode::upper(folder@)),
{
    let upper = unicode::upper_text(folder);
    fallback_names(folder, &upper)
}

/// Every other name that is tried lies below the inbox.
pub proof fn law_other_names_lie_below_the_inbox(folder: Seq<char>, upper: Seq<char>, i: int)
    requires
        other_names(folder, upper) matches Some(names) && 0 <= i < names.len(),
    ensures
        search::starts_with(other_names(folder, upper)->0[i], "INBOX."@) || search::starts_with(
            other_names(folder, upper)->0[i],
            "INBOX/"@,
        ),
{
    let name = other_names(folder, upper)->0[i];
    reveal_strlit("INBOX.");
    reveal_strlit("INBOX/");
    assert(name.take(6) =~= "INBOX."@ || name.take(6) =~= "INBOX/"@);
}

// ---------------------------------------------------------------------------
// Renaming
// ---------------------------------------------------------------------------

/// A folder's new name.
#[derive(Debug)]
pub struct RenamePlan {
    pub account: String,
    pub from: String,
    pub to: String,
}

/// Why a folder is not renamed.
#[derive(Debug)]
pub enum RenameError {
    /// Messages keep their names.
    IsMessage,
    /// The path does not name a folder of an account.
    Path(PathError),
    /// This folder keeps its name.
    SystemFolder(String),
    /// The new name is empty.
    EmptyName,
}

/// The upper-case name belongs to a folder that every account has.
pub open spec fn is_system_folder(upper: Seq<char>) -> bool {
    upper == "INBOX"@ || upper == "TRASH"@ || upper == "SENT"@ || upper == "DRAFTS"@ || upper
        == "JUNK"@ || upper == "SPAM"@
}

/// Whether the upper-case name `upper` belongs to a folder that every account
/// has.
pub fn is_system_name(upper: &str) -> (b: bool)
    ensures
        b == is_system_folder(upper@),
{
    chars::same_text(upper, "INBOX") || chars::same_text(upper, "TRASH") || chars::same_text(
        upper,
        "SENT",
    ) || chars::same_text(upper, "DRAFTS") || chars::same_text(upper, "JUNK") || chars::same_text(
        upper,
        "SPAM",
    )
}

/// The last position of the character `c` in `s`.
pub open spec fn last_index_of(s: Seq<char>, c: char) -> Option<int>
    decreases s.len(),
{
    if s.len() == 0 {
        None
    } else if s.last() == c {
        Some(s.len() - 1)
    } else {
        last_index_of(s.drop_last(), c)
    }
}

/// The last position of `c` in `s`.
fn last_position(s: &[char], c: char) -> (r: Option<usize>)
    ensures
        match r {
            Some(k) => last_index_of(s@, c) == Some(k as int) && k < s.len(),
            None => last_index_of(s@, c) is None,
        },
{
    let mut n: usize = s.len();
    assert(s@.take(n as int) =~= s@);
    while n > 0
        invariant
            n <= s.len(),
            last_index_of(s@, c) == last_index_of(s@.take(n as int), c),
        decreases n,
    {
        assert(s@.take(n as int).last() == s@[n - 1]);
        assert(s@.take(n as int).drop_last() =~= s@.take(n - 1));
        if s[n - 1] == c {
            return Some(n - 1);
        }
        n -= 1;
    }
    None
}

/// A bare name as it is typed, without the white space, the quotes and the
/// slashes around it.
pub open spec fn bare_name(dest: Seq<char>) -> Seq<char> {
    trim::trim_set(
        trim::trim_set(trim::trim_set(trim::trim(dest), seq!['"']), seq!['\'']),
        seq!['/', '\\'],
    )
}

/// The folder beside `folder` with the given bare name.
pub open spec fn beside(folder: Seq<char>, name: Seq<char>) -> Seq<char> {
    match last_index_of(folder, '/') {
        Some(k) => folder.take(k) + seq!['/'] + name,
        None => match last_index_of(folder, '.') {
            Some(k) => folder.take(k) + seq!['.'] + name,
            None => name,
        },
    }
}

/// The new name of a folder: what the destination names, or, where that names
/// no folder, a bare name beside the folder.
pub open spec fn new_name(
    folder: Seq<char>,
    dest: Seq<char>,
    target: mailpath::MailPathView,
) -> Option<Seq<char>> {
    match target.folder {
        Some(f) => Some(f),
        None => if bare_name(dest).len() == 0 {
            None
        } else {
            Some(beside(folder, bare_name(dest)))
        },
    }
}

/// `r` is what renaming the folder at `source` to `dest` comes to; nothing
/// where the name would stay the same.
pub open spec fn is_rename_plan(
    r: Result<Option<RenamePlan>, RenameError>,
    source: Seq<char>,
    dest: Seq<char>,
) -> bool {
    match mailpath::mail_path(source) {
        None => r matches Err(RenameError::Path(PathError::Unreadable)),
        Some(src) => if src.filename is Some || src.uid is Some {
            r matches Err(RenameError::IsMessage)
        } else {
            match (src.account, src.folder) {
                (None, _) => r matches Err(RenameError::Path(PathError::NoAccount)),
                (Some(_), None) => r matches Err(RenameError::Path(PathError::NoFolder)),
                (Some(account), Some(folder)) => if is_system_folder(unicode::upper(folder)) {
                    r matches Err(RenameError::SystemFolder(f)) && f@ == folder
                } else {
                    match mailpath::mail_path(dest) {
                        None => r matches Err(RenameError::Path(PathError::Unreadable)),
                        Some(target) => match new_name(folder, dest, target) {
                            None => r matches Err(RenameError::EmptyName),
                            Some(to) => if to.len() == 0 || chars::same_ignoring_case(folder, to) {
                                r matches Ok(None)
                            } else {
                                r matches Ok(Some(p)) && p.account@ == account && p.from@ == folder
                                    && p.to@ == to
                            },
                        },
                    }
                },
            }
        },
    }
}

/// The bare name that `dest` is.
fn strip_to_name(dest: &str) -> (r: String)
    ensures
        r@ == bare_name(dest@),
{
    let double: [char; 1] = ['"'];
    let single: [char; 1] = ['\''];
    let slashes: [char; 2] = ['/', '\\'];
    assert(double@ =~= seq!['"']);
    assert(single@ =~= seq!['\'']);
    assert(slashes@ =~= seq!['/', '\\']);
    let a = trim::trim_text(dest);
    let b = trim::trim_text_set(&a, &double);
    let c = trim::trim_text_set(&b, &single);
    trim::trim_text_set(&c, &slashes)
}

/// The folder beside `folder` with the bare name `name`.
pub fn name_beside(folder: &str, name: &str) -> (r: String)
    ensures
        r@ == beside(folder@, name@),
{
    let v = chars::chars_of(folder);
    if let Some(k) = last_position(&v, '/') {
        let part: &[char] = &v[0..k];
        assert(part@ =~= folder@.take(k as int));
        let mut r = chars::text_of(part);
        r.push('/');
        r.append(name);
        assert(r@ =~= beside(folder@, name@));
        return r;
    }
    if let Some(k) = last_position(&v, '.') {
        let part: &[char] = &v[0..k];
        assert(part@ =~= folder@.take(k as int));
        let mut r = chars::text_of(part);
        r.push('.');
        r.append(name);
        assert(r@ =~= beside(folder@, name@));
        return r;
    }
    name.to_owned()
}

/// What renaming the folder at `source` to `dest` comes to.
pub fn plan_rename(source: &str, dest: &str) -> (r: Result<Option<RenamePlan>, RenameError>)
    ensures
        is_rename_plan(r, source@, dest@),
{
    let src = match mailpath::try_parse_mail_path(source) {
        Some(p) => p,
        None => {
            return Err(RenameError::Path(PathError::Unreadable));
        },
    };
    if src.filename.is_some() || src.uid.is_some() {
        return Err(RenameError::IsMessage);
    }
    let account = match src.account {
        Some(a) => a,
        None => {
            return Err(RenameError::Path(PathError::NoAccount));
        },
    };
    let folder = match src.folder {
        Some(f) => f,
        None => {
            return Err(RenameError::Path(PathError::NoFolder));
        },
    };
    let upper = unicode::upper_text(&folder);
    if is_system_name(&upper) {
        return Err(RenameError::SystemFolder(folder));
    }
    let target = match mailpath::try_parse_mail_path(dest) {
        Some(p) => p,
        None => {
            return Err(RenameError::Path(PathError::Unreadable));
        },
    };
    let to = match target.folder {
        Some(f) => f,
        None => {
            let name = strip_to_name(dest);
            if name.as_str().unicode_len() == 0 {
                return Err(RenameError::EmptyName);
            }
            name_beside(&folder, &name)
        },
    };
    if to.as_str().unicode_len() == 0 || chars::eq_ignore_case(&folder, &to) {
        return Ok(None);
    }
    Ok(Some(RenamePlan { account, from: folder, to }))
}

/// The names to try where the server does not rename a folder as it is asked
/// to. `from_upper` and `to_upper` are the names in upper case.
pub open spec fn other_renamings(
    from: Seq<char>,
    to: Seq<char>,
    from_upper: Seq<char>,
    to_upper: Seq<char>,
) -> Option<Seq<(Seq<char>, Seq<char>)>> {
    if search::starts_with(from_upper, "INBOX/"@) {
        let target = if search::starts_with(to_upper, "INBOX/"@) {
            dotted(to)
        } else {
            Some("INBOX."@ + to)
        };
        match (dotted(from), target) {
            (Some(a), Some(b)) => Some(seq![(a, b)]),
            _ => None,
        }
    } else if search::starts_with(from_upper, "INBOX."@) {
        Some(seq![])
    } else {
        Some(seq![("INBOX."@ + from, "INBOX."@ + to), ("INBOX/"@ + from, "INBOX/"@ + to)])
    }
}

/// The texts of a list of pairs.
pub open spec fn pair_texts(v: Seq<(String, String)>) -> Seq<(Seq<char>, Seq<char>)> {
    Seq::new(v.len(), |i: int| (v[i].0@, v[i].1@))
}

/// The texts of an optional list of pairs.
pub open spec fn opt_pairs(o: Option<Vec<(String, String)>>) -> Option<
    Seq<(Seq<char>, Seq<char>)>,
> {
    match o {
        Some(v) => Some(pair_texts(v@)),
        None => None,
    }
}

/// The names to try where the server does not rename `from` to `to` as it is
/// asked to. `from_upper` and `to_upper` are the names in upper case.
pub fn fallback_renamings(from: &str, to: &str, from_upper: &str, to_upper: &str) -> (r: Option<
    Vec<(String, String)>,
>)
    ensures
        opt_pairs(r) == other_renamings(from@, to@, from_upper@, to_upper@),
{
    let mut out: Vec<(String, String)> = Vec::new();
    if search::text_starts_with(from_upper, "INBOX/") {
        let source = with_dot(from);
        let target = if search::text_starts_with(to_upper, "INBOX/") {
            with_dot(to)
        } else {
            Some(chars::concat2("INBOX.", to))
        };
        match (source, target) {
            (Some(a), Some(b)) => {
                out.push((a, b));
                assert(pair_texts(out@) =~= seq![(a@, b@)]);
                Some(out)
            },
            _ => None,
        }
    } else if search::text_starts_with(from_upper, "INBOX.") {
        assert(pair_texts(out@) =~= seq![]);
        Some(out)
    } else {
        out.push((chars::concat2("INBOX.", from), chars::concat2("INBOX.", to)));
        out.push((chars::concat2("INBOX/", from), chars::concat2("INBOX/", to)));
        assert(pair_texts(out@) =~= seq![
            ("INBOX."@ + from@, "INBOX."@ + to@),
            ("INBOX/"@ + from@, "INBOX/"@ + to@),
        ]);
        Some(out)
    }
}

/// The names to try where the server does not rename `from` to `to` as it is
/// asked to.
pub fn rename_fallbacks(from: &str, to: &str) -> (r: Option<Vec<(String, String)>>)
    ensures
        opt_pairs(r) == other_renamings(
            from@,
            to@,
            unicode::upper(from@),
            unicode::upper(to@),
        ),
{
    let from_upper = unicode::upper_text(from);
    let to_upper = unicode::upper_text(to);
    fallback_renamings(from, to, &from_upper, &to_upper)
}

/// Neither a message nor a folder that every account has is ever renamed, and
/// a folder's new name differs from its old one in more than the case of its
/// letters.
pub proof fn law_only_other_folders_are_renamed(
    r: Result<Option<RenamePlan>, RenameError>,
    source: Seq<char>,
    dest: Seq<char>,
)
    requires
        is_rename_plan(r, source, dest),
    ensures
        r matches Ok(Some(p)) ==> {
            &&& mailpath::mail_path(source) matches Some(src) && src.filename is None && src.uid
                is None
            &&& !is_system_folder(unicode::upper(p.from@))
            &&& p.to@.len() > 0
            &&& !chars::same_ignoring_case(p.from@, p.to@)
        },
{
}

} // verus!
