//! What holds of folders and of the messages in them.

use vstd::prelude::*;
use vstd::utf8::*;
use crate::folders;
use crate::folders::{CopyPlan, MoveStep, PathError, Removal, RenameError, RenamePlan};
use crate::mailpath;
use crate::mailpath::MailPathView;
use crate::text::{chars, search, trim, unicode};

verus! {

// ---------------------------------------------------------------------------
// Renaming
// ---------------------------------------------------------------------------

/// The last position of a character is where nothing of the kind follows.
proof fn lemma_last_index(front: Seq<char>, c: char, behind: Seq<char>)
    requires
        !behind.contains(c),
    ensures
        folders::last_index_of(front + seq![c] + behind, c) == Some(front.len() as int),
    decreases behind.len(),
{
    let s = front + seq![c] + behind;
    if behind.len() > 0 {
        let less = behind.drop_last();
        assert(behind.contains(behind.last()));
        assert(s.last() == behind.last());
        assert(s.drop_last() =~= front + seq![c] + less);
        assert forall|i: int| 0 <= i < less.len() implies less[i] != c by {
            assert(behind.contains(behind[i]));
        }
        lemma_last_index(front, c, less);
    } else {
        assert(s.last() == c);
    }
}

/// A character that does not stand in a text has no position there.
proof fn lemma_no_last_index(s: Seq<char>, c: char)
    requires
        !s.contains(c),
    ensures
        folders::last_index_of(s, c) is None,
    decreases s.len(),
{
    if s.len() > 0 {
        assert(s.contains(s.last()));
        assert forall|i: int| 0 <= i < s.drop_last().len() implies s.drop_last()[i] != c by {
            assert(s.contains(s[i]));
        }
        lemma_no_last_index(s.drop_last(), c);
    }
}

/// A folder with a new name stays in its parent, which is everything before
/// the last slash, or, where the name has no slash, before the last dot. A
/// folder without a parent has none afterwards.
pub proof fn law_renamed_folder_keeps_its_parent(
    parent: Seq<char>,
    own: Seq<char>,
    name: Seq<char>,
)
    ensures
        !own.contains('/') ==> folders::beside(parent + seq!['/'] + own, name) == parent + seq!['/']
            + name,
        !parent.contains('/') && !own.contains('/') && !own.contains('.') ==> folders::beside(
            parent + seq!['.'] + own,
            name,
        ) == parent + seq!['.'] + name,
        !own.contains('/') && !own.contains('.') ==> folders::beside(own, name) == name,
{
    let slashed = parent + seq!['/'] + own;
    let dotted = parent + seq!['.'] + own;
    if !own.contains('/') {
        lemma_last_index(parent, '/', own);
        assert(slashed.take(parent.len() as int) =~= parent);
        if !own.contains('.') {
            lemma_no_last_index(own, '/');
            lemma_no_last_index(own, '.');
            if !parent.contains('/') {
                assert forall|i: int| 0 <= i < dotted.len() implies dotted[i] != '/' by {
                    if i < parent.len() {
                        assert(parent.contains(parent[i]));
                    } else if i > parent.len() {
                        assert(own.contains(own[i - parent.len() - 1]));
                    }
                }
                lemma_no_last_index(dotted, '/');
                lemma_last_index(parent, '.', own);
                assert(dotted.take(parent.len() as int) =~= parent);
            }
        }
    }
}

/// `c` stands around bare names and does not belong to them.
pub open spec fn is_wrapping(c: char) -> bool {
    chars::white_space(c) || c == '"' || c == '\'' || c == '/' || c == '\\'
}

/// A name that is typed without anything around it is taken as it is.
proof fn lemma_bare_name(name: Seq<char>)
    requires
        name.len() > 0,
        !is_wrapping(name[0]),
        !is_wrapping(name.last()),
    ensures
        folders::bare_name(name) == name,
{
    trim::lemma_trim_is_same(name);
    assert(!seq!['"'].contains(name[0]) && !seq!['"'].contains(name.last()));
    assert(!seq!['\''].contains(name[0]) && !seq!['\''].contains(name.last()));
    assert(!seq!['/', '\\'].contains(name[0]) && !seq!['/', '\\'].contains(name.last()));
    assert(trim::trim_set(name, seq!['"']) == name);
    assert(trim::trim_set(name, seq!['\'']) == name);
    assert(trim::trim_set(name, seq!['/', '\\']) == name);
}

/// A character on both sides of a text that neither begins nor ends with one
/// of a set comes off with the set, where it belongs to it.
proof fn lemma_wrapping_comes_off(name: Seq<char>, c: char, set: Seq<char>)
    requires
        name.len() > 0,
        !set.contains(name[0]),
        !set.contains(name.last()),
    ensures
        set.contains(c) ==> trim::trim_set(seq![c] + name + seq![c], set) == name,
        !set.contains(c) ==> trim::trim_set(seq![c] + name + seq![c], set) == seq![c] + name + seq![
            c,
        ],
{
    let all = seq![c] + name + seq![c];
    let half = name + seq![c];
    assert(all[0] == c && all.last() == c);
    if set.contains(c) {
        assert(all.drop_first() =~= half);
        assert(half[0] == name[0]);
        reveal_with_fuel(trim::trim_start_set, 2);
        assert(trim::trim_start_set(all, set) == half);
        assert(half.drop_last() =~= name);
        reveal_with_fuel(trim::trim_end_set, 2);
    }
}

/// Quotes, slashes, backslashes and blanks around a bare name do not belong to
/// it.
pub proof fn law_what_wraps_a_name_is_taken_off(name: Seq<char>, c: char)
    requires
        name.len() > 0,
        !is_wrapping(name[0]),
        !is_wrapping(name.last()),
        c == '"' || c == '\'' || c == '/' || c == '\\' || c == ' ',
    ensures
        folders::bare_name(seq![c] + name + seq![c]) == name,
        folders::bare_name(name) == name,
{
    let all = seq![c] + name + seq![c];
    lemma_bare_name(name);
    assert(all[0] == c && all.last() == c);
    let double = seq!['"'];
    let single = seq!['\''];
    let slashes = seq!['/', '\\'];
    assert(double[0] == '"' && single[0] == '\'');
    assert(slashes[0] == '/' && slashes[1] == '\\');
    lemma_wrapping_comes_off(name, c, double);
    lemma_wrapping_comes_off(name, c, single);
    lemma_wrapping_comes_off(name, c, slashes);
    if c == ' ' {
        let blank = seq![' '];
        assert((name + blank)[0] == name[0]);
        assert(all.drop_first() =~= name + blank);
        assert((name + blank).drop_last() =~= name);
        reveal_with_fuel(trim::trim_start, 2);
        reveal_with_fuel(trim::trim_end, 2);
        assert(trim::trim(all) == name);
        trim::lemma_trim_is_same(name);
    } else {
        trim::lemma_trim_is_same(all);
        assert(trim::trim_set(name, double) == name);
        assert(trim::trim_set(name, single) == name);
        assert(trim::trim_set(name, slashes) == name);
    }
}

/// Renaming a folder of an account to a bare name gives it this name in the
/// parent that it has.
pub proof fn law_folder_is_renamed_in_its_parent(
    r: Result<Option<RenamePlan>, RenameError>,
    source: Seq<char>,
    account: Seq<char>,
    parent: Seq<char>,
    separator: char,
    own: Seq<char>,
    name: Seq<char>,
)
    requires
        folders::is_rename_plan(r, source, name),
        mailpath::mail_path(source) == Some(
            (MailPathView {
                account: Some(account),
                folder: Some(parent + seq![separator] + own),
                filename: None,
                uid: None,
            }),
        ),
        separator == '/' || separator == '.' && !parent.contains('/') && !own.contains('.'),
        !own.contains('/'),
        ({
            let upper = unicode::upper(parent + seq![separator] + own);
            upper != "INBOX"@ && upper != "TRASH"@ && upper != "SENT"@ && upper != "DRAFTS"@
                && upper != "JUNK"@ && upper != "SPAM"@
        }),
        mailpath::mail_path(name) matches Some(target) && target.folder is None,
        name.len() > 0,
        !is_wrapping(name[0]),
        !is_wrapping(name.last()),
        !chars::same_ignoring_case(
            parent + seq![separator] + own,
            parent + seq![separator] + name,
        ),
    ensures
        r matches Ok(Some(p)) && p.account@ == account && p.from@ == parent + seq![separator] + own
            && p.to@ == parent + seq![separator] + name,
{
    lemma_bare_name(name);
    law_renamed_folder_keeps_its_parent(parent, own, name);
}

/// What renaming a path comes to. A message keeps its name, and so does a
/// folder that every account has. Any other folder gets the name of the folder
/// that the destination names, unless that is the name which it has.
pub proof fn law_what_is_renamed(
    r: Result<Option<RenamePlan>, RenameError>,
    source: Seq<char>,
    dest: Seq<char>,
    src: MailPathView,
)
    requires
        folders::is_rename_plan(r, source, dest),
        mailpath::mail_path(source) == Some(src),
    ensures
        src.filename is Some || src.uid is Some ==> r matches Err(RenameError::IsMessage),
        src.filename is None && src.uid is None && src.account is None ==> r matches Err(
            RenameError::Path(PathError::NoAccount),
        ),
        src.filename is None && src.uid is None && src.account is Some && src.folder is None ==> r
            matches Err(RenameError::Path(PathError::NoFolder)),
        src.filename is None && src.uid is None ==> (src.account matches Some(account) ==> (
        src.folder matches Some(folder) ==> {
            let upper = unicode::upper(folder);
            let keeps_its_name = upper == "INBOX"@ || upper == "TRASH"@ || upper == "SENT"@ || upper
                == "DRAFTS"@ || upper == "JUNK"@ || upper == "SPAM"@;
            &&& keeps_its_name ==> (r matches Err(RenameError::SystemFolder(f)) && f@ == folder)
            &&& !keeps_its_name ==> (mailpath::mail_path(dest) matches Some(target) ==> (
            target.folder matches Some(to) ==> {
                &&& to.len() > 0 && !chars::same_ignoring_case(folder, to) ==> (r matches Ok(
                    Some(p),
                ) && p.account@ == account && p.from@ == folder && p.to@ == to)
                &&& chars::same_ignoring_case(folder, to) ==> (r matches Ok(None))
            }))
        })),
{
}

// ---------------------------------------------------------------------------
// Names on other servers
// ---------------------------------------------------------------------------

/// A name is cut behind its first six characters where these are ASCII.
proof fn lemma_cut_behind_six(head: Seq<char>, rest: Seq<char>)
    requires
        is_ascii_chars(head),
        head.len() == 6,
    ensures
        mailpath::cut_at(head + rest, 6) == Some(rest),
{
    is_ascii_chars_encode_utf8(head);
    mailpath::lemma_cut_behind(head, rest);
}

/// Where a server does not take a name with a slash below the inbox, it is
/// tried with a dot; one with a dot is not tried otherwise; and any other is
/// tried below the inbox, first with a dot and then with a slash. The case of
/// the letters does not count.
pub proof fn law_other_names_of_a_folder(
    head: Seq<char>,
    rest: Seq<char>,
    upper: Seq<char>,
)
    requires
        is_ascii_chars(head),
        head.len() == 6,
    ensures
        search::starts_with(upper, "INBOX/"@) ==> folders::other_names(head + rest, upper) == Some(
            seq!["INBOX."@ + rest],
        ),
        search::starts_with(upper, "INBOX."@) ==> folders::other_names(head + rest, upper) == Some(
            Seq::<Seq<char>>::empty(),
        ),
        !search::starts_with(upper, "INBOX/"@) && !search::starts_with(upper, "INBOX."@)
            ==> folders::other_names(rest, upper) == Some(
            seq!["INBOX."@ + rest, "INBOX/"@ + rest],
        ),
{
    reveal_strlit("INBOX/");
    reveal_strlit("INBOX.");
    lemma_cut_behind_six(head, rest);
    if search::starts_with(upper, "INBOX/"@) {
        assert(upper.take(6)[5] == '/');
    }
    if search::starts_with(upper, "INBOX."@) {
        assert(upper.take(6)[5] == '.');
    }
}

/// Both names of a renaming are tried in the same way: with a dot for the
/// slash below the inbox, or below the inbox with a dot and then with a slash.
pub proof fn law_other_names_of_a_renaming(
    head: Seq<char>,
    from: Seq<char>,
    other: Seq<char>,
    to: Seq<char>,
    from_upper: Seq<char>,
    to_upper: Seq<char>,
)
    requires
        is_ascii_chars(head),
        head.len() == 6,
        is_ascii_chars(other),
        other.len() == 6,
    ensures
        search::starts_with(from_upper, "INBOX/"@) && search::starts_with(to_upper, "INBOX/"@)
            ==> folders::other_renamings(head + from, other + to, from_upper, to_upper) == Some(
            seq![("INBOX."@ + from, "INBOX."@ + to)],
        ),
        search::starts_with(from_upper, "INBOX/"@) && !search::starts_with(to_upper, "INBOX/"@)
            ==> folders::other_renamings(head + from, to, from_upper, to_upper) == Some(
            seq![("INBOX."@ + from, "INBOX."@ + to)],
        ),
        search::starts_with(from_upper, "INBOX."@) ==> folders::other_renamings(
            head + from,
            to,
            from_upper,
            to_upper,
        ) == Some(Seq::<(Seq<char>, Seq<char>)>::empty()),
        !search::starts_with(from_upper, "INBOX/"@) && !search::starts_with(from_upper, "INBOX."@)
            ==> folders::other_renamings(from, to, from_upper, to_upper) == Some(
            seq![("INBOX."@ + from, "INBOX."@ + to), ("INBOX/"@ + from, "INBOX/"@ + to)],
        ),
{
    reveal_strlit("INBOX/");
    reveal_strlit("INBOX.");
    lemma_cut_behind_six(head, from);
    lemma_cut_behind_six(other, to);
    if search::starts_with(from_upper, "INBOX/"@) {
        assert(from_upper.take(6)[5] == '/');
    }
    if search::starts_with(from_upper, "INBOX."@) {
        assert(from_upper.take(6)[5] == '.');
    }
}

// ---------------------------------------------------------------------------
// Copying and moving
// ---------------------------------------------------------------------------

/// A trimmed destination is one on the local disk: it has a drive letter or
/// begins with two slashes or two backslashes, and not with `aux:`.
pub open spec fn is_on_disk(dest: Seq<char>) -> bool {
    let t = trim::trim(dest);
    &&& !search::starts_with(unicode::lower(t), "aux:"@)
    &&& t.len() >= 2
    &&& t[1] == ':' || t[0] == '/' && t[1] == '/' || t[0] == '\\' && t[1] == '\\'
}

/// The destinations on the local disk are those that are taken for it.
proof fn lemma_on_disk(dest: Seq<char>)
    ensures
        is_on_disk(dest) == mailpath::is_local(
            trim::trim(dest),
            unicode::lower(trim::trim(dest)),
        ),
{
    let t = trim::trim(dest);
    if t.len() >= 2 {
        assert(t.take(2)[0] == t[0]);
        assert(t.take(2)[1] == t[1]);
        if t[0] == '/' && t[1] == '/' {
            assert(t.take(2) =~= seq!['/', '/']);
        }
        if t[0] == '\\' && t[1] == '\\' {
            assert(t.take(2) =~= seq!['\\', '\\']);
        }
    }
}

/// Where a message is copied to. On the local disk it is saved; in the folder
/// that the destination names it is copied within its account, or appended to
/// the other account that the destination names.
pub proof fn law_message_is_copied_where_it_is_told(
    r: Result<CopyPlan, PathError>,
    source: MailPathView,
    dest: Seq<char>,
    own: Seq<char>,
)
    requires
        folders::is_copy_plan(r, source, dest),
        source.account == Some(own),
    ensures
        source.folder is None ==> r matches Err(PathError::NoFolder),
        source.folder is Some && source.uid is None ==> r matches Err(PathError::NoUid),
        source.folder is Some && source.uid is Some && is_on_disk(dest) ==> (r matches Ok(
            CopyPlan::Save,
        )),
        source.folder is Some && source.uid is Some && !is_on_disk(dest) ==> (
        mailpath::mail_path(dest) matches Some(target) ==> (target.folder is None ==> (r matches Err(
            PathError::NoDestination,
        )))),
        source.folder is Some && source.uid is Some && !is_on_disk(dest) ==> (
        mailpath::mail_path(dest) matches Some(target) ==> (target.folder matches Some(folder) ==> (
        target.account matches Some(account) ==> if chars::same_ignoring_case(own, account) {
            r matches Ok(CopyPlan::Within(f)) && f@ == folder
        } else {
            r matches Ok(CopyPlan::Across(a, f)) && a@ == account && f@ == folder
        }))),
{
    lemma_on_disk(dest);
}

/// A move copies first. Once that has succeeded, a message that was saved on
/// the local disk goes to the trash, and one that was copied to a folder is
/// removed at once; a failure ends the move.
pub proof fn law_move_goes_step_by_step(dest: Seq<char>, removal: Removal)
    ensures
        is_on_disk(dest) ==> folders::next_move(MoveStep::Copy, true, dest) == MoveStep::Remove(
            Removal::ToTrash,
        ),
        !is_on_disk(dest) ==> folders::next_move(MoveStep::Copy, true, dest) == MoveStep::Remove(
            Removal::Expunge,
        ),
        folders::next_move(MoveStep::Copy, false, dest) == MoveStep::Failed,
        folders::next_move(MoveStep::Remove(removal), true, dest) == MoveStep::Done,
        folders::next_move(MoveStep::Remove(removal), false, dest) == MoveStep::Failed,
{
    lemma_on_disk(dest);
}

} // verus!
