//! Moving messages to the trash.

use vstd::prelude::*;
use crate::text::{chars, number, pieces, search, unicode};
use crate::utf7;

verus! {

/// A folder on the server: its name as the server writes it, and its
/// attributes.
#[derive(Debug)]
pub struct Mailbox {
    pub name: String,
    pub attributes: Vec<String>,
}

/// The contents of a folder on the server.
pub struct MailboxView {
    pub name: Seq<char>,
    pub attributes: Seq<Seq<char>>,
}

impl View for Mailbox {
    type V = MailboxView;

    open spec fn view(&self) -> MailboxView {
        MailboxView { name: self.name@, attributes: chars::texts(self.attributes@) }
    }
}

/// The contents of a list of folders.
pub open spec fn mailbox_views(mailboxes: Seq<Mailbox>) -> Seq<MailboxView> {
    Seq::new(mailboxes.len(), |i: int| mailboxes[i]@)
}

/// The lower-case name of a folder sounds like a trash folder's.
pub open spec fn sounds_like_trash(lower: Seq<char>) -> bool {
    search::ends_with(lower, "trash"@) || search::contains(lower, "ごみ箱"@) || search::contains(
        lower,
        "ゴミ箱"@,
    ) || search::contains(lower, "deleted"@)
}

/// One of the attributes names the trash.
pub open spec fn has_trash_attribute(attributes: Seq<Seq<char>>) -> bool {
    exists|i: int|
        0 <= i < attributes.len() && search::contains(
            unicode::lower(#[trigger] attributes[i]),
            "trash"@,
        )
}

/// The folder is a trash folder, by its attributes or by its name.
pub open spec fn is_trash(mailbox: MailboxView) -> bool {
    has_trash_attribute(mailbox.attributes) || sounds_like_trash(
        unicode::lower(utf7::decode(mailbox.name)),
    )
}

/// The name is in the list, whatever the case of its letters.
pub open spec fn is_listed(names: Seq<Seq<char>>, name: Seq<char>) -> bool {
    exists|i: int|
        0 <= i < names.len() && chars::same_ignoring_case(#[trigger] names[i], name)
}

/// The list with the name at its end, unless the name is in it.
pub open spec fn with_name(names: Seq<Seq<char>>, name: Seq<char>) -> Seq<Seq<char>> {
    if is_listed(names, name) {
        names
    } else {
        names.push(name)
    }
}

/// The list with the names of the trash folders among the folders at its end,
/// each once.
pub open spec fn with_trash_folders(names: Seq<Seq<char>>, mailboxes: Seq<MailboxView>) -> Seq<
    Seq<char>,
>
    decreases mailboxes.len(),
{
    if mailboxes.len() == 0 {
        names
    } else {
        let before = with_trash_folders(names, mailboxes.drop_last());
        if is_trash(mailboxes.last()) {
            with_name(before, utf7::decode(mailboxes.last().name))
        } else {
            before
        }
    }
}

/// The list with further names at its end, each once.
pub open spec fn with_names(names: Seq<Seq<char>>, more: Seq<Seq<char>>) -> Seq<Seq<char>>
    decreases more.len(),
{
    if more.len() == 0 {
        names
    } else {
        with_name(with_names(names, more.drop_last()), more.last())
    }
}

/// The names that trash folders usually have.
pub open spec fn usual_trash_names() -> Seq<Seq<char>> {
    seq![
        "INBOX.Trash"@,
        "Trash"@,
        "[Gmail]/ゴミ箱"@,
        "[Gmail]/Trash"@,
        "Deleted Items"@,
        "INBOX.ごみ箱"@,
    ]
}

/// The folders that may be the trash, in the order in which they are tried:
/// the configured one, those on the server that look like one, and the usual
/// ones.
pub open spec fn candidates(configured: Seq<char>, mailboxes: Seq<MailboxView>) -> Seq<Seq<char>> {
    let first = if configured.len() > 0 {
        seq![configured]
    } else {
        seq![]
    };
    with_names(with_trash_folders(first, mailboxes), usual_trash_names())
}

/// Whether the lower-case name `lower` sounds like a trash folder's.
pub fn sounds_like_trash_name(lower: &str) -> (b: bool)
    ensures
        b == sounds_like_trash(lower@),
{
    search::text_ends_with(lower, "trash") || search::contains_text(lower, "ごみ箱")
        || search::contains_text(lower, "ゴミ箱") || search::contains_text(lower, "deleted")
}

/// Whether one of the attributes names the trash.
fn any_trash_attribute(attributes: &Vec<String>) -> (b: bool)
    ensures
        b == has_trash_attribute(chars::texts(attributes@)),
{
    let ghost all = chars::texts(attributes@);
    let mut i: usize = 0;
    while i < attributes.len()
        invariant
            all == chars::texts(attributes@),
            i <= attributes.len(),
            forall|j: int|
                0 <= j < i ==> !search::contains(
                    unicode::lower(#[trigger] all[j]),
                    "trash"@,
                ),
        decreases attributes.len() - i,
    {
        let lower = unicode::lower_text(&attributes[i]);
        assert(all[i as int] == attributes@[i as int]@);
        if search::contains_text(&lower, "trash") {
            return true;
        }
        i += 1;
    }
    false
}

/// Adds `name` to the end of `names`, unless it is in the list.
fn add_name(names: &mut Vec<String>, name: String)
    ensures
        chars::texts(final(names)@) == with_name(chars::texts(old(names)@), name@),
{
    let ghost all = chars::texts(names@);
    let mut i: usize = 0;
    while i < names.len()
        invariant
            all == chars::texts(names@),
            names@ == old(names)@,
            i <= names.len(),
            forall|j: int|
                0 <= j < i ==> !chars::same_ignoring_case(#[trigger] all[j], name@),
        decreases names.len() - i,
    {
        assert(all[i as int] == names@[i as int]@);
        if chars::eq_ignore_case(&names[i], &name) {
            return;
        }
        i += 1;
    }
    assert(!is_listed(all, name@));
    names.push(name);
    assert(chars::texts(names@) =~= all.push(name@));
}

/// The folders that may be the trash, in the order in which they are tried.
pub fn trash_candidates(configured: &str, mailboxes: &Vec<Mailbox>) -> (r: Vec<String>)
    ensures
        chars::texts(r@) == candidates(configured@, mailbox_views(mailboxes@)),
{
    let mut names: Vec<String> = Vec::new();
    if configured.unicode_len() > 0 {
        names.push(configured.to_owned());
    }
    let ghost first = if configured@.len() > 0 {
        seq![configured@]
    } else {
        seq![]
    };
    assert(chars::texts(names@) =~= first);
    let ghost all = mailbox_views(mailboxes@);
    let mut i: usize = 0;
    assert(all.take(0) =~= seq![]);
    while i < mailboxes.len()
        invariant
            all == mailbox_views(mailboxes@),
            i <= mailboxes.len(),
            chars::texts(names@) == with_trash_folders(first, all.take(i as int)),
        decreases mailboxes.len() - i,
    {
        assert(all.take(i + 1).drop_last() =~= all.take(i as int));
        assert(all.take(i + 1).last() == mailboxes@[i as int]@);
        let decoded = utf7::decode_modified_utf7(&mailboxes[i].name);
        let lower = unicode::lower_text(&decoded);
        if any_trash_attribute(&mailboxes[i].attributes) || sounds_like_trash_name(&lower) {
            add_name(&mut names, decoded);
        }
        i += 1;
    }
    assert(all.take(all.len() as int) =~= all);
    let ghost found = chars::texts(names@);
    let ghost usual = usual_trash_names();
    proof {
        reveal_with_fuel(with_names, 7);
        assert(usual.drop_last() =~= usual.take(5));
        assert(usual.take(5).drop_last() =~= usual.take(4));
        assert(usual.take(4).drop_last() =~= usual.take(3));
        assert(usual.take(3).drop_last() =~= usual.take(2));
        assert(usual.take(2).drop_last() =~= usual.take(1));
        assert(usual.take(1).drop_last() =~= seq![]);
    }
    add_name(&mut names, "INBOX.Trash".to_owned());
    assert(chars::texts(names@) == with_names(found, usual.take(1)));
    add_name(&mut names, "Trash".to_owned());
    assert(chars::texts(names@) == with_names(found, usual.take(2)));
    add_name(&mut names, "[Gmail]/ゴミ箱".to_owned());
    assert(chars::texts(names@) == with_names(found, usual.take(3)));
    add_name(&mut names, "[Gmail]/Trash".to_owned());
    assert(chars::texts(names@) == with_names(found, usual.take(4)));
    add_name(&mut names, "Deleted Items".to_owned());
    assert(chars::texts(names@) == with_names(found, usual.take(5)));
    add_name(&mut names, "INBOX.ごみ箱".to_owned());
    names
}

/// The configured trash folder is tried first.
pub proof fn law_configured_trash_is_tried_first(
    configured: Seq<char>,
    mailboxes: Seq<MailboxView>,
)
    requires
        configured.len() > 0,
    ensures
        candidates(configured, mailboxes).len() > 0,
        candidates(configured, mailboxes)[0] == configured,
{
    lemma_folders_keep_front(seq![configured], mailboxes);
    lemma_names_keep_front(with_trash_folders(seq![configured], mailboxes), usual_trash_names());
}

/// Adding trash folders keeps the front of a list.
proof fn lemma_folders_keep_front(names: Seq<Seq<char>>, mailboxes: Seq<MailboxView>)
    requires
        names.len() > 0,
    ensures
        with_trash_folders(names, mailboxes).len() > 0,
        with_trash_folders(names, mailboxes)[0] == names[0],
    decreases mailboxes.len(),
{
    if mailboxes.len() > 0 {
        lemma_folders_keep_front(names, mailboxes.drop_last());
    }
}

/// Adding names keeps the front of a list.
proof fn lemma_names_keep_front(names: Seq<Seq<char>>, more: Seq<Seq<char>>)
    requires
        names.len() > 0,
    ensures
        with_names(names, more).len() > 0,
        with_names(names, more)[0] == names[0],
    decreases more.len(),
{
    if more.len() > 0 {
        lemma_names_keep_front(names, more.drop_last());
    }
}

/// No two names of the list agree up to the case of their letters.
pub open spec fn all_different(names: Seq<Seq<char>>) -> bool {
    forall|i: int, j: int|
        0 <= i < j < names.len() ==> !chars::same_ignoring_case(
            #[trigger] names[i],
            #[trigger] names[j],
        )
}

/// No folder is tried twice as the trash.
pub proof fn law_candidates_are_all_different(configured: Seq<char>, mailboxes: Seq<MailboxView>)
    ensures
        all_different(candidates(configured, mailboxes)),
{
    let first = if configured.len() > 0 {
        seq![configured]
    } else {
        seq![]
    };
    lemma_folders_differ(first, mailboxes);
    lemma_names_differ(with_trash_folders(first, mailboxes), usual_trash_names());
}

/// Adding trash folders keeps the names of a list different.
proof fn lemma_folders_differ(names: Seq<Seq<char>>, mailboxes: Seq<MailboxView>)
    requires
        all_different(names),
    ensures
        all_different(with_trash_folders(names, mailboxes)),
    decreases mailboxes.len(),
{
    if mailboxes.len() > 0 {
        lemma_folders_differ(names, mailboxes.drop_last());
    }
}

/// Adding names keeps the names of a list different.
proof fn lemma_names_differ(names: Seq<Seq<char>>, more: Seq<Seq<char>>)
    requires
        all_different(names),
    ensures
        all_different(with_names(names, more)),
    decreases more.len(),
{
    if more.len() > 0 {
        lemma_names_differ(names, more.drop_last());
    }
}

// ---------------------------------------------------------------------------
// Deleting
// ---------------------------------------------------------------------------

/// What a deletion is about to do.
#[derive(Debug, Clone, Copy, PartialEq, Eq, Structural)]
pub enum Deletion {
    /// Copy the messages to the candidate of this index.
    Copy(usize),
    /// Mark the messages as deleted.
    Mark,
    /// Remove what is marked.
    Expunge,
    /// Nothing: the messages are gone.
    Done,
    /// Nothing: no candidate took the messages, and they stay where they are.
    Kept,
    /// Nothing: the server refused to mark or to remove the messages.
    Failed,
}

/// The folder, by its name or as the server writes it, is one of the
/// candidates.
pub open spec fn is_in_trash(folder: Seq<char>, candidates: Seq<Seq<char>>) -> bool {
    exists|i: int| 0 <= i < candidates.len() && #[trigger] is_folder(candidates[i], folder)
}

/// The candidate is the folder.
pub open spec fn is_folder(candidate: Seq<char>, folder: Seq<char>) -> bool {
    chars::same_ignoring_case(candidate, folder) || chars::same_ignoring_case(
        utf7::encode(candidate),
        utf7::encode(folder),
    )
}

/// The candidate would take the messages back to where they are.
pub open spec fn is_same_mailbox(candidate: Seq<char>, folder: Seq<char>) -> bool {
    chars::same_ignoring_case(utf7::encode(candidate), utf7::encode(folder))
}

/// The next step where the candidates from `i` on are left: a copy to the
/// first of them that is another folder.
pub open spec fn copy_from(folder: Seq<char>, candidates: Seq<Seq<char>>, i: int) -> Deletion
    decreases candidates.len() - i,
{
    if i < 0 || i >= candidates.len() {
        Deletion::Kept
    } else if is_same_mailbox(candidates[i], folder) {
        copy_from(folder, candidates, i + 1)
    } else {
        Deletion::Copy(i as usize)
    }
}

/// The first step of a deletion: messages that are in the trash are removed
/// for good, and others are copied there first.
pub open spec fn first_step(folder: Seq<char>, candidates: Seq<Seq<char>>) -> Deletion {
    if is_in_trash(folder, candidates) {
        Deletion::Mark
    } else {
        copy_from(folder, candidates, 0)
    }
}

/// The step after one that the server carried out, or refused.
pub open spec fn next_step(
    step: Deletion,
    done: bool,
    folder: Seq<char>,
    candidates: Seq<Seq<char>>,
) -> Deletion {
    match step {
        Deletion::Copy(i) => if done {
            Deletion::Mark
        } else {
            copy_from(folder, candidates, i + 1)
        },
        Deletion::Mark => if done {
            Deletion::Expunge
        } else {
            Deletion::Failed
        },
        Deletion::Expunge => if done {
            Deletion::Done
        } else {
            Deletion::Failed
        },
        other => other,
    }
}

/// The next step where the candidates from `from` on are left.
fn find_copy(folder: &str, candidates: &Vec<String>, from: usize) -> (r: Deletion)
    requires
        from <= candidates.len(),
    ensures
        r == copy_from(folder@, chars::texts(candidates@), from as int),
{
    let ghost all = chars::texts(candidates@);
    let encoded = utf7::encode_modified_utf7(folder);
    let mut i: usize = from;
    while i < candidates.len()
        invariant
            all == chars::texts(candidates@),
            encoded@ == utf7::encode(folder@),
            from <= i <= candidates.len(),
            copy_from(folder@, all, from as int) == copy_from(folder@, all, i as int),
        decreases candidates.len() - i,
    {
        assert(all[i as int] == candidates@[i as int]@);
        if !chars::eq_ignore_case(&utf7::encode_modified_utf7(&candidates[i]), &encoded) {
            return Deletion::Copy(i);
        }
        i += 1;
    }
    Deletion::Kept
}

/// Whether `folder` is one of the candidates.
pub fn already_in_trash(folder: &str, candidates: &Vec<String>) -> (b: bool)
    ensures
        b == is_in_trash(folder@, chars::texts(candidates@)),
{
    let ghost all = chars::texts(candidates@);
    let encoded = utf7::encode_modified_utf7(folder);
    let mut i: usize = 0;
    while i < candidates.len()
        invariant
            all == chars::texts(candidates@),
            encoded@ == utf7::encode(folder@),
            i <= candidates.len(),
            forall|j: int| 0 <= j < i ==> !#[trigger] is_folder(all[j], folder@),
        decreases candidates.len() - i,
    {
        assert(all[i as int] == candidates@[i as int]@);
        if chars::eq_ignore_case(&candidates[i], folder) || chars::eq_ignore_case(
            &utf7::encode_modified_utf7(&candidates[i]),
            &encoded,
        ) {
            assert(is_folder(all[i as int], folder@));
            return true;
        }
        i += 1;
    }
    false
}

/// The first step of deleting messages from `folder`.
pub fn begin_deletion(folder: &str, candidates: &Vec<String>) -> (r: Deletion)
    ensures
        r == first_step(folder@, chars::texts(candidates@)),
{
    if already_in_trash(folder, candidates) {
        Deletion::Mark
    } else {
        find_copy(folder, candidates, 0)
    }
}

/// The step after `step`, which the server carried out where `done` holds.
pub fn continue_deletion(
    step: Deletion,
    done: bool,
    folder: &str,
    candidates: &Vec<String>,
) -> (r: Deletion)
    ensures
        r == next_step(step, done, folder@, chars::texts(candidates@)),
{
    match step {
        Deletion::Copy(i) => if done {
            Deletion::Mark
        } else if i < candidates.len() {
            find_copy(folder, candidates, i + 1)
        } else {
            Deletion::Kept
        },
        Deletion::Mark => if done {
            Deletion::Expunge
        } else {
            Deletion::Failed
        },
        Deletion::Expunge => if done {
            Deletion::Done
        } else {
            Deletion::Failed
        },
        Deletion::Done => Deletion::Done,
        Deletion::Kept => Deletion::Kept,
        Deletion::Failed => Deletion::Failed,
    }
}

/// The step after the server's answers, from the given step on.
pub open spec fn run_from(
    step: Deletion,
    answers: Seq<bool>,
    folder: Seq<char>,
    candidates: Seq<Seq<char>>,
) -> Deletion
    decreases answers.len(),
{
    if answers.len() == 0 {
        step
    } else {
        run_from(
            next_step(step, answers[0], folder, candidates),
            answers.drop_first(),
            folder,
            candidates,
        )
    }
}

/// One of the answers, from the given step on, tells of a copy that was made.
pub open spec fn copy_was_made(
    step: Deletion,
    answers: Seq<bool>,
    folder: Seq<char>,
    candidates: Seq<Seq<char>>,
) -> bool
    decreases answers.len(),
{
    answers.len() > 0 && (step is Copy && answers[0] || copy_was_made(
        next_step(step, answers[0], folder, candidates),
        answers.drop_first(),
        folder,
        candidates,
    ))
}

/// The step touches the messages in their folder.
pub open spec fn removes(step: Deletion) -> bool {
    step is Mark || step is Expunge || step is Done
}

/// A candidate that is looked for is never one that removes messages.
proof fn lemma_copy_from(folder: Seq<char>, candidates: Seq<Seq<char>>, i: int)
    requires
        candidates.len() <= usize::MAX,
    ensures
        copy_from(folder, candidates, i) is Copy || copy_from(folder, candidates, i) is Kept,
        copy_from(folder, candidates, i) matches Deletion::Copy(k) ==> 0 <= i <= k
            < candidates.len() && !is_same_mailbox(candidates[k as int], folder),
    decreases candidates.len() - i,
{
    if 0 <= i < candidates.len() && is_same_mailbox(candidates[i], folder) {
        lemma_copy_from(folder, candidates, i + 1);
    }
}

/// Messages outside the trash are not touched before a copy of them has been
/// made: whatever the server answers, a deletion that marks or removes them
/// has made one.
pub proof fn law_nothing_is_removed_without_a_copy(
    answers: Seq<bool>,
    folder: Seq<char>,
    candidates: Seq<Seq<char>>,
)
    requires
        candidates.len() <= usize::MAX,
        !is_in_trash(folder, candidates),
        removes(run_from(first_step(folder, candidates), answers, folder, candidates)),
    ensures
        copy_was_made(first_step(folder, candidates), answers, folder, candidates),
{
    lemma_copy_from(folder, candidates, 0);
    lemma_removal_follows_copy(first_step(folder, candidates), answers, folder, candidates);
}

/// From a step that does not remove messages, only a copy leads to one that
/// does.
proof fn lemma_removal_follows_copy(
    step: Deletion,
    answers: Seq<bool>,
    folder: Seq<char>,
    candidates: Seq<Seq<char>>,
)
    requires
        candidates.len() <= usize::MAX,
        !removes(step),
        !(step is Failed),
        removes(run_from(step, answers, folder, candidates)),
    ensures
        copy_was_made(step, answers, folder, candidates),
    decreases answers.len(),
{
    if answers.len() > 0 && !(step is Copy && answers[0]) {
        if let Deletion::Copy(i) = step {
            lemma_copy_from(folder, candidates, i + 1);
        }
        lemma_removal_follows_copy(
            next_step(step, answers[0], folder, candidates),
            answers.drop_first(),
            folder,
            candidates,
        );
    }
}

/// Messages that no candidate takes are kept.
pub proof fn law_messages_without_a_place_are_kept(folder: Seq<char>, candidates: Seq<Seq<char>>)
    requires
        candidates.len() <= usize::MAX,
        !is_in_trash(folder, candidates),
    ensures
        run_from(
            first_step(folder, candidates),
            Seq::new(candidates.len(), |i: int| false),
            folder,
            candidates,
        ) is Kept,
{
    lemma_copy_from(folder, candidates, 0);
    lemma_refusals_end_in_kept(
        first_step(folder, candidates),
        Seq::new(candidates.len(), |i: int| false),
        folder,
        candidates,
    );
}

/// Enough refusals end in keeping the messages.
proof fn lemma_refusals_end_in_kept(
    step: Deletion,
    answers: Seq<bool>,
    folder: Seq<char>,
    candidates: Seq<Seq<char>>,
)
    requires
        candidates.len() <= usize::MAX,
        forall|i: int| 0 <= i < answers.len() ==> !answers[i],
        step is Copy || step is Kept,
        step matches Deletion::Copy(k) ==> k < candidates.len() && candidates.len() - k
            <= answers.len(),
    ensures
        run_from(step, answers, folder, candidates) is Kept,
    decreases answers.len(),
{
    if answers.len() > 0 {
        if let Deletion::Copy(k) = step {
            lemma_copy_from(folder, candidates, k + 1);
        }
        let rest = answers.drop_first();
        assert forall|i: int| 0 <= i < rest.len() implies !rest[i] by {
            assert(!answers[i + 1]);
        }
        lemma_refusals_end_in_kept(
            next_step(step, answers[0], folder, candidates),
            rest,
            folder,
            candidates,
        );
    }
}

/// A candidate that is tried is not the folder itself.
pub proof fn law_messages_are_copied_elsewhere(
    folder: Seq<char>,
    candidates: Seq<Seq<char>>,
    step: Deletion,
    done: bool,
)
    requires
        candidates.len() <= usize::MAX,
    ensures
        first_step(folder, candidates) matches Deletion::Copy(k) ==> k < candidates.len()
            && !is_same_mailbox(candidates[k as int], folder),
        step is Copy ==> (next_step(step, done, folder, candidates) matches Deletion::Copy(k) ==> k
            < candidates.len() && !is_same_mailbox(candidates[k as int], folder)),
{
    lemma_copy_from(folder, candidates, 0);
    if let Deletion::Copy(i) = step {
        lemma_copy_from(folder, candidates, i + 1);
    }
}

// ---------------------------------------------------------------------------
// Message numbers
// ---------------------------------------------------------------------------

/// The decimal forms of numbers.
pub open spec fn decimals(uids: Seq<u32>) -> Seq<Seq<char>> {
    Seq::new(uids.len(), |i: int| number::decimal(uids[i] as nat))
}

/// Message numbers with commas between them.
pub open spec fn uid_set(uids: Seq<u32>) -> Seq<char> {
    pieces::join(decimals(uids), seq![','])
}

/// The message numbers `uids` with commas between them.
pub fn write_uid_set(uids: &Vec<u32>) -> (r: String)
    ensures
        r@ == uid_set(uids@),
{
    let mut parts: Vec<String> = Vec::new();
    let mut i: usize = 0;
    while i < uids.len()
        invariant
            i <= uids.len(),
            parts.len() == i,
            forall|j: int|
                0 <= j < i ==> (#[trigger] parts@[j])@ == number::decimal(uids@[j] as nat),
        decreases uids.len() - i,
    {
        parts.push(number::decimal_text(uids[i] as u64));
        i += 1;
    }
    proof {
        reveal_strlit(",");
        assert(","@ =~= seq![',']);
        assert(chars::texts(parts@) =~= decimals(uids@));
    }
    pieces::join_texts(&parts, ",")
}

/// The messages `uids` as the server is asked to delete them. It is asked
/// nothing where there are none.
pub fn set_to_delete(uids: &Vec<u32>) -> (r: Option<String>)
    ensures
        match r {
            Some(set) => uids.len() > 0 && set@ == uid_set(uids@),
            None => uids.len() == 0,
        },
{
    if uids.len() > 0 {
        Some(write_uid_set(uids))
    } else {
        None
    }
}

} // verus!
