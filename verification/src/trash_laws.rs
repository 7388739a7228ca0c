//! Which folders are the trash, and what deleting does step by step.

use vstd::prelude::*;
use crate::text::{chars, number, search, unicode};
use crate::trash;
use crate::trash::{Deletion, MailboxView};
use crate::utf7;

verus! {

/// A folder is a trash folder where one of its attributes has `trash` in it,
/// or where its readable name ends with `trash` or has `deleted` or one of the
/// two Japanese words for it in it, each in capitals or not.
pub proof fn law_which_folders_are_trash(mailbox: MailboxView)
    ensures
        ({
            let name = unicode::lower(utf7::decode(mailbox.name));
            trash::is_trash(mailbox) <==> {
                ||| exists|i: int|
                    0 <= i < mailbox.attributes.len() && search::contains(
                        unicode::lower(#[trigger] mailbox.attributes[i]),
                        "trash"@,
                    )
                ||| search::ends_with(name, "trash"@)
                ||| search::contains(name, "deleted"@)
                ||| search::contains(name, "ごみ箱"@)
                ||| search::contains(name, "ゴミ箱"@)
            }
        }),
{
}

/// A list that has more names at its end.
proof fn lemma_longer(names: Seq<Seq<char>>, name: Seq<char>, other: Seq<char>)
    ensures
        trash::with_name(names, name).len() >= names.len(),
        trash::with_name(names, name).take(names.len() as int) == names,
        trash::is_listed(names, other) ==> trash::is_listed(trash::with_name(names, name), other),
        trash::is_listed(trash::with_name(names, name), name),
{
    let all = trash::with_name(names, name);
    assert(all.take(names.len() as int) =~= names);
    if trash::is_listed(names, other) {
        let i = choose|i: int|
            0 <= i < names.len() && chars::same_ignoring_case(#[trigger] names[i], other);
        assert(chars::same_ignoring_case(all[i], other));
    }
    if !trash::is_listed(names, name) {
        assert(all[names.len() as int] == name);
        assert(chars::same_ignoring_case(all[names.len() as int], name));
    }
}

/// One of the trash folders has the name.
spec fn names_trash(mailboxes: Seq<MailboxView>, name: Seq<char>) -> bool {
    exists|i: int|
        0 <= i < mailboxes.len() && trash::is_trash(#[trigger] mailboxes[i]) && utf7::decode(
            mailboxes[i].name,
        ) == name
}

/// What the trash folders on the server add to a list.
proof fn lemma_folders_are_added(names: Seq<Seq<char>>, mailboxes: Seq<MailboxView>, m: int)
    ensures
        ({
            let all = trash::with_trash_folders(names, mailboxes);
            &&& all.len() >= names.len()
            &&& all.take(names.len() as int) == names
            &&& forall|k: int|
                names.len() <= k < all.len() ==> names_trash(mailboxes, #[trigger] all[k])
            &&& 0 <= m < mailboxes.len() && trash::is_trash(mailboxes[m]) ==> trash::is_listed(
                all,
                utf7::decode(mailboxes[m].name),
            )
        }),
    decreases mailboxes.len(),
{
    let all = trash::with_trash_folders(names, mailboxes);
    if mailboxes.len() > 0 {
        let less = mailboxes.drop_last();
        let last = mailboxes.last();
        let before = trash::with_trash_folders(names, less);
        lemma_folders_are_added(names, less, m);
        let name = utf7::decode(last.name);
        if m < less.len() && m >= 0 {
            assert(less[m] == mailboxes[m]);
            lemma_longer(before, name, utf7::decode(mailboxes[m].name));
        } else {
            lemma_longer(before, name, name);
        }
        assert forall|k: int| names.len() <= k < all.len() implies names_trash(
            mailboxes,
            #[trigger] all[k],
        ) by {
            if k < before.len() {
                assert(all[k] == before[k]);
                let i = choose|i: int|
                    0 <= i < less.len() && trash::is_trash(#[trigger] less[i]) && utf7::decode(
                        less[i].name,
                    ) == before[k];
                assert(mailboxes[i] == less[i]);
            } else {
                assert(mailboxes[mailboxes.len() - 1] == last);
            }
        }
        assert(all.take(names.len() as int) =~= before.take(names.len() as int));
    } else {
        assert(all.take(names.len() as int) =~= names);
    }
}

/// What further names add to a list.
proof fn lemma_names_are_added(names: Seq<Seq<char>>, more: Seq<Seq<char>>, m: int)
    ensures
        ({
            let all = trash::with_names(names, more);
            &&& all.len() >= names.len()
            &&& all.take(names.len() as int) == names
            &&& forall|k: int| names.len() <= k < all.len() ==> more.contains(#[trigger] all[k])
            &&& 0 <= m < more.len() ==> trash::is_listed(all, more[m])
        }),
    decreases more.len(),
{
    let all = trash::with_names(names, more);
    if more.len() > 0 {
        let less = more.drop_last();
        let before = trash::with_names(names, less);
        lemma_names_are_added(names, less, m);
        if 0 <= m < less.len() {
            assert(less[m] == more[m]);
            lemma_longer(before, more.last(), more[m]);
        } else {
            lemma_longer(before, more.last(), more.last());
        }
        assert forall|k: int| names.len() <= k < all.len() implies more.contains(
            #[trigger] all[k],
        ) by {
            if k < before.len() {
                assert(all[k] == before[k]);
                let i = choose|i: int| 0 <= i < less.len() && less[i] == before[k];
                assert(more[i] == before[k]);
            } else {
                assert(more[more.len() - 1] == all[k]);
            }
        }
        assert(all.take(names.len() as int) =~= before.take(names.len() as int));
    } else {
        assert(all.take(names.len() as int) =~= names);
    }
}

/// The name is one that trash folders usually have.
proof fn lemma_usual_names(name: Seq<char>)
    ensures
        trash::usual_trash_names().contains(name) <==> name == "INBOX.Trash"@ || name == "Trash"@
            || name == "[Gmail]/ゴミ箱"@ || name == "[Gmail]/Trash"@ || name == "Deleted Items"@
            || name == "INBOX.ごみ箱"@,
{
    let all = trash::usual_trash_names();
    assert(all[0] == "INBOX.Trash"@ && all[1] == "Trash"@ && all[2] == "[Gmail]/ゴミ箱"@ && all[3]
        == "[Gmail]/Trash"@ && all[4] == "Deleted Items"@ && all[5] == "INBOX.ごみ箱"@);
}

/// Every folder that is tried as the trash is the configured one, a trash
/// folder on the server by its readable name, or one of six usual names; and
/// all of these are tried, up to the case of their letters.
pub proof fn law_what_is_tried_as_the_trash(
    configured: Seq<char>,
    mailboxes: Seq<MailboxView>,
    k: int,
    m: int,
)
    ensures
        ({
            let all = trash::candidates(configured, mailboxes);
            &&& 0 <= k < all.len() ==> {
                ||| configured.len() > 0 && all[k] == configured
                ||| exists|i: int|
                    0 <= i < mailboxes.len() && trash::is_trash(#[trigger] mailboxes[i])
                        && utf7::decode(mailboxes[i].name) == all[k]
                ||| all[k] == "INBOX.Trash"@ || all[k] == "Trash"@ || all[k] == "[Gmail]/ゴミ箱"@
                    || all[k] == "[Gmail]/Trash"@ || all[k] == "Deleted Items"@ || all[k]
                    == "INBOX.ごみ箱"@
            }
            &&& 0 <= m < mailboxes.len() && trash::is_trash(mailboxes[m]) ==> trash::is_listed(
                all,
                utf7::decode(mailboxes[m].name),
            )
            &&& trash::is_listed(all, "INBOX.Trash"@)
            &&& trash::is_listed(all, "Trash"@)
            &&& trash::is_listed(all, "[Gmail]/ゴミ箱"@)
            &&& trash::is_listed(all, "[Gmail]/Trash"@)
            &&& trash::is_listed(all, "Deleted Items"@)
            &&& trash::is_listed(all, "INBOX.ごみ箱"@)
        }),
{
    let first = if configured.len() > 0 {
        seq![configured]
    } else {
        seq![]
    };
    let found = trash::with_trash_folders(first, mailboxes);
    let usual = trash::usual_trash_names();
    let all = trash::candidates(configured, mailboxes);
    lemma_folders_are_added(first, mailboxes, m);
    lemma_names_are_added(found, usual, 0);
    lemma_names_are_added(found, usual, 1);
    lemma_names_are_added(found, usual, 2);
    lemma_names_are_added(found, usual, 3);
    lemma_names_are_added(found, usual, 4);
    lemma_names_are_added(found, usual, 5);
    assert forall|j: int| 0 <= j < found.len() implies all[j] == found[j] by {
        assert(all.take(found.len() as int)[j] == all[j]);
    }
    if 0 <= k < all.len() {
        lemma_usual_names(all[k]);
        if k < first.len() {
            assert(found.take(first.len() as int)[k] == found[k]);
        }
    }
    if 0 <= m < mailboxes.len() && trash::is_trash(mailboxes[m]) {
        let name = utf7::decode(mailboxes[m].name);
        let i = choose|i: int|
            0 <= i < found.len() && chars::same_ignoring_case(#[trigger] found[i], name);
        assert(chars::same_ignoring_case(all[i], name));
    }
}

/// The usual names are tried last: behind every trash folder on the server.
pub proof fn law_usual_names_are_tried_last(
    configured: Seq<char>,
    mailboxes: Seq<MailboxView>,
    k: int,
    m: int,
)
    requires
        0 <= k < trash::candidates(configured, mailboxes).len(),
        trash::candidates(configured, mailboxes)[k] != configured,
        forall|i: int|
            0 <= i < mailboxes.len() && trash::is_trash(#[trigger] mailboxes[i])
                ==> utf7::decode(mailboxes[i].name) != trash::candidates(configured, mailboxes)[k],
        0 <= m < mailboxes.len(),
        trash::is_trash(mailboxes[m]),
    ensures
        exists|j: int|
            0 <= j < k && chars::same_ignoring_case(
                #[trigger] trash::candidates(configured, mailboxes)[j],
                utf7::decode(mailboxes[m].name),
            ),
{
    let first = if configured.len() > 0 {
        seq![configured]
    } else {
        seq![]
    };
    let found = trash::with_trash_folders(first, mailboxes);
    let all = trash::candidates(configured, mailboxes);
    lemma_folders_are_added(first, mailboxes, m);
    lemma_names_are_added(found, trash::usual_trash_names(), 0);
    assert forall|j: int| 0 <= j < found.len() implies all[j] == found[j] by {
        assert(all.take(found.len() as int)[j] == all[j]);
    }
    if k < found.len() {
        if k < first.len() {
            assert(found.take(first.len() as int)[k] == found[k]);
        }
        assert(false);
    }
    let name = utf7::decode(mailboxes[m].name);
    let j = choose|j: int|
        0 <= j < found.len() && chars::same_ignoring_case(#[trigger] found[j], name);
    assert(chars::same_ignoring_case(all[j], name));
}

/// The usual names are tried in a fixed order where there is nothing else.
pub proof fn law_usual_names_are_tried_in_order()
    ensures
        trash::candidates(Seq::empty(), Seq::empty()) == seq![
            "INBOX.Trash"@,
            "Trash"@,
            "[Gmail]/ゴミ箱"@,
            "[Gmail]/Trash"@,
            "Deleted Items"@,
            "INBOX.ごみ箱"@,
        ],
{
    let none = Seq::<Seq<char>>::empty();
    let usual = trash::usual_trash_names();
    assert(trash::with_trash_folders(none, Seq::empty()) == none);
    reveal_strlit("INBOX.Trash");
    reveal_strlit("Trash");
    reveal_strlit("[Gmail]/ゴミ箱");
    reveal_strlit("[Gmail]/Trash");
    reveal_strlit("Deleted Items");
    reveal_strlit("INBOX.ごみ箱");
    lemma_different_names(usual);
    lemma_all_are_added(usual);
}

/// No two of the usual names agree up to the case of their letters.
proof fn lemma_different_names(usual: Seq<Seq<char>>)
    requires
        usual == trash::usual_trash_names(),
    ensures
        trash::all_different(usual),
{
    reveal_strlit("INBOX.Trash");
    reveal_strlit("Trash");
    reveal_strlit("[Gmail]/ゴミ箱");
    reveal_strlit("[Gmail]/Trash");
    reveal_strlit("Deleted Items");
    reveal_strlit("INBOX.ごみ箱");
    assert forall|i: int, j: int| 0 <= i < j < usual.len() implies !chars::same_ignoring_case(
        #[trigger] usual[i],
        #[trigger] usual[j],
    ) by {
        let a = unicode::ascii_lower(usual[i]);
        let b = unicode::ascii_lower(usual[j]);
        assert(a.len() == usual[i].len());
        assert(b.len() == usual[j].len());
        if a.len() == b.len() {
            assert(a[0] == unicode::ascii_lower_char(usual[i][0]));
            assert(b[0] == unicode::ascii_lower_char(usual[j][0]));
        }
    }
}

/// Different names are all added to an empty list.
proof fn lemma_all_are_added(names: Seq<Seq<char>>)
    requires
        trash::all_different(names),
    ensures
        trash::with_names(Seq::empty(), names) == names,
    decreases names.len(),
{
    if names.len() > 0 {
        let less = names.drop_last();
        assert forall|i: int, j: int| 0 <= i < j < less.len() implies !chars::same_ignoring_case(
            #[trigger] less[i],
            #[trigger] less[j],
        ) by {
            assert(!chars::same_ignoring_case(names[i], names[j]));
        }
        lemma_all_are_added(less);
        assert(!trash::is_listed(less, names.last())) by {
            if trash::is_listed(less, names.last()) {
                let i = choose|i: int|
                    0 <= i < less.len() && chars::same_ignoring_case(
                        #[trigger] less[i],
                        names.last(),
                    );
                assert(chars::same_ignoring_case(names[i], names[names.len() - 1]));
            }
        }
        assert(less.push(names.last()) =~= names);
    } else {
        assert(trash::with_names(Seq::empty(), names) =~= names);
    }
}

// ---------------------------------------------------------------------------
// Deleting
// ---------------------------------------------------------------------------

/// Deleting copies the messages to one candidate after another until one takes
/// them, then marks them, then removes what is marked. Where no candidate takes
/// them, they are kept; a failure to mark or to remove ends the deletion.
/// Messages in a folder that is one of the candidates are marked at once.
pub proof fn law_deletion_goes_step_by_step(
    folder: Seq<char>,
    candidates: Seq<Seq<char>>,
    i: usize,
)
    requires
        candidates.len() <= usize::MAX,
        i < candidates.len(),
    ensures
        ({
            let here = |k: int|
                unicode::ascii_lower(candidates[k]) == unicode::ascii_lower(folder)
                    || unicode::ascii_lower(utf7::encode(candidates[k])) == unicode::ascii_lower(
                    utf7::encode(folder),
                );
            let next = |step: Deletion, done: bool|
                trash::next_step(step, done, folder, candidates);
            &&& here(i as int) ==> trash::first_step(folder, candidates) == Deletion::Mark
            &&& (forall|k: int| 0 <= k < candidates.len() ==> !#[trigger] here(k)) ==> {
                &&& trash::first_step(folder, candidates) == Deletion::Copy(0)
                &&& i + 1 < candidates.len() ==> next(Deletion::Copy(i), false) == Deletion::Copy(
                    (i + 1) as usize,
                )
                &&& i + 1 == candidates.len() ==> next(Deletion::Copy(i), false) == Deletion::Kept
            }
            &&& next(Deletion::Copy(i), true) == Deletion::Mark
            &&& next(Deletion::Mark, true) == Deletion::Expunge
            &&& next(Deletion::Mark, false) == Deletion::Failed
            &&& next(Deletion::Expunge, true) == Deletion::Done
            &&& next(Deletion::Expunge, false) == Deletion::Failed
            &&& next(Deletion::Done, true) == Deletion::Done
            &&& next(Deletion::Kept, true) == Deletion::Kept
            &&& next(Deletion::Failed, true) == Deletion::Failed
        }),
        trash::first_step(folder, Seq::empty()) == Deletion::Kept,
{
    let here = |k: int|
        unicode::ascii_lower(candidates[k]) == unicode::ascii_lower(folder)
            || unicode::ascii_lower(utf7::encode(candidates[k])) == unicode::ascii_lower(
            utf7::encode(folder),
        );
    if here(i as int) {
        assert(trash::is_folder(candidates[i as int], folder));
    }
    if forall|k: int| 0 <= k < candidates.len() ==> !#[trigger] here(k) {
        assert forall|k: int| 0 <= k < candidates.len() implies !trash::is_folder(
            #[trigger] candidates[k],
            folder,
        ) by {
            assert(!here(k));
        }
        assert(!trash::is_in_trash(folder, candidates));
        assert(!here(0));
        if i + 1 < candidates.len() {
            assert(!here(i + 1));
        }
    }
    assert(!trash::is_in_trash(folder, Seq::empty()));
}

/// The numbers of the messages to be deleted are written with commas between
/// them, in their order.
pub proof fn law_numbers_are_written_with_commas(uids: Seq<u32>, last: u32)
    ensures
        trash::uid_set(seq![last]) == number::decimal(last as nat),
        uids.len() > 0 ==> trash::uid_set(uids.push(last)) == trash::uid_set(uids) + seq![',']
            + number::decimal(last as nat),
{
    assert(trash::decimals(seq![last]) =~= seq![number::decimal(last as nat)]);
    let all = trash::decimals(uids.push(last));
    assert(all.drop_last() =~= trash::decimals(uids));
    assert(all.last() == number::decimal(last as nat));
}

} // verus!
