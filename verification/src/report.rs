//! Finding messages that are there more than once.

use vstd::prelude::*;
use vstd::utf8::*;
use crate::date;
use crate::date::MailDate;
use crate::entry;
use crate::entry::MessageSummary;
use crate::text::{chars, trim, unicode};

verus! {

/// What tells whether two messages are the same: the second at which they were
/// sent, their sender, their subject and their size.
#[derive(Debug)]
pub struct ReportItem {
    pub sent: Option<i64>,
    pub sender: String,
    pub subject: String,
    pub size: u32,
}

/// The contents of an item.
pub struct ItemView {
    pub sent: Option<i64>,
    pub sender: Seq<char>,
    pub subject: Seq<char>,
    pub size: u32,
}

impl View for ReportItem {
    type V = ItemView;

    open spec fn view(&self) -> ItemView {
        ItemView {
            sent: self.sent,
            sender: self.sender@,
            subject: self.subject@,
            size: self.size,
        }
    }
}

/// The contents of a list of items.
pub open spec fn item_views(items: Seq<ReportItem>) -> Seq<ItemView> {
    Seq::new(items.len(), |i: int| items[i]@)
}

/// The second at which a message was sent, by its header.
pub open spec fn sent_at(summary: entry::SummaryView) -> Option<i64> {
    match summary.envelope {
        Some(e) => match date::envelope_date(e.date) {
            Some(d) => Some(d.seconds),
            None => None,
        },
        None => None,
    }
}

/// What tells a message from others.
pub open spec fn item_of(summary: entry::SummaryView) -> ItemView {
    ItemView {
        sent: sent_at(summary),
        sender: entry::sender_of(summary.envelope),
        subject: entry::subject_of(summary.envelope),
        size: entry::or_zero(summary.size),
    }
}

/// What tells the message `summary` from others.
pub fn make_item(summary: &MessageSummary) -> (r: ReportItem)
    ensures
        r@ == item_of(summary@),
{
    let sent: Option<i64> = match &summary.envelope {
        Some(e) => match date::parse_envelope_date(&e.date) {
            Some(d) => Some(d.seconds),
            None => None,
        },
        None => None,
    };
    let size: u32 = match summary.size {
        Some(n) => n,
        None => 0,
    };
    ReportItem {
        sent,
        sender: entry::message_sender(&summary.envelope),
        subject: entry::message_subject(&summary.envelope),
        size,
    }
}

/// Two items are the same message: they agree in all four points, and it is
/// known when they were sent.
pub open spec fn same_message(a: ItemView, b: ItemView) -> bool {
    a.sent is Some && a == b
}

/// The first item from place `j` on that is the same message as the item at
/// place `i`; that place itself where there is no earlier one.
pub open spec fn first_like(items: Seq<ItemView>, i: int, j: int) -> int
    decreases i - j,
{
    if j >= i {
        i
    } else if same_message(items[j], items[i]) {
        j
    } else {
        first_like(items, i, j + 1)
    }
}

/// The items up to `n` that are there already, each with the item that it
/// repeats.
pub open spec fn repeats(items: Seq<ItemView>, n: int) -> Seq<(int, int)>
    decreases n,
{
    if n <= 0 {
        seq![]
    } else {
        let before = repeats(items, n - 1);
        let k = first_like(items, n - 1, 0);
        if k < n - 1 {
            before.push((k, n - 1))
        } else {
            before
        }
    }
}

/// The places in a list of pairs.
pub open spec fn places(pairs: Seq<(usize, usize)>) -> Seq<(int, int)> {
    Seq::new(pairs.len(), |i: int| (pairs[i].0 as int, pairs[i].1 as int))
}

/// Whether two items are the same message.
fn is_same(a: &ReportItem, b: &ReportItem) -> (r: bool)
    ensures
        r == same_message(a@, b@),
{
    let same_time = match (a.sent, b.sent) {
        (Some(x), Some(y)) => x == y,
        _ => false,
    };
    same_time && a.size == b.size && chars::same_text(&a.sender, &b.sender) && chars::same_text(
        &a.subject,
        &b.subject,
    )
}

/// The items that are there already, each behind the item that it repeats, in
/// the order in which they stand.
pub fn find_duplicates(items: &Vec<ReportItem>) -> (r: Vec<(usize, usize)>)
    ensures
        places(r@) == repeats(item_views(items@), items@.len() as int),
{
    let ghost all = item_views(items@);
    let mut out: Vec<(usize, usize)> = Vec::new();
    let mut n: usize = 0;
    assert(places(out@) =~= repeats(all, 0));
    while n < items.len()
        invariant
            all == item_views(items@),
            n <= items.len(),
            places(out@) == repeats(all, n as int),
        decreases items.len() - n,
    {
        let ghost before = places(out@);
        let mut j: usize = 0;
        while j < n && !is_same(&items[j], &items[n])
            invariant
                all == item_views(items@),
                j <= n < items.len(),
                first_like(all, n as int, 0) == first_like(all, n as int, j as int),
            decreases n - j,
        {
            assert(all[j as int] == items@[j as int]@);
            assert(all[n as int] == items@[n as int]@);
            j += 1;
        }
        assert(j < n ==> all[j as int] == items@[j as int]@);
        assert(all[n as int] == items@[n as int]@);
        if j < n {
            out.push((j, n));
            assert(places(out@) =~= before.push((j as int, n as int)));
        }
        n += 1;
    }
    out
}

/// The numbers of the messages of a folder among the repeated items, in their
/// order. `found` tells of every item the place of its folder and its number.
pub open spec fn repeated_uids(
    pairs: Seq<(usize, usize)>,
    found: Seq<(usize, Option<u32>)>,
    folder: usize,
) -> Seq<u32>
    decreases pairs.len(),
{
    if pairs.len() == 0 {
        seq![]
    } else {
        let before = repeated_uids(pairs.drop_last(), found, folder);
        let i = pairs.last().1 as int;
        if i < found.len() && found[i].0 == folder && found[i].1 is Some {
            before.push(found[i].1->0)
        } else {
            before
        }
    }
}

/// The numbers of the messages of the folder at place `folder` among the
/// repeated items `pairs`.
pub fn repeated_in_folder(
    pairs: &Vec<(usize, usize)>,
    found: &Vec<(usize, Option<u32>)>,
    folder: usize,
) -> (r: Vec<u32>)
    ensures
        r@ == repeated_uids(pairs@, found@, folder),
{
    let mut out: Vec<u32> = Vec::new();
    let mut p: usize = 0;
    assert(out@ =~= repeated_uids(pairs@.take(0), found@, folder));
    while p < pairs.len()
        invariant
            p <= pairs.len(),
            out@ == repeated_uids(pairs@.take(p as int), found@, folder),
        decreases pairs.len() - p,
    {
        assert(pairs@.take(p + 1).drop_last() =~= pairs@.take(p as int));
        let i: usize = pairs[p].1;
        if i < found.len() && found[i].0 == folder {
            if let Some(uid) = found[i].1 {
                out.push(uid);
            }
        }
        p += 1;
    }
    assert(pairs@.take(p as int) =~= pairs@);
    out
}

/// The first item that is the same message, and those before it.
proof fn lemma_first_like(items: Seq<ItemView>, i: int, j: int)
    requires
        0 <= j <= i < items.len(),
    ensures
        j <= first_like(items, i, j) <= i,
        first_like(items, i, j) < i ==> same_message(items[first_like(items, i, j)], items[i]),
        forall|k: int|
            j <= k < first_like(items, i, j) ==> !same_message(#[trigger] items[k], items[i]),
    decreases i - j,
{
    if j < i && !same_message(items[j], items[i]) {
        lemma_first_like(items, i, j + 1);
    }
}

/// What is reported of a place: it is there once at most, and only where an
/// earlier item is the same message.
proof fn lemma_repeats(items: Seq<ItemView>, n: int)
    requires
        0 <= n <= items.len(),
    ensures
        forall|p: int|
            0 <= p < repeats(items, n).len() ==> {
                let (k, i) = #[trigger] repeats(items, n)[p];
                0 <= k < i < n && k == first_like(items, i, 0)
            },
        forall|i: int|
            0 <= i < n && #[trigger] first_like(items, i, 0) < i ==> exists|p: int|
                0 <= p < repeats(items, n).len() && #[trigger] repeats(items, n)[p] == (
                    first_like(items, i, 0),
                    i,
                ),
    decreases n,
{
    if n > 0 {
        lemma_repeats(items, n - 1);
        lemma_first_like(items, n - 1, 0);
        let before = repeats(items, n - 1);
        let all = repeats(items, n);
        assert forall|i: int| 0 <= i < n && #[trigger] first_like(items, i, 0) < i implies exists|
            p: int,
        |
            0 <= p < all.len() && #[trigger] all[p] == (first_like(items, i, 0), i) by {
            if i < n - 1 {
                let p = choose|p: int|
                    0 <= p < before.len() && #[trigger] before[p] == (first_like(items, i, 0), i);
                assert(all[p] == (first_like(items, i, 0), i));
            } else {
                assert(all[all.len() - 1] == (first_like(items, i, 0), i));
            }
        }
        assert forall|p: int| 0 <= p < all.len() implies {
            let (k, i) = #[trigger] all[p];
            0 <= k < i < n && k == first_like(items, i, 0)
        } by {
            if p < before.len() {
                assert(all[p] == before[p]);
            }
        }
    }
}

/// An item that is reported agrees in all four points with an earlier one,
/// and that one is kept: it is the first of its kind and is not reported
/// itself.
pub proof fn law_reported_item_repeats_a_kept_one(items: Seq<ItemView>, p: int)
    requires
        0 <= p < repeats(items, items.len() as int).len(),
    ensures
        ({
            let (k, i) = repeats(items, items.len() as int)[p];
            &&& 0 <= k < i < items.len()
            &&& items[k] == items[i]
            &&& first_like(items, k, 0) == k
            &&& forall|q: int|
                0 <= q < repeats(items, items.len() as int).len() ==> (#[trigger] repeats(
                    items,
                    items.len() as int,
                )[q]).1 != k
        }),
{
    let all = repeats(items, items.len() as int);
    lemma_repeats(items, items.len() as int);
    let (k, i) = all[p];
    lemma_first_like(items, i, 0);
    lemma_first_like(items, k, 0);
    assert forall|q: int| 0 <= q < all.len() implies (#[trigger] all[q]).1 != k by {
        let (a, b) = all[q];
        if b == k {
            assert(same_message(items[a], items[i]));
        }
    }
}

/// Of the items that are not reported, no two are the same message.
pub proof fn law_kept_items_are_all_different(items: Seq<ItemView>, a: int, b: int)
    requires
        0 <= a < b < items.len(),
        same_message(items[a], items[b]),
    ensures
        exists|p: int|
            0 <= p < repeats(items, items.len() as int).len() && (#[trigger] repeats(
                items,
                items.len() as int,
            )[p]).1 == b,
{
    let all = repeats(items, items.len() as int);
    lemma_repeats(items, items.len() as int);
    lemma_first_like(items, b, 0);
    assert(first_like(items, b, 0) < b) by {
        if first_like(items, b, 0) == b {
            assert(!same_message(items[a], items[b]));
        }
    }
    let p = choose|p: int|
        0 <= p < all.len() && #[trigger] all[p] == (first_like(items, b, 0), b);
    assert(all[p].1 == b);
}

/// A message whose header gives the date `text` was sent at the very second
/// that this date names, and has the sender, the subject and the size of its
/// envelope; a size that is missing counts as none.
pub proof fn law_item_tells_of_its_message(
    summary: entry::SummaryView,
    envelope: entry::EnvelopeView,
    text: Seq<char>,
    d: MailDate,
)
    requires
        summary.envelope == Some(envelope),
        envelope.date == Some(encode_utf8(text)),
        date::rfc2822_date(trim::trim(text)) == Some(d),
        date::is_date(d),
    ensures
        item_of(summary).sent == Some(d.seconds),
        item_of(summary).sender == entry::sender_of(Some(envelope)),
        item_of(summary).subject == entry::subject_of(Some(envelope)),
        summary.size matches Some(n) ==> item_of(summary).size == n,
        summary.size is None ==> item_of(summary).size == 0,
{
    unicode::lemma_utf8_text(text);
}

/// A message without a header, or without a date in it, is sent at no time.
pub proof fn law_undated_message_was_sent_at_no_time(summary: entry::SummaryView)
    requires
        summary.envelope matches Some(e) ==> date::envelope_date(e.date) is None,
    ensures
        item_of(summary).sent is None,
{
}

/// Two dated messages are the same exactly where they were sent at the same
/// second, by the same sender, with the same subject, and have the same size.
pub proof fn law_same_messages_agree_to_the_second(
    a: entry::SummaryView,
    b: entry::SummaryView,
    d: MailDate,
    e: MailDate,
)
    requires
        a.envelope matches Some(x) && date::envelope_date(x.date) == Some(d),
        b.envelope matches Some(x) && date::envelope_date(x.date) == Some(e),
        a.size is Some,
        b.size is Some,
    ensures
        same_message(item_of(a), item_of(b)) <==> {
            &&& d.seconds == e.seconds
            &&& entry::sender_of(a.envelope) == entry::sender_of(b.envelope)
            &&& entry::subject_of(a.envelope) == entry::subject_of(b.envelope)
            &&& a.size == b.size
        },
        d.seconds != e.seconds ==> repeats(seq![item_of(a), item_of(b)], 2) == Seq::<
            (int, int),
        >::empty(),
{
    let items = seq![item_of(a), item_of(b)];
    reveal_with_fuel(repeats, 3);
    reveal_with_fuel(first_like, 3);
}

/// An item that is dated is reported exactly where an earlier one agrees with
/// it in all four points, and one that is not dated is never reported.
pub proof fn law_what_is_there_already_is_reported(items: Seq<ItemView>, i: int)
    requires
        0 <= i < items.len(),
    ensures
        (exists|p: int|
            0 <= p < repeats(items, items.len() as int).len() && (#[trigger] repeats(
                items,
                items.len() as int,
            )[p]).1 == i) <==> {
            &&& items[i].sent is Some
            &&& exists|j: int|
                0 <= j < i && (#[trigger] items[j]).sent == items[i].sent && items[j].sender
                    == items[i].sender && items[j].subject == items[i].subject && items[j].size
                    == items[i].size
        },
{
    let all = repeats(items, items.len() as int);
    lemma_repeats(items, items.len() as int);
    lemma_first_like(items, i, 0);
    if items[i].sent is Some && exists|j: int|
        0 <= j < i && (#[trigger] items[j]).sent == items[i].sent && items[j].sender
            == items[i].sender && items[j].subject == items[i].subject && items[j].size
            == items[i].size {
        let j = choose|j: int|
            0 <= j < i && (#[trigger] items[j]).sent == items[i].sent && items[j].sender
                == items[i].sender && items[j].subject == items[i].subject && items[j].size
                == items[i].size;
        assert(items[j] == items[i]);
        law_kept_items_are_all_different(items, j, i);
    }
    if exists|p: int| 0 <= p < all.len() && (#[trigger] all[p]).1 == i {
        let p = choose|p: int| 0 <= p < all.len() && (#[trigger] all[p]).1 == i;
        let (k, _) = all[p];
        assert(same_message(items[k], items[i]));
    }
}

/// Of the repeated items, exactly those of the given folder that have a number
/// are handed over, in their order: one more item adds its number, or nothing.
pub proof fn law_repeated_messages_of_a_folder(
    pairs: Seq<(usize, usize)>,
    kept: usize,
    item: usize,
    found: Seq<(usize, Option<u32>)>,
    folder: usize,
)
    requires
        item < found.len(),
    ensures
        repeated_uids(seq![], found, folder) == Seq::<u32>::empty(),
        found[item as int].0 == folder ==> (found[item as int].1 matches Some(uid)
            ==> repeated_uids(pairs.push((kept, item)), found, folder) == repeated_uids(
            pairs,
            found,
            folder,
        ).push(uid)),
        found[item as int].0 != folder || found[item as int].1 is None ==> repeated_uids(
            pairs.push((kept, item)),
            found,
            folder,
        ) == repeated_uids(pairs, found, folder),
{
    assert(pairs.push((kept, item)).drop_last() =~= pairs);
}

} // verus!
