//! The lines of a listing.

use vstd::prelude::*;
use vstd::utf8::*;
use crate::config::AccountConfig;
use crate::date;
use crate::date::{Clock, MailDate};
use crate::listing;
use crate::listing::{Progress, Request};
use crate::mailpath;
use crate::names;
use crate::rfc2047;
use crate::text::{chars, number, pieces, trim, unicode};
use crate::utf7;

verus! {

/// An address in an envelope.
#[derive(Debug)]
pub struct Address {
    pub name: Option<Vec<u8>>,
    pub mailbox: Option<Vec<u8>>,
    pub host: Option<Vec<u8>>,
}

/// What the server tells of a message's header.
#[derive(Debug)]
pub struct Envelope {
    pub date: Option<Vec<u8>>,
    pub subject: Option<Vec<u8>>,
    pub from: Option<Vec<Address>>,
}

/// What the server tells of a message in a listing.
#[derive(Debug)]
pub struct MessageSummary {
    pub uid: Option<u32>,
    pub size: Option<u32>,
    pub internal_date: Option<MailDate>,
    pub envelope: Option<Envelope>,
}

/// The contents of an address.
pub struct AddressView {
    pub name: Option<Seq<u8>>,
    pub mailbox: Option<Seq<u8>>,
    pub host: Option<Seq<u8>>,
}

/// The contents of an envelope, of whose senders the first counts.
pub struct EnvelopeView {
    pub date: Option<Seq<u8>>,
    pub subject: Option<Seq<u8>>,
    pub sender: Option<AddressView>,
}

/// The contents of a summary.
pub struct SummaryView {
    pub uid: Option<u32>,
    pub size: Option<u32>,
    pub internal_date: Option<MailDate>,
    pub envelope: Option<EnvelopeView>,
}

impl View for Address {
    type V = AddressView;

    open spec fn view(&self) -> AddressView {
        AddressView {
            name: date::opt_bytes(self.name),
            mailbox: date::opt_bytes(self.mailbox),
            host: date::opt_bytes(self.host),
        }
    }
}

impl View for Envelope {
    type V = EnvelopeView;

    open spec fn view(&self) -> EnvelopeView {
        EnvelopeView {
            date: date::opt_bytes(self.date),
            subject: date::opt_bytes(self.subject),
            sender: match self.from {
                Some(list) => if list@.len() > 0 {
                    Some(list@[0]@)
                } else {
                    None
                },
                None => None,
            },
        }
    }
}

impl View for MessageSummary {
    type V = SummaryView;

    open spec fn view(&self) -> SummaryView {
        SummaryView {
            uid: self.uid,
            size: self.size,
            internal_date: self.internal_date,
            envelope: match self.envelope {
                Some(e) => Some(e@),
                None => None,
            },
        }
    }
}

/// The text of optional bytes; empty where there are none.
pub open spec fn bytes_text(bytes: Option<Seq<u8>>) -> Seq<char> {
    match bytes {
        Some(b) => unicode::utf8_text(b),
        None => seq![],
    }
}

/// The readable form of optional header bytes, or another text where there are
/// none.
pub open spec fn readable_or(bytes: Option<Seq<u8>>, otherwise: Seq<char>) -> Seq<char> {
    match bytes {
        Some(b) => rfc2047::header_text(unicode::utf8_text(b)),
        None => otherwise,
    }
}

/// The mail address of a sender; empty where a part of it is missing.
pub open spec fn sender_address(sender: AddressView) -> Seq<char> {
    let mailbox = bytes_text(sender.mailbox);
    let host = bytes_text(sender.host);
    if mailbox.len() > 0 && host.len() > 0 {
        mailbox + seq!['@'] + host
    } else {
        seq![]
    }
}

/// A sender by name and address, either where there is no other, and the
/// address alone where it is the name.
pub open spec fn sender_text(name: Seq<char>, address: Seq<char>) -> Seq<char> {
    if name.len() > 0 && address.len() > 0 {
        if chars::same_ignoring_case(name, address) {
            address
        } else {
            name + " ("@ + address + seq![')']
        }
    } else if name.len() > 0 {
        name
    } else if address.len() > 0 {
        address
    } else {
        "unknown"@
    }
}

/// The sender of a message.
pub open spec fn sender_of(envelope: Option<EnvelopeView>) -> Seq<char> {
    match envelope {
        Some(e) => match e.sender {
            Some(s) => sender_text(readable_or(s.name, seq![]), sender_address(s)),
            None => "unknown"@,
        },
        None => "unknown"@,
    }
}

/// The subject of a message.
pub open spec fn subject_of(envelope: Option<EnvelopeView>) -> Seq<char> {
    match envelope {
        Some(e) => readable_or(e.subject, "(no subject)"@),
        None => "(no subject)"@,
    }
}

/// The front of an entry's name: the message number in brackets.
pub open spec fn uid_part(uid: u32) -> Seq<char> {
    seq!['['] + number::decimal(uid as nat) + seq![']', ' ']
}

/// The end of an entry's name: the sender, cut down to 45 characters.
pub open spec fn sender_part(sender: Seq<char>) -> Seq<char> {
    " - "@ + names::truncated(names::sanitized(sender), 45) + ".eml"@
}

/// The number of characters left for the subject in a name of 160, and never
/// fewer than 30.
pub open spec fn subject_room(uid: u32, sender: Seq<char>) -> nat {
    let taken = uid_part(uid).len() + sender_part(sender).len();
    if taken + 30 <= 160 {
        (160 - taken) as nat
    } else {
        30
    }
}

/// The name of a message's entry.
pub open spec fn entry_name(uid: u32, subject: Seq<char>, sender: Seq<char>) -> Seq<char> {
    uid_part(uid) + names::truncated(names::sanitized(subject), subject_room(uid, sender))
        + sender_part(sender)
}

/// The number, or none.
pub open spec fn or_zero(n: Option<u32>) -> u32 {
    match n {
        Some(x) => x,
        None => 0,
    }
}

/// The line of a message in a listing, with its date as it is shown.
pub open spec fn entry_line(summary: SummaryView, shown: Seq<char>) -> Seq<char> {
    seq!['"'] + entry_name(
        or_zero(summary.uid),
        subject_of(summary.envelope),
        sender_of(summary.envelope),
    ) + "\",A:H20,S:"@ + number::decimal(or_zero(summary.size) as nat) + ",W:"@ + shown + "\r\n"@
}

/// The line of a directory in a listing.
pub open spec fn directory_entry(name: Seq<char>, now: Seq<char>) -> Seq<char> {
    seq!['"'] + name + "\",A:H10,W:"@ + now + "\r\n"@
}

/// The date of a message.
pub open spec fn summary_date(summary: SummaryView, source: Seq<char>) -> Option<MailDate> {
    date::message_date(
        summary.internal_date,
        match summary.envelope {
            Some(e) => date::envelope_date(e.date),
            None => None,
        },
        source,
    )
}

/// The line of a message in a listing. `local` is the offset of this machine's
/// clock at the message's date, and `now` stands in for a missing date.
pub open spec fn message_line(
    summary: SummaryView,
    clock: Clock,
    source: Seq<char>,
    local: Option<i32>,
    now: Seq<char>,
) -> Seq<char> {
    entry_line(summary, date::listed_date(summary_date(summary, source), clock, local, now))
}

/// The text of `bytes`.
fn text_or_empty(bytes: &Option<Vec<u8>>) -> (r: String)
    ensures
        r@ == bytes_text(date::opt_bytes(*bytes)),
{
    match bytes {
        Some(b) => unicode::text_of_bytes(b),
        None => {
            let r = String::new();
            assert(r@ =~= seq![]);
            r
        },
    }
}

/// The readable form of `bytes`, or `otherwise`.
fn readable(bytes: &Option<Vec<u8>>, otherwise: &str) -> (r: String)
    ensures
        r@ == readable_or(date::opt_bytes(*bytes), otherwise@),
{
    match bytes {
        Some(b) => rfc2047::decode_mime_header(b),
        None => otherwise.to_owned(),
    }
}

/// The mail address of `sender`.
fn address_of(sender: &Address) -> (r: String)
    ensures
        r@ == sender_address(sender@),
{
    let mailbox = text_or_empty(&sender.mailbox);
    let host = text_or_empty(&sender.host);
    if mailbox.as_str().unicode_len() > 0 && host.as_str().unicode_len() > 0 {
        let mut r = mailbox;
        r.push('@');
        r.append(&host);
        assert(r@ =~= sender_address(sender@));
        r
    } else {
        let r = String::new();
        assert(r@ =~= seq![]);
        r
    }
}

/// A sender by name and address.
pub fn combine_sender(name: String, address: String) -> (r: String)
    ensures
        r@ == sender_text(name@, address@),
{
    if name.as_str().unicode_len() > 0 && address.as_str().unicode_len() > 0 {
        if chars::eq_ignore_case(&name, &address) {
            address
        } else {
            let mut r = name;
            r.append(" (");
            r.append(&address);
            r.push(')');
            assert(r@ =~= sender_text(name@, address@));
            r
        }
    } else if name.as_str().unicode_len() > 0 {
        name
    } else if address.as_str().unicode_len() > 0 {
        address
    } else {
        "unknown".to_owned()
    }
}

/// The sender of the message with the envelope `envelope`.
pub fn message_sender(envelope: &Option<Envelope>) -> (r: String)
    ensures
        r@ == sender_of(
            match *envelope {
                Some(e) => Some(e@),
                None => None,
            },
        ),
{
    proof {
        reveal_strlit("");
        assert(""@ =~= seq![]);
    }
    if let Some(e) = envelope {
        if let Some(list) = &e.from {
            if list.len() > 0 {
                let name = readable(&list[0].name, "");
                let address = address_of(&list[0]);
                return combine_sender(name, address);
            }
        }
    }
    "unknown".to_owned()
}

/// The subject of the message with the envelope `envelope`.
pub fn message_subject(envelope: &Option<Envelope>) -> (r: String)
    ensures
        r@ == subject_of(
            match *envelope {
                Some(e) => Some(e@),
                None => None,
            },
        ),
{
    match envelope {
        Some(e) => readable(&e.subject, "(no subject)"),
        None => "(no subject)".to_owned(),
    }
}

/// The name of the entry of a message.
pub fn make_entry_name(uid: u32, subject: &str, sender: &str) -> (r: String)
    ensures
        r@ == entry_name(uid, subject@, sender@),
{
    let mut front = String::new();
    front.push('[');
    front.append(&number::decimal_text(uid as u64));
    front.push(']');
    front.push(' ');
    assert(front@ =~= uid_part(uid));
    let clean_sender = names::truncate_str(&names::sanitize_filename(sender), 45);
    let mut end = chars::concat2(" - ", &clean_sender);
    end.append(".eml");
    assert(end@ =~= sender_part(sender@));
    proof {
        lemma_parts_are_short(uid, sender@);
    }
    let taken: usize = front.as_str().unicode_len() + end.as_str().unicode_len();
    let room: usize = if taken + 30 <= 160 {
        160 - taken
    } else {
        30
    };
    let clean_subject = names::truncate_str(&names::sanitize_filename(subject), room);
    let mut r = front;
    r.append(&clean_subject);
    r.append(&end);
    r
}

/// The line of the message `summary` in a listing, with its date as `shown`.
pub fn make_entry_line(summary: &MessageSummary, shown: &str) -> (r: String)
    ensures
        r@ == entry_line(summary@, shown@),
{
    let uid: u32 = match summary.uid {
        Some(n) => n,
        None => 0,
    };
    let size: u32 = match summary.size {
        Some(n) => n,
        None => 0,
    };
    let sender = message_sender(&summary.envelope);
    let subject = message_subject(&summary.envelope);
    let name = make_entry_name(uid, &subject, &sender);
    let mut r = String::new();
    r.push('"');
    r.append(&name);
    r.append("\",A:H20,S:");
    r.append(&number::decimal_text(size as u64));
    r.append(",W:");
    r.append(shown);
    r.append("\r\n");
    assert(r@ =~= entry_line(summary@, shown@));
    r
}

/// The line of the directory `name` in a listing made at the time `now`.
pub fn directory_line(name: &str, now: &str) -> (r: String)
    ensures
        r@ == directory_entry(name@, now@),
{
    let mut r = String::new();
    r.push('"');
    r.append(name);
    r.append("\",A:H10,W:");
    r.append(now);
    r.append("\r\n");
    assert(r@ =~= directory_entry(name@, now@));
    r
}

/// The line with which every listing begins.
pub fn list_heading() -> (r: String)
    ensures
        r@ == ";ListFile\r\n"@,
{
    ";ListFile\r\n".to_owned()
}

/// What a listing needs before its entries can be written.
#[derive(Debug, Clone, Copy, PartialEq, Eq, Structural)]
pub enum ListStep {
    /// The settings of the account.
    Settings,
    /// The account among the settings.
    Account,
    /// A connection to the server.
    Connection,
    /// What there is to list.
    Contents,
}

/// What a listing opens with once a step has succeeded or failed. The heading
/// comes with the contents. It comes as well where the settings or the
/// connection are missing, so that an empty listing is found; where another
/// step fails, nothing is written.
pub open spec fn opening(step: ListStep, succeeded: bool) -> Seq<char> {
    let heading_on_success = step is Contents;
    let heading_on_failure = step is Settings || step is Connection;
    if succeeded && heading_on_success || !succeeded && heading_on_failure {
        ";ListFile\r\n"@
    } else {
        seq![]
    }
}

/// What a listing opens with once `step` has succeeded or failed.
pub fn write_opening(step: ListStep, succeeded: bool) -> (r: String)
    ensures
        r@ == opening(step, succeeded),
{
    let heading = match step {
        ListStep::Settings | ListStep::Connection => !succeeded,
        ListStep::Account => false,
        ListStep::Contents => succeeded,
    };
    if heading {
        list_heading()
    } else {
        let none = String::new();
        assert(none@ =~= seq![]);
        none
    }
}

/// The line of the folder that the server calls `name` in a listing made at
/// the time `now`. A folder without a name is left out.
pub fn folder_line(name: &str, now: &str) -> (r: Option<String>)
    ensures
        match r {
            Some(line) => name@.len() > 0 && line@ == directory_entry(utf7::decode(name@), now@),
            None => name@.len() == 0,
        },
{
    if name.unicode_len() == 0 {
        return None;
    }
    Some(directory_line(&utf7::decode_modified_utf7(name), now))
}

/// The date of the message `summary`.
pub fn date_of(summary: &MessageSummary, source: &str) -> (r: Option<MailDate>)
    ensures
        r == summary_date(summary@, source@),
{
    let header = match &summary.envelope {
        Some(e) => date::parse_envelope_date(&e.date),
        None => None,
    };
    date::choose_date(summary.internal_date, header, source)
}

/// The line of the message `summary` in a listing. `local` is the offset of
/// this machine's clock at the message's date.
pub fn message_line_at(
    summary: &MessageSummary,
    timezone: &str,
    source: &str,
    local: Option<i32>,
    now: &str,
) -> (r: String)
    ensures
        r@ == message_line(summary@, date::clock_of(timezone@), source@, local, now@),
{
    let date = date_of(summary, source);
    let shown = date::format_message_date(date, timezone, local, now);
    make_entry_line(summary, &shown)
}

/// The text is a line of the message in a listing of an account. Where dates
/// are shown by the machine's clock, it is the line at an offset that this
/// clock may have at the message's date.
pub open spec fn is_line_of(
    line: Seq<char>,
    summary: SummaryView,
    acc: &AccountConfig,
    now: Seq<char>,
) -> bool {
    exists|local: Option<i32>|
        date::may_be_offset_for(
            summary_date(summary, acc.date_source@),
            date::clock_of(acc.timezone@),
            local,
        ) && line == #[trigger] message_line(
            summary,
            date::clock_of(acc.timezone@),
            acc.date_source@,
            local,
            now,
        )
}

/// The line of the message `summary` in a listing of the account `acc`. Where
/// dates are shown by this machine's clock, its offset is the machine's own.
pub fn write_message_entry(summary: &MessageSummary, acc: &AccountConfig, now: &str) -> (r: String)
    ensures
        is_line_of(r@, summary@, acc, now@),
{
    let clock = date::clock_named(&acc.timezone);
    let local = date::offset_for(date_of(summary, &acc.date_source), clock);
    message_line_at(summary, &acc.timezone, &acc.date_source, local, now)
}

/// The place in an answer of `n` messages of the message that is listed at
/// place `i`. A server answers with the oldest first; a listing begins with
/// the newest.
pub open spec fn answered_at(request: Request, n: int, i: int) -> int {
    if request is Range {
        n - 1 - i
    } else {
        i
    }
}

/// The messages of an answer in the order in which they are listed.
pub open spec fn listed_order(request: Request, answer: Seq<SummaryView>) -> Seq<SummaryView> {
    Seq::new(answer.len(), |i: int| answer[answered_at(request, answer.len() as int, i)])
}

/// The contents of a list of messages.
pub open spec fn summary_views(summaries: Seq<MessageSummary>) -> Seq<SummaryView> {
    Seq::new(summaries.len(), |i: int| summaries[i]@)
}

/// The lines of the messages with which the server answered `request`.
pub fn write_message_entries(
    request: Request,
    summaries: &Vec<MessageSummary>,
    acc: &AccountConfig,
    now: &str,
) -> (r: Vec<String>)
    ensures
        r.len() == summaries.len(),
        forall|i: int|
            0 <= i < r.len() ==> is_line_of(
                #[trigger] r[i]@,
                listed_order(request, summary_views(summaries@))[i],
                acc,
                now@,
            ),
{
    let mut r: Vec<String> = Vec::new();
    let n: usize = summaries.len();
    while r.len() < n
        invariant
            r.len() <= n,
            n == summaries.len(),
            forall|i: int|
                0 <= i < r.len() ==> is_line_of(
                    #[trigger] r[i]@,
                    listed_order(request, summary_views(summaries@))[i],
                    acc,
                    now@,
                ),
        decreases n - r.len(),
    {
        let i: usize = match request {
            Request::Range(_, _) => n - 1 - r.len(),
            _ => r.len(),
        };
        r.push(write_message_entry(&summaries[i], acc, now));
    }
    r
}

// ---------------------------------------------------------------------------
// Laws
// ---------------------------------------------------------------------------

/// The front and the end of an entry's name leave room for the subject.
proof fn lemma_parts_are_short(uid: u32, sender: Seq<char>)
    ensures
        uid_part(uid).len() <= 13,
        sender_part(sender).len() <= 52,
{
    assert(number::decimal(uid as nat).len() <= 10) by {
        reveal_with_fuel(number::decimal, 11);
    }
    reveal_strlit(" - ");
    reveal_strlit(".eml");
    names::law_truncated_fits(names::sanitized(sender), 45);
}

/// What a folder answers to a request: the messages that it asks for, the
/// oldest first.
pub open spec fn answer_of(mailbox: Seq<SummaryView>, request: Request) -> Seq<SummaryView> {
    match request {
        Request::Range(a, b) => mailbox.subrange(a - 1, b as int),
        Request::One(n) => seq![mailbox[n - 1]],
        Request::Nothing => seq![],
    }
}

/// The messages of a folder in the order in which their lines are written,
/// where every one of the requests is answered.
pub open spec fn listed(mailbox: Seq<SummaryView>, requests: Seq<Request>) -> Seq<SummaryView>
    decreases requests.len(),
{
    if requests.len() == 0 {
        seq![]
    } else {
        listed_order(requests[0], answer_of(mailbox, requests[0])) + listed(
            mailbox,
            requests.drop_first(),
        )
    }
}

/// The messages of a folder from the newest one down to the oldest one that are
/// wanted.
pub open spec fn newest_first(mailbox: Seq<SummaryView>, first: int, last: int) -> Seq<SummaryView> {
    Seq::new((last - first + 1) as nat, |i: int| mailbox[last - 1 - i])
}

/// A listing whose requests are all answered lists its messages newest first.
proof fn lemma_listed_newest_first(
    l: listing::Listing,
    last: u32,
    mailbox: Seq<SummaryView>,
)
    requires
        l.wf(),
        l.progress == (Progress::Stretch { last }),
        last <= mailbox.len(),
    ensures
        listed(mailbox, listing::requests(l)) == newest_first(mailbox, l.first as int, last as int),
    decreases last,
{
    let low = l.stretch_start(last);
    let next = l.after(true);
    let all = listing::requests(l);
    let rest = listing::requests(next);
    let front = listed_order(all[0], answer_of(mailbox, all[0]));
    assert(all == seq![l.request()] + rest);
    assert(all.drop_first() =~= rest);
    assert(all[0] == Request::Range(low as u32, last));
    assert(front =~= newest_first(mailbox, low, last as int));
    if low <= l.first {
        assert(next.request() is Nothing);
        assert(rest =~= seq![]);
        assert(listed(mailbox, rest) =~= seq![]);
    } else {
        lemma_listed_newest_first(next, (low - 1) as u32, mailbox);
    }
    assert(listed(mailbox, all) =~= newest_first(mailbox, l.first as int, last as int));
}

/// Listing by chunks writes the same messages in the same order as listing all
/// at once, whatever the size of the chunks: the newest first.
pub proof fn law_chunks_list_the_same(
    total: u32,
    limit: u32,
    offset: u32,
    one: Option<u32>,
    other: Option<u32>,
    mailbox: Seq<SummaryView>,
)
    requires
        mailbox.len() == total,
    ensures
        match (
            listing::begun(total, limit, offset, one),
            listing::begun(total, limit, offset, other),
        ) {
            (Some(a), Some(b)) => {
                &&& listed(mailbox, listing::requests(a)) == listed(mailbox, listing::requests(b))
                &&& listing::seq_range(total, limit, offset) matches Some((first, last)) && listed(
                    mailbox,
                    listing::requests(a),
                ) == newest_first(mailbox, first as int, last as int)
            },
            (None, None) => listing::seq_range(total, limit, offset) is None,
            _ => false,
        },
{
    if let Some((first, last)) = listing::seq_range(total, limit, offset) {
        let a = listing::begun(total, limit, offset, one)->0;
        let b = listing::begun(total, limit, offset, other)->0;
        lemma_listed_newest_first(a, last, mailbox);
        lemma_listed_newest_first(b, last, mailbox);
    }
}

/// The time of a listing does not show in the line of a message that has a
/// date, be it the server's or its header's.
pub proof fn law_dated_message_is_listed_with_its_date(
    summary: SummaryView,
    clock: Clock,
    source: Seq<char>,
    local: Option<i32>,
    now: Seq<char>,
    later: Seq<char>,
)
    requires
        summary.internal_date matches Some(d) ==> date::is_date(d),
        summary_date(summary, source) is Some,
        date::may_be_offset_for(summary_date(summary, source), clock, local),
    ensures
        message_line(summary, clock, source, local, now) == message_line(
            summary,
            clock,
            source,
            local,
            later,
        ),
{
    let d = summary_date(summary, source)->0;
    date::law_date_is_listed(d, clock, local, now);
    date::law_date_is_listed(d, clock, local, later);
}

/// An entry's name has at most 160 characters.
pub proof fn law_entry_name_is_short(uid: u32, subject: Seq<char>, sender: Seq<char>)
    ensures
        entry_name(uid, subject, sender).len() <= 160,
{
    lemma_parts_are_short(uid, sender);
    names::law_truncated_fits(names::sanitized(subject), subject_room(uid, sender));
}

/// The message number can be read back from an entry's name.
pub proof fn law_uid_is_read_back(uid: u32, subject: Seq<char>, sender: Seq<char>)
    ensures
        names::uid_in(entry_name(uid, subject, sender)) == Some(uid as nat),
{
    let middle = names::truncated(names::sanitized(subject), subject_room(uid, sender));
    let rest = seq![' '] + middle + sender_part(sender);
    names::law_leading_uid_is_read(uid, rest);
    assert(entry_name(uid, subject, sender) =~= seq!['['] + number::decimal(uid as nat) + seq![']']
        + rest);
}

/// An entry's name holds nothing that cannot stand in a file name.
pub proof fn law_entry_name_is_safe(uid: u32, subject: Seq<char>, sender: Seq<char>)
    ensures
        forall|i: int|
            0 <= i < entry_name(uid, subject, sender).len() ==> !names::is_forbidden(
                #[trigger] entry_name(uid, subject, sender)[i],
            ),
{
    let front = uid_part(uid);
    let middle = names::truncated(names::sanitized(subject), subject_room(uid, sender));
    let who = names::truncated(names::sanitized(sender), 45);
    let end = sender_part(sender);
    let name = entry_name(uid, subject, sender);
    let digits = number::decimal(uid as nat);
    number::lemma_decimal(uid as nat);
    names::law_truncated_stays_safe(names::sanitized(subject), subject_room(uid, sender));
    names::law_truncated_stays_safe(names::sanitized(sender), 45);
    reveal_strlit(" - ");
    reveal_strlit(".eml");
    assert forall|i: int| 0 <= i < name.len() implies !names::is_forbidden(#[trigger] name[i]) by {
        if i < front.len() {
            assert(name[i] == front[i]);
            if 0 < i <= digits.len() {
                assert(front[i] == digits[i - 1]);
                assert(number::is_digit(digits[i - 1]));
            }
        } else if i < front.len() + middle.len() {
            assert(name[i] == middle[i - front.len()]);
        } else {
            let j = i - front.len() - middle.len();
            assert(name[i] == end[j]);
            if 3 <= j < 3 + who.len() {
                assert(end[j] == who[j - 3]);
            }
        }
    }
}

/// The path of a listed message leads back to it: below its account and its
/// folder, its entry's name gives the account, the folder and the number that
/// it was listed under.
pub proof fn law_listed_message_is_found_again(
    account: Seq<char>,
    folder: Seq<Seq<char>>,
    uid: u32,
    subject: Seq<char>,
    sender: Seq<char>,
)
    requires
        mailpath::is_segment(account) && !account.contains('\\'),
        folder.len() > 0,
        forall|i: int|
            0 <= i < folder.len() ==> mailpath::is_segment(#[trigger] folder[i])
                && !folder[i].contains('\\'),
    ensures
        ({
            let name = entry_name(uid, subject, sender);
            mailpath::mail_path(
                "aux://S_auximap/"@ + pieces::join(seq![account] + folder + seq![name], seq!['/']),
            ) == Some(
                mailpath::MailPathView {
                    account: Some(account),
                    folder: Some(pieces::join(folder, seq!['/'])),
                    filename: Some(name),
                    uid: Some(uid),
                },
            )
        }),
{
    let name = entry_name(uid, subject, sender);
    let middle = names::truncated(names::sanitized(subject), subject_room(uid, sender));
    let rest = seq![' '] + middle + sender_part(sender);
    let head = "aux://S_auximap/"@;
    let segs = seq![account] + folder + seq![name];
    let tail = pieces::join(segs, seq!['/']);
    reveal_strlit("aux://S_auximap/");
    reveal_strlit("aux://s_auximap/");
    reveal_strlit(".eml");
    assert(name =~= seq!['['] + number::decimal(uid as nat) + seq![']'] + rest);
    assert(name[0] == '[');
    assert(name.last() == 'l');
    trim::lemma_trim_is_same(name);
    law_entry_name_is_safe(uid, subject, sender);
    assert(mailpath::is_segment(name));
    mailpath::law_message_path_is_taken_apart(account, folder, uid, rest);
    assert forall|i: int| 0 <= i < segs.len() implies !(#[trigger] segs[i]).contains('\\') by {
        if 0 < i < segs.len() - 1 {
            assert(segs[i] == folder[i - 1]);
        }
    }
    pieces::lemma_join_holds(segs, seq!['/'], '\\');
    assert(tail.last() == name.last());
    assert(unicode::ascii_lower(head) =~= mailpath::prefixes()[0]);
    assert(is_ascii_chars(head));
    mailpath::law_prefix_is_taken_off(0, head, tail);
}

} // verus!
