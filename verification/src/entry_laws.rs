//! What a listing shows of a message, and how dates are read and shown.

use vstd::prelude::*;
use vstd::utf8::*;
use crate::date;
use crate::date::{Clock, MailDate};
use crate::entry;
use crate::entry::{AddressView, EnvelopeView, SummaryView};
use crate::listing::Request;
use crate::names;
use crate::rfc2047;
use crate::text::{number, trim, unicode};

verus! {

// ---------------------------------------------------------------------------
// Dates
// ---------------------------------------------------------------------------

/// The settings `server` and `raw` ask for the clock of the sender's server,
/// `utc` for that of Greenwich, and every other one for the machine's own.
pub proof fn law_clocks_have_names(timezone: Seq<char>)
    ensures
        date::clock_of(timezone) is Server <==> timezone == "server"@ || timezone == "raw"@,
        date::clock_of(timezone) is Utc <==> timezone == "utc"@,
        date::clock_of(timezone) is Local <==> timezone != "server"@ && timezone != "raw"@
            && timezone != "utc"@,
{
    reveal_strlit("server");
    reveal_strlit("raw");
    reveal_strlit("utc");
    assert("raw"@[0] == 'r' && "utc"@[0] == 'u');
}

/// A date is shown to the second, by the offset that it was written with, by
/// none, or by that of the machine, as the clock asks for.
pub proof fn law_date_is_shown_by_its_clock(d: MailDate, local: i32)
    requires
        date::is_date(d),
        -86_400 < local < 86_400,
    ensures
        date::shown_date(d, Clock::Server, Some(local)) == Some(
            date::clock_text(d.seconds, d.nanos, d.offset, "%Y-%m-%d %H:%M:%S"@),
        ),
        date::shown_date(d, Clock::Utc, Some(local)) == Some(
            date::clock_text(d.seconds, d.nanos, 0, "%Y-%m-%d %H:%M:%S"@),
        ),
        date::shown_date(d, Clock::Local, Some(local)) == Some(
            date::clock_text(d.seconds, d.nanos, local, "%Y-%m-%d %H:%M:%S"@),
        ),
{
}

/// A message is dated by the server, or by its header where the setting is
/// `header`; where the preferred date is missing, the other one counts.
pub proof fn law_preferred_date_counts(
    internal: MailDate,
    header: MailDate,
    source: Seq<char>,
)
    ensures
        source == "header"@ ==> date::message_date(Some(internal), Some(header), source) == Some(
            header,
        ),
        source != "header"@ ==> date::message_date(Some(internal), Some(header), source) == Some(
            internal,
        ),
        date::message_date(Some(internal), None, source) == Some(internal),
        date::message_date(None, Some(header), source) == Some(header),
        date::message_date(None, None, source) is None,
{
}

/// A header's date is the one that its text names, white space around it left
/// out, and that of an envelope is read from its bytes as UTF-8.
pub proof fn law_header_names_its_date(text: Seq<char>)
    ensures
        match date::rfc2822_date(trim::trim(text)) {
            Some(d) => date::is_date(d) ==> date::header_date(text) == Some(d)
                && date::envelope_date(Some(encode_utf8(text))) == Some(d),
            None => date::header_date(text) is None && date::envelope_date(
                Some(encode_utf8(text)),
            ) is None,
        },
        date::envelope_date(None) is None,
{
    unicode::lemma_utf8_text(text);
}

// ---------------------------------------------------------------------------
// Senders and subjects
// ---------------------------------------------------------------------------

/// A sender is shown by name with the address in round brackets behind it, by
/// the address alone where the name is the address, and by the one of the two
/// that there is. An address needs both of its parts.
pub proof fn law_senders_are_shown(
    name: Seq<char>,
    mailbox: Seq<char>,
    host: Seq<char>,
    date: Option<Seq<u8>>,
    subject: Option<Seq<u8>>,
)
    requires
        name.len() > 0,
        rfc2047::header_text(name) == name,
        mailbox.len() > 0,
        host.len() > 0,
    ensures
        ({
            let of = |n: Option<Seq<u8>>, m: Option<Seq<u8>>, h: Option<Seq<u8>>|
                entry::sender_of(
                    Some(
                        EnvelopeView {
                            date,
                            subject,
                            sender: Some(AddressView { name: n, mailbox: m, host: h }),
                        },
                    ),
                );
            let n = Some(encode_utf8(name));
            let m = Some(encode_utf8(mailbox));
            let h = Some(encode_utf8(host));
            let address = mailbox + seq!['@'] + host;
            &&& unicode::ascii_lower(name) != unicode::ascii_lower(address) ==> of(n, m, h) == name
                + seq![' ', '('] + address + seq![')']
            &&& unicode::ascii_lower(name) == unicode::ascii_lower(address) ==> of(n, m, h)
                == address
            &&& of(None, m, h) == address
            &&& of(n, None, h) == name
            &&& of(n, m, None) == name
            &&& of(None, None, None) == "unknown"@
        }),
        entry::sender_of(Some((EnvelopeView { date, subject, sender: None }))) == "unknown"@,
        entry::sender_of(None) == "unknown"@,
{
    reveal_strlit(" (");
    assert(" ("@ =~= seq![' ', '(']);
    unicode::lemma_utf8_text(name);
    unicode::lemma_utf8_text(mailbox);
    unicode::lemma_utf8_text(host);
}

/// A subject is shown in its readable form; a message without one has
/// `(no subject)`.
pub proof fn law_subjects_are_shown(
    subject: Seq<char>,
    date: Option<Seq<u8>>,
    sender: Option<AddressView>,
)
    ensures
        entry::subject_of(
            Some((EnvelopeView { date, subject: Some(encode_utf8(subject)), sender })),
        ) == rfc2047::header_text(subject),
        entry::subject_of(Some((EnvelopeView { date, subject: None, sender }))) == "(no subject)"@,
        entry::subject_of(None) == "(no subject)"@,
{
    unicode::lemma_utf8_text(subject);
}

// ---------------------------------------------------------------------------
// Entries
// ---------------------------------------------------------------------------

/// `s` holds nothing that becomes an underscore.
pub open spec fn is_safe(s: Seq<char>) -> bool {
    names::sanitized(s) == s
}

/// The name of an entry is the message number in square brackets, a space, the
/// subject, a hyphen between spaces, the sender, and `.eml`, where the sender
/// has at most 45 characters and the whole name at most 160.
pub proof fn law_short_entry_names_are_complete(uid: u32, subject: Seq<char>, sender: Seq<char>)
    requires
        is_safe(subject),
        is_safe(sender),
        sender.len() <= 45,
        number::decimal(uid as nat).len() + subject.len() + sender.len() + 10 <= 160,
    ensures
        entry::entry_name(uid, subject, sender) == seq!['['] + number::decimal(uid as nat) + seq![
            ']',
            ' ',
        ] + subject + seq![' ', '-', ' '] + sender + seq!['.', 'e', 'm', 'l'],
{
    reveal_strlit(" - ");
    reveal_strlit(".eml");
    assert(" - "@ =~= seq![' ', '-', ' ']);
    assert(".eml"@ =~= seq!['.', 'e', 'm', 'l']);
    names::law_truncated_fits(sender, 45);
    assert(entry::uid_part(uid).len() == number::decimal(uid as nat).len() + 3);
    assert(entry::sender_part(sender).len() == sender.len() + 7);
    let room = entry::subject_room(uid, sender);
    assert(number::decimal(uid as nat).len() <= 10) by {
        reveal_with_fuel(number::decimal, 11);
    }
    assert(room >= subject.len());
    names::law_truncated_fits(subject, room);
    assert(entry::entry_name(uid, subject, sender) =~= seq!['['] + number::decimal(uid as nat)
        + seq![']', ' '] + subject + seq![' ', '-', ' '] + sender + seq!['.', 'e', 'm', 'l']);
}

/// In the name of an entry, a sender of more than 45 characters is cut to 45,
/// and a subject to what is then left of 160.
pub proof fn law_long_entry_names_are_cut(uid: u32, subject: Seq<char>, sender: Seq<char>)
    requires
        is_safe(subject),
        is_safe(sender),
    ensures
        ({
            let by = names::truncated(sender, 45);
            let taken = number::decimal(uid as nat).len() + by.len() + 10;
            entry::entry_name(uid, subject, sender) == seq!['['] + number::decimal(uid as nat)
                + seq![']', ' '] + names::truncated(subject, (160 - taken) as nat) + seq![
                ' ',
                '-',
                ' ',
            ] + by + seq!['.', 'e', 'm', 'l']
        }),
{
    reveal_strlit(" - ");
    reveal_strlit(".eml");
    assert(" - "@ =~= seq![' ', '-', ' ']);
    assert(".eml"@ =~= seq!['.', 'e', 'm', 'l']);
    let by = names::truncated(sender, 45);
    names::law_truncated_fits(sender, 45);
    assert(entry::uid_part(uid).len() == number::decimal(uid as nat).len() + 3);
    assert(entry::sender_part(sender).len() == by.len() + 7);
    assert(number::decimal(uid as nat).len() <= 10) by {
        reveal_with_fuel(number::decimal, 11);
    }
    let taken = number::decimal(uid as nat).len() + by.len() + 10;
    assert(entry::subject_room(uid, sender) == 160 - taken);
    assert(entry::entry_name(uid, subject, sender) =~= seq!['['] + number::decimal(uid as nat)
        + seq![']', ' '] + names::truncated(subject, (160 - taken) as nat) + seq![' ', '-', ' ']
        + by + seq!['.', 'e', 'm', 'l']);
}

/// The line of a message holds the entry's name in quotes, the mark of a file,
/// its size and its date; a number or a size that is missing is zero.
pub proof fn law_line_of_a_message(
    uid: u32,
    size: u32,
    internal_date: Option<MailDate>,
    envelope: Option<EnvelopeView>,
    shown: Seq<char>,
)
    ensures
        ({
            let name = |n: u32|
                entry::entry_name(n, entry::subject_of(envelope), entry::sender_of(envelope));
            &&& entry::entry_line(
                (SummaryView { uid: Some(uid), size: Some(size), internal_date, envelope }),
                shown,
            ) == seq!['"'] + name(uid) + "\",A:H20,S:"@ + number::decimal(size as nat) + ",W:"@
                + shown + seq!['\r', '\n']
            &&& entry::entry_line(
                (SummaryView { uid: None, size: None, internal_date, envelope }),
                shown,
            ) == seq!['"'] + name(0) + "\",A:H20,S:"@ + seq!['0'] + ",W:"@ + shown + seq![
                '\r',
                '\n',
            ]
        }),
{
    reveal_strlit("\r\n");
    assert("\r\n"@ =~= seq!['\r', '\n']);
    assert(number::decimal(0) =~= seq!['0']);
}

/// The line of a directory holds its name in quotes, the mark of a directory,
/// and the time.
pub proof fn law_line_of_a_directory(name: Seq<char>, now: Seq<char>)
    ensures
        entry::directory_entry(name, now) == seq!['"'] + name + "\",A:H10,W:"@ + now + seq![
            '\r',
            '\n',
        ],
{
    reveal_strlit("\r\n");
    assert("\r\n"@ =~= seq!['\r', '\n']);
}

/// A dated message is listed with the date that the settings ask for: the
/// server's date or the header's, by the clock of the sender's server, of
/// Greenwich, or of the machine.
pub proof fn law_message_is_listed_with_the_date_that_is_asked_for(
    summary: SummaryView,
    envelope: EnvelopeView,
    internal: MailDate,
    header: MailDate,
    local: i32,
    now: Seq<char>,
)
    requires
        summary.envelope == Some(envelope),
        summary.internal_date == Some(internal),
        date::envelope_date(envelope.date) == Some(header),
        date::is_date(internal),
        date::is_date(header),
        -86_400 < local < 86_400,
    ensures
        ({
            let shown = |d: MailDate, offset: i32|
                entry::entry_line(
                    summary,
                    date::clock_text(d.seconds, d.nanos, offset, "%Y-%m-%d %H:%M:%S"@),
                );
            let line = |clock: Clock, source: Seq<char>|
                entry::message_line(summary, clock, source, Some(local), now);
            &&& line(Clock::Server, "internal"@) == shown(internal, internal.offset)
            &&& line(Clock::Server, "header"@) == shown(header, header.offset)
            &&& line(Clock::Utc, "internal"@) == shown(internal, 0)
            &&& line(Clock::Utc, "header"@) == shown(header, 0)
            &&& line(Clock::Local, "internal"@) == shown(internal, local)
            &&& line(Clock::Local, "header"@) == shown(header, local)
        }),
{
    reveal_strlit("internal");
    reveal_strlit("header");
    assert("internal"@.len() != "header"@.len());
}

/// A message without any date is listed with the time of the listing.
pub proof fn law_undated_message_is_listed_with_the_time(
    summary: SummaryView,
    clock: Clock,
    source: Seq<char>,
    local: Option<i32>,
    now: Seq<char>,
)
    requires
        summary.internal_date is None,
        summary.envelope matches Some(e) ==> date::envelope_date(e.date) is None,
    ensures
        entry::message_line(summary, clock, source, local, now) == entry::entry_line(summary, now),
{
}

/// A date that the machine's clock does not reach is listed as the time of the
/// listing.
pub proof fn law_date_out_of_reach_is_listed_as_the_time(d: MailDate, now: Seq<char>)
    ensures
        date::listed_date(Some(d), Clock::Local, None, now) == now,
        date::listed_date(None, Clock::Server, Some(d.offset), now) == now,
{
}

/// The answer to a request for a stretch is listed from its end to its
/// beginning, and that to a request for one message as it is.
pub proof fn law_stretches_are_listed_backwards(
    answer: Seq<SummaryView>,
    first: u32,
    last: u32,
    i: int,
)
    requires
        0 <= i < answer.len(),
    ensures
        entry::listed_order(Request::Range(first, last), answer).len() == answer.len(),
        entry::listed_order(Request::Range(first, last), answer)[i] == answer[answer.len() - 1 - i],
        entry::listed_order(Request::One(first), answer) == answer,
{
    assert(entry::listed_order(Request::One(first), answer) =~= answer);
}

} // verus!
