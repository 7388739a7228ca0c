//! Dates of messages.

use vstd::prelude::*;
use crate::text::{chars, trim, unicode};

verus! {

/// A moment: seconds and nanoseconds since the beginning of 1970 in UTC, and
/// the offset from UTC, in seconds, of the clock that it was read from.
#[derive(Debug, Clone, Copy, PartialEq, Eq, Structural)]
pub struct MailDate {
    pub seconds: i64,
    pub nanos: u32,
    pub offset: i32,
}

/// The moment lies in the calendar of `chrono`, which reaches from the
/// beginning of the year -262143 to the end of the year 262142.
pub open spec fn in_calendar(seconds: i64) -> bool {
    -8_334_601_228_800 <= seconds <= 8_210_266_876_799
}

/// The offset of a clock: less than a day to either side.
pub open spec fn is_offset(offset: i32) -> bool {
    -86_400 < offset < 86_400
}

/// The seconds and nanoseconds are a moment in the calendar. A leap second has
/// more nanoseconds than others, and is the last of its minute.
pub open spec fn is_moment(seconds: i64, nanos: u32) -> bool {
    in_calendar(seconds) && (nanos < 1_000_000_000 || nanos < 2_000_000_000 && (seconds as int) % 60
        == 59)
}

/// The date is a moment in the calendar, read from a clock with an offset of
/// less than a day.
pub open spec fn is_date(date: MailDate) -> bool {
    is_moment(date.seconds, date.nanos) && is_offset(date.offset)
}

/// The date that `DateTime::parse_from_rfc2822` reads out of a text.
pub uninterp spec fn rfc2822_date(text: Seq<char>) -> Option<MailDate>;

/// The text that `chrono` writes for a moment, by a clock with the given
/// offset and in the given pattern.
pub uninterp spec fn clock_text(
    seconds: i64,
    nanos: u32,
    offset: i32,
    pattern: Seq<char>,
) -> Seq<char>;

/// Calls `chrono::DateTime::parse_from_rfc2822`: a function of the text alone.
/// The date is handed out as its timestamp and its offset, and is one in the
/// calendar.
#[verifier::external_body]
fn parse_from_rfc2822(text: &str) -> (r: Option<MailDate>)
    ensures
        r == rfc2822_date(text@),
        r matches Some(d) ==> is_date(d),
{
    match chrono::DateTime::parse_from_rfc2822(text) {
        Ok(d) => Some(MailDate {
            seconds: d.timestamp(),
            nanos: d.timestamp_subsec_nanos(),
            offset: d.offset().local_minus_utc(),
        }),
        Err(_) => None,
    }
}

/// Calls `chrono::DateTime::format` on the moment that
/// `DateTime::from_timestamp` makes, in the zone that `FixedOffset::east_opt`
/// makes: a function of its arguments alone, and `None` where either makes
/// none, which is where the one is no moment in the calendar or the other no
/// offset of less than a day. The pattern is fixed because a faulty one would
/// make the call panic.
#[verifier::external_body]
fn format_timestamp(seconds: i64, nanos: u32, offset: i32, pattern: &str) -> (r: Option<String>)
    requires
        pattern@ == "%Y-%m-%d %H:%M:%S"@,
    ensures
        match r {
            Some(t) => is_moment(seconds, nanos) && is_offset(offset) && t@ == clock_text(
                seconds,
                nanos,
                offset,
                pattern@,
            ),
            None => !(is_moment(seconds, nanos) && is_offset(offset)),
        },
{
    let zone = chrono::FixedOffset::east_opt(offset)?;
    let moment = chrono::DateTime::from_timestamp(seconds, nanos)?;
    Some(moment.with_timezone(&zone).format(pattern).to_string())
}

/// Asks `chrono::Local` for the offset of the machine's clock at a moment.
/// There is one for every moment that `DateTime::from_timestamp` makes, and it
/// lies in the bounds of a `FixedOffset`. Which of those it is depends on the
/// machine's time zone and is not stated. The call does not return where the
/// machine's zone is set up with an offset outside those bounds.
#[verifier::external_body]
fn machine_offset(seconds: i64) -> (r: Option<i32>)
    ensures
        match r {
            Some(offset) => in_calendar(seconds) && is_offset(offset),
            None => !in_calendar(seconds),
        },
{
    let moment = chrono::DateTime::from_timestamp(seconds, 0)?;
    Some(moment.with_timezone(&chrono::Local).offset().local_minus_utc())
}

/// `local` may be the offset of a machine's clock at a date: there is one for
/// every date in the calendar, and none where there is no date.
pub open spec fn may_be_local_offset(date: Option<MailDate>, local: Option<i32>) -> bool {
    match date {
        Some(d) if in_calendar(d.seconds) => local matches Some(offset) && is_offset(offset),
        _ => local is None,
    }
}

/// The offset of the machine's clock at the date `date`, where there is a date.
/// Which of the possible offsets it is depends on the machine's time zone.
pub fn local_offset(date: Option<MailDate>) -> (r: Option<i32>)
    ensures
        may_be_local_offset(date, r),
{
    match date {
        Some(d) => machine_offset(d.seconds),
        None => None,
    }
}

/// The date in a header text, white space around it left out.
pub open spec fn header_date(text: Seq<char>) -> Option<MailDate> {
    match rfc2822_date(trim::trim(text)) {
        Some(d) if is_date(d) => Some(d),
        _ => None,
    }
}

/// The date in the header text `text`.
pub fn parse_header_date(text: &str) -> (r: Option<MailDate>)
    ensures
        r == header_date(text@),
{
    let t = trim::trim_text(text);
    parse_from_rfc2822(&t)
}

/// The clock by which dates are shown: that of the sender's server, that of
/// Greenwich, or that of this machine.
#[derive(Debug, Clone, Copy, PartialEq, Eq, Structural)]
pub enum Clock {
    Server,
    Utc,
    Local,
}

/// The clock that a setting asks for.
pub open spec fn clock_of(timezone: Seq<char>) -> Clock {
    if timezone == "server"@ || timezone == "raw"@ {
        Clock::Server
    } else if timezone == "utc"@ {
        Clock::Utc
    } else {
        Clock::Local
    }
}

/// The clock that the setting `timezone` asks for.
pub fn clock_named(timezone: &str) -> (r: Clock)
    ensures
        r == clock_of(timezone@),
{
    if chars::same_text(timezone, "server") || chars::same_text(timezone, "raw") {
        Clock::Server
    } else if chars::same_text(timezone, "utc") {
        Clock::Utc
    } else {
        Clock::Local
    }
}

/// `local` may be what showing a date by a clock takes from a machine: the
/// offset of the machine's clock, and nothing where another clock shows it.
pub open spec fn may_be_offset_for(
    date: Option<MailDate>,
    clock: Clock,
    local: Option<i32>,
) -> bool {
    match clock {
        Clock::Local => may_be_local_offset(date, local),
        _ => local is None,
    }
}

/// What showing `date` by `clock` takes from this machine. The machine's clock
/// is read only where dates are shown by it.
pub fn offset_for(date: Option<MailDate>, clock: Clock) -> (r: Option<i32>)
    ensures
        may_be_offset_for(date, clock, r),
{
    match clock {
        Clock::Local => local_offset(date),
        _ => None,
    }
}

/// The offset by which a date is shown. `local` is that of this machine.
pub open spec fn shown_offset(date: MailDate, clock: Clock, local: Option<i32>) -> Option<i32> {
    match clock {
        Clock::Server => Some(date.offset),
        Clock::Utc => Some(0),
        Clock::Local => local,
    }
}

/// A date as it is shown: year, month and day, hour, minute and second. It is
/// shown where it lies in the calendar and the offset is less than a day.
pub open spec fn shown_date(date: MailDate, clock: Clock, local: Option<i32>) -> Option<Seq<char>> {
    match shown_offset(date, clock, local) {
        Some(offset) if is_moment(date.seconds, date.nanos) && is_offset(offset) => Some(
            clock_text(date.seconds, date.nanos, offset, "%Y-%m-%d %H:%M:%S"@),
        ),
        _ => None,
    }
}

/// The offset by which `date` is shown.
pub fn offset_shown(date: MailDate, clock: Clock, local: Option<i32>) -> (r: Option<i32>)
    ensures
        r == shown_offset(date, clock, local),
{
    match clock {
        Clock::Server => Some(date.offset),
        Clock::Utc => Some(0),
        Clock::Local => local,
    }
}

/// `date` as it is shown by `clock`, where `local` is the offset of this
/// machine's clock.
pub fn format_date(date: MailDate, clock: Clock, local: Option<i32>) -> (r: Option<String>)
    ensures
        chars::opt_text(r) == shown_date(date, clock, local),
{
    match offset_shown(date, clock, local) {
        Some(offset) => format_timestamp(date.seconds, date.nanos, offset, "%Y-%m-%d %H:%M:%S"),
        None => None,
    }
}

/// The date of a message: by default the one at which the server received it,
/// and where that is missing the one that its header gives; the other way
/// round where the setting `source` is `header`.
pub open spec fn message_date(
    internal: Option<MailDate>,
    header: Option<MailDate>,
    source: Seq<char>,
) -> Option<MailDate> {
    if source == "header"@ {
        match header {
            Some(d) => Some(d),
            None => internal,
        }
    } else {
        match internal {
            Some(d) => Some(d),
            None => header,
        }
    }
}

/// The date of a message that the server received at `internal` and whose
/// header gives `header`.
pub fn choose_date(internal: Option<MailDate>, header: Option<MailDate>, source: &str) -> (r: Option<
    MailDate,
>)
    ensures
        r == message_date(internal, header, source@),
{
    if chars::same_text(source, "header") {
        if header.is_some() {
            header
        } else {
            internal
        }
    } else if internal.is_some() {
        internal
    } else {
        header
    }
}

/// The date in the header bytes of an envelope.
pub open spec fn envelope_date(bytes: Option<Seq<u8>>) -> Option<MailDate> {
    match bytes {
        Some(b) => header_date(unicode::utf8_text(b)),
        None => None,
    }
}

/// The bytes that an optional list of bytes holds.
pub open spec fn opt_bytes(o: Option<Vec<u8>>) -> Option<Seq<u8>> {
    match o {
        Some(b) => Some(b@),
        None => None,
    }
}

/// The date in the header bytes `bytes` of an envelope.
pub fn parse_envelope_date(bytes: &Option<Vec<u8>>) -> (r: Option<MailDate>)
    ensures
        r == envelope_date(opt_bytes(*bytes)),
{
    match bytes {
        Some(b) => parse_header_date(&unicode::text_of_bytes(b)),
        None => None,
    }
}

/// A message's date as it is listed; `now` where it has none.
pub open spec fn listed_date(
    date: Option<MailDate>,
    clock: Clock,
    local: Option<i32>,
    now: Seq<char>,
) -> Seq<char> {
    match date {
        Some(d) => match shown_date(d, clock, local) {
            Some(t) => t,
            None => now,
        },
        None => now,
    }
}

/// A message's date `date` as it is listed; `now` where it has none.
pub fn format_message_date(
    date: Option<MailDate>,
    timezone: &str,
    local: Option<i32>,
    now: &str,
) -> (r: String)
    ensures
        r@ == listed_date(date, clock_of(timezone@), local, now@),
{
    match date {
        Some(d) => match format_date(d, clock_named(timezone), local) {
            Some(t) => t,
            None => now.to_owned(),
        },
        None => now.to_owned(),
    }
}

/// A date that a header gives is one in the calendar.
pub proof fn law_header_date_is_a_date(text: Seq<char>)
    ensures
        header_date(text) matches Some(d) ==> is_date(d),
{
}

/// A message that has a date is listed with it, and not with the time of the
/// listing.
pub proof fn law_date_is_listed(date: MailDate, clock: Clock, local: Option<i32>, now: Seq<char>)
    requires
        is_date(date),
        may_be_offset_for(Some(date), clock, local),
    ensures
        ({
            let offset = shown_offset(date, clock, local);
            &&& offset matches Some(o) && is_offset(o)
            &&& listed_date(Some(date), clock, local, now) == clock_text(
                date.seconds,
                date.nanos,
                offset->0,
                "%Y-%m-%d %H:%M:%S"@,
            )
        }),
{
}

/// A date is shown alike on every machine, unless it is shown by the machine's
/// own clock.
pub proof fn law_shown_date_is_the_same_everywhere(
    date: MailDate,
    clock: Clock,
    here: Option<i32>,
    there: Option<i32>,
)
    requires
        !(clock is Local),
    ensures
        shown_date(date, clock, here) == shown_date(date, clock, there),
{
}

/// A message that has a date is listed with one whatever the source that is
/// preferred.
pub proof fn law_either_date_will_do(
    internal: Option<MailDate>,
    header: Option<MailDate>,
    source: Seq<char>,
)
    ensures
        message_date(internal, header, source) is None <==> internal is None && header is None,
{
}

} // verus!
