//! Showing a message.

use vstd::prelude::*;
use mailparse::DispositionType;
use crate::config::ViewConfig;
use crate::date;
use crate::date::Clock;
use crate::html;
use crate::rfc2047;
use crate::sections;
use crate::size;
use crate::template;
use crate::text::{chars, pieces};

verus! {

/// A message: its headers, and its parts with each before those inside it.
#[derive(Debug)]
pub struct Mail {
    pub headers: Vec<(String, String)>,
    pub parts: Vec<MailPart>,
}

/// A part of a message.
#[derive(Debug)]
pub struct MailPart {
    /// How many parts it holds directly.
    pub subparts: usize,
    /// The part asks to be saved rather than shown.
    pub attachment: bool,
    /// The parameters of its disposition.
    pub disposition_params: Vec<(String, String)>,
    /// Its type.
    pub mimetype: String,
    /// The parameters of its type.
    pub type_params: Vec<(String, String)>,
    /// Its bytes, where they can be decoded.
    pub raw_body: Option<Vec<u8>>,
    /// Its text, where it can be decoded.
    pub body: Option<String>,
}

/// Why a message cannot be shown.
#[derive(Debug)]
pub enum MailError {
    /// It cannot be taken apart, for the given reason.
    Malformed(String),
    /// It is longer than its decoder can cope with.
    TooLong,
}

/// The contents of a message.
pub struct MailView {
    pub headers: sections::Entries,
    pub parts: Seq<PartView>,
}

/// The contents of a part of a message.
pub struct PartView {
    pub subparts: usize,
    pub attachment: bool,
    pub disposition_params: sections::Entries,
    pub mimetype: Seq<char>,
    pub type_params: sections::Entries,
    pub raw_body: Option<Seq<u8>>,
    pub body: Option<Seq<char>>,
}

impl View for MailPart {
    type V = PartView;

    open spec fn view(&self) -> PartView {
        PartView {
            subparts: self.subparts,
            attachment: self.attachment,
            disposition_params: sections::entry_views(self.disposition_params@),
            mimetype: self.mimetype@,
            type_params: sections::entry_views(self.type_params@),
            raw_body: date::opt_bytes(self.raw_body),
            body: chars::opt_text(self.body),
        }
    }
}

impl View for Mail {
    type V = MailView;

    open spec fn view(&self) -> MailView {
        MailView {
            headers: sections::entry_views(self.headers@),
            parts: part_views(self.parts@),
        }
    }
}

/// The contents of a list of parts.
pub open spec fn part_views(parts: Seq<MailPart>) -> Seq<PartView> {
    Seq::new(parts.len(), |i: int| parts[i]@)
}

/// The message that `mailparse` reads out of its bytes, or why there is none.
pub uninterp spec fn parsed_mail(raw: Seq<u8>) -> Result<MailView, Seq<char>>;

/// The length up to which a message can be decoded in every character set.
/// A text has at most three times as many bytes as it is decoded from, and a
/// few more; up to here twice that still fits in `isize::MAX`.
pub open spec fn readable_len() -> int {
    usize::MAX / 12 - 2
}

/// Calls `mailparse::parse_mail` and hands out what `MailHeader::get_key` and
/// `get_value` give of each header, and what `get_content_disposition`,
/// `get_body_raw` and `get_body` give of each part that `ParsedMail::parts`
/// walks through. The result is a function of the bytes alone. The length is
/// bounded because decoding a text panics where its buffer would have to be
/// longer than `isize::MAX`: a buffer that malformed bytes outgrow is doubled.
#[verifier::external_body]
fn parse_mail(raw: &[u8]) -> (r: Result<Mail, String>)
    requires
        raw@.len() <= readable_len(),
    ensures
        match r {
            Ok(mail) => parsed_mail(raw@) == Ok::<MailView, Seq<char>>(mail@),
            Err(e) => parsed_mail(raw@) == Err::<MailView, Seq<char>>(e@),
        },
{
    let mail = mailparse::parse_mail(raw).map_err(|e| e.to_string())?;
    let headers = mail.headers.iter().map(|h| (h.get_key(), h.get_value())).collect();
    let parts = mail.parts().map(|p| { let d = p.get_content_disposition(); MailPart {
        subparts: p.subparts.len(),
        attachment: d.disposition == DispositionType::Attachment,
        disposition_params: d.params.into_iter().collect(),
        mimetype: p.ctype.mimetype.clone(),
        type_params: p.ctype.params.clone().into_iter().collect(),
        raw_body: p.get_body_raw().ok(),
        body: p.get_body().ok(),
    } }).collect();
    Ok(Mail { headers, parts })
}

/// The message that the bytes `raw` hold.
pub fn read_mail(raw: &[u8]) -> (r: Result<Mail, MailError>)
    ensures
        if raw@.len() > readable_len() {
            r matches Err(MailError::TooLong)
        } else {
            match parsed_mail(raw@) {
                Ok(mail) => r matches Ok(found) && found@ == mail,
                Err(reason) => r matches Err(MailError::Malformed(e)) && e@ == reason,
            }
        },
{
    if raw.len() > usize::MAX / 12 - 2 {
        return Err(MailError::TooLong);
    }
    match parse_mail(raw) {
        Ok(mail) => Ok(mail),
        Err(e) => Err(MailError::Malformed(e)),
    }
}

// ---------------------------------------------------------------------------
// Headers
// ---------------------------------------------------------------------------

/// The value of the first header of the given name, whatever the case of its
/// letters; empty where there is none.
pub open spec fn header_value(headers: sections::Entries, name: Seq<char>) -> Seq<char>
    decreases headers.len(),
{
    if headers.len() == 0 {
        seq![]
    } else if chars::same_ignoring_case(headers[0].0, name) {
        headers[0].1
    } else {
        header_value(headers.drop_first(), name)
    }
}

/// The value of the first header of the name `name`.
pub fn get_header(headers: &Vec<(String, String)>, name: &str) -> (r: String)
    ensures
        r@ == header_value(sections::entry_views(headers@), name@),
{
    let ghost all = sections::entry_views(headers@);
    let mut i: usize = 0;
    assert(all.skip(0) =~= all);
    while i < headers.len()
        invariant
            all == sections::entry_views(headers@),
            i <= headers.len(),
            header_value(all, name@) == header_value(all.skip(i as int), name@),
        decreases headers.len() - i,
    {
        assert(all.skip(i as int)[0] == (headers@[i as int].0@, headers@[i as int].1@));
        if chars::eq_ignore_case(&headers[i].0, name) {
            return headers[i].1.clone();
        }
        assert(all.skip(i as int).drop_first() =~= all.skip(i + 1));
        i += 1;
    }
    let r = String::new();
    assert(r@ =~= seq![]);
    r
}

/// The readable form of the first header of the given name.
pub open spec fn readable_header(headers: sections::Entries, name: Seq<char>) -> Seq<char> {
    rfc2047::header_text(header_value(headers, name))
}

/// The readable form of the first header of the name `name`.
fn read_header(headers: &Vec<(String, String)>, name: &str) -> (r: String)
    ensures
        r@ == readable_header(sections::entry_views(headers@), name@),
{
    rfc2047::scan_and_decode_rfc2047(&get_header(headers, name))
}

/// A date header as it is shown: as it stands where it is no date.
pub open spec fn date_shown(raw: Seq<char>, clock: Clock, local: Option<i32>) -> Seq<char> {
    if raw.len() == 0 {
        seq![]
    } else {
        match date::header_date(raw) {
            Some(d) => match date::shown_date(d, clock, local) {
                Some(t) => t,
                None => raw,
            },
            None => raw,
        }
    }
}

/// The date header `raw` as it is shown.
fn show_date(raw: &str, clock: Clock, local: Option<i32>) -> (r: String)
    ensures
        r@ == date_shown(raw@, clock, local),
{
    if raw.unicode_len() == 0 {
        let r = String::new();
        assert(r@ =~= seq![]);
        return r;
    }
    match date::parse_header_date(raw) {
        Some(d) => match date::format_date(d, clock, local) {
            Some(t) => t,
            None => raw.to_owned(),
        },
        None => raw.to_owned(),
    }
}

// ---------------------------------------------------------------------------
// Parts
// ---------------------------------------------------------------------------

/// The file name that a part gives itself.
pub open spec fn part_filename(part: PartView) -> Option<Seq<char>> {
    match sections::value_in(part.disposition_params, "filename"@) {
        Some(n) => Some(n),
        None => sections::value_in(part.type_params, "name"@),
    }
}

/// The part is an attachment: it asks to be saved, or it has a file name and
/// is no text.
pub open spec fn is_attachment(part: PartView) -> bool {
    part.attachment || part_filename(part) is Some && part.mimetype != "text/plain"@
        && part.mimetype != "text/html"@
}

/// The number of bytes of a part; none where they cannot be decoded.
pub open spec fn part_size(part: PartView) -> nat {
    match part.raw_body {
        Some(b) => b.len(),
        None => 0,
    }
}

/// An attachment's name and size.
pub open spec fn attachment_text(part: PartView) -> Seq<char> {
    let name = match part_filename(part) {
        Some(n) => n,
        None => "attachment.bin"@,
    };
    rfc2047::header_text(name) + " ("@ + size::human_size(part_size(part)) + seq![')']
}

/// The names and sizes of the attachments, in order.
pub open spec fn attachments_in(parts: Seq<PartView>) -> Seq<Seq<char>>
    decreases parts.len(),
{
    if parts.len() == 0 {
        seq![]
    } else {
        let before = attachments_in(parts.drop_last());
        let p = parts.last();
        if p.subparts == 0 && is_attachment(p) {
            before.push(attachment_text(p))
        } else {
            before
        }
    }
}

/// The texts of the given type that can be decoded and are no attachments, in
/// order.
pub open spec fn texts_in(parts: Seq<PartView>, mimetype: Seq<char>) -> Seq<Seq<char>>
    decreases parts.len(),
{
    if parts.len() == 0 {
        seq![]
    } else {
        let before = texts_in(parts.drop_last(), mimetype);
        let p = parts.last();
        match p.body {
            Some(t) => if p.subparts == 0 && !is_attachment(p) && p.mimetype == mimetype {
                before.push(t)
            } else {
                before
            },
            None => before,
        }
    }
}

/// The file name that `part` gives itself.
fn filename_of(part: &MailPart) -> (r: Option<String>)
    ensures
        chars::opt_text(r) == part_filename(part@),
{
    match sections::get_value(&part.disposition_params, "filename") {
        Some(n) => Some(n),
        None => sections::get_value(&part.type_params, "name"),
    }
}

/// The name and the size of the attachment `part`.
fn describe_attachment(part: &MailPart) -> (r: String)
    ensures
        r@ == attachment_text(part@),
{
    let raw_name = match filename_of(part) {
        Some(n) => n,
        None => "attachment.bin".to_owned(),
    };
    let bytes: usize = match &part.raw_body {
        Some(b) => b.len(),
        None => 0,
    };
    let mut r = rfc2047::scan_and_decode_rfc2047(&raw_name);
    r.append(" (");
    let text = size::format_bytes_human(bytes);
    r.append(&text);
    r.push(')');
    assert(r@ =~= attachment_text(part@));
    r
}

/// Adds the texts and the attachments of `parts` to the lists.
pub fn extract_mail_parts(
    parts: &Vec<MailPart>,
    plain_texts: &mut Vec<String>,
    html_texts: &mut Vec<String>,
    attachments: &mut Vec<String>,
)
    ensures
        chars::texts(final(plain_texts)@) == chars::texts(old(plain_texts)@) + texts_in(
            part_views(parts@),
            "text/plain"@,
        ),
        chars::texts(final(html_texts)@) == chars::texts(old(html_texts)@) + texts_in(
            part_views(parts@),
            "text/html"@,
        ),
        chars::texts(final(attachments)@) == chars::texts(old(attachments)@) + attachments_in(
            part_views(parts@),
        ),
{
    let ghost all = part_views(parts@);
    let ghost p0 = chars::texts(plain_texts@);
    let ghost h0 = chars::texts(html_texts@);
    let ghost a0 = chars::texts(attachments@);
    let mut i: usize = 0;
    assert(all.take(0) =~= seq![]);
    assert(p0 + texts_in(all.take(0), "text/plain"@) =~= p0);
    assert(h0 + texts_in(all.take(0), "text/html"@) =~= h0);
    assert(a0 + attachments_in(all.take(0)) =~= a0);
    proof {
        reveal_strlit("text/plain");
        reveal_strlit("text/html");
        assert("text/plain"@.len() != "text/html"@.len());
    }
    while i < parts.len()
        invariant
            all == part_views(parts@),
            i <= parts.len(),
            "text/plain"@ != "text/html"@,
            chars::texts(plain_texts@) == p0 + texts_in(all.take(i as int), "text/plain"@),
            chars::texts(html_texts@) == h0 + texts_in(all.take(i as int), "text/html"@),
            chars::texts(attachments@) == a0 + attachments_in(all.take(i as int)),
        decreases parts.len() - i,
    {
        let ghost upto = all.take(i as int);
        let ghost next = all.take(i + 1);
        assert(next.drop_last() =~= upto);
        assert(next.last() == parts@[i as int]@);
        let part = &parts[i];
        let ghost p1 = chars::texts(plain_texts@);
        let ghost h1 = chars::texts(html_texts@);
        let ghost a1 = chars::texts(attachments@);
        if part.subparts == 0 {
            let is_plain = chars::same_text(&part.mimetype, "text/plain");
            let is_html = chars::same_text(&part.mimetype, "text/html");
            if part.attachment || (filename_of(part).is_some() && !is_plain && !is_html) {
                let t = describe_attachment(part);
                attachments.push(t);
                assert(chars::texts(attachments@) =~= a1.push(t@));
                assert(a1.push(t@) =~= a0 + attachments_in(next));
            } else if let Some(body) = &part.body {
                if is_plain {
                    let t = body.clone();
                    plain_texts.push(t);
                    assert(chars::texts(plain_texts@) =~= p1.push(t@));
                    assert(p1.push(t@) =~= p0 + texts_in(next, "text/plain"@));
                } else if is_html {
                    let t = body.clone();
                    html_texts.push(t);
                    assert(chars::texts(html_texts@) =~= h1.push(t@));
                    assert(h1.push(t@) =~= h0 + texts_in(next, "text/html"@));
                }
            }
        }
        i += 1;
    }
    assert(all.take(all.len() as int) =~= all);
}

/// The text of a message: its plain texts; where it has none, its HTML texts,
/// as they are or made plain; and where it has neither, a note.
pub open spec fn body_text(parts: Seq<PartView>, html_policy: Seq<char>) -> Seq<char> {
    let plain = texts_in(parts, "text/plain"@);
    let rich = texts_in(parts, "text/html"@);
    if plain.len() > 0 {
        pieces::join(plain, "\r\n\r\n"@)
    } else if rich.len() > 0 {
        if chars::same_ignoring_case(html_policy, "raw"@) {
            pieces::join(rich, "\r\n\r\n"@)
        } else {
            html::plain_text(pieces::join(rich, "\r\n\r\n"@))
        }
    } else {
        "(No text content)"@
    }
}

/// What a template's placeholders stand for in a message.
pub open spec fn mail_fields(
    mail: MailView,
    clock: Clock,
    html_policy: Seq<char>,
    local: Option<i32>,
) -> template::Fields {
    template::Fields {
        from: readable_header(mail.headers, "From"@),
        to: readable_header(mail.headers, "To"@),
        cc: readable_header(mail.headers, "Cc"@),
        date: date_shown(header_value(mail.headers, "Date"@), clock, local),
        subject: readable_header(mail.headers, "Subject"@),
        attachments: pieces::join(attachments_in(mail.parts), ", "@),
        body: body_text(mail.parts, html_policy),
    }
}

/// A message as a template shows it. `local` is the offset of this machine's
/// clock at the message's date.
pub open spec fn mail_text(
    mail: MailView,
    clock: Clock,
    html_policy: Seq<char>,
    template: Seq<char>,
    local: Option<i32>,
) -> Seq<char> {
    template::template_filled(template, mail_fields(mail, clock, html_policy, local))
}

/// `mail` as `template` shows it, where `local` is the offset of this
/// machine's clock at the message's date.
pub fn show_mail(
    mail: &Mail,
    timezone: &str,
    html_policy: &str,
    template: &str,
    local: Option<i32>,
) -> (r: String)
    ensures
        r@ == mail_text(mail@, date::clock_of(timezone@), html_policy@, template@, local),
{
    let subject = read_header(&mail.headers, "Subject");
    let from = read_header(&mail.headers, "From");
    let to = read_header(&mail.headers, "To");
    let cc = read_header(&mail.headers, "Cc");
    let date = show_date(&get_header(&mail.headers, "Date"), date::clock_named(timezone), local);
    let mut plain_texts: Vec<String> = Vec::new();
    let mut html_texts: Vec<String> = Vec::new();
    let mut attachments: Vec<String> = Vec::new();
    extract_mail_parts(&mail.parts, &mut plain_texts, &mut html_texts, &mut attachments);
    proof {
        let none = chars::texts(Seq::<String>::empty());
        assert(none + texts_in(mail@.parts, "text/plain"@) =~= texts_in(
            mail@.parts,
            "text/plain"@,
        ));
        assert(none + texts_in(mail@.parts, "text/html"@) =~= texts_in(mail@.parts, "text/html"@));
        assert(none + attachments_in(mail@.parts) =~= attachments_in(mail@.parts));
    }
    let body = if plain_texts.len() > 0 {
        pieces::join_texts(&plain_texts, "\r\n\r\n")
    } else if html_texts.len() > 0 {
        let combined = pieces::join_texts(&html_texts, "\r\n\r\n");
        if chars::eq_ignore_case(html_policy, "raw") {
            combined
        } else {
            html::strip_html_tags(&combined)
        }
    } else {
        "(No text content)".to_owned()
    };
    let attached = pieces::join_texts(&attachments, ", ");
    template::apply_template(template, &from, &to, &cc, &date, &subject, &attached, &body)
}

/// What showing the date that `mail` gives by `clock` takes from this machine.
fn local_offset_of(mail: &Mail, clock: Clock) -> (r: Option<i32>)
    ensures
        date::may_be_offset_for(
            date::header_date(header_value(mail@.headers, "Date"@)),
            clock,
            r,
        ),
{
    let raw = get_header(&mail.headers, "Date");
    date::offset_for(date::parse_header_date(&raw), clock)
}

/// The message in `raw_bytes` as `template` shows it. Where dates are shown by
/// this machine's clock, its offset is the machine's own.
pub fn format_mail_content(
    raw_bytes: &[u8],
    timezone: &str,
    view_conf: &ViewConfig,
    template: &str,
) -> (r: Result<String, MailError>)
    ensures
        if raw_bytes@.len() > readable_len() {
            r matches Err(MailError::TooLong)
        } else {
            match parsed_mail(raw_bytes@) {
                Err(reason) => r matches Err(MailError::Malformed(e)) && e@ == reason,
                Ok(mail) => r matches Ok(t) && exists|local: Option<i32>|
                    date::may_be_offset_for(
                        date::header_date(header_value(mail.headers, "Date"@)),
                        date::clock_of(timezone@),
                        local,
                    ) && t@ == #[trigger] mail_text(
                        mail,
                        date::clock_of(timezone@),
                        view_conf@.html_policy,
                        template@,
                        local,
                    ),
            }
        },
{
    match read_mail(raw_bytes) {
        Ok(mail) => {
            let local = local_offset_of(&mail, date::clock_named(timezone));
            let shown = show_mail(&mail, timezone, &view_conf.html_policy, template, local);
            assert(shown@ == mail_text(
                mail@,
                date::clock_of(timezone@),
                view_conf@.html_policy,
                template@,
                local,
            ));
            Ok(shown)
        },
        Err(e) => Err(e),
    }
}

/// A message is shown alike on every machine, unless its date is shown by the
/// machine's own clock.
pub proof fn law_message_is_shown_alike_everywhere(
    mail: MailView,
    clock: Clock,
    html_policy: Seq<char>,
    template: Seq<char>,
    here: Option<i32>,
    there: Option<i32>,
)
    requires
        !(clock is Local),
    ensures
        mail_text(mail, clock, html_policy, template, here) == mail_text(
            mail,
            clock,
            html_policy,
            template,
            there,
        ),
{
}

/// A message's text is never an attachment's, and its attachments are never
/// shown as text: each part is taken up once at most.
pub proof fn law_each_part_is_taken_up_once(parts: Seq<PartView>)
    ensures
        attachments_in(parts).len() + texts_in(parts, "text/plain"@).len() + texts_in(
            parts,
            "text/html"@,
        ).len() <= parts.len(),
    decreases parts.len(),
{
    reveal_strlit("text/plain");
    reveal_strlit("text/html");
    assert("text/plain"@.len() != "text/html"@.len());
    if parts.len() > 0 {
        law_each_part_is_taken_up_once(parts.drop_last());
    }
}

/// HTML is looked at only where a message has no plain text.
pub proof fn law_plain_text_is_preferred(
    parts: Seq<PartView>,
    one_policy: Seq<char>,
    other_policy: Seq<char>,
)
    requires
        texts_in(parts, "text/plain"@).len() > 0,
    ensures
        body_text(parts, one_policy) == body_text(parts, other_policy),
        body_text(parts, one_policy) == pieces::join(texts_in(parts, "text/plain"@), "\r\n\r\n"@),
{
}

} // verus!
