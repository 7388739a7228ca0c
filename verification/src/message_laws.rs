//! What is shown of a message, placeholder by placeholder and part by part.

use vstd::prelude::*;
use crate::date;
use crate::date::{Clock, MailDate};
use crate::html;
use crate::message;
use crate::message::{MailView, PartView};
use crate::rfc2047;
use crate::rule_laws;
use crate::sections;
use crate::size;
use crate::template;
use crate::template::Fields;
use crate::text::{number, pieces, search, unicode};

verus! {

// ---------------------------------------------------------------------------
// Templates
// ---------------------------------------------------------------------------

/// The shape of a placeholder: a brace, other characters, and the only closing
/// brace.
spec fn is_placeholder(v: Seq<char>) -> bool {
    &&& v.len() >= 2
    &&& v[0] == '{'
    &&& v.last() == '}'
    &&& forall|i: int| 0 < i < v.len() ==> v[i] != '{'
    &&& forall|i: int| 0 <= i < v.len() - 1 ==> v[i] != '}'
}

/// The placeholders are what they are called, and differ.
proof fn lemma_placeholders()
    ensures
        is_placeholder("{from}"@) && "{from}"@[1] == 'f',
        is_placeholder("{to}"@) && "{to}"@[1] == 't',
        is_placeholder("{cc}"@) && "{cc}"@[1] == 'c',
        is_placeholder("{date}"@) && "{date}"@[1] == 'd',
        is_placeholder("{subject}"@) && "{subject}"@[1] == 's',
        is_placeholder("{attachments}"@) && "{attachments}"@[1] == 'a',
        is_placeholder("{body}"@) && "{body}"@[1] == 'b',
{
    reveal_strlit("{from}");
    reveal_strlit("{to}");
    reveal_strlit("{cc}");
    reveal_strlit("{date}");
    reveal_strlit("{subject}");
    reveal_strlit("{attachments}");
    reveal_strlit("{body}");
}

/// A line with one placeholder holds no other.
proof fn lemma_no_other_placeholder(a: Seq<char>, v: Seq<char>, b: Seq<char>, w: Seq<char>)
    requires
        !a.contains('{'),
        !b.contains('{'),
        is_placeholder(v),
        is_placeholder(w),
        v[1] != w[1],
    ensures
        !search::contains(a + v + b, w),
{
    let s = a + v + b;
    search::lemma_find_from(s, w, 0);
    if let Some(k) = search::find(s, w) {
        let found = s.subrange(k, k + w.len());
        assert(found[0] == s[k]);
        assert(found[1] == s[k + 1]);
        if k < a.len() {
            assert(a.contains(a[k]));
        } else if k >= a.len() + v.len() {
            assert(b.contains(b[k - a.len() - v.len()]));
        } else {
            assert(v[k - a.len()] == '{');
        }
    }
}

/// A line holds the placeholder that stands in it.
proof fn lemma_placeholder_is_there(a: Seq<char>, v: Seq<char>, b: Seq<char>)
    ensures
        search::contains(a + v + b, v),
{
    let s = a + v + b;
    assert(s.subrange(a.len() as int, (a.len() + v.len()) as int) =~= v);
    assert(search::occurs_at(s, v, a.len() as int));
    search::lemma_find_from(s, v, 0);
}

/// One step of filling in a line with one placeholder.
proof fn lemma_filling_step(
    a: Seq<char>,
    v: Seq<char>,
    x: Seq<char>,
    b: Seq<char>,
    from: Seq<char>,
    to: Seq<char>,
)
    requires
        !a.contains('{'),
        !b.contains('{'),
        !x.contains('{'),
        is_placeholder(v),
        is_placeholder(from),
        v == from ==> x == to,
    ensures
        v == from ==> search::replace(a + v + b, from, to) == a + x + b,
        v != from ==> search::replace(a + v + b, from, to) == a + v + b,
        search::replace(a + x + b, from, to) == a + x + b,
{
    if v == from {
        search::law_first_occurrence_is_replaced(a, from, to, b);
        search::lemma_replace_absent(b, from, to);
    } else {
        rule_laws::lemma_other_variable(a, v, b, from, to);
    }
    rule_laws::lemma_no_brace(a, x, b);
    search::lemma_replace_absent(a + x + b, from, to);
}

/// A line with one placeholder is filled in.
proof fn lemma_one_placeholder(
    a: Seq<char>,
    v: Seq<char>,
    x: Seq<char>,
    b: Seq<char>,
    fields: Fields,
)
    requires
        !a.contains('{'),
        !b.contains('{'),
        !x.contains('{'),
        v == "{from}"@ && x == fields.from || v == "{to}"@ && x == fields.to || v == "{cc}"@ && x
            == fields.cc || v == "{date}"@ && x == fields.date || v == "{subject}"@ && x
            == fields.subject || v == "{attachments}"@ && x == fields.attachments || v == "{body}"@
            && x == fields.body,
    ensures
        template::line_filled(a + v + b, fields) == a + x + b,
{
    lemma_placeholders();
    lemma_filling_step(a, v, x, b, "{from}"@, fields.from);
    lemma_filling_step(a, v, x, b, "{to}"@, fields.to);
    lemma_filling_step(a, v, x, b, "{cc}"@, fields.cc);
    lemma_filling_step(a, v, x, b, "{date}"@, fields.date);
    lemma_filling_step(a, v, x, b, "{subject}"@, fields.subject);
    lemma_filling_step(a, v, x, b, "{attachments}"@, fields.attachments);
    lemma_filling_step(a, v, x, b, "{body}"@, fields.body);
}

/// A template of one line is that line, filled in, or nothing where the line is
/// left out.
proof fn lemma_one_line(line: Seq<char>, fields: Fields)
    requires
        line.len() > 0,
        !line.contains('\n'),
    ensures
        !template::is_left_out(line, fields) ==> template::template_filled(line, fields)
            == template::line_filled(line, fields),
        template::is_left_out(line, fields) ==> template::template_filled(line, fields)
            == Seq::<char>::empty(),
{
    search::lemma_index_of_char(line, '\n');
    if let Some(k) = search::index_of_char(line, '\n') {
        assert(line.contains(line[k]));
    }
    let all = seq![line];
    assert(pieces::lines(line) == all);
    assert(all.last() == line);
    assert(all.drop_last() =~= seq![]);
    reveal_with_fuel(template::lines_filled, 2);
    assert(template::lines_filled(seq![], fields) =~= seq![]);
    if template::is_left_out(line, fields) {
        assert(template::lines_filled(all, fields) =~= seq![]);
    } else {
        assert(template::lines_filled(all, fields) =~= seq![template::line_filled(line, fields)]);
    }
}

/// Each placeholder of a template is filled in with what it is named after,
/// and the text around it stays. What is filled in must not look like another
/// placeholder. A line for carbon copies or attachments is left out where there
/// are none.
pub proof fn law_placeholders_are_filled_in(a: Seq<char>, b: Seq<char>, fields: Fields)
    requires
        !a.contains('{'),
        !b.contains('{'),
        !a.contains('\n'),
        !b.contains('\n'),
    ensures
        !fields.from.contains('{') ==> template::template_filled(a + "{from}"@ + b, fields) == a
            + fields.from + b,
        !fields.to.contains('{') ==> template::template_filled(a + "{to}"@ + b, fields) == a
            + fields.to + b,
        !fields.date.contains('{') ==> template::template_filled(a + "{date}"@ + b, fields) == a
            + fields.date + b,
        !fields.subject.contains('{') ==> template::template_filled(a + "{subject}"@ + b, fields)
            == a + fields.subject + b,
        !fields.body.contains('{') ==> template::template_filled(a + "{body}"@ + b, fields) == a
            + fields.body + b,
        fields.cc.len() > 0 && !fields.cc.contains('{') ==> template::template_filled(
            a + "{cc}"@ + b,
            fields,
        ) == a + fields.cc + b,
        fields.cc.len() == 0 ==> template::template_filled(a + "{cc}"@ + b, fields) == Seq::<
            char,
        >::empty(),
        fields.attachments.len() > 0 && !fields.attachments.contains('{')
            ==> template::template_filled(a + "{attachments}"@ + b, fields) == a
            + fields.attachments + b,
        fields.attachments.len() == 0 ==> template::template_filled(
            a + "{attachments}"@ + b,
            fields,
        ) == Seq::<char>::empty(),
{
    lemma_placeholders();
    lemma_placeholder_line(a, "{from}"@, fields.from, b, fields);
    lemma_placeholder_line(a, "{to}"@, fields.to, b, fields);
    lemma_placeholder_line(a, "{date}"@, fields.date, b, fields);
    lemma_placeholder_line(a, "{subject}"@, fields.subject, b, fields);
    lemma_placeholder_line(a, "{body}"@, fields.body, b, fields);
    lemma_placeholder_line(a, "{cc}"@, fields.cc, b, fields);
    lemma_placeholder_line(a, "{attachments}"@, fields.attachments, b, fields);
}

/// A template of one line with one placeholder.
proof fn lemma_placeholder_line(
    a: Seq<char>,
    v: Seq<char>,
    x: Seq<char>,
    b: Seq<char>,
    fields: Fields,
)
    requires
        !a.contains('{'),
        !b.contains('{'),
        !a.contains('\n'),
        !b.contains('\n'),
        v == "{from}"@ && x == fields.from || v == "{to}"@ && x == fields.to || v == "{cc}"@ && x
            == fields.cc || v == "{date}"@ && x == fields.date || v == "{subject}"@ && x
            == fields.subject || v == "{attachments}"@ && x == fields.attachments || v == "{body}"@
            && x == fields.body,
    ensures
        x.len() == 0 && (v == "{cc}"@ || v == "{attachments}"@) ==> template::template_filled(
            a + v + b,
            fields,
        ) == Seq::<char>::empty(),
        !x.contains('{') && !(x.len() == 0 && (v == "{cc}"@ || v == "{attachments}"@))
            ==> template::template_filled(a + v + b, fields) == a + x + b,
{
    lemma_placeholders();
    let line = a + v + b;
    assert(!line.contains('\n')) by {
        reveal_strlit("{from}");
        reveal_strlit("{to}");
        reveal_strlit("{cc}");
        reveal_strlit("{date}");
        reveal_strlit("{subject}");
        reveal_strlit("{attachments}");
        reveal_strlit("{body}");
        assert forall|i: int| 0 <= i < line.len() implies line[i] != '\n' by {
            if i < a.len() {
                assert(a.contains(a[i]));
            } else if i < a.len() + v.len() {
                assert(line[i] == v[i - a.len()]);
            } else {
                assert(b.contains(b[i - a.len() - v.len()]));
            }
        }
    }
    lemma_one_line(line, fields);
    if v == "{cc}"@ {
        lemma_placeholder_is_there(a, v, b);
    } else {
        lemma_no_other_placeholder(a, v, b, "{cc}"@);
    }
    if v == "{attachments}"@ {
        lemma_placeholder_is_there(a, v, b);
    } else {
        lemma_no_other_placeholder(a, v, b, "{attachments}"@);
    }
    if !x.contains('{') {
        lemma_one_placeholder(a, v, x, b, fields);
    }
}

/// The lines of a template are filled in one by one and end with a carriage
/// return and a line feed; a line without placeholders stays as it is.
pub proof fn law_template_goes_line_by_line(line: Seq<char>, rest: Seq<char>, fields: Fields)
    requires
        !line.contains('\n'),
        !line.contains('{'),
        line.len() > 0 ==> line.last() != '\r',
        template::lines_filled(pieces::lines(rest), fields).len() > 0,
    ensures
        template::template_filled(line + seq!['\n'] + rest, fields) == line + seq!['\r', '\n']
            + template::template_filled(rest, fields),
{
    let s = line + seq!['\n'] + rest;
    let n = line.len() as int;
    assert forall|j: int| 0 <= j < n implies s[j] != '\n' by {
        assert(line.contains(line[j]));
    }
    search::lemma_index_of_char_is(s, '\n', n);
    assert(s.take(n) =~= line);
    assert(s.skip(n + 1) =~= rest);
    let first = seq![line];
    let others = pieces::lines(rest);
    assert(pieces::lines(s) == first + others);
    template::lemma_lines_filled(first, others, fields);
    lemma_no_placeholder(line, fields);
    assert(first.last() == line);
    assert(first.drop_last() =~= seq![]);
    reveal_with_fuel(template::lines_filled, 2);
    assert(template::lines_filled(first, fields) =~= first);
    let done = first + template::lines_filled(others, fields);
    pieces::lemma_join_front(done, seq!['\r', '\n']);
    assert(done.drop_first() =~= template::lines_filled(others, fields));
    assert(done[0] == line);
}

/// A line without braces has nothing to fill in.
proof fn lemma_no_placeholder(line: Seq<char>, fields: Fields)
    requires
        !line.contains('{'),
    ensures
        template::line_filled(line, fields) == line,
        !template::is_left_out(line, fields),
{
    lemma_placeholders();
    search::lemma_replace_absent(line, "{from}"@, fields.from);
    search::lemma_replace_absent(line, "{to}"@, fields.to);
    search::lemma_replace_absent(line, "{cc}"@, fields.cc);
    search::lemma_replace_absent(line, "{date}"@, fields.date);
    search::lemma_replace_absent(line, "{subject}"@, fields.subject);
    search::lemma_replace_absent(line, "{attachments}"@, fields.attachments);
    search::lemma_replace_absent(line, "{body}"@, fields.body);
    search::lemma_find_from(line, "{cc}"@, 0);
    search::lemma_find_from(line, "{attachments}"@, 0);
    if let Some(k) = search::find(line, "{cc}"@) {
        assert(line.subrange(k, k + "{cc}"@.len())[0] == line[k]);
        assert(line.contains(line[k]));
    }
    if let Some(k) = search::find(line, "{attachments}"@) {
        assert(line.subrange(k, k + "{attachments}"@.len())[0] == line[k]);
        assert(line.contains(line[k]));
    }
}

/// The template is the one in the configured file, else the one in the usual
/// file, else the one in the configuration unless it is empty, else the one
/// that is built in.
pub proof fn law_template_is_chosen(
    configured: Option<Seq<char>>,
    usual: Option<Seq<char>>,
    inline: Option<Seq<char>>,
)
    ensures
        configured matches Some(t) ==> template::chosen_template(configured, usual, inline) == t,
        configured is None ==> (usual matches Some(t) ==> template::chosen_template(
            configured,
            usual,
            inline,
        ) == t),
        configured is None && usual is None ==> (inline matches Some(t) ==> (t.len() > 0
            ==> template::chosen_template(configured, usual, inline) == t)),
        configured is None && usual is None && (inline matches Some(t) ==> t.len() == 0)
            ==> template::chosen_template(configured, usual, inline)
            == "From   : {from}\nTo     : {to}\nCc     : {cc}\nDate   : {date}\nSubject: {subject}\nAttach : {attachments}\n--------------------------------------------------------------------------------\n\n{body}"@,
{
}

// ---------------------------------------------------------------------------
// Headers
// ---------------------------------------------------------------------------

/// The first header of a name counts, in capitals or not; one that is missing
/// is empty.
pub proof fn law_first_header_counts(
    before: sections::Entries,
    key: Seq<char>,
    value: Seq<char>,
    after: sections::Entries,
    name: Seq<char>,
)
    requires
        forall|i: int|
            0 <= i < before.len() ==> unicode::ascii_lower((#[trigger] before[i]).0)
                != unicode::ascii_lower(name),
        unicode::ascii_lower(key) == unicode::ascii_lower(name),
    ensures
        message::header_value(before + seq![(key, value)] + after, name) == value,
        message::header_value(before, name) == Seq::<char>::empty(),
    decreases before.len(),
{
    let all = before + seq![(key, value)] + after;
    if before.len() > 0 {
        let rest = before.drop_first();
        assert(all[0] == before[0]);
        assert(all.drop_first() =~= rest + seq![(key, value)] + after);
        law_first_header_counts(rest, key, value, after, name);
    } else {
        assert(all[0] == (key, value));
    }
}

/// The placeholders of a template are filled in with the readable forms of the
/// headers `From`, `To`, `Cc` and `Subject`.
pub proof fn law_headers_are_shown(
    mail: MailView,
    clock: Clock,
    html_policy: Seq<char>,
    local: Option<i32>,
)
    ensures
        ({
            let header = |name: Seq<char>|
                rfc2047::header_text(message::header_value(mail.headers, name));
            let shown = |t: Seq<char>| message::mail_text(mail, clock, html_policy, t, local);
            &&& !header("From"@).contains('{') ==> shown("{from}"@) == header("From"@)
            &&& !header("To"@).contains('{') ==> shown("{to}"@) == header("To"@)
            &&& !header("Cc"@).contains('{') ==> shown("{cc}"@) == header("Cc"@)
            &&& !header("Subject"@).contains('{') ==> shown("{subject}"@) == header("Subject"@)
        }),
{
    let fields = message::mail_fields(mail, clock, html_policy, local);
    let none = Seq::<char>::empty();
    law_placeholders_are_filled_in(none, none, fields);
    assert(none + "{from}"@ + none =~= "{from}"@);
    assert(none + "{to}"@ + none =~= "{to}"@);
    assert(none + "{cc}"@ + none =~= "{cc}"@);
    assert(none + "{subject}"@ + none =~= "{subject}"@);
    assert(none + fields.from + none =~= fields.from);
    assert(none + fields.to + none =~= fields.to);
    assert(none + fields.cc + none =~= fields.cc);
    assert(none + fields.subject + none =~= fields.subject);
    if fields.cc.len() == 0 {
        assert(fields.cc =~= none);
    }
}

/// The date of a message is shown to the second by the clock that is asked
/// for; a header that is no date, or whose date the machine's clock does not
/// reach, is shown as it stands.
pub proof fn law_date_header_is_shown(
    mail: MailView,
    html_policy: Seq<char>,
    local: i32,
    d: MailDate,
)
    requires
        -86_400 < local < 86_400,
    ensures
        ({
            let raw = message::header_value(mail.headers, "Date"@);
            let text = |offset: i32|
                date::clock_text(d.seconds, d.nanos, offset, "%Y-%m-%d %H:%M:%S"@);
            let shown = |clock: Clock|
                message::mail_text(mail, clock, html_policy, "{date}"@, Some(local));
            &&& raw.len() > 0 && date::header_date(raw) == Some(d) ==> {
                &&& !text(d.offset).contains('{') ==> shown(Clock::Server) == text(d.offset)
                &&& !text(0).contains('{') ==> shown(Clock::Utc) == text(0)
                &&& !text(local).contains('{') ==> shown(Clock::Local) == text(local)
            }
            &&& date::header_date(raw) is None && !raw.contains('{') ==> {
                &&& shown(Clock::Server) == raw
                &&& shown(Clock::Utc) == raw
                &&& shown(Clock::Local) == raw
            }
            &&& !raw.contains('{') ==> message::mail_text(
                mail,
                Clock::Local,
                html_policy,
                "{date}"@,
                None,
            ) == raw
        }),
{
    let none = Seq::<char>::empty();
    let raw = message::header_value(mail.headers, "Date"@);
    let unknown = message::mail_fields(mail, Clock::Local, html_policy, None);
    law_placeholders_are_filled_in(none, none, unknown);
    assert(none + unknown.date + none =~= unknown.date);
    date::law_header_date_is_a_date(raw);
    assert(none + "{date}"@ + none =~= "{date}"@);
    let server = message::mail_fields(mail, Clock::Server, html_policy, Some(local));
    let utc = message::mail_fields(mail, Clock::Utc, html_policy, Some(local));
    let machine = message::mail_fields(mail, Clock::Local, html_policy, Some(local));
    law_placeholders_are_filled_in(none, none, server);
    law_placeholders_are_filled_in(none, none, utc);
    law_placeholders_are_filled_in(none, none, machine);
    assert(none + server.date + none =~= server.date);
    assert(none + utc.date + none =~= utc.date);
    assert(none + machine.date + none =~= machine.date);
    if raw.len() == 0 {
        assert(raw =~= none);
    }
}

// ---------------------------------------------------------------------------
// Parts
// ---------------------------------------------------------------------------

/// A part is named by its disposition, or, where that gives no name, by its
/// type.
pub proof fn law_names_of_parts(part: PartView)
    ensures
        sections::value_in(part.disposition_params, "filename"@) matches Some(n)
            ==> message::part_filename(part) == Some(n),
        sections::value_in(part.disposition_params, "filename"@) is None
            ==> message::part_filename(part) == sections::value_in(part.type_params, "name"@),
{
}

/// What one more part adds to the texts of a type and to the attachments. A
/// part with parts in it adds nothing. One that asks to be saved is an
/// attachment, and so is one with a name that is neither plain text nor HTML;
/// any other that can be decoded is a text of its type.
pub proof fn law_what_a_part_adds(parts: Seq<PartView>, part: PartView, mimetype: Seq<char>)
    ensures
        ({
            let saved = part.attachment || message::part_filename(part) is Some && part.mimetype
                != "text/plain"@ && part.mimetype != "text/html"@;
            &&& part.subparts > 0 ==> {
                &&& message::texts_in(parts.push(part), mimetype) == message::texts_in(
                    parts,
                    mimetype,
                )
                &&& message::attachments_in(parts.push(part)) == message::attachments_in(parts)
            }
            &&& part.subparts == 0 && saved ==> {
                &&& message::texts_in(parts.push(part), mimetype) == message::texts_in(
                    parts,
                    mimetype,
                )
                &&& message::attachments_in(parts.push(part)) == message::attachments_in(
                    parts,
                ).push(message::attachment_text(part))
            }
            &&& part.subparts == 0 && !saved ==> {
                &&& message::attachments_in(parts.push(part)) == message::attachments_in(parts)
                &&& part.mimetype == mimetype ==> (part.body matches Some(t) ==> message::texts_in(
                    parts.push(part),
                    mimetype,
                ) == message::texts_in(parts, mimetype).push(t))
                &&& part.mimetype != mimetype || part.body is None ==> message::texts_in(
                    parts.push(part),
                    mimetype,
                ) == message::texts_in(parts, mimetype)
            }
        }),
        message::texts_in(seq![], mimetype) == Seq::<Seq<char>>::empty(),
        message::attachments_in(seq![]) == Seq::<Seq<char>>::empty(),
{
    assert(parts.push(part).drop_last() =~= parts);
}

/// An attachment is shown by the readable form of its name, or
/// `attachment.bin`, with the size of its bytes in round brackets; bytes that
/// cannot be decoded count as none.
pub proof fn law_attachments_are_shown(part: PartView)
    ensures
        ({
            let size = match part.raw_body {
                Some(b) => b.len(),
                None => 0,
            };
            let behind = seq![' ', '('] + size::human_size(size) + seq![')'];
            &&& message::part_filename(part) matches Some(n) ==> message::attachment_text(part)
                == rfc2047::header_text(n) + behind
            &&& message::part_filename(part) is None ==> message::attachment_text(part)
                == rfc2047::header_text("attachment.bin"@) + behind
        }),
{
    reveal_strlit(" (");
    assert(" ("@ =~= seq![' ', '(']);
    let size = message::part_size(part);
    let name = match message::part_filename(part) {
        Some(n) => n,
        None => "attachment.bin"@,
    };
    assert(message::attachment_text(part) =~= rfc2047::header_text(name) + (seq![' ', '(']
        + size::human_size(size) + seq![')']));
}

/// The text of a message: one plain text as it is, two with an empty line
/// between them; where there is no plain text, the HTML text, which is made
/// plain unless the policy is `raw`, in capitals or not; and where there is
/// neither, a note.
pub proof fn law_text_of_a_message(parts: Seq<PartView>, policy: Seq<char>, a: Seq<char>, b: Seq<char>)
    ensures
        ({
            let plain = message::texts_in(parts, "text/plain"@);
            let rich = message::texts_in(parts, "text/html"@);
            let raw = unicode::ascii_lower(policy) == "raw"@;
            &&& plain == seq![a] ==> message::body_text(parts, policy) == a
            &&& plain == seq![a, b] ==> message::body_text(parts, policy) == a + seq![
                '\r',
                '\n',
                '\r',
                '\n',
            ] + b
            &&& plain.len() == 0 && rich == seq![a] && raw ==> message::body_text(parts, policy) == a
            &&& plain.len() == 0 && rich == seq![a] && !raw ==> message::body_text(parts, policy)
                == html::plain_text(a)
            &&& plain.len() == 0 && rich == seq![a, b] && raw ==> message::body_text(parts, policy)
                == a + seq!['\r', '\n', '\r', '\n'] + b
            &&& plain.len() == 0 && rich.len() == 0 ==> message::body_text(parts, policy)
                == "(No text content)"@
        }),
{
    reveal_strlit("\r\n\r\n");
    reveal_strlit("raw");
    assert(unicode::ascii_lower("raw"@) =~= "raw"@);
    let gap = "\r\n\r\n"@;
    assert(gap =~= seq!['\r', '\n', '\r', '\n']);
    assert(seq![a, b].drop_last() =~= seq![a]);
    assert(seq![a, b].last() == b);
    reveal_with_fuel(pieces::join, 3);
    assert(pieces::join(seq![a], gap) == a);
    assert(pieces::join(seq![a, b], gap) == a + gap + b);
}

/// The placeholders for the attachments and for the text are filled in with
/// the attachments, commas between them, and with the text.
pub proof fn law_parts_are_shown(
    mail: MailView,
    clock: Clock,
    html_policy: Seq<char>,
    local: Option<i32>,
    a: Seq<char>,
    b: Seq<char>,
)
    ensures
        ({
            let shown = |t: Seq<char>| message::mail_text(mail, clock, html_policy, t, local);
            let attached = message::attachments_in(mail.parts);
            &&& !message::body_text(mail.parts, html_policy).contains('{') ==> shown("{body}"@)
                == message::body_text(mail.parts, html_policy)
            &&& attached == seq![a] && !a.contains('{') ==> shown("{attachments}"@) == a
            &&& attached == seq![a, b] && !(a + seq![',', ' '] + b).contains('{') ==> shown(
                "{attachments}"@,
            ) == a + seq![',', ' '] + b
            &&& attached.len() == 0 ==> shown("{attachments}"@) == Seq::<char>::empty()
        }),
{
    reveal_strlit(", ");
    assert(", "@ =~= seq![',', ' ']);
    let fields = message::mail_fields(mail, clock, html_policy, local);
    let none = Seq::<char>::empty();
    law_placeholders_are_filled_in(none, none, fields);
    assert(none + "{body}"@ + none =~= "{body}"@);
    assert(none + "{attachments}"@ + none =~= "{attachments}"@);
    assert(none + fields.body + none =~= fields.body);
    assert(none + fields.attachments + none =~= fields.attachments);
    assert(seq![a, b].drop_last() =~= seq![a]);
    assert(seq![a, b].last() == b);
    reveal_with_fuel(pieces::join, 3);
    assert(pieces::join(seq![a], ", "@) == a);
    assert(pieces::join(seq![a, b], ", "@) == a + ", "@ + b);
    if fields.attachments.len() == 0 {
        assert(fields.attachments =~= none);
    }
}

// ---------------------------------------------------------------------------
// Sizes
// ---------------------------------------------------------------------------

/// A number of tenths with a point, a space and a unit of bytes behind it.
pub open spec fn in_tenths(tenths: nat, unit: char) -> Seq<char> {
    number::decimal(tenths / 10) + seq!['.', number::digit(tenths % 10), ' ', unit, 'B']
}

/// A size is written in bytes below 1024, in kilobytes below 1024 times 1024,
/// and in megabytes from there on, the latter two to the nearest tenth, and to
/// the even one of two that are equally near.
pub proof fn law_sizes_are_written(bytes: nat)
    requires
        bytes < 0x20_0000_0000_0000,
    ensures
        bytes < 1024 ==> size::human_size(bytes) == number::decimal(bytes) + seq![' ', 'B'],
        1024 <= bytes < 1_048_576 ==> exists|t: nat|
            size::human_size(bytes) == #[trigger] in_tenths(t, 'K') && -512 <= t * 1024 - bytes * 10
                <= 512 && ((t * 1024 - bytes * 10 == 512 || t * 1024 - bytes * 10 == -512) ==> t % 2
                == 0),
        bytes >= 1_048_576 ==> exists|t: nat|
            size::human_size(bytes) == #[trigger] in_tenths(t, 'M') && -524_288 <= t * 1_048_576
                - bytes * 10 <= 524_288 && ((t * 1_048_576 - bytes * 10 == 524_288 || t * 1_048_576
                - bytes * 10 == -524_288) ==> t % 2 == 0),
{
    reveal_strlit(" B");
    reveal_strlit(" KB");
    reveal_strlit(" MB");
    assert(" B"@ =~= seq![' ', 'B']);
    if 1024 <= bytes < 1_048_576 {
        let t = size::rounded(bytes * 10, 1024);
        let (q, r) = (bytes * 10 / 1024, bytes * 10 % 1024);
        assert(bytes * 10 == q * 1024 + r);
        assert(t == q || t == q + 1);
        assert(size::human_size(bytes) =~= in_tenths(t, 'K'));
    }
    if bytes >= 1_048_576 {
        let unit = size::last_weight(bytes);
        let whole = size::rounded(bytes, unit);
        assert(unit == 1);
        assert(whole == bytes);
        assert(whole * unit == bytes) by (nonlinear_arith)
            requires
                unit == 1,
                whole == bytes,
        ;
        assert(size::as_double(bytes) == bytes);
        let t = size::rounded(bytes * 10, 1_048_576);
        let (q, r) = (bytes * 10 / 1_048_576, bytes * 10 % 1_048_576);
        assert(bytes * 10 == q * 1_048_576 + r);
        assert(t == q || t == q + 1);
        assert(size::human_size(bytes) =~= in_tenths(t, 'M'));
    }
}

/// Of a size that takes more than fifty-three binary digits, the first
/// fifty-three count: it is written as the nearest size that has no others.
pub proof fn law_large_sizes_are_rounded(bytes: nat)
    ensures
        ({
            let unit = size::last_weight(bytes);
            &&& unit >= 1
            &&& bytes < 0x20_0000_0000_0000 * unit
            &&& unit == 1 || bytes >= 0x10_0000_0000_0000 * unit
            &&& size::as_double(bytes) % unit == 0
            &&& -unit <= 2 * (size::as_double(bytes) - bytes) <= unit
        }),
{
    let unit = size::last_weight(bytes);
    lemma_last_weight(bytes);
    let q = bytes / unit;
    let r = bytes % unit;
    vstd::arithmetic::div_mod::lemma_fundamental_div_mod(bytes as int, unit as int);
    vstd::arithmetic::div_mod::lemma_mod_bound(bytes as int, unit as int);
    assert((q + 1) * unit == unit * q + unit) by (nonlinear_arith);
    assert(q * unit == unit * q) by (nonlinear_arith);
    vstd::arithmetic::div_mod::lemma_mod_multiples_basic(
        size::rounded(bytes, unit) as int,
        unit as int,
    );
}

/// The weight of the last digit that counts.
proof fn lemma_last_weight(n: nat)
    ensures
        size::last_weight(n) >= 1,
        n < 0x20_0000_0000_0000 * size::last_weight(n),
        size::last_weight(n) == 1 || n >= 0x10_0000_0000_0000 * size::last_weight(n),
    decreases n,
{
    if n >= 0x20_0000_0000_0000 {
        lemma_last_weight(n / 2);
    }
}

} // verus!
