//! The templates by which mail is shown.

use vstd::prelude::*;
use crate::text::{chars, pieces, search};

verus! {

/// What a template's placeholders stand for.
pub struct Fields {
    pub from: Seq<char>,
    pub to: Seq<char>,
    pub cc: Seq<char>,
    pub date: Seq<char>,
    pub subject: Seq<char>,
    pub attachments: Seq<char>,
    pub body: Seq<char>,
}

/// The line is left out: it has a placeholder for the carbon copies or for the
/// attachments, and there are none.
pub open spec fn is_left_out(line: Seq<char>, fields: Fields) -> bool {
    ||| fields.cc.len() == 0 && search::contains(line, "{cc}"@)
    ||| fields.attachments.len() == 0 && search::contains(line, "{attachments}"@)
}

/// A line with its placeholders filled in, one kind after the other.
pub open spec fn line_filled(line: Seq<char>, fields: Fields) -> Seq<char> {
    let a = search::replace(line, "{from}"@, fields.from);
    let b = search::replace(a, "{to}"@, fields.to);
    let c = search::replace(b, "{cc}"@, fields.cc);
    let d = search::replace(c, "{date}"@, fields.date);
    let e = search::replace(d, "{subject}"@, fields.subject);
    let f = search::replace(e, "{attachments}"@, fields.attachments);
    search::replace(f, "{body}"@, fields.body)
}

/// The lines of a template that are not left out, filled in.
pub open spec fn lines_filled(lines: Seq<Seq<char>>, fields: Fields) -> Seq<Seq<char>>
    decreases lines.len(),
{
    if lines.len() == 0 {
        seq![]
    } else if is_left_out(lines.last(), fields) {
        lines_filled(lines.drop_last(), fields)
    } else {
        lines_filled(lines.drop_last(), fields).push(line_filled(lines.last(), fields))
    }
}

/// A template filled in.
pub open spec fn template_filled(template: Seq<char>, fields: Fields) -> Seq<char> {
    pieces::join(lines_filled(pieces::lines(template), fields), seq!['\r', '\n'])
}

/// `template` with its placeholders filled in. Lines for carbon copies and for
/// attachments are left out where there are none.
pub fn apply_template(
    template: &str,
    from: &str,
    to: &str,
    cc: &str,
    date: &str,
    subject: &str,
    attachments: &str,
    body: &str,
) -> (r: String)
    ensures
        r@ == template_filled(
            template@,
            (Fields {
                from: from@,
                to: to@,
                cc: cc@,
                date: date@,
                subject: subject@,
                attachments: attachments@,
                body: body@,
            }),
        ),
{
    let ghost fields = Fields {
        from: from@,
        to: to@,
        cc: cc@,
        date: date@,
        subject: subject@,
        attachments: attachments@,
        body: body@,
    };
    proof {
        reveal_strlit("{from}");
        reveal_strlit("{to}");
        reveal_strlit("{cc}");
        reveal_strlit("{date}");
        reveal_strlit("{subject}");
        reveal_strlit("{attachments}");
        reveal_strlit("{body}");
        reveal_strlit("\r\n");
        assert("\r\n"@ =~= seq!['\r', '\n']);
    }
    let lines = pieces::lines_of(template);
    let ghost all = chars::texts(lines@);
    let mut out: Vec<String> = Vec::new();
    let mut i: usize = 0;
    assert(chars::texts(out@) =~= lines_filled(all.take(0), fields));
    while i < lines.len()
        invariant
            all == chars::texts(lines@),
            i <= lines.len(),
            fields == (Fields {
                from: from@,
                to: to@,
                cc: cc@,
                date: date@,
                subject: subject@,
                attachments: attachments@,
                body: body@,
            }),
            "{from}"@.len() > 0,
            "{to}"@.len() > 0,
            "{cc}"@.len() > 0,
            "{date}"@.len() > 0,
            "{subject}"@.len() > 0,
            "{attachments}"@.len() > 0,
            "{body}"@.len() > 0,
            chars::texts(out@) == lines_filled(all.take(i as int), fields),
        decreases lines.len() - i,
    {
        let ghost before = chars::texts(out@);
        assert(all.take(i + 1).drop_last() =~= all.take(i as int));
        assert(all.take(i + 1).last() == lines@[i as int]@);
        let line = &lines[i];
        if !((cc.unicode_len() == 0 && search::contains_text(line, "{cc}")) || (
        attachments.unicode_len() == 0 && search::contains_text(line, "{attachments}"))) {
            let a = search::replace_text(line, "{from}", from);
            let b = search::replace_text(&a, "{to}", to);
            let c = search::replace_text(&b, "{cc}", cc);
            let d = search::replace_text(&c, "{date}", date);
            let e = search::replace_text(&d, "{subject}", subject);
            let f = search::replace_text(&e, "{attachments}", attachments);
            let g = search::replace_text(&f, "{body}", body);
            out.push(g);
            assert(chars::texts(out@) =~= before.push(g@));
        }
        i += 1;
    }
    assert(all.take(all.len() as int) =~= all);
    pieces::join_texts(&out, "\r\n")
}

/// The template where none is given.
pub open spec fn default_template() -> Seq<char> {
    "From   : {from}\nTo     : {to}\nCc     : {cc}\nDate   : {date}\nSubject: {subject}\nAttach : {attachments}\n--------------------------------------------------------------------------------\n\n{body}"@
}

/// The template to use: the file that is asked for, where it can be read, else
/// the file of the usual name, else the one that stands in the configuration,
/// else the default.
pub open spec fn chosen_template(
    configured_file: Option<Seq<char>>,
    usual_file: Option<Seq<char>>,
    inline: Option<Seq<char>>,
) -> Seq<char> {
    match (configured_file, usual_file, inline) {
        (Some(t), _, _) => t,
        (None, Some(t), _) => t,
        (None, None, Some(t)) if t.len() > 0 => t,
        _ => default_template(),
    }
}

/// The template to use, where `configured_file` and `usual_file` are what the
/// files hold that could be read.
pub fn load_template(
    configured_file: Option<String>,
    usual_file: Option<String>,
    inline: &Option<String>,
) -> (r: String)
    ensures
        r@ == chosen_template(
            chars::opt_text(configured_file),
            chars::opt_text(usual_file),
            chars::opt_text(*inline),
        ),
{
    if let Some(t) = configured_file {
        return t;
    }
    if let Some(t) = usual_file {
        return t;
    }
    if let Some(t) = inline {
        if t.as_str().unicode_len() > 0 {
            return t.clone();
        }
    }
    "From   : {from}\nTo     : {to}\nCc     : {cc}\nDate   : {date}\nSubject: {subject}\nAttach : {attachments}\n--------------------------------------------------------------------------------\n\n{body}".to_owned()
}

/// Lines are filled in each for itself.
pub proof fn lemma_lines_filled(a: Seq<Seq<char>>, b: Seq<Seq<char>>, fields: Fields)
    ensures
        lines_filled(a + b, fields) == lines_filled(a, fields) + lines_filled(b, fields),
    decreases b.len(),
{
    if b.len() == 0 {
        assert(a + b =~= a);
        assert(lines_filled(a, fields) + lines_filled(b, fields) =~= lines_filled(a, fields));
    } else {
        lemma_lines_filled(a, b.drop_last(), fields);
        assert((a + b).drop_last() =~= a + b.drop_last());
        assert(lines_filled(a + b, fields) =~= lines_filled(a, fields) + lines_filled(b, fields));
    }
}

/// A line for carbon copies or attachments leaves nothing behind where there
/// are none; the lines around it are filled in as if it did not stand there.
pub proof fn law_line_without_contents_is_left_out(
    before: Seq<Seq<char>>,
    line: Seq<char>,
    after: Seq<Seq<char>>,
    fields: Fields,
)
    requires
        is_left_out(line, fields),
    ensures
        lines_filled(before + seq![line] + after, fields) == lines_filled(before + after, fields),
{
    lemma_lines_filled(before + seq![line], after, fields);
    lemma_lines_filled(before, seq![line], fields);
    lemma_lines_filled(before, after, fields);
    reveal_with_fuel(lines_filled, 2);
    assert(lines_filled(seq![line], fields) =~= seq![]);
    assert(lines_filled(before, fields) + lines_filled(seq![line], fields) =~= lines_filled(
        before,
        fields,
    ));
}

/// No line is left out where there are carbon copies and attachments.
pub proof fn law_lines_with_contents_are_kept(lines: Seq<Seq<char>>, fields: Fields)
    requires
        fields.cc.len() > 0,
        fields.attachments.len() > 0,
    ensures
        lines_filled(lines, fields) == lines.map_values(|l: Seq<char>| line_filled(l, fields)),
    decreases lines.len(),
{
    if lines.len() > 0 {
        law_lines_with_contents_are_kept(lines.drop_last(), fields);
    }
    assert(lines_filled(lines, fields) =~= lines.map_values(
        |l: Seq<char>| line_filled(l, fields),
    ));
}

} // verus!
