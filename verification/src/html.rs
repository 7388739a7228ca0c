//! Turning HTML into plain text.

use vstd::prelude::*;
use vstd::utf8::*;
use crate::text::{chars, search, trim, unicode};

verus! {

/// What a tag does to the text around it.
#[derive(Debug, Clone, Copy, PartialEq, Eq, Structural)]
pub enum TagKind {
    /// What follows is not text: a script or a style sheet begins.
    Hide,
    /// What follows is text again.
    Show,
    /// A line ends.
    Break,
    /// Nothing.
    Other,
}

/// What a tag does, by its inside in lower case and without white space around
/// it.
pub open spec fn tag_kind(tag: Seq<char>) -> TagKind {
    if search::starts_with(tag, "script"@) || search::starts_with(tag, "style"@) {
        TagKind::Hide
    } else if search::starts_with(tag, "/script"@) || search::starts_with(tag, "/style"@) {
        TagKind::Show
    } else if search::starts_with(tag, "br"@) || search::starts_with(tag, "/p"@)
        || search::starts_with(tag, "/div"@) || search::starts_with(tag, "/tr"@)
        || search::starts_with(tag, "/h"@) || search::starts_with(tag, "li"@) {
        TagKind::Break
    } else {
        TagKind::Other
    }
}

/// Whether what follows a tag is hidden, where what precedes it is or is not.
pub open spec fn hidden_after(kind: TagKind, hidden: bool) -> bool {
    match kind {
        TagKind::Hide => true,
        TagKind::Show => false,
        _ => hidden,
    }
}

/// What a tag leaves in the text.
pub open spec fn left_by_tag(kind: TagKind, hidden: bool) -> Seq<char> {
    if kind is Break && !hidden {
        seq!['\n']
    } else {
        seq![]
    }
}

/// What the inside of a tag does.
pub open spec fn kind_of_inside(inside: Seq<char>) -> TagKind {
    tag_kind(unicode::lower(trim::trim(inside)))
}

/// The text of `s` without its tags, and without what is hidden. A tag that is
/// not closed hides the rest.
pub open spec fn without_tags(s: Seq<char>, hidden: bool) -> Seq<char>
    decreases s.len(),
    via without_tags_decreases
{
    if s.len() == 0 {
        seq![]
    } else if s[0] == '<' {
        match search::index_of_char(s.drop_first(), '>') {
            None => seq![],
            Some(k) => {
                let kind = kind_of_inside(s.drop_first().take(k));
                left_by_tag(kind, hidden) + without_tags(s.skip(k + 2), hidden_after(kind, hidden))
            },
        }
    } else if hidden {
        without_tags(s.drop_first(), hidden)
    } else {
        seq![s[0]] + without_tags(s.drop_first(), hidden)
    }
}

#[via_fn]
proof fn without_tags_decreases(s: Seq<char>, hidden: bool) {
    if s.len() > 0 {
        search::lemma_index_of_char(s.drop_first(), '>');
    }
}

/// The text with its character references replaced, one kind after the other.
pub open spec fn references_replaced(s: Seq<char>) -> Seq<char> {
    let a = search::replace(s, "&nbsp;"@, seq![' ']);
    let b = search::replace(a, "&amp;"@, seq!['&']);
    let c = search::replace(b, "&lt;"@, seq!['<']);
    let d = search::replace(c, "&gt;"@, seq!['>']);
    let e = search::replace(d, "&quot;"@, seq!['"']);
    let f = search::replace(e, "&apos;"@, seq!['\'']);
    let g = search::replace(f, "&#39;"@, seq!['\'']);
    let h = search::replace(g, "&copy;"@, seq!['©']);
    search::replace(h, "&reg;"@, seq!['®'])
}

/// `s` without carriage returns and without more than two line feeds in a row,
/// of which `run` stand in front of it.
pub open spec fn lines_thinned(s: Seq<char>, run: nat) -> Seq<char>
    decreases s.len(),
{
    if s.len() == 0 {
        seq![]
    } else if s[0] == '\r' {
        lines_thinned(s.drop_first(), run)
    } else if s[0] == '\n' {
        if run < 2 {
            seq!['\n'] + lines_thinned(s.drop_first(), run + 1)
        } else {
            lines_thinned(s.drop_first(), run + 1)
        }
    } else {
        seq![s[0]] + lines_thinned(s.drop_first(), 0)
    }
}

/// A text with its character references replaced, its line ends thinned out
/// and the white space around it left out.
pub open spec fn entities_decoded(s: Seq<char>) -> Seq<char> {
    trim::trim(lines_thinned(references_replaced(s), 0))
}

/// The plain text of an HTML text.
pub open spec fn plain_text(html: Seq<char>) -> Seq<char> {
    entities_decoded(without_tags(html, false))
}

/// What the tag with the inside `tag`, in lower case, does.
pub fn tag_kind_of(tag: &str) -> (r: TagKind)
    ensures
        r == tag_kind(tag@),
{
    if search::text_starts_with(tag, "script") || search::text_starts_with(tag, "style") {
        TagKind::Hide
    } else if search::text_starts_with(tag, "/script") || search::text_starts_with(tag, "/style") {
        TagKind::Show
    } else if search::text_starts_with(tag, "br") || search::text_starts_with(tag, "/p")
        || search::text_starts_with(tag, "/div") || search::text_starts_with(tag, "/tr")
        || search::text_starts_with(tag, "/h") || search::text_starts_with(tag, "li") {
        TagKind::Break
    } else {
        TagKind::Other
    }
}

/// Replaces `from` by `to`.
fn replace_one(s: &str, from: &str, to: char) -> (r: String)
    requires
        from@.len() > 0,
    ensures
        r@ == search::replace(s@, from@, seq![to]),
{
    let mut t = String::new();
    t.push(to);
    assert(t@ =~= seq![to]);
    search::replace_text(s, from, &t)
}

/// The text `text` with its character references replaced and its line ends
/// thinned out.
pub fn decode_html_entities(text: &str) -> (r: String)
    ensures
        r@ == entities_decoded(text@),
{
    proof {
        reveal_strlit("&nbsp;");
        reveal_strlit("&amp;");
        reveal_strlit("&lt;");
        reveal_strlit("&gt;");
        reveal_strlit("&quot;");
        reveal_strlit("&apos;");
        reveal_strlit("&#39;");
        reveal_strlit("&copy;");
        reveal_strlit("&reg;");
    }
    let a = replace_one(text, "&nbsp;", ' ');
    let b = replace_one(&a, "&amp;", '&');
    let c = replace_one(&b, "&lt;", '<');
    let d = replace_one(&c, "&gt;", '>');
    let e = replace_one(&d, "&quot;", '"');
    let f = replace_one(&e, "&apos;", '\'');
    let g = replace_one(&f, "&#39;", '\'');
    let h = replace_one(&g, "&copy;", '©');
    let s = replace_one(&h, "&reg;", '®');
    let clean = thin_lines(&s);
    trim::trim_text(&clean)
}

/// How many line feeds stand in a row matters up to two only.
proof fn lemma_long_run(s: Seq<char>, run: nat)
    requires
        run >= 2,
    ensures
        lines_thinned(s, run) == lines_thinned(s, 2),
    decreases s.len(),
{
    if s.len() > 0 {
        if s[0] == '\r' {
            lemma_long_run(s.drop_first(), run);
        } else if s[0] == '\n' {
            lemma_long_run(s.drop_first(), run + 1);
            lemma_long_run(s.drop_first(), 3);
        }
    }
}

/// `s` without carriage returns and without more than two line feeds in a row.
fn thin_lines(s: &str) -> (r: String)
    ensures
        r@ == lines_thinned(s@, 0),
{
    let v = chars::chars_of(s);
    let mut out = String::new();
    let mut run: u8 = 0;
    let mut i: usize = 0;
    assert(s@.skip(0) =~= s@);
    assert(out@ + lines_thinned(s@, 0) =~= lines_thinned(s@, 0));
    while i < v.len()
        invariant
            v@ == s@,
            i <= v.len(),
            run <= 2,
            out@ + lines_thinned(s@.skip(i as int), run as nat) == lines_thinned(s@, 0),
        decreases v.len() - i,
    {
        let ghost rest = s@.skip(i as int);
        let ghost before = out@;
        let ghost tail = rest.drop_first();
        assert(tail =~= s@.skip(i + 1));
        let c: char = v[i];
        if c == '\n' {
            if run < 2 {
                out.push('\n');
                run += 1;
                assert(before + (seq!['\n'] + lines_thinned(tail, run as nat)) =~= out@
                    + lines_thinned(tail, run as nat));
            } else {
                proof {
                    lemma_long_run(tail, 3);
                }
            }
        } else if c != '\r' {
            run = 0;
            out.push(c);
            assert(before + (seq![c] + lines_thinned(tail, 0)) =~= out@ + lines_thinned(tail, 0));
        }
        i += 1;
    }
    assert(s@.skip(i as int) =~= seq![]);
    assert(out@ + seq![] =~= out@);
    out
}

/// The plain text of the HTML text `html`.
pub fn strip_html_tags(html: &str) -> (r: String)
    ensures
        r@ == plain_text(html@),
{
    let v = chars::chars_of(html);
    let ghost s = html@;
    let mut out = String::new();
    let mut hidden = false;
    let mut i: usize = 0;
    assert(s.skip(0) =~= s);
    assert(out@ + without_tags(s, false) =~= without_tags(s, false));
    while i < v.len()
        invariant
            v@ == s,
            i <= v.len(),
            out@ + without_tags(s.skip(i as int), hidden) == without_tags(s, false),
        decreases v.len() - i,
    {
        let ghost rest = s.skip(i as int);
        let ghost before = out@;
        if v[i] == '<' {
            let tail: &[char] = &v[i + 1..v.len()];
            assert(tail@ =~= rest.drop_first());
            match search::position_of(tail, '>') {
                None => {
                    assert(s.skip(v.len() as int) =~= seq![]);
                    i = v.len();
                },
                Some(k) => {
                    let inside: &[char] = &tail[0..k];
                    assert(inside@ =~= rest.drop_first().take(k as int));
                    let tag = unicode::lower_text(&trim::trim_text(&chars::text_of(inside)));
                    let kind = tag_kind_of(&tag);
                    if kind == TagKind::Break && !hidden {
                        out.push('\n');
                    }
                    assert(out@ =~= before + left_by_tag(kind, hidden));
                    let ghost was = hidden;
                    if kind == TagKind::Hide {
                        hidden = true;
                    } else if kind == TagKind::Show {
                        hidden = false;
                    }
                    i += k + 2;
                    assert(rest.skip(k + 2) =~= s.skip(i as int));
                    assert(before + (left_by_tag(kind, was) + without_tags(
                        s.skip(i as int),
                        hidden,
                    )) =~= out@ + without_tags(s.skip(i as int), hidden));
                },
            }
        } else {
            if !hidden {
                out.push(v[i]);
            }
            i += 1;
            assert(rest.drop_first() =~= s.skip(i as int));
            if !hidden {
                assert(before + (seq![rest[0]] + without_tags(s.skip(i as int), hidden)) =~= out@
                    + without_tags(s.skip(i as int), hidden));
            }
        }
    }
    assert(s.skip(i as int) =~= seq![]);
    assert(out@ + seq![] =~= out@);
    decode_html_entities(&out)
}

// ---------------------------------------------------------------------------
// Laws
// ---------------------------------------------------------------------------

/// A text without tags is changed only as its character references and line
/// ends require.
pub proof fn law_text_without_tags_is_kept(s: Seq<char>)
    requires
        !s.contains('<'),
    ensures
        without_tags(s, false) == s,
        plain_text(s) == entities_decoded(s),
    decreases s.len(),
{
    if s.len() > 0 {
        assert(s.contains(s[0]));
        assert forall|c: char| s.drop_first().contains(c) implies s.contains(c) by {
            let i = choose|i: int| 0 <= i < s.drop_first().len() && s.drop_first()[i] == c;
            assert(s[i + 1] == c);
        }
        law_text_without_tags_is_kept(s.drop_first());
        assert(seq![s[0]] + s.drop_first() =~= s);
    } else {
        assert(without_tags(s, false) =~= s);
    }
}

/// The thinned text holds no carriage return, and no three line feeds in a
/// row.
proof fn lemma_thinned(s: Seq<char>, run: nat)
    requires
        run <= 2,
    ensures
        ({
            let t = lines_thinned(s, run);
            &&& forall|i: int| 0 <= i < t.len() ==> t[i] != '\r'
            &&& forall|i: int|
                0 <= i < t.len() - 2 ==> !(#[trigger] t[i] == '\n' && t[i + 1] == '\n' && t[i + 2]
                    == '\n')
            &&& run == 1 && t.len() >= 2 ==> !(t[0] == '\n' && t[1] == '\n')
            &&& run == 2 && t.len() >= 1 ==> t[0] != '\n'
        }),
    decreases s.len(),
{
    let t = lines_thinned(s, run);
    if s.len() > 0 {
        let tail = s.drop_first();
        if s[0] == '\r' {
            lemma_thinned(tail, run);
        } else if s[0] == '\n' {
            if run < 2 {
                lemma_thinned(tail, run + 1);
                let u = lines_thinned(tail, run + 1);
                assert forall|i: int| 0 <= i < t.len() implies t[i] != '\r' by {
                    if i > 0 {
                        assert(t[i] == u[i - 1]);
                    }
                }
                assert forall|i: int| 0 <= i < t.len() - 2 implies !(#[trigger] t[i] == '\n' && t[i
                    + 1] == '\n' && t[i + 2] == '\n') by {
                    if i > 0 {
                        assert(t[i] == u[i - 1]);
                        assert(t[i + 1] == u[i]);
                        assert(t[i + 2] == u[i + 1]);
                    }
                }
            } else {
                lemma_long_run(tail, 3);
                lemma_thinned(tail, 2);
            }
        } else {
            lemma_thinned(tail, 0);
            let u = lines_thinned(tail, 0);
            assert forall|i: int| 0 <= i < t.len() implies t[i] != '\r' by {
                if i > 0 {
                    assert(t[i] == u[i - 1]);
                }
            }
            assert forall|i: int| 0 <= i < t.len() - 2 implies !(#[trigger] t[i] == '\n' && t[i + 1]
                == '\n' && t[i + 2] == '\n') by {
                if i > 0 {
                    assert(t[i] == u[i - 1]);
                    assert(t[i + 1] == u[i]);
                    assert(t[i + 2] == u[i + 1]);
                }
            }
        }
    }
}

/// The text holds no carriage return and no three line feeds in a row, and has
/// no white space around it.
pub open spec fn is_tidy(s: Seq<char>) -> bool {
    &&& forall|i: int| 0 <= i < s.len() ==> s[i] != '\r'
    &&& forall|i: int|
        0 <= i < s.len() - 2 ==> !(#[trigger] s[i] == '\n' && s[i + 1] == '\n' && s[i + 2] == '\n')
    &&& trim::trim(s) == s
}

/// A text with its character references replaced is tidy.
pub proof fn law_decoded_text_is_tidy(text: Seq<char>)
    ensures
        is_tidy(entities_decoded(text)),
{
    let t = lines_thinned(references_replaced(text), 0);
    lemma_thinned(references_replaced(text), 0);
    trim::lemma_trim_twice(t);
    trim::lemma_trim_start(t);
    let front = trim::trim_start(t);
    trim::lemma_trim_end(front);
    let off = t.len() - front.len();
    let p = entities_decoded(text);
    assert forall|i: int| 0 <= i < p.len() implies p[i] == t[off + i] by {}
    assert forall|i: int| 0 <= i < p.len() - 2 implies !(#[trigger] p[i] == '\n' && p[i + 1] == '\n'
        && p[i + 2] == '\n') by {
        assert(p[i] == t[off + i]);
        assert(p[i + 1] == t[off + i + 1]);
        assert(p[i + 2] == t[off + i + 2]);
    }
}

/// Plain text is tidy.
pub proof fn law_plain_text_is_tidy(html: Seq<char>)
    ensures
        is_tidy(plain_text(html)),
{
    law_decoded_text_is_tidy(without_tags(html, false));
}

/// A text without ampersands holds no character references.
proof fn lemma_no_references(s: Seq<char>)
    requires
        !s.contains('&'),
    ensures
        references_replaced(s) == s,
{
    reveal_strlit("&nbsp;");
    reveal_strlit("&amp;");
    reveal_strlit("&lt;");
    reveal_strlit("&gt;");
    reveal_strlit("&quot;");
    reveal_strlit("&apos;");
    reveal_strlit("&#39;");
    reveal_strlit("&copy;");
    reveal_strlit("&reg;");
    search::lemma_replace_absent(s, "&nbsp;"@, seq![' ']);
    search::lemma_replace_absent(s, "&amp;"@, seq!['&']);
    search::lemma_replace_absent(s, "&lt;"@, seq!['<']);
    search::lemma_replace_absent(s, "&gt;"@, seq!['>']);
    search::lemma_replace_absent(s, "&quot;"@, seq!['"']);
    search::lemma_replace_absent(s, "&apos;"@, seq!['\'']);
    search::lemma_replace_absent(s, "&#39;"@, seq!['\'']);
    search::lemma_replace_absent(s, "&copy;"@, seq!['©']);
    search::lemma_replace_absent(s, "&reg;"@, seq!['®']);
}

/// A thinned text holds nothing that the text does not hold.
proof fn lemma_thinned_holds(s: Seq<char>, run: nat, c: char)
    requires
        lines_thinned(s, run).contains(c),
    ensures
        s.contains(c),
    decreases s.len(),
{
    let t = lines_thinned(s, run);
    let i = choose|i: int| 0 <= i < t.len() && t[i] == c;
    if s.len() > 0 {
        let tail = s.drop_first();
        let skipped = s[0] == '\r' || s[0] == '\n' && run >= 2;
        let next: nat = if s[0] == '\r' {
            run
        } else if s[0] == '\n' {
            run + 1
        } else {
            0
        };
        let u = lines_thinned(tail, next);
        if skipped {
            assert(u[i] == c);
        } else if i == 0 {
            assert(s[0] == c);
        } else {
            assert(u[i - 1] == c);
        }
        if skipped || i > 0 {
            lemma_thinned_holds(tail, next, c);
            let j = choose|j: int| 0 <= j < tail.len() && tail[j] == c;
            assert(s[j + 1] == c);
        }
    }
}

/// Thinning changes nothing in a text that has no carriage return and no three
/// line feeds in a row, those in front of it counted in.
proof fn lemma_thin_is_same(s: Seq<char>, run: nat)
    requires
        run <= 2,
        forall|i: int| 0 <= i < s.len() ==> s[i] != '\r',
        forall|i: int|
            0 <= i < s.len() - 2 ==> !(#[trigger] s[i] == '\n' && s[i + 1] == '\n' && s[i + 2]
                == '\n'),
        run == 1 && s.len() >= 2 ==> !(s[0] == '\n' && s[1] == '\n'),
        run == 2 && s.len() >= 1 ==> s[0] != '\n',
    ensures
        lines_thinned(s, run) == s,
    decreases s.len(),
{
    if s.len() > 0 {
        let tail = s.drop_first();
        assert forall|i: int| 0 <= i < tail.len() - 2 implies !(#[trigger] tail[i] == '\n' && tail[i
            + 1] == '\n' && tail[i + 2] == '\n') by {
            assert(tail[i] == s[i + 1]);
        }
        assert(seq![s[0]] + tail =~= s);
        if s[0] == '\n' {
            if run == 0 && tail.len() >= 2 {
                assert(!(s[0] == '\n' && s[1] == '\n' && s[2] == '\n'));
            }
            lemma_thin_is_same(tail, run + 1);
        } else {
            lemma_thin_is_same(tail, 0);
        }
    } else {
        assert(lines_thinned(s, run) =~= s);
    }
}

/// Decoding the character references of a text without ampersands once more
/// changes nothing.
pub proof fn law_decoding_is_idempotent(text: Seq<char>)
    requires
        !text.contains('&'),
    ensures
        entities_decoded(entities_decoded(text)) == entities_decoded(text),
{
    let t = lines_thinned(references_replaced(text), 0);
    let d = entities_decoded(text);
    lemma_no_references(text);
    law_decoded_text_is_tidy(text);
    assert(!d.contains('&')) by {
        if d.contains('&') {
            let i = choose|i: int| 0 <= i < d.len() && d[i] == '&';
            trim::lemma_trim_start(t);
            let front = trim::trim_start(t);
            trim::lemma_trim_end(front);
            assert(t[t.len() - front.len() + i] == '&');
            lemma_thinned_holds(text, 0, '&');
        }
    }
    lemma_no_references(d);
    lemma_thin_is_same(d, 0);
}

/// A tag without brackets in it is taken out, and the text goes on behind it.
proof fn lemma_tag_is_taken_out(inside: Seq<char>, rest: Seq<char>, hidden: bool)
    requires
        !inside.contains('>'),
    ensures
        ({
            let kind = kind_of_inside(inside);
            without_tags(seq!['<'] + inside + seq!['>'] + rest, hidden) == left_by_tag(kind, hidden)
                + without_tags(rest, hidden_after(kind, hidden))
        }),
{
    let s = seq!['<'] + inside + seq!['>'] + rest;
    let tail = s.drop_first();
    let n = inside.len() as int;
    assert(tail =~= inside + seq!['>'] + rest);
    assert forall|j: int| 0 <= j < n implies tail[j] != '>' by {
        assert(tail[j] == inside[j]);
        assert(inside.contains(inside[j]));
    }
    search::lemma_index_of_char_is(tail, '>', n);
    assert(tail.take(n) =~= inside);
    assert(s.skip(n + 2) =~= rest);
}

/// Text before a tag stands in the plain text where it is not hidden.
proof fn lemma_text_before(a: Seq<char>, rest: Seq<char>, hidden: bool)
    requires
        !a.contains('<'),
    ensures
        without_tags(a + rest, hidden) == if hidden {
            without_tags(rest, hidden)
        } else {
            a + without_tags(rest, hidden)
        },
    decreases a.len(),
{
    if a.len() > 0 {
        let b = a.drop_first();
        assert(a.contains(a[0]));
        assert forall|c: char| b.contains(c) implies a.contains(c) by {
            let i = choose|i: int| 0 <= i < b.len() && b[i] == c;
            assert(a[i + 1] == c);
        }
        lemma_text_before(b, rest, hidden);
        assert((a + rest).drop_first() =~= b + rest);
        if !hidden {
            assert(seq![a[0]] + (b + without_tags(rest, hidden)) =~= a + without_tags(rest, hidden));
        }
    } else {
        assert(a + rest =~= rest);
        assert(a + without_tags(rest, hidden) =~= without_tags(rest, hidden));
    }
}

/// Every tag in `s` is closed, and none of them ends what is hidden.
pub open spec fn stays_hidden(s: Seq<char>) -> bool
    decreases s.len(),
    via stays_hidden_decreases
{
    if s.len() == 0 {
        true
    } else if s[0] == '<' {
        match search::index_of_char(s.drop_first(), '>') {
            None => false,
            Some(k) => !(kind_of_inside(s.drop_first().take(k)) is Show) && stays_hidden(
                s.skip(k + 2),
            ),
        }
    } else {
        stays_hidden(s.drop_first())
    }
}

#[via_fn]
proof fn stays_hidden_decreases(s: Seq<char>) {
    if s.len() > 0 {
        search::lemma_index_of_char(s.drop_first(), '>');
    }
}

/// What stays hidden leaves nothing in the text.
proof fn lemma_hidden_is_skipped(a: Seq<char>, rest: Seq<char>)
    requires
        stays_hidden(a),
    ensures
        without_tags(a + rest, true) == without_tags(rest, true),
    decreases a.len(),
{
    let s = a + rest;
    if a.len() == 0 {
        assert(s =~= rest);
    } else if a[0] == '<' {
        search::lemma_index_of_char(a.drop_first(), '>');
        let k = search::index_of_char(a.drop_first(), '>')->0;
        let inside = a.drop_first().take(k);
        let behind = a.skip(k + 2);
        assert(!inside.contains('>')) by {
            if inside.contains('>') {
                let j = choose|j: int| 0 <= j < inside.len() && inside[j] == '>';
                assert(a.drop_first()[j] == '>');
            }
        }
        assert(s =~= seq!['<'] + inside + seq!['>'] + (behind + rest));
        lemma_tag_is_taken_out(inside, behind + rest, true);
        lemma_hidden_is_skipped(behind, rest);
        assert(without_tags(s, true) =~= without_tags(behind + rest, true));
    } else {
        assert(s.drop_first() =~= a.drop_first() + rest);
        lemma_hidden_is_skipped(a.drop_first(), rest);
    }
}

/// A script or a style sheet leaves nothing in the text: neither its tags nor
/// what stands between them, other tags included.
pub proof fn law_hidden_text_is_left_out(
    before: Seq<char>,
    opening: Seq<char>,
    inside: Seq<char>,
    closing: Seq<char>,
    after: Seq<char>,
)
    requires
        !before.contains('<'),
        !opening.contains('>'),
        kind_of_inside(opening) is Hide,
        stays_hidden(inside),
        !closing.contains('>'),
        kind_of_inside(closing) is Show,
    ensures
        without_tags(
            before + (seq!['<'] + opening + seq!['>'] + (inside + (seq!['<'] + closing + seq!['>']
                + after))),
            false,
        ) == before + without_tags(after, false),
{
    let last = seq!['<'] + closing + seq!['>'] + after;
    let middle = seq!['<'] + opening + seq!['>'] + (inside + last);
    lemma_tag_is_taken_out(closing, after, true);
    lemma_hidden_is_skipped(inside, last);
    lemma_tag_is_taken_out(opening, inside + last, false);
    lemma_text_before(before, middle, false);
    assert(without_tags(last, true) =~= without_tags(after, false));
    assert(without_tags(middle, false) =~= without_tags(after, false));
}

/// A tag that begins with `script` or `style` opens what is hidden, whatever
/// the case of the letters and whatever follows, and one that begins with
/// `/script` or `/style` closes it.
pub proof fn law_scripts_and_styles_are_hidden(name: Seq<char>, attributes: Seq<char>)
    requires
        is_ascii_chars(name),
    ensures
        unicode::ascii_lower(name) == "script"@ || unicode::ascii_lower(name) == "style"@
            ==> kind_of_inside(name + attributes) is Hide,
        unicode::ascii_lower(name) == "/script"@ || unicode::ascii_lower(name) == "/style"@
            ==> kind_of_inside(name + attributes) is Show,
{
    reveal_strlit("script");
    reveal_strlit("style");
    reveal_strlit("/script");
    reveal_strlit("/style");
    let l = unicode::ascii_lower(name);
    let n = name.len() as int;
    let w = name + attributes;
    if l == "script"@ || l == "style"@ || l == "/script"@ || l == "/style"@ {
        assert(l.len() == n);
        assert(l[0] == unicode::ascii_lower_char(name[0]));
        assert(l.last() == unicode::ascii_lower_char(name.last()));
        assert(w[0] == name[0]);
        assert(w[n - 1] == name.last());
        assert(trim::trim_start(w) == w);
        trim::lemma_trim_end(w);
        trim::lemma_trim_end_keeps(w, n);
        let t = trim::trim(w);
        assert(t.take(n) =~= name);
        unicode::lemma_lower_front(t, n);
        let low = unicode::lower(t);
        assert(low.take(n) == l);
        assert(low[0] == low.take(n)[0]);
        if l == "/script"@ || l == "/style"@ {
            assert(low.take(6)[0] != 's');
            assert(low.take(5)[0] != 's');
        }
    }
}

/// A tag without brackets in it is taken out of the text. One that begins with
/// `br`, `/p`, `/div`, `/tr`, `/h` or `li` leaves a line feed, unless it stands
/// in what is hidden; one that begins with `script` or `style` hides what
/// follows, and one that begins with `/script` or `/style` shows it again. The
/// case of the letters and white space in front do not count.
pub proof fn law_tags_end_lines_and_hide(
    before: Seq<char>,
    inside: Seq<char>,
    after: Seq<char>,
)
    requires
        !before.contains('<'),
        !inside.contains('>'),
    ensures
        ({
            let tag = unicode::lower(trim::trim(inside));
            let hides = search::starts_with(tag, "script"@) || search::starts_with(tag, "style"@);
            let shows = search::starts_with(tag, "/script"@) || search::starts_with(
                tag,
                "/style"@,
            );
            let breaks = search::starts_with(tag, "br"@) || search::starts_with(tag, "/p"@)
                || search::starts_with(tag, "/div"@) || search::starts_with(tag, "/tr"@)
                || search::starts_with(tag, "/h"@) || search::starts_with(tag, "li"@);
            let text = before + (seq!['<'] + inside + seq!['>'] + after);
            &&& hides ==> without_tags(text, false) == before + without_tags(after, true)
            &&& shows ==> without_tags(text, false) == before + without_tags(after, false)
            &&& !hides && !shows && breaks ==> without_tags(text, false) == before + seq!['\n']
                + without_tags(after, false)
            &&& !hides && !shows && !breaks ==> without_tags(text, false) == before + without_tags(
                after,
                false,
            )
            &&& without_tags(text, true) == without_tags(after, !shows)
        }),
{
    let tag = unicode::lower(trim::trim(inside));
    reveal_strlit("script");
    reveal_strlit("style");
    reveal_strlit("/script");
    reveal_strlit("/style");
    if tag.len() >= 5 && tag[0] == '/' {
        assert(tag.take(5)[0] == '/');
        if tag.len() >= 6 {
            assert(tag.take(6)[0] == '/');
        }
    } else if tag.len() >= 6 {
        assert(tag.take(6)[0] == tag[0]);
        if tag.len() >= 7 {
            assert(tag.take(7)[0] == tag[0]);
        }
    }
    let rest = seq!['<'] + inside + seq!['>'] + after;
    lemma_text_before(before, rest, false);
    lemma_text_before(before, rest, true);
    lemma_tag_is_taken_out(inside, after, false);
    lemma_tag_is_taken_out(inside, after, true);
    let kind = kind_of_inside(inside);
    assert(before + (left_by_tag(kind, false) + without_tags(after, hidden_after(kind, false)))
        =~= before + left_by_tag(kind, false) + without_tags(after, hidden_after(kind, false)));
    assert(before + seq![] =~= before);
    assert(left_by_tag(kind, true) + without_tags(after, hidden_after(kind, true))
        =~= without_tags(after, hidden_after(kind, true)));
}

/// A tag that is not closed hides the rest.
pub proof fn law_open_tag_hides_the_rest(before: Seq<char>, inside: Seq<char>)
    requires
        !before.contains('<'),
        !inside.contains('>'),
    ensures
        without_tags(before + (seq!['<'] + inside), false) == before,
        without_tags(before + (seq!['<'] + inside), true) == Seq::<char>::empty(),
{
    let rest = seq!['<'] + inside;
    lemma_text_before(before, rest, false);
    lemma_text_before(before, rest, true);
    assert(rest.drop_first() =~= inside);
    search::lemma_index_of_char(inside, '>');
    if let Some(k) = search::index_of_char(inside, '>') {
        assert(inside.contains(inside[k]));
    }
    assert(without_tags(rest, false) =~= seq![]);
    assert(without_tags(rest, true) =~= seq![]);
    assert(before + seq![] =~= before);
}

/// The shape of a character reference: an ampersand, other characters, and the
/// only semicolon.
spec fn is_reference(r: Seq<char>) -> bool {
    &&& r.len() >= 2
    &&& r[0] == '&'
    &&& r.last() == ';'
    &&& forall|i: int| 0 < i < r.len() ==> r[i] != '&'
    &&& forall|i: int| 0 <= i < r.len() - 1 ==> r[i] != ';'
}

/// The only ampersand of a text stays where what is looked for does not stand
/// there.
proof fn lemma_only_ampersand(a: Seq<char>, rest: Seq<char>, from: Seq<char>, to: Seq<char>)
    requires
        from.len() > 0,
        from[0] == '&',
        !a.contains('&'),
        rest.len() > 0,
        !rest.drop_first().contains('&'),
        from.len() <= rest.len() ==> rest.take(from.len() as int) != from,
    ensures
        search::replace(a + rest, from, to) == a + rest,
{
    search::lemma_replace_behind(a, rest, from, to);
    search::lemma_replace_absent(rest.drop_first(), from, to);
    assert(seq![rest[0]] + rest.drop_first() =~= rest);
}

/// A reference stays where another one is looked for.
proof fn lemma_other_reference(
    a: Seq<char>,
    r: Seq<char>,
    b: Seq<char>,
    from: Seq<char>,
    to: Seq<char>,
)
    requires
        !a.contains('&'),
        !b.contains('&'),
        is_reference(r),
        is_reference(from),
        r != from,
    ensures
        search::replace(a + r + b, from, to) == a + r + b,
{
    let rest = r + b;
    let n = from.len() as int;
    assert(a + r + b =~= a + rest);
    let tail = rest.drop_first();
    assert forall|i: int| 0 <= i < tail.len() implies tail[i] != '&' by {
        if i + 1 < r.len() {
            assert(tail[i] == r[i + 1]);
        } else {
            assert(tail[i] == b[i + 1 - r.len()]);
            assert(b.contains(b[i + 1 - r.len()]));
        }
    }
    if n <= rest.len() && rest.take(n) == from {
        assert(from[n - 1] == rest[n - 1]);
        if n <= r.len() {
            assert(r[n - 1] == ';');
            assert(n == r.len());
            assert(from =~= r);
        } else {
            assert(from[r.len() - 1] == rest[r.len() - 1]);
        }
    }
    lemma_only_ampersand(a, rest, from, to);
}

/// A bare ampersand stays where no semicolon follows.
proof fn lemma_bare_ampersand(a: Seq<char>, b: Seq<char>, from: Seq<char>, to: Seq<char>)
    requires
        !a.contains('&'),
        !b.contains('&'),
        !b.contains(';'),
        is_reference(from),
    ensures
        search::replace(a + seq!['&'] + b, from, to) == a + seq!['&'] + b,
{
    let rest = seq!['&'] + b;
    let n = from.len() as int;
    assert(a + seq!['&'] + b =~= a + rest);
    assert(rest.drop_first() =~= b);
    if n <= rest.len() && rest.take(n) == from {
        assert(from[n - 1] == rest[n - 1]);
        assert(b.contains(b[n - 2]));
    }
    lemma_only_ampersand(a, rest, from, to);
}

/// The character references are what they are called.
proof fn lemma_references()
    ensures
        is_reference("&nbsp;"@),
        is_reference("&amp;"@),
        is_reference("&lt;"@),
        is_reference("&gt;"@),
        is_reference("&quot;"@),
        is_reference("&apos;"@),
        is_reference("&#39;"@),
        is_reference("&copy;"@),
        is_reference("&reg;"@),
        "&nbsp;"@[1] == 'n',
        "&amp;"@[1] == 'a' && "&amp;"@[2] == 'm',
        "&lt;"@[1] == 'l',
        "&gt;"@[1] == 'g',
        "&quot;"@[1] == 'q',
        "&apos;"@[1] == 'a' && "&apos;"@[2] == 'p',
        "&#39;"@[1] == '#',
        "&copy;"@[1] == 'c',
        "&reg;"@[1] == 'r',
{
    reveal_strlit("&nbsp;");
    reveal_strlit("&amp;");
    reveal_strlit("&lt;");
    reveal_strlit("&gt;");
    reveal_strlit("&quot;");
    reveal_strlit("&apos;");
    reveal_strlit("&#39;");
    reveal_strlit("&copy;");
    reveal_strlit("&reg;");
}

/// `r` is the reference for the character `c`.
pub open spec fn stands_for(r: Seq<char>, c: char) -> bool {
    ||| r == "&nbsp;"@ && c == ' '
    ||| r == "&amp;"@ && c == '&'
    ||| r == "&lt;"@ && c == '<'
    ||| r == "&gt;"@ && c == '>'
    ||| r == "&quot;"@ && c == '"'
    ||| r == "&apos;"@ && c == '\''
    ||| r == "&#39;"@ && c == '\''
    ||| r == "&copy;"@ && c == '\u{a9}'
    ||| r == "&reg;"@ && c == '\u{ae}'
}

/// The step that replaces `from` by `to` in a text with one reference.
proof fn lemma_reference_step(
    a: Seq<char>,
    r: Seq<char>,
    c: char,
    b: Seq<char>,
    from: Seq<char>,
    to: char,
)
    requires
        !a.contains('&'),
        !b.contains('&'),
        c == '&' ==> !b.contains(';'),
        is_reference(r),
        is_reference(from),
        r == from ==> c == to,
    ensures
        r == from ==> search::replace(a + r + b, from, seq![to]) == a + seq![c] + b,
        r != from ==> search::replace(a + r + b, from, seq![to]) == a + r + b,
        search::replace(a + seq![c] + b, from, seq![to]) == a + seq![c] + b,
{
    if r == from {
        search::law_first_occurrence_is_replaced(a, from, seq![to], b);
        search::lemma_replace_absent(b, from, seq![to]);
    } else {
        lemma_other_reference(a, r, b, from, seq![to]);
    }
    if c == '&' {
        lemma_bare_ampersand(a, b, from, seq![to]);
    } else {
        let s = a + seq![c] + b;
        assert forall|i: int| 0 <= i < s.len() implies s[i] != '&' by {
            if i < a.len() {
                assert(a.contains(a[i]));
            } else if i > a.len() {
                assert(b.contains(b[i - a.len() - 1]));
            }
        }
        search::lemma_replace_absent(s, from, seq![to]);
    }
}

/// A reference becomes its character, and no other reference does.
proof fn lemma_reference_is_replaced(a: Seq<char>, r: Seq<char>, c: char, b: Seq<char>)
    requires
        !a.contains('&'),
        !b.contains('&'),
        c == '&' ==> !b.contains(';'),
        stands_for(r, c),
    ensures
        references_replaced(a + r + b) == a + seq![c] + b,
{
    lemma_references();
    lemma_reference_step(a, r, c, b, "&nbsp;"@, ' ');
    lemma_reference_step(a, r, c, b, "&amp;"@, '&');
    lemma_reference_step(a, r, c, b, "&lt;"@, '<');
    lemma_reference_step(a, r, c, b, "&gt;"@, '>');
    lemma_reference_step(a, r, c, b, "&quot;"@, '"');
    lemma_reference_step(a, r, c, b, "&apos;"@, '\'');
    lemma_reference_step(a, r, c, b, "&#39;"@, '\'');
    lemma_reference_step(a, r, c, b, "&copy;"@, '\u{a9}');
    lemma_reference_step(a, r, c, b, "&reg;"@, '\u{ae}');
}

/// A text without references, without carriage returns, without three line
/// feeds in a row and without white space around it stays as it is.
pub proof fn law_tidy_text_is_kept(s: Seq<char>)
    requires
        !s.contains('&'),
        !s.contains('\r'),
        forall|i: int|
            0 <= i < s.len() - 2 ==> !(#[trigger] s[i] == '\n' && s[i + 1] == '\n' && s[i + 2]
                == '\n'),
        s.len() > 0 ==> !chars::white_space(s[0]) && !chars::white_space(s.last()),
    ensures
        entities_decoded(s) == s,
        !s.contains('<') ==> plain_text(s) == s,
{
    lemma_no_references(s);
    lemma_tidy_is_same(s);
    if !s.contains('<') {
        law_text_without_tags_is_kept(s);
    }
}

/// Nothing is thinned out of a tidy text.
proof fn lemma_tidy_is_same(s: Seq<char>)
    requires
        !s.contains('\r'),
        forall|i: int|
            0 <= i < s.len() - 2 ==> !(#[trigger] s[i] == '\n' && s[i + 1] == '\n' && s[i + 2]
                == '\n'),
        s.len() > 0 ==> !chars::white_space(s[0]) && !chars::white_space(s.last()),
    ensures
        trim::trim(lines_thinned(s, 0)) == s,
{
    assert forall|i: int| 0 <= i < s.len() implies s[i] != '\r' by {
        assert(s.contains(s[i]));
    }
    lemma_thin_is_same(s, 0);
    trim::lemma_trim_is_same(s);
}

/// The plain text of an HTML text whose text is tidy is that text.
pub proof fn law_tidy_html_loses_its_tags(html: Seq<char>)
    requires
        ({
            let s = without_tags(html, false);
            &&& !s.contains('&')
            &&& !s.contains('\r')
            &&& forall|i: int|
                0 <= i < s.len() - 2 ==> !(#[trigger] s[i] == '\n' && s[i + 1] == '\n' && s[i + 2]
                    == '\n')
            &&& s.len() > 0 ==> !chars::white_space(s[0]) && !chars::white_space(s.last())
        }),
    ensures
        plain_text(html) == without_tags(html, false),
{
    law_tidy_text_is_kept(without_tags(html, false));
}

/// Each of the known references in a tidy text becomes the character that it
/// stands for. What follows an ampersand that is written as a reference must
/// not make up another one.
pub proof fn law_references_are_decoded(a: Seq<char>, r: Seq<char>, c: char, b: Seq<char>)
    requires
        ({
            ||| r == "&nbsp;"@ && c == ' '
            ||| r == "&amp;"@ && c == '&'
            ||| r == "&lt;"@ && c == '<'
            ||| r == "&gt;"@ && c == '>'
            ||| r == "&quot;"@ && c == '"'
            ||| r == "&apos;"@ && c == '\''
            ||| r == "&#39;"@ && c == '\''
            ||| r == "&copy;"@ && c == '\u{a9}'
            ||| r == "&reg;"@ && c == '\u{ae}'
        }),
        !a.contains('&'),
        !b.contains('&'),
        c == '&' ==> !b.contains(';'),
        ({
            let s = a + seq![c] + b;
            &&& !s.contains('\r')
            &&& forall|i: int|
                0 <= i < s.len() - 2 ==> !(#[trigger] s[i] == '\n' && s[i + 1] == '\n' && s[i + 2]
                    == '\n')
            &&& s.len() > 0 ==> !chars::white_space(s[0]) && !chars::white_space(s.last())
        }),
    ensures
        entities_decoded(a + r + b) == a + seq![c] + b,
{
    lemma_reference_is_replaced(a, r, c, b);
    lemma_tidy_is_same(a + seq![c] + b);
}

/// A reference whose ampersand is itself written as a reference is decoded all
/// the way, but for that of the space, which is looked for first.
pub proof fn law_written_ampersands_are_decoded_early(
    a: Seq<char>,
    name: Seq<char>,
    c: char,
    b: Seq<char>,
)
    requires
        stands_for(seq!['&'] + name, c),
        c != '&',
        !a.contains('&'),
        !b.contains('&'),
        !(a + name + b).contains('\r'),
        !(a + name + b).contains('\n'),
        a.len() > 0 ==> !chars::white_space(a[0]),
        b.len() > 0 ==> !chars::white_space(b.last()),
    ensures
        c != ' ' ==> entities_decoded(a + "&amp;"@ + (name + b)) == a + seq![c] + b,
        c == ' ' ==> entities_decoded(a + "&amp;"@ + (name + b)) == a + "&nbsp;"@ + b,
{
    let r = seq!['&'] + name;
    lemma_references();
    let nb = name + b;
    assert forall|i: int| 0 <= i < nb.len() implies nb[i] != '&' by {
        if i < name.len() {
            assert(name[i] == r[i + 1]);
        } else {
            assert(b.contains(b[i - name.len()]));
        }
    }
    lemma_other_reference(a, "&amp;"@, nb, "&nbsp;"@, seq![' ']);
    search::law_first_occurrence_is_replaced(a, "&amp;"@, seq!['&'], nb);
    search::lemma_replace_absent(nb, "&amp;"@, seq!['&']);
    assert(a + seq!['&'] + nb =~= a + r + b);
    lemma_reference_step(a, r, c, b, "&lt;"@, '<');
    lemma_reference_step(a, r, c, b, "&gt;"@, '>');
    lemma_reference_step(a, r, c, b, "&quot;"@, '"');
    lemma_reference_step(a, r, c, b, "&apos;"@, '\'');
    lemma_reference_step(a, r, c, b, "&#39;"@, '\'');
    lemma_reference_step(a, r, c, b, "&copy;"@, '\u{a9}');
    lemma_reference_step(a, r, c, b, "&reg;"@, '\u{ae}');
    let s = if c == ' ' {
        a + r + b
    } else {
        a + seq![c] + b
    };
    assert(references_replaced(a + "&amp;"@ + nb) == s);
    let all = a + name + b;
    assert forall|i: int| 0 <= i < s.len() implies s[i] != '\r' && s[i] != '\n' by {
        if i < a.len() {
            assert(all[i] == s[i]);
            assert(all.contains(all[i]));
        } else if c == ' ' && i > a.len() {
            assert(all[i - 1] == s[i]);
            assert(all.contains(all[i - 1]));
        } else if c != ' ' && i > a.len() {
            assert(all[i - 1 + name.len()] == s[i]);
            assert(all.contains(all[i - 1 + name.len()]));
        }
    }
    assert(!chars::white_space(c) || c == ' ');
    lemma_tidy_is_same(s);
}

/// A front without line feeds at its end stays as it is.
proof fn lemma_thin_front(a: Seq<char>, rest: Seq<char>, run: nat)
    requires
        run <= 2,
        a.len() > 0,
        a.last() != '\n',
        forall|i: int| 0 <= i < a.len() ==> a[i] != '\r',
        forall|i: int|
            0 <= i < a.len() - 2 ==> !(#[trigger] a[i] == '\n' && a[i + 1] == '\n' && a[i + 2]
                == '\n'),
        run == 1 && a.len() >= 2 ==> !(a[0] == '\n' && a[1] == '\n'),
        run == 2 ==> a[0] != '\n',
    ensures
        lines_thinned(a + rest, run) == a + lines_thinned(rest, 0),
    decreases a.len(),
{
    let s = a + rest;
    let b = a.drop_first();
    assert(s.drop_first() =~= b + rest);
    if b.len() > 0 {
        assert forall|i: int| 0 <= i < b.len() - 2 implies !(#[trigger] b[i] == '\n' && b[i + 1]
            == '\n' && b[i + 2] == '\n') by {
            assert(b[i] == a[i + 1]);
        }
        if a[0] == '\n' {
            if run == 0 && b.len() >= 2 {
                assert(!(a[0] == '\n' && a[1] == '\n' && a[2] == '\n'));
            }
            lemma_thin_front(b, rest, run + 1);
        } else {
            lemma_thin_front(b, rest, 0);
        }
        assert(seq![a[0]] + (b + lines_thinned(rest, 0)) =~= a + lines_thinned(rest, 0));
    } else {
        assert(s.drop_first() =~= rest);
        assert(a =~= seq![a[0]]);
    }
}

/// Line feeds behind two others leave nothing.
proof fn lemma_more_line_feeds(n: nat, rest: Seq<char>, run: nat)
    requires
        run >= 2,
    ensures
        lines_thinned(Seq::new(n, |i: int| '\n') + rest, run) == lines_thinned(rest, run + n),
    decreases n,
{
    let s = Seq::new(n, |i: int| '\n') + rest;
    if n > 0 {
        lemma_more_line_feeds((n - 1) as nat, rest, run + 1);
        assert(s.drop_first() =~= Seq::new((n - 1) as nat, |i: int| '\n') + rest);
    } else {
        assert(s =~= rest);
    }
}

/// Between two stretches of text, line feeds stay up to two, and no more than
/// two of them stay.
pub proof fn law_line_feeds_are_thinned(a: Seq<char>, n: nat, b: Seq<char>)
    requires
        a.len() > 0,
        b.len() > 0,
        forall|i: int| 0 <= i < a.len() ==> a[i] != '\n' && a[i] != '\r' && a[i] != '&',
        forall|i: int| 0 <= i < b.len() ==> b[i] != '\n' && b[i] != '\r' && b[i] != '&',
        !chars::white_space(a[0]),
        !chars::white_space(b.last()),
    ensures
        entities_decoded(a + Seq::new(n, |i: int| '\n') + b) == a + (if n == 0 {
            seq![]
        } else if n == 1 {
            seq!['\n']
        } else {
            seq!['\n', '\n']
        }) + b,
{
    let feeds = Seq::new(n, |i: int| '\n');
    let s = a + feeds + b;
    assert forall|i: int| 0 <= i < s.len() implies s[i] != '&' by {}
    lemma_no_references(s);
    let rest = feeds + b;
    assert(s =~= a + rest);
    lemma_thin_front(a, rest, 0);
    assert(b + seq![] =~= b);
    lemma_thin_front(b, seq![], 0);
    lemma_thin_front(b, seq![], 1);
    lemma_thin_front(b, seq![], 2);
    assert(lines_thinned(seq![], 0) =~= seq![]);
    let kept: Seq<char> = if n == 0 {
        seq![]
    } else if n == 1 {
        seq!['\n']
    } else {
        seq!['\n', '\n']
    };
    assert(lines_thinned(rest, 0) =~= kept + b) by {
        if n == 0 {
            assert(rest =~= b);
            assert(lines_thinned(b, 0) =~= b);
        } else {
            let more = Seq::new((n - 1) as nat, |i: int| '\n') + b;
            assert(rest.drop_first() =~= more);
            assert(lines_thinned(rest, 0) == seq!['\n'] + lines_thinned(more, 1));
            if n == 1 {
                assert(more =~= b);
                assert(lines_thinned(b, 1) =~= b);
            } else {
                let most = Seq::new((n - 2) as nat, |i: int| '\n') + b;
                assert(more.drop_first() =~= most);
                lemma_more_line_feeds((n - 2) as nat, b, 2);
                lemma_long_run(b, n);
                assert(lines_thinned(more, 1) == seq!['\n'] + lines_thinned(most, 2));
                assert(lines_thinned(most, 2) == lines_thinned(b, n));
                assert(lines_thinned(b, 2) =~= b);
            }
        }
    }
    let done = a + kept + b;
    assert(a + (kept + b) =~= done);
    assert(done[0] == a[0]);
    assert(done.last() == b.last());
    trim::lemma_trim_is_same(done);
}

/// Leaving a carriage return out changes nothing in the thinned text.
proof fn lemma_carriage_return(a: Seq<char>, b: Seq<char>, run: nat)
    ensures
        lines_thinned(a + seq!['\r'] + b, run) == lines_thinned(a + b, run),
    decreases a.len(),
{
    let s = a + seq!['\r'] + b;
    if a.len() > 0 {
        let c = a.drop_first();
        assert(s.drop_first() =~= c + seq!['\r'] + b);
        assert((a + b).drop_first() =~= c + b);
        lemma_carriage_return(c, b, run);
        lemma_carriage_return(c, b, run + 1);
        lemma_carriage_return(c, b, 0);
    } else {
        assert(s.drop_first() =~= b);
        assert(a + b =~= b);
    }
}

/// A carriage return leaves nothing behind.
pub proof fn law_carriage_returns_are_left_out(a: Seq<char>, b: Seq<char>)
    requires
        !a.contains('&'),
        !b.contains('&'),
    ensures
        entities_decoded(a + seq!['\r'] + b) == entities_decoded(a + b),
{
    let s = a + seq!['\r'] + b;
    let t = a + b;
    assert forall|i: int| 0 <= i < s.len() implies s[i] != '&' by {
        if i < a.len() {
            assert(a.contains(a[i]));
        } else if i > a.len() {
            assert(b.contains(b[i - a.len() - 1]));
        }
    }
    assert forall|i: int| 0 <= i < t.len() implies t[i] != '&' by {
        if i < a.len() {
            assert(a.contains(a[i]));
        } else {
            assert(b.contains(b[i - a.len()]));
        }
    }
    lemma_no_references(s);
    lemma_no_references(t);
    lemma_carriage_return(a, b, 0);
}

} // verus!
