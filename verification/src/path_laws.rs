//! What holds of every path.

use vstd::prelude::*;
use vstd::utf8::*;
use crate::mailpath;
use crate::text::{chars, pieces, search, trim, unicode};

verus! {

// ---------------------------------------------------------------------------
// Slashes and backslashes
// ---------------------------------------------------------------------------

/// `c`, or a slash where it is a backslash.
pub open spec fn turned_char(c: char) -> char {
    if c == '\\' {
        '/'
    } else {
        c
    }
}

/// `s` with slashes in place of backslashes.
pub open spec fn turned(s: Seq<char>) -> Seq<char> {
    s.map_values(|c: char| turned_char(c))
}

/// Replacing the backslashes turns each of them round.
proof fn lemma_turned(s: Seq<char>)
    ensures
        search::replace(s, seq!['\\'], seq!['/']) == turned(s),
    decreases s.len(),
{
    if s.len() > 0 {
        let rest = s.drop_first();
        lemma_turned(rest);
        assert(s.skip(1) =~= rest);
        assert(s.take(1)[0] == s[0]);
        if s[0] == '\\' {
            assert(s.take(1) =~= seq!['\\']);
        }
        assert(turned(s) =~= seq![turned_char(s[0])] + turned(rest));
    } else {
        assert(turned(s) =~= s);
    }
}

/// Turning backslashes round and taking off white space can change places.
proof fn lemma_turned_trim_start(s: Seq<char>)
    ensures
        trim::trim_start(turned(s)) == turned(trim::trim_start(s)),
    decreases s.len(),
{
    if s.len() > 0 && chars::white_space(s[0]) {
        lemma_turned_trim_start(s.drop_first());
        assert(turned(s).drop_first() =~= turned(s.drop_first()));
    }
}

/// Turning backslashes round and taking off white space can change places.
proof fn lemma_turned_trim_end(s: Seq<char>)
    ensures
        trim::trim_end(turned(s)) == turned(trim::trim_end(s)),
    decreases s.len(),
{
    if s.len() > 0 && chars::white_space(s.last()) {
        lemma_turned_trim_end(s.drop_last());
        assert(turned(s).drop_last() =~= turned(s.drop_last()));
    }
}

/// Turning backslashes round and taking off a quote can change places.
proof fn lemma_turned_trim_quote(s: Seq<char>, quote: char)
    requires
        quote != '/',
        quote != '\\',
    ensures
        trim::trim_set(turned(s), seq![quote]) == turned(trim::trim_set(s, seq![quote])),
{
    lemma_turned_quote_start(s, quote);
    lemma_turned_quote_end(trim::trim_start_set(s, seq![quote]), quote);
}

/// The same at the front.
proof fn lemma_turned_quote_start(s: Seq<char>, quote: char)
    requires
        quote != '/',
        quote != '\\',
    ensures
        trim::trim_start_set(turned(s), seq![quote]) == turned(
            trim::trim_start_set(s, seq![quote]),
        ),
    decreases s.len(),
{
    if s.len() > 0 {
        lemma_one_quote(quote, s[0]);
        lemma_one_quote(quote, turned(s)[0]);
        if s[0] == quote {
            lemma_turned_quote_start(s.drop_first(), quote);
            assert(turned(s).drop_first() =~= turned(s.drop_first()));
        }
    }
}

/// The same at the end.
proof fn lemma_turned_quote_end(s: Seq<char>, quote: char)
    requires
        quote != '/',
        quote != '\\',
    ensures
        trim::trim_end_set(turned(s), seq![quote]) == turned(trim::trim_end_set(s, seq![quote])),
    decreases s.len(),
{
    if s.len() > 0 {
        lemma_one_quote(quote, s.last());
        lemma_one_quote(quote, turned(s).last());
        if s.last() == quote {
            lemma_turned_quote_end(s.drop_last(), quote);
            assert(turned(s).drop_last() =~= turned(s.drop_last()));
        }
    }
}

/// A list of one character holds that one.
proof fn lemma_one_quote(quote: char, c: char)
    ensures
        seq![quote].contains(c) <==> c == quote,
{
    if c == quote {
        assert(seq![quote][0] == c);
    }
}

/// A path is cleaned alike whether its backslashes are turned round first.
proof fn lemma_turned_is_cleaned(raw: Seq<char>)
    ensures
        mailpath::cleaned(raw) == trim::trim_set(
            trim::trim_set(trim::trim(turned(raw)), seq!['"']),
            seq!['\''],
        ),
        mailpath::cleaned(raw) == turned(
            trim::trim_set(trim::trim_set(trim::trim(raw), seq!['"']), seq!['\'']),
        ),
{
    let a = trim::trim(raw);
    let b = trim::trim_set(a, seq!['"']);
    lemma_turned(trim::trim_set(b, seq!['\'']));
    lemma_turned_trim_quote(b, '\'');
    lemma_turned_trim_quote(a, '"');
    lemma_turned_trim_end(trim::trim_start(raw));
    lemma_turned_trim_start(raw);
}

/// Slashes and backslashes read alike: paths that differ in nothing else name
/// the same.
pub proof fn law_slashes_and_backslashes_read_alike(a: Seq<char>, b: Seq<char>)
    requires
        turned(a) == turned(b),
    ensures
        mailpath::cleaned(a) == mailpath::cleaned(b),
        mailpath::mail_path(a) == mailpath::mail_path(b),
{
    lemma_turned_is_cleaned(a);
    lemma_turned_is_cleaned(b);
}

/// A path with backslashes in place of its slashes names what it names.
pub proof fn law_path_with_backslashes_is_read(raw: Seq<char>)
    ensures
        mailpath::mail_path(search::replace(raw, seq!['/'], seq!['\\'])) == mailpath::mail_path(raw),
{
    lemma_turned_back(raw);
    law_slashes_and_backslashes_read_alike(search::replace(raw, seq!['/'], seq!['\\']), raw);
}

/// Replacing the slashes does not show once backslashes are turned round.
proof fn lemma_turned_back(s: Seq<char>)
    ensures
        turned(search::replace(s, seq!['/'], seq!['\\'])) == turned(s),
    decreases s.len(),
{
    if s.len() > 0 {
        let rest = s.drop_first();
        let back = search::replace(rest, seq!['/'], seq!['\\']);
        lemma_turned_back(rest);
        assert(s.skip(1) =~= rest);
        assert(s.take(1)[0] == s[0]);
        if s[0] == '/' {
            assert(s.take(1) =~= seq!['/']);
            assert(search::replace(s, seq!['/'], seq!['\\']) == seq!['\\'] + back);
            assert(turned(seq!['\\'] + back) =~= seq!['/'] + turned(back));
        } else {
            assert(search::replace(s, seq!['/'], seq!['\\']) == seq![s[0]] + back);
            assert(turned(seq![s[0]] + back) =~= seq![turned_char(s[0])] + turned(back));
        }
        assert(turned(s) =~= seq![turned_char(s[0])] + turned(rest));
    }
}

// ---------------------------------------------------------------------------
// White space around a path
// ---------------------------------------------------------------------------

/// White space in front of a text does not show once it is trimmed.
proof fn lemma_trim_behind_space(c: char, s: Seq<char>)
    requires
        chars::white_space(c),
    ensures
        trim::trim(seq![c] + s) == trim::trim(s),
{
    assert((seq![c] + s).drop_first() =~= s);
}

/// White space behind a text does not show once it is trimmed.
proof fn lemma_trim_before_space(s: Seq<char>, c: char)
    requires
        chars::white_space(c),
    ensures
        trim::trim(s.push(c)) == trim::trim(s),
    decreases s.len(),
{
    if s.len() > 0 && chars::white_space(s[0]) {
        assert(s.push(c).drop_first() =~= s.drop_first().push(c));
        lemma_trim_before_space(s.drop_first(), c);
    } else if s.len() == 0 {
        assert(s.push(c).drop_first() =~= s);
    } else {
        assert(s.push(c).drop_last() =~= s);
    }
}

/// The pieces that are filled depend on their trimmed forms alone.
proof fn lemma_filled_by_trimmed(a: Seq<Seq<char>>, b: Seq<Seq<char>>)
    requires
        a.len() == b.len(),
        forall|i: int| 0 <= i < a.len() ==> trim::trim(#[trigger] a[i]) == trim::trim(b[i]),
    ensures
        mailpath::filled_pieces(a) == mailpath::filled_pieces(b),
    decreases a.len(),
{
    if a.len() > 0 {
        assert(trim::trim(a[a.len() - 1]) == trim::trim(b[a.len() - 1]));
        assert forall|i: int| 0 <= i < a.len() - 1 implies trim::trim(
            #[trigger] a.drop_last()[i],
        ) == trim::trim(b.drop_last()[i]) by {
            assert(trim::trim(a[i]) == trim::trim(b[i]));
        }
        lemma_filled_by_trimmed(a.drop_last(), b.drop_last());
    }
}

/// A character that is no separator lengthens the first piece.
proof fn lemma_split_behind(c: char, s: Seq<char>, sep: char)
    requires
        c != sep,
    ensures
        pieces::split(s, sep).len() > 0,
        pieces::split(seq![c] + s, sep) == pieces::split(s, sep).update(
            0,
            seq![c] + pieces::split(s, sep)[0],
        ),
{
    let w = seq![c] + s;
    search::lemma_index_of_char(s, sep);
    search::lemma_index_of_char(w, sep);
    assert(w.drop_first() =~= s);
    match search::index_of_char(s, sep) {
        Some(k) => {
            assert forall|j: int| 0 <= j < k + 1 implies w[j] != sep by {
                if j > 0 {
                    assert(w[j] == s[j - 1]);
                }
            }
            search::lemma_index_of_char_is(w, sep, k + 1);
            assert(w.take(k + 1) =~= seq![c] + s.take(k));
            assert(w.skip(k + 2) =~= s.skip(k + 1));
            assert(pieces::split(w, sep) =~= pieces::split(s, sep).update(
                0,
                seq![c] + pieces::split(s, sep)[0],
            ));
        },
        None => {
            if let Some(k) = search::index_of_char(w, sep) {
                assert(w[k] == s[k - 1]);
            }
            assert(pieces::split(w, sep) =~= pieces::split(s, sep).update(
                0,
                seq![c] + pieces::split(s, sep)[0],
            ));
        },
    }
}

/// A character that is no separator lengthens the last piece.
proof fn lemma_split_before(s: Seq<char>, c: char, sep: char)
    requires
        c != sep,
    ensures
        pieces::split(s, sep).len() > 0,
        pieces::split(s.push(c), sep) == pieces::split(s, sep).drop_last().push(
            pieces::split(s, sep).last().push(c),
        ),
    decreases s.len(),
{
    let w = s.push(c);
    search::lemma_index_of_char(s, sep);
    search::lemma_index_of_char(w, sep);
    match search::index_of_char(s, sep) {
        Some(k) => {
            let rest = s.skip(k + 1);
            assert forall|j: int| 0 <= j < k implies w[j] != sep by {
                assert(w[j] == s[j]);
            }
            search::lemma_index_of_char_is(w, sep, k);
            lemma_split_before(rest, c, sep);
            assert(w.take(k) =~= s.take(k));
            assert(w.skip(k + 1) =~= rest.push(c));
            let tail = pieces::split(rest, sep);
            assert(pieces::split(s, sep) == seq![s.take(k)] + tail);
            assert(pieces::split(s, sep).last() == tail.last());
            assert(seq![s.take(k)] + tail.drop_last().push(tail.last().push(c)) =~= pieces::split(
                s,
                sep,
            ).drop_last().push(pieces::split(s, sep).last().push(c)));
        },
        None => {
            if let Some(k) = search::index_of_char(w, sep) {
                if k < s.len() {
                    assert(w[k] == s[k]);
                }
            }
            assert(pieces::split(w, sep) =~= pieces::split(s, sep).drop_last().push(
                pieces::split(s, sep).last().push(c),
            ));
        },
    }
}

/// White space in front of a path is not part of its segments.
proof fn lemma_segments_trim_start(s: Seq<char>)
    ensures
        mailpath::segments(trim::trim_start(s)) == mailpath::segments(s),
    decreases s.len(),
{
    if s.len() > 0 && chars::white_space(s[0]) {
        let rest = s.drop_first();
        let a = pieces::split(s, '/');
        let b = pieces::split(rest, '/');
        lemma_segments_trim_start(rest);
        assert(seq![s[0]] + rest =~= s);
        lemma_split_behind(s[0], rest, '/');
        assert forall|i: int| 0 <= i < a.len() implies trim::trim(#[trigger] a[i]) == trim::trim(
            b[i],
        ) by {
            if i == 0 {
                lemma_trim_behind_space(s[0], b[0]);
            }
        }
        lemma_filled_by_trimmed(a, b);
    }
}

/// White space behind a path is not part of its segments.
proof fn lemma_segments_trim_end(s: Seq<char>)
    ensures
        mailpath::segments(trim::trim_end(s)) == mailpath::segments(s),
    decreases s.len(),
{
    if s.len() > 0 && chars::white_space(s.last()) {
        let rest = s.drop_last();
        let a = pieces::split(s, '/');
        let b = pieces::split(rest, '/');
        lemma_segments_trim_end(rest);
        assert(rest.push(s.last()) =~= s);
        lemma_split_before(rest, s.last(), '/');
        assert forall|i: int| 0 <= i < a.len() implies trim::trim(#[trigger] a[i]) == trim::trim(
            b[i],
        ) by {
            if i == a.len() - 1 {
                lemma_trim_before_space(b.last(), s.last());
            }
        }
        lemma_filled_by_trimmed(a, b);
    }
}

// ---------------------------------------------------------------------------
// Prefixes
// ---------------------------------------------------------------------------

/// White space is taken off the end of what stands behind a text.
proof fn lemma_trim_end_behind(front: Seq<char>, s: Seq<char>)
    requires
        front.len() > 0,
        !chars::white_space(front.last()),
    ensures
        trim::trim_end(front + s) == front + trim::trim_end(s),
    decreases s.len(),
{
    let w = front + s;
    if s.len() == 0 {
        assert(w =~= front);
        assert(front + trim::trim_end(s) =~= front);
    } else {
        assert(w.last() == s.last());
        if chars::white_space(s.last()) {
            assert(w.drop_last() =~= front + s.drop_last());
            lemma_trim_end_behind(front, s.drop_last());
        }
    }
}

/// A text that neither begins nor ends with a quote keeps its ends.
proof fn lemma_no_quotes(s: Seq<char>, quote: char)
    requires
        s.len() > 0 ==> s[0] != quote && s.last() != quote,
    ensures
        trim::trim_set(s, seq![quote]) == s,
{
    if s.len() > 0 {
        lemma_one_quote(quote, s[0]);
        lemma_one_quote(quote, s.last());
    }
}

/// What is left of a path behind a known prefix once it is cleaned.
proof fn lemma_cleaned_behind_prefix(i: int, head: Seq<char>, rest: Seq<char>)
    requires
        0 <= i < mailpath::prefixes().len(),
        unicode::ascii_lower(head) == mailpath::prefixes()[i],
        !rest.contains('"'),
        !rest.contains('\''),
    ensures
        mailpath::cleaned(head + rest) == head + turned(trim::trim_end(rest)),
{
    let w = head + rest;
    let e = trim::trim_end(rest);
    let q = turned(e);
    lemma_prefix_ends(i, head);
    trim::lemma_trim_end(rest);
    assert(w[0] == head[0]);
    assert(trim::trim_start(w) == w);
    lemma_trim_end_behind(head, rest);
    let t = head + e;
    assert(trim::trim(w) == t);
    assert(t[0] == head[0]);
    if e.len() > 0 {
        assert(t.last() == e.last());
        assert(e.last() == rest[e.len() - 1]);
        assert(rest.contains(e.last()));
        assert(q.last() == turned_char(e.last()));
    } else {
        assert(t =~= head);
    }
    lemma_no_quotes(t, '"');
    lemma_no_quotes(t, '\'');
    lemma_turned(t);
    assert(turned(t) =~= head + q) by {
        assert forall|k: int| 0 <= k < head.len() implies turned_char(head[k]) == head[k] by {
            assert(head[k] != '\\');
        }
    }
}

/// What is left of a path without quotes once it is cleaned.
proof fn lemma_cleaned_without_quotes(rest: Seq<char>)
    requires
        !rest.contains('"'),
        !rest.contains('\''),
    ensures
        mailpath::cleaned(rest) == turned(trim::trim(rest)),
{
    let inner = trim::trim(rest);
    lemma_inner_has_no_quotes(rest);
    lemma_no_quotes(inner, '"');
    lemma_no_quotes(inner, '\'');
    lemma_turned(inner);
}

/// A path without quotes behind one of the known prefixes names what it names
/// without the prefix, where `aux:` does not stand in its lower-case form and,
/// unless the prefix is the first of those that are known, not behind the
/// prefix either.
proof fn lemma_prefix_changes_nothing(i: int, head: Seq<char>, rest: Seq<char>)
    requires
        0 <= i < mailpath::prefixes().len(),
        is_ascii_chars(head),
        unicode::ascii_lower(head) == mailpath::prefixes()[i],
        !rest.contains('"'),
        !rest.contains('\''),
        mailpath::byte_position(unicode::lower(mailpath::cleaned(rest)), "aux:"@) is None,
        i == 0 || forall|p: int|
            p > 0 ==> !#[trigger] search::occurs_at(
                encode_utf8(unicode::lower(mailpath::cleaned(head + rest))),
                encode_utf8("aux:"@),
                p,
            ),
    ensures
        mailpath::mail_path(head + rest) == mailpath::mail_path(rest),
{
    let e = trim::trim_end(rest);
    let q = turned(e);
    trim::lemma_trim_end(rest);
    lemma_cleaned_behind_prefix(i, head, rest);
    if e.len() > 0 {
        assert(e.last() == rest[e.len() - 1]);
        assert(rest.contains(e.last()));
        assert(q.last() == turned_char(e.last()));
    }
    assert(!q.contains('\\')) by {
        if q.contains('\\') {
            let k = choose|k: int| 0 <= k < q.len() && q[k] == '\\';
            assert(q[k] == turned_char(e[k]));
        }
    }
    mailpath::law_prefix_is_taken_off(i, head, q);
    mailpath::lemma_head_is_clean(i, head, q);
    assert(mailpath::mail_path(head + rest) == Some(mailpath::path_in(q)));

    mailpath::law_plain_path_is_read_as_it_stands(rest);
    let inner = trim::trim(rest);
    lemma_cleaned_without_quotes(rest);
    let all = turned(rest);
    lemma_turned_trim_end(rest);
    lemma_segments_trim_end(all);
    lemma_turned_trim_start(rest);
    lemma_turned_trim_end(trim::trim_start(rest));
    lemma_segments_trim_start(all);
    lemma_segments_trim_end(trim::trim_start(all));
    assert(mailpath::segments(q) == mailpath::segments(turned(inner)));
}

/// The colon behind `aux` is the only one in a known prefix.
proof fn lemma_prefix_colon(i: int, k: int)
    requires
        0 <= i < mailpath::prefixes().len(),
        0 <= k < mailpath::prefixes()[i].len(),
        mailpath::prefixes()[i][k] == ':',
    ensures
        k == 3,
{
    reveal_strlit("aux://s_auximap/");
    reveal_strlit("aux:/s_auximap/");
    reveal_strlit("aux:s_auximap/");
    reveal_strlit("aux://s_auximapmail/");
    reveal_strlit("aux:/s_auximapmail/");
    reveal_strlit("aux:s_auximapmail/");
    reveal_strlit("aux://s_imapmail/");
    reveal_strlit("aux:/s_imapmail/");
    reveal_strlit("aux:s_imapmail/");
}

/// `aux:` stands in the lower-case form of a text where it stands in plain
/// lower case.
proof fn lemma_aux_in_plain(s: Seq<char>, k: int)
    ensures
        search::occurs_at(unicode::lower(s), "aux:"@, k) == search::occurs_at(
            unicode::plain_lower(s),
            "aux:"@,
            k,
        ),
{
    reveal_strlit("aux:");
    let aux = "aux:"@;
    let l = unicode::lower(s);
    let p = unicode::plain_lower(s);
    unicode::lemma_lower_form(s);
    unicode::lemma_form_is_plain(s, l);
    if 0 <= k && k + 4 <= l.len() {
        assert(unicode::same_but_for_sigma(l[k], p[k]));
        assert(unicode::same_but_for_sigma(l[k + 1], p[k + 1]));
        assert(unicode::same_but_for_sigma(l[k + 2], p[k + 2]));
        assert(unicode::same_but_for_sigma(l[k + 3], p[k + 3]));
        let lk = l.subrange(k, k + 4);
        let pk = p.subrange(k, k + 4);
        assert(lk[0] == l[k] && lk[1] == l[k + 1] && lk[2] == l[k + 2] && lk[3] == l[k + 3]);
        assert(pk[0] == p[k] && pk[1] == p[k + 1] && pk[2] == p[k + 2] && pk[3] == p[k + 3]);
        if lk == aux {
            assert(pk =~= aux);
        }
        if pk == aux {
            assert(lk =~= aux);
        }
    }
}

/// Turning backslashes round changes nothing but them in plain lower case.
proof fn lemma_turned_plain(s: Seq<char>)
    ensures
        unicode::plain_lower(turned(s)).len() == unicode::plain_lower(s).len(),
        forall|k: int|
            0 <= k < unicode::plain_lower(s).len() ==> {
                let a = #[trigger] unicode::plain_lower(turned(s))[k];
                let b = unicode::plain_lower(s)[k];
                a == b || a == '/' && b == '\\'
            },
    decreases s.len(),
{
    if s.len() > 0 {
        let rest = s.drop_first();
        lemma_turned_plain(rest);
        let t = turned(s);
        assert(t.drop_first() =~= turned(rest));
        assert(t[0] == turned_char(s[0]));
        let p = unicode::plain_lower(s);
        let q = unicode::plain_lower(t);
        let n: int = p.len() - unicode::plain_lower(rest).len();
        assert forall|k: int| 0 <= k < p.len() implies #[trigger] q[k] == p[k] || q[k] == '/'
            && p[k] == '\\' by {
            if k >= n {
                assert(q[k] == unicode::plain_lower(turned(rest))[k - n]);
                assert(p[k] == unicode::plain_lower(rest)[k - n]);
            }
        }
    } else {
        assert(turned(s) =~= s);
    }
}

/// `aux:` stands in the lower-case form of a text where it stands in that of
/// a stretch of it with its backslashes turned round.
proof fn lemma_aux_in_stretch(s: Seq<char>, from: int, to: int, k: int)
    requires
        0 <= from <= to <= s.len(),
        search::occurs_at(unicode::plain_lower(turned(s.subrange(from, to))), "aux:"@, k),
    ensures
        search::contains(unicode::lower(s), "aux:"@),
{
    reveal_strlit("aux:");
    let aux = "aux:"@;
    let front = s.subrange(0, from);
    let mid = s.subrange(from, to);
    let end = s.subrange(to, s.len() as int);
    assert(front + mid + end =~= s);
    unicode::lemma_plain_concat(front, mid);
    unicode::lemma_plain_concat(front + mid, end);
    lemma_turned_plain(mid);
    let o = unicode::plain_lower(front).len() as int;
    let p = unicode::plain_lower(s);
    let q = unicode::plain_lower(turned(mid));
    assert forall|j: int| 0 <= j < 4 implies p[o + k + j] == aux[j] by {
        assert(q.subrange(k, k + 4)[j] == q[k + j]);
        assert(p[o + k + j] == unicode::plain_lower(mid)[k + j]);
    }
    assert(p.subrange(o + k, o + k + 4) =~= aux);
    assert(search::occurs_at(p, aux, o + k));
    lemma_aux_in_plain(s, o + k);
    search::lemma_find_from(unicode::lower(s), aux, 0);
}

/// A path without quotes in which `aux:` does not stand, in capitals or not,
/// names behind any of the known prefixes what it names without it.
pub proof fn law_prefix_changes_nothing(i: int, head: Seq<char>, rest: Seq<char>)
    requires
        0 <= i < mailpath::prefixes().len(),
        is_ascii_chars(head),
        unicode::ascii_lower(head) == mailpath::prefixes()[i],
        !rest.contains('"'),
        !rest.contains('\''),
        !search::contains(unicode::lower(rest), "aux:"@),
    ensures
        mailpath::mail_path(head + rest) == mailpath::mail_path(rest),
{
    let aux = "aux:"@;
    reveal_strlit("aux:");
    let inner = trim::trim(rest);
    let front = trim::trim_start(rest);
    let e = trim::trim_end(rest);
    let q = turned(e);
    trim::lemma_trim_start(rest);
    trim::lemma_trim_end(front);
    trim::lemma_trim_end(rest);
    lemma_cleaned_without_quotes(rest);
    lemma_cleaned_behind_prefix(i, head, rest);
    let off = rest.len() - front.len();
    let a = turned(inner);
    assert(inner =~= rest.subrange(off, off + inner.len()));
    assert(e =~= rest.subrange(0, e.len() as int));
    let la = unicode::lower(a);
    search::lemma_find_from(encode_utf8(la), encode_utf8(aux), 0);
    if let Some(p) = mailpath::byte_position(la, aux) {
        let k = unicode::lemma_bytes_occur(la, aux, p);
        lemma_aux_in_plain(a, k);
        lemma_aux_in_stretch(rest, off, off + inner.len(), k);
    }
    let w = head + q;
    let lw = unicode::lower(w);
    let n = head.len() as int;
    lemma_prefix_ends(i, head);
    assert forall|p: int| p > 0 implies !#[trigger] search::occurs_at(
        encode_utf8(lw),
        encode_utf8(aux),
        p,
    ) by {
        if search::occurs_at(encode_utf8(lw), encode_utf8(aux), p) {
            let k = unicode::lemma_bytes_occur(lw, aux, p);
            lemma_aux_in_plain(w, k);
            unicode::lemma_plain_concat(head, q);
            unicode::lemma_plain_ascii(head);
            let low = unicode::plain_lower(w);
            let at = low.subrange(k, k + 4);
            assert(at[3] == low[k + 3]);
            if k + 3 < n {
                assert(low[k + 3] == unicode::ascii_lower(head)[k + 3]);
                lemma_prefix_colon(i, k + 3);
            } else if k < n {
                let j = n - 1 - k;
                assert(at[j] == low[k + j]);
                assert(low[n - 1] == unicode::ascii_lower_char(head.last()));
            } else {
                let o = k - n;
                assert(unicode::plain_lower(q).subrange(o, o + 4) =~= at);
                lemma_aux_in_stretch(rest, 0, e.len() as int, o);
            }
        }
    }
    lemma_prefix_changes_nothing(i, head, rest);
}

/// The part of a text that is not white space holds no quotes at its ends
/// where the text holds none.
proof fn lemma_inner_has_no_quotes(s: Seq<char>)
    requires
        !s.contains('"'),
        !s.contains('\''),
    ensures
        ({
            let t = trim::trim(s);
            t.len() > 0 ==> t[0] != '"' && t.last() != '"' && t[0] != '\'' && t.last() != '\''
        }),
{
    let front = trim::trim_start(s);
    let t = trim::trim(s);
    trim::lemma_trim_start(s);
    trim::lemma_trim_end(front);
    if t.len() > 0 {
        let off = s.len() - front.len();
        assert(t[0] == s[off]);
        assert(t.last() == s[off + t.len() - 1]);
        assert(s.contains(t[0]));
        assert(s.contains(t.last()));
    }
}

/// A known prefix begins with a letter, ends with a slash and holds no
/// backslash.
proof fn lemma_prefix_ends(i: int, head: Seq<char>)
    requires
        0 <= i < mailpath::prefixes().len(),
        unicode::ascii_lower(head) == mailpath::prefixes()[i],
    ensures
        head.len() > 0,
        head[0] == 'a' || head[0] == 'A',
        head.last() == '/',
        forall|k: int| 0 <= k < head.len() ==> head[k] != '\\',
{
    let mark = mailpath::prefixes()[i];
    mailpath::lemma_prefixes(i, i);
    reveal_strlit("aux:");
    assert(mark.take(4)[0] == 'a');
    assert(unicode::ascii_lower(head).len() == head.len());
    assert(unicode::ascii_lower(head)[0] == mark[0]);
    assert(unicode::ascii_lower(head).last() == mark.last());
    assert forall|k: int| 0 <= k < head.len() implies head[k] != '\\' by {
        assert(unicode::ascii_lower(head)[k] == mark[k]);
        assert(mark.contains(mark[k]));
    }
}

// ---------------------------------------------------------------------------
// What a path names
// ---------------------------------------------------------------------------

/// A piece of a path: not empty, without white space around it, and without
/// slashes and backslashes in it.
pub open spec fn is_clean_segment(s: Seq<char>) -> bool {
    mailpath::is_segment(s) && !s.contains('\\')
}

/// A folder in a path: not empty, without backslashes, and with slashes only
/// between other characters and one at a time.
pub open spec fn is_clean_folder(s: Seq<char>) -> bool {
    &&& s.len() > 0
    &&& s[0] != '/'
    &&& s.last() != '/'
    &&& !s.contains('\\')
    &&& forall|k: int| 0 <= k < s.len() - 1 ==> !(#[trigger] s[k] == '/' && s[k + 1] == '/')
}

/// What a path names fits together: there is no folder and no message without
/// an account and no number without a message; a message has the number in its
/// name, or a name that ends like a message's; and every part is clean.
pub open spec fn is_sound(m: mailpath::MailPathView) -> bool {
    &&& m.folder is Some || m.filename is Some ==> m.account is Some
    &&& m.uid is Some ==> m.filename is Some
    &&& m.account matches Some(a) ==> is_clean_segment(a)
    &&& m.filename matches Some(f) ==> {
        &&& is_clean_segment(f)
        &&& m.uid == mailpath::segment_uid(f)
        &&& m.uid is Some || search::ends_with(unicode::lower(f), ".eml"@)
    }
    &&& m.folder matches Some(f) ==> is_clean_folder(f)
}

/// The pieces hold no separator, and nothing that the text does not hold.
proof fn lemma_split_holds(s: Seq<char>, sep: char, c: char)
    requires
        c == sep || !s.contains(c),
    ensures
        forall|i: int|
            0 <= i < pieces::split(s, sep).len() ==> !(#[trigger] pieces::split(s, sep)[i]).contains(
                c,
            ),
    decreases s.len(),
{
    let all = pieces::split(s, sep);
    search::lemma_index_of_char(s, sep);
    match search::index_of_char(s, sep) {
        Some(k) => {
            let rest = s.skip(k + 1);
            assert(c == sep || !rest.contains(c)) by {
                if c != sep && rest.contains(c) {
                    let j = choose|j: int| 0 <= j < rest.len() && rest[j] == c;
                    assert(s[k + 1 + j] == c);
                }
            }
            lemma_split_holds(rest, sep, c);
            assert forall|i: int| 0 <= i < all.len() implies !(#[trigger] all[i]).contains(c) by {
                if i == 0 {
                    if s.take(k).contains(c) {
                        let j = choose|j: int| 0 <= j < k && s.take(k)[j] == c;
                        assert(s[j] == c);
                    }
                } else {
                    assert(all[i] == pieces::split(rest, sep)[i - 1]);
                }
            }
        },
        None => {
            if s.contains(c) {
                let j = choose|j: int| 0 <= j < s.len() && s[j] == c;
                assert(s[j] != sep);
            }
        },
    }
}

/// A trimmed text holds nothing that the text does not hold.
proof fn lemma_trim_holds(s: Seq<char>, c: char)
    requires
        !s.contains(c),
    ensures
        !trim::trim(s).contains(c),
{
    let front = trim::trim_start(s);
    let t = trim::trim(s);
    trim::lemma_trim_start(s);
    trim::lemma_trim_end(front);
    if t.contains(c) {
        let k = choose|k: int| 0 <= k < t.len() && t[k] == c;
        assert(s[s.len() - front.len() + k] == c);
    }
}

/// The filled pieces are clean where the pieces hold no slash and no
/// backslash.
proof fn lemma_filled_are_clean(all: Seq<Seq<char>>)
    requires
        forall|i: int| 0 <= i < all.len() ==> !(#[trigger] all[i]).contains('/'),
        forall|i: int| 0 <= i < all.len() ==> !(#[trigger] all[i]).contains('\\'),
    ensures
        forall|i: int|
            0 <= i < mailpath::filled_pieces(all).len() ==> is_clean_segment(
                #[trigger] mailpath::filled_pieces(all)[i],
            ),
    decreases all.len(),
{
    if all.len() > 0 {
        let front = all.drop_last();
        let last = all[all.len() - 1];
        assert forall|i: int| 0 <= i < front.len() implies !(#[trigger] front[i]).contains('/') by {
            assert(!all[i].contains('/'));
        }
        assert forall|i: int| 0 <= i < front.len() implies !(#[trigger] front[i]).contains(
            '\\',
        ) by {
            assert(!all[i].contains('\\'));
        }
        lemma_filled_are_clean(front);
        lemma_trim_holds(last, '/');
        lemma_trim_holds(last, '\\');
        trim::lemma_trim_twice(last);
        let before = mailpath::filled_pieces(front);
        let filled = mailpath::filled_pieces(all);
        assert forall|i: int| 0 <= i < filled.len() implies is_clean_segment(
            #[trigger] filled[i],
        ) by {
            if i < before.len() {
                assert(filled[i] == before[i]);
            } else {
                assert(filled[i] == trim::trim(last));
            }
        }
    }
}

/// Joined segments have slashes only between them.
proof fn lemma_joined_is_clean(segs: Seq<Seq<char>>)
    requires
        segs.len() > 0,
        forall|i: int| 0 <= i < segs.len() ==> is_clean_segment(#[trigger] segs[i]),
    ensures
        is_clean_folder(pieces::join(segs, seq!['/'])),
    decreases segs.len(),
{
    let j = pieces::join(segs, seq!['/']);
    assert(is_clean_segment(segs[segs.len() - 1]));
    lemma_plain_segment(segs[segs.len() - 1]);
    if segs.len() > 1 {
        let front = segs.drop_last();
        let last = segs.last();
        assert forall|i: int| 0 <= i < front.len() implies is_clean_segment(
            #[trigger] front[i],
        ) by {
            assert(is_clean_segment(segs[i]));
        }
        lemma_joined_is_clean(front);
        let f = pieces::join(front, seq!['/']);
        let n = f.len() as int;
        assert(j =~= f + seq!['/'] + last);
        assert forall|k: int| 0 <= k < j.len() - 1 implies !(#[trigger] j[k] == '/' && j[k + 1]
            == '/') by {
            if k < n - 1 {
                assert(j[k] == f[k]);
                assert(j[k + 1] == f[k + 1]);
            } else if k == n - 1 {
                assert(j[k] == f.last());
            } else if k == n {
                assert(j[k + 1] == last[0]);
            } else {
                assert(j[k] == last[k - n - 1]);
            }
        }
        assert(!j.contains('\\')) by {
            if j.contains('\\') {
                let k = choose|k: int| 0 <= k < j.len() && j[k] == '\\';
                if k < n {
                    assert(f[k] == '\\');
                } else if k > n {
                    assert(last[k - n - 1] == '\\');
                }
            }
        }
        assert(j[0] == f[0]);
        assert(j.last() == last.last());
    }
}

/// A segment has no slash anywhere.
proof fn lemma_plain_segment(s: Seq<char>)
    requires
        is_clean_segment(s),
    ensures
        forall|k: int| 0 <= k < s.len() ==> s[k] != '/',
{
    assert forall|k: int| 0 <= k < s.len() implies s[k] != '/' by {
        assert(s.contains(s[k]));
    }
}

/// What is cut off a text holds nothing that the text does not hold.
proof fn lemma_cut_holds(s: Seq<char>, n: int, c: char)
    requires
        !s.contains(c),
    ensures
        mailpath::cut_at(s, n) matches Some(t) ==> !t.contains(c),
{
    if let Some(t) = mailpath::cut_at(s, n) {
        let b = encode_utf8(s);
        encode_utf8_valid_utf8(s);
        encode_utf8_decode_utf8(s);
        lemma_boundary_is_inside(b, n);
        decode_utf8_split(b, n);
        assert(b.skip(n) =~= b.subrange(n, b.len() as int));
        let front = decode_utf8(b.subrange(0, n));
        assert(s == front + t);
        if t.contains(c) {
            let k = choose|k: int| 0 <= k < t.len() && t[k] == c;
            assert(s[front.len() + k] == c);
        }
    }
}

/// A boundary lies inside the bytes.
proof fn lemma_boundary_is_inside(b: Seq<u8>, n: int)
    requires
        valid_utf8(b),
        is_char_boundary(b, n),
    ensures
        0 <= n <= b.len(),
{
}

/// What stands behind a prefix holds nothing that the path does not hold.
proof fn lemma_behind_prefix_holds(s: Seq<char>, lower: Seq<char>, c: char)
    requires
        !s.contains(c),
    ensures
        mailpath::behind_prefix(s, lower) matches Some(t) ==> !t.contains(c),
{
    match mailpath::first_mark_end(lower, mailpath::prefixes()) {
        Some(n) => {
            lemma_cut_holds(s, n, c);
        },
        None => match mailpath::byte_position(lower, "aux://"@) {
            Some(p) => {
                lemma_cut_holds(s, p + 6, c);
                lemma_behind_slash_holds(s, mailpath::cut_at(s, p + 6), c);
            },
            None => {
                if let Some(p) = mailpath::byte_position(lower, "aux:"@) {
                    lemma_cut_holds(s, p + 4, c);
                    lemma_behind_slash_holds(s, mailpath::cut_at(s, p + 4), c);
                }
            },
        },
    }
}

/// What stands behind a slash holds nothing that neither text holds.
proof fn lemma_behind_slash_holds(s: Seq<char>, tail: Option<Seq<char>>, c: char)
    requires
        !s.contains(c),
        tail matches Some(t) ==> !t.contains(c),
    ensures
        mailpath::behind_slash(s, tail) matches Some(u) ==> !u.contains(c),
{
    if let Some(t) = tail {
        search::lemma_index_of_char(t, '/');
        if let Some(k) = search::index_of_char(t, '/') {
            let u = t.skip(k + 1);
            if u.contains(c) {
                let j = choose|j: int| 0 <= j < u.len() && u[j] == c;
                assert(t[k + 1 + j] == c);
            }
        }
    }
}

/// What a path names fits together, whatever the path.
pub proof fn law_path_is_sound(raw: Seq<char>)
    ensures
        mailpath::mail_path(raw) matches Some(m) ==> is_sound(m),
{
    let s = mailpath::cleaned(raw);
    let l = unicode::lower(s);
    lemma_turned_is_cleaned(raw);
    assert(!s.contains('\\')) by {
        if s.contains('\\') {
            let k = choose|k: int| 0 <= k < s.len() && s[k] == '\\';
            let t = trim::trim_set(trim::trim_set(trim::trim(raw), seq!['"']), seq!['\'']);
            assert(s[k] == turned_char(t[k]));
        }
    }
    lemma_behind_prefix_holds(s, l, '\\');
    if let Some(tail) = mailpath::behind_prefix(s, l) {
        let parts = pieces::split(tail, '/');
        let segs = mailpath::segments(tail);
        lemma_split_holds(tail, '/', '/');
        lemma_split_holds(tail, '/', '\\');
        lemma_filled_are_clean(parts);
        if segs.len() > 1 {
            assert(is_clean_segment(segs[0]));
            assert(is_clean_segment(segs[segs.len() - 1]));
            let below = segs.skip(1);
            let between = segs.subrange(1, segs.len() - 1);
            assert forall|i: int| 0 <= i < below.len() implies is_clean_segment(
                #[trigger] below[i],
            ) by {
                assert(is_clean_segment(segs[i + 1]));
            }
            assert forall|i: int| 0 <= i < between.len() implies is_clean_segment(
                #[trigger] between[i],
            ) by {
                assert(is_clean_segment(segs[i + 1]));
            }
            lemma_joined_is_clean(below);
            if segs.len() > 2 {
                lemma_joined_is_clean(between);
            }
        } else if segs.len() == 1 {
            assert(is_clean_segment(segs[0]));
        }
    }
}

} // verus!
