//! What the parts of a path mean, and which prefixes and quotes count.

use vstd::prelude::*;
use vstd::utf8::*;
use crate::mailpath;
use crate::mailpath::MailPathView;
use crate::names;
use crate::path_laws;
use crate::text::{chars, number, pieces, search, trim, unicode};

verus! {

/// The pieces of two texts with a separator between them.
proof fn lemma_split_both(x: Seq<char>, sep: char, y: Seq<char>)
    ensures
        pieces::split(x + seq![sep] + y, sep) == pieces::split(x, sep) + pieces::split(y, sep),
    decreases x.len(),
{
    search::lemma_index_of_char(x, sep);
    match search::index_of_char(x, sep) {
        Some(k) => {
            let front = x.take(k);
            let rest = x.skip(k + 1);
            assert(!front.contains(sep)) by {
                if front.contains(sep) {
                    let j = choose|j: int| 0 <= j < front.len() && front[j] == sep;
                    assert(x[j] == sep);
                }
            }
            lemma_split_both(rest, sep, y);
            pieces::lemma_split_front(front, sep, rest + seq![sep] + y);
            assert(x + seq![sep] + y =~= front + seq![sep] + (rest + seq![sep] + y));
            assert(seq![front] + (pieces::split(rest, sep) + pieces::split(y, sep)) =~= seq![front]
                + pieces::split(rest, sep) + pieces::split(y, sep));
        },
        None => {
            assert(!x.contains(sep));
            pieces::lemma_split_front(x, sep, y);
        },
    }
}

/// The filled pieces of two rows.
proof fn lemma_filled_both(a: Seq<Seq<char>>, b: Seq<Seq<char>>)
    ensures
        mailpath::filled_pieces(a + b) == mailpath::filled_pieces(a) + mailpath::filled_pieces(b),
    decreases b.len(),
{
    if b.len() > 0 {
        lemma_filled_both(a, b.drop_last());
        assert((a + b).drop_last() =~= a + b.drop_last());
        assert((a + b).last() == b.last());
        let t = trim::trim(b.last());
        if t.len() > 0 {
            assert((mailpath::filled_pieces(a) + mailpath::filled_pieces(b.drop_last())).push(t)
                =~= mailpath::filled_pieces(a) + mailpath::filled_pieces(b.drop_last()).push(t));
        }
    } else {
        assert(a + b =~= a);
        assert(mailpath::filled_pieces(a) + mailpath::filled_pieces(b) =~= mailpath::filled_pieces(
            a,
        ));
    }
}

/// A path falls into its segments at each slash. A stretch without slashes is
/// one segment, without the white space around it, or none where nothing is
/// left of it.
pub proof fn law_path_falls_apart_at_slashes(a: Seq<char>, b: Seq<char>, plain: Seq<char>)
    requires
        !plain.contains('/'),
    ensures
        mailpath::segments(a + seq!['/'] + b) == mailpath::segments(a) + mailpath::segments(b),
        trim::trim(plain).len() > 0 ==> mailpath::segments(plain) == seq![trim::trim(plain)],
        trim::trim(plain).len() == 0 ==> mailpath::segments(plain) == Seq::<Seq<char>>::empty(),
{
    lemma_split_both(a, '/', b);
    lemma_filled_both(pieces::split(a, '/'), pieces::split(b, '/'));
    pieces::lemma_split_front(plain, '/', seq![]);
    let one = seq![plain];
    assert(one.drop_last() =~= seq![]);
    reveal_with_fuel(mailpath::filled_pieces, 2);
    assert(mailpath::filled_pieces(seq![]) =~= seq![]);
    if trim::trim(plain).len() > 0 {
        assert(mailpath::filled_pieces(one) =~= seq![trim::trim(plain)]);
    }
}

/// Nothing names nothing; one segment names an account.
pub proof fn law_first_segment_is_the_account(account: Seq<char>)
    requires
        mailpath::is_segment(account),
    ensures
        mailpath::path_in(Seq::empty()) == (MailPathView {
            account: None,
            folder: None,
            filename: None,
            uid: None,
        }),
        mailpath::path_in(account) == (MailPathView {
            account: Some(account),
            folder: None,
            filename: None,
            uid: None,
        }),
{
    law_path_falls_apart_at_slashes(account, account, account);
    let none = Seq::<char>::empty();
    assert(trim::trim(none) =~= none);
    law_path_falls_apart_at_slashes(none, none, none);
}

/// Behind the account stand the folder and the message. The last segment is a
/// message where it holds a number or ends with `.eml`, in capitals or not; any
/// other belongs to the folder.
pub proof fn law_last_segment_may_be_a_message(
    account: Seq<char>,
    folder: Seq<Seq<char>>,
    last: Seq<char>,
)
    requires
        mailpath::is_segment(account),
        forall|i: int| 0 <= i < folder.len() ==> mailpath::is_segment(#[trigger] folder[i]),
        mailpath::is_segment(last),
    ensures
        ({
            let path = mailpath::path_in(
                pieces::join(seq![account] + folder + seq![last], seq!['/']),
            );
            let eml = search::ends_with(unicode::lower(last), ".eml"@);
            let uid = names::uid_in(last);
            &&& path.account == Some(account)
            &&& uid is Some || eml ==> path.filename == Some(last) && path.folder == if folder.len()
                > 0 {
                Some(pieces::join(folder, seq!['/']))
            } else {
                None
            }
            &&& uid matches Some(n) ==> path.uid == Some(n as u32)
            &&& uid is None ==> path.uid is None
            &&& uid is None && !eml ==> path.filename is None && path.folder == Some(
                pieces::join(folder.push(last), seq!['/']),
            )
        }),
{
    let segs = seq![account] + folder + seq![last];
    assert forall|i: int| 0 <= i < segs.len() implies mailpath::is_segment(#[trigger] segs[i]) by {
        if 0 < i < segs.len() - 1 {
            assert(segs[i] == folder[i - 1]);
        }
    }
    mailpath::law_joined_segments_are_found_again(segs);
    assert(segs.subrange(1, segs.len() - 1) =~= folder);
    assert(segs.skip(1) =~= folder.push(last));
    assert(segs.last() == last);
}

/// A path behind any of nine prefixes, in capitals or not, names what it names
/// without it, where it has no quotes and no `aux:` of its own.
pub proof fn law_nine_prefixes_are_known(head: Seq<char>, rest: Seq<char>)
    requires
        is_ascii_chars(head),
        ({
            let lower = unicode::ascii_lower(head);
            ||| lower == "aux://s_auximap/"@
            ||| lower == "aux:/s_auximap/"@
            ||| lower == "aux:s_auximap/"@
            ||| lower == "aux://s_auximapmail/"@
            ||| lower == "aux:/s_auximapmail/"@
            ||| lower == "aux:s_auximapmail/"@
            ||| lower == "aux://s_imapmail/"@
            ||| lower == "aux:/s_imapmail/"@
            ||| lower == "aux:s_imapmail/"@
        }),
        !rest.contains('"'),
        !rest.contains('\''),
        !search::contains(unicode::lower(rest), "aux:"@),
    ensures
        mailpath::mail_path(head + rest) == mailpath::mail_path(rest),
{
    let lower = unicode::ascii_lower(head);
    let i: int = if lower == "aux://s_auximap/"@ {
        0
    } else if lower == "aux:/s_auximap/"@ {
        1
    } else if lower == "aux:s_auximap/"@ {
        2
    } else if lower == "aux://s_auximapmail/"@ {
        3
    } else if lower == "aux:/s_auximapmail/"@ {
        4
    } else if lower == "aux:s_auximapmail/"@ {
        5
    } else if lower == "aux://s_imapmail/"@ {
        6
    } else if lower == "aux:/s_imapmail/"@ {
        7
    } else {
        8
    };
    path_laws::law_prefix_changes_nothing(i, head, rest);
}

/// None of the known prefixes stands in a text in which the names of their
/// scripts do not stand.
proof fn lemma_no_known_prefix(text: Seq<char>)
    requires
        !search::contains(text, "s_auximap"@),
        !search::contains(text, "s_imapmail"@),
    ensures
        mailpath::first_mark_end(text, mailpath::prefixes()) is None,
{
    assert forall|j: int| 0 <= j < mailpath::prefixes().len() implies mailpath::byte_position(
        text,
        #[trigger] mailpath::prefixes()[j],
    ) is None by {
        let mark = mailpath::prefixes()[j];
        mailpath::lemma_prefixes(j, j);
        search::lemma_find_from(encode_utf8(text), encode_utf8(mark), 0);
        if let Some(p) = mailpath::byte_position(text, mark) {
            let k = unicode::lemma_bytes_occur(text, mark, p);
            lemma_prefix_holds_name(j);
            let name = if j < 6 {
                "s_auximap"@
            } else {
                "s_imapmail"@
            };
            let o = 6 - j % 3;
            let whole = text.subrange(k, k + mark.len());
            assert(text.subrange(k + o, k + o + name.len()) =~= whole.subrange(o, o + name.len()));
            assert(search::occurs_at(text, name, k + o));
            search::lemma_find_from(text, name, 0);
            assert(false);
        }
    }
    mailpath::lemma_first_mark(text, mailpath::prefixes(), mailpath::prefixes().len() as int);
}

/// The name of its script stands in each known prefix.
proof fn lemma_prefix_holds_name(j: int)
    requires
        0 <= j < mailpath::prefixes().len(),
    ensures
        ({
            let name = if j < 6 {
                "s_auximap"@
            } else {
                "s_imapmail"@
            };
            search::occurs_at(mailpath::prefixes()[j], name, 6 - j % 3)
        }),
{
    reveal_strlit("s_auximap");
    reveal_strlit("s_imapmail");
    reveal_strlit("aux://s_auximap/");
    reveal_strlit("aux:/s_auximap/");
    reveal_strlit("aux:s_auximap/");
    reveal_strlit("aux://s_auximapmail/");
    reveal_strlit("aux:/s_auximapmail/");
    reveal_strlit("aux:s_auximapmail/");
    reveal_strlit("aux://s_imapmail/");
    reveal_strlit("aux:/s_imapmail/");
    reveal_strlit("aux:s_imapmail/");
    let name = if j < 6 {
        "s_auximap"@
    } else {
        "s_imapmail"@
    };
    let o = 6 - j % 3;
    let mark = mailpath::prefixes()[j];
    assert(mark.subrange(o, o + name.len()) =~= name);
}

/// An ASCII mark at the front of a text is found there, and can be cut off.
proof fn lemma_mark_at_front(head: Seq<char>, rest: Seq<char>, mark: Seq<char>)
    requires
        is_ascii_chars(head),
        is_ascii_chars(mark),
        unicode::ascii_lower(head) == mark,
    ensures
        mailpath::byte_position(unicode::lower(head + rest), mark) == Some(0int),
        mailpath::cut_at(head + rest, mark.len() as int) == Some(rest),
{
    let w = head + rest;
    let n = head.len() as int;
    assert(w.take(n) =~= head);
    unicode::lemma_lower_front(w, n);
    let l = unicode::lower(w);
    let lb = encode_utf8(l);
    let mb = encode_utf8(mark);
    unicode::lemma_encode_concat(l.take(n), l.skip(n));
    assert(l.take(n) + l.skip(n) =~= l);
    assert(lb.subrange(0, mb.len() as int) =~= mb);
    search::lemma_find_from_is(lb, mb, 0, 0);
    is_ascii_chars_encode_utf8(mark);
    is_ascii_chars_encode_utf8(head);
    mailpath::lemma_cut_behind(head, rest);
}

/// A path with a prefix of its own, `aux://` or `aux:` and a name up to the
/// first slash, names what stands behind that slash.
pub proof fn law_other_prefixes_end_at_a_slash(
    head: Seq<char>,
    name: Seq<char>,
    rest: Seq<char>,
)
    requires
        is_ascii_chars(head),
        ({
            let lower = unicode::ascii_lower(head);
            ||| lower == "aux://"@
            ||| lower == "aux:"@ && !search::contains(
                encode_utf8(unicode::lower(head + name + seq!['/'] + rest)),
                encode_utf8("aux://"@),
            )
        }),
        !name.contains('/'),
        !search::contains(unicode::lower(head + name + seq!['/'] + rest), "s_auximap"@),
        !search::contains(unicode::lower(head + name + seq!['/'] + rest), "s_imapmail"@),
        mailpath::cleaned(head + name + seq!['/'] + rest) == head + name + seq!['/'] + rest,
    ensures
        mailpath::mail_path(head + name + seq!['/'] + rest) == Some(mailpath::path_in(rest)),
{
    let raw = head + name + seq!['/'] + rest;
    let tail = name + seq!['/'] + rest;
    let l = unicode::lower(raw);
    let lower = unicode::ascii_lower(head);
    reveal_strlit("aux://");
    reveal_strlit("aux:");
    assert(is_ascii_chars("aux://"@));
    assert(is_ascii_chars("aux:"@));
    assert(raw =~= head + tail);
    lemma_no_known_prefix(l);
    lemma_mark_at_front(head, tail, lower);
    let k = name.len() as int;
    assert forall|j: int| 0 <= j < k implies tail[j] != '/' by {
        assert(tail[j] == name[j]);
    }
    search::lemma_index_of_char_is(tail, '/', k);
    assert(tail.skip(k + 1) =~= rest);
}

/// A text between two quotes loses them, and nothing else where it does not end
/// with one itself.
proof fn lemma_quotes_come_off(p: Seq<char>, quote: char)
    requires
        p.len() > 0,
        p[0] != quote,
        p.last() != quote,
    ensures
        trim::trim_set(seq![quote] + p + seq![quote], seq![quote]) == p,
        trim::trim_set(p, seq![quote]) == p,
{
    let all = seq![quote] + p + seq![quote];
    let half = p + seq![quote];
    let set = seq![quote];
    assert(set[0] == quote);
    assert(set.contains(quote));
    assert(all.drop_first() =~= half);
    assert(half[0] == p[0]);
    assert(!set.contains(p[0]));
    reveal_with_fuel(trim::trim_start_set, 2);
    assert(trim::trim_start_set(all, set) == half);
    assert(half.drop_last() =~= p);
    assert(!set.contains(p.last()));
    reveal_with_fuel(trim::trim_end_set, 2);
    assert(trim::trim_end_set(half, set) == p);
}

/// A path may stand between quotes of either kind: it names what it names
/// without them.
pub proof fn law_quoted_path_names_the_same(p: Seq<char>, quote: char)
    requires
        quote == '"' || quote == '\'',
        p.len() > 0,
        p[0] != '"' && p[0] != '\'',
        p.last() != '"' && p.last() != '\'',
        !chars::white_space(p[0]),
        !chars::white_space(p.last()),
    ensures
        mailpath::cleaned(seq![quote] + p + seq![quote]) == mailpath::cleaned(p),
        mailpath::mail_path(seq![quote] + p + seq![quote]) == mailpath::mail_path(p),
{
    let all = seq![quote] + p + seq![quote];
    assert(all[0] == quote && all.last() == quote);
    trim::lemma_trim_is_same(all);
    trim::lemma_trim_is_same(p);
    lemma_quotes_come_off(p, '"');
    lemma_quotes_come_off(p, '\'');
    if quote == '\'' {
        let set = seq!['"'];
        assert(set.contains('"') && set.len() == 1);
        assert(!set.contains('\''));
        assert(trim::trim_set(all, set) == all);
    }
}

/// A path with a drive letter, or with two slashes or backslashes in front, is
/// a place on the local disk; any other, and one that begins with `aux:`, is
/// not.
pub proof fn law_local_places_are_told_apart(s: Seq<char>, lower: Seq<char>)
    ensures
        search::starts_with(lower, "aux:"@) ==> !mailpath::is_local(s, lower),
        !search::starts_with(lower, "aux:"@) ==> (mailpath::is_local(s, lower) <==> s.len() >= 2
            && (s[1] == ':' || s[0] == '/' && s[1] == '/' || s[0] == '\\' && s[1] == '\\')),
{
    if s.len() >= 2 {
        let front = s.take(2);
        assert(front[0] == s[0] && front[1] == s[1]);
        if s[0] == '/' && s[1] == '/' {
            assert(front =~= seq!['/', '/']);
        }
        if s[0] == '\\' && s[1] == '\\' {
            assert(front =~= seq!['\\', '\\']);
        }
    }
}

// ---------------------------------------------------------------------------
// Message numbers
// ---------------------------------------------------------------------------

/// The number in front of a closing bracket counts, white space around it left
/// out.
proof fn lemma_number_before_bracket(inner: Seq<char>, rest: Seq<char>, uid: nat)
    requires
        !inner.contains('['),
        !inner.contains(']'),
        number::unsigned(trim::trim(inner), u32::MAX as nat) == Some(uid),
    ensures
        names::first_bracketed_uid(pieces::split(inner + seq![']'] + rest, '[')) == Some(uid),
{
    let s = inner + seq![']'] + rest;
    let n = inner.len() as int;
    let first = pieces::split(s, '[')[0];
    search::lemma_index_of_char(s, '[');
    assert(s[n] == ']');
    if let Some(k) = search::index_of_char(s, '[') {
        if k < n {
            assert(inner[k] == '[');
        }
        assert(k > n);
        assert(first == s.take(k));
    } else {
        assert(first == s);
    }
    assert forall|i: int| 0 <= i < n implies first[i] != ']' by {
        assert(first[i] == inner[i]);
    }
    assert(first[n] == ']');
    search::lemma_index_of_char_is(first, ']', n);
    assert(first.take(n) =~= inner);
}

/// A name that begins with brackets is taken apart at them.
proof fn lemma_name_in_brackets(inner: Seq<char>, rest: Seq<char>)
    ensures
        ({
            let whole = seq!['['] + inner + seq![']'] + rest;
            exists|kept: Seq<char>|
                names::uid_in(whole) == names::first_bracketed_uid(
                    #[trigger] pieces::split(inner + seq![']'] + kept, '['),
                ) && kept == rest.take(kept.len() as int) && kept.len() <= rest.len() && (
                rest.len() > 0 && !chars::white_space(rest.last()) ==> kept == rest)
        }),
{
    let whole = seq!['['] + inner + seq![']'] + rest;
    let head = inner.len() as int + 2;
    assert(whole[0] == '[' && whole[head - 1] == ']');
    let name = trim::trim(whole);
    trim::lemma_trim_end_keeps(whole, head);
    trim::lemma_trim_end(whole);
    let kept = whole.take(name.len() as int).skip(head);
    assert(kept =~= rest.take(kept.len() as int));
    assert(name =~= seq!['['] + (inner + seq![']'] + kept));
    let none = Seq::<char>::empty();
    pieces::lemma_split_front(none, '[', inner + seq![']'] + kept);
    assert(name =~= none + seq!['['] + (inner + seq![']'] + kept));
    assert(number::unsigned(name, u32::MAX as nat) is None) by {
        assert(number::unsigned_digits(name) == name);
        assert(!number::is_digit(name[0]));
    }
    let parts = pieces::split(name, '[');
    assert(parts[0] == none);
    assert(names::bracketed_uid(none) is None);
    assert(parts.drop_first() =~= pieces::split(inner + seq![']'] + kept, '['));
    if rest.len() > 0 && !chars::white_space(rest.last()) {
        assert(whole.last() == rest.last());
        assert(name == whole);
        assert(kept =~= rest);
    }
}

/// White space around the number in brackets does not count. Brackets around
/// something else are passed over: the first number in brackets is the one of
/// the message.
pub proof fn law_first_number_in_brackets_counts(
    inner: Seq<char>,
    uid: u32,
    rest: Seq<char>,
    word: Seq<char>,
    between: Seq<char>,
)
    requires
        !inner.contains('['),
        !inner.contains(']'),
        trim::trim(inner) == number::decimal(uid as nat),
        !word.contains('['),
        !word.contains(']'),
        number::unsigned(trim::trim(word), u32::MAX as nat) is None,
        !between.contains('['),
    ensures
        names::uid_in(seq!['['] + inner + seq![']'] + rest) == Some(uid as nat),
        names::uid_in(
            seq!['['] + word + seq![']'] + (between + seq!['['] + inner + seq![']']),
        ) == Some(uid as nat),
{
    number::lemma_unsigned_decimal(uid as nat, u32::MAX as nat);
    let none = Seq::<char>::empty();
    lemma_name_in_brackets(inner, rest);
    let whole = seq!['['] + inner + seq![']'] + rest;
    let kept = choose|kept: Seq<char>|
        names::uid_in(whole) == names::first_bracketed_uid(
            #[trigger] pieces::split(inner + seq![']'] + kept, '['),
        ) && kept == rest.take(kept.len() as int) && kept.len() <= rest.len() && (rest.len() > 0
            && !chars::white_space(rest.last()) ==> kept == rest);
    lemma_number_before_bracket(inner, kept, uid as nat);
    let tail = between + seq!['['] + inner + seq![']'];
    lemma_name_in_brackets(word, tail);
    assert(tail.last() == ']');
    let front = word + seq![']'] + between;
    let end = inner + seq![']'] + none;
    assert(word + seq![']'] + tail =~= front + seq!['['] + end);
    assert(!front.contains('[')) by {
        if front.contains('[') {
            let k = choose|k: int| 0 <= k < front.len() && front[k] == '[';
            if k < word.len() {
                assert(word[k] == '[');
            } else if k > word.len() {
                assert(between[k - word.len() - 1] == '[');
            }
        }
    }
    pieces::lemma_split_front(front, '[', end);
    lemma_number_before_bracket(inner, none, uid as nat);
    let n = word.len() as int;
    assert forall|i: int| 0 <= i < n implies front[i] != ']' by {
        assert(front[i] == word[i]);
    }
    search::lemma_index_of_char_is(front, ']', n);
    assert(front.take(n) =~= word);
    assert(names::bracketed_uid(front) is None);
    let parts = seq![front] + pieces::split(end, '[');
    assert(parts.drop_first() =~= pieces::split(end, '['));
}

} // verus!
