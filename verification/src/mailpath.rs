//! Paths of the form `account/folder/[uid] name.eml`, which may stand behind
//! an `aux:` prefix.

use vstd::prelude::*;
use vstd::utf8::*;
use crate::names;
use crate::text::{chars, pieces, search, trim, unicode};

verus! {

/// What a path names.
#[derive(Debug, Clone, PartialEq, Eq)]
pub struct MailPath {
    pub account: Option<String>,
    pub folder: Option<String>,
    pub filename: Option<String>,
    pub uid: Option<u32>,
}

/// The contents of a path.
pub struct MailPathView {
    pub account: Option<Seq<char>>,
    pub folder: Option<Seq<char>>,
    pub filename: Option<Seq<char>>,
    pub uid: Option<u32>,
}

impl View for MailPath {
    type V = MailPathView;

    open spec fn view(&self) -> MailPathView {
        MailPathView {
            account: chars::opt_text(self.account),
            folder: chars::opt_text(self.folder),
            filename: chars::opt_text(self.filename),
            uid: self.uid,
        }
    }
}

/// A path as it is typed, without the white space and the quotes around it,
/// and with slashes in place of backslashes.
pub open spec fn cleaned(raw: Seq<char>) -> Seq<char> {
    search::replace(
        trim::trim_set(trim::trim_set(trim::trim(raw), seq!['"']), seq!['\'']),
        seq!['\\'],
        seq!['/'],
    )
}

/// The prefixes that lead to the accounts, in lower case.
pub open spec fn prefixes() -> Seq<Seq<char>> {
    seq![
        "aux://s_auximap/"@,
        "aux:/s_auximap/"@,
        "aux:s_auximap/"@,
        "aux://s_auximapmail/"@,
        "aux:/s_auximapmail/"@,
        "aux:s_auximapmail/"@,
        "aux://s_imapmail/"@,
        "aux:/s_imapmail/"@,
        "aux:s_imapmail/"@,
    ]
}

/// The position, in bytes, at which `mark` first stands in `text`.
pub open spec fn byte_position(text: Seq<char>, mark: Seq<char>) -> Option<int> {
    search::find(encode_utf8(text), encode_utf8(mark))
}

/// The position, in bytes, behind the first of the marks that stands in `text`.
pub open spec fn first_mark_end(text: Seq<char>, marks: Seq<Seq<char>>) -> Option<int>
    decreases marks.len(),
{
    if marks.len() == 0 {
        None
    } else {
        match byte_position(text, marks[0]) {
            Some(p) => Some(p + encode_utf8(marks[0]).len()),
            None => first_mark_end(text, marks.drop_first()),
        }
    }
}

/// `s` from the byte position `n` on, where that does not fall inside a
/// character.
pub open spec fn cut_at(s: Seq<char>, n: int) -> Option<Seq<char>> {
    let b = encode_utf8(s);
    if is_char_boundary(b, n) {
        Some(decode_utf8(b.skip(n)))
    } else {
        None
    }
}

/// What stands behind the first slash of `tail`; all of `s` where `tail` has
/// none.
pub open spec fn behind_slash(s: Seq<char>, tail: Option<Seq<char>>) -> Option<Seq<char>> {
    match tail {
        Some(t) => match search::index_of_char(t, '/') {
            Some(k) => Some(t.skip(k + 1)),
            None => Some(s),
        },
        None => None,
    }
}

/// The part of a cleaned path behind its `aux:` prefix. The prefix is looked
/// for in the lower-case form of the path, and the path is cut at the place
/// where it ends there; there is no such part where that place falls inside a
/// character of the path.
pub open spec fn behind_prefix(s: Seq<char>, lower: Seq<char>) -> Option<Seq<char>> {
    match first_mark_end(lower, prefixes()) {
        Some(n) => cut_at(s, n),
        None => match byte_position(lower, "aux://"@) {
            Some(p) => behind_slash(s, cut_at(s, p + 6)),
            None => match byte_position(lower, "aux:"@) {
                Some(p) => behind_slash(s, cut_at(s, p + 4)),
                None => Some(s),
            },
        },
    }
}

/// The pieces with the white space around each left out, and without those of
/// which nothing is left.
pub open spec fn filled_pieces(all: Seq<Seq<char>>) -> Seq<Seq<char>>
    decreases all.len(),
{
    if all.len() == 0 {
        seq![]
    } else {
        let t = trim::trim(all.last());
        if t.len() > 0 {
            filled_pieces(all.drop_last()).push(t)
        } else {
            filled_pieces(all.drop_last())
        }
    }
}

/// The segments of a path: what stands between its slashes.
pub open spec fn segments(s: Seq<char>) -> Seq<Seq<char>> {
    filled_pieces(pieces::split(s, '/'))
}

/// The last segment, in its lower-case form `last_lower`, and its number tell
/// that it is a message.
pub open spec fn is_message(last: Seq<char>, last_lower: Seq<char>) -> bool {
    names::uid_in(last) is Some || search::ends_with(last_lower, ".eml"@)
}

/// The message number in a segment.
pub open spec fn segment_uid(last: Seq<char>) -> Option<u32> {
    match names::uid_in(last) {
        Some(n) => Some(n as u32),
        None => None,
    }
}

/// What the segments of a path name: the first the account, the last a message
/// where it looks like one, and those between them the folder.
pub open spec fn path_of(segs: Seq<Seq<char>>, last_lower: Seq<char>) -> MailPathView {
    if segs.len() == 0 {
        MailPathView { account: None, folder: None, filename: None, uid: None }
    } else if segs.len() == 1 {
        MailPathView { account: Some(segs[0]), folder: None, filename: None, uid: None }
    } else if is_message(segs.last(), last_lower) {
        MailPathView {
            account: Some(segs[0]),
            folder: if segs.len() == 2 {
                None
            } else {
                Some(pieces::join(segs.subrange(1, segs.len() - 1), seq!['/']))
            },
            filename: Some(segs.last()),
            uid: segment_uid(segs.last()),
        }
    } else {
        MailPathView {
            account: Some(segs[0]),
            folder: Some(pieces::join(segs.skip(1), seq!['/'])),
            filename: None,
            uid: None,
        }
    }
}

/// What the part of a path behind its prefix names.
pub open spec fn path_in(tail: Seq<char>) -> MailPathView {
    path_of(segments(tail), unicode::lower(segments(tail).last()))
}

/// What a path names, where it can be cut behind its prefix.
pub open spec fn mail_path(raw: Seq<char>) -> Option<MailPathView> {
    match behind_prefix(cleaned(raw), unicode::lower(cleaned(raw))) {
        Some(tail) => Some(path_in(tail)),
        None => None,
    }
}

/// `raw` without the white space and the quotes around it, and with slashes in
/// place of backslashes.
pub fn clean_path(raw: &str) -> (r: String)
    ensures
        r@ == cleaned(raw@),
{
    proof {
        reveal_strlit("\\");
        reveal_strlit("/");
        assert("\\"@ =~= seq!['\\']);
        assert("/"@ =~= seq!['/']);
    }
    let double: [char; 1] = ['"'];
    let single: [char; 1] = ['\''];
    assert(double@ =~= seq!['"']);
    assert(single@ =~= seq!['\'']);
    let a = trim::trim_text(raw);
    let b = trim::trim_text_set(&a, &double);
    let c = trim::trim_text_set(&b, &single);
    search::replace_text(&c, "\\", "/")
}

/// The prefixes that lead to the accounts.
fn known_prefixes() -> (r: Vec<String>)
    ensures
        chars::texts(r@) == prefixes(),
{
    let mut r: Vec<String> = Vec::new();
    r.push("aux://s_auximap/".to_owned());
    r.push("aux:/s_auximap/".to_owned());
    r.push("aux:s_auximap/".to_owned());
    r.push("aux://s_auximapmail/".to_owned());
    r.push("aux:/s_auximapmail/".to_owned());
    r.push("aux:s_auximapmail/".to_owned());
    r.push("aux://s_imapmail/".to_owned());
    r.push("aux:/s_imapmail/".to_owned());
    r.push("aux:s_imapmail/".to_owned());
    assert(chars::texts(r@) =~= prefixes());
    r
}

/// The position, in bytes, at which `mark` first stands in `text`.
fn find_mark(text: &str, mark: &str) -> (r: Option<usize>)
    ensures
        match r {
            Some(p) => byte_position(text@, mark@) == Some(p as int) && p + encode_utf8(mark@).len()
                <= encode_utf8(text@).len() <= usize::MAX,
            None => byte_position(text@, mark@) is None,
        },
{
    search::find_bytes(text.as_bytes(), mark.as_bytes())
}

/// `s` from the byte position `n` on.
pub fn cut_text(s: &str, n: usize) -> (r: Option<String>)
    ensures
        chars::opt_text(r) == cut_at(s@, n as int),
{
    if s.is_char_boundary(n) {
        let (_, tail) = s.split_at(n);
        proof {
            let b = encode_utf8(s@);
            encode_utf8_valid_utf8(s@);
            valid_utf8_split(b, n as int);
            assert(b.skip(n as int) =~= b.subrange(n as int, b.len() as int));
            encode_utf8_decode_utf8(tail@);
        }
        Some(tail.to_owned())
    } else {
        None
    }
}

/// What stands behind the first slash of `tail`; all of `s` where `tail` has
/// none.
fn take_behind_slash(s: &str, tail: Option<String>) -> (r: Option<String>)
    ensures
        chars::opt_text(r) == behind_slash(s@, chars::opt_text(tail)),
{
    match tail {
        Some(t) => {
            let v = chars::chars_of(&t);
            match search::position_of(&v, '/') {
                Some(k) => {
                    let rest: &[char] = &v[k + 1..v.len()];
                    assert(rest@ =~= t@.skip(k + 1));
                    Some(chars::text_of(rest))
                },
                None => Some(s.to_owned()),
            }
        },
        None => None,
    }
}

/// The part of the cleaned path `s` behind its `aux:` prefix, which is looked
/// for in `lower`.
pub fn strip_prefix(s: &str, lower: &str) -> (r: Option<String>)
    ensures
        chars::opt_text(r) == behind_prefix(s@, lower@),
{
    let marks = known_prefixes();
    let ghost all = chars::texts(marks@);
    let mut i: usize = 0;
    assert(all.skip(0) =~= all);
    while i < marks.len()
        invariant
            all == chars::texts(marks@),
            all == prefixes(),
            i <= marks.len(),
            first_mark_end(lower@, all) == first_mark_end(lower@, all.skip(i as int)),
        decreases marks.len() - i,
    {
        assert(all.skip(i as int)[0] == marks@[i as int]@);
        if let Some(p) = find_mark(lower, &marks[i]) {
            let n: usize = marks[i].as_str().as_bytes().len();
            return cut_text(s, p + n);
        }
        assert(all.skip(i as int).drop_first() =~= all.skip(i + 1));
        i += 1;
    }
    proof {
        lemma_mark_lengths();
    }
    if let Some(p) = find_mark(lower, "aux://") {
        return take_behind_slash(s, cut_text(s, p + 6));
    }
    if let Some(p) = find_mark(lower, "aux:") {
        return take_behind_slash(s, cut_text(s, p + 4));
    }
    Some(s.to_owned())
}

/// The general prefixes take as many bytes as they have characters.
proof fn lemma_mark_lengths()
    ensures
        encode_utf8("aux://"@).len() == 6,
        encode_utf8("aux:"@).len() == 4,
{
    reveal_strlit("aux://");
    reveal_strlit("aux:");
    is_ascii_chars_encode_utf8("aux://"@);
    is_ascii_chars_encode_utf8("aux:"@);
}

/// The segments of the path `s`.
pub fn segments_of(s: &str) -> (r: Vec<String>)
    ensures
        chars::texts(r@) == segments(s@),
{
    let parts = pieces::split_text(s, '/');
    let ghost all = chars::texts(parts@);
    let mut out: Vec<String> = Vec::new();
    let mut i: usize = 0;
    assert(chars::texts(out@) =~= filled_pieces(all.take(0)));
    while i < parts.len()
        invariant
            all == chars::texts(parts@),
            i <= parts.len(),
            chars::texts(out@) == filled_pieces(all.take(i as int)),
        decreases parts.len() - i,
    {
        let ghost before = chars::texts(out@);
        assert(all.take(i + 1).drop_last() =~= all.take(i as int));
        assert(all.take(i + 1).last() == parts@[i as int]@);
        let t = trim::trim_text(&parts[i]);
        if t.as_str().unicode_len() > 0 {
            out.push(t);
            assert(chars::texts(out@) =~= before.push(t@));
        }
        i += 1;
    }
    assert(all.take(all.len() as int) =~= all);
    out
}

/// The segments from `from` up to `to`, with slashes between them.
fn join_range(segs: &Vec<String>, from: usize, to: usize) -> (r: String)
    requires
        from <= to <= segs.len(),
    ensures
        r@ == pieces::join(chars::texts(segs@).subrange(from as int, to as int), seq!['/']),
{
    let mut part: Vec<String> = Vec::new();
    let mut i: usize = from;
    while i < to
        invariant
            from <= i <= to <= segs.len(),
            part.len() == i - from,
            forall|j: int| 0 <= j < part.len() ==> (#[trigger] part@[j])@ == segs@[from + j]@,
        decreases to - i,
    {
        part.push(segs[i].clone());
        i += 1;
    }
    proof {
        reveal_strlit("/");
        assert("/"@ =~= seq!['/']);
        assert(chars::texts(part@) =~= chars::texts(segs@).subrange(from as int, to as int));
    }
    pieces::join_texts(&part, "/")
}

/// What the segments of a path name. `last_lower` is the last segment in lower
/// case.
pub fn path_of_segments(segs: &Vec<String>, last_lower: &str) -> (r: MailPath)
    ensures
        r@ == path_of(chars::texts(segs@), last_lower@),
{
    let ghost all = chars::texts(segs@);
    if segs.len() == 0 {
        return MailPath { account: None, folder: None, filename: None, uid: None };
    }
    let account = Some(segs[0].clone());
    if segs.len() == 1 {
        return MailPath { account, folder: None, filename: None, uid: None };
    }
    let n: usize = segs.len();
    let last = segs[n - 1].clone();
    assert(all.last() == last@);
    let uid = names::extract_uid(&last);
    let is_file = uid.is_some() || search::text_ends_with(last_lower, ".eml");
    if is_file {
        let folder = if n == 2 {
            None
        } else {
            Some(join_range(segs, 1, n - 1))
        };
        MailPath { account, folder, filename: Some(last), uid }
    } else {
        assert(all.subrange(1, n as int) =~= all.skip(1));
        let folder = Some(join_range(segs, 1, n));
        MailPath { account, folder, filename: None, uid: None }
    }
}

/// What the part of a path behind its prefix names.
fn parse_tail(tail: &str) -> (r: MailPath)
    ensures
        r@ == path_in(tail@),
{
    let segs = segments_of(tail);
    if segs.len() == 0 {
        return path_of_segments(&segs, "");
    }
    let last = segs[segs.len() - 1].clone();
    assert(chars::texts(segs@).last() == last@);
    let lower = unicode::lower_text(&last);
    path_of_segments(&segs, &lower)
}

/// What the path `raw` names.
pub fn parse_mail_path(raw: &str) -> (r: MailPath)
    requires
        behind_prefix(cleaned(raw@), unicode::lower(cleaned(raw@))) is Some,
    ensures
        mail_path(raw@) == Some(r@),
{
    let s = clean_path(raw);
    let lower = unicode::lower_text(&s);
    match strip_prefix(&s, &lower) {
        Some(tail) => parse_tail(&tail),
        None => MailPath { account: None, folder: None, filename: None, uid: None },
    }
}

/// What the path `raw` names, where it can be cut behind its prefix.
pub fn try_parse_mail_path(raw: &str) -> (r: Option<MailPath>)
    ensures
        match r {
            Some(p) => mail_path(raw@) == Some(p@),
            None => mail_path(raw@) is None,
        },
{
    let s = clean_path(raw);
    let lower = unicode::lower_text(&s);
    if strip_prefix(&s, &lower).is_some() {
        Some(parse_mail_path(raw))
    } else {
        None
    }
}

/// `s`, whose lower-case form is `lower`, names a place on the local disk: it
/// has a drive letter or begins with two slashes, and no `aux:` prefix.
pub open spec fn is_local(s: Seq<char>, lower: Seq<char>) -> bool {
    !search::starts_with(lower, "aux:"@) && (s.len() > 1 && s[1] == ':' || search::starts_with(
        s,
        seq!['\\', '\\'],
    ) || search::starts_with(s, seq!['/', '/']))
}

/// Whether the trimmed path `s`, whose lower-case form is `lower`, names a
/// place on the local disk.
pub fn is_local_lowered(s: &str, lower: &str) -> (b: bool)
    ensures
        b == is_local(s@, lower@),
{
    proof {
        reveal_strlit("\\\\");
        reveal_strlit("//");
        assert("\\\\"@ =~= seq!['\\', '\\']);
        assert("//"@ =~= seq!['/', '/']);
    }
    if search::text_starts_with(lower, "aux:") {
        return false;
    }
    (s.unicode_len() > 1 && s.get_char(1) == ':') || search::text_starts_with(s, "\\\\")
        || search::text_starts_with(s, "//")
}

/// Whether the path `p` names a place on the local disk.
pub fn is_local_path(p: &str) -> (b: bool)
    ensures
        b == is_local(trim::trim(p@), unicode::lower(trim::trim(p@))),
{
    let s = trim::trim_text(p);
    let lower = unicode::lower_text(&s);
    is_local_lowered(&s, &lower)
}

// ---------------------------------------------------------------------------
// Laws
// ---------------------------------------------------------------------------

/// `s` can be a segment of a path as it stands.
pub open spec fn is_segment(s: Seq<char>) -> bool {
    s.len() > 0 && trim::trim(s) == s && !s.contains('/')
}

/// Pieces without white space around them are kept.
proof fn lemma_filled_pieces(all: Seq<Seq<char>>)
    requires
        forall|i: int| 0 <= i < all.len() ==> is_segment(#[trigger] all[i]),
    ensures
        filled_pieces(all) == all,
    decreases all.len(),
{
    if all.len() > 0 {
        assert(is_segment(all.last()));
        assert forall|i: int| 0 <= i < all.drop_last().len() implies is_segment(
            #[trigger] all.drop_last()[i],
        ) by {
            assert(is_segment(all[i]));
        }
        lemma_filled_pieces(all.drop_last());
        assert(all.drop_last().push(all.last()) =~= all);
    } else {
        assert(filled_pieces(all) =~= all);
    }
}

/// The segments of joined segments are the segments.
pub proof fn law_joined_segments_are_found_again(segs: Seq<Seq<char>>)
    requires
        segs.len() > 0,
        forall|i: int| 0 <= i < segs.len() ==> is_segment(#[trigger] segs[i]),
    ensures
        segments(pieces::join(segs, seq!['/'])) == segs,
{
    assert forall|i: int| 0 <= i < segs.len() implies !(#[trigger] segs[i]).contains('/') by {
        assert(is_segment(segs[i]));
    }
    pieces::lemma_split_join(segs, '/');
    lemma_filled_pieces(segs);
}

/// A message's path gives back the account, the folder and the name that it
/// was put together from, and the number that the name begins with.
pub proof fn law_message_path_is_taken_apart(
    account: Seq<char>,
    folder: Seq<Seq<char>>,
    uid: u32,
    rest: Seq<char>,
)
    requires
        is_segment(account),
        folder.len() > 0,
        forall|i: int| 0 <= i < folder.len() ==> is_segment(#[trigger] folder[i]),
        is_segment(seq!['['] + crate::text::number::decimal(uid as nat) + seq![']'] + rest),
    ensures
        ({
            let name = seq!['['] + crate::text::number::decimal(uid as nat) + seq![']'] + rest;
            path_in(pieces::join(seq![account] + folder + seq![name], seq!['/'])) == MailPathView {
                account: Some(account),
                folder: Some(pieces::join(folder, seq!['/'])),
                filename: Some(name),
                uid: Some(uid),
            }
        }),
{
    let name = seq!['['] + crate::text::number::decimal(uid as nat) + seq![']'] + rest;
    let segs = seq![account] + folder + seq![name];
    assert forall|i: int| 0 <= i < segs.len() implies is_segment(#[trigger] segs[i]) by {
        if 0 < i < segs.len() - 1 {
            assert(segs[i] == folder[i - 1]);
        }
    }
    law_joined_segments_are_found_again(segs);
    names::law_leading_uid_is_read(uid, rest);
    assert(segs.subrange(1, segs.len() - 1) =~= folder);
}

/// A path of ASCII characters can always be cut behind its prefix.
pub proof fn law_ascii_path_is_read(raw: Seq<char>)
    requires
        is_ascii_chars(raw),
    ensures
        mail_path(raw) is Some,
{
    let s = cleaned(raw);
    lemma_cleaned_is_ascii(raw);
    lemma_ascii_lower(s);
    let l = unicode::lower(s);
    assert forall|marks: Seq<Seq<char>>| match #[trigger] first_mark_end(l, marks) {
        Some(n) => 0 <= n <= s.len(),
        None => true,
    } by {
        lemma_mark_end_in_text(l, marks);
    }
    lemma_mark_lengths();
    search::lemma_find_from(encode_utf8(l), encode_utf8("aux://"@), 0);
    search::lemma_find_from(encode_utf8(l), encode_utf8("aux:"@), 0);
    assert forall|n: int| 0 <= n <= s.len() implies #[trigger] cut_at(s, n) is Some by {
        lemma_ascii_cut(s, n);
    }
}

/// The lower-case form of an ASCII text takes as many bytes as the text.
proof fn lemma_ascii_lower(s: Seq<char>)
    requires
        is_ascii_chars(s),
    ensures
        encode_utf8(unicode::lower(s)).len() == s.len(),
{
    assert(is_ascii_chars(unicode::ascii_lower(s)));
    is_ascii_chars_encode_utf8(unicode::ascii_lower(s));
}

/// An ASCII text can be cut anywhere.
proof fn lemma_ascii_cut(s: Seq<char>, n: int)
    requires
        is_ascii_chars(s),
        0 <= n <= s.len(),
    ensures
        cut_at(s, n) is Some,
{
    let b = encode_utf8(s);
    is_ascii_chars_encode_utf8(s);
    encode_utf8_valid_utf8(s);
    is_char_boundary_start_end_of_seq(b);
    if n < s.len() {
        is_char_boundary_iff_not_is_continuation_byte(b, n);
    }
}

/// A mark ends inside the text.
proof fn lemma_mark_end_in_text(text: Seq<char>, marks: Seq<Seq<char>>)
    ensures
        match first_mark_end(text, marks) {
            Some(n) => 0 <= n <= encode_utf8(text).len(),
            None => true,
        },
    decreases marks.len(),
{
    if marks.len() > 0 {
        search::lemma_find_from(encode_utf8(text), encode_utf8(marks[0]), 0);
        lemma_mark_end_in_text(text, marks.drop_first());
    }
}

/// Cleaning an ASCII path gives an ASCII path.
proof fn lemma_cleaned_is_ascii(raw: Seq<char>)
    requires
        is_ascii_chars(raw),
    ensures
        is_ascii_chars(cleaned(raw)),
{
    let a = trim::trim(raw);
    let b = trim::trim_set(a, seq!['"']);
    let c = trim::trim_set(b, seq!['\'']);
    trim::lemma_trim_start(raw);
    trim::lemma_trim_end(trim::trim_start(raw));
    trim::lemma_trim_set_part(a, seq!['"']);
    trim::lemma_trim_set_part(b, seq!['\'']);
    assert(is_ascii_chars(a));
    assert(is_ascii_chars(b));
    assert(is_ascii_chars(c));
    lemma_slashes_are_ascii(c);
}

/// Turning backslashes round keeps a text ASCII.
proof fn lemma_slashes_are_ascii(s: Seq<char>)
    requires
        is_ascii_chars(s),
    ensures
        is_ascii_chars(search::replace(s, seq!['\\'], seq!['/'])),
    decreases s.len(),
{
    if s.len() > 0 {
        assert(is_ascii_chars(s.drop_first()));
        assert(s.skip(1) =~= s.drop_first());
        lemma_slashes_are_ascii(s.drop_first());
    }
}

/// A place at which two of the known prefixes differ.
pub open spec fn difference(i: int, j: int) -> int {
    if i % 3 != j % 3 {
        if i % 3 == 2 || j % 3 == 2 {
            4
        } else {
            5
        }
    } else if i / 3 == 2 || j / 3 == 2 {
        8 - i % 3
    } else {
        15 - i % 3
    }
}

/// What the known prefixes have in common, and that no two of them can stand
/// at one place.
pub proof fn lemma_prefixes(i: int, j: int)
    requires
        0 <= i < prefixes().len(),
        0 <= j < prefixes().len(),
    ensures
        is_ascii_chars(prefixes()[i]),
        prefixes()[i].len() > 4,
        prefixes()[i].take(4) == "aux:"@,
        prefixes()[i].last() == '/',
        !prefixes()[i].contains('\\'),
        i != j ==> 0 <= difference(i, j) < prefixes()[i].len() && difference(i, j)
            < prefixes()[j].len() && prefixes()[i][difference(i, j)] != prefixes()[j][difference(
            i,
            j,
        )],
{
    reveal_strlit("aux:");
    reveal_strlit("aux://s_auximap/");
    reveal_strlit("aux:/s_auximap/");
    reveal_strlit("aux:s_auximap/");
    reveal_strlit("aux://s_auximapmail/");
    reveal_strlit("aux:/s_auximapmail/");
    reveal_strlit("aux:s_auximapmail/");
    reveal_strlit("aux://s_imapmail/");
    reveal_strlit("aux:/s_imapmail/");
    reveal_strlit("aux:s_imapmail/");
    assert(prefixes()[i].take(4) =~= "aux:"@);
}

/// Where a known prefix stands, `aux:` stands.
proof fn lemma_prefix_holds_aux(text: Seq<char>, j: int, p: int)
    requires
        0 <= j < prefixes().len(),
        search::occurs_at(encode_utf8(text), encode_utf8(prefixes()[j]), p),
    ensures
        search::occurs_at(encode_utf8(text), encode_utf8("aux:"@), p),
{
    let mark = prefixes()[j];
    lemma_prefixes(j, j);
    lemma_mark_lengths();
    unicode::lemma_encode_concat(mark.take(4), mark.skip(4));
    assert(mark.take(4) + mark.skip(4) =~= mark);
    let whole = encode_utf8(text).subrange(p, p + encode_utf8(mark).len());
    assert(encode_utf8(text).subrange(p, p + 4) =~= whole.take(4));
    assert(whole.take(4) =~= encode_utf8("aux:"@));
}

/// The first mark that stands in the text is the one that is found.
pub proof fn lemma_first_mark(text: Seq<char>, marks: Seq<Seq<char>>, i: int)
    requires
        0 <= i <= marks.len(),
        forall|j: int| 0 <= j < i ==> byte_position(text, #[trigger] marks[j]) is None,
        i < marks.len() ==> byte_position(text, marks[i]) is Some,
    ensures
        first_mark_end(text, marks) == if i < marks.len() {
            Some(byte_position(text, marks[i])->0 + encode_utf8(marks[i]).len())
        } else {
            None
        },
    decreases i,
{
    if i > 0 {
        let rest = marks.drop_first();
        assert(byte_position(text, marks[0]) is None);
        assert forall|j: int| 0 <= j < i - 1 implies byte_position(text, #[trigger] rest[j]) is None by {
            assert(byte_position(text, marks[j + 1]) is None);
        }
        lemma_first_mark(text, rest, i - 1);
    }
}

/// A text can be cut behind any front of it.
pub proof fn lemma_cut_behind(front: Seq<char>, rest: Seq<char>)
    ensures
        cut_at(front + rest, encode_utf8(front).len() as int) == Some(rest),
{
    let b = encode_utf8(front + rest);
    let n = encode_utf8(front).len() as int;
    unicode::lemma_encode_concat(front, rest);
    encode_utf8_valid_utf8(front + rest);
    lemma_boundary_behind(front, rest);
    assert(b.skip(n) =~= encode_utf8(rest));
    encode_utf8_decode_utf8(rest);
}

/// A character ends where a front of a text ends.
proof fn lemma_boundary_behind(front: Seq<char>, rest: Seq<char>)
    ensures
        is_char_boundary(encode_utf8(front + rest), encode_utf8(front).len() as int),
    decreases front.len(),
{
    let all = front + rest;
    let b = encode_utf8(all);
    encode_utf8_valid_utf8(all);
    if front.len() > 0 {
        let tail = front.drop_first();
        assert(all.drop_first() =~= tail + rest);
        encode_utf8_first_scalar(all);
        assert(pop_first_scalar(b) =~= encode_utf8(tail + rest));
        lemma_boundary_behind(tail, rest);
        unicode::lemma_encode_concat(front, rest);
    } else {
        is_char_boundary_start_end_of_seq(b);
    }
}

/// A path in which `aux:` does not stand, in capitals or not, is read as it
/// stands.
pub proof fn law_plain_path_is_read_as_it_stands(raw: Seq<char>)
    requires
        byte_position(unicode::lower(cleaned(raw)), "aux:"@) is None,
    ensures
        mail_path(raw) == Some(path_in(cleaned(raw))),
{
    let l = unicode::lower(cleaned(raw));
    let aux = encode_utf8("aux:"@);
    search::lemma_find_from(encode_utf8(l), aux, 0);
    assert forall|j: int| 0 <= j < prefixes().len() implies byte_position(
        l,
        #[trigger] prefixes()[j],
    ) is None by {
        search::lemma_find_from(encode_utf8(l), encode_utf8(prefixes()[j]), 0);
        if let Some(p) = byte_position(l, prefixes()[j]) {
            lemma_prefix_holds_aux(l, j, p);
        }
    }
    lemma_first_mark(l, prefixes(), prefixes().len() as int);
    search::lemma_find_from(encode_utf8(l), encode_utf8("aux://"@), 0);
    if let Some(p) = byte_position(l, "aux://"@) {
        lemma_general_prefix_holds_aux(l, p);
    }
}

/// Where `aux://` stands, `aux:` stands.
proof fn lemma_general_prefix_holds_aux(text: Seq<char>, p: int)
    requires
        search::occurs_at(encode_utf8(text), encode_utf8("aux://"@), p),
    ensures
        search::occurs_at(encode_utf8(text), encode_utf8("aux:"@), p),
{
    reveal_strlit("aux://");
    reveal_strlit("aux:");
    lemma_mark_lengths();
    let mark = "aux://"@;
    assert(mark.take(4) =~= "aux:"@);
    unicode::lemma_encode_concat(mark.take(4), mark.skip(4));
    assert(mark.take(4) + mark.skip(4) =~= mark);
    let whole = encode_utf8(text).subrange(p, p + 6);
    assert(encode_utf8(text).subrange(p, p + 4) =~= whole.take(4));
    assert(whole.take(4) =~= encode_utf8("aux:"@));
}

/// A path that begins with one of the known prefixes, in capitals or not,
/// names what it names without the prefix. The first prefix may stand anywhere
/// in the rest; the others count only where `aux:` does not stand there again.
pub proof fn law_prefix_is_taken_off(i: int, head: Seq<char>, rest: Seq<char>)
    requires
        0 <= i < prefixes().len(),
        is_ascii_chars(head),
        unicode::ascii_lower(head) == prefixes()[i],
        i == 0 || forall|p: int|
            p > 0 ==> !#[trigger] search::occurs_at(
                encode_utf8(unicode::lower(head + rest)),
                encode_utf8("aux:"@),
                p,
            ),
        !rest.contains('\\'),
        rest.len() > 0 ==> !chars::white_space(rest.last()) && rest.last() != '"' && rest.last()
            != '\'',
    ensures
        mail_path(head + rest) == Some(path_in(rest)),
{
    let mark = prefixes()[i];
    let w = head + rest;
    let n = head.len() as int;
    lemma_prefixes(i, i);
    lemma_head_is_clean(i, head, rest);
    assert(w.take(n) =~= head);
    unicode::lemma_lower_front(w, n);
    let l = unicode::lower(w);
    let lb = encode_utf8(l);
    let mb = encode_utf8(mark);
    unicode::lemma_encode_concat(l.take(n), l.skip(n));
    assert(l.take(n) + l.skip(n) =~= l);
    assert(lb.subrange(0, mb.len() as int) =~= mb);
    search::lemma_find_from_is(lb, mb, 0, 0);
    is_ascii_chars_encode_utf8(mark);
    is_ascii_chars_encode_utf8(head);
    assert forall|j: int| 0 <= j < i implies byte_position(l, #[trigger] prefixes()[j]) is None by {
        let other = prefixes()[j];
        let ob = encode_utf8(other);
        search::lemma_find_from(lb, ob, 0);
        if let Some(p) = byte_position(l, other) {
            lemma_prefix_holds_aux(l, j, p);
            assert(p == 0);
            lemma_prefixes(j, i);
            is_ascii_chars_encode_utf8(other);
            let k = difference(j, i);
            assert(lb.subrange(0, ob.len() as int)[k] == lb[k]);
            assert(lb.subrange(0, mb.len() as int)[k] == lb[k]);
            assert(other[k] as u8 == mark[k] as u8);
            assert('\0' <= other[k] <= '\u{7f}');
            assert('\0' <= mark[k] <= '\u{7f}');
        }
    }
    lemma_first_mark(l, prefixes(), i);
    lemma_cut_behind(head, rest);
}

/// Nothing is cleaned away from a path with a known prefix and a clean end.
pub proof fn lemma_head_is_clean(i: int, head: Seq<char>, rest: Seq<char>)
    requires
        0 <= i < prefixes().len(),
        unicode::ascii_lower(head) == prefixes()[i],
        !rest.contains('\\'),
        rest.len() > 0 ==> !chars::white_space(rest.last()) && rest.last() != '"' && rest.last()
            != '\'',
    ensures
        cleaned(head + rest) == head + rest,
{
    let mark = prefixes()[i];
    let w = head + rest;
    lemma_prefixes(i, i);
    reveal_strlit("aux:");
    assert(mark.take(4)[0] == 'a');
    assert(unicode::ascii_lower(head)[0] == mark[0]);
    assert(unicode::ascii_lower(head).last() == mark.last());
    assert(w[0] == head[0]);
    assert(w.last() == if rest.len() > 0 {
        rest.last()
    } else {
        head.last()
    });
    trim::lemma_trim_is_same(w);
    assert(trim::trim_set(w, seq!['"']) == w);
    assert(trim::trim_set(w, seq!['\'']) == w);
    assert(!w.contains('\\')) by {
        if w.contains('\\') {
            let k = choose|k: int| 0 <= k < w.len() && w[k] == '\\';
            if k < head.len() {
                assert(unicode::ascii_lower(head)[k] == mark[k]);
                assert(mark[k] == '\\');
            } else {
                assert(rest[k - head.len()] == '\\');
            }
        }
    }
    search::lemma_replace_absent(w, seq!['\\'], seq!['/']);
}

} // verus!
