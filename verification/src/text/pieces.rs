//! Cutting a text into pieces and joining pieces into a text.

use vstd::prelude::*;
use crate::text::{chars, search};

verus! {

/// The pieces of `s` between the occurrences of `sep`; one more than those.
pub open spec fn split(s: Seq<char>, sep: char) -> Seq<Seq<char>>
    decreases s.len(),
    via split_decreases
{
    match search::index_of_char(s, sep) {
        Some(k) => seq![s.take(k)] + split(s.skip(k + 1), sep),
        None => seq![s],
    }
}

#[via_fn]
proof fn split_decreases(s: Seq<char>, sep: char) {
    search::lemma_index_of_char(s, sep);
}

/// `s` without one carriage return at its end.
pub open spec fn without_cr(s: Seq<char>) -> Seq<char> {
    if s.len() > 0 && s.last() == '\r' {
        s.drop_last()
    } else {
        s
    }
}

/// The lines of `s`: a line ends with a line feed, which a carriage return
/// may precede; the ending of the last line is optional.
pub open spec fn lines(s: Seq<char>) -> Seq<Seq<char>>
    decreases s.len(),
    via lines_decreases
{
    if s.len() == 0 {
        seq![]
    } else {
        match search::index_of_char(s, '\n') {
            Some(k) => seq![without_cr(s.take(k))] + lines(s.skip(k + 1)),
            None => seq![s],
        }
    }
}

#[via_fn]
proof fn lines_decreases(s: Seq<char>) {
    search::lemma_index_of_char(s, '\n');
}

/// The pieces one after another, with `sep` between each two.
pub open spec fn join(pieces: Seq<Seq<char>>, sep: Seq<char>) -> Seq<char>
    decreases pieces.len(),
{
    if pieces.len() == 0 {
        seq![]
    } else if pieces.len() == 1 {
        pieces[0]
    } else {
        join(pieces.drop_last(), sep) + sep + pieces.last()
    }
}

/// The pieces of `s` between the occurrences of `sep`.
pub fn split_text(s: &str, sep: char) -> (r: Vec<String>)
    ensures
        chars::texts(r@) == split(s@, sep),
{
    let v = chars::chars_of(s);
    let mut out: Vec<String> = Vec::new();
    let mut i: usize = 0;
    assert(s@.skip(0) =~= s@);
    assert(chars::texts(out@) + split(s@, sep) =~= split(s@, sep));
    loop
        invariant
            v@ == s@,
            i <= v.len(),
            chars::texts(out@) + split(s@.skip(i as int), sep) == split(s@, sep),
        decreases v.len() + 1 - i,
    {
        let rest: &[char] = &v[i..v.len()];
        assert(rest@ =~= s@.skip(i as int));
        let ghost before = chars::texts(out@);
        match search::position_of(rest, sep) {
            Some(k) => {
                let part: &[char] = &rest[0..k];
                assert(part@ =~= rest@.take(k as int));
                out.push(chars::text_of(part));
                assert(chars::texts(out@) =~= before.push(rest@.take(k as int)));
                i += k + 1;
                assert(rest@.skip(k + 1) =~= s@.skip(i as int));
                assert(before + (seq![rest@.take(k as int)] + split(s@.skip(i as int), sep))
                    =~= chars::texts(out@) + split(s@.skip(i as int), sep));
            },
            None => {
                out.push(chars::text_of(rest));
                assert(chars::texts(out@) =~= before + seq![rest@]);
                return out;
            },
        }
    }
}

/// The lines of `s`.
pub fn lines_of(s: &str) -> (r: Vec<String>)
    ensures
        chars::texts(r@) == lines(s@),
{
    let v = chars::chars_of(s);
    let mut out: Vec<String> = Vec::new();
    let mut i: usize = 0;
    assert(s@.skip(0) =~= s@);
    assert(chars::texts(out@) + lines(s@) =~= lines(s@));
    while i < v.len()
        invariant
            v@ == s@,
            i <= v.len(),
            chars::texts(out@) + lines(s@.skip(i as int)) == lines(s@),
        decreases v.len() - i,
    {
        let rest: &[char] = &v[i..v.len()];
        assert(rest@ =~= s@.skip(i as int));
        let ghost before = chars::texts(out@);
        match search::position_of(rest, '\n') {
            Some(k) => {
                let end: usize = if k > 0 && rest[k - 1] == '\r' {
                    k - 1
                } else {
                    k
                };
                let part: &[char] = &rest[0..end];
                assert(part@ =~= without_cr(rest@.take(k as int)));
                out.push(chars::text_of(part));
                assert(chars::texts(out@) =~= before.push(without_cr(rest@.take(k as int))));
                i += k + 1;
                assert(rest@.skip(k + 1) =~= s@.skip(i as int));
                assert(before + (seq![without_cr(rest@.take(k as int))] + lines(s@.skip(i as int)))
                    =~= chars::texts(out@) + lines(s@.skip(i as int)));
            },
            None => {
                out.push(chars::text_of(rest));
                assert(chars::texts(out@) =~= before + seq![rest@]);
                return out;
            },
        }
    }
    assert(s@.skip(i as int) =~= Seq::<char>::empty());
    assert(chars::texts(out@) + lines(Seq::<char>::empty()) =~= chars::texts(out@));
    out
}

/// The pieces one after another, with `sep` between each two.
pub fn join_texts(pieces: &Vec<String>, sep: &str) -> (r: String)
    ensures
        r@ == join(chars::texts(pieces@), sep@),
{
    let ghost all = chars::texts(pieces@);
    let mut out = String::new();
    let mut i: usize = 0;
    assert(all.take(0) =~= seq![]);
    while i < pieces.len()
        invariant
            all == chars::texts(pieces@),
            i <= pieces.len(),
            out@ == join(all.take(i as int), sep@),
        decreases pieces.len() - i,
    {
        let ghost next = all.take(i + 1);
        assert(next.drop_last() =~= all.take(i as int));
        assert(next.last() == pieces@[i as int]@);
        if i > 0 {
            out.append(sep);
        } else {
            assert(out@ =~= Seq::<char>::empty());
            assert(out@ + next.last() =~= next[0]);
        }
        out.append(pieces[i].as_str());
        i += 1;
    }
    assert(all.take(all.len() as int) =~= all);
    out
}

/// The pieces of a text begin with what stands before the first separator.
pub proof fn lemma_split_front(x: Seq<char>, sep: char, rest: Seq<char>)
    requires
        !x.contains(sep),
    ensures
        split(x, sep) == seq![x],
        split(x + seq![sep] + rest, sep) == seq![x] + split(rest, sep),
{
    let s = x + seq![sep] + rest;
    let n = x.len() as int;
    search::lemma_index_of_char(x, sep);
    assert forall|j: int| 0 <= j < n implies s[j] != sep by {
        assert(s[j] == x[j]);
        assert(x.contains(x[j]));
    }
    search::lemma_index_of_char_is(s, sep, n);
    assert(s.take(n) =~= x);
    assert(s.skip(n + 1) =~= rest);
}

/// Joined pieces begin with the first of them.
pub proof fn lemma_join_front(pieces: Seq<Seq<char>>, sep: Seq<char>)
    requires
        pieces.len() >= 2,
    ensures
        join(pieces, sep) == pieces[0] + sep + join(pieces.drop_first(), sep),
    decreases pieces.len(),
{
    if pieces.len() == 2 {
        reveal_with_fuel(join, 3);
        assert(pieces.drop_last() =~= seq![pieces[0]]);
        assert(pieces.drop_first() =~= seq![pieces[1]]);
    } else {
        lemma_join_front(pieces.drop_last(), sep);
        assert(pieces.drop_last().drop_first() =~= pieces.drop_first().drop_last());
        assert(pieces.drop_first().last() == pieces.last());
        let middle = join(pieces.drop_last().drop_first(), sep);
        assert(pieces[0] + sep + middle + sep + pieces.last() =~= pieces[0] + sep + (middle + sep
            + pieces.last()));
    }
}

/// Cutting joined pieces apart gives the pieces back.
pub proof fn lemma_split_join(pieces: Seq<Seq<char>>, sep: char)
    requires
        pieces.len() > 0,
        forall|i: int| 0 <= i < pieces.len() ==> !(#[trigger] pieces[i]).contains(sep),
    ensures
        split(join(pieces, seq![sep]), sep) == pieces,
    decreases pieces.len(),
{
    assert(!pieces[0].contains(sep));
    if pieces.len() == 1 {
        lemma_split_front(pieces[0], sep, seq![]);
        assert(pieces =~= seq![pieces[0]]);
    } else {
        let rest = pieces.drop_first();
        assert forall|i: int| 0 <= i < rest.len() implies !(#[trigger] rest[i]).contains(sep) by {
            assert(!pieces[i + 1].contains(sep));
        }
        lemma_split_join(rest, sep);
        lemma_join_front(pieces, seq![sep]);
        lemma_split_front(pieces[0], sep, join(rest, seq![sep]));
        assert(seq![pieces[0]] + rest =~= pieces);
    }
}

/// Joined pieces hold no character that neither a piece nor the separator
/// holds.
pub proof fn lemma_join_holds(pieces: Seq<Seq<char>>, sep: Seq<char>, c: char)
    requires
        forall|i: int| 0 <= i < pieces.len() ==> !(#[trigger] pieces[i]).contains(c),
        !sep.contains(c),
    ensures
        !join(pieces, sep).contains(c),
    decreases pieces.len(),
{
    if pieces.len() > 1 {
        let front = pieces.drop_last();
        assert forall|i: int| 0 <= i < front.len() implies !(#[trigger] front[i]).contains(c) by {
            assert(!pieces[i].contains(c));
        }
        lemma_join_holds(front, sep, c);
        let before = join(front, sep);
        let last = pieces[pieces.len() - 1];
        let all = join(pieces, sep);
        if all.contains(c) {
            let k = choose|k: int| 0 <= k < all.len() && all[k] == c;
            if k < before.len() {
                assert(before[k] == c);
            } else if k < before.len() + sep.len() {
                assert(sep[k - before.len()] == c);
            } else {
                assert(last[k - before.len() - sep.len()] == c);
            }
        }
    } else if pieces.len() == 1 {
        assert(!pieces[0].contains(c));
    }
}

} // verus!
