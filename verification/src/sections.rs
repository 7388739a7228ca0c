//! Configuration text as sections of keys and values.

use vstd::prelude::*;
use crate::text::chars;

verus! {

/// A section: its name, which the part before the first heading lacks, and its
/// keys and values in the order in which they stand.
#[derive(Debug)]
pub struct Section {
    pub name: Option<String>,
    pub entries: Vec<(String, String)>,
}

/// Where a configuration text cannot be read, and why.
#[derive(Debug)]
pub struct SyntaxError {
    pub line: usize,
    pub column: usize,
    pub message: String,
}

/// The keys and values of a section.
pub type Entries = Seq<(Seq<char>, Seq<char>)>;

/// The contents of a section.
pub struct SectionView {
    pub name: Option<Seq<char>>,
    pub entries: Entries,
}

/// The contents of a syntax error.
pub struct SyntaxErrorView {
    pub line: usize,
    pub column: usize,
    pub message: Seq<char>,
}

impl View for Section {
    type V = SectionView;

    open spec fn view(&self) -> SectionView {
        SectionView { name: chars::opt_text(self.name), entries: entry_views(self.entries@) }
    }
}

impl View for SyntaxError {
    type V = SyntaxErrorView;

    open spec fn view(&self) -> SyntaxErrorView {
        SyntaxErrorView { line: self.line, column: self.column, message: self.message@ }
    }
}

/// The contents of a list of keys and values.
pub open spec fn entry_views(entries: Seq<(String, String)>) -> Entries {
    Seq::new(entries.len(), |i: int| (entries[i].0@, entries[i].1@))
}

/// The contents of a list of sections.
pub open spec fn section_views(sections: Seq<Section>) -> Seq<SectionView> {
    Seq::new(sections.len(), |i: int| sections[i]@)
}

/// The sections that `Ini::load_from_str` reads out of a text.
pub uninterp spec fn ini_sections(text: Seq<char>) -> Result<Seq<SectionView>, SyntaxErrorView>;

/// Calls `ini::Ini::load_from_str` and hands out what `Ini::iter` and
/// `Properties::iter` walk through: the sections, and the keys and values of
/// each, in the order in which they stand in the text. Sections and keys of
/// one name are all handed out. The result is a function of the text alone.
#[verifier::external_body]
fn load_from_str(text: &str) -> (r: Result<Vec<Section>, SyntaxError>)
    ensures
        match r {
            Ok(sections) => ini_sections(text@) == Ok::<Seq<SectionView>, SyntaxErrorView>(
                section_views(sections@),
            ),
            Err(e) => ini_sections(text@) == Err::<Seq<SectionView>, SyntaxErrorView>(e@),
        },
{
    match ini::Ini::load_from_str(text) {
        Ok(conf) => Ok(conf.iter().map(|(name, properties)| Section {
            name: name.map(str::to_owned),
            entries: properties.iter().map(|(k, v)| (k.to_owned(), v.to_owned())).collect(),
        }).collect()),
        Err(e) => Err(SyntaxError { line: e.line, column: e.col, message: e.msg.into_owned() }),
    }
}

/// A text without the byte order mark that may stand at its front.
pub open spec fn without_mark(text: Seq<char>) -> Seq<char> {
    if text.len() > 0 && text[0] == '\u{feff}' {
        text.drop_first()
    } else {
        text
    }
}

/// The sections of a configuration text, which a byte order mark may precede.
pub fn read_sections(text: &str) -> (r: Result<Vec<Section>, SyntaxError>)
    ensures
        match r {
            Ok(sections) => ini_sections(without_mark(text@)) == Ok::<
                Seq<SectionView>,
                SyntaxErrorView,
            >(section_views(sections@)),
            Err(e) => ini_sections(without_mark(text@)) == Err::<Seq<SectionView>, SyntaxErrorView>(
                e@,
            ),
        },
{
    let n: usize = text.unicode_len();
    if n > 0 && text.get_char(0) == '\u{feff}' {
        let rest = text.substring_char(1, n);
        assert(rest@ =~= text@.drop_first());
        load_from_str(rest)
    } else {
        load_from_str(text)
    }
}

/// The value of the first entry with the given key.
pub open spec fn value_in(entries: Entries, key: Seq<char>) -> Option<Seq<char>>
    decreases entries.len(),
{
    if entries.len() == 0 {
        None
    } else if entries[0].0 == key {
        Some(entries[0].1)
    } else {
        value_in(entries.drop_first(), key)
    }
}

/// The entries of the first section with the given name; none where there is
/// no such section.
pub open spec fn entries_of(sections: Seq<SectionView>, name: Seq<char>) -> Entries
    decreases sections.len(),
{
    if sections.len() == 0 {
        seq![]
    } else if sections[0].name == Some(name) {
        sections[0].entries
    } else {
        entries_of(sections.drop_first(), name)
    }
}

/// The value of a key in the first section with the given name.
pub open spec fn value_of(
    sections: Seq<SectionView>,
    name: Seq<char>,
    key: Seq<char>,
) -> Option<Seq<char>> {
    value_in(entries_of(sections, name), key)
}

/// The value of the first entry with the given key.
pub fn get_value(entries: &Vec<(String, String)>, key: &str) -> (r: Option<String>)
    ensures
        chars::opt_text(r) == value_in(entry_views(entries@), key@),
{
    let ghost all = entry_views(entries@);
    let mut i: usize = 0;
    assert(all.skip(0) =~= all);
    while i < entries.len()
        invariant
            all == entry_views(entries@),
            i <= entries.len(),
            value_in(all, key@) == value_in(all.skip(i as int), key@),
        decreases entries.len() - i,
    {
        assert(all.skip(i as int)[0] == (entries@[i as int].0@, entries@[i as int].1@));
        if chars::same_text(&entries[i].0, key) {
            return Some(entries[i].1.clone());
        }
        assert(all.skip(i as int).drop_first() =~= all.skip(i + 1));
        i += 1;
    }
    None
}

/// The value of a key in the first section with the given name.
pub fn get_from(sections: &Vec<Section>, name: &str, key: &str) -> (r: Option<String>)
    ensures
        chars::opt_text(r) == value_of(section_views(sections@), name@, key@),
{
    let ghost all = section_views(sections@);
    let mut i: usize = 0;
    assert(all.skip(0) =~= all);
    while i < sections.len()
        invariant
            all == section_views(sections@),
            i <= sections.len(),
            entries_of(all, name@) == entries_of(all.skip(i as int), name@),
        decreases sections.len() - i,
    {
        assert(all.skip(i as int)[0] == sections@[i as int]@);
        if let Some(n) = &sections[i].name {
            if chars::same_text(n, name) {
                return get_value(&sections[i].entries, key);
            }
        }
        assert(all.skip(i as int).drop_first() =~= all.skip(i + 1));
        i += 1;
    }
    None
}

} // verus!
