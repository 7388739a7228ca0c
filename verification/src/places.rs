//! Where the configuration is looked for.

use vstd::prelude::*;

verus! {

/// A directory in which files are looked for.
#[derive(Debug, Clone, Copy, PartialEq, Eq, Structural)]
pub enum Place {
    /// The one that holds the program.
    Program,
    /// The current one.
    Current,
    /// The one for the settings of applications.
    Settings,
}

/// The places and the names under which the configuration is looked for, in
/// order. The settings of applications count only where the machine has a
/// directory for them.
pub open spec fn config_places(has_settings: bool) -> Seq<(Place, Seq<char>)> {
    let always = seq![
        (Place::Program, "auximap.ini"@),
        (Place::Current, "auximap.ini"@),
        (Place::Program, "imapmail.ini"@),
        (Place::Current, "imapmail.ini"@),
    ];
    if has_settings {
        always + seq![(Place::Settings, "auximap.ini"@), (Place::Settings, "imapmail.ini"@)]
    } else {
        always
    }
}

/// The contents of a list of places and names.
pub open spec fn place_views(v: Seq<(Place, String)>) -> Seq<(Place, Seq<char>)> {
    Seq::new(v.len(), |i: int| (v[i].0, v[i].1@))
}

/// The places and the names under which the configuration is looked for.
pub fn config_files(has_settings: bool) -> (r: Vec<(Place, String)>)
    ensures
        place_views(r@) == config_places(has_settings),
{
    let mut r: Vec<(Place, String)> = Vec::new();
    r.push((Place::Program, "auximap.ini".to_owned()));
    r.push((Place::Current, "auximap.ini".to_owned()));
    r.push((Place::Program, "imapmail.ini".to_owned()));
    r.push((Place::Current, "imapmail.ini".to_owned()));
    if has_settings {
        r.push((Place::Settings, "auximap.ini".to_owned()));
        r.push((Place::Settings, "imapmail.ini".to_owned()));
    }
    assert(place_views(r@) =~= config_places(has_settings));
    r
}

} // verus!
