//! How a listing goes through a folder, and where settings are looked for.

use vstd::prelude::*;
use crate::entry;
use crate::entry::ListStep;
use crate::listing;
use crate::listing::{Listing, Progress, Request};
use crate::places;
use crate::places::Place;
use crate::text::number;

verus! {

/// The size of the stretches that the call asks for counts before the
/// configured one, and the configured one counts where the call asks for none.
/// A size of zero means that there are no stretches.
pub proof fn law_call_decides_on_stretches(size: u32, configured: u32)
    requires
        size > 0,
    ensures
        listing::chunk_size(Some(size), configured) == Some(size),
        listing::chunk_size(None, size) == Some(size),
        listing::chunk_size(Some(0), configured) == None::<u32>,
        listing::chunk_size(None, 0) == None::<u32>,
{
}

/// A listing begins with the newest message that is not skipped and goes back
/// to the oldest within the limit.
pub proof fn law_listing_begins_with_the_newest(total: u32, limit: u32, offset: u32, size: u32)
    requires
        offset < total,
        limit > 0,
    ensures
        ({
            let l = listing::begun(total, limit, offset, Some(size));
            let all = listing::begun(total, limit, offset, None);
            &&& l matches Some(l) && l.progress == Progress::Stretch { last: (total - offset) as u32 }
                && (l.chunk == if size > 0 {
                Some(size)
            } else {
                None
            }) && l.first == if total - offset > limit {
                total - offset - limit + 1
            } else {
                1
            }
            &&& all matches Some(all) && all.chunk is None && all.progress == Progress::Stretch {
                last: (total - offset) as u32,
            }
        }),
        listing::begun(total, 0, offset, Some(size)) is None,
        listing::begun(offset, limit, total, Some(size)) is None,
        listing::begun(total, limit, total, Some(size)) is None,
{
}

/// A listing asks for stretches of the given size from the newest message on,
/// each directly below the one before it; the last may be shorter.
pub proof fn law_stretches_go_down(first: u32, last: u32, size: u32)
    requires
        1 <= first <= last,
        size > 0,
    ensures
        ({
            let l = Listing { first, chunk: Some(size), progress: Progress::Stretch { last } };
            if last - first + 1 > size {
                &&& l.request() == Request::Range((last - size + 1) as u32, last)
                &&& l.after(true).progress == Progress::Stretch { last: (last - size) as u32 }
                &&& l.after(false).progress == Progress::Single {
                    low: (last - size + 1) as u32,
                    next: last,
                }
            } else {
                &&& l.request() == Request::Range(first, last)
                &&& l.after(true).progress == Progress::Done
                &&& l.after(false).progress == Progress::Single { low: first, next: last }
            }
        }),
        ({
            let l = Listing { first, chunk: None, progress: Progress::Stretch { last } };
            &&& l.request() == Request::Range(first, last)
            &&& l.after(true).progress == Progress::Done
            &&& l.after(false).progress == Progress::Refused
        }),
{
}

/// The messages of a refused stretch are asked for one by one, newest first,
/// whether they are answered or not; the next stretch begins directly below
/// them.
pub proof fn law_refused_stretch_is_listed_one_by_one(
    first: u32,
    low: u32,
    next: u32,
    size: u32,
    answered: bool,
)
    requires
        1 <= first <= low <= next,
    ensures
        ({
            let l = Listing { first, chunk: Some(size), progress: Progress::Single { low, next } };
            &&& l.request() == Request::One(next)
            &&& next > low ==> l.after(answered).progress == Progress::Single {
                low,
                next: (next - 1) as u32,
            }
            &&& next == low && low > first ==> l.after(answered).progress == Progress::Stretch {
                last: (low - 1) as u32,
            }
            &&& next == low && low == first ==> l.after(answered).progress == Progress::Done
            &&& l.after(answered).first == first
            &&& l.after(answered).chunk == Some(size)
        }),
{
}

/// A stretch is written with a colon between its oldest and its newest message,
/// a single message by its number.
pub proof fn law_requests_are_written(a: u32, b: u32)
    ensures
        listing::request_text(Request::Range(a, b)) == number::decimal(a as nat) + seq![':']
            + number::decimal(b as nat),
        listing::request_text(Request::One(a)) == number::decimal(a as nat),
        listing::request_text(Request::Nothing) == Seq::<char>::empty(),
{
}

/// A listing is headed with `;ListFile` where there is something to list. An
/// empty one is written where the settings or the connection are missing; an
/// unknown account, or contents that cannot be had, leave no listing at all.
pub proof fn law_listing_has_a_heading()
    ensures
        entry::opening(ListStep::Contents, true) == ";ListFile\r\n"@,
        entry::opening(ListStep::Settings, false) == ";ListFile\r\n"@,
        entry::opening(ListStep::Connection, false) == ";ListFile\r\n"@,
        entry::opening(ListStep::Contents, false).len() == 0,
        entry::opening(ListStep::Account, false).len() == 0,
        entry::opening(ListStep::Settings, true).len() == 0,
        entry::opening(ListStep::Account, true).len() == 0,
        entry::opening(ListStep::Connection, true).len() == 0,
{
}

/// The settings are looked for under their present name before the older one,
/// each beside the program before the current directory, and with the settings
/// of other applications last.
pub proof fn law_where_settings_are_looked_for(has_settings: bool)
    ensures
        ({
            let all = places::config_places(has_settings);
            &&& all.len() == if has_settings {
                6int
            } else {
                4
            }
            &&& all[0] == (Place::Program, "auximap.ini"@)
            &&& all[1] == (Place::Current, "auximap.ini"@)
            &&& all[2] == (Place::Program, "imapmail.ini"@)
            &&& all[3] == (Place::Current, "imapmail.ini"@)
            &&& has_settings ==> all[4] == (Place::Settings, "auximap.ini"@) && all[5] == (
                Place::Settings,
                "imapmail.ini"@,
            )
        }),
{
}

} // verus!
