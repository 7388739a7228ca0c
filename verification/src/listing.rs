//! What is asked of the server to list a folder.

use vstd::prelude::*;
use crate::mailpath::MailPath;
use crate::text::number;

verus! {

// ---------------------------------------------------------------------------
// What to list
// ---------------------------------------------------------------------------

/// What a path asks to be listed: the accounts, the folders of one, or the
/// messages in a folder.
#[derive(Debug)]
pub enum ListTarget {
    Accounts,
    Folders(String),
    Messages(String, String),
}

/// What a path with the given account and folder asks to be listed.
pub fn list_target(path: &MailPath) -> (r: ListTarget)
    ensures
        match r {
            ListTarget::Accounts => path@.account is None,
            ListTarget::Folders(account) => path@.account == Some(account@) && (
            path@.folder is None || path@.folder == Some(Seq::<char>::empty())),
            ListTarget::Messages(account, folder) => path@.account == Some(account@) && path@.folder
                == Some(folder@) && folder@.len() > 0,
        },
{
    match &path.account {
        None => ListTarget::Accounts,
        Some(account) => match &path.folder {
            None => ListTarget::Folders(account.clone()),
            Some(folder) => if folder.as_str().unicode_len() == 0 {
                assert(folder@ =~= Seq::<char>::empty());
                ListTarget::Folders(account.clone())
            } else {
                ListTarget::Messages(account.clone(), folder.clone())
            },
        },
    }
}

/// The first of `cli` and `configured` that there is.
pub fn setting_or(cli: Option<u32>, configured: u32) -> (r: u32)
    ensures
        r == match cli {
            Some(n) => n,
            None => configured,
        },
{
    match cli {
        Some(n) => n,
        None => configured,
    }
}

/// The number of messages to ask for at a time: the one of the call, else the
/// configured one. Zero, and nothing at all, stand for all at once.
pub open spec fn chunk_size(cli: Option<u32>, configured: u32) -> Option<u32> {
    let size = match cli {
        Some(n) => n,
        None => configured,
    };
    if size > 0 {
        Some(size)
    } else {
        None
    }
}

/// The number of messages to ask for at a time.
pub fn effective_chunk(cli: Option<u32>, configured: u32) -> (r: Option<u32>)
    ensures
        r == chunk_size(cli, configured),
{
    let size: u32 = setting_or(cli, configured);
    if size > 0 {
        Some(size)
    } else {
        None
    }
}

/// The messages to list, by their place in the folder: of `total`, without the
/// `offset` newest, the `limit` newest.
pub open spec fn seq_range(total: u32, limit: u32, offset: u32) -> Option<(u32, u32)> {
    if total == 0 || offset >= total || limit == 0 {
        None
    } else {
        let last = total - offset;
        Some(
            (
                if last > limit {
                    (last - limit + 1) as u32
                } else {
                    1
                },
                last as u32,
            ),
        )
    }
}

/// The messages to list, of `total` in the folder.
pub fn calculate_seq_range(total: u32, limit: u32, offset: u32) -> (r: Option<(u32, u32)>)
    ensures
        r == seq_range(total, limit, offset),
{
    if total == 0 || offset >= total || limit == 0 {
        return None;
    }
    let last: u32 = total - offset;
    let first: u32 = if last > limit {
        last - limit + 1
    } else {
        1
    };
    Some((first, last))
}

/// The messages that are listed exist, are at most `limit`, are the newest but
/// for the `offset` that are skipped, and are all there are where fewer than
/// `limit` are left.
pub proof fn law_range_is_right(total: u32, limit: u32, offset: u32)
    ensures
        match seq_range(total, limit, offset) {
            Some((first, last)) => {
                &&& 1 <= first <= last <= total
                &&& last == total - offset
                &&& last - first + 1 <= limit
                &&& last - first + 1 == limit || first == 1
            },
            None => total <= offset || limit == 0,
        },
{
}

/// Neighbouring stretches of a folder touch without overlapping: skipping as
/// many messages more as were listed goes on where the listing ended.
pub proof fn law_next_range_continues(total: u32, limit: u32, offset: u32)
    requires
        seq_range(total, limit, offset) is Some,
        offset + limit <= u32::MAX,
    ensures
        ({
            let (first, _) = seq_range(total, limit, offset)->0;
            match seq_range(total, limit, (offset + limit) as u32) {
                Some((_, last)) => last == first - 1,
                None => first == 1,
            }
        }),
{
}

// ---------------------------------------------------------------------------
// How to ask for it
// ---------------------------------------------------------------------------

/// How far a listing has come.
#[derive(Debug, Clone, Copy, PartialEq, Eq, Structural)]
pub enum Progress {
    /// The stretch that ends at `last` is to be asked for.
    Stretch { last: u32 },
    /// A stretch was refused; its messages down to `low` are to be asked for
    /// one by one, and `next` is the next of them.
    Single { low: u32, next: u32 },
    /// Everything was asked for.
    Done,
    /// The server refused to list the messages.
    Refused,
}

/// A listing of the messages from `first` on, newest first, `chunk` at a time
/// or all at once.
#[derive(Debug, Clone, Copy, PartialEq, Eq, Structural)]
pub struct Listing {
    pub first: u32,
    pub chunk: Option<u32>,
    pub progress: Progress,
}

/// What to ask the server for.
#[derive(Debug, Clone, Copy, PartialEq, Eq, Structural)]
pub enum Request {
    /// The messages from the one to the other.
    Range(u32, u32),
    /// One message.
    One(u32),
    /// Nothing more.
    Nothing,
}

/// A listing of a folder with `total` messages: without the `offset` newest,
/// the `limit` newest, `chunk` at a time. `None` where there is nothing to
/// list.
pub open spec fn begun(total: u32, limit: u32, offset: u32, chunk: Option<u32>) -> Option<Listing> {
    match seq_range(total, limit, offset) {
        Some((first, last)) => Some(
            Listing { first, chunk: chunk_size(chunk, 0), progress: Progress::Stretch { last } },
        ),
        None => None,
    }
}

impl Listing {
    /// The listing stays within its messages.
    pub open spec fn wf(self) -> bool {
        &&& self.first >= 1
        &&& self.chunk matches Some(c) ==> c > 0
        &&& match self.progress {
            Progress::Stretch { last } => self.first <= last,
            Progress::Single { low, next } => self.first <= low <= next && self.chunk is Some,
            _ => true,
        }
    }

    /// The beginning of the stretch that ends at `last`.
    pub open spec fn stretch_start(self, last: u32) -> int {
        match self.chunk {
            Some(c) => if c > 0 && last - c + 1 > self.first {
                last - c + 1
            } else {
                self.first as int
            },
            None => self.first as int,
        }
    }

    /// The message is still to be asked for.
    pub open spec fn is_left(self, seq: int) -> bool {
        match self.progress {
            Progress::Stretch { last } => self.first <= seq <= last,
            Progress::Single { low, next } => self.first <= seq <= next,
            Progress::Done => false,
            Progress::Refused => false,
        }
    }

    /// What to ask for next.
    pub open spec fn request(self) -> Request {
        match self.progress {
            Progress::Stretch { last } => Request::Range(self.stretch_start(last) as u32, last),
            Progress::Single { next, .. } => Request::One(next),
            _ => Request::Nothing,
        }
    }

    /// The progress when everything from `low` on has been asked for.
    pub open spec fn below(self, low: int) -> Progress {
        if low <= self.first {
            Progress::Done
        } else {
            Progress::Stretch { last: (low - 1) as u32 }
        }
    }

    /// The listing after the server answered the request, or refused it. A
    /// refused stretch is asked for message by message, where the listing goes
    /// by stretches; a refused message is left out.
    pub open spec fn after(self, answered: bool) -> Listing {
        Listing {
            progress: match self.progress {
                Progress::Stretch { last } => {
                    let low = self.stretch_start(last);
                    if answered {
                        self.below(low)
                    } else if self.chunk is None {
                        Progress::Refused
                    } else {
                        Progress::Single { low: low as u32, next: last }
                    }
                },
                Progress::Single { low, next } => if next > low {
                    Progress::Single { low, next: (next - 1) as u32 }
                } else {
                    self.below(low as int)
                },
                other => other,
            },
            ..self
        }
    }

    /// A listing of a folder with `total` messages: without the `offset`
    /// newest, the `limit` newest, `chunk` at a time. `None` where there is
    /// nothing to list.
    pub fn begin(total: u32, limit: u32, offset: u32, chunk: Option<u32>) -> (r: Option<Listing>)
        ensures
            r == begun(total, limit, offset, chunk),
            r matches Some(l) ==> l.wf(),
    {
        match calculate_seq_range(total, limit, offset) {
            Some((first, last)) => Some(
                Listing {
                    first,
                    chunk: effective_chunk(chunk, 0),
                    progress: Progress::Stretch { last },
                },
            ),
            None => None,
        }
    }

    /// The beginning of the stretch that ends at `last`.
    fn start_of(&self, last: u32) -> (r: u32)
        ensures
            r == self.stretch_start(last),
    {
        match self.chunk {
            Some(c) => if c > 0 && last >= c && last - c + 1 > self.first {
                last - c + 1
            } else {
                self.first
            },
            None => self.first,
        }
    }

    /// What to ask for next.
    pub fn next_request(&self) -> (r: Request)
        ensures
            r == self.request(),
    {
        match self.progress {
            Progress::Stretch { last } => Request::Range(self.start_of(last), last),
            Progress::Single { low: _, next } => Request::One(next),
            Progress::Done => Request::Nothing,
            Progress::Refused => Request::Nothing,
        }
    }

    /// The listing after the server answered the request, or refused it.
    pub fn step(&self, answered: bool) -> (r: Listing)
        ensures
            r == self.after(answered),
            self.wf() ==> r.wf(),
    {
        let progress = match self.progress {
            Progress::Stretch { last } => {
                let low: u32 = self.start_of(last);
                if answered {
                    self.go_below(low)
                } else if self.chunk.is_none() {
                    Progress::Refused
                } else {
                    Progress::Single { low, next: last }
                }
            },
            Progress::Single { low, next } => if next > low {
                Progress::Single { low, next: next - 1 }
            } else {
                self.go_below(low)
            },
            Progress::Done => Progress::Done,
            Progress::Refused => Progress::Refused,
        };
        Listing { first: self.first, chunk: self.chunk, progress }
    }

    /// The progress when everything from `low` on has been asked for.
    fn go_below(&self, low: u32) -> (r: Progress)
        ensures
            r == self.below(low as int),
    {
        if low <= self.first {
            Progress::Done
        } else {
            Progress::Stretch { last: low - 1 }
        }
    }
}

/// The message is asked for by the request.
pub open spec fn asks_for(request: Request, seq: int) -> bool {
    match request {
        Request::Range(a, b) => a <= seq <= b,
        Request::One(n) => seq == n,
        Request::Nothing => false,
    }
}

/// The request asks for at most a chunk of messages.
pub open spec fn fits_chunk(request: Request, chunk: Option<u32>) -> bool {
    match (request, chunk) {
        (Request::Range(a, b), Some(c)) => b - a + 1 <= c,
        _ => true,
    }
}

/// A request asks for the newest of the messages that are left, and for no
/// more than a chunk of them. Once it is answered, or is for a single message,
/// exactly those are left that it did not ask for; a stretch that is refused
/// stays left.
pub proof fn law_requests_take_the_newest(l: Listing, answered: bool)
    requires
        l.wf(),
        !(l.request() is Nothing),
    ensures
        fits_chunk(l.request(), l.chunk),
        forall|s: int| #[trigger] asks_for(l.request(), s) ==> l.is_left(s),
        forall|s: int, t: int|
            #[trigger] asks_for(l.request(), s) && #[trigger] l.is_left(t) && t > s ==> asks_for(
                l.request(),
                t,
            ),
        answered || l.request() is One ==> forall|s: int| #[trigger]
            l.after(answered).is_left(s) <==> l.is_left(s) && !asks_for(l.request(), s),
        !answered && l.request() is Range && l.chunk is Some ==> forall|s: int| #[trigger]
            l.after(answered).is_left(s) <==> l.is_left(s),
{
}

/// The number of requests that are still to come is bounded: each step that
/// does not end the listing brings it nearer to its end.
pub open spec fn work_left(l: Listing) -> int {
    match l.progress {
        Progress::Stretch { last } => 2 * (last - l.first + 1),
        Progress::Single { low, next } => 2 * (next - l.first + 1) - 1,
        _ => 0,
    }
}

/// Every step brings the listing nearer to its end.
pub proof fn law_listing_ends(l: Listing, answered: bool)
    requires
        l.wf(),
        !(l.request() is Nothing),
    ensures
        0 <= work_left(l.after(answered)) < work_left(l),
{
}

/// The requests of a listing that are all answered.
pub open spec fn requests(l: Listing) -> Seq<Request>
    decreases work_left(l),
    via requests_decreases
{
    if !l.wf() || l.request() is Nothing {
        seq![]
    } else {
        seq![l.request()] + requests(l.after(true))
    }
}

#[via_fn]
proof fn requests_decreases(l: Listing) {
    if l.wf() && !(l.request() is Nothing) {
        law_listing_ends(l, true);
    }
}

/// The message is asked for by one of the requests.
pub open spec fn is_asked_for(requests: Seq<Request>, seq: int) -> bool {
    exists|i: int| 0 <= i < requests.len() && #[trigger] asks_for(requests[i], seq)
}

/// The oldest message of a stretch.
pub open spec fn oldest_in(request: Request) -> int {
    match request {
        Request::Range(a, _) => a as int,
        Request::One(n) => n as int,
        Request::Nothing => 0,
    }
}

/// The newest message of a stretch.
pub open spec fn newest_in(request: Request) -> int {
    match request {
        Request::Range(_, b) => b as int,
        Request::One(n) => n as int,
        Request::Nothing => 0,
    }
}

/// The requests of a listing that are all answered are for stretches of at
/// most a chunk. They go from the newest message to the oldest, each begins
/// where the one before it ended, no two of them overlap, and together they ask
/// for exactly the messages that are listed.
pub proof fn law_stretches_cover_the_range(l: Listing, last: u32)
    requires
        l.wf(),
        l.progress == (Progress::Stretch { last }),
    ensures
        ({
            let all = requests(l);
            &&& all.len() > 0
            &&& newest_in(all[0]) == last
            &&& oldest_in(all.last()) == l.first
            &&& forall|i: int|
                0 <= i < all.len() ==> {
                    &&& (#[trigger] all[i]) is Range
                    &&& l.first <= oldest_in(all[i]) <= newest_in(all[i]) <= last
                    &&& fits_chunk(all[i], l.chunk)
                }
            &&& forall|i: int|
                0 <= i < all.len() - 1 ==> newest_in(all[i + 1]) == oldest_in(#[trigger] all[i]) - 1
            &&& forall|i: int, j: int|
                0 <= i < j < all.len() ==> newest_in(#[trigger] all[j]) < oldest_in(
                    #[trigger] all[i],
                )
            &&& forall|seq: int| l.first <= seq <= last <==> #[trigger] is_asked_for(all, seq)
        }),
    decreases last,
{
    let low = l.stretch_start(last);
    let next = l.after(true);
    let all = requests(l);
    let rest = requests(next);
    assert(l.request() == Request::Range(low as u32, last));
    assert(all == seq![l.request()] + rest);
    assert(all[0] == l.request());
    if low <= l.first {
        assert(next.request() is Nothing);
        assert(rest =~= seq![]);
        assert forall|seq: int| l.first <= seq <= last implies #[trigger] is_asked_for(
            all,
            seq,
        ) by {
            assert(asks_for(all[0], seq));
        }
    } else {
        let last2 = (low - 1) as u32;
        law_stretches_cover_the_range(next, last2);
        assert forall|i: int| 0 < i < all.len() implies #[trigger] all[i] == rest[i - 1] by {}
        assert forall|i: int| 0 <= i < all.len() - 1 implies newest_in(all[i + 1]) == oldest_in(
            #[trigger] all[i],
        ) - 1 by {
            assert(all[i + 1] == rest[i]);
            if i > 0 {
                assert(all[i] == rest[i - 1]);
                assert(newest_in(rest[i - 1 + 1]) == oldest_in(rest[i - 1]) - 1);
            }
        }
        assert forall|i: int, j: int| 0 <= i < j < all.len() implies newest_in(
            #[trigger] all[j],
        ) < oldest_in(#[trigger] all[i]) by {
            assert(all[j] == rest[j - 1]);
            if i > 0 {
                assert(all[i] == rest[i - 1]);
            }
        }
        assert forall|seq: int| l.first <= seq <= last implies #[trigger] is_asked_for(
            all,
            seq,
        ) by {
            if seq >= low {
                assert(asks_for(all[0], seq));
            } else {
                assert(is_asked_for(rest, seq));
                let i = choose|i: int| 0 <= i < rest.len() && #[trigger] asks_for(rest[i], seq);
                assert(asks_for(all[i + 1], seq));
            }
        }
        assert(all.last() == rest.last());
    }
    assert forall|seq: int| #[trigger] is_asked_for(all, seq) implies l.first <= seq <= last by {
        let i = choose|i: int| 0 <= i < all.len() && #[trigger] asks_for(all[i], seq);
        assert(all[i] is Range);
    }
}

/// A chunk of no messages at all, or none that is asked for or configured,
/// means that everything is asked for at once.
pub proof fn law_no_chunk_means_all_at_once(
    total: u32,
    limit: u32,
    offset: u32,
    configured: u32,
)
    ensures
        chunk_size(Some(0), configured) is None,
        chunk_size(None, 0) is None,
        begun(total, limit, offset, None) matches Some(l) ==> seq_range(
            total,
            limit,
            offset,
        ) matches Some((first, last)) && requests(l) == seq![Request::Range(first, last)],
{
    if let Some(l) = begun(total, limit, offset, None) {
        let next = l.after(true);
        assert(next.request() is Nothing);
        assert(requests(next) =~= seq![]);
        assert(requests(l) =~= seq![l.request()]);
    }
}

/// The listing after the server's answers.
pub open spec fn run(l: Listing, answers: Seq<bool>) -> Listing
    decreases answers.len(),
{
    if answers.len() == 0 {
        l
    } else {
        run(l.after(answers[0]), answers.drop_first())
    }
}

/// The message was asked for in a request that was answered, or for itself
/// alone.
pub open spec fn was_asked(l: Listing, answers: Seq<bool>, seq: int) -> bool
    decreases answers.len(),
{
    answers.len() > 0 && (asks_for(l.request(), seq) && (answers[0] || l.request() is One)
        || was_asked(l.after(answers[0]), answers.drop_first(), seq))
}

/// A listing that is done has asked for every one of its messages, each in a
/// stretch that was answered or for itself.
pub proof fn law_every_message_is_asked_for(l: Listing, answers: Seq<bool>, seq: int)
    requires
        l.wf(),
        l.is_left(seq),
        run(l, answers).progress is Done,
    ensures
        was_asked(l, answers, seq),
    decreases answers.len(),
{
    if answers.len() > 0 {
        let next = l.after(answers[0]);
        law_requests_take_the_newest(l, answers[0]);
        if !(asks_for(l.request(), seq) && (answers[0] || l.request() is One)) {
            if next.progress is Refused {
                lemma_refused_stays(next, answers.drop_first());
            } else {
                law_every_message_is_asked_for(next, answers.drop_first(), seq);
            }
        }
    }
}

/// A refused listing stays refused.
proof fn lemma_refused_stays(l: Listing, answers: Seq<bool>)
    requires
        l.progress is Refused,
    ensures
        run(l, answers).progress is Refused,
    decreases answers.len(),
{
    if answers.len() > 0 {
        lemma_refused_stays(l.after(answers[0]), answers.drop_first());
    }
}

/// A listing by stretches is never refused as a whole.
pub proof fn law_chunked_listing_is_never_refused(l: Listing, answers: Seq<bool>)
    requires
        l.wf(),
        l.chunk is Some,
        !(l.progress is Refused),
    ensures
        !(run(l, answers).progress is Refused),
    decreases answers.len(),
{
    if answers.len() > 0 {
        law_chunked_listing_is_never_refused(l.after(answers[0]), answers.drop_first());
    }
}

/// The text of a request: a range or a number.
pub open spec fn request_text(request: Request) -> Seq<char> {
    match request {
        Request::Range(a, b) => number::decimal(a as nat) + seq![':'] + number::decimal(b as nat),
        Request::One(n) => number::decimal(n as nat),
        Request::Nothing => seq![],
    }
}

/// The text of `request`.
pub fn write_request(request: Request) -> (r: String)
    ensures
        r@ == request_text(request),
{
    match request {
        Request::Range(a, b) => {
            let mut r = number::decimal_text(a as u64);
            r.push(':');
            r.append(&number::decimal_text(b as u64));
            assert(r@ =~= request_text(request));
            r
        },
        Request::One(n) => number::decimal_text(n as u64),
        Request::Nothing => {
            let r = String::new();
            assert(r@ =~= seq![]);
            r
        },
    }
}

} // verus!
