//! The remote listing as one lazy sequence of songs.
//!
//! The listing is served page by page. [`RankedSongs`] walks it: a pull hands
//! out the next song, or names the page that has to be fetched before the walk
//! can go on. Fetching is the caller's part; it answers with
//! [`RankedSongs::page_fetched`]. [`Listing`] is the walk as a mathematical
//! state, and its functions say what each operation does.
use crate::error::Error;
use crate::page::RankedSongsPage;
use crate::song::ScoreSaberSong;
use std::collections::VecDeque;
use vstd::prelude::*;

verus! {

/// What one pull on the sequence gives.
#[derive(Debug, PartialEq)]
pub enum Pull {
    /// The next song of the listing.
    Song(ScoreSaberSong),
    /// The page of this number has to be fetched, and the outcome handed in,
    /// before the sequence can go on.
    Fetch(u64),
    /// The fetch of a page failed. The sequence ends here.
    Failed(Error),
    /// Nothing is left: the last page was walked, or a failure ended the walk.
    End,
}

/// The state of a walk through the listing.
pub struct Listing {
    /// The songs of the page fetched last that were not handed out yet.
    pub buffer: Seq<ScoreSaberSong>,
    /// The page to ask for when the buffer is empty; `None` once the last page
    /// was seen.
    pub next_page: Option<u64>,
    /// The failure of a fetch that was not handed out yet.
    pub failure: Option<Error>,
    /// Whether a failure ended the walk.
    pub halted: bool,
}

impl Listing {
    /// The state before the first pull: nothing buffered, page 1 to come.
    pub open spec fn start() -> Listing {
        Listing { buffer: Seq::empty(), next_page: Some(1), failure: None, halted: false }
    }

    /// Whether the walk can only go on with the outcome of a fetch.
    pub open spec fn awaits_page(self) -> bool {
        &&& self.buffer.len() == 0
        &&& self.failure is None
        &&& !self.halted
        &&& self.next_page is Some
    }

    /// The state after a pull, and what the pull gives.
    ///
    /// Buffered songs come first, in their order. With none left, a failure that
    /// was handed in is given once and ends the walk; else the page to fetch is
    /// named, and the state stays as it is until the outcome is handed in.
    pub open spec fn pull(self) -> (Listing, Pull) {
        if self.buffer.len() > 0 {
            (Listing { buffer: self.buffer.drop_first(), ..self }, Pull::Song(self.buffer[0]))
        } else if let Some(error) = self.failure {
            (Listing { failure: None, halted: true, ..self }, Pull::Failed(error))
        } else if self.halted {
            (self, Pull::End)
        } else if let Some(number) = self.next_page {
            (self, Pull::Fetch(number))
        } else {
            (self, Pull::End)
        }
    }

    /// The page to ask for after `page` came as page `number`.
    ///
    /// There is none after the last page, nor after an empty one, which cannot
    /// be followed by songs; and none when the numbers are used up.
    pub open spec fn page_after(number: u64, page: RankedSongsPage) -> Option<u64> {
        if page.last_page || page.songs@.len() == 0 || number == u64::MAX {
            None
        } else {
            Some((number + 1) as u64)
        }
    }

    /// The state after the outcome of a fetch was handed in.
    ///
    /// An outcome that the walk does not wait for changes nothing. A page fills
    /// the buffer and moves the walk on; a failure is kept for the next pull and
    /// leaves the page number as it is.
    pub open spec fn page_fetched(self, outcome: Result<RankedSongsPage, Error>) -> Listing {
        if !self.awaits_page() {
            self
        } else {
            match outcome {
                Ok(page) => Listing {
                    buffer: page.songs@,
                    next_page: Self::page_after(self.next_page->0, page),
                    ..self
                },
                Err(error) => Listing { failure: Some(error), ..self },
            }
        }
    }

    /// The state after `count` pulls in a row.
    pub open spec fn after_pulls(self, count: nat) -> Listing
        decreases count,
    {
        if count == 0 {
            self
        } else {
            self.pull().0.after_pulls((count - 1) as nat)
        }
    }
}

/// Pulling walks through the buffer and touches nothing else.
proof fn lemma_pulls_walk_buffer(listing: Listing, count: nat)
    requires
        count <= listing.buffer.len(),
    ensures
        listing.after_pulls(count) == (Listing {
            buffer: listing.buffer.skip(count as int),
            ..listing
        }),
    decreases count,
{
    if count == 0 {
        assert(listing.buffer.skip(0) =~= listing.buffer);
    } else {
        let next = listing.pull().0;
        lemma_pulls_walk_buffer(next, (count - 1) as nat);
        assert(next.buffer.skip(count - 1) =~= listing.buffer.skip(count as int));
    }
}

/// A pull that leaves the state as it is does so however often it is repeated.
proof fn lemma_idle_pulls(listing: Listing, count: nat)
    requires
        listing.pull().0 == listing,
    ensures
        listing.after_pulls(count) == listing,
    decreases count,
{
    if count > 0 {
        lemma_idle_pulls(listing, (count - 1) as nat);
    }
}

/// Pulls add up.
proof fn lemma_pulls_add(listing: Listing, first: nat, second: nat)
    ensures
        listing.after_pulls(first + second) == listing.after_pulls(first).after_pulls(second),
    decreases first,
{
    if first > 0 {
        lemma_pulls_add(listing.pull().0, (first - 1) as nat, second);
    }
}

/// What the pull after `count` earlier ones gives, counted from a state with a
/// filled buffer and no failure: the buffered songs in their order, and then
/// for ever what the state with the buffer drained gives.
proof fn lemma_pull_after(listing: Listing, count: nat)
    requires
        listing.failure is None,
    ensures
        count < listing.buffer.len() ==> listing.after_pulls(count).pull().1 == Pull::Song(
            listing.buffer[count as int],
        ),
        count >= listing.buffer.len() ==> listing.after_pulls(count).pull() == (
            Listing { buffer: Seq::empty(), ..listing },
            (Listing { buffer: Seq::empty(), ..listing }).pull().1,
        ),
{
    let length = listing.buffer.len();
    if count < length {
        lemma_pulls_walk_buffer(listing, count);
    } else {
        let drained = Listing { buffer: Seq::empty(), ..listing };
        lemma_pulls_walk_buffer(listing, length);
        assert(listing.buffer.skip(length as int) =~= Seq::empty());
        lemma_pulls_add(listing, length, (count - length) as nat);
        lemma_idle_pulls(drained, (count - length) as nat);
    }
}

/// A page shorter than was asked for is the last one: once it is handed in no
/// page is left to ask for, the pulls that follow give its songs in their
/// order, and every pull after those gives the end.
pub proof fn short_page_ends_sequence(
    before: Listing,
    page: RankedSongsPage,
    limit: usize,
    earlier_pulls: nat,
)
    requires
        before.awaits_page(),
        page.last_page == (page.songs@.len() < limit),
        page.songs@.len() < limit,
    ensures
        before.page_fetched(Ok(page)).next_page is None,
        earlier_pulls < page.songs@.len() ==> before.page_fetched(Ok(page)).after_pulls(
            earlier_pulls,
        ).pull().1 == Pull::Song(page.songs@[earlier_pulls as int]),
        earlier_pulls >= page.songs@.len() ==> before.page_fetched(Ok(page)).after_pulls(
            earlier_pulls,
        ).pull().1 == Pull::End,
{
    lemma_pull_after(before.page_fetched(Ok(page)), earlier_pulls);
}

/// A page as long as was asked for is followed by the page of the next number:
/// once it is handed in, the pulls that follow give its songs in their order,
/// and every pull after those asks for that next page.
///
/// This holds of pages that hold a song, and while page numbers are left.
pub proof fn full_page_asks_for_next(
    before: Listing,
    page: RankedSongsPage,
    limit: usize,
    earlier_pulls: nat,
)
    requires
        before.awaits_page(),
        page.last_page == (page.songs@.len() < limit),
        page.songs@.len() == limit,
        page.songs@.len() > 0,
        before.next_page->0 < u64::MAX,
    ensures
        before.page_fetched(Ok(page)).next_page == Some((before.next_page->0 + 1) as u64),
        earlier_pulls < page.songs@.len() ==> before.page_fetched(Ok(page)).after_pulls(
            earlier_pulls,
        ).pull().1 == Pull::Song(page.songs@[earlier_pulls as int]),
        earlier_pulls >= page.songs@.len() ==> before.page_fetched(Ok(page)).after_pulls(
            earlier_pulls,
        ).pull().1 == Pull::Fetch((before.next_page->0 + 1) as u64),
{
    lemma_pull_after(before.page_fetched(Ok(page)), earlier_pulls);
}

/// A failed fetch is given by the next pull, once; every pull after it gives
/// the end, and the page number stays the one whose fetch failed.
pub proof fn failed_fetch_ends_sequence(before: Listing, error: Error, earlier_pulls: nat)
    requires
        before.awaits_page(),
    ensures
        before.page_fetched(Err(error)).pull().1 == Pull::Failed(error),
        earlier_pulls >= 1 ==> before.page_fetched(Err(error)).after_pulls(earlier_pulls).pull().1
            == Pull::End,
        before.page_fetched(Err(error)).after_pulls(earlier_pulls).next_page == before.next_page,
{
    let failing = before.page_fetched(Err(error));
    let halted = failing.pull().0;
    if earlier_pulls >= 1 {
        lemma_idle_pulls(halted, (earlier_pulls - 1) as nat);
    }
}

/// The walk through the listing: the sequence of all ranked songs.
pub struct RankedSongs {
    songs: VecDeque<ScoreSaberSong>,
    next_page: Option<u64>,
    failure: Option<Error>,
    halted: bool,
}

impl View for RankedSongs {
    type V = Listing;

    closed spec fn view(&self) -> Listing {
        Listing {
            buffer: self.songs@,
            next_page: self.next_page,
            failure: self.failure,
            halted: self.halted,
        }
    }
}

/// Moves the songs of a page into a queue, keeping their order.
fn queue_of(songs: Vec<ScoreSaberSong>) -> (queue: VecDeque<ScoreSaberSong>)
    ensures
        queue@ == songs@,
{
    let ghost all = songs@;
    let mut rest = songs;
    let mut queue: VecDeque<ScoreSaberSong> = VecDeque::new();
    loop
        invariant
            rest@ + queue@ == all,
        ensures
            queue@ == all,
        decreases rest@.len(),
    {
        let ghost before = rest@;
        let ghost queued = queue@;
        match rest.pop() {
            Some(song) => {
                queue.push_front(song);
                assert(rest@ + queue@ =~= before + queued);
            },
            None => {
                assert(rest@ + queue@ =~= queue@);
                break ;
            },
        }
    }
    queue
}

/// The sequence of all ranked songs, from the first page on.
pub fn get_ranked_songs() -> (songs: RankedSongs)
    ensures
        songs@ == Listing::start(),
{
    RankedSongs { songs: VecDeque::new(), next_page: Some(1), failure: None, halted: false }
}

impl RankedSongs {
    /// Pulls on the sequence: see [`Listing::pull`].
    pub fn next(&mut self) -> (pull: Pull)
        ensures
            final(self)@ == old(self)@.pull().0,
            pull == old(self)@.pull().1,
    {
        match self.songs.pop_front() {
            Some(song) => {
                assert(self.songs@ =~= old(self).songs@.drop_first());
                Pull::Song(song)
            },
            None => {
                match self.failure.take() {
                    Some(error) => {
                        self.halted = true;
                        Pull::Failed(error)
                    },
                    None => {
                        if self.halted {
                            Pull::End
                        } else {
                            match self.next_page {
                                Some(number) => Pull::Fetch(number),
                                None => Pull::End,
                            }
                        }
                    },
                }
            },
        }
    }

    /// Hands in the outcome of the fetch that the last pull asked for: see
    /// [`Listing::page_fetched`]. The result tells whether the sequence was
    /// waiting for it; if not, the outcome is dropped.
    pub fn page_fetched(&mut self, outcome: Result<RankedSongsPage, Error>) -> (taken: bool)
        ensures
            taken == old(self)@.awaits_page(),
            final(self)@ == old(self)@.page_fetched(outcome),
    {
        if self.songs.len() > 0 || self.failure.is_some() || self.halted {
            return false;
        }
        match self.next_page {
            None => false,
            Some(number) => {
                match outcome {
                    Ok(page) => {
                        let last = page.last_page || page.songs.len() == 0;
                        self.next_page = if last {
                            None
                        } else {
                            number.checked_add(1)
                        };
                        self.songs = queue_of(page.songs);
                    },
                    Err(error) => {
                        self.failure = Some(error);
                    },
                }
                true
            },
        }
    }

    /// The page that the sequence will ask for next, if any. After a failure it
    /// is still the page whose fetch failed.
    pub fn next_page(&self) -> (number: Option<u64>)
        ensures
            number == self@.next_page,
    {
        self.next_page
    }
}

} // verus!
