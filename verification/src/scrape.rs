//! The run that brings every song of the listing into the store.
//!
//! [`Scrape`] decides, the caller acts: it fetches the page or stores the song
//! that a step names, and hands the outcome back. The first failure, of a fetch
//! or of the store, ends the run. [`Run`] is the run as a mathematical state.
use crate::error::Error;
use crate::fetch::{get_ranked_songs, Listing, Pull, RankedSongs};
use crate::page::RankedSongsPage;
use crate::song::ScoreSaberSong;
use vstd::prelude::*;

verus! {

/// What the caller has to do next.
#[derive(Debug, PartialEq)]
pub enum Step {
    /// Fetch the page of this number, and hand in the outcome.
    Fetch(u64),
    /// Store this song, replacing the record of the same identifier, and hand
    /// in the outcome.
    Store(ScoreSaberSong),
    /// The run is over, with this result. Only after `Ok` may the playlist be
    /// made.
    Finished(Result<(), Error>),
}

/// The state of a run.
pub struct Run {
    /// The walk through the listing.
    pub listing: Listing,
    /// How the run ended, once it has.
    pub result: Option<Result<(), Error>>,
}

/// The outcome of fetching a page, for every page number.
pub type Source = spec_fn(u64) -> Result<RankedSongsPage, Error>;

impl Run {
    /// The state before the first step.
    pub open spec fn start() -> Run {
        Run { listing: Listing::start(), result: None }
    }

    /// The state after a step was asked for, and the step.
    ///
    /// A run that is over stays so. Else the sequence is pulled: a song is to be
    /// stored, a page to be fetched, and a failure or the end of the sequence is
    /// how the run ends.
    pub open spec fn next_step(self) -> (Run, Step) {
        match self.result {
            Some(result) => (self, Step::Finished(result)),
            None => {
                let (listing, pull) = self.listing.pull();
                match pull {
                    Pull::Song(song) => (Run { listing, ..self }, Step::Store(song)),
                    Pull::Fetch(number) => (Run { listing, ..self }, Step::Fetch(number)),
                    Pull::Failed(error) => (
                        Run { listing, result: Some(Err(error)) },
                        Step::Finished(Err(error)),
                    ),
                    Pull::End => (Run { listing, result: Some(Ok(())) }, Step::Finished(Ok(()))),
                }
            },
        }
    }

    /// The state after the outcome of a fetch was handed in. A run that is over
    /// drops it.
    pub open spec fn page_fetched(self, outcome: Result<RankedSongsPage, Error>) -> Run {
        if self.result is Some {
            self
        } else {
            Run { listing: self.listing.page_fetched(outcome), ..self }
        }
    }

    /// How a run that is not over goes on after the store answered: unchanged
    /// if exactly one row was changed, and else over with the failure.
    pub open spec fn store_verdict(outcome: Result<usize, Error>) -> Option<Result<(), Error>> {
        match outcome {
            Ok(rows) => if rows == 1 {
                None
            } else {
                Some(Err(Error::RowsAffected(rows)))
            },
            Err(error) => Some(Err(error)),
        }
    }

    /// The state after the outcome of storing a song was handed in. A run that
    /// is over drops it.
    pub open spec fn song_stored(self, outcome: Result<usize, Error>) -> Run {
        if self.result is Some {
            self
        } else {
            Run { result: Self::store_verdict(outcome), ..self }
        }
    }

    /// One step with the caller's part in it: the step is asked for, and
    /// answered as `source` tells for a fetch and with one changed row for a
    /// store. Gives the state after the answer, and the step.
    pub open spec fn answered_step(self, source: Source) -> (Run, Step) {
        let (run, step) = self.next_step();
        match step {
            Step::Fetch(number) => (run.page_fetched(source(number)), step),
            Step::Store(_) => (run.song_stored(Ok(1)), step),
            Step::Finished(_) => (run, step),
        }
    }

    /// The state after `count` answered steps.
    pub open spec fn after_steps(self, source: Source, count: nat) -> Run
        decreases count,
    {
        if count == 0 {
            self
        } else {
            self.answered_step(source).0.after_steps(source, (count - 1) as nat)
        }
    }

    /// The first `count` steps of the run, each answered before the next.
    pub open spec fn steps(self, source: Source, count: nat) -> Seq<Step>
        decreases count,
    {
        if count == 0 {
            Seq::empty()
        } else {
            seq![self.answered_step(source).1] + self.answered_step(source).0.steps(
                source,
                (count - 1) as nat,
            )
        }
    }
}

/// The steps that store `songs`, one after the other.
pub open spec fn stores(songs: Seq<ScoreSaberSong>) -> Seq<Step> {
    Seq::new(songs.len(), |i: int| Step::Store(songs[i]))
}

/// The steps of a run from the fetch of page `first` up to the failing fetch of
/// page `failing`: each page before it is fetched and its songs are stored in
/// their order, then page `failing` is asked for, and the run ends with the
/// failure.
pub open spec fn steps_until_failure(source: Source, first: u64, failing: u64) -> Seq<Step>
    decreases failing - first,
{
    if first >= failing {
        seq![Step::Fetch(failing), Step::Finished(Err(source(failing)->Err_0))]
    } else {
        seq![Step::Fetch(first)] + stores(source(first)->Ok_0.songs@) + steps_until_failure(
            source,
            (first + 1) as u64,
            failing,
        )
    }
}

/// The steps of a run from the fetch of page `first` up to page `last`, the
/// last of the listing: each page is fetched and its songs are stored in their
/// order, and after the songs of page `last` the run ends well.
pub open spec fn steps_until_end(source: Source, first: u64, last: u64) -> Seq<Step>
    decreases last - first,
{
    if first >= last {
        seq![Step::Fetch(last)] + stores(source(last)->Ok_0.songs@) + seq![
            Step::Finished(Ok(())),
        ]
    } else {
        seq![Step::Fetch(first)] + stores(source(first)->Ok_0.songs@) + steps_until_end(
            source,
            (first + 1) as u64,
            last,
        )
    }
}

/// Whether `outcome` is a page after which no other is asked for: one that is
/// flagged as the last, or holds no song.
pub open spec fn page_without_more(outcome: Result<RankedSongsPage, Error>) -> bool {
    &&& outcome is Ok
    &&& outcome->Ok_0.last_page || outcome->Ok_0.songs@.len() == 0
}

/// Whether `outcome` is a page that holds a song and is not the last.
pub open spec fn page_with_more(outcome: Result<RankedSongsPage, Error>) -> bool {
    &&& outcome is Ok
    &&& !outcome->Ok_0.last_page
    &&& outcome->Ok_0.songs@.len() > 0
}

/// Steps add up.
proof fn lemma_steps_add(run: Run, source: Source, first: nat, second: nat)
    ensures
        run.after_steps(source, first + second) == run.after_steps(source, first).after_steps(
            source,
            second,
        ),
        run.steps(source, first + second) == run.steps(source, first) + run.after_steps(
            source,
            first,
        ).steps(source, second),
    decreases first,
{
    if first == 0 {
        assert(run.steps(source, first) + run.steps(source, second) =~= run.steps(source, second));
    } else {
        let next = run.answered_step(source).0;
        lemma_steps_add(next, source, (first - 1) as nat, second);
        assert(run.steps(source, first + second) =~= run.steps(source, first) + run.after_steps(
            source,
            first,
        ).steps(source, second));
    }
}

/// While songs are buffered, a run that is not over has them stored, one per
/// step and in their order, and changes in nothing else.
proof fn lemma_buffer_is_stored(run: Run, source: Source)
    requires
        run.result is None,
    ensures
        run.steps(source, run.listing.buffer.len()) == stores(run.listing.buffer),
        run.after_steps(source, run.listing.buffer.len()) == (Run {
            listing: Listing { buffer: Seq::empty(), ..run.listing },
            ..run
        }),
    decreases run.listing.buffer.len(),
{
    let buffer = run.listing.buffer;
    if buffer.len() == 0 {
        assert(buffer =~= Seq::empty());
        assert(stores(buffer) =~= Seq::empty());
    } else {
        let next = run.answered_step(source).0;
        assert(next.listing.buffer == buffer.drop_first());
        lemma_buffer_is_stored(next, source);
        assert(run.steps(source, buffer.len()) =~= stores(buffer));
    }
}

/// From the fetch of page `first` on, a run takes the steps of
/// [`steps_until_failure`] and is then over with the failure.
proof fn lemma_steps_until_failure(run: Run, source: Source, first: u64, failing: u64)
    requires
        run.result is None,
        run.listing.awaits_page(),
        run.listing.next_page == Some(first),
        first <= failing,
        forall|number: u64| first <= number < failing ==> page_with_more(#[trigger] source(number)),
        source(failing) is Err,
    ensures
        run.steps(source, steps_until_failure(source, first, failing).len())
            == steps_until_failure(source, first, failing),
        run.after_steps(source, steps_until_failure(source, first, failing).len()).result == Some(
            Err::<(), Error>(source(failing)->Err_0),
        ),
    decreases failing - first,
{
    let fetched = run.answered_step(source).0;
    if first >= failing {
        let ended = fetched.answered_step(source).0;
        assert(fetched.steps(source, 1) =~= seq![fetched.answered_step(source).1]) by {
            assert(ended.steps(source, 0) =~= Seq::empty());
        }
        assert(run.steps(source, 2) =~= steps_until_failure(source, first, failing));
        assert(fetched.after_steps(source, 1) == ended.after_steps(source, 0));
        assert(run.after_steps(source, 2) == fetched.after_steps(source, 1));
    } else {
        assert(page_with_more(source(first)));
        let songs = source(first)->Ok_0.songs@;
        let stored = fetched.after_steps(source, songs.len());
        let rest = steps_until_failure(source, (first + 1) as u64, failing);
        lemma_buffer_is_stored(fetched, source);
        lemma_steps_until_failure(stored, source, (first + 1) as u64, failing);
        lemma_steps_add(fetched, source, songs.len(), rest.len());
        assert(stores(songs).len() == songs.len());
        assert(steps_until_failure(source, first, failing) =~= seq![Step::Fetch(first)] + (stores(
            songs,
        ) + rest));
        assert(run.steps(source, 1 + songs.len() + rest.len()) =~= seq![Step::Fetch(first)]
            + fetched.steps(source, songs.len() + rest.len()));
    }
}

/// A run that is over gives its result at every step and stays as it is.
proof fn lemma_over_stays_over(run: Run, source: Source, count: nat)
    requires
        run.result is Some,
    ensures
        run.after_steps(source, count) == run,
    decreases count,
{
    if count > 0 {
        lemma_over_stays_over(run, source, (count - 1) as nat);
    }
}

/// A failed fetch ends the run, with everything before it stored and nothing
/// after it.
///
/// Let the fetch of page `failing` fail, every page before it holding songs and
/// not being the last. Then the run from the start takes exactly the steps of
/// [`steps_until_failure`]: the songs of each page before `failing` are stored,
/// in their order, before the next page is asked for; page `failing` is asked
/// for once; and the step after that ends the run with the failure of that
/// fetch. Every later step gives the same result, so that no song is stored
/// after the failure and the playlist is not made.
pub proof fn failed_fetch_aborts_run(source: Source, failing: u64, later: nat)
    requires
        1 <= failing,
        forall|number: u64| 1 <= number < failing ==> page_with_more(#[trigger] source(number)),
        source(failing) is Err,
    ensures
        Run::start().steps(source, steps_until_failure(source, 1, failing).len())
            == steps_until_failure(source, 1, failing),
        Run::start().after_steps(
            source,
            steps_until_failure(source, 1, failing).len() + later,
        ).next_step().1 == Step::Finished(Err(source(failing)->Err_0)),
{
    let length = steps_until_failure(source, 1, failing).len();
    lemma_steps_until_failure(Run::start(), source, 1, failing);
    lemma_steps_add(Run::start(), source, length, later);
    lemma_over_stays_over(Run::start().after_steps(source, length), source, later);
}

/// From the fetch of page `first` on, a run takes the steps of
/// [`steps_until_end`] and is then over, without a failure.
proof fn lemma_steps_until_end(run: Run, source: Source, first: u64, last: u64)
    requires
        run.result is None,
        run.listing.awaits_page(),
        run.listing.next_page == Some(first),
        first <= last,
        forall|number: u64| first <= number < last ==> page_with_more(#[trigger] source(number)),
        page_without_more(source(last)),
    ensures
        run.steps(source, steps_until_end(source, first, last).len()) == steps_until_end(
            source,
            first,
            last,
        ),
        run.after_steps(source, steps_until_end(source, first, last).len()).result == Some(
            Ok::<(), Error>(()),
        ),
    decreases last - first,
{
    let fetched = run.answered_step(source).0;
    let songs = source(first)->Ok_0.songs@;
    let stored = fetched.after_steps(source, songs.len());
    lemma_buffer_is_stored(fetched, source);
    assert(stores(songs).len() == songs.len());
    if first >= last {
        let ended = stored.answered_step(source).0;
        assert(stored.steps(source, 1) =~= seq![Step::Finished(Ok(()))]) by {
            assert(ended.steps(source, 0) =~= Seq::empty());
        }
        assert(stored.after_steps(source, 1) == ended.after_steps(source, 0));
        lemma_steps_add(fetched, source, songs.len(), 1);
        assert(run.steps(source, 1 + songs.len() + 1) =~= seq![Step::Fetch(first)]
            + fetched.steps(source, songs.len() + 1));
        assert(steps_until_end(source, first, last) =~= seq![Step::Fetch(first)] + (stores(songs)
            + seq![Step::Finished(Ok(()))]));
    } else {
        assert(page_with_more(source(first)));
        let rest = steps_until_end(source, (first + 1) as u64, last);
        lemma_steps_until_end(stored, source, (first + 1) as u64, last);
        lemma_steps_add(fetched, source, songs.len(), rest.len());
        assert(steps_until_end(source, first, last) =~= seq![Step::Fetch(first)] + (stores(songs)
            + rest));
        assert(run.steps(source, 1 + songs.len() + rest.len()) =~= seq![Step::Fetch(first)]
            + fetched.steps(source, songs.len() + rest.len()));
    }
}

/// A run through a listing that ends stores every song of it, once and in the
/// order of the listing.
///
/// Let page `last` be the last of the listing, every page before it holding
/// songs and not being the last. Then the run from the start takes exactly the
/// steps of [`steps_until_end`]: each page is asked for once, when the songs of
/// the pages before it are stored, and its songs are stored in their order;
/// after the songs of page `last` the run ends well, and no page is asked for
/// after it. Every later step gives the same result.
pub proof fn complete_listing_is_stored(source: Source, last: u64, later: nat)
    requires
        1 <= last,
        forall|number: u64| 1 <= number < last ==> page_with_more(#[trigger] source(number)),
        page_without_more(source(last)),
    ensures
        Run::start().steps(source, steps_until_end(source, 1, last).len()) == steps_until_end(
            source,
            1,
            last,
        ),
        Run::start().after_steps(
            source,
            steps_until_end(source, 1, last).len() + later,
        ).next_step().1 == Step::Finished(Ok(())),
{
    let length = steps_until_end(source, 1, last).len();
    lemma_steps_until_end(Run::start(), source, 1, last);
    lemma_steps_add(Run::start(), source, length, later);
    lemma_over_stays_over(Run::start().after_steps(source, length), source, later);
}

/// A store that fails, or changes another number of rows than one, ends the
/// run at once: the next step, and every step after it, gives the failure, so
/// that no further song is stored and no page fetched.
pub proof fn failed_store_aborts_run(
    run: Run,
    outcome: Result<usize, Error>,
    source: Source,
    later: nat,
)
    requires
        run.result is None,
        outcome != Ok::<usize, Error>(1),
    ensures
        run.song_stored(outcome).after_steps(source, later).next_step().1 == Step::Finished(
            Err(
                match outcome {
                    Ok(rows) => Error::RowsAffected(rows),
                    Err(error) => error,
                },
            ),
        ),
{
    lemma_over_stays_over(run.song_stored(outcome), source, later);
}

/// The run that brings the songs of the listing into the store.
pub struct Scrape {
    songs: RankedSongs,
    result: Option<Result<(), Error>>,
}

impl View for Scrape {
    type V = Run;

    closed spec fn view(&self) -> Run {
        Run { listing: self.songs@, result: self.result }
    }
}

/// A run over the whole listing, from its first page on.
pub fn scrape_all_songs() -> (run: Scrape)
    ensures
        run@ == Run::start(),
{
    Scrape { songs: get_ranked_songs(), result: None }
}

impl Scrape {
    /// Asks for the next step: see [`Run::next_step`].
    pub fn next_step(&mut self) -> (step: Step)
        ensures
            final(self)@ == old(self)@.next_step().0,
            step == old(self)@.next_step().1,
    {
        match &self.result {
            Some(Ok(done)) => Step::Finished(Ok(*done)),
            Some(Err(error)) => Step::Finished(Err(error.clone())),
            None => {
                match self.songs.next() {
                    Pull::Song(song) => Step::Store(song),
                    Pull::Fetch(number) => Step::Fetch(number),
                    Pull::Failed(error) => {
                        self.result = Some(Err(error.clone()));
                        Step::Finished(Err(error))
                    },
                    Pull::End => {
                        self.result = Some(Ok(()));
                        Step::Finished(Ok(()))
                    },
                }
            },
        }
    }

    /// Hands in the outcome of a fetch: see [`Run::page_fetched`].
    pub fn page_fetched(&mut self, outcome: Result<RankedSongsPage, Error>)
        ensures
            final(self)@ == old(self)@.page_fetched(outcome),
    {
        if self.result.is_none() {
            let _ = self.songs.page_fetched(outcome);
        }
    }

    /// Hands in the outcome of storing a song: the number of rows that the
    /// store changed, or its failure. See [`Run::song_stored`].
    pub fn song_stored(&mut self, outcome: Result<usize, Error>)
        ensures
            final(self)@ == old(self)@.song_stored(outcome),
    {
        if self.result.is_none() {
            match outcome {
                Ok(rows) => {
                    if rows != 1 {
                        self.result = Some(Err(Error::RowsAffected(rows)));
                    }
                },
                Err(error) => {
                    self.result = Some(Err(error));
                },
            }
        }
    }
}

} // verus!
