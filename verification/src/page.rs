//! One page of the remote listing.
use crate::song::ScoreSaberSong;
use vstd::prelude::*;

verus! {

/// The songs of one page, in the order the service gave them, and whether the
/// page is the last of the listing.
#[derive(Debug, PartialEq)]
pub struct RankedSongsPage {
    pub songs: Vec<ScoreSaberSong>,
    pub last_page: bool,
}

/// Makes the page out of the songs decoded from one answer.
///
/// A page is the last one exactly when it holds fewer songs than were asked for:
/// the service gives no other sign.
pub fn extract_ranked_songs_page(songs: Vec<ScoreSaberSong>, limit: usize) -> (page:
    RankedSongsPage)
    ensures
        page.songs@ == songs@,
        page.last_page == (songs@.len() < limit),
{
    let last = songs.len() < limit;
    RankedSongsPage { songs, last_page: last }
}

} // verus!
