//! Harvesting of a catalog of ranked songs, and the playlist made of it.
//!
//! The crate holds the decisions of a catalog scraper: how a paged remote
//! listing is walked ([`fetch`]) and brought into a store ([`scrape`]), how a
//! page is asked for and its answer judged ([`request`], [`page`]), how records
//! are kept ([`catalog`]) and how the ranked playlist is derived from them
//! ([`playlist`]). Sending requests and touching files or databases is left to
//! the caller, which performs the steps that the state machines ask for.
pub mod catalog;
pub mod error;
pub mod fetch;
pub mod page;
pub mod playlist;
pub mod request;
pub mod scrape;
pub mod song;

pub use catalog::{insert_song_into_db, Catalog};
pub use error::{Error, ErrorKind};
pub use fetch::{get_ranked_songs, Listing, Pull, RankedSongs};
pub use page::{extract_ranked_songs_page, RankedSongsPage};
pub use playlist::{make_beatsaber_playlist, BeatSaberPlaylistSong, BeatsaberPlaylist};
pub use request::{check_status, decimal_text, page_query, ranked_songs_url, url_or_error};
pub use scrape::{scrape_all_songs, Run, Scrape, Step};
pub use song::{star_rank, ScoreSaberSong};
