use ranked_songs::{
    extract_ranked_songs_page, get_ranked_songs, Error, Pull, RankedSongsPage, ScoreSaberSong,
};

fn listed(uid: u64) -> ScoreSaberSong {
    ScoreSaberSong {
        uid,
        id: format!("HASH{}", uid),
        name: format!("Song {}", uid),
        sub_name: "".to_string(),
        song_author: "Author".to_string(),
        level_author: "Mapper".to_string(),
        beats_per_minute: 120,
        difficulty: "_Expert_SoloStandard".to_string(),
        star_difficulty: 5.5f64.to_bits(),
    }
}

fn listed_page(first: u64, count: u64, limit: usize) -> RankedSongsPage {
    extract_ranked_songs_page((first..first + count).map(listed).collect(), limit)
}

#[test]
fn sequence_starts_by_asking_for_page_one() {
    let mut songs = get_ranked_songs();
    assert_eq!(songs.next_page(), Some(1));
    assert_eq!(songs.next(), Pull::Fetch(1));
    assert_eq!(songs.next(), Pull::Fetch(1));
    assert_eq!(songs.next_page(), Some(1));
}

#[test]
fn short_page_ends_the_sequence() {
    let mut songs = get_ranked_songs();
    assert_eq!(songs.next(), Pull::Fetch(1));
    assert!(songs.page_fetched(Ok(listed_page(10, 2, 3))));
    assert_eq!(songs.next_page(), None);
    assert_eq!(songs.next(), Pull::Song(listed(10)));
    assert_eq!(songs.next(), Pull::Song(listed(11)));
    assert_eq!(songs.next(), Pull::End);
    assert_eq!(songs.next(), Pull::End);
    assert_eq!(songs.next_page(), None);
}

#[test]
fn full_page_asks_for_the_next_page() {
    let mut songs = get_ranked_songs();
    assert_eq!(songs.next(), Pull::Fetch(1));
    assert!(songs.page_fetched(Ok(listed_page(10, 3, 3))));
    assert_eq!(songs.next_page(), Some(2));
    assert_eq!(songs.next(), Pull::Song(listed(10)));
    assert_eq!(songs.next(), Pull::Song(listed(11)));
    assert_eq!(songs.next(), Pull::Song(listed(12)));
    assert_eq!(songs.next(), Pull::Fetch(2));
    assert!(songs.page_fetched(Ok(listed_page(13, 3, 3))));
    assert_eq!(songs.next_page(), Some(3));
    assert_eq!(songs.next(), Pull::Song(listed(13)));
}

#[test]
fn longer_page_than_asked_for_is_not_last() {
    let mut songs = get_ranked_songs();
    songs.next();
    assert!(songs.page_fetched(Ok(listed_page(1, 4, 3))));
    assert_eq!(songs.next_page(), Some(2));
    for uid in 1..=4 {
        assert_eq!(songs.next(), Pull::Song(listed(uid)));
    }
    assert_eq!(songs.next(), Pull::Fetch(2));
}

#[test]
fn pages_are_asked_for_lazily() {
    let mut songs = get_ranked_songs();
    songs.next();
    songs.page_fetched(Ok(listed_page(1, 2, 2)));
    assert_eq!(songs.next(), Pull::Song(listed(1)));
    // A page that comes while songs are buffered was not asked for.
    assert!(!songs.page_fetched(Ok(listed_page(50, 2, 2))));
    assert_eq!(songs.next_page(), Some(2));
    assert_eq!(songs.next(), Pull::Song(listed(2)));
    assert_eq!(songs.next(), Pull::Fetch(2));
}

#[test]
fn empty_page_ends_the_sequence() {
    let mut songs = get_ranked_songs();
    songs.next();
    songs.page_fetched(Ok(listed_page(1, 2, 2)));
    songs.next();
    songs.next();
    assert_eq!(songs.next(), Pull::Fetch(2));
    assert!(songs.page_fetched(Ok(listed_page(3, 0, 2))));
    assert_eq!(songs.next_page(), None);
    assert_eq!(songs.next(), Pull::End);
}

#[test]
fn empty_page_ends_the_sequence_even_if_not_flagged_last() {
    let mut songs = get_ranked_songs();
    songs.next();
    let page = extract_ranked_songs_page(vec![], 0);
    assert_eq!(page.last_page, false);
    assert!(songs.page_fetched(Ok(page)));
    assert_eq!(songs.next_page(), None);
    assert_eq!(songs.next(), Pull::End);
}

#[test]
fn failed_fetch_is_given_once_and_ends_the_sequence() {
    let mut songs = get_ranked_songs();
    songs.next();
    songs.page_fetched(Ok(listed_page(1, 2, 2)));
    songs.next();
    songs.next();
    assert_eq!(songs.next(), Pull::Fetch(2));
    assert!(songs.page_fetched(Err(Error::Status(503))));
    assert_eq!(songs.next_page(), Some(2));
    assert_eq!(songs.next(), Pull::Failed(Error::Status(503)));
    assert_eq!(songs.next(), Pull::End);
    assert_eq!(songs.next(), Pull::End);
    assert_eq!(songs.next_page(), Some(2));
    // The sequence has ended: it takes no further page.
    assert!(!songs.page_fetched(Ok(listed_page(3, 2, 2))));
    assert_eq!(songs.next(), Pull::End);
}

#[test]
fn failure_before_it_is_pulled_blocks_further_pages() {
    let mut songs = get_ranked_songs();
    songs.next();
    assert!(songs.page_fetched(Err(Error::Decode("expected value".to_string()))));
    assert!(!songs.page_fetched(Ok(listed_page(1, 1, 2))));
    assert_eq!(songs.next(), Pull::Failed(Error::Decode("expected value".to_string())));
    assert_eq!(songs.next(), Pull::End);
}

#[test]
fn page_flag_decides_even_against_length() {
    let mut songs = get_ranked_songs();
    songs.next();
    let page = RankedSongsPage { songs: vec![listed(1), listed(2)], last_page: true };
    assert!(songs.page_fetched(Ok(page)));
    assert_eq!(songs.next_page(), None);
    assert_eq!(songs.next(), Pull::Song(listed(1)));
    assert_eq!(songs.next(), Pull::Song(listed(2)));
    assert_eq!(songs.next(), Pull::End);
}

#[test]
fn all_pages_come_out_as_one_sequence() {
    let mut songs = get_ranked_songs();
    let mut got = Vec::new();
    let mut asked = Vec::new();
    loop {
        match songs.next() {
            Pull::Song(song) => got.push(song.uid),
            Pull::Fetch(page) => {
                asked.push(page);
                let count = if page < 4 { 3 } else { 1 };
                songs.page_fetched(Ok(listed_page((page - 1) * 3, count, 3)));
            }
            Pull::Failed(error) => panic!("no fetch failed, yet: {:?}", error),
            Pull::End => break,
        }
    }
    assert_eq!(asked, vec![1, 2, 3, 4]);
    assert_eq!(got, (0..10).collect::<Vec<u64>>());
}
