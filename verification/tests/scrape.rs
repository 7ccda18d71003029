use ranked_songs::{
    extract_ranked_songs_page, insert_song_into_db, make_beatsaber_playlist, scrape_all_songs,
    Catalog, Error, RankedSongsPage, ScoreSaberSong, Step,
};

fn scraped(uid: u64) -> ScoreSaberSong {
    ScoreSaberSong {
        uid,
        id: format!("HASH{}", uid / 2),
        name: format!("Song {}", uid),
        sub_name: "".to_string(),
        song_author: "Author".to_string(),
        level_author: "Mapper".to_string(),
        beats_per_minute: 120,
        difficulty: "_Expert_SoloStandard".to_string(),
        star_difficulty: (uid as f64).to_bits(),
    }
}

fn scraped_page(first: u64, count: u64, limit: usize) -> RankedSongsPage {
    extract_ranked_songs_page((first..first + count).map(scraped).collect(), limit)
}

/// Runs a scrape against pages given by `source` and an in-memory store, and
/// gives the steps taken, the store and the result.
fn run_scrape(
    source: &dyn Fn(u64) -> Result<RankedSongsPage, Error>,
    rows_changed: &dyn Fn(&ScoreSaberSong) -> Result<usize, Error>,
) -> (Vec<String>, Catalog, Result<(), Error>) {
    let mut run = scrape_all_songs();
    let mut db = Catalog::new();
    let mut steps = Vec::new();
    loop {
        match run.next_step() {
            Step::Fetch(page) => {
                steps.push(format!("fetch {}", page));
                run.page_fetched(source(page));
            }
            Step::Store(song) => {
                steps.push(format!("store {}", song.uid));
                let outcome = rows_changed(&song);
                if outcome.is_ok() {
                    insert_song_into_db(&mut db, &song);
                }
                run.song_stored(outcome);
            }
            Step::Finished(result) => {
                assert_eq!(run.next_step(), Step::Finished(result.clone()));
                return (steps, db, result);
            }
        }
    }
}

#[test]
fn run_stores_every_song_of_every_page() {
    let (steps, db, result) = run_scrape(
        &|page| Ok(scraped_page((page - 1) * 2, if page < 3 { 2 } else { 1 }, 2)),
        &|_| Ok(1),
    );
    assert_eq!(result, Ok(()));
    assert_eq!(
        steps,
        vec!["fetch 1", "store 0", "store 1", "fetch 2", "store 2", "store 3", "fetch 3", "store 4"]
    );
    assert_eq!(db.songs(), &(0..5).map(scraped).collect::<Vec<ScoreSaberSong>>());
    let playlist = make_beatsaber_playlist(&db);
    assert_eq!(
        playlist.songs.iter().map(|song| song.name.as_str()).collect::<Vec<&str>>(),
        vec!["Song 4", "Song 3", "Song 1"]
    );
}

#[test]
fn failed_fetch_aborts_the_run() {
    let (steps, db, result) = run_scrape(
        &|page| {
            if page < 3 {
                Ok(scraped_page((page - 1) * 2, 2, 2))
            } else {
                Err(Error::Transport("connection reset".to_string()))
            }
        },
        &|_| Ok(1),
    );
    assert_eq!(result, Err(Error::Transport("connection reset".to_string())));
    assert_eq!(
        steps,
        vec!["fetch 1", "store 0", "store 1", "fetch 2", "store 2", "store 3", "fetch 3"]
    );
    assert_eq!(db.songs(), &(0..4).map(scraped).collect::<Vec<ScoreSaberSong>>());
}

#[test]
fn failed_first_fetch_stores_nothing() {
    let (steps, db, result) =
        run_scrape(&|_| Err(Error::Decode("expected value at line 1".to_string())), &|_| Ok(1));
    assert_eq!(result, Err(Error::Decode("expected value at line 1".to_string())));
    assert_eq!(steps, vec!["fetch 1"]);
    assert_eq!(db.len(), 0);
}

#[test]
fn bad_status_aborts_the_run() {
    let (steps, _, result) = run_scrape(
        &|page| {
            ranked_songs::check_status(if page == 1 { 200 } else { 502 })?;
            Ok(scraped_page(0, 2, 2))
        },
        &|_| Ok(1),
    );
    assert_eq!(result, Err(Error::Status(502)));
    assert_eq!(steps, vec!["fetch 1", "store 0", "store 1", "fetch 2"]);
}

#[test]
fn store_failure_aborts_the_run() {
    let (steps, db, result) = run_scrape(&|_| Ok(scraped_page(0, 3, 3)), &|song| {
        if song.uid == 1 {
            Err(Error::Storage("database is locked".to_string()))
        } else {
            Ok(1)
        }
    });
    assert_eq!(result, Err(Error::Storage("database is locked".to_string())));
    assert_eq!(steps, vec!["fetch 1", "store 0", "store 1"]);
    assert_eq!(db.songs(), &vec![scraped(0)]);
}

#[test]
fn unexpected_row_count_aborts_the_run() {
    for rows in [0usize, 2, 17] {
        let mut run = scrape_all_songs();
        assert_eq!(run.next_step(), Step::Fetch(1));
        run.page_fetched(Ok(scraped_page(0, 2, 5)));
        assert_eq!(run.next_step(), Step::Store(scraped(0)));
        run.song_stored(Ok(rows));
        assert_eq!(run.next_step(), Step::Finished(Err(Error::RowsAffected(rows))));
        assert_eq!(run.next_step(), Step::Finished(Err(Error::RowsAffected(rows))));
    }
}

#[test]
fn one_changed_row_lets_the_run_go_on() {
    let mut run = scrape_all_songs();
    assert_eq!(run.next_step(), Step::Fetch(1));
    run.page_fetched(Ok(scraped_page(0, 2, 5)));
    assert_eq!(run.next_step(), Step::Store(scraped(0)));
    run.song_stored(Ok(1));
    assert_eq!(run.next_step(), Step::Store(scraped(1)));
    run.song_stored(Ok(1));
    assert_eq!(run.next_step(), Step::Finished(Ok(())));
    assert_eq!(run.next_step(), Step::Finished(Ok(())));
}

#[test]
fn finished_run_drops_what_is_handed_in() {
    let mut run = scrape_all_songs();
    run.next_step();
    run.page_fetched(Err(Error::Status(500)));
    assert_eq!(run.next_step(), Step::Finished(Err(Error::Status(500))));
    run.page_fetched(Ok(scraped_page(0, 2, 5)));
    run.song_stored(Err(Error::Storage("late".to_string())));
    assert_eq!(run.next_step(), Step::Finished(Err(Error::Status(500))));

    let mut run = scrape_all_songs();
    run.next_step();
    run.page_fetched(Ok(scraped_page(0, 0, 5)));
    assert_eq!(run.next_step(), Step::Finished(Ok(())));
    run.song_stored(Ok(3));
    assert_eq!(run.next_step(), Step::Finished(Ok(())));
}

#[test]
fn store_failure_wins_over_a_page_handed_in_later() {
    let mut run = scrape_all_songs();
    run.next_step();
    run.page_fetched(Ok(scraped_page(0, 1, 1)));
    assert_eq!(run.next_step(), Step::Store(scraped(0)));
    run.song_stored(Ok(0));
    run.page_fetched(Ok(scraped_page(1, 1, 1)));
    assert_eq!(run.next_step(), Step::Finished(Err(Error::RowsAffected(0))));
}
