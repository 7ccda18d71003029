use ranked_songs::playlist::{PLAYLIST_AUTHOR, PLAYLIST_DESCRIPTION, PLAYLIST_TITLE};
use ranked_songs::{
    insert_song_into_db, make_beatsaber_playlist, BeatSaberPlaylistSong, Catalog, ScoreSaberSong,
};

fn ranked(uid: u64, id: &str, name: &str, author: &str, bpm: u64, stars: f64) -> ScoreSaberSong {
    ScoreSaberSong {
        uid,
        id: id.to_string(),
        name: name.to_string(),
        sub_name: "".to_string(),
        song_author: author.to_string(),
        level_author: "Hexagonial".to_string(),
        beats_per_minute: bpm,
        difficulty: "_ExpertPlus_SoloStandard".to_string(),
        star_difficulty: stars.to_bits(),
    }
}

fn fixture() -> [ScoreSaberSong; 4] {
    [
        ranked(
            101208,
            "7719B8DE597CB1BFDFD6048E5FC51656DD5219EE",
            "Happppy song -- other difficulty that does not really exist just for the test",
            "SOOOO",
            226,
            1.0,
        ),
        ranked(101208, "7719B8DE597CB1BFDFD6048E5FC51656DD5219EE", "Happppy song", "SOOOO", 226, 9.72),
        ranked(
            109086,
            "CFCA2FE00BCC418DC9ECF64D92FC01CEEC52C375",
            "Milk Crown on Sonnetica",
            "nameless",
            255,
            10.08,
        ),
        ranked(100024, "762B7BF1C06DBCC7AAB23D955A553E5420FBA6E5", "NUCLEAR-STAR", "Camellia", 199, 9.38),
    ]
}

fn stars_of(song: &ScoreSaberSong) -> f64 {
    f64::from_bits(song.star_difficulty)
}

fn entry(name: &str, hash: &str) -> BeatSaberPlaylistSong {
    BeatSaberPlaylistSong { name: name.to_string(), hash: hash.to_string() }
}

fn catalog_of(songs: &[ScoreSaberSong]) -> Catalog {
    let mut db = Catalog::new();
    for song in songs {
        insert_song_into_db(&mut db, song);
    }
    db
}

#[test]
fn test_into_database_to_playlist() {
    let songs = fixture();
    let mut db = Catalog::new();
    for song in songs.iter() {
        insert_song_into_db(&mut db, song);
    }
    let playlist = make_beatsaber_playlist(&db);
    // Remove first song because it is lower difficulty duplicate of second.
    let mut expected_songs = songs[1..].to_owned();
    expected_songs.sort_by(|x, y| stars_of(y).partial_cmp(&stars_of(x)).unwrap());
    let expected_playlist = expected_songs
        .iter()
        .map(|x| BeatSaberPlaylistSong { name: x.name.clone(), hash: x.id.clone() })
        .collect::<Vec<BeatSaberPlaylistSong>>();
    assert_eq!(playlist.songs, expected_playlist);
}

#[test]
fn playlist_carries_the_fixed_texts() {
    let playlist = make_beatsaber_playlist(&Catalog::new());
    assert_eq!(playlist.title, "Ranked Songs");
    assert_eq!(playlist.author, "Valentin (e00E)");
    assert_eq!(
        playlist.description,
        "Contains all songs that are ranked on Score Saber ordered by star difficulty (roughly equivalent to maximum PP) in descending order."
    );
    assert_eq!(playlist.title, PLAYLIST_TITLE);
    assert_eq!(playlist.author, PLAYLIST_AUTHOR);
    assert_eq!(playlist.description, PLAYLIST_DESCRIPTION);
    assert!(playlist.songs.is_empty());
}

#[test]
fn song_is_named_by_its_highest_rated_record() {
    let db = catalog_of(&[
        ranked(1, "K", "name at 1.0", "a", 100, 1.0),
        ranked(2, "K", "name at 9.72", "a", 100, 9.72),
    ]);
    assert_eq!(make_beatsaber_playlist(&db).songs, vec![entry("name at 9.72", "K")]);
    // The order of the records does not matter.
    let db = catalog_of(&[
        ranked(2, "K", "name at 9.72", "a", 100, 9.72),
        ranked(1, "K", "name at 1.0", "a", 100, 1.0),
    ]);
    assert_eq!(make_beatsaber_playlist(&db).songs, vec![entry("name at 9.72", "K")]);
}

#[test]
fn songs_are_ordered_by_rating_descending() {
    let db = catalog_of(&[
        ranked(1, "A", "9.38", "a", 100, 9.38),
        ranked(2, "B", "9.72", "a", 100, 9.72),
        ranked(3, "C", "10.08", "a", 100, 10.08),
    ]);
    assert_eq!(
        make_beatsaber_playlist(&db).songs,
        vec![entry("10.08", "C"), entry("9.72", "B"), entry("9.38", "A")]
    );
    let db = catalog_of(&[
        ranked(2, "B", "9.72", "a", 100, 9.72),
        ranked(3, "C", "10.08", "a", 100, 10.08),
        ranked(1, "A", "9.38", "a", 100, 9.38),
    ]);
    assert_eq!(
        make_beatsaber_playlist(&db).songs,
        vec![entry("10.08", "C"), entry("9.72", "B"), entry("9.38", "A")]
    );
}

#[test]
fn song_stands_by_its_highest_rating_among_other_songs() {
    let db = catalog_of(&[
        ranked(1, "A", "A easy", "a", 100, 2.0),
        ranked(2, "B", "B hard", "a", 100, 5.0),
        ranked(3, "A", "A expert", "a", 100, 8.0),
        ranked(4, "C", "C only", "a", 100, 6.5),
        ranked(5, "B", "B easy", "a", 100, 1.0),
        ranked(6, "A", "A hard", "a", 100, 4.0),
    ]);
    assert_eq!(
        make_beatsaber_playlist(&db).songs,
        vec![entry("A expert", "A"), entry("C only", "C"), entry("B hard", "B")]
    );
}

#[test]
fn equal_ratings_go_to_the_earlier_record() {
    let db = catalog_of(&[
        ranked(1, "A", "A first", "a", 100, 7.0),
        ranked(2, "B", "B first", "a", 100, 7.0),
        ranked(3, "A", "A second", "a", 100, 7.0),
        ranked(4, "B", "B second", "a", 100, 7.0),
    ]);
    assert_eq!(
        make_beatsaber_playlist(&db).songs,
        vec![entry("A first", "A"), entry("B first", "B")]
    );
}

#[test]
fn equal_ratings_order_songs_by_the_record_that_reached_them_first() {
    let db = catalog_of(&[
        ranked(1, "A", "A low", "a", 100, 3.0),
        ranked(2, "B", "B top", "a", 100, 7.0),
        ranked(3, "A", "A top", "a", 100, 7.0),
    ]);
    assert_eq!(
        make_beatsaber_playlist(&db).songs,
        vec![entry("B top", "B"), entry("A top", "A")]
    );
}

#[test]
fn negative_and_zero_ratings_are_ordered_as_numbers() {
    let db = catalog_of(&[
        ranked(1, "A", "minus two", "a", 100, -2.0),
        ranked(2, "B", "zero", "a", 100, 0.0),
        ranked(3, "C", "minus one", "a", 100, -1.0),
        ranked(4, "D", "half", "a", 100, 0.5),
        ranked(5, "E", "minus zero", "a", 100, -0.0),
    ]);
    assert_eq!(
        make_beatsaber_playlist(&db).songs,
        vec![
            entry("half", "D"),
            entry("zero", "B"),
            entry("minus zero", "E"),
            entry("minus one", "C"),
            entry("minus two", "A")
        ]
    );
}

#[test]
fn playlist_is_made_anew_from_the_current_records() {
    let mut db = catalog_of(&[
        ranked(1, "A", "A", "a", 100, 3.0),
        ranked(2, "B", "B", "a", 100, 5.0),
    ]);
    assert_eq!(make_beatsaber_playlist(&db).songs, vec![entry("B", "B"), entry("A", "A")]);
    insert_song_into_db(&mut db, &ranked(1, "A", "A rerated", "a", 100, 8.0));
    assert_eq!(make_beatsaber_playlist(&db).songs, vec![entry("A rerated", "A"), entry("B", "B")]);
    insert_song_into_db(&mut db, &ranked(2, "C", "B became C", "a", 100, 9.0));
    assert_eq!(
        make_beatsaber_playlist(&db).songs,
        vec![entry("B became C", "C"), entry("A rerated", "A")]
    );
}

#[test]
fn playlist_has_one_entry_for_each_hash() {
    let mut songs = Vec::new();
    for uid in 0..60u64 {
        songs.push(ranked(uid, &format!("H{}", uid % 7), &format!("n{}", uid), "a", 100, (uid * 37 % 23) as f64));
    }
    let playlist = make_beatsaber_playlist(&catalog_of(&songs));
    assert_eq!(playlist.songs.len(), 7);
    let mut best = Vec::new();
    for entry in &playlist.songs {
        let top = songs
            .iter()
            .filter(|song| song.id == entry.hash)
            .map(stars_of)
            .fold(f64::MIN, f64::max);
        let first = songs
            .iter()
            .find(|song| song.id == entry.hash && stars_of(song) == top)
            .unwrap();
        assert_eq!(entry.name, first.name);
        best.push(top);
    }
    for pair in best.windows(2) {
        assert!(pair[0] >= pair[1]);
    }
    let mut hashes: Vec<&String> = playlist.songs.iter().map(|entry| &entry.hash).collect();
    hashes.sort();
    hashes.dedup();
    assert_eq!(hashes.len(), 7);
}
