//! The playlist: every song of the catalog once, the highest rated first.
//!
//! A song has one record for each of its difficulties, all with the same hash.
//! The playlist names each song once, by the record of its highest rating, and
//! orders the songs by that rating. Where ratings are equal the record that
//! stands first in the catalog counts as the higher.
use crate::catalog::Catalog;
use crate::song::{rank_of, star_rank, ScoreSaberSong};
use vstd::prelude::*;

verus! {

/// The title of the playlist.
pub const PLAYLIST_TITLE: &'static str = "Ranked Songs";

/// The author named in the playlist.
pub const PLAYLIST_AUTHOR: &'static str = "Valentin (e00E)";

/// The description of the playlist.
pub const PLAYLIST_DESCRIPTION: &'static str =
    "Contains all songs that are ranked on Score Saber ordered by star difficulty (roughly equivalent to maximum PP) in descending order.";

/// One song of the playlist.
#[derive(Clone, Debug, PartialEq)]
pub struct BeatSaberPlaylistSong {
    pub name: String,
    pub hash: String,
}

/// The playlist as it is exported.
#[derive(Clone, Debug, PartialEq)]
pub struct BeatsaberPlaylist {
    pub title: String,
    pub author: String,
    pub description: String,
    pub songs: Vec<BeatSaberPlaylistSong>,
}

/// The rank of the rating of row `i`.
pub open spec fn rating(rows: Seq<ScoreSaberSong>, i: int) -> int {
    rank_of(rows[i].star_difficulty)
}

/// Whether row `i` stands before row `j` in the playlist's order: its rating is
/// higher, or it is equal and `i` is the earlier row.
pub open spec fn outranks(rows: Seq<ScoreSaberSong>, i: int, j: int) -> bool {
    rating(rows, i) > rating(rows, j) || (rating(rows, i) == rating(rows, j) && i < j)
}

/// The row that stands for the song of `hash`: the one of the highest rating
/// among the rows of that hash, and the earliest of these. It is -1 if no row
/// has the hash.
///
/// Going through the rows in their order, a row takes over from an earlier one
/// of its hash only with a strictly higher rating.
pub open spec fn best_of(rows: Seq<ScoreSaberSong>, hash: Seq<char>) -> int
    decreases rows.len(),
{
    if rows.len() == 0 {
        -1
    } else {
        let earlier = best_of(rows.drop_last(), hash);
        let last = rows.len() - 1;
        if rows[last].id@ == hash && (earlier < 0 || rating(rows, last) > rating(rows, earlier)) {
            last
        } else {
            earlier
        }
    }
}

/// Whether one of `songs` is the entry of the song of `hash`.
pub open spec fn lists_hash(songs: Seq<BeatSaberPlaylistSong>, hash: Seq<char>) -> bool {
    exists|k: int| 0 <= k < songs.len() && (#[trigger] songs[k]).hash@ == hash
}

/// Whether `songs` is the playlist of `rows`: each entry carries the name of
/// the row that stands for its hash, every row's hash has an entry, and the
/// entries stand in the order of the rows they stand for. No hash has two
/// entries, since no row outranks itself.
pub open spec fn is_playlist_of(
    rows: Seq<ScoreSaberSong>,
    songs: Seq<BeatSaberPlaylistSong>,
) -> bool {
    &&& forall|k: int|
        0 <= k < songs.len() ==> 0 <= best_of(rows, (#[trigger] songs[k]).hash@) < rows.len()
            && songs[k].name@ == rows[best_of(rows, songs[k].hash@)].name@
    &&& forall|i: int| 0 <= i < rows.len() ==> lists_hash(songs, (#[trigger] rows[i]).id@)
    &&& forall|a: int, b: int|
        0 <= a < b < songs.len() ==> outranks(
            rows,
            best_of(rows, (#[trigger] songs[a]).hash@),
            best_of(rows, (#[trigger] songs[b]).hash@),
        )
}

/// The row that stands for a hash has that hash, if any row has it.
proof fn lemma_best_of_in_rows(rows: Seq<ScoreSaberSong>, hash: Seq<char>)
    ensures
        -1 <= best_of(rows, hash) < rows.len(),
        best_of(rows, hash) >= 0 ==> rows[best_of(rows, hash)].id@ == hash,
        best_of(rows, hash) < 0 ==> forall|j: int|
            0 <= j < rows.len() ==> (#[trigger] rows[j]).id@ != hash,
    decreases rows.len(),
{
    if rows.len() > 0 {
        let shorter = rows.drop_last();
        lemma_best_of_in_rows(shorter, hash);
        if best_of(rows, hash) < 0 {
            assert forall|j: int| 0 <= j < rows.len() implies (#[trigger] rows[j]).id@ != hash by {
                if j < shorter.len() {
                    assert(shorter[j].id@ != hash);
                }
            }
        }
    }
}

/// The row that stands for a hash is the highest rated of that hash, and the
/// earliest of the highest rated: it is outranked by no other row of the hash.
pub proof fn best_of_is_highest_rated(rows: Seq<ScoreSaberSong>, hash: Seq<char>, other: int)
    requires
        0 <= other < rows.len(),
        rows[other].id@ == hash,
    ensures
        0 <= best_of(rows, hash) < rows.len(),
        rows[best_of(rows, hash)].id@ == hash,
        best_of(rows, hash) == other || outranks(rows, best_of(rows, hash), other),
    decreases rows.len(),
{
    let shorter = rows.drop_last();
    let last = rows.len() - 1;
    lemma_best_of_in_rows(rows, hash);
    lemma_best_of_in_rows(shorter, hash);
    if other < last {
        best_of_is_highest_rated(shorter, hash, other);
        assert(shorter[other] == rows[other]);
        assert(shorter[best_of(shorter, hash)] == rows[best_of(shorter, hash)]);
    }
}

/// The playlist names each song once: no two entries have the same hash.
pub proof fn playlist_names_each_song_once(
    rows: Seq<ScoreSaberSong>,
    songs: Seq<BeatSaberPlaylistSong>,
    a: int,
    b: int,
)
    requires
        is_playlist_of(rows, songs),
        0 <= a < songs.len(),
        0 <= b < songs.len(),
        a != b,
    ensures
        songs[a].hash@ != songs[b].hash@,
{
    if a < b {
        assert(outranks(rows, best_of(rows, songs[a].hash@), best_of(rows, songs[b].hash@)));
    } else {
        assert(outranks(rows, best_of(rows, songs[b].hash@), best_of(rows, songs[a].hash@)));
    }
}

/// Two playlists of the same rows agree up to `count`, if both are that long:
/// entry by entry they stand for the same row.
proof fn lemma_playlists_agree(
    rows: Seq<ScoreSaberSong>,
    first: Seq<BeatSaberPlaylistSong>,
    second: Seq<BeatSaberPlaylistSong>,
    count: int,
)
    requires
        is_playlist_of(rows, first),
        is_playlist_of(rows, second),
        0 <= count <= first.len(),
        count <= second.len(),
    ensures
        forall|k: int|
            0 <= k < count ==> best_of(rows, (#[trigger] first[k]).hash@) == best_of(
                rows,
                second[k].hash@,
            ),
    decreases count,
{
    if count > 0 {
        let at = count - 1;
        lemma_playlists_agree(rows, first, second, at);
        let left = best_of(rows, first[at].hash@);
        let right = best_of(rows, second[at].hash@);
        lemma_best_of_in_rows(rows, first[at].hash@);
        lemma_best_of_in_rows(rows, second[at].hash@);
        if left != right {
            if outranks(rows, left, right) {
                lemma_entry_is_not_earlier(rows, second, first, at);
            } else {
                lemma_entry_is_not_earlier(rows, first, second, at);
            }
        }
    }
}

/// Where two playlists of the same rows agree before `at`, the entry at `at`
/// of the one does not stand for a row that outranks the row of the other's:
/// the other would have to name that row's song before `at`, where it names
/// what the first names, or after, where only outranked rows stand.
proof fn lemma_entry_is_not_earlier(
    rows: Seq<ScoreSaberSong>,
    songs: Seq<BeatSaberPlaylistSong>,
    other: Seq<BeatSaberPlaylistSong>,
    at: int,
)
    requires
        is_playlist_of(rows, songs),
        is_playlist_of(rows, other),
        0 <= at < songs.len(),
        at < other.len(),
        forall|k: int|
            0 <= k < at ==> best_of(rows, (#[trigger] other[k]).hash@) == best_of(
                rows,
                songs[k].hash@,
            ) || best_of(rows, (#[trigger] songs[k]).hash@) == best_of(rows, other[k].hash@),
        best_of(rows, other[at].hash@) != best_of(rows, songs[at].hash@),
    ensures
        !outranks(rows, best_of(rows, other[at].hash@), best_of(rows, songs[at].hash@)),
{
    let row = best_of(rows, other[at].hash@);
    lemma_best_of_in_rows(rows, other[at].hash@);
    if outranks(rows, row, best_of(rows, songs[at].hash@)) {
        assert(lists_hash(songs, rows[row].id@));
        let found = choose|k: int|
            0 <= k < songs.len() && (#[trigger] songs[k]).hash@ == rows[row].id@;
        assert(best_of(rows, songs[found].hash@) == row);
        if found < at {
            assert(best_of(rows, other[found].hash@) == row);
            assert(outranks(
                rows,
                best_of(rows, other[found].hash@),
                best_of(rows, other[at].hash@),
            ));
        } else if found > at {
            assert(outranks(
                rows,
                best_of(rows, songs[at].hash@),
                best_of(rows, songs[found].hash@),
            ));
        }
    }
}

/// The rows have one playlist and no other: two that both are playlists of the
/// same rows have the same entries in the same order.
pub proof fn playlist_is_unique(
    rows: Seq<ScoreSaberSong>,
    first: Seq<BeatSaberPlaylistSong>,
    second: Seq<BeatSaberPlaylistSong>,
)
    requires
        is_playlist_of(rows, first),
        is_playlist_of(rows, second),
    ensures
        first.len() == second.len(),
        forall|k: int|
            0 <= k < first.len() ==> (#[trigger] first[k]).hash@ == second[k].hash@
                && first[k].name@ == second[k].name@,
{
    let shorter = if first.len() <= second.len() {
        first.len() as int
    } else {
        second.len() as int
    };
    lemma_playlists_agree(rows, first, second, shorter);
    if first.len() <= second.len() {
        lemma_no_entry_beyond(rows, first, second);
    } else {
        lemma_playlists_agree(rows, second, first, shorter);
        lemma_no_entry_beyond(rows, second, first);
    }
    assert forall|k: int| 0 <= k < first.len() implies (#[trigger] first[k]).hash@
        == second[k].hash@ && first[k].name@ == second[k].name@ by {
        lemma_best_of_in_rows(rows, first[k].hash@);
        lemma_best_of_in_rows(rows, second[k].hash@);
    }
}

/// A playlist has no entry beyond the length of another of the same rows with
/// which it agrees as far as that one goes: the song of such an entry would be
/// named twice.
proof fn lemma_no_entry_beyond(
    rows: Seq<ScoreSaberSong>,
    songs: Seq<BeatSaberPlaylistSong>,
    longer: Seq<BeatSaberPlaylistSong>,
)
    requires
        is_playlist_of(rows, songs),
        is_playlist_of(rows, longer),
        songs.len() <= longer.len(),
        forall|k: int|
            0 <= k < songs.len() ==> best_of(rows, (#[trigger] songs[k]).hash@) == best_of(
                rows,
                longer[k].hash@,
            ),
    ensures
        songs.len() == longer.len(),
{
    if songs.len() < longer.len() {
        let beyond = songs.len() as int;
        let row = best_of(rows, longer[beyond].hash@);
        lemma_best_of_in_rows(rows, longer[beyond].hash@);
        assert(lists_hash(songs, rows[row].id@));
        let found = choose|k: int|
            0 <= k < songs.len() && (#[trigger] songs[k]).hash@ == rows[row].id@;
        assert(best_of(rows, longer[found].hash@) == row);
        assert(outranks(
            rows,
            best_of(rows, longer[found].hash@),
            best_of(rows, longer[beyond].hash@),
        ));
    }
}

/// What one more row changes: it stands for its hash if it is the first of it
/// or rated strictly higher than the row that stood for it, and changes nothing
/// for another hash.
proof fn lemma_best_of_next(rows: Seq<ScoreSaberSong>, count: int, hash: Seq<char>)
    requires
        0 <= count < rows.len(),
    ensures
        -1 <= best_of(rows.take(count), hash) < count,
        best_of(rows.take(count + 1), hash) == if rows[count].id@ == hash && (best_of(
            rows.take(count),
            hash,
        ) < 0 || rating(rows, count) > rating(rows, best_of(rows.take(count), hash))) {
            count
        } else {
            best_of(rows.take(count), hash)
        },
{
    let longer = rows.take(count + 1);
    assert(longer.drop_last() =~= rows.take(count));
    lemma_best_of_in_rows(rows.take(count), hash);
    let earlier = best_of(rows.take(count), hash);
    if earlier >= 0 {
        assert(longer[earlier] == rows[earlier]);
    }
    assert(longer[count] == rows[count]);
}

/// Standing before another row in the playlist's order carries over.
proof fn lemma_outranks_carries(rows: Seq<ScoreSaberSong>, i: int, j: int, k: int)
    requires
        outranks(rows, i, j),
        outranks(rows, j, k),
    ensures
        outranks(rows, i, k),
{
}

/// Whether each of `picks` is a row before `count` that stands, among the
/// first `count` rows, for its hash.
spec fn picks_stand(rows: Seq<ScoreSaberSong>, picks: Seq<usize>, count: int) -> bool {
    forall|m: int|
        0 <= m < picks.len() ==> 0 <= (#[trigger] picks[m]) < count && best_of(
            rows.take(count),
            rows[picks[m] as int].id@,
        ) == picks[m]
}

/// Whether the hash of each of the first `count` rows is that of one of
/// `picks`.
spec fn picks_cover(rows: Seq<ScoreSaberSong>, picks: Seq<usize>, count: int) -> bool {
    forall|j: int|
        0 <= j < count ==> exists|m: int|
            0 <= m < picks.len() && rows[(#[trigger] picks[m]) as int].id@ == (
            #[trigger] rows[j]).id@
}

/// Whether no two of `picks` are rows of one hash.
spec fn picks_differ(rows: Seq<ScoreSaberSong>, picks: Seq<usize>) -> bool {
    forall|a: int, b: int|
        0 <= a < b < picks.len() ==> rows[(#[trigger] picks[a]) as int].id@ != rows[(
        #[trigger] picks[b]) as int].id@
}

/// Whether `row` is one of the first `count` of `rows`.
spec fn is_among(rows: Seq<usize>, count: int, row: usize) -> bool {
    exists|q: int| 0 <= q < count && (#[trigger] rows[q]) == row
}

/// Whether `order` is in the playlist's order: each row before every row that
/// it outranks.
spec fn in_order(rows: Seq<ScoreSaberSong>, order: Seq<usize>) -> bool {
    forall|a: int, b: int|
        0 <= a < b < order.len() ==> outranks(
            rows,
            (#[trigger] order[a]) as int,
            (#[trigger] order[b]) as int,
        )
}

/// Whether `order` holds what the first `count` of `picks` hold, in the
/// playlist's order.
spec fn is_ordering(
    rows: Seq<ScoreSaberSong>,
    picks: Seq<usize>,
    count: int,
    order: Seq<usize>,
) -> bool {
    &&& forall|m: int| 0 <= m < order.len() ==> is_among(picks, count, #[trigger] order[m])
    &&& forall|q: int| 0 <= q < count ==> is_among(order, order.len() as int, #[trigger] picks[q])
    &&& in_order(rows, order)
}

/// Putting the next pick into its place keeps the order and adds that pick.
proof fn lemma_insert_keeps_ordering(
    rows: Seq<ScoreSaberSong>,
    picks: Seq<usize>,
    count: int,
    before: Seq<usize>,
    at: int,
)
    requires
        0 <= count < picks.len(),
        0 <= at <= before.len(),
        is_ordering(rows, picks, count, before),
        forall|m: int| 0 <= m < at ==> outranks(rows, (#[trigger] before[m]) as int, picks[count] as int),
        at < before.len() ==> outranks(rows, picks[count] as int, before[at] as int),
    ensures
        is_ordering(rows, picks, count + 1, before.insert(at, picks[count])),
{
    let pick = picks[count];
    let after = before.insert(at, pick);
    assert forall|m: int| 0 <= m < after.len() implies is_among(
        picks,
        count + 1,
        #[trigger] after[m],
    ) by {
        if m < at {
            assert(is_among(picks, count, before[m]));
            let q = choose|q: int| 0 <= q < count && (#[trigger] picks[q]) == before[m];
            assert(picks[q] == after[m]);
        } else if m == at {
            assert(picks[count] == after[m]);
        } else {
            assert(is_among(picks, count, before[m - 1]));
            let q = choose|q: int| 0 <= q < count && (#[trigger] picks[q]) == before[m - 1];
            assert(picks[q] == after[m]);
        }
    }
    assert forall|q: int| 0 <= q < count + 1 implies is_among(
        after,
        after.len() as int,
        #[trigger] picks[q],
    ) by {
        if q < count {
            assert(is_among(before, before.len() as int, picks[q]));
            let m = choose|m: int| 0 <= m < before.len() && (#[trigger] before[m]) == picks[q];
            if m < at {
                assert(after[m] == picks[q]);
            } else {
                assert(after[m + 1] == picks[q]);
            }
        } else {
            assert(after[at] == picks[q]);
        }
    }
    assert forall|a: int, b: int| 0 <= a < b < after.len() implies outranks(
        rows,
        (#[trigger] after[a]) as int,
        (#[trigger] after[b]) as int,
    ) by {
        if b < at {
            assert(outranks(rows, before[a] as int, before[b] as int));
        } else if b == at {
            assert(outranks(rows, before[a] as int, pick as int));
        } else if a < at {
            assert(outranks(rows, before[a] as int, before[b - 1] as int));
        } else if a == at {
            assert(outranks(rows, pick as int, before[at] as int));
            if b - 1 > at {
                assert(outranks(rows, before[at] as int, before[b - 1] as int));
                lemma_outranks_carries(rows, pick as int, before[at] as int, before[b - 1] as int);
            }
        } else {
            assert(outranks(rows, before[a - 1] as int, before[b - 1] as int));
        }
    }
}

/// A pick that does not stand before a row that was picked earlier stands
/// after it: the two are rows of different hashes, and so not the same row.
proof fn lemma_other_stands_before(
    rows: Seq<ScoreSaberSong>,
    picks: Seq<usize>,
    count: int,
    other: usize,
)
    requires
        0 <= count < picks.len(),
        picks_differ(rows, picks),
        is_among(picks, count, other),
        !outranks(rows, picks[count] as int, other as int),
    ensures
        outranks(rows, other as int, picks[count] as int),
{
    let q = choose|q: int| 0 <= q < count && (#[trigger] picks[q]) == other;
    assert(rows[picks[q] as int].id@ != rows[picks[count] as int].id@);
}

/// An ordering of all the picks gives the playlist.
proof fn lemma_ordering_is_playlist(
    rows: Seq<ScoreSaberSong>,
    picks: Seq<usize>,
    order: Seq<usize>,
    songs: Seq<BeatSaberPlaylistSong>,
)
    requires
        picks_stand(rows, picks, rows.len() as int),
        picks_cover(rows, picks, rows.len() as int),
        is_ordering(rows, picks, picks.len() as int, order),
        songs.len() == order.len(),
        forall|m: int|
            0 <= m < songs.len() ==> (#[trigger] songs[m]).hash@ == rows[order[m] as int].id@
                && songs[m].name@ == rows[order[m] as int].name@,
    ensures
        is_playlist_of(rows, songs),
{
    assert(rows.take(rows.len() as int) =~= rows);
    assert forall|m: int| 0 <= m < songs.len() implies best_of(rows, (#[trigger] songs[m]).hash@)
        == order[m] && order[m] < rows.len() by {
        assert(is_among(picks, picks.len() as int, order[m]));
        let q = choose|q: int| 0 <= q < picks.len() && (#[trigger] picks[q]) == order[m];
        assert(picks[q] == order[m]);
    }
    assert forall|i: int| 0 <= i < rows.len() implies lists_hash(
        songs,
        (#[trigger] rows[i]).id@,
    ) by {
        let m = choose|m: int|
            0 <= m < picks.len() && rows[(#[trigger] picks[m]) as int].id@ == rows[i].id@;
        assert(is_among(order, order.len() as int, picks[m]));
        let at = choose|at: int| 0 <= at < order.len() && (#[trigger] order[at]) == picks[m];
        assert(songs[at].hash@ == rows[i].id@);
    }
    assert forall|a: int, b: int| 0 <= a < b < songs.len() implies outranks(
        rows,
        best_of(rows, (#[trigger] songs[a]).hash@),
        best_of(rows, (#[trigger] songs[b]).hash@),
    ) by {
        assert(outranks(rows, order[a] as int, order[b] as int));
    }
}

/// Whether row `i` stands before row `j` in the playlist's order.
fn stands_before(rows: &Vec<ScoreSaberSong>, i: usize, j: usize) -> (before: bool)
    requires
        i < rows@.len(),
        j < rows@.len(),
    ensures
        before == outranks(rows@, i as int, j as int),
{
    let left = star_rank(rows[i].star_difficulty);
    let right = star_rank(rows[j].star_difficulty);
    left > right || (left == right && i < j)
}

/// For each hash among `rows`, the row that stands for it; in the order in
/// which the hashes first come.
fn pick_best(rows: &Vec<ScoreSaberSong>) -> (picks: Vec<usize>)
    ensures
        picks_stand(rows@, picks@, rows@.len() as int),
        picks_cover(rows@, picks@, rows@.len() as int),
        picks_differ(rows@, picks@),
{
    let mut picks: Vec<usize> = Vec::new();
    let mut i: usize = 0;
    while i < rows.len()
        invariant
            i <= rows@.len(),
            picks_stand(rows@, picks@, i as int),
            picks_cover(rows@, picks@, i as int),
            picks_differ(rows@, picks@),
        decreases rows@.len() - i,
    {
        let ghost hash = rows@[i as int].id@;
        let ghost before = picks@;
        let mut k: usize = 0;
        while k < picks.len() && !(rows[picks[k]].id == rows[i].id)
            invariant
                i < rows@.len(),
                k <= picks@.len(),
                picks@ == before,
                picks_stand(rows@, picks@, i as int),
                forall|m: int| 0 <= m < k ==> rows@[(#[trigger] picks@[m]) as int].id@ != hash,
                hash == rows@[i as int].id@,
            decreases picks@.len() - k,
        {
            k += 1;
        }
        if k < picks.len() {
            let held = picks[k];
            if star_rank(rows[i].star_difficulty) > star_rank(rows[held].star_difficulty) {
                picks.set(k, i);
            }
        } else {
            picks.push(i);
            proof {
                assert forall|j: int| 0 <= j < i implies (#[trigger] rows@[j]).id@ != hash by {
                    let m = choose|m: int|
                        0 <= m < before.len() && rows@[(#[trigger] before[m]) as int].id@
                            == rows@[j].id@;
                    assert(rows@[before[m] as int].id@ != hash);
                }
                lemma_best_of_in_rows(rows@.take(i as int), hash);
                if best_of(rows@.take(i as int), hash) >= 0 {
                    let at = best_of(rows@.take(i as int), hash);
                    assert(rows@.take(i as int)[at] == rows@[at]);
                }
            }
        }
        proof {
            let after = picks@;
            assert forall|m: int| 0 <= m < after.len() implies 0 <= (#[trigger] after[m]) < i + 1
                && best_of(rows@.take(i + 1), rows@[after[m] as int].id@) == after[m] by {
                lemma_best_of_next(rows@, i as int, rows@[after[m] as int].id@);
                if m < before.len() {
                    assert(0 <= before[m] < i);
                    if m != k {
                        assert(after[m] == before[m]);
                        if k < before.len() {
                            if m < k {
                                assert(rows@[before[m] as int].id@ != rows@[before[k as int] as int].id@);
                            } else {
                                assert(rows@[before[k as int] as int].id@ != rows@[before[m] as int].id@);
                            }
                        }
                    }
                }
            }
            assert forall|j: int| 0 <= j < i + 1 implies exists|m: int|
                0 <= m < after.len() && rows@[(#[trigger] after[m]) as int].id@ == (
                #[trigger] rows@[j]).id@ by {
                if j < i {
                    let m = choose|m: int|
                        0 <= m < before.len() && rows@[(#[trigger] before[m]) as int].id@
                            == rows@[j].id@;
                    assert(rows@[after[m] as int].id@ == rows@[j].id@);
                } else {
                    assert(rows@[after[k as int] as int].id@ == rows@[j].id@);
                }
            }
            assert forall|a: int, b: int| 0 <= a < b < after.len() implies rows@[(
            #[trigger] after[a]) as int].id@ != rows@[(#[trigger] after[b]) as int].id@ by {
                if b < before.len() {
                    assert(rows@[before[a] as int].id@ != rows@[before[b] as int].id@);
                } else {
                    assert(rows@[before[a] as int].id@ != hash);
                }
            }
        }
        i += 1;
    }
    proof {
        assert(rows@.take(rows@.len() as int) =~= rows@);
    }
    picks
}

/// The rows of `picks`, each before every row that it outranks.
fn order_by_rating(rows: &Vec<ScoreSaberSong>, picks: &Vec<usize>) -> (order: Vec<usize>)
    requires
        picks_stand(rows@, picks@, rows@.len() as int),
        picks_differ(rows@, picks@),
    ensures
        is_ordering(rows@, picks@, picks@.len() as int, order@),
{
    let mut order: Vec<usize> = Vec::new();
    let mut k: usize = 0;
    while k < picks.len()
        invariant
            k <= picks@.len(),
            picks_stand(rows@, picks@, rows@.len() as int),
            picks_differ(rows@, picks@),
            is_ordering(rows@, picks@, k as int, order@),
        decreases picks@.len() - k,
    {
        let pick = picks[k];
        let ghost before = order@;
        let mut at: usize = 0;
        while at < order.len() && !stands_before(rows, pick, order[at])
            invariant
                at <= order@.len(),
                order@ == before,
                k < picks@.len(),
                pick == picks@[k as int],
                pick < rows@.len(),
                picks_stand(rows@, picks@, rows@.len() as int),
                picks_differ(rows@, picks@),
                is_ordering(rows@, picks@, k as int, order@),
                forall|m: int|
                    0 <= m < at ==> outranks(rows@, (#[trigger] order@[m]) as int, pick as int),
            decreases order@.len() - at,
        {
            proof {
                assert(is_among(picks@, k as int, order@[at as int]));
                lemma_other_stands_before(rows@, picks@, k as int, order@[at as int]);
            }
            at += 1;
        }
        proof {
            lemma_insert_keeps_ordering(rows@, picks@, k as int, before, at as int);
        }
        order.insert(at, pick);
        k += 1;
    }
    order
}

/// Makes the playlist of the catalog: see [`is_playlist_of`].
///
/// The playlist is made anew from all the records that the catalog holds. It
/// has one entry for each song, with the name of the song's highest rated
/// record, and the entries stand by that rating, the highest first.
pub fn make_beatsaber_playlist(db: &Catalog) -> (playlist: BeatsaberPlaylist)
    ensures
        playlist.title@ == PLAYLIST_TITLE@,
        playlist.author@ == PLAYLIST_AUTHOR@,
        playlist.description@ == PLAYLIST_DESCRIPTION@,
        is_playlist_of(db@, playlist.songs@),
{
    let rows = db.songs();
    let picks = pick_best(rows);
    let order = order_by_rating(rows, &picks);
    let mut songs: Vec<BeatSaberPlaylistSong> = Vec::new();
    let mut k: usize = 0;
    while k < order.len()
        invariant
            k <= order@.len(),
            songs@.len() == k,
            picks_stand(rows@, picks@, rows@.len() as int),
            is_ordering(rows@, picks@, picks@.len() as int, order@),
            forall|m: int|
                0 <= m < k ==> (#[trigger] songs@[m]).hash@ == rows@[order@[m] as int].id@
                    && songs@[m].name@ == rows@[order@[m] as int].name@,
        decreases order@.len() - k,
    {
        proof {
            assert(is_among(picks@, picks@.len() as int, order@[k as int]));
            let q = choose|q: int|
                0 <= q < picks@.len() && (#[trigger] picks@[q]) == order@[k as int];
            assert(picks@[q] < rows@.len());
        }
        let row = &rows[order[k]];
        songs.push(BeatSaberPlaylistSong { name: row.name.clone(), hash: row.id.clone() });
        k += 1;
    }
    proof {
        lemma_ordering_is_playlist(rows@, picks@, order@, songs@);
    }
    BeatsaberPlaylist {
        title: PLAYLIST_TITLE.to_owned(),
        author: PLAYLIST_AUTHOR.to_owned(),
        description: PLAYLIST_DESCRIPTION.to_owned(),
        songs,
    }
}

} // verus!
