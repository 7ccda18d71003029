//! The catalog: the latest record of every identifier.
use crate::song::ScoreSaberSong;
use vstd::prelude::*;

verus! {

/// Whether no two of `rows` have the same identifier.
pub open spec fn distinct_uids(rows: Seq<ScoreSaberSong>) -> bool {
    forall|i: int, j: int|
        0 <= i < j < rows.len() ==> (#[trigger] rows[i]).uid != (#[trigger] rows[j]).uid
}

/// Whether one of `rows` has the identifier `uid`.
pub open spec fn holds_uid(rows: Seq<ScoreSaberSong>, uid: u64) -> bool {
    exists|i: int| 0 <= i < rows.len() && (#[trigger] rows[i]).uid == uid
}

/// The rows after `song` was brought in: it stands in the place of the row that
/// had its identifier, whole; if there was none it is added at the end. No other
/// row changes.
pub open spec fn with_song(rows: Seq<ScoreSaberSong>, song: ScoreSaberSong) -> Seq<
    ScoreSaberSong,
> {
    if holds_uid(rows, song.uid) {
        Seq::new(
            rows.len(),
            |i: int|
                if rows[i].uid == song.uid {
                    song
                } else {
                    rows[i]
                },
        )
    } else {
        rows.push(song)
    }
}

/// Bringing a song in keeps the identifiers distinct, and the catalog then
/// holds that song under its identifier and under no other.
pub proof fn with_song_keeps_distinct(rows: Seq<ScoreSaberSong>, song: ScoreSaberSong)
    requires
        distinct_uids(rows),
    ensures
        distinct_uids(with_song(rows, song)),
        holds_uid(with_song(rows, song), song.uid),
        forall|i: int|
            0 <= i < with_song(rows, song).len() && (#[trigger] with_song(rows, song)[i]).uid
                == song.uid ==> with_song(rows, song)[i] == song,
        with_song(rows, song).len() == if holds_uid(rows, song.uid) {
            rows.len()
        } else {
            rows.len() + 1
        },
{
    let after = with_song(rows, song);
    if holds_uid(rows, song.uid) {
        let at = choose|i: int| 0 <= i < rows.len() && (#[trigger] rows[i]).uid == song.uid;
        assert(after[at].uid == song.uid);
        assert forall|i: int, j: int| 0 <= i < j < after.len() implies (#[trigger] after[i]).uid
            != (#[trigger] after[j]).uid by {
            assert(rows[i].uid != rows[j].uid);
        }
    } else {
        assert(after[rows.len() as int].uid == song.uid);
        assert forall|i: int, j: int| 0 <= i < j < after.len() implies (#[trigger] after[i]).uid
            != (#[trigger] after[j]).uid by {
            if j < rows.len() {
                assert(rows[i].uid != rows[j].uid);
            } else {
                assert(rows[i].uid != song.uid);
            }
        }
    }
}

/// Bringing in two songs of one identifier, one after the other, leaves what
/// bringing in the second alone leaves: one record of that identifier, equal to
/// the second song in every field, and nothing of the first.
pub proof fn second_upsert_replaces_first(
    rows: Seq<ScoreSaberSong>,
    first: ScoreSaberSong,
    second: ScoreSaberSong,
)
    requires
        distinct_uids(rows),
        first.uid == second.uid,
    ensures
        with_song(with_song(rows, first), second) == with_song(rows, second),
        forall|i: int, j: int|
            #![trigger with_song(rows, second)[i], with_song(rows, second)[j]]
            0 <= i < with_song(rows, second).len() && 0 <= j < with_song(rows, second).len()
                && with_song(rows, second)[i].uid == second.uid && with_song(rows, second)[j].uid
                == second.uid ==> i == j && with_song(rows, second)[i] == second,
{
    let once = with_song(rows, first);
    let twice = with_song(once, second);
    let direct = with_song(rows, second);
    with_song_keeps_distinct(rows, first);
    with_song_keeps_distinct(rows, second);
    if holds_uid(rows, first.uid) {
        let at = choose|i: int| 0 <= i < rows.len() && (#[trigger] rows[i]).uid == first.uid;
        assert(once[at].uid == second.uid);
        assert(twice =~= direct);
    } else {
        assert(once[rows.len() as int].uid == second.uid);
        assert forall|i: int| 0 <= i < rows.len() implies (#[trigger] rows[i]).uid
            != second.uid by {}
        assert(twice =~= direct);
    }
    assert forall|i: int, j: int|
        #![trigger direct[i], direct[j]]
        0 <= i < direct.len() && 0 <= j < direct.len() && direct[i].uid == second.uid
            && direct[j].uid == second.uid implies i == j && direct[i] == second by {
        if i < j {
            assert(direct[i].uid != direct[j].uid);
        } else if j < i {
            assert(direct[j].uid != direct[i].uid);
        }
    }
}

/// The store of records, keyed by their identifier: it never holds two records
/// of one identifier. Records stand in the order in which their identifiers
/// first came.
pub struct Catalog {
    rows: Vec<ScoreSaberSong>,
}

impl View for Catalog {
    type V = Seq<ScoreSaberSong>;

    closed spec fn view(&self) -> Seq<ScoreSaberSong> {
        self.rows@
    }
}

impl Catalog {
    #[verifier::type_invariant]
    spec fn identifiers_are_distinct(&self) -> bool {
        distinct_uids(self.rows@)
    }

    /// A catalog without records.
    pub fn new() -> (db: Catalog)
        ensures
            db@ == Seq::<ScoreSaberSong>::empty(),
    {
        Catalog { rows: Vec::new() }
    }

    /// The records, in their order. No two of them share an identifier.
    pub fn songs(&self) -> (rows: &Vec<ScoreSaberSong>)
        ensures
            rows@ == self@,
            distinct_uids(self@),
    {
        proof {
            use_type_invariant(self);
        }
        &self.rows
    }

    /// The number of records.
    pub fn len(&self) -> (count: usize)
        ensures
            count == self@.len(),
    {
        self.rows.len()
    }

    /// The record of the identifier `uid`, if the catalog holds one.
    pub fn get(&self, uid: u64) -> (found: Option<&ScoreSaberSong>)
        ensures
            match found {
                Some(song) => song.uid == uid && self@.contains(*song),
                None => !holds_uid(self@, uid),
            },
    {
        let mut i: usize = 0;
        while i < self.rows.len()
            invariant
                i <= self.rows@.len(),
                forall|k: int| 0 <= k < i ==> (#[trigger] self.rows@[k]).uid != uid,
            decreases self.rows@.len() - i,
        {
            if self.rows[i].uid == uid {
                return Some(&self.rows[i]);
            }
            i += 1;
        }
        None
    }
}

/// Brings `song` into the catalog: see [`with_song`]. The record that had its
/// identifier is replaced whole, never merged; the catalog never holds two
/// records of one identifier.
pub fn insert_song_into_db(db: &mut Catalog, song: &ScoreSaberSong)
    ensures
        final(db)@ == with_song(old(db)@, *song),
        distinct_uids(final(db)@),
{
    proof {
        use_type_invariant(&*db);
        with_song_keeps_distinct(db@, *song);
    }
    let mut rows: Vec<ScoreSaberSong> = Vec::new();
    std::mem::swap(&mut db.rows, &mut rows);
    let ghost before = rows@;
    let copy = song.clone();
    let mut i: usize = 0;
    while i < rows.len() && rows[i].uid != song.uid
        invariant
            i <= rows@.len(),
            rows@ == before,
            forall|k: int| 0 <= k < i ==> (#[trigger] rows@[k]).uid != song.uid,
        decreases rows@.len() - i,
    {
        i += 1;
    }
    if i < rows.len() {
        assert(before.update(i as int, copy) =~= with_song(before, *song)) by {
            assert forall|k: int| 0 <= k < before.len() && k != i implies (#[trigger] before[k]).uid
                != song.uid by {
                if k > i {
                    assert(before[i as int].uid != before[k].uid);
                }
            }
        }
        rows.set(i, copy);
    } else {
        assert(before.push(copy) =~= with_song(before, *song));
        rows.push(copy);
    }
    std::mem::swap(&mut db.rows, &mut rows);
}

} // verus!
