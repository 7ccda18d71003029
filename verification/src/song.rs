//! The record of one ranked difficulty of a song.
use vstd::prelude::*;

verus! {

/// Identifier of one ranked record. Several records may belong to the same song.
pub type ScoreSaberSongId = u64;

/// Hash of a song's content, the same for every difficulty of that song. It is
/// kept as an opaque string: nothing is ever computed from it but equality.
pub type SongHash = String;

/// One ranked record as the listing service reports it.
///
/// The star rating is held as the bit pattern of its IEEE-754 binary64 value, so
/// that a record can be stored, compared and handed on without loss. Ratings are
/// ordered by [`star_rank`].
#[derive(Debug, PartialEq)]
pub struct ScoreSaberSong {
    pub uid: ScoreSaberSongId,
    pub id: SongHash,
    pub name: String,
    pub sub_name: String,
    pub song_author: String,
    pub level_author: String,
    pub beats_per_minute: u64,
    pub difficulty: String,
    pub star_difficulty: u64,
}

/// Position of a star rating, given by its bit pattern, in the order of ratings.
///
/// Patterns with the sign bit clear keep their order and stand above all with the
/// sign bit set, whose order is reversed: the rank grows exactly as the rating
/// does. Negative zero ranks directly below zero.
pub open spec fn rank_of(bits: u64) -> int {
    if bits < 0x8000_0000_0000_0000 {
        bits + 0x8000_0000_0000_0000
    } else {
        u64::MAX - bits
    }
}

/// The rank of a star rating: see [`rank_of`].
pub fn star_rank(bits: u64) -> (rank: u64)
    ensures
        rank == rank_of(bits),
{
    if bits < 0x8000_0000_0000_0000 {
        bits + 0x8000_0000_0000_0000
    } else {
        u64::MAX - bits
    }
}

/// Ranks are told apart exactly as bit patterns are, and their order is that of
/// the ratings: among patterns of one sign by magnitude, upwards for the
/// positive and downwards for the negative ones.
pub proof fn rank_orders_ratings(a: u64, b: u64)
    ensures
        rank_of(a) == rank_of(b) <==> a == b,
        a < 0x8000_0000_0000_0000 && b < 0x8000_0000_0000_0000 ==> (rank_of(a) < rank_of(b) <==> a
            < b),
        a >= 0x8000_0000_0000_0000 && b >= 0x8000_0000_0000_0000 ==> (rank_of(a) < rank_of(b) <==> a
            > b),
        a >= 0x8000_0000_0000_0000 && b < 0x8000_0000_0000_0000 ==> rank_of(a) < rank_of(b),
{
}

impl Clone for ScoreSaberSong {
    fn clone(&self) -> (copy: Self)
        ensures
            copy == *self,
    {
        ScoreSaberSong {
            uid: self.uid,
            id: self.id.clone(),
            name: self.name.clone(),
            sub_name: self.sub_name.clone(),
            song_author: self.song_author.clone(),
            level_author: self.level_author.clone(),
            beats_per_minute: self.beats_per_minute,
            difficulty: self.difficulty.clone(),
            star_difficulty: self.star_difficulty,
        }
    }
}

} // verus!
