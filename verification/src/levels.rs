//! The level system: how many tiles each level deals and which faces it may use.

use vstd::prelude::*;

verus! {

/// Tiles dealt at `level`: 36 at level 1, twelve more per level up to the full
/// board of 144 at level 10, the same cycle of ten repeating after that.
pub open spec fn level_tile_count(level: int) -> int {
    36 + 12 * ((level - 1) % 10)
}

/// The number of face ids a level may draw from: the 50 penguin faces up to
/// level 10; ten dog faces more per level from 11, up to five styles (100
/// faces); from level 21 on, `100 + (level - 21) * 100 / 29`.
pub open spec fn level_pool_size(level: int) -> int {
    if level <= 10 {
        50
    } else if level <= 20 {
        50 + 10 * (if level - 10 < 5 { level - 10 } else { 5 })
    } else {
        100 + ((level - 21) * 100) / 29
    }
}

/// The face ids a level may draw from. Up to level 20 they are 0, 1, 2, ...
/// (penguins 0-49, then dogs from 50). From level 21 the pool is split evenly
/// over the three sets, penguins (from 0), dogs (from 50) and space (from
/// 100), a third each and the remainder to space, each set's ids counting up
/// from its start and wrapping after fifty.
pub open spec fn level_face_pool(level: int) -> Seq<u8> {
    let size = level_pool_size(level);
    if level <= 20 {
        Seq::new(size as nat, |i: int| i as u8)
    } else {
        let per_set = size / 3;
        Seq::new(size as nat, |i: int|
            if i < per_set {
                (i % 50) as u8
            } else if i < 2 * per_set {
                (50 + (i - per_set) % 50) as u8
            } else {
                (100 + (i - 2 * per_set) % 50) as u8
            })
    }
}

/// The number of tiles dealt at `level` (levels count from 1).
pub fn tiles_for_level(level: u32) -> (tiles: usize)
    requires
        level >= 1,
    ensures
        tiles == level_tile_count(level as int),
{
    36 + 12 * (((level - 1) % 10) as usize)
}

/// The face ids that `level` may draw from (see `level_face_pool`).
pub fn face_pool_for_level(level: u32) -> (pool: Vec<u8>)
    ensures
        pool@ == level_face_pool(level as int),
{
    let size: u64 = if level <= 10 {
        50
    } else if level <= 20 {
        50 + 10 * (if level - 10 < 5 { (level - 10) as u64 } else { 5 })
    } else {
        100 + ((level - 21) as u64 * 100) / 29
    };
    let per_set: u64 = size / 3;
    let ghost want = level_face_pool(level as int);
    let mut pool: Vec<u8> = Vec::new();
    let mut i: u64 = 0;
    while i < size
        invariant
            size == level_pool_size(level as int),
            want == level_face_pool(level as int),
            want.len() == size,
            per_set == size / 3,
            i <= size,
            pool@ =~= want.take(i as int),
        decreases size - i,
    {
        let id: u8 = if level <= 20 {
            i as u8
        } else if i < per_set {
            (i % 50) as u8
        } else if i < 2 * per_set {
            (50 + (i - per_set) % 50) as u8
        } else {
            (100 + (i - 2 * per_set) % 50) as u8
        };
        pool.push(id);
        i = i + 1;
    }
    pool
}

/// Every level deals a multiple of four tiles, between 36 and the full board
/// of 144, and levels ten apart deal the same number.
pub proof fn lemma_level_tile_counts(level: int)
    requires
        level >= 1,
    ensures
        level_tile_count(level) % 4 == 0,
        36 <= level_tile_count(level) <= 144,
        level_tile_count(level) == level_tile_count((level - 1) % 10 + 1),
        level_tile_count(level + 10) == level_tile_count(level),
{
}

/// Every face id of a level's pool is below 150, and the pool holds at least
/// one face for every four tiles the level deals.
pub proof fn lemma_level_face_pools(level: int)
    requires
        level >= 1,
    ensures
        level_face_pool(level).len() == level_pool_size(level),
        forall|i: int| 0 <= i < level_face_pool(level).len() ==> #[trigger] level_face_pool(level)[i] < 150,
        level_tile_count(level) / 4 <= level_face_pool(level).len(),
{
    if level > 20 {
        assert(level_pool_size(level) >= 100);
    }
}

} // verus!
