//! Solvable board generation by reverse dealing: pairs of free tiles are taken
//! off a full layout one after another, and that removal order, played forward,
//! clears the board that the same pairs are then dealt onto.

use std::rc::Rc;
use vstd::multiset::Multiset;
use vstd::prelude::*;

use crate::board::{
    count_occupied, free_in, lemma_free_monotone, lists_free, lists_free_below, occupancy, occupancy_within, removed,
    tile_free, Board, Layout, Tile, TilePosition,
};
use crate::rng::{permuted, shuffle_seeded, std_perm, SeededRng};

verus! {

/// `order` can be taken off the occupied positions `occ` pair by pair: each
/// pair names two distinct positions that are free at that point.
pub open spec fn removable(layout: Layout, occ: Seq<bool>, order: Seq<(usize, usize)>) -> bool
    decreases order.len(),
{
    if order.len() == 0 {
        true
    } else {
        let a = order[0].0 as int;
        let b = order[0].1 as int;
        &&& a != b
        &&& 0 <= a < occ.len()
        &&& 0 <= b < occ.len()
        &&& free_in(layout, occ, a)
        &&& free_in(layout, occ, b)
        &&& removable(layout, occ.update(a, false).update(b, false), order.drop_first())
    }
}

/// The occupancy left after taking off the pairs of `order`.
pub open spec fn after_removals(occ: Seq<bool>, order: Seq<(usize, usize)>) -> Seq<bool>
    decreases order.len(),
{
    if order.len() == 0 {
        occ
    } else {
        after_removals(occ.update(order[0].0 as int, false).update(order[0].1 as int, false), order.drop_first())
    }
}

/// Position `i` is named by some pair of `order`.
pub open spec fn in_order(order: Seq<(usize, usize)>, i: int) -> bool {
    exists|k: int| 0 <= k < order.len() && (order[k].0 == i || order[k].1 == i)
}

/// No position is named twice in `order`.
pub open spec fn pairwise_distinct(order: Seq<(usize, usize)>) -> bool {
    &&& forall|k: int| 0 <= k < order.len() ==> (#[trigger] order[k]).0 != order[k].1
    &&& forall|k1: int, k2: int| 0 <= k1 < k2 < order.len() ==> {
        &&& (#[trigger] order[k1]).0 != (#[trigger] order[k2]).0
        &&& order[k1].0 != order[k2].1
        &&& order[k1].1 != order[k2].0
        &&& order[k1].1 != order[k2].1
    }
}

/// The two tiles named by pair `p` show the same face.
pub open spec fn same_face(tiles: Seq<Option<Tile>>, p: (usize, usize)) -> bool {
    tiles[p.0 as int].unwrap().face_id == tiles[p.1 as int].unwrap().face_id
}

/// Playing `order` forward clears `tiles`: each step takes two distinct free
/// tiles with the same face, and after the last step no tile is left.
pub open spec fn clears(layout: Layout, tiles: Seq<Option<Tile>>, order: Seq<(usize, usize)>) -> bool
    decreases order.len(),
{
    if order.len() == 0 {
        forall|i: int| 0 <= i < tiles.len() ==> tiles[i] is None
    } else {
        let a = order[0].0 as int;
        let b = order[0].1 as int;
        &&& a != b
        &&& 0 <= a < tiles.len()
        &&& 0 <= b < tiles.len()
        &&& tile_free(layout, tiles, a)
        &&& tile_free(layout, tiles, b)
        &&& tiles[a].unwrap().face_id == tiles[b].unwrap().face_id
        &&& clears(layout, removed(tiles, a, b), order.drop_first())
    }
}

/// Appending a pair that is free after `order` keeps the order removable.
proof fn lemma_removable_push(layout: Layout, occ: Seq<bool>, order: Seq<(usize, usize)>, a: usize, b: usize)
    requires
        removable(layout, occ, order),
        a != b,
        a < after_removals(occ, order).len(),
        b < after_removals(occ, order).len(),
        free_in(layout, after_removals(occ, order), a as int),
        free_in(layout, after_removals(occ, order), b as int),
    ensures
        removable(layout, occ, order.push((a, b))),
        after_removals(occ, order.push((a, b))) == after_removals(occ, order).update(a as int, false).update(b as int, false),
        after_removals(occ, order).len() == occ.len(),
    decreases order.len(),
{
    if order.len() == 0 {
        assert(order.push((a, b)).drop_first() =~= Seq::<(usize, usize)>::empty());
        assert(order.push((a, b))[0] == (a, b));
        assert(after_removals(occ, order.push((a, b))) == after_removals(occ.update(a as int, false).update(b as int, false), Seq::<(usize, usize)>::empty()));
        assert(removable(layout, occ.update(a as int, false).update(b as int, false), order.push((a, b)).drop_first()));
    } else {
        let next = occ.update(order[0].0 as int, false).update(order[0].1 as int, false);
        lemma_removable_push(layout, next, order.drop_first(), a, b);
        assert(order.push((a, b)).drop_first() =~= order.drop_first().push((a, b)));
        assert(order.push((a, b))[0] == order[0]);
        assert(after_removals(occ, order.push((a, b))) == after_removals(next, order.drop_first().push((a, b))));
        assert(removable(layout, next, order.push((a, b)).drop_first()));
    }
}

/// A removable order names only occupied positions, and none twice.
proof fn lemma_removable_facts(layout: Layout, occ: Seq<bool>, order: Seq<(usize, usize)>)
    requires
        removable(layout, occ, order),
    ensures
        forall|i: int| #[trigger] in_order(order, i) ==> 0 <= i < occ.len() && occ[i],
        pairwise_distinct(order),
    decreases order.len(),
{
    if order.len() > 0 {
        let a = order[0].0 as int;
        let b = order[0].1 as int;
        let next = occ.update(a, false).update(b, false);
        let rest = order.drop_first();
        lemma_removable_facts(layout, next, rest);
        assert forall|i: int| #[trigger] in_order(order, i) implies 0 <= i < occ.len() && occ[i] by {
            let k = choose|k: int| 0 <= k < order.len() && (order[k].0 == i || order[k].1 == i);
            if k > 0 {
                assert(rest[k - 1] == order[k]);
                assert(in_order(rest, i));
            }
        }
        assert forall|k1: int, k2: int| 0 <= k1 < k2 < order.len() implies {
            &&& (#[trigger] order[k1]).0 != (#[trigger] order[k2]).0
            &&& order[k1].0 != order[k2].1
            &&& order[k1].1 != order[k2].0
            &&& order[k1].1 != order[k2].1
        } by {
            assert(rest[k2 - 1] == order[k2]);
            assert(in_order(rest, order[k2].0 as int));
            assert(in_order(rest, order[k2].1 as int));
            if k1 > 0 {
                assert(rest[k1 - 1] == order[k1]);
            }
        }
        assert forall|k: int| 0 <= k < order.len() implies (#[trigger] order[k]).0 != order[k].1 by {
            if k > 0 {
                assert(rest[k - 1] == order[k]);
            }
        }
    }
}

/// The reverse-deal argument: tiles dealt onto exactly the positions of a
/// removable order, with equal faces on the two tiles of each pair, are cleared
/// by playing that order forward.
pub proof fn lemma_dealt_order_clears(layout: Layout, occ: Seq<bool>, tiles: Seq<Option<Tile>>, order: Seq<(usize, usize)>)
    requires
        layout.wf(),
        occ.len() == layout.positions.len(),
        tiles.len() == occ.len(),
        removable(layout, occ, order),
        occupancy_within(occupancy(tiles), occ),
        forall|i: int| 0 <= i < tiles.len() ==> ((#[trigger] tiles[i]) is Some <==> in_order(order, i)),
        forall|k: int| 0 <= k < order.len() ==> #[trigger] same_face(tiles, order[k]),
    ensures
        clears(layout, tiles, order),
    decreases order.len(),
{
    lemma_removable_facts(layout, occ, order);
    if order.len() == 0 {
        assert forall|i: int| 0 <= i < tiles.len() implies tiles[i] is None by {
            if tiles[i] is Some {
                assert(in_order(order, i));
            }
        }
    } else {
        let a = order[0].0 as int;
        let b = order[0].1 as int;
        let rest = order.drop_first();
        let next_occ = occ.update(a, false).update(b, false);
        let next_tiles = removed(tiles, a, b);
        assert(in_order(order, a));
        assert(in_order(order, b));
        assert(tiles[a] is Some && tiles[b] is Some);
        assert(occupancy(tiles)[a]);
        assert(occupancy(tiles)[b]);
        lemma_free_monotone(layout, occupancy(tiles), occ, a);
        lemma_free_monotone(layout, occupancy(tiles), occ, b);
        assert(order[0] == order[0]);
        // The rest of the order names neither a nor b.
        assert forall|k: int| 0 <= k < rest.len() implies {
            &&& rest[k].0 != a && rest[k].0 != b
            &&& rest[k].1 != a && rest[k].1 != b
        } by {
            assert(rest[k] == order[k + 1]);
            assert(order[0] == order[0] && order[k + 1] == order[k + 1]);
        }
        assert(occupancy_within(occupancy(next_tiles), next_occ)) by {
            assert forall|i: int| 0 <= i < next_tiles.len() && #[trigger] occupancy(next_tiles)[i] implies next_occ[i] by {
                assert(occupancy(tiles)[i]);
            }
        }
        assert forall|i: int| 0 <= i < next_tiles.len() implies ((#[trigger] next_tiles[i]) is Some <==> in_order(rest, i)) by {
            if i == a || i == b {
                if in_order(rest, i) {
                    let k = choose|k: int| 0 <= k < rest.len() && (rest[k].0 == i || rest[k].1 == i);
                }
            } else {
                assert(next_tiles[i] == tiles[i]);
                if in_order(order, i) {
                    let k = choose|k: int| 0 <= k < order.len() && (order[k].0 == i || order[k].1 == i);
                    assert(k > 0);
                    assert(rest[k - 1] == order[k]);
                }
                if in_order(rest, i) {
                    let k = choose|k: int| 0 <= k < rest.len() && (rest[k].0 == i || rest[k].1 == i);
                    assert(rest[k] == order[k + 1]);
                }
            }
        }
        assert forall|k: int| 0 <= k < rest.len() implies #[trigger] same_face(next_tiles, rest[k]) by {
            assert(same_face(tiles, order[k + 1]));
            assert(rest[k] == order[k + 1]);
            let o0 = order[0];
            let ok = order[k + 1];
            assert(o0.0 != ok.0 && o0.0 != ok.1 && o0.1 != ok.0 && o0.1 != ok.1);
            assert(order[k + 1].0 == ok.0);
            assert(in_order(order, ok.0 as int));
            assert(in_order(order, ok.1 as int));
            assert(next_tiles[ok.0 as int] == tiles[ok.0 as int]);
            assert(next_tiles[ok.1 as int] == tiles[ok.1 as int]);
        }
        lemma_dealt_order_clears(layout, next_occ, next_tiles, rest);
        assert(same_face(tiles, order[0]));
        assert(tile_free(layout, tiles, a));
        assert(tile_free(layout, tiles, b));
        assert(clears(layout, removed(tiles, a, b), order.drop_first()));
    }
}


/// Each tile of `tiles` sits at its own slot of `layout`.
pub open spec fn tiles_at_own_positions(layout: Layout, tiles: Seq<Option<Tile>>) -> bool {
    forall|i: int| 0 <= i < tiles.len() && (#[trigger] tiles[i]) is Some ==> tiles[i].unwrap().position == layout.positions@[i]
}

/// The face shared by each pair of `order`, in order.
pub open spec fn pair_faces(tiles: Seq<Option<Tile>>, order: Seq<(usize, usize)>) -> Seq<u8> {
    order.map_values(|p: (usize, usize)| tiles[p.0 as int].unwrap().face_id)
}

/// Every face of `sel` twice.
pub open spec fn doubled(sel: Seq<u8>) -> Multiset<u8> {
    sel.to_multiset().add(sel.to_multiset())
}

/// A board dealt for `tile_count` tiles on `layout`, with its solution `order`:
/// playing `order` forward clears the board, it has `tile_count / 2` steps, and
/// every tile sits at its own slot.
pub open spec fn dealt(layout: Layout, tiles: Seq<Option<Tile>>, order: Seq<(usize, usize)>, tile_count: int) -> bool {
    &&& tiles.len() == layout.positions.len()
    &&& clears(layout, tiles, order)
    &&& order.len() == tile_count / 2
    &&& count_occupied(tiles) == 2 * (tile_count / 2)
    &&& tiles_at_own_positions(layout, tiles)
}

/// The default faces suffice for `tile_count` tiles: an even number of pairs,
/// at most 100 of them, so that each of at most 50 faces covers two pairs.
pub open spec fn default_faces_fit(tile_count: int) -> bool {
    (tile_count / 2) % 2 == 0 && tile_count / 2 <= 100
}

/// Dealt as `dealt`, with `tile_count / 4` distinct faces below 50, each on
/// exactly two pairs (four tiles).
pub open spec fn dealt_with_default_faces(layout: Layout, tiles: Seq<Option<Tile>>, order: Seq<(usize, usize)>, tile_count: int) -> bool {
    &&& dealt(layout, tiles, order, tile_count)
    &&& exists|sel: Seq<u8>| {
        &&& sel.len() == tile_count / 4
        &&& sel.no_duplicates()
        &&& forall|k: int| 0 <= k < sel.len() ==> #[trigger] sel[k] < 50
        &&& pair_faces(tiles, order).to_multiset() == doubled(sel)
    }
}

/// Dealt as `dealt`, with `tile_count / 4` faces drawn from `pool` (as a
/// multiset), each on two pairs.
pub open spec fn dealt_with_pool_faces(
    layout: Layout,
    tiles: Seq<Option<Tile>>,
    order: Seq<(usize, usize)>,
    tile_count: int,
    pool: Seq<u8>,
) -> bool {
    &&& dealt(layout, tiles, order, tile_count)
    &&& exists|sel: Seq<u8>| {
        &&& sel.len() == tile_count / 4
        &&& sel.to_multiset().subset_of(pool.to_multiset())
        &&& pair_faces(tiles, order).to_multiset() == doubled(sel)
    }
}

/// The default faces `0..50`.
pub open spec fn default_pool() -> Seq<u8> {
    Seq::new(50, |i: int| i as u8)
}

/// Faces drawn from the default pool are distinct and below 50.
proof fn lemma_default_selection(sel: Seq<u8>)
    requires
        sel.to_multiset().subset_of(default_pool().to_multiset()),
    ensures
        sel.no_duplicates(),
        forall|k: int| 0 <= k < sel.len() ==> #[trigger] sel[k] < 50,
{
    broadcast use vstd::seq_lib::group_to_multiset_ensures;
    let pool = default_pool();
    assert(pool.no_duplicates());
    pool.lemma_multiset_has_no_duplicates();
    assert forall|x: u8| sel.to_multiset().contains(x) implies sel.to_multiset().count(x) == 1 by {
        assert(sel.to_multiset().count(x) <= pool.to_multiset().count(x));
        assert(pool.to_multiset().contains(x));
    }
    sel.lemma_multiset_has_no_duplicates_conv();
    assert forall|k: int| 0 <= k < sel.len() implies #[trigger] sel[k] < 50 by {
        assert(sel.contains(sel[k]));
        assert(sel.to_multiset().count(sel[k]) > 0);
        assert(pool.to_multiset().count(sel[k]) > 0);
        assert(pool.contains(sel[k]));
    }
}

/// Emptying an occupied slot lowers the count by one.
proof fn lemma_count_remove_one(tiles: Seq<Option<Tile>>, i: int)
    requires
        0 <= i < tiles.len(),
        tiles[i] is Some,
    ensures
        count_occupied(tiles.update(i, None)) + 1 == count_occupied(tiles),
    decreases tiles.len(),
{
    let t2 = tiles.update(i, None);
    if i == tiles.len() - 1 {
        assert(t2.drop_last() =~= tiles.drop_last());
    } else {
        lemma_count_remove_one(tiles.drop_last(), i);
        assert(t2.drop_last() =~= tiles.drop_last().update(i, None));
    }
}

/// A board cleared by `order` holds exactly two tiles per step.
pub proof fn lemma_clears_count(layout: &Layout, tiles: Seq<Option<Tile>>, order: Seq<(usize, usize)>)
    requires
        clears(*layout, tiles, order),
    ensures
        count_occupied(tiles) == 2 * order.len(),
    decreases order.len(),
{
    if order.len() == 0 {
        lemma_count_empty(tiles);
    } else {
        let a = order[0].0 as int;
        let b = order[0].1 as int;
        lemma_clears_count(layout, removed(tiles, a, b), order.drop_first());
        lemma_count_remove_one(tiles, a);
        lemma_count_remove_one(tiles.update(a, None), b);
    }
}

/// A board with no tile counts zero.
proof fn lemma_count_empty(tiles: Seq<Option<Tile>>)
    requires
        forall|i: int| 0 <= i < tiles.len() ==> tiles[i] is None,
    ensures
        count_occupied(tiles) == 0,
    decreases tiles.len(),
{
    if tiles.len() > 0 {
        lemma_count_empty(tiles.drop_last());
    }
}

/// Two different elements taken from the front of a permutation of a strictly
/// increasing sequence.
proof fn lemma_shuffled_front(orig: Seq<usize>, perm: Seq<usize>)
    requires
        forall|k1: int, k2: int| 0 <= k1 < k2 < orig.len() ==> orig[k1] < orig[k2],
        perm.to_multiset() == orig.to_multiset(),
        perm.len() >= 2,
    ensures
        orig.contains(perm[0]),
        orig.contains(perm[1]),
        perm[0] != perm[1],
{
    broadcast use vstd::seq_lib::group_to_multiset_ensures;
    assert(orig.no_duplicates());
    orig.lemma_multiset_has_no_duplicates();
    perm.lemma_multiset_has_no_duplicates_conv();
    assert(perm.contains(perm[0]));
    assert(perm.contains(perm[1]));
    assert(perm.to_multiset().count(perm[0]) > 0);
    assert(perm.to_multiset().count(perm[1]) > 0);
    assert(orig.to_multiset().count(perm[0]) > 0);
    assert(orig.to_multiset().count(perm[1]) > 0);
}


/// `lemma_removable_facts` for a borrowed layout.
proof fn lemma_removable_facts_ref(layout: &Layout, occ: Seq<bool>, order: Seq<(usize, usize)>)
    requires
        removable(*layout, occ, order),
    ensures
        forall|i: int| #[trigger] in_order(order, i) ==> 0 <= i < occ.len() && occ[i],
        pairwise_distinct(order),
{
    lemma_removable_facts(*layout, occ, order);
}

/// `lemma_dealt_order_clears` for a borrowed layout.
proof fn lemma_dealt_order_clears_ref(layout: &Layout, occ: Seq<bool>, tiles: Seq<Option<Tile>>, order: Seq<(usize, usize)>)
    requires
        layout.wf(),
        occ.len() == layout.positions.len(),
        tiles.len() == occ.len(),
        removable(*layout, occ, order),
        occupancy_within(occupancy(tiles), occ),
        forall|i: int| 0 <= i < tiles.len() ==> ((#[trigger] tiles[i]) is Some <==> in_order(order, i)),
        forall|k: int| 0 <= k < order.len() ==> #[trigger] same_face(tiles, order[k]),
    ensures
        clears(*layout, tiles, order),
{
    lemma_dealt_order_clears(*layout, occ, tiles, order);
}


/// A dealt board with its order witnesses that some order deals it.
proof fn lemma_default_witness(layout: &Layout, tiles: Seq<Option<Tile>>, order: Seq<(usize, usize)>, tile_count: int)
    requires
        dealt_with_default_faces(*layout, tiles, order, tile_count),
    ensures
        exists|o: Seq<(usize, usize)>| #[trigger] dealt_with_default_faces(*layout, tiles, o, tile_count),
{
}


/// A dealt board with its order witnesses that some order deals it.
proof fn lemma_pool_witness(layout: &Layout, tiles: Seq<Option<Tile>>, order: Seq<(usize, usize)>, tile_count: int, pool: Seq<u8>)
    requires
        dealt_with_pool_faces(*layout, tiles, order, tile_count, pool),
    ensures
        exists|o: Seq<(usize, usize)>| #[trigger] dealt_with_pool_faces(*layout, tiles, o, tile_count, pool),
{
}

/// Whether every position listed in `idx` is unfilled.
fn all_unfilled(filled: &Vec<bool>, idx: &Vec<usize>) -> (r: bool)
    requires
        forall|k: int| 0 <= k < idx.len() ==> #[trigger] idx@[k] < filled.len(),
    ensures
        r == forall|k: int| 0 <= k < idx.len() ==> !filled@[#[trigger] idx@[k] as int],
{
    let mut k: usize = 0;
    while k < idx.len()
        invariant
            k <= idx.len(),
            forall|kk: int| 0 <= kk < idx.len() ==> #[trigger] idx@[kk] < filled.len(),
            forall|kk: int| 0 <= kk < k ==> !filled@[#[trigger] idx@[kk] as int],
        decreases idx.len() - k,
    {
        if filled[idx[k]] {
            return false;
        }
        k = k + 1;
    }
    true
}

/// Errors of board generation.
#[derive(Debug, Clone, PartialEq, Eq)]
pub enum GenerationError {
    /// An attempt reached a state with fewer than two free positions.
    NoFreePairs,
    /// Every attempt failed.
    MaxAttemptsExceeded,
}

/// At least two positions of `filled` are free.
pub open spec fn two_free(layout: Layout, filled: Seq<bool>) -> bool {
    exists|a: int, b: int| #[trigger] free_in(layout, filled, a) && #[trigger] free_in(layout, filled, b)
        && 0 <= a < filled.len() && 0 <= b < filled.len() && a != b
}

/// No position of `layout` is ever blocked: whatever else is filled, a filled
/// position is free. On such a layout no draw can strand a deal.
pub open spec fn never_blocked(layout: Layout) -> bool {
    forall|occ: Seq<bool>, p: int|
        occ.len() == layout.positions.len() && 0 <= p < occ.len() && occ[p] ==> #[trigger] free_in(layout, occ, p)
}

/// The number of filled positions in `filled`.
spec fn filled_count(filled: Seq<bool>) -> nat
    decreases filled.len(),
{
    if filled.len() == 0 {
        0
    } else {
        filled_count(filled.drop_last()) + if filled.last() { 1nat } else { 0nat }
    }
}

proof fn lemma_filled_count_push(filled: Seq<bool>, b: bool)
    ensures
        filled_count(filled.push(b)) == filled_count(filled) + if b { 1nat } else { 0nat },
{
    assert(filled.push(b).drop_last() =~= filled);
}

/// Emptying a filled position lowers the count by one.
proof fn lemma_filled_count_clear(filled: Seq<bool>, i: int)
    requires
        0 <= i < filled.len(),
        filled[i],
    ensures
        filled_count(filled.update(i, false)) + 1 == filled_count(filled),
    decreases filled.len(),
{
    let cleared = filled.update(i, false);
    if i == filled.len() - 1 {
        assert(cleared.drop_last() =~= filled.drop_last());
    } else {
        assert(cleared.drop_last() =~= filled.drop_last().update(i, false));
        lemma_filled_count_clear(filled.drop_last(), i);
    }
}

/// With one filled position there is a filled position below `filled.len()`;
/// with two, two different ones.
proof fn lemma_filled_positions(filled: Seq<bool>)
    ensures
        filled_count(filled) >= 1 ==> exists|a: int| 0 <= a < filled.len() && #[trigger] filled[a],
        filled_count(filled) >= 2 ==> exists|a: int, b: int|
            0 <= a < filled.len() && 0 <= b < filled.len() && a != b && #[trigger] filled[a] && #[trigger] filled[b],
    decreases filled.len(),
{
    if filled.len() > 0 {
        let rest = filled.drop_last();
        let last = filled.len() - 1;
        lemma_filled_positions(rest);
        if filled_count(rest) >= 1 {
            let a = choose|a: int| 0 <= a < rest.len() && #[trigger] rest[a];
            assert(filled[a]);
            if filled.last() {
                assert(filled[last]);
            }
        }
        if filled_count(rest) >= 2 {
            let (a, b) = choose|a: int, b: int|
                0 <= a < rest.len() && 0 <= b < rest.len() && a != b && #[trigger] rest[a] && #[trigger] rest[b];
            assert(filled[a] && filled[b]);
        }
        if filled.last() {
            assert(filled[last]);
        }
    }
}

/// On a layout where nothing is blocked, two filled positions give two free ones.
proof fn lemma_two_free_when_unblocked(layout: Layout, filled: Seq<bool>)
    requires
        never_blocked(layout),
        filled.len() == layout.positions.len(),
        filled_count(filled) >= 2,
    ensures
        two_free(layout, filled),
{
    lemma_filled_positions(filled);
    let (a, b) = choose|a: int, b: int|
        0 <= a < filled.len() && 0 <= b < filled.len() && a != b && #[trigger] filled[a] && #[trigger] filled[b];
    assert(free_in(layout, filled, a));
    assert(free_in(layout, filled, b));
}

// ---------------------------------------------------------------------------
// The deal as a function of the generator's seed and history
// ---------------------------------------------------------------------------

/// The positions below `i` that are free in `filled`, in increasing order.
pub open spec fn free_below(layout: Layout, filled: Seq<bool>, i: int) -> Seq<usize>
    decreases i,
{
    if i <= 0 {
        Seq::empty()
    } else if free_in(layout, filled, i - 1) {
        free_below(layout, filled, i - 1).push((i - 1) as usize)
    } else {
        free_below(layout, filled, i - 1)
    }
}

/// The free positions of `filled`, in increasing order.
pub open spec fn free_list(layout: Layout, filled: Seq<bool>) -> Seq<usize> {
    free_below(layout, filled, filled.len() as int)
}

/// What drawing a pair of free positions gives, with the generator's history
/// after the draw: nothing (and no shuffle) when fewer than two are free;
/// otherwise the first two of the free list as the generator shuffles it.
pub open spec fn pick_draw(layout: Layout, filled: Seq<bool>, seed: u64, history: Seq<nat>) -> (Option<(usize, usize)>, Seq<nat>) {
    let free = free_list(layout, filled);
    if free.len() < 2 {
        (None, history)
    } else {
        let drawn = permuted(free, std_perm(seed, history, free.len()));
        (Some((drawn[0], drawn[1])), history.push(free.len()))
    }
}

/// `filled` with both positions of `pair` emptied.
pub open spec fn cleared(filled: Seq<bool>, pair: (usize, usize)) -> Seq<bool> {
    filled.update(pair.0 as int, false).update(pair.1 as int, false)
}

/// Taking `k` drawn pairs off `filled`: what remains filled (nothing when a
/// draw fails), and the history after.
pub open spec fn strip_draw(layout: Layout, filled: Seq<bool>, seed: u64, history: Seq<nat>, k: nat) -> (Option<Seq<bool>>, Seq<nat>)
    decreases k,
{
    if k == 0 {
        (Some(filled), history)
    } else {
        let (pair, h) = pick_draw(layout, filled, seed, history);
        match pair {
            None => (None, h),
            Some(p) => strip_draw(layout, cleared(filled, p), seed, h, (k - 1) as nat),
        }
    }
}

/// `draw` with `prefix` in front of the order it gives.
pub open spec fn after_prefix(prefix: Seq<(usize, usize)>, draw: (Option<Seq<(usize, usize)>>, Seq<nat>)) -> (Option<Seq<(usize, usize)>>, Seq<nat>) {
    match draw.0 {
        Some(o) => (Some(prefix + o), draw.1),
        None => (None, draw.1),
    }
}

/// The order of `k` pairs drawn off `filled` one after the other (nothing when
/// a draw fails), and the history after.
pub open spec fn order_draw(layout: Layout, filled: Seq<bool>, seed: u64, history: Seq<nat>, k: nat) -> (Option<Seq<(usize, usize)>>, Seq<nat>)
    decreases k,
{
    if k == 0 {
        (Some(Seq::empty()), history)
    } else {
        let (pair, h) = pick_draw(layout, filled, seed, history);
        match pair {
            None => (None, h),
            Some(p) => after_prefix(seq![p], order_draw(layout, cleared(filled, p), seed, h, (k - 1) as nat)),
        }
    }
}

/// Every one of `n` positions filled.
pub open spec fn all_filled(n: int) -> Seq<bool> {
    Seq::new(n as nat, |i: int| true)
}

/// The removal order one attempt draws for `tile_count` tiles: pairs are taken
/// off the full layout down to `tile_count` tiles, then the rest pair by pair.
pub open spec fn deal_order_draw(layout: Layout, tile_count: int, seed: u64, history: Seq<nat>) -> (Option<Seq<(usize, usize)>>, Seq<nat>) {
    let n = layout.positions.len() as int;
    let (start, h) = strip_draw(layout, all_filled(n), seed, history, ((n - tile_count) / 2) as nat);
    match start {
        None => (None, h),
        Some(s) => order_draw(layout, s, seed, h, (tile_count / 2) as nat),
    }
}

/// Each face of `s` twice in a row.
pub open spec fn twice(s: Seq<u8>) -> Seq<u8> {
    Seq::new(2 * s.len(), |i: int| s[i / 2])
}

/// The faces one attempt deals: the first `count` faces of the pool as the
/// generator shuffles it, each twice, shuffled again; and the history after.
pub open spec fn face_draw(pool: Seq<u8>, count: int, seed: u64, history: Seq<nat>) -> (Seq<u8>, Seq<nat>) {
    let chosen = permuted(pool, std_perm(seed, history, pool.len()));
    let h = history.push(pool.len());
    let pairs = twice(chosen.take(count));
    (permuted(pairs, std_perm(seed, h, pairs.len())), h.push(pairs.len()))
}

/// The tiles after dealing the first `k` pairs of `order`: pair `j` gets face
/// `faces[j]` on both its positions; the other positions stay empty.
pub open spec fn dealt_prefix(positions: Seq<TilePosition>, order: Seq<(usize, usize)>, faces: Seq<u8>, k: int) -> Seq<Option<Tile>>
    decreases k,
{
    if k <= 0 {
        Seq::new(positions.len(), |i: int| None::<Tile>)
    } else {
        let p = order[k - 1];
        dealt_prefix(positions, order, faces, k - 1)
            .update(p.0 as int, Some(Tile { face_id: faces[k - 1], position: positions[p.0 as int] }))
            .update(p.1 as int, Some(Tile { face_id: faces[k - 1], position: positions[p.1 as int] }))
    }
}

/// The number of default faces an attempt at `tile_count` tiles draws.
pub open spec fn default_face_count(tile_count: int) -> int {
    if tile_count / 2 / 2 < 50 { tile_count / 2 / 2 } else { 50 }
}

/// The tiles of one attempt with default faces (nothing when it fails), and
/// the history after.
pub open spec fn default_attempt(layout: Layout, tile_count: int, seed: u64, history: Seq<nat>) -> (Option<Seq<Option<Tile>>>, Seq<nat>) {
    let (order, h) = deal_order_draw(layout, tile_count, seed, history);
    match order {
        None => (None, h),
        Some(o) => {
            let (faces, h2) = face_draw(default_pool(), default_face_count(tile_count), seed, h);
            (Some(dealt_prefix(layout.positions@, o, faces, o.len() as int)), h2)
        },
    }
}

/// The tiles of one attempt with faces from `pool` (nothing when it fails),
/// and the history after.
pub open spec fn pool_attempt(layout: Layout, tile_count: int, pool: Seq<u8>, seed: u64, history: Seq<nat>) -> (Option<Seq<Option<Tile>>>, Seq<nat>) {
    let (order, h) = deal_order_draw(layout, tile_count, seed, history);
    match order {
        None => (None, h),
        Some(o) => {
            let (faces, h2) = face_draw(pool, tile_count / 2 / 2, seed, h);
            (Some(dealt_prefix(layout.positions@, o, faces, o.len() as int)), h2)
        },
    }
}

/// Up to `k` attempts with default faces: the tiles of the first that
/// succeeds (nothing when all fail), and the history after.
pub open spec fn default_attempts(layout: Layout, tile_count: int, seed: u64, history: Seq<nat>, k: nat) -> (Option<Seq<Option<Tile>>>, Seq<nat>)
    decreases k,
{
    if k == 0 {
        (None, history)
    } else {
        let (tiles, h) = default_attempt(layout, tile_count, seed, history);
        match tiles {
            Some(_) => (tiles, h),
            None => default_attempts(layout, tile_count, seed, h, (k - 1) as nat),
        }
    }
}

/// Up to `k` attempts with faces from `pool`: the tiles of the first that
/// succeeds (nothing when all fail), and the history after.
pub open spec fn pool_attempts(layout: Layout, tile_count: int, pool: Seq<u8>, seed: u64, history: Seq<nat>, k: nat) -> (Option<Seq<Option<Tile>>>, Seq<nat>)
    decreases k,
{
    if k == 0 {
        (None, history)
    } else {
        let (tiles, h) = pool_attempt(layout, tile_count, pool, seed, history);
        match tiles {
            Some(_) => (tiles, h),
            None => pool_attempts(layout, tile_count, pool, seed, h, (k - 1) as nat),
        }
    }
}

proof fn lemma_after_prefix_push(prefix: Seq<(usize, usize)>, p: (usize, usize), d: (Option<Seq<(usize, usize)>>, Seq<nat>))
    ensures
        after_prefix(prefix, after_prefix(seq![p], d)) == after_prefix(prefix.push(p), d),
{
    if let Some(o) = d.0 {
        assert(prefix + (seq![p] + o) =~= prefix.push(p) + o);
    }
}

proof fn lemma_after_empty_prefix(d: (Option<Seq<(usize, usize)>>, Seq<nat>))
    ensures
        after_prefix(Seq::empty(), d) == d,
{
    if let Some(o) = d.0 {
        assert(Seq::<(usize, usize)>::empty() + o =~= o);
    }
}

/// Generates solvable boards by reverse dealing, from a seeded generator.
pub struct BoardGenerator {
    rng: SeededRng,
}

/// Equal seeds give equal boards: what a generator deals depends only on its
/// seed and the lengths it has shuffled before, so two generators that agree
/// on both (two fresh ones from one seed) deal the same tiles, or fail alike,
/// on the same layout with the same arguments, and leave the same history.
pub proof fn lemma_equal_seeds_equal_boards(
    g1: BoardGenerator,
    g2: BoardGenerator,
    layout: Layout,
    tile_count: int,
    pool: Seq<u8>,
    attempts: nat,
)
    requires
        g1.seed() == g2.seed(),
        g1.history() == g2.history(),
    ensures
        default_attempts(layout, tile_count, g1.seed(), g1.history(), attempts)
            == default_attempts(layout, tile_count, g2.seed(), g2.history(), attempts),
        pool_attempts(layout, tile_count, pool, g1.seed(), g1.history(), attempts)
            == pool_attempts(layout, tile_count, pool, g2.seed(), g2.history(), attempts),
{
}

/// Number of default faces that boards draw from.
pub const DEFAULT_FACE_COUNT: u8 = 50;

impl BoardGenerator {
    /// The seed the generator was made with.
    pub closed spec fn seed(&self) -> u64 {
        self.rng.seed()
    }

    /// The lengths of the slices the generator has shuffled, in order.
    pub closed spec fn history(&self) -> Seq<nat> {
        self.rng.history()
    }

    /// A generator seeded with `seed`; equal seeds give equal boards.
    pub fn new(seed: u64) -> (g: Self)
        ensures
            g.seed() == seed,
            g.history() == Seq::<nat>::empty(),
    {
        BoardGenerator { rng: SeededRng::new(seed) }
    }

    /// The free positions among the filled positions, in increasing order.
    fn find_free_positions(&self, filled: &Vec<bool>, layout: &Layout) -> (free: Vec<usize>)
        requires
            layout.wf(),
            filled.len() == layout.positions.len(),
        ensures
            lists_free(free@, *layout, filled@),
            free@ == free_list(*layout, filled@),
    {
        let mut free: Vec<usize> = Vec::new();
        let mut i: usize = 0;
        while i < filled.len()
            invariant
                layout.wf(),
                filled.len() == layout.positions.len(),
                i <= filled.len(),
                lists_free_below(free@, *layout, filled@, i as int),
                free@ == free_below(*layout, filled@, i as int),
            decreases filled.len() - i,
        {
            let ghost before = free@;
            let mut is_free = false;
            if filled[i] {
                let relation = &layout.blocking[i];
                assert(crate::board::relation_matches(layout.positions@, i as int, layout.blocking@[i as int]));
                assert(forall|k: int| 0 <= k < relation.blocked_by.len() ==> #[trigger] relation.blocked_by@[k] < filled.len());
                assert(forall|k: int| 0 <= k < relation.left_adjacent.len() ==> #[trigger] relation.left_adjacent@[k] < filled.len());
                assert(forall|k: int| 0 <= k < relation.right_adjacent.len() ==> #[trigger] relation.right_adjacent@[k] < filled.len());
                if all_unfilled(filled, &relation.blocked_by) {
                    let left_clear = all_unfilled(filled, &relation.left_adjacent);
                    let right_clear = all_unfilled(filled, &relation.right_adjacent);
                    is_free = left_clear || right_clear;
                }
            }
            assert(is_free == free_in(*layout, filled@, i as int));
            if is_free {
                free.push(i);
                assert(forall|k: int| 0 <= k < before.len() ==> free@[k] == before[k]);
                assert(free@[free@.len() - 1] == i);
            }
            assert forall|p: int| 0 <= p < i + 1 && #[trigger] free_in(*layout, filled@, p) implies free@.contains(p as usize) by {
                if p < i {
                    assert(before.contains(p as usize));
                    let k = choose|k: int| 0 <= k < before.len() && before[k] == p as usize;
                    assert(free@[k] == p as usize);
                } else {
                    assert(free@[free@.len() - 1] == p as usize);
                }
            }
            i = i + 1;
        }
        free
    }

    /// Picks two different free positions of `filled` at random; `None` exactly
    /// when fewer than two positions are free.
    fn pick_free_pair(&mut self, filled: &Vec<bool>, layout: &Layout) -> (r: Option<(usize, usize)>)
        requires
            layout.wf(),
            filled.len() == layout.positions.len(),
        ensures
            r == pick_draw(*layout, filled@, old(self).seed(), old(self).history()).0,
            final(self).seed() == old(self).seed(),
            final(self).history() == pick_draw(*layout, filled@, old(self).seed(), old(self).history()).1,
            r is Some <==> two_free(*layout, filled@),
            r matches Some(p) ==> {
                &&& p.0 != p.1
                &&& p.0 < filled.len()
                &&& p.1 < filled.len()
                &&& free_in(*layout, filled@, p.0 as int)
                &&& free_in(*layout, filled@, p.1 as int)
            },
    {
        let free_positions = self.find_free_positions(filled, layout);
        if free_positions.len() < 2 {
            proof {
                if two_free(*layout, filled@) {
                    let (a, b) = choose|a: int, b: int| #[trigger] free_in(*layout, filled@, a) && #[trigger] free_in(*layout, filled@, b)
                        && 0 <= a < filled@.len() && 0 <= b < filled@.len() && a != b;
                    assert(free_positions@.contains(a as usize));
                    assert(free_positions@.contains(b as usize));
                    let i = choose|i: int| 0 <= i < free_positions@.len() && free_positions@[i] == a as usize;
                    let j = choose|j: int| 0 <= j < free_positions@.len() && free_positions@[j] == b as usize;
                    assert(false);
                }
            }
            return None;
        }
        proof {
            let a = free_positions@[0] as int;
            let b = free_positions@[1] as int;
            assert(free_in(*layout, filled@, a) && free_in(*layout, filled@, b) && 0 <= a < filled@.len() && 0 <= b < filled@.len() && a != b);
        }
        let ghost listed = free_positions@;
        let mut candidates = free_positions;
        shuffle_seeded(&mut candidates, &mut self.rng);
        proof {
            lemma_shuffled_front(listed, candidates@);
            let k0 = choose|k: int| 0 <= k < listed.len() && listed[k] == candidates@[0];
            let k1 = choose|k: int| 0 <= k < listed.len() && listed[k] == candidates@[1];
        }
        Some((candidates[0], candidates[1]))
    }

    /// Takes pairs of free positions off a full layout until `tile_count`
    /// positions remain filled, then takes the rest off pair by pair; that last
    /// sequence of pairs is the removal order.
    fn deal_order(&mut self, layout: &Layout, tile_count: usize) -> (r: Result<Vec<(usize, usize)>, GenerationError>)
        requires
            layout.wf(),
            tile_count <= layout.positions.len(),
        ensures
            r matches Ok(order) ==> {
                &&& order.len() == tile_count / 2
                &&& exists|occ: Seq<bool>| occ.len() == layout.positions.len() && removable(*layout, occ, order@)
            },
            r matches Err(e) ==> e == GenerationError::NoFreePairs,
            never_blocked(*layout) ==> r is Ok,
            r matches Ok(order) ==> deal_order_draw(*layout, tile_count as int, old(self).seed(), old(self).history()).0 == Some(order@),
            r is Err ==> deal_order_draw(*layout, tile_count as int, old(self).seed(), old(self).history()).0 is None,
            final(self).seed() == old(self).seed(),
            final(self).history() == deal_order_draw(*layout, tile_count as int, old(self).seed(), old(self).history()).1,
    {
        let ghost seed = self.seed();
        let ghost h0 = self.history();
        let num_positions = layout.positions.len();
        let num_pairs = tile_count / 2;
        let pairs_to_remove = (num_positions - tile_count) / 2;
        let mut filled: Vec<bool> = Vec::with_capacity(num_positions);
        let mut i: usize = 0;
        while i < num_positions
            invariant
                i <= num_positions,
                filled.len() == i,
                filled_count(filled@) == i,
                forall|j: int| 0 <= j < i ==> filled@[j],
            decreases num_positions - i,
        {
            proof { lemma_filled_count_push(filled@, true); }
            filled.push(true);
            i = i + 1;
        }
        assert(filled@ =~= all_filled(num_positions as int));
        // Bring the board down to the target tile count; these slots stay empty.
        let mut removed_pairs: usize = 0;
        while removed_pairs < pairs_to_remove
            invariant
                layout.wf(),
                filled.len() == num_positions,
                num_positions == layout.positions.len(),
                removed_pairs <= pairs_to_remove,
                pairs_to_remove == (num_positions - tile_count) / 2,
                tile_count <= num_positions,
                filled_count(filled@) + 2 * removed_pairs == num_positions,
                self.seed() == seed,
                seed == old(self).seed(),
                h0 == old(self).history(),
                strip_draw(*layout, all_filled(num_positions as int), seed, h0, pairs_to_remove as nat)
                    == strip_draw(*layout, filled@, seed, self.history(), (pairs_to_remove - removed_pairs) as nat),
            decreases pairs_to_remove - removed_pairs,
        {
            let ghost before = filled@;
            let ghost hb = self.history();
            match self.pick_free_pair(&filled, layout) {
                Some((a, b)) => {
                    proof {
                        lemma_filled_count_clear(filled@, a as int);
                        lemma_filled_count_clear(filled@.update(a as int, false), b as int);
                    }
                    filled.set(a, false);
                    filled.set(b, false);
                    assert(filled@ == cleared(before, (a, b)));
                    assert(strip_draw(*layout, before, seed, hb, (pairs_to_remove - removed_pairs) as nat)
                        == strip_draw(*layout, cleared(before, (a, b)), seed, self.history(), (pairs_to_remove - removed_pairs - 1) as nat));
                },
                None => {
                    proof {
                        if never_blocked(*layout) {
                            lemma_two_free_when_unblocked(*layout, filled@);
                        }
                        assert(strip_draw(*layout, before, seed, hb, (pairs_to_remove - removed_pairs) as nat) == (None::<Seq<bool>>, hb));
                    }
                    return Err(GenerationError::NoFreePairs);
                },
            }
            removed_pairs = removed_pairs + 1;
        }
        assert(strip_draw(*layout, all_filled(num_positions as int), seed, h0, pairs_to_remove as nat) == (Some(filled@), self.history()));
        // Take the remaining tiles off pair by pair: the removal order.
        let ghost start = filled@;
        let ghost h_start = self.history();
        proof { lemma_after_empty_prefix(order_draw(*layout, start, seed, h_start, num_pairs as nat)); }
        let mut order: Vec<(usize, usize)> = Vec::with_capacity(num_pairs);
        let mut step: usize = 0;
        while step < num_pairs
            invariant
                layout.wf(),
                num_positions == layout.positions.len(),
                start.len() == num_positions,
                step <= num_pairs,
                num_pairs == tile_count / 2,
                filled_count(start) >= tile_count,
                order.len() == step,
                removable(*layout, start, order@),
                filled@ == after_removals(start, order@),
                filled.len() == num_positions,
                filled_count(filled@) + 2 * step == filled_count(start),
                self.seed() == seed,
                seed == old(self).seed(),
                h0 == old(self).history(),
                deal_order_draw(*layout, tile_count as int, seed, h0) == order_draw(*layout, start, seed, h_start, num_pairs as nat),
                order_draw(*layout, start, seed, h_start, num_pairs as nat)
                    == after_prefix(order@, order_draw(*layout, filled@, seed, self.history(), (num_pairs - step) as nat)),
            decreases num_pairs - step,
        {
            let ghost before = filled@;
            let ghost hb = self.history();
            let ghost ob = order@;
            match self.pick_free_pair(&filled, layout) {
                Some((a, b)) => {
                    proof {
                        assert(order_draw(*layout, before, seed, hb, (num_pairs - step) as nat)
                            == after_prefix(seq![(a, b)], order_draw(*layout, cleared(before, (a, b)), seed, self.history(), (num_pairs - step - 1) as nat)));
                        lemma_after_prefix_push(ob, (a, b), order_draw(*layout, cleared(before, (a, b)), seed, self.history(), (num_pairs - step - 1) as nat));
                        lemma_removable_push(*layout, start, order@, a, b);
                        lemma_filled_count_clear(filled@, a as int);
                        lemma_filled_count_clear(filled@.update(a as int, false), b as int);
                    }
                    filled.set(a, false);
                    filled.set(b, false);
                    order.push((a, b));
                    assert(filled@ == cleared(before, (a, b)));
                },
                None => {
                    proof {
                        if never_blocked(*layout) {
                            lemma_two_free_when_unblocked(*layout, filled@);
                        }
                        assert(order_draw(*layout, before, seed, hb, (num_pairs - step) as nat) == (None::<Seq<(usize, usize)>>, hb));
                    }
                    return Err(GenerationError::NoFreePairs);
                },
            }
            step = step + 1;
        }
        assert(order@ + Seq::<(usize, usize)>::empty() =~= order@);
        Ok(order)
    }

    /// Deals the tiles onto a fresh board: the two slots of pair `k` of `order`
    /// get face `faces[k]`.
    fn deal_board(layout: &Rc<Layout>, order: &Vec<(usize, usize)>, faces: &Vec<u8>) -> (board: Board)
        requires
            layout.wf(),
            faces.len() >= order.len(),
            exists|occ: Seq<bool>| occ.len() == layout.positions.len() && removable(**layout, occ, order@),
        ensures
            board.layout == *layout,
            board.wf(),
            clears(**layout, board.tiles@, order@),
            tiles_at_own_positions(**layout, board.tiles@),
            forall|k: int| 0 <= k < order.len() ==> board.tiles@[(#[trigger] order@[k]).0 as int].unwrap().face_id == faces@[k],
            board.tiles@ == dealt_prefix(layout.positions@, order@, faces@, order.len() as int),
    {
        let ghost occ = choose|occ: Seq<bool>| occ.len() == layout.positions.len() && removable(**layout, occ, order@);
        proof { lemma_removable_facts_ref(&**layout, occ, order@); }
        let mut board = Board::new(layout);
        let mut idx: usize = 0;
        while idx < order.len()
            invariant
                layout.wf(),
                board.layout == *layout,
                board.tiles.len() == layout.positions.len(),
                occ.len() == layout.positions.len(),
                idx <= order.len(),
                faces.len() >= order.len(),
                pairwise_distinct(order@),
                forall|i: int| #[trigger] in_order(order@, i) ==> 0 <= i < occ.len() && occ[i],
                forall|k: int| 0 <= k < idx ==> {
                    let p = #[trigger] order@[k];
                    &&& board.tiles@[p.0 as int] == Some(Tile { face_id: faces@[k], position: layout.positions@[p.0 as int] })
                    &&& board.tiles@[p.1 as int] == Some(Tile { face_id: faces@[k], position: layout.positions@[p.1 as int] })
                },
                forall|i: int| 0 <= i < board.tiles.len() && !in_order(order@.take(idx as int), i) ==> #[trigger] board.tiles@[i] is None,
                board.tiles@ == dealt_prefix(layout.positions@, order@, faces@, idx as int),
            decreases order.len() - idx,
        {
            let (pos_a, pos_b) = order[idx];
            assert(in_order(order@, pos_a as int) && in_order(order@, pos_b as int)) by {
                assert(order@[idx as int] == (pos_a, pos_b));
            }
            let face_id = faces[idx];
            assert(pos_a != pos_b) by {
                assert(order@[idx as int].0 != order@[idx as int].1);
            }
            let ghost before = board.tiles@;
            board.tiles.set(pos_a, Some(Tile { face_id, position: layout.positions[pos_a] }));
            board.tiles.set(pos_b, Some(Tile { face_id, position: layout.positions[pos_b] }));
            assert forall|k: int| 0 <= k < idx + 1 implies {
                let p = #[trigger] order@[k];
                &&& board.tiles@[p.0 as int] == Some(Tile { face_id: faces@[k], position: layout.positions@[p.0 as int] })
                &&& board.tiles@[p.1 as int] == Some(Tile { face_id: faces@[k], position: layout.positions@[p.1 as int] })
            } by {
                if k < idx {
                    let p = order@[k];
                    let q = order@[idx as int];
                    assert(p.0 != q.0 && p.0 != q.1 && p.1 != q.0 && p.1 != q.1);
                    assert(in_order(order@, p.0 as int));
                    assert(in_order(order@, p.1 as int));
                    assert(board.tiles@[p.0 as int] == before[p.0 as int]);
                    assert(board.tiles@[p.1 as int] == before[p.1 as int]);
                } else {
                    assert(order@[k] == (pos_a, pos_b));
                }
            }
            assert forall|i: int| 0 <= i < board.tiles.len() && !in_order(order@.take(idx + 1), i) implies #[trigger] board.tiles@[i] is None by {
                assert(order@.take(idx + 1)[idx as int] == (pos_a, pos_b));
                if in_order(order@.take(idx as int), i) {
                    let k = choose|k: int| 0 <= k < idx && (order@.take(idx as int)[k].0 == i || order@.take(idx as int)[k].1 == i);
                    assert(order@.take(idx + 1)[k] == order@.take(idx as int)[k]);
                }
            }
            idx = idx + 1;
        }
        proof {
            assert(order@.take(order.len() as int) =~= order@);
            let tiles = board.tiles@;
            assert forall|i: int| 0 <= i < tiles.len() implies ((#[trigger] tiles[i]) is Some <==> in_order(order@, i)) by {
                if in_order(order@, i) {
                    let k = choose|k: int| 0 <= k < order.len() && (order@[k].0 == i || order@[k].1 == i);
                    let p = order@[k];
                }
            }
            assert(occupancy_within(occupancy(tiles), occ)) by {
                assert forall|i: int| 0 <= i < tiles.len() && #[trigger] occupancy(tiles)[i] implies occ[i] by {
                    assert(in_order(order@, i));
                }
            }
            assert forall|k: int| 0 <= k < order.len() implies #[trigger] same_face(tiles, order@[k]) by {
                let p = order@[k];
            }
            lemma_dealt_order_clears_ref(&**layout, occ, tiles, order@);
            assert forall|i: int| 0 <= i < tiles.len() && (#[trigger] tiles[i]) is Some implies tiles[i].unwrap().position == layout.positions@[i] by {
                assert(in_order(order@, i));
                let k = choose|k: int| 0 <= k < order.len() && (order@[k].0 == i || order@[k].1 == i);
                let p = order@[k];
            }
        }
        board
    }
}


impl BoardGenerator {
    /// Draws `count` faces from a shuffled copy of `pool`, takes each twice,
    /// and shuffles the result: the faces of the pairs.
    fn choose_face_pairs(&mut self, pool: &[u8], count: usize) -> (faces: Vec<u8>)
        requires
            count <= pool@.len(),
        ensures
            faces@ == face_draw(pool@, count as int, old(self).seed(), old(self).history()).0,
            final(self).seed() == old(self).seed(),
            final(self).history() == face_draw(pool@, count as int, old(self).seed(), old(self).history()).1,
            faces@.len() == 2 * count,
            exists|sel: Seq<u8>| {
                &&& sel.len() == count
                &&& sel.to_multiset().subset_of(pool@.to_multiset())
                &&& faces@.to_multiset() == doubled(sel)
            },
    {
        broadcast use vstd::seq_lib::group_to_multiset_ensures;
        broadcast use vstd::multiset::group_multiset_axioms;
        let mut candidates: Vec<u8> = Vec::with_capacity(pool.len());
        let mut i: usize = 0;
        while i < pool.len()
            invariant
                i <= pool@.len(),
                candidates@ == pool@.take(i as int),
            decreases pool@.len() - i,
        {
            candidates.push(pool[i]);
            i = i + 1;
            assert(candidates@ =~= pool@.take(i as int));
        }
        assert(candidates@ =~= pool@);
        let ghost h0 = self.history();
        shuffle_seeded(&mut candidates, &mut self.rng);
        let mut faces: Vec<u8> = Vec::new();
        let mut k: usize = 0;
        while k < count
            invariant
                k <= count,
                count <= candidates@.len(),
                faces@.len() == 2 * k,
                faces@.to_multiset() == doubled(candidates@.take(k as int)),
                faces@ == twice(candidates@.take(k as int)),
            decreases count - k,
        {
            let face_id = candidates[k];
            let ghost before = faces@;
            faces.push(face_id);
            faces.push(face_id);
            assert(candidates@.take(k + 1) =~= candidates@.take(k as int).push(face_id));
            assert(faces@ =~= before.push(face_id).push(face_id));
            proof {
                vstd::seq_lib::to_multiset_build(candidates@.take(k as int), face_id);
                vstd::seq_lib::to_multiset_build(before, face_id);
                vstd::seq_lib::to_multiset_build(before.push(face_id), face_id);
            }
            assert(faces@.to_multiset() =~= before.to_multiset().insert(face_id).insert(face_id));
            assert(faces@.to_multiset() =~= doubled(candidates@.take(k + 1)));
            assert(faces@ =~= twice(candidates@.take(k + 1)));
            k = k + 1;
        }
        assert(candidates@.take(count as int) =~= permuted(pool@, std_perm(self.seed(), h0, pool@.len())).take(count as int));
        shuffle_seeded(&mut faces, &mut self.rng);
        proof {
            let sel = candidates@.take(count as int);
            let rest = candidates@.skip(count as int);
            assert(candidates@ =~= sel + rest);
            vstd::seq_lib::lemma_multiset_commutative(sel, rest);
            assert(sel.to_multiset().subset_of(pool@.to_multiset()));
        }
        faces
    }

    /// One attempt at a board of `tile_count` tiles with default faces.
    fn try_generate_with_solution_tiles(&mut self, layout: &Rc<Layout>, tile_count: usize)
        -> (r: Result<(Board, Vec<(usize, usize)>), GenerationError>)
        requires
            layout.wf(),
            tile_count <= layout.positions.len(),
            default_faces_fit(tile_count as int),
        ensures
            r matches Ok((board, order)) ==> {
                &&& board.layout == *layout
                &&& board.wf()
                &&& dealt_with_default_faces(**layout, board.tiles@, order@, tile_count as int)
            },
            r matches Err(e) ==> e == GenerationError::NoFreePairs,
            never_blocked(**layout) ==> r is Ok,
            r matches Ok((board, _)) ==> default_attempt(**layout, tile_count as int, old(self).seed(), old(self).history()).0 == Some(board.tiles@),
            r is Err ==> default_attempt(**layout, tile_count as int, old(self).seed(), old(self).history()).0 is None,
            final(self).seed() == old(self).seed(),
            final(self).history() == default_attempt(**layout, tile_count as int, old(self).seed(), old(self).history()).1,
    {
        let order = match self.deal_order(&**layout, tile_count) {
            Ok(order) => order,
            Err(e) => return Err(e),
        };
        let num_pairs = tile_count / 2;
        let num_faces = num_pairs / 2;
        let mut available_faces: Vec<u8> = Vec::with_capacity(50);
        let mut f: u8 = 0;
        while f < DEFAULT_FACE_COUNT
            invariant
                f <= 50,
                available_faces@ == default_pool().take(f as int),
            decreases 50 - f,
        {
            available_faces.push(f);
            f = f + 1;
            assert(available_faces@ =~= default_pool().take(f as int));
        }
        assert(available_faces@ =~= default_pool());
        let count = if num_faces < 50 { num_faces } else { 50 };
        let faces = self.choose_face_pairs(available_faces.as_slice(), count);
        let board = Self::deal_board(layout, &order, &faces);
        proof {
            lemma_clears_count(&**layout, board.tiles@, order@);
            assert(pair_faces(board.tiles@, order@) =~= faces@);
            let sel = choose|sel: Seq<u8>| {
                &&& sel.len() == count
                &&& sel.to_multiset().subset_of(default_pool().to_multiset())
                &&& faces@.to_multiset() == doubled(sel)
            };
            lemma_default_selection(sel);
        }
        Ok((board, order))
    }

    /// One attempt at a board of `tile_count` tiles with faces drawn from `face_pool`.
    fn try_generate_with_faces(&mut self, layout: &Rc<Layout>, tile_count: usize, face_pool: &[u8])
        -> (r: Result<(Board, Vec<(usize, usize)>), GenerationError>)
        requires
            layout.wf(),
            tile_count <= layout.positions.len(),
            tile_count % 4 == 0,
            tile_count / 4 <= face_pool@.len(),
        ensures
            r matches Ok((board, order)) ==> {
                &&& board.layout == *layout
                &&& board.wf()
                &&& dealt_with_pool_faces(**layout, board.tiles@, order@, tile_count as int, face_pool@)
            },
            r matches Err(e) ==> e == GenerationError::NoFreePairs,
            never_blocked(**layout) ==> r is Ok,
            r matches Ok((board, _)) ==> pool_attempt(**layout, tile_count as int, face_pool@, old(self).seed(), old(self).history()).0 == Some(board.tiles@),
            r is Err ==> pool_attempt(**layout, tile_count as int, face_pool@, old(self).seed(), old(self).history()).0 is None,
            final(self).seed() == old(self).seed(),
            final(self).history() == pool_attempt(**layout, tile_count as int, face_pool@, old(self).seed(), old(self).history()).1,
    {
        let order = match self.deal_order(&**layout, tile_count) {
            Ok(order) => order,
            Err(e) => return Err(e),
        };
        let num_pairs = tile_count / 2;
        let num_faces = num_pairs / 2;
        let faces = self.choose_face_pairs(face_pool, num_faces);
        let board = Self::deal_board(layout, &order, &faces);
        proof {
            lemma_clears_count(&**layout, board.tiles@, order@);
            assert(pair_faces(board.tiles@, order@) =~= faces@);
            assert(dealt_with_pool_faces(**layout, board.tiles@, order@, tile_count as int, face_pool@));
        }
        Ok((board, order))
    }

    /// Generates a solvable board on all slots of `layout`, trying up to
    /// `max_attempts` times, and returns it with its solution: the order in
    /// which to take pairs off to clear it.
    pub fn generate_with_solution(&mut self, layout: &Rc<Layout>, max_attempts: u32)
        -> (r: Result<(Board, Vec<(usize, usize)>), GenerationError>)
        requires
            layout.wf(),
            max_attempts > 0 ==> default_faces_fit(layout.positions.len() as int),
        ensures
            r matches Ok((board, order)) ==> {
                &&& board.layout == *layout
                &&& board.wf()
                &&& dealt_with_default_faces(**layout, board.tiles@, order@, layout.positions.len() as int)
            },
            r matches Err(e) ==> e == GenerationError::MaxAttemptsExceeded,
            max_attempts == 0 ==> r is Err,
            max_attempts > 0 && never_blocked(**layout) ==> r is Ok,
            r matches Ok((board, _)) ==> default_attempts(**layout, layout.positions.len() as int, old(self).seed(), old(self).history(), max_attempts as nat).0 == Some(board.tiles@),
            r is Err ==> default_attempts(**layout, layout.positions.len() as int, old(self).seed(), old(self).history(), max_attempts as nat).0 is None,
            final(self).seed() == old(self).seed(),
            final(self).history() == default_attempts(**layout, layout.positions.len() as int, old(self).seed(), old(self).history(), max_attempts as nat).1,
    {
        let mut attempt: u32 = 0;
        while attempt < max_attempts
            invariant
                layout.wf(),
                max_attempts > 0 ==> default_faces_fit(layout.positions.len() as int),
                attempt <= max_attempts,
                attempt > 0 ==> !never_blocked(**layout),
                self.seed() == old(self).seed(),
                default_attempts(**layout, layout.positions.len() as int, old(self).seed(), old(self).history(), max_attempts as nat)
                    == default_attempts(**layout, layout.positions.len() as int, self.seed(), self.history(), (max_attempts - attempt) as nat),
            decreases max_attempts - attempt,
        {
            match self.try_generate_with_solution(layout) {
                Ok(result) => return Ok(result),
                Err(GenerationError::NoFreePairs) => {},
                Err(e) => return Err(e),
            }
            attempt = attempt + 1;
        }
        Err(GenerationError::MaxAttemptsExceeded)
    }

    /// One attempt at a board on all slots of `layout`.
    fn try_generate_with_solution(&mut self, layout: &Rc<Layout>)
        -> (r: Result<(Board, Vec<(usize, usize)>), GenerationError>)
        requires
            layout.wf(),
            default_faces_fit(layout.positions.len() as int),
        ensures
            r matches Ok((board, order)) ==> {
                &&& board.layout == *layout
                &&& board.wf()
                &&& dealt_with_default_faces(**layout, board.tiles@, order@, layout.positions.len() as int)
            },
            r matches Err(e) ==> e == GenerationError::NoFreePairs,
            never_blocked(**layout) ==> r is Ok,
            r matches Ok((board, _)) ==> default_attempt(**layout, layout.positions.len() as int, old(self).seed(), old(self).history()).0 == Some(board.tiles@),
            r is Err ==> default_attempt(**layout, layout.positions.len() as int, old(self).seed(), old(self).history()).0 is None,
            final(self).seed() == old(self).seed(),
            final(self).history() == default_attempt(**layout, layout.positions.len() as int, old(self).seed(), old(self).history()).1,
    {
        self.try_generate_with_solution_tiles(layout, layout.positions.len())
    }

    /// Generates a solvable board on all slots of `layout`, trying up to
    /// `max_attempts` times.
    pub fn generate(&mut self, layout: &Rc<Layout>, max_attempts: u32) -> (r: Result<Board, GenerationError>)
        requires
            layout.wf(),
            max_attempts > 0 ==> default_faces_fit(layout.positions.len() as int),
        ensures
            r matches Ok(board) ==> {
                &&& board.layout == *layout
                &&& board.wf()
                &&& exists|order: Seq<(usize, usize)>| #[trigger] dealt_with_default_faces(**layout, board.tiles@, order, layout.positions.len() as int)
            },
            r matches Err(e) ==> e == GenerationError::MaxAttemptsExceeded,
            max_attempts == 0 ==> r is Err,
            max_attempts > 0 && never_blocked(**layout) ==> r is Ok,
            r matches Ok(board) ==> default_attempts(**layout, layout.positions.len() as int, old(self).seed(), old(self).history(), max_attempts as nat).0 == Some(board.tiles@),
            r is Err ==> default_attempts(**layout, layout.positions.len() as int, old(self).seed(), old(self).history(), max_attempts as nat).0 is None,
            final(self).seed() == old(self).seed(),
            final(self).history() == default_attempts(**layout, layout.positions.len() as int, old(self).seed(), old(self).history(), max_attempts as nat).1,
    {
        let (board, order) = self.generate_with_solution(layout, max_attempts)?;
        proof { lemma_default_witness(&**layout, board.tiles@, order@, layout.positions.len() as int); }
        Ok(board)
    }

    /// Generates a solvable board with `tile_count` tiles on `layout` (the
    /// other slots stay empty), trying up to `max_attempts` times.
    /// `tile_count` must be a multiple of 4 and fit the layout.
    pub fn generate_with_tile_count(&mut self, layout: &Rc<Layout>, tile_count: usize, max_attempts: u32)
        -> (r: Result<Board, GenerationError>)
        requires
            layout.wf(),
            tile_count % 4 == 0,
            tile_count <= layout.positions.len(),
            max_attempts > 0 ==> tile_count <= 200,
        ensures
            r matches Ok(board) ==> {
                &&& board.layout == *layout
                &&& board.wf()
                &&& exists|order: Seq<(usize, usize)>| #[trigger] dealt_with_default_faces(**layout, board.tiles@, order, tile_count as int)
            },
            r matches Err(e) ==> e == GenerationError::MaxAttemptsExceeded,
            max_attempts == 0 ==> r is Err,
            max_attempts > 0 && never_blocked(**layout) ==> r is Ok,
            r matches Ok(board) ==> default_attempts(**layout, tile_count as int, old(self).seed(), old(self).history(), max_attempts as nat).0 == Some(board.tiles@),
            r is Err ==> default_attempts(**layout, tile_count as int, old(self).seed(), old(self).history(), max_attempts as nat).0 is None,
            final(self).seed() == old(self).seed(),
            final(self).history() == default_attempts(**layout, tile_count as int, old(self).seed(), old(self).history(), max_attempts as nat).1,
    {
        let mut attempt: u32 = 0;
        while attempt < max_attempts
            invariant
                layout.wf(),
                tile_count % 4 == 0,
                tile_count <= layout.positions.len(),
                max_attempts > 0 ==> tile_count <= 200,
                attempt <= max_attempts,
                attempt > 0 ==> !never_blocked(**layout),
                self.seed() == old(self).seed(),
                default_attempts(**layout, tile_count as int, old(self).seed(), old(self).history(), max_attempts as nat)
                    == default_attempts(**layout, tile_count as int, self.seed(), self.history(), (max_attempts - attempt) as nat),
            decreases max_attempts - attempt,
        {
            match self.try_generate_with_solution_tiles(layout, tile_count) {
                Ok((board, order)) => {
                    proof { lemma_default_witness(&**layout, board.tiles@, order@, tile_count as int); }
                    return Ok(board);
                },
                Err(GenerationError::NoFreePairs) => {},
                Err(e) => return Err(e),
            }
            attempt = attempt + 1;
        }
        Err(GenerationError::MaxAttemptsExceeded)
    }

    /// Generates a solvable board with `tile_count` tiles whose faces are drawn
    /// from `face_pool`, trying up to `max_attempts` times. `tile_count` must be
    /// a multiple of 4 that fits the layout, and the pool must hold at least
    /// `tile_count / 4` faces.
    pub fn generate_with_faces(&mut self, layout: &Rc<Layout>, tile_count: usize, face_pool: &[u8], max_attempts: u32)
        -> (r: Result<Board, GenerationError>)
        requires
            layout.wf(),
            tile_count % 4 == 0,
            tile_count <= layout.positions.len(),
            tile_count / 4 <= face_pool@.len(),
        ensures
            r matches Ok(board) ==> {
                &&& board.layout == *layout
                &&& board.wf()
                &&& exists|order: Seq<(usize, usize)>| #[trigger] dealt_with_pool_faces(**layout, board.tiles@, order, tile_count as int, face_pool@)
            },
            r matches Err(e) ==> e == GenerationError::MaxAttemptsExceeded,
            max_attempts == 0 ==> r is Err,
            max_attempts > 0 && never_blocked(**layout) ==> r is Ok,
            r matches Ok(board) ==> pool_attempts(**layout, tile_count as int, face_pool@, old(self).seed(), old(self).history(), max_attempts as nat).0 == Some(board.tiles@),
            r is Err ==> pool_attempts(**layout, tile_count as int, face_pool@, old(self).seed(), old(self).history(), max_attempts as nat).0 is None,
            final(self).seed() == old(self).seed(),
            final(self).history() == pool_attempts(**layout, tile_count as int, face_pool@, old(self).seed(), old(self).history(), max_attempts as nat).1,
    {
        let mut attempt: u32 = 0;
        while attempt < max_attempts
            invariant
                layout.wf(),
                tile_count % 4 == 0,
                tile_count <= layout.positions.len(),
                tile_count / 4 <= face_pool@.len(),
                attempt <= max_attempts,
                attempt > 0 ==> !never_blocked(**layout),
                self.seed() == old(self).seed(),
                pool_attempts(**layout, tile_count as int, face_pool@, old(self).seed(), old(self).history(), max_attempts as nat)
                    == pool_attempts(**layout, tile_count as int, face_pool@, self.seed(), self.history(), (max_attempts - attempt) as nat),
            decreases max_attempts - attempt,
        {
            match self.try_generate_with_faces(layout, tile_count, face_pool) {
                Ok((board, order)) => {
                    proof { lemma_pool_witness(&**layout, board.tiles@, order@, tile_count as int, face_pool@); }
                    return Ok(board);
                },
                Err(GenerationError::NoFreePairs) => {},
                Err(e) => return Err(e),
            }
            attempt = attempt + 1;
        }
        Err(GenerationError::MaxAttemptsExceeded)
    }
}

} // verus!
