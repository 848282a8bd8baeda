//! Board module: the tile layout, blocking relations between positions, and
//! free-tile detection.

use std::rc::Rc;
use vstd::prelude::*;

verus! {

/// A position in a layout, in half-tile grid units: each tile covers a 2x2 area.
#[derive(Debug, Clone, Copy, PartialEq, Eq, Hash)]
pub struct TilePosition {
    /// Layer index; layer 0 is the bottom.
    pub layer: u8,
    /// Row coordinate in the half-tile grid.
    pub row: u8,
    /// Column coordinate in the half-tile grid.
    pub col: u8,
}

/// A tile on the board: its face image and the position it occupies.
#[derive(Debug, Clone, Copy, PartialEq, Eq)]
pub struct Tile {
    /// Face image identifier; two tiles match when their faces are equal.
    pub face_id: u8,
    /// The position this tile occupies.
    pub position: TilePosition,
}

/// Blocking relations of a single position: which positions rest on it, and which
/// positions touch it on the left and on the right.
#[derive(Debug, Clone)]
pub struct BlockingRelation {
    /// The position index this relation describes.
    pub position: usize,
    /// Indices of positions one layer higher whose footprint overlaps this one.
    pub blocked_by: Vec<usize>,
    /// Indices of positions on the same layer directly to the left.
    pub left_adjacent: Vec<usize>,
    /// Indices of positions on the same layer directly to the right.
    pub right_adjacent: Vec<usize>,
}

/// A layout: the tile slots and the blocking relations of each slot.
#[derive(Debug)]
pub struct Layout {
    /// All tile slot positions.
    pub positions: Vec<TilePosition>,
    /// The blocking relations, one per position, in position order.
    pub blocking: Vec<BlockingRelation>,
}

/// The board: a tile (or nothing) at each position of a shared layout.
#[derive(Debug)]
pub struct Board {
    /// Tile slots indexed by position; `None` means the position is empty.
    pub tiles: Vec<Option<Tile>>,
    /// The layout this board is laid out on.
    pub layout: Rc<Layout>,
}

// ---------------------------------------------------------------------------
// Geometry
// ---------------------------------------------------------------------------

/// Two 2-unit wide intervals starting at `a` and `b` intersect.
pub open spec fn spans_overlap(a: int, b: int) -> bool {
    a < b + 2 && b < a + 2
}

/// The kinds of relation a position can have with another position.
pub enum Relation {
    /// The other position lies one layer higher and overlaps this one.
    Above,
    /// The other position lies on the same layer, directly to the left.
    Left,
    /// The other position lies on the same layer, directly to the right.
    Right,
}

/// `other` stands in relation `kind` to `pos`.
pub open spec fn related(kind: Relation, pos: TilePosition, other: TilePosition) -> bool {
    match kind {
        Relation::Above => other.layer == pos.layer + 1 && spans_overlap(pos.col as int, other.col as int)
            && spans_overlap(pos.row as int, other.row as int),
        Relation::Left => other.layer == pos.layer && spans_overlap(pos.row as int, other.row as int)
            && other.col + 2 == pos.col,
        Relation::Right => other.layer == pos.layer && spans_overlap(pos.row as int, other.row as int)
            && pos.col + 2 == other.col,
    }
}

/// `s` lists, in increasing order, exactly the indices `j < n` such that
/// `positions[j]` stands in relation `kind` to `positions[i]`.
pub open spec fn lists_related(
    s: Seq<usize>,
    positions: Seq<TilePosition>,
    i: int,
    n: int,
    kind: Relation,
) -> bool {
    &&& forall|k: int| 0 <= k < s.len() ==> 0 <= #[trigger] s[k] < n && related(kind, positions[i], positions[s[k] as int])
    &&& forall|k1: int, k2: int| 0 <= k1 < k2 < s.len() ==> s[k1] < s[k2]
    &&& forall|j: int| 0 <= j < n && #[trigger] related(kind, positions[i], positions[j]) ==> s.contains(j as usize)
}

/// `rel` is the blocking relation of position `i` among `positions`.
pub open spec fn relation_matches(positions: Seq<TilePosition>, i: int, rel: BlockingRelation) -> bool {
    &&& rel.position == i
    &&& lists_related(rel.blocked_by@, positions, i, positions.len() as int, Relation::Above)
    &&& lists_related(rel.left_adjacent@, positions, i, positions.len() as int, Relation::Left)
    &&& lists_related(rel.right_adjacent@, positions, i, positions.len() as int, Relation::Right)
}

/// All coordinates are small enough for the relation arithmetic on `u8`.
pub open spec fn coordinates_in_range(positions: Seq<TilePosition>) -> bool {
    forall|k: int| 0 <= k < positions.len() ==> {
        &&& (#[trigger] positions[k]).layer < 255
        &&& positions[k].row < 254
        &&& positions[k].col < 254
    }
}

impl Layout {
    /// The layout holds one relation per position, each matching the geometry.
    pub open spec fn wf(&self) -> bool {
        &&& self.blocking.len() == self.positions.len()
        &&& forall|i: int| 0 <= i < self.positions.len() ==> relation_matches(self.positions@, i, #[trigger] self.blocking@[i])
    }
}

// ---------------------------------------------------------------------------
// Freeness
// ---------------------------------------------------------------------------

/// Which positions hold a tile.
pub open spec fn occupancy(tiles: Seq<Option<Tile>>) -> Seq<bool> {
    tiles.map_values(|t: Option<Tile>| t is Some)
}

/// Position `p` is occupied and free in `occ`: nothing occupies a position that
/// rests on it, and all of its left neighbours or all of its right neighbours
/// are empty.
pub open spec fn free_in(layout: Layout, occ: Seq<bool>, p: int) -> bool {
    let rel = layout.blocking@[p];
    &&& occ[p]
    &&& forall|k: int| 0 <= k < rel.blocked_by.len() ==> !occ[#[trigger] rel.blocked_by@[k] as int]
    &&& {
        ||| forall|k: int| 0 <= k < rel.left_adjacent.len() ==> !occ[#[trigger] rel.left_adjacent@[k] as int]
        ||| forall|k: int| 0 <= k < rel.right_adjacent.len() ==> !occ[#[trigger] rel.right_adjacent@[k] as int]
    }
}

/// Freeness read off the geometry alone: `p` is occupied, no occupied position
/// rests on it, and one of its sides has no occupied neighbour.
pub open spec fn free_by_geometry(positions: Seq<TilePosition>, occ: Seq<bool>, p: int) -> bool {
    &&& occ[p]
    &&& forall|j: int| 0 <= j < positions.len() && #[trigger] related(Relation::Above, positions[p], positions[j]) ==> !occ[j]
    &&& {
        ||| forall|j: int| 0 <= j < positions.len() && #[trigger] related(Relation::Left, positions[p], positions[j]) ==> !occ[j]
        ||| forall|j: int| 0 <= j < positions.len() && #[trigger] related(Relation::Right, positions[p], positions[j]) ==> !occ[j]
    }
}

/// Every position occupied in `small` is occupied in `big`.
pub open spec fn occupancy_within(small: Seq<bool>, big: Seq<bool>) -> bool {
    small.len() == big.len() && forall|i: int| 0 <= i < small.len() && #[trigger] small[i] ==> big[i]
}

/// Removing tiles never makes a free tile blocked: if `p` is free among the
/// occupied positions of `big`, it stays free among those of any `small` within
/// `big` that still holds `p`.
pub proof fn lemma_free_monotone(layout: Layout, small: Seq<bool>, big: Seq<bool>, p: int)
    requires
        layout.wf(),
        small.len() == layout.positions.len(),
        0 <= p < small.len(),
        occupancy_within(small, big),
        free_in(layout, big, p),
        small[p],
    ensures
        free_in(layout, small, p),
{
    let rel = layout.blocking@[p];
    assert(relation_matches(layout.positions@, p, rel));
    assert forall|k: int| 0 <= k < rel.blocked_by.len() implies !small[#[trigger] rel.blocked_by@[k] as int] by {
        assert(!big[rel.blocked_by@[k] as int]);
    }
    if forall|k: int| 0 <= k < rel.left_adjacent.len() ==> !big[#[trigger] rel.left_adjacent@[k] as int] {
        assert forall|k: int| 0 <= k < rel.left_adjacent.len() implies !small[#[trigger] rel.left_adjacent@[k] as int] by {
            assert(!big[rel.left_adjacent@[k] as int]);
        }
    } else {
        assert forall|k: int| 0 <= k < rel.right_adjacent.len() implies !small[#[trigger] rel.right_adjacent@[k] as int] by {
            assert(!big[rel.right_adjacent@[k] as int]);
        }
    }
}

/// Freeness computed from the blocking relations of a well-formed layout is
/// exactly the geometric rule: nothing on top, and one side clear.
pub proof fn lemma_free_matches_geometry(layout: Layout, occ: Seq<bool>, p: int)
    requires
        layout.wf(),
        occ.len() == layout.positions.len(),
        0 <= p < occ.len(),
    ensures
        free_in(layout, occ, p) <==> free_by_geometry(layout.positions@, occ, p),
{
    let positions = layout.positions@;
    let rel = layout.blocking@[p];
    assert(relation_matches(positions, p, rel));
    let n = positions.len() as int;
    // Each list is exactly the set of related indices.
    assert((forall|k: int| 0 <= k < rel.blocked_by.len() ==> !occ[#[trigger] rel.blocked_by@[k] as int])
        <==> (forall|j: int| 0 <= j < n && #[trigger] related(Relation::Above, positions[p], positions[j]) ==> !occ[j])) by {
        if forall|k: int| 0 <= k < rel.blocked_by.len() ==> !occ[#[trigger] rel.blocked_by@[k] as int] {
            assert forall|j: int| 0 <= j < n && #[trigger] related(Relation::Above, positions[p], positions[j]) implies !occ[j] by {
                assert(rel.blocked_by@.contains(j as usize));
                let k = choose|k: int| 0 <= k < rel.blocked_by@.len() && rel.blocked_by@[k] == j as usize;
                assert(!occ[rel.blocked_by@[k] as int]);
            }
        }
    }
    assert((forall|k: int| 0 <= k < rel.left_adjacent.len() ==> !occ[#[trigger] rel.left_adjacent@[k] as int])
        <==> (forall|j: int| 0 <= j < n && #[trigger] related(Relation::Left, positions[p], positions[j]) ==> !occ[j])) by {
        if forall|k: int| 0 <= k < rel.left_adjacent.len() ==> !occ[#[trigger] rel.left_adjacent@[k] as int] {
            assert forall|j: int| 0 <= j < n && #[trigger] related(Relation::Left, positions[p], positions[j]) implies !occ[j] by {
                assert(rel.left_adjacent@.contains(j as usize));
                let k = choose|k: int| 0 <= k < rel.left_adjacent@.len() && rel.left_adjacent@[k] == j as usize;
                assert(!occ[rel.left_adjacent@[k] as int]);
            }
        }
    }
    assert((forall|k: int| 0 <= k < rel.right_adjacent.len() ==> !occ[#[trigger] rel.right_adjacent@[k] as int])
        <==> (forall|j: int| 0 <= j < n && #[trigger] related(Relation::Right, positions[p], positions[j]) ==> !occ[j])) by {
        if forall|k: int| 0 <= k < rel.right_adjacent.len() ==> !occ[#[trigger] rel.right_adjacent@[k] as int] {
            assert forall|j: int| 0 <= j < n && #[trigger] related(Relation::Right, positions[p], positions[j]) implies !occ[j] by {
                assert(rel.right_adjacent@.contains(j as usize));
                let k = choose|k: int| 0 <= k < rel.right_adjacent@.len() && rel.right_adjacent@[k] == j as usize;
                assert(!occ[rel.right_adjacent@[k] as int]);
            }
        }
    }
}


// ---------------------------------------------------------------------------
// Layout construction
// ---------------------------------------------------------------------------

/// Whether `other` stands in relation `kind` to `pos`, computed on bytes.
fn relation_holds(kind: Relation, pos: TilePosition, other: TilePosition) -> (r: bool)
    requires
        pos.layer < 255,
        pos.row < 254,
        pos.col < 254,
        other.row < 254,
        other.col < 254,
    ensures
        r == related(kind, pos, other),
{
    let v_overlap = pos.row < other.row + 2 && other.row < pos.row + 2;
    match kind {
        Relation::Above => {
            let h_overlap = pos.col < other.col + 2 && other.col < pos.col + 2;
            other.layer == pos.layer + 1 && h_overlap && v_overlap
        },
        Relation::Left => other.layer == pos.layer && v_overlap && other.col + 2 == pos.col,
        Relation::Right => other.layer == pos.layer && v_overlap && pos.col + 2 == other.col,
    }
}

/// Computes the blocking relations of every position: the positions one layer
/// higher that overlap it, and its same-layer neighbours two columns to the left
/// and to the right with overlapping rows.
fn compute_blocking_relations(positions: &Vec<TilePosition>) -> (relations: Vec<BlockingRelation>)
    requires
        coordinates_in_range(positions@),
    ensures
        relations.len() == positions.len(),
        forall|i: int| 0 <= i < positions.len() ==> relation_matches(positions@, i, #[trigger] relations@[i]),
{
    let len = positions.len();
    let mut relations: Vec<BlockingRelation> = Vec::with_capacity(len);
    let mut i: usize = 0;
    while i < len
        invariant
            len == positions.len(),
            coordinates_in_range(positions@),
            i <= len,
            relations.len() == i,
            forall|k: int| 0 <= k < i ==> relation_matches(positions@, k, #[trigger] relations@[k]),
        decreases len - i,
    {
        let pos = positions[i];
        assert(coordinates_in_range(positions@));
        assert(pos == positions@[i as int]);
        let mut blocked_by: Vec<usize> = Vec::new();
        let mut left_adjacent: Vec<usize> = Vec::new();
        let mut right_adjacent: Vec<usize> = Vec::new();
        let mut j: usize = 0;
        while j < len
            invariant
                len == positions.len(),
                coordinates_in_range(positions@),
                i < len,
                j <= len,
                pos == positions@[i as int],
                lists_related(blocked_by@, positions@, i as int, j as int, Relation::Above),
                lists_related(left_adjacent@, positions@, i as int, j as int, Relation::Left),
                lists_related(right_adjacent@, positions@, i as int, j as int, Relation::Right),
            decreases len - j,
        {
            if i == j {
                assert(!related(Relation::Above, pos, pos));
                assert(!related(Relation::Left, pos, pos));
                assert(!related(Relation::Right, pos, pos));
                j = j + 1;
                continue;
            }
            let other = positions[j];
            assert(other == positions@[j as int]);
            let ghost old_b = blocked_by@;
            let ghost old_l = left_adjacent@;
            let ghost old_r = right_adjacent@;
            if relation_holds(Relation::Above, pos, other) {
                blocked_by.push(j);
                assert(blocked_by@.last() == j);
                assert(forall|k: int| 0 <= k < old_b.len() ==> blocked_by@[k] == old_b[k]);
            }
            if relation_holds(Relation::Left, pos, other) {
                left_adjacent.push(j);
                assert(left_adjacent@.last() == j);
                assert(forall|k: int| 0 <= k < old_l.len() ==> left_adjacent@[k] == old_l[k]);
            } else if relation_holds(Relation::Right, pos, other) {
                right_adjacent.push(j);
                assert(right_adjacent@.last() == j);
                assert(forall|k: int| 0 <= k < old_r.len() ==> right_adjacent@[k] == old_r[k]);
            }
            assert forall|jj: int| 0 <= jj < j + 1 && #[trigger] related(Relation::Above, positions@[i as int], positions@[jj]) implies blocked_by@.contains(jj as usize) by {
                if jj < j {
                    assert(old_b.contains(jj as usize));
                    let k = choose|k: int| 0 <= k < old_b.len() && old_b[k] == jj as usize;
                    assert(blocked_by@[k] == jj as usize);
                } else {
                    assert(blocked_by@[blocked_by@.len() - 1] == jj as usize);
                }
            }
            assert forall|jj: int| 0 <= jj < j + 1 && #[trigger] related(Relation::Left, positions@[i as int], positions@[jj]) implies left_adjacent@.contains(jj as usize) by {
                if jj < j {
                    assert(old_l.contains(jj as usize));
                    let k = choose|k: int| 0 <= k < old_l.len() && old_l[k] == jj as usize;
                    assert(left_adjacent@[k] == jj as usize);
                } else {
                    assert(left_adjacent@[left_adjacent@.len() - 1] == jj as usize);
                }
            }
            assert forall|jj: int| 0 <= jj < j + 1 && #[trigger] related(Relation::Right, positions@[i as int], positions@[jj]) implies right_adjacent@.contains(jj as usize) by {
                if jj < j {
                    assert(old_r.contains(jj as usize));
                    let k = choose|k: int| 0 <= k < old_r.len() && old_r[k] == jj as usize;
                    assert(right_adjacent@[k] == jj as usize);
                } else {
                    assert(right_adjacent@[right_adjacent@.len() - 1] == jj as usize);
                }
            }
            j = j + 1;
        }
        relations.push(BlockingRelation { position: i, blocked_by, left_adjacent, right_adjacent });
        i = i + 1;
    }
    relations
}


/// A row of `count` tile positions on `layer` at `row`, starting at column `col`
/// and stepping two columns (one tile width) at a time.
pub open spec fn row_positions(layer: u8, row: u8, col: u8, count: nat) -> Seq<TilePosition> {
    Seq::new(count, |k: int| TilePosition { layer, row, col: (col + 2 * k) as u8 })
}

/// The classic Turtle formation: 144 positions on five layers
/// (86, 36, 16, 4 and 2 tiles from the bottom layer up).
pub open spec fn turtle_positions_spec() -> Seq<TilePosition> {
    row_positions(0, 0, 2, 12) + row_positions(0, 2, 2, 12) + row_positions(0, 4, 0, 14)
        + row_positions(0, 6, 0, 14) + row_positions(0, 8, 0, 14) + row_positions(0, 10, 2, 12)
        + row_positions(0, 12, 6, 8) + row_positions(1, 2, 4, 10) + row_positions(1, 4, 4, 10)
        + row_positions(1, 6, 6, 8) + row_positions(1, 8, 6, 8) + row_positions(2, 4, 8, 6)
        + row_positions(2, 6, 8, 6) + row_positions(2, 8, 10, 4) + row_positions(3, 5, 11, 2)
        + row_positions(3, 7, 11, 2) + row_positions(4, 6, 12, 2)
}

/// Appends a row of positions, one tile width apart.
fn push_row(v: &mut Vec<TilePosition>, layer: u8, row: u8, col: u8, count: u8)
    requires
        coordinates_in_range(old(v)@),
        layer < 255,
        row < 254,
        col + 2 * count <= 254,
    ensures
        final(v)@ == old(v)@ + row_positions(layer, row, col, count as nat),
        coordinates_in_range(final(v)@),
{
    let ghost start = v@;
    let mut k: u8 = 0;
    while k < count
        invariant
            k <= count,
            col + 2 * count <= 254,
            layer < 255,
            row < 254,
            coordinates_in_range(start),
            v@ == start + row_positions(layer, row, col, k as nat),
        decreases count - k,
    {
        v.push(TilePosition { layer, row, col: col + 2 * k });
        k = k + 1;
        assert(v@ =~= start + row_positions(layer, row, col, k as nat));
    }
    assert(coordinates_in_range(v@)) by {
        assert forall|i: int| 0 <= i < v@.len() implies {
            &&& (#[trigger] v@[i]).layer < 255
            &&& v@[i].row < 254
            &&& v@[i].col < 254
        } by {
            if i >= start.len() {
                assert(v@[i] == row_positions(layer, row, col, count as nat)[i - start.len()]);
            }
        }
    }
}

/// Returns the 144 positions of the Turtle layout.
pub fn turtle_positions() -> (positions: Vec<TilePosition>)
    ensures
        positions@ == turtle_positions_spec(),
        coordinates_in_range(positions@),
{
    let mut v: Vec<TilePosition> = Vec::with_capacity(144);
    // Layer 0: the turtle body.
    push_row(&mut v, 0, 0, 2, 12);
    push_row(&mut v, 0, 2, 2, 12);
    push_row(&mut v, 0, 4, 0, 14);
    push_row(&mut v, 0, 6, 0, 14);
    push_row(&mut v, 0, 8, 0, 14);
    push_row(&mut v, 0, 10, 2, 12);
    push_row(&mut v, 0, 12, 6, 8);
    // Layer 1: a centred rectangle.
    push_row(&mut v, 1, 2, 4, 10);
    push_row(&mut v, 1, 4, 4, 10);
    push_row(&mut v, 1, 6, 6, 8);
    push_row(&mut v, 1, 8, 6, 8);
    // Layer 2: a smaller rectangle.
    push_row(&mut v, 2, 4, 8, 6);
    push_row(&mut v, 2, 6, 8, 6);
    push_row(&mut v, 2, 8, 10, 4);
    // Layer 3: a small square near the centre.
    push_row(&mut v, 3, 5, 11, 2);
    push_row(&mut v, 3, 7, 11, 2);
    // Layer 4: the top pair.
    push_row(&mut v, 4, 6, 12, 2);
    v
}

/// Builds the Turtle layout: its positions and their blocking relations.
pub fn turtle_layout() -> (layout: Rc<Layout>)
    ensures
        layout.wf(),
        layout.positions@ == turtle_positions_spec(),
{
    let positions = turtle_positions();
    let blocking = compute_blocking_relations(&positions);
    Rc::new(Layout { positions, blocking })
}


// ---------------------------------------------------------------------------
// Board
// ---------------------------------------------------------------------------

/// The tile at `p` is free on a board holding `tiles`.
pub open spec fn tile_free(layout: Layout, tiles: Seq<Option<Tile>>, p: int) -> bool {
    free_in(layout, occupancy(tiles), p)
}

/// `a < b` and the tiles at `a` and `b` are both free and show the same face.
pub open spec fn matching_pair(layout: Layout, tiles: Seq<Option<Tile>>, a: int, b: int) -> bool {
    &&& 0 <= a < b < tiles.len()
    &&& tile_free(layout, tiles, a)
    &&& tile_free(layout, tiles, b)
    &&& tiles[a].unwrap().face_id == tiles[b].unwrap().face_id
}

/// Some matching pair exists.
pub open spec fn has_matching_pair(layout: Layout, tiles: Seq<Option<Tile>>) -> bool {
    exists|a: int, b: int| matching_pair(layout, tiles, a, b)
}

/// Lexicographic order on index pairs.
pub open spec fn pair_before(p: (usize, usize), q: (usize, usize)) -> bool {
    p.0 < q.0 || (p.0 == q.0 && p.1 < q.1)
}

/// `s` lists, in increasing order, exactly the positions below `n` that are free in `occ`.
pub open spec fn lists_free_below(s: Seq<usize>, layout: Layout, occ: Seq<bool>, n: int) -> bool {
    &&& forall|k: int| 0 <= k < s.len() ==> 0 <= #[trigger] s[k] < n && free_in(layout, occ, s[k] as int)
    &&& forall|k1: int, k2: int| 0 <= k1 < k2 < s.len() ==> s[k1] < s[k2]
    &&& forall|p: int| 0 <= p < n && #[trigger] free_in(layout, occ, p) ==> s.contains(p as usize)
}

/// `s` lists, in increasing order, exactly the free positions of `occ`.
pub open spec fn lists_free(s: Seq<usize>, layout: Layout, occ: Seq<bool>) -> bool {
    lists_free_below(s, layout, occ, occ.len() as int)
}

/// `s` lists, in lexicographic order, exactly the matching pairs of `tiles`.
pub open spec fn lists_matching_pairs(s: Seq<(usize, usize)>, layout: Layout, tiles: Seq<Option<Tile>>) -> bool {
    &&& forall|k: int| 0 <= k < s.len() ==> #[trigger] matching_pair(layout, tiles, s[k].0 as int, s[k].1 as int)
    &&& forall|k1: int, k2: int| 0 <= k1 < k2 < s.len() ==> pair_before(s[k1], s[k2])
    &&& forall|a: int, b: int| #[trigger] matching_pair(layout, tiles, a, b) ==> s.contains((a as usize, b as usize))
}

/// The tiles with positions `a` and `b` emptied.
pub open spec fn removed(tiles: Seq<Option<Tile>>, a: int, b: int) -> Seq<Option<Tile>> {
    tiles.update(a, None).update(b, None)
}

/// The number of occupied slots.
pub open spec fn count_occupied(tiles: Seq<Option<Tile>>) -> nat
    decreases tiles.len(),
{
    if tiles.len() == 0 {
        0
    } else {
        count_occupied(tiles.drop_last()) + if tiles.last() is Some { 1nat } else { 0nat }
    }
}


/// The occupied positions, in increasing order.
pub open spec fn occupied_list(tiles: Seq<Option<Tile>>) -> Seq<usize>
    decreases tiles.len(),
{
    if tiles.len() == 0 {
        Seq::empty()
    } else {
        occupied_list(tiles.drop_last()) + if tiles.last() is Some {
            seq![(tiles.len() - 1) as usize]
        } else {
            Seq::empty()
        }
    }
}

/// The faces of the occupied positions, in position order.
pub open spec fn faces_in_order(tiles: Seq<Option<Tile>>) -> Seq<u8> {
    occupied_list(tiles).map_values(|p: usize| tiles[p as int].unwrap().face_id)
}

/// `b` has tiles exactly where `a` has, at the same positions; only faces may differ.
pub open spec fn same_shape(a: Seq<Option<Tile>>, b: Seq<Option<Tile>>) -> bool {
    &&& a.len() == b.len()
    &&& forall|i: int| 0 <= i < a.len() ==> (#[trigger] a[i] is Some) == (b[i] is Some)
    &&& forall|i: int| 0 <= i < a.len() && #[trigger] a[i] is Some ==> a[i].unwrap().position == b[i].unwrap().position
}

/// The occupied list is strictly increasing and lists occupied positions only.
pub proof fn lemma_occupied_list(tiles: Seq<Option<Tile>>)
    requires
        tiles.len() <= usize::MAX,
    ensures
        forall|k: int| 0 <= k < occupied_list(tiles).len() ==> {
            &&& #[trigger] occupied_list(tiles)[k] < tiles.len()
            &&& tiles[occupied_list(tiles)[k] as int] is Some
        },
        forall|k1: int, k2: int| 0 <= k1 < k2 < occupied_list(tiles).len() ==> occupied_list(tiles)[k1] < occupied_list(tiles)[k2],
        occupied_list(tiles).len() <= tiles.len(),
    decreases tiles.len(),
{
    if tiles.len() > 0 {
        let rest = tiles.drop_last();
        lemma_occupied_list(rest);
        assert(forall|i: int| 0 <= i < rest.len() ==> rest[i] == tiles[i]);
        let ol = occupied_list(rest);
        let tail: Seq<usize> = if tiles.last() is Some { seq![(tiles.len() - 1) as usize] } else { Seq::empty() };
        let full = occupied_list(tiles);
        assert(full == ol + tail);
        assert forall|k: int| 0 <= k < full.len() implies {
            &&& #[trigger] full[k] < tiles.len()
            &&& tiles[full[k] as int] is Some
        } by {
            if k < ol.len() {
                assert(full[k] == ol[k]);
            } else {
                assert(full[k] == tail[k - ol.len()]);
            }
        }
        assert forall|k1: int, k2: int| 0 <= k1 < k2 < full.len() implies full[k1] < full[k2] by {
            if k2 < ol.len() {
                assert(full[k1] == ol[k1] && full[k2] == ol[k2]);
            } else {
                assert(full[k1] == ol[k1]);
                assert(ol[k1] < rest.len());
            }
        }
    }
}

/// Tilings of the same shape have the same occupied list.
pub proof fn lemma_occupied_list_same_shape(a: Seq<Option<Tile>>, b: Seq<Option<Tile>>)
    requires
        same_shape(a, b),
    ensures
        occupied_list(a) == occupied_list(b),
    decreases a.len(),
{
    if a.len() > 0 {
        let (ra, rb) = (a.drop_last(), b.drop_last());
        assert(same_shape(ra, rb)) by {
            assert forall|i: int| 0 <= i < ra.len() implies (#[trigger] ra[i] is Some) == (rb[i] is Some) by {
                assert(ra[i] == a[i] && rb[i] == b[i]);
            }
            assert forall|i: int| 0 <= i < ra.len() && #[trigger] ra[i] is Some implies ra[i].unwrap().position == rb[i].unwrap().position by {
                assert(ra[i] == a[i] && rb[i] == b[i]);
            }
        }
        lemma_occupied_list_same_shape(ra, rb);
        assert(a.last() is Some == b.last() is Some);
    }
}

/// `same_shape` is an equivalence.
pub proof fn lemma_same_shape_trans(a: Seq<Option<Tile>>, b: Seq<Option<Tile>>, c: Seq<Option<Tile>>)
    requires
        same_shape(a, b),
        same_shape(b, c),
    ensures
        same_shape(a, c),
        same_shape(b, a),
{
    assert forall|i: int| 0 <= i < a.len() && #[trigger] a[i] is Some implies a[i].unwrap().position == c[i].unwrap().position by {
        assert(b[i] is Some);
    }
    assert forall|i: int| 0 <= i < b.len() && #[trigger] b[i] is Some implies b[i].unwrap().position == a[i].unwrap().position by {
        assert(a[i] is Some);
    }
}

/// All indices listed in `idx` hold no tile.
fn all_empty(tiles: &Vec<Option<Tile>>, idx: &Vec<usize>) -> (r: bool)
    requires
        forall|k: int| 0 <= k < idx.len() ==> #[trigger] idx@[k] < tiles.len(),
    ensures
        r == forall|k: int| 0 <= k < idx.len() ==> !occupancy(tiles@)[#[trigger] idx@[k] as int],
{
    let mut k: usize = 0;
    while k < idx.len()
        invariant
            k <= idx.len(),
            forall|kk: int| 0 <= kk < idx.len() ==> #[trigger] idx@[kk] < tiles.len(),
            forall|kk: int| 0 <= kk < k ==> !occupancy(tiles@)[#[trigger] idx@[kk] as int],
        decreases idx.len() - k,
    {
        if tiles[idx[k]].is_some() {
            assert(occupancy(tiles@)[idx@[k as int] as int]);
            return false;
        }
        k = k + 1;
    }
    true
}

impl Board {
    /// The board covers its layout, and the layout is well formed.
    pub open spec fn wf(&self) -> bool {
        &&& self.layout.wf()
        &&& self.tiles.len() == self.layout.positions.len()
    }

    /// The tile at `p` is free.
    pub open spec fn free_at(&self, p: int) -> bool {
        tile_free(*self.layout, self.tiles@, p)
    }

    /// The tiles at `a` and `b` form a matching pair.
    pub open spec fn is_match(&self, a: int, b: int) -> bool {
        matching_pair(*self.layout, self.tiles@, a, b)
    }

    /// Some pair of free tiles matches.
    pub open spec fn has_pair(&self) -> bool {
        has_matching_pair(*self.layout, self.tiles@)
    }

    /// Creates an empty board on `layout`.
    pub fn new(layout: &Rc<Layout>) -> (board: Board)
        ensures
            board.tiles@ == Seq::new(layout.positions.len() as nat, |i: int| None::<Tile>),
            board.layout == *layout,
    {
        let len = layout.positions.len();
        let mut tiles: Vec<Option<Tile>> = Vec::with_capacity(len);
        let mut i: usize = 0;
        while i < len
            invariant
                i <= len,
                len == layout.positions.len(),
                tiles@ == Seq::new(i as nat, |k: int| None::<Tile>),
            decreases len - i,
        {
            tiles.push(None);
            i = i + 1;
            assert(tiles@ =~= Seq::new(i as nat, |k: int| None::<Tile>));
        }
        Board { tiles, layout: rc_share(layout) }
    }

    /// Whether the tile at `pos` is free: a tile is there, no tile rests on it,
    /// and all its left neighbours or all its right neighbours are empty.
    pub fn is_free(&self, pos: usize) -> (r: bool)
        requires
            self.wf(),
            pos < self.tiles.len(),
        ensures
            r == self.free_at(pos as int),
    {
        if self.tiles[pos].is_none() {
            return false;
        }
        let relation = &self.layout.blocking[pos];
        assert(relation_matches(self.layout.positions@, pos as int, self.layout.blocking@[pos as int]));
        assert(forall|k: int| 0 <= k < relation.blocked_by.len() ==> #[trigger] relation.blocked_by@[k] < self.tiles.len());
        assert(forall|k: int| 0 <= k < relation.left_adjacent.len() ==> #[trigger] relation.left_adjacent@[k] < self.tiles.len());
        assert(forall|k: int| 0 <= k < relation.right_adjacent.len() ==> #[trigger] relation.right_adjacent@[k] < self.tiles.len());
        let nothing_above = all_empty(&self.tiles, &relation.blocked_by);
        if !nothing_above {
            return false;
        }
        let left_clear = all_empty(&self.tiles, &relation.left_adjacent);
        let right_clear = all_empty(&self.tiles, &relation.right_adjacent);
        left_clear || right_clear
    }

    /// All positions holding a free tile, in increasing order.
    pub fn free_tiles(&self) -> (free: Vec<usize>)
        requires
            self.wf(),
        ensures
            lists_free(free@, *self.layout, occupancy(self.tiles@)),
    {
        let ghost occ = occupancy(self.tiles@);
        let mut free: Vec<usize> = Vec::new();
        let mut pos: usize = 0;
        while pos < self.tiles.len()
            invariant
                self.wf(),
                occ == occupancy(self.tiles@),
                pos <= self.tiles.len(),
                lists_free_below(free@, *self.layout, occ, pos as int),
            decreases self.tiles.len() - pos,
        {
            let ghost before = free@;
            if self.is_free(pos) {
                free.push(pos);
                assert(forall|k: int| 0 <= k < before.len() ==> free@[k] == before[k]);
                assert(free@[free@.len() - 1] == pos);
            }
            assert forall|p: int| 0 <= p < pos + 1 && #[trigger] free_in(*self.layout, occ, p) implies free@.contains(p as usize) by {
                if p < pos {
                    assert(before.contains(p as usize));
                    let k = choose|k: int| 0 <= k < before.len() && before[k] == p as usize;
                    assert(free@[k] == p as usize);
                } else {
                    assert(free@[free@.len() - 1] == p as usize);
                }
            }
            pos = pos + 1;
        }
        free
    }

    /// All matching pairs among the free tiles, in lexicographic order.
    pub fn valid_pairs(&self) -> (pairs: Vec<(usize, usize)>)
        requires
            self.wf(),
        ensures
            lists_matching_pairs(pairs@, *self.layout, self.tiles@),
    {
        let ghost tiles = self.tiles@;
        let ghost occ = occupancy(tiles);
        let free = self.free_tiles();
        let mut pairs: Vec<(usize, usize)> = Vec::new();
        let mut i: usize = 0;
        while i < free.len()
            invariant
                self.wf(),
                tiles == self.tiles@,
                occ == occupancy(tiles),
                lists_free(free@, *self.layout, occ),
                i <= free.len(),
                forall|k: int| 0 <= k < pairs.len() ==> #[trigger] matching_pair(*self.layout, tiles, pairs@[k].0 as int, pairs@[k].1 as int),
                forall|k1: int, k2: int| 0 <= k1 < k2 < pairs.len() ==> pair_before(pairs@[k1], pairs@[k2]),
                i < free.len() ==> forall|k: int| 0 <= k < pairs.len() ==> pairs@[k].0 < free@[i as int],
                forall|a: int, b: int| #[trigger] matching_pair(*self.layout, tiles, a, b)
                    && (i < free.len() ==> a < free@[i as int]) ==> pairs@.contains((a as usize, b as usize)),
            decreases free.len() - i,
        {
            let mut j: usize = i + 1;
            while j < free.len()
                invariant
                    self.wf(),
                    tiles == self.tiles@,
                    occ == occupancy(tiles),
                    lists_free(free@, *self.layout, occ),
                    i < free.len(),
                    i < j <= free.len(),
                    forall|k: int| 0 <= k < pairs.len() ==> #[trigger] matching_pair(*self.layout, tiles, pairs@[k].0 as int, pairs@[k].1 as int),
                    forall|k1: int, k2: int| 0 <= k1 < k2 < pairs.len() ==> pair_before(pairs@[k1], pairs@[k2]),
                    forall|k: int| 0 <= k < pairs.len() ==> pairs@[k].0 < free@[i as int]
                        || (pairs@[k].0 == free@[i as int] && (j < free.len() ==> pairs@[k].1 < free@[j as int])),
                    forall|a: int, b: int| #[trigger] matching_pair(*self.layout, tiles, a, b) && a < free@[i as int]
                        ==> pairs@.contains((a as usize, b as usize)),
                    forall|b: int| #[trigger] matching_pair(*self.layout, tiles, free@[i as int] as int, b)
                        && (j < free.len() ==> b < free@[j as int]) ==> pairs@.contains((free@[i as int], b as usize)),
                decreases free.len() - j,
            {
                let a = free[i];
                let b = free[j];
                assert(free_in(*self.layout, occ, a as int));
                assert(free_in(*self.layout, occ, b as int));
                let tile_a = self.tiles[a].unwrap();
                let tile_b = self.tiles[b].unwrap();
                let ghost before = pairs@;
                if tile_a.face_id == tile_b.face_id {
                    assert(matching_pair(*self.layout, tiles, a as int, b as int));
                    pairs.push((a, b));
                    assert(forall|k: int| 0 <= k < before.len() ==> pairs@[k] == before[k]);
                    assert(pairs@[pairs@.len() - 1] == (a, b));
                }
                assert forall|aa: int, bb: int| #[trigger] matching_pair(*self.layout, tiles, aa, bb) && aa < free@[i as int]
                    implies pairs@.contains((aa as usize, bb as usize)) by {
                    assert(before.contains((aa as usize, bb as usize)));
                    let k = choose|k: int| 0 <= k < before.len() && before[k] == (aa as usize, bb as usize);
                    assert(pairs@[k] == (aa as usize, bb as usize));
                }
                assert forall|bb: int| #[trigger] matching_pair(*self.layout, tiles, free@[i as int] as int, bb)
                    && (j + 1 < free.len() ==> bb < free@[j + 1]) implies pairs@.contains((free@[i as int], bb as usize)) by {
                    assert(free_in(*self.layout, occ, bb));
                    assert(free@.contains(bb as usize));
                    let kb = choose|kb: int| 0 <= kb < free@.len() && free@[kb] == bb as usize;
                    if kb < j {
                        if j < free.len() {
                            assert(bb < free@[j as int]);
                        }
                        assert(before.contains((free@[i as int], bb as usize)));
                        let k = choose|k: int| 0 <= k < before.len() && before[k] == (free@[i as int], bb as usize);
                        assert(pairs@[k] == (free@[i as int], bb as usize));
                    } else if kb == j {
                        assert(pairs@[pairs@.len() - 1] == (a, b));
                    } else {
                        assert(free@[j + 1] <= free@[kb]);
                    }
                }
                j = j + 1;
            }
            assert forall|a: int, b: int| #[trigger] matching_pair(*self.layout, tiles, a, b)
                && (i + 1 < free.len() ==> a < free@[i + 1]) implies pairs@.contains((a as usize, b as usize)) by {
                assert(free_in(*self.layout, occ, a));
                assert(free@.contains(a as usize));
                let ka = choose|ka: int| 0 <= ka < free@.len() && free@[ka] == a as usize;
                if ka < i {
                    assert(a < free@[i as int]);
                } else if ka == i {
                } else {
                    assert(free@[i + 1] <= free@[ka]);
                }
            }
            i = i + 1;
        }
        pairs
    }

    /// Removes the tiles at `a` and `b`.
    pub fn remove_pair(&mut self, a: usize, b: usize)
        requires
            a < old(self).tiles.len(),
            b < old(self).tiles.len(),
        ensures
            final(self).tiles@ == removed(old(self).tiles@, a as int, b as int),
            final(self).layout == old(self).layout,
    {
        self.tiles.set(a, None);
        self.tiles.set(b, None);
    }

    /// Puts `tile_a` back at `a` and `tile_b` back at `b`.
    pub fn restore_pair(&mut self, a: usize, b: usize, tile_a: Tile, tile_b: Tile)
        requires
            a < old(self).tiles.len(),
            b < old(self).tiles.len(),
        ensures
            final(self).tiles@ == old(self).tiles@.update(a as int, Some(tile_a)).update(b as int, Some(tile_b)),
            final(self).layout == old(self).layout,
    {
        self.tiles.set(a, Some(tile_a));
        self.tiles.set(b, Some(tile_b));
    }

    /// The number of tiles on the board.
    pub fn remaining_count(&self) -> (n: usize)
        ensures
            n == count_occupied(self.tiles@),
    {
        let mut n: usize = 0;
        let mut i: usize = 0;
        while i < self.tiles.len()
            invariant
                i <= self.tiles.len(),
                n == count_occupied(self.tiles@.take(i as int)),
                n <= i,
            decreases self.tiles.len() - i,
        {
            assert(self.tiles@.take(i + 1).drop_last() =~= self.tiles@.take(i as int));
            if self.tiles[i].is_some() {
                n = n + 1;
            }
            i = i + 1;
        }
        assert(self.tiles@.take(self.tiles.len() as int) =~= self.tiles@);
        n
    }
}

/// Shares the layout behind an `Rc` (`Rc::clone`): the new handle points to the
/// same layout value.
#[verifier::external_body]
fn rc_share(layout: &Rc<Layout>) -> (shared: Rc<Layout>)
    ensures
        shared == *layout,
{
    Rc::clone(layout)
}

proof fn lemma_free_matches_geometry_ref(layout: &Layout, occ: Seq<bool>, p: int)
    requires
        layout.wf(),
        occ.len() == layout.positions.len(),
        0 <= p < occ.len(),
    ensures
        free_in(*layout, occ, p) <==> free_by_geometry(layout.positions@, occ, p),
{
    lemma_free_matches_geometry(*layout, occ, p);
}

/// What freeness means on the board, in coordinates: the tile at `p` is free
/// exactly when it is there, no tile on the next layer up has a 2x2 footprint
/// sharing area with its own (columns less than 2 apart and rows less than 2
/// apart; a tile touching only at an edge or a corner does not cover it), and
/// on its left or on its right no tile of its own layer stands directly next
/// to it (two columns over, rows less than 2 apart).
pub proof fn lemma_free_by_footprints(board: Board, p: int)
    requires
        board.wf(),
        0 <= p < board.tiles.len(),
    ensures
        board.free_at(p) <==> {
            let ps = board.layout.positions@;
            let t = board.tiles@;
            &&& t[p] is Some
            &&& forall|j: int| 0 <= j < ps.len() && #[trigger] t[j] is Some && ps[j].layer == ps[p].layer + 1
                ==> !(ps[p].col - 2 < ps[j].col < ps[p].col + 2 && ps[p].row - 2 < ps[j].row < ps[p].row + 2)
            &&& {
                ||| forall|j: int| 0 <= j < ps.len() && #[trigger] t[j] is Some && ps[j].layer == ps[p].layer
                    && ps[j].col + 2 == ps[p].col ==> !(ps[p].row - 2 < ps[j].row < ps[p].row + 2)
                ||| forall|j: int| 0 <= j < ps.len() && #[trigger] t[j] is Some && ps[j].layer == ps[p].layer
                    && ps[p].col + 2 == ps[j].col ==> !(ps[p].row - 2 < ps[j].row < ps[p].row + 2)
            }
        },
{
    let ps = board.layout.positions@;
    let t = board.tiles@;
    let occ = occupancy(t);
    lemma_free_matches_geometry_ref(&*board.layout, occ, p);
    let n = ps.len() as int;
    assert((forall|j: int| 0 <= j < n && #[trigger] related(Relation::Above, ps[p], ps[j]) ==> !occ[j])
        <==> (forall|j: int| 0 <= j < ps.len() && #[trigger] t[j] is Some && ps[j].layer == ps[p].layer + 1
                ==> !(ps[p].col - 2 < ps[j].col < ps[p].col + 2 && ps[p].row - 2 < ps[j].row < ps[p].row + 2))) by {
        if forall|j: int| 0 <= j < n && #[trigger] related(Relation::Above, ps[p], ps[j]) ==> !occ[j] {
            assert forall|j: int| 0 <= j < ps.len() && #[trigger] t[j] is Some && ps[j].layer == ps[p].layer + 1
                implies !(ps[p].col - 2 < ps[j].col < ps[p].col + 2 && ps[p].row - 2 < ps[j].row < ps[p].row + 2) by {
                if ps[p].col - 2 < ps[j].col < ps[p].col + 2 && ps[p].row - 2 < ps[j].row < ps[p].row + 2 {
                    assert(related(Relation::Above, ps[p], ps[j]));
                    assert(occ[j]);
                }
            }
        }
        if forall|j: int| 0 <= j < ps.len() && #[trigger] t[j] is Some && ps[j].layer == ps[p].layer + 1
                ==> !(ps[p].col - 2 < ps[j].col < ps[p].col + 2 && ps[p].row - 2 < ps[j].row < ps[p].row + 2) {
            assert forall|j: int| 0 <= j < n && #[trigger] related(Relation::Above, ps[p], ps[j]) implies !occ[j] by {
                if occ[j] {
                    assert(t[j] is Some);
                }
            }
        }
    }
    assert((forall|j: int| 0 <= j < n && #[trigger] related(Relation::Left, ps[p], ps[j]) ==> !occ[j])
        <==> (forall|j: int| 0 <= j < ps.len() && #[trigger] t[j] is Some && ps[j].layer == ps[p].layer
                && ps[j].col + 2 == ps[p].col ==> !(ps[p].row - 2 < ps[j].row < ps[p].row + 2))) by {
        if forall|j: int| 0 <= j < n && #[trigger] related(Relation::Left, ps[p], ps[j]) ==> !occ[j] {
            assert forall|j: int| 0 <= j < ps.len() && #[trigger] t[j] is Some && ps[j].layer == ps[p].layer
                && ps[j].col + 2 == ps[p].col implies !(ps[p].row - 2 < ps[j].row < ps[p].row + 2) by {
                if ps[p].row - 2 < ps[j].row < ps[p].row + 2 {
                    assert(related(Relation::Left, ps[p], ps[j]));
                    assert(occ[j]);
                }
            }
        }
        if forall|j: int| 0 <= j < ps.len() && #[trigger] t[j] is Some && ps[j].layer == ps[p].layer
                && ps[j].col + 2 == ps[p].col ==> !(ps[p].row - 2 < ps[j].row < ps[p].row + 2) {
            assert forall|j: int| 0 <= j < n && #[trigger] related(Relation::Left, ps[p], ps[j]) implies !occ[j] by {
                if occ[j] {
                    assert(t[j] is Some);
                }
            }
        }
    }
    assert((forall|j: int| 0 <= j < n && #[trigger] related(Relation::Right, ps[p], ps[j]) ==> !occ[j])
        <==> (forall|j: int| 0 <= j < ps.len() && #[trigger] t[j] is Some && ps[j].layer == ps[p].layer
                && ps[p].col + 2 == ps[j].col ==> !(ps[p].row - 2 < ps[j].row < ps[p].row + 2))) by {
        if forall|j: int| 0 <= j < n && #[trigger] related(Relation::Right, ps[p], ps[j]) ==> !occ[j] {
            assert forall|j: int| 0 <= j < ps.len() && #[trigger] t[j] is Some && ps[j].layer == ps[p].layer
                && ps[p].col + 2 == ps[j].col implies !(ps[p].row - 2 < ps[j].row < ps[p].row + 2) by {
                if ps[p].row - 2 < ps[j].row < ps[p].row + 2 {
                    assert(related(Relation::Right, ps[p], ps[j]));
                    assert(occ[j]);
                }
            }
        }
        if forall|j: int| 0 <= j < ps.len() && #[trigger] t[j] is Some && ps[j].layer == ps[p].layer
                && ps[p].col + 2 == ps[j].col ==> !(ps[p].row - 2 < ps[j].row < ps[p].row + 2) {
            assert forall|j: int| 0 <= j < n && #[trigger] related(Relation::Right, ps[p], ps[j]) implies !occ[j] by {
                if occ[j] {
                    assert(t[j] is Some);
                }
            }
        }
    }
    assert(occ[p] == (t[p] is Some));
}

} // verus!
