//! The spatial hash index: a uniform grid over the horizontal plane.
//!
//! [`Grid`] turns a coordinate into a cell index by flooring the division
//! by its spacing. [`SpatialHashmap`] tracks each entity's last reported
//! position, keyed by the cell that position falls in, and answers
//! shape-bounded range queries exactly: a query yields precisely the
//! tracked positions the shape's range test accepts.

use vstd::prelude::*;

verus! {

use crate::errors::ConfigError;
use crate::fx::{COORD_LIMIT, floor_div, within};
use crate::spatial_query::{CircleQuery, SpatialQuery};
use crate::vec2::Vec2Fx;

/// `c` comes strictly before the cell `(x, y)` in row-major order.
pub open spec fn before_cell(c: Cell, x: int, y: int) -> bool {
    c.y < y || (c.y == y && c.x < x)
}

/// `c1` comes no later than `c2` in row-major order (cells as `(x, y)`
/// pairs).
pub open spec fn row_major_le(c1: (int, int), c2: (int, int)) -> bool {
    c1.1 < c2.1 || (c1.1 == c2.1 && c1.0 <= c2.0)
}

/// The grid configuration: one positive cell spacing, fixed at
/// construction. A zero or negative spacing would corrupt the cell rule,
/// so constructors reject it up front.
#[derive(Clone, Copy, Debug)]
pub struct Grid {
    pub spacing: i64,
}

/// An integer 2D cell index: `cell = floor(position / spacing)` on each
/// axis.
#[derive(Clone, Copy, PartialEq, Eq, Structural, Debug)]
pub struct Cell {
    pub x: i64,
    pub y: i64,
}

impl Grid {
    /// The spacing is positive and small enough for exact cell math.
    pub open spec fn wf(self) -> bool {
        1 <= self.spacing && self.spacing <= COORD_LIMIT
    }

    /// The cell index of a coordinate: the floor of `o / spacing`
    /// (spec-level `/` on `int` is Euclidean division, which floors for a
    /// positive divisor).
    pub open spec fn cell1d(self, o: int) -> int {
        o / (self.spacing as int)
    }

    /// The cell index a single coordinate falls in.
    pub fn index1d(&self, ordinate: i64) -> (r: i64)
        requires
            self.wf(),
        ensures
            r == self.cell1d(ordinate as int),
    {
        floor_div(ordinate, self.spacing)
    }

    /// The low edge of a cell, as a coordinate: `index * spacing`.
    pub fn position1d_low(&self, index: i64) -> (r: i64)
        requires
            self.wf(),
            within((index as int) * (self.spacing as int), i64::MAX as int),
        ensures
            r as int == (index as int) * (self.spacing as int),
    {
        let wide: i128 = (index as i128) * (self.spacing as i128);
        proof {
            assert((index as int) * (self.spacing as int) == wide as int);
        }
        wide as i64
    }

    /// The cell a 2D position falls in.
    pub fn index2d(&self, position: Vec2Fx) -> (r: Cell)
        requires
            self.wf(),
        ensures
            r.x == self.cell1d(position.x as int),
            r.y == self.cell1d(position.y as int),
    {
        Cell { x: self.index1d(position.x), y: self.index1d(position.y) }
    }
}

/// Where the entry now at `(k, l)` sat before entry `j` of bucket `i` was
/// removed: entries of bucket `i` at or past `j` shift down by one.
spec fn src_after_remove(i: int, j: int, k: int, l: int) -> int {
    if k == i && l >= j {
        l + 1
    } else {
        l
    }
}

/// Where the entry at `(k, l)` sits after entry `j` of bucket `i` is
/// removed (assuming `(k, l)` is not the removed entry itself).
spec fn dst_after_remove(i: int, j: int, k: int, l: int) -> int {
    if k == i && l > j {
        l - 1
    } else {
        l
    }
}

/// One tracked entry: an entity and its last reported position.
#[derive(Clone, Copy, PartialEq, Eq, Structural, Debug)]
pub struct Item {
    pub entity: u64,
    pub pos: Vec2Fx,
}

/// The entries whose positions fall in one grid cell.
#[derive(Debug)]
pub struct Bucket {
    pub cell: Cell,
    pub items: Vec<Item>,
}

/// The spatial hash index.
///
/// Its abstract state is the partial map from entity to last reported
/// position, reachable through [`Self::tracks`] and [`Self::pos_of`]; each
/// operation's contract says exactly how it changes that map. Internally,
/// entries live in per-cell buckets: every tracked entity appears in
/// exactly one bucket, the bucket whose cell is the floor of its position
/// over the spacing.
#[derive(Debug)]
pub struct SpatialHashmap {
    pub grid: Grid,
    buckets: Vec<Bucket>,
}

impl SpatialHashmap {
    /// The grid spacing this index was built with.
    pub closed spec fn spacing(self) -> int {
        self.grid.spacing as int
    }

    /// The cell a position falls in, under this index's grid.
    pub closed spec fn cell_of(self, p: Vec2Fx) -> (int, int) {
        (self.grid.cell1d(p.x as int), self.grid.cell1d(p.y as int))
    }

    /// `(i, j)` names an entry: bucket `i`, entry `j` within it.
    pub closed spec fn valid_loc(self, i: int, j: int) -> bool {
        0 <= i < self.buckets@.len() && 0 <= j < self.buckets@[i].items@.len()
    }

    /// The entry at a location.
    pub closed spec fn item_at(self, i: int, j: int) -> Item {
        self.buckets@[i].items@[j]
    }

    /// The entity at a location.
    pub closed spec fn entity_at(self, i: int, j: int) -> u64 {
        self.item_at(i, j).entity
    }

    /// The cell of bucket `i`.
    pub closed spec fn bucket_cell(self, i: int) -> Cell {
        self.buckets@[i].cell
    }

    /// The index currently tracks this entity.
    pub closed spec fn tracks(self, e: u64) -> bool {
        exists|i: int, j: int| self.valid_loc(i, j) && #[trigger] self.entity_at(i, j) == e
    }

    /// The location of a tracked entity (unique under `wf`).
    pub closed spec fn loc_of(self, e: u64) -> (int, int) {
        choose|i: int, j: int| self.valid_loc(i, j) && #[trigger] self.entity_at(i, j) == e
    }

    /// The last reported position of a tracked entity.
    pub closed spec fn pos_of(self, e: u64) -> Vec2Fx {
        self.item_at(self.loc_of(e).0, self.loc_of(e).1).pos
    }

    /// Every entry's position is in range and lies in its bucket's cell.
    closed spec fn buckets_wf(self) -> bool {
        forall|i: int, j: int|
            self.valid_loc(i, j) ==> {
                let it = #[trigger] self.item_at(i, j);
                &&& it.pos.wf()
                &&& self.grid.cell1d(it.pos.x as int) == self.bucket_cell(i).x as int
                &&& self.grid.cell1d(it.pos.y as int) == self.bucket_cell(i).y as int
            }
    }

    /// No two buckets share a cell.
    closed spec fn cells_unique(self) -> bool {
        forall|i1: int, i2: int|
            0 <= i1 < i2 < self.buckets@.len() ==> #[trigger] self.bucket_cell(i1)
                != #[trigger] self.bucket_cell(i2)
    }

    /// No entity appears twice, in any pair of locations.
    closed spec fn entities_unique(self) -> bool {
        forall|i1: int, j1: int, i2: int, j2: int|
            self.valid_loc(i1, j1) && self.valid_loc(i2, j2) && !(i1 == i2 && j1 == j2)
                ==> #[trigger] self.entity_at(i1, j1) != #[trigger] self.entity_at(i2, j2)
    }

    /// The index invariant: a positive spacing, entries filed under the
    /// cell of their position, one cell per bucket, one entry per entity.
    pub closed spec fn wf(self) -> bool {
        &&& self.grid.wf()
        &&& self.buckets_wf()
        &&& self.cells_unique()
        &&& self.entities_unique()
    }

    /// An entry's location is its entity's unique location.
    proof fn lemma_at_loc(self, i: int, j: int)
        requires
            self.wf(),
            self.valid_loc(i, j),
        ensures
            self.tracks(self.entity_at(i, j)),
            self.loc_of(self.entity_at(i, j)) == (i, j),
            self.pos_of(self.entity_at(i, j)) == self.item_at(i, j).pos,
    {
        let e = self.entity_at(i, j);
        assert(self.tracks(e));
        let (i2, j2) = choose|i2: int, j2: int|
            self.valid_loc(i2, j2) && #[trigger] self.entity_at(i2, j2) == e;
        if !(i2 == i && j2 == j) {
            assert(self.entity_at(i2, j2) != self.entity_at(i, j));
        }
    }

    /// An entry's position falls, cell-wise, exactly in its bucket's cell.
    proof fn lemma_entry_cell(self, i: int, j: int)
        requires
            self.wf(),
            self.valid_loc(i, j),
        ensures
            self.cell_of(self.item_at(i, j).pos) == (
                self.bucket_cell(i).x as int,
                self.bucket_cell(i).y as int,
            ),
    {
        let it = self.item_at(i, j);
        assert(it.pos.wf());
    }

    /// A fresh, empty index over a positive spacing. A zero, negative or
    /// out-of-range spacing is a configuration error, refused here rather
    /// than left to corrupt cell math at query time.
    pub fn new(spacing: i64) -> (r: Result<SpatialHashmap, ConfigError>)
        ensures
            (1 <= spacing <= COORD_LIMIT) <==> r is Ok,
            r matches Ok(m) ==> m.wf() && m.spacing() == spacing && (forall|e: u64|
                !m.tracks(e)),
            r matches Err(c) ==> c == ConfigError::BadSpacing,
    {
        if spacing < 1 || spacing > COORD_LIMIT {
            Err(ConfigError::BadSpacing)
        } else {
            let m = SpatialHashmap { grid: Grid { spacing }, buckets: Vec::new() };
            proof {
                assert forall|e: u64| !m.tracks(e) by {
                    if m.tracks(e) {
                        let (i, j) = choose|i: int, j: int|
                            m.valid_loc(i, j) && #[trigger] m.entity_at(i, j) == e;
                    }
                }
            }
            Ok(m)
        }
    }

    /// The bucket filed under `cell`, if any.
    fn find_bucket(&self, cell: Cell) -> (r: Option<usize>)
        ensures
            match r {
                Some(i) => 0 <= i < self.buckets@.len() && self.bucket_cell(i as int) == cell,
                None => forall|i: int|
                    0 <= i < self.buckets@.len() ==> #[trigger] self.bucket_cell(i) != cell,
            },
    {
        let n = self.buckets.len();
        let mut i: usize = 0;
        while i < n
            invariant
                i <= n,
                n == self.buckets@.len(),
                forall|k: int| 0 <= k < i ==> #[trigger] self.bucket_cell(k) != cell,
            decreases n - i,
        {
            if self.buckets[i].cell == cell {
                return Some(i);
            }
            i += 1;
        }
        None
    }

    /// The index of `entity` within one bucket's entries, if present.
    fn find_item(items: &Vec<Item>, entity: u64) -> (r: Option<usize>)
        ensures
            match r {
                Some(j) => 0 <= j < items@.len() && items@[j as int].entity == entity,
                None => forall|j: int|
                    0 <= j < items@.len() ==> #[trigger] items@[j].entity != entity,
            },
    {
        let n = items.len();
        let mut j: usize = 0;
        while j < n
            invariant
                j <= n,
                n == items@.len(),
                forall|k: int| 0 <= k < j ==> #[trigger] items@[k].entity != entity,
            decreases n - j,
        {
            if items[j].entity == entity {
                return Some(j);
            }
            j += 1;
        }
        None
    }

    /// Removing entry `j` of bucket `i` keeps the invariant, stops
    /// tracking exactly that entry's entity, and leaves every other
    /// entity where it was.
    proof fn lemma_item_removed(pre: Self, post: Self, i: int, j: int)
        requires
            pre.wf(),
            pre.valid_loc(i, j),
            post.grid == pre.grid,
            post.buckets@.len() == pre.buckets@.len(),
            post.bucket_cell(i) == pre.bucket_cell(i),
            post.buckets@[i].items@ == pre.buckets@[i].items@.remove(j),
            forall|k: int|
                0 <= k < pre.buckets@.len() && k != i ==> post.buckets@[k] == pre.buckets@[k],
        ensures
            post.wf(),
            !post.tracks(pre.entity_at(i, j)),
            forall|e: u64|
                e != pre.entity_at(i, j) ==> ((#[trigger] post.tracks(e)) <==> pre.tracks(e)),
            forall|e: u64|
                e != pre.entity_at(i, j) && pre.tracks(e) ==> (#[trigger] post.pos_of(e))
                    == pre.pos_of(e),
    {
        let en = pre.entity_at(i, j);
        pre.buckets@[i].items@.remove_ensures(j);

        // every post entry is a pre entry, at a location other than (i, j)
        assert forall|k: int, l: int| post.valid_loc(k, l) implies pre.valid_loc(
            k,
            src_after_remove(i, j, k, l),
        ) && post.item_at(k, l) == pre.item_at(k, src_after_remove(i, j, k, l)) && !(k == i
            && src_after_remove(i, j, k, l) == j) by {
            if k != i {
                assert(post.buckets@[k] == pre.buckets@[k]);
            }
        }
        // every pre entry but (i, j) survives, at a computable location
        assert forall|k: int, l: int| pre.valid_loc(k, l) && !(k == i && l == j) implies
            post.valid_loc(k, dst_after_remove(i, j, k, l)) && post.item_at(
            k,
            dst_after_remove(i, j, k, l),
        ) == pre.item_at(k, l) by {
            if k != i {
                assert(post.buckets@[k] == pre.buckets@[k]);
            }
        }
        assert forall|k: int| 0 <= k < post.buckets@.len() implies post.bucket_cell(k)
            == pre.bucket_cell(k) by {
            if k != i {
                assert(post.buckets@[k] == pre.buckets@[k]);
            }
        }
        assert(post.buckets_wf()) by {
            assert forall|k: int, l: int| post.valid_loc(k, l) implies {
                let it = post.item_at(k, l);
                &&& it.pos.wf()
                &&& post.grid.cell1d(it.pos.x as int) == post.bucket_cell(k).x as int
                &&& post.grid.cell1d(it.pos.y as int) == post.bucket_cell(k).y as int
            } by {
                let l0 = src_after_remove(i, j, k, l);
                assert(pre.valid_loc(k, l0) && post.item_at(k, l) == pre.item_at(k, l0));
            }
        }
        assert(post.entities_unique()) by {
            assert forall|k1: int, l1: int, k2: int, l2: int|
                post.valid_loc(k1, l1) && post.valid_loc(k2, l2) && !(k1 == k2 && l1 == l2)
                    implies #[trigger] post.entity_at(k1, l1) != #[trigger] post.entity_at(
                k2,
                l2,
            ) by {
                let s1 = src_after_remove(i, j, k1, l1);
                let s2 = src_after_remove(i, j, k2, l2);
                assert(pre.valid_loc(k1, s1) && post.item_at(k1, l1) == pre.item_at(k1, s1));
                assert(pre.valid_loc(k2, s2) && post.item_at(k2, l2) == pre.item_at(k2, s2));
                assert(!(k1 == k2 && s1 == s2));
                assert(pre.entity_at(k1, s1) != pre.entity_at(k2, s2));
            }
        }
        assert(!post.tracks(en)) by {
            if post.tracks(en) {
                let (k, l) = choose|k: int, l: int|
                    post.valid_loc(k, l) && #[trigger] post.entity_at(k, l) == en;
                let l0 = src_after_remove(i, j, k, l);
                assert(pre.valid_loc(k, l0) && post.item_at(k, l) == pre.item_at(k, l0));
                assert(pre.entity_at(k, l0) != pre.entity_at(i, j));
            }
        }
        assert forall|e: u64| e != en implies ((#[trigger] post.tracks(e)) <==> pre.tracks(e)) by {
            if post.tracks(e) {
                let (k, l) = choose|k: int, l: int|
                    post.valid_loc(k, l) && #[trigger] post.entity_at(k, l) == e;
                let l0 = src_after_remove(i, j, k, l);
                assert(pre.valid_loc(k, l0) && pre.entity_at(k, l0) == e);
                assert(pre.tracks(e));
            }
            if pre.tracks(e) {
                let (k, l) = choose|k: int, l: int|
                    pre.valid_loc(k, l) && #[trigger] pre.entity_at(k, l) == e;
                assert(!(k == i && l == j));
                let l1 = dst_after_remove(i, j, k, l);
                assert(post.valid_loc(k, l1) && post.entity_at(k, l1) == e);
                assert(post.tracks(e));
            }
        }
        assert forall|e: u64| e != en && pre.tracks(e) implies (#[trigger] post.pos_of(e))
            == pre.pos_of(e) by {
            let (k, l) = choose|k: int, l: int|
                pre.valid_loc(k, l) && #[trigger] pre.entity_at(k, l) == e;
            pre.lemma_at_loc(k, l);
            assert(!(k == i && l == j));
            let l1 = dst_after_remove(i, j, k, l);
            assert(post.valid_loc(k, l1) && post.item_at(k, l1) == pre.item_at(k, l));
            post.lemma_at_loc(k, l1);
        }
    }

    /// Appending a fresh entry to bucket `i` (whose cell must match the
    /// entry's position) keeps the invariant, tracks the new entity at its
    /// position, and leaves every other entity where it was.
    proof fn lemma_item_pushed(pre: Self, post: Self, i: int, it: Item)
        requires
            pre.wf(),
            0 <= i < pre.buckets@.len(),
            !pre.tracks(it.entity),
            it.pos.wf(),
            pre.grid.cell1d(it.pos.x as int) == pre.bucket_cell(i).x as int,
            pre.grid.cell1d(it.pos.y as int) == pre.bucket_cell(i).y as int,
            post.grid == pre.grid,
            post.buckets@.len() == pre.buckets@.len(),
            post.bucket_cell(i) == pre.bucket_cell(i),
            post.buckets@[i].items@ == pre.buckets@[i].items@.push(it),
            forall|k: int|
                0 <= k < pre.buckets@.len() && k != i ==> post.buckets@[k] == pre.buckets@[k],
        ensures
            post.wf(),
            post.tracks(it.entity),
            post.pos_of(it.entity) == it.pos,
            forall|e: u64| e != it.entity ==> ((#[trigger] post.tracks(e)) <==> pre.tracks(e)),
            forall|e: u64|
                e != it.entity && pre.tracks(e) ==> (#[trigger] post.pos_of(e)) == pre.pos_of(e),
    {
        let n = pre.buckets@[i].items@.len() as int;

        // no pre entry holds the fresh entity
        assert forall|k: int, l: int| pre.valid_loc(k, l) implies #[trigger] pre.entity_at(k, l)
            != it.entity by {
            if pre.entity_at(k, l) == it.entity {
                assert(pre.tracks(it.entity));
            }
        }
        // every post entry is a pre entry or the new one at (i, n)
        assert forall|k: int, l: int| post.valid_loc(k, l) implies (if k == i && l == n {
            post.item_at(k, l) == it
        } else {
            pre.valid_loc(k, l) && post.item_at(k, l) == pre.item_at(k, l)
        }) by {
            if k != i {
                assert(post.buckets@[k] == pre.buckets@[k]);
            }
        }
        assert forall|k: int, l: int| pre.valid_loc(k, l) implies post.valid_loc(k, l)
            && post.item_at(k, l) == pre.item_at(k, l) by {
            if k != i {
                assert(post.buckets@[k] == pre.buckets@[k]);
            }
        }
        assert forall|k: int| 0 <= k < post.buckets@.len() implies post.bucket_cell(k)
            == pre.bucket_cell(k) by {
            if k != i {
                assert(post.buckets@[k] == pre.buckets@[k]);
            }
        }
        assert(post.buckets_wf()) by {
            assert forall|k: int, l: int| post.valid_loc(k, l) implies {
                let entry = post.item_at(k, l);
                &&& entry.pos.wf()
                &&& post.grid.cell1d(entry.pos.x as int) == post.bucket_cell(k).x as int
                &&& post.grid.cell1d(entry.pos.y as int) == post.bucket_cell(k).y as int
            } by {
                if !(k == i && l == n) {
                    assert(pre.valid_loc(k, l) && post.item_at(k, l) == pre.item_at(k, l));
                }
            }
        }
        assert(post.entities_unique()) by {
            assert forall|k1: int, l1: int, k2: int, l2: int|
                post.valid_loc(k1, l1) && post.valid_loc(k2, l2) && !(k1 == k2 && l1 == l2)
                    implies #[trigger] post.entity_at(k1, l1) != #[trigger] post.entity_at(
                k2,
                l2,
            ) by {
                if k1 != i {
                    assert(post.buckets@[k1] == pre.buckets@[k1]);
                }
                if k2 != i {
                    assert(post.buckets@[k2] == pre.buckets@[k2]);
                }
                if k1 == i && l1 == n {
                    assert(post.item_at(k1, l1) == it);
                    assert(pre.valid_loc(k2, l2) && post.item_at(k2, l2) == pre.item_at(k2, l2));
                    assert(pre.entity_at(k2, l2) != it.entity);
                } else if k2 == i && l2 == n {
                    assert(post.item_at(k2, l2) == it);
                    assert(pre.valid_loc(k1, l1) && post.item_at(k1, l1) == pre.item_at(k1, l1));
                    assert(pre.entity_at(k1, l1) != it.entity);
                } else {
                    assert(pre.valid_loc(k1, l1) && post.item_at(k1, l1) == pre.item_at(k1, l1));
                    assert(pre.valid_loc(k2, l2) && post.item_at(k2, l2) == pre.item_at(k2, l2));
                    assert(pre.entity_at(k1, l1) != pre.entity_at(k2, l2));
                }
            }
        }
        assert(post.valid_loc(i, n) && post.entity_at(i, n) == it.entity);
        post.lemma_at_loc(i, n);
        assert forall|e: u64| e != it.entity implies ((#[trigger] post.tracks(e)) <==> pre.tracks(
            e,
        )) by {
            if post.tracks(e) {
                let (k, l) = choose|k: int, l: int|
                    post.valid_loc(k, l) && #[trigger] post.entity_at(k, l) == e;
                assert(!(k == i && l == n));
                assert(pre.valid_loc(k, l) && pre.entity_at(k, l) == e);
                assert(pre.tracks(e));
            }
            if pre.tracks(e) {
                let (k, l) = choose|k: int, l: int|
                    pre.valid_loc(k, l) && #[trigger] pre.entity_at(k, l) == e;
                assert(post.valid_loc(k, l) && post.entity_at(k, l) == e);
                assert(post.tracks(e));
            }
        }
        assert forall|e: u64| e != it.entity && pre.tracks(e) implies (#[trigger] post.pos_of(e))
            == pre.pos_of(e) by {
            let (k, l) = choose|k: int, l: int|
                pre.valid_loc(k, l) && #[trigger] pre.entity_at(k, l) == e;
            pre.lemma_at_loc(k, l);
            assert(post.valid_loc(k, l) && post.item_at(k, l) == pre.item_at(k, l));
            post.lemma_at_loc(k, l);
        }
    }

    /// Appending a whole new bucket, with one fresh entry and a cell no
    /// existing bucket has, keeps the invariant, tracks the new entity,
    /// and leaves every other entity where it was.
    proof fn lemma_bucket_pushed(pre: Self, post: Self, b: Bucket)
        requires
            pre.wf(),
            !pre.tracks(b.items@[0].entity),
            b.items@.len() == 1,
            b.items@[0].pos.wf(),
            pre.grid.cell1d(b.items@[0].pos.x as int) == b.cell.x as int,
            pre.grid.cell1d(b.items@[0].pos.y as int) == b.cell.y as int,
            forall|k: int| 0 <= k < pre.buckets@.len() ==> #[trigger] pre.bucket_cell(k) != b.cell,
            post.grid == pre.grid,
            post.buckets@ == pre.buckets@.push(b),
        ensures
            post.wf(),
            post.tracks(b.items@[0].entity),
            post.pos_of(b.items@[0].entity) == b.items@[0].pos,
            forall|e: u64|
                e != b.items@[0].entity ==> ((#[trigger] post.tracks(e)) <==> pre.tracks(e)),
            forall|e: u64|
                e != b.items@[0].entity && pre.tracks(e) ==> (#[trigger] post.pos_of(e))
                    == pre.pos_of(e),
    {
        let n = pre.buckets@.len() as int;
        let it = b.items@[0];

        assert forall|k: int, l: int| pre.valid_loc(k, l) implies #[trigger] pre.entity_at(k, l)
            != it.entity by {
            if pre.entity_at(k, l) == it.entity {
                assert(pre.tracks(it.entity));
            }
        }
        assert forall|k: int, l: int| post.valid_loc(k, l) implies (if k == n {
            l == 0 && post.item_at(k, l) == it
        } else {
            pre.valid_loc(k, l) && post.item_at(k, l) == pre.item_at(k, l)
        }) by {
            if k < n {
                assert(post.buckets@[k] == pre.buckets@[k]);
            }
        }
        assert forall|k: int, l: int| pre.valid_loc(k, l) implies post.valid_loc(k, l)
            && post.item_at(k, l) == pre.item_at(k, l) by {
            assert(post.buckets@[k] == pre.buckets@[k]);
        }
        assert(post.buckets_wf()) by {
            assert forall|k: int, l: int| post.valid_loc(k, l) implies {
                let entry = post.item_at(k, l);
                &&& entry.pos.wf()
                &&& post.grid.cell1d(entry.pos.x as int) == post.bucket_cell(k).x as int
                &&& post.grid.cell1d(entry.pos.y as int) == post.bucket_cell(k).y as int
            } by {
                if k < n {
                    assert(post.buckets@[k] == pre.buckets@[k]);
                    assert(pre.valid_loc(k, l) && post.item_at(k, l) == pre.item_at(k, l));
                }
            }
        }
        assert(post.cells_unique()) by {
            assert forall|i1: int, i2: int| 0 <= i1 < i2 < post.buckets@.len()
                implies #[trigger] post.bucket_cell(i1) != #[trigger] post.bucket_cell(i2) by {
                assert(post.buckets@[i1] == pre.buckets@[i1]);
                if i2 < n {
                    assert(post.buckets@[i2] == pre.buckets@[i2]);
                    assert(pre.bucket_cell(i1) != pre.bucket_cell(i2));
                } else {
                    assert(post.buckets@[i2] == b);
                    assert(pre.bucket_cell(i1) != b.cell);
                }
            }
        }
        assert(post.entities_unique()) by {
            assert forall|k1: int, l1: int, k2: int, l2: int|
                post.valid_loc(k1, l1) && post.valid_loc(k2, l2) && !(k1 == k2 && l1 == l2)
                    implies #[trigger] post.entity_at(k1, l1) != #[trigger] post.entity_at(
                k2,
                l2,
            ) by {
                if k1 < n {
                    assert(post.buckets@[k1] == pre.buckets@[k1]);
                } else {
                    assert(post.buckets@[k1] == b);
                }
                if k2 < n {
                    assert(post.buckets@[k2] == pre.buckets@[k2]);
                } else {
                    assert(post.buckets@[k2] == b);
                }
                if k1 == n {
                    assert(l1 == 0 && post.item_at(k1, l1) == it);
                    assert(pre.valid_loc(k2, l2) && post.item_at(k2, l2) == pre.item_at(k2, l2));
                    assert(pre.entity_at(k2, l2) != it.entity);
                } else if k2 == n {
                    assert(l2 == 0 && post.item_at(k2, l2) == it);
                    assert(pre.valid_loc(k1, l1) && post.item_at(k1, l1) == pre.item_at(k1, l1));
                    assert(pre.entity_at(k1, l1) != it.entity);
                } else {
                    assert(pre.valid_loc(k1, l1) && post.item_at(k1, l1) == pre.item_at(k1, l1));
                    assert(pre.valid_loc(k2, l2) && post.item_at(k2, l2) == pre.item_at(k2, l2));
                    assert(pre.entity_at(k1, l1) != pre.entity_at(k2, l2));
                }
            }
        }
        assert(post.buckets@[n as int] == b);
        assert(post.valid_loc(n, 0) && post.entity_at(n, 0) == it.entity);
        post.lemma_at_loc(n, 0);
        assert forall|e: u64| e != it.entity implies ((#[trigger] post.tracks(e)) <==> pre.tracks(
            e,
        )) by {
            if post.tracks(e) {
                let (k, l) = choose|k: int, l: int|
                    post.valid_loc(k, l) && #[trigger] post.entity_at(k, l) == e;
                assert(!(k == n));
                assert(pre.valid_loc(k, l) && pre.entity_at(k, l) == e);
                assert(pre.tracks(e));
            }
            if pre.tracks(e) {
                let (k, l) = choose|k: int, l: int|
                    pre.valid_loc(k, l) && #[trigger] pre.entity_at(k, l) == e;
                assert(post.valid_loc(k, l) && post.entity_at(k, l) == e);
                assert(post.tracks(e));
            }
        }
        assert forall|e: u64| e != it.entity && pre.tracks(e) implies (#[trigger] post.pos_of(e))
            == pre.pos_of(e) by {
            let (k, l) = choose|k: int, l: int|
                pre.valid_loc(k, l) && #[trigger] pre.entity_at(k, l) == e;
            pre.lemma_at_loc(k, l);
            assert(post.valid_loc(k, l) && post.item_at(k, l) == pre.item_at(k, l));
            post.lemma_at_loc(k, l);
        }
    }

    /// The location of `entity`, if tracked.
    fn locate(&self, entity: u64) -> (r: Option<(usize, usize)>)
        requires
            self.wf(),
        ensures
            match r {
                Some(loc) => self.valid_loc(loc.0 as int, loc.1 as int) && self.entity_at(
                    loc.0 as int,
                    loc.1 as int,
                ) == entity,
                None => !self.tracks(entity),
            },
    {
        let n = self.buckets.len();
        let mut i: usize = 0;
        while i < n
            invariant
                i <= n,
                n == self.buckets@.len(),
                forall|k: int, l: int|
                    self.valid_loc(k, l) && k < i ==> #[trigger] self.entity_at(k, l) != entity,
            decreases n - i,
        {
            if let Some(j) = Self::find_item(&self.buckets[i].items, entity) {
                return Some((i, j));
            }
            i += 1;
        }
        proof {
            if self.tracks(entity) {
                let (k, l) = choose|k: int, l: int|
                    self.valid_loc(k, l) && #[trigger] self.entity_at(k, l) == entity;
            }
        }
        None
    }

    /// The last reported position of `entity`, if tracked.
    pub fn position_of(&self, entity: u64) -> (r: Option<Vec2Fx>)
        requires
            self.wf(),
        ensures
            match r {
                Some(p) => self.tracks(entity) && p == self.pos_of(entity),
                None => !self.tracks(entity),
            },
    {
        match self.locate(entity) {
            Some((i, j)) => {
                proof {
                    self.lemma_at_loc(i as int, j as int);
                }
                Some(self.buckets[i].items[j].pos)
            },
            None => None,
        }
    }

    /// Drop `entity` from wherever it is tracked, if anywhere.
    fn remove_entity(&mut self, entity: u64)
        requires
            old(self).wf(),
        ensures
            final(self).wf(),
            final(self).spacing() == old(self).spacing(),
            !final(self).tracks(entity),
            forall|e: u64|
                e != entity ==> ((#[trigger] final(self).tracks(e)) <==> old(self).tracks(e)),
            forall|e: u64|
                e != entity && old(self).tracks(e) ==> (#[trigger] final(self).pos_of(e)) == old(
                    self,
                ).pos_of(e),
    {
        if let Some((i, j)) = self.locate(entity) {
            let ghost pre = *self;
            let b = &mut self.buckets[i];
            b.items.remove(j);
            proof {
                Self::lemma_item_removed(pre, *self, i as int, j as int);
            }
        }
    }

    /// Track `entity` at `position`, filing it under the cell of
    /// `position`. If the entity was already tracked, anywhere, the new
    /// report replaces the old: the index never duplicates an entity.
    pub fn insert(&mut self, position: Vec2Fx, entity: u64)
        requires
            old(self).wf(),
            position.wf(),
        ensures
            final(self).wf(),
            final(self).spacing() == old(self).spacing(),
            final(self).tracks(entity),
            final(self).pos_of(entity) == position,
            forall|e: u64|
                e != entity ==> ((#[trigger] final(self).tracks(e)) <==> old(self).tracks(e)),
            forall|e: u64|
                e != entity && old(self).tracks(e) ==> (#[trigger] final(self).pos_of(e)) == old(
                    self,
                ).pos_of(e),
    {
        self.remove_entity(entity);
        let grid = self.grid;
        let cell = grid.index2d(position);
        let it = Item { entity, pos: position };
        match self.find_bucket(cell) {
            Some(i) => {
                let ghost pre = *self;
                let b = &mut self.buckets[i];
                b.items.push(it);
                proof {
                    Self::lemma_item_pushed(pre, *self, i as int, it);
                }
            },
            None => {
                let ghost pre = *self;
                let mut items: Vec<Item> = Vec::new();
                items.push(it);
                let bucket = Bucket { cell, items };
                proof {
                    assert(bucket.items@ =~= seq![it]);
                }
                self.buckets.push(bucket);
                proof {
                    Self::lemma_bucket_pushed(pre, *self, bucket);
                }
            },
        }
    }

    /// Stop tracking `entity`, provided its stored position falls in the
    /// same cell as `position`; otherwise (including when the entity is
    /// not tracked at all) this is a no-op, never an error.
    pub fn remove(&mut self, position: Vec2Fx, entity: u64)
        requires
            old(self).wf(),
            position.wf(),
        ensures
            final(self).wf(),
            final(self).spacing() == old(self).spacing(),
            final(self).tracks(entity) <==> (old(self).tracks(entity) && old(self).cell_of(
                old(self).pos_of(entity),
            ) != old(self).cell_of(position)),
            final(self).tracks(entity) ==> final(self).pos_of(entity) == old(self).pos_of(entity),
            forall|e: u64|
                e != entity ==> ((#[trigger] final(self).tracks(e)) <==> old(self).tracks(e)),
            forall|e: u64|
                e != entity && old(self).tracks(e) ==> (#[trigger] final(self).pos_of(e)) == old(
                    self,
                ).pos_of(e),
    {
        let grid = self.grid;
        let cell = grid.index2d(position);
        match self.locate(entity) {
            Some((i, j)) => {
                proof {
                    self.lemma_at_loc(i as int, j as int);
                }
                if self.buckets[i].cell == cell {
                    let ghost pre = *self;
                    let b = &mut self.buckets[i];
                    b.items.remove(j);
                    proof {
                        Self::lemma_item_removed(pre, *self, i as int, j as int);
                    }
                }
            },
            None => {},
        }
    }

    /// Refresh `entity`'s report from `previous_position` to
    /// `new_position`, re-filing it under the new cell when the cell
    /// changes; when the cell is unchanged the stored position is still
    /// refreshed to `new_position`, since queries filter on the stored
    /// position.
    ///
    /// A caller-supplied `previous_position` that is not the stored
    /// position — even one in the same cell — is a stale reference, and
    /// the call is silently absorbed as a no-op, never an error. Matching
    /// is deliberately exact rather than cell-level: refreshing on a mere
    /// cell match would overwrite the stored position with data the index
    /// never confirmed, so an update from a position to that same position
    /// could change what queries return, which must never happen.
    pub fn update(&mut self, entity: u64, previous_position: Vec2Fx, new_position: Vec2Fx)
        requires
            old(self).wf(),
            previous_position.wf(),
            new_position.wf(),
        ensures
            final(self).wf(),
            final(self).spacing() == old(self).spacing(),
            (old(self).tracks(entity) && old(self).pos_of(entity) == previous_position) ==> {
                &&& final(self).tracks(entity)
                &&& final(self).pos_of(entity) == new_position
            },
            !(old(self).tracks(entity) && old(self).pos_of(entity) == previous_position)
                ==> *final(self) == *old(self),
            forall|e: u64|
                e != entity ==> ((#[trigger] final(self).tracks(e)) <==> old(self).tracks(e)),
            forall|e: u64|
                e != entity && old(self).tracks(e) ==> (#[trigger] final(self).pos_of(e)) == old(
                    self,
                ).pos_of(e),
    {
        match self.locate(entity) {
            Some((i, j)) => {
                proof {
                    self.lemma_at_loc(i as int, j as int);
                }
                let stored = self.buckets[i].items[j].pos;
                if stored == previous_position {
                    self.insert(new_position, entity);
                }
            },
            None => {},
        }
    }

    /// All tracked entities whose stored position passes the shape's range
    /// test, each exactly once, with its stored position. The walk visits
    /// the cells of the shape's bounding rectangle in row-major order and
    /// filters each visited bucket; cells without a bucket contribute
    /// nothing. Querying an empty index returns an empty vector.
    pub fn query<Q: SpatialQuery>(&self, query: Q) -> (out: Vec<(u64, Vec2Fx)>)
        requires
            self.wf(),
            query.wf(),
        ensures
            forall|k: int|
                0 <= k < out@.len() ==> self.tracks((#[trigger] out@[k]).0) && out@[k].1
                    == self.pos_of(out@[k].0) && query.in_range_spec(out@[k].1),
            forall|e: u64|
                self.tracks(e) && query.in_range_spec(#[trigger] self.pos_of(e)) ==> exists|k: int|
                    0 <= k < out@.len() && (#[trigger] out@[k]) == (e, self.pos_of(e)),
            forall|k1: int, k2: int| 0 <= k1 < k2 < out@.len() ==> out@[k1].0 != out@[k2].0,
            forall|k1: int, k2: int|
                0 <= k1 <= k2 < out@.len() ==> row_major_le(
                    self.cell_of((#[trigger] out@[k1]).1),
                    self.cell_of((#[trigger] out@[k2]).1),
                ),
    {
        let grid = self.grid;
        proof {
            query.lemma_box_wf(grid);
        }
        let ghost xlo = query.x_lo(grid);
        let ghost xhi = query.x_hi(grid);
        let ghost ylo = query.y_lo(grid);
        let ghost yhi = query.y_hi(grid);
        let mut out: Vec<(u64, Vec2Fx)> = Vec::new();
        let mut cur = query.first_cell(grid);
        proof {
            assert forall|i: int, j: int|
                self.valid_loc(i, j) && query.in_range_spec((#[trigger] self.item_at(i, j)).pos)
                implies !before_cell(self.bucket_cell(i), cur.x as int, cur.y as int) by {
                let p = self.item_at(i, j).pos;
                query.lemma_in_range_in_box(grid, p);
                assert(self.bucket_cell(i).x as int == grid.cell1d(p.x as int));
                assert(self.bucket_cell(i).y as int == grid.cell1d(p.y as int));
            }
        }
        loop
            invariant_except_break
                self.wf(),
                query.wf(),
                grid == self.grid,
                xlo == query.x_lo(grid),
                xhi == query.x_hi(grid),
                ylo == query.y_lo(grid),
                yhi == query.y_hi(grid),
                xlo <= xhi,
                ylo <= yhi,
                within(xlo, 2 * COORD_LIMIT as int),
                within(xhi, 2 * COORD_LIMIT as int),
                within(ylo, 2 * COORD_LIMIT as int),
                within(yhi, 2 * COORD_LIMIT as int),
                xlo <= cur.x as int <= xhi,
                ylo <= cur.y as int <= yhi,
                forall|k: int|
                    0 <= k < out@.len() ==> self.tracks((#[trigger] out@[k]).0) && out@[k].1
                        == self.pos_of(out@[k].0) && query.in_range_spec(out@[k].1) && before_cell(
                        self.bucket_cell(self.loc_of(out@[k].0).0),
                        cur.x as int,
                        cur.y as int,
                    ),
                forall|i: int, j: int|
                    self.valid_loc(i, j) && query.in_range_spec((#[trigger] self.item_at(i, j)).pos)
                        && before_cell(self.bucket_cell(i), cur.x as int, cur.y as int) ==> exists|
                        k: int,
                    |
                        0 <= k < out@.len() && (#[trigger] out@[k]) == (self.entity_at(i, j),
                        self.item_at(i, j).pos),
                forall|k1: int, k2: int| 0 <= k1 < k2 < out@.len() ==> out@[k1].0 != out@[k2].0,
                forall|k1: int, k2: int|
                    0 <= k1 <= k2 < out@.len() ==> row_major_le(
                        self.cell_of((#[trigger] out@[k1]).1),
                        self.cell_of((#[trigger] out@[k2]).1),
                    ),
            ensures
                forall|k: int|
                    0 <= k < out@.len() ==> self.tracks((#[trigger] out@[k]).0) && out@[k].1
                        == self.pos_of(out@[k].0) && query.in_range_spec(out@[k].1),
                forall|i: int, j: int|
                    self.valid_loc(i, j) && query.in_range_spec((#[trigger] self.item_at(i, j)).pos)
                        ==> exists|k: int|
                        0 <= k < out@.len() && (#[trigger] out@[k]) == (self.entity_at(i, j),
                        self.item_at(i, j).pos),
                forall|k1: int, k2: int| 0 <= k1 < k2 < out@.len() ==> out@[k1].0 != out@[k2].0,
                forall|k1: int, k2: int|
                    0 <= k1 <= k2 < out@.len() ==> row_major_le(
                        self.cell_of((#[trigger] out@[k1]).1),
                        self.cell_of((#[trigger] out@[k2]).1),
                    ),
            decreases yhi - cur.y as int, xhi - cur.x as int,
        {
            match self.find_bucket(cur) {
                Some(bi) => {
                    let m = self.buckets[bi].items.len();
                    let mut j: usize = 0;
                    while j < m
                        invariant
                            self.wf(),
                            query.wf(),
                            grid == self.grid,
                            0 <= bi < self.buckets@.len(),
                            self.bucket_cell(bi as int) == cur,
                            j <= m,
                            m == self.buckets@[bi as int].items@.len(),
                            forall|k: int|
                                0 <= k < out@.len() ==> self.tracks((#[trigger] out@[k]).0)
                                    && out@[k].1 == self.pos_of(out@[k].0) && query.in_range_spec(
                                    out@[k].1,
                                ) && (before_cell(
                                    self.bucket_cell(self.loc_of(out@[k].0).0),
                                    cur.x as int,
                                    cur.y as int,
                                ) || (self.loc_of(out@[k].0).0 == bi && self.loc_of(out@[k].0).1
                                    < j)),
                            forall|i: int, l: int|
                                self.valid_loc(i, l) && query.in_range_spec(
                                    (#[trigger] self.item_at(i, l)).pos,
                                ) && (before_cell(self.bucket_cell(i), cur.x as int, cur.y as int)
                                    || (i == bi && l < j)) ==> exists|k: int|
                                    0 <= k < out@.len() && (#[trigger] out@[k]) == (self.entity_at(
                                    i,
                                    l,
                                ), self.item_at(i, l).pos),
                            forall|k1: int, k2: int|
                                0 <= k1 < k2 < out@.len() ==> out@[k1].0 != out@[k2].0,
                            forall|k1: int, k2: int|
                                0 <= k1 <= k2 < out@.len() ==> row_major_le(
                                    self.cell_of((#[trigger] out@[k1]).1),
                                    self.cell_of((#[trigger] out@[k2]).1),
                                ),
                        decreases m - j,
                    {
                        let it = self.buckets[bi].items[j];
                        proof {
                            self.lemma_at_loc(bi as int, j as int);
                        }
                        if query.in_range(it.pos) {
                            let ghost prev = out@;
                            out.push((it.entity, it.pos));
                            proof {
                                assert forall|k1: int, k2: int| 0 <= k1 < k2 < out@.len()
                                    implies out@[k1].0 != out@[k2].0 by {
                                    if k2 == out@.len() - 1 {
                                        assert(out@[k1] == prev[k1]);
                                        if out@[k1].0 == it.entity {
                                            assert(self.loc_of(it.entity) == (bi as int, j as int));
                                        }
                                    } else {
                                        assert(out@[k1] == prev[k1]);
                                        assert(out@[k2] == prev[k2]);
                                    }
                                }
                                assert(out@[prev.len() as int] == (self.entity_at(
                                    bi as int,
                                    j as int,
                                ), self.item_at(bi as int, j as int).pos));
                                assert forall|i: int, l: int|
                                    self.valid_loc(i, l) && query.in_range_spec(
                                        (#[trigger] self.item_at(i, l)).pos,
                                    ) && (before_cell(
                                        self.bucket_cell(i),
                                        cur.x as int,
                                        cur.y as int,
                                    ) || (i == bi && l < j + 1)) implies exists|k: int|
                                    0 <= k < out@.len() && (#[trigger] out@[k]) == (self.entity_at(
                                    i,
                                    l,
                                ), self.item_at(i, l).pos) by {
                                    if i == bi as int && l == j as int {
                                        assert(0 <= prev.len() < out@.len());
                                    } else {
                                        let k = choose|k: int|
                                            0 <= k < prev.len() && #[trigger] prev[k] == (
                                            self.entity_at(i, l),
                                            self.item_at(i, l).pos,
                                            );
                                        assert(out@[k] == prev[k]);
                                    }
                                }
                                assert forall|k1: int, k2: int|
                                    0 <= k1 <= k2 < out@.len() implies row_major_le(
                                    self.cell_of((#[trigger] out@[k1]).1),
                                    self.cell_of((#[trigger] out@[k2]).1),
                                ) by {
                                    self.lemma_at_loc(bi as int, j as int);
                                    self.lemma_entry_cell(bi as int, j as int);
                                    if k2 < prev.len() {
                                        assert(out@[k1] == prev[k1]);
                                        assert(out@[k2] == prev[k2]);
                                    } else {
                                        // k2 is the fresh entry, filed under the
                                        // current cell
                                        assert(self.cell_of(out@[k2 as int].1) == (
                                            cur.x as int,
                                            cur.y as int,
                                        ));
                                        if k1 < prev.len() {
                                            assert(out@[k1] == prev[k1]);
                                            let e = out@[k1].0;
                                            assert(self.tracks(e));
                                            let (i0, j0) = choose|i0: int, j0: int|
                                                self.valid_loc(i0, j0)
                                                    && #[trigger] self.entity_at(i0, j0) == e;
                                            self.lemma_at_loc(i0, j0);
                                            self.lemma_entry_cell(i0, j0);
                                            assert(out@[k1].1 == self.item_at(i0, j0).pos);
                                            if i0 == bi as int {
                                                assert(self.bucket_cell(i0) == cur);
                                            }
                                        }
                                    }
                                }
                            }
                        }
                        j += 1;
                    }
                    proof {
                        assert forall|i: int, l: int|
                            self.valid_loc(i, l) && query.in_range_spec(
                                (#[trigger] self.item_at(i, l)).pos,
                            ) && (before_cell(self.bucket_cell(i), cur.x as int, cur.y as int)
                                || self.bucket_cell(i) == cur) implies exists|k: int|
                            0 <= k < out@.len() && (#[trigger] out@[k]) == (self.entity_at(i, l),
                            self.item_at(i, l).pos) by {
                            if self.bucket_cell(i) == cur && !before_cell(
                                self.bucket_cell(i),
                                cur.x as int,
                                cur.y as int,
                            ) {
                                if i != bi as int {
                                    assert(self.bucket_cell(i) != self.bucket_cell(bi as int));
                                }
                            }
                        }
                        assert forall|k: int| 0 <= k < out@.len() implies before_cell(
                            self.bucket_cell(self.loc_of((#[trigger] out@[k]).0).0),
                            cur.x as int,
                            cur.y as int,
                        ) || self.bucket_cell(self.loc_of(out@[k].0).0) == cur by {
                            if self.loc_of(out@[k].0).0 == bi as int {
                                assert(self.bucket_cell(bi as int) == cur);
                            }
                        }
                    }
                },
                None => {
                    proof {
                        assert forall|i: int, l: int|
                            self.valid_loc(i, l) && query.in_range_spec(
                                (#[trigger] self.item_at(i, l)).pos,
                            ) && (before_cell(self.bucket_cell(i), cur.x as int, cur.y as int)
                                || self.bucket_cell(i) == cur) implies exists|k: int|
                            0 <= k < out@.len() && (#[trigger] out@[k]) == (self.entity_at(i, l),
                            self.item_at(i, l).pos) by {
                            assert(self.bucket_cell(i) != cur);
                        }
                        assert forall|k: int| 0 <= k < out@.len() implies before_cell(
                            self.bucket_cell(self.loc_of((#[trigger] out@[k]).0).0),
                            cur.x as int,
                            cur.y as int,
                        ) || self.bucket_cell(self.loc_of(out@[k].0).0) == cur by {
                        }
                    }
                },
            }
            // all cells at or before `cur` are now covered
            match query.next_cell(cur, grid) {
                Some(c) => {
                    proof {
                        assert forall|i: int, j: int|
                            self.valid_loc(i, j) && query.in_range_spec(
                                (#[trigger] self.item_at(i, j)).pos,
                            ) && before_cell(self.bucket_cell(i), c.x as int, c.y as int)
                            implies before_cell(self.bucket_cell(i), cur.x as int, cur.y as int)
                            || self.bucket_cell(i) == cur by {
                            let p = self.item_at(i, j).pos;
                            query.lemma_in_range_in_box(grid, p);
                            assert(self.bucket_cell(i).x as int == grid.cell1d(p.x as int));
                            assert(self.bucket_cell(i).y as int == grid.cell1d(p.y as int));
                        }
                        assert(before_cell(cur, c.x as int, c.y as int));
                        assert forall|k: int| 0 <= k < out@.len() implies before_cell(
                            self.bucket_cell(self.loc_of((#[trigger] out@[k]).0).0),
                            c.x as int,
                            c.y as int,
                        ) by {
                            let bc = self.bucket_cell(self.loc_of(out@[k].0).0);
                            assert(before_cell(bc, cur.x as int, cur.y as int) || bc == cur);
                        }
                    }
                    cur = c;
                },
                None => {
                    proof {
                        assert(cur.x as int == xhi && cur.y as int == yhi);
                        assert forall|i: int, j: int|
                            self.valid_loc(i, j) && query.in_range_spec(
                                (#[trigger] self.item_at(i, j)).pos,
                            ) implies before_cell(self.bucket_cell(i), cur.x as int, cur.y as int)
                            || self.bucket_cell(i) == cur by {
                            let p = self.item_at(i, j).pos;
                            query.lemma_in_range_in_box(grid, p);
                            assert(self.bucket_cell(i).x as int == grid.cell1d(p.x as int));
                            assert(self.bucket_cell(i).y as int == grid.cell1d(p.y as int));
                        }
                    }
                    break ;
                },
            }
        }
        proof {
            assert forall|e: u64|
                self.tracks(e) && query.in_range_spec(#[trigger] self.pos_of(e)) implies exists|
                k: int,
            |
                0 <= k < out@.len() && (#[trigger] out@[k]) == (e, self.pos_of(e)) by {
                let (i, j) = choose|i: int, j: int|
                    self.valid_loc(i, j) && #[trigger] self.entity_at(i, j) == e;
                self.lemma_at_loc(i, j);
            }
        }
        out
    }

    /// All tracked entities within `distance` of `center` (by the strict
    /// squared-distance circle test), with their stored positions: a
    /// circle query by another name.
    pub fn within_distance(&self, center: Vec2Fx, distance: i64) -> (out: Vec<(u64, Vec2Fx)>)
        requires
            self.wf(),
            center.wf(),
            0 <= distance <= COORD_LIMIT,
        ensures
            ({
                let q = CircleQuery { center, radius: distance };
                &&& forall|k: int|
                    0 <= k < out@.len() ==> self.tracks((#[trigger] out@[k]).0) && out@[k].1
                        == self.pos_of(out@[k].0) && q.in_range_spec(out@[k].1)
                &&& forall|e: u64|
                    self.tracks(e) && q.in_range_spec(#[trigger] self.pos_of(e)) ==> exists|k: int|
                        0 <= k < out@.len() && (#[trigger] out@[k]) == (e, self.pos_of(e))
                &&& forall|k1: int, k2: int| 0 <= k1 < k2 < out@.len() ==> out@[k1].0 != out@[k2].0
                &&& forall|k1: int, k2: int|
                    0 <= k1 <= k2 < out@.len() ==> row_major_le(
                        self.cell_of((#[trigger] out@[k1]).1),
                        self.cell_of((#[trigger] out@[k2]).1),
                    )
            }),
    {
        self.query(CircleQuery::new(center, distance))
    }
}

/// Law: a range query returns exactly the entity set a brute-force linear
/// scan would: scan every tracked entity, keep those whose stored position
/// passes the same range predicate. No false positives, no false
/// negatives, whatever sequence of inserts, updates and removes built the
/// index — the premises below are precisely what [`SpatialHashmap::query`]
/// ensures on any well-formed index.
pub proof fn lemma_query_matches_brute_force<Q: SpatialQuery>(
    index: SpatialHashmap,
    query: Q,
    out: Seq<(u64, Vec2Fx)>,
)
    requires
        index.wf(),
        query.wf(),
        forall|k: int|
            0 <= k < out.len() ==> index.tracks((#[trigger] out[k]).0) && out[k].1 == index.pos_of(
                out[k].0,
            ) && query.in_range_spec(out[k].1),
        forall|e: u64|
            index.tracks(e) && query.in_range_spec(#[trigger] index.pos_of(e)) ==> exists|k: int|
                0 <= k < out.len() && (#[trigger] out[k]) == (e, index.pos_of(e)),
    ensures
        Set::new(|e: u64| exists|k: int| 0 <= k < out.len() && (#[trigger] out[k]).0 == e) =~= Set::new(
            |e: u64| index.tracks(e) && query.in_range_spec(index.pos_of(e)),
        ),
{
    assert forall|e: u64|
        (exists|k: int| 0 <= k < out.len() && (#[trigger] out[k]).0 == e) <==> (index.tracks(e)
            && query.in_range_spec(index.pos_of(e))) by {
        if exists|k: int| 0 <= k < out.len() && (#[trigger] out[k]).0 == e {
            let k = choose|k: int| 0 <= k < out.len() && (#[trigger] out[k]).0 == e;
            assert(index.tracks(e) && query.in_range_spec(index.pos_of(e)));
        }
        if index.tracks(e) && query.in_range_spec(index.pos_of(e)) {
            let k = choose|k: int| 0 <= k < out.len() && (#[trigger] out[k]) == (e, index.pos_of(e));
            assert(out[k].0 == e);
        }
    }
}

/// Law: updating an entity from a position to that same position never
/// changes what any query returns. The premises are precisely what
/// [`SpatialHashmap::update`] ensures when called with equal previous and
/// new positions; under them the tracked-entity map is unchanged, so the
/// filtered set that every range query is specified to return is
/// unchanged too.
pub proof fn lemma_update_same_position_is_invisible<Q: SpatialQuery>(
    pre: SpatialHashmap,
    post: SpatialHashmap,
    entity: u64,
    p: Vec2Fx,
    query: Q,
)
    requires
        pre.wf(),
        (pre.tracks(entity) && pre.pos_of(entity) == p) ==> (post.tracks(entity) && post.pos_of(
            entity,
        ) == p),
        !(pre.tracks(entity) && pre.pos_of(entity) == p) ==> post == pre,
        forall|e: u64| e != entity ==> ((#[trigger] post.tracks(e)) <==> pre.tracks(e)),
        forall|e: u64|
            e != entity && pre.tracks(e) ==> (#[trigger] post.pos_of(e)) == pre.pos_of(e),
    ensures
        forall|e: u64| (#[trigger] post.tracks(e)) <==> pre.tracks(e),
        forall|e: u64| pre.tracks(e) ==> (#[trigger] post.pos_of(e)) == pre.pos_of(e),
        Set::new(|e: u64| post.tracks(e) && query.in_range_spec(post.pos_of(e))) =~= Set::new(
            |e: u64| pre.tracks(e) && query.in_range_spec(pre.pos_of(e)),
        ),
{
}

} // verus!
