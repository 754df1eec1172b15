//! The spatial hash index, held against a brute-force ground truth.

use movement_core::fx::FP_ONE;
use movement_core::spatial_hashmap::{Grid, SpatialHashmap};
use movement_core::spatial_query::{CircleQuery, SquareQuery};
use movement_core::vec2::Vec2Fx;

const S: i64 = FP_ONE;

fn v2(x: i64, y: i64) -> Vec2Fx {
    Vec2Fx { x, y }
}

/// Cell of a coordinate under a spacing, as the index defines it.
fn cell1(o: i64, spacing: i64) -> i64 {
    o.div_euclid(spacing)
}

fn cell2(p: (i64, i64), spacing: i64) -> (i64, i64) {
    (cell1(p.0, spacing), cell1(p.1, spacing))
}

/// The test's own model of the index: entity -> position, one entry each.
struct Model {
    spacing: i64,
    entries: Vec<(u64, (i64, i64))>,
}

impl Model {
    fn insert(&mut self, p: (i64, i64), e: u64) {
        self.entries.retain(|&(e2, _)| e2 != e);
        self.entries.push((e, p));
    }

    fn remove(&mut self, p: (i64, i64), e: u64) {
        let c = cell2(p, self.spacing);
        let spacing = self.spacing;
        self.entries
            .retain(|&(e2, q)| !(e2 == e && cell2(q, spacing) == c));
    }

    fn update(&mut self, e: u64, prev: (i64, i64), new: (i64, i64)) {
        if let Some(entry) = self
            .entries
            .iter_mut()
            .find(|(e2, q)| *e2 == e && *q == prev)
        {
            entry.1 = new;
        }
    }

    fn in_circle(&self, c: (i64, i64), r: i64) -> Vec<(u64, (i64, i64))> {
        let mut out: Vec<(u64, (i64, i64))> = self
            .entries
            .iter()
            .copied()
            .filter(|&(_, p)| {
                let dx = (p.0 - c.0) as i128;
                let dy = (p.1 - c.1) as i128;
                dx * dx + dy * dy < (r as i128) * (r as i128)
            })
            .collect();
        out.sort();
        out
    }

    fn in_square(&self, c: (i64, i64), r: i64) -> Vec<(u64, (i64, i64))> {
        let mut out: Vec<(u64, (i64, i64))> = self
            .entries
            .iter()
            .copied()
            .filter(|&(_, p)| {
                p.0 >= c.0 - r && p.0 < c.0 + r && p.1 >= c.1 - r && p.1 < c.1 + r
            })
            .collect();
        out.sort();
        out
    }
}

fn sorted_pairs(out: Vec<(u64, Vec2Fx)>) -> Vec<(u64, (i64, i64))> {
    let mut v: Vec<(u64, (i64, i64))> = out.into_iter().map(|(e, p)| (e, (p.x, p.y))).collect();
    v.sort();
    v
}

/// A deterministic scatter of positions, spanning several cells, with
/// negative coordinates included.
fn scatter(i: u64) -> (i64, i64) {
    let a = (i.wrapping_mul(2654435761) % 2_000_001) as i64 - 1_000_000;
    let b = (i.wrapping_mul(1103515245).wrapping_add(12345) % 2_000_001) as i64 - 1_000_000;
    (a * 37 % (40 * S), b * 53 % (40 * S))
}

#[test]
fn test_new_rejects_degenerate_spacing() {
    assert!(SpatialHashmap::new(0).is_err());
    assert!(SpatialHashmap::new(-5 * S).is_err());
    assert!(SpatialHashmap::new(10 * S).is_ok());
}

#[test]
fn test_query_on_empty_index_is_empty() {
    let index = SpatialHashmap::new(10 * S).unwrap();
    let q = CircleQuery::new(v2(0, 0), 100 * S);
    assert_eq!(index.query(q).len(), 0);
    let q = SquareQuery::new(v2(-3 * S, 7 * S), 5 * S);
    assert_eq!(index.query(q).len(), 0);
}

/// After an arbitrary mix of inserts, updates and removes, circle and
/// square queries return exactly what a brute-force scan returns.
#[test]
fn test_query_matches_brute_force_scan() {
    let spacing = 10 * S;
    let mut index = SpatialHashmap::new(spacing).unwrap();
    let mut model = Model { spacing, entries: Vec::new() };

    for i in 1..=60u64 {
        let p = scatter(i);
        index.insert(v2(p.0, p.1), i);
        model.insert(p, i);
    }
    // move a third of them, with the correct previous position
    for i in (1..=60u64).step_by(3) {
        let prev = scatter(i);
        let new = scatter(i + 100);
        index.update(i, v2(prev.0, prev.1), v2(new.0, new.1));
        model.update(i, prev, new);
    }
    // remove a few, by their current position
    for i in (2..=60u64).step_by(7) {
        let p = if i % 3 == 1 { scatter(i + 100) } else { scatter(i) };
        index.remove(v2(p.0, p.1), i);
        model.remove(p, i);
    }
    // a stale update and a stale remove change nothing
    index.update(4, v2(1, 1), v2(999 * S, 999 * S));
    index.remove(v2(35 * S, 35 * S), 5);

    for &(cx, cy, r) in &[
        (0i64, 0i64, 15 * S),
        (-12 * S, 9 * S, 25 * S),
        (20 * S, -20 * S, 7 * S),
        (0, 0, 500 * S),
    ] {
        let got = sorted_pairs(index.query(CircleQuery::new(v2(cx, cy), r)));
        assert_eq!(got, model.in_circle((cx, cy), r), "circle {cx} {cy} {r}");
        let got = sorted_pairs(index.query(SquareQuery::new(v2(cx, cy), r)));
        assert_eq!(got, model.in_square((cx, cy), r), "square {cx} {cy} {r}");
    }
}

/// Updating an entity from a position to that same position never changes
/// what a query returns.
#[test]
fn test_update_identical_positions_changes_nothing() {
    let spacing = 10 * S;
    let mut index = SpatialHashmap::new(spacing).unwrap();
    for i in 1..=20u64 {
        let p = scatter(i);
        index.insert(v2(p.0, p.1), i);
    }
    let q = CircleQuery::new(v2(0, 0), 30 * S);
    let before = sorted_pairs(index.query(q));
    for i in 1..=20u64 {
        let p = scatter(i);
        index.update(i, v2(p.0, p.1), v2(p.0, p.1));
    }
    // also for an entity the index does not track at all
    index.update(777, v2(3 * S, 3 * S), v2(3 * S, 3 * S));
    let q = CircleQuery::new(v2(0, 0), 30 * S);
    let after = sorted_pairs(index.query(q));
    assert_eq!(before, after);
}

#[test]
fn test_insert_never_duplicates_an_entity() {
    let mut index = SpatialHashmap::new(10 * S).unwrap();
    index.insert(v2(S, S), 1);
    index.insert(v2(S, S), 1);
    index.insert(v2(25 * S, -3 * S), 1); // a different cell
    let all = index.query(CircleQuery::new(v2(0, 0), 1000 * S));
    assert_eq!(all.len(), 1);
    assert_eq!(all[0].0, 1);
    assert_eq!((all[0].1.x, all[0].1.y), (25 * S, -3 * S));
}

#[test]
fn test_remove_is_a_noop_for_absent_or_other_cell() {
    let mut index = SpatialHashmap::new(10 * S).unwrap();
    index.insert(v2(S, S), 1);
    index.remove(v2(S, S), 2); // absent entity
    index.remove(v2(200 * S, 0), 1); // wrong cell
    assert!(index.position_of(1).is_some());
    // same cell, different exact position: still removes (the cell rule)
    index.remove(v2(2 * S, 3 * S), 1);
    assert!(index.position_of(1).is_none());
}

#[test]
fn test_update_with_stale_reference_is_a_noop() {
    let mut index = SpatialHashmap::new(10 * S).unwrap();
    index.insert(v2(S, S), 1);
    index.update(1, v2(S, 2 * S), v2(50 * S, 50 * S));
    let p = index.position_of(1).unwrap();
    assert_eq!((p.x, p.y), (S, S));
    // the exact stored position does move it
    index.update(1, v2(S, S), v2(50 * S, 50 * S));
    let p = index.position_of(1).unwrap();
    assert_eq!((p.x, p.y), (50 * S, 50 * S));
}

#[test]
fn test_grid_cell_math_floors() {
    let grid = Grid { spacing: 10 * S };
    assert_eq!(grid.index1d(0), 0);
    assert_eq!(grid.index1d(10 * S - 1), 0);
    assert_eq!(grid.index1d(10 * S), 1);
    assert_eq!(grid.index1d(-1), -1);
    assert_eq!(grid.index1d(-10 * S), -1);
    assert_eq!(grid.index1d(-10 * S - 1), -2);
    assert_eq!(grid.position1d_low(-2), -20 * S);
    assert_eq!(grid.position1d_low(3), 30 * S);
    let c = grid.index2d(v2(-1, 10 * S));
    assert_eq!((c.x, c.y), (-1, 1));
}
