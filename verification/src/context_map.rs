//! The steering arbiter: per-entity interest and danger over 8 compass
//! directions.
//!
//! Contributors raise per-direction "interest" (desire to move that way)
//! and "danger" (desire to avoid it); each slot keeps the **maximum** of
//! what was proposed, never a sum, so several contributors proposing the
//! same direction reinforce the strongest single proposal rather than
//! amplifying each other. The reduction step scores every direction as
//! `interest - danger` and returns the direction with the strictly largest
//! score (ties resolve to the lowest index), scaled by that score.
//!
//! The 8 basis directions are unit vectors 45 degrees apart starting at
//! angle 0; the diagonal component is `sqrt(2)/2`, rounded to the nearest
//! fixed-point value [`DIAG`].

use vstd::prelude::*;

verus! {

use crate::convert::Converter;
use crate::fx::{COORD_LIMIT, FP_ONE, fx_mul_spec, lemma_mul_within, lemma_tdiv_within, tdiv, within};
use crate::vec2::Vec2Fx;

/// `sqrt(2)/2` in fixed point, rounded to nearest: the diagonal component
/// of the four diagonal basis directions.
pub const DIAG: i64 = 46341;

/// The `d`-th basis direction: a unit vector at `d * 45` degrees.
pub open spec fn basis_vec(d: int) -> Vec2Fx {
    if d == 0 {
        Vec2Fx { x: FP_ONE, y: 0 }
    } else if d == 1 {
        Vec2Fx { x: DIAG, y: DIAG }
    } else if d == 2 {
        Vec2Fx { x: 0, y: FP_ONE }
    } else if d == 3 {
        Vec2Fx { x: (-DIAG) as i64, y: DIAG }
    } else if d == 4 {
        Vec2Fx { x: (-FP_ONE) as i64, y: 0 }
    } else if d == 5 {
        Vec2Fx { x: (-DIAG) as i64, y: (-DIAG) as i64 }
    } else if d == 6 {
        Vec2Fx { x: 0, y: (-FP_ONE) as i64 }
    } else {
        Vec2Fx { x: DIAG, y: (-DIAG) as i64 }
    }
}

/// Fixed-point dot product of two 2D vectors.
pub open spec fn dot2_spec(a: Vec2Fx, b: Vec2Fx) -> int {
    tdiv(a.x * b.x + a.y * b.y, FP_ONE as int)
}

/// The per-entity steering accumulator.
pub struct ContextMap {
    interest: [i64; 8],
    danger: [i64; 8],
    direction_vectors: [Vec2Fx; 8],
}

impl ContextMap {
    /// The interest recorded for direction `d`.
    pub closed spec fn interest_at(self, d: int) -> int {
        self.interest[d] as int
    }

    /// The danger recorded for direction `d`.
    pub closed spec fn danger_at(self, d: int) -> int {
        self.danger[d] as int
    }

    /// Both arrays hold non-negative values and the cached direction
    /// table is the fixed basis.
    pub closed spec fn wf(self) -> bool {
        &&& forall|d: int| 0 <= d < 8 ==> 0 <= #[trigger] self.interest_at(d)
        &&& forall|d: int| 0 <= d < 8 ==> 0 <= #[trigger] self.danger_at(d)
        &&& forall|d: int| 0 <= d < 8 ==> #[trigger] self.direction_vectors[d] == basis_vec(d)
    }

    /// The score of direction `d`: interest less danger.
    pub open spec fn score(self, d: int) -> int {
        self.interest_at(d) - self.danger_at(d)
    }

    /// The best direction among `0 .. n`: the strictly largest score,
    /// ties resolved to the lowest index.
    pub open spec fn best_upto(self, n: int) -> int
        decreases n,
    {
        if n <= 1 {
            0
        } else {
            let p = self.best_upto(n - 1);
            if self.score(n - 1) > self.score(p) {
                n - 1
            } else {
                p
            }
        }
    }

    /// The direction the reduction step selects.
    pub open spec fn best_dir(self) -> int {
        self.best_upto(8)
    }

    /// `b` is the winner: no direction scores higher, and no earlier
    /// direction scores as high.
    pub open spec fn is_best(self, b: int) -> bool {
        &&& 0 <= b < 8
        &&& forall|d: int| 0 <= d < 8 ==> #[trigger] self.score(d) <= self.score(b)
        &&& forall|d: int| 0 <= d < b ==> #[trigger] self.score(d) < self.score(b)
    }

    /// The selected direction really is the argmax with lowest-index
    /// tie-breaking.
    proof fn lemma_best_upto(self, n: int)
        requires
            1 <= n <= 8,
        ensures
            0 <= self.best_upto(n) < n,
            forall|d: int| 0 <= d < n ==> #[trigger] self.score(d) <= self.score(self.best_upto(n)),
            forall|d: int|
                0 <= d < self.best_upto(n) ==> #[trigger] self.score(d) < self.score(
                    self.best_upto(n),
                ),
        decreases n,
    {
        if n > 1 {
            self.lemma_best_upto(n - 1);
        }
    }

    /// A fresh accumulator: both arrays zero.
    pub fn new() -> (r: ContextMap)
        ensures
            r.wf(),
            forall|d: int| 0 <= d < 8 ==> #[trigger] r.interest_at(d) == 0,
            forall|d: int| 0 <= d < 8 ==> #[trigger] r.danger_at(d) == 0,
    {
        let mut direction_vectors: [Vec2Fx; 8] = [Vec2Fx { x: 0, y: 0 };8];
        direction_vectors[0] = Vec2Fx { x: FP_ONE, y: 0 };
        direction_vectors[1] = Vec2Fx { x: DIAG, y: DIAG };
        direction_vectors[2] = Vec2Fx { x: 0, y: FP_ONE };
        direction_vectors[3] = Vec2Fx { x: -DIAG, y: DIAG };
        direction_vectors[4] = Vec2Fx { x: -FP_ONE, y: 0 };
        direction_vectors[5] = Vec2Fx { x: -DIAG, y: -DIAG };
        direction_vectors[6] = Vec2Fx { x: 0, y: -FP_ONE };
        direction_vectors[7] = Vec2Fx { x: DIAG, y: -DIAG };
        ContextMap { interest: [0;8], danger: [0;8], direction_vectors }
    }

    /// Raise the interest in one direction to at least `value`: the slot
    /// becomes the maximum of its current value and the proposal. An
    /// out-of-range direction index is ignored.
    pub fn add_interest(&mut self, direction: usize, value: i64)
        requires
            old(self).wf(),
        ensures
            final(self).wf(),
            forall|d: int|
                0 <= d < 8 ==> #[trigger] final(self).interest_at(d) == (if d == direction as int
                    && old(self).interest_at(d) < value as int {
                    value as int
                } else {
                    old(self).interest_at(d)
                }),
            forall|d: int|
                0 <= d < 8 ==> #[trigger] final(self).danger_at(d) == old(self).danger_at(d),
    {
        if direction < 8 && self.interest[direction] < value {
            self.interest[direction] = value;
        }
        proof {
            assert forall|d2: int| 0 <= d2 < 8 implies 0 <= self.interest_at(d2) && 0
                <= self.danger_at(d2) by {
                assert(0 <= old(self).interest_at(d2));
                assert(0 <= old(self).danger_at(d2));
            }
        }
    }

    /// Raise the danger in one direction to at least `value`: the mirror
    /// of [`Self::add_interest`].
    pub fn add_danger(&mut self, direction: usize, value: i64)
        requires
            old(self).wf(),
        ensures
            final(self).wf(),
            forall|d: int|
                0 <= d < 8 ==> #[trigger] final(self).danger_at(d) == (if d == direction as int
                    && old(self).danger_at(d) < value as int {
                    value as int
                } else {
                    old(self).danger_at(d)
                }),
            forall|d: int|
                0 <= d < 8 ==> #[trigger] final(self).interest_at(d) == old(self).interest_at(d),
    {
        if direction < 8 && self.danger[direction] < value {
            self.danger[direction] = value;
        }
        proof {
            assert forall|d2: int| 0 <= d2 < 8 implies 0 <= self.interest_at(d2) && 0
                <= self.danger_at(d2) by {
                assert(0 <= old(self).interest_at(d2));
                assert(0 <= old(self).danger_at(d2));
            }
        }
    }

    /// The fixed-point dot product of a bounded vector with a basis
    /// direction; the result is exact and fits comfortably in `i64`.
    fn dot_basis(vector: Vec2Fx, d: usize) -> (r: i64)
        requires
            vector.wf(),
            d < 8,
        ensures
            r as int == dot2_spec(vector, basis_vec(d as int)),
            within(r as int, 2 * COORD_LIMIT as int),
    {
        let b = Self::basis(d);
        proof {
            lemma_mul_within(vector.x as int, b.x as int, COORD_LIMIT as int, FP_ONE as int);
            lemma_mul_within(vector.y as int, b.y as int, COORD_LIMIT as int, FP_ONE as int);
            lemma_tdiv_within(
                vector.x * b.x + vector.y * b.y,
                FP_ONE as int,
                2 * COORD_LIMIT as int,
            );
        }
        let wide: i128 = (vector.x as i128) * (b.x as i128) + (vector.y as i128) * (b.y as i128);
        (wide / (FP_ONE as i128)) as i64
    }

    /// The `d`-th basis direction, as executable code.
    fn basis(d: usize) -> (r: Vec2Fx)
        requires
            d < 8,
        ensures
            r == basis_vec(d as int),
            within(r.x as int, FP_ONE as int),
            within(r.y as int, FP_ONE as int),
    {
        if d == 0 {
            Vec2Fx { x: FP_ONE, y: 0 }
        } else if d == 1 {
            Vec2Fx { x: DIAG, y: DIAG }
        } else if d == 2 {
            Vec2Fx { x: 0, y: FP_ONE }
        } else if d == 3 {
            Vec2Fx { x: -DIAG, y: DIAG }
        } else if d == 4 {
            Vec2Fx { x: -FP_ONE, y: 0 }
        } else if d == 5 {
            Vec2Fx { x: -DIAG, y: -DIAG }
        } else if d == 6 {
            Vec2Fx { x: 0, y: -FP_ONE }
        } else {
            Vec2Fx { x: DIAG, y: -DIAG }
        }
    }

    /// Register a desire to move along `vector`. Each basis direction
    /// whose dot product with the vector is positive receives that dot
    /// product as an interest proposal, combined by the max rule; basis
    /// directions more than 90 degrees away contribute nothing, and a
    /// zero vector contributes nothing at all. (The proposal equals
    /// `magnitude * (normalized . basis)`: the magnitudes cancel, so no
    /// normalization is computed.)
    pub fn add_vector_interest(&mut self, vector: Vec2Fx)
        requires
            old(self).wf(),
            vector.wf(),
        ensures
            final(self).wf(),
            forall|d: int|
                0 <= d < 8 ==> #[trigger] final(self).interest_at(d) == (if dot2_spec(
                    vector,
                    basis_vec(d),
                ) > 0 && old(self).interest_at(d) < dot2_spec(vector, basis_vec(d)) {
                    dot2_spec(vector, basis_vec(d))
                } else {
                    old(self).interest_at(d)
                }),
            forall|d: int|
                0 <= d < 8 ==> #[trigger] final(self).danger_at(d) == old(self).danger_at(d),
    {
        let mut d: usize = 0;
        while d < 8
            invariant
                old(self).wf(),
                vector.wf(),
                d <= 8,
                self.wf(),
                self.danger == old(self).danger,
                self.direction_vectors == old(self).direction_vectors,
                forall|k: int|
                    0 <= k < d ==> #[trigger] self.interest_at(k) == (if dot2_spec(
                        vector,
                        basis_vec(k),
                    ) > 0 && old(self).interest_at(k) < dot2_spec(vector, basis_vec(k)) {
                        dot2_spec(vector, basis_vec(k))
                    } else {
                        old(self).interest_at(k)
                    }),
                forall|k: int|
                    d <= k < 8 ==> #[trigger] self.interest_at(k) == old(self).interest_at(k),
            decreases 8 - d,
        {
            let dot = Self::dot_basis(vector, d);
            let ghost prev = *self;
            if dot > 0 && self.interest[d] < dot {
                self.interest[d] = dot;
                proof {
                    assert(self.interest@ =~= prev.interest@.update(d as int, dot));
                    assert(self.interest_at(d as int) == dot as int);
                    assert(forall|k: int|
                        0 <= k < 8 && k != d ==> #[trigger] self.interest_at(k)
                            == prev.interest_at(k));
                    assert forall|k: int| 0 <= k < 8 implies 0 <= self.interest_at(k) && 0
                        <= self.danger_at(k) by {
                        assert(0 <= prev.interest_at(k));
                        assert(0 <= prev.danger_at(k));
                        assert(self.danger_at(k) == prev.danger_at(k));
                    }
                    assert(prev.interest_at(d as int) == old(self).interest_at(d as int));
                }
            } else {
                proof {
                    assert(self.interest_at(d as int) == prev.interest_at(d as int));
                    assert(prev.interest_at(d as int) == old(self).interest_at(d as int));
                }
            }
            d += 1;
        }
    }

    /// Register a desire to avoid `vector`'s direction: the exact mirror
    /// of [`Self::add_vector_interest`], feeding the danger array.
    pub fn add_vector_danger(&mut self, vector: Vec2Fx)
        requires
            old(self).wf(),
            vector.wf(),
        ensures
            final(self).wf(),
            forall|d: int|
                0 <= d < 8 ==> #[trigger] final(self).danger_at(d) == (if dot2_spec(
                    vector,
                    basis_vec(d),
                ) > 0 && old(self).danger_at(d) < dot2_spec(vector, basis_vec(d)) {
                    dot2_spec(vector, basis_vec(d))
                } else {
                    old(self).danger_at(d)
                }),
            forall|d: int|
                0 <= d < 8 ==> #[trigger] final(self).interest_at(d) == old(self).interest_at(d),
    {
        let mut d: usize = 0;
        while d < 8
            invariant
                old(self).wf(),
                vector.wf(),
                d <= 8,
                self.wf(),
                self.interest == old(self).interest,
                self.direction_vectors == old(self).direction_vectors,
                forall|k: int|
                    0 <= k < d ==> #[trigger] self.danger_at(k) == (if dot2_spec(
                        vector,
                        basis_vec(k),
                    ) > 0 && old(self).danger_at(k) < dot2_spec(vector, basis_vec(k)) {
                        dot2_spec(vector, basis_vec(k))
                    } else {
                        old(self).danger_at(k)
                    }),
                forall|k: int|
                    d <= k < 8 ==> #[trigger] self.danger_at(k) == old(self).danger_at(k),
            decreases 8 - d,
        {
            let dot = Self::dot_basis(vector, d);
            let ghost prev = *self;
            if dot > 0 && self.danger[d] < dot {
                self.danger[d] = dot;
                proof {
                    assert(self.danger@ =~= prev.danger@.update(d as int, dot));
                    assert(self.danger_at(d as int) == dot as int);
                    assert(forall|k: int|
                        0 <= k < 8 && k != d ==> #[trigger] self.danger_at(k)
                            == prev.danger_at(k));
                    assert forall|k: int| 0 <= k < 8 implies 0 <= self.interest_at(k) && 0
                        <= self.danger_at(k) by {
                        assert(0 <= prev.interest_at(k));
                        assert(0 <= prev.danger_at(k));
                        assert(self.interest_at(k) == prev.interest_at(k));
                    }
                    assert(prev.danger_at(d as int) == old(self).danger_at(d as int));
                }
            } else {
                proof {
                    assert(self.danger_at(d as int) == prev.danger_at(d as int));
                    assert(prev.danger_at(d as int) == old(self).danger_at(d as int));
                }
            }
            d += 1;
        }
    }

    /// Reduce the accumulator to one movement vector: score every
    /// direction as `interest - danger`, pick the strictly largest score
    /// scanning in index order (so ties resolve to the lowest index), and
    /// return that basis direction scaled by the winning score. With all
    /// slots at their default zero the result is `Some` of the zero
    /// vector: a zero-magnitude stand-in for "no movement", never `None`.
    pub fn get_final_movement(&self) -> (r: Option<Vec2Fx>)
        requires
            self.wf(),
        ensures
            ({
                let b = self.best_dir();
                &&& self.is_best(b)
                &&& r matches Some(w) && w.x as int == fx_mul_spec(
                    basis_vec(b).x as int,
                    self.score(b),
                ) && w.y as int == fx_mul_spec(basis_vec(b).y as int, self.score(b))
            }),
    {
        let mut best: usize = 0;
        proof {
            assert(self.interest_at(0) >= 0 && self.danger_at(0) >= 0);
        }
        let mut best_value: i64 = self.interest[0] - self.danger[0];
        let mut d: usize = 1;
        while d < 8
            invariant
                self.wf(),
                1 <= d <= 8,
                best == self.best_upto(d as int),
                0 <= best < d,
                best_value == self.score(best as int),
            decreases 8 - d,
        {
            proof {
                assert(self.interest_at(d as int) >= 0 && self.danger_at(d as int) >= 0);
            }
            let value = self.interest[d] - self.danger[d];
            if value > best_value {
                best = d;
                best_value = value;
            }
            d += 1;
        }
        proof {
            self.lemma_best_upto(8);
        }
        let dir = Self::basis(best);
        proof {
            lemma_mul_within(
                dir.x as int,
                best_value as int,
                FP_ONE as int,
                if best_value >= 0 {
                    best_value as int
                } else {
                    -(best_value as int)
                },
            );
            lemma_mul_within(
                dir.y as int,
                best_value as int,
                FP_ONE as int,
                if best_value >= 0 {
                    best_value as int
                } else {
                    -(best_value as int)
                },
            );
            lemma_tdiv_within(
                dir.x as int * best_value as int,
                FP_ONE as int,
                if best_value >= 0 {
                    best_value as int
                } else {
                    -(best_value as int)
                },
            );
            lemma_tdiv_within(
                dir.y as int * best_value as int,
                FP_ONE as int,
                if best_value >= 0 {
                    best_value as int
                } else {
                    -(best_value as int)
                },
            );
        }
        let wx: i128 = (dir.x as i128) * (best_value as i128) / (FP_ONE as i128);
        let wy: i128 = (dir.y as i128) * (best_value as i128) / (FP_ONE as i128);
        Some(Vec2Fx { x: wx as i64, y: wy as i64 })
    }

    /// The cached basis direction for an index; the index must be one of
    /// the 8 compass directions.
    pub fn get_direction_vector(&self, direction: usize) -> (r: Vec2Fx)
        requires
            self.wf(),
            direction < 8,
        ensures
            r == basis_vec(direction as int),
    {
        self.direction_vectors[direction]
    }

    /// Zero both arrays; called once per frame after the frame's final
    /// reduction, before any new contributions.
    pub fn reset(&mut self)
        requires
            old(self).wf(),
        ensures
            final(self).wf(),
            forall|d: int| 0 <= d < 8 ==> #[trigger] final(self).interest_at(d) == 0,
            forall|d: int| 0 <= d < 8 ==> #[trigger] final(self).danger_at(d) == 0,
    {
        self.interest = [0;8];
        self.danger = [0;8];
    }

    /// How many compass directions the accumulator distinguishes.
    pub fn get_direction_count(&self) -> (r: usize)
        ensures
            r == 8,
    {
        8
    }
}

impl Converter<usize, Vec2Fx> for ContextMap {
    /// A context map can look up a direction index as its cached basis
    /// direction; indexes beyond the 8 compass directions are unknown.
    fn convert(&self, from: usize) -> Option<Vec2Fx> {
        if from < 8 {
            Some(self.direction_vectors[from])
        } else {
            None
        }
    }
}

impl Default for ContextMap {
    /// Same as [`ContextMap::new`].
    fn default() -> (r: ContextMap)
        ensures
            r.wf(),
            forall|d: int| 0 <= d < 8 ==> #[trigger] r.interest_at(d) == 0,
            forall|d: int| 0 <= d < 8 ==> #[trigger] r.danger_at(d) == 0,
    {
        ContextMap::new()
    }
}

} // verus!
