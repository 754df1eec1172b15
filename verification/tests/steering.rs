//! The context-map steering arbiter.

use movement_core::context_map::{ContextMap, DIAG};
use movement_core::convert::Converter;
use movement_core::fx::FP_ONE;
use movement_core::vec2::Vec2Fx;

const S: i64 = FP_ONE;

fn movement(cm: &ContextMap) -> (i64, i64) {
    let v = cm.get_final_movement().unwrap();
    (v.x, v.y)
}

/// Interest combines by maximum, not by sum: a 3.0 followed by a 1.0
/// leaves the slot at 3.0.
#[test]
fn test_add_interest_keeps_maximum() {
    let mut cm = ContextMap::new();
    cm.add_interest(0, 3 * S);
    assert_eq!(movement(&cm), (3 * S, 0));
    cm.add_interest(0, S);
    assert_eq!(movement(&cm), (3 * S, 0));
    // a larger proposal does replace it
    cm.add_interest(0, 4 * S);
    assert_eq!(movement(&cm), (4 * S, 0));
}

/// Danger combines by maximum as well: the score is interest minus the
/// strongest single danger, not minus their sum.
#[test]
fn test_add_danger_keeps_maximum() {
    let mut cm = ContextMap::new();
    cm.add_interest(0, 500);
    cm.add_danger(0, 300);
    cm.add_danger(0, 100);
    assert_eq!(movement(&cm), (200, 0)); // 500 - max(300, 100)
}

/// A unit vector along direction 0 reduces to direction 0 with magnitude
/// one.
#[test]
fn test_vector_interest_along_axis() {
    let mut cm = ContextMap::new();
    cm.add_vector_interest(Vec2Fx { x: S, y: 0 });
    assert_eq!(movement(&cm), (S, 0));
}

/// A desire never registers as interest in a direction more than 90
/// degrees away: a vector pointing along negative x feeds only the three
/// slots facing it, and reduction points back along the desire.
#[test]
fn test_vector_interest_ignores_opposed_directions() {
    let mut cm = ContextMap::new();
    cm.add_vector_interest(Vec2Fx { x: -S, y: 0 });
    assert_eq!(movement(&cm), (-S, 0));
}

/// The vector form keeps the max rule: feeding the same vector twice, or
/// a weaker collinear one, does not amplify the slot.
#[test]
fn test_vector_interest_does_not_accumulate() {
    let mut cm = ContextMap::new();
    cm.add_vector_interest(Vec2Fx { x: 2 * S, y: 0 });
    cm.add_vector_interest(Vec2Fx { x: 2 * S, y: 0 });
    cm.add_vector_interest(Vec2Fx { x: S, y: 0 });
    assert_eq!(movement(&cm), (2 * S, 0));
}

/// The mirror holds for the danger array.
#[test]
fn test_vector_danger_subtracts_from_interest() {
    let mut cm = ContextMap::new();
    cm.add_interest(2, 2 * S);
    cm.add_vector_danger(Vec2Fx { x: 0, y: S });
    // direction 2 scores 2.0 - 1.0, every other direction at most 0
    assert_eq!(movement(&cm), (0, S));
}

/// Ties resolve to the lowest direction index.
#[test]
fn test_tie_resolves_to_lowest_index() {
    let mut cm = ContextMap::new();
    cm.add_interest(3, 100);
    cm.add_interest(1, 100);
    let d = 100 * DIAG / S; // the diagonal basis scaled by the score
    assert_eq!(movement(&cm), (d, d));
}

/// With nothing recorded the reduction still returns a direction: the
/// zero-magnitude vector along direction 0, a stand-in for "no movement".
#[test]
fn test_reduction_of_empty_map_is_zero_vector() {
    let cm = ContextMap::new();
    assert_eq!(cm.get_final_movement(), Some(Vec2Fx { x: 0, y: 0 }));
}

#[test]
fn test_reset_zeroes_both_arrays() {
    let mut cm = ContextMap::new();
    cm.add_interest(1, 5 * S);
    cm.add_danger(2, 3 * S);
    cm.reset();
    assert_eq!(cm.get_final_movement(), Some(Vec2Fx { x: 0, y: 0 }));
}

#[test]
fn test_out_of_range_direction_is_ignored() {
    let mut cm = ContextMap::new();
    cm.add_interest(8, 999 * S);
    cm.add_danger(100, 999 * S);
    assert_eq!(cm.get_final_movement(), Some(Vec2Fx { x: 0, y: 0 }));
}

#[test]
fn test_negative_proposal_never_lowers_a_slot() {
    let mut cm = ContextMap::new();
    cm.add_interest(0, -5 * S);
    assert_eq!(movement(&cm), (0, 0));
    cm.add_interest(0, 2 * S);
    cm.add_interest(0, -S);
    assert_eq!(movement(&cm), (2 * S, 0));
}

#[test]
fn test_direction_vectors_are_the_fixed_basis() {
    let cm = ContextMap::new();
    assert_eq!(cm.get_direction_count(), 8);
    assert_eq!(cm.get_direction_vector(0), Vec2Fx { x: S, y: 0 });
    assert_eq!(cm.get_direction_vector(1), Vec2Fx { x: DIAG, y: DIAG });
    assert_eq!(cm.get_direction_vector(2), Vec2Fx { x: 0, y: S });
    assert_eq!(cm.get_direction_vector(3), Vec2Fx { x: -DIAG, y: DIAG });
    assert_eq!(cm.get_direction_vector(4), Vec2Fx { x: -S, y: 0 });
    assert_eq!(cm.get_direction_vector(5), Vec2Fx { x: -DIAG, y: -DIAG });
    assert_eq!(cm.get_direction_vector(6), Vec2Fx { x: 0, y: -S });
    assert_eq!(cm.get_direction_vector(7), Vec2Fx { x: DIAG, y: -DIAG });
}

#[test]
fn test_converter_looks_up_directions() {
    let cm = ContextMap::new();
    assert_eq!(cm.convert(2), Some(Vec2Fx { x: 0, y: S }));
    assert_eq!(cm.convert(8), None);
}
