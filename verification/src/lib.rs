//! Local-movement core for a real-time 3D game.
//!
//! Three pieces form one per-frame pipeline:
//! a spatial hash index over moving 2D positions, a context-map steering
//! arbiter that blends competing movement desires into one direction, and a
//! kinematic collide-and-slide resolver that turns a desired displacement
//! into a collision-safe one.
//!
//! All geometry is carried in fixed-point coordinates (see [`fx`]): scalars
//! are `i64` values scaled by [`fx::FP_ONE`], so every computation in the
//! core is exact integer arithmetic with a stated contract.

pub mod collide_and_slide;
pub mod context_map;
pub mod convert;
pub mod errors;
pub mod fx;
pub mod oracle;
pub mod spatial_hashmap;
pub mod spatial_query;
pub mod vec2;
pub mod vec3;
