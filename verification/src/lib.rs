//! The collision core of an asteroid shooter, in exact integer arithmetic.
//!
//! Sprites give convex boundaries (`raster`, `hull`, built by `order` and
//! `scan` on the facts of `turns` and `algebra`); boundaries placed in the
//! world are tested for overlap by separating axes (`sat`); the collisions of
//! a tick are gathered (`physics`) and destroyed asteroids break into pieces
//! (`asteroid`, with random draws from `entropy`); entities leave the game
//! through marks and a sweep (`despawn`). Around these stand the level, the
//! lives and the score (`level`, `player`, `scoring`, `state`).
//!
//! Lengths are whole numbers of half a pixel, so that the centre of an image
//! is a point also where a side is odd. Angles are whole thousandths of a
//! radian, and a rotation is held as its cosine and sine in fixed point.

pub mod constants;
pub mod geometry;
pub mod algebra;
pub mod turns;
pub mod order;
pub mod scan;
pub mod raster;
pub mod hull;
pub mod sat;
pub mod entropy;
pub mod physics;
pub mod asteroid;
pub mod despawn;
pub mod state;
pub mod level;
pub mod player;
pub mod scoring;
