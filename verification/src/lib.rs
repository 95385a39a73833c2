//! A first-person grid world in fixed-point arithmetic: the tile grid, ray
//! casting over it, circle collision and sliding movement, pursuing guards,
//! and the projection of the view into wall slices, floor spans and sprites.
//!
//! Every quantity is a whole number. Lengths and coordinates count
//! sub-units, `fixed::UNIT` to the world unit; time spans count ticks,
//! `fixed::TICKS_PER_SECOND` to the second; angles count micro-radians;
//! and a cosine or a sine is given times `fixed::UNIT`. The y axis points
//! down, as on the screen. The library takes no angle's cosine or sine
//! itself: where it needs one, the caller hands it in.

pub mod fixed;
pub mod level;
pub mod cast;
pub mod player;
pub mod guard;
pub mod events;
pub mod renderer;
pub mod floor;
pub mod sprite;
pub mod game;
