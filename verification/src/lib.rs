//! Simulation core of a 2D tile-based action game.
//!
//! The crate covers the game's spatial logic: compaction of a sparse grid of
//! occupied tiles into a minimal set of axis-aligned collision rectangles,
//! resolution of per-tick movement intents against those rectangles with
//! directional blocking, waypoint patrols with ping-pong traversal, and
//! fixed-step movement integration with target clamping.
//!
//! World positions are integer coordinates counted in subunits of one sixth
//! of a pixel, so that tile geometry, entity speeds and collision-box sizes
//! are all exact; asset loading, rendering and input devices live outside
//! this crate and exchange plain values with it.

use vstd::prelude::*;

pub mod animate;
pub mod collision;
pub mod grid;
pub mod motion;
pub mod patrol;
pub mod state;
pub mod systems;
pub mod timing;

verus! {

/// World coordinates count in subunits of one sixth of a pixel.
pub const SUBS_PER_PIXEL: i64 = 6;

/// Side of one grid tile in subunits (16 pixels).
pub const TILE_SIZE: i64 = 16 * 6;

/// Per-tick player displacement in subunits (two thirds of a pixel).
pub const PLAYER_SPEED: i64 = 4;

/// Per-tick patrol displacement in subunits (one third of a pixel).
pub const ENEMY_SPEED: i64 = 2;

/// Side of an entity's collision box: one tile less one pixel, so that a box
/// flush against an adjacent tile does not register as touching it.
pub const ENTITY_BOX: i64 = 16 * 6 - 6;

/// Largest coordinate magnitude the movement and collision functions accept;
/// leaves ample headroom for the doubled-coordinate box arithmetic.
pub const MAX_COORD: i64 = 0x4000_0000;

} // verus!
