//! Alignment by solving, for pucks that do not share a map.
//!
//! Each puck tracks in a world frame of its own. One of them, the hip, holds the
//! reference map and is the shared frame; the others are placed in it by a
//! transform that is solved, stored, verified and refined while the pucks are
//! worn. Where the pucks do share a map, the site is marked as colocated and
//! nothing is solved at all.

pub mod align;
pub mod config;
pub mod jump;
pub mod mapd;
pub mod requests;
pub mod store;
pub mod stream;
pub mod rounds;

