//! One map, several headsets.
//!
//! Several rooted headsets are worn as body trackers. Headsets that hold the same
//! map track in the same coordinate frame, so this library moves a map from one
//! headset to the others and hands out a single consistent view of where every
//! puck is.
//!
//! It is UI-free and does no I/O: it takes what was received and decides what is
//! to be done. Sockets, processes, files, clocks and arithmetic on poses are the
//! caller's.

pub mod aggregate;
pub mod book;
pub mod bridge;
pub mod config;
pub mod console;
pub mod drift;
pub mod fleet;
pub mod ieee;
pub mod ingest;
pub mod jobs;
pub mod json;
pub mod monitor;
pub mod mpt1;
pub mod panel;
pub mod service;
pub mod slam;
pub mod text;
pub mod transform;
pub mod watchdog;

pub use ingest::{Ingest, Sample, SlotState};
pub use mpt1::{Device, Packet, Pose};
pub use transform::Frame4Dof;
