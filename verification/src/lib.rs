//! Leader election for a group of nodes addressed by IPv4-style names:
//! the bully algorithm and the ring (circle) algorithm, as verified decision
//! logic that a networking shell drives.

pub mod address;
pub mod ring;
pub mod text;
pub mod config;
pub mod circle;
pub mod bully;
