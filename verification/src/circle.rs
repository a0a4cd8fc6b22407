//! The ring (circle) election algorithm: an election message travels round
//! the ring collecting the numbers of the live nodes; when it returns to the
//! node that started it, that node sends a coordinator message round with
//! the same list, and every node takes the highest number on it as leader.

pub mod state;
pub mod election;
pub mod heartbeat;
pub mod service;
