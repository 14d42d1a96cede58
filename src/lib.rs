//! Real-time availability grid: per-viewer projection of a shared grid,
//! merging of one participant's submission, the live-connection registry,
//! the heartbeat state machine and the dispatch of room edits.

pub mod grid;
pub mod registry;
pub mod liveness;
pub mod codec;
pub mod room;
pub mod dispatch;
pub mod ids;
