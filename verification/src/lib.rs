//! Verified core of the CSCP shared-memory transport: the frame format, the
//! bounded single-producer/single-consumer ring, the region header and layout,
//! and the decisions the two endpoints take when they publish and receive.
pub mod error;
pub mod ipc;
pub mod shm;
pub mod latency;
