//! Fusion engine for range-only tracking of a moving target: the sensor
//! registry with its freshness policy, the ingress message framing, the
//! per-tick decisions of the fusion loop, the measurement gate of the
//! filter update, the egress reconnect policy and the pairing of replay
//! files with sensor modules.
pub mod egress;
pub mod fusion;
pub mod ingress;
pub mod registry;
pub mod replay;
