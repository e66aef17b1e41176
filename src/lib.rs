//! Synchronisation engine of a two-way file sync client for a WebDAV cloud:
//! the shadow tree, the remote activity cursor, the echo-suppression
//! registry, the exclude list, the reconciler's decisions, the control loop's
//! state machine, the trigger-tool message envelope and the configuration rules.

pub mod activity;
pub mod cancel;
pub mod config;
pub mod control;
pub mod events;
pub mod exclude;
pub mod message;
pub mod paths;
pub mod persist;
pub mod refresh;
pub mod reconcile;
pub mod remote;
pub mod repair;
pub mod tree;
