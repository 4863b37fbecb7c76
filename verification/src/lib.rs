//! Core of a real-time collaborative canvas server.
//!
//! Many independent rooms ("canvases") are edited concurrently by connected
//! sessions.  A single coordinator owns all live room state, serializes every
//! mutation, enforces access control, keeps a durable event log per room and
//! fans events out to the connected sessions.  This crate holds that
//! coordinator as a verified state machine: every command is a pure
//! transition from coordinator state to coordinator state plus an ordered
//! list of effects (persist this record, deliver this event to that
//! session), which the surrounding process carries out.

pub mod canvas;
pub mod persistence;
pub mod spa;
