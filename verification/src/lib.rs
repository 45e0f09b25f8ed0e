//! A ladder-tournament engine: player rosters with dense ladder positions,
//! a challenge lifecycle state machine, a position-exchange ranking rule,
//! an append-only match history, and a registry of tournaments keyed by
//! channel and mode.
//!
//! The engine is pure in-memory logic: the chat transport and the durable
//! store are outside collaborators that call into it with plain values and
//! persist the snapshots it hands back.

#![verifier::loop_isolation(false)]

pub mod challenge;
pub mod commands;
pub mod config;
pub mod errors;
pub mod history;
pub mod ladder;
pub mod laws;
pub mod player;
pub mod ranking;
pub mod registry;
pub mod text;
