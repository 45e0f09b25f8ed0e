//! Startup configuration for a deployment of the engine: credentials and
//! names the outside collaborators (chat transport, durable store) need,
//! plus the ladder mode the deployment serves.
//!
//! The engine itself only reads `ladder_mode`; everything else is carried
//! for the collaborators. Reading a configuration file is I/O and lives
//! with the caller, which hands the parsed values over as plain strings.

use vstd::prelude::*;

verus! {

/// Deployment configuration, one per running engine process.
#[derive(Debug)]
pub struct Config {
    pub discord_token: String,
    pub ladder_mode: String,
    pub openai_key: String,
    pub mongo_db: String,
    pub mongo_admin: String,
    pub mongo_pass: String,
    pub mongo_uri: String,
    pub mongo_collection_name: String,
}

} // verus!
