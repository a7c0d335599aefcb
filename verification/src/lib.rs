//! Verified core of the GSD pipeline daemon: parsers for the `.planning/`
//! files, phase-stage derivation, file classification and the pure decisions
//! of the pipeline, the query layer and the WebSocket protocol.

pub mod classes;
pub mod db;
pub mod json;
pub mod parser;
pub mod text;
pub mod watcher;
pub mod broadcast;
pub mod config;
pub mod ws;
pub mod api;
