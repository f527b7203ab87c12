//! Costume propagation engine for the six interrelated record tables of a
//! character-costume container: anchor resolution by filter and extremum,
//! per-table record derivation, idempotency guards, and the orchestrator
//! that runs the table stages in dependency order. Contracts state each
//! step's result exactly over ghost views of the tables; the laws module
//! proves the engine's cross-cutting properties.

pub mod break_table;
pub mod bytes;
pub mod checksum;
pub mod codes;
pub mod costume;
pub mod engine;
pub mod find;
pub mod icon;
pub mod laws;
pub mod message;
pub mod player_setting;
pub mod records;
pub mod select;
pub mod sorting;
