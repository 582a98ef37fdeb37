//! Verified core of a multi-tenant internet-radio registry.
//!
//! A catalog of named stations is matched against free-text queries
//! (exact, alias, fuzzy and layered search scoring), playlist bodies are
//! parsed down to a concrete stream URL, resolved inputs are cached under
//! a freshness window, and one active stream per guild is tracked with
//! start/stop/replace transitions and a periodic janitor sweep.

pub mod config;
pub mod distance;
pub mod error;
pub mod health;
pub mod playlist;
pub mod radio;
pub mod text;
