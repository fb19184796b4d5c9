//! Fast file suggestion with typo tolerance.
//!
//! The files of a project are indexed in an SQLite database and searched in three tiers: full-text
//! search by prefixes, substrings, and shared trigrams, each tier only where the one before it
//! found nothing. The library decides and computes; reading the request, walking the project and
//! touching the file system are left to its caller.

pub mod database;
pub mod files;
pub mod freshness;
pub mod guard;
pub mod index;
pub mod input;
pub mod naming;
pub mod rebuild;
pub mod search;
pub mod session;
pub mod statements;
pub mod text;
pub mod tolerance;
pub mod trigram;
