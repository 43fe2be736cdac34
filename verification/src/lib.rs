//! Verified core of an m3u8 playlist pipeline.
//!
//! The library rebuilds a per-track table from a master playlist and five
//! per-language playlists, regenerates the derived "auto" playlists, and
//! aggregates per-directory statistics for a coverage report. All file and
//! terminal interaction lives outside the library; every function here works
//! on plain values and carries a contract.

pub mod aggregate;
pub mod errors;
pub mod files;
pub mod join;
pub mod parse;
pub mod pipeline;
pub mod playlist;
pub mod report;
pub mod sort;
pub mod strings;
pub mod track;
