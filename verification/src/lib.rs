//! Core of a single-user music library pipeline: release normalisation,
//! edition scoring, track matching, tag-override resolution, the library
//! query language, Soulseek job bookkeeping and the small text and path rules
//! that all of them share.

pub mod text;
pub mod paths;
pub mod audio;
pub mod error;
pub mod jobs;
pub mod slskd;
pub mod lossless;
pub mod scorer;
pub mod import;
pub mod library;
pub mod mb;
pub mod lidarr;
pub mod release;
pub mod romanize;
pub mod tags;
pub mod cache;
pub mod coverart;
pub mod postfix;
pub mod config;
pub mod yt;
pub mod workflow;
