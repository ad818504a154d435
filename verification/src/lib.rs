//! Decision logic of a runner that pulls cPanel full backups onto a NAS volume.

pub mod archive;
pub mod checksum;
pub mod config;
pub mod download;
pub mod json;
pub mod listing;
pub mod paths;
pub mod polling;
pub mod retention;
pub mod run;
pub mod text;
pub mod uapi;
