//! Verified core of a small web front-end for `yt-dlp`.

pub mod catalog;
pub mod clock;
pub mod command;
pub mod config;
pub mod error;
pub mod form;
pub mod jobs;
pub mod links;
pub mod order;
pub mod paths;
pub mod runner;
pub mod schedule;
pub mod size;
pub mod sources;
pub mod text;
