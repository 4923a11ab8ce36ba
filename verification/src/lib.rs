//! Core logic of a full-screen application launcher: configuration values,
//! per-folder metadata, entry ordering, hotkey parsing, Windows path and
//! UTF-16 handling, and icon pixel processing.

pub mod config;
pub mod entries;
pub mod hotkey;
pub mod icon;
pub mod launch;
pub mod lnk;
pub mod metadata;
pub mod monitors;
pub mod order;
pub mod pixels;
pub mod text;
pub mod watch;
pub mod wide;
pub mod winpath;
