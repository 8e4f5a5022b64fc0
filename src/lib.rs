//! Collects full-HD, 16:9 JPEG wallpapers out of a cache directory into a
//! destination directory, one copy per distinct content.
//!
//! The library decides what to copy and where; reading the directories and
//! performing the copies is left to the caller.
pub mod naming;
pub mod plan;
pub mod resolution;
