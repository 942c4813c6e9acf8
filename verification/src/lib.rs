//! A user-space package manager core: resolution of requested packages
//! against declarative repositories, install planning, archive-extraction
//! matching, binary-collision checking, and the installed-package database.
//!
//! The engine is pure: network and file transfers, prompts and progress
//! reporting live outside it and hand it plain values.

pub mod database;
pub mod error;
pub mod extract;
pub mod installer;
pub mod manifest;
pub mod pattern;
pub mod planner;
pub mod platform;
pub mod resolver;
pub mod sources;
pub mod util;
pub mod validate;
