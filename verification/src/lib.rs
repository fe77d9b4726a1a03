//! Discovery of installed games, classification of their executables, and the
//! plan that repoints a placeholder game at a chosen executable.
//!
//! The library never touches the disk. Callers describe what they found there
//! as plain values (directory snapshots, manifest bytes, probe results), list
//! the directories that the library asks for, and carry out the steps that it
//! hands back.

pub mod classify;
pub mod fs;
pub mod game;
pub mod launcher;
pub mod library;
pub mod paths;
pub mod platform;
pub mod scan;
pub mod select;
pub mod strings;
pub mod swap;
pub mod vdf;
pub mod walk;
