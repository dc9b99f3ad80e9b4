//! Core of a modal, terminal-resident text editor: a line-oriented text
//! buffer with mode-dependent cursor clamping, word-boundary scanning,
//! snapshot-based undo, and a configuration-driven key-binding resolver.
//!
//! Terminal painting, raw-mode handling, configuration deserialization and
//! file I/O live outside this crate; the functions here take and return
//! plain values (lines of characters, cursor coordinates, key events).

pub mod config;
pub mod editor;
pub mod rows;
pub mod window;
