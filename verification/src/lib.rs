//! A personal keyboard-shortcut reference library.
//!
//! The crate owns two verified subsystems: a ranked store of
//! key-combination/description records with a JSON persistence format, and a
//! screen-stack navigation engine that turns key events into stack commands.
//! Terminal rendering and file handling are left to the embedding program.

pub mod app;
pub mod app_state;
pub mod commands;
pub mod json;
pub mod num;
pub mod roundtrip;
pub mod screen;
pub mod screens;
pub mod shortcuts;
pub mod utils;
pub mod widgets;
