//! The concrete screens of the application.

pub mod add_screen;
pub mod main_screen;
