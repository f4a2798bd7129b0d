//! Reusable building blocks of the full-screen interface. Drawing them is
//! the embedding program's business; their state lives here.

pub mod input;
