//! The navigation core of a file browser: where the browser stands, what it
//! shows there, and how both move together when the user acts.

pub mod cache;
pub mod error;
pub mod known;
pub mod listing;
pub mod navigation;
pub mod path;
pub mod volume;
