//! The terminal side of RS-BASIC: the decisions that the interactive front end
//! makes, verified.

pub mod completer;
pub mod decorate;
pub mod error;
pub mod keys;
pub mod listing;
pub mod loader;
pub mod patch;
pub mod session;
pub mod text;
