//! Screens, key bindings and event dispatch.
//!
//! Each screen owns a self-contained state model and says what it shows as styled
//! text. The screens carry the data that can be edited or browsed and expose
//! primitive mutations (navigate, toggle, edit); [`app::App`] maps key events onto
//! them and drives the transitions.

pub mod app;
pub mod completed;
pub mod inflight;
pub mod labels;
pub mod line;
pub mod setup;
