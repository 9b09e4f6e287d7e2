//! Wiring audio ports as a rule file asks.
//!
//! A rule file declares links between named ports of named nodes
//! ([`rules`]). The audio server reports nodes and ports as they appear, in no
//! particular order; the store admits those that the rules declare
//! ([`state`]), and each admitted port brings the links that it completes
//! ([`events`]). What holds of all this, whatever is reported, is stated in
//! [`laws`].

pub mod events;
pub mod laws;
pub mod model;
pub mod pattern;
pub mod rules;
pub mod search;
pub mod sequences;
pub mod state;
pub mod text;
