//! A small lookup service for address-like strings: records read from a
//! configuration source are indexed under a normalized key, held in a
//! swappable table, and queried when a hotkey chord fires; the result is
//! formatted for a desktop notification.

pub mod dict;
pub mod hotkey;
pub mod normalize;
pub mod pipeline;
pub mod record;
pub mod table;
