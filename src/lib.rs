//! A serial-fiction delivery pipeline: discovery of new chapters, body
//! hydration, EPUB conversion and batched delivery driven by a per-subscription
//! cursor. The store and every decision of the four workers are verified;
//! network, subprocess and timer work is left to the caller.

pub mod adapters;
pub mod delivery;
pub mod discovery;
pub mod feeds;
pub mod json;
pub mod mail;
pub mod model;
pub mod providers;
pub mod store;
pub mod text;
