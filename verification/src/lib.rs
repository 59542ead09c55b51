//! Resolve a live-streaming room into playable stream URLs.
//!
//! The library validates user input (room id, quality tier, container
//! format), builds the API request URL, checks the JSON envelope that the
//! API returns, flattens the nested stream descriptors into full URLs and
//! filters them by the requested container format.

pub mod fetch;
pub mod flatten;
pub mod json;
pub mod numeric;
pub mod options;
pub mod room;
pub mod text;
