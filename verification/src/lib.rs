//! Verified core of a local camera viewer: camera lists, DSI stream addresses, the table
//! of HLS relays and the rules by which a relay worker connects, retries and stops.

pub mod config;
pub mod dsi;
pub mod json;
pub mod laws;
pub mod relay;
pub mod text;
pub mod uri;
pub mod worker;
