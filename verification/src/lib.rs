//! Wisp: connection profiles, share-link and outbound-JSON import, split
//! tunneling, and sing-box configuration generation.

pub mod text;
pub mod json;
pub mod split;
pub mod presets;
pub mod profile;
pub mod error;
pub mod share_url;
pub mod parse;
pub mod singbox;
pub mod engine;
pub mod clash;
pub mod resources;
pub mod settings;
pub mod elevation;
pub mod store;
pub mod cli;
