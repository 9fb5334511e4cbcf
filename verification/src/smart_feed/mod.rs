//! The "smart feed" reader: channels, filters, presets and title clustering.
pub mod actions;
pub mod channel;
pub mod cluster;
pub mod feed;
pub mod presets;
pub mod saved;
