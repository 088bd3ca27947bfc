//! Wallie: rule based selection of desktop wallpapers.
//!
//! The library holds the verified core of the wallpaper manager: rules and
//! their conditions, the tag and wallpaper databases, the weighted choice of
//! the next wallpaper, the play/pause schedule, the renderer command plans and
//! the command line parsers of the daemon and of the client.
mod paths;
pub mod rules;
pub mod dataset;
pub mod tables;
pub mod weights;
pub mod loader;
pub mod schedule;
pub mod renderers;
pub mod options;
pub mod client;
pub mod laws;
