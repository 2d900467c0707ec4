//! Scaffolding and update logic for Grafana plugin projects.

pub mod text;
pub mod unicode;
pub mod config;
pub mod paths;
pub mod updater;
pub mod clock;
pub mod engine;
pub mod template;
pub mod diff;
pub mod cli;
pub mod resolve;
pub mod scaffold;
pub mod laws;
