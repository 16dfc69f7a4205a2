//! Verified core of the Microvisor SELinux protection profile manager.

pub mod build_config;
pub mod bytes;
pub mod cli;
pub mod command;
pub mod compile;
pub mod config;
pub mod desktop;
pub mod diagnostics;
pub mod engine;
pub mod environment;
pub mod error;
pub mod files;
pub mod helper;
pub mod helper_client;
pub mod id;
pub mod laws;
pub mod model;
pub mod order;
pub mod path;
pub mod policy;
pub mod search;
pub mod sources;
pub mod template;
pub mod text;
pub mod yaml;
