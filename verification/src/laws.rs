//! What holds of the library as a whole, stated over inputs and results.

pub mod building;
pub mod changing;
pub mod commands;
pub mod configuration;
pub mod desktop;
pub mod faults;
pub mod helping;
pub mod modules;
pub mod operations;
pub mod paths;
pub mod policy;
pub mod resolving;
pub mod results;
pub mod scanning;
pub mod status;
pub mod steps;
pub mod system;
pub mod text;
pub mod values;
