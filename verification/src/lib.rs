//! The rules of a launcher that runs a project directory inside a disposable
//! virtual machine and opens an editor connected to it over ssh.
//!
//! Everything here computes: what to call a project's container, which command
//! comes next, what a configuration file should say. Reading, running and
//! writing is left to the program around it.

pub mod args;
pub mod container;
pub mod image;
pub mod json;
pub mod launch;
pub mod names;
pub mod network;
pub mod number;
pub mod path;
pub mod process;
pub mod readiness;
pub mod sandbox;
pub mod seed;
pub mod services;
pub mod ssh_config;
pub mod text;
pub mod user;
