//! `zc`: the logic of the Zakuro command line tool.
//!
//! The library computes what the tool does: the shell commands it runs, the
//! way it reads its configuration and the environment, how it parses the
//! command line and the Spark master page. Running processes, reading files
//! and printing happen in the binary around it.
pub mod text;
pub mod envs;
pub mod exec;
pub mod manager;
pub mod network;
pub mod common;
pub mod cli;
pub mod spark;
