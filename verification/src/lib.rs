//! Yardmaster: coordinates coding agents working on tickets, from intake to
//! merge, with every public side effect held behind a human approval gate.

pub mod adapters;
pub mod client;
pub mod clock;
pub mod config;
pub mod forge_github;
pub mod gate;
pub mod ipc;
pub mod json;
pub mod laws;
pub mod lifecycle;
pub mod paths;
pub mod provider_github;
pub mod rest;
pub mod runner_omp;
pub mod scheduler;
pub mod secrets;
pub mod server;
pub mod state;
pub mod storage;
pub mod table;
pub mod text;
pub mod worktree;
