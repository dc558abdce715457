//! What the operations are for: properties of their outcomes, stated over what
//! goes in and what comes out.

pub mod clock;
pub mod config;
pub mod daemon;
pub mod forge;
pub mod gate;
pub mod json;
pub mod provider;
pub mod runner;
pub mod scheduler;
pub mod secrets;
pub mod state;
pub mod storage;
pub mod text;
pub mod views;
pub mod wire;
pub mod worktree;
