//! The verified core of a small kanban service over GitHub issues.
pub mod auth;
pub mod automation;
pub mod board;
pub mod cards;
pub mod cleanup;
pub mod config;
pub mod error;
pub mod execution;
pub mod github;
pub mod harness;
pub mod hostdoc;
pub mod jobs;
pub mod manager;
pub mod model;
pub mod order;
pub mod outside;
pub mod path;
pub mod preflight;
pub mod search;
pub mod server;
pub mod tasks;
pub mod text;
pub mod textmap;
pub mod util;
