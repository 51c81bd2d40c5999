//! Ronin: the verified core of a terminal coding agent.

pub mod auth;
pub mod cli;
pub mod client;
pub mod composer;
pub mod config;
pub mod context;
pub mod digest;
pub mod display;
pub mod interaction;
pub mod json;
pub mod keys;
pub mod layout;
pub mod loop_runner;
pub mod order;
pub mod panels;
pub mod paths;
pub mod patterns;
pub mod permissions;
pub mod picker;
pub mod questions;
pub mod run;
pub mod schema;
pub mod storage;
pub mod text;
pub mod tool;
pub mod tool_laws;
pub mod tools;
pub mod tui;
pub mod types;
pub mod update;
