//! DevLaunch core: configuration model, git output parsers, worktree
//! policies and terminal command builders, each with a machine-checked contract.

pub mod text;
pub mod config;
pub mod git;
pub mod diff;
pub mod log;
pub mod image;
pub mod platform;
pub mod paths;
pub mod worktree;
pub mod runner;
pub mod git_write;
pub mod launcher;
pub mod detect;
pub mod commands;
pub mod tray;
pub mod ready;
pub mod diag;
pub mod git_read;
pub mod locate;
pub mod preview;
pub mod hotkey;
pub mod copying;
pub mod scan;
pub mod migrate;
pub mod format;
pub mod ids;
pub mod loading;
