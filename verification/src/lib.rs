//! Verified core logic of a git desktop client: parsers for git's
//! machine-readable output, conflict-marker scanning, line-level patch
//! construction, commit-graph lane layout and prompt assembly.

pub mod text;
pub mod model;
pub mod parse;
pub mod diff;
pub mod error;
pub mod conflict;
pub mod utf8;
pub mod graph;
pub mod patch;
pub mod sse;
pub mod stats;
pub mod history;
pub mod progress;
pub mod credential;
pub mod matching;
pub mod context;
pub mod prompt;
pub mod ai_config;
pub mod net;
pub mod generate;
pub mod ops;
pub mod untracked;
pub mod helper;
pub mod session;
pub mod blobs;
pub mod actions;
pub mod gitcmd;
pub mod compat;
pub mod stores;
pub mod logs;
pub mod calendar;
pub mod aggregate;
pub mod pending;
