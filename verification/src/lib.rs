//! Core of a small interactive command shell.
//!
//! The crate parses a line of text into a structured command description
//! (pipelines, redirections, quoting, escapes, variable references and
//! nested subcommands), evaluates command items to argument strings, and
//! provides the pure decision logic that a process orchestrator needs:
//! builtin dispatch, redirection open plans, pipeline wiring, the relay of
//! state-mutation requests, and a lossless wire encoding for results that
//! cross a process boundary.
//!
//! All process and file I/O stays outside this crate; the functions here
//! compute plans and values from plain data, and every one of them carries
//! a contract.

pub mod builtins;
pub mod cmd_cat;
pub mod cmd_env;
pub mod cmd_head;
pub mod colors;
pub mod debug;
pub mod error;
pub mod eval;
pub mod iters;
pub mod laws;
pub mod orchestrate;
pub mod parser;
pub mod strutil;
pub mod syntax;
pub mod text;
pub mod wire;
