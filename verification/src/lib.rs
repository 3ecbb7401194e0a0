//! snag: a local PTY session multiplexer. This crate holds its verified core:
//! the scrollback ring buffer, the session registry and its name resolution,
//! the daemon's request handlers as functions from state and request to
//! reply, the discovery of terminals from `/proc` text, the wire framing,
//! the key handling of `attach` and the browser, the report formatting of
//! the CLI, and the text processing (escape stripping, number parsing) they
//! share. Terminal I/O, sockets and serialisation live in the program
//! around it.

pub mod daemon;
pub mod text;
pub mod error;
pub mod protocol;
pub mod scan;
pub mod ansi;
pub mod cli;
pub mod tui;
pub mod config;
