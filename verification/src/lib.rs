//! psy: a process supervisor. The library holds what the supervisor decides:
//! unit definitions, start order, restarts, probes, logs, run history and the
//! messages that answer requests.
pub mod api;
pub mod cleanup;
pub mod cli;
pub mod client;
pub mod json;
pub mod laws;
pub mod lines;
pub mod logs;
pub mod marks;
pub mod mcp;
pub mod names;
pub mod order;
pub mod pattern;
pub mod platform;
pub mod platforms;
pub mod ports;
pub mod probe;
pub mod process;
pub mod protocol;
pub mod psyfile;
pub mod recipe;
pub mod ring_buffer;
pub mod root;
pub mod schema;
pub mod shell;
pub mod tables;
pub mod text;
pub mod time;
pub mod toml_value;
