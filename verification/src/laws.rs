//! What the operations promise, said of their arguments and their results.
pub mod answers;
pub mod commands;
pub mod fields;
pub mod hosting;
pub mod input;
pub mod lifecycle;
pub mod listing;
pub mod logs;
pub mod ordering;
pub mod ports;
pub mod probes;
pub mod readiness;
pub mod refusals;
pub mod restarting;
pub mod running;
pub mod shell;
pub mod shown;
pub mod starting;
pub mod systems;
pub mod tools;
pub mod units;
