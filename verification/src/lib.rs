//! A verified step runner: plans trees of commands, decides what is run next, and accounts for
//! what came of it.

pub mod text;
pub mod options;
pub mod context;
pub mod status;
pub mod step;
pub mod clock;
pub mod logs;
pub mod style;
pub mod message;
pub mod trace;
pub mod run;
pub mod manifest;
pub mod environment;
pub mod command;
pub mod kill;
pub mod spread;
pub mod grpc;
pub mod laws;
