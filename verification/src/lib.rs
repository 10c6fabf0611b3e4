//! Verified core of a small process supervisor: configuration checks,
//! template expansion and the per-process state machine that decides
//! what the supervisor does on every watch cycle.

pub mod time;
pub mod text;
pub mod config;
pub mod deps;
pub mod status;
pub mod watch;
pub mod template;
pub mod expand;
pub mod housekeeping;
pub mod observe;
pub mod screen;
pub mod sample;
pub mod order;
