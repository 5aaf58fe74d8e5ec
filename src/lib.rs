//! Live host and container diagnostics: process aggregation and ranking,
//! kernel counter parsing, bounded log buffers and the state machines that
//! drive background actions and log streams.
pub mod action;
pub mod channel;
pub mod containers;
pub mod counts;
pub mod diskstats;
pub mod format;
pub mod history;
pub mod layout;
pub mod mac;
pub mod logs;
pub mod monitor;
pub mod netdev;
pub mod process;
pub mod sockets;
pub mod swarm;
pub mod text;
pub mod ui;
