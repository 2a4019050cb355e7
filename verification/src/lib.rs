//! Core of a personal job runner: a daemon takes shell commands from any
//! terminal, runs each in a process group of its own, keeps a record of it,
//! and captures its output in a log that can be read while the job runs.
//!
//! This crate holds what the daemon and its clients decide and compute, with
//! contracts that Verus checks; reading files, talking over the socket and
//! spawning processes are left to the program around it.
//!
//! - [`job`], [`status`], [`time`]: the job record and its lifecycle.
//! - [`store`], [`store_laws`]: the job store, its operations and what
//!   holds of every store.
//! - [`daemon`], [`supervisor`], [`monitor`], [`signal`]: the daemon's state,
//!   what it does with a request, and how a running job is watched and stopped.
//! - [`frame`], [`message`]: the wire protocol.
//! - [`tail`], [`lines`], [`follow`], [`colorize`]: showing a job's log.
//! - [`commands`], [`listing`], [`duration`], [`pager`], [`client`],
//!   [`paths`], [`project`]: what the commands of the command line compute.
//! - [`text`], [`number`]: text and numbers.

pub mod client;
pub mod colorize;
pub mod commands;
pub mod daemon;
pub mod duration;
pub mod error;
pub mod follow;
pub mod frame;
pub mod job;
pub mod lines;
pub mod listing;
pub mod message;
pub mod monitor;
pub mod number;
pub mod pager;
pub mod paths;
pub mod project;
pub mod signal;
pub mod status;
pub mod store;
pub mod store_laws;
pub mod supervisor;
pub mod tail;
pub mod text;
pub mod time;

pub use daemon::{DaemonState, RunningJob};
pub use error::UserError;
pub use job::Job;
pub use paths::Paths;
pub use signal::kill_process_group;
pub use status::Status;
pub use store::{JobStore, StoreError};
pub use time::Timestamp;
