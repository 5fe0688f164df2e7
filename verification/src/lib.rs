//! The decision logic of a desktop front end for rclone: project identity,
//! remote targets, exclude-filter rules, schedules, the operation registry and
//! the scheduled-Push state machine.
#![allow(unused_imports)]

pub mod text;
pub mod schedule;
pub mod identity;
pub mod filters;
pub mod seqs;
pub mod model;
pub mod rclone_args;
pub mod rclone_output;
pub mod operations;
pub mod order;
pub mod idmap;
pub mod scheduler;
pub mod automation;
pub mod settings;
pub mod local_edits;
pub mod selection;
pub mod status;
pub mod rclone_runs;
pub mod watch;
