//! A verified attendance-tracking engine.
//!
//! The library keeps a roster of students, a ledger of calendar-anchored
//! class weeks, and one attendance status per (student, week) pair, and
//! derives absence statistics from them.  Persistence, command-line
//! handling, and mail transport live outside the library and talk to it
//! through plain values.
//!
//! The state and the roster operations live in [`manager`], the week
//! ledger in [`weeks`], recording in [`attendance`] and [`queries`], the
//! statistics in [`stats`], [`aggregate`] and [`absentees`], and the
//! roster reconciliation in [`reconcile`].  The properties that relate
//! these operations — idempotence of marking and of absent
//! materialization, stability of the aggregation, stability of
//! reconciliation — are proved in [`laws`].

pub mod absentees;
pub mod aggregate;
pub mod attendance;
pub mod cli;
pub mod config;
pub mod date;
pub mod laws;
pub mod manager;
pub mod models;
pub mod queries;
pub mod reconcile;
pub mod restore;
pub mod seq_facts;
pub mod smtp;
pub mod stats;
pub mod text;
pub mod weeks;
