//! Declarative management of terminal multiplexer sessions.
//!
//! A [`conf::Config`] declares a session and its windows; the reconciler in
//! [`reconcile`] drives a [`tmux::TmuxBackend`] until the live session matches.

pub mod cli;
pub mod conf;
pub mod error;
pub mod laws;
pub mod reconcile;
pub mod tmux;
pub mod words;
