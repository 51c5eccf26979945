//! Automation agent for the i3 and sway window managers.
//!
//! The crate holds the protocol and the decisions of the agent and leaves the
//! socket, the clock, the process environment and the run of the rule
//! interpreter to its caller: the framing of IPC messages, a connection that
//! works on byte buffers, the conversion of window events into values of the
//! rule language, the registry of pending rules with its matching engine,
//! and the startup sequence.

pub mod config;
pub mod i3ipc;
pub mod json;
pub mod lisp;
pub mod matching;
pub mod socket;
pub mod startup;
pub mod text;
