//! Core of a streaming chat client: an incremental decoder for the event
//! stream of a completion service, and a line-level change tracker that sends
//! each referenced file once and afterwards only what changed in it.
//!
//! The decoder lives in [`stream`], with its byte buffer in [`buffer`] and
//! the documents it reads in [`json`]. The diff engine lives in [`diff`]; the
//! mathematics of its search is in [`myers`], and the laws of its scripts in
//! [`script`]. The tracker lives in [`tracker`], over the files of [`files`].
//! [`chat`] and [`session`] put requests together; [`cli`], [`auth`] and
//! [`executor`] hold what the command line, the configuration and the
//! commands around a chat decide.

pub mod auth;
pub mod buffer;
pub mod chat;
pub mod cli;
pub mod diff;
pub mod errors;
pub mod executor;
pub mod files;
pub mod json;
pub mod myers;
pub mod prompts;
pub mod script;
pub mod session;
pub mod stream;
pub mod text;
pub mod tracker;
