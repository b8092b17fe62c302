//! Mirrors the containers of a Docker host into Discord channels: one channel
//! per container, holding one message with the container's status and the
//! tail of its log output.
//!
//! The crate holds the decisions of that mirror as verified code:
//!
//! - [`docker`]: which records of a listing are containers, and which frames
//!   of a log stream are a container's log output;
//! - [`discord`]: what text the log output becomes and what message is built
//!   around it;
//! - [`snapshot`]: what a fresh listing does to the state that the two loops
//!   share;
//! - [`poller`] and [`reconciler`]: which call against Docker or Discord
//!   comes next;
//! - [`laws`]: what holds of the reconciler whatever happens.
//!
//! The calls themselves are made by the program that drives the two state
//! machines, [`poller::Poller`] and [`reconciler::Reconciler`].

pub mod discord;
pub mod docker;
pub mod laws;
pub mod poller;
pub mod reconciler;
pub mod seqs;
pub mod snapshot;
