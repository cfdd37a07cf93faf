//! The decision logic of a small static file server.
//!
//! Nothing here touches the filesystem or the network. The caller looks paths
//! up, reads file attributes and streams bytes; this crate decides which path
//! to look up, whether it may be served, and what the response has to be.

pub mod config;
pub mod date;
pub mod dispatch;
pub mod media;
pub mod path;
pub mod range;
pub mod respond;
pub mod text;
pub mod validator;
