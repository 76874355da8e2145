//! Core of an uptime checker: for a configured set of named sites it plans one
//! secure fetch per site and classifies the outcome.
//!
//! The library holds the logic that can be stated and proved: parsing a URI
//! into a [`uri::Destination`], composing the host-authority string, the
//! staged secure-connection state machine, and the one-shot poll dispatcher.
//! The surrounding binary performs the actual network and file I/O and feeds
//! the results back in as plain values.

pub mod connector;
pub mod dispatch;
pub mod http;
pub mod models;
pub mod settings;
pub mod uri;
