//! Domain-to-port routing for local development: the record model and its
//! mutation rules, the reverse-proxy configuration text generated from it,
//! and the decisions of the daemon that supervises the proxy and its helpers.

pub mod command;
pub mod config;
pub mod daemon;
pub mod entry;
pub mod error;
pub mod helpers;
pub mod record;
pub mod registry;
pub mod text;
