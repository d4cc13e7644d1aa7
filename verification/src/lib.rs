//! A verified model of a multi-tenant authenticating reverse HTTP proxy.
//!
//! The crate covers the request lifecycle: virtual-host routing, the
//! public-route exemption policy, the bearer-token authentication gate,
//! trusted-header hygiene, upstream URI rewriting, the certificate
//! resolver consulted during TLS handshakes, and the listener table with
//! its bounded accept queue.  Textual protocol data (host names, header
//! names and values, URI components) is modelled as bytes.

pub mod ascii;
pub mod auth;
pub mod config;
pub mod handler;
pub mod listener;
pub mod listener_manager;
pub mod headers;
pub mod message;
pub mod net;
pub mod proto;
pub mod routes;
pub mod tls_manager;
