//! sqns: resolution of sQUIC public keys to network endpoints.
//!
//! sqns answers one question: *given a base58 Ed25519 public key, where on the
//! network does it live?* An answer is a set of endpoints (IPv4, IPv6 or a
//! name, each with a port, a priority and a weight) signed by the key it
//! describes, so callers verify answers end-to-end rather than trusting the
//! server that handed them over.
//!
//! - [`record`]: records, delegations, revocations, signing and verification
//! - [`protocol`]: the request/response wire format spoken over sQUIC
//! - [`key`]: base58 public keys and private seeds
//! - [`addr`]: `sqns://` and `sqc://` server addresses
//! - [`resolver`], [`walk`], [`tally`], [`cache`], [`select`], [`publisher`]:
//!   the client
//! - [`store`], [`snapshot`], [`server`], [`upstream`], [`replication`]: the
//!   server
//! - [`config`], [`client_config`], [`cli`], [`report`], [`shown`], [`dial`],
//!   [`link`]: what the two programs decide about files, flags, output,
//!   addresses and connections
//! - [`record_laws`], [`store_laws`], [`resolver_laws`], [`walk_laws`],
//!   [`ip_laws`], [`journey`]: what holds of all of it together
//! - [`lifetimes`], [`publisher_laws`], [`replication_laws`], [`relay_laws`],
//!   [`server_laws`], [`client_laws`], [`wire_laws`], [`text_laws`],
//!   [`settings_laws`]: the same in plain numbers, bytes and words, and across
//!   servers

pub mod addr;
pub mod cache;
pub mod cli;
pub mod client_config;
pub mod client_laws;
pub mod codec;
pub mod config;
pub mod delegation;
pub mod dial;
pub mod endpoint;
pub mod endpoint_text;
pub mod error;
pub mod ip;
pub mod ip_laws;
pub mod journey;
pub mod key;
pub mod keymap;
pub mod lifetimes;
pub mod link;
pub mod order;
pub mod protocol;
pub mod publisher;
pub mod publisher_laws;
pub mod record;
pub mod record_laws;
pub mod relay_laws;
pub mod replication;
pub mod replication_laws;
pub mod report;
pub mod resolver;
pub mod resolver_laws;
pub mod select;
pub mod server;
pub mod server_laws;
pub mod settings_laws;
pub mod shown;
pub mod snapshot;
pub mod store;
pub mod store_laws;
pub mod tally;
pub mod text;
pub mod text_laws;
pub mod upstream;
pub mod walk;
pub mod walk_laws;
pub mod wire_laws;

use vstd::prelude::*;

pub use addr::{Scheme, ServerAddr};
pub use error::{Error, Result};
pub use key::PubKey;
pub use protocol::{Request, Response, ALPN, DEFAULT_PORT};
pub use record::{
    now_unix, Delegation, DelegationFile, Endpoint, Host, Record, RecordBody, SignedRecord,
};

verus! {

/// The public sqns server, used by the command line when nothing else names
/// one.
///
/// This is data, not policy: the library never contacts it on its own. Only the
/// command line falls back to it, so that `sqns resolve <key>` works before any
/// configuration exists.
pub const DEFAULT_SERVER: &'static str =
    "sqns://ns.squic.org/9Yb1A35fjEVVxphy5sGKfqC9fhTD9etoJQ4gVSa1jEKb";

/// Crate version, reported by `Status`.
pub const VERSION: &'static str = "0.1.0";

} // verus!
