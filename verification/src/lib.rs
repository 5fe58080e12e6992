//! Tenant-routing and TLS-resolution core of a multi-tenant reverse-proxy
//! front door.
//!
//! Three components, each built once at startup and read-only afterwards:
//! a hostname router that parses a structured subdomain grammar anchored to
//! a configured base domain (`host`), an immutable tenant registry mapping
//! tenant identifiers to upstream targets (`config`), and an SNI certificate
//! resolver that maps served domains to a shared TLS identity (`tls`).

pub mod config;
pub mod host;
pub mod tls;

use vstd::prelude::*;

verus! {

} // verus!
