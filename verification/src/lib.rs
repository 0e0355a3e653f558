//! Keeps DNS hostnames pointed at the machine's current public IPv4 address.
//!
//! The crate holds the decision core of a dynamic-DNS updater: validating
//! candidate IPv4 strings, choosing the first usable answer from an ordered
//! list of discovery endpoints, interpreting the provider's XML reply, building
//! the update request URL, and planning each polling cycle. All I/O stays with
//! the caller; every function here is a total computation with a contract.

pub mod config;
pub mod cycle;
pub mod interpret;
pub mod ipv4;
pub mod request;
pub mod resolver;
pub mod text;
pub mod xml;

use vstd::prelude::*;

verus! {

/// True for the four ASCII whitespace characters that XML and the
/// provider's plain-text replies can carry around a value.
pub open spec fn is_space(c: char) -> bool {
    c == ' ' || c == '\t' || c == '\n' || c == '\r'
}

} // verus!
