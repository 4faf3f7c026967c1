//! Core of a federated social-network server speaking ActivityPub.
//!
//! The crate models the activity pipeline: entities stored in a
//! content-addressable graph keyed by IRI, ingest of untrusted graphs,
//! authorisation, audience expansion, a durable delivery queue, and
//! HTTP-signature construction and checking.

use vstd::prelude::*;

pub mod assemble;
pub mod assign;
pub mod auth;
pub mod authn;
pub mod context;
pub mod crypto;
pub mod delivery;
pub mod entity;
pub mod getsvc;
pub mod ingest;
pub mod iri;
pub mod masto;
pub mod page;
pub mod queue;
pub mod retrieve;
pub mod router;
pub mod signing;
pub mod store;
pub mod strutil;
pub mod untangle;
pub mod vocab;
pub mod webfinger;

verus! {

/// An item is owned by this server iff its recorded instance tag equals
/// the instance id of the running server.
pub open spec fn spec_owned_by(item_instance: u32, server_instance: u32) -> bool {
    item_instance == server_instance
}

/// Decide whether an instance tag marks an item as owned by this server.
pub fn owned_by(item_instance: u32, server_instance: u32) -> (r: bool)
    ensures
        r == spec_owned_by(item_instance, server_instance),
{
    item_instance == server_instance
}

} // verus!
