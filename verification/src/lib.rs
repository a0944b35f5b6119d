//! Core data structures and algorithms of a peer-to-peer overlay network:
//! a Kademlia-style routing table with a per-peer liveness state machine,
//! connection and address filtering, RPC destination resolution, private
//! route allocation, a DHT record store, and a signed wire envelope.

use vstd::prelude::*;

pub mod address_filter;
pub mod attachment;
pub mod bucket_entry;
pub mod connection_table;
pub mod crypto;
pub mod crypto_types;
pub mod envelope;
pub mod fanout_queue;
pub mod net_types;
pub mod network_result;
pub mod node_info;
pub mod peer_info;
pub mod receipt;
pub mod route_spec_store;
pub mod routing_context;
pub mod routing_table;
pub mod rpc;
pub mod safety;
pub mod storage;
pub mod veilid_state;

verus! {

/// Microsecond timestamps used throughout the network core.
pub type Timestamp = u64;

/// Saturating difference between two timestamps.
pub fn timestamp_saturating_sub(a: Timestamp, b: Timestamp) -> (r: u64)
    ensures
        r == if a >= b { a - b } else { 0 },
{
    if a >= b { a - b } else { 0 }
}

} // verus!
