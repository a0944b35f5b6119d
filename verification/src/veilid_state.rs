//! Client-visible state snapshots: attachment, network, route and value
//! change notifications.

use vstd::prelude::*;
use crate::attachment::AttachmentState;
use crate::bucket_entry::PeerStats;
use crate::crypto_types::{CryptoKey, TypedKey};
use crate::storage::{ValueData, ValueSubkey};

verus! {

/// The attachment part of the node state.
#[derive(Clone, Copy, Debug, PartialEq, Eq, Structural)]
pub struct VeilidStateAttachment {
    pub state: AttachmentState,
    pub public_internet_ready: bool,
    pub local_network_ready: bool,
}

/// One row of the peer table handed to clients.
#[derive(Debug)]
pub struct PeerTableData {
    pub node_ids: Vec<TypedKey>,
    pub peer_address: String,
    pub peer_stats: PeerStats,
}

/// The network part of the node state.
#[derive(Debug)]
pub struct VeilidStateNetwork {
    pub started: bool,
    pub bps_down: u64,
    pub bps_up: u64,
    pub peers: Vec<PeerTableData>,
}

/// Routes that died since the last update.
#[derive(Debug)]
pub struct VeilidRouteChange {
    pub dead_routes: Vec<CryptoKey>,
    pub dead_remote_routes: Vec<CryptoKey>,
}

/// A watched value changed.
#[derive(Debug)]
pub struct VeilidValueChange {
    pub key: TypedKey,
    pub subkeys: Vec<(ValueSubkey, ValueSubkey)>,
    pub count: u32,
    pub value: Option<ValueData>,
}

impl VeilidStateAttachment {
    pub fn new(
        state: AttachmentState,
        public_internet_ready: bool,
        local_network_ready: bool,
    ) -> (r: VeilidStateAttachment)
        ensures
            r == (VeilidStateAttachment { state, public_internet_ready, local_network_ready }),
    {
        VeilidStateAttachment { state, public_internet_ready, local_network_ready }
    }
}

} // verus!
