//! Peer identity bundles: node info signed by the node's own keys, either
//! directly or through a relay, together with the node's typed ids.

use vstd::prelude::*;
use crate::crypto_types::{CryptoKind, Signature, TypedKey};
use crate::node_info::NodeInfo;

verus! {

/// A signature tagged with the crypto kind that made it.
#[derive(Clone, Copy, Debug)]
pub struct TypedSignature {
    pub kind: CryptoKind,
    pub signature: Signature,
}

/// Node info self-signed with each of the node's supported keys.
#[derive(Debug)]
pub struct SignedDirectNodeInfo {
    pub node_info: NodeInfo,
    pub timestamp: u64,
    pub signatures: Vec<TypedSignature>,
}

/// Node info of a node reachable only through a relay: carries the relay's
/// ids and the relay's own directly signed node info.
#[derive(Debug)]
pub struct SignedRelayedNodeInfo {
    pub node_info: NodeInfo,
    pub relay_ids: Vec<TypedKey>,
    pub relay_info: SignedDirectNodeInfo,
    pub timestamp: u64,
    pub signatures: Vec<TypedSignature>,
}

/// Signed node info, direct or relayed.
#[derive(Debug)]
pub enum SignedNodeInfo {
    Direct(SignedDirectNodeInfo),
    Relayed(SignedRelayedNodeInfo),
}

impl SignedNodeInfo {
    /// Whether at least one signature is attached.
    pub fn has_any_signature(&self) -> (r: bool)
        ensures
            r == self.spec_has_any_signature(),
    {
        match self {
            SignedNodeInfo::Direct(d) => d.signatures.len() > 0,
            SignedNodeInfo::Relayed(rl) => rl.signatures.len() > 0,
        }
    }

    pub open spec fn spec_has_any_signature(&self) -> bool {
        match self {
            SignedNodeInfo::Direct(d) => d.signatures@.len() > 0,
            SignedNodeInfo::Relayed(rl) => rl.signatures@.len() > 0,
        }
    }

    /// A signed node info is valid when it carries at least one signature
    /// and, if relayed, its relay's own info does too. This checks the
    /// presence of signatures, not the signatures themselves: cryptographic
    /// verification needs a canonical wire encoding of the node info, which
    /// belongs to the transport's codec.
    pub fn is_valid(&self) -> (r: bool)
        ensures
            r == self.spec_is_valid(),
    {
        match self {
            SignedNodeInfo::Direct(d) => d.signatures.len() > 0,
            SignedNodeInfo::Relayed(rl) => rl.signatures.len() > 0 && rl.relay_info.signatures.len()
                > 0,
        }
    }

    pub open spec fn spec_is_valid(&self) -> bool {
        match self {
            SignedNodeInfo::Direct(d) => d.signatures@.len() > 0,
            SignedNodeInfo::Relayed(rl) => rl.signatures@.len() > 0
                && rl.relay_info.signatures@.len() > 0,
        }
    }

    /// The relay ids named by a relayed info; empty for a direct one.
    pub open spec fn spec_relay_ids(&self) -> Seq<TypedKey> {
        match self {
            SignedNodeInfo::Direct(_) => Seq::empty(),
            SignedNodeInfo::Relayed(rl) => rl.relay_ids@,
        }
    }

    pub fn relay_id_count(&self) -> (r: usize)
        ensures
            r == self.spec_relay_ids().len(),
    {
        match self {
            SignedNodeInfo::Direct(_) => 0,
            SignedNodeInfo::Relayed(rl) => rl.relay_ids.len(),
        }
    }

    pub fn node_info(&self) -> (r: &NodeInfo)
        ensures
            match self {
                SignedNodeInfo::Direct(d) => r == d.node_info,
                SignedNodeInfo::Relayed(rl) => r == rl.node_info,
            },
    {
        match self {
            SignedNodeInfo::Direct(d) => &d.node_info,
            SignedNodeInfo::Relayed(rl) => &rl.node_info,
        }
    }

    pub fn timestamp(&self) -> (r: u64)
        ensures
            match self {
                SignedNodeInfo::Direct(d) => r == d.timestamp,
                SignedNodeInfo::Relayed(rl) => r == rl.timestamp,
            },
    {
        match self {
            SignedNodeInfo::Direct(d) => d.timestamp,
            SignedNodeInfo::Relayed(rl) => rl.timestamp,
        }
    }
}

/// A peer's identity bundle: its typed node ids and one signed node info.
#[derive(Debug)]
pub struct PeerInfo {
    pub node_ids: Vec<TypedKey>,
    pub signed_node_info: SignedNodeInfo,
}

impl PeerInfo {
    pub fn new(node_ids: Vec<TypedKey>, signed_node_info: SignedNodeInfo) -> (r: PeerInfo)
        ensures
            r.node_ids@ == node_ids@,
            r.signed_node_info == signed_node_info,
    {
        PeerInfo { node_ids, signed_node_info }
    }

    /// Whether any of this peer's ids is also named as its relay: a node may
    /// not be its own relay.
    pub open spec fn spec_is_own_relay(&self) -> bool {
        exists|i: int, j: int|
            0 <= i < self.node_ids@.len() && 0 <= j < self.signed_node_info.spec_relay_ids().len()
                && self.node_ids@[i] == self.signed_node_info.spec_relay_ids()[j]
    }

    /// Whether any of this peer's ids is also named as its relay.
    pub fn is_own_relay(&self) -> (r: bool)
        ensures
            r == self.spec_is_own_relay(),
    {
        let relay_ids: &Vec<TypedKey> = match &self.signed_node_info {
            SignedNodeInfo::Direct(_) => {
                proof {
                    assert(self.signed_node_info.spec_relay_ids().len() == 0);
                }
                return false;
            },
            SignedNodeInfo::Relayed(rl) => &rl.relay_ids,
        };
        let mut i: usize = 0;
        while i < self.node_ids.len()
            invariant
                i <= self.node_ids@.len(),
                relay_ids@ == self.signed_node_info.spec_relay_ids(),
                forall|a: int, b: int|
                    0 <= a < i && 0 <= b < relay_ids@.len() ==> self.node_ids@[a] != relay_ids@[b],
            decreases self.node_ids@.len() - i,
        {
            let mut j: usize = 0;
            while j < relay_ids.len()
                invariant
                    i < self.node_ids@.len(),
                    j <= relay_ids@.len(),
                    relay_ids@ == self.signed_node_info.spec_relay_ids(),
                    forall|b: int| 0 <= b < j ==> self.node_ids@[i as int] != relay_ids@[b],
                decreases relay_ids@.len() - j,
            {
                if self.node_ids[i] == relay_ids[j] {
                    proof {
                        assert(self.node_ids@[i as int].value.bytes =~= relay_ids@[j as int].value.bytes);
                        assert(self.node_ids@[i as int].value =~= relay_ids@[j as int].value);
                        assert(self.node_ids@[i as int] =~= relay_ids@[j as int]);
                    }
                    return true;
                }
                proof {
                    assert(self.node_ids@[i as int] != relay_ids@[j as int]) by {
                        if self.node_ids@[i as int] == relay_ids@[j as int] {
                            assert(self.node_ids@[i as int].value.bytes@ == relay_ids@[j as int].value.bytes@);
                        }
                    }
                }
                j += 1;
            }
            i += 1;
        }
        false
    }
}

} // verus!
