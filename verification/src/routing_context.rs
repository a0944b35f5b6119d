//! Routing contexts: a client-facing handle that fixes the safety and
//! sequencing policy every operation through it uses.

use vstd::prelude::*;
use crate::crypto_types::{CryptoKey, PublicKey};
use crate::safety::{SafetySelection, SafetySpec, Sequencing, Stability};

verus! {

/// What an operation is aimed at: a node or a remote private route.
#[derive(Clone, Copy, Debug)]
pub enum Target {
    NodeId(PublicKey),
    PrivateRoute(CryptoKey),
}

/// A routing context: the safety policy plus the default hop count the
/// node's configuration gives to safety routes.
#[derive(Clone, Copy, Debug)]
pub struct RoutingContext {
    pub safety_selection: SafetySelection,
    pub default_route_hop_count: usize,
}

impl RoutingContext {
    /// A fresh context: no safety route, no sequencing preference.
    pub fn new(default_route_hop_count: usize) -> (r: RoutingContext)
        ensures
            r.safety_selection matches SafetySelection::Unsafe(q) && q
                == Sequencing::NoPreference,
            r.default_route_hop_count == default_route_hop_count,
    {
        RoutingContext {
            safety_selection: SafetySelection::Unsafe(Sequencing::NoPreference),
            default_route_hop_count,
        }
    }

    /// The context with default privacy: a safety route of the configured
    /// hop count and default stability.
    pub fn with_privacy(self) -> (r: RoutingContext)
        ensures
            r.safety_selection matches SafetySelection::Safe(spec) && spec.preferred_route is None
                && spec.hop_count == self.default_route_hop_count && spec.stability
                == Stability::LowLatency && spec.sequencing == self.safety_selection.spec_sequencing(),
            r.default_route_hop_count == self.default_route_hop_count,
    {
        self.with_custom_privacy(Stability::LowLatency)
    }

    /// The context with a safety route of the given stability.
    pub fn with_custom_privacy(self, stability: Stability) -> (r: RoutingContext)
        ensures
            r.safety_selection matches SafetySelection::Safe(spec) && spec.preferred_route is None
                && spec.hop_count == self.default_route_hop_count && spec.stability == stability
                && spec.sequencing == self.safety_selection.spec_sequencing(),
            r.default_route_hop_count == self.default_route_hop_count,
    {
        RoutingContext {
            safety_selection: SafetySelection::Safe(
                SafetySpec {
                    preferred_route: None,
                    hop_count: self.default_route_hop_count,
                    stability,
                    sequencing: self.sequencing(),
                },
            ),
            default_route_hop_count: self.default_route_hop_count,
        }
    }

    /// The context with another sequencing preference, keeping the rest of
    /// the safety policy.
    pub fn with_sequencing(self, sequencing: Sequencing) -> (r: RoutingContext)
        ensures
            r.safety_selection.spec_sequencing() == sequencing,
            r.default_route_hop_count == self.default_route_hop_count,
            (self.safety_selection is Safe) == (r.safety_selection is Safe),
            self.safety_selection matches SafetySelection::Safe(old_spec) ==> (r.safety_selection
                matches SafetySelection::Safe(spec) && spec.preferred_route
                == old_spec.preferred_route && spec.hop_count == old_spec.hop_count
                && spec.stability == old_spec.stability),
    {
        RoutingContext {
            safety_selection: match self.safety_selection {
                SafetySelection::Unsafe(_) => SafetySelection::Unsafe(sequencing),
                SafetySelection::Safe(spec) => SafetySelection::Safe(
                    SafetySpec {
                        preferred_route: spec.preferred_route,
                        hop_count: spec.hop_count,
                        stability: spec.stability,
                        sequencing,
                    },
                ),
            },
            default_route_hop_count: self.default_route_hop_count,
        }
    }

    /// The context's sequencing preference.
    pub fn sequencing(&self) -> (r: Sequencing)
        ensures
            r == self.safety_selection.spec_sequencing(),
    {
        self.safety_selection.sequencing()
    }
}

} // verus!
