//! Safety selection: whether and how a message hides its origin behind a
//! safety route.

use vstd::prelude::*;
use crate::crypto_types::CryptoKey;

verus! {

/// Whether a connection must deliver in order.
#[derive(Clone, Copy, Debug, PartialEq, Eq, Structural)]
pub enum Sequencing {
    NoPreference,
    PreferOrdered,
    EnsureOrdered,
}

/// How much route stability matters relative to speed.
#[derive(Clone, Copy, Debug, PartialEq, Eq, Structural)]
pub enum Stability {
    LowLatency,
    Reliable,
}

/// The requirements of a safety route.
#[derive(Clone, Copy, Debug)]
pub struct SafetySpec {
    /// Reuse this allocated route if it is still good.
    pub preferred_route: Option<CryptoKey>,
    /// How many hops the safety route must have.
    pub hop_count: usize,
    /// Stability preference.
    pub stability: Stability,
    /// Sequencing preference.
    pub sequencing: Sequencing,
}

/// Whether to hide our identity behind a safety route.
#[derive(Clone, Copy, Debug)]
pub enum SafetySelection {
    /// No safety route; the sequencing preference still applies.
    Unsafe(Sequencing),
    /// Use a safety route with these requirements.
    Safe(SafetySpec),
}

impl SafetySelection {
    /// The sequencing preference of either variant.
    pub fn sequencing(&self) -> (r: Sequencing)
        ensures
            r == self.spec_sequencing(),
    {
        match self {
            SafetySelection::Unsafe(seq) => *seq,
            SafetySelection::Safe(spec) => spec.sequencing,
        }
    }

    pub open spec fn spec_sequencing(&self) -> Sequencing {
        match self {
            SafetySelection::Unsafe(seq) => *seq,
            SafetySelection::Safe(spec) => spec.sequencing,
        }
    }
}

} // verus!
