//! Attachment state: the supervisor's classification of how well connected
//! the node is, computed from the routing table's health against the
//! configured thresholds.

use vstd::prelude::*;
use crate::routing_table::RoutingTableHealth;

verus! {

/// How attached the node is, in rising order of connectedness, plus the two
/// transitional states.
#[derive(Clone, Copy, Debug, PartialEq, Eq, Structural)]
pub enum AttachmentState {
    Detached,
    Attaching,
    AttachedWeak,
    AttachedGood,
    AttachedStrong,
    FullyAttached,
    OverAttached,
    Detaching,
}

/// The configured attachment thresholds, each a minimum entry count.
#[derive(Clone, Copy, Debug, PartialEq, Eq, Structural)]
pub struct AttachmentLimits {
    pub limit_over_attached: usize,
    pub limit_fully_attached: usize,
    pub limit_attached_strong: usize,
    pub limit_attached_good: usize,
    pub limit_attached_weak: usize,
}

/// The classifier: reliable entries decide the higher states; the weak
/// threshold is satisfied by reliable or unreliable entries alike; anything
/// less is still attaching.
pub open spec fn spec_translate_health(
    health: RoutingTableHealth,
    limits: AttachmentLimits,
) -> AttachmentState {
    if health.reliable_entry_count >= limits.limit_over_attached {
        AttachmentState::OverAttached
    } else if health.reliable_entry_count >= limits.limit_fully_attached {
        AttachmentState::FullyAttached
    } else if health.reliable_entry_count >= limits.limit_attached_strong {
        AttachmentState::AttachedStrong
    } else if health.reliable_entry_count >= limits.limit_attached_good {
        AttachmentState::AttachedGood
    } else if health.reliable_entry_count >= limits.limit_attached_weak
        || health.unreliable_entry_count >= limits.limit_attached_weak {
        AttachmentState::AttachedWeak
    } else {
        AttachmentState::Attaching
    }
}

/// Classify routing-table health into an attachment state.
pub fn translate_routing_table_health(
    health: &RoutingTableHealth,
    limits: &AttachmentLimits,
) -> (r: AttachmentState)
    ensures
        r == spec_translate_health(*health, *limits),
{
    if health.reliable_entry_count >= limits.limit_over_attached {
        AttachmentState::OverAttached
    } else if health.reliable_entry_count >= limits.limit_fully_attached {
        AttachmentState::FullyAttached
    } else if health.reliable_entry_count >= limits.limit_attached_strong {
        AttachmentState::AttachedStrong
    } else if health.reliable_entry_count >= limits.limit_attached_good {
        AttachmentState::AttachedGood
    } else if health.reliable_entry_count >= limits.limit_attached_weak
        || health.unreliable_entry_count >= limits.limit_attached_weak {
        AttachmentState::AttachedWeak
    } else {
        AttachmentState::Attaching
    }
}

impl AttachmentState {
    /// Whether the node counts as attached at all.
    pub fn is_attached(&self) -> (r: bool)
        ensures
            r == !(*self == AttachmentState::Detached || *self == AttachmentState::Detaching
                || *self == AttachmentState::Attaching),
    {
        match self {
            AttachmentState::AttachedWeak | AttachmentState::AttachedGood
                | AttachmentState::AttachedStrong | AttachmentState::FullyAttached
                | AttachmentState::OverAttached => true,
            _ => false,
        }
    }
}

/// The supervisor's view of attachment between ticks.
#[derive(Clone, Copy, Debug)]
pub struct AttachmentManagerState {
    pub last_attachment_state: AttachmentState,
    pub last_health: Option<RoutingTableHealth>,
    pub maintain_peers: bool,
    pub attach_ts: Option<u64>,
}

impl AttachmentManagerState {
    pub fn new() -> (r: AttachmentManagerState)
        ensures
            r.last_attachment_state == AttachmentState::Detached,
            r.last_health is None,
            !r.maintain_peers,
            r.attach_ts is None,
    {
        AttachmentManagerState {
            last_attachment_state: AttachmentState::Detached,
            last_health: None,
            maintain_peers: false,
            attach_ts: None,
        }
    }

    /// One attachment recomputation: fold in fresh health and decide whether
    /// an update must be sent. An update goes out when the health changed
    /// and either the attachment state changed, a domain's readiness
    /// changed, or this is the first health reading.
    pub fn update_attachment(
        &mut self,
        health: RoutingTableHealth,
        limits: &AttachmentLimits,
    ) -> (send_update: bool)
        ensures
            ({
                let unchanged = old(self).last_health == Some(health);
                let new_state = spec_translate_health(health, *limits);
                &&& unchanged ==> !send_update && *final(self) == *old(self)
                &&& !unchanged ==> {
                    &&& final(self).last_attachment_state == new_state
                    &&& final(self).last_health == Some(health)
                    &&& final(self).maintain_peers == old(self).maintain_peers
                    &&& final(self).attach_ts == old(self).attach_ts
                    &&& send_update == (old(self).last_attachment_state != new_state || match old(
                        self,
                    ).last_health {
                        Some(h) => h.public_internet_ready != health.public_internet_ready
                            || h.local_network_ready != health.local_network_ready,
                        None => true,
                    })
                }
            }),
    {
        let unchanged = match &self.last_health {
            Some(h) => *h == health,
            None => false,
        };
        if unchanged {
            return false;
        }
        let previous_state = self.last_attachment_state;
        let previous_health = self.last_health;
        self.last_health = Some(health);
        self.last_attachment_state = translate_routing_table_health(&health, limits);
        let readiness_changed = match previous_health {
            Some(h) => h.public_internet_ready != health.public_internet_ready
                || h.local_network_ready != health.local_network_ready,
            None => true,
        };
        previous_state != self.last_attachment_state || readiness_changed
    }
}

} // verus!
