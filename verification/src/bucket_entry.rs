//! Per-peer liveness accounting. Every bucket entry carries RPC statistics
//! and is classified as Reliable, Unreliable or Dead from those statistics
//! and the current time; the classifier also drives the ping cadence.

use vstd::prelude::*;
use crate::timestamp_saturating_sub;

verus! {

/// Seconds between the first two pings of a reliable node; the interval
/// doubles after each ping until it reaches the maximum.
pub const RELIABLE_PING_INTERVAL_START_SECS: u32 = 10;

/// Longest interval between pings of a reliable node.
pub const RELIABLE_PING_INTERVAL_MAX_SECS: u32 = 600;

/// Total seconds a node has to answer pings before an unreliable node is
/// considered dead, and the span a node must be seen consistently before it
/// is considered reliable.
pub const UNRELIABLE_PING_SPAN_SECS: u32 = 60;

/// Seconds between pings of an unreliable node.
pub const UNRELIABLE_PING_INTERVAL_SECS: u32 = 5;

/// Seconds between keepalive pings to our own relay node.
pub const KEEPALIVE_PING_INTERVAL_SECS: u32 = 20;

/// How many failed sends or lost answers in a row make a node dead.
pub const NEVER_REACHED_PING_COUNT: u32 = 3;

/// One second in the microsecond timestamps used throughout.
pub const MICROS_PER_SEC: u64 = 1000000;

/// How many recent round-trip latencies are kept per peer.
pub const ROLLING_LATENCIES_SIZE: usize = 10;

/// Liveness state of a bucket entry. The variants are ordered from worst to
/// best so that sorts can rank entries by liveness.
#[derive(Clone, Copy, Debug, PartialEq, Eq, Structural)]
pub enum BucketEntryState {
    Dead,
    Unreliable,
    Reliable,
}

impl BucketEntryState {
    /// Rank of the state, higher is more alive.
    pub fn rank(&self) -> (r: u8)
        ensures
            r == spec_state_rank(*self),
    {
        match self {
            BucketEntryState::Dead => 0,
            BucketEntryState::Unreliable => 1,
            BucketEntryState::Reliable => 2,
        }
    }
}

pub open spec fn spec_state_rank(s: BucketEntryState) -> u8 {
    match s {
        BucketEntryState::Dead => 0,
        BucketEntryState::Unreliable => 1,
        BucketEntryState::Reliable => 2,
    }
}

pub open spec fn sat_add_u32(a: u32, b: u32) -> u32 {
    if a + b <= u32::MAX {
        (a + b) as u32
    } else {
        u32::MAX
    }
}

pub open spec fn sat_sub_u32(a: u32, b: u32) -> u32 {
    if a >= b {
        (a - b) as u32
    } else {
        0
    }
}

pub open spec fn sat_add_u64(a: u64, b: u64) -> u64 {
    if a + b <= u64::MAX {
        (a + b) as u64
    } else {
        u64::MAX
    }
}

fn sat_inc_u32(a: u32) -> (r: u32)
    ensures
        r == sat_add_u32(a, 1),
{
    if a < u32::MAX {
        a + 1
    } else {
        a
    }
}

fn sat_dec_u32(a: u32) -> (r: u32)
    ensures
        r == sat_sub_u32(a, 1),
{
    if a > 0 {
        a - 1
    } else {
        0
    }
}

fn sat_add64(a: u64, b: u64) -> (r: u64)
    ensures
        r == sat_add_u64(a, b),
{
    if a <= u64::MAX - b {
        a + b
    } else {
        u64::MAX
    }
}

/// Statistics about RPC exchanges with one peer.
#[derive(Clone, Copy, Debug, PartialEq, Eq, Structural)]
pub struct RPCStats {
    /// Total messages sent to the peer.
    pub messages_sent: u64,
    /// Total messages received from the peer.
    pub messages_rcvd: u64,
    /// Questions sent whose answer has not yet arrived.
    pub questions_in_flight: u32,
    /// When the last question was sent, if ever.
    pub last_question: Option<u64>,
    /// When the peer was last seen (sent us anything), if ever.
    pub last_seen_ts: Option<u64>,
    /// Start of the current run of consecutive sightings, if any.
    pub first_consecutive_seen_ts: Option<u64>,
    /// Lost answers since the last answer arrived.
    pub recent_lost_answers: u32,
    /// Consecutive failures to hand a message to the transport.
    pub failed_to_send: u32,
}

impl RPCStats {
    pub fn new() -> (r: RPCStats)
        ensures
            r == spec_rpc_stats_new(),
    {
        RPCStats {
            messages_sent: 0,
            messages_rcvd: 0,
            questions_in_flight: 0,
            last_question: None,
            last_seen_ts: None,
            first_consecutive_seen_ts: None,
            recent_lost_answers: 0,
            failed_to_send: 0,
        }
    }
}

pub open spec fn spec_rpc_stats_new() -> RPCStats {
    RPCStats {
        messages_sent: 0,
        messages_rcvd: 0,
        questions_in_flight: 0,
        last_question: None,
        last_seen_ts: None,
        first_consecutive_seen_ts: None,
        recent_lost_answers: 0,
        failed_to_send: 0,
    }
}

/// Round-trip latency summary over the rolling window.
#[derive(Clone, Copy, Debug, PartialEq, Eq, Structural)]
pub struct LatencyStats {
    pub fastest: u64,
    pub average: u64,
    pub slowest: u64,
}

/// Transfer totals in one direction.
#[derive(Clone, Copy, Debug, PartialEq, Eq, Structural)]
pub struct TransferStats {
    pub total: u64,
    pub maximum: u64,
    pub minimum: u64,
    pub average: u64,
}

impl TransferStats {
    pub fn new() -> (r: TransferStats)
        ensures
            r == (TransferStats { total: 0, maximum: 0, minimum: 0, average: 0 }),
    {
        TransferStats { total: 0, maximum: 0, minimum: 0, average: 0 }
    }
}

/// Transfer totals both ways.
#[derive(Clone, Copy, Debug, PartialEq, Eq, Structural)]
pub struct TransferStatsDownUp {
    pub down: TransferStats,
    pub up: TransferStats,
}

impl TransferStatsDownUp {
    pub fn new() -> (r: TransferStatsDownUp)
        ensures
            r.down == TransferStats::spec_zero(),
            r.up == TransferStats::spec_zero(),
    {
        TransferStatsDownUp { down: TransferStats::new(), up: TransferStats::new() }
    }
}

impl TransferStats {
    pub open spec fn spec_zero() -> TransferStats {
        TransferStats { total: 0, maximum: 0, minimum: 0, average: 0 }
    }
}

/// Everything the routing table tracks about one peer.
#[derive(Clone, Copy, Debug, PartialEq, Eq, Structural)]
pub struct PeerStats {
    /// When the entry was created.
    pub time_added: u64,
    /// RPC exchange statistics.
    pub rpc_stats: RPCStats,
    /// Latency summary, present once an answer round trip has been measured.
    pub latency: Option<LatencyStats>,
    /// Transfer totals.
    pub transfer: TransferStatsDownUp,
}

/// The liveness classifier: given the RPC statistics of an entry and the
/// current time, which state is the entry in?  The rules, in order:
/// too many failed sends, never seen with too many lost answers, or not seen
/// within the unreliable ping span make the entry Dead; no failed sends and a
/// consecutive-seen run at least the span long make it Reliable; anything
/// else is Unreliable.
pub open spec fn spec_entry_state(s: RPCStats, cur_ts: u64) -> BucketEntryState {
    if s.failed_to_send >= NEVER_REACHED_PING_COUNT {
        BucketEntryState::Dead
    } else if s.last_seen_ts is None && s.recent_lost_answers >= NEVER_REACHED_PING_COUNT {
        BucketEntryState::Dead
    } else if s.last_seen_ts matches Some(ts) && spec_sat_sub64(cur_ts, ts)
        >= UNRELIABLE_PING_SPAN_SECS as u64 * MICROS_PER_SEC {
        BucketEntryState::Dead
    } else if s.failed_to_send == 0 && (s.first_consecutive_seen_ts matches Some(f)
        && spec_sat_sub64(cur_ts, f) >= UNRELIABLE_PING_SPAN_SECS as u64 * MICROS_PER_SEC) {
        BucketEntryState::Reliable
    } else {
        BucketEntryState::Unreliable
    }
}

pub open spec fn spec_sat_sub64(a: u64, b: u64) -> u64 {
    if a >= b {
        (a - b) as u64
    } else {
        0
    }
}

/// Exponential-backoff retry check with base two.  Nothing is due before the
/// start interval; between start and maximum a retry is due once the elapsed
/// time has doubled since the last contact; past the maximum a retry is due
/// every maximum interval.
pub open spec fn spec_retry_falloff_log(last_us: u64, cur_us: u64, start_us: u64, max_us: u64) -> bool {
    if cur_us < start_us {
        false
    } else if cur_us < max_us {
        cur_us > 2 * last_us
    } else {
        spec_sat_sub64(cur_us, last_us) >= max_us
    }
}

pub fn retry_falloff_log(last_us: u64, cur_us: u64, start_us: u64, max_us: u64) -> (r: bool)
    ensures
        r == spec_retry_falloff_log(last_us, cur_us, start_us, max_us),
{
    if cur_us < start_us {
        false
    } else if cur_us < max_us {
        last_us < u64::MAX / 2 && cur_us > 2 * last_us
    } else {
        timestamp_saturating_sub(cur_us, last_us) >= max_us
    }
}

/// The maximum of two optional timestamps, where any value beats `None`.
pub open spec fn spec_opt_max(a: Option<u64>, b: Option<u64>) -> Option<u64> {
    match (a, b) {
        (Some(x), Some(y)) => if x >= y {
            Some(x)
        } else {
            Some(y)
        },
        (Some(x), None) => Some(x),
        (None, Some(y)) => Some(y),
        (None, None) => None,
    }
}

/// The inner, lock-free part of a bucket entry: statistics and liveness.
#[derive(Clone, Debug)]
pub struct BucketEntryInner {
    /// Statistics about the peer.
    pub peer_stats: PeerStats,
    /// Whether this peer has seen our own node info as it currently stands.
    pub seen_our_node_info: bool,
    /// Rolling window of recent round-trip latencies, newest last.
    pub rolling_latencies: Vec<u64>,
    /// Unrolled transfer byte counts since the last roll.
    pub current_transfer_up: u64,
    /// Unrolled transfer byte counts since the last roll.
    pub current_transfer_down: u64,
}

impl BucketEntryInner {
    pub fn new(cur_ts: u64) -> (r: BucketEntryInner)
        ensures
            r.peer_stats.time_added == cur_ts,
            r.peer_stats.rpc_stats == spec_rpc_stats_new(),
            r.peer_stats.latency is None,
            !r.seen_our_node_info,
            r.rolling_latencies@.len() == 0,
            spec_entry_state(r.peer_stats.rpc_stats, cur_ts) == BucketEntryState::Unreliable,
    {
        BucketEntryInner {
            peer_stats: PeerStats {
                time_added: cur_ts,
                rpc_stats: RPCStats::new(),
                latency: None,
                transfer: TransferStatsDownUp::new(),
            },
            seen_our_node_info: false,
            rolling_latencies: Vec::new(),
            current_transfer_up: 0,
            current_transfer_down: 0,
        }
    }

    /// Whether the entry counts as reliable at `cur_ts`: no failed sends and
    /// seen consistently for at least the unreliable ping span.
    pub fn check_reliable(&self, cur_ts: u64) -> (r: bool)
        ensures
            r == (spec_entry_state(self.peer_stats.rpc_stats, cur_ts)
                == BucketEntryState::Reliable),
    {
        self.state(cur_ts).rank() == 2
    }

    /// Whether the entry counts as dead at `cur_ts`.
    pub fn check_dead(&self, cur_ts: u64) -> (r: bool)
        ensures
            r == (spec_entry_state(self.peer_stats.rpc_stats, cur_ts) == BucketEntryState::Dead),
    {
        self.state(cur_ts).rank() == 0
    }

    /// Classify the entry's liveness at `cur_ts`.  This is exactly the
    /// classifier `spec_entry_state`: dead states are checked first, then
    /// reliability, and everything else is unreliable.
    pub fn state(&self, cur_ts: u64) -> (r: BucketEntryState)
        ensures
            r == spec_entry_state(self.peer_stats.rpc_stats, cur_ts),
    {
        Self::state_of(&self.peer_stats.rpc_stats, cur_ts)
    }

    /// Classify liveness from bare RPC statistics at `cur_ts`.
    pub fn state_of(s: &RPCStats, cur_ts: u64) -> (r: BucketEntryState)
        ensures
            r == spec_entry_state(*s, cur_ts),
    {
        if s.failed_to_send >= NEVER_REACHED_PING_COUNT {
            return BucketEntryState::Dead;
        }
        match s.last_seen_ts {
            None => {
                if s.recent_lost_answers >= NEVER_REACHED_PING_COUNT {
                    return BucketEntryState::Dead;
                }
            },
            Some(ts) => {
                if timestamp_saturating_sub(cur_ts, ts) >= (UNRELIABLE_PING_SPAN_SECS as u64)
                    * MICROS_PER_SEC {
                    return BucketEntryState::Dead;
                }
            },
        }
        if s.failed_to_send == 0 {
            if let Some(f) = s.first_consecutive_seen_ts {
                if timestamp_saturating_sub(cur_ts, f) >= (UNRELIABLE_PING_SPAN_SECS as u64)
                    * MICROS_PER_SEC {
                    return BucketEntryState::Reliable;
                }
            }
        }
        BucketEntryState::Unreliable
    }

    /// The last time we had any contact with this peer: the later of the
    /// last sighting and the last question we sent it.
    pub fn latest_contact_time(&self) -> (r: Option<u64>)
        ensures
            r == spec_opt_max(
                self.peer_stats.rpc_stats.last_seen_ts,
                self.peer_stats.rpc_stats.last_question,
            ),
    {
        match (self.peer_stats.rpc_stats.last_seen_ts, self.peer_stats.rpc_stats.last_question) {
            (Some(x), Some(y)) => if x >= y {
                Some(x)
            } else {
                Some(y)
            },
            (Some(x), None) => Some(x),
            (None, Some(y)) => Some(y),
            (None, None) => None,
        }
    }

    /// Whether a fixed-interval ping is due: we have neither seen the peer
    /// nor asked it anything within `interval_secs`.
    pub fn needs_constant_ping(&self, cur_ts: u64, interval_secs: u64) -> (r: bool)
        requires
            interval_secs <= 0xffffffff,
        ensures
            r == spec_needs_constant_ping(self.peer_stats.rpc_stats, cur_ts, interval_secs),
    {
        match self.latest_contact_time() {
            None => true,
            Some(latest) => timestamp_saturating_sub(cur_ts, latest) >= interval_secs
                * MICROS_PER_SEC,
        }
    }

    /// Whether this entry should be pinged right now.  Our own relay gets a
    /// keepalive ping on a constant interval whatever its state; reliable
    /// nodes back off exponentially; unreliable nodes are pinged on a short
    /// constant interval; dead nodes are never pinged.
    pub fn needs_ping(&self, cur_ts: u64, is_our_relay: bool) -> (r: bool)
        ensures
            r == spec_needs_ping(self.peer_stats.rpc_stats, cur_ts, is_our_relay),
    {
        if is_our_relay {
            return self.needs_constant_ping(cur_ts, KEEPALIVE_PING_INTERVAL_SECS as u64);
        }
        match self.state(cur_ts) {
            BucketEntryState::Reliable => {
                match self.latest_contact_time() {
                    None => true,
                    Some(latest_contact_time) => {
                        let first_consecutive_seen_ts = match self
                            .peer_stats
                            .rpc_stats
                            .first_consecutive_seen_ts {
                            Some(f) => f,
                            None => {
                                return true;
                            },
                        };
                        let start_of_reliable_time = sat_add64(
                            first_consecutive_seen_ts,
                            ((UNRELIABLE_PING_SPAN_SECS - UNRELIABLE_PING_INTERVAL_SECS) as u64)
                                * MICROS_PER_SEC,
                        );
                        let reliable_cur = timestamp_saturating_sub(
                            cur_ts,
                            start_of_reliable_time,
                        );
                        let reliable_last = timestamp_saturating_sub(
                            latest_contact_time,
                            start_of_reliable_time,
                        );
                        retry_falloff_log(
                            reliable_last,
                            reliable_cur,
                            (RELIABLE_PING_INTERVAL_START_SECS as u64) * MICROS_PER_SEC,
                            (RELIABLE_PING_INTERVAL_MAX_SECS as u64) * MICROS_PER_SEC,
                        )
                    },
                }
            },
            BucketEntryState::Unreliable => self.needs_constant_ping(
                cur_ts,
                UNRELIABLE_PING_INTERVAL_SECS as u64,
            ),
            BucketEntryState::Dead => false,
        }
    }

    /// Mark the peer as seen now, starting a consecutive-seen run if none is
    /// in progress.
    pub fn touch_last_seen(&mut self, ts: u64)
        ensures
            final(self).peer_stats.rpc_stats == (RPCStats {
                last_seen_ts: Some(ts),
                first_consecutive_seen_ts: if old(
                    self,
                ).peer_stats.rpc_stats.first_consecutive_seen_ts is None {
                    Some(ts)
                } else {
                    old(self).peer_stats.rpc_stats.first_consecutive_seen_ts
                },
                ..old(self).peer_stats.rpc_stats
            }),
            final(self).peer_stats.latency == old(self).peer_stats.latency,
            final(self).seen_our_node_info == old(self).seen_our_node_info,
            final(self).rolling_latencies@ == old(self).rolling_latencies@,
            final(self).current_transfer_up == old(self).current_transfer_up,
            final(self).current_transfer_down == old(self).current_transfer_down,
    {
        if self.peer_stats.rpc_stats.first_consecutive_seen_ts.is_none() {
            self.peer_stats.rpc_stats.first_consecutive_seen_ts = Some(ts);
        }
        self.peer_stats.rpc_stats.last_seen_ts = Some(ts);
    }

    /// Record a measured round-trip latency in the rolling window and update
    /// the latency summary: average of the window, bounded by its extremes.
    pub fn record_latency(&mut self, latency: u64)
        ensures
            final(self).rolling_latencies@.len() <= ROLLING_LATENCIES_SIZE,
            final(self).rolling_latencies@.last() == latency,
            final(self).peer_stats.latency is Some,
            final(self).peer_stats.rpc_stats == old(self).peer_stats.rpc_stats,
            final(self).current_transfer_up == old(self).current_transfer_up,
            final(self).current_transfer_down == old(self).current_transfer_down,
            final(self).seen_our_node_info == old(self).seen_our_node_info,
    {
        while self.rolling_latencies.len() >= ROLLING_LATENCIES_SIZE
            invariant
                self.peer_stats == old(self).peer_stats,
                self.current_transfer_up == old(self).current_transfer_up,
                self.current_transfer_down == old(self).current_transfer_down,
                self.seen_our_node_info == old(self).seen_our_node_info,
            decreases self.rolling_latencies@.len(),
        {
            self.rolling_latencies.remove(0);
        }
        self.rolling_latencies.push(latency);

        let mut fastest: u64 = u64::MAX;
        let mut slowest: u64 = 0;
        let mut total: u128 = 0;
        let mut i: usize = 0;
        let n = self.rolling_latencies.len();
        while i < n
            invariant
                i <= n,
                n == self.rolling_latencies@.len(),
                total <= (i as int) * (u64::MAX as int),
            decreases n - i,
        {
            let l = self.rolling_latencies[i];
            if l < fastest {
                fastest = l;
            }
            if l > slowest {
                slowest = l;
            }
            total = total + l as u128;
            i += 1;
        }
        proof {
            assert(n >= 1);
            assert(total / (n as u128) <= u64::MAX as u128) by (nonlinear_arith)
                requires
                    total <= (n as int) * (u64::MAX as int),
                    n >= 1,
            ;
        }
        let average = (total / (n as u128)) as u64;
        self.peer_stats.latency = Some(LatencyStats { fastest, average, slowest });
    }

    /// Note that a question was sent: counts the message, clears the failed
    /// send run, and if an answer is expected records the question time.
    pub fn question_sent(&mut self, ts: u64, bytes: u64, expects_answer: bool)
        ensures
            final(self).peer_stats.rpc_stats == (RPCStats {
                messages_sent: sat_add_u64(old(self).peer_stats.rpc_stats.messages_sent, 1),
                failed_to_send: 0,
                questions_in_flight: if expects_answer {
                    sat_add_u32(old(self).peer_stats.rpc_stats.questions_in_flight, 1)
                } else {
                    old(self).peer_stats.rpc_stats.questions_in_flight
                },
                last_question: if expects_answer {
                    Some(ts)
                } else {
                    old(self).peer_stats.rpc_stats.last_question
                },
                ..old(self).peer_stats.rpc_stats
            }),
            final(self).current_transfer_up == sat_add_u64(old(self).current_transfer_up, bytes),
    {
        self.current_transfer_up = sat_add64(self.current_transfer_up, bytes);
        self.peer_stats.rpc_stats.messages_sent = sat_add64(
            self.peer_stats.rpc_stats.messages_sent,
            1,
        );
        self.peer_stats.rpc_stats.failed_to_send = 0;
        if expects_answer {
            self.peer_stats.rpc_stats.questions_in_flight = sat_inc_u32(
                self.peer_stats.rpc_stats.questions_in_flight,
            );
            self.peer_stats.rpc_stats.last_question = Some(ts);
        }
    }

    /// Note that a question arrived from the peer: counts it and marks the
    /// peer seen.
    pub fn question_rcvd(&mut self, ts: u64, bytes: u64)
        ensures
            final(self).peer_stats.rpc_stats == (RPCStats {
                messages_rcvd: sat_add_u64(old(self).peer_stats.rpc_stats.messages_rcvd, 1),
                last_seen_ts: Some(ts),
                first_consecutive_seen_ts: if old(
                    self,
                ).peer_stats.rpc_stats.first_consecutive_seen_ts is None {
                    Some(ts)
                } else {
                    old(self).peer_stats.rpc_stats.first_consecutive_seen_ts
                },
                ..old(self).peer_stats.rpc_stats
            }),
            final(self).current_transfer_down == sat_add_u64(
                old(self).current_transfer_down,
                bytes,
            ),
    {
        self.current_transfer_down = sat_add64(self.current_transfer_down, bytes);
        self.peer_stats.rpc_stats.messages_rcvd = sat_add64(
            self.peer_stats.rpc_stats.messages_rcvd,
            1,
        );
        self.touch_last_seen(ts);
    }

    /// Note that an answer was sent to the peer.
    pub fn answer_sent(&mut self, bytes: u64)
        ensures
            final(self).peer_stats.rpc_stats == (RPCStats {
                messages_sent: sat_add_u64(old(self).peer_stats.rpc_stats.messages_sent, 1),
                failed_to_send: 0,
                ..old(self).peer_stats.rpc_stats
            }),
            final(self).current_transfer_up == sat_add_u64(old(self).current_transfer_up, bytes),
    {
        self.current_transfer_up = sat_add64(self.current_transfer_up, bytes);
        self.peer_stats.rpc_stats.messages_sent = sat_add64(
            self.peer_stats.rpc_stats.messages_sent,
            1,
        );
        self.peer_stats.rpc_stats.failed_to_send = 0;
    }

    /// Note that an answer arrived: completes a question in flight, records
    /// the round-trip latency, marks the peer seen, and clears the lost
    /// answer run.
    pub fn answer_rcvd(&mut self, send_ts: u64, recv_ts: u64, bytes: u64)
        requires
            send_ts <= recv_ts,
        ensures
            final(self).peer_stats.rpc_stats == (RPCStats {
                messages_rcvd: sat_add_u64(old(self).peer_stats.rpc_stats.messages_rcvd, 1),
                questions_in_flight: sat_sub_u32(
                    old(self).peer_stats.rpc_stats.questions_in_flight,
                    1,
                ),
                last_seen_ts: Some(recv_ts),
                first_consecutive_seen_ts: if old(
                    self,
                ).peer_stats.rpc_stats.first_consecutive_seen_ts is None {
                    Some(recv_ts)
                } else {
                    old(self).peer_stats.rpc_stats.first_consecutive_seen_ts
                },
                recent_lost_answers: 0,
                ..old(self).peer_stats.rpc_stats
            }),
            final(self).peer_stats.latency is Some,
    {
        self.current_transfer_down = sat_add64(self.current_transfer_down, bytes);
        self.peer_stats.rpc_stats.messages_rcvd = sat_add64(
            self.peer_stats.rpc_stats.messages_rcvd,
            1,
        );
        self.peer_stats.rpc_stats.questions_in_flight = sat_dec_u32(
            self.peer_stats.rpc_stats.questions_in_flight,
        );
        self.record_latency(recv_ts - send_ts);
        self.touch_last_seen(recv_ts);
        self.peer_stats.rpc_stats.recent_lost_answers = 0;
    }

    /// Note that a question timed out without an answer: ends the
    /// consecutive-seen run, completes the question in flight, and counts a
    /// lost answer.
    pub fn question_lost(&mut self)
        ensures
            final(self).peer_stats.rpc_stats == (RPCStats {
                first_consecutive_seen_ts: None,
                questions_in_flight: sat_sub_u32(
                    old(self).peer_stats.rpc_stats.questions_in_flight,
                    1,
                ),
                recent_lost_answers: sat_add_u32(
                    old(self).peer_stats.rpc_stats.recent_lost_answers,
                    1,
                ),
                ..old(self).peer_stats.rpc_stats
            }),
    {
        self.peer_stats.rpc_stats.first_consecutive_seen_ts = None;
        self.peer_stats.rpc_stats.questions_in_flight = sat_dec_u32(
            self.peer_stats.rpc_stats.questions_in_flight,
        );
        self.peer_stats.rpc_stats.recent_lost_answers = sat_inc_u32(
            self.peer_stats.rpc_stats.recent_lost_answers,
        );
    }

    /// Note that a send failed before reaching the transport: counts the
    /// failure and ends the consecutive-seen run.
    pub fn failed_to_send(&mut self, ts: u64, expects_answer: bool)
        ensures
            final(self).peer_stats.rpc_stats == (RPCStats {
                last_question: if expects_answer {
                    Some(ts)
                } else {
                    old(self).peer_stats.rpc_stats.last_question
                },
                failed_to_send: sat_add_u32(old(self).peer_stats.rpc_stats.failed_to_send, 1),
                first_consecutive_seen_ts: None,
                ..old(self).peer_stats.rpc_stats
            }),
    {
        if expects_answer {
            self.peer_stats.rpc_stats.last_question = Some(ts);
        }
        self.peer_stats.rpc_stats.failed_to_send = sat_inc_u32(
            self.peer_stats.rpc_stats.failed_to_send,
        );
        self.peer_stats.rpc_stats.first_consecutive_seen_ts = None;
    }

    /// Whether this peer has seen our node info.
    pub fn has_seen_our_node_info(&self) -> (r: bool)
        ensures
            r == self.seen_our_node_info,
    {
        self.seen_our_node_info
    }

    pub fn set_seen_our_node_info(&mut self, seen: bool)
        ensures
            *final(self) == (BucketEntryInner { seen_our_node_info: seen, ..*old(self) }),
    {
        self.seen_our_node_info = seen;
    }

    pub fn peer_stats(&self) -> (r: &PeerStats)
        ensures
            r == self.peer_stats,
    {
        &self.peer_stats
    }

    /// Fold the bytes accumulated since the last roll into the transfer
    /// totals and reset the accumulators.
    pub fn roll_transfers(&mut self, last_ts: u64, cur_ts: u64)
        ensures
            final(self).peer_stats.transfer.up.total == sat_add_u64(
                old(self).peer_stats.transfer.up.total,
                old(self).current_transfer_up,
            ),
            final(self).peer_stats.transfer.down.total == sat_add_u64(
                old(self).peer_stats.transfer.down.total,
                old(self).current_transfer_down,
            ),
            final(self).current_transfer_up == 0,
            final(self).current_transfer_down == 0,
            final(self).peer_stats.rpc_stats == old(self).peer_stats.rpc_stats,
    {
        let up = self.current_transfer_up;
        let down = self.current_transfer_down;
        let elapsed_secs = timestamp_saturating_sub(cur_ts, last_ts) / MICROS_PER_SEC;
        let divisor = if elapsed_secs == 0 {
            1
        } else {
            elapsed_secs
        };
        let up_rate = up / divisor;
        let down_rate = down / divisor;
        self.peer_stats.transfer.up = TransferStats {
            total: sat_add64(self.peer_stats.transfer.up.total, up),
            maximum: if up_rate > self.peer_stats.transfer.up.maximum {
                up_rate
            } else {
                self.peer_stats.transfer.up.maximum
            },
            minimum: if up_rate < self.peer_stats.transfer.up.minimum {
                up_rate
            } else {
                self.peer_stats.transfer.up.minimum
            },
            average: up_rate,
        };
        self.peer_stats.transfer.down = TransferStats {
            total: sat_add64(self.peer_stats.transfer.down.total, down),
            maximum: if down_rate > self.peer_stats.transfer.down.maximum {
                down_rate
            } else {
                self.peer_stats.transfer.down.maximum
            },
            minimum: if down_rate < self.peer_stats.transfer.down.minimum {
                down_rate
            } else {
                self.peer_stats.transfer.down.minimum
            },
            average: down_rate,
        };
        self.current_transfer_up = 0;
        self.current_transfer_down = 0;
    }
}

/// Which ping cadence applies and whether a ping is due, as a single spec.
pub open spec fn spec_needs_ping(s: RPCStats, cur_ts: u64, is_our_relay: bool) -> bool {
    if is_our_relay {
        spec_needs_constant_ping(s, cur_ts, KEEPALIVE_PING_INTERVAL_SECS as u64)
    } else {
        match spec_entry_state(s, cur_ts) {
            BucketEntryState::Reliable => match spec_opt_max(s.last_seen_ts, s.last_question) {
                None => true,
                Some(latest) => match s.first_consecutive_seen_ts {
                    None => true,
                    Some(f) => {
                        let start = sat_add_u64(
                            f,
                            ((UNRELIABLE_PING_SPAN_SECS - UNRELIABLE_PING_INTERVAL_SECS) as u64
                                * MICROS_PER_SEC) as u64,
                        );
                        spec_retry_falloff_log(
                            spec_sat_sub64(latest, start),
                            spec_sat_sub64(cur_ts, start),
                            (RELIABLE_PING_INTERVAL_START_SECS as u64 * MICROS_PER_SEC) as u64,
                            (RELIABLE_PING_INTERVAL_MAX_SECS as u64 * MICROS_PER_SEC) as u64,
                        )
                    },
                },
            },
            BucketEntryState::Unreliable => spec_needs_constant_ping(
                s,
                cur_ts,
                UNRELIABLE_PING_INTERVAL_SECS as u64,
            ),
            BucketEntryState::Dead => false,
        }
    }
}

pub open spec fn spec_needs_constant_ping(s: RPCStats, cur_ts: u64, interval_secs: u64) -> bool {
    match spec_opt_max(s.last_seen_ts, s.last_question) {
        None => true,
        Some(latest) => spec_sat_sub64(cur_ts, latest) >= interval_secs * MICROS_PER_SEC,
    }
}

} // verus!
