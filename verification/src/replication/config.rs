//! The settings of replication.
//!
//! A configuration is checked before it is used. The deadline of an audit grows with the number of
//! bytes that an honest peer has to read from its own disk, so that a peer which has to fetch them
//! first misses it.

use crate::ant_protocol::{CLOSE_GROUP_SIZE, MAX_CHUNK_SIZE};
use crate::roots;
use crate::text::{decimal, decimal_text};
use crate::time::{Duration, MAX_SPAN_NANOS, NANOS_PER_MILLI, NANOS_PER_SEC};
use vstd::prelude::*;
use vstd::string::*;

verus! {

/// Peers in a bucket of the routing table.
pub const K_BUCKET_SIZE: usize = 20;

/// Votes that prove a key's presence in a full network.
pub const QUORUM_THRESHOLD: usize = 4;

/// Peers that track whether a key is paid for.
pub const PAID_LIST_CLOSE_GROUP_SIZE: usize = 20;

/// Closest peers that a node syncs with.
pub const NEIGHBOR_SYNC_SCOPE: usize = 20;

/// Peers that a node syncs with in one round.
pub const NEIGHBOR_SYNC_PEER_COUNT: usize = 4;

/// Least seconds between rounds of sync.
pub const NEIGHBOR_SYNC_INTERVAL_MIN_SECS: u64 = 600;

/// Most seconds between rounds of sync.
pub const NEIGHBOR_SYNC_INTERVAL_MAX_SECS: u64 = 1200;

/// Least seconds between syncs with one peer.
pub const NEIGHBOR_SYNC_COOLDOWN_SECS: u64 = 3600;

/// Least seconds between lookups of the node itself.
pub const SELF_LOOKUP_INTERVAL_MIN_SECS: u64 = 300;

/// Most seconds between lookups of the node itself.
pub const SELF_LOOKUP_INTERVAL_MAX_SECS: u64 = 600;

/// Chunks that a node sends at the same time.
pub const MAX_CONCURRENT_REPLICATION_SENDS: usize = 3;

/// Least seconds between ticks of the audit scheduler.
pub const AUDIT_TICK_INTERVAL_MIN_SECS: u64 = 600;

/// Most seconds between ticks of the audit scheduler.
pub const AUDIT_TICK_INTERVAL_MAX_SECS: u64 = 1200;

/// Seconds that any answer to an audit may take.
pub const AUDIT_RESPONSE_FLOOR_SECS: u64 = 2;

/// Bytes that an honest peer reads from its disk in a second, at least.
pub const AUDIT_HONEST_READ_BPS: u64 = 52_428_800;

/// How much slower than that an honest peer may be.
pub const AUDIT_RESPONSE_HONEST_MULTIPLIER: u64 = 5;

/// Seconds that the answer to a prune audit may take.
pub const PRUNE_AUDIT_RESPONSE_SECS: u64 = 10;

/// Seconds for which a peer may claim to be starting up.
pub const BOOTSTRAP_CLAIM_GRACE_PERIOD_SECS: u64 = 86_400;

/// Seconds for which a key must be out of range before it is pruned.
pub const PRUNE_HYSTERESIS_DURATION_SECS: u64 = 259_200;

/// The name of the replication protocol.
pub const REPLICATION_PROTOCOL_ID: &'static str = "autonomi.ant.replication.v1";

/// Bytes in the largest message.
pub const MAX_REPLICATION_MESSAGE_SIZE: usize = 10_485_760;

/// Seconds that a verification request may take.
pub const VERIFICATION_REQUEST_TIMEOUT_SECS: u64 = 15;

/// Seconds that a fetch may take.
pub const FETCH_REQUEST_TIMEOUT_SECS: u64 = 30;

/// Seconds for which a key may wait to be verified.
pub const PENDING_VERIFY_MAX_AGE_SECS: u64 = 1800;

/// Challenges that one pass of pruning sends, at most.
pub const MAX_PRUNE_AUDIT_CHALLENGES_PER_PASS: usize = 64;

/// Seconds to wait for the network before the first sync.
pub const BOOTSTRAP_COMPLETE_TIMEOUT_SECS: u64 = 60;

/// Audits in a row that a peer may miss in a healthy network.
pub const AUDIT_TIMEOUT_STRIKE_THRESHOLD: u32 = 3;

/// Least seconds between audits of one peer.
pub const AUDIT_ON_GOSSIP_COOLDOWN_SECS: u64 = 1800;

/// How much a confirmed failed audit weighs against a peer.
pub const AUDIT_FAILURE_TRUST_WEIGHT: u32 = 5;

/// How much any other success or failure weighs.
pub const REPLICATION_TRUST_WEIGHT: u32 = 1;

/// Of a hundred times that a peer may be audited, how often it is.
pub const AUDIT_ON_GOSSIP_PERCENT: u32 = 20;

/// Leaves that a spot check asks for.
pub const AUDIT_SPOTCHECK_COUNT: u32 = 8;

/// Leaves for which the deadline of an audit is sized where its branch is not known.
pub const SUBTREE_AUDIT_TIMEOUT_LEAF_HINT: usize = 1000;

/// Blocks that one slice challenge may open.
pub const MAX_SLICE_OPENINGS: usize = 8;

/// The settings of replication.
#[derive(Clone, Copy, Debug)]
pub struct ReplicationConfig {
    /// Peers that are responsible for a key.
    pub close_group_size: usize,
    /// Votes that prove a key's presence.
    pub quorum_threshold: usize,
    /// Peers that track whether a key is paid for.
    pub paid_list_close_group_size: usize,
    /// Closest peers that a node syncs with.
    pub neighbor_sync_scope: usize,
    /// Peers that a node syncs with in one round.
    pub neighbor_sync_peer_count: usize,
    /// Least time between rounds of sync.
    pub neighbor_sync_interval_min: Duration,
    /// Most time between rounds of sync.
    pub neighbor_sync_interval_max: Duration,
    /// Least time between syncs with one peer.
    pub neighbor_sync_cooldown: Duration,
    /// Least time between lookups of the node itself.
    pub self_lookup_interval_min: Duration,
    /// Most time between lookups of the node itself.
    pub self_lookup_interval_max: Duration,
    /// Least time between ticks of the audit scheduler.
    pub audit_tick_interval_min: Duration,
    /// Most time between ticks of the audit scheduler.
    pub audit_tick_interval_max: Duration,
    /// Time that any answer to an audit may take.
    pub audit_response_floor: Duration,
    /// Bytes that an honest peer reads in a second.
    pub audit_honest_read_bps: u64,
    /// How much slower than that an honest peer may be.
    pub audit_response_honest_multiplier: u64,
    /// Time that the answer to a prune audit may take.
    pub prune_audit_response_timeout: Duration,
    /// Time for which a peer may claim to be starting up.
    pub bootstrap_claim_grace_period: Duration,
    /// Time for which a key must be out of range before it is pruned.
    pub prune_hysteresis_duration: Duration,
    /// Time that a verification request may take.
    pub verification_request_timeout: Duration,
    /// Time that a fetch may take.
    pub fetch_request_timeout: Duration,
    /// Seconds to wait for the network before the first sync.
    pub bootstrap_complete_timeout_secs: u64,
}

/// Fetches at a time where the machine does not say how many threads it has.
pub const AVAILABLE_PARALLELISM_FALLBACK: usize = 4;

/// How many fetches may run at a time on a machine with so many threads.
pub fn max_parallel_fetch(available_threads: Option<usize>) -> (fetches: usize)
    ensures
        fetches == match available_threads {
            Some(threads) => threads,
            None => AVAILABLE_PARALLELISM_FALLBACK,
        },
{
    match available_threads {
        Some(threads) => threads,
        None => AVAILABLE_PARALLELISM_FALLBACK,
    }
}

/// A span of whole seconds.
pub open spec fn seconds(secs: u64) -> Duration {
    Duration { nanos: (secs * NANOS_PER_SEC) as u128 }
}

/// The settings that a node has unless it is told otherwise.
pub open spec fn default_config() -> ReplicationConfig {
    ReplicationConfig {
        close_group_size: CLOSE_GROUP_SIZE,
        quorum_threshold: QUORUM_THRESHOLD,
        paid_list_close_group_size: PAID_LIST_CLOSE_GROUP_SIZE,
        neighbor_sync_scope: NEIGHBOR_SYNC_SCOPE,
        neighbor_sync_peer_count: NEIGHBOR_SYNC_PEER_COUNT,
        neighbor_sync_interval_min: seconds(NEIGHBOR_SYNC_INTERVAL_MIN_SECS),
        neighbor_sync_interval_max: seconds(NEIGHBOR_SYNC_INTERVAL_MAX_SECS),
        neighbor_sync_cooldown: seconds(NEIGHBOR_SYNC_COOLDOWN_SECS),
        self_lookup_interval_min: seconds(SELF_LOOKUP_INTERVAL_MIN_SECS),
        self_lookup_interval_max: seconds(SELF_LOOKUP_INTERVAL_MAX_SECS),
        audit_tick_interval_min: seconds(AUDIT_TICK_INTERVAL_MIN_SECS),
        audit_tick_interval_max: seconds(AUDIT_TICK_INTERVAL_MAX_SECS),
        audit_response_floor: seconds(AUDIT_RESPONSE_FLOOR_SECS),
        audit_honest_read_bps: AUDIT_HONEST_READ_BPS,
        audit_response_honest_multiplier: AUDIT_RESPONSE_HONEST_MULTIPLIER,
        prune_audit_response_timeout: seconds(PRUNE_AUDIT_RESPONSE_SECS),
        bootstrap_claim_grace_period: seconds(BOOTSTRAP_CLAIM_GRACE_PERIOD_SECS),
        prune_hysteresis_duration: seconds(PRUNE_HYSTERESIS_DURATION_SECS),
        verification_request_timeout: seconds(VERIFICATION_REQUEST_TIMEOUT_SECS),
        fetch_request_timeout: seconds(FETCH_REQUEST_TIMEOUT_SECS),
        bootstrap_complete_timeout_secs: BOOTSTRAP_COMPLETE_TIMEOUT_SECS,
    }
}

impl Default for ReplicationConfig {
    fn default() -> (config: Self)
        ensures
            config == default_config(),
    {
        ReplicationConfig {
            close_group_size: CLOSE_GROUP_SIZE,
            quorum_threshold: QUORUM_THRESHOLD,
            paid_list_close_group_size: PAID_LIST_CLOSE_GROUP_SIZE,
            neighbor_sync_scope: NEIGHBOR_SYNC_SCOPE,
            neighbor_sync_peer_count: NEIGHBOR_SYNC_PEER_COUNT,
            neighbor_sync_interval_min: Duration::from_secs(NEIGHBOR_SYNC_INTERVAL_MIN_SECS),
            neighbor_sync_interval_max: Duration::from_secs(NEIGHBOR_SYNC_INTERVAL_MAX_SECS),
            neighbor_sync_cooldown: Duration::from_secs(NEIGHBOR_SYNC_COOLDOWN_SECS),
            self_lookup_interval_min: Duration::from_secs(SELF_LOOKUP_INTERVAL_MIN_SECS),
            self_lookup_interval_max: Duration::from_secs(SELF_LOOKUP_INTERVAL_MAX_SECS),
            audit_tick_interval_min: Duration::from_secs(AUDIT_TICK_INTERVAL_MIN_SECS),
            audit_tick_interval_max: Duration::from_secs(AUDIT_TICK_INTERVAL_MAX_SECS),
            audit_response_floor: Duration::from_secs(AUDIT_RESPONSE_FLOOR_SECS),
            audit_honest_read_bps: AUDIT_HONEST_READ_BPS,
            audit_response_honest_multiplier: AUDIT_RESPONSE_HONEST_MULTIPLIER,
            prune_audit_response_timeout: Duration::from_secs(PRUNE_AUDIT_RESPONSE_SECS),
            bootstrap_claim_grace_period: Duration::from_secs(BOOTSTRAP_CLAIM_GRACE_PERIOD_SECS),
            prune_hysteresis_duration: Duration::from_secs(PRUNE_HYSTERESIS_DURATION_SECS),
            verification_request_timeout: Duration::from_secs(VERIFICATION_REQUEST_TIMEOUT_SECS),
            fetch_request_timeout: Duration::from_secs(FETCH_REQUEST_TIMEOUT_SECS),
            bootstrap_complete_timeout_secs: BOOTSTRAP_COMPLETE_TIMEOUT_SECS,
        }
    }
}

/// The text that a span of whole seconds and some nanoseconds is shown as.
pub uninterp spec fn span_text(secs: u64, subsec_nanos: u32) -> Seq<char>;

/// The debug text of `std::time::Duration`, such as `100s`. It depends on the span alone.
#[verifier::external_body]
fn show_std_span(secs: u64, subsec_nanos: u32) -> (text: String)
    requires
        subsec_nanos < 1_000_000_000,
    ensures
        text@ == span_text(secs, subsec_nanos),
{
    format!("{:?}", std::time::Duration::new(secs, subsec_nanos))
}

/// The text that a span is shown as.
pub open spec fn shown(span: Duration) -> Seq<char> {
    span_text((span.nanos / NANOS_PER_SEC) as u64, (span.nanos % NANOS_PER_SEC) as u32)
}

/// Show a span.
fn show_span(span: Duration) -> (text: String)
    requires
        span.in_range(),
    ensures
        text@ == shown(span),
{
    show_std_span(span.as_secs(), (span.nanos % NANOS_PER_SEC) as u32)
}

/// What is said where the settings for the quorum do not fit each other.
pub open spec fn quorum_message(threshold: usize, group: usize) -> Seq<char> {
    "quorum_threshold ("@ + decimal(threshold as nat)
        + ") must satisfy 1 <= quorum_threshold <= close_group_size ("@ + decimal(group as nat)
        + ")"@
}

/// What is said where a close group is larger than a pass of pruning can challenge.
pub open spec fn prune_message(group: usize) -> Seq<char> {
    "close_group_size ("@ + decimal(group as nat)
        + ") must be <= MAX_PRUNE_AUDIT_CHALLENGES_PER_PASS ("@ + decimal(
        MAX_PRUNE_AUDIT_CHALLENGES_PER_PASS as nat,
    ) + ")"@
}

/// What is said where the least time of an interval is above the most.
pub open spec fn interval_message(
    least: Seq<char>,
    middle: Seq<char>,
    min: Duration,
    max: Duration,
) -> Seq<char> {
    least + shown(min) + middle + shown(max) + ")"@
}

/// What is wrong with a configuration first, in the words that say so; nothing where all is well.
pub open spec fn violation(c: ReplicationConfig) -> Option<Seq<char>> {
    if c.close_group_size == 0 {
        Some("close_group_size must be >= 1"@)
    } else if c.quorum_threshold == 0 || c.quorum_threshold > c.close_group_size {
        Some(quorum_message(c.quorum_threshold, c.close_group_size))
    } else if c.close_group_size > MAX_PRUNE_AUDIT_CHALLENGES_PER_PASS {
        Some(prune_message(c.close_group_size))
    } else if c.paid_list_close_group_size == 0 {
        Some("paid_list_close_group_size must be >= 1"@)
    } else if c.neighbor_sync_interval_min.nanos > c.neighbor_sync_interval_max.nanos {
        Some(
            interval_message(
                "neighbor_sync_interval_min ("@,
                ") must be <= neighbor_sync_interval_max ("@,
                c.neighbor_sync_interval_min,
                c.neighbor_sync_interval_max,
            ),
        )
    } else if c.audit_tick_interval_min.nanos > c.audit_tick_interval_max.nanos {
        Some(
            interval_message(
                "audit_tick_interval_min ("@,
                ") must be <= audit_tick_interval_max ("@,
                c.audit_tick_interval_min,
                c.audit_tick_interval_max,
            ),
        )
    } else if c.self_lookup_interval_min.nanos > c.self_lookup_interval_max.nanos {
        Some(
            interval_message(
                "self_lookup_interval_min ("@,
                ") must be <= self_lookup_interval_max ("@,
                c.self_lookup_interval_min,
                c.self_lookup_interval_max,
            ),
        )
    } else if c.neighbor_sync_peer_count == 0 {
        Some("neighbor_sync_peer_count must be >= 1"@)
    } else if c.neighbor_sync_scope == 0 {
        Some("neighbor_sync_scope must be >= 1"@)
    } else {
        None
    }
}

/// Whether the spans of a configuration are no longer than the longest span.
pub open spec fn spans_in_range(c: ReplicationConfig) -> bool {
    &&& c.neighbor_sync_interval_min.in_range()
    &&& c.neighbor_sync_interval_max.in_range()
    &&& c.audit_tick_interval_min.in_range()
    &&& c.audit_tick_interval_max.in_range()
    &&& c.self_lookup_interval_min.in_range()
    &&& c.self_lookup_interval_max.in_range()
}

/// Put the words together that an inverted interval is refused with.
fn describe_interval(least: &str, middle: &str, min: Duration, max: Duration) -> (text: String)
    requires
        min.in_range(),
        max.in_range(),
    ensures
        text@ == interval_message(least@, middle@, min, max),
{
    let mut text = least.to_owned();
    text.append(show_span(min).as_str());
    text.append(middle);
    text.append(show_span(max).as_str());
    text.append(")");
    text
}

/// The votes that prove a key's presence among `targets` peers: the threshold, or a majority where
/// that is less; none where nobody can vote.
pub open spec fn votes_needed(threshold: usize, targets: usize) -> int {
    if targets == 0 {
        0
    } else if threshold <= targets / 2 + 1 {
        threshold as int
    } else {
        targets / 2 + 1
    }
}

/// The keys that an audit samples of `total`: the square root, rounded down, but one at least,
/// where there are any.
pub open spec fn sample_of(total: usize) -> int {
    if total == 0 {
        0
    } else {
        roots::floor_sqrt(total as nat) as int
    }
}

/// A number, or the largest 64-bit one where it is larger.
pub open spec fn at_most_u64(n: int) -> int {
    if n <= u64::MAX {
        n
    } else {
        u64::MAX as int
    }
}

/// The seconds that reading `keys` chunks may take.
pub open spec fn read_secs(c: ReplicationConfig, keys: usize) -> int {
    at_most_u64(at_most_u64(MAX_CHUNK_SIZE * keys) * c.audit_response_honest_multiplier) / (
    if c.audit_honest_read_bps == 0 {
        1
    } else {
        c.audit_honest_read_bps as int
    })
}

/// The nanoseconds that the answer to an audit of `keys` keys may take.
pub open spec fn response_nanos(c: ReplicationConfig, keys: usize) -> int {
    let nanos = c.audit_response_floor.nanos + read_secs(c, keys) * NANOS_PER_SEC;
    if nanos <= MAX_SPAN_NANOS {
        nanos
    } else {
        MAX_SPAN_NANOS as int
    }
}

/// The whole milliseconds of a span, or the largest 64-bit number where there are more.
pub open spec fn span_millis(span: Duration) -> int {
    at_most_u64(span.nanos as int / NANOS_PER_MILLI as int)
}

/// The settings that a node has unless it is told otherwise are in order.
pub proof fn default_config_is_valid()
    ensures
        violation(default_config()) is None,
        spans_in_range(default_config()),
{
}

/// A quorum is never more than can vote, and with a threshold it is at least one vote. It is no
/// more than a strict majority.
pub proof fn quorum_is_attainable(threshold: usize, targets: usize)
    requires
        targets > 0,
    ensures
        votes_needed(threshold, targets) <= targets,
        votes_needed(threshold, targets) <= threshold,
        threshold > 0 ==> votes_needed(threshold, targets) > 0,
        threshold > targets / 2 ==> 2 * votes_needed(threshold, targets) > targets,
{
}

/// Two majorities of a paid list always share a peer.
pub proof fn paid_confirmations_overlap(group: usize)
    ensures
        2 * (group / 2 + 1) > group,
{
}

/// The votes that are needed are the threshold or a majority of those who can vote, whichever is
/// less; nobody has to vote where nobody can.
pub proof fn quorum_is_threshold_or_majority(threshold: usize, targets: usize)
    ensures
        targets == 0 ==> votes_needed(threshold, targets) == 0,
        targets > 0 ==> votes_needed(threshold, targets) <= threshold && votes_needed(
            threshold,
            targets,
        ) <= targets / 2 + 1 && (votes_needed(threshold, targets) == threshold || votes_needed(
            threshold,
            targets,
        ) == targets / 2 + 1),
{
}

/// An audit samples the square root of the keys, rounded down: so many that their square is not
/// above the number of keys, and that of one more is. Of any keys at all it samples one at least.
pub proof fn sample_is_whole_root(total: usize)
    ensures
        0 <= sample_of(total),
        sample_of(total) * sample_of(total) <= total < (sample_of(total) + 1) * (sample_of(total)
            + 1),
        total > 0 ==> sample_of(total) >= 1,
{
    roots::floor_sqrt_bounds(total as nat);
    if total == 0 {
        assert(0 * 0 == 0 && (0 + 1) * (0 + 1) == 1) by (nonlinear_arith);
    } else {
        let r = sample_of(total);
        if r == 0 {
            assert((r + 1) * (r + 1) == 1) by (nonlinear_arith)
                requires
                    r == 0,
            ;
        }
    }
}

/// An answer may take as long as the floor and, in whole seconds, the time in which an honest peer
/// reads the largest chunk for every key, so many times over as it may be slower. This is exact
/// wherever the numbers fit.
pub proof fn deadline_is_time_to_read(c: ReplicationConfig, keys: usize)
    requires
        c.audit_honest_read_bps > 0,
        4_194_304 * keys * c.audit_response_honest_multiplier <= 0xffff_ffff_ffff_0000,
        4_194_304 * keys <= 0xffff_ffff_ffff_0000,
        c.audit_response_floor.nanos <= 1_000_000_000_000,
    ensures
        response_nanos(c, keys) == c.audit_response_floor.nanos + 4_194_304 * keys
            * c.audit_response_honest_multiplier / (c.audit_honest_read_bps as int)
            * 1_000_000_000,
{
    let total = 4_194_304 * keys * c.audit_response_honest_multiplier;
    let bps = c.audit_honest_read_bps as int;
    assert(total >= 0) by (nonlinear_arith)
        requires
            total == 4_194_304 * keys * c.audit_response_honest_multiplier,
            keys >= 0,
            c.audit_response_honest_multiplier >= 0,
    ;
    assert(total / bps <= total) by (nonlinear_arith)
        requires
            total >= 0,
            bps >= 1,
    ;
    assert(total / bps >= 0) by (nonlinear_arith)
        requires
            total >= 0,
            bps >= 1,
    ;
}

/// Settings are in order just where the quorum is at least one and no more than the close group,
/// the close group is no more than a pass of pruning can challenge, no group or count is empty, and
/// no interval is inverted.
pub proof fn settings_are_in_order(c: ReplicationConfig)
    ensures
        violation(c) is None <==> {
            &&& 1 <= c.quorum_threshold <= c.close_group_size <= 64
            &&& c.paid_list_close_group_size >= 1
            &&& c.neighbor_sync_peer_count >= 1
            &&& c.neighbor_sync_scope >= 1
            &&& c.neighbor_sync_interval_min.nanos <= c.neighbor_sync_interval_max.nanos
            &&& c.audit_tick_interval_min.nanos <= c.audit_tick_interval_max.nanos
            &&& c.self_lookup_interval_min.nanos <= c.self_lookup_interval_max.nanos
        },
{
}

/// The first setting that does not fit is the one that is named.
pub proof fn first_violation_is_named(c: ReplicationConfig)
    ensures
        c.close_group_size == 0 ==> violation(c) == Some("close_group_size must be >= 1"@),
        c.close_group_size > 0 && !(1 <= c.quorum_threshold <= c.close_group_size) ==> violation(c)
            == Some(
            "quorum_threshold ("@ + decimal(c.quorum_threshold as nat)
                + ") must satisfy 1 <= quorum_threshold <= close_group_size ("@ + decimal(
                c.close_group_size as nat,
            ) + ")"@,
        ),
        1 <= c.quorum_threshold <= c.close_group_size && c.close_group_size > 64 ==> violation(c)
            == Some(
            "close_group_size ("@ + decimal(c.close_group_size as nat)
                + ") must be <= MAX_PRUNE_AUDIT_CHALLENGES_PER_PASS ("@ + decimal(64) + ")"@,
        ),
        1 <= c.quorum_threshold <= c.close_group_size <= 64 && c.paid_list_close_group_size == 0
            ==> violation(c) == Some("paid_list_close_group_size must be >= 1"@),
        1 <= c.quorum_threshold <= c.close_group_size <= 64 && c.paid_list_close_group_size > 0
            ==> {
            let sync = c.neighbor_sync_interval_min.nanos <= c.neighbor_sync_interval_max.nanos;
            let tick = c.audit_tick_interval_min.nanos <= c.audit_tick_interval_max.nanos;
            let lookup = c.self_lookup_interval_min.nanos <= c.self_lookup_interval_max.nanos;
            &&& !sync ==> violation(c) == Some(
                "neighbor_sync_interval_min ("@ + shown(c.neighbor_sync_interval_min)
                    + ") must be <= neighbor_sync_interval_max ("@ + shown(
                    c.neighbor_sync_interval_max,
                ) + ")"@,
            )
            &&& sync && !tick ==> violation(c) == Some(
                "audit_tick_interval_min ("@ + shown(c.audit_tick_interval_min)
                    + ") must be <= audit_tick_interval_max ("@ + shown(c.audit_tick_interval_max)
                    + ")"@,
            )
            &&& sync && tick && !lookup ==> violation(c) == Some(
                "self_lookup_interval_min ("@ + shown(c.self_lookup_interval_min)
                    + ") must be <= self_lookup_interval_max ("@ + shown(
                    c.self_lookup_interval_max,
                ) + ")"@,
            )
            &&& sync && tick && lookup && c.neighbor_sync_peer_count == 0 ==> violation(c) == Some(
                "neighbor_sync_peer_count must be >= 1"@,
            )
            &&& sync && tick && lookup && c.neighbor_sync_peer_count > 0 && c.neighbor_sync_scope
                == 0 ==> violation(c) == Some("neighbor_sync_scope must be >= 1"@)
        },
{
}

/// A random span lies between its bounds, in whole milliseconds but where it is the least one.
pub proof fn random_span_keeps_bounds(span: Duration, min: Duration, max: Duration)
    requires
        lies_between(span, min, max),
    ensures
        min.nanos <= span.nanos <= max.nanos,
        span.nanos == min.nanos || span.nanos as int % 1_000_000 == 0,
{
}

/// What a node does unless it is told otherwise.
pub proof fn default_settings()
    ensures
        ({
            let c = default_config();
            let sec = 1_000_000_000int;
            &&& c.close_group_size == 7
            &&& c.quorum_threshold == 4
            &&& c.paid_list_close_group_size == 20
            &&& c.neighbor_sync_scope == 20
            &&& c.neighbor_sync_peer_count == 4
            &&& c.neighbor_sync_interval_min.nanos == 600 * sec
            &&& c.neighbor_sync_interval_max.nanos == 1200 * sec
            &&& c.neighbor_sync_cooldown.nanos == 3600 * sec
            &&& c.self_lookup_interval_min.nanos == 300 * sec
            &&& c.self_lookup_interval_max.nanos == 600 * sec
            &&& c.audit_tick_interval_min.nanos == 600 * sec
            &&& c.audit_tick_interval_max.nanos == 1200 * sec
            &&& c.audit_response_floor.nanos == 2 * sec
            &&& c.audit_honest_read_bps == 52_428_800
            &&& c.audit_response_honest_multiplier == 5
            &&& c.prune_audit_response_timeout.nanos == 10 * sec
            &&& c.bootstrap_claim_grace_period.nanos == 86_400 * sec
            &&& c.prune_hysteresis_duration.nanos == 259_200 * sec
            &&& c.verification_request_timeout.nanos == 15 * sec
            &&& c.fetch_request_timeout.nanos == 30 * sec
            &&& c.bootstrap_complete_timeout_secs == 60
        }),
{
}

/// An audit of more keys never has an earlier deadline.
pub proof fn deadline_grows_with_keys(c: ReplicationConfig, fewer: usize, more: usize)
    requires
        fewer <= more,
    ensures
        response_nanos(c, fewer) <= response_nanos(c, more),
        c.audit_response_floor.nanos <= MAX_SPAN_NANOS ==> c.audit_response_floor.nanos
            <= response_nanos(c, fewer),
{
    let bps = if c.audit_honest_read_bps == 0 {
        1
    } else {
        c.audit_honest_read_bps as int
    };
    let a = at_most_u64(MAX_CHUNK_SIZE * fewer);
    let b = at_most_u64(MAX_CHUNK_SIZE * more);
    let m = c.audit_response_honest_multiplier as int;
    assert(a * m <= b * m) by (nonlinear_arith)
        requires
            a <= b,
            m >= 0,
    ;
    assert(a * m >= 0) by (nonlinear_arith)
        requires
            a >= 0,
            m >= 0,
    ;
    vstd::arithmetic::div_mod::lemma_div_is_ordered(at_most_u64(a * m), at_most_u64(b * m), bps);
    vstd::arithmetic::div_mod::lemma_div_pos_is_pos(at_most_u64(a * m), bps);
}

/// The product of two numbers, or the largest one where it is larger.
fn saturating_product(a: u64, b: u64) -> (product: u64)
    ensures
        product == at_most_u64(a * b),
{
    match a.checked_mul(b) {
        Some(product) => product,
        None => u64::MAX,
    }
}

/// The whole milliseconds of a span.
fn whole_millis(span: Duration) -> (millis: u64)
    ensures
        millis == span_millis(span),
{
    let millis: u128 = span.as_millis();
    if millis <= u64::MAX as u128 {
        millis as u64
    } else {
        u64::MAX
    }
}

/// `rand::Rng::gen_range` on the thread's generator: a number from `low` to `high`, both included.
/// Which one is left to chance.
#[verifier::external_body]
fn random_between(low: u64, high: u64) -> (drawn: u64)
    requires
        low <= high,
    ensures
        low <= drawn <= high,
{
    rand::Rng::gen_range(&mut rand::thread_rng(), low..=high)
}

/// A span of `drawn` milliseconds, or the nearest bound where that lies outside the bounds.
pub fn interval_from_draw(min: Duration, max: Duration, drawn: u64) -> (span: Duration)
    requires
        min.nanos <= max.nanos,
    ensures
        min.nanos <= span.nanos <= max.nanos,
        min == max ==> span == min,
        span.nanos == if drawn * NANOS_PER_MILLI < min.nanos {
            min.nanos as int
        } else if drawn * NANOS_PER_MILLI > max.nanos {
            max.nanos as int
        } else {
            drawn * NANOS_PER_MILLI
        },
{
    let span = Duration::from_millis(drawn);
    if span.nanos < min.nanos {
        min
    } else if span.nanos > max.nanos {
        max
    } else {
        span
    }
}

/// Whether a random span may lie between `min` and `max`: inside these bounds, and in whole
/// milliseconds but where it is the least one.
pub open spec fn lies_between(span: Duration, min: Duration, max: Duration) -> bool {
    &&& min.nanos <= span.nanos <= max.nanos
    &&& min == max ==> span == min
    &&& span == min || span.nanos as int % NANOS_PER_MILLI as int == 0
}

/// Pick a random span between `min` and `max`, in steps of a millisecond.
fn random_duration_in_range(min: Duration, max: Duration) -> (span: Duration)
    requires
        min.nanos <= max.nanos,
    ensures
        lies_between(span, min, max),
{
    let drawn: u64 = random_between(whole_millis(min), whole_millis(max));
    let span = interval_from_draw(min, max, drawn);
    proof {
        assert((drawn * NANOS_PER_MILLI) as int % NANOS_PER_MILLI as int == 0) by {
            vstd::arithmetic::div_mod::lemma_mod_multiples_basic(
                drawn as int,
                NANOS_PER_MILLI as int,
            );
        }
    }
    span
}

impl ReplicationConfig {
    /// Whether the spans of the settings are no longer than the longest span.
    pub fn spans_fit(&self) -> (fit: bool)
        ensures
            fit == spans_in_range(*self),
    {
        self.neighbor_sync_interval_min.nanos <= MAX_SPAN_NANOS
            && self.neighbor_sync_interval_max.nanos <= MAX_SPAN_NANOS
            && self.audit_tick_interval_min.nanos <= MAX_SPAN_NANOS
            && self.audit_tick_interval_max.nanos <= MAX_SPAN_NANOS
            && self.self_lookup_interval_min.nanos <= MAX_SPAN_NANOS
            && self.self_lookup_interval_max.nanos <= MAX_SPAN_NANOS
    }

    /// Check the settings. The first one that does not fit is named in the error.
    pub fn validate(&self) -> (checked: Result<(), String>)
        requires
            spans_in_range(*self),
        ensures
            match checked {
                Ok(()) => violation(*self) is None,
                Err(message) => violation(*self) == Some(message@),
            },
    {
        if self.close_group_size == 0 {
            return Err("close_group_size must be >= 1".to_owned());
        }
        if self.quorum_threshold == 0 || self.quorum_threshold > self.close_group_size {
            let mut text = "quorum_threshold (".to_owned();
            text.append(decimal_text(self.quorum_threshold as u64).as_str());
            text.append(") must satisfy 1 <= quorum_threshold <= close_group_size (");
            text.append(decimal_text(self.close_group_size as u64).as_str());
            text.append(")");
            return Err(text);
        }
        if self.close_group_size > MAX_PRUNE_AUDIT_CHALLENGES_PER_PASS {
            let mut text = "close_group_size (".to_owned();
            text.append(decimal_text(self.close_group_size as u64).as_str());
            text.append(") must be <= MAX_PRUNE_AUDIT_CHALLENGES_PER_PASS (");
            text.append(decimal_text(MAX_PRUNE_AUDIT_CHALLENGES_PER_PASS as u64).as_str());
            text.append(")");
            return Err(text);
        }
        if self.paid_list_close_group_size == 0 {
            return Err("paid_list_close_group_size must be >= 1".to_owned());
        }
        if self.neighbor_sync_interval_min.nanos > self.neighbor_sync_interval_max.nanos {
            return Err(
                describe_interval(
                    "neighbor_sync_interval_min (",
                    ") must be <= neighbor_sync_interval_max (",
                    self.neighbor_sync_interval_min,
                    self.neighbor_sync_interval_max,
                ),
            );
        }
        if self.audit_tick_interval_min.nanos > self.audit_tick_interval_max.nanos {
            return Err(
                describe_interval(
                    "audit_tick_interval_min (",
                    ") must be <= audit_tick_interval_max (",
                    self.audit_tick_interval_min,
                    self.audit_tick_interval_max,
                ),
            );
        }
        if self.self_lookup_interval_min.nanos > self.self_lookup_interval_max.nanos {
            return Err(
                describe_interval(
                    "self_lookup_interval_min (",
                    ") must be <= self_lookup_interval_max (",
                    self.self_lookup_interval_min,
                    self.self_lookup_interval_max,
                ),
            );
        }
        if self.neighbor_sync_peer_count == 0 {
            return Err("neighbor_sync_peer_count must be >= 1".to_owned());
        }
        if self.neighbor_sync_scope == 0 {
            return Err("neighbor_sync_scope must be >= 1".to_owned());
        }
        Ok(())
    }

    /// The votes that prove a key's presence among so many peers.
    pub fn quorum_needed(&self, quorum_targets_count: usize) -> (votes: usize)
        ensures
            votes == votes_needed(self.quorum_threshold, quorum_targets_count),
    {
        if quorum_targets_count == 0 {
            return 0;
        }
        let majority: usize = quorum_targets_count / 2 + 1;
        if self.quorum_threshold <= majority {
            self.quorum_threshold
        } else {
            majority
        }
    }

    /// The confirmations that a paid list of so many peers needs: a strict majority.
    pub fn confirm_needed(paid_group_size: usize) -> (confirmations: usize)
        ensures
            confirmations == paid_group_size / 2 + 1,
    {
        paid_group_size / 2 + 1
    }

    /// A random time between rounds of sync.
    pub fn random_neighbor_sync_interval(&self) -> (span: Duration)
        requires
            self.neighbor_sync_interval_min.nanos <= self.neighbor_sync_interval_max.nanos,
        ensures
            lies_between(
                span,
                self.neighbor_sync_interval_min,
                self.neighbor_sync_interval_max,
            ),
    {
        random_duration_in_range(self.neighbor_sync_interval_min, self.neighbor_sync_interval_max)
    }

    /// How many keys an audit samples of so many.
    pub fn audit_sample_count(total_keys: usize) -> (count: usize)
        ensures
            count == sample_of(total_keys),
            total_keys > 0 ==> 1 <= count <= total_keys,
    {
        if total_keys == 0 {
            return 0;
        }
        let root: u64 = roots::compute_floor_sqrt(total_keys as u64);
        proof {
            roots::floor_sqrt_bounds(total_keys as nat);
            let r = root as int;
            assert(r >= 1) by (nonlinear_arith)
                requires
                    (r + 1) * (r + 1) > 1,
                    r >= 0,
            ;
        }
        root as usize
    }

    /// How many keys a node lets an audit ask for: twice what it would ask for itself, one at
    /// least.
    pub fn max_incoming_audit_keys(stored_chunks: usize) -> (count: usize)
        ensures
            count == if stored_chunks == 0 {
                1
            } else {
                2 * sample_of(stored_chunks)
            },
    {
        let sample: usize = Self::audit_sample_count(stored_chunks);
        if sample == 0 {
            return 1;
        }
        proof {
            roots::floor_sqrt_bounds(stored_chunks as nat);
            let s = sample as int;
            assert(s > 2 ==> 2 * s <= s * s) by (nonlinear_arith);
        }
        2 * sample
    }

    /// How long the answer to an audit of so many keys may take: the floor, and what reading the
    /// keys' chunks takes an honest peer with slack.
    pub fn audit_response_timeout(&self, challenged_key_count: usize) -> (timeout: Duration)
        ensures
            timeout.nanos == response_nanos(*self, challenged_key_count),
            timeout.in_range(),
    {
        let total_bytes: u64 = saturating_product(
            MAX_CHUNK_SIZE as u64,
            challenged_key_count as u64,
        );
        let bps: u64 = if self.audit_honest_read_bps == 0 {
            1
        } else {
            self.audit_honest_read_bps
        };
        let multiplied: u64 = saturating_product(
            total_bytes,
            self.audit_response_honest_multiplier,
        );
        let scaled_secs: u64 = multiplied / bps;
        self.audit_response_floor.saturating_add(Duration::from_secs(scaled_secs))
    }

    /// A random time between ticks of the audit scheduler.
    pub fn random_audit_tick_interval(&self) -> (span: Duration)
        requires
            self.audit_tick_interval_min.nanos <= self.audit_tick_interval_max.nanos,
        ensures
            lies_between(span, self.audit_tick_interval_min, self.audit_tick_interval_max),
    {
        random_duration_in_range(self.audit_tick_interval_min, self.audit_tick_interval_max)
    }

    /// A random time between lookups of the node itself.
    pub fn random_self_lookup_interval(&self) -> (span: Duration)
        requires
            self.self_lookup_interval_min.nanos <= self.self_lookup_interval_max.nanos,
        ensures
            lies_between(span, self.self_lookup_interval_min, self.self_lookup_interval_max),
    {
        random_duration_in_range(self.self_lookup_interval_min, self.self_lookup_interval_max)
    }

    /// Leaves that a spot check asks for.
    pub fn audit_spotcheck_count(&self) -> (count: u32)
        ensures
            count == AUDIT_SPOTCHECK_COUNT,
    {
        AUDIT_SPOTCHECK_COUNT
    }

    /// Leaves for which the deadline is sized where the branch is not known.
    pub fn subtree_audit_timeout_leaf_hint(&self) -> (leaves: usize)
        ensures
            leaves == SUBTREE_AUDIT_TIMEOUT_LEAF_HINT,
    {
        SUBTREE_AUDIT_TIMEOUT_LEAF_HINT
    }
}

} // verus!
