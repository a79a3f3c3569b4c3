//! Fetching chunks that a node should hold from peers that say they hold them.

use crate::ant_protocol::{XorName, MAX_CHUNK_SIZE};
use crate::client::compute_address;
use crate::hashing::same_bytes32;
use crate::replication::protocol::{FetchRequest, FetchResponse, ReplicationMessageBody};
use crate::replication::types::PeerId;
use vstd::prelude::*;

verus! {

/// How an attempt to fetch a chunk ended.
#[derive(Clone, Copy, Debug, PartialEq, Eq, Structural)]
pub enum FetchResult {
    /// The chunk was fetched and stored.
    Stored,
    /// What came is not the chunk. It is not tried again.
    IntegrityFailed,
    /// The source did not deliver. Another one may.
    SourceFailed,
}

/// How an attempt to fetch a certain chunk ended.
#[derive(Clone, Copy, Debug, PartialEq, Eq)]
pub struct FetchOutcome {
    /// The chunk's address.
    pub key: XorName,
    /// How it ended.
    pub result: FetchResult,
}

/// What came back for a request.
#[derive(Debug)]
pub enum FetchReply {
    /// The request could not be sent, or nothing came.
    Unanswered,
    /// Something that is no message came.
    Undecodable,
    /// A message came.
    Answer(ReplicationMessageBody),
}

/// What follows a reply.
#[derive(Debug)]
pub enum FetchStep {
    /// The attempt is over.
    Done {
        /// How it ended.
        outcome: FetchOutcome,
        /// Whether it counts against the source.
        penalize: bool,
    },
    /// The chunk is there and is to be stored.
    Store {
        /// The chunk's address.
        key: XorName,
        /// The chunk.
        data: Vec<u8>,
    },
}

/// Whether an attempt for `key` is over, and how.
pub open spec fn is_done(
    step: FetchStep,
    key: XorName,
    result: FetchResult,
    penalize: bool,
) -> bool {
    step == (FetchStep::Done { outcome: FetchOutcome { key, result }, penalize })
}

/// Whether `data` is the chunk at `key`: neither too large, nor at another address.
pub open spec fn is_chunk(key: XorName, data: Seq<u8>) -> bool {
    data.len() <= MAX_CHUNK_SIZE && crate::hashing::blake3_digest(data) == key
}

/// Whether `step` is what follows a reply to a request for `key`.
pub open spec fn follows_fetch(step: FetchStep, key: XorName, reply: FetchReply) -> bool {
    match reply {
        FetchReply::Unanswered => is_done(step, key, FetchResult::SourceFailed, false),
        FetchReply::Answer(
            ReplicationMessageBody::FetchResponse(FetchResponse::Success { key: served, data }),
        ) => if served == key && is_chunk(key, data@) {
            step matches FetchStep::Store { key: kept, data: chunk } && kept == key && chunk@
                == data@
        } else {
            is_done(step, key, FetchResult::IntegrityFailed, true)
        },
        _ => is_done(step, key, FetchResult::SourceFailed, true),
    }
}

/// Nothing is stored under an address but the chunk at that address.
pub proof fn only_the_chunk_is_stored(step: FetchStep, key: XorName, reply: FetchReply)
    requires
        follows_fetch(step, key, reply),
    ensures
        step matches FetchStep::Store { key: kept, data } ==> kept == key && is_chunk(key, data@),
{
}

/// A source that cannot be reached is not penalized by the one who asked; any other source that
/// does not deliver the chunk is.
pub proof fn failing_sources_are_penalized(step: FetchStep, key: XorName, reply: FetchReply)
    requires
        follows_fetch(step, key, reply),
    ensures
        step matches FetchStep::Done { penalize, .. } ==> penalize == !(reply is Unanswered),
{
}

/// A chunk is stored just where the reply delivers under the address that was asked for bytes that
/// are no more than four mebibytes and whose digest is that address, and what is stored are these
/// bytes. Other bytes end the attempt for good, and count against the source; any other reply means
/// that another source may be tried.
pub proof fn replies_are_judged_by_content(step: FetchStep, key: XorName, reply: FetchReply)
    requires
        follows_fetch(step, key, reply),
    ensures
        match step {
            FetchStep::Store { key: kept, data: chunk } => {
                &&& kept == key
                &&& reply matches FetchReply::Answer(
                    ReplicationMessageBody::FetchResponse(
                        FetchResponse::Success { key: served, data },
                    ),
                ) && served == key && data@ == chunk@
                &&& chunk@.len() <= 4_194_304
                &&& crate::hashing::blake3_digest(chunk@) == key
            },
            FetchStep::Done { outcome, penalize } => {
                &&& outcome.key == key
                &&& penalize == !(reply is Unanswered)
                &&& match reply {
                    FetchReply::Answer(
                        ReplicationMessageBody::FetchResponse(
                            FetchResponse::Success { key: served, data },
                        ),
                    ) => outcome.result is IntegrityFailed && (served != key || data@.len()
                        > 4_194_304 || crate::hashing::blake3_digest(data@) != key),
                    _ => outcome.result is SourceFailed,
                }
            },
        },
{
}

/// The request for a chunk.
pub fn fetch_request(key: &XorName) -> (request: FetchRequest)
    ensures
        request.key == *key,
{
    FetchRequest { key: *key }
}

/// Judge the reply to a request for a chunk. The size is checked before the address, so that no
/// oversized reply is hashed.
pub fn judge_fetch_reply(key: &XorName, reply: FetchReply) -> (step: FetchStep)
    ensures
        follows_fetch(step, *key, reply),
{
    match reply {
        FetchReply::Unanswered => FetchStep::Done {
            outcome: FetchOutcome { key: *key, result: FetchResult::SourceFailed },
            penalize: false,
        },
        FetchReply::Answer(
            ReplicationMessageBody::FetchResponse(FetchResponse::Success { key: served, data }),
        ) => {
            if !same_bytes32(&served, key) || data.len() > MAX_CHUNK_SIZE || !same_bytes32(
                &compute_address(data.as_slice()),
                key,
            ) {
                FetchStep::Done {
                    outcome: FetchOutcome { key: *key, result: FetchResult::IntegrityFailed },
                    penalize: true,
                }
            } else {
                FetchStep::Store { key: *key, data }
            }
        },
        _ => FetchStep::Done {
            outcome: FetchOutcome { key: *key, result: FetchResult::SourceFailed },
            penalize: true,
        },
    }
}

/// How an attempt ends whose chunk was handed to the store.
pub fn outcome_of_store(key: &XorName, stored: bool) -> (outcome: FetchOutcome)
    ensures
        outcome.key == *key,
        outcome.result == if stored {
            FetchResult::Stored
        } else {
            FetchResult::SourceFailed
        },
{
    FetchOutcome {
        key: *key,
        result: if stored {
            FetchResult::Stored
        } else {
            FetchResult::SourceFailed
        },
    }
}

/// A chunk that waits to be fetched.
#[derive(Clone, Debug, PartialEq, Eq)]
pub struct FetchCandidate {
    /// The chunk's address.
    pub key: XorName,
    /// Who says to hold it, to be tried in this order.
    pub sources: Vec<PeerId>,
}

/// What a worker does about the next candidate.
#[derive(Clone, Copy, Debug, PartialEq, Eq)]
pub enum WorkerStep {
    /// Nothing more for now: as many fetches run as may, or nothing waits.
    Wait,
    /// The candidate has no source and is dropped.
    Drop {
        /// The chunk's address.
        key: XorName,
    },
    /// The fetch is started.
    Start {
        /// The chunk's address.
        key: XorName,
        /// From whom.
        source: PeerId,
    },
}

/// What follows the end of a fetch.
#[derive(Clone, Copy, Debug, PartialEq, Eq)]
pub enum AfterFetch {
    /// The chunk is done with.
    Complete,
    /// The next source is tried.
    Retry {
        /// Which.
        source: PeerId,
    },
}

/// Whether the next source of a chunk is to be looked up: only where the last one did not deliver.
pub fn wants_next_source(result: Option<FetchResult>) -> (wanted: bool)
    ensures
        wanted == (result == Some(FetchResult::SourceFailed)),
{
    matches!(result, Some(FetchResult::SourceFailed))
}

/// How many fetches run at a time.
pub struct FetchWorker {
    in_flight: usize,
    concurrency: usize,
}

impl FetchWorker {
    /// How many fetches run.
    pub closed spec fn running(self) -> usize {
        self.in_flight
    }

    /// How many may.
    pub closed spec fn limit(self) -> usize {
        self.concurrency
    }

    /// No more fetches run than may.
    #[verifier::type_invariant]
    spec fn well_formed(self) -> bool {
        self.in_flight <= self.concurrency
    }

    /// A worker without fetches.
    pub fn new(concurrency: usize) -> (worker: Self)
        ensures
            worker.running() == 0,
            worker.limit() == concurrency,
    {
        FetchWorker { in_flight: 0, concurrency }
    }

    /// Whether no fetch runs.
    pub fn is_idle(&self) -> (idle: bool)
        ensures
            idle == (self.running() == 0),
    {
        self.in_flight == 0
    }

    /// Whether another candidate may be taken from the queue.
    pub fn has_free_slot(&self) -> (free: bool)
        ensures
            free == (self.running() < self.limit()),
            self.running() <= self.limit(),
    {
        proof {
            use_type_invariant(self);
        }
        self.in_flight < self.concurrency
    }

    /// Decide about the candidate that was taken from the queue, where one waited and a slot is
    /// free.
    pub fn start_next(&mut self, candidate: Option<&FetchCandidate>) -> (step: WorkerStep)
        ensures
            step == if old(self).running() >= old(self).limit() {
                WorkerStep::Wait
            } else {
                match candidate {
                    None => WorkerStep::Wait,
                    Some(c) => if c.sources.len() == 0 {
                        WorkerStep::Drop { key: c.key }
                    } else {
                        WorkerStep::Start { key: c.key, source: c.sources@[0] }
                    },
                }
            },
            final(self).limit() == old(self).limit(),
            final(self).running() == if step is Start {
                old(self).running() + 1
            } else {
                old(self).running() as int
            },
            final(self).running() <= final(self).limit(),
    {
        proof {
            use_type_invariant(&*self);
        }
        if self.in_flight >= self.concurrency {
            return WorkerStep::Wait;
        }
        match candidate {
            None => WorkerStep::Wait,
            Some(c) => if c.sources.len() == 0 {
                WorkerStep::Drop { key: c.key }
            } else {
                self.in_flight = self.in_flight + 1;
                WorkerStep::Start { key: c.key, source: c.sources[0] }
            },
        }
    }

    /// Decide what follows the end of a fetch. `result` is missing where the fetch was cut short;
    /// `next_source` is the next one that was not tried yet. A retry takes the slot of the fetch
    /// that it follows.
    pub fn finish(&mut self, result: Option<FetchResult>, next_source: Option<PeerId>) -> (next:
        AfterFetch)
        requires
            old(self).running() > 0,
        ensures
            next == if result == Some(FetchResult::SourceFailed) && next_source is Some {
                AfterFetch::Retry { source: next_source->0 }
            } else {
                AfterFetch::Complete
            },
            final(self).limit() == old(self).limit(),
            final(self).running() == if next is Retry {
                old(self).running() as int
            } else {
                old(self).running() - 1
            },
            final(self).running() <= final(self).limit(),
    {
        proof {
            use_type_invariant(&*self);
        }
        if wants_next_source(result) {
            if let Some(source) = next_source {
                return AfterFetch::Retry { source };
            }
        }
        self.in_flight = self.in_flight - 1;
        AfterFetch::Complete
    }
}

/// What storage gives for an address.
#[derive(Clone, Debug, PartialEq, Eq)]
pub enum StorageRead {
    /// The chunk.
    Found(Vec<u8>),
    /// Nothing is stored there.
    Missing,
    /// It could not be read, and why.
    Failed(String),
}

/// Answer a request for a chunk by what storage gives for it.
pub fn handle_fetch_request(request: &FetchRequest, read: StorageRead) -> (response: FetchResponse)
    ensures
        response == match read {
            StorageRead::Found(data) => FetchResponse::Success { key: request.key, data },
            StorageRead::Missing => FetchResponse::NotFound { key: request.key },
            StorageRead::Failed(reason) => FetchResponse::Error { key: request.key, reason },
        },
{
    match read {
        StorageRead::Found(data) => FetchResponse::Success { key: request.key, data },
        StorageRead::Missing => FetchResponse::NotFound { key: request.key },
        StorageRead::Failed(reason) => FetchResponse::Error { key: request.key, reason },
    }
}

} // verus!
