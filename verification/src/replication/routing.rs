//! Which messages are for replication, and who answers them.

use crate::replication::config::REPLICATION_PROTOCOL_ID;
use crate::replication::protocol::ReplicationMessageBody;
use vstd::prelude::*;
use vstd::slice::slice_subrange;
use vstd::string::*;

verus! {

/// What a topic begins with whose messages are requests that wait for a response.
pub const RR_PREFIX: &'static str = "/rr/";

/// How a message came in.
#[derive(Clone, Copy, Debug, PartialEq, Eq, Structural)]
pub enum TopicRoute {
    /// As a plain message.
    Direct,
    /// As a request, in an envelope.
    RequestResponse,
    /// It is not for replication.
    Other,
}

/// How a message on this topic came in.
pub open spec fn route_of_topic(topic: Seq<u8>) -> TopicRoute {
    if topic == REPLICATION_PROTOCOL_ID.spec_bytes() {
        TopicRoute::Direct
    } else if topic == RR_PREFIX.spec_bytes() + REPLICATION_PROTOCOL_ID.spec_bytes() {
        TopicRoute::RequestResponse
    } else {
        TopicRoute::Other
    }
}

/// Two topics are for replication: the name of the protocol, for plain messages, and the same behind
/// the prefix for requests. No other is, and the two are told apart.
pub proof fn two_topics_are_for_replication(topic: Seq<u8>)
    ensures
        route_of_topic(topic) is Direct <==> topic == "autonomi.ant.replication.v1".spec_bytes(),
        route_of_topic(topic) is RequestResponse <==> topic
            == "/rr/autonomi.ant.replication.v1".spec_bytes(),
{
    let prefix = "/rr/";
    let name = "autonomi.ant.replication.v1";
    let both = "/rr/autonomi.ant.replication.v1";
    reveal_strlit("/rr/");
    reveal_strlit("autonomi.ant.replication.v1");
    reveal_strlit("/rr/autonomi.ant.replication.v1");
    vstd::utf8::is_ascii_chars_encode_utf8(prefix@);
    vstd::utf8::is_ascii_chars_encode_utf8(name@);
    vstd::utf8::is_ascii_chars_encode_utf8(both@);
    assert(both@ =~= prefix@ + name@);
    assert(both.spec_bytes() =~= prefix.spec_bytes() + name.spec_bytes());
    assert(both.spec_bytes().len() != name.spec_bytes().len());
}

/// Whether two byte strings are the same.
fn same_bytes(a: &[u8], b: &[u8]) -> (same: bool)
    ensures
        same == (a@ == b@),
{
    if a.len() != b.len() {
        return false;
    }
    let mut i: usize = 0;
    while i < a.len()
        invariant
            i <= a.len() == b.len(),
            forall|k: int| 0 <= k < i ==> a@[k] == b@[k],
        decreases a.len() - i,
    {
        if a[i] != b[i] {
            return false;
        }
        i += 1;
    }
    assert(a@ =~= b@);
    true
}

/// Decide how a message on this topic came in.
pub fn classify_topic(topic: &str) -> (route: TopicRoute)
    ensures
        route == route_of_topic(topic.spec_bytes()),
{
    let bytes = topic.as_bytes();
    let own = REPLICATION_PROTOCOL_ID.as_bytes();
    let prefix = RR_PREFIX.as_bytes();
    if same_bytes(bytes, own) {
        return TopicRoute::Direct;
    }
    if bytes.len() >= prefix.len() {
        let head = slice_subrange(bytes, 0, prefix.len());
        let tail = slice_subrange(bytes, prefix.len(), bytes.len());
        assert(bytes@ =~= head@ + tail@);
        if same_bytes(head, prefix) && same_bytes(tail, own) {
            return TopicRoute::RequestResponse;
        }
        proof {
            if bytes@ == prefix@ + own@ {
                assert(head@ =~= prefix@);
                assert(tail@ =~= own@);
            }
        }
    }
    TopicRoute::Other
}

/// Whether an envelope on the request path holds something to answer: a request does, a response
/// is for the one who waits for it.
pub fn is_request(is_response: bool) -> (request: bool)
    ensures
        request == !is_response,
{
    !is_response
}

/// Who deals with a message.
#[derive(Clone, Copy, Debug, PartialEq, Eq, Structural)]
pub enum Handler {
    /// Offers.
    FreshOffer,
    /// Word of payments.
    PaidNotify,
    /// Syncs with neighbours.
    NeighborSync,
    /// Questions which keys are held.
    Verification,
    /// Requests for chunks.
    Fetch,
    /// Demands for audit digests.
    PruneAudit,
    /// Demands to prove a branch.
    SubtreeAudit,
    /// Demands for bytes.
    SubtreeBytes,
    /// Nobody: the one who asked waits for it elsewhere.
    Nobody,
}

/// Who deals with a message of this kind.
pub open spec fn handler_of(body: ReplicationMessageBody) -> Handler {
    match body {
        ReplicationMessageBody::FreshReplicationOffer(_) => Handler::FreshOffer,
        ReplicationMessageBody::PaidNotify(_) => Handler::PaidNotify,
        ReplicationMessageBody::NeighborSyncRequest(_) => Handler::NeighborSync,
        ReplicationMessageBody::VerificationRequest(_) => Handler::Verification,
        ReplicationMessageBody::FetchRequest(_) => Handler::Fetch,
        ReplicationMessageBody::AuditChallenge(_) => Handler::PruneAudit,
        ReplicationMessageBody::SubtreeAuditChallenge(_) => Handler::SubtreeAudit,
        ReplicationMessageBody::SubtreeByteChallenge(_) => Handler::SubtreeBytes,
        _ => Handler::Nobody,
    }
}

/// Every request is dealt with by the one that it is for, and no response by anyone.
pub proof fn every_request_has_its_handler(body: ReplicationMessageBody)
    ensures
        handler_of(body) is FreshOffer <==> body is FreshReplicationOffer,
        handler_of(body) is PaidNotify <==> body is PaidNotify,
        handler_of(body) is NeighborSync <==> body is NeighborSyncRequest,
        handler_of(body) is Verification <==> body is VerificationRequest,
        handler_of(body) is Fetch <==> body is FetchRequest,
        handler_of(body) is PruneAudit <==> body is AuditChallenge,
        handler_of(body) is SubtreeAudit <==> body is SubtreeAuditChallenge,
        handler_of(body) is SubtreeBytes <==> body is SubtreeByteChallenge,
        handler_of(body) is Nobody <==> body is FreshReplicationResponse
            || body is NeighborSyncResponse || body is VerificationResponse || body is FetchResponse
            || body is AuditResponse || body is SubtreeAuditResponse || body is SubtreeByteResponse,
{
}

/// Decide who deals with a message.
pub fn handle_replication_message(body: &ReplicationMessageBody) -> (handler: Handler)
    ensures
        handler == handler_of(*body),
{
    match body {
        ReplicationMessageBody::FreshReplicationOffer(_) => Handler::FreshOffer,
        ReplicationMessageBody::PaidNotify(_) => Handler::PaidNotify,
        ReplicationMessageBody::NeighborSyncRequest(_) => Handler::NeighborSync,
        ReplicationMessageBody::VerificationRequest(_) => Handler::Verification,
        ReplicationMessageBody::FetchRequest(_) => Handler::Fetch,
        ReplicationMessageBody::AuditChallenge(_) => Handler::PruneAudit,
        ReplicationMessageBody::SubtreeAuditChallenge(_) => Handler::SubtreeAudit,
        ReplicationMessageBody::SubtreeByteChallenge(_) => Handler::SubtreeBytes,
        _ => Handler::Nobody,
    }
}

} // verus!
