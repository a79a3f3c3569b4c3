//! What a node does with chunks that are offered to it, and with word of payments.
//!
//! Each check is made only after the one before it was passed; whoever runs the node makes the
//! checks and reports what they found.

use crate::ant_protocol::{XorName, MAX_CHUNK_SIZE};
use crate::replication::protocol::{FreshReplicationOffer, FreshReplicationResponse, PaidNotify};
use crate::text::{decimal, decimal_text};
use vstd::prelude::*;
use vstd::string::*;

verus! {

/// What is known of an offer.
#[derive(Debug, PartialEq, Eq)]
pub enum OfferEvent {
    /// It came in.
    Received,
    /// Whether the node is responsible for the key.
    Responsibility(bool),
    /// What the payment was found to be.
    Payment(PaymentCheck),
    /// The key was noted as paid for, or at least that was tried.
    PaidNoted,
    /// Whether the chunk was stored, and if not, why.
    Stored(Result<(), String>),
}

/// What a proof of payment was found to be.
#[derive(Clone, Debug, PartialEq, Eq)]
pub enum PaymentCheck {
    /// It pays for the key.
    CanStore,
    /// It does not.
    PaymentRequired,
    /// It could not be checked, and why.
    Failed(String),
}

/// What is done next about an offer.
#[derive(Clone, Debug, PartialEq, Eq)]
pub enum OfferAction {
    /// Find out whether the node is responsible for the key.
    CheckResponsibility,
    /// Check the payment.
    VerifyPayment,
    /// Note the key as paid for. Where that fails, the chunk is stored all the same.
    NotePaid,
    /// Store the chunk.
    Store,
    /// Answer; the matter is settled.
    Reply {
        /// The answer.
        response: FreshReplicationResponse,
        /// Whether the offer counts against the one who made it.
        penalize: bool,
    },
}

/// Whether an offer is turned down with this text.
pub open spec fn rejects(
    action: OfferAction,
    key: XorName,
    text: Seq<char>,
    penalty: bool,
) -> bool {
    action matches OfferAction::Reply {
        response: FreshReplicationResponse::Rejected { key: k, reason },
        penalize,
    } && k == key && reason@ == text && penalize == penalty
}

/// What is said of a chunk that is too large.
pub open spec fn oversize_text(len: nat) -> Seq<char> {
    "Data size "@ + decimal(len) + " exceeds maximum chunk size "@ + decimal(MAX_CHUNK_SIZE as nat)
}

/// Whether `action` is what follows `event`.
pub open spec fn follows_event(
    action: OfferAction,
    offer: FreshReplicationOffer,
    event: OfferEvent,
) -> bool {
    match event {
        OfferEvent::Received => if offer.proof_of_payment.len() == 0 {
            rejects(action, offer.key, "Missing proof of payment"@, false)
        } else if offer.data.len() > MAX_CHUNK_SIZE {
            rejects(action, offer.key, oversize_text(offer.data.len() as nat), true)
        } else {
            action is CheckResponsibility
        },
        OfferEvent::Responsibility(responsible) => if responsible {
            action is VerifyPayment
        } else {
            rejects(action, offer.key, "Not responsible for this key"@, false)
        },
        OfferEvent::Payment(PaymentCheck::CanStore) => action is NotePaid,
        OfferEvent::PaidNoted => action is Store,
        OfferEvent::Payment(PaymentCheck::PaymentRequired) => rejects(
            action,
            offer.key,
            "Payment verification failed: payment required"@,
            false,
        ),
        OfferEvent::Payment(PaymentCheck::Failed(why)) => rejects(
            action,
            offer.key,
            "Payment verification error: "@ + why@,
            false,
        ),
        OfferEvent::Stored(Ok(())) => action == (OfferAction::Reply {
            response: FreshReplicationResponse::Accepted { key: offer.key },
            penalize: false,
        }),
        OfferEvent::Stored(Err(why)) => rejects(
            action,
            offer.key,
            "Storage error: "@ + why@,
            false,
        ),
    }
}

/// Whether an answer accepts the chunk.
pub open spec fn accepts(action: OfferAction) -> bool {
    action matches OfferAction::Reply { response: FreshReplicationResponse::Accepted { .. }, .. }
}

/// Whether `actions` and `events` are the course of one offer: it comes in, and each action is
/// followed by what the node found out when it was carried out.
pub open spec fn is_course(
    offer: FreshReplicationOffer,
    events: Seq<OfferEvent>,
    actions: Seq<OfferAction>,
) -> bool {
    &&& events.len() == actions.len() > 0
    &&& events[0] is Received
    &&& forall|i: int|
        0 <= i < events.len() ==> follows_event(#[trigger] actions[i], offer, events[i])
    &&& forall|i: int|
        0 < i < events.len() ==> match actions[i - 1] {
            OfferAction::CheckResponsibility => (#[trigger] events[i]) is Responsibility,
            OfferAction::VerifyPayment => events[i] is Payment,
            OfferAction::NotePaid => events[i] is PaidNoted,
            OfferAction::Store => events[i] is Stored,
            OfferAction::Reply { .. } => false,
        }
}

/// A chunk is accepted only where it is small enough, the node is responsible for it, its payment
/// was found good, it was noted as paid for, and only then it was stored; and each offer takes no
/// more than these steps.
pub proof fn acceptance_takes_every_check(
    offer: FreshReplicationOffer,
    events: Seq<OfferEvent>,
    actions: Seq<OfferAction>,
)
    requires
        is_course(offer, events, actions),
        accepts(actions[actions.len() - 1]),
    ensures
        events.len() == 5,
        offer.proof_of_payment.len() > 0,
        offer.data.len() <= MAX_CHUNK_SIZE,
        events[1] == OfferEvent::Responsibility(true),
        events[2] == OfferEvent::Payment(PaymentCheck::CanStore),
        events[3] is PaidNoted,
        events[4] matches OfferEvent::Stored(Ok(_)),
{
    assert(follows_event(actions[0], offer, events[0]));
    assert(events.len() > 1);
    assert(events[1] is Responsibility);
    assert(follows_event(actions[1], offer, events[1]));
    assert(events.len() > 2);
    assert(events[2] is Payment);
    assert(follows_event(actions[2], offer, events[2]));
    assert(events.len() > 3);
    assert(events[3] is PaidNoted);
    assert(follows_event(actions[3], offer, events[3]));
    assert(events.len() > 4);
    assert(events[4] is Stored);
    assert(follows_event(actions[4], offer, events[4]));
    assert(actions[4] is Reply);
    let past_the_reply = events[5];
}

/// An offer that passes a check goes on to the next one, and one that has passed them all is
/// accepted: nothing else turns an offer down.
pub proof fn good_offers_go_on(
    action: OfferAction,
    offer: FreshReplicationOffer,
    event: OfferEvent,
)
    requires
        follows_event(action, offer, event),
    ensures
        event is Received && offer.proof_of_payment@.len() > 0 && offer.data@.len() <= 4_194_304
            ==> action == OfferAction::CheckResponsibility,
        event == OfferEvent::Responsibility(true) ==> action == OfferAction::VerifyPayment,
        event == OfferEvent::Payment(PaymentCheck::CanStore) ==> action == OfferAction::NotePaid,
        event is PaidNoted ==> action == OfferAction::Store,
        (event matches OfferEvent::Stored(Ok(_))) ==> action == (OfferAction::Reply {
            response: FreshReplicationResponse::Accepted { key: offer.key },
            penalize: false,
        }),
{
}

/// An offer that fails a check is turned down at once, with its own key and the reason. Only a chunk
/// that is too large counts against the one who offers it.
pub proof fn bad_offers_are_turned_down(
    action: OfferAction,
    offer: FreshReplicationOffer,
    event: OfferEvent,
)
    requires
        follows_event(action, offer, event),
        match event {
            OfferEvent::Received => offer.proof_of_payment@.len() == 0 || offer.data@.len()
                > 4_194_304,
            OfferEvent::Responsibility(responsible) => !responsible,
            OfferEvent::Payment(check) => !(check is CanStore),
            OfferEvent::PaidNoted => false,
            OfferEvent::Stored(stored) => stored is Err,
        },
    ensures
        action matches OfferAction::Reply {
            response: FreshReplicationResponse::Rejected { key, reason },
            penalize,
        } && key == offer.key && penalize == (event is Received && offer.proof_of_payment@.len()
            > 0) && match event {
            OfferEvent::Received => if offer.proof_of_payment@.len() == 0 {
                reason@ == "Missing proof of payment"@
            } else {
                reason@ == "Data size "@ + decimal(offer.data@.len())
                    + " exceeds maximum chunk size "@ + decimal(4_194_304)
            },
            OfferEvent::Responsibility(_) => reason@ == "Not responsible for this key"@,
            OfferEvent::Payment(PaymentCheck::Failed(why)) => reason@
                == "Payment verification error: "@ + why@,
            OfferEvent::Payment(_) => reason@ == "Payment verification failed: payment required"@,
            OfferEvent::Stored(Err(why)) => reason@ == "Storage error: "@ + why@,
            _ => true,
        },
{
}

/// Turn an offer down.
fn reject(key: &XorName, reason: String, penalize: bool) -> (action: OfferAction)
    ensures
        rejects(action, *key, reason@, penalize),
{
    OfferAction::Reply {
        response: FreshReplicationResponse::Rejected { key: *key, reason },
        penalize,
    }
}

/// Two texts in a row.
fn joined(first: &str, second: &str) -> (text: String)
    ensures
        text@ == first@ + second@,
{
    let mut text = first.to_owned();
    text.append(second);
    text
}

/// Decide what is done next about an offer.
pub fn handle_fresh_offer(offer: &FreshReplicationOffer, event: &OfferEvent) -> (action:
    OfferAction)
    ensures
        follows_event(action, *offer, *event),
{
    match event {
        OfferEvent::Received => {
            if offer.proof_of_payment.len() == 0 {
                return reject(&offer.key, "Missing proof of payment".to_owned(), false);
            }
            if offer.data.len() > MAX_CHUNK_SIZE {
                let mut text = "Data size ".to_owned();
                text.append(decimal_text(offer.data.len() as u64).as_str());
                text.append(" exceeds maximum chunk size ");
                text.append(decimal_text(MAX_CHUNK_SIZE as u64).as_str());
                return reject(&offer.key, text, true);
            }
            OfferAction::CheckResponsibility
        },
        OfferEvent::Responsibility(responsible) => if *responsible {
            OfferAction::VerifyPayment
        } else {
            reject(&offer.key, "Not responsible for this key".to_owned(), false)
        },
        OfferEvent::Payment(check) => match check {
            PaymentCheck::CanStore => OfferAction::NotePaid,
            PaymentCheck::PaymentRequired => reject(
                &offer.key,
                "Payment verification failed: payment required".to_owned(),
                false,
            ),
            PaymentCheck::Failed(why) => reject(
                &offer.key,
                joined("Payment verification error: ", why.as_str()),
                false,
            ),
        },
        OfferEvent::PaidNoted => OfferAction::Store,
        OfferEvent::Stored(stored) => match stored {
            Ok(()) => OfferAction::Reply {
                response: FreshReplicationResponse::Accepted { key: offer.key },
                penalize: false,
            },
            Err(why) => reject(&offer.key, joined("Storage error: ", why.as_str()), false),
        },
    }
}

/// What is known of word of a payment.
#[derive(Clone, Debug, PartialEq, Eq)]
pub enum NotifyEvent {
    /// It came in.
    Received,
    /// Whether the node keeps track of payments for the key.
    InPaidGroup(bool),
    /// What the payment was found to be.
    Payment(PaymentCheck),
}

/// What is done next about word of a payment.
#[derive(Clone, Copy, Debug, PartialEq, Eq, Structural)]
pub enum NotifyAction {
    /// Find out whether the node keeps track of payments for the key.
    CheckPaidGroup,
    /// Check the payment.
    VerifyPayment,
    /// Note the key as paid for.
    Record,
    /// Nothing.
    Ignore,
}

/// What follows an event about word of a payment.
pub open spec fn notify_action(notify: PaidNotify, event: NotifyEvent) -> NotifyAction {
    match event {
        NotifyEvent::Received => if notify.proof_of_payment.len() == 0 {
            NotifyAction::Ignore
        } else {
            NotifyAction::CheckPaidGroup
        },
        NotifyEvent::InPaidGroup(inside) => if inside {
            NotifyAction::VerifyPayment
        } else {
            NotifyAction::Ignore
        },
        NotifyEvent::Payment(PaymentCheck::CanStore) => NotifyAction::Record,
        NotifyEvent::Payment(_) => NotifyAction::Ignore,
    }
}

/// Word of a payment leads to a key being noted just where a proof came with it, the node keeps
/// track of payments for the key, and the payment was found good, found out in this order; at
/// anything else it is dropped.
pub proof fn only_good_payments_are_noted(notify: PaidNotify, event: NotifyEvent)
    ensures
        notify_action(notify, event) is Record <==> event == NotifyEvent::Payment(
            PaymentCheck::CanStore,
        ),
        notify_action(notify, event) is VerifyPayment <==> event == NotifyEvent::InPaidGroup(true),
        notify_action(notify, event) is CheckPaidGroup <==> event is Received
            && notify.proof_of_payment@.len() > 0,
{
}

/// Decide what is done next about word of a payment. A key is noted only where the payment was
/// found good.
pub fn handle_paid_notify(notify: &PaidNotify, event: &NotifyEvent) -> (action: NotifyAction)
    ensures
        action == notify_action(*notify, *event),
{
    match event {
        NotifyEvent::Received => if notify.proof_of_payment.len() == 0 {
            NotifyAction::Ignore
        } else {
            NotifyAction::CheckPaidGroup
        },
        NotifyEvent::InPaidGroup(inside) => if *inside {
            NotifyAction::VerifyPayment
        } else {
            NotifyAction::Ignore
        },
        NotifyEvent::Payment(check) => match check {
            PaymentCheck::CanStore => NotifyAction::Record,
            _ => NotifyAction::Ignore,
        },
    }
}

} // verus!
