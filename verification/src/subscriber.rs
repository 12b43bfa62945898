//! The subscriber's control logic as a state machine: connect and subscribe,
//! read messages, forward each into the hand-off queue, reconnect on any
//! connection error, skip a message whose payload cannot be decoded, and stop
//! only when the consumer end is gone. The I/O loop that talks to the broker
//! performs the returned action and feeds the next event back in.
use vstd::prelude::*;

use crate::message::MessageView;
use crate::message::PublishMessage;

verus! {

/// Connection state of the subscriber.
#[derive(Copy, Clone, PartialEq, Eq, Structural, Debug)]
pub enum ConnState {
    /// No usable connection; the next step opens one and subscribes.
    Disconnected,
    /// Connected and subscribed to every topic; the next step reads.
    Subscribed,
}

/// What the broker side reported to the subscriber.
pub enum BrokerEvent {
    /// Connecting and subscribing to the universal pattern succeeded.
    SubscribeOk,
    /// Connecting or subscribing failed.
    ConnectFailed,
    /// An inbound message arrived and its payload decoded.
    Inbound(PublishMessage),
    /// An inbound message arrived but its payload could not be decoded.
    BadPayload,
    /// The connection broke while reading.
    ReadError,
    /// The consuming end of the hand-off queue is gone.
    ConsumerGone,
}

/// What the I/O loop must do next.
pub enum SubscriberAction {
    /// Open a fresh connection and subscribe to every topic.
    Connect,
    /// Read the next inbound message, blocking.
    Read,
    /// Hand the message to the queue, then read on.
    Forward(PublishMessage),
    /// Stop the subscriber; the process is shutting down.
    Stop,
}

/// The transition relation: total, so the I/O loop can feed any event in any
/// state. Connection errors always lead back to a connect attempt -- the
/// retry never gives up -- and a bad payload skips one message rather than
/// ending ingestion.
pub open spec fn spec_step(s: ConnState, e: BrokerEvent) -> (ConnState, SubscriberAction) {
    match e {
        BrokerEvent::SubscribeOk => (ConnState::Subscribed, SubscriberAction::Read),
        BrokerEvent::ConnectFailed => (ConnState::Disconnected, SubscriberAction::Connect),
        BrokerEvent::Inbound(m) => match s {
            ConnState::Subscribed => (ConnState::Subscribed, SubscriberAction::Forward(m)),
            ConnState::Disconnected => (ConnState::Disconnected, SubscriberAction::Connect),
        },
        BrokerEvent::BadPayload => match s {
            ConnState::Subscribed => (ConnState::Subscribed, SubscriberAction::Read),
            ConnState::Disconnected => (ConnState::Disconnected, SubscriberAction::Connect),
        },
        BrokerEvent::ReadError => (ConnState::Disconnected, SubscriberAction::Connect),
        BrokerEvent::ConsumerGone => (s, SubscriberAction::Stop),
    }
}

/// One decision of the subscriber, exactly the transition relation.
pub fn subscriber_step(s: ConnState, e: BrokerEvent) -> (r: (ConnState, SubscriberAction))
    ensures
        r == spec_step(s, e),
{
    match e {
        BrokerEvent::SubscribeOk => (ConnState::Subscribed, SubscriberAction::Read),
        BrokerEvent::ConnectFailed => (ConnState::Disconnected, SubscriberAction::Connect),
        BrokerEvent::Inbound(m) => match s {
            ConnState::Subscribed => (ConnState::Subscribed, SubscriberAction::Forward(m)),
            ConnState::Disconnected => (ConnState::Disconnected, SubscriberAction::Connect),
        },
        BrokerEvent::BadPayload => match s {
            ConnState::Subscribed => (ConnState::Subscribed, SubscriberAction::Read),
            ConnState::Disconnected => (ConnState::Disconnected, SubscriberAction::Connect),
        },
        BrokerEvent::ReadError => (ConnState::Disconnected, SubscriberAction::Connect),
        BrokerEvent::ConsumerGone => (s, SubscriberAction::Stop),
    }
}

/// The state after a whole event sequence, processed front to back.
pub open spec fn run_state(s: ConnState, events: Seq<BrokerEvent>) -> ConnState
    decreases events.len(),
{
    if events.len() == 0 {
        s
    } else {
        run_state(spec_step(s, events[0]).0, events.skip(1))
    }
}

/// The messages the subscriber forwards into the queue over an event
/// sequence, in order.
pub open spec fn forwarded(s: ConnState, events: Seq<BrokerEvent>) -> Seq<MessageView>
    decreases events.len(),
{
    if events.len() == 0 {
        Seq::empty()
    } else {
        let head = match spec_step(s, events[0]).1 {
            SubscriberAction::Forward(m) => seq![m@],
            _ => Seq::<MessageView>::empty(),
        };
        head + forwarded(spec_step(s, events[0]).0, events.skip(1))
    }
}

/// The views of the messages the broker delivered over an event sequence.
pub open spec fn delivered(events: Seq<BrokerEvent>) -> Seq<MessageView>
    decreases events.len(),
{
    if events.len() == 0 {
        Seq::empty()
    } else {
        let head = match events[0] {
            BrokerEvent::Inbound(m) => seq![m@],
            _ => Seq::<MessageView>::empty(),
        };
        head + delivered(events.skip(1))
    }
}

/// Whether an event can occur in a state: messages, payload failures and read
/// errors only arrive over a live subscription, and connect outcomes only
/// answer a connect attempt.
pub open spec fn event_fits(s: ConnState, e: BrokerEvent) -> bool {
    match e {
        BrokerEvent::SubscribeOk => s is Disconnected,
        BrokerEvent::ConnectFailed => s is Disconnected,
        BrokerEvent::Inbound(m) => s is Subscribed,
        BrokerEvent::BadPayload => s is Subscribed,
        BrokerEvent::ReadError => s is Subscribed,
        BrokerEvent::ConsumerGone => true,
    }
}

/// Whether a whole event sequence can occur starting from `s`.
pub open spec fn plausible(s: ConnState, events: Seq<BrokerEvent>) -> bool
    decreases events.len(),
{
    if events.len() == 0 {
        true
    } else {
        event_fits(s, events[0]) && plausible(spec_step(s, events[0]).0, events.skip(1))
    }
}

pub open spec fn no_shutdown(events: Seq<BrokerEvent>) -> bool {
    forall|i: int| 0 <= i < events.len() ==> !((#[trigger] events[i]) is ConsumerGone)
}

/// Reconnect: over any plausible event sequence without a shutdown --
/// connection failures, mid-stream errors and reconnects included -- the
/// subscriber forwards exactly the messages the broker delivered, in order:
/// ingestion resumes after every reconnect, nothing is forwarded twice, and
/// nothing delivered is lost.
pub proof fn lemma_reconnect_forwards_exactly(s: ConnState, events: Seq<BrokerEvent>)
    requires
        plausible(s, events),
        no_shutdown(events),
    ensures
        forwarded(s, events) == delivered(events),
    decreases events.len(),
{
    if events.len() > 0 {
        let s1 = spec_step(s, events[0]).0;
        assert(forall|i: int|
            0 <= i < events.skip(1).len() ==> events.skip(1)[i] == events[i + 1]);
        lemma_reconnect_forwards_exactly(s1, events.skip(1));
    }
}

} // verus!
