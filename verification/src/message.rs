//! The immutable value object that the subscriber hands to the render loop:
//! a topic, the published payload, and the local receipt time in milliseconds.
use vstd::prelude::*;

verus! {

/// Mathematical view of a message: plain sequences and an unbounded time.
pub ghost struct MessageView {
    pub topic: Seq<char>,
    pub value: Seq<char>,
    pub time: int,
}

/// One inbound publication. `time` is the local receipt timestamp in
/// milliseconds; the clock that produces it lives outside this crate.
#[derive(Debug, Clone)]
pub struct PublishMessage {
    pub topic: String,
    pub value: String,
    pub time: u64,
}

impl View for PublishMessage {
    type V = MessageView;

    open spec fn view(&self) -> MessageView {
        MessageView { topic: self.topic@, value: self.value@, time: self.time as int }
    }
}

impl PublishMessage {
    pub fn new(topic: String, value: String, time: u64) -> (r: PublishMessage)
        ensures
            r@ == (MessageView { topic: topic@, value: value@, time: time as int }),
    {
        PublishMessage { topic, value, time }
    }
}

} // verus!
