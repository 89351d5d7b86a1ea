use vstd::prelude::*;

verus! {

/// The domain event type carried by every message. Its payload is opaque to
/// the routing core: nothing here reads inside it.
#[verifier::external_type_specification]
#[verifier::external_body]
pub struct ExCDEvent(cdevents_sdk::CDEvent);

/// Relies on cdevents_sdk::CDEvent's derived Clone: the copy equals the
/// original value.
pub assume_specification[ <cdevents_sdk::CDEvent as Clone>::clone ](
    v: &cdevents_sdk::CDEvent,
) -> (r: cdevents_sdk::CDEvent)
    ensures
        r == *v,
;

/// An immutable wrapper around exactly one domain event, created at the moment
/// a source publishes it. Every subscriber that receives it gets an equal copy.
pub struct Message {
    pub cdevent: cdevents_sdk::CDEvent,
}

impl Message {
    /// An equal copy of the message, as handed to each subscriber.
    pub fn duplicate(&self) -> (r: Message)
        ensures
            r == *self,
    {
        Message { cdevent: self.cdevent.clone() }
    }
}

impl From<cdevents_sdk::CDEvent> for Message {
    fn from(value: cdevents_sdk::CDEvent) -> (r: Self) {
        Message { cdevent: value }
    }
}

impl vstd::std_specs::convert::FromSpecImpl<cdevents_sdk::CDEvent> for Message {
    open spec fn obeys_from_spec() -> bool {
        true
    }

    open spec fn from_spec(v: cdevents_sdk::CDEvent) -> Message {
        Message { cdevent: v }
    }
}

} // verus!
