//! The kinds of event that the feed carries.

use vstd::prelude::*;

verus! {

/// What an event of the feed is about.
#[derive(Debug, Clone, Copy, PartialEq, Eq, Structural)]
pub enum EventResource {
    Program,
    Service,
    Tuner,
}

/// Why an event could not be read as what was asked for.
#[derive(Debug, Clone, Copy, PartialEq, Eq, Structural)]
pub enum DeErrReason {
    /// The event is about another kind of thing.
    ResourceKindMismatch,
}

/// An event could not be read as what was asked for.
#[derive(Debug, Clone, Copy, PartialEq, Eq, Structural)]
pub struct DeError {
    pub reason: DeErrReason,
}

impl DeError {
    /// The error in words.
    pub fn message(&self) -> (text: String)
        ensures
            text@ == "the event is about another kind of resource"@,
    {
        String::from_str("the event is about another kind of resource")
    }
}

/// Admits an event as one about a service: it is one exactly if its
/// resource says so.
pub fn expect_service(resource: EventResource) -> (admitted: Result<(), DeError>)
    ensures
        admitted is Ok <==> resource == EventResource::Service,
        admitted is Err ==> admitted == Err::<(), DeError>(
            DeError { reason: DeErrReason::ResourceKindMismatch },
        ),
{
    match resource {
        EventResource::Service => Ok(()),
        _ => Err(DeError { reason: DeErrReason::ResourceKindMismatch }),
    }
}

} // verus!
