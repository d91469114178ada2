//! Requests sent to the daemon's tasks to control them.

use vstd::prelude::*;

verus! {

/// A control request: nothing, or stop.
pub enum EventRequestType {
    Nop,
    Shutdown,
}

/// The acknowledgement of a control request.
pub struct EventResult {}

impl EventResult {
    pub fn new() -> (r: EventResult) {
        EventResult {  }
    }
}

/// A task stops (and acknowledges) on `Shutdown` and goes on otherwise.
pub fn is_shutdown(req: &EventRequestType) -> (r: bool)
    ensures
        r == (*req is Shutdown),
{
    match req {
        EventRequestType::Shutdown => true,
        EventRequestType::Nop => false,
    }
}

} // verus!
