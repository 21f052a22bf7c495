use vstd::prelude::*;

verus! {

/// The state that a process keeps for a service it created.
pub struct Service {}

impl Service {
    /// A new service record.
    pub fn new() -> (service: Self)
        ensures
            service == (Service {}),
    {
        Service {}
    }
}

} // verus!
