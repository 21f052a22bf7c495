use vstd::prelude::*;

verus! {

/// The channels that a process holds, by raw handle.
pub struct ChannelCollection {
    handles: Vec<u64>,
}

impl ChannelCollection {
    /// The handles held, in the order they were added.
    pub closed spec fn handles(&self) -> Seq<u64> {
        self.handles@
    }

    /// An empty collection.
    pub fn new() -> (collection: Self)
        ensures
            collection.handles() == Seq::<u64>::empty(),
    {
        ChannelCollection { handles: Vec::new() }
    }
}

} // verus!
