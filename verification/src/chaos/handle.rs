use vstd::prelude::*;

verus! {

/// Kernel handle of a service that this process created.
#[derive(Copy, Clone, Eq, PartialEq, Structural, Hash, Ord, PartialOrd, Debug)]
pub struct ServiceHandle(pub u64);

impl ServiceHandle {
    /// The raw kernel value of the handle.
    pub fn raw_handle(&self) -> (raw: u64)
        ensures
            raw == self.0,
    {
        self.0
    }
}

/// Kernel handle of a channel between a client and a service.
#[derive(Copy, Clone, Eq, PartialEq, Structural, Hash, Ord, PartialOrd, Debug)]
pub struct ChannelHandle(pub u64);

impl ChannelHandle {
    /// The raw kernel value of the handle.
    pub fn raw_handle(&self) -> (raw: u64)
        ensures
            raw == self.0,
    {
        self.0
    }
}

/// Kernel handle of a subscription to a service becoming available.
#[derive(Copy, Clone, Eq, PartialEq, Structural, Hash, Ord, PartialOrd, Debug)]
pub struct ServiceSubscribeHandle(pub u64);

impl ServiceSubscribeHandle {
    /// The raw kernel value of the handle.
    pub fn raw_handle(&self) -> (raw: u64)
        ensures
            raw == self.0,
    {
        self.0
    }
}

/// Kernel handle of a timer.
#[derive(Copy, Clone, Eq, PartialEq, Structural, Hash, Ord, PartialOrd, Debug)]
pub struct TimerHandle(pub u64);

impl TimerHandle {
    /// The raw kernel value of the handle.
    pub fn raw_handle(&self) -> (raw: u64)
        ensures
            raw == self.0,
    {
        self.0
    }
}

/// Kernel handle of a process.
#[derive(Copy, Clone, Eq, PartialEq, Structural, Hash, Ord, PartialOrd, Debug)]
pub struct ProcessHandle(pub u64);

impl ProcessHandle {
    /// The raw kernel value of the handle.
    pub fn raw_handle(&self) -> (raw: u64)
        ensures
            raw == self.0,
    {
        self.0
    }
}

} // verus!
