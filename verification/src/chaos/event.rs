use vstd::prelude::*;
use crate::chaos::handle::{ChannelHandle, ProcessHandle, ServiceHandle, ServiceSubscribeHandle, TimerHandle};

verus! {

/// The kind of a kernel event. The kernel sends it as a 32-bit integer:
/// `ServiceConnected` 100, `ServiceAvailable` 101, `ChannelSignalled` 200,
/// `ChannelDestroyed` 201, `TimerFired` 300, `ProcessExited` 400.
#[derive(PartialEq, Eq, Structural, Debug, Clone, Copy)]
pub enum StormAction {
    ServiceConnected,
    ServiceAvailable,
    ChannelSignalled,
    ChannelDestroyed,
    TimerFired,
    ProcessExited,
}

/// The integer code of an event kind.
pub open spec fn action_code(action: StormAction) -> i32 {
    match action {
        StormAction::ServiceConnected => 100,
        StormAction::ServiceAvailable => 101,
        StormAction::ChannelSignalled => 200,
        StormAction::ChannelDestroyed => 201,
        StormAction::TimerFired => 300,
        StormAction::ProcessExited => 400,
    }
}

impl StormAction {
    /// Encodes an event kind as the kernel's integer code.
    pub fn to_i32(&self) -> (value: i32)
        ensures
            value == action_code(*self),
    {
        match self {
            StormAction::ServiceConnected => 100,
            StormAction::ServiceAvailable => 101,
            StormAction::ChannelSignalled => 200,
            StormAction::ChannelDestroyed => 201,
            StormAction::TimerFired => 300,
            StormAction::ProcessExited => 400,
        }
    }

    /// Decodes the kernel's integer code of an event kind; `None` for a code
    /// that names no kind.
    pub fn from_i32(value: i32) -> (action: Option<Self>)
        ensures
            action matches Some(a) ==> action_code(a) == value,
            action is None ==> (forall|a: StormAction| action_code(a) != value),
    {
        match value {
            100 => Some(StormAction::ServiceConnected),
            101 => Some(StormAction::ServiceAvailable),
            200 => Some(StormAction::ChannelSignalled),
            201 => Some(StormAction::ChannelDestroyed),
            300 => Some(StormAction::TimerFired),
            400 => Some(StormAction::ProcessExited),
            _ => {
                assert forall|a: StormAction| action_code(a) != value by {
                    match a {
                        StormAction::ServiceConnected => {},
                        StormAction::ServiceAvailable => {},
                        StormAction::ChannelSignalled => {},
                        StormAction::ChannelDestroyed => {},
                        StormAction::TimerFired => {},
                        StormAction::ProcessExited => {},
                    }
                }
                None
            },
        }
    }
}

/// A kernel event together with the handles that it concerns.
#[derive(Debug, Copy, Clone, PartialEq, Eq, Structural)]
pub enum StormEvent {
    ServiceConnected(ServiceHandle, ChannelHandle),
    ServiceAvailable(ServiceSubscribeHandle),
    ChannelSignalled(ChannelHandle),
    ChannelDestroyed(ChannelHandle),
    TimerFired(TimerHandle),
    ProcessExited(ProcessHandle),
}

/// The event that the kernel reports as an event kind, a target handle and
/// an argument handle (the argument is only meaningful for a connection,
/// where it is the new channel).
pub open spec fn spec_event_from_kernel(target: u64, argument: u64, action: StormAction) -> StormEvent {
    match action {
        StormAction::ServiceConnected => StormEvent::ServiceConnected(ServiceHandle(target), ChannelHandle(argument)),
        StormAction::ServiceAvailable => StormEvent::ServiceAvailable(ServiceSubscribeHandle(target)),
        StormAction::ChannelSignalled => StormEvent::ChannelSignalled(ChannelHandle(target)),
        StormAction::ChannelDestroyed => StormEvent::ChannelDestroyed(ChannelHandle(target)),
        StormAction::TimerFired => StormEvent::TimerFired(TimerHandle(target)),
        StormAction::ProcessExited => StormEvent::ProcessExited(ProcessHandle(target)),
    }
}

impl StormEvent {
    /// Builds the event that a kernel event-wait reply describes.
    pub fn from_kernel(target: u64, argument: u64, action: StormAction) -> (event: Self)
        ensures
            event == spec_event_from_kernel(target, argument, action),
    {
        match action {
            StormAction::ServiceConnected => StormEvent::ServiceConnected(ServiceHandle(target), ChannelHandle(argument)),
            StormAction::ServiceAvailable => StormEvent::ServiceAvailable(ServiceSubscribeHandle(target)),
            StormAction::ChannelSignalled => StormEvent::ChannelSignalled(ChannelHandle(target)),
            StormAction::ChannelDestroyed => StormEvent::ChannelDestroyed(ChannelHandle(target)),
            StormAction::TimerFired => StormEvent::TimerFired(TimerHandle(target)),
            StormAction::ProcessExited => StormEvent::ProcessExited(ProcessHandle(target)),
        }
    }
}

/// Decoding the code of an event kind gives the kind back: the codes of
/// distinct kinds differ.
pub proof fn lemma_action_code_injective(a: StormAction, b: StormAction)
    ensures
        action_code(a) == action_code(b) ==> a == b,
{
}

} // verus!
