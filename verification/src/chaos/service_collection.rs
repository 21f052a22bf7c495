use vstd::prelude::*;
use crate::chaos::error::StormError;
use crate::chaos::syscalls::{service_destroy, service_destroy_request};

verus! {

/// The services that a process created, by raw handle, in creation order.
pub struct ServiceCollection {
    service_handles: Vec<u64>,
}

impl ServiceCollection {
    /// The handles held, in creation order.
    pub closed spec fn handles(&self) -> Seq<u64> {
        self.service_handles@
    }

    /// An empty collection.
    pub fn new() -> (collection: Self)
        ensures
            collection.handles() == Seq::<u64>::empty(),
    {
        ServiceCollection { service_handles: Vec::new() }
    }

    /// Records the outcome of a service-creation call (see
    /// `syscalls::service_create`): a created handle is appended and handed
    /// back; an error is handed back and nothing is recorded.
    pub fn create(&mut self, outcome: Result<u64, StormError>) -> (result: Result<u64, StormError>)
        ensures
            result == outcome,
            outcome matches Ok(handle) ==> final(self).handles() == old(self).handles().push(handle),
            outcome is Err ==> final(self).handles() == old(self).handles(),
    {
        match outcome {
            Ok(handle) => {
                self.service_handles.push(handle);
                Ok(handle)
            },
            Err(error) => Err(error),
        }
    }

    /// Forgets every record of `service_handle` and returns the kernel
    /// request that destroys the service.
    pub fn destroy(&mut self, service_handle: u64) -> (request: Vec<u8>)
        ensures
            request@ == service_destroy_request(service_handle),
            final(self).handles() == old(self).handles().filter(|h: u64| h != service_handle),
    {
        let mut kept: Vec<u64> = Vec::new();
        let mut i: usize = 0;
        while i < self.service_handles.len()
            invariant
                i <= self.service_handles@.len(),
                self.service_handles@ == old(self).service_handles@,
                kept@ == self.service_handles@.subrange(0, i as int).filter(|h: u64| h != service_handle),
            decreases self.service_handles@.len() - i,
        {
            let h = self.service_handles[i];
            proof {
                let s = self.service_handles@;
                assert(s.subrange(0, i + 1) =~= s.subrange(0, i as int).push(h));
                s.subrange(0, i as int).lemma_filter_push(h, |h: u64| h != service_handle);
            }
            if h != service_handle {
                kept.push(h);
            }
            i += 1;
        }
        proof {
            assert(self.service_handles@.subrange(0, i as int) =~= self.service_handles@);
        }
        self.service_handles = kept;
        service_destroy(service_handle)
    }
}

} // verus!
