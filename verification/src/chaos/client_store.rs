use vstd::prelude::*;
use crate::chaos::handle::{ChannelHandle, ServiceHandle};

verus! {

/// The key of a client: the service it connected to and its channel.
pub open spec fn client_key<T>(entry: (ServiceHandle, ChannelHandle, T)) -> (u64, u64) {
    (entry.0.0, entry.1.0)
}

/// Keys in lexicographic order: by service, then by channel.
pub open spec fn key_less(a: (u64, u64), b: (u64, u64)) -> bool {
    a.0 < b.0 || (a.0 == b.0 && a.1 < b.1)
}

/// The entries are in strictly increasing key order (so no key occurs twice).
pub open spec fn strictly_sorted<T>(entries: Seq<(ServiceHandle, ChannelHandle, T)>) -> bool {
    forall|i: int, j: int|
        0 <= i < j < entries.len() ==> key_less(
            #[trigger] client_key(entries[i]),
            #[trigger] client_key(entries[j]),
        )
}

/// Whether some entry has the key `(service, channel)`.
pub open spec fn has_key<T>(entries: Seq<(ServiceHandle, ChannelHandle, T)>, service: u64, channel: u64) -> bool {
    exists|i: int| 0 <= i < entries.len() && #[trigger] client_key(entries[i]) == (service, channel)
}

/// The client stored under the key `(service, channel)`, if any.
pub open spec fn client_under<T>(entries: Seq<(ServiceHandle, ChannelHandle, T)>, service: u64, channel: u64) -> Option<T> {
    if has_key(entries, service, channel) {
        let i = choose|i: int| 0 <= i < entries.len() && #[trigger] client_key(entries[i]) == (service, channel);
        Some(entries[i].2)
    } else {
        None
    }
}

/// The entries after `client` was added under `(service, channel)`: the
/// entry under that key replaced, or a new entry inserted.
pub open spec fn added_entries<T>(before: Seq<(ServiceHandle, ChannelHandle, T)>, after: Seq<(ServiceHandle, ChannelHandle, T)>, service: ServiceHandle, channel: ChannelHandle, client: T) -> bool {
    &&& has_key(before, service.0, channel.0) ==> exists|i: int|
        0 <= i < before.len()
        && client_key(#[trigger] before[i]) == (service.0, channel.0)
        && after == before.update(i, (service, channel, client))
    &&& !has_key(before, service.0, channel.0) ==> exists|i: int|
        0 <= i <= before.len()
        && after == #[trigger] before.insert(i, (service, channel, client))
}

/// The entries after the client under `(service, channel)` was removed: its
/// entry gone, or nothing changed if there was none.
pub open spec fn removed_entries<T>(before: Seq<(ServiceHandle, ChannelHandle, T)>, after: Seq<(ServiceHandle, ChannelHandle, T)>, service: ServiceHandle, channel: ChannelHandle) -> bool {
    &&& !has_key(before, service.0, channel.0) ==> after == before
    &&& has_key(before, service.0, channel.0) ==> exists|i: int|
        0 <= i < before.len()
        && client_key(#[trigger] before[i]) == (service.0, channel.0)
        && after == before.remove(i)
}

/// In sorted entries, the entry at `j` is the one found under its key.
pub proof fn lemma_client_under_at<T>(entries: Seq<(ServiceHandle, ChannelHandle, T)>, j: int)
    requires
        strictly_sorted(entries),
        0 <= j < entries.len(),
    ensures
        client_under(entries, client_key(entries[j]).0, client_key(entries[j]).1) == Some(entries[j].2),
{
    let k = client_key(entries[j]);
    assert(has_key(entries, k.0, k.1));
    let i = choose|i: int| 0 <= i < entries.len() && #[trigger] client_key(entries[i]) == (k.0, k.1);
    if i < j {
        assert(key_less(client_key(entries[i]), client_key(entries[j])));
    } else if j < i {
        assert(key_less(client_key(entries[j]), client_key(entries[i])));
    }
}

/// Looking a key up after a client was added under it finds that client;
/// every other key finds what it found before.
pub proof fn law_add_then_get<T>(before: Seq<(ServiceHandle, ChannelHandle, T)>, after: Seq<(ServiceHandle, ChannelHandle, T)>, service: ServiceHandle, channel: ChannelHandle, client: T)
    requires
        strictly_sorted(before),
        strictly_sorted(after),
        added_entries(before, after, service, channel, client),
    ensures
        client_under(after, service.0, channel.0) == Some(client),
        forall|s: u64, c: u64| (s, c) != (service.0, channel.0) ==>
            #[trigger] client_under(after, s, c) == client_under(before, s, c),
{
    let i = if has_key(before, service.0, channel.0) {
        choose|i: int| 0 <= i < before.len() && client_key(#[trigger] before[i]) == (service.0, channel.0)
            && after == before.update(i, (service, channel, client))
    } else {
        choose|i: int| 0 <= i <= before.len() && after == #[trigger] before.insert(i, (service, channel, client))
    };
    assert(after[i] == (service, channel, client));
    lemma_client_under_at(after, i);
    assert forall|s: u64, c: u64| (s, c) != (service.0, channel.0) implies
        #[trigger] client_under(after, s, c) == client_under(before, s, c) by {
        let fresh = !has_key(before, service.0, channel.0);
        // the index in `before` of the entry at index `j` of `after`, for `j != i`
        if has_key(after, s, c) {
            let j = choose|j: int| 0 <= j < after.len() && #[trigger] client_key(after[j]) == (s, c);
            lemma_client_under_at(after, j);
            let jb = if fresh && j > i { j - 1 } else { j };
            assert(after[j] == before[jb]);
            lemma_client_under_at(before, jb);
        } else if has_key(before, s, c) {
            let jb = choose|jb: int| 0 <= jb < before.len() && #[trigger] client_key(before[jb]) == (s, c);
            let j = if fresh && jb >= i { jb + 1 } else { jb };
            assert(after[j] == before[jb]);
            assert(has_key(after, s, c));
        }
    }
}

/// After the client under a key was removed, that key finds nothing; every
/// other key finds what it found before.
pub proof fn law_remove_then_get<T>(before: Seq<(ServiceHandle, ChannelHandle, T)>, after: Seq<(ServiceHandle, ChannelHandle, T)>, service: ServiceHandle, channel: ChannelHandle)
    requires
        strictly_sorted(before),
        removed_entries(before, after, service, channel),
    ensures
        client_under(after, service.0, channel.0) is None,
        forall|s: u64, c: u64| (s, c) != (service.0, channel.0) ==>
            #[trigger] client_under(after, s, c) == client_under(before, s, c),
{
    if has_key(before, service.0, channel.0) {
        let i = choose|i: int| 0 <= i < before.len() && client_key(#[trigger] before[i]) == (service.0, channel.0)
            && after == before.remove(i);
        assert(strictly_sorted(after)) by {
            assert forall|a: int, b: int| 0 <= a < b < after.len() implies key_less(
                #[trigger] client_key(after[a]), #[trigger] client_key(after[b])) by {
                let aa = if a >= i { a + 1 } else { a };
                let bb = if b >= i { b + 1 } else { b };
                assert(after[a] == before[aa]);
                assert(after[b] == before[bb]);
                assert(key_less(client_key(before[aa]), client_key(before[bb])));
            }
        }
        if has_key(after, service.0, channel.0) {
            let j = choose|j: int| 0 <= j < after.len() && #[trigger] client_key(after[j]) == (service.0, channel.0);
            let jb = if j >= i { j + 1 } else { j };
            assert(after[j] == before[jb]);
            if jb < i {
                assert(key_less(client_key(before[jb]), client_key(before[i])));
            } else {
                assert(key_less(client_key(before[i]), client_key(before[jb])));
            }
        }
        assert forall|s: u64, c: u64| (s, c) != (service.0, channel.0) implies
            #[trigger] client_under(after, s, c) == client_under(before, s, c) by {
            if has_key(after, s, c) {
                let j = choose|j: int| 0 <= j < after.len() && #[trigger] client_key(after[j]) == (s, c);
                lemma_client_under_at(after, j);
                let jb = if j >= i { j + 1 } else { j };
                assert(after[j] == before[jb]);
                lemma_client_under_at(before, jb);
            } else if has_key(before, s, c) {
                let jb = choose|jb: int| 0 <= jb < before.len() && #[trigger] client_key(before[jb]) == (s, c);
                assert(jb != i);
                let j = if jb > i { jb - 1 } else { jb };
                assert(after[j] == before[jb]);
                assert(has_key(after, s, c));
            }
        }
    }
}

/// An operation on a client store: adding a client under a key, or
/// removing the client under a key.
pub enum StoreOp<T> {
    Add(ServiceHandle, ChannelHandle, T),
    Remove(ServiceHandle, ChannelHandle),
}

/// The client that a history of operations leaves under `(service,
/// channel)`: the one of the last addition under that key, unless a
/// removal of that key came after it.
pub open spec fn last_added<T>(ops: Seq<StoreOp<T>>, service: u64, channel: u64) -> Option<T>
    decreases ops.len(),
{
    if ops.len() == 0 {
        None
    } else {
        match ops.last() {
            StoreOp::Add(s, c, x) => if s.0 == service && c.0 == channel { Some(x) } else { last_added(ops.drop_last(), service, channel) },
            StoreOp::Remove(s, c) => if s.0 == service && c.0 == channel { None } else { last_added(ops.drop_last(), service, channel) },
        }
    }
}

/// Whether `after` holds the entries after `op` on `before`, as
/// `add_client` and `remove_client` state it.
pub open spec fn store_step<T>(before: Seq<(ServiceHandle, ChannelHandle, T)>, after: Seq<(ServiceHandle, ChannelHandle, T)>, op: StoreOp<T>) -> bool {
    match op {
        StoreOp::Add(s, c, x) => added_entries(before, after, s, c, x),
        StoreOp::Remove(s, c) => removed_entries(before, after, s, c),
    }
}

/// Whether `states` are the entries of a store, sorted as a store keeps
/// them, from empty and then after each of `ops` in turn.
pub open spec fn store_history<T>(states: Seq<Seq<(ServiceHandle, ChannelHandle, T)>>, ops: Seq<StoreOp<T>>) -> bool {
    &&& states.len() == ops.len() + 1
    &&& states[0].len() == 0
    &&& forall|i: int| 0 <= i < states.len() ==> strictly_sorted(#[trigger] states[i])
    &&& forall|i: int| 0 <= i < ops.len() ==> #[trigger] store_step(states[i], states[i + 1], ops[i])
}

proof fn lemma_get_after_history<T>(states: Seq<Seq<(ServiceHandle, ChannelHandle, T)>>, ops: Seq<StoreOp<T>>, n: int)
    requires
        store_history(states, ops),
        0 <= n <= ops.len(),
    ensures
        forall|s: u64, c: u64| #[trigger] client_under(states[n], s, c) == last_added(ops.take(n), s, c),
    decreases n,
{
    if n == 0 {
        assert forall|s: u64, c: u64| #[trigger] client_under(states[n], s, c) == last_added(ops.take(n), s, c) by {
            assert(!has_key(states[0], s, c));
        }
    } else {
        lemma_get_after_history(states, ops, n - 1);
        let before = states[n - 1];
        let after = states[n];
        assert(strictly_sorted(before));
        assert(strictly_sorted(after));
        let m = n - 1;
        assert(store_step(states[m], states[m + 1], ops[m]));
        assert(ops.take(n).drop_last() =~= ops.take(n - 1));
        assert(ops.take(n).last() == ops[n - 1]);
        match ops[n - 1] {
            StoreOp::Add(sv, ch, x) => {
                law_add_then_get(before, after, sv, ch, x);
            },
            StoreOp::Remove(sv, ch) => {
                law_remove_then_get(before, after, sv, ch);
            },
        }
        assert forall|s: u64, c: u64| #[trigger] client_under(states[n], s, c) == last_added(ops.take(n), s, c) by {
            assert(client_under(states[n - 1], s, c) == last_added(ops.take(n - 1), s, c));
        }
    }
}

/// After any history of additions and removals from an empty store, the
/// client found under a key is the one of the last addition under it,
/// unless a removal of that key came after it.
pub proof fn law_get_after_history<T>(states: Seq<Seq<(ServiceHandle, ChannelHandle, T)>>, ops: Seq<StoreOp<T>>)
    requires
        store_history(states, ops),
    ensures
        forall|s: u64, c: u64| #[trigger] client_under(states.last(), s, c) == last_added(ops, s, c),
{
    lemma_get_after_history(states, ops, ops.len() as int);
    assert(ops.take(ops.len() as int) =~= ops);
}

/// When every addition is under a key not in use and every removal under a
/// key in use, the counter, which each raises or lowers by one, equals the
/// number of stored clients after any such history from an empty store.
pub proof fn law_count_after_history<T>(states: Seq<Seq<(ServiceHandle, ChannelHandle, T)>>, ops: Seq<StoreOp<T>>, counts: Seq<int>)
    requires
        store_history(states, ops),
        counts.len() == states.len(),
        counts[0] == 0,
        forall|i: int| 0 <= i < ops.len() ==> match #[trigger] ops[i] {
            StoreOp::Add(s, c, x) => !has_key(states[i], s.0, c.0) && counts[i + 1] == counts[i] + 1,
            StoreOp::Remove(s, c) => has_key(states[i], s.0, c.0) && counts[i + 1] == counts[i] - 1,
        },
    ensures
        counts.last() == states.last().len(),
    decreases ops.len(),
{
    if ops.len() > 0 {
        let n = ops.len() - 1;
        let states0 = states.take(n + 1);
        let ops0 = ops.take(n);
        let counts0 = counts.take(n + 1);
        assert forall|i: int| 0 <= i < states0.len() implies strictly_sorted(#[trigger] states0[i]) by {
            assert(states0[i] == states[i]);
        }
        assert forall|i: int| 0 <= i < ops0.len() implies #[trigger] store_step(states0[i], states0[i + 1], ops0[i]) by {
            assert(store_step(states[i], states[i + 1], ops[i]));
        }
        assert forall|i: int| 0 <= i < ops0.len() implies match #[trigger] ops0[i] {
            StoreOp::Add(s, c, x) => !has_key(states0[i], s.0, c.0) && counts0[i + 1] == counts0[i] + 1,
            StoreOp::Remove(s, c) => has_key(states0[i], s.0, c.0) && counts0[i + 1] == counts0[i] - 1,
        } by {
            assert(ops0[i] == ops[i]);
            assert(match ops[i] {
                StoreOp::Add(s, c, x) => !has_key(states[i], s.0, c.0) && counts[i + 1] == counts[i] + 1,
                StoreOp::Remove(s, c) => has_key(states[i], s.0, c.0) && counts[i + 1] == counts[i] - 1,
            });
        }
        law_count_after_history(states0, ops0, counts0);
        assert(store_step(states[n], states[n + 1], ops[n]));
        assert(match ops[n] {
            StoreOp::Add(s, c, x) => !has_key(states[n], s.0, c.0) && counts[n + 1] == counts[n] + 1,
            StoreOp::Remove(s, c) => has_key(states[n], s.0, c.0) && counts[n + 1] == counts[n] - 1,
        });
    }
}

/// The registry of connected clients of a server, grouped by the service
/// they connected to. Entries are kept in increasing order of service handle
/// and, within a service, of channel handle; that is the order in which
/// `first`, `first_matching` and `for_each_mut` visit them. A service stays
/// registered once a client of it was added, also after its last client was
/// removed. The client count is kept as a separate counter, which `add_client`
/// raises and `remove_client` lowers as described on each.
pub struct ClientStore<TClient> {
    services: Vec<ServiceHandle>,
    clients: Vec<(ServiceHandle, ChannelHandle, TClient)>,
    client_count: usize,
}

impl<TClient> ClientStore<TClient> {
    /// The store's invariant: entries strictly sorted by key, services strictly
    /// sorted and every entry's service registered.
    pub closed spec fn wf(&self) -> bool {
        &&& strictly_sorted(self.clients@)
        &&& forall|i: int, j: int|
            0 <= i < j < self.services@.len() ==> (#[trigger] self.services@[i]).0 < (#[trigger] self.services@[j]).0
        &&& forall|i: int|
            0 <= i < self.clients@.len() ==> self.services@.contains((#[trigger] self.clients@[i]).0)
    }

    /// The clients in visiting order, each with its service and channel.
    pub closed spec fn entries(&self) -> Seq<(ServiceHandle, ChannelHandle, TClient)> {
        self.clients@
    }

    /// The services that a client was ever added for.
    pub closed spec fn registered(&self) -> Set<ServiceHandle> {
        Set::new(|s: ServiceHandle| self.services@.contains(s))
    }

    /// The value of the client counter.
    pub closed spec fn count(&self) -> nat {
        self.client_count as nat
    }

    /// In a well-formed store the entries are in strictly increasing key
    /// order and every entry's service is registered.
    pub proof fn lemma_wf_entries(&self)
        requires
            self.wf(),
        ensures
            strictly_sorted(self.entries()),
            forall|i: int| 0 <= i < self.entries().len() ==> self.registered().contains(#[trigger] self.entries()[i].0),
    {
    }

    /// An empty store with no registered service.
    pub fn new() -> (store: Self)
        ensures
            store.entries() == Seq::<(ServiceHandle, ChannelHandle, TClient)>::empty(),
            store.registered() == Set::<ServiceHandle>::empty(),
            store.count() == 0,
            store.wf(),
    {
        let store = ClientStore { services: Vec::new(), clients: Vec::new(), client_count: 0 };
        proof {
            assert(store.registered() =~= Set::<ServiceHandle>::empty());
        }
        store
    }

    /// The position of the first entry whose key is not below `(service, channel)`,
    /// and whether that entry has exactly this key.
    fn locate(&self, service: ServiceHandle, channel: ChannelHandle) -> (res: (usize, bool))
        ensures
            res.0 <= self.entries().len(),
            forall|i: int| 0 <= i < res.0 ==> key_less(#[trigger] client_key(self.entries()[i]), (service.0, channel.0)),
            res.0 < self.entries().len() ==> !key_less(client_key(self.entries()[res.0 as int]), (service.0, channel.0)),
            res.1 <==> (res.0 < self.entries().len() && client_key(self.entries()[res.0 as int]) == (service.0, channel.0)),
    {
        let mut i: usize = 0;
        while i < self.clients.len()
            invariant
                i <= self.clients@.len(),
                forall|j: int| 0 <= j < i ==> key_less(#[trigger] client_key(self.clients@[j]), (service.0, channel.0)),
            decreases self.clients@.len() - i,
        {
            let s = self.clients[i].0.0;
            let c = self.clients[i].1.0;
            if s > service.0 || (s == service.0 && c >= channel.0) {
                return (i, s == service.0 && c == channel.0);
            }
            i += 1;
        }
        (i, false)
    }

    /// Registers `service` in the sorted list of services, if it is not there yet.
    fn register_service(services: &mut Vec<ServiceHandle>, service: ServiceHandle)
        requires
            forall|i: int, j: int|
                0 <= i < j < old(services)@.len() ==> (#[trigger] old(services)@[i]).0 < (#[trigger] old(services)@[j]).0,
        ensures
            forall|i: int, j: int|
                0 <= i < j < final(services)@.len() ==> (#[trigger] final(services)@[i]).0 < (#[trigger] final(services)@[j]).0,
            forall|x: ServiceHandle| #[trigger] final(services)@.contains(x) <==> (old(services)@.contains(x) || x == service),
    {
        let ghost old_services = services@;
        let mut i: usize = 0;
        while i < services.len() && services[i].0 < service.0
            invariant
                i <= services@.len(),
                services@ == old_services,
                forall|a: int, b: int|
                    0 <= a < b < old_services.len() ==> (#[trigger] old_services[a]).0 < (#[trigger] old_services[b]).0,
                forall|j: int| 0 <= j < i ==> (#[trigger] services@[j]).0 < service.0,
            decreases services@.len() - i,
        {
            i += 1;
        }
        if i < services.len() && services[i].0 == service.0 {
            proof {
                assert(services@[i as int] == service);
            }
            return;
        }
        services.insert(i, service);
        proof {
            assert forall|x: ServiceHandle| #[trigger] services@.contains(x) <==> (old_services.contains(x) || x == service) by {
                if services@.contains(x) {
                    let k = choose|k: int| 0 <= k < services@.len() && services@[k] == x;
                    if k < i {
                        assert(old_services[k] == x);
                    } else if k > i {
                        assert(old_services[k - 1] == x);
                    }
                }
                if old_services.contains(x) {
                    let k = choose|k: int| 0 <= k < old_services.len() && old_services[k] == x;
                    if k < i {
                        assert(services@[k] == x);
                    } else {
                        assert(services@[k + 1] == x);
                    }
                }
                if x == service {
                    assert(services@[i as int] == x);
                }
            }
            assert forall|a: int, b: int| 0 <= a < b < services@.len() implies (#[trigger] services@[a]).0 < (#[trigger] services@[b]).0 by {
                if b < i {
                } else if a < i && b == i {
                } else if a < i && b > i {
                    assert(old_services[a].0 < old_services[b - 1].0);
                } else if a == i {
                    assert(old_services[b - 1].0 > service.0);
                    if b - 1 > i {
                        assert(old_services[i as int].0 < old_services[b - 1].0);
                    }
                } else {
                    assert(old_services[a - 1].0 < old_services[b - 1].0);
                }
            }
        }
    }

    /// Adds a client under `(service_handle, channel_handle)`, replacing the
    /// client stored under that key if there is one, registers the service,
    /// and raises the client counter by one in either case.
    pub fn add_client(&mut self, service_handle: ServiceHandle, channel_handle: ChannelHandle, client: TClient)
        requires
            old(self).wf(),
            old(self).count() < usize::MAX,
        ensures
            final(self).wf(),
            final(self).count() == old(self).count() + 1,
            final(self).registered() == old(self).registered().insert(service_handle),
            strictly_sorted(final(self).entries()),
            has_key(old(self).entries(), service_handle.0, channel_handle.0) ==> exists|i: int|
                0 <= i < old(self).entries().len()
                && client_key(#[trigger] old(self).entries()[i]) == (service_handle.0, channel_handle.0)
                && final(self).entries() == old(self).entries().update(i, (service_handle, channel_handle, client)),
            !has_key(old(self).entries(), service_handle.0, channel_handle.0) ==> exists|i: int|
                0 <= i <= old(self).entries().len()
                && final(self).entries() == #[trigger] old(self).entries().insert(i, (service_handle, channel_handle, client)),
            added_entries(old(self).entries(), final(self).entries(), service_handle, channel_handle, client),
            // a store whose counter equals its number of clients keeps that property
            // when a client is added under a fresh key
            (old(self).count() == old(self).entries().len() && !has_key(old(self).entries(), service_handle.0, channel_handle.0))
                ==> final(self).count() == final(self).entries().len(),
    {
        let (i, found) = self.locate(service_handle, channel_handle);
        let ghost old_entries = self.clients@;
        if found {
            let mut clients = Vec::new();
            std::mem::swap(&mut clients, &mut self.clients);
            clients.set(i, (service_handle, channel_handle, client));
            proof {
                assert(client_key(old_entries[i as int]) == (service_handle.0, channel_handle.0));
                assert(self.services@.contains(service_handle)) by {
                    assert(self.services@.contains(old_entries[i as int].0));
                    assert(old_entries[i as int].0 == service_handle);
                }
                assert forall|a: int, b: int| 0 <= a < b < clients@.len() implies key_less(
                    #[trigger] client_key(clients@[a]),
                    #[trigger] client_key(clients@[b]),
                ) by {
                    assert(key_less(client_key(old_entries[a]), client_key(old_entries[b])));
                }
                assert forall|k: int| 0 <= k < clients@.len() implies self.services@.contains((#[trigger] clients@[k]).0) by {
                    if k != i {
                        assert(clients@[k] == old_entries[k]);
                    }
                }
            }
            self.clients = clients;
            proof {
                assert(self.registered() =~= old(self).registered().insert(service_handle));
            }
        } else {
            proof {
                assert forall|k: int| 0 <= k < old_entries.len() implies client_key(#[trigger] old_entries[k]) != (service_handle.0, channel_handle.0) by {
                    if k < i {
                    } else if k > i {
                        assert(key_less(client_key(old_entries[i as int]), client_key(old_entries[k])));
                    }
                }
            }
            let mut services = Vec::new();
            std::mem::swap(&mut services, &mut self.services);
            Self::register_service(&mut services, service_handle);
            proof {
                assert(services@.contains(service_handle));
                assert forall|k: int| 0 <= k < old_entries.len() implies services@.contains((#[trigger] old_entries[k]).0) by {
                    assert(old(self).services@.contains(old_entries[k].0));
                }
            }
            let mut clients = Vec::new();
            std::mem::swap(&mut clients, &mut self.clients);
            clients.insert(i, (service_handle, channel_handle, client));
            proof {
                assert forall|a: int, b: int| 0 <= a < b < clients@.len() implies key_less(
                    #[trigger] client_key(clients@[a]),
                    #[trigger] client_key(clients@[b]),
                ) by {
                    if a < i && b == i {
                    } else if a < i && b > i {
                        assert(key_less(client_key(old_entries[a]), client_key(old_entries[b - 1])));
                    } else if a == i && b > i {
                        assert(!key_less(client_key(old_entries[i as int]), (service_handle.0, channel_handle.0)));
                        assert(client_key(old_entries[i as int]) != (service_handle.0, channel_handle.0));
                        if b - 1 > i {
                            assert(key_less(client_key(old_entries[i as int]), client_key(old_entries[b - 1])));
                        }
                    } else if a > i {
                        assert(key_less(client_key(old_entries[a - 1]), client_key(old_entries[b - 1])));
                    } else {
                        assert(key_less(client_key(old_entries[a]), client_key(old_entries[b])));
                    }
                }
                assert forall|k: int| 0 <= k < clients@.len() implies services@.contains((#[trigger] clients@[k]).0) by {
                    if k < i {
                        assert(clients@[k] == old_entries[k]);
                    } else if k > i {
                        assert(clients@[k] == old_entries[k - 1]);
                    } else {
                    }
                }
            }
            self.services = services;
            self.clients = clients;
            proof {
                assert(self.registered() =~= old(self).registered().insert(service_handle));
            }
        }
        self.client_count = self.client_count + 1;
    }

    /// Replaces the client stored under `(service_handle, channel_handle)`,
    /// if there is one, and answers whether there was; the counter and the
    /// registered services do not change.
    pub fn update_client(&mut self, service_handle: ServiceHandle, channel_handle: ChannelHandle, client: TClient) -> (updated: bool)
        requires
            old(self).wf(),
        ensures
            final(self).wf(),
            final(self).count() == old(self).count(),
            final(self).registered() == old(self).registered(),
            updated == has_key(old(self).entries(), service_handle.0, channel_handle.0),
            updated ==> exists|i: int|
                0 <= i < old(self).entries().len()
                && client_key(#[trigger] old(self).entries()[i]) == (service_handle.0, channel_handle.0)
                && final(self).entries() == old(self).entries().update(i, (service_handle, channel_handle, client)),
            !updated ==> final(self).entries() == old(self).entries(),
    {
        let (i, found) = self.locate(service_handle, channel_handle);
        let ghost old_entries = self.clients@;
        if !found {
            proof {
                assert forall|k: int| 0 <= k < old_entries.len() implies client_key(#[trigger] old_entries[k]) != (service_handle.0, channel_handle.0) by {
                    if k > i {
                        assert(key_less(client_key(old_entries[i as int]), client_key(old_entries[k])));
                    }
                }
            }
            return false;
        }
        let mut clients = Vec::new();
        std::mem::swap(&mut clients, &mut self.clients);
        clients.set(i, (service_handle, channel_handle, client));
        proof {
            assert(client_key(old_entries[i as int]) == (service_handle.0, channel_handle.0));
            assert forall|a: int, b: int| 0 <= a < b < clients@.len() implies key_less(
                #[trigger] client_key(clients@[a]),
                #[trigger] client_key(clients@[b]),
            ) by {
                assert(key_less(client_key(old_entries[a]), client_key(old_entries[b])));
            }
            assert forall|k: int| 0 <= k < clients@.len() implies self.services@.contains((#[trigger] clients@[k]).0) by {
                if k != i {
                    assert(clients@[k] == old_entries[k]);
                } else {
                    assert(self.services@.contains(old_entries[i as int].0));
                    assert(old_entries[i as int].0 == service_handle);
                }
            }
        }
        self.clients = clients;
        true
    }

    /// Whether `service` is registered, by a scan of the sorted services.
    pub fn is_registered(&self, service: ServiceHandle) -> (found: bool)
        ensures
            found <==> self.registered().contains(service),
    {
        let mut i: usize = 0;
        while i < self.services.len()
            invariant
                i <= self.services@.len(),
                forall|j: int| 0 <= j < i ==> self.services@[j] != service,
            decreases self.services@.len() - i,
        {
            if self.services[i].0 == service.0 {
                proof { assert(self.services@[i as int] == service); }
                return true;
            }
            i += 1;
        }
        false
    }

    /// Removes the client under `(service_handle, channel_handle)`. If the
    /// service is registered, the client counter is lowered by one, whether or
    /// not a client was stored under that key; if it is not registered,
    /// nothing changes.
    pub fn remove_client(&mut self, service_handle: ServiceHandle, channel_handle: ChannelHandle)
        requires
            old(self).wf(),
            old(self).registered().contains(service_handle) ==> old(self).count() > 0,
        ensures
            final(self).wf(),
            final(self).registered() == old(self).registered(),
            !old(self).registered().contains(service_handle) ==> {
                &&& final(self).entries() == old(self).entries()
                &&& final(self).count() == old(self).count()
            },
            old(self).registered().contains(service_handle) ==> {
                &&& final(self).count() == old(self).count() - 1
                &&& !has_key(old(self).entries(), service_handle.0, channel_handle.0) ==> final(self).entries() == old(self).entries()
                &&& has_key(old(self).entries(), service_handle.0, channel_handle.0) ==> exists|i: int|
                    0 <= i < old(self).entries().len()
                    && client_key(#[trigger] old(self).entries()[i]) == (service_handle.0, channel_handle.0)
                    && final(self).entries() == old(self).entries().remove(i)
            },
            // a store whose counter equals its number of clients keeps that property
            // when a stored client is removed
            (old(self).count() == old(self).entries().len() && has_key(old(self).entries(), service_handle.0, channel_handle.0))
                ==> final(self).count() == final(self).entries().len(),
            !has_key(final(self).entries(), service_handle.0, channel_handle.0),
            removed_entries(old(self).entries(), final(self).entries(), service_handle, channel_handle),
    {
        if self.is_registered(service_handle) {
            let (i, found) = self.locate(service_handle, channel_handle);
            let ghost old_entries = self.clients@;
            if found {
                let _ = self.clients.remove(i);
                proof {
                    assert forall|a: int, b: int| 0 <= a < b < self.clients@.len() implies key_less(
                        #[trigger] client_key(self.clients@[a]),
                        #[trigger] client_key(self.clients@[b]),
                    ) by {
                        if a < i && b >= i {
                            assert(key_less(client_key(old_entries[a]), client_key(old_entries[b + 1])));
                        } else if a >= i {
                            assert(key_less(client_key(old_entries[a + 1]), client_key(old_entries[b + 1])));
                        } else {
                            assert(key_less(client_key(old_entries[a]), client_key(old_entries[b])));
                        }
                    }
                    assert forall|k: int| 0 <= k < self.clients@.len() implies self.services@.contains((#[trigger] self.clients@[k]).0) by {
                        if k < i {
                            assert(self.clients@[k] == old_entries[k]);
                        } else {
                            assert(self.clients@[k] == old_entries[k + 1]);
                        }
                    }
                    assert forall|k: int| 0 <= k < self.clients@.len() implies client_key(#[trigger] self.clients@[k]) != (service_handle.0, channel_handle.0) by {
                        if k < i {
                            assert(self.clients@[k] == old_entries[k]);
                        } else {
                            assert(self.clients@[k] == old_entries[k + 1]);
                            assert(key_less(client_key(old_entries[i as int]), client_key(old_entries[k + 1])));
                        }
                    }
                }
            } else {
                proof {
                    assert forall|k: int| 0 <= k < old_entries.len() implies client_key(#[trigger] old_entries[k]) != (service_handle.0, channel_handle.0) by {
                        if k > i {
                            assert(key_less(client_key(old_entries[i as int]), client_key(old_entries[k])));
                        }
                    }
                }
            }
            self.client_count = self.client_count - 1;
        } else {
            proof {
                assert forall|k: int| 0 <= k < self.clients@.len() implies client_key(#[trigger] self.clients@[k]) != (service_handle.0, channel_handle.0) by {
                    assert(self.services@.contains(self.clients@[k].0));
                    if client_key(self.clients@[k]) == (service_handle.0, channel_handle.0) {
                        assert(self.clients@[k].0 == service_handle);
                    }
                }
            }
        }
    }

    /// The client stored under `(service_handle, channel_handle)`, if any.
    pub fn get_client(&self, service_handle: ServiceHandle, channel_handle: ChannelHandle) -> (client: Option<&TClient>)
        requires
            self.wf(),
        ensures
            client is None <==> !has_key(self.entries(), service_handle.0, channel_handle.0),
            client matches Some(t) ==> exists|i: int|
                0 <= i < self.entries().len()
                && client_key(#[trigger] self.entries()[i]) == (service_handle.0, channel_handle.0)
                && *t == self.entries()[i].2,
            client matches Some(t) ==> client_under(self.entries(), service_handle.0, channel_handle.0) == Some(*t),
            client is None ==> client_under(self.entries(), service_handle.0, channel_handle.0) is None,
    {
        let (i, found) = self.locate(service_handle, channel_handle);
        if found {
            proof {
                lemma_client_under_at(self.clients@, i as int);
            }
            Some(&self.clients[i].2)
        } else {
            proof {
                assert forall|k: int| 0 <= k < self.clients@.len() implies client_key(#[trigger] self.clients@[k]) != (service_handle.0, channel_handle.0) by {
                    if k > i {
                        assert(key_less(client_key(self.clients@[i as int]), client_key(self.clients@[k])));
                    }
                }
            }
            None
        }
    }

    /// The client with the smallest key, with its service and channel; `None`
    /// if the store holds no client.
    pub fn first(&self) -> (res: Option<(&ServiceHandle, &ChannelHandle, &TClient)>)
        ensures
            res is None <==> self.entries().len() == 0,
            res matches Some((s, c, t)) ==> {
                &&& *s == self.entries()[0].0
                &&& *c == self.entries()[0].1
                &&& *t == self.entries()[0].2
            },
    {
        if self.clients.len() == 0 {
            None
        } else {
            let entry = &self.clients[0];
            Some((&entry.0, &entry.1, &entry.2))
        }
    }

    /// The first client, in key order, for which `predicate` answers true,
    /// with its service and channel; `None` if it answers false for all.
    pub fn first_matching(&self, predicate: impl Fn(&ServiceHandle, &ChannelHandle, &TClient) -> bool) -> (res: Option<(&ServiceHandle, &ChannelHandle, &TClient)>)
        requires
            forall|i: int|
                0 <= i < self.entries().len() ==> call_requires(
                    predicate,
                    (&(#[trigger] self.entries()[i]).0, &self.entries()[i].1, &self.entries()[i].2),
                ),
        ensures
            res matches Some((s, c, t)) ==> exists|i: int|
                0 <= i < self.entries().len()
                && *s == (#[trigger] self.entries()[i]).0
                && *c == self.entries()[i].1
                && *t == self.entries()[i].2
                && call_ensures(predicate, (&self.entries()[i].0, &self.entries()[i].1, &self.entries()[i].2), true)
                && forall|j: int| 0 <= j < i ==> call_ensures(
                    predicate,
                    (&(#[trigger] self.entries()[j]).0, &self.entries()[j].1, &self.entries()[j].2),
                    false,
                ),
            res is None ==> forall|j: int| 0 <= j < self.entries().len() ==> call_ensures(
                predicate,
                (&(#[trigger] self.entries()[j]).0, &self.entries()[j].1, &self.entries()[j].2),
                false,
            ),
    {
        let mut i: usize = 0;
        while i < self.clients.len()
            invariant
                i <= self.clients@.len(),
                forall|k: int|
                    0 <= k < self.entries().len() ==> call_requires(
                        predicate,
                        (&(#[trigger] self.entries()[k]).0, &self.entries()[k].1, &self.entries()[k].2),
                    ),
                forall|j: int| 0 <= j < i ==> call_ensures(
                    predicate,
                    (&(#[trigger] self.entries()[j]).0, &self.entries()[j].1, &self.entries()[j].2),
                    false,
                ),
            decreases self.clients@.len() - i,
        {
            let entry = &self.clients[i];
            proof { assert(self.entries()[i as int] == *entry); }
            if predicate(&entry.0, &entry.1, &entry.2) {
                proof {
                    assert(0 <= i < self.entries().len() && *entry == self.entries()[i as int]);
                }
                return Some((&entry.0, &entry.1, &entry.2));
            }
            i += 1;
        }
        None
    }

    /// Replaces every client, in key order, by what `callback` makes of its
    /// position in that order and of the client.
    pub fn for_each_mut(&mut self, callback: impl Fn(usize, &TClient) -> TClient)
        requires
            old(self).wf(),
            forall|i: int|
                0 <= i < old(self).entries().len() ==> call_requires(callback, (i as usize, &(#[trigger] old(self).entries()[i]).2)),
        ensures
            final(self).wf(),
            final(self).registered() == old(self).registered(),
            final(self).count() == old(self).count(),
            final(self).entries().len() == old(self).entries().len(),
            forall|i: int| 0 <= i < old(self).entries().len() ==> {
                &&& (#[trigger] final(self).entries()[i]).0 == old(self).entries()[i].0
                &&& final(self).entries()[i].1 == old(self).entries()[i].1
                &&& call_ensures(callback, (i as usize, &old(self).entries()[i].2), final(self).entries()[i].2)
            },
    {
        let mut out: Vec<(ServiceHandle, ChannelHandle, TClient)> = Vec::new();
        let mut i: usize = 0;
        while i < self.clients.len()
            invariant
                i <= self.clients@.len(),
                out@.len() == i,
                self.clients@ == old(self).clients@,
                forall|k: int|
                    0 <= k < old(self).entries().len() ==> call_requires(callback, (k as usize, &(#[trigger] old(self).entries()[k]).2)),
                forall|k: int| 0 <= k < i ==> {
                    &&& (#[trigger] out@[k]).0 == old(self).entries()[k].0
                    &&& out@[k].1 == old(self).entries()[k].1
                    &&& call_ensures(callback, (k as usize, &old(self).entries()[k].2), out@[k].2)
                },
            decreases self.clients@.len() - i,
        {
            let entry = &self.clients[i];
            proof { assert(old(self).entries()[i as int] == *entry); }
            let replaced = callback(i, &entry.2);
            out.push((entry.0, entry.1, replaced));
            i += 1;
        }
        let ghost old_entries = self.clients@;
        self.clients = out;
        proof {
            assert forall|a: int, b: int| 0 <= a < b < self.clients@.len() implies key_less(
                #[trigger] client_key(self.clients@[a]),
                #[trigger] client_key(self.clients@[b]),
            ) by {
                assert(key_less(client_key(old_entries[a]), client_key(old_entries[b])));
            }
            assert forall|k: int| 0 <= k < self.clients@.len() implies self.services@.contains((#[trigger] self.clients@[k]).0) by {
                assert(self.services@.contains(old_entries[k].0));
            }
        }
    }

    /// The value of the client counter.
    pub fn client_count(&self) -> (count: usize)
        ensures
            count == self.count(),
    {
        self.client_count
    }

    /// The number of clients stored, whatever the counter says.
    pub fn stored_clients(&self) -> (n: usize)
        ensures
            n == self.entries().len(),
    {
        self.clients.len()
    }
}

} // verus!
