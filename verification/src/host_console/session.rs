use vstd::prelude::*;
use crate::chaos::client_store::{client_key, has_key, key_less, strictly_sorted, ClientStore};
use crate::chaos::handle::{ChannelHandle, ServiceHandle};
use crate::console::types::{Color, Point, Size};
use crate::console::messages::{CharacterInputParameters, GetCapabilitiesReturns, KeyPressedParameters, PointerMovedParameters};
use crate::console::key_code::KeyCode;
use crate::console::pointer::{PointerPressedParameters, PointerReleasedParameters};
use crate::console::pointer_button::PointerButton;
use crate::console::server::{ConsoleServerChannelEvent, ConsoleServerRequest};
use crate::host_console::text::{draw_text, law_unscrolled_text_keeps_saved, run_scrolls, start_state, text_run, TextLayout};

verus! {

/// What the host server keeps of a connected client: its channel, its
/// console number, its name, and the text cursor and the saved cursor.
pub struct Client {
    pub channel_handle: ChannelHandle,
    pub console_number: isize,
    pub name: String,
    pub text_position: Point,
    pub saved_text_position: Point,
}

impl Client {
    /// A client that has no console number yet (-1) and whose cursors are at
    /// the top left.
    pub fn new(channel_handle: ChannelHandle, name: String) -> (client: Self)
        ensures
            client.channel_handle == channel_handle,
            client.console_number == -1,
            client.name@ == name@,
            client.text_position == (Point { x: 0, y: 0 }),
            client.saved_text_position == (Point { x: 0, y: 0 }),
    {
        Client {
            channel_handle,
            console_number: -1,
            name,
            text_position: Point { x: 0, y: 0 },
            saved_text_position: Point { x: 0, y: 0 },
        }
    }

    /// The same client with another console number.
    pub fn renumbered(&self, console_number: isize) -> (client: Self)
        ensures
            client.channel_handle == self.channel_handle,
            client.console_number == console_number,
            client.name@ == self.name@,
            client.text_position == self.text_position,
            client.saved_text_position == self.saved_text_position,
    {
        Client {
            channel_handle: self.channel_handle,
            console_number,
            name: self.name.clone(),
            text_position: self.text_position,
            saved_text_position: self.saved_text_position,
        }
    }
}

/// The position of the first client whose channel is `channel`, or -1.
pub open spec fn first_with_channel(entries: Seq<(ServiceHandle, ChannelHandle, Client)>, channel: ChannelHandle) -> int
    decreases entries.len(),
{
    if entries.len() == 0 {
        -1
    } else if entries[0].1 == channel {
        0
    } else {
        let rest = first_with_channel(entries.drop_first(), channel);
        if rest < 0 { -1 } else { rest + 1 }
    }
}

/// A client's data apart from its console number.
pub open spec fn client_data(e: (ServiceHandle, ChannelHandle, Client)) -> (ServiceHandle, ChannelHandle, Seq<char>, Point, Point) {
    (e.0, e.1, e.2.name@, e.2.text_position, e.2.saved_text_position)
}

/// The data of all clients, in store order.
pub open spec fn clients_data(entries: Seq<(ServiceHandle, ChannelHandle, Client)>) -> Seq<(ServiceHandle, ChannelHandle, Seq<char>, Point, Point)> {
    entries.map_values(|e: (ServiceHandle, ChannelHandle, Client)| client_data(e))
}

/// The client that has console number `n` when clients are numbered by position.
pub open spec fn channel_of_number(entries: Seq<(ServiceHandle, ChannelHandle, Client)>, n: int) -> Option<ChannelHandle> {
    if 0 <= n < entries.len() { Some(entries[n].1) } else { None }
}

/// The console number shown after stepping back from `number` among `count`
/// consoles: one less, or the last one when that would fall below 0.
pub open spec fn previous_number(number: int, count: int) -> int {
    if number - 1 < 0 { count - 1 } else { number - 1 }
}

/// The console number shown after stepping forward from `number` among
/// `count` consoles: one more, or the first one when that reaches `count`.
pub open spec fn next_number(number: int, count: int) -> int {
    if number + 1 == count { 0 } else { number + 1 }
}

/// Clients are numbered by their position in the store, from 0.
pub open spec fn numbered(entries: Seq<(ServiceHandle, ChannelHandle, Client)>) -> bool {
    forall|i: int| 0 <= i < entries.len() ==> (#[trigger] entries[i]).2.console_number == i
}

/// The console switcher of the host server: the connected clients and the
/// client whose console is shown (the active one), with its number.
pub struct ServerApplication {
    clients: ClientStore<Client>,
    active_client_channel_handle: Option<ChannelHandle>,
    active_console_number: isize,
}

impl ServerApplication {
    /// The connected clients, in store order.
    pub closed spec fn entries(&self) -> Seq<(ServiceHandle, ChannelHandle, Client)> {
        self.clients.entries()
    }

    /// The channel of the active client, if any.
    pub closed spec fn active(&self) -> Option<ChannelHandle> {
        self.active_client_channel_handle
    }

    /// The console number of the active client, or -1.
    pub closed spec fn active_number(&self) -> isize {
        self.active_console_number
    }

    /// The value of the client counter, which rises with every connection
    /// (also one that replaces a client on the same key) and falls with
    /// every disconnection from a service that ever had a client.
    pub closed spec fn count(&self) -> nat {
        self.clients.count()
    }

    /// The services that a client ever connected to.
    pub closed spec fn registered(&self) -> Set<ServiceHandle> {
        self.clients.registered()
    }

    /// The invariant: a well-formed store, whose counter and number of
    /// clients fit in an `isize`.
    pub closed spec fn wf(&self) -> bool {
        &&& self.clients.wf()
        &&& self.clients.count() < isize::MAX
        &&& self.clients.entries().len() < isize::MAX
        &&& numbered(self.clients.entries())
        &&& self.active_console_number >= -1
    }

    /// No client, no active console.
    pub fn new() -> (application: Self)
        ensures
            application.wf(),
            application.entries() == Seq::<(ServiceHandle, ChannelHandle, Client)>::empty(),
            application.active() is None,
            application.active_number() == -1,
    {
        ServerApplication { clients: ClientStore::new(), active_client_channel_handle: None, active_console_number: -1 }
    }

    /// The channel of the first client with console number `for_console_number`.
    pub fn get_channel_handle(&self, for_console_number: isize) -> (channel: Option<ChannelHandle>)
        requires
            self.wf(),
        ensures
            channel == channel_of_number(self.entries(), for_console_number as int),
    {
        let found = self.clients.first_matching(
            |s: &ServiceHandle, c: &ChannelHandle, client: &Client| -> (matches: bool)
                ensures matches == (client.console_number == for_console_number)
            { client.console_number == for_console_number },
        );
        match found {
            Some((_, c, _)) => Some(*c),
            None => None,
        }
    }

    /// Numbers the clients by their position in the store, from 0.
    fn reindex_clients(&mut self)
        requires
            old(self).clients.wf(),
            old(self).clients.entries().len() < isize::MAX,
        ensures
            final(self).clients.wf(),
            final(self).clients.count() == old(self).clients.count(),
            final(self).clients.registered() == old(self).clients.registered(),
            numbered(final(self).clients.entries()),
            clients_data(final(self).clients.entries()) == clients_data(old(self).clients.entries()),
            final(self).active_client_channel_handle == old(self).active_client_channel_handle,
            final(self).active_console_number == old(self).active_console_number,
    {
        let ghost n = self.clients.entries().len();
        self.clients.for_each_mut(renumber_client);
        proof {
            assert(clients_data(self.clients.entries()) =~= clients_data(old(self).clients.entries()));
        }
    }

    /// The value of the client counter.
    pub fn client_count(&self) -> (count: usize)
        requires
            self.wf(),
        ensures
            count == self.count(),
    {
        self.clients.client_count()
    }

    /// The console number of the first client on `for_channel_handle`, or 0
    /// if no client is on it.
    pub fn get_console_number(&self, for_channel_handle: ChannelHandle) -> (number: isize)
        requires
            self.wf(),
        ensures
            first_with_channel(self.entries(), for_channel_handle) >= 0 ==>
                number == self.entries()[first_with_channel(self.entries(), for_channel_handle)].2.console_number,
            first_with_channel(self.entries(), for_channel_handle) < 0 ==> number == 0,
    {
        let found = self.clients.first_matching(
            |s: &ServiceHandle, c: &ChannelHandle, client: &Client| -> (matches: bool)
                ensures matches == (*c == for_channel_handle)
            { c.0 == for_channel_handle.0 },
        );
        proof { lemma_first_with_channel(self.entries(), for_channel_handle); }
        match found {
            Some((_, _, client)) => client.console_number,
            None => 0,
        }
    }
    /// Adds a newly connected client named `name` on `(service_handle,
    /// channel_handle)`, replacing one on the same key, raises the client
    /// counter, renumbers the clients, and makes the new client the active
    /// one.
    pub fn add_client(&mut self, service_handle: ServiceHandle, channel_handle: ChannelHandle, name: String)
        requires
            old(self).wf(),
            old(self).count() + 1 < isize::MAX,
            old(self).entries().len() + 1 < isize::MAX,
        ensures
            final(self).wf(),
            client_connected(*old(self), *final(self), service_handle, channel_handle, name@, true),
    {
        let ghost old_entries = self.clients.entries();
        let ghost name_view = name@;
        let ghost fresh = (service_handle, channel_handle, name_view, Point { x: 0, y: 0 }, Point { x: 0, y: 0 });
        let client = Client::new(channel_handle, name);
        self.clients.add_client(service_handle, channel_handle, client);
        let ghost added = self.clients.entries();
        let ghost at: int = if has_key(old_entries, service_handle.0, channel_handle.0) {
            choose|i: int| 0 <= i < old_entries.len()
                && client_key(#[trigger] old_entries[i]) == (service_handle.0, channel_handle.0)
                && added == old_entries.update(i, (service_handle, channel_handle, client))
        } else {
            choose|i: int| 0 <= i <= old_entries.len() && added == #[trigger] old_entries.insert(i, (service_handle, channel_handle, client))
        };
        proof {
            if has_key(old_entries, service_handle.0, channel_handle.0) {
                assert(clients_data(added) =~= clients_data(old_entries).update(at, fresh));
            } else {
                assert(clients_data(added) =~= clients_data(old_entries).insert(at, fresh));
            }
            assert(added[at].1 == channel_handle);
        }
        self.reindex_clients();
        self.active_client_channel_handle = Some(channel_handle);
        self.active_console_number = self.get_console_number(channel_handle);
        proof {
            lemma_first_with_channel(self.clients.entries(), channel_handle);
            assert(clients_data(self.clients.entries())[at].1 == channel_handle);
            assert(self.clients.entries()[at].1 == channel_handle);
        }
    }

    /// Removes the client on `(service_handle, channel_handle)`, if there
    /// is one, lowers the client counter if the service ever had a client,
    /// and renumbers the clients. If the active client was on that channel,
    /// the first stored client becomes active while the counter is above 0
    /// (and the answer is true: its console is to be shown), or no client
    /// is active.
    pub fn remove_client(&mut self, service_handle: ServiceHandle, channel_handle: ChannelHandle) -> (refresh: bool)
        requires
            old(self).wf(),
            removal_allowed(*old(self), service_handle, channel_handle),
        ensures
            final(self).wf(),
            client_removed(*old(self), *final(self), service_handle, channel_handle, refresh),
    {
        let ghost old_entries = self.clients.entries();
        proof {
            self.clients.lemma_wf_entries();
        }
        self.clients.remove_client(service_handle, channel_handle);
        let ghost removed = self.clients.entries();
        proof {
            if has_key(old_entries, service_handle.0, channel_handle.0) {
                let i = choose|i: int| 0 <= i < old_entries.len()
                    && client_key(#[trigger] old_entries[i]) == (service_handle.0, channel_handle.0)
                    && removed == old_entries.remove(i);
                assert(clients_data(removed) =~= clients_data(old_entries).remove(i));
            }
        }
        self.reindex_clients();
        let mut refresh = false;
        if let Some(active_channel_handle) = self.active_client_channel_handle {
            if active_channel_handle.0 == channel_handle.0 {
                if self.clients.client_count() > 0 {
                    let first_channel = match self.clients.first() {
                        Some((_, c, _)) => *c,
                        None => channel_handle,
                    };
                    self.active_client_channel_handle = Some(first_channel);
                    self.active_console_number = self.get_console_number(first_channel);
                    proof {
                        lemma_first_with_channel(self.clients.entries(), first_channel);
                    }
                    refresh = true;
                } else {
                    self.active_client_channel_handle = None;
                    self.active_console_number = -1;
                }
            }
        }
        refresh
    }

    /// Whether removing the client on `(service_handle, channel_handle)`
    /// is possible, as `removal_allowed` says.
    pub fn can_remove_client(&self, service_handle: ServiceHandle, channel_handle: ChannelHandle) -> (allowed: bool)
        requires
            self.wf(),
        ensures
            allowed == removal_allowed(*self, service_handle, channel_handle),
    {
        let registered = self.clients.is_registered(service_handle);
        let count = self.clients.client_count();
        let stored = self.clients.stored_clients();
        let present = self.has_client(service_handle, channel_handle);
        if registered && count == 0 {
            return false;
        }
        let counted = if registered { count - 1 } else { count };
        let remaining = if present { stored - 1 } else { stored };
        let active = match self.active_client_channel_handle {
            Some(c) => c.0 == channel_handle.0,
            None => false,
        };
        !(active && counted > 0 && remaining == 0)
    }

    /// While the client counter is above 1, shows the previous console, wrapping from
    /// the first to the last; answers whether the shown console changed.
    pub fn focus_previous_client(&mut self) -> (refresh: bool)
        requires
            old(self).wf(),
        ensures
            final(self).wf(),
            focused_previous(*old(self), *final(self), refresh),
    {
        if self.clients.client_count() > 1 {
            self.active_console_number = self.active_console_number - 1;
            if self.active_console_number < 0 {
                self.active_console_number = self.clients.client_count() as isize - 1;
            }
            self.active_client_channel_handle = self.get_channel_handle(self.active_console_number);
            true
        } else {
            false
        }
    }

    /// While the client counter is above 1, shows the next console, wrapping from the
    /// last to the first; answers whether the shown console changed.
    pub fn focus_next_client(&mut self) -> (refresh: bool)
        requires
            old(self).wf(),
            old(self).active_number() < isize::MAX,
        ensures
            final(self).wf(),
            focused_next(*old(self), *final(self), refresh),
    {
        if self.clients.client_count() > 1 {
            self.active_console_number = self.active_console_number + 1;
            if self.active_console_number == self.clients.client_count() as isize {
                self.active_console_number = 0;
            }
            self.active_client_channel_handle = self.get_channel_handle(self.active_console_number);
            true
        } else {
            false
        }
    }
}


/// Whether laying out `len` characters on `client` keeps its cursors within
/// the range of `i64`.
pub open spec fn text_fits(client: Client, len: nat) -> bool {
    &&& len <= i64::MAX
    &&& client.text_position.x + len <= i64::MAX
    &&& client.text_position.y + len <= i64::MAX
    &&& client.text_position.y - len > i64::MIN
    &&& client.saved_text_position.y - len > i64::MIN
}

/// The effect of `write_text`: the client on the key, if any, has its
/// cursors moved as `text_run` says and the layout is answered; when the
/// text would move a cursor out of range, or no client is there, nothing
/// changes and no layout is answered.
pub open spec fn text_written(before: ServerApplication, after: ServerApplication, service: ServiceHandle, channel: ChannelHandle,
    text: Seq<char>, size: Size, layout: Option<TextLayout>) -> bool {
    &&& after.active() == before.active()
    &&& after.count() == before.count()
    &&& after.registered() == before.registered()
    &&& after.active_number() == before.active_number()
    &&& layout is None ==> after.entries() == before.entries()
    &&& layout is None ==> forall|i: int| 0 <= i < before.entries().len()
            && client_key(#[trigger] before.entries()[i]) == (service.0, channel.0)
            ==> !text_fits(before.entries()[i].2, text.len())
    &&& layout matches Some(l) ==> exists|i: int| 0 <= i < before.entries().len()
            && client_key(#[trigger] before.entries()[i]) == (service.0, channel.0)
            && text_fits(before.entries()[i].2, text.len())
            && ({
                let client = before.entries()[i].2;
                let (st, glyphs) = text_run(text, start_state(client), size);
                &&& clients_data(after.entries()) == clients_data(before.entries()).update(i,
                    (service, channel, client.name@, st.position, st.saved))
                &&& l.glyphs@ == glyphs
                &&& l.min_x == st.min_x && l.min_y == st.min_y && l.max_x == st.max_x && l.max_y == st.max_y
            })
}

/// The effect of moving the text cursor of the client on the key to
/// `from_saved` (its saved cursor, if true, else its cursor) and saving
/// it there: `done` says whether a client is there.
pub open spec fn cursor_set(before: ServerApplication, after: ServerApplication, service: ServiceHandle, channel: ChannelHandle,
    from_saved: bool, done: bool) -> bool {
    &&& after.active() == before.active()
    &&& after.count() == before.count()
    &&& after.registered() == before.registered()
    &&& after.active_number() == before.active_number()
    &&& done == has_key(before.entries(), service.0, channel.0)
    &&& !done ==> after.entries() == before.entries()
    &&& done ==> exists|i: int| 0 <= i < before.entries().len()
            && client_key(#[trigger] before.entries()[i]) == (service.0, channel.0)
            && ({
                let client = before.entries()[i].2;
                let p = if from_saved { client.saved_text_position } else { client.text_position };
                clients_data(after.entries()) == clients_data(before.entries()).update(i, (service, channel, client.name@, p, p))
            })
}

/// The effect of `connect_client`: a client named `name`, with its cursors
/// at the top left, is now on the key (replacing one that was there), the
/// counter has risen by one, the service is registered, the clients are
/// numbered by position, and it is the active client; nothing changes when
/// the counter or the number of clients would leave the range of `isize`.
pub open spec fn client_connected(before: ServerApplication, after: ServerApplication, service: ServiceHandle, channel: ChannelHandle,
    name: Seq<char>, done: bool) -> bool {
    let fresh = (service, channel, name, Point { x: 0, y: 0 }, Point { x: 0, y: 0 });
    &&& done == (before.count() + 1 < isize::MAX && before.entries().len() + 1 < isize::MAX)
    &&& done ==> after.count() == before.count() + 1
    &&& done ==> after.registered() == before.registered().insert(service)
    &&& done ==> after.active() == Some(channel)
    &&& done ==> after.active_number() == first_with_channel(after.entries(), channel)
    &&& done ==> first_with_channel(after.entries(), channel) >= 0
    &&& done && has_key(before.entries(), service.0, channel.0) ==> exists|i: int| 0 <= i < before.entries().len()
            && client_key(#[trigger] before.entries()[i]) == (service.0, channel.0)
            && clients_data(after.entries()) == clients_data(before.entries()).update(i, fresh)
    &&& done && !has_key(before.entries(), service.0, channel.0) ==> exists|i: int| 0 <= i <= before.entries().len()
            && clients_data(after.entries()) == #[trigger] clients_data(before.entries()).insert(i, fresh)
    &&& !done ==> after.entries() == before.entries() && after.active() == before.active() && after.active_number() == before.active_number()
            && after.count() == before.count() && after.registered() == before.registered()
}

/// The counter after a disconnection from `service`: one less if the
/// service ever had a client.
pub open spec fn count_after_removal(before: ServerApplication, service: ServiceHandle) -> int {
    if before.registered().contains(service) { before.count() - 1 } else { before.count() as int }
}

/// Whether a disconnection of `(service, channel)` can be handled: the
/// counter does not fall below 0, and when the active client was on that
/// channel and the counter stays above 0, a client remains to be shown.
pub open spec fn removal_allowed(before: ServerApplication, service: ServiceHandle, channel: ChannelHandle) -> bool {
    let remaining = if has_key(before.entries(), service.0, channel.0) { before.entries().len() - 1 } else { before.entries().len() as int };
    &&& before.registered().contains(service) ==> before.count() > 0
    &&& before.active() == Some(channel) && count_after_removal(before, service) > 0 ==> remaining > 0
}

/// The effect of `remove_client`: the client on the key, if any, is gone
/// and the others keep their data; the counter is lowered if the service
/// ever had a client; if the active client was on that channel, the first
/// stored client becomes active (`refresh`) while the counter is above 0,
/// or none.
pub open spec fn client_removed(before: ServerApplication, after: ServerApplication, service: ServiceHandle, channel: ChannelHandle, refresh: bool) -> bool {
    &&& after.registered() == before.registered()
    &&& after.count() == count_after_removal(before, service)
    &&& !has_key(before.entries(), service.0, channel.0) ==> clients_data(after.entries()) == clients_data(before.entries())
    &&& has_key(before.entries(), service.0, channel.0) ==> exists|i: int| 0 <= i < before.entries().len()
            && client_key(#[trigger] before.entries()[i]) == (service.0, channel.0)
            && clients_data(after.entries()) == clients_data(before.entries()).remove(i)
    &&& before.active() != Some(channel) ==> {
            &&& after.active() == before.active()
            &&& after.active_number() == before.active_number()
            &&& !refresh
        }
    &&& before.active() == Some(channel) && after.count() > 0 ==> {
            &&& after.entries().len() > 0
            &&& after.active() == Some(after.entries()[0].1)
            &&& after.active_number() == 0
            &&& refresh
        }
    &&& before.active() == Some(channel) && after.count() == 0 ==> {
            &&& after.active() is None
            &&& after.active_number() == -1
            &&& !refresh
        }
}

/// The effect of `focus_previous_client`: while the counter is above 1, the
/// previous console is shown (`refresh`); otherwise nothing changes.
pub open spec fn focused_previous(before: ServerApplication, after: ServerApplication, refresh: bool) -> bool {
    &&& after.entries() == before.entries()
    &&& after.count() == before.count()
    &&& after.registered() == before.registered()
    &&& refresh == (before.count() > 1)
    &&& refresh ==> {
            &&& after.active_number() == previous_number(before.active_number() as int, before.count() as int)
            &&& after.active() == channel_of_number(after.entries(), after.active_number() as int)
        }
    &&& !refresh ==> after.active() == before.active() && after.active_number() == before.active_number()
}

/// The effect of `focus_next_client`: while the counter is above 1, the next
/// console is shown (`refresh`); otherwise nothing changes.
pub open spec fn focused_next(before: ServerApplication, after: ServerApplication, refresh: bool) -> bool {
    &&& after.entries() == before.entries()
    &&& after.count() == before.count()
    &&& after.registered() == before.registered()
    &&& refresh == (before.count() > 1)
    &&& refresh ==> {
            &&& after.active_number() == next_number(before.active_number() as int, before.count() as int)
            &&& after.active() == channel_of_number(after.entries(), after.active_number() as int)
        }
    &&& !refresh ==> after.active() == before.active() && after.active_number() == before.active_number()
}

/// Input that the host's window system reports, as the host reads it.
pub enum HostInput {
    /// The pointer moved to (x, y).
    PointerMoved(i64, i64),
    /// A pointer button went down at (x, y).
    PointerPressed(PointerButton, i64, i64),
    /// A pointer button went up at (x, y).
    PointerReleased(PointerButton, i64, i64),
    /// The window is to close, or the escape key was pressed.
    Quit,
    /// Text was typed; its first character.
    TextInput(char),
    /// A key went down; the flag says whether the console chord (left
    /// shift, control and alt) was held.
    KeyDown(KeyCode, bool),
    /// Anything else.
    Other,
}

/// What the host does with an input.
pub enum InputAction {
    Nothing,
    /// Leave the main loop.
    Exit,
    /// Another console is shown: show its surface.
    Refresh,
    SendPointerMoved(ChannelHandle, PointerMovedParameters),
    SendPointerPressed(ChannelHandle, PointerPressedParameters),
    SendPointerReleased(ChannelHandle, PointerReleasedParameters),
    SendCharacter(ChannelHandle, CharacterInputParameters),
    SendKeyPressed(ChannelHandle, KeyPressedParameters),
}

/// What the host does, besides updating its clients, after a console
/// server event.
pub enum HostAction {
    /// Nothing to show or send.
    Idle,
    /// A client connected: give it a blank surface; it is now shown.
    AddSurface(ChannelHandle),
    /// A client left: drop its surface, and show the active client's
    /// surface again when the flag is set.
    RemoveSurface(ChannelHandle, bool),
    /// Draw the glyphs on the client's surface; the flag says whether that
    /// surface is shown, so that the drawn area must be refreshed.
    DrawText(ChannelHandle, TextLayout, bool),
    /// Draw one pixel on the client's surface; the flag as for text.
    DrawPixel(ChannelHandle, Color, Point, bool),
    /// Answer the capabilities request with this call id.
    ReplyCapabilities(ChannelHandle, u64, GetCapabilitiesReturns),
}

/// The action for an event, and the offset of the request message that the
/// server is to release once the event is handled, if any.
pub struct HostOutcome {
    pub action: HostAction,
    pub release: Option<usize>,
}

/// The message that a request read with parameters keeps until released.
pub open spec fn request_message(r: ConsoleServerRequest) -> Option<usize> {
    match r {
        ConsoleServerRequest::GetCapabilities => None,
        ConsoleServerRequest::SaveTextCursorPosition => None,
        ConsoleServerRequest::LoadTextCursorPosition => None,
        ConsoleServerRequest::SetTextColor(p) => Some(p.message()),
        ConsoleServerRequest::SetTextCursorPosition(p) => Some(p.message()),
        ConsoleServerRequest::DrawImagePatch(p) => Some(p.message()),
        ConsoleServerRequest::WriteText(p) => Some(p.message()),
        ConsoleServerRequest::WriteObjects(p) => Some(p.message()),
        ConsoleServerRequest::DrawPixelDebug(p) => Some(p.message()),
    }
}

impl ServerApplication {
    /// Whether a client is connected on `(service_handle, channel_handle)`.
    pub fn has_client(&self, service_handle: ServiceHandle, channel_handle: ChannelHandle) -> (found: bool)
        requires
            self.wf(),
        ensures
            found == has_key(self.entries(), service_handle.0, channel_handle.0),
    {
        self.clients.get_client(service_handle, channel_handle).is_some()
    }

    /// A copy of the client on `(service_handle, channel_handle)`, which is
    /// stored at exactly one position.
    fn copy_client(&self, service_handle: ServiceHandle, channel_handle: ChannelHandle) -> (copy: Option<Client>)
        requires
            self.wf(),
        ensures
            copy is None <==> !has_key(self.entries(), service_handle.0, channel_handle.0),
            copy matches Some(client) ==> exists|i: int| 0 <= i < self.entries().len()
                && client_key(#[trigger] self.entries()[i]) == (service_handle.0, channel_handle.0)
                && client.console_number == self.entries()[i].2.console_number
                && client.text_position == self.entries()[i].2.text_position
                && client.saved_text_position == self.entries()[i].2.saved_text_position
                && client.name@ == self.entries()[i].2.name@
                && client.channel_handle == self.entries()[i].2.channel_handle
                && forall|j: int| 0 <= j < self.entries().len()
                    && client_key(#[trigger] self.entries()[j]) == (service_handle.0, channel_handle.0) ==> j == i,
    {
        match self.clients.get_client(service_handle, channel_handle) {
            Some(client) => {
                let copy = client.renumbered(client.console_number);
                proof {
                    let at = choose|i: int| 0 <= i < self.entries().len()
                        && client_key(#[trigger] self.entries()[i]) == (service_handle.0, channel_handle.0)
                        && *client == self.entries()[i].2;
                    self.clients.lemma_wf_entries();
                    assert forall|i: int| 0 <= i < self.entries().len() && client_key(#[trigger] self.entries()[i]) == (service_handle.0, channel_handle.0)
                        implies i == at by {
                        if i < at {
                            assert(key_less(client_key(self.entries()[i]), client_key(self.entries()[at])));
                        } else if i > at {
                            assert(key_less(client_key(self.entries()[at]), client_key(self.entries()[i])));
                        }
                    }
                }
                Some(copy)
            },
            None => None,
        }
    }

    /// Remembers the text cursor of the client on `(service_handle,
    /// channel_handle)`; answers whether a client is there.
    pub fn save_text_cursor_position(&mut self, service_handle: ServiceHandle, channel_handle: ChannelHandle) -> (saved: bool)
        requires
            old(self).wf(),
        ensures
            final(self).wf(),
            cursor_set(*old(self), *final(self), service_handle, channel_handle, false, saved),
    {
        let mut copy = match self.copy_client(service_handle, channel_handle) {
            Some(client) => client,
            None => return false,
        };
        copy.save_text_cursor_position();
        let ghost before = self.clients.entries();
        self.replace_client(service_handle, channel_handle, copy);
        proof {
            let i = choose|i: int| 0 <= i < before.len()
                && client_key(#[trigger] before[i]) == (service_handle.0, channel_handle.0)
                && self.clients.entries() == before.update(i, (service_handle, channel_handle, copy));
            assert(clients_data(self.clients.entries()) =~= clients_data(before).update(i, client_data((service_handle, channel_handle, copy))));
        }
        true
    }

    /// Puts the text cursor of the client on `(service_handle,
    /// channel_handle)` back where it was remembered; answers whether a
    /// client is there.
    pub fn load_text_cursor_position(&mut self, service_handle: ServiceHandle, channel_handle: ChannelHandle) -> (loaded: bool)
        requires
            old(self).wf(),
        ensures
            final(self).wf(),
            cursor_set(*old(self), *final(self), service_handle, channel_handle, true, loaded),
    {
        let mut copy = match self.copy_client(service_handle, channel_handle) {
            Some(client) => client,
            None => return false,
        };
        copy.load_text_cursor_position();
        let ghost before = self.clients.entries();
        self.replace_client(service_handle, channel_handle, copy);
        proof {
            let i = choose|i: int| 0 <= i < before.len()
                && client_key(#[trigger] before[i]) == (service_handle.0, channel_handle.0)
                && self.clients.entries() == before.update(i, (service_handle, channel_handle, copy));
            assert(clients_data(self.clients.entries()) =~= clients_data(before).update(i, client_data((service_handle, channel_handle, copy))));
        }
        true
    }

    /// Connects a client named `name` on `(service_handle, channel_handle)`,
    /// as `client_connected` says: a client already on that key is replaced
    /// by the new one, and the counter rises either way; answers whether
    /// the client was connected (not when the counter or the number of
    /// clients would leave the range of `isize`).
    pub fn connect_client(&mut self, service_handle: ServiceHandle, channel_handle: ChannelHandle, name: String) -> (done: bool)
        requires
            old(self).wf(),
        ensures
            final(self).wf(),
            client_connected(*old(self), *final(self), service_handle, channel_handle, name@, done),
    {
        let limit = (isize::MAX as usize) - 1;
        if self.clients.client_count() < limit && self.clients.stored_clients() < limit {
            self.add_client(service_handle, channel_handle, name);
            true
        } else {
            false
        }
    }

    /// Handles an event of the console server: a connection adds a client
    /// named "unnamed" and shows it; a disconnection removes the client; a
    /// request of a connected client writes text, saves or restores its
    /// cursor, draws a pixel or answers the capabilities (the framebuffer
    /// and text sizes); other requests, and requests of unknown clients,
    /// change nothing. The outcome says what to draw, show or send, and
    /// which request message to release.
    pub fn process_console_server_event(&mut self, event: ConsoleServerChannelEvent, framebuffer_size: Size, text_size: Size) -> (outcome: HostOutcome)
        requires
            old(self).wf(),
            event matches ConsoleServerChannelEvent::ClientDisconnected(service, channel) ==> removal_allowed(*old(self), service, channel),
        ensures
            final(self).wf(),
            event is ClientRequest ==> final(self).count() == old(self).count() && final(self).registered() == old(self).registered(),
            match event {
                ConsoleServerChannelEvent::ClientConnected(service, channel) => outcome.release is None
                    && ((client_connected(*old(self), *final(self), service, channel, "unnamed"@, true)
                            && (outcome.action matches HostAction::AddSurface(c) && c == channel))
                        || (client_connected(*old(self), *final(self), service, channel, "unnamed"@, false)
                            && outcome.action is Idle)),
                ConsoleServerChannelEvent::ClientDisconnected(service, channel) => outcome.release is None
                    && (outcome.action matches HostAction::RemoveSurface(c, refresh) && c == channel
                        && client_removed(*old(self), *final(self), service, channel, refresh)),
                ConsoleServerChannelEvent::ClientRequest(service, channel, call_id, request) => outcome.release == request_message(request)
                    && match request {
                        ConsoleServerRequest::WriteText(p) => {
                            &&& outcome.action is Idle ==> text_written(*old(self), *final(self), service, channel, p.value().text@, text_size, None)
                            &&& outcome.action matches HostAction::DrawText(c, layout, dirty) ==> c == channel
                                && dirty == (old(self).active() == Some(channel))
                                && text_written(*old(self), *final(self), service, channel, p.value().text@, text_size, Some(layout))
                            &&& outcome.action is Idle || outcome.action is DrawText
                        },
                        ConsoleServerRequest::SaveTextCursorPosition => outcome.action is Idle
                            && cursor_set(*old(self), *final(self), service, channel, false, has_key(old(self).entries(), service.0, channel.0)),
                        ConsoleServerRequest::LoadTextCursorPosition => outcome.action is Idle
                            && cursor_set(*old(self), *final(self), service, channel, true, has_key(old(self).entries(), service.0, channel.0)),
                        ConsoleServerRequest::GetCapabilities => final(self).entries() == old(self).entries()
                            && final(self).active() == old(self).active() && final(self).active_number() == old(self).active_number()
                            && if has_key(old(self).entries(), service.0, channel.0) {
                                (outcome.action matches HostAction::ReplyCapabilities(c, id, reply) && c == channel && id == call_id
                                    && reply == (GetCapabilitiesReturns { is_framebuffer: true, framebuffer_size, text_size }))
                            } else {
                                outcome.action is Idle
                            },
                        ConsoleServerRequest::DrawPixelDebug(p) => final(self).entries() == old(self).entries()
                            && final(self).active() == old(self).active() && final(self).active_number() == old(self).active_number()
                            && if has_key(old(self).entries(), service.0, channel.0) {
                                (outcome.action matches HostAction::DrawPixel(c, color, position, dirty) && c == channel
                                    && color == p.value().color && position == p.value().position
                                    && dirty == (old(self).active() == Some(channel)))
                            } else {
                                outcome.action is Idle
                            },
                        _ => outcome.action is Idle && final(self).entries() == old(self).entries()
                            && final(self).active() == old(self).active() && final(self).active_number() == old(self).active_number(),
                    },
            },
    {
        match event {
            ConsoleServerChannelEvent::ClientConnected(service, channel) => {
                let done = self.connect_client(service, channel, "unnamed".to_owned());
                let action = if done { HostAction::AddSurface(channel) } else { HostAction::Idle };
                HostOutcome { action, release: None }
            },
            ConsoleServerChannelEvent::ClientDisconnected(service, channel) => {
                let refresh = self.remove_client(service, channel);
                HostOutcome { action: HostAction::RemoveSurface(channel, refresh), release: None }
            },
            ConsoleServerChannelEvent::ClientRequest(service, channel, call_id, request) => {
                let shown = match self.active_client_channel_handle {
                    Some(active) => active.0 == channel.0,
                    None => false,
                };
                match request {
                    ConsoleServerRequest::WriteText(p) => {
                        let release = Some(p.message_offset());
                        let layout = self.write_text(service, channel, p.get().text.as_str(), text_size);
                        match layout {
                            Some(l) => HostOutcome { action: HostAction::DrawText(channel, l, shown), release },
                            None => HostOutcome { action: HostAction::Idle, release },
                        }
                    },
                    ConsoleServerRequest::SaveTextCursorPosition => {
                        let _ = self.save_text_cursor_position(service, channel);
                        HostOutcome { action: HostAction::Idle, release: None }
                    },
                    ConsoleServerRequest::LoadTextCursorPosition => {
                        let _ = self.load_text_cursor_position(service, channel);
                        HostOutcome { action: HostAction::Idle, release: None }
                    },
                    ConsoleServerRequest::GetCapabilities => {
                        if self.has_client(service, channel) {
                            let reply = GetCapabilitiesReturns { is_framebuffer: true, framebuffer_size, text_size };
                            HostOutcome { action: HostAction::ReplyCapabilities(channel, call_id, reply), release: None }
                        } else {
                            HostOutcome { action: HostAction::Idle, release: None }
                        }
                    },
                    ConsoleServerRequest::DrawPixelDebug(p) => {
                        let release = Some(p.message_offset());
                        if self.has_client(service, channel) {
                            let parameters = p.get();
                            HostOutcome { action: HostAction::DrawPixel(channel, parameters.color, parameters.position, shown), release }
                        } else {
                            HostOutcome { action: HostAction::Idle, release }
                        }
                    },
                    ConsoleServerRequest::SetTextColor(p) => HostOutcome { action: HostAction::Idle, release: Some(p.message_offset()) },
                    ConsoleServerRequest::SetTextCursorPosition(p) => HostOutcome { action: HostAction::Idle, release: Some(p.message_offset()) },
                    ConsoleServerRequest::DrawImagePatch(p) => HostOutcome { action: HostAction::Idle, release: Some(p.message_offset()) },
                    ConsoleServerRequest::WriteObjects(p) => HostOutcome { action: HostAction::Idle, release: Some(p.message_offset()) },
                }
            },
        }
    }

    /// The channel of the active client, if any.
    pub fn active_channel(&self) -> (channel: Option<ChannelHandle>)
        ensures
            channel == self.active(),
    {
        self.active_client_channel_handle
    }

    /// Decides what an input does: quitting ends the loop; the console
    /// chord with the left or right arrow shows the previous or next
    /// console; pointer moves and presses, typed characters and other keys
    /// go to the active client, if any.
    pub fn decide_input(&mut self, input: HostInput) -> (action: InputAction)
        requires
            old(self).wf(),
        ensures
            final(self).wf(),
            input_decided(*old(self), *final(self), input, action),
    {
        match input {
            HostInput::Quit => InputAction::Exit,
            HostInput::Other => InputAction::Nothing,
            HostInput::PointerMoved(x, y) => match self.active_client_channel_handle {
                Some(c) => InputAction::SendPointerMoved(c, PointerMovedParameters { position: Point { x, y } }),
                None => InputAction::Nothing,
            },
            HostInput::PointerPressed(button, x, y) => match self.active_client_channel_handle {
                Some(c) => InputAction::SendPointerPressed(c, PointerPressedParameters { position: Point { x, y }, buttons: vec![button] }),
                None => InputAction::Nothing,
            },
            HostInput::PointerReleased(button, x, y) => match self.active_client_channel_handle {
                Some(c) => InputAction::SendPointerReleased(c, PointerReleasedParameters { position: Point { x, y }, buttons: vec![button] }),
                None => InputAction::Nothing,
            },
            HostInput::TextInput(ch) => match self.active_client_channel_handle {
                Some(c) => InputAction::SendCharacter(c, CharacterInputParameters { character: ch as u64 }),
                None => InputAction::Nothing,
            },
            HostInput::KeyDown(key, chord) => {
                if chord {
                    match key {
                        KeyCode::LeftArrow => {
                            if self.focus_previous_client() { InputAction::Refresh } else { InputAction::Nothing }
                        },
                        KeyCode::RightArrow => {
                            if self.active_console_number < isize::MAX {
                                if self.focus_next_client() { InputAction::Refresh } else { InputAction::Nothing }
                            } else {
                                InputAction::Nothing
                            }
                        },
                        _ => InputAction::Nothing,
                    }
                } else {
                    match self.active_client_channel_handle {
                        Some(c) => InputAction::SendKeyPressed(c, KeyPressedParameters { key_code: key }),
                        None => InputAction::Nothing,
                    }
                }
            },
        }
    }

    /// Replaces the client on a key that is in use by `client`, which has
    /// the console number of that position.
    fn replace_client(&mut self, service_handle: ServiceHandle, channel_handle: ChannelHandle, client: Client)
        requires
            old(self).wf(),
            has_key(old(self).entries(), service_handle.0, channel_handle.0),
            forall|i: int| 0 <= i < old(self).entries().len() && client_key(#[trigger] old(self).entries()[i]) == (service_handle.0, channel_handle.0)
                ==> client.console_number == i,
        ensures
            final(self).wf(),
            exists|i: int| 0 <= i < old(self).entries().len()
                && client_key(#[trigger] old(self).entries()[i]) == (service_handle.0, channel_handle.0)
                && final(self).entries() == old(self).entries().update(i, (service_handle, channel_handle, client)),
            final(self).active() == old(self).active(),
            final(self).active_number() == old(self).active_number(),
            final(self).count() == old(self).count(),
            final(self).registered() == old(self).registered(),
    {
        let _ = self.clients.update_client(service_handle, channel_handle, client);
    }

    /// Lays out `text` on the console of the client on `(service_handle,
    /// channel_handle)`, of `text_size` cells, moving its cursors; answers
    /// the layout, or `None` when no client is there or the text would move
    /// a cursor beyond the range of `i64`.
    pub fn write_text(&mut self, service_handle: ServiceHandle, channel_handle: ChannelHandle, text: &str, text_size: Size) -> (layout: Option<TextLayout>)
        requires
            old(self).wf(),
        ensures
            final(self).wf(),
            text_written(*old(self), *final(self), service_handle, channel_handle, text@, text_size, layout),
    {
        let mut copy = match self.copy_client(service_handle, channel_handle) {
            Some(client) => client,
            None => return None,
        };
        let n = text.unicode_len();
        if n as u64 > 0x7fff_ffff_ffff_ffffu64
            || copy.text_position.x > 0x7fff_ffff_ffff_ffffi64 - n as i64
            || copy.text_position.y > 0x7fff_ffff_ffff_ffffi64 - n as i64
            || copy.text_position.y <= -0x7fff_ffff_ffff_ffffi64 - 1 + n as i64
            || copy.saved_text_position.y <= -0x7fff_ffff_ffff_ffffi64 - 1 + n as i64 {
            return None;
        }
        let layout = draw_text(&mut copy, text_size, text);
        let ghost before = self.clients.entries();
        self.replace_client(service_handle, channel_handle, copy);
        proof {
            let i = choose|i: int| 0 <= i < before.len()
                && client_key(#[trigger] before[i]) == (service_handle.0, channel_handle.0)
                && self.clients.entries() == before.update(i, (service_handle, channel_handle, copy));
            assert(clients_data(self.clients.entries()) =~= clients_data(before).update(i, client_data((service_handle, channel_handle, copy))));
        }
        Some(layout)
    }
}

/// The client with console number `index`.
fn renumber_client(index: usize, client: &Client) -> (renumbered: Client)
    requires
        index < isize::MAX,
    ensures
        renumbered.channel_handle == client.channel_handle,
        renumbered.console_number == index,
        renumbered.name@ == client.name@,
        renumbered.text_position == client.text_position,
        renumbered.saved_text_position == client.saved_text_position,
{
    client.renumbered(index as isize)
}

/// `first_with_channel` is the least position whose channel matches.
pub proof fn lemma_first_with_channel(entries: Seq<(ServiceHandle, ChannelHandle, Client)>, channel: ChannelHandle)
    ensures
        -1 <= first_with_channel(entries, channel) < entries.len(),
        first_with_channel(entries, channel) >= 0 ==> entries[first_with_channel(entries, channel)].1 == channel,
        forall|j: int| 0 <= j < entries.len() && j < first_with_channel(entries, channel) ==> (#[trigger] entries[j]).1 != channel,
        first_with_channel(entries, channel) < 0 ==> forall|j: int| 0 <= j < entries.len() ==> (#[trigger] entries[j]).1 != channel,
    decreases entries.len(),
{
    if entries.len() > 0 && entries[0].1 != channel {
        lemma_first_with_channel(entries.drop_first(), channel);
        assert forall|j: int| 1 <= j < entries.len() implies entries.drop_first()[j - 1] == #[trigger] entries[j] by {}
    }
}

/// Saving a client's text cursor and then loading it puts the cursor where
/// it was when it was saved, and, right after the save, changes nothing.
pub proof fn law_load_after_save(a: ServerApplication, b: ServerApplication, d: ServerApplication, service: ServiceHandle, channel: ChannelHandle)
    requires
        a.wf(),
        b.wf(),
        cursor_set(a, b, service, channel, false, true),
        cursor_set(b, d, service, channel, true, true),
    ensures
        clients_data(d.entries()) == clients_data(b.entries()),
        exists|i: int| 0 <= i < a.entries().len()
            && client_key(#[trigger] a.entries()[i]) == (service.0, channel.0)
            && clients_data(d.entries())[i].3 == a.entries()[i].2.text_position,
{
    let i = choose|i: int| 0 <= i < a.entries().len()
        && client_key(#[trigger] a.entries()[i]) == (service.0, channel.0)
        && ({
            let client = a.entries()[i].2;
            let p = client.text_position;
            clients_data(b.entries()) == clients_data(a.entries()).update(i, (service, channel, client.name@, p, p))
        });
    let j = choose|j: int| 0 <= j < b.entries().len()
        && client_key(#[trigger] b.entries()[j]) == (service.0, channel.0)
        && ({
            let client = b.entries()[j].2;
            let p = client.saved_text_position;
            clients_data(d.entries()) == clients_data(b.entries()).update(j, (service, channel, client.name@, p, p))
        });
    b.clients.lemma_wf_entries();
    assert(clients_data(b.entries()).len() == clients_data(a.entries()).len());
    assert(clients_data(b.entries())[i] == client_data(b.entries()[i]));
    assert(client_key(b.entries()[i]) == (service.0, channel.0));
    if i < j {
        assert(key_less(client_key(b.entries()[i]), client_key(b.entries()[j])));
    } else if j < i {
        assert(key_less(client_key(b.entries()[j]), client_key(b.entries()[i])));
    }
    assert(clients_data(d.entries()) =~= clients_data(b.entries()));
}

/// Whether `after` follows `before` by a text write of `text` to the client
/// on `(service, channel)` with `layout`, as `write_text` states it, which
/// does not move up the cursors of the client on `key`.
pub open spec fn unscrolled_write(before: ServerApplication, after: ServerApplication, service: ServiceHandle, channel: ChannelHandle,
    text: Seq<char>, size: Size, layout: Option<TextLayout>, key: (u64, u64)) -> bool {
    &&& text_written(before, after, service, channel, text, size, layout)
    &&& (service.0, channel.0) == key ==> forall|j: int| 0 <= j < before.entries().len()
            && client_key(#[trigger] before.entries()[j]) == key
            ==> !run_scrolls(text, start_state(before.entries()[j].2), size)
}

/// Whether `after` follows `before` by a step that leaves the saved cursor
/// of the client on `key` where it is: a request that changes no client, a
/// text write that does not move up the cursors of that client, or a load
/// of some client's saved cursor.
pub open spec fn keeps_saved_cursor(before: ServerApplication, after: ServerApplication, size: Size, key: (u64, u64)) -> bool {
    ||| after.entries() == before.entries()
    ||| exists|service: ServiceHandle, channel: ChannelHandle, text: Seq<char>, layout: Option<TextLayout>|
            #[trigger] unscrolled_write(before, after, service, channel, text, size, layout, key)
    ||| exists|service: ServiceHandle, channel: ChannelHandle| #[trigger] cursor_set(before, after, service, channel, true, true)
}

/// Through a run of steps that keep the saved cursor of the client on
/// `key`, that client keeps its place among the clients and its saved cursor.
proof fn lemma_steps_keep_saved(states: Seq<ServerApplication>, size: Size, key: (u64, u64), idx: int, p: Point, k: int)
    requires
        states.len() >= 3,
        0 <= k <= states.len() - 3,
        forall|i: int| 0 <= i < states.len() ==> (#[trigger] states[i]).wf(),
        forall|i: int| 0 <= i < states.len() - 3 ==> keeps_saved_cursor(#[trigger] states[i + 1], states[i + 2], size, key),
        0 <= idx < states[k + 1].entries().len(),
        client_key(states[k + 1].entries()[idx]) == key,
        states[k + 1].entries()[idx].2.saved_text_position == p,
    ensures
        0 <= idx < states[states.len() - 2].entries().len(),
        client_key(states[states.len() - 2].entries()[idx]) == key,
        states[states.len() - 2].entries()[idx].2.saved_text_position == p,
    decreases states.len() - 3 - k,
{
    if k < states.len() - 3 {
        let before = states[k + 1];
        let after = states[k + 2];
        assert(keeps_saved_cursor(states[k + 1], states[k + 2], size, key));
        before.clients.lemma_wf_entries();
        after.clients.lemma_wf_entries();
        assert(clients_data(before.entries()).len() == before.entries().len());
        assert(clients_data(after.entries()).len() == after.entries().len());
        assert(clients_data(before.entries())[idx] == client_data(before.entries()[idx]));
        if after.entries() == before.entries() {
        } else if exists|service: ServiceHandle, channel: ChannelHandle, text: Seq<char>, layout: Option<TextLayout>|
            #[trigger] unscrolled_write(before, after, service, channel, text, size, layout, key) {
            let (ws, wc, text, layout) = choose|service: ServiceHandle, channel: ChannelHandle, text: Seq<char>, layout: Option<TextLayout>|
                #[trigger] unscrolled_write(before, after, service, channel, text, size, layout, key);
            match layout {
                None => {},
                Some(l) => {
                    let j = choose|j: int| 0 <= j < before.entries().len()
                        && client_key(#[trigger] before.entries()[j]) == (ws.0, wc.0)
                        && text_fits(before.entries()[j].2, text.len())
                        && ({
                            let client = before.entries()[j].2;
                            let (st, glyphs) = text_run(text, start_state(client), size);
                            &&& clients_data(after.entries()) == clients_data(before.entries()).update(j,
                                (ws, wc, client.name@, st.position, st.saved))
                            &&& l.glyphs@ == glyphs
                            &&& l.min_x == st.min_x && l.min_y == st.min_y && l.max_x == st.max_x && l.max_y == st.max_y
                        });
                    assert(clients_data(after.entries())[idx] == client_data(after.entries()[idx]));
                    if j == idx {
                        assert((ws.0, wc.0) == key);
                        law_unscrolled_text_keeps_saved(text, start_state(before.entries()[j].2), size);
                    } else {
                        assert(clients_data(after.entries())[idx] == clients_data(before.entries())[idx]);
                    }
                },
            }
        } else {
            let (ls, lc) = choose|service: ServiceHandle, channel: ChannelHandle| #[trigger] cursor_set(before, after, service, channel, true, true);
            let j = choose|j: int| 0 <= j < before.entries().len()
                && client_key(#[trigger] before.entries()[j]) == (ls.0, lc.0)
                && ({
                    let client = before.entries()[j].2;
                    let q = client.saved_text_position;
                    clients_data(after.entries()) == clients_data(before.entries()).update(j, (ls, lc, client.name@, q, q))
                });
            assert(clients_data(after.entries())[idx] == client_data(after.entries()[idx]));
            if j != idx {
                assert(clients_data(after.entries())[idx] == clients_data(before.entries())[idx]);
            }
        }
        lemma_steps_keep_saved(states, size, key, idx, p, k + 1);
    }
}

/// Saving a client's text cursor, then any run of steps that keep its saved
/// cursor (requests that change no client, text writes that never move its
/// cursors up, loads), then loading its cursor puts the cursor back where it
/// was when it was saved.
pub proof fn law_save_then_load(states: Seq<ServerApplication>, service: ServiceHandle, channel: ChannelHandle, size: Size)
    requires
        states.len() >= 3,
        forall|i: int| 0 <= i < states.len() ==> (#[trigger] states[i]).wf(),
        cursor_set(states[0], states[1], service, channel, false, true),
        forall|i: int| 0 <= i < states.len() - 3 ==> keeps_saved_cursor(#[trigger] states[i + 1], states[i + 2], size,
            (service.0, channel.0)),
        cursor_set(states[states.len() - 2], states[states.len() - 1], service, channel, true, true),
    ensures
        exists|i: int| 0 <= i < states[0].entries().len()
            && client_key(#[trigger] states[0].entries()[i]) == (service.0, channel.0)
            && clients_data(states.last().entries())[i].3 == states[0].entries()[i].2.text_position,
{
    let key = (service.0, channel.0);
    let a = states[0];
    let idx = choose|i: int| 0 <= i < a.entries().len()
        && client_key(#[trigger] a.entries()[i]) == key
        && ({
            let client = a.entries()[i].2;
            let p = client.text_position;
            clients_data(states[1].entries()) == clients_data(a.entries()).update(i, (service, channel, client.name@, p, p))
        });
    let p = a.entries()[idx].2.text_position;
    assert(clients_data(states[1].entries()).len() == states[1].entries().len());
    assert(clients_data(a.entries()).len() == a.entries().len());
    assert(clients_data(states[1].entries())[idx] == client_data(states[1].entries()[idx]));
    lemma_steps_keep_saved(states, size, key, idx, p, 0);
    let b = states[states.len() - 2];
    let d = states[states.len() - 1];
    let j = choose|j: int| 0 <= j < b.entries().len()
        && client_key(#[trigger] b.entries()[j]) == key
        && ({
            let client = b.entries()[j].2;
            let q = client.saved_text_position;
            clients_data(d.entries()) == clients_data(b.entries()).update(j, (service, channel, client.name@, q, q))
        });
    b.clients.lemma_wf_entries();
    if j < idx {
        assert(key_less(client_key(b.entries()[j]), client_key(b.entries()[idx])));
    } else if idx < j {
        assert(key_less(client_key(b.entries()[idx]), client_key(b.entries()[j])));
    }
    assert(states.last() == d);
}

/// What `decide_input` does with `input`, taking `before` to `after` with
/// `action`.
pub open spec fn input_decided(before: ServerApplication, after: ServerApplication, input: HostInput, action: InputAction) -> bool {
    match input {
        HostInput::KeyDown(key, true) => {
            if key == KeyCode::LeftArrow {
                (action is Refresh && focused_previous(before, after, true))
                    || (action is Nothing && focused_previous(before, after, false))
            } else if key == KeyCode::RightArrow && before.active_number() < isize::MAX {
                (action is Refresh && focused_next(before, after, true))
                    || (action is Nothing && focused_next(before, after, false))
            } else {
                action is Nothing && after == before
            }
        },
        _ => after == before && match input {
            HostInput::Quit => action is Exit,
            HostInput::Other => action is Nothing,
            HostInput::PointerMoved(x, y) => match before.active() {
                Some(c) => action == InputAction::SendPointerMoved(c, PointerMovedParameters { position: Point { x, y } }),
                None => action is Nothing,
            },
            HostInput::PointerPressed(button, x, y) => match before.active() {
                Some(c) => (action matches InputAction::SendPointerPressed(ch, p) && ch == c
                    && p.position == (Point { x, y }) && p.buttons@ =~= seq![button]),
                None => action is Nothing,
            },
            HostInput::PointerReleased(button, x, y) => match before.active() {
                Some(c) => (action matches InputAction::SendPointerReleased(ch, p) && ch == c
                    && p.position == (Point { x, y }) && p.buttons@ =~= seq![button]),
                None => action is Nothing,
            },
            HostInput::TextInput(ch) => match before.active() {
                Some(c) => action == InputAction::SendCharacter(c, CharacterInputParameters { character: ch as u64 }),
                None => action is Nothing,
            },
            HostInput::KeyDown(key, _) => match before.active() {
                Some(c) => action == InputAction::SendKeyPressed(c, KeyPressedParameters { key_code: key }),
                None => action is Nothing,
            },
        },
    }
}

/// Whether `input` is one that is passed on to the shown client as a
/// message: a pointer move, press or release, a typed character, or a key
/// without the console chord.
pub open spec fn is_message_input(input: HostInput) -> bool {
    match input {
        HostInput::PointerMoved(..) | HostInput::PointerPressed(..) | HostInput::PointerReleased(..) | HostInput::TextInput(_) => true,
        HostInput::KeyDown(_, chord) => !chord,
        _ => false,
    }
}

/// The channel that `action` sends a message to, if it sends one.
pub open spec fn message_target(action: InputAction) -> Option<ChannelHandle> {
    match action {
        InputAction::SendPointerMoved(c, _) | InputAction::SendPointerPressed(c, _) | InputAction::SendPointerReleased(c, _)
            | InputAction::SendCharacter(c, _) | InputAction::SendKeyPressed(c, _) => Some(c),
        _ => None,
    }
}

/// Over a stream of inputs decided one after another, the loop ends exactly
/// at the inputs that quit (so at the first of them); every pointer move,
/// press or release, typed character and key without the console chord
/// sends exactly one message, to the client shown at that moment, and none
/// when no client is shown; other inputs send nothing.
pub proof fn law_input_stream(states: Seq<ServerApplication>, inputs: Seq<HostInput>, actions: Seq<InputAction>)
    requires
        states.len() == inputs.len() + 1,
        actions.len() == inputs.len(),
        forall|i: int| 0 <= i < inputs.len() ==> input_decided(#[trigger] states[i], states[i + 1], inputs[i], actions[i]),
    ensures
        forall|i: int| 0 <= i < inputs.len() ==> ((#[trigger] actions[i]) is Exit <==> inputs[i] is Quit),
        forall|i: int| 0 <= i < inputs.len() && is_message_input(#[trigger] inputs[i])
            ==> message_target(actions[i]) == states[i].active(),
        forall|i: int| 0 <= i < inputs.len() && !is_message_input(#[trigger] inputs[i])
            ==> message_target(actions[i]) is None,
{
    assert forall|i: int| 0 <= i < inputs.len() implies
        ((#[trigger] actions[i]) is Exit <==> inputs[i] is Quit)
        && (is_message_input(inputs[i]) ==> message_target(actions[i]) == states[i].active())
        && (!is_message_input(inputs[i]) ==> message_target(actions[i]) is None) by {
        assert(input_decided(states[i], states[i + 1], inputs[i], actions[i]));
    }
    assert forall|i: int| 0 <= i < inputs.len() && is_message_input(#[trigger] inputs[i])
        implies message_target(actions[i]) == states[i].active() by {
        assert(input_decided(states[i], states[i + 1], inputs[i], actions[i]));
    }
    assert forall|i: int| 0 <= i < inputs.len() && !is_message_input(#[trigger] inputs[i])
        implies message_target(actions[i]) is None by {
        assert(input_decided(states[i], states[i + 1], inputs[i], actions[i]));
    }
}

/// While a client is shown, what an input sends carries exactly what the
/// host read: a pointer move, press or release is sent with the position
/// (x, y) it happened at (and a press or release with its one button), a
/// typed character with its scalar value, and a key without the console
/// chord with its key code.
pub proof fn law_messages_carry_the_input(before: ServerApplication, after: ServerApplication, input: HostInput, action: InputAction)
    requires
        input_decided(before, after, input, action),
        before.active() is Some,
    ensures
        input matches HostInput::PointerMoved(x, y) ==> (action matches InputAction::SendPointerMoved(_, p)
            && p.position == (Point { x, y })),
        input matches HostInput::PointerPressed(b, x, y) ==> (action matches InputAction::SendPointerPressed(_, p)
            && p.position == (Point { x, y }) && p.buttons@.len() == 1 && p.buttons@[0] == b),
        input matches HostInput::PointerReleased(b, x, y) ==> (action matches InputAction::SendPointerReleased(_, p)
            && p.position == (Point { x, y }) && p.buttons@.len() == 1 && p.buttons@[0] == b),
        input matches HostInput::TextInput(ch) ==> (action matches InputAction::SendCharacter(_, p)
            && p.character == ch as u64),
        input matches HostInput::KeyDown(k, false) ==> (action matches InputAction::SendKeyPressed(_, p)
            && p.key_code == k),
{
}

/// With the console chord held and more than one client counted, the left
/// arrow shows the console numbered one less (the last one, numbered one
/// less than the counter, when that goes below 0) and the right arrow the
/// console numbered one more (the first one when that reaches the counter);
/// the shown client is then the client with that number, if there is one.
/// Any other key with the chord, or any key with one client or none, sends
/// nothing and changes nothing.
pub proof fn law_console_switching(before: ServerApplication, after: ServerApplication, key: KeyCode, action: InputAction)
    requires
        input_decided(before, after, HostInput::KeyDown(key, true), action),
        before.active_number() < isize::MAX,
    ensures
        message_target(action) is None,
        after.entries() == before.entries(),
        key == KeyCode::LeftArrow && before.count() > 1 ==> action is Refresh
            && after.active_number() == (if before.active_number() - 1 < 0 { before.count() - 1 } else { before.active_number() - 1 }),
        key == KeyCode::RightArrow && before.count() > 1 ==> action is Refresh
            && after.active_number() == (if before.active_number() + 1 == before.count() { 0 } else { before.active_number() + 1 }),
        (key == KeyCode::LeftArrow || key == KeyCode::RightArrow) && before.count() > 1 ==> after.active() == (
            if 0 <= after.active_number() < after.entries().len() { Some(after.entries()[after.active_number() as int].1) } else { None }),
        !(key == KeyCode::LeftArrow || key == KeyCode::RightArrow) || before.count() <= 1 ==> action is Nothing
            && after.active() == before.active() && after.active_number() == before.active_number(),
{
}

/// Stepping forward and then back (or back and then forward) among two or
/// more consoles shows the console that was shown before, when that one
/// has a valid number.
pub proof fn law_focus_steps_undo(number: int, count: int)
    requires
        count > 1,
        0 <= number < count,
    ensures
        previous_number(next_number(number, count), count) == number,
        next_number(previous_number(number, count), count) == number,
        0 <= next_number(number, count) < count,
        0 <= previous_number(number, count) < count,
{
}

/// After any change, clients are numbered by their store position and the
/// active console number is at least -1: the application's invariant says so,
/// and every operation keeps it.
pub proof fn law_clients_numbered_by_position(application: ServerApplication)
    requires
        application.wf(),
    ensures
        numbered(application.entries()),
        application.active_number() >= -1,
        strictly_sorted(application.entries()),
{
    application.clients.lemma_wf_entries();
}

} // verus!
