//! The client side of the data protocol: the events a server sends, how a
//! message is read as an event, and the client's channel.

use vstd::prelude::*;
use crate::chaos::event::StormEvent;
use crate::chaos::handle::{ChannelHandle, ServiceHandle};
use crate::console::channel::{accepts, find_outcome, header_describes, with_committed, with_prepared, ChannelPair, ConsoleChannel, FromChannel, MessageView};
use crate::console::server::{lemma_found_in_rest, lemma_rest_from_queue};
use crate::layout::{parse_inline, Layout};
use crate::console::objects::WriteObjectsParameters;
use crate::data::input::{CharactersParameters, CommandsParameters};
use crate::data::message_ids::{CHARACTERS_PARAMETERS, COMMANDS_PARAMETERS, GET_DATA_CAPABILITIES_PARAMETERS, GET_DATA_CAPABILITIES_RETURNS, LOAD_TEXT_CURSOR_POSITION_PARAMETERS, SAVE_TEXT_CURSOR_POSITION_PARAMETERS, SET_TEXT_COLOR_PARAMETERS, SET_TEXT_CURSOR_POSITION_PARAMETERS, SIZE_CHANGED_PARAMETERS, WRITE_OBJECTS_PARAMETERS, WRITE_TEXT_PARAMETERS};
use crate::data::messages::{GetDataCapabilitiesReturns, SetTextColorParameters, SetTextCursorPositionParameters, SizeChangedParameters};
use crate::data::text::WriteTextParameters;

verus! {

/// An event that a data server sends to its client.
pub enum DataClientEvent {
    Characters(FromChannel<CharactersParameters>),
    Commands(FromChannel<CommandsParameters>),
    SizeChanged(FromChannel<SizeChangedParameters>),
}

/// What happened on the client's channel.
pub enum DataClientChannelEvent {
    ServerDisconnected(ChannelHandle),
    ServerEvent(ChannelHandle, DataClientEvent),
}

/// Whether a message with `id` and `payload` is an event that can be read:
/// its id names one, and its payload holds its parameters.
pub open spec fn event_decodes(id: u64, payload: Seq<u8>) -> bool {
    ||| id == CHARACTERS_PARAMETERS && parse_inline::<CharactersParameters>(payload, 0) is Some
    ||| id == COMMANDS_PARAMETERS && parse_inline::<CommandsParameters>(payload, 0) is Some
    ||| id == SIZE_CHANGED_PARAMETERS && SizeChangedParameters::parse(payload, 0) is Some
}

/// Whether `r` is an event read from the message at offset `message` with
/// `id` and `payload`: the variant that `id` names, with the parameters
/// that the payload holds.
pub open spec fn event_matches(r: DataClientEvent, id: u64, payload: Seq<u8>, message: usize) -> bool {
    match r {
        DataClientEvent::Characters(p) => id == CHARACTERS_PARAMETERS && p.message() == message
            && parse_inline::<CharactersParameters>(payload, 0) is Some && parse_inline::<CharactersParameters>(payload, 0).unwrap().0 == p.value().deep_view(),
        DataClientEvent::Commands(p) => id == COMMANDS_PARAMETERS && p.message() == message
            && parse_inline::<CommandsParameters>(payload, 0) is Some && parse_inline::<CommandsParameters>(payload, 0).unwrap().0 == p.value().deep_view(),
        DataClientEvent::SizeChanged(p) => id == SIZE_CHANGED_PARAMETERS && p.message() == message
            && SizeChangedParameters::parse(payload, 0) == Some(p.value()),
    }
}

/// Reads the event in the message at offset `message` with `message_id`
/// and `payload`, or `None` if it holds none.
pub fn decode_event(message_id: u64, payload: &[u8], message: usize) -> (decoded: Option<DataClientEvent>)
    ensures
        match decoded {
            Some(r) => event_matches(r, message_id, payload@, message),
            None => !event_decodes(message_id, payload@),
        },
{
    if message_id == CHARACTERS_PARAMETERS {
        match CharactersParameters::reconstruct_at_inline(payload, 0) {
            Some((v, _)) => Some(DataClientEvent::Characters(FromChannel::new(v, message))),
            None => None,
        }
    } else if message_id == COMMANDS_PARAMETERS {
        match CommandsParameters::reconstruct_at_inline(payload, 0) {
            Some((v, _)) => Some(DataClientEvent::Commands(FromChannel::new(v, message))),
            None => None,
        }
    } else if message_id == SIZE_CHANGED_PARAMETERS {
        match SizeChangedParameters::reconstruct_at_inline(payload, 0) {
            Some((v, _)) => Some(DataClientEvent::SizeChanged(FromChannel::new(v, message))),
            None => None,
        }
    } else {
        None
    }
}

/// Whether the message that is read next from the queue `v`, if any, as
/// `find_outcome` selects it, holds an event that can be read.
pub open spec fn next_event_decodes(v: Seq<MessageView>) -> bool {
    find_outcome(v).0 matches Some(offset) ==> forall|k: int| 0 <= k < v.len() && (#[trigger] v[k]).offset == offset
        ==> event_decodes(v[k].message_id, v[k].payload)
}

/// Whether the message that the client side of `pair` reads next, if any,
/// holds an event that can be read.
pub fn next_event_valid(pair: &ChannelPair) -> (valid: bool)
    requires
        pair.wf(),
    ensures
        valid == next_event_decodes(pair.buffer1.messages()),
{
    match pair.buffer1.next_message_index() {
        None => true,
        Some(k) => {
            let (id, _, payload) = pair.buffer1.message_at(k);
            proof {
                pair.buffer1.lemma_offsets_increase();
                let v = pair.buffer1.messages();
                assert forall|j: int| 0 <= j < v.len() && (#[trigger] v[j]).offset == v[k as int].offset implies j == k by {
                    if j < k { assert(v[j].offset < v[k as int].offset); }
                    if j > k { assert(v[k as int].offset < v[j].offset); }
                }
            }
            decode_event(id, payload.as_slice(), 0).is_some()
        }
    }
}

/// Whether `r` is what this side reads next from the queue `v`,
/// and `rest` the queue it leaves: the message that
/// `find_message` answers, read, and unlinked at once when it carries no
/// parameters (other messages stay until they are released).
pub open spec fn reads_event(v: Seq<MessageView>, r: DataClientEvent, rest: Seq<MessageView>) -> bool {
    let (found, left) = find_outcome(v);
    found matches Some(offset) && exists|k: int|
        0 <= k < left.len() && (#[trigger] left[k]).offset == offset && left[k].committed
        && event_matches(r, left[k].message_id, left[k].payload, offset)
        && rest == left
}

/// Reads the next event from the queue of this side of a channel, as
/// `reads_event` says.
fn next_event(channel: &ConsoleChannel, pair: &mut ChannelPair) -> (read: Option<DataClientEvent>)
    requires
        old(pair).wf(),
        !channel.server(),
        next_event_decodes(old(pair).buffer1.messages()),
    ensures
        final(pair).wf(),
        final(pair).buffer0 == old(pair).buffer0,
        match read {
            None => find_outcome(old(pair).buffer1.messages()).0 is None
                && final(pair).buffer1.messages() == find_outcome(old(pair).buffer1.messages()).1,
            Some(r) => reads_event(old(pair).buffer1.messages(), r, final(pair).buffer1.messages()),
        },
{
    let ghost v = pair.buffer1.messages();
    proof {
        assert(channel.rx(*pair) == pair.buffer1);
        assert(channel.tx(*pair) == pair.buffer0);
    }
    let found = channel.find_message(pair);
    let offset = match found {
        Some(o) => o,
        None => return None,
    };
    let ghost left = pair.buffer1.messages();
    proof {
        assert(channel.rx(*pair) == pair.buffer1);
        lemma_found_in_rest(v);
        lemma_rest_from_queue(v);
        pair.buffer1.lemma_offsets_increase();
    }
    let ghost k = choose|k: int| 0 <= k < left.len() && (#[trigger] left[k]).offset == offset && left[k].committed;
    let header = channel.message_header(pair, offset).unwrap();
    let payload = channel.message_payload(pair, offset).unwrap();
    proof {
        let j = choose|j: int| 0 <= j < v.len() && left[k] == v[j];
        assert(v[j].committed);
        assert(header_describes(header, left, k)) by {
            let k1 = choose|k1: int| 0 <= k1 < left.len() && (#[trigger] left[k1]).offset == offset && header_describes(header, left, k1);
            if k1 != k {
                assert(left[k1].offset != left[k].offset);
            }
        }
        assert(payload@ == left[k].payload) by {
            let k2 = choose|k2: int| 0 <= k2 < left.len() && (#[trigger] left[k2]).offset == offset && payload@ == left[k2].payload;
            if k2 != k {
                assert(left[k2].offset != left[k].offset);
            }
        }
    }
    let r = decode_event(header.message_id, payload.as_slice(), offset).unwrap();
    Some(r)
}

/// The client side of the data protocol: its channel to the server and the
/// kernel event being handled.
pub struct DataClient {
    current_event: Option<StormEvent>,
    channel_handle: ChannelHandle,
    channel: ConsoleChannel,
}

impl DataClient {
    /// The kernel event being handled, if any.
    pub closed spec fn current(&self) -> Option<StormEvent> {
        self.current_event
    }

    /// The channel to the server.
    pub closed spec fn handle(&self) -> ChannelHandle {
        self.channel_handle
    }

    /// The client side of that channel.
    pub closed spec fn channel(&self) -> ConsoleChannel {
        self.channel
    }

    /// A client on the channel `channel_handle` to a server, whose buffers
    /// `pair` it initialises.
    pub fn new(channel_handle: ChannelHandle, pair: &mut ChannelPair) -> (client: Self)
        requires
            old(pair).wf(),
        ensures
            final(pair).wf(),
            client.current() is None,
            client.handle() == channel_handle,
            !client.channel().server(),
            client.channel().next_call_id() == 1,
            final(pair).buffer0.messages() == Seq::<MessageView>::empty(),
            final(pair).buffer1.messages() == Seq::<MessageView>::empty(),
            !final(pair).buffer0.writing() && !final(pair).buffer1.writing(),
            final(pair).buffer0.capacity() == old(pair).buffer0.capacity(),
            final(pair).buffer1.capacity() == old(pair).buffer1.capacity(),
    {
        let channel = ConsoleChannel::new(pair, false);
        DataClient { current_event: None, channel_handle, channel }
    }

    /// Hands the client a kernel event to handle.
    pub fn register_event(&mut self, event: StormEvent)
        ensures
            final(self).current() == Some(event),
            final(self).handle() == old(self).handle(),
            final(self).channel() == old(self).channel(),
    {
        self.current_event = Some(event);
    }

    /// Handles the current kernel event, with `pair` the buffers of the
    /// client's channel: a signal on the channel reads the next server
    /// event (the kernel event stays current while events are found); the
    /// channel's destruction reports that the server left. Events for other
    /// channels report nothing and are done.
    pub fn get_event(&mut self, pair: &mut ChannelPair) -> (event: Option<DataClientChannelEvent>)
        requires
            old(pair).wf(),
            !old(self).channel().server(),
            old(self).current() matches Some(StormEvent::ChannelSignalled(c)) && c == old(self).handle()
                ==> next_event_decodes(old(pair).buffer1.messages()),
            old(self).current() matches Some(e) ==> (e is ChannelSignalled || e is ChannelDestroyed),
        ensures
            final(pair).wf(),
            final(pair).buffer0 == old(pair).buffer0,
            final(self).handle() == old(self).handle(),
            final(self).channel() == old(self).channel(),
            old(self).current() is None ==> event is None && final(self).current() is None && *final(pair) == *old(pair),
            old(self).current() matches Some(StormEvent::ChannelDestroyed(ch)) ==> {
                &&& final(self).current() is None
                &&& *final(pair) == *old(pair)
                &&& ch == old(self).handle() ==> (event matches Some(DataClientChannelEvent::ServerDisconnected(c)) && c == ch)
                &&& ch != old(self).handle() ==> event is None
            },
            old(self).current() matches Some(StormEvent::ChannelSignalled(ch)) ==> {
                &&& ch != old(self).handle() ==> final(self).current() is None && *final(pair) == *old(pair) && event is None
                &&& ch == old(self).handle() ==> match event {
                    None => final(self).current() is None
                        && find_outcome(old(pair).buffer1.messages()).0 is None
                        && final(pair).buffer1.messages() == find_outcome(old(pair).buffer1.messages()).1,
                    Some(DataClientChannelEvent::ServerEvent(c, e)) => c == ch
                        && final(self).current() == old(self).current()
                        && reads_event(old(pair).buffer1.messages(), e, final(pair).buffer1.messages()),
                    Some(_) => false,
                }
            },
    {
        match self.current_event {
            Some(StormEvent::ChannelDestroyed(channel_handle)) => {
                self.current_event = None;
                if channel_handle == self.channel_handle {
                    Some(DataClientChannelEvent::ServerDisconnected(channel_handle))
                } else {
                    None
                }
            },
            Some(StormEvent::ChannelSignalled(channel_handle)) => {
                if channel_handle == self.channel_handle {
                    match next_event(&self.channel, pair) {
                        Some(e) => Some(DataClientChannelEvent::ServerEvent(channel_handle, e)),
                        None => {
                            self.current_event = None;
                            None
                        },
                    }
                } else {
                    self.current_event = None;
                    None
                }
            },
            _ => {
                self.current_event = None;
                None
            },
        }
    }


    /// Unlinks the complete message at offset `message` from the queue that
    /// the client reads (the end of a message read with parameters); does
    /// nothing, and answers `false`, if no complete message is there.
    pub fn release_message(&self, pair: &mut ChannelPair, message: usize) -> (released: bool)
        requires
            old(pair).wf(),
            !self.channel().server(),
        ensures
            final(pair).wf(),
            final(pair).buffer0 == old(pair).buffer0,
            released == exists|k: int| 0 <= k < old(pair).buffer1.messages().len()
                && (#[trigger] old(pair).buffer1.messages()[k]).offset == message && old(pair).buffer1.messages()[k].committed,
            released ==> exists|k: int| 0 <= k < old(pair).buffer1.messages().len()
                && (#[trigger] old(pair).buffer1.messages()[k]).offset == message
                && final(pair).buffer1.messages() == old(pair).buffer1.messages().remove(k),
            !released ==> *final(pair) == *old(pair),
    {
        proof {
            assert(self.channel.rx(*pair) == pair.buffer1);
            pair.buffer1.lemma_offsets_increase();
        }
        match self.channel.message_header(pair, message) {
            Some(h) => {
                if h.message_length == 0 {
                    proof {
                        let k1 = choose|k1: int| 0 <= k1 < pair.buffer1.messages().len() && (#[trigger] pair.buffer1.messages()[k1]).offset == message
                            && header_describes(h, pair.buffer1.messages(), k1);
                        assert forall|k: int| 0 <= k < pair.buffer1.messages().len() && (#[trigger] pair.buffer1.messages()[k]).offset == message
                            implies !pair.buffer1.messages()[k].committed by {
                            if k != k1 {
                                assert(pair.buffer1.messages()[k].offset != pair.buffer1.messages()[k1].offset);
                            }
                        }
                    }
                    false
                } else {
                    self.channel.unlink_message(pair, message);
                    true
                }
            },
            None => false,
        }
    }

    /// Writes a request with `message_id` and `payload` into the queue that
    /// the server reads; answers whether it was written.
    fn send(&mut self, pair: &mut ChannelPair, message_id: u64, payload: Vec<u8>) -> (sent: bool)
        requires
            old(pair).wf(),
            !old(self).channel().server(),
        ensures
            final(pair).wf(),
            final(self).current() == old(self).current(),
            final(self).handle() == old(self).handle(),
            !final(self).channel().server(),
            final(pair).buffer1 == old(pair).buffer1,
            sent == accepts(old(self).channel(), *old(pair), payload@.len()),
            sent ==> final(pair).buffer0.messages() == with_committed(with_prepared(old(pair).buffer0.messages(),
                old(pair).buffer0.next_offset() as usize, message_id, old(self).channel().next_call_id(), false), payload@),
            sent ==> final(self).channel().next_call_id() == old(self).channel().next_call_id() + 1,
            !sent ==> *final(pair) == *old(pair) && final(self).channel() == old(self).channel(),
            sent ==> final(self).channel().next_call_id() == old(self).channel().next_call_id() + 1,
            !sent ==> final(self).channel() == old(self).channel(),
    {
        proof {
            assert(self.channel.tx(*pair) == pair.buffer0);
            assert(self.channel.rx(*pair) == pair.buffer1);
        }
        let sent = self.channel.send_message(pair, message_id, false, None, payload);
        proof {
            assert(self.channel.tx(*pair) == pair.buffer0);
            assert(self.channel.rx(*pair) == pair.buffer1);
        }
        sent
    }


    /// Asks the server to set the text colours.
    pub fn set_text_color(&mut self, pair: &mut ChannelPair, parameters: &SetTextColorParameters) -> (sent: bool)
        requires
            old(pair).wf(),
            !old(self).channel().server(),
        ensures
            final(pair).wf(),
            final(self).current() == old(self).current(),
            !final(self).channel().server(),
            final(pair).buffer1 == old(pair).buffer1,
            sent == accepts(old(self).channel(), *old(pair), parameters.wire().len()),
            sent ==> final(pair).buffer0.messages() == with_committed(with_prepared(old(pair).buffer0.messages(),
                old(pair).buffer0.next_offset() as usize, SET_TEXT_COLOR_PARAMETERS, old(self).channel().next_call_id(), false),
                parameters.wire()),
            !sent ==> *final(pair) == *old(pair),
            sent ==> final(self).channel().next_call_id() == old(self).channel().next_call_id() + 1,
            !sent ==> final(self).channel() == old(self).channel(),
    {
        let mut payload: Vec<u8> = Vec::new();
        let _ = parameters.write_at(&mut payload);
        proof {
            assert(payload@ =~= parameters.wire());
        }
        self.send(pair, SET_TEXT_COLOR_PARAMETERS, payload)
    }

    /// Asks the server to remember the text cursor.
    pub fn save_text_cursor_position(&mut self, pair: &mut ChannelPair) -> (sent: bool)
        requires
            old(pair).wf(),
            !old(self).channel().server(),
        ensures
            final(pair).wf(),
            final(self).current() == old(self).current(),
            !final(self).channel().server(),
            final(pair).buffer1 == old(pair).buffer1,
            sent == accepts(old(self).channel(), *old(pair), Seq::<u8>::empty().len()),
            sent ==> final(pair).buffer0.messages() == with_committed(with_prepared(old(pair).buffer0.messages(),
                old(pair).buffer0.next_offset() as usize, SAVE_TEXT_CURSOR_POSITION_PARAMETERS, old(self).channel().next_call_id(), false),
                Seq::<u8>::empty()),
            !sent ==> *final(pair) == *old(pair),
            sent ==> final(self).channel().next_call_id() == old(self).channel().next_call_id() + 1,
            !sent ==> final(self).channel() == old(self).channel(),
    {
        self.send(pair, SAVE_TEXT_CURSOR_POSITION_PARAMETERS, Vec::new())
    }

    /// Asks the server to put the text cursor back where it was remembered.
    pub fn load_text_cursor_position(&mut self, pair: &mut ChannelPair) -> (sent: bool)
        requires
            old(pair).wf(),
            !old(self).channel().server(),
        ensures
            final(pair).wf(),
            final(self).current() == old(self).current(),
            !final(self).channel().server(),
            final(pair).buffer1 == old(pair).buffer1,
            sent == accepts(old(self).channel(), *old(pair), Seq::<u8>::empty().len()),
            sent ==> final(pair).buffer0.messages() == with_committed(with_prepared(old(pair).buffer0.messages(),
                old(pair).buffer0.next_offset() as usize, LOAD_TEXT_CURSOR_POSITION_PARAMETERS, old(self).channel().next_call_id(), false),
                Seq::<u8>::empty()),
            !sent ==> *final(pair) == *old(pair),
            sent ==> final(self).channel().next_call_id() == old(self).channel().next_call_id() + 1,
            !sent ==> final(self).channel() == old(self).channel(),
    {
        self.send(pair, LOAD_TEXT_CURSOR_POSITION_PARAMETERS, Vec::new())
    }

    /// Asks the server to move the text cursor.
    pub fn set_text_cursor_position(&mut self, pair: &mut ChannelPair, parameters: &SetTextCursorPositionParameters) -> (sent: bool)
        requires
            old(pair).wf(),
            !old(self).channel().server(),
        ensures
            final(pair).wf(),
            final(self).current() == old(self).current(),
            !final(self).channel().server(),
            final(pair).buffer1 == old(pair).buffer1,
            sent == accepts(old(self).channel(), *old(pair), parameters.wire().len()),
            sent ==> final(pair).buffer0.messages() == with_committed(with_prepared(old(pair).buffer0.messages(),
                old(pair).buffer0.next_offset() as usize, SET_TEXT_CURSOR_POSITION_PARAMETERS, old(self).channel().next_call_id(), false),
                parameters.wire()),
            !sent ==> *final(pair) == *old(pair),
            sent ==> final(self).channel().next_call_id() == old(self).channel().next_call_id() + 1,
            !sent ==> final(self).channel() == old(self).channel(),
    {
        let mut payload: Vec<u8> = Vec::new();
        let _ = parameters.write_at(&mut payload);
        proof {
            assert(payload@ =~= parameters.wire());
        }
        self.send(pair, SET_TEXT_CURSOR_POSITION_PARAMETERS, payload)
    }

    /// Asks the server to write text at the text cursor.
    pub fn write_text(&mut self, pair: &mut ChannelPair, parameters: &WriteTextParameters) -> (sent: bool)
        requires
            old(pair).wf(),
            !old(self).channel().server(),
        ensures
            final(pair).wf(),
            final(self).current() == old(self).current(),
            !final(self).channel().server(),
            final(pair).buffer1 == old(pair).buffer1,
            sent == accepts(old(self).channel(), *old(pair), (parameters.fixed_part() + parameters.references()).len()),
            sent ==> final(pair).buffer0.messages() == with_committed(with_prepared(old(pair).buffer0.messages(),
                old(pair).buffer0.next_offset() as usize, WRITE_TEXT_PARAMETERS, old(self).channel().next_call_id(), false),
                (parameters.fixed_part() + parameters.references())),
            !sent ==> *final(pair) == *old(pair),
            sent ==> final(self).channel().next_call_id() == old(self).channel().next_call_id() + 1,
            !sent ==> final(self).channel() == old(self).channel(),
    {
        let mut payload: Vec<u8> = Vec::new();
        let _ = parameters.write_at(&mut payload);
        proof {
            assert(payload@ =~= (parameters.fixed_part() + parameters.references()));
        }
        self.send(pair, WRITE_TEXT_PARAMETERS, payload)
    }

    /// Asks the server to show a list of objects.
    pub fn write_objects(&mut self, pair: &mut ChannelPair, parameters: &WriteObjectsParameters) -> (sent: bool)
        requires
            old(pair).wf(),
            !old(self).channel().server(),
        ensures
            final(pair).wf(),
            final(self).current() == old(self).current(),
            !final(self).channel().server(),
            final(pair).buffer1 == old(pair).buffer1,
            sent == accepts(old(self).channel(), *old(pair), (parameters.fixed_part() + parameters.references()).len()),
            sent ==> final(pair).buffer0.messages() == with_committed(with_prepared(old(pair).buffer0.messages(),
                old(pair).buffer0.next_offset() as usize, WRITE_OBJECTS_PARAMETERS, old(self).channel().next_call_id(), false),
                (parameters.fixed_part() + parameters.references())),
            !sent ==> *final(pair) == *old(pair),
            sent ==> final(self).channel().next_call_id() == old(self).channel().next_call_id() + 1,
            !sent ==> final(self).channel() == old(self).channel(),
    {
        let mut payload: Vec<u8> = Vec::new();
        let _ = parameters.write_at(&mut payload);
        proof {
            assert(payload@ =~= (parameters.fixed_part() + parameters.references()));
        }
        self.send(pair, WRITE_OBJECTS_PARAMETERS, payload)
    }

    /// Asks the server for its capabilities; answers the call id that the reply will carry, or `None`
    /// if the request could not be written.
    pub fn request_data_capabilities(&mut self, pair: &mut ChannelPair) -> (call_id: Option<u64>)
        requires
            old(pair).wf(),
            !old(self).channel().server(),
        ensures
            final(pair).wf(),
            final(self).current() == old(self).current(),
            !final(self).channel().server(),
            final(pair).buffer1 == old(pair).buffer1,
            call_id is Some == accepts(old(self).channel(), *old(pair), Seq::<u8>::empty().len()),
            call_id matches Some(c) ==> c == old(self).channel().next_call_id()
                && final(pair).buffer0.messages() == with_committed(with_prepared(old(pair).buffer0.messages(),
                    old(pair).buffer0.next_offset() as usize, GET_DATA_CAPABILITIES_PARAMETERS, c, false), Seq::<u8>::empty()),
            call_id is None ==> *final(pair) == *old(pair),
            call_id is Some ==> final(self).channel().next_call_id() == old(self).channel().next_call_id() + 1,
            call_id is None ==> final(self).channel() == old(self).channel(),
    {
        let call_id = self.channel.call_id();
        if self.send(pair, GET_DATA_CAPABILITIES_PARAMETERS, Vec::new()) {
            Some(call_id)
        } else {
            None
        }
    }

    /// The server's reply to the request with `call_id`: the first message
    /// in the queue the client reads with that call id, read and unlinked;
    /// `None` while there is no such message, or if it is incomplete or
    /// holds no such reply (it then stays).
    pub fn data_capabilities_reply(&self, pair: &mut ChannelPair, call_id: u64) -> (reply: Option<GetDataCapabilitiesReturns>)
        requires
            old(pair).wf(),
            !self.channel().server(),
        ensures
            final(pair).wf(),
            final(pair).buffer0 == old(pair).buffer0,
            reply matches Some(r) ==> exists|k: int| 0 <= k < old(pair).buffer1.messages().len()
                && (#[trigger] old(pair).buffer1.messages()[k]).call_id == call_id
                && (forall|j: int| 0 <= j < k ==> old(pair).buffer1.messages()[j].call_id != call_id)
                && old(pair).buffer1.messages()[k].committed
                && old(pair).buffer1.messages()[k].message_id == GET_DATA_CAPABILITIES_RETURNS
                && GetDataCapabilitiesReturns::parse(old(pair).buffer1.messages()[k].payload, 0) == Some(r)
                && final(pair).buffer1.messages() == old(pair).buffer1.messages().remove(k),
            reply is None ==> *final(pair) == *old(pair),
            reply is Some <==> exists|k: int| 0 <= k < old(pair).buffer1.messages().len()
                && (#[trigger] old(pair).buffer1.messages()[k]).call_id == call_id
                && (forall|j: int| 0 <= j < k ==> old(pair).buffer1.messages()[j].call_id != call_id)
                && old(pair).buffer1.messages()[k].committed
                && old(pair).buffer1.messages()[k].message_id == GET_DATA_CAPABILITIES_RETURNS
                && GetDataCapabilitiesReturns::parse(old(pair).buffer1.messages()[k].payload, 0) is Some,
    {
        proof {
            assert(self.channel.rx(*pair) == pair.buffer1);
            pair.buffer1.lemma_offsets_increase();
        }
        let offset = match self.channel.find_specific_message(pair, call_id) {
            Some(o) => o,
            None => return None,
        };
        let ghost v = pair.buffer1.messages();
        let ghost k = choose|k: int| 0 <= k < v.len() && (#[trigger] v[k]).call_id == call_id
            && v[k].offset == offset && forall|j: int| 0 <= j < k ==> v[j].call_id != call_id;
        let header = self.channel.message_header(pair, offset).unwrap();
        proof {
            let k1 = choose|k1: int| 0 <= k1 < v.len() && (#[trigger] v[k1]).offset == offset && header_describes(header, v, k1);
            if k1 != k {
                assert(v[k1].offset != v[k].offset);
            }
        }
        if header.message_length == 0 || header.message_id != GET_DATA_CAPABILITIES_RETURNS {
            return None;
        }
        let payload = self.channel.message_payload(pair, offset).unwrap();
        proof {
            let k2 = choose|k2: int| 0 <= k2 < v.len() && (#[trigger] v[k2]).offset == offset && payload@ == v[k2].payload;
            if k2 != k {
                assert(v[k2].offset != v[k].offset);
            }
        }
        let reply = match GetDataCapabilitiesReturns::reconstruct_at_inline(payload.as_slice(), 0) {
            Some((r, _)) => r,
            None => return None,
        };
        self.channel.unlink_message(pair, offset);
        proof {
            assert(self.channel.rx(*pair) == pair.buffer1);
            let k3 = choose|k3: int| 0 <= k3 < v.len() && (#[trigger] v[k3]).offset == offset
                && pair.buffer1.messages() == v.remove(k3);
            if k3 != k {
                assert(v[k3].offset != v[k].offset);
            }
        }
        Some(reply)
    }

}

} // verus!
