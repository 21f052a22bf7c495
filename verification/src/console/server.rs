//! The server side of the console protocol: which requests clients send,
//! how a message is read as a request, and the server's channel table that
//! turns kernel events into client connections, disconnections and
//! requests.

use vstd::prelude::*;
use crate::chaos::event::StormEvent;
use crate::chaos::handle::{ChannelHandle, ServiceHandle};
use crate::console::channel::{accepts, with_committed, with_prepared, find_outcome, header_describes, law_found_message_is_complete, law_replacement_keeps_latest, lemma_without_superseded_kind, ChannelPair, ConsoleChannel, FromChannel, MessageView};
use crate::console::image::ImagePatch;
use crate::console::message_ids::{CHARACTER_INPUT_PARAMETERS, GET_CAPABILITIES_RETURNS, KEY_PRESSED_PARAMETERS, KEY_RELEASED_PARAMETERS, POINTER_MOVED_PARAMETERS, POINTER_PRESSED_PARAMETERS, POINTER_RELEASED_PARAMETERS, SIZE_CHANGED_PARAMETERS, DRAW_IMAGE_PATCH_PARAMETERS, DRAW_PIXEL_DEBUG_PARAMETERS, GET_CAPABILITIES_PARAMETERS, LOAD_TEXT_CURSOR_POSITION_PARAMETERS, SAVE_TEXT_CURSOR_POSITION_PARAMETERS, SET_TEXT_COLOR_PARAMETERS, SET_TEXT_CURSOR_POSITION_PARAMETERS, WRITE_OBJECTS_PARAMETERS, WRITE_TEXT_PARAMETERS};
use crate::console::messages::{CharacterInputParameters, DrawPixelDebugParameters, GetCapabilitiesReturns, KeyPressedParameters, KeyReleasedParameters, PointerMovedParameters, SetTextColorParameters, SizeChangedParameters};
use crate::console::pointer::{PointerPressedParameters, PointerReleasedParameters};
use crate::console::objects::WriteObjectsParameters;
use crate::console::text::WriteConsoleTextParameters;
use crate::data::messages::SetTextCursorPositionParameters;
use crate::layout::{parse_inline, Layout};

verus! {

/// A request of a console client.
pub enum ConsoleServerRequest {
    GetCapabilities,
    SetTextColor(FromChannel<SetTextColorParameters>),
    SaveTextCursorPosition,
    LoadTextCursorPosition,
    SetTextCursorPosition(FromChannel<SetTextCursorPositionParameters>),
    DrawImagePatch(FromChannel<ImagePatch>),
    WriteText(FromChannel<WriteConsoleTextParameters>),
    WriteObjects(FromChannel<WriteObjectsParameters>),
    DrawPixelDebug(FromChannel<DrawPixelDebugParameters>),
}

/// What happened on the server's channels.
pub enum ConsoleServerChannelEvent {
    ClientConnected(ServiceHandle, ChannelHandle),
    ClientDisconnected(ServiceHandle, ChannelHandle),
    ClientRequest(ServiceHandle, ChannelHandle, u64, ConsoleServerRequest),
}

/// Requests that carry no parameters; their message is unlinked as soon as
/// it is read.
pub open spec fn without_parameters(id: u64) -> bool {
    id == GET_CAPABILITIES_PARAMETERS || id == SAVE_TEXT_CURSOR_POSITION_PARAMETERS || id == LOAD_TEXT_CURSOR_POSITION_PARAMETERS
}

/// Whether a message with `id` and `payload` is a request that can be read:
/// its id names a request, and its payload holds that request's parameters.
pub open spec fn request_decodes(id: u64, payload: Seq<u8>) -> bool {
    ||| without_parameters(id)
    ||| id == SET_TEXT_COLOR_PARAMETERS && SetTextColorParameters::parse(payload, 0) is Some
    ||| id == SET_TEXT_CURSOR_POSITION_PARAMETERS && SetTextCursorPositionParameters::parse(payload, 0) is Some
    ||| id == DRAW_IMAGE_PATCH_PARAMETERS && parse_inline::<ImagePatch>(payload, 0) is Some
    ||| id == WRITE_TEXT_PARAMETERS && parse_inline::<WriteConsoleTextParameters>(payload, 0) is Some
    ||| id == WRITE_OBJECTS_PARAMETERS && parse_inline::<WriteObjectsParameters>(payload, 0) is Some
    ||| id == DRAW_PIXEL_DEBUG_PARAMETERS && DrawPixelDebugParameters::parse(payload, 0) is Some
}

/// Whether `r` is the request read from the message at offset `message`
/// with `id` and `payload`: the variant that `id` names, with the
/// parameters that the payload holds.
pub open spec fn request_matches(r: ConsoleServerRequest, id: u64, payload: Seq<u8>, message: usize) -> bool {
    match r {
        ConsoleServerRequest::GetCapabilities => id == GET_CAPABILITIES_PARAMETERS,
        ConsoleServerRequest::SaveTextCursorPosition => id == SAVE_TEXT_CURSOR_POSITION_PARAMETERS,
        ConsoleServerRequest::LoadTextCursorPosition => id == LOAD_TEXT_CURSOR_POSITION_PARAMETERS,
        ConsoleServerRequest::SetTextColor(p) => id == SET_TEXT_COLOR_PARAMETERS && p.message() == message
            && SetTextColorParameters::parse(payload, 0) == Some(p.value()),
        ConsoleServerRequest::SetTextCursorPosition(p) => id == SET_TEXT_CURSOR_POSITION_PARAMETERS && p.message() == message
            && SetTextCursorPositionParameters::parse(payload, 0) == Some(p.value()),
        ConsoleServerRequest::DrawImagePatch(p) => id == DRAW_IMAGE_PATCH_PARAMETERS && p.message() == message
            && parse_inline::<ImagePatch>(payload, 0) is Some && parse_inline::<ImagePatch>(payload, 0).unwrap().0 == p.value().deep_view(),
        ConsoleServerRequest::WriteText(p) => id == WRITE_TEXT_PARAMETERS && p.message() == message
            && parse_inline::<WriteConsoleTextParameters>(payload, 0) is Some && parse_inline::<WriteConsoleTextParameters>(payload, 0).unwrap().0 == p.value().deep_view(),
        ConsoleServerRequest::WriteObjects(p) => id == WRITE_OBJECTS_PARAMETERS && p.message() == message
            && parse_inline::<WriteObjectsParameters>(payload, 0) is Some && parse_inline::<WriteObjectsParameters>(payload, 0).unwrap().0 == p.value().deep_view(),
        ConsoleServerRequest::DrawPixelDebug(p) => id == DRAW_PIXEL_DEBUG_PARAMETERS && p.message() == message
            && DrawPixelDebugParameters::parse(payload, 0) == Some(p.value()),
    }
}

/// Reads the request in the message at offset `message` with `message_id`
/// and `payload`, or `None` if it holds none.
pub fn decode_request(message_id: u64, payload: &[u8], message: usize) -> (request: Option<ConsoleServerRequest>)
    ensures
        match request {
            Some(r) => request_matches(r, message_id, payload@, message),
            None => !request_decodes(message_id, payload@),
        },
{
    if message_id == GET_CAPABILITIES_PARAMETERS {
        Some(ConsoleServerRequest::GetCapabilities)
    } else if message_id == SAVE_TEXT_CURSOR_POSITION_PARAMETERS {
        Some(ConsoleServerRequest::SaveTextCursorPosition)
    } else if message_id == LOAD_TEXT_CURSOR_POSITION_PARAMETERS {
        Some(ConsoleServerRequest::LoadTextCursorPosition)
    } else if message_id == SET_TEXT_COLOR_PARAMETERS {
        match SetTextColorParameters::reconstruct_at_inline(payload, 0) {
            Some((v, _)) => Some(ConsoleServerRequest::SetTextColor(FromChannel::new(v, message))),
            None => None,
        }
    } else if message_id == SET_TEXT_CURSOR_POSITION_PARAMETERS {
        match SetTextCursorPositionParameters::reconstruct_at_inline(payload, 0) {
            Some((v, _)) => Some(ConsoleServerRequest::SetTextCursorPosition(FromChannel::new(v, message))),
            None => None,
        }
    } else if message_id == DRAW_IMAGE_PATCH_PARAMETERS {
        match ImagePatch::reconstruct_at_inline(payload, 0) {
            Some((v, _)) => Some(ConsoleServerRequest::DrawImagePatch(FromChannel::new(v, message))),
            None => None,
        }
    } else if message_id == WRITE_TEXT_PARAMETERS {
        match WriteConsoleTextParameters::reconstruct_at_inline(payload, 0) {
            Some((v, _)) => Some(ConsoleServerRequest::WriteText(FromChannel::new(v, message))),
            None => None,
        }
    } else if message_id == WRITE_OBJECTS_PARAMETERS {
        match WriteObjectsParameters::reconstruct_at_inline(payload, 0) {
            Some((v, _)) => Some(ConsoleServerRequest::WriteObjects(FromChannel::new(v, message))),
            None => None,
        }
    } else if message_id == DRAW_PIXEL_DEBUG_PARAMETERS {
        match DrawPixelDebugParameters::reconstruct_at_inline(payload, 0) {
            Some((v, _)) => Some(ConsoleServerRequest::DrawPixelDebug(FromChannel::new(v, message))),
            None => None,
        }
    } else {
        None
    }
}

/// Whether the message that is read next from the queue `v`, if any, as
/// `find_outcome` selects it, holds a request that can be read.
pub open spec fn next_request_decodes(v: Seq<MessageView>) -> bool {
    find_outcome(v).0 matches Some(offset) ==> forall|k: int| 0 <= k < v.len() && (#[trigger] v[k]).offset == offset
        ==> request_decodes(v[k].message_id, v[k].payload)
}

/// Whether the message that the server side of `pair` reads next, if any,
/// holds a request that can be read.
pub fn next_request_valid(pair: &ChannelPair) -> (valid: bool)
    requires
        pair.wf(),
    ensures
        valid == next_request_decodes(pair.buffer0.messages()),
{
    match pair.buffer0.next_message_index() {
        None => true,
        Some(k) => {
            let (id, _, payload) = pair.buffer0.message_at(k);
            proof {
                pair.buffer0.lemma_offsets_increase();
                let v = pair.buffer0.messages();
                assert forall|j: int| 0 <= j < v.len() && (#[trigger] v[j]).offset == v[k as int].offset implies j == k by {
                    if j < k { assert(v[j].offset < v[k as int].offset); }
                    if j > k { assert(v[k as int].offset < v[j].offset); }
                }
            }
            decode_request(id, payload.as_slice(), 0).is_some()
        }
    }
}

/// Whether `r` is what the server side of a channel reads next from the
/// queue `v`, and `rest` the queue it leaves: the message that
/// `find_message` answers, read as a request, unlinked at once when the
/// request has no parameters (a request with parameters keeps its message
/// until it is released).
pub open spec fn reads_request(v: Seq<MessageView>, call_id: u64, r: ConsoleServerRequest, rest: Seq<MessageView>) -> bool {
    let (found, left) = find_outcome(v);
    found matches Some(offset) && exists|k: int|
        0 <= k < left.len() && (#[trigger] left[k]).offset == offset && left[k].committed
        && call_id == left[k].call_id
        && request_matches(r, left[k].message_id, left[k].payload, offset)
        && rest == (if without_parameters(left[k].message_id) { left.remove(k) } else { left })
}

/// The message that `find_message` answers is complete and lies in the
/// queue it leaves.
pub proof fn lemma_found_in_rest(v: Seq<MessageView>)
    ensures
        find_outcome(v).0 matches Some(offset) ==> exists|k: int|
            0 <= k < find_outcome(v).1.len() && (#[trigger] find_outcome(v).1[k]).offset == offset && find_outcome(v).1[k].committed,
{
    if v.len() > 0 && v[0].committed {
        if v[0].replace_pending {
            law_replacement_keeps_latest(v);
        } else {
            law_found_message_is_complete(v);
        }
    }
}

/// Every message of the queue that `find_message` leaves was in the queue.
pub proof fn lemma_rest_from_queue(v: Seq<MessageView>)
    ensures
        forall|k: int| 0 <= k < find_outcome(v).1.len() ==> exists|j: int| 0 <= j < v.len() && #[trigger] find_outcome(v).1[k] == v[j],
{
    if v.len() > 0 && v[0].committed && v[0].replace_pending {
        let id = v[0].message_id;
        let last = crate::console::channel::last_of_kind(v, id);
        assert forall|k: int| 0 <= k < find_outcome(v).1.len() implies exists|j: int| 0 <= j < v.len() && #[trigger] find_outcome(v).1[k] == v[j] by {
            lemma_without_superseded_kind(v, id, last, v.len(), k);
        }
    } else {
        assert forall|k: int| 0 <= k < find_outcome(v).1.len() implies exists|j: int| 0 <= j < v.len() && #[trigger] find_outcome(v).1[k] == v[j] by {
            assert(find_outcome(v).1[k] == v[k]);
        }
    }
}

/// Reads the next request from the queue of a server channel, as
/// `reads_request` says, with its call id and message offset.
fn next_request(channel: &ConsoleChannel, pair: &mut ChannelPair) -> (read: Option<(u64, ConsoleServerRequest)>)
    requires
        old(pair).wf(),
        channel.server(),
        next_request_decodes(old(pair).buffer0.messages()),
    ensures
        final(pair).wf(),
        final(pair).buffer1 == old(pair).buffer1,
        final(pair).buffer0.capacity() == old(pair).buffer0.capacity(),
        final(pair).buffer0.writing() == old(pair).buffer0.writing(),
        final(pair).buffer0.compatible() == old(pair).buffer0.compatible(),
        match read {
            None => find_outcome(old(pair).buffer0.messages()).0 is None
                && final(pair).buffer0.messages() == find_outcome(old(pair).buffer0.messages()).1,
            Some((call_id, r)) => reads_request(old(pair).buffer0.messages(), call_id, r, final(pair).buffer0.messages()),
        },
{
    let ghost v = pair.buffer0.messages();
    proof {
        assert(channel.rx(*pair) == pair.buffer0);
        assert(channel.tx(*pair) == pair.buffer1);
    }
    let found = channel.find_message(pair);
    let offset = match found {
        Some(o) => o,
        None => return None,
    };
    let ghost left = pair.buffer0.messages();
    proof {
        assert(channel.rx(*pair) == pair.buffer0);
        lemma_found_in_rest(v);
        lemma_rest_from_queue(v);
        pair.buffer0.lemma_offsets_increase();
    }
    let ghost k = choose|k: int| 0 <= k < left.len() && (#[trigger] left[k]).offset == offset && left[k].committed;
    let header = channel.message_header(pair, offset).unwrap();
    let payload = channel.message_payload(pair, offset).unwrap();
    proof {
        let j = choose|j: int| 0 <= j < v.len() && left[k] == v[j];
        assert(v[j].committed);
        assert(header_describes(header, left, k)) by {
            let k1 = choose|k1: int| 0 <= k1 < left.len() && (#[trigger] left[k1]).offset == offset && header_describes(header, left, k1);
            if k1 != k {
                assert(left[k1].offset != left[k].offset);
            }
        }
        assert(payload@ == left[k].payload) by {
            let k2 = choose|k2: int| 0 <= k2 < left.len() && (#[trigger] left[k2]).offset == offset && payload@ == left[k2].payload;
            if k2 != k {
                assert(left[k2].offset != left[k].offset);
            }
        }
    }
    let request = decode_request(header.message_id, payload.as_slice(), offset).unwrap();
    if header.message_id == GET_CAPABILITIES_PARAMETERS || header.message_id == SAVE_TEXT_CURSOR_POSITION_PARAMETERS
        || header.message_id == LOAD_TEXT_CURSOR_POSITION_PARAMETERS {
        channel.unlink_message(pair, offset);
        proof {
            assert(channel.rx(*pair) == pair.buffer0);
            let k3 = choose|k3: int| 0 <= k3 < left.len() && (#[trigger] left[k3]).offset == offset
                && pair.buffer0.messages() == left.remove(k3);
            if k3 != k {
                assert(left[k3].offset != left[k].offset);
            }
        }
    }
    Some((header.call_id, request))
}

/// The server side of the console protocol: the service it offers, the
/// kernel event being handled, and the channels of its clients.
pub struct ConsoleServer {
    current_event: Option<StormEvent>,
    service_handle: ServiceHandle,
    channels: Vec<(ChannelHandle, ConsoleChannel)>,
}

impl ConsoleServer {
    /// The kernel event being handled, if any.
    pub closed spec fn current(&self) -> Option<StormEvent> {
        self.current_event
    }

    /// The service that the server offers.
    pub closed spec fn service(&self) -> ServiceHandle {
        self.service_handle
    }

    /// The channels of the clients, in the order they connected.
    pub closed spec fn handles(&self) -> Seq<ChannelHandle> {
        self.channels@.map_values(|e: (ChannelHandle, ConsoleChannel)| e.0)
    }

    /// The server side of the `i`-th channel.
    pub closed spec fn channel(&self, i: int) -> ConsoleChannel {
        self.channels@[i].1
    }

    /// Every channel is known once, and this is its server side.
    pub closed spec fn wf(&self) -> bool {
        &&& forall|i: int| 0 <= i < self.channels@.len() ==> (#[trigger] self.channels@[i]).1.server()
        &&& forall|i: int, j: int| 0 <= i < j < self.channels@.len() ==> (#[trigger] self.channels@[i]).0 != (#[trigger] self.channels@[j]).0
    }

    /// Whether the current event connects a client of this server on `channel`.
    pub open spec fn connects(&self, channel: ChannelHandle) -> bool {
        match self.current() {
            Some(StormEvent::ServiceConnected(s, c)) => s == self.service() && c == channel,
            _ => false,
        }
    }

    /// A server for `service_handle` with no clients and no event.
    pub fn create(service_handle: ServiceHandle) -> (server: Self)
        ensures
            server.wf(),
            server.current() is None,
            server.service() == service_handle,
            server.handles() == Seq::<ChannelHandle>::empty(),
    {
        let server = ConsoleServer { current_event: None, service_handle, channels: Vec::new() };
        proof {
            assert(server.handles() =~= Seq::<ChannelHandle>::empty());
        }
        server
    }

    /// Hands the server a kernel event to handle.
    pub fn register_event(&mut self, event: StormEvent)
        ensures
            final(self).current() == Some(event),
            final(self).service() == old(self).service(),
            final(self).handles() == old(self).handles(),
            forall|i: int| 0 <= i < old(self).handles().len() ==> final(self).channel(i) == old(self).channel(i),
            final(self).wf() == old(self).wf(),
    {
        self.current_event = Some(event);
        proof {
            assert(self.channels@ == old(self).channels@);
        }
    }

    /// The position of `handle` among the channels, if it is one.
    fn position_of(&self, handle: ChannelHandle) -> (i: Option<usize>)
        ensures
            match i {
                Some(i) => i < self.handles().len() && self.handles()[i as int] == handle,
                None => !self.handles().contains(handle),
            },
    {
        let mut i: usize = 0;
        while i < self.channels.len()
            invariant
                i <= self.channels.len(),
                forall|j: int| 0 <= j < i ==> self.handles()[j] != handle,
            decreases self.channels.len() - i,
        {
            if self.channels[i].0 == handle {
                return Some(i);
            }
            i += 1;
        }
        proof {
            assert forall|j: int| 0 <= j < self.handles().len() implies self.handles()[j] != handle by {}
        }
        None
    }

    /// Unlinks the complete message at offset `message` from the queue that
    /// the server reads (the end of a request read with parameters); does
    /// nothing, and answers `false`, if no complete message is there.
    pub fn release_message(&self, pair: &mut ChannelPair, message: usize) -> (released: bool)
        requires
            old(pair).wf(),
        ensures
            final(pair).wf(),
            final(pair).buffer1 == old(pair).buffer1,
            released == exists|k: int| 0 <= k < old(pair).buffer0.messages().len()
                && (#[trigger] old(pair).buffer0.messages()[k]).offset == message && old(pair).buffer0.messages()[k].committed,
            released ==> exists|k: int| 0 <= k < old(pair).buffer0.messages().len()
                && (#[trigger] old(pair).buffer0.messages()[k]).offset == message
                && final(pair).buffer0.messages() == old(pair).buffer0.messages().remove(k),
            !released ==> *final(pair) == *old(pair),
    {
        let reader = ConsoleChannel::new(pair, true);
        proof {
            assert(reader.rx(*pair) == pair.buffer0);
            pair.buffer0.lemma_offsets_increase();
        }
        match reader.message_header(pair, message) {
            Some(h) => {
                if h.message_length == 0 {
                    proof {
                        let k1 = choose|k1: int| 0 <= k1 < pair.buffer0.messages().len() && (#[trigger] pair.buffer0.messages()[k1]).offset == message
                            && header_describes(h, pair.buffer0.messages(), k1);
                        assert forall|k: int| 0 <= k < pair.buffer0.messages().len() && (#[trigger] pair.buffer0.messages()[k]).offset == message
                            implies !pair.buffer0.messages()[k].committed by {
                            if k != k1 {
                                assert(pair.buffer0.messages()[k].offset != pair.buffer0.messages()[k1].offset);
                            }
                        }
                    }
                    false
                } else {
                    reader.unlink_message(pair, message);
                    true
                }
            },
            None => false,
        }
    }

    /// Writes a complete message into the queue that the client of
    /// `channel_handle` reads, with `pair` that channel's buffers; answers
    /// whether it was written (the caller then signals the channel).
    fn send(&mut self, channel_handle: ChannelHandle, pair: &mut ChannelPair, message_id: u64, replace_pending: bool, reply_to: Option<u64>, payload: Vec<u8>) -> (sent: bool)
        requires
            old(self).wf(),
            old(pair).wf(),
        ensures
            final(self).wf(),
            final(pair).wf(),
            final(self).current() == old(self).current(),
            final(self).service() == old(self).service(),
            final(self).handles() == old(self).handles(),
            final(pair).buffer0 == old(pair).buffer0,
            sent == exists|i: int| 0 <= i < old(self).handles().len() && old(self).handles()[i] == channel_handle
                && accepts(old(self).channel(i), *old(pair), payload@.len()),
            sent ==> exists|i: int| 0 <= i < old(self).handles().len() && old(self).handles()[i] == channel_handle
                && final(pair).buffer1.messages() == with_committed(with_prepared(
                    old(pair).buffer1.messages(),
                    old(pair).buffer1.next_offset() as usize,
                    message_id,
                    match reply_to { Some(c) => c, None => old(self).channel(i).next_call_id() },
                    replace_pending), payload@)
                && final(self).channel(i).next_call_id() == old(self).channel(i).next_call_id() + 1,
            !sent ==> *final(pair) == *old(pair),
            sent ==> forall|k: int| 0 <= k < old(self).handles().len() ==> #[trigger] final(self).channel(k).next_call_id()
                == (if old(self).handles()[k] == channel_handle { old(self).channel(k).next_call_id() + 1 } else { old(self).channel(k).next_call_id() as int }),
            !sent ==> forall|k: int| 0 <= k < old(self).handles().len() ==> #[trigger] final(self).channel(k) == old(self).channel(k),
    {
        match self.position_of(channel_handle) {
            Some(i) => {
                let mut channel = self.channels[i].1;
                proof {
                    assert(channel.tx(*pair) == pair.buffer1);
                    assert(channel.rx(*pair) == pair.buffer0);
                }
                let sent = channel.send_message(pair, message_id, replace_pending, reply_to, payload);
                proof {
                    assert(channel.tx(*pair) == pair.buffer1);
                    assert(channel.rx(*pair) == pair.buffer0);
                }
                if sent {
                    self.channels.set(i, (channel_handle, channel));
                    proof {
                        assert(self.handles() =~= old(self).handles());
                        assert forall|a: int, b: int| 0 <= a < b < self.channels@.len() implies (#[trigger] self.channels@[a]).0 != (#[trigger] self.channels@[b]).0 by {
                            assert(self.channels@[a].0 == old(self).channels@[a].0);
                            assert(self.channels@[b].0 == old(self).channels@[b].0);
                        }
                    }
                }
                proof {
                    assert forall|j: int| 0 <= j < old(self).handles().len() && old(self).handles()[j] == channel_handle implies j == i by {
                        if j != i {
                            assert(old(self).channels@[j].0 != old(self).channels@[i as int].0);
                        }
                    }
                }
                sent
            },
            None => false,
        }
    }

    /// Tells the client of `channel_handle` that a key was pressed.
    pub fn key_pressed(&mut self, channel_handle: ChannelHandle, pair: &mut ChannelPair, parameters: &KeyPressedParameters) -> (sent: bool)
        requires
            old(self).wf(),
            old(pair).wf(),
        ensures
            final(self).wf(),
            final(pair).wf(),
            final(self).handles() == old(self).handles(),
            final(self).current() == old(self).current(),
            final(pair).buffer0 == old(pair).buffer0,
            sent == exists|i: int| 0 <= i < old(self).handles().len() && old(self).handles()[i] == channel_handle
                && accepts(old(self).channel(i), *old(pair), parameters.wire().len()),
            sent ==> exists|i: int| 0 <= i < old(self).handles().len() && old(self).handles()[i] == channel_handle
                && final(pair).buffer1.messages() == with_committed(with_prepared(old(pair).buffer1.messages(),
                    old(pair).buffer1.next_offset() as usize, KEY_PRESSED_PARAMETERS, old(self).channel(i).next_call_id(), false), parameters.wire()),
            !sent ==> *final(pair) == *old(pair),
            sent ==> forall|k: int| 0 <= k < old(self).handles().len() ==> #[trigger] final(self).channel(k).next_call_id()
                == (if old(self).handles()[k] == channel_handle { old(self).channel(k).next_call_id() + 1 } else { old(self).channel(k).next_call_id() as int }),
            !sent ==> forall|k: int| 0 <= k < old(self).handles().len() ==> #[trigger] final(self).channel(k) == old(self).channel(k),
    {
        let mut payload: Vec<u8> = Vec::new();
        let _ = parameters.write_at(&mut payload);
        proof {
            assert(payload@ =~= parameters.wire());
        }
        self.send(channel_handle, pair, KEY_PRESSED_PARAMETERS, false, None, payload)
    }

    /// Tells the client of `channel_handle` that a key was released.
    pub fn key_released(&mut self, channel_handle: ChannelHandle, pair: &mut ChannelPair, parameters: &KeyReleasedParameters) -> (sent: bool)
        requires
            old(self).wf(),
            old(pair).wf(),
        ensures
            final(self).wf(),
            final(pair).wf(),
            final(self).handles() == old(self).handles(),
            final(self).current() == old(self).current(),
            final(pair).buffer0 == old(pair).buffer0,
            sent == exists|i: int| 0 <= i < old(self).handles().len() && old(self).handles()[i] == channel_handle
                && accepts(old(self).channel(i), *old(pair), parameters.wire().len()),
            sent ==> exists|i: int| 0 <= i < old(self).handles().len() && old(self).handles()[i] == channel_handle
                && final(pair).buffer1.messages() == with_committed(with_prepared(old(pair).buffer1.messages(),
                    old(pair).buffer1.next_offset() as usize, KEY_RELEASED_PARAMETERS, old(self).channel(i).next_call_id(), false), parameters.wire()),
            !sent ==> *final(pair) == *old(pair),
            sent ==> forall|k: int| 0 <= k < old(self).handles().len() ==> #[trigger] final(self).channel(k).next_call_id()
                == (if old(self).handles()[k] == channel_handle { old(self).channel(k).next_call_id() + 1 } else { old(self).channel(k).next_call_id() as int }),
            !sent ==> forall|k: int| 0 <= k < old(self).handles().len() ==> #[trigger] final(self).channel(k) == old(self).channel(k),
    {
        let mut payload: Vec<u8> = Vec::new();
        let _ = parameters.write_at(&mut payload);
        proof {
            assert(payload@ =~= parameters.wire());
        }
        self.send(channel_handle, pair, KEY_RELEASED_PARAMETERS, false, None, payload)
    }

    /// Tells the client of `channel_handle` that a character was typed.
    pub fn character_input(&mut self, channel_handle: ChannelHandle, pair: &mut ChannelPair, parameters: &CharacterInputParameters) -> (sent: bool)
        requires
            old(self).wf(),
            old(pair).wf(),
        ensures
            final(self).wf(),
            final(pair).wf(),
            final(self).handles() == old(self).handles(),
            final(self).current() == old(self).current(),
            final(pair).buffer0 == old(pair).buffer0,
            sent == exists|i: int| 0 <= i < old(self).handles().len() && old(self).handles()[i] == channel_handle
                && accepts(old(self).channel(i), *old(pair), parameters.wire().len()),
            sent ==> exists|i: int| 0 <= i < old(self).handles().len() && old(self).handles()[i] == channel_handle
                && final(pair).buffer1.messages() == with_committed(with_prepared(old(pair).buffer1.messages(),
                    old(pair).buffer1.next_offset() as usize, CHARACTER_INPUT_PARAMETERS, old(self).channel(i).next_call_id(), false), parameters.wire()),
            !sent ==> *final(pair) == *old(pair),
            sent ==> forall|k: int| 0 <= k < old(self).handles().len() ==> #[trigger] final(self).channel(k).next_call_id()
                == (if old(self).handles()[k] == channel_handle { old(self).channel(k).next_call_id() + 1 } else { old(self).channel(k).next_call_id() as int }),
            !sent ==> forall|k: int| 0 <= k < old(self).handles().len() ==> #[trigger] final(self).channel(k) == old(self).channel(k),
    {
        let mut payload: Vec<u8> = Vec::new();
        let _ = parameters.write_at(&mut payload);
        proof {
            assert(payload@ =~= parameters.wire());
        }
        self.send(channel_handle, pair, CHARACTER_INPUT_PARAMETERS, false, None, payload)
    }

    /// Tells the client of `channel_handle` where the pointer moved; a
    /// pending move that the client has not read yet is superseded.
    pub fn pointer_moved(&mut self, channel_handle: ChannelHandle, pair: &mut ChannelPair, parameters: &PointerMovedParameters) -> (sent: bool)
        requires
            old(self).wf(),
            old(pair).wf(),
        ensures
            final(self).wf(),
            final(pair).wf(),
            final(self).handles() == old(self).handles(),
            final(self).current() == old(self).current(),
            final(pair).buffer0 == old(pair).buffer0,
            sent == exists|i: int| 0 <= i < old(self).handles().len() && old(self).handles()[i] == channel_handle
                && accepts(old(self).channel(i), *old(pair), parameters.wire().len()),
            sent ==> exists|i: int| 0 <= i < old(self).handles().len() && old(self).handles()[i] == channel_handle
                && final(pair).buffer1.messages() == with_committed(with_prepared(old(pair).buffer1.messages(),
                    old(pair).buffer1.next_offset() as usize, POINTER_MOVED_PARAMETERS, old(self).channel(i).next_call_id(), true), parameters.wire()),
            !sent ==> *final(pair) == *old(pair),
            sent ==> forall|k: int| 0 <= k < old(self).handles().len() ==> #[trigger] final(self).channel(k).next_call_id()
                == (if old(self).handles()[k] == channel_handle { old(self).channel(k).next_call_id() + 1 } else { old(self).channel(k).next_call_id() as int }),
            !sent ==> forall|k: int| 0 <= k < old(self).handles().len() ==> #[trigger] final(self).channel(k) == old(self).channel(k),
    {
        let mut payload: Vec<u8> = Vec::new();
        let _ = parameters.write_at(&mut payload);
        proof {
            assert(payload@ =~= parameters.wire());
        }
        self.send(channel_handle, pair, POINTER_MOVED_PARAMETERS, true, None, payload)
    }

    /// Tells the client of `channel_handle` that pointer buttons were pressed.
    pub fn pointer_pressed(&mut self, channel_handle: ChannelHandle, pair: &mut ChannelPair, parameters: &PointerPressedParameters) -> (sent: bool)
        requires
            old(self).wf(),
            old(pair).wf(),
        ensures
            final(self).wf(),
            final(pair).wf(),
            final(self).handles() == old(self).handles(),
            final(self).current() == old(self).current(),
            final(pair).buffer0 == old(pair).buffer0,
            sent == exists|i: int| 0 <= i < old(self).handles().len() && old(self).handles()[i] == channel_handle
                && accepts(old(self).channel(i), *old(pair), (parameters.fixed_part() + parameters.references()).len()),
            sent ==> exists|i: int| 0 <= i < old(self).handles().len() && old(self).handles()[i] == channel_handle
                && final(pair).buffer1.messages() == with_committed(with_prepared(old(pair).buffer1.messages(),
                    old(pair).buffer1.next_offset() as usize, POINTER_PRESSED_PARAMETERS, old(self).channel(i).next_call_id(), false),
                    parameters.fixed_part() + parameters.references()),
            !sent ==> *final(pair) == *old(pair),
            sent ==> forall|k: int| 0 <= k < old(self).handles().len() ==> #[trigger] final(self).channel(k).next_call_id()
                == (if old(self).handles()[k] == channel_handle { old(self).channel(k).next_call_id() + 1 } else { old(self).channel(k).next_call_id() as int }),
            !sent ==> forall|k: int| 0 <= k < old(self).handles().len() ==> #[trigger] final(self).channel(k) == old(self).channel(k),
    {
        let mut payload: Vec<u8> = Vec::new();
        let _ = parameters.write_at(&mut payload);
        proof {
            assert(payload@ =~= parameters.fixed_part() + parameters.references());
        }
        self.send(channel_handle, pair, POINTER_PRESSED_PARAMETERS, false, None, payload)
    }

    /// Tells the client of `channel_handle` that pointer buttons were released.
    pub fn pointer_released(&mut self, channel_handle: ChannelHandle, pair: &mut ChannelPair, parameters: &PointerReleasedParameters) -> (sent: bool)
        requires
            old(self).wf(),
            old(pair).wf(),
        ensures
            final(self).wf(),
            final(pair).wf(),
            final(self).handles() == old(self).handles(),
            final(self).current() == old(self).current(),
            final(pair).buffer0 == old(pair).buffer0,
            sent == exists|i: int| 0 <= i < old(self).handles().len() && old(self).handles()[i] == channel_handle
                && accepts(old(self).channel(i), *old(pair), (parameters.fixed_part() + parameters.references()).len()),
            sent ==> exists|i: int| 0 <= i < old(self).handles().len() && old(self).handles()[i] == channel_handle
                && final(pair).buffer1.messages() == with_committed(with_prepared(old(pair).buffer1.messages(),
                    old(pair).buffer1.next_offset() as usize, POINTER_RELEASED_PARAMETERS, old(self).channel(i).next_call_id(), false),
                    parameters.fixed_part() + parameters.references()),
            !sent ==> *final(pair) == *old(pair),
            sent ==> forall|k: int| 0 <= k < old(self).handles().len() ==> #[trigger] final(self).channel(k).next_call_id()
                == (if old(self).handles()[k] == channel_handle { old(self).channel(k).next_call_id() + 1 } else { old(self).channel(k).next_call_id() as int }),
            !sent ==> forall|k: int| 0 <= k < old(self).handles().len() ==> #[trigger] final(self).channel(k) == old(self).channel(k),
    {
        let mut payload: Vec<u8> = Vec::new();
        let _ = parameters.write_at(&mut payload);
        proof {
            assert(payload@ =~= parameters.fixed_part() + parameters.references());
        }
        self.send(channel_handle, pair, POINTER_RELEASED_PARAMETERS, false, None, payload)
    }

    /// Tells the client of `channel_handle` that the console was resized.
    pub fn size_changed(&mut self, channel_handle: ChannelHandle, pair: &mut ChannelPair, parameters: &SizeChangedParameters) -> (sent: bool)
        requires
            old(self).wf(),
            old(pair).wf(),
        ensures
            final(self).wf(),
            final(pair).wf(),
            final(self).handles() == old(self).handles(),
            final(self).current() == old(self).current(),
            final(pair).buffer0 == old(pair).buffer0,
            sent == exists|i: int| 0 <= i < old(self).handles().len() && old(self).handles()[i] == channel_handle
                && accepts(old(self).channel(i), *old(pair), parameters.wire().len()),
            sent ==> exists|i: int| 0 <= i < old(self).handles().len() && old(self).handles()[i] == channel_handle
                && final(pair).buffer1.messages() == with_committed(with_prepared(old(pair).buffer1.messages(),
                    old(pair).buffer1.next_offset() as usize, SIZE_CHANGED_PARAMETERS, old(self).channel(i).next_call_id(), false), parameters.wire()),
            !sent ==> *final(pair) == *old(pair),
            sent ==> forall|k: int| 0 <= k < old(self).handles().len() ==> #[trigger] final(self).channel(k).next_call_id()
                == (if old(self).handles()[k] == channel_handle { old(self).channel(k).next_call_id() + 1 } else { old(self).channel(k).next_call_id() as int }),
            !sent ==> forall|k: int| 0 <= k < old(self).handles().len() ==> #[trigger] final(self).channel(k) == old(self).channel(k),
    {
        let mut payload: Vec<u8> = Vec::new();
        let _ = parameters.write_at(&mut payload);
        proof {
            assert(payload@ =~= parameters.wire());
        }
        self.send(channel_handle, pair, SIZE_CHANGED_PARAMETERS, false, None, payload)
    }

    /// Answers the capabilities request with call id `call_id` of the
    /// client of `channel_handle`: the reply carries that call id.
    pub fn get_capabilities_reply(&mut self, channel_handle: ChannelHandle, pair: &mut ChannelPair, call_id: u64, parameters: &GetCapabilitiesReturns) -> (sent: bool)
        requires
            old(self).wf(),
            old(pair).wf(),
        ensures
            final(self).wf(),
            final(pair).wf(),
            final(self).handles() == old(self).handles(),
            final(self).current() == old(self).current(),
            final(pair).buffer0 == old(pair).buffer0,
            sent == exists|i: int| 0 <= i < old(self).handles().len() && old(self).handles()[i] == channel_handle
                && accepts(old(self).channel(i), *old(pair), parameters.wire().len()),
            sent ==> final(pair).buffer1.messages() == with_committed(with_prepared(old(pair).buffer1.messages(),
                    old(pair).buffer1.next_offset() as usize, GET_CAPABILITIES_RETURNS, call_id, false), parameters.wire()),
            !sent ==> *final(pair) == *old(pair),
            sent ==> forall|k: int| 0 <= k < old(self).handles().len() ==> #[trigger] final(self).channel(k).next_call_id()
                == (if old(self).handles()[k] == channel_handle { old(self).channel(k).next_call_id() + 1 } else { old(self).channel(k).next_call_id() as int }),
            !sent ==> forall|k: int| 0 <= k < old(self).handles().len() ==> #[trigger] final(self).channel(k) == old(self).channel(k),
    {
        let mut payload: Vec<u8> = Vec::new();
        let _ = parameters.write_at(&mut payload);
        proof {
            assert(payload@ =~= parameters.wire());
        }
        self.send(channel_handle, pair, GET_CAPABILITIES_RETURNS, false, Some(call_id), payload)
    }

    /// Handles the current kernel event, with `pair` the buffers of the
    /// channel it names: a connection to the service adds the channel and
    /// reports the client; a signal reads the next request of a known
    /// channel (the event stays current while requests are found, so that
    /// the caller asks again); a destroyed known channel reports the
    /// client's departure. Other events, and events for other services or
    /// unknown channels, report nothing; every event but a signal with a
    /// request is then done.
    pub fn get_event(&mut self, pair: &mut ChannelPair) -> (event: Option<ConsoleServerChannelEvent>)
        requires
            old(self).wf(),
            old(pair).wf(),
            old(self).current() matches Some(StormEvent::ChannelSignalled(c)) && old(self).handles().contains(c)
                ==> next_request_decodes(old(pair).buffer0.messages()),
        ensures
            final(self).wf(),
            final(pair).wf(),
            final(self).service() == old(self).service(),
            final(pair).buffer1 == old(pair).buffer1,
            forall|k: int| 0 <= k < old(self).handles().len() && !old(self).connects(old(self).handles()[k])
                ==> #[trigger] final(self).channel(k) == old(self).channel(k),
            forall|k: int| 0 <= k < final(self).handles().len() && old(self).connects(final(self).handles()[k])
                ==> (#[trigger] final(self).channel(k)).next_call_id() == 1,
            match old(self).current() {
                None => event is None && final(self).current() is None && final(self).handles() == old(self).handles()
                    && *final(pair) == *old(pair),
                Some(StormEvent::ServiceConnected(service, channel)) => final(self).current() is None
                    && *final(pair) == *old(pair)
                    && if service == old(self).service() {
                        &&& event == Some(ConsoleServerChannelEvent::ClientConnected(service, channel))
                        &&& final(self).handles() == (if old(self).handles().contains(channel) { old(self).handles() } else { old(self).handles().push(channel) })
                    } else {
                        event is None && final(self).handles() == old(self).handles()
                    },
                Some(StormEvent::ChannelSignalled(channel)) => final(self).handles() == old(self).handles()
                    && if old(self).handles().contains(channel) {
                        match event {
                            None => final(self).current() is None
                                && find_outcome(old(pair).buffer0.messages()).0 is None
                                && final(pair).buffer0.messages() == find_outcome(old(pair).buffer0.messages()).1,
                            Some(ConsoleServerChannelEvent::ClientRequest(service, c, call_id, r)) =>
                                final(self).current() == old(self).current()
                                && service == old(self).service() && c == channel
                                && reads_request(old(pair).buffer0.messages(), call_id, r, final(pair).buffer0.messages()),
                            Some(_) => false,
                        }
                    } else {
                        event is None && final(self).current() is None && *final(pair) == *old(pair)
                    },
                Some(StormEvent::ChannelDestroyed(channel)) => final(self).current() is None
                    && *final(pair) == *old(pair)
                    && final(self).handles() == old(self).handles()
                    && event == (if old(self).handles().contains(channel) {
                        Some(ConsoleServerChannelEvent::ClientDisconnected(old(self).service(), channel))
                    } else {
                        None
                    }),
                Some(_) => event is None && final(self).current() is None && final(self).handles() == old(self).handles()
                    && *final(pair) == *old(pair),
            },
    {
        match self.current_event {
            None => None,
            Some(StormEvent::ServiceConnected(service, channel_handle)) => {
                self.current_event = None;
                if service == self.service_handle {
                    let channel = ConsoleChannel::new(pair, true);
                    match self.position_of(channel_handle) {
                        Some(i) => {
                            self.channels.set(i, (channel_handle, channel));
                            proof {
                                assert(self.handles() =~= old(self).handles());
                            }
                        },
                        None => {
                            self.channels.push((channel_handle, channel));
                            proof {
                                assert(self.handles() =~= old(self).handles().push(channel_handle));
                                assert forall|i: int, j: int| 0 <= i < j < self.channels@.len() implies (#[trigger] self.channels@[i]).0 != (#[trigger] self.channels@[j]).0 by {
                                    if j == self.channels@.len() - 1 {
                                        assert(old(self).handles()[i] == self.channels@[i].0);
                                    }
                                }
                            }
                        },
                    }
                    Some(ConsoleServerChannelEvent::ClientConnected(service, channel_handle))
                } else {
                    None
                }
            },
            Some(StormEvent::ChannelSignalled(channel_handle)) => {
                match self.position_of(channel_handle) {
                    Some(i) => {
                        let channel = &self.channels[i].1;
                        match next_request(channel, pair) {
                            Some((call_id, request)) => {
                                Some(ConsoleServerChannelEvent::ClientRequest(self.service_handle, channel_handle, call_id, request))
                            },
                            None => {
                                self.current_event = None;
                                None
                            },
                        }
                    },
                    None => {
                        self.current_event = None;
                        None
                    },
                }
            },
            Some(StormEvent::ChannelDestroyed(channel_handle)) => {
                self.current_event = None;
                match self.position_of(channel_handle) {
                    Some(_) => Some(ConsoleServerChannelEvent::ClientDisconnected(self.service_handle, channel_handle)),
                    None => None,
                }
            },
            Some(_) => {
                self.current_event = None;
                None
            },
        }
    }
}

} // verus!
