//! The message queue of a protocol channel. A channel is a pair of memory
//! buffers that a client and a server share: the client writes its requests
//! into the first buffer and reads the server's messages from the second;
//! the server does the reverse. Each buffer starts with a header (a magic
//! number, the protocol's name and version, and the queue's bookkeeping),
//! followed by the messages, each a header and a payload. A writer first
//! prepares a message (it is queued, but not yet complete) and then commits
//! it with its payload; a reader finds the first complete message and
//! unlinks it when done with it.

use vstd::prelude::*;
use crate::wire::{flag_byte, le_u64, lemma_u64_roundtrip, push_flag, push_u64, push_zeros, read_u64, u64_at, zeros};

verus! {

/// Magic number at the start of an initialised buffer: the bytes "CCHANNEL" read big-endian.
pub const CHANNEL_MAGIC: u64 = 0x4343_4841_4E4E_454Cu64;

/// Magic number at the start of every message header: the bytes "CMESSAGE" read big-endian.
pub const MESSAGE_MAGIC: u64 = 0x434D_4553_5341_4745u64;

/// Bytes that the buffer header occupies before the first message.
pub const CHANNEL_HEADER_SIZE: usize = 80usize;

/// The byte of a buffer header that the two ends of a channel use as a
/// lock while one of them reads or writes the buffer: `to_bytes` leaves it
/// 0, and `from_bytes` does not read it.
pub const CHANNEL_LOCK_OFFSET: usize = 74usize;

/// Bytes that a message header occupies before its payload.
pub const MESSAGE_HEADER_SIZE: usize = 56usize;

/// The protocol version recorded in a buffer header.
#[derive(Clone, Copy, PartialEq, Eq, Structural, Debug)]
pub struct ProtocolVersion {
    pub major: u16,
    pub minor: u16,
    pub patch: u16,
    pub is_preview: bool,
    pub preview_version: u16,
}

/// The header of a message as it stands in a buffer: the neighbours'
/// offsets link the queue (0 where there is no neighbour), and the length
/// covers header and payload once the message is committed (0 before).
#[derive(Clone, Copy, PartialEq, Eq, Structural, Debug)]
pub struct ChannelMessageHeader {
    pub message_magic: u64,
    pub message_id: u64,
    pub call_id: u64,
    pub message_length: usize,
    pub previous_message_offset: usize,
    pub next_message_offset: usize,
    pub replace_pending: bool,
}

impl ChannelMessageHeader {
    /// The offset of the payload of the message at offset `message`.
    pub fn get_payload_address(message: usize) -> (payload: usize)
        requires
            message + MESSAGE_HEADER_SIZE <= usize::MAX,
        ensures
            payload == message + MESSAGE_HEADER_SIZE,
    {
        message + MESSAGE_HEADER_SIZE
    }
}

/// What a reader can know of a queued message.
pub struct MessageView {
    pub offset: usize,
    pub message_id: u64,
    pub call_id: u64,
    pub replace_pending: bool,
    pub committed: bool,
    pub payload: Seq<u8>,
}

/// A message stored in a buffer.
struct StoredMessage {
    offset: usize,
    message_id: u64,
    call_id: u64,
    message_length: usize,
    replace_pending: bool,
    payload: Vec<u8>,
}

impl StoredMessage {
    spec fn view(&self) -> MessageView {
        MessageView {
            offset: self.offset,
            message_id: self.message_id,
            call_id: self.call_id,
            replace_pending: self.replace_pending,
            committed: self.message_length != 0,
            payload: self.payload@,
        }
    }
}

/// The protocol name recorded by `initialize`: its length 7, then "console".
pub open spec fn console_protocol_name() -> Seq<u8> {
    seq![7u8, 99u8, 111u8, 110u8, 115u8, 111u8, 108u8, 101u8]
}

spec fn gap_ordered(s: Seq<StoredMessage>) -> bool {
    forall|a: int, b: int| 0 <= a < b < s.len() ==>
        (#[trigger] s[a]).message_length != 0 && s[a].offset + s[a].message_length <= (#[trigger] s[b]).offset
}

spec fn stored_ok(m: StoredMessage, capacity: usize) -> bool {
    &&& m.offset >= CHANNEL_HEADER_SIZE
    &&& m.message_length == 0 ==> m.payload@.len() == 0
    &&& m.message_length != 0 ==> m.message_length == MESSAGE_HEADER_SIZE + m.payload@.len()
    &&& m.offset + MESSAGE_HEADER_SIZE + m.payload@.len() <= capacity
}

/// One buffer of a channel.
pub struct ChannelMemory {
    capacity: usize,
    channel_magic: u64,
    protocol_name: Vec<u8>,
    protocol_version: ProtocolVersion,
    first_message_offset: usize,
    last_message_offset: usize,
    number_of_messages: usize,
    is_writing: bool,
    messages: Vec<StoredMessage>,
}

/// Whether a message is complete and has the id `id`.
pub open spec fn of_kind(m: MessageView, id: u64) -> bool {
    m.committed && m.message_id == id
}

/// The index of the last complete message with id `id`, or -1.
pub open spec fn last_of_kind(v: Seq<MessageView>, id: u64) -> int
    decreases v.len(),
{
    if v.len() == 0 {
        -1
    } else if of_kind(v.last(), id) {
        v.len() - 1
    } else {
        last_of_kind(v.drop_last(), id)
    }
}

/// The first `n` messages of `v` without the complete messages of id `id`,
/// except the one at index `keep`.
pub open spec fn without_superseded(v: Seq<MessageView>, id: u64, keep: int, n: nat) -> Seq<MessageView>
    decreases n,
{
    if n == 0 {
        Seq::empty()
    } else {
        let rest = without_superseded(v, id, keep, (n - 1) as nat);
        if !of_kind(v[n - 1], id) || n - 1 == keep {
            rest.push(v[n - 1])
        } else {
            rest
        }
    }
}

/// The last complete message with id `id` lies in the queue, has that kind,
/// and no later message has it.
pub proof fn lemma_last_of_kind(v: Seq<MessageView>, id: u64)
    ensures
        -1 <= last_of_kind(v, id) < v.len(),
        last_of_kind(v, id) >= 0 ==> of_kind(v[last_of_kind(v, id)], id),
        forall|k: int| 0 <= k < v.len() && of_kind(#[trigger] v[k], id) ==> k <= last_of_kind(v, id),
    decreases v.len(),
{
    if v.len() > 0 && !of_kind(v.last(), id) {
        lemma_last_of_kind(v.drop_last(), id);
        assert forall|k: int| 0 <= k < v.len() && of_kind(#[trigger] v[k], id) implies k <= last_of_kind(v, id) by {
            if k < v.len() - 1 {
                assert(v.drop_last()[k] == v[k]);
            }
        }
    }
}

/// What `find_message` answers on a queue, and the queue it leaves: `None`
/// if the queue is empty or its first message is not complete; the first
/// message if it does not replace pending ones; otherwise the last complete
/// message with the first one's id, all other complete messages with that
/// id being unlinked.
pub open spec fn find_outcome(v: Seq<MessageView>) -> (Option<usize>, Seq<MessageView>) {
    if v.len() == 0 || !v[0].committed {
        (None, v)
    } else if !v[0].replace_pending {
        (Some(v[0].offset), v)
    } else {
        let last = last_of_kind(v, v[0].message_id);
        (Some(v[last].offset), without_superseded(v, v[0].message_id, last, v.len()))
    }
}

/// The queue after a message was prepared at `offset`.
pub open spec fn with_prepared(v: Seq<MessageView>, offset: usize, message_id: u64, call_id: u64, replace_pending: bool) -> Seq<MessageView> {
    v.push(MessageView { offset, message_id, call_id, replace_pending, committed: false, payload: Seq::empty() })
}

/// The queue after its last message was committed with `payload`.
pub open spec fn with_committed(v: Seq<MessageView>, payload: Seq<u8>) -> Seq<MessageView> {
    v.update(v.len() - 1, MessageView { committed: true, payload, ..v.last() })
}

impl ChannelMemory {
    /// The queued messages, first to last.
    pub closed spec fn messages(&self) -> Seq<MessageView> {
        self.messages@.map_values(|m: StoredMessage| m.view())
    }

    /// Whether a message is being written (prepared, not yet committed).
    pub closed spec fn writing(&self) -> bool {
        self.is_writing
    }

    /// The number of bytes of the buffer.
    pub closed spec fn capacity(&self) -> usize {
        self.capacity
    }

    /// Whether the header identifies a buffer of the console protocol,
    /// major version 1.
    pub closed spec fn compatible(&self) -> bool {
        &&& self.channel_magic == CHANNEL_MAGIC
        &&& self.protocol_version.major == 1
        &&& self.protocol_name@.subrange(0, 8) == console_protocol_name()
    }

    /// The offset at which the next prepared message is placed: after the
    /// last queued message, or after the header if the queue is empty.
    pub closed spec fn next_offset(&self) -> int {
        if self.messages@.len() == 0 {
            CHANNEL_HEADER_SIZE as int
        } else {
            self.messages@.last().offset + self.messages@.last().message_length
        }
    }

    spec fn message_ok(&self, k: int) -> bool {
        stored_ok(self.messages@[k], self.capacity)
    }

    /// The buffer's invariant: the counter and the first and last offsets
    /// agree with the queue; messages lie in the buffer in queue order
    /// without overlapping; only the last one may be incomplete, and it is
    /// exactly while a message is being written.
    pub closed spec fn wf(&self) -> bool {
        let m = self.messages@;
        &&& self.protocol_name@.len() == 32
        &&& self.number_of_messages == m.len()
        &&& m.len() == 0 ==> self.first_message_offset == 0 && self.last_message_offset == 0
        &&& m.len() > 0 ==> self.first_message_offset == m[0].offset && self.last_message_offset == m.last().offset
        &&& forall|k: int| 0 <= k < m.len() ==> #[trigger] self.message_ok(k)
        &&& forall|i: int, j: int| 0 <= i < j < m.len() ==>
                (#[trigger] m[i]).message_length != 0 && m[i].offset + m[i].message_length <= (#[trigger] m[j]).offset
        &&& self.is_writing <==> (m.len() > 0 && m.last().message_length == 0)
    }

    /// A zero-filled buffer of `capacity` bytes: not initialised, no messages.
    pub fn new(capacity: usize) -> (memory: Self)
        ensures
            memory.wf(),
            memory.capacity() == capacity,
            memory.messages() == Seq::<MessageView>::empty(),
            !memory.writing(),
            !memory.compatible(),
            memory.next_offset() == CHANNEL_HEADER_SIZE,
    {
        let mut name: Vec<u8> = Vec::new();
        let mut i: usize = 0;
        while i < 32
            invariant
                i <= 32,
                name@.len() == i,
            decreases 32 - i,
        {
            name.push(0u8);
            i += 1;
        }
        let memory = ChannelMemory {
            capacity,
            channel_magic: 0,
            protocol_name: name,
            protocol_version: ProtocolVersion { major: 0, minor: 0, patch: 0, is_preview: false, preview_version: 0 },
            first_message_offset: 0,
            last_message_offset: 0,
            number_of_messages: 0,
            is_writing: false,
            messages: Vec::new(),
        };
        proof { assert(memory.messages() =~= Seq::<MessageView>::empty()); }
        memory
    }

    /// Writes a fresh header for the console protocol, version 1.0.0, with
    /// an empty queue.
    fn initialize(&mut self)
        requires
            old(self).wf(),
        ensures
            final(self).wf(),
            final(self).compatible(),
            final(self).capacity() == old(self).capacity(),
            final(self).messages() == Seq::<MessageView>::empty(),
            !final(self).writing(),
            final(self).version() == (ProtocolVersion { major: 1, minor: 0, patch: 0, is_preview: false, preview_version: 0 }),
            final(self).next_offset() == CHANNEL_HEADER_SIZE,
    {
        self.channel_magic = CHANNEL_MAGIC;
        self.protocol_name.set(0, 7u8);
        self.protocol_name.set(1, 99u8);
        self.protocol_name.set(2, 111u8);
        self.protocol_name.set(3, 110u8);
        self.protocol_name.set(4, 115u8);
        self.protocol_name.set(5, 111u8);
        self.protocol_name.set(6, 108u8);
        self.protocol_name.set(7, 101u8);
        self.protocol_version = ProtocolVersion { major: 1, minor: 0, patch: 0, is_preview: false, preview_version: 0 };
        self.first_message_offset = 0;
        self.last_message_offset = 0;
        self.number_of_messages = 0;
        self.is_writing = false;
        self.messages = Vec::new();
        proof {
            assert(self.protocol_name@.subrange(0, 8) =~= console_protocol_name());
            assert(self.messages() =~= Seq::<MessageView>::empty());
        }
    }

    /// Whether the header identifies a console-protocol buffer of major version 1.
    fn is_compatible(&self) -> (compatible: bool)
        requires
            self.wf(),
        ensures
            compatible == self.compatible(),
    {
        let name_ok = self.protocol_name[0] == 7u8 && self.protocol_name[1] == 99u8
            && self.protocol_name[2] == 111u8 && self.protocol_name[3] == 110u8
            && self.protocol_name[4] == 115u8 && self.protocol_name[5] == 111u8
            && self.protocol_name[6] == 108u8 && self.protocol_name[7] == 101u8;
        proof {
            if name_ok {
                assert(self.protocol_name@.subrange(0, 8) =~= console_protocol_name());
            } else {
                if self.protocol_name@.subrange(0, 8) == console_protocol_name() {
                    assert(self.protocol_name@[0] == self.protocol_name@.subrange(0, 8)[0]);
                    assert(self.protocol_name@[1] == self.protocol_name@.subrange(0, 8)[1]);
                    assert(self.protocol_name@[2] == self.protocol_name@.subrange(0, 8)[2]);
                    assert(self.protocol_name@[3] == self.protocol_name@.subrange(0, 8)[3]);
                    assert(self.protocol_name@[4] == self.protocol_name@.subrange(0, 8)[4]);
                    assert(self.protocol_name@[5] == self.protocol_name@.subrange(0, 8)[5]);
                    assert(self.protocol_name@[6] == self.protocol_name@.subrange(0, 8)[6]);
                    assert(self.protocol_name@[7] == self.protocol_name@.subrange(0, 8)[7]);
                }
            }
        }
        self.channel_magic == CHANNEL_MAGIC && self.protocol_version.major == 1 && name_ok
    }

    /// The number of queued messages, complete or not.
    pub fn message_count(&self) -> (count: usize)
        requires
            self.wf(),
        ensures
            count == self.messages().len(),
    {
        self.number_of_messages
    }

    /// The id, completeness and payload of the `k`-th queued message.
    pub fn message_at(&self, k: usize) -> (m: (u64, bool, &Vec<u8>))
        requires
            self.wf(),
            k < self.messages().len(),
        ensures
            m.0 == self.messages()[k as int].message_id,
            m.1 == self.messages()[k as int].committed,
            m.2@ == self.messages()[k as int].payload,
    {
        let stored = &self.messages[k];
        (stored.message_id, stored.message_length != 0, &stored.payload)
    }

    /// Whether a message is being written.
    pub fn is_writing(&self) -> (writing: bool)
        requires
            self.wf(),
        ensures
            writing == self.writing(),
    {
        self.is_writing
    }

    /// The bytes left after the place of the next message (0 if that place
    /// lies beyond the end of the buffer).
    pub fn free_space(&self) -> (room: usize)
        requires
            self.wf(),
        ensures
            room == (if self.next_offset() <= self.capacity() { self.capacity() - self.next_offset() } else { 0 }),
    {
        let n = self.messages.len();
        let next = if n == 0 {
            CHANNEL_HEADER_SIZE
        } else {
            proof {
                assert(self.message_ok(n - 1));
            }
            self.messages[n - 1].offset + self.messages[n - 1].message_length
        };
        if next <= self.capacity {
            self.capacity - next
        } else {
            0
        }
    }

    /// Queued messages lie at strictly increasing offsets.
    pub proof fn lemma_offsets_increase(&self)
        requires
            self.wf(),
        ensures
            forall|i: int, j: int| 0 <= i < j < self.messages().len() ==> (#[trigger] self.messages()[i]).offset < (#[trigger] self.messages()[j]).offset,
    {
        assert forall|i: int, j: int| 0 <= i < j < self.messages().len() implies (#[trigger] self.messages()[i]).offset < (#[trigger] self.messages()[j]).offset by {
            assert(self.messages@[i].message_length != 0 && self.messages@[i].offset + self.messages@[i].message_length <= self.messages@[j].offset);
        }
    }

    /// Sets the first and last offsets and the counter from the queue.
    fn set_bookkeeping(&mut self)
        requires
            old(self).protocol_name@.len() == 32,
            forall|k: int| 0 <= k < old(self).messages@.len() ==> #[trigger] old(self).message_ok(k),
            forall|i: int, j: int| 0 <= i < j < old(self).messages@.len() ==>
                (#[trigger] old(self).messages@[i]).message_length != 0
                && old(self).messages@[i].offset + old(self).messages@[i].message_length <= (#[trigger] old(self).messages@[j]).offset,
            old(self).is_writing <==> (old(self).messages@.len() > 0 && old(self).messages@.last().message_length == 0),
        ensures
            final(self).wf(),
            final(self).messages@ == old(self).messages@,
            final(self).is_writing == old(self).is_writing,
            final(self).capacity == old(self).capacity,
            final(self).compatible() == old(self).compatible(),
    {
        let n = self.messages.len();
        self.number_of_messages = n;
        if n == 0 {
            self.first_message_offset = 0;
            self.last_message_offset = 0;
        } else {
            self.first_message_offset = self.messages[0].offset;
            self.last_message_offset = self.messages[n - 1].offset;
        }
        proof {
            assert forall|k: int| 0 <= k < self.messages@.len() implies #[trigger] self.message_ok(k) by {
                assert(old(self).message_ok(k));
            }
        }
    }

    /// Queues an incomplete message at `next_offset` and marks the buffer as
    /// being written; returns the message's offset.
    fn append_prepared(&mut self, message_id: u64, call_id: u64, replace_pending: bool) -> (offset: usize)
        requires
            old(self).wf(),
            !old(self).writing(),
            old(self).next_offset() + MESSAGE_HEADER_SIZE <= old(self).capacity(),
        ensures
            final(self).wf(),
            offset == old(self).next_offset(),
            final(self).messages() == with_prepared(old(self).messages(), offset, message_id, call_id, replace_pending),
            final(self).writing(),
            final(self).capacity() == old(self).capacity(),
            final(self).compatible() == old(self).compatible(),
    {
        let n = self.messages.len();
        let offset = if n == 0 {
            CHANNEL_HEADER_SIZE
        } else {
            self.messages[n - 1].offset + self.messages[n - 1].message_length
        };
        proof {
            if n > 0 {
                assert(self.message_ok(n - 1));
            }
        }
        let ghost old_messages = self.messages@;
        self.messages.push(StoredMessage { offset, message_id, call_id, message_length: 0, replace_pending, payload: Vec::new() });
        self.is_writing = true;
        proof {
            assert forall|k: int| 0 <= k < self.messages@.len() implies #[trigger] self.message_ok(k) by {
                if k < n {
                    assert(old(self).message_ok(k));
                }
            }
            assert forall|i: int, j: int| 0 <= i < j < self.messages@.len() implies
                (#[trigger] self.messages@[i]).message_length != 0
                && self.messages@[i].offset + self.messages@[i].message_length <= (#[trigger] self.messages@[j]).offset by {
                if j == n {
                    if i < n - 1 {
                        assert(old_messages[i].offset + old_messages[i].message_length <= old_messages[n - 1].offset);
                    }
                } else {
                    assert(old_messages[i].offset + old_messages[i].message_length <= old_messages[j].offset);
                }
            }
        }
        self.set_bookkeeping();
        proof {
            assert(self.messages() =~= with_prepared(old(self).messages(), offset, message_id, call_id, replace_pending));
        }
        offset
    }

    /// Completes the message being written with `payload` and ends the write.
    fn commit_last(&mut self, payload: Vec<u8>)
        requires
            old(self).wf(),
            old(self).writing(),
            old(self).messages().last().offset + MESSAGE_HEADER_SIZE + payload@.len() <= old(self).capacity(),
        ensures
            final(self).wf(),
            final(self).messages() == with_committed(old(self).messages(), payload@),
            !final(self).writing(),
            final(self).capacity() == old(self).capacity(),
            final(self).compatible() == old(self).compatible(),
    {
        let n = self.messages.len();
        let ghost old_messages = self.messages@;
        let last = self.messages.pop().unwrap();
        let length = MESSAGE_HEADER_SIZE + payload.len();
        self.messages.push(StoredMessage {
            offset: last.offset,
            message_id: last.message_id,
            call_id: last.call_id,
            message_length: length,
            replace_pending: last.replace_pending,
            payload,
        });
        self.is_writing = false;
        proof {
            assert forall|k: int| 0 <= k < self.messages@.len() implies #[trigger] self.message_ok(k) by {
                if k < n - 1 {
                    assert(self.messages@[k] == old_messages[k]);
                    assert(old(self).message_ok(k));
                } else {
                    assert(old(self).message_ok(n - 1));
                    assert(old(self).messages()[n - 1] == old_messages[n - 1].view());
                }
            }
            assert forall|i: int, j: int| 0 <= i < j < self.messages@.len() implies
                (#[trigger] self.messages@[i]).message_length != 0
                && self.messages@[i].offset + self.messages@[i].message_length <= (#[trigger] self.messages@[j]).offset by {
                assert(old_messages[i].offset + old_messages[i].message_length <= old_messages[j].offset);
            }
        }
        self.set_bookkeeping();
        proof {
            assert(self.messages() =~= with_committed(old(self).messages(), payload@));
        }
    }

    /// The offset of the first queued message with call id `call_id`, if any.
    fn find_call(&self, call_id: u64) -> (found: Option<usize>)
        requires
            self.wf(),
        ensures
            found matches Some(offset) ==> exists|k: int|
                0 <= k < self.messages().len()
                && (#[trigger] self.messages()[k]).call_id == call_id
                && self.messages()[k].offset == offset
                && forall|j: int| 0 <= j < k ==> self.messages()[j].call_id != call_id,
            found is None ==> forall|k: int| 0 <= k < self.messages().len() ==> (#[trigger] self.messages()[k]).call_id != call_id,
    {
        let mut i: usize = 0;
        while i < self.messages.len()
            invariant
                i <= self.messages@.len(),
                forall|j: int| 0 <= j < i ==> (#[trigger] self.messages()[j]).call_id != call_id,
            decreases self.messages@.len() - i,
        {
            if self.messages[i].call_id == call_id {
                proof {
                    assert(self.messages()[i as int].call_id == call_id);
                }
                return Some(self.messages[i].offset);
            }
            i += 1;
        }
        None
    }

    /// The position in the queue of the message at `offset`, if any.
    fn index_of_offset(&self, offset: usize) -> (index: Option<usize>)
        requires
            self.wf(),
        ensures
            index matches Some(k) ==> k < self.messages().len() && self.messages()[k as int].offset == offset,
            index is None ==> forall|k: int| 0 <= k < self.messages().len() ==> (#[trigger] self.messages()[k]).offset != offset,
    {
        let mut i: usize = 0;
        while i < self.messages.len()
            invariant
                i <= self.messages@.len(),
                forall|j: int| 0 <= j < i ==> (#[trigger] self.messages()[j]).offset != offset,
            decreases self.messages@.len() - i,
        {
            if self.messages[i].offset == offset {
                return Some(i);
            }
            i += 1;
        }
        None
    }

    /// Unlinks the complete message at position `k`.
    fn remove_at(&mut self, k: usize)
        requires
            old(self).wf(),
            k < old(self).messages().len(),
            old(self).messages()[k as int].committed,
        ensures
            final(self).wf(),
            final(self).messages() == old(self).messages().remove(k as int),
            final(self).writing() == old(self).writing(),
            final(self).capacity() == old(self).capacity(),
            final(self).compatible() == old(self).compatible(),
    {
        let ghost old_messages = self.messages@;
        let n = self.messages.len();
        let _ = self.messages.remove(k);
        proof {
            assert(old_messages[k as int].message_length != 0);
            assert forall|x: int| 0 <= x < self.messages@.len() implies #[trigger] self.message_ok(x) by {
                if x < k {
                    assert(self.messages@[x] == old_messages[x]);
                    assert(old(self).message_ok(x));
                } else {
                    assert(self.messages@[x] == old_messages[x + 1]);
                    assert(old(self).message_ok(x + 1));
                }
            }
            assert forall|i: int, j: int| 0 <= i < j < self.messages@.len() implies
                (#[trigger] self.messages@[i]).message_length != 0
                && self.messages@[i].offset + self.messages@[i].message_length <= (#[trigger] self.messages@[j]).offset by {
                let oi = if i < k { i } else { i + 1 };
                let oj = if j < k { j } else { j + 1 };
                assert(self.messages@[i] == old_messages[oi]);
                assert(self.messages@[j] == old_messages[oj]);
                assert(old_messages[oi].offset + old_messages[oi].message_length <= old_messages[oj].offset);
            }
            if n > 1 && k == n - 1 {
                assert(old_messages[k - 1].message_length != 0);
            }
        }
        self.set_bookkeeping();
        proof {
            assert(self.messages() =~= old(self).messages().remove(k as int));
        }
    }

    /// The position in the queue of the message that a reader handles
    /// next, as `find_outcome` says, without unlinking anything.
    pub fn next_message_index(&self) -> (index: Option<usize>)
        requires
            self.wf(),
        ensures
            match find_outcome(self.messages()).0 {
                None => index is None,
                Some(offset) => index matches Some(k) && k < self.messages().len()
                    && self.messages()[k as int].offset == offset,
            },
    {
        let n = self.messages.len();
        if n == 0 || self.messages[0].message_length == 0 {
            return None;
        }
        if !self.messages[0].replace_pending {
            return Some(0);
        }
        let id = self.messages[0].message_id;
        let ghost v = self.messages();
        let mut last: usize = 0;
        let mut i: usize = 1;
        proof {
            assert(v.subrange(0, 1).drop_last() =~= Seq::<MessageView>::empty());
            assert(of_kind(v[0], id));
        }
        while i < n
            invariant
                1 <= i <= n,
                n == self.messages@.len(),
                v == self.messages(),
                last < i,
                last as int == last_of_kind(v.subrange(0, i as int), id),
            decreases n - i,
        {
            proof {
                assert(v.subrange(0, i + 1).drop_last() =~= v.subrange(0, i as int));
                assert(v.subrange(0, i + 1).last() == v[i as int]);
            }
            if self.messages[i].message_length != 0 && self.messages[i].message_id == id {
                last = i;
            }
            i += 1;
        }
        proof {
            assert(v.subrange(0, n as int) =~= v);
        }
        Some(last)
    }

    /// Where the next prepared message goes: right after the header when
    /// the queue is empty, else right after the last message (after its
    /// header alone while it is being written).
    pub proof fn lemma_next_offset(&self)
        requires
            self.wf(),
        ensures
            self.next_offset() == (if self.messages().len() == 0 {
                CHANNEL_HEADER_SIZE as int
            } else {
                self.messages().last().offset + (if self.messages().last().committed {
                    MESSAGE_HEADER_SIZE + self.messages().last().payload.len()
                } else {
                    0
                })
            }),
    {
        if self.messages@.len() > 0 {
            assert(self.message_ok(self.messages@.len() - 1));
        }
    }

    /// The protocol version recorded in the header.
    pub closed spec fn version(&self) -> ProtocolVersion {
        self.protocol_version
    }

    /// Finds the message that a reader handles next, as `find_outcome` says,
    /// unlinking the complete messages that it supersedes.
    fn take_next(&mut self) -> (found: Option<usize>)
        requires
            old(self).wf(),
        ensures
            final(self).wf(),
            (found, final(self).messages()) == find_outcome(old(self).messages()),
            final(self).writing() == old(self).writing(),
            final(self).capacity() == old(self).capacity(),
            final(self).compatible() == old(self).compatible(),
    {
        let n = self.messages.len();
        if n == 0 || self.messages[0].message_length == 0 {
            return None;
        }
        if !self.messages[0].replace_pending {
            return Some(self.messages[0].offset);
        }
        let id = self.messages[0].message_id;
        let ghost v = self.messages();
        // the last complete message of the first one's kind
        let mut last: usize = 0;
        let mut i: usize = 1;
        proof {
            assert(v.subrange(0, 1).drop_last() =~= Seq::<MessageView>::empty());
            assert(of_kind(v[0], id));
        }
        while i < n
            invariant
                1 <= i <= n,
                n == self.messages@.len(),
                v == self.messages(),
                last < i,
                last as int == last_of_kind(v.subrange(0, i as int), id),
            decreases n - i,
        {
            proof {
                assert(v.subrange(0, i + 1).drop_last() =~= v.subrange(0, i as int));
                assert(v.subrange(0, i + 1).last() == v[i as int]);
            }
            if self.messages[i].message_length != 0 && self.messages[i].message_id == id {
                last = i;
            }
            i += 1;
        }
        proof {
            assert(v.subrange(0, n as int) =~= v);
        }
        let found = self.messages[last].offset;
        // keep every message but the superseded ones
        let ghost capacity = self.capacity;
        let ghost writing = self.is_writing;
        let mut rest: Vec<StoredMessage> = Vec::new();
        std::mem::swap(&mut rest, &mut self.messages);
        let ghost orig = rest@;
        proof {
            assert(orig == old(self).messages@);
            assert forall|k: int| 0 <= k < orig.len() implies stored_ok(#[trigger] orig[k], capacity) by {
                assert(old(self).message_ok(k));
            }
        }
        let mut kept: Vec<StoredMessage> = Vec::new();
        let mut i: usize = 0;
        while i < n
            invariant
                i <= n,
                n == orig.len(),
                v == orig.map_values(|m: StoredMessage| m.view()),
                rest@ == orig.subrange(i as int, n as int),
                kept@.map_values(|m: StoredMessage| m.view()) == without_superseded(v, id, last as int, i as nat),
                forall|k: int| 0 <= k < kept@.len() ==> stored_ok(#[trigger] kept@[k], capacity),
                forall|k: int| 0 <= k < orig.len() ==> stored_ok(#[trigger] orig[k], capacity),
                gap_ordered(orig),
                forall|a: int, b: int| 0 <= a < b < kept@.len() ==>
                    (#[trigger] kept@[a]).message_length != 0 && kept@[a].offset + kept@[a].message_length <= (#[trigger] kept@[b]).offset,
                i < n && kept@.len() > 0 ==> kept@.last().message_length != 0
                    && kept@.last().offset + kept@.last().message_length <= orig[i as int].offset,
            decreases n - i,
        {
            proof {
                // the message at i is complete and ends before the next one, if there is one
                if i + 1 < n {
                    let here = orig[i as int];
                    let next = orig[i + 1];
                    assert(here.message_length != 0 && here.offset + here.message_length <= next.offset);
                }
            }
            let m = rest.remove(0);
            proof {
                assert(m == orig[i as int]);
                assert(v[i as int] == m.view());
            }
            let keep = !(m.message_length != 0 && m.message_id == id) || i == last;
            if keep {
                let ghost before = kept@;
                kept.push(m);
                proof {
                    assert(kept@.map_values(|m: StoredMessage| m.view()) =~= before.map_values(|m: StoredMessage| m.view()).push(v[i as int]));
                    assert forall|a: int, b: int| 0 <= a < b < kept@.len() implies
                        (#[trigger] kept@[a]).message_length != 0 && kept@[a].offset + kept@[a].message_length <= (#[trigger] kept@[b]).offset by {
                        if b == kept@.len() - 1 {
                            if a < before.len() - 1 {
                                assert(before[a].offset + before[a].message_length <= before.last().offset);
                            }
                            if i < n - 1 {
                                assert(orig[i as int].message_length != 0);
                            }
                        } else {
                            assert(before[a].offset + before[a].message_length <= before[b].offset);
                        }
                    }
                    if i + 1 < n {
                        assert(orig[i as int].message_length != 0 && orig[i as int].offset + orig[i as int].message_length <= orig[i + 1].offset);
                    }
                }
            } else {
                proof {
                    if i + 1 < n && kept@.len() > 0 {
                        assert(orig[i as int].message_length != 0 && orig[i as int].offset + orig[i as int].message_length <= orig[i + 1].offset);
                    }
                }
            }
            i += 1;
        }
        proof {
            lemma_last_of_kind(v, id);
            if writing {
                assert(!of_kind(v[n - 1], id));
                assert(kept@.map_values(|m: StoredMessage| m.view()).last() == v[n - 1]);
            } else {
                assert forall|k: int| 0 <= k < kept@.len() implies (#[trigger] kept@[k]).message_length != 0 by {
                    if k < kept@.len() - 1 {
                        assert(kept@[k].offset + kept@[k].message_length <= kept@[k + 1].offset);
                    } else {
                        lemma_without_superseded_committed(v, id, last as int, n as nat);
                        assert(kept@.map_values(|m: StoredMessage| m.view())[k].committed);
                    }
                }
            }
        }
        self.messages = kept;
        proof {
            assert forall|k: int| 0 <= k < self.messages@.len() implies #[trigger] self.message_ok(k) by {
                assert(stored_ok(self.messages@[k], capacity));
            }
        }
        self.set_bookkeeping();
        Some(found)
    }

    /// The header of the message at `offset` as it stands in the buffer, if
    /// a message is queued there.
    fn header_at(&self, offset: usize) -> (header: Option<ChannelMessageHeader>)
        requires
            self.wf(),
        ensures
            header is None <==> forall|k: int| 0 <= k < self.messages().len() ==> (#[trigger] self.messages()[k]).offset != offset,
            header matches Some(h) ==> exists|k: int|
                0 <= k < self.messages().len() && (#[trigger] self.messages()[k]).offset == offset
                && header_describes(h, self.messages(), k),
    {
        match self.index_of_offset(offset) {
            None => None,
            Some(k) => {
                let n = self.messages.len();
                let m = &self.messages[k];
                let previous = if k == 0 { 0 } else { self.messages[k - 1].offset };
                let next = if k + 1 == n { 0 } else { self.messages[k + 1].offset };
                let h = ChannelMessageHeader {
                    message_magic: MESSAGE_MAGIC,
                    message_id: m.message_id,
                    call_id: m.call_id,
                    message_length: m.message_length,
                    previous_message_offset: previous,
                    next_message_offset: next,
                    replace_pending: m.replace_pending,
                };
                proof {
                    assert(self.message_ok(k as int));
                    assert(header_describes(h, self.messages(), k as int));
                }
                Some(h)
            },
        }
    }

    /// The payload of the message at `offset`, if a message is queued there.
    fn payload_at(&self, offset: usize) -> (payload: Option<&Vec<u8>>)
        requires
            self.wf(),
        ensures
            payload is None <==> forall|k: int| 0 <= k < self.messages().len() ==> (#[trigger] self.messages()[k]).offset != offset,
            payload matches Some(p) ==> exists|k: int|
                0 <= k < self.messages().len() && (#[trigger] self.messages()[k]).offset == offset
                && p@ == self.messages()[k].payload,
    {
        match self.index_of_offset(offset) {
            None => None,
            Some(k) => Some(&self.messages[k].payload),
        }
    }
}

/// The header of the `k`-th queued message: magic number, id, call id, the
/// length of header and payload once complete (0 before), the neighbours'
/// offsets (0 where there is none) and the replacement flag.
pub open spec fn header_describes(h: ChannelMessageHeader, v: Seq<MessageView>, k: int) -> bool {
    &&& h.message_magic == MESSAGE_MAGIC
    &&& h.message_id == v[k].message_id
    &&& h.call_id == v[k].call_id
    &&& h.message_length == (if v[k].committed { MESSAGE_HEADER_SIZE + v[k].payload.len() } else { 0 })
    &&& h.previous_message_offset == (if k == 0 { 0 } else { v[k - 1].offset as int })
    &&& h.next_message_offset == (if k == v.len() - 1 { 0 } else { v[k + 1].offset as int })
    &&& h.replace_pending == v[k].replace_pending
}

/// When every message of a queue is complete, so is every message that
/// `without_superseded` keeps.
pub proof fn lemma_without_superseded_committed(v: Seq<MessageView>, id: u64, keep: int, n: nat)
    requires
        n <= v.len(),
        forall|k: int| 0 <= k < n ==> (#[trigger] v[k]).committed,
    ensures
        forall|k: int| 0 <= k < without_superseded(v, id, keep, n).len() ==> (#[trigger] without_superseded(v, id, keep, n)[k]).committed,
    decreases n,
{
    if n > 0 {
        lemma_without_superseded_committed(v, id, keep, (n - 1) as nat);
        let rest = without_superseded(v, id, keep, (n - 1) as nat);
        let all = without_superseded(v, id, keep, n);
        assert forall|k: int| 0 <= k < all.len() implies (#[trigger] all[k]).committed by {
            if k < rest.len() {
                assert(all[k] == rest[k]);
            } else {
                assert(all[k] == v[n - 1]);
            }
        }
    }
}
/// The two buffers of a channel. A client writes into `buffer0` and reads
/// from `buffer1`; a server reads from `buffer0` and writes into `buffer1`.
pub struct ChannelPair {
    pub buffer0: ChannelMemory,
    pub buffer1: ChannelMemory,
}

impl ChannelPair {
    /// Both buffers hold their invariant.
    pub open spec fn wf(&self) -> bool {
        self.buffer0.wf() && self.buffer1.wf()
    }

    /// Two zero-filled buffers of `capacity` bytes each.
    pub fn new(capacity: usize) -> (pair: Self)
        ensures
            pair.wf(),
            pair.buffer0.capacity() == capacity && pair.buffer1.capacity() == capacity,
            pair.buffer0.messages() == Seq::<MessageView>::empty(),
            pair.buffer1.messages() == Seq::<MessageView>::empty(),
            !pair.buffer0.writing() && !pair.buffer1.writing(),
            !pair.buffer0.compatible() && !pair.buffer1.compatible(),
            pair.buffer0.next_offset() == CHANNEL_HEADER_SIZE && pair.buffer1.next_offset() == CHANNEL_HEADER_SIZE,
    {
        ChannelPair { buffer0: ChannelMemory::new(capacity), buffer1: ChannelMemory::new(capacity) }
    }
}

/// Whether a channel side can write a complete message of `size` payload
/// bytes: no message is being written, the buffer has room for it, and the
/// call ids are not used up.
pub open spec fn accepts(channel: ConsoleChannel, pair: ChannelPair, size: nat) -> bool {
    &&& !channel.tx(pair).writing()
    &&& channel.tx(pair).next_offset() + MESSAGE_HEADER_SIZE + size <= channel.tx(pair).capacity()
    &&& channel.next_call_id() < u64::MAX
}

/// One side of a console channel: which buffers it reads and writes, and
/// the call id that its next message gets.
#[derive(Clone, Copy)]
pub struct ConsoleChannel {
    is_server: bool,
    call_id: u64,
}

impl ConsoleChannel {
    /// Whether this is the server side.
    pub closed spec fn server(&self) -> bool {
        self.is_server
    }

    /// The call id of the next prepared message.
    pub closed spec fn next_call_id(&self) -> u64 {
        self.call_id
    }

    /// The call id of the next message.
    pub fn call_id(&self) -> (call_id: u64)
        ensures
            call_id == self.next_call_id(),
    {
        self.call_id
    }

    /// The buffer this side reads.
    pub open spec fn rx(&self, pair: ChannelPair) -> ChannelMemory {
        if self.server() { pair.buffer0 } else { pair.buffer1 }
    }

    /// The buffer this side writes.
    pub open spec fn tx(&self, pair: ChannelPair) -> ChannelMemory {
        if self.server() { pair.buffer1 } else { pair.buffer0 }
    }

    /// Opens one side of a channel; call ids start at 1. The client side
    /// initialises both buffers; the server side leaves them as they are.
    pub fn new(pair: &mut ChannelPair, is_server: bool) -> (channel: Self)
        requires
            old(pair).wf(),
        ensures
            final(pair).wf(),
            channel.server() == is_server,
            channel.next_call_id() == 1,
            is_server ==> *final(pair) == *old(pair),
            !is_server ==> {
                &&& final(pair).buffer0.compatible() && final(pair).buffer1.compatible()
                &&& final(pair).buffer0.messages() == Seq::<MessageView>::empty()
                &&& final(pair).buffer1.messages() == Seq::<MessageView>::empty()
                &&& !final(pair).buffer0.writing() && !final(pair).buffer1.writing()
                &&& final(pair).buffer0.capacity() == old(pair).buffer0.capacity()
                &&& final(pair).buffer1.capacity() == old(pair).buffer1.capacity()
                &&& final(pair).buffer0.version() == (ProtocolVersion { major: 1, minor: 0, patch: 0, is_preview: false, preview_version: 0 })
                &&& final(pair).buffer1.version() == (ProtocolVersion { major: 1, minor: 0, patch: 0, is_preview: false, preview_version: 0 })
                &&& final(pair).buffer0.next_offset() == CHANNEL_HEADER_SIZE
                &&& final(pair).buffer1.next_offset() == CHANNEL_HEADER_SIZE
            },
    {
        if !is_server {
            pair.buffer0.initialize();
            pair.buffer1.initialize();
        }
        ConsoleChannel { is_server, call_id: 1 }
    }

    /// Whether both buffers carry the console protocol's header, major version 1.
    pub fn check_compatible(&self, pair: &ChannelPair) -> (compatible: bool)
        requires
            pair.wf(),
        ensures
            compatible == (pair.buffer0.compatible() && pair.buffer1.compatible()),
    {
        pair.buffer0.is_compatible() && pair.buffer1.is_compatible()
    }

    /// Queues an incomplete message with `message_id` in the written buffer
    /// and starts writing it; returns its call id and offset. It counts as
    /// queued, but readers do not handle it until it is committed.
    pub fn prepare_message(&mut self, pair: &mut ChannelPair, message_id: u64, replace_pending: bool) -> (prepared: (u64, usize))
        requires
            old(pair).wf(),
            !old(self).tx(*old(pair)).writing(),
            old(self).tx(*old(pair)).next_offset() + MESSAGE_HEADER_SIZE <= old(self).tx(*old(pair)).capacity(),
            old(self).next_call_id() < u64::MAX,
        ensures
            final(pair).wf(),
            final(self).server() == old(self).server(),
            prepared.0 == old(self).next_call_id(),
            final(self).next_call_id() == old(self).next_call_id() + 1,
            prepared.1 == old(self).tx(*old(pair)).next_offset(),
            final(self).tx(*final(pair)).messages() == with_prepared(
                old(self).tx(*old(pair)).messages(), prepared.1, message_id, prepared.0, replace_pending),
            final(self).tx(*final(pair)).writing(),
            final(self).tx(*final(pair)).capacity() == old(self).tx(*old(pair)).capacity(),
            final(self).tx(*final(pair)).compatible() == old(self).tx(*old(pair)).compatible(),
            final(self).rx(*final(pair)) == old(self).rx(*old(pair)),
    {
        let call_id = self.call_id;
        self.call_id = self.call_id + 1;
        let offset = if self.is_server {
            pair.buffer1.append_prepared(message_id, call_id, replace_pending)
        } else {
            pair.buffer0.append_prepared(message_id, call_id, replace_pending)
        };
        (call_id, offset)
    }

    /// Writes a complete message with `message_id` and `payload` into the
    /// written buffer, with the next call id, or with `reply_to` where it is
    /// a reply. Nothing is written, and `false` returned, while another
    /// message is being written, when the buffer has no room for the
    /// message, or when the call ids are used up.
    pub fn send_message(&mut self, pair: &mut ChannelPair, message_id: u64, replace_pending: bool, reply_to: Option<u64>, payload: Vec<u8>) -> (sent: bool)
        requires
            old(pair).wf(),
        ensures
            final(pair).wf(),
            final(self).server() == old(self).server(),
            sent == accepts(*old(self), *old(pair), payload@.len()),
            sent ==> final(self).next_call_id() == old(self).next_call_id() + 1,
            sent ==> final(self).tx(*final(pair)).messages() == with_committed(with_prepared(
                old(self).tx(*old(pair)).messages(),
                old(self).tx(*old(pair)).next_offset() as usize,
                message_id,
                match reply_to { Some(c) => c, None => old(self).next_call_id() },
                replace_pending), payload@),
            !sent ==> *final(self) == *old(self) && *final(pair) == *old(pair),
            final(self).tx(*final(pair)).capacity() == old(self).tx(*old(pair)).capacity(),
            final(self).tx(*final(pair)).compatible() == old(self).tx(*old(pair)).compatible(),
            !final(self).tx(*final(pair)).writing() == !old(self).tx(*old(pair)).writing(),
            final(self).rx(*final(pair)) == old(self).rx(*old(pair)),
    {
        let (writing, room) = if self.is_server {
            (pair.buffer1.is_writing(), pair.buffer1.free_space())
        } else {
            (pair.buffer0.is_writing(), pair.buffer0.free_space())
        };
        if writing || room < MESSAGE_HEADER_SIZE || room - MESSAGE_HEADER_SIZE < payload.len() || self.call_id == u64::MAX {
            return false;
        }
        let call_id = match reply_to {
            Some(c) => c,
            None => self.call_id,
        };
        self.call_id = self.call_id + 1;
        let ghost before = self.tx(*pair).messages();
        let offset = if self.is_server {
            pair.buffer1.append_prepared(message_id, call_id, replace_pending)
        } else {
            pair.buffer0.append_prepared(message_id, call_id, replace_pending)
        };
        if self.is_server {
            pair.buffer1.commit_last(payload);
        } else {
            pair.buffer0.commit_last(payload);
        }
        true
    }

    /// Completes the message being written with `payload`.
    pub fn commit_message(&self, pair: &mut ChannelPair, payload: Vec<u8>)
        requires
            old(pair).wf(),
            self.tx(*old(pair)).writing(),
            self.tx(*old(pair)).messages().last().offset + MESSAGE_HEADER_SIZE + payload@.len() <= self.tx(*old(pair)).capacity(),
        ensures
            final(pair).wf(),
            self.tx(*final(pair)).messages() == with_committed(self.tx(*old(pair)).messages(), payload@),
            !self.tx(*final(pair)).writing(),
            self.tx(*final(pair)).capacity() == self.tx(*old(pair)).capacity(),
            self.tx(*final(pair)).compatible() == self.tx(*old(pair)).compatible(),
            self.rx(*final(pair)) == self.rx(*old(pair)),
    {
        if self.is_server {
            pair.buffer1.commit_last(payload);
        } else {
            pair.buffer0.commit_last(payload);
        }
    }

    /// The offset of the first message in the read buffer with call id
    /// `call_id` (a reply to the call of that id), if any.
    pub fn find_specific_message(&self, pair: &ChannelPair, call_id: u64) -> (found: Option<usize>)
        requires
            pair.wf(),
        ensures
            found matches Some(offset) ==> exists|k: int|
                0 <= k < self.rx(*pair).messages().len()
                && (#[trigger] self.rx(*pair).messages()[k]).call_id == call_id
                && self.rx(*pair).messages()[k].offset == offset
                && forall|j: int| 0 <= j < k ==> self.rx(*pair).messages()[j].call_id != call_id,
            found is None ==> forall|k: int| 0 <= k < self.rx(*pair).messages().len() ==>
                (#[trigger] self.rx(*pair).messages()[k]).call_id != call_id,
    {
        if self.is_server {
            proof { assert(self.rx(*pair) == pair.buffer0); }
            pair.buffer0.find_call(call_id)
        } else {
            proof { assert(self.rx(*pair) == pair.buffer1); }
            pair.buffer1.find_call(call_id)
        }
    }

    /// The offset of the message in the read buffer that is to be handled
    /// next, as `find_outcome` says; superseded messages are unlinked.
    pub fn find_message(&self, pair: &mut ChannelPair) -> (found: Option<usize>)
        requires
            old(pair).wf(),
        ensures
            final(pair).wf(),
            (found, self.rx(*final(pair)).messages()) == find_outcome(self.rx(*old(pair)).messages()),
            self.rx(*final(pair)).writing() == self.rx(*old(pair)).writing(),
            self.rx(*final(pair)).capacity() == self.rx(*old(pair)).capacity(),
            self.rx(*final(pair)).compatible() == self.rx(*old(pair)).compatible(),
            self.tx(*final(pair)) == self.tx(*old(pair)),
    {
        if self.is_server {
            pair.buffer0.take_next()
        } else {
            pair.buffer1.take_next()
        }
    }

    /// Unlinks the complete message at offset `message` from the read buffer.
    pub fn unlink_message(&self, pair: &mut ChannelPair, message: usize)
        requires
            old(pair).wf(),
            exists|k: int|
                0 <= k < self.rx(*old(pair)).messages().len()
                && (#[trigger] self.rx(*old(pair)).messages()[k]).offset == message
                && self.rx(*old(pair)).messages()[k].committed,
        ensures
            final(pair).wf(),
            exists|k: int|
                0 <= k < self.rx(*old(pair)).messages().len()
                && (#[trigger] self.rx(*old(pair)).messages()[k]).offset == message
                && self.rx(*final(pair)).messages() == self.rx(*old(pair)).messages().remove(k),
            self.rx(*final(pair)).writing() == self.rx(*old(pair)).writing(),
            self.rx(*final(pair)).capacity() == self.rx(*old(pair)).capacity(),
            self.rx(*final(pair)).compatible() == self.rx(*old(pair)).compatible(),
            self.tx(*final(pair)) == self.tx(*old(pair)),
    {
        if self.is_server {
            let k = pair.buffer0.index_of_offset(message).unwrap();
            pair.buffer0.remove_at(k);
        } else {
            let k = pair.buffer1.index_of_offset(message).unwrap();
            pair.buffer1.remove_at(k);
        }
    }

    /// The number of messages queued in the read buffer, complete or not.
    pub fn message_count_rx(&self, pair: &ChannelPair) -> (count: usize)
        requires
            pair.wf(),
        ensures
            count == self.rx(*pair).messages().len(),
    {
        if self.is_server {
            pair.buffer0.message_count()
        } else {
            pair.buffer1.message_count()
        }
    }

    /// The header of the message at offset `message` in the read buffer, if
    /// a message is queued there.
    pub fn message_header(&self, pair: &ChannelPair, message: usize) -> (header: Option<ChannelMessageHeader>)
        requires
            pair.wf(),
        ensures
            header is None <==> forall|k: int| 0 <= k < self.rx(*pair).messages().len() ==>
                (#[trigger] self.rx(*pair).messages()[k]).offset != message,
            header matches Some(h) ==> exists|k: int|
                0 <= k < self.rx(*pair).messages().len() && (#[trigger] self.rx(*pair).messages()[k]).offset == message
                && header_describes(h, self.rx(*pair).messages(), k),
    {
        if self.is_server {
            proof { assert(self.rx(*pair) == pair.buffer0); }
            pair.buffer0.header_at(message)
        } else {
            proof { assert(self.rx(*pair) == pair.buffer1); }
            pair.buffer1.header_at(message)
        }
    }

    /// The payload of the message at offset `message` in the read buffer, if
    /// a message is queued there.
    pub fn message_payload<'a>(&self, pair: &'a ChannelPair, message: usize) -> (payload: Option<&'a Vec<u8>>)
        requires
            pair.wf(),
        ensures
            payload is None <==> forall|k: int| 0 <= k < self.rx(*pair).messages().len() ==>
                (#[trigger] self.rx(*pair).messages()[k]).offset != message,
            payload matches Some(p) ==> exists|k: int|
                0 <= k < self.rx(*pair).messages().len() && (#[trigger] self.rx(*pair).messages()[k]).offset == message
                && p@ == self.rx(*pair).messages()[k].payload,
    {
        if self.is_server {
            proof { assert(self.rx(*pair) == pair.buffer0); }
            pair.buffer0.payload_at(message)
        } else {
            proof { assert(self.rx(*pair) == pair.buffer1); }
            pair.buffer1.payload_at(message)
        }
    }
}

/// A value read from a channel message, together with the offset of that
/// message, which the reader unlinks when it is done with the value.
pub struct FromChannel<T> {
    value: T,
    message: usize,
}

impl<T> FromChannel<T> {
    /// The value.
    pub closed spec fn value(&self) -> T {
        self.value
    }

    /// The offset of the message the value was read from.
    pub closed spec fn message(&self) -> usize {
        self.message
    }

    /// Wraps `value`, read from the message at offset `message`.
    pub fn new(value: T, message: usize) -> (wrapped: Self)
        ensures
            wrapped.value() == value,
            wrapped.message() == message,
    {
        FromChannel { value, message }
    }

    /// The value.
    pub fn get(&self) -> (value: &T)
        ensures
            *value == self.value(),
    {
        &self.value
    }

    /// The offset of the message the value was read from.
    pub fn message_offset(&self) -> (message: usize)
        ensures
            message == self.message(),
    {
        self.message
    }

    /// Ends the use of the value and unlinks its message from the read buffer.
    pub fn release(self, channel: &ConsoleChannel, pair: &mut ChannelPair) -> (value: T)
        requires
            old(pair).wf(),
            exists|k: int|
                0 <= k < channel.rx(*old(pair)).messages().len()
                && (#[trigger] channel.rx(*old(pair)).messages()[k]).offset == self.message()
                && channel.rx(*old(pair)).messages()[k].committed,
        ensures
            final(pair).wf(),
            value == self.value(),
            exists|k: int|
                0 <= k < channel.rx(*old(pair)).messages().len()
                && (#[trigger] channel.rx(*old(pair)).messages()[k]).offset == self.message()
                && channel.rx(*final(pair)).messages() == channel.rx(*old(pair)).messages().remove(k),
            channel.tx(*final(pair)) == channel.tx(*old(pair)),
    {
        channel.unlink_message(pair, self.message);
        self.value
    }
}

/// A message that is prepared and committed into an empty queue, without
/// replacing pending ones, is the message that the reader finds next, with
/// the payload that was committed, and finding it leaves the queue as it is.
pub proof fn law_committed_message_is_found(offset: usize, message_id: u64, call_id: u64, payload: Seq<u8>)
    ensures
        ({
            let queue = with_committed(with_prepared(Seq::empty(), offset, message_id, call_id, false), payload);
            &&& find_outcome(queue) == (Some(offset), queue)
            &&& queue[0].payload == payload
            &&& queue[0].call_id == call_id
        }),
{
}

/// Messages are found in the order they were queued: when the first queued
/// message is complete and replaces nothing, queuing another message after
/// it does not change what the reader finds next, and finding it leaves the
/// queue as it is.
pub proof fn law_earlier_message_is_found_first(v: Seq<MessageView>, offset: usize, message_id: u64, call_id: u64, replace_pending: bool, payload: Seq<u8>)
    requires
        v.len() > 0,
        v[0].committed,
        !v[0].replace_pending,
    ensures
        ({
            let queue = with_committed(with_prepared(v, offset, message_id, call_id, replace_pending), payload);
            find_outcome(queue) == (Some(v[0].offset), queue)
        }),
{
    let queue = with_committed(with_prepared(v, offset, message_id, call_id, replace_pending), payload);
    assert(queue[0] == v[0]);
}

/// Call ids count up from 1: when a side starts at call id 1, as
/// `ConsoleChannel::new` opens it, and each message prepared or sent on it
/// raises the next call id by one, as `prepare_message` and `send_message`
/// state, the message prepared after `k` others gets call id `k + 1`.
pub proof fn law_call_ids_count_up(sides: Seq<ConsoleChannel>)
    requires
        sides.len() > 0,
        sides[0].next_call_id() == 1,
        forall|i: int| 0 <= i < sides.len() - 1 ==> #[trigger] sides[i + 1].next_call_id() == sides[i].next_call_id() + 1,
    ensures
        forall|k: int| 0 <= k < sides.len() ==> #[trigger] sides[k].next_call_id() == k + 1,
    decreases sides.len(),
{
    if sides.len() > 1 {
        let shorter = sides.drop_last();
        assert forall|i: int| 0 <= i < shorter.len() - 1 implies #[trigger] shorter[i + 1].next_call_id() == shorter[i].next_call_id() + 1 by {
            assert(sides[i + 1].next_call_id() == sides[i].next_call_id() + 1);
        }
        law_call_ids_count_up(shorter);
        assert forall|k: int| 0 <= k < sides.len() implies #[trigger] sides[k].next_call_id() == k + 1 by {
            if k < sides.len() - 1 {
                assert(shorter[k] == sides[k]);
            } else {
                let j = k - 1;
                assert(sides[j + 1].next_call_id() == sides[j].next_call_id() + 1);
                assert(shorter[j] == sides[j]);
            }
        }
    }
}

/// The reader is never handed an incomplete message: what `find_message`
/// answers is the offset of a complete message of the queue.
pub proof fn law_found_message_is_complete(v: Seq<MessageView>)
    ensures
        find_outcome(v).0 matches Some(offset) ==> exists|k: int|
            0 <= k < v.len() && (#[trigger] v[k]).offset == offset && v[k].committed,
{
    if v.len() > 0 && v[0].committed {
        if v[0].replace_pending {
            lemma_last_of_kind(v, v[0].message_id);
            let last = last_of_kind(v, v[0].message_id);
            assert(v[last].offset == find_outcome(v).0.unwrap());
        } else {
            assert(v[0].offset == find_outcome(v).0.unwrap());
        }
    }
}

/// The messages that stay in the queue when the complete messages of id
/// `id` are unlinked, all but the one at offset `kept`.
pub open spec fn stays_queued(m: MessageView, id: u64, kept: usize) -> bool {
    !(m.committed && m.message_id == id) || m.offset == kept
}

/// `stays_queued` for `id` and `kept`, as a predicate on messages.
pub open spec fn staying(id: u64, kept: usize) -> spec_fn(MessageView) -> bool {
    |m: MessageView| stays_queued(m, id, kept)
}

/// The first `n` messages without the superseded ones are the first `n`
/// messages with only those that stay queued.
proof fn lemma_without_superseded_filter(v: Seq<MessageView>, id: u64, keep: int, n: nat)
    requires
        n <= v.len(),
        0 <= keep < v.len(),
        forall|i: int, j: int| 0 <= i < j < v.len() ==> (#[trigger] v[i]).offset != (#[trigger] v[j]).offset,
    ensures
        without_superseded(v, id, keep, n) == v.take(n as int).filter(staying(id, v[keep].offset)),
    decreases n,
{
    reveal(Seq::filter);
    let pred = staying(id, v[keep].offset);
    if n == 0 {
        assert(v.take(0) =~= Seq::<MessageView>::empty());
    } else {
        lemma_without_superseded_filter(v, id, keep, (n - 1) as nat);
        let t = v.take(n as int);
        assert(t.drop_last() =~= v.take(n - 1));
        assert(t.last() == v[n - 1]);
        assert(pred(v[n - 1]) == (!of_kind(v[n - 1], id) || n - 1 == keep));
        assert(t.filter(pred) == (if pred(t.last()) { t.drop_last().filter(pred).push(t.last()) } else { t.drop_last().filter(pred) }));
        assert(t.drop_last().filter(pred) == without_superseded(v, id, keep, (n - 1) as nat));
    }
}

/// Finding a message that replaces pending ones unlinks only what it
/// supersedes: the message found is the last complete message with the
/// first message's id, and the queue left behind is the old queue without
/// the other complete messages of that id; every message with another id,
/// and any incomplete message, stays, in its order.
pub proof fn law_replacement_unlinks_only_superseded(v: Seq<MessageView>)
    requires
        v.len() > 0,
        v[0].committed,
        v[0].replace_pending,
        forall|i: int, j: int| 0 <= i < j < v.len() ==> (#[trigger] v[i]).offset != (#[trigger] v[j]).offset,
    ensures
        find_outcome(v).0 is Some,
        find_outcome(v).1 == v.filter(staying(v[0].message_id, find_outcome(v).0.unwrap())),
        exists|k: int| 0 <= k < v.len()
            && (#[trigger] v[k]).offset == find_outcome(v).0.unwrap()
            && v[k].committed && v[k].message_id == v[0].message_id
            && forall|j: int| k < j < v.len() ==> !((#[trigger] v[j]).committed && v[j].message_id == v[0].message_id),
{
    let id = v[0].message_id;
    lemma_last_of_kind(v, id);
    let last = last_of_kind(v, id);
    assert(of_kind(v[0], id));
    assert(last >= 0);
    lemma_without_superseded_filter(v, id, last, v.len());
    assert(v.take(v.len() as int) =~= v);
    assert forall|j: int| last < j < v.len() implies !((#[trigger] v[j]).committed && v[j].message_id == id) by {
        if v[j].committed && v[j].message_id == id {
            assert(of_kind(v[j], id));
        }
    }
}

/// Without a replacement, finding unlinks nothing: an empty queue, or one
/// whose first message is incomplete, gives nothing; otherwise the first
/// message is found.
pub proof fn law_plain_find_unlinks_nothing(v: Seq<MessageView>)
    requires
        v.len() == 0 || !v[0].committed || !v[0].replace_pending,
    ensures
        find_outcome(v).1 == v,
        find_outcome(v).0 == (if v.len() > 0 && v[0].committed { Some(v[0].offset) } else { None }),
{
}

/// The messages of a well-formed buffer lie at increasing offsets.
pub proof fn lemma_offsets_increase(memory: ChannelMemory)
    requires
        memory.wf(),
    ensures
        forall|i: int, j: int| 0 <= i < j < memory.messages().len() ==>
            (#[trigger] memory.messages()[i]).offset < (#[trigger] memory.messages()[j]).offset,
{
    assert forall|i: int, j: int| 0 <= i < j < memory.messages().len() implies
        (#[trigger] memory.messages()[i]).offset < (#[trigger] memory.messages()[j]).offset by {
        assert(memory.messages@[i].message_length != 0 && memory.messages@[i].offset + memory.messages@[i].message_length <= memory.messages@[j].offset);
    }
}

/// The index in the queue of the `k`-th message that `without_superseded` keeps.
spec fn kept_source(v: Seq<MessageView>, id: u64, keep: int, n: nat, k: int) -> int
    decreases n,
{
    if n == 0 {
        0
    } else if k < without_superseded(v, id, keep, (n - 1) as nat).len() {
        kept_source(v, id, keep, (n - 1) as nat, k)
    } else {
        n - 1
    }
}

/// The `k`-th message that `without_superseded` keeps is the queue's message
/// at `kept_source`, and it is not a superseded one.
proof fn lemma_kept_source(v: Seq<MessageView>, id: u64, keep: int, n: nat, k: int)
    requires
        n <= v.len(),
        0 <= k < without_superseded(v, id, keep, n).len(),
    ensures
        0 <= kept_source(v, id, keep, n, k) < n,
        without_superseded(v, id, keep, n)[k] == v[kept_source(v, id, keep, n, k)],
        of_kind(v[kept_source(v, id, keep, n, k)], id) ==> kept_source(v, id, keep, n, k) == keep,
    decreases n,
{
    let rest = without_superseded(v, id, keep, (n - 1) as nat);
    if k < rest.len() {
        lemma_kept_source(v, id, keep, (n - 1) as nat, k);
    }
}

/// Each element of `without_superseded` is an element of the queue, and the
/// only complete one with id `id` is the one at `keep`.
pub proof fn lemma_without_superseded_kind(v: Seq<MessageView>, id: u64, keep: int, n: nat, k: int)
    requires
        n <= v.len(),
        0 <= k < without_superseded(v, id, keep, n).len(),
    ensures
        exists|j: int| 0 <= j < n && without_superseded(v, id, keep, n)[k] == #[trigger] v[j]
            && (of_kind(v[j], id) ==> j == keep),
{
    lemma_kept_source(v, id, keep, n, k);
    let j = kept_source(v, id, keep, n, k);
    assert(without_superseded(v, id, keep, n)[k] == v[j]);
}

/// When the first message replaces pending ones, the queue that
/// `find_message` leaves holds exactly one complete message with the first
/// message's id: the one it answers.
pub proof fn law_replacement_keeps_latest(v: Seq<MessageView>)
    requires
        v.len() > 0,
        v[0].committed,
        v[0].replace_pending,
    ensures
        find_outcome(v).0 is Some,
        forall|k: int| 0 <= k < find_outcome(v).1.len() && of_kind(#[trigger] find_outcome(v).1[k], v[0].message_id) ==>
            find_outcome(v).1[k] == v[last_of_kind(v, v[0].message_id)],
        exists|k: int| 0 <= k < find_outcome(v).1.len() && (#[trigger] find_outcome(v).1[k]).offset == find_outcome(v).0.unwrap()
            && find_outcome(v).1[k].committed,
{
    let id = v[0].message_id;
    lemma_last_of_kind(v, id);
    let last = last_of_kind(v, id);
    assert(find_outcome(v) == (Some(v[last].offset), without_superseded(v, id, last, v.len())));
    let rest = without_superseded(v, id, last, v.len());
    assert forall|k: int| 0 <= k < rest.len() && of_kind(#[trigger] rest[k], id) implies rest[k] == v[last] by {
        lemma_without_superseded_kind(v, id, last, v.len(), k);
        let j = choose|j: int| 0 <= j < v.len() && rest[k] == v[j] && (of_kind(v[j], id) ==> j == last);
    }
    lemma_without_superseded_contains(v, id, last, v.len());
    let k = choose|k: int| 0 <= k < rest.len() && rest[k] == v[last];
    assert(find_outcome(v).1[k] == v[last]);
    assert(0 <= k < find_outcome(v).1.len() && find_outcome(v).1[k].offset == find_outcome(v).0.unwrap()
        && find_outcome(v).1[k].committed);
}

/// The message at `keep` stays in `without_superseded` once `n` passes it.
pub proof fn lemma_without_superseded_contains(v: Seq<MessageView>, id: u64, keep: int, n: nat)
    requires
        n <= v.len(),
        0 <= keep < n,
    ensures
        exists|k: int| 0 <= k < without_superseded(v, id, keep, n).len() && #[trigger] without_superseded(v, id, keep, n)[k] == v[keep],
    decreases n,
{
    let rest = without_superseded(v, id, keep, (n - 1) as nat);
    let all = without_superseded(v, id, keep, n);
    if keep == n - 1 {
        assert(all[all.len() - 1] == v[keep]);
    } else {
        lemma_without_superseded_contains(v, id, keep, (n - 1) as nat);
        let k = choose|k: int| 0 <= k < rest.len() && rest[k] == v[keep];
        assert(all[k] == rest[k]);
    }
}


/// The two little-endian bytes of a 16-bit value.
pub open spec fn le_u16(v: u16) -> Seq<u8> {
    seq![(v % 256) as u8, (v / 256) as u8]
}

/// The 16-bit value whose little-endian bytes start at `pos`.
pub open spec fn u16_at(bytes: Seq<u8>, pos: int) -> u16 {
    (bytes[pos] + 256 * bytes[pos + 1]) as u16
}

/// A flag stored in one byte: any byte but 0 reads as set.
pub open spec fn flag_at(bytes: Seq<u8>, pos: int) -> bool {
    bytes[pos] != 0
}

/// The offset of the message before the `k`-th, or 0 for the first.
spec fn previous_of(ms: Seq<StoredMessage>, k: int) -> usize {
    if k == 0 { 0 } else { ms[k - 1].offset }
}

/// The offset of the message after the `k`-th, or 0 for the last.
spec fn following_of(ms: Seq<StoredMessage>, k: int) -> usize {
    if k + 1 < ms.len() { ms[k + 1].offset } else { 0 }
}

/// The 56 header bytes of the `k`-th message: magic number, id, call id,
/// length, the neighbours' offsets as 64-bit values, the replacement flag
/// and seven zero bytes.
spec fn message_header_image(ms: Seq<StoredMessage>, k: int) -> Seq<u8> {
    le_u64(MESSAGE_MAGIC) + le_u64(ms[k].message_id) + le_u64(ms[k].call_id)
        + le_u64(ms[k].message_length as u64) + le_u64(previous_of(ms, k) as u64)
        + le_u64(following_of(ms, k) as u64) + seq![flag_byte(ms[k].replace_pending)] + zeros(7)
}

/// A message's header bytes number 56.
proof fn lemma_message_header_image_len(ms: Seq<StoredMessage>, k: int)
    ensures
        message_header_image(ms, k).len() == MESSAGE_HEADER_SIZE,
{
    lemma_u64_roundtrip(MESSAGE_MAGIC);
    lemma_u64_roundtrip(ms[k].message_id);
    lemma_u64_roundtrip(ms[k].call_id);
    lemma_u64_roundtrip(ms[k].message_length as u64);
    lemma_u64_roundtrip(previous_of(ms, k) as u64);
    lemma_u64_roundtrip(following_of(ms, k) as u64);
}

/// The bytes of the `k`-th message: its header, then its payload.
spec fn message_image(ms: Seq<StoredMessage>, k: int) -> Seq<u8> {
    message_header_image(ms, k) + ms[k].payload@
}

impl ChannelMemory {
    /// The 80 header bytes of the buffer: magic number, first and last
    /// message offsets and message count as 64-bit values, the 32 bytes of
    /// the protocol name, the major, minor, patch and preview version as
    /// 16-bit values, the preview flag, the writing flag and six zero bytes.
    pub closed spec fn header_image(&self) -> Seq<u8> {
        le_u64(self.channel_magic) + le_u64(self.first_message_offset as u64)
            + le_u64(self.last_message_offset as u64) + le_u64(self.number_of_messages as u64)
            + self.protocol_name@
            + le_u16(self.protocol_version.major) + le_u16(self.protocol_version.minor)
            + le_u16(self.protocol_version.patch) + le_u16(self.protocol_version.preview_version)
            + seq![flag_byte(self.protocol_version.is_preview), flag_byte(self.is_writing)] + zeros(6)
    }

    /// The header bytes number 80.
    proof fn lemma_header_image_len(&self)
        requires
            self.wf(),
        ensures
            self.header_image().len() == CHANNEL_HEADER_SIZE,
    {
        lemma_u64_roundtrip(self.channel_magic);
        lemma_u64_roundtrip(self.first_message_offset as u64);
        lemma_u64_roundtrip(self.last_message_offset as u64);
        lemma_u64_roundtrip(self.number_of_messages as u64);
    }

    /// Whether byte `i` belongs to the `k`-th message.
    spec fn in_message(&self, k: int, i: int) -> bool {
        self.messages@[k].offset <= i < self.messages@[k].offset + MESSAGE_HEADER_SIZE + self.messages@[k].payload@.len()
    }

    /// Byte `i` of the buffer once the header and the first `n` messages
    /// are written into zeroed memory.
    spec fn image_byte(&self, n: int, i: int) -> u8 {
        if i < CHANNEL_HEADER_SIZE {
            self.header_image()[i]
        } else if exists|k: int| 0 <= k < n && #[trigger] self.in_message(k, i) {
            let k = choose|k: int| 0 <= k < n && #[trigger] self.in_message(k, i);
            message_image(self.messages@, k)[i - self.messages@[k].offset]
        } else {
            0
        }
    }

    /// The bytes of the buffer: its header, each message at its offset,
    /// and zeros everywhere else.
    pub closed spec fn image(&self) -> Seq<u8> {
        Seq::new(self.capacity as nat, |i: int| self.image_byte(self.messages@.len() as int, i))
    }

    /// No byte belongs to two messages, nor to the header and a message.
    proof fn lemma_regions_disjoint(&self, a: int, b: int, i: int)
        requires
            self.wf(),
            0 <= a < self.messages@.len(),
            0 <= b < self.messages@.len(),
            self.in_message(a, i),
            self.in_message(b, i),
        ensures
            a == b,
            i >= CHANNEL_HEADER_SIZE,
            i < self.capacity,
    {
        assert(self.message_ok(a));
        assert(self.message_ok(b));
        let m = self.messages@;
        if a < b {
            assert(m[a].message_length != 0 && m[a].offset + m[a].message_length <= m[b].offset);
        } else if b < a {
            assert(m[b].message_length != 0 && m[b].offset + m[b].message_length <= m[a].offset);
        }
    }
}

/// Writes `data` over the bytes of `buffer` from `position` on.
fn overwrite(buffer: &mut Vec<u8>, position: usize, data: &Vec<u8>)
    requires
        position + data@.len() <= old(buffer)@.len(),
    ensures
        final(buffer)@.len() == old(buffer)@.len(),
        forall|i: int| 0 <= i < old(buffer)@.len() ==> #[trigger] final(buffer)@[i] == (
            if position <= i < position + data@.len() { data@[i - position] } else { old(buffer)@[i] }),
{
    let length = buffer.len();
    let mut j: usize = 0;
    while j < data.len()
        invariant
            j <= data@.len(),
            position + data@.len() <= old(buffer)@.len(),
            length == old(buffer)@.len(),
            buffer@.len() == old(buffer)@.len(),
            forall|i: int| 0 <= i < old(buffer)@.len() ==> #[trigger] buffer@[i] == (
                if position <= i < position + j { data@[i - position] } else { old(buffer)@[i] }),
        decreases data@.len() - j,
    {
        buffer.set(position + j, data[j]);
        j += 1;
    }
}

/// Appends the little-endian bytes of a 16-bit value.
fn push_u16(buffer: &mut Vec<u8>, value: u16)
    ensures
        final(buffer)@ == old(buffer)@ + le_u16(value),
{
    buffer.push((value % 256) as u8);
    buffer.push((value / 256) as u8);
    proof {
        assert(buffer@ =~= old(buffer)@ + le_u16(value));
    }
}

impl ChannelMemory {
    /// The header bytes.
    fn header_bytes(&self) -> (bytes: Vec<u8>)
        requires
            self.wf(),
        ensures
            bytes@ == self.header_image(),
    {
        let mut bytes: Vec<u8> = Vec::new();
        push_u64(&mut bytes, self.channel_magic);
        push_u64(&mut bytes, self.first_message_offset as u64);
        push_u64(&mut bytes, self.last_message_offset as u64);
        push_u64(&mut bytes, self.number_of_messages as u64);
        let mut j: usize = 0;
        while j < self.protocol_name.len()
            invariant
                j <= self.protocol_name@.len(),
                bytes@ == le_u64(self.channel_magic) + le_u64(self.first_message_offset as u64)
                    + le_u64(self.last_message_offset as u64) + le_u64(self.number_of_messages as u64)
                    + self.protocol_name@.subrange(0, j as int),
            decreases self.protocol_name@.len() - j,
        {
            bytes.push(self.protocol_name[j]);
            j += 1;
            proof {
                assert(self.protocol_name@.subrange(0, j as int) =~= self.protocol_name@.subrange(0, j - 1).push(self.protocol_name@[j - 1]));
            }
        }
        proof {
            assert(self.protocol_name@.subrange(0, j as int) =~= self.protocol_name@);
        }
        push_u16(&mut bytes, self.protocol_version.major);
        push_u16(&mut bytes, self.protocol_version.minor);
        push_u16(&mut bytes, self.protocol_version.patch);
        push_u16(&mut bytes, self.protocol_version.preview_version);
        push_flag(&mut bytes, self.protocol_version.is_preview);
        push_flag(&mut bytes, self.is_writing);
        push_zeros(&mut bytes, 6);
        proof {
            assert(bytes@ =~= self.header_image());
        }
        bytes
    }

    /// The bytes of the `k`-th message.
    fn message_bytes(&self, k: usize) -> (bytes: Vec<u8>)
        requires
            self.wf(),
            k < self.messages@.len(),
        ensures
            bytes@ == message_image(self.messages@, k as int),
    {
        let n = self.messages.len();
        let m = &self.messages[k];
        let previous = if k == 0 { 0 } else { self.messages[k - 1].offset };
        let following = if k + 1 < n { self.messages[k + 1].offset } else { 0 };
        let mut bytes: Vec<u8> = Vec::new();
        push_u64(&mut bytes, MESSAGE_MAGIC);
        push_u64(&mut bytes, m.message_id);
        push_u64(&mut bytes, m.call_id);
        push_u64(&mut bytes, m.message_length as u64);
        push_u64(&mut bytes, previous as u64);
        push_u64(&mut bytes, following as u64);
        push_flag(&mut bytes, m.replace_pending);
        push_zeros(&mut bytes, 7);
        let mut j: usize = 0;
        let ghost start = bytes@;
        while j < m.payload.len()
            invariant
                j <= m.payload@.len(),
                bytes@ == start + m.payload@.subrange(0, j as int),
            decreases m.payload@.len() - j,
        {
            bytes.push(m.payload[j]);
            j += 1;
            proof {
                assert(m.payload@.subrange(0, j as int) =~= m.payload@.subrange(0, j - 1).push(m.payload@[j - 1]));
            }
        }
        proof {
            assert(m.payload@.subrange(0, j as int) =~= m.payload@);
            assert(bytes@ =~= message_image(self.messages@, k as int));
        }
        bytes
    }

    /// The bytes of the buffer, as `image` lays them out.
    pub fn to_bytes(&self) -> (bytes: Vec<u8>)
        requires
            self.wf(),
            self.capacity() >= CHANNEL_HEADER_SIZE,
        ensures
            bytes@ == self.image(),
            bytes@[CHANNEL_LOCK_OFFSET as int] == 0,
    {
        let mut bytes: Vec<u8> = Vec::new();
        push_zeros(&mut bytes, self.capacity);
        let header = self.header_bytes();
        proof {
            self.lemma_header_image_len();
        }
        overwrite(&mut bytes, 0, &header);
        let n = self.messages.len();
        let mut j: usize = 0;
        while j < n
            invariant
                self.wf(),
                n == self.messages@.len(),
                j <= n,
                bytes@.len() == self.capacity,
                forall|i: int| 0 <= i < self.capacity ==> #[trigger] bytes@[i] == self.image_byte(j as int, i),
            decreases n - j,
        {
            proof {
                assert(self.message_ok(j as int));
            }
            let part = self.message_bytes(j);
            let o = self.messages[j].offset;
            proof {
                lemma_message_header_image_len(self.messages@, j as int);
            }
            let ghost before = bytes@;
            overwrite(&mut bytes, o, &part);
            proof {
                assert forall|i: int| 0 <= i < self.capacity implies #[trigger] bytes@[i] == self.image_byte(j + 1, i) by {
                    if i >= CHANNEL_HEADER_SIZE {
                        if self.in_message(j as int, i) {
                            assert(exists|k: int| 0 <= k < j + 1 && #[trigger] self.in_message(k, i));
                            let k = choose|k: int| 0 <= k < j + 1 && #[trigger] self.in_message(k, i);
                            self.lemma_regions_disjoint(k, j as int, i);
                        } else {
                            if exists|k: int| 0 <= k < j + 1 && #[trigger] self.in_message(k, i) {
                                let k1 = choose|k: int| 0 <= k < j + 1 && #[trigger] self.in_message(k, i);
                                assert(k1 < j);
                                let k0 = choose|k: int| 0 <= k < j && #[trigger] self.in_message(k, i);
                                self.lemma_regions_disjoint(k0, k1, i);
                            } else {
                                assert(!exists|k: int| 0 <= k < j && #[trigger] self.in_message(k, i));
                            }
                        }
                    }
                }
            }
            j += 1;
        }
        proof {
            assert(bytes@ =~= self.image());
            assert(self.header_image()[CHANNEL_LOCK_OFFSET as int] == 0);
        }
        bytes
    }
}


/// The 64-bit value at `pos` of `b` is `v` when its eight bytes are those of `v`.
proof fn lemma_u64_in(b: Seq<u8>, p: int, v: u64)
    requires
        0 <= p,
        p + 8 <= b.len(),
        forall|j: int| 0 <= j < 8 ==> b[p + j] == #[trigger] le_u64(v)[j],
    ensures
        u64_at(b, p) == v,
{
    lemma_u64_roundtrip(v);
    assert(b.subrange(p, p + 8) =~= le_u64(v));
}

/// The 64-bit value at `o + p` of `b` is `v` when `b` holds `region` at
/// `o` and the region's bytes from `p` on are those of `v`.
proof fn lemma_u64_field(b: Seq<u8>, o: int, region: Seq<u8>, p: int, v: u64)
    requires
        0 <= o,
        0 <= p,
        p + 8 <= region.len(),
        o + region.len() <= b.len(),
        forall|j: int| 0 <= j < region.len() ==> b[o + j] == region[j],
        region.subrange(p, p + 8) == le_u64(v),
    ensures
        u64_at(b, o + p) == v,
{
    assert forall|j: int| 0 <= j < 8 implies b[o + p + j] == #[trigger] le_u64(v)[j] by {
        assert(b[o + (p + j)] == region[p + j]);
        assert(region.subrange(p, p + 8)[j] == region[p + j]);
    }
    lemma_u64_in(b, o + p, v);
}

/// Whether the bytes `b` hold the `k`-th message of `ms` at its offset:
/// the fields of its header, and its payload.
spec fn message_described(b: Seq<u8>, ms: Seq<StoredMessage>, k: int) -> bool {
    let o = ms[k].offset as int;
    &&& u64_at(b, o) == MESSAGE_MAGIC
    &&& u64_at(b, o + 8) == ms[k].message_id
    &&& u64_at(b, o + 16) == ms[k].call_id
    &&& u64_at(b, o + 24) == ms[k].message_length as u64
    &&& u64_at(b, o + 32) == previous_of(ms, k) as u64
    &&& u64_at(b, o + 40) == following_of(ms, k) as u64
    &&& flag_at(b, o + 48) == ms[k].replace_pending
    &&& b.subrange(o + MESSAGE_HEADER_SIZE, o + MESSAGE_HEADER_SIZE + ms[k].payload@.len()) == ms[k].payload@
}

impl ChannelMemory {
    /// Whether the bytes `b` describe this buffer: they are as many as its
    /// capacity, and every field of its header and of each queued message,
    /// and each payload, stands in them where `image` puts it (padding and
    /// the bytes between messages may hold anything).
    pub closed spec fn described_by(&self, b: Seq<u8>) -> bool {
        &&& b.len() == self.capacity
        &&& b.len() >= CHANNEL_HEADER_SIZE
        &&& u64_at(b, 0) == self.channel_magic
        &&& u64_at(b, 8) == self.first_message_offset as u64
        &&& u64_at(b, 16) == self.last_message_offset as u64
        &&& u64_at(b, 24) == self.number_of_messages as u64
        &&& b.subrange(32, 64) == self.protocol_name@
        &&& u16_at(b, 64) == self.protocol_version.major
        &&& u16_at(b, 66) == self.protocol_version.minor
        &&& u16_at(b, 68) == self.protocol_version.patch
        &&& u16_at(b, 70) == self.protocol_version.preview_version
        &&& flag_at(b, 72) == self.protocol_version.is_preview
        &&& flag_at(b, 73) == self.is_writing
        &&& forall|k: int| 0 <= k < self.messages@.len() ==> #[trigger] message_described(b, self.messages@, k)
    }

    /// The bytes of the `k`-th message stand at its offset in the image.
    proof fn lemma_image_message(&self, k: int)
        requires
            self.wf(),
            0 <= k < self.messages@.len(),
        ensures
            self.image().subrange(self.messages@[k].offset as int,
                self.messages@[k].offset + MESSAGE_HEADER_SIZE + self.messages@[k].payload@.len()) == message_image(self.messages@, k),
    {
        let b = self.image();
        let m = self.messages@[k];
        let o = m.offset as int;
        assert(self.message_ok(k));
        lemma_message_header_image_len(self.messages@, k);
        assert forall|i: int| o <= i < o + MESSAGE_HEADER_SIZE + m.payload@.len() implies
            b[i] == message_image(self.messages@, k)[i - o] by {
            assert(self.in_message(k, i));
            let k1 = choose|k1: int| 0 <= k1 < self.messages@.len() && #[trigger] self.in_message(k1, i);
            self.lemma_regions_disjoint(k1, k, i);
        }
        assert(b.subrange(o, o + MESSAGE_HEADER_SIZE + m.payload@.len()) =~= message_image(self.messages@, k));
    }

    /// The bytes that `to_bytes` writes describe the buffer, so that
    /// `from_bytes` reads them back as a buffer with the same view.
    pub proof fn law_bytes_describe_buffer(&self)
        requires
            self.wf(),
            self.capacity() >= CHANNEL_HEADER_SIZE,
        ensures
            self.described_by(self.image()),
    {
        let b = self.image();
        let h = self.header_image();
        self.lemma_header_image_len();
        assert forall|i: int| 0 <= i < CHANNEL_HEADER_SIZE implies b[i] == h[i] by {}
        lemma_u64_roundtrip(self.channel_magic);
        lemma_u64_roundtrip(self.first_message_offset as u64);
        lemma_u64_roundtrip(self.last_message_offset as u64);
        lemma_u64_roundtrip(self.number_of_messages as u64);
        lemma_u64_in(b, 0, self.channel_magic);
        lemma_u64_in(b, 8, self.first_message_offset as u64);
        lemma_u64_in(b, 16, self.last_message_offset as u64);
        lemma_u64_in(b, 24, self.number_of_messages as u64);
        assert(b.subrange(32, 64) =~= self.protocol_name@);
        assert forall|k: int| 0 <= k < self.messages@.len() implies #[trigger] message_described(b, self.messages@, k) by {
            self.lemma_image_message(k);
            let ms = self.messages@;
            let o = ms[k].offset as int;
            let mi = message_image(ms, k);
            lemma_message_header_image_len(ms, k);
            assert(self.message_ok(k));
            assert forall|j: int| 0 <= j < mi.len() implies b[o + j] == mi[j] by {
                assert(b.subrange(o, o + MESSAGE_HEADER_SIZE + ms[k].payload@.len())[j] == mi[j]);
            }
            lemma_u64_roundtrip(MESSAGE_MAGIC);
            lemma_u64_roundtrip(ms[k].message_id);
            lemma_u64_roundtrip(ms[k].call_id);
            lemma_u64_roundtrip(ms[k].message_length as u64);
            lemma_u64_roundtrip(previous_of(ms, k) as u64);
            lemma_u64_roundtrip(following_of(ms, k) as u64);
            let hdr = message_header_image(ms, k);
            assert(mi.subrange(0, 56) =~= hdr);
            assert(hdr.subrange(0, 8) =~= le_u64(MESSAGE_MAGIC));
            assert(hdr.subrange(8, 16) =~= le_u64(ms[k].message_id));
            assert(hdr.subrange(16, 24) =~= le_u64(ms[k].call_id));
            assert(hdr.subrange(24, 32) =~= le_u64(ms[k].message_length as u64));
            assert(hdr.subrange(32, 40) =~= le_u64(previous_of(ms, k) as u64));
            assert(hdr.subrange(40, 48) =~= le_u64(following_of(ms, k) as u64));
            assert forall|j: int| 0 <= j < hdr.len() implies b[o + j] == hdr[j] by {
                assert(mi.subrange(0, 56)[j] == mi[j]);
            }
            lemma_u64_field(b, o, hdr, 0, MESSAGE_MAGIC);
            lemma_u64_field(b, o, hdr, 8, ms[k].message_id);
            lemma_u64_field(b, o, hdr, 16, ms[k].call_id);
            lemma_u64_field(b, o, hdr, 24, ms[k].message_length as u64);
            lemma_u64_field(b, o, hdr, 32, previous_of(ms, k) as u64);
            lemma_u64_field(b, o, hdr, 40, following_of(ms, k) as u64);
            assert(b[o + 48] == mi[48]);
            assert(mi.subrange(56, mi.len() as int) =~= ms[k].payload@);
            assert(b.subrange(o + MESSAGE_HEADER_SIZE, o + MESSAGE_HEADER_SIZE + ms[k].payload@.len()) =~= ms[k].payload@) by {
                assert forall|j: int| 0 <= j < ms[k].payload@.len() implies
                    b[o + MESSAGE_HEADER_SIZE + j] == ms[k].payload@[j] by {
                    assert(b[o + 56 + j] == mi[56 + j]);
                    assert(mi.subrange(56, mi.len() as int)[j] == mi[56 + j]);
                }
            }
        }
    }
}


/// The 16-bit value at `position`.
fn read_u16(bytes: &[u8], position: usize) -> (value: u16)
    requires
        position + 2 <= bytes@.len(),
    ensures
        value == u16_at(bytes@, position as int),
{
    bytes[position] as u16 + 256 * (bytes[position + 1] as u16)
}

/// The bytes from `start` to `end`.
fn copy_range(bytes: &[u8], start: usize, end: usize) -> (part: Vec<u8>)
    requires
        start <= end <= bytes@.len(),
    ensures
        part@ == bytes@.subrange(start as int, end as int),
{
    let mut part: Vec<u8> = Vec::new();
    let mut j: usize = start;
    while j < end
        invariant
            start <= j <= end <= bytes@.len(),
            part@ == bytes@.subrange(start as int, j as int),
        decreases end - j,
    {
        part.push(bytes[j]);
        j += 1;
        proof {
            assert(bytes@.subrange(start as int, j as int) =~= bytes@.subrange(start as int, j - 1).push(bytes@[j - 1]));
        }
    }
    part
}

/// Whether two stored messages agree in every field.
spec fn same_stored(x: StoredMessage, y: StoredMessage) -> bool {
    &&& x.offset == y.offset
    &&& x.message_id == y.message_id
    &&& x.call_id == y.call_id
    &&& x.message_length == y.message_length
    &&& x.replace_pending == y.replace_pending
    &&& x.payload@ == y.payload@
}

/// The fields of the `k`-th message but the following offset stand in `b`.
spec fn message_fields_described(b: Seq<u8>, ms: Seq<StoredMessage>, k: int) -> bool {
    let o = ms[k].offset as int;
    &&& u64_at(b, o) == MESSAGE_MAGIC
    &&& u64_at(b, o + 8) == ms[k].message_id
    &&& u64_at(b, o + 16) == ms[k].call_id
    &&& u64_at(b, o + 24) == ms[k].message_length as u64
    &&& u64_at(b, o + 32) == previous_of(ms, k) as u64
    &&& flag_at(b, o + 48) == ms[k].replace_pending
    &&& b.subrange(o + MESSAGE_HEADER_SIZE, o + MESSAGE_HEADER_SIZE + ms[k].payload@.len()) == ms[k].payload@
}

/// The `k`-th message's link to the next one stands in `b`.
spec fn linked(b: Seq<u8>, ms: Seq<StoredMessage>, k: int) -> bool {
    u64_at(b, ms[k].offset + 40) == ms[k + 1].offset as u64
}

/// How far a walk through the queue of `m` has come: after `k` messages,
/// read as `got`, the walk stands at `offset`, having last read the message
/// at `previous`, which ended at `end`.
spec fn walk_follows(m: ChannelMemory, k: int, offset: usize, previous: usize, end: usize, got: Seq<StoredMessage>) -> bool {
    let ms = m.messages@;
    &&& k <= ms.len()
    &&& got.len() == k
    &&& forall|j: int| 0 <= j < k ==> #[trigger] same_stored(got[j], ms[j])
    &&& k < ms.len() ==> offset == ms[k].offset
    &&& previous == previous_of(ms, k)
    &&& k == 0 ==> end == CHANNEL_HEADER_SIZE
    &&& k > 0 ==> end == ms[k - 1].offset + ms[k - 1].message_length
}

/// What the bytes tell of the next message on a walk through the queue of
/// a buffer they describe.
proof fn lemma_walk_step(m: ChannelMemory, b: Seq<u8>, k: int, offset: usize, previous: usize, end: usize, got: Seq<StoredMessage>)
    requires
        m.wf(),
        m.described_by(b),
        walk_follows(m, k, offset, previous, end, got),
        k < m.messages@.len(),
    ensures
        end <= offset,
        offset + MESSAGE_HEADER_SIZE <= b.len(),
        u64_at(b, offset as int) == MESSAGE_MAGIC,
        u64_at(b, offset + 32) == previous as u64,
        u64_at(b, offset + 24) == 0 ==> k + 1 == m.messages@.len(),
        u64_at(b, offset + 24) != 0 ==> MESSAGE_HEADER_SIZE <= u64_at(b, offset + 24) && offset + u64_at(b, offset + 24) <= b.len(),
        k + 1 == m.messages@.len() ==> u64_at(b, offset + 40) == 0,
        u64_at(b, offset + 40) <= usize::MAX,
{
    let ms = m.messages@;
    assert(message_described(b, ms, k));
    assert(m.message_ok(k));
    if k > 0 {
        assert(m.message_ok(k - 1));
        assert(ms[k - 1].message_length != 0 && ms[k - 1].offset + ms[k - 1].message_length <= ms[k].offset);
    }
    if ms[k].message_length == 0 && k + 1 < ms.len() {
        assert(ms[k].message_length != 0 && ms[k].offset + ms[k].message_length <= ms[k + 1].offset);
    }
}

/// After reading the next message as `x`, the walk still follows the queue.
proof fn lemma_walk_next(m: ChannelMemory, b: Seq<u8>, k: int, offset: usize, previous: usize, end: usize, got: Seq<StoredMessage>, x: StoredMessage)
    requires
        m.wf(),
        m.described_by(b),
        walk_follows(m, k, offset, previous, end, got),
        k < m.messages@.len(),
        x.offset == offset,
        x.message_id == u64_at(b, offset + 8),
        x.call_id == u64_at(b, offset + 16),
        x.message_length as u64 == u64_at(b, offset + 24),
        x.replace_pending == flag_at(b, offset + 48),
        x.message_length == 0 ==> x.payload@.len() == 0,
        x.message_length != 0 ==> x.payload@ == b.subrange(offset + MESSAGE_HEADER_SIZE, offset + x.message_length),
    ensures
        walk_follows(m, k + 1, u64_at(b, offset + 40) as usize, offset, (offset + x.message_length) as usize, got.push(x)),
{
    let ms = m.messages@;
    assert(message_described(b, ms, k));
    assert(m.message_ok(k));
    if x.message_length == 0 {
        assert(x.payload@ =~= ms[k].payload@);
    }
    assert(same_stored(x, ms[k]));
    let next = got.push(x);
    assert forall|j: int| 0 <= j < k + 1 implies #[trigger] same_stored(next[j], ms[j]) by {
        if j < k {
            assert(next[j] == got[j]);
        }
    }
}

/// At the end of a walk through the queue of a buffer the bytes describe,
/// the header agrees with the walk.
proof fn lemma_walk_end(m: ChannelMemory, b: Seq<u8>, n: int, offset: usize, previous: usize, end: usize, got: Seq<StoredMessage>)
    requires
        m.wf(),
        m.described_by(b),
        walk_follows(m, n, offset, previous, end, got),
        n == m.messages@.len(),
    ensures
        n == 0 ==> u64_at(b, 8) == 0 && u64_at(b, 16) == 0 && !flag_at(b, 73),
        n > 0 ==> u64_at(b, 16) == previous as u64 && (flag_at(b, 73) == (got[n - 1].message_length == 0)),
        n > 0 ==> same_stored(got[n - 1], m.messages@[n - 1]),
{
    if n > 0 {
        assert(same_stored(got[n - 1], m.messages@[n - 1]));
    }
}

impl ChannelMemory {
    /// Whether two buffers agree in what can be known of them.
    pub open spec fn same_view(&self, other: &ChannelMemory) -> bool {
        &&& self.capacity() == other.capacity()
        &&& self.messages() == other.messages()
        &&& self.writing() == other.writing()
        &&& self.compatible() == other.compatible()
    }

    /// Reads a buffer from its bytes: the header, then the queue from the
    /// first message's offset on, following each message's link to the
    /// next. `None` when the bytes describe no well-formed buffer; when
    /// they describe one, the answer agrees with it.
    pub fn from_bytes(bytes: &[u8]) -> (memory: Option<ChannelMemory>)
        ensures
            memory matches Some(m) ==> m.wf() && m.described_by(bytes@),
            forall|m: ChannelMemory| m.wf() && #[trigger] m.described_by(bytes@) ==>
                (memory matches Some(r) && r.same_view(&m)),
    {
        let len = bytes.len();
        if len < CHANNEL_HEADER_SIZE {
            return None;
        }
        let channel_magic = read_u64(bytes, 0).unwrap();
        let first = read_u64(bytes, 8).unwrap();
        let last = read_u64(bytes, 16).unwrap();
        let number = read_u64(bytes, 24).unwrap();
        if first > usize::MAX as u64 || last > usize::MAX as u64 || number > usize::MAX as u64 {
            return None;
        }
        let protocol_name = copy_range(bytes, 32, 64);
        let protocol_version = ProtocolVersion {
            major: read_u16(bytes, 64),
            minor: read_u16(bytes, 66),
            patch: read_u16(bytes, 68),
            is_preview: bytes[72] != 0,
            preview_version: read_u16(bytes, 70),
        };
        let is_writing = bytes[73] != 0;
        let n = number as usize;
        let ghost b = bytes@;
        let mut messages: Vec<StoredMessage> = Vec::new();
        let mut offset: usize = first as usize;
        let mut previous: usize = 0;
        let mut end: usize = CHANNEL_HEADER_SIZE;
        let mut k: usize = 0;
        while k < n
            invariant
                b == bytes@,
                len == b.len(),
                len >= CHANNEL_HEADER_SIZE,
                n == number,
                u64_at(b, 8) == first,
                u64_at(b, 24) == number,
                k <= n,
                messages@.len() == k,
                end >= CHANNEL_HEADER_SIZE,
                k == 0 ==> offset == first && previous == 0 && end == CHANNEL_HEADER_SIZE,
                k > 0 ==> messages@[0].offset == first,
                k > 0 ==> previous == messages@[k - 1].offset,
                k > 0 ==> end == messages@[k - 1].offset + messages@[k - 1].message_length,
                k > 0 ==> u64_at(b, messages@[k - 1].offset + 40) == offset as u64,
                k == n && k > 0 ==> offset == 0,
                k > 0 && k < n ==> messages@[k - 1].message_length != 0,
                forall|j: int| 0 <= j < k ==> #[trigger] stored_ok(messages@[j], len),
                forall|j: int| 0 <= j < k ==> messages@[j].offset + messages@[j].message_length <= end,
                gap_ordered(messages@),
                forall|j: int| 0 <= j < k ==> #[trigger] message_fields_described(b, messages@, j),
                forall|j: int| 0 <= j < k - 1 ==> #[trigger] linked(b, messages@, j),
                forall|m: ChannelMemory| m.wf() && #[trigger] m.described_by(b) ==>
                    walk_follows(m, k as int, offset, previous, end, messages@),
            decreases n - k,
        {
            proof {
                assert forall|m: ChannelMemory| m.wf() && #[trigger] m.described_by(b) implies {
                    let o = offset as int;
                    &&& end <= offset
                    &&& o + MESSAGE_HEADER_SIZE <= b.len()
                    &&& u64_at(b, o) == MESSAGE_MAGIC
                    &&& u64_at(b, o + 32) == previous as u64
                    &&& u64_at(b, o + 24) == 0 ==> k + 1 == n
                    &&& u64_at(b, o + 24) != 0 ==> MESSAGE_HEADER_SIZE <= u64_at(b, o + 24) && o + u64_at(b, o + 24) <= b.len()
                    &&& k + 1 == n ==> u64_at(b, o + 40) == 0
                    &&& u64_at(b, o + 40) <= usize::MAX
                } by {
                    lemma_walk_step(m, b, k as int, offset, previous, end, messages@);
                }
            }
            if offset < end || offset > len || len - offset < MESSAGE_HEADER_SIZE {
                return None;
            }
            let message_magic = read_u64(bytes, offset).unwrap();
            let message_id = read_u64(bytes, offset + 8).unwrap();
            let call_id = read_u64(bytes, offset + 16).unwrap();
            let length = read_u64(bytes, offset + 24).unwrap();
            let previous_field = read_u64(bytes, offset + 32).unwrap();
            let next_field = read_u64(bytes, offset + 40).unwrap();
            let replace_pending = bytes[offset + 48] != 0;
            if message_magic != MESSAGE_MAGIC || previous_field != previous as u64 || next_field > usize::MAX as u64 {
                return None;
            }
            let payload = if length == 0 {
                if k + 1 != n {
                    return None;
                }
                Vec::new()
            } else {
                if length < MESSAGE_HEADER_SIZE as u64 || length > (len - offset) as u64 {
                    return None;
                }
                copy_range(bytes, offset + MESSAGE_HEADER_SIZE, offset + length as usize)
            };
            if k + 1 == n && next_field != 0 {
                return None;
            }
            let stored = StoredMessage {
                offset,
                message_id,
                call_id,
                message_length: length as usize,
                replace_pending,
                payload,
            };
            let ghost before = messages@;
            proof {
                assert forall|m: ChannelMemory| m.wf() && #[trigger] m.described_by(b) implies
                    walk_follows(m, k + 1, next_field as usize, offset, (offset + length as usize) as usize, before.push(stored)) by {
                    lemma_walk_next(m, b, k as int, offset, previous, end, before, stored);
                }
                if k > 0 {
                    assert(linked(b, before.push(stored), k - 1));
                }
                assert(stored_ok(stored, len));
                assert forall|j: int| 0 <= j < k implies before[j].message_length != 0 by {
                    if j < k - 1 {
                        assert(before[j].message_length != 0 && before[j].offset + before[j].message_length <= before[k - 1].offset);
                    }
                }
                assert(gap_ordered(before.push(stored))) by {
                    assert forall|a: int, c: int| 0 <= a < c < k + 1 implies
                        (#[trigger] before.push(stored)[a]).message_length != 0
                        && before.push(stored)[a].offset + before.push(stored)[a].message_length <= (#[trigger] before.push(stored)[c]).offset by {
                        if c < k {
                            assert(before.push(stored)[a] == before[a]);
                            assert(before.push(stored)[c] == before[c]);
                        }
                    }
                }
            }
            messages.push(stored);
            proof {
                assert(messages@ == before.push(stored));
                assert forall|j: int| 0 <= j < k implies #[trigger] linked(b, messages@, j) by {
                    if j < k - 1 {
                        assert(linked(b, before, j));
                    }
                }
                assert forall|j: int| 0 <= j < k + 1 implies #[trigger] message_fields_described(b, messages@, j) by {
                    if j < k {
                        assert(message_fields_described(b, before, j));
                        assert(messages@[j] == before[j]);
                    } else {
                        assert(b.subrange(offset + MESSAGE_HEADER_SIZE, offset + MESSAGE_HEADER_SIZE + stored.payload@.len()) =~= stored.payload@);
                    }
                }
            }
            previous = offset;
            end = offset + length as usize;
            offset = next_field as usize;
            k += 1;
        }
        proof {
            assert forall|m: ChannelMemory| m.wf() && #[trigger] m.described_by(b) implies
                (n == 0 ==> first == 0 && last == 0 && !is_writing)
                && (n > 0 ==> last == previous as u64 && (is_writing == (messages@[n - 1].message_length == 0))) by {
                lemma_walk_end(m, b, n as int, offset, previous, end, messages@);
            }
        }
        if n == 0 {
            if first != 0 || last != 0 || is_writing {
                return None;
            }
        } else {
            if last != previous as u64 || is_writing != (messages[n - 1].message_length == 0) {
                return None;
            }
        }
        let memory = ChannelMemory {
            capacity: len,
            channel_magic,
            protocol_name,
            protocol_version,
            first_message_offset: first as usize,
            last_message_offset: last as usize,
            number_of_messages: n,
            is_writing,
            messages,
        };
        proof {
            assert(protocol_name@.len() == 32);
            assert forall|j: int| 0 <= j < n implies #[trigger] memory.message_ok(j) by {
                assert(stored_ok(memory.messages@[j], len));
            }
            assert forall|j: int| 0 <= j < n implies #[trigger] message_described(b, memory.messages@, j) by {
                assert(message_fields_described(b, memory.messages@, j));
                if j < n - 1 {
                    assert(linked(b, memory.messages@, j));
                }
            }
            assert forall|m: ChannelMemory| m.wf() && #[trigger] m.described_by(b) implies memory.same_view(&m) by {
                assert forall|j: int| 0 <= j < n implies #[trigger] same_stored(memory.messages@[j], m.messages@[j]) by {
                    assert(walk_follows(m, n as int, offset, previous, end, memory.messages@));
                }
                assert(m.messages@.len() == n);
                assert forall|j: int| 0 <= j < n implies memory.messages()[j] == m.messages()[j] by {
                    assert(same_stored(memory.messages@[j], m.messages@[j]));
                }
                assert(memory.messages() =~= m.messages());
                assert(memory.protocol_name@.subrange(0, 8) =~= m.protocol_name@.subrange(0, 8));
            }
        }
        Some(memory)
    }
}

} // verus!
