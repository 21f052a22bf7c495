//! Encoding of kernel calls and decoding of the kernel's replies. A call is
//! a request of bytes that the process writes to its kernel connection; the
//! reply starts with a 32-bit result code, followed, on success, by the
//! values that the call returns. Integers travel in little-endian order.

use vstd::prelude::*;
use crate::wire::{
    flag_byte, i32_at, le_i32, le_u32, le_u64, push_flag, push_i32, push_u32, push_u64, push_utf8,
    read_i32, read_u64, u32_at, u64_at, utf8, lemma_u32_roundtrip,
};
use crate::chaos::error::{error_code, error_from_code, StormError};
use crate::chaos::event::{action_code, lemma_action_code_injective, StormAction};

verus! {

/// Numbers that identify the kernel calls.
#[derive(Clone, Copy, PartialEq, Eq, Structural, Debug)]
pub enum SyscallNumber {
    ServiceCreate,
    ServiceDestroy,
    ServiceConnect,
    ChannelDestroy,
    ChannelMessage,
    EventWait,
    ProcessCreate,
    ProcessDestroy,
    ProcessSetInfo,
    ProcessEmit,
    ThreadCreate,
    ThreadDestroy,
}

/// The number of a kernel call.
pub open spec fn syscall_code(number: SyscallNumber) -> i32 {
    match number {
        SyscallNumber::ServiceCreate => 10,
        SyscallNumber::ServiceDestroy => 11,
        SyscallNumber::ServiceConnect => 12,
        SyscallNumber::ChannelDestroy => 21,
        SyscallNumber::ChannelMessage => 22,
        SyscallNumber::EventWait => 30,
        SyscallNumber::ProcessCreate => 40,
        SyscallNumber::ProcessDestroy => 41,
        SyscallNumber::ProcessSetInfo => 42,
        SyscallNumber::ProcessEmit => 43,
        SyscallNumber::ThreadCreate => 50,
        SyscallNumber::ThreadDestroy => 51,
    }
}

impl SyscallNumber {
    /// The number of a kernel call.
    pub fn to_i32(&self) -> (code: i32)
        ensures
            code == syscall_code(*self),
    {
        match self {
            SyscallNumber::ServiceCreate => 10,
            SyscallNumber::ServiceDestroy => 11,
            SyscallNumber::ServiceConnect => 12,
            SyscallNumber::ChannelDestroy => 21,
            SyscallNumber::ChannelMessage => 22,
            SyscallNumber::EventWait => 30,
            SyscallNumber::ProcessCreate => 40,
            SyscallNumber::ProcessDestroy => 41,
            SyscallNumber::ProcessSetInfo => 42,
            SyscallNumber::ProcessEmit => 43,
            SyscallNumber::ThreadCreate => 50,
            SyscallNumber::ThreadDestroy => 51,
        }
    }
}

/// The kind of a diagnostic message that a process emits.
#[derive(Clone, Copy, PartialEq, Eq, Structural, Debug)]
pub enum EmitType {
    Error,
    Warning,
    Information,
    Debug,
}

/// The code of a diagnostic kind: `Error` 1, `Warning` 2, `Information` 3, `Debug` 4.
pub open spec fn emit_code(emit_type: EmitType) -> i32 {
    match emit_type {
        EmitType::Error => 1,
        EmitType::Warning => 2,
        EmitType::Information => 3,
        EmitType::Debug => 4,
    }
}

impl EmitType {
    /// The code of a diagnostic kind.
    pub fn to_i32(&self) -> (code: i32)
        ensures
            code == emit_code(*self),
    {
        match self {
            EmitType::Error => 1,
            EmitType::Warning => 2,
            EmitType::Information => 3,
            EmitType::Debug => 4,
        }
    }
}

/// An optional 32-bit value: a flag, then the value if present.
pub open spec fn optional_i32_bytes(value: Option<i32>) -> Seq<u8> {
    match value {
        Some(v) => seq![1u8] + le_i32(v),
        None => seq![0u8],
    }
}

/// An optional 64-bit value: a flag, then the value if present.
pub open spec fn optional_u64_bytes(value: Option<u64>) -> Seq<u8> {
    match value {
        Some(v) => seq![1u8] + le_u64(v),
        None => seq![0u8],
    }
}

/// An optional text: a flag, then, if present, its UTF-8 length as a 32-bit
/// value (only the low 32 bits of the length are kept) and its UTF-8 bytes.
pub open spec fn optional_text_bytes(text: Option<Seq<char>>) -> Seq<u8> {
    match text {
        Some(t) => seq![1u8] + le_u32((utf8(t).len() as usize) as u32) + utf8(t),
        None => seq![0u8],
    }
}

/// An optional 16-byte identifier: a flag, then the identifier's bytes.
pub open spec fn optional_uuid_bytes(id: Option<Seq<u8>>) -> Seq<u8> {
    match id {
        Some(b) => seq![1u8] + b,
        None => seq![0u8],
    }
}

/// The view of an optional text.
pub open spec fn text_view(text: Option<&str>) -> Option<Seq<char>> {
    match text {
        Some(t) => Some(t@),
        None => None,
    }
}

/// The view of an optional identifier.
pub open spec fn uuid_view(id: Option<[u8; 16]>) -> Option<Seq<u8>> {
    match id {
        Some(b) => Some(b@),
        None => None,
    }
}

fn write_i32(buffer: &mut Vec<u8>, value: i32)
    ensures
        final(buffer)@ == old(buffer)@ + le_i32(value),
{
    push_i32(buffer, value);
}

fn write_optional_i32(buffer: &mut Vec<u8>, value: Option<i32>)
    ensures
        final(buffer)@ == old(buffer)@ + optional_i32_bytes(value),
{
    if let Some(value) = value {
        write_bool(buffer, true);
        write_i32(buffer, value);
    } else {
        write_bool(buffer, false);
    }
    proof { assert(buffer@ =~= old(buffer)@ + optional_i32_bytes(value)); }
}

fn write_u32(buffer: &mut Vec<u8>, value: u32)
    ensures
        final(buffer)@ == old(buffer)@ + le_u32(value),
{
    push_u32(buffer, value);
}

fn write_u64(buffer: &mut Vec<u8>, value: u64)
    ensures
        final(buffer)@ == old(buffer)@ + le_u64(value),
{
    push_u64(buffer, value);
}

fn write_optional_u64(buffer: &mut Vec<u8>, value: Option<u64>)
    ensures
        final(buffer)@ == old(buffer)@ + optional_u64_bytes(value),
{
    if let Some(value) = value {
        write_bool(buffer, true);
        write_u64(buffer, value);
    } else {
        write_bool(buffer, false);
    }
    proof { assert(buffer@ =~= old(buffer)@ + optional_u64_bytes(value)); }
}

fn write_bool(buffer: &mut Vec<u8>, value: bool)
    ensures
        final(buffer)@ == old(buffer)@.push(flag_byte(value)),
{
    push_flag(buffer, value);
}

fn write_text(buffer: &mut Vec<u8>, text: Option<&str>)
    ensures
        final(buffer)@ == old(buffer)@ + optional_text_bytes(text_view(text)),
{
    match text {
        Some(value) => {
            write_bool(buffer, true);
            let length = value.len();
            #[verifier::truncate]
            let short_length = length as u32;
            write_u32(buffer, short_length);
            push_utf8(buffer, value);
            proof { assert(buffer@ =~= old(buffer)@ + optional_text_bytes(text_view(text))); }
        },
        None => {
            write_bool(buffer, false);
            proof { assert(buffer@ =~= old(buffer)@ + optional_text_bytes(text_view(text))); }
        },
    }
}

fn write_uuid(buffer: &mut Vec<u8>, id: Option<[u8; 16]>)
    ensures
        final(buffer)@ == old(buffer)@ + optional_uuid_bytes(uuid_view(id)),
{
    match id {
        Some(bytes) => {
            write_bool(buffer, true);
            let mut i: usize = 0;
            while i < 16
                invariant
                    i <= 16,
                    buffer@ =~= old(buffer)@.push(1u8) + bytes@.subrange(0, i as int),
                decreases 16 - i,
            {
                buffer.push(bytes[i]);
                i += 1;
            }
            proof { assert(buffer@ =~= old(buffer)@ + optional_uuid_bytes(uuid_view(id))); }
        },
        None => {
            write_bool(buffer, false);
            proof { assert(buffer@ =~= old(buffer)@ + optional_uuid_bytes(uuid_view(id))); }
        },
    }
}

/// The request that creates a service.
pub open spec fn service_create_request(protocol_name: Seq<char>, vendor_name: Seq<char>, device_name: Seq<char>, device_id: Seq<u8>) -> Seq<u8> {
    le_i32(10) + optional_text_bytes(Some(protocol_name)) + optional_text_bytes(Some(vendor_name))
        + optional_text_bytes(Some(device_name)) + optional_uuid_bytes(Some(device_id))
}

/// The request that creates a service for `protocol_name`, offered by
/// `vendor_name` under `device_name` and `device_id`. The reply is a handle reply.
pub fn service_create(protocol_name: &str, vendor_name: &str, device_name: &str, device_id: [u8; 16]) -> (request: Vec<u8>)
    ensures
        request@ == service_create_request(protocol_name@, vendor_name@, device_name@, device_id@),
{
    let mut request = Vec::new();
    write_i32(&mut request, SyscallNumber::ServiceCreate.to_i32());
    write_text(&mut request, Some(protocol_name));
    write_text(&mut request, Some(vendor_name));
    write_text(&mut request, Some(device_name));
    write_uuid(&mut request, Some(device_id));
    proof { assert(request@ =~= service_create_request(protocol_name@, vendor_name@, device_name@, device_id@)); }
    request
}

/// The request that destroys a service.
pub open spec fn service_destroy_request(handle: u64) -> Seq<u8> {
    le_i32(11) + le_u64(handle)
}

/// The request that destroys the service `handle`. The reply is a status reply.
pub fn service_destroy(handle: u64) -> (request: Vec<u8>)
    ensures
        request@ == service_destroy_request(handle),
{
    let mut request = Vec::new();
    write_i32(&mut request, SyscallNumber::ServiceDestroy.to_i32());
    write_u64(&mut request, handle);
    proof { assert(request@ =~= service_destroy_request(handle)); }
    request
}

/// The request that connects to a service.
pub open spec fn service_connect_request(protocol_name: Seq<char>, vendor_name: Option<Seq<char>>, device_name: Option<Seq<char>>, device_id: Option<Seq<u8>>) -> Seq<u8> {
    le_i32(12) + optional_text_bytes(Some(protocol_name)) + optional_text_bytes(vendor_name)
        + optional_text_bytes(device_name) + optional_uuid_bytes(device_id)
}

/// The request that connects to a service for `protocol_name`, narrowed by
/// the optional vendor, device name and device id. The reply is a handle
/// reply carrying the new channel.
pub fn service_connect(protocol_name: &str, vendor_name: Option<&str>, device_name: Option<&str>, device_id: Option<[u8; 16]>) -> (request: Vec<u8>)
    ensures
        request@ == service_connect_request(protocol_name@, text_view(vendor_name), text_view(device_name), uuid_view(device_id)),
{
    let mut request = Vec::new();
    write_i32(&mut request, SyscallNumber::ServiceConnect.to_i32());
    write_text(&mut request, Some(protocol_name));
    write_text(&mut request, vendor_name);
    write_text(&mut request, device_name);
    write_uuid(&mut request, device_id);
    proof { assert(request@ =~= service_connect_request(protocol_name@, text_view(vendor_name), text_view(device_name), uuid_view(device_id))); }
    request
}

/// Whether the bytes at `at` hold an optional text as the kernel reads it:
/// a flag byte (0 when absent, 1 when present), then, when present, the
/// 32-bit length of the text's UTF-8 bytes and those bytes.
pub open spec fn text_field_at(bytes: Seq<u8>, at: int, text: Option<Seq<char>>) -> bool {
    &&& 0 <= at < bytes.len()
    &&& match text {
        None => bytes[at] == 0,
        Some(t) => {
            &&& bytes[at] == 1
            &&& at + 5 + utf8(t).len() <= bytes.len()
            &&& u32_at(bytes, at + 1) == (utf8(t).len() as usize) as u32
            &&& bytes.subrange(at + 5, at + 5 + utf8(t).len()) == utf8(t)
        },
    }
}

/// The number of bytes an optional text field takes.
pub open spec fn text_field_len(text: Option<Seq<char>>) -> int {
    match text {
        None => 1int,
        Some(t) => 5 + utf8(t).len() as int,
    }
}

/// An optional text field written after `prefix` is read back at the end
/// of `prefix`, whatever follows it.
proof fn lemma_text_field(prefix: Seq<u8>, text: Option<Seq<char>>, rest: Seq<u8>)
    ensures
        optional_text_bytes(text).len() == text_field_len(text),
        text_field_at(prefix + optional_text_bytes(text) + rest, prefix.len() as int, text),
{
    let all = prefix + optional_text_bytes(text) + rest;
    let at = prefix.len() as int;
    match text {
        None => {
            assert(all[at] == 0);
        },
        Some(t) => {
            let n = (utf8(t).len() as usize) as u32;
            lemma_u32_roundtrip(n);
            let field = optional_text_bytes(text);
            assert(field == seq![1u8] + le_u32(n) + utf8(t));
            assert(all[at] == field[0]);
            assert(all.subrange(at + 1, at + 5) =~= le_u32(n));
            assert(all.subrange(at + 5, at + 5 + utf8(t).len()) =~= utf8(t));
        },
    }
}

/// A connect request holds, in this order: the call number 12, the
/// protocol name, the optional vendor name, the optional device name, and
/// the optional device id (a flag byte, then its 16 bytes when present),
/// each field right after the one before, and nothing after the id.
pub proof fn law_connect_request_fields(protocol_name: Seq<char>, vendor_name: Option<Seq<char>>, device_name: Option<Seq<char>>, device_id: Option<Seq<u8>>)
    ensures
        ({
            let r = service_connect_request(protocol_name, vendor_name, device_name, device_id);
            let at_vendor = 4 + text_field_len(Some(protocol_name));
            let at_device = at_vendor + text_field_len(vendor_name);
            let at_id = at_device + text_field_len(device_name);
            &&& i32_at(r, 0) == 12
            &&& text_field_at(r, 4, Some(protocol_name))
            &&& text_field_at(r, at_vendor, vendor_name)
            &&& text_field_at(r, at_device, device_name)
            &&& at_id < r.len()
            &&& match device_id {
                None => r[at_id] == 0 && r.len() == at_id + 1,
                Some(b) => r[at_id] == 1 && r.subrange(at_id + 1, r.len() as int) == b && r.len() == at_id + 1 + b.len(),
            }
        }),
{
    let code = le_i32(12);
    let p = optional_text_bytes(Some(protocol_name));
    let v = optional_text_bytes(vendor_name);
    let d = optional_text_bytes(device_name);
    let i = optional_uuid_bytes(device_id);
    let r = service_connect_request(protocol_name, vendor_name, device_name, device_id);
    lemma_u32_roundtrip(12u32);
    assert(code == le_u32(12u32));
    assert(r == code + p + v + d + i);
    assert(r.subrange(0, 4) =~= code);
    lemma_text_field(code, Some(protocol_name), v + d + i);
    assert(code + p + (v + d + i) =~= r);
    lemma_text_field(code + p, vendor_name, d + i);
    assert(code + p + v + (d + i) =~= r);
    lemma_text_field(code + p + v, device_name, i);
    let at_id = (code + p + v + d).len() as int;
    match device_id {
        None => {
            assert(r[at_id] == i[0]);
        },
        Some(b) => {
            assert(r[at_id] == i[0]);
            assert(r.subrange(at_id + 1, r.len() as int) =~= b);
        },
    }
}

/// A create request holds, in this order: the call number 10, the
/// protocol name, the vendor name, the device name (each as a present text
/// field), and the device id (a flag byte 1, then its bytes), each field
/// right after the one before, and nothing after the id.
pub proof fn law_create_request_fields(protocol_name: Seq<char>, vendor_name: Seq<char>, device_name: Seq<char>, device_id: Seq<u8>)
    ensures
        ({
            let r = service_create_request(protocol_name, vendor_name, device_name, device_id);
            let at_vendor = 4 + text_field_len(Some(protocol_name));
            let at_device = at_vendor + text_field_len(Some(vendor_name));
            let at_id = at_device + text_field_len(Some(device_name));
            &&& i32_at(r, 0) == 10
            &&& text_field_at(r, 4, Some(protocol_name))
            &&& text_field_at(r, at_vendor, Some(vendor_name))
            &&& text_field_at(r, at_device, Some(device_name))
            &&& at_id < r.len()
            &&& r[at_id] == 1
            &&& r.subrange(at_id + 1, r.len() as int) == device_id
            &&& r.len() == at_id + 1 + device_id.len()
        }),
{
    let code = le_i32(10);
    let p = optional_text_bytes(Some(protocol_name));
    let v = optional_text_bytes(Some(vendor_name));
    let d = optional_text_bytes(Some(device_name));
    let i = optional_uuid_bytes(Some(device_id));
    let r = service_create_request(protocol_name, vendor_name, device_name, device_id);
    lemma_u32_roundtrip(10u32);
    assert(code == le_u32(10u32));
    assert(r == code + p + v + d + i);
    assert(r.subrange(0, 4) =~= code);
    lemma_text_field(code, Some(protocol_name), v + d + i);
    assert(code + p + (v + d + i) =~= r);
    lemma_text_field(code + p, Some(vendor_name), d + i);
    assert(code + p + v + (d + i) =~= r);
    lemma_text_field(code + p + v, Some(device_name), i);
    let at_id = (code + p + v + d).len() as int;
    assert(r[at_id] == i[0]);
    assert(r.subrange(at_id + 1, r.len() as int) =~= device_id);
}

/// The request that destroys a channel.
pub open spec fn channel_destroy_request(handle: u64) -> Seq<u8> {
    le_i32(21) + le_u64(handle)
}

/// The request that destroys the channel `channel_handle`. The reply is a status reply.
pub fn channel_destroy(channel_handle: u64) -> (request: Vec<u8>)
    ensures
        request@ == channel_destroy_request(channel_handle),
{
    let mut request = Vec::new();
    write_i32(&mut request, SyscallNumber::ChannelDestroy.to_i32());
    write_u64(&mut request, channel_handle);
    proof { assert(request@ =~= channel_destroy_request(channel_handle)); }
    request
}

/// The request that signals a message on a channel.
pub open spec fn channel_message_request(handle: u64, message: u64) -> Seq<u8> {
    le_i32(22) + le_u64(handle) + le_u64(message)
}

/// The request that signals `message` on the channel `handle`. The reply is a status reply.
pub fn channel_message(handle: u64, message: u64) -> (request: Vec<u8>)
    ensures
        request@ == channel_message_request(handle, message),
{
    let mut request = Vec::new();
    write_i32(&mut request, SyscallNumber::ChannelMessage.to_i32());
    write_u64(&mut request, handle);
    write_u64(&mut request, message);
    proof { assert(request@ =~= channel_message_request(handle, message)); }
    request
}

/// The view of an optional event kind as its code.
pub open spec fn action_view(action: Option<StormAction>) -> Option<i32> {
    match action {
        Some(a) => Some(action_code(a)),
        None => None,
    }
}

/// The request that waits for an event.
pub open spec fn event_wait_request(handle: Option<u64>, action: Option<i32>, message: Option<u64>, timeout_milliseconds: i32) -> Seq<u8> {
    le_i32(30) + optional_u64_bytes(handle) + optional_i32_bytes(action) + optional_u64_bytes(message)
        + le_i32(timeout_milliseconds)
}

/// The request that waits up to `timeout_milliseconds` (negative: without
/// limit) for an event, narrowed by the optional handle, event kind and
/// message. The reply is an event reply.
pub fn event_wait(handle: Option<u64>, action: Option<StormAction>, message: Option<u64>, timeout_milliseconds: i32) -> (request: Vec<u8>)
    ensures
        request@ == event_wait_request(handle, action_view(action), message, timeout_milliseconds),
{
    let send_action = match action {
        Some(action) => Some(action.to_i32()),
        None => None,
    };
    let mut request = Vec::new();
    write_i32(&mut request, SyscallNumber::EventWait.to_i32());
    write_optional_u64(&mut request, handle);
    write_optional_i32(&mut request, send_action);
    write_optional_u64(&mut request, message);
    write_i32(&mut request, timeout_milliseconds);
    proof { assert(request@ =~= event_wait_request(handle, action_view(action), message, timeout_milliseconds)); }
    request
}

/// The request that ends the calling process. The reply is a status reply.
pub fn process_destroy() -> (request: Vec<u8>)
    ensures
        request@ == le_i32(41),
{
    let mut request = Vec::new();
    write_i32(&mut request, SyscallNumber::ProcessDestroy.to_i32());
    request
}

/// The request that names the calling process.
pub open spec fn process_set_info_request(process_name: Seq<char>) -> Seq<u8> {
    le_i32(42) + optional_text_bytes(Some(process_name))
}

/// The request that sets the name of the calling process. The reply is a status reply.
pub fn process_set_info(process_name: &str) -> (request: Vec<u8>)
    ensures
        request@ == process_set_info_request(process_name@),
{
    let mut request = Vec::new();
    write_i32(&mut request, SyscallNumber::ProcessSetInfo.to_i32());
    write_text(&mut request, Some(process_name));
    proof { assert(request@ =~= process_set_info_request(process_name@)); }
    request
}

/// The request that emits a diagnostic message.
pub open spec fn process_emit_request(emit_type: EmitType, error: StormError, text: Option<Seq<char>>) -> Seq<u8> {
    le_i32(43) + le_i32(emit_code(emit_type)) + le_i32(error_code(error)) + optional_text_bytes(text)
}

/// The request that emits a diagnostic message of kind `emit_type` about
/// `error` with an optional text. The reply is a status reply.
pub fn process_emit(emit_type: EmitType, error: StormError, text: Option<&str>) -> (request: Vec<u8>)
    ensures
        request@ == process_emit_request(emit_type, error, text_view(text)),
{
    let mut request = Vec::new();
    write_i32(&mut request, SyscallNumber::ProcessEmit.to_i32());
    write_i32(&mut request, emit_type.to_i32());
    write_i32(&mut request, StormError::to_i32(error));
    write_text(&mut request, text);
    proof { assert(request@ =~= process_emit_request(emit_type, error, text_view(text))); }
    request
}

/// Decodes a status reply: the result code in its first four bytes; `None`
/// if the reply is shorter.
pub fn decode_status_reply(reply: &[u8]) -> (status: Option<StormError>)
    ensures
        status == (if reply@.len() >= 4 { Some(error_from_code(i32_at(reply@, 0))) } else { None::<StormError> }),
{
    match read_i32(reply, 0) {
        Some(code) => Some(StormError::from_i32(code)),
        None => None,
    }
}

/// The meaning of a handle reply: on result `NoError`, the handle in the
/// eight bytes after the code; otherwise the error. `None` while the reply
/// is too short to tell.
pub open spec fn handle_reply(reply: Seq<u8>) -> Option<Result<u64, StormError>> {
    if reply.len() < 4 {
        None
    } else if error_from_code(i32_at(reply, 0)) != StormError::NoError {
        Some(Err(error_from_code(i32_at(reply, 0))))
    } else if reply.len() < 12 {
        None
    } else {
        Some(Ok(u64_at(reply, 4)))
    }
}

/// Decodes a handle reply (of `service_create` and `service_connect`).
pub fn decode_handle_reply(reply: &[u8]) -> (result: Option<Result<u64, StormError>>)
    ensures
        result == handle_reply(reply@),
{
    match decode_status_reply(reply) {
        None => None,
        Some(StormError::NoError) => match read_u64(reply, 4) {
            Some(handle) => Some(Ok(handle)),
            None => None,
        },
        Some(error) => Some(Err(error)),
    }
}

/// The meaning of an event reply: on result `NoError`, the target handle,
/// the argument handle, the event kind and the message that follow the code;
/// an event kind code that names no kind makes the reply a `General` error.
/// `None` while the reply is too short to tell.
pub open spec fn event_reply(reply: Seq<u8>) -> Option<Result<(u64, u64, StormAction, u64), StormError>> {
    if reply.len() < 4 {
        None
    } else if error_from_code(i32_at(reply, 0)) != StormError::NoError {
        Some(Err(error_from_code(i32_at(reply, 0))))
    } else if reply.len() < 32 {
        None
    } else if exists|a: StormAction| action_code(a) == i32_at(reply, 20) {
        let a = choose|a: StormAction| action_code(a) == i32_at(reply, 20);
        Some(Ok((u64_at(reply, 4), u64_at(reply, 12), a, u64_at(reply, 24))))
    } else {
        Some(Err(StormError::General))
    }
}

/// Decodes an event reply (of `event_wait`).
pub fn decode_event_reply(reply: &[u8]) -> (result: Option<Result<(u64, u64, StormAction, u64), StormError>>)
    ensures
        result == event_reply(reply@),
{
    match decode_status_reply(reply) {
        None => None,
        Some(StormError::NoError) => {
            if reply.len() < 32 {
                return None;
            }
            let target = read_u64(reply, 4).unwrap();
            let argument = read_u64(reply, 12).unwrap();
            let code = read_i32(reply, 20).unwrap();
            let message = read_u64(reply, 24).unwrap();
            match StormAction::from_i32(code) {
                Some(action) => {
                    proof {
                        let a = choose|a: StormAction| action_code(a) == i32_at(reply@, 20);
                        lemma_action_code_injective(a, action);
                    }
                    Some(Ok((target, argument, action, message)))
                },
                None => Some(Err(StormError::General)),
            }
        },
        Some(error) => Some(Err(error)),
    }
}

} // verus!
