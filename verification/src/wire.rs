//! Byte-level building blocks shared by the kernel-call encoding and the
//! protocol message format: little-endian integers, flags, and
//! length-prefixed UTF-8 text padded to a multiple of eight bytes.
//! Integers are little-endian: the byte order of the x86 machines the
//! system runs on, which the processes sharing a channel or a kernel
//! connection use natively.

use vstd::prelude::*;
use vstd::bytes::*;
use vstd::utf8::*;
use vstd::string::*;
use vstd::slice::*;

verus! {

broadcast use {encode_utf8_valid_utf8, encode_utf8_decode_utf8};

/// Little-endian bytes of a 64-bit value.
pub open spec fn le_u64(v: u64) -> Seq<u8> {
    spec_u64_to_le_bytes(v)
}

/// Little-endian bytes of a 32-bit value.
pub open spec fn le_u32(v: u32) -> Seq<u8> {
    spec_u32_to_le_bytes(v)
}

/// Little-endian bytes of a signed 32-bit value (its two's complement).
pub open spec fn le_i32(v: i32) -> Seq<u8> {
    spec_u32_to_le_bytes(v as u32)
}

/// The value whose little-endian bytes start at `pos`.
pub open spec fn u64_at(bytes: Seq<u8>, pos: int) -> u64 {
    spec_u64_from_le_bytes(bytes.subrange(pos, pos + 8))
}

/// The value whose little-endian bytes start at `pos`.
pub open spec fn u32_at(bytes: Seq<u8>, pos: int) -> u32 {
    spec_u32_from_le_bytes(bytes.subrange(pos, pos + 4))
}

/// The signed value whose little-endian bytes start at `pos`.
pub open spec fn i32_at(bytes: Seq<u8>, pos: int) -> i32 {
    spec_u32_from_le_bytes(bytes.subrange(pos, pos + 4)) as i32
}

/// One byte for a flag: 1 for true, 0 for false.
pub open spec fn flag_byte(b: bool) -> u8 {
    if b { 1u8 } else { 0u8 }
}

/// Number of zero bytes that pad `n` bytes up to a multiple of eight.
pub open spec fn pad_len(n: nat) -> nat {
    ((8 - (n % 8)) % 8) as nat
}

/// `n` zero bytes.
pub open spec fn zeros(n: nat) -> Seq<u8> {
    Seq::new(n, |i: int| 0u8)
}

/// The UTF-8 bytes of a text.
pub open spec fn utf8(chars: Seq<char>) -> Seq<u8> {
    encode_utf8(chars)
}

/// A text in the message format: its byte length as a 64-bit value, its
/// UTF-8 bytes, and zero padding up to a multiple of eight bytes.
pub open spec fn text_bytes(chars: Seq<char>) -> Seq<u8> {
    le_u64(utf8(chars).len() as u64) + utf8(chars) + zeros(pad_len(utf8(chars).len()))
}

/// Parses a text in the message format at `pos`: the result is the text and
/// the position after its padding, or `None` if the bytes end early or are
/// not UTF-8.
pub open spec fn parse_text(bytes: Seq<u8>, pos: int) -> Option<(Seq<char>, int)> {
    if 0 <= pos && pos + 8 <= bytes.len() {
        let n = u64_at(bytes, pos) as int;
        let end = pos + 8 + n + pad_len(n as nat);
        if end <= bytes.len() && valid_utf8(bytes.subrange(pos + 8, pos + 8 + n)) {
            Some((decode_utf8(bytes.subrange(pos + 8, pos + 8 + n)), end))
        } else {
            None
        }
    } else {
        None
    }
}

/// Reading back the bytes of a 64-bit value gives the value.
pub proof fn lemma_u64_roundtrip(v: u64)
    ensures
        le_u64(v).len() == 8,
        spec_u64_from_le_bytes(le_u64(v)) == v,
{
    lemma_auto_spec_u64_to_from_le_bytes();
}

/// Reading back the bytes of a 32-bit value gives the value.
pub proof fn lemma_u32_roundtrip(v: u32)
    ensures
        le_u32(v).len() == 4,
        spec_u32_from_le_bytes(le_u32(v)) == v,
{
    lemma_auto_spec_u32_to_from_le_bytes();
    assert(spec_u32_to_le_bytes(v).len() == 4);
}

/// The 64-bit value whose bytes stand at `pos` of `prefix + le_u64(v) + suffix`.
pub proof fn lemma_u64_at(prefix: Seq<u8>, v: u64, suffix: Seq<u8>)
    ensures
        u64_at(prefix + le_u64(v) + suffix, prefix.len() as int) == v,
{
    lemma_u64_roundtrip(v);
    assert((prefix + le_u64(v) + suffix).subrange(prefix.len() as int, prefix.len() + 8int) =~= le_u64(v));
}

/// A text placed between any other bytes is parsed back, and the parse ends
/// right after it.
pub proof fn lemma_text_roundtrip(prefix: Seq<u8>, chars: Seq<char>, suffix: Seq<u8>)
    requires
        utf8(chars).len() <= u64::MAX,
    ensures
        parse_text(prefix + text_bytes(chars) + suffix, prefix.len() as int)
            == Some((chars, (prefix.len() + text_bytes(chars).len()) as int)),
        text_bytes(chars).len() == 8 + utf8(chars).len() + pad_len(utf8(chars).len()),
        text_bytes(chars).len() % 8 == 0,
{
    let b = utf8(chars);
    let all = prefix + text_bytes(chars) + suffix;
    let p = prefix.len() as int;
    lemma_u64_roundtrip(b.len() as u64);
    assert(all =~= prefix + le_u64(b.len() as u64) + (b + zeros(pad_len(b.len())) + suffix));
    lemma_u64_at(prefix, b.len() as u64, b + zeros(pad_len(b.len())) + suffix);
    assert(all.subrange(p + 8, p + 8 + b.len()) =~= b);
}

/// Appends the little-endian bytes of a 64-bit value.
pub fn push_u64(buffer: &mut Vec<u8>, value: u64)
    ensures
        final(buffer)@ == old(buffer)@ + le_u64(value),
{
    let mut bytes = u64_to_le_bytes(value);
    buffer.append(&mut bytes);
}

/// Appends the little-endian bytes of a 32-bit value.
pub fn push_u32(buffer: &mut Vec<u8>, value: u32)
    ensures
        final(buffer)@ == old(buffer)@ + le_u32(value),
{
    let mut bytes = u32_to_le_bytes(value);
    buffer.append(&mut bytes);
}

/// Appends the little-endian bytes of a signed 32-bit value.
pub fn push_i32(buffer: &mut Vec<u8>, value: i32)
    ensures
        final(buffer)@ == old(buffer)@ + le_i32(value),
{
    let mut bytes = u32_to_le_bytes(value as u32);
    buffer.append(&mut bytes);
}

/// Appends a flag byte.
pub fn push_flag(buffer: &mut Vec<u8>, value: bool)
    ensures
        final(buffer)@ == old(buffer)@.push(flag_byte(value)),
{
    if value {
        buffer.push(1u8);
    } else {
        buffer.push(0u8);
    }
}

/// Appends `count` zero bytes.
pub fn push_zeros(buffer: &mut Vec<u8>, count: usize)
    ensures
        final(buffer)@ == old(buffer)@ + zeros(count as nat),
{
    let ghost start = buffer@;
    let mut i: usize = 0;
    while i < count
        invariant
            i <= count,
            buffer@ =~= start + zeros(i as nat),
        decreases count - i,
    {
        buffer.push(0u8);
        i += 1;
    }
}

/// Appends the UTF-8 bytes of a text, with no length and no padding.
pub fn push_utf8(buffer: &mut Vec<u8>, text: &str)
    ensures
        final(buffer)@ == old(buffer)@ + utf8(text@),
{
    let bytes = text.as_bytes();
    buffer.extend_from_slice(bytes);
    proof {
        assert(buffer@ =~= old(buffer)@ + utf8(text@));
    }
}

/// Appends a text in the message format (length, UTF-8 bytes, padding) and
/// returns the number of bytes appended.
pub fn push_text(buffer: &mut Vec<u8>, text: &str) -> (size: usize)
    ensures
        final(buffer)@ == old(buffer)@ + text_bytes(text@),
        size == text_bytes(text@).len(),
{
    let start = buffer.len();
    let bytes = text.as_bytes();
    let n = bytes.len();
    push_u64(buffer, n as u64);
    buffer.extend_from_slice(bytes);
    let pad = (8 - n % 8) % 8;
    push_zeros(buffer, pad);
    proof {
        assert(buffer@ =~= old(buffer)@ + text_bytes(text@));
    }
    buffer.len() - start
}

/// The 64-bit value at `position`, or `None` if fewer than eight bytes remain.
pub fn read_u64(bytes: &[u8], position: usize) -> (value: Option<u64>)
    ensures
        value == (if position + 8 <= bytes@.len() { Some(u64_at(bytes@, position as int)) } else { None::<u64> }),
{
    if position <= bytes.len() && bytes.len() - position >= 8 {
        let part = slice_subrange(bytes, position, position + 8);
        Some(u64_from_le_bytes(part))
    } else {
        None
    }
}

/// The 32-bit value at `position`, or `None` if fewer than four bytes remain.
pub fn read_u32(bytes: &[u8], position: usize) -> (value: Option<u32>)
    ensures
        value == (if position + 4 <= bytes@.len() { Some(u32_at(bytes@, position as int)) } else { None::<u32> }),
{
    if position <= bytes.len() && bytes.len() - position >= 4 {
        let part = slice_subrange(bytes, position, position + 4);
        Some(u32_from_le_bytes(part))
    } else {
        None
    }
}

/// The signed 32-bit value at `position`, or `None` if fewer than four bytes remain.
pub fn read_i32(bytes: &[u8], position: usize) -> (value: Option<i32>)
    ensures
        value == (if position + 4 <= bytes@.len() { Some(i32_at(bytes@, position as int)) } else { None::<i32> }),
{
    match read_u32(bytes, position) {
        Some(v) => Some(v as i32),
        None => None,
    }
}

/// Converts bytes to a `String`, or `None` if they are not UTF-8.
/// Trusted: `String::from_utf8` of std, which by its documentation takes the
/// bytes over as the string's contents when they are valid UTF-8 and fails
/// otherwise.
#[verifier::external_body]
fn string_from_utf8(bytes: Vec<u8>) -> (text: Option<String>)
    ensures
        text is Some <==> valid_utf8(bytes@),
        text matches Some(t) ==> t@ == decode_utf8(bytes@),
{
    String::from_utf8(bytes).ok()
}

/// Reads a text in the message format at `position`: the text and the
/// position after its padding, or `None` as `parse_text` says.
pub fn read_text(bytes: &[u8], position: usize) -> (res: Option<(String, usize)>)
    ensures
        match res {
            Some((t, end)) => parse_text(bytes@, position as int) == Some((t@, end as int)),
            None => parse_text(bytes@, position as int) is None,
        },
{
    let read = read_u64(bytes, position);
    if read.is_none() {
        return None;
    }
    let n = read.unwrap();
    let len = bytes.len();
    assert(position + 8 <= len);
    let start = position + 8;
    if n > (bytes.len() - start) as u64 {
        return None;
    }
    let n = n as usize;
    let pad = (8 - n % 8) % 8;
    if pad > bytes.len() - start - n {
        return None;
    }
    let part = slice_subrange(bytes, start, start + n);
    match string_from_utf8(slice_to_vec(part)) {
        Some(t) => Some((t, start + n + pad)),
        None => None,
    }
}

/// A text without padding: its byte length as a 64-bit value, then its
/// UTF-8 bytes.
pub open spec fn plain_text_bytes(chars: Seq<char>) -> Seq<u8> {
    le_u64(utf8(chars).len() as u64) + utf8(chars)
}

/// Parses a text without padding at `pos`: the text and the position right
/// after it, or `None` if the bytes end early or are not UTF-8.
pub open spec fn parse_plain_text(bytes: Seq<u8>, pos: int) -> Option<(Seq<char>, int)> {
    if 0 <= pos && pos + 8 <= bytes.len() {
        let n = u64_at(bytes, pos) as int;
        let end = pos + 8 + n;
        if end <= bytes.len() && valid_utf8(bytes.subrange(pos + 8, end)) {
            Some((decode_utf8(bytes.subrange(pos + 8, end)), end))
        } else {
            None
        }
    } else {
        None
    }
}

/// A text without padding placed between any other bytes is parsed back,
/// and the parse ends right after it.
pub proof fn lemma_plain_text_roundtrip(prefix: Seq<u8>, chars: Seq<char>, suffix: Seq<u8>)
    requires
        utf8(chars).len() <= u64::MAX,
    ensures
        parse_plain_text(prefix + plain_text_bytes(chars) + suffix, prefix.len() as int)
            == Some((chars, (prefix.len() + plain_text_bytes(chars).len()) as int)),
        plain_text_bytes(chars).len() == 8 + utf8(chars).len(),
{
    let b = utf8(chars);
    let all = prefix + plain_text_bytes(chars) + suffix;
    let p = prefix.len() as int;
    lemma_u64_roundtrip(b.len() as u64);
    assert(all =~= prefix + le_u64(b.len() as u64) + (b + suffix));
    lemma_u64_at(prefix, b.len() as u64, b + suffix);
    assert(all.subrange(p + 8, p + 8 + b.len()) =~= b);
}

/// Appends a text without padding and returns the number of bytes appended.
pub fn push_plain_text(buffer: &mut Vec<u8>, text: &str) -> (size: usize)
    ensures
        final(buffer)@ == old(buffer)@ + plain_text_bytes(text@),
        size == plain_text_bytes(text@).len(),
{
    let start = buffer.len();
    let bytes = text.as_bytes();
    push_u64(buffer, bytes.len() as u64);
    buffer.extend_from_slice(bytes);
    proof {
        assert(buffer@ =~= old(buffer)@ + plain_text_bytes(text@));
    }
    buffer.len() - start
}

/// Reads a text without padding at `position`: the text and the position
/// right after it, or `None` as `parse_plain_text` says.
pub fn read_plain_text(bytes: &[u8], position: usize) -> (res: Option<(String, usize)>)
    ensures
        match res {
            Some((t, end)) => parse_plain_text(bytes@, position as int) == Some((t@, end as int)),
            None => parse_plain_text(bytes@, position as int) is None,
        },
{
    let read = read_u64(bytes, position);
    if read.is_none() {
        return None;
    }
    let n = read.unwrap();
    let len = bytes.len();
    assert(position + 8 <= len);
    let start = position + 8;
    if n > (bytes.len() - start) as u64 {
        return None;
    }
    let n = n as usize;
    let part = slice_subrange(bytes, start, start + n);
    match string_from_utf8(slice_to_vec(part)) {
        Some(t) => Some((t, start + n)),
        None => None,
    }
}

/// Little-endian bytes of a signed 64-bit value (its two's complement).
pub open spec fn le_i64(v: i64) -> Seq<u8> {
    le_u64(v as u64)
}

/// The signed 64-bit value whose little-endian bytes start at `pos`.
pub open spec fn i64_at(bytes: Seq<u8>, pos: int) -> i64 {
    u64_at(bytes, pos) as i64
}

/// The signed 64-bit value whose bytes stand at `pos` of `prefix + le_i64(v) + suffix`.
pub proof fn lemma_i64_at(prefix: Seq<u8>, v: i64, suffix: Seq<u8>)
    ensures
        i64_at(prefix + le_i64(v) + suffix, prefix.len() as int) == v,
        le_i64(v).len() == 8,
{
    lemma_u64_at(prefix, v as u64, suffix);
    lemma_u64_roundtrip(v as u64);
    assert((v as u64) as i64 == v) by (bit_vector);
}

/// Appends the little-endian bytes of a signed 64-bit value.
pub fn push_i64(buffer: &mut Vec<u8>, value: i64)
    ensures
        final(buffer)@ == old(buffer)@ + le_i64(value),
{
    push_u64(buffer, value as u64);
}

/// The signed 64-bit value at `position`, or `None` if fewer than eight bytes remain.
pub fn read_i64(bytes: &[u8], position: usize) -> (value: Option<i64>)
    ensures
        value == (if position + 8 <= bytes@.len() { Some(i64_at(bytes@, position as int)) } else { None::<i64> }),
{
    match read_u64(bytes, position) {
        Some(v) => Some(v as i64),
        None => None,
    }
}

/// Whether `len` bytes are available at `pos`.
pub open spec fn fits(bytes: Seq<u8>, pos: int, len: int) -> bool {
    0 <= pos && pos + len <= bytes.len()
}

} // verus!
