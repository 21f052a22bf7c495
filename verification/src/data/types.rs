//! Plain data types of the data protocol and their message format.

use vstd::prelude::*;
use crate::wire::{fits, i64_at, le_i64, le_u64, lemma_i64_at, lemma_u64_at, lemma_u64_roundtrip, push_i64, push_u64, read_i64, read_u64, u64_at};

verus! {

/// A text colour with alpha channel, one byte per channel.
#[derive(Clone, Copy, PartialEq, Eq, Structural, Debug)]
pub struct TextColor {
    pub alpha: u8,
    pub red: u8,
    pub green: u8,
    pub blue: u8,
}

impl TextColor {
    /// Bytes that a value occupies in a message.
    pub open spec fn wire_size() -> nat { 4nat }

    /// The bytes of the value in a message: alpha, red, green, blue.
    pub open spec fn wire(self) -> Seq<u8> {
        seq![self.alpha] + seq![self.red] + seq![self.green] + seq![self.blue]
    }

    /// The value whose bytes start at `pos`, or `None` if the bytes end before it does.
    pub open spec fn parse(bytes: Seq<u8>, pos: int) -> Option<TextColor> {
        if fits(bytes, pos, 4) {
            Some(TextColor { alpha: bytes[pos + 0], red: bytes[pos + 1], green: bytes[pos + 2], blue: bytes[pos + 3] })
        } else {
            None
        }
    }

    /// A value placed between any other bytes is parsed back.
    pub proof fn lemma_roundtrip(self, prefix: Seq<u8>, suffix: Seq<u8>)
        ensures
            self.wire().len() == 4,
            TextColor::parse(prefix + self.wire() + suffix, prefix.len() as int) == Some(self),
    {
        let all = prefix + self.wire() + suffix;
        let p0 = prefix;
        let s0 = seq![self.red] + seq![self.green] + seq![self.blue] + suffix;
        assert(all =~= p0 + seq![self.alpha] + s0);
        assert(all[prefix.len() as int + 0] == self.alpha);
        let p1 = prefix + seq![self.alpha];
        let s1 = seq![self.green] + seq![self.blue] + suffix;
        assert(all =~= p1 + seq![self.red] + s1);
        assert(all[prefix.len() as int + 1] == self.red);
        let p2 = prefix + seq![self.alpha] + seq![self.red];
        let s2 = seq![self.blue] + suffix;
        assert(all =~= p2 + seq![self.green] + s2);
        assert(all[prefix.len() as int + 2] == self.green);
        let p3 = prefix + seq![self.alpha] + seq![self.red] + seq![self.green];
        let s3 = suffix;
        assert(all =~= p3 + seq![self.blue] + s3);
        assert(all[prefix.len() as int + 3] == self.blue);
    }

    /// Appends the value's bytes and returns their number.
    pub fn write_at(&self, buffer: &mut Vec<u8>) -> (size: usize)
        ensures
            final(buffer)@ == old(buffer)@ + self.wire(),
            size == 4,
    {
        buffer.push(self.alpha);
        buffer.push(self.red);
        buffer.push(self.green);
        buffer.push(self.blue);
        proof {
            assert(buffer@ =~= old(buffer)@ + self.wire());
            self.lemma_roundtrip(Seq::empty(), Seq::empty());
        }
        4
    }

    /// The value refers to no further data: nothing is appended.
    pub fn write_references_at(&self, buffer: &mut Vec<u8>) -> (size: usize)
        ensures
            final(buffer)@ == old(buffer)@,
            size == 0,
    {
        0
    }

    /// Reads the value at `position`; the size read is its fixed size.
    pub fn reconstruct_at_inline(bytes: &[u8], position: usize) -> (read: Option<(TextColor, usize)>)
        ensures
            read == (match TextColor::parse(bytes@, position as int) { Some(v) => Some((v, 4usize)), None => None }),
    {
        if position > bytes.len() || bytes.len() - position < 4 {
            return None;
        }
        let alpha = bytes[position + 0];
        let red = bytes[position + 1];
        let green = bytes[position + 2];
        let blue = bytes[position + 3];
        Some((TextColor { alpha, red, green, blue }, 4))
    }

    /// Reads the value whose fixed part is at `object`; it has no
    /// references, so the size read from `references` is 0.
    pub fn reconstruct_at(bytes: &[u8], object: usize, references: usize) -> (read: Option<(TextColor, usize)>)
        ensures
            read == (match TextColor::parse(bytes@, object as int) { Some(v) => Some((v, 0usize)), None => None }),
    {
        match TextColor::reconstruct_at_inline(bytes, object) {
            Some((v, _)) => Some((v, 0)),
            None => None,
        }
    }
}

/// A text cell: its column and row.
#[derive(Clone, Copy, PartialEq, Eq, Structural, Debug)]
pub struct TextPosition {
    pub column: i64,
    pub row: i64,
}

impl TextPosition {
    /// Bytes that a value occupies in a message.
    pub open spec fn wire_size() -> nat { 16nat }

    /// The bytes of the value in a message: column, row.
    pub open spec fn wire(self) -> Seq<u8> {
        le_i64(self.column) + le_i64(self.row)
    }

    /// The value whose bytes start at `pos`, or `None` if the bytes end before it does.
    pub open spec fn parse(bytes: Seq<u8>, pos: int) -> Option<TextPosition> {
        if fits(bytes, pos, 16) {
            Some(TextPosition { column: i64_at(bytes, pos + 0), row: i64_at(bytes, pos + 8) })
        } else {
            None
        }
    }

    /// A value placed between any other bytes is parsed back.
    pub proof fn lemma_roundtrip(self, prefix: Seq<u8>, suffix: Seq<u8>)
        ensures
            self.wire().len() == 16,
            TextPosition::parse(prefix + self.wire() + suffix, prefix.len() as int) == Some(self),
    {
        let all = prefix + self.wire() + suffix;
        let p0 = prefix;
        let s0 = le_i64(self.row) + suffix;
        lemma_i64_at(p0, self.column, s0);
        assert(all =~= p0 + le_i64(self.column) + s0);
        let p1 = prefix + le_i64(self.column);
        let s1 = suffix;
        lemma_i64_at(p1, self.row, s1);
        assert(all =~= p1 + le_i64(self.row) + s1);
    }

    /// Appends the value's bytes and returns their number.
    pub fn write_at(&self, buffer: &mut Vec<u8>) -> (size: usize)
        ensures
            final(buffer)@ == old(buffer)@ + self.wire(),
            size == 16,
    {
        push_i64(buffer, self.column);
        push_i64(buffer, self.row);
        proof {
            assert(buffer@ =~= old(buffer)@ + self.wire());
            self.lemma_roundtrip(Seq::empty(), Seq::empty());
        }
        16
    }

    /// The value refers to no further data: nothing is appended.
    pub fn write_references_at(&self, buffer: &mut Vec<u8>) -> (size: usize)
        ensures
            final(buffer)@ == old(buffer)@,
            size == 0,
    {
        0
    }

    /// Reads the value at `position`; the size read is its fixed size.
    pub fn reconstruct_at_inline(bytes: &[u8], position: usize) -> (read: Option<(TextPosition, usize)>)
        ensures
            read == (match TextPosition::parse(bytes@, position as int) { Some(v) => Some((v, 16usize)), None => None }),
    {
        if position > bytes.len() || bytes.len() - position < 16 {
            return None;
        }
        let column = read_i64(bytes, position + 0).unwrap();
        let row = read_i64(bytes, position + 8).unwrap();
        Some((TextPosition { column, row }, 16))
    }

    /// Reads the value whose fixed part is at `object`; it has no
    /// references, so the size read from `references` is 0.
    pub fn reconstruct_at(bytes: &[u8], object: usize, references: usize) -> (read: Option<(TextPosition, usize)>)
        ensures
            read == (match TextPosition::parse(bytes@, object as int) { Some(v) => Some((v, 0usize)), None => None }),
    {
        match TextPosition::reconstruct_at_inline(bytes, object) {
            Some((v, _)) => Some((v, 0)),
            None => None,
        }
    }
}

/// A text area: its number of columns and rows.
#[derive(Clone, Copy, PartialEq, Eq, Structural, Debug)]
pub struct TextSize {
    pub columns: u64,
    pub rows: u64,
}

impl TextSize {
    /// Bytes that a value occupies in a message.
    pub open spec fn wire_size() -> nat { 16nat }

    /// The bytes of the value in a message: columns, rows.
    pub open spec fn wire(self) -> Seq<u8> {
        le_u64(self.columns) + le_u64(self.rows)
    }

    /// The value whose bytes start at `pos`, or `None` if the bytes end before it does.
    pub open spec fn parse(bytes: Seq<u8>, pos: int) -> Option<TextSize> {
        if fits(bytes, pos, 16) {
            Some(TextSize { columns: u64_at(bytes, pos + 0), rows: u64_at(bytes, pos + 8) })
        } else {
            None
        }
    }

    /// A value placed between any other bytes is parsed back.
    pub proof fn lemma_roundtrip(self, prefix: Seq<u8>, suffix: Seq<u8>)
        ensures
            self.wire().len() == 16,
            TextSize::parse(prefix + self.wire() + suffix, prefix.len() as int) == Some(self),
    {
        let all = prefix + self.wire() + suffix;
        let p0 = prefix;
        let s0 = le_u64(self.rows) + suffix;
        lemma_u64_at(p0, self.columns, s0);
        lemma_u64_roundtrip(self.columns);
        assert(all =~= p0 + le_u64(self.columns) + s0);
        let p1 = prefix + le_u64(self.columns);
        let s1 = suffix;
        lemma_u64_at(p1, self.rows, s1);
        lemma_u64_roundtrip(self.rows);
        assert(all =~= p1 + le_u64(self.rows) + s1);
    }

    /// Appends the value's bytes and returns their number.
    pub fn write_at(&self, buffer: &mut Vec<u8>) -> (size: usize)
        ensures
            final(buffer)@ == old(buffer)@ + self.wire(),
            size == 16,
    {
        push_u64(buffer, self.columns);
        push_u64(buffer, self.rows);
        proof {
            assert(buffer@ =~= old(buffer)@ + self.wire());
            self.lemma_roundtrip(Seq::empty(), Seq::empty());
        }
        16
    }

    /// The value refers to no further data: nothing is appended.
    pub fn write_references_at(&self, buffer: &mut Vec<u8>) -> (size: usize)
        ensures
            final(buffer)@ == old(buffer)@,
            size == 0,
    {
        0
    }

    /// Reads the value at `position`; the size read is its fixed size.
    pub fn reconstruct_at_inline(bytes: &[u8], position: usize) -> (read: Option<(TextSize, usize)>)
        ensures
            read == (match TextSize::parse(bytes@, position as int) { Some(v) => Some((v, 16usize)), None => None }),
    {
        if position > bytes.len() || bytes.len() - position < 16 {
            return None;
        }
        let columns = read_u64(bytes, position + 0).unwrap();
        let rows = read_u64(bytes, position + 8).unwrap();
        Some((TextSize { columns, rows }, 16))
    }

    /// Reads the value whose fixed part is at `object`; it has no
    /// references, so the size read from `references` is 0.
    pub fn reconstruct_at(bytes: &[u8], object: usize, references: usize) -> (read: Option<(TextSize, usize)>)
        ensures
            read == (match TextSize::parse(bytes@, object as int) { Some(v) => Some((v, 0usize)), None => None }),
    {
        match TextSize::reconstruct_at_inline(bytes, object) {
            Some((v, _)) => Some((v, 0)),
            None => None,
        }
    }
}

} // verus!
