//! Plain data types of the console protocol and their message format.

use vstd::prelude::*;
use crate::wire::{fits, i64_at, le_i64, le_u64, lemma_i64_at, lemma_u64_at, lemma_u64_roundtrip, push_i64, push_u64, read_i64, read_u64, u64_at};
use crate::layout::Layout;

verus! {

/// A colour with alpha channel, one byte per channel.
#[derive(Clone, Copy, PartialEq, Eq, Structural, Debug)]
pub struct Color {
    pub alpha: u8,
    pub red: u8,
    pub green: u8,
    pub blue: u8,
}

impl Color {
    /// Bytes that a value occupies in a message.
    pub open spec fn wire_size() -> nat { 4nat }

    /// The bytes of the value in a message: alpha, red, green, blue.
    pub open spec fn wire(self) -> Seq<u8> {
        seq![self.alpha] + seq![self.red] + seq![self.green] + seq![self.blue]
    }

    /// The value whose bytes start at `pos`, or `None` if the bytes end before it does.
    pub open spec fn parse(bytes: Seq<u8>, pos: int) -> Option<Color> {
        if fits(bytes, pos, 4) {
            Some(Color { alpha: bytes[pos + 0], red: bytes[pos + 1], green: bytes[pos + 2], blue: bytes[pos + 3] })
        } else {
            None
        }
    }

    /// A value placed between any other bytes is parsed back.
    pub proof fn lemma_roundtrip(self, prefix: Seq<u8>, suffix: Seq<u8>)
        ensures
            self.wire().len() == 4,
            Color::parse(prefix + self.wire() + suffix, prefix.len() as int) == Some(self),
    {
        let all = prefix + self.wire() + suffix;
        let p0 = prefix;
        let s0 = seq![self.red] + seq![self.green] + seq![self.blue] + suffix;
        assert(all =~= p0 + seq![self.alpha] + s0);
        assert(all[prefix.len() as int + 0] == self.alpha);
        let p1 = prefix + seq![self.alpha];
        let s1 = seq![self.green] + seq![self.blue] + suffix;
        assert(all =~= p1 + seq![self.red] + s1);
        assert(all[prefix.len() as int + 1] == self.red);
        let p2 = prefix + seq![self.alpha] + seq![self.red];
        let s2 = seq![self.blue] + suffix;
        assert(all =~= p2 + seq![self.green] + s2);
        assert(all[prefix.len() as int + 2] == self.green);
        let p3 = prefix + seq![self.alpha] + seq![self.red] + seq![self.green];
        let s3 = suffix;
        assert(all =~= p3 + seq![self.blue] + s3);
        assert(all[prefix.len() as int + 3] == self.blue);
    }

    /// Appends the value's bytes and returns their number.
    pub fn write_at(&self, buffer: &mut Vec<u8>) -> (size: usize)
        ensures
            final(buffer)@ == old(buffer)@ + self.wire(),
            size == 4,
    {
        buffer.push(self.alpha);
        buffer.push(self.red);
        buffer.push(self.green);
        buffer.push(self.blue);
        proof {
            assert(buffer@ =~= old(buffer)@ + self.wire());
            self.lemma_roundtrip(Seq::empty(), Seq::empty());
        }
        4
    }

    /// The value refers to no further data: nothing is appended.
    pub fn write_references_at(&self, buffer: &mut Vec<u8>) -> (size: usize)
        ensures
            final(buffer)@ == old(buffer)@,
            size == 0,
    {
        0
    }

    /// Reads the value at `position`; the size read is its fixed size.
    pub fn reconstruct_at_inline(bytes: &[u8], position: usize) -> (read: Option<(Color, usize)>)
        ensures
            read == (match Color::parse(bytes@, position as int) { Some(v) => Some((v, 4usize)), None => None }),
    {
        if position > bytes.len() || bytes.len() - position < 4 {
            return None;
        }
        let alpha = bytes[position + 0];
        let red = bytes[position + 1];
        let green = bytes[position + 2];
        let blue = bytes[position + 3];
        Some((Color { alpha, red, green, blue }, 4))
    }

    /// Reads the value whose fixed part is at `object`; it has no
    /// references, so the size read from `references` is 0.
    pub fn reconstruct_at(bytes: &[u8], object: usize, references: usize) -> (read: Option<(Color, usize)>)
        ensures
            read == (match Color::parse(bytes@, object as int) { Some(v) => Some((v, 0usize)), None => None }),
    {
        match Color::reconstruct_at_inline(bytes, object) {
            Some((v, _)) => Some((v, 0)),
            None => None,
        }
    }
}

/// A position on the console, in pixels or text cells.
#[derive(Clone, Copy, PartialEq, Eq, Structural, Debug)]
pub struct Point {
    pub x: i64,
    pub y: i64,
}

impl Point {
    /// Bytes that a value occupies in a message.
    pub open spec fn wire_size() -> nat { 16nat }

    /// The bytes of the value in a message: x, y.
    pub open spec fn wire(self) -> Seq<u8> {
        le_i64(self.x) + le_i64(self.y)
    }

    /// The value whose bytes start at `pos`, or `None` if the bytes end before it does.
    pub open spec fn parse(bytes: Seq<u8>, pos: int) -> Option<Point> {
        if fits(bytes, pos, 16) {
            Some(Point { x: i64_at(bytes, pos + 0), y: i64_at(bytes, pos + 8) })
        } else {
            None
        }
    }

    /// A value placed between any other bytes is parsed back.
    pub proof fn lemma_roundtrip(self, prefix: Seq<u8>, suffix: Seq<u8>)
        ensures
            self.wire().len() == 16,
            Point::parse(prefix + self.wire() + suffix, prefix.len() as int) == Some(self),
    {
        let all = prefix + self.wire() + suffix;
        let p0 = prefix;
        let s0 = le_i64(self.y) + suffix;
        lemma_i64_at(p0, self.x, s0);
        assert(all =~= p0 + le_i64(self.x) + s0);
        let p1 = prefix + le_i64(self.x);
        let s1 = suffix;
        lemma_i64_at(p1, self.y, s1);
        assert(all =~= p1 + le_i64(self.y) + s1);
    }

    /// Appends the value's bytes and returns their number.
    pub fn write_at(&self, buffer: &mut Vec<u8>) -> (size: usize)
        ensures
            final(buffer)@ == old(buffer)@ + self.wire(),
            size == 16,
    {
        push_i64(buffer, self.x);
        push_i64(buffer, self.y);
        proof {
            assert(buffer@ =~= old(buffer)@ + self.wire());
            self.lemma_roundtrip(Seq::empty(), Seq::empty());
        }
        16
    }

    /// The value refers to no further data: nothing is appended.
    pub fn write_references_at(&self, buffer: &mut Vec<u8>) -> (size: usize)
        ensures
            final(buffer)@ == old(buffer)@,
            size == 0,
    {
        0
    }

    /// Reads the value at `position`; the size read is its fixed size.
    pub fn reconstruct_at_inline(bytes: &[u8], position: usize) -> (read: Option<(Point, usize)>)
        ensures
            read == (match Point::parse(bytes@, position as int) { Some(v) => Some((v, 16usize)), None => None }),
    {
        if position > bytes.len() || bytes.len() - position < 16 {
            return None;
        }
        let x = read_i64(bytes, position + 0).unwrap();
        let y = read_i64(bytes, position + 8).unwrap();
        Some((Point { x, y }, 16))
    }

    /// Reads the value whose fixed part is at `object`; it has no
    /// references, so the size read from `references` is 0.
    pub fn reconstruct_at(bytes: &[u8], object: usize, references: usize) -> (read: Option<(Point, usize)>)
        ensures
            read == (match Point::parse(bytes@, object as int) { Some(v) => Some((v, 0usize)), None => None }),
    {
        match Point::reconstruct_at_inline(bytes, object) {
            Some((v, _)) => Some((v, 0)),
            None => None,
        }
    }
}

/// An extent on the console, in pixels or text cells.
#[derive(Clone, Copy, PartialEq, Eq, Structural, Debug)]
pub struct Size {
    pub width: u64,
    pub height: u64,
}

impl Size {
    /// Bytes that a value occupies in a message.
    pub open spec fn wire_size() -> nat { 16nat }

    /// The bytes of the value in a message: width, height.
    pub open spec fn wire(self) -> Seq<u8> {
        le_u64(self.width) + le_u64(self.height)
    }

    /// The value whose bytes start at `pos`, or `None` if the bytes end before it does.
    pub open spec fn parse(bytes: Seq<u8>, pos: int) -> Option<Size> {
        if fits(bytes, pos, 16) {
            Some(Size { width: u64_at(bytes, pos + 0), height: u64_at(bytes, pos + 8) })
        } else {
            None
        }
    }

    /// A value placed between any other bytes is parsed back.
    pub proof fn lemma_roundtrip(self, prefix: Seq<u8>, suffix: Seq<u8>)
        ensures
            self.wire().len() == 16,
            Size::parse(prefix + self.wire() + suffix, prefix.len() as int) == Some(self),
    {
        let all = prefix + self.wire() + suffix;
        let p0 = prefix;
        let s0 = le_u64(self.height) + suffix;
        lemma_u64_at(p0, self.width, s0);
        lemma_u64_roundtrip(self.width);
        assert(all =~= p0 + le_u64(self.width) + s0);
        let p1 = prefix + le_u64(self.width);
        let s1 = suffix;
        lemma_u64_at(p1, self.height, s1);
        lemma_u64_roundtrip(self.height);
        assert(all =~= p1 + le_u64(self.height) + s1);
    }

    /// Appends the value's bytes and returns their number.
    pub fn write_at(&self, buffer: &mut Vec<u8>) -> (size: usize)
        ensures
            final(buffer)@ == old(buffer)@ + self.wire(),
            size == 16,
    {
        push_u64(buffer, self.width);
        push_u64(buffer, self.height);
        proof {
            assert(buffer@ =~= old(buffer)@ + self.wire());
            self.lemma_roundtrip(Seq::empty(), Seq::empty());
        }
        16
    }

    /// The value refers to no further data: nothing is appended.
    pub fn write_references_at(&self, buffer: &mut Vec<u8>) -> (size: usize)
        ensures
            final(buffer)@ == old(buffer)@,
            size == 0,
    {
        0
    }

    /// Reads the value at `position`; the size read is its fixed size.
    pub fn reconstruct_at_inline(bytes: &[u8], position: usize) -> (read: Option<(Size, usize)>)
        ensures
            read == (match Size::parse(bytes@, position as int) { Some(v) => Some((v, 16usize)), None => None }),
    {
        if position > bytes.len() || bytes.len() - position < 16 {
            return None;
        }
        let width = read_u64(bytes, position + 0).unwrap();
        let height = read_u64(bytes, position + 8).unwrap();
        Some((Size { width, height }, 16))
    }

    /// Reads the value whose fixed part is at `object`; it has no
    /// references, so the size read from `references` is 0.
    pub fn reconstruct_at(bytes: &[u8], object: usize, references: usize) -> (read: Option<(Size, usize)>)
        ensures
            read == (match Size::parse(bytes@, object as int) { Some(v) => Some((v, 0usize)), None => None }),
    {
        match Size::reconstruct_at_inline(bytes, object) {
            Some((v, _)) => Some((v, 0)),
            None => None,
        }
    }
}

impl DeepView for Color {
    type V = Color;

    open spec fn deep_view(&self) -> Color {
        *self
    }
}

impl Layout for Color {
    open spec fn fixed_size() -> nat { 4 }

    open spec fn fixed_part(&self) -> Seq<u8> { self.wire() }

    open spec fn references(&self) -> Seq<u8> { Seq::empty() }

    open spec fn parse_at(bytes: Seq<u8>, object: int, refs: int) -> Option<(Color, nat)> {
        if 0 <= refs <= bytes.len() {
            match Color::parse(bytes, object) {
                Some(v) => Some((v, 0nat)),
                None => None,
            }
        } else {
            None
        }
    }

    proof fn lemma_fixed_size(&self) {
        self.lemma_roundtrip(Seq::empty(), Seq::empty());
        assert(Seq::<u8>::empty() + self.wire() + Seq::<u8>::empty() =~= self.wire());
    }

    proof fn lemma_parse_bounds(bytes: Seq<u8>, object: int, refs: int) {
    }

    proof fn lemma_placed(&self, bytes: Seq<u8>, object: int, refs: int) {
        let w = self.wire();
        let prefix = bytes.subrange(0, object);
        let suffix = bytes.subrange(object + w.len(), bytes.len() as int);
        assert(bytes =~= prefix + w + suffix);
        self.lemma_roundtrip(prefix, suffix);
    }

    fn fixed_len() -> (n: usize) {
        4
    }

    fn write_fixed(&self, buffer: &mut Vec<u8>) {
        let _ = self.write_at(buffer);
    }

    fn write_references(&self, buffer: &mut Vec<u8>) -> (size: usize) {
        proof {
            assert(buffer@ =~= buffer@ + Seq::<u8>::empty());
        }
        0
    }

    fn read_at(bytes: &[u8], object: usize, refs: usize) -> (read: Option<(Color, usize)>) {
        if refs > bytes.len() {
            return None;
        }
        match Color::reconstruct_at_inline(bytes, object) {
            Some((v, _)) => Some((v, 0)),
            None => None,
        }
    }
}

impl DeepView for Point {
    type V = Point;

    open spec fn deep_view(&self) -> Point {
        *self
    }
}

impl Layout for Point {
    open spec fn fixed_size() -> nat { 16 }

    open spec fn fixed_part(&self) -> Seq<u8> { self.wire() }

    open spec fn references(&self) -> Seq<u8> { Seq::empty() }

    open spec fn parse_at(bytes: Seq<u8>, object: int, refs: int) -> Option<(Point, nat)> {
        if 0 <= refs <= bytes.len() {
            match Point::parse(bytes, object) {
                Some(v) => Some((v, 0nat)),
                None => None,
            }
        } else {
            None
        }
    }

    proof fn lemma_fixed_size(&self) {
        self.lemma_roundtrip(Seq::empty(), Seq::empty());
        assert(Seq::<u8>::empty() + self.wire() + Seq::<u8>::empty() =~= self.wire());
    }

    proof fn lemma_parse_bounds(bytes: Seq<u8>, object: int, refs: int) {
    }

    proof fn lemma_placed(&self, bytes: Seq<u8>, object: int, refs: int) {
        let w = self.wire();
        let prefix = bytes.subrange(0, object);
        let suffix = bytes.subrange(object + w.len(), bytes.len() as int);
        assert(bytes =~= prefix + w + suffix);
        self.lemma_roundtrip(prefix, suffix);
    }

    fn fixed_len() -> (n: usize) {
        16
    }

    fn write_fixed(&self, buffer: &mut Vec<u8>) {
        let _ = self.write_at(buffer);
    }

    fn write_references(&self, buffer: &mut Vec<u8>) -> (size: usize) {
        proof {
            assert(buffer@ =~= buffer@ + Seq::<u8>::empty());
        }
        0
    }

    fn read_at(bytes: &[u8], object: usize, refs: usize) -> (read: Option<(Point, usize)>) {
        if refs > bytes.len() {
            return None;
        }
        match Point::reconstruct_at_inline(bytes, object) {
            Some((v, _)) => Some((v, 0)),
            None => None,
        }
    }
}

impl DeepView for Size {
    type V = Size;

    open spec fn deep_view(&self) -> Size {
        *self
    }
}

impl Layout for Size {
    open spec fn fixed_size() -> nat { 16 }

    open spec fn fixed_part(&self) -> Seq<u8> { self.wire() }

    open spec fn references(&self) -> Seq<u8> { Seq::empty() }

    open spec fn parse_at(bytes: Seq<u8>, object: int, refs: int) -> Option<(Size, nat)> {
        if 0 <= refs <= bytes.len() {
            match Size::parse(bytes, object) {
                Some(v) => Some((v, 0nat)),
                None => None,
            }
        } else {
            None
        }
    }

    proof fn lemma_fixed_size(&self) {
        self.lemma_roundtrip(Seq::empty(), Seq::empty());
        assert(Seq::<u8>::empty() + self.wire() + Seq::<u8>::empty() =~= self.wire());
    }

    proof fn lemma_parse_bounds(bytes: Seq<u8>, object: int, refs: int) {
    }

    proof fn lemma_placed(&self, bytes: Seq<u8>, object: int, refs: int) {
        let w = self.wire();
        let prefix = bytes.subrange(0, object);
        let suffix = bytes.subrange(object + w.len(), bytes.len() as int);
        assert(bytes =~= prefix + w + suffix);
        self.lemma_roundtrip(prefix, suffix);
    }

    fn fixed_len() -> (n: usize) {
        16
    }

    fn write_fixed(&self, buffer: &mut Vec<u8>) {
        let _ = self.write_at(buffer);
    }

    fn write_references(&self, buffer: &mut Vec<u8>) -> (size: usize) {
        proof {
            assert(buffer@ =~= buffer@ + Seq::<u8>::empty());
        }
        0
    }

    fn read_at(bytes: &[u8], object: usize, refs: usize) -> (read: Option<(Size, usize)>) {
        if refs > bytes.len() {
            return None;
        }
        match Size::reconstruct_at_inline(bytes, object) {
            Some((v, _)) => Some((v, 0)),
            None => None,
        }
    }
}

} // verus!
