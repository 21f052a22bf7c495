//! Fixed-size messages of the data protocol.

use vstd::prelude::*;
use crate::wire::{fits, i64_at, le_i64, le_u64, lemma_i64_at, lemma_u64_at, lemma_u64_roundtrip, push_i64, push_u64, read_i64, read_u64, u64_at};
use crate::data::types::{TextColor, TextPosition, TextSize};

verus! {

/// Request to move the text cursor.
#[derive(Clone, Copy, PartialEq, Eq, Structural, Debug)]
pub struct SetTextCursorPositionParameters {
    pub position: TextPosition,
}

impl SetTextCursorPositionParameters {
    /// Bytes that a value occupies in a message.
    pub open spec fn wire_size() -> nat { 16nat }

    /// The bytes of the value in a message: position.
    pub open spec fn wire(self) -> Seq<u8> {
        self.position.wire()
    }

    /// The value whose bytes start at `pos`, or `None` if the bytes end before it does.
    pub open spec fn parse(bytes: Seq<u8>, pos: int) -> Option<SetTextCursorPositionParameters> {
        if fits(bytes, pos, 16) && TextPosition::parse(bytes, pos + 0) is Some {
            Some(SetTextCursorPositionParameters { position: TextPosition::parse(bytes, pos + 0).unwrap() })
        } else {
            None
        }
    }

    /// A value placed between any other bytes is parsed back.
    pub proof fn lemma_roundtrip(self, prefix: Seq<u8>, suffix: Seq<u8>)
        ensures
            self.wire().len() == 16,
            SetTextCursorPositionParameters::parse(prefix + self.wire() + suffix, prefix.len() as int) == Some(self),
    {
        let all = prefix + self.wire() + suffix;
        let p0 = prefix;
        let s0 = suffix;
        self.position.lemma_roundtrip(p0, s0);
        assert(all =~= p0 + self.position.wire() + s0);
    }

    /// Appends the value's bytes and returns their number.
    pub fn write_at(&self, buffer: &mut Vec<u8>) -> (size: usize)
        ensures
            final(buffer)@ == old(buffer)@ + self.wire(),
            size == 16,
    {
        self.position.write_at(buffer);
        proof {
            assert(buffer@ =~= old(buffer)@ + self.wire());
            self.lemma_roundtrip(Seq::empty(), Seq::empty());
        }
        16
    }

    /// The value refers to no further data: nothing is appended.
    pub fn write_references_at(&self, buffer: &mut Vec<u8>) -> (size: usize)
        ensures
            final(buffer)@ == old(buffer)@,
            size == 0,
    {
        0
    }

    /// Reads the value at `position`; the size read is its fixed size.
    pub fn reconstruct_at_inline(bytes: &[u8], position: usize) -> (read: Option<(SetTextCursorPositionParameters, usize)>)
        ensures
            read == (match SetTextCursorPositionParameters::parse(bytes@, position as int) { Some(v) => Some((v, 16usize)), None => None }),
    {
        if position > bytes.len() || bytes.len() - position < 16 {
            return None;
        }
        let position = match TextPosition::reconstruct_at_inline(bytes, position + 0) { Some((v, _)) => v, None => return None };
        Some((SetTextCursorPositionParameters { position }, 16))
    }

    /// Reads the value whose fixed part is at `object`; it has no
    /// references, so the size read from `references` is 0.
    pub fn reconstruct_at(bytes: &[u8], object: usize, references: usize) -> (read: Option<(SetTextCursorPositionParameters, usize)>)
        ensures
            read == (match SetTextCursorPositionParameters::parse(bytes@, object as int) { Some(v) => Some((v, 0usize)), None => None }),
    {
        match SetTextCursorPositionParameters::reconstruct_at_inline(bytes, object) {
            Some((v, _)) => Some((v, 0)),
            None => None,
        }
    }
}

/// Request to set the colours of text written from now on.
#[derive(Clone, Copy, PartialEq, Eq, Structural, Debug)]
pub struct SetTextColorParameters {
    pub foreground: TextColor,
    pub background: TextColor,
}

impl SetTextColorParameters {
    /// Bytes that a value occupies in a message.
    pub open spec fn wire_size() -> nat { 8nat }

    /// The bytes of the value in a message: foreground colour, background colour.
    pub open spec fn wire(self) -> Seq<u8> {
        self.foreground.wire() + self.background.wire()
    }

    /// The value whose bytes start at `pos`, or `None` if the bytes end before it does.
    pub open spec fn parse(bytes: Seq<u8>, pos: int) -> Option<SetTextColorParameters> {
        if fits(bytes, pos, 8) && TextColor::parse(bytes, pos + 0) is Some && TextColor::parse(bytes, pos + 4) is Some {
            Some(SetTextColorParameters { foreground: TextColor::parse(bytes, pos + 0).unwrap(), background: TextColor::parse(bytes, pos + 4).unwrap() })
        } else {
            None
        }
    }

    /// A value placed between any other bytes is parsed back.
    pub proof fn lemma_roundtrip(self, prefix: Seq<u8>, suffix: Seq<u8>)
        ensures
            self.wire().len() == 8,
            SetTextColorParameters::parse(prefix + self.wire() + suffix, prefix.len() as int) == Some(self),
    {
        let all = prefix + self.wire() + suffix;
        let p0 = prefix;
        let s0 = self.background.wire() + suffix;
        self.foreground.lemma_roundtrip(p0, s0);
        assert(all =~= p0 + self.foreground.wire() + s0);
        let p1 = prefix + self.foreground.wire();
        let s1 = suffix;
        self.background.lemma_roundtrip(p1, s1);
        assert(all =~= p1 + self.background.wire() + s1);
    }

    /// Appends the value's bytes and returns their number.
    pub fn write_at(&self, buffer: &mut Vec<u8>) -> (size: usize)
        ensures
            final(buffer)@ == old(buffer)@ + self.wire(),
            size == 8,
    {
        self.foreground.write_at(buffer);
        self.background.write_at(buffer);
        proof {
            assert(buffer@ =~= old(buffer)@ + self.wire());
            self.lemma_roundtrip(Seq::empty(), Seq::empty());
        }
        8
    }

    /// The value refers to no further data: nothing is appended.
    pub fn write_references_at(&self, buffer: &mut Vec<u8>) -> (size: usize)
        ensures
            final(buffer)@ == old(buffer)@,
            size == 0,
    {
        0
    }

    /// Reads the value at `position`; the size read is its fixed size.
    pub fn reconstruct_at_inline(bytes: &[u8], position: usize) -> (read: Option<(SetTextColorParameters, usize)>)
        ensures
            read == (match SetTextColorParameters::parse(bytes@, position as int) { Some(v) => Some((v, 8usize)), None => None }),
    {
        if position > bytes.len() || bytes.len() - position < 8 {
            return None;
        }
        let foreground = match TextColor::reconstruct_at_inline(bytes, position + 0) { Some((v, _)) => v, None => return None };
        let background = match TextColor::reconstruct_at_inline(bytes, position + 4) { Some((v, _)) => v, None => return None };
        Some((SetTextColorParameters { foreground, background }, 8))
    }

    /// Reads the value whose fixed part is at `object`; it has no
    /// references, so the size read from `references` is 0.
    pub fn reconstruct_at(bytes: &[u8], object: usize, references: usize) -> (read: Option<(SetTextColorParameters, usize)>)
        ensures
            read == (match SetTextColorParameters::parse(bytes@, object as int) { Some(v) => Some((v, 0usize)), None => None }),
    {
        match SetTextColorParameters::reconstruct_at_inline(bytes, object) {
            Some((v, _)) => Some((v, 0)),
            None => None,
        }
    }
}

/// Event: the text area was resized.
#[derive(Clone, Copy, PartialEq, Eq, Structural, Debug)]
pub struct SizeChangedParameters {
    pub text_size: TextSize,
}

impl SizeChangedParameters {
    /// Bytes that a value occupies in a message.
    pub open spec fn wire_size() -> nat { 16nat }

    /// The bytes of the value in a message: text size.
    pub open spec fn wire(self) -> Seq<u8> {
        self.text_size.wire()
    }

    /// The value whose bytes start at `pos`, or `None` if the bytes end before it does.
    pub open spec fn parse(bytes: Seq<u8>, pos: int) -> Option<SizeChangedParameters> {
        if fits(bytes, pos, 16) && TextSize::parse(bytes, pos + 0) is Some {
            Some(SizeChangedParameters { text_size: TextSize::parse(bytes, pos + 0).unwrap() })
        } else {
            None
        }
    }

    /// A value placed between any other bytes is parsed back.
    pub proof fn lemma_roundtrip(self, prefix: Seq<u8>, suffix: Seq<u8>)
        ensures
            self.wire().len() == 16,
            SizeChangedParameters::parse(prefix + self.wire() + suffix, prefix.len() as int) == Some(self),
    {
        let all = prefix + self.wire() + suffix;
        let p0 = prefix;
        let s0 = suffix;
        self.text_size.lemma_roundtrip(p0, s0);
        assert(all =~= p0 + self.text_size.wire() + s0);
    }

    /// Appends the value's bytes and returns their number.
    pub fn write_at(&self, buffer: &mut Vec<u8>) -> (size: usize)
        ensures
            final(buffer)@ == old(buffer)@ + self.wire(),
            size == 16,
    {
        self.text_size.write_at(buffer);
        proof {
            assert(buffer@ =~= old(buffer)@ + self.wire());
            self.lemma_roundtrip(Seq::empty(), Seq::empty());
        }
        16
    }

    /// The value refers to no further data: nothing is appended.
    pub fn write_references_at(&self, buffer: &mut Vec<u8>) -> (size: usize)
        ensures
            final(buffer)@ == old(buffer)@,
            size == 0,
    {
        0
    }

    /// Reads the value at `position`; the size read is its fixed size.
    pub fn reconstruct_at_inline(bytes: &[u8], position: usize) -> (read: Option<(SizeChangedParameters, usize)>)
        ensures
            read == (match SizeChangedParameters::parse(bytes@, position as int) { Some(v) => Some((v, 16usize)), None => None }),
    {
        if position > bytes.len() || bytes.len() - position < 16 {
            return None;
        }
        let text_size = match TextSize::reconstruct_at_inline(bytes, position + 0) { Some((v, _)) => v, None => return None };
        Some((SizeChangedParameters { text_size }, 16))
    }

    /// Reads the value whose fixed part is at `object`; it has no
    /// references, so the size read from `references` is 0.
    pub fn reconstruct_at(bytes: &[u8], object: usize, references: usize) -> (read: Option<(SizeChangedParameters, usize)>)
        ensures
            read == (match SizeChangedParameters::parse(bytes@, object as int) { Some(v) => Some((v, 0usize)), None => None }),
    {
        match SizeChangedParameters::reconstruct_at_inline(bytes, object) {
            Some((v, _)) => Some((v, 0)),
            None => None,
        }
    }
}

/// Reply to a request for the capabilities of a data server: its text area.
#[derive(Clone, Copy, PartialEq, Eq, Structural, Debug)]
pub struct GetDataCapabilitiesReturns {
    pub text_size: TextSize,
}

impl GetDataCapabilitiesReturns {
    /// Bytes that a value occupies in a message.
    pub open spec fn wire_size() -> nat { 16nat }

    /// The bytes of the value in a message: text size.
    pub open spec fn wire(self) -> Seq<u8> {
        self.text_size.wire()
    }

    /// The value whose bytes start at `pos`, or `None` if the bytes end before it does.
    pub open spec fn parse(bytes: Seq<u8>, pos: int) -> Option<GetDataCapabilitiesReturns> {
        if fits(bytes, pos, 16) && TextSize::parse(bytes, pos + 0) is Some {
            Some(GetDataCapabilitiesReturns { text_size: TextSize::parse(bytes, pos + 0).unwrap() })
        } else {
            None
        }
    }

    /// A value placed between any other bytes is parsed back.
    pub proof fn lemma_roundtrip(self, prefix: Seq<u8>, suffix: Seq<u8>)
        ensures
            self.wire().len() == 16,
            GetDataCapabilitiesReturns::parse(prefix + self.wire() + suffix, prefix.len() as int) == Some(self),
    {
        let all = prefix + self.wire() + suffix;
        let p0 = prefix;
        let s0 = suffix;
        self.text_size.lemma_roundtrip(p0, s0);
        assert(all =~= p0 + self.text_size.wire() + s0);
    }

    /// Appends the value's bytes and returns their number.
    pub fn write_at(&self, buffer: &mut Vec<u8>) -> (size: usize)
        ensures
            final(buffer)@ == old(buffer)@ + self.wire(),
            size == 16,
    {
        self.text_size.write_at(buffer);
        proof {
            assert(buffer@ =~= old(buffer)@ + self.wire());
            self.lemma_roundtrip(Seq::empty(), Seq::empty());
        }
        16
    }

    /// The value refers to no further data: nothing is appended.
    pub fn write_references_at(&self, buffer: &mut Vec<u8>) -> (size: usize)
        ensures
            final(buffer)@ == old(buffer)@,
            size == 0,
    {
        0
    }

    /// Reads the value at `position`; the size read is its fixed size.
    pub fn reconstruct_at_inline(bytes: &[u8], position: usize) -> (read: Option<(GetDataCapabilitiesReturns, usize)>)
        ensures
            read == (match GetDataCapabilitiesReturns::parse(bytes@, position as int) { Some(v) => Some((v, 16usize)), None => None }),
    {
        if position > bytes.len() || bytes.len() - position < 16 {
            return None;
        }
        let text_size = match TextSize::reconstruct_at_inline(bytes, position + 0) { Some((v, _)) => v, None => return None };
        Some((GetDataCapabilitiesReturns { text_size }, 16))
    }

    /// Reads the value whose fixed part is at `object`; it has no
    /// references, so the size read from `references` is 0.
    pub fn reconstruct_at(bytes: &[u8], object: usize, references: usize) -> (read: Option<(GetDataCapabilitiesReturns, usize)>)
        ensures
            read == (match GetDataCapabilitiesReturns::parse(bytes@, object as int) { Some(v) => Some((v, 0usize)), None => None }),
    {
        match GetDataCapabilitiesReturns::reconstruct_at_inline(bytes, object) {
            Some((v, _)) => Some((v, 0)),
            None => None,
        }
    }
}

} // verus!
