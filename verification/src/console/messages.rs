//! Fixed-size messages of the console protocol.

use vstd::prelude::*;
use crate::wire::{fits, flag_byte, push_flag, push_zeros, zeros, i64_at, le_i64, le_u64, lemma_i64_at, lemma_u64_at, lemma_u64_roundtrip, push_i64, push_u64, read_i64, read_u64, u64_at};
use crate::console::types::{Color, Point, Size};
use crate::console::key_code::KeyCode;

verus! {

/// Request to set the colours of text written from now on.
#[derive(Clone, Copy, PartialEq, Eq, Structural, Debug)]
pub struct SetTextColorParameters {
    pub foreground: Color,
    pub background: Color,
}

impl SetTextColorParameters {
    /// Bytes that a value occupies in a message.
    pub open spec fn wire_size() -> nat { 8nat }

    /// The bytes of the value in a message: foreground colour, background colour.
    pub open spec fn wire(self) -> Seq<u8> {
        self.foreground.wire() + self.background.wire()
    }

    /// The value whose bytes start at `pos`, or `None` if the bytes end before it does.
    pub open spec fn parse(bytes: Seq<u8>, pos: int) -> Option<SetTextColorParameters> {
        if fits(bytes, pos, 8) && Color::parse(bytes, pos + 0) is Some && Color::parse(bytes, pos + 4) is Some {
            Some(SetTextColorParameters { foreground: Color::parse(bytes, pos + 0).unwrap(), background: Color::parse(bytes, pos + 4).unwrap() })
        } else {
            None
        }
    }

    /// A value placed between any other bytes is parsed back.
    pub proof fn lemma_roundtrip(self, prefix: Seq<u8>, suffix: Seq<u8>)
        ensures
            self.wire().len() == 8,
            SetTextColorParameters::parse(prefix + self.wire() + suffix, prefix.len() as int) == Some(self),
    {
        let all = prefix + self.wire() + suffix;
        let p0 = prefix;
        let s0 = self.background.wire() + suffix;
        self.foreground.lemma_roundtrip(p0, s0);
        assert(all =~= p0 + self.foreground.wire() + s0);
        let p1 = prefix + self.foreground.wire();
        let s1 = suffix;
        self.background.lemma_roundtrip(p1, s1);
        assert(all =~= p1 + self.background.wire() + s1);
    }

    /// Appends the value's bytes and returns their number.
    pub fn write_at(&self, buffer: &mut Vec<u8>) -> (size: usize)
        ensures
            final(buffer)@ == old(buffer)@ + self.wire(),
            size == 8,
    {
        self.foreground.write_at(buffer);
        self.background.write_at(buffer);
        proof {
            assert(buffer@ =~= old(buffer)@ + self.wire());
            self.lemma_roundtrip(Seq::empty(), Seq::empty());
        }
        8
    }

    /// The value refers to no further data: nothing is appended.
    pub fn write_references_at(&self, buffer: &mut Vec<u8>) -> (size: usize)
        ensures
            final(buffer)@ == old(buffer)@,
            size == 0,
    {
        0
    }

    /// Reads the value at `position`; the size read is its fixed size.
    pub fn reconstruct_at_inline(bytes: &[u8], position: usize) -> (read: Option<(SetTextColorParameters, usize)>)
        ensures
            read == (match SetTextColorParameters::parse(bytes@, position as int) { Some(v) => Some((v, 8usize)), None => None }),
    {
        if position > bytes.len() || bytes.len() - position < 8 {
            return None;
        }
        let foreground = match Color::reconstruct_at_inline(bytes, position + 0) { Some((v, _)) => v, None => return None };
        let background = match Color::reconstruct_at_inline(bytes, position + 4) { Some((v, _)) => v, None => return None };
        Some((SetTextColorParameters { foreground, background }, 8))
    }

    /// Reads the value whose fixed part is at `object`; it has no
    /// references, so the size read from `references` is 0.
    pub fn reconstruct_at(bytes: &[u8], object: usize, references: usize) -> (read: Option<(SetTextColorParameters, usize)>)
        ensures
            read == (match SetTextColorParameters::parse(bytes@, object as int) { Some(v) => Some((v, 0usize)), None => None }),
    {
        match SetTextColorParameters::reconstruct_at_inline(bytes, object) {
            Some((v, _)) => Some((v, 0)),
            None => None,
        }
    }
}

/// Reply to a request for the console capabilities.
#[derive(Clone, Copy, PartialEq, Eq, Structural, Debug)]
pub struct GetConsoleCapabilitiesReturns {
    pub framebuffer_size: Size,
}

impl GetConsoleCapabilitiesReturns {
    /// Bytes that a value occupies in a message.
    pub open spec fn wire_size() -> nat { 16nat }

    /// The bytes of the value in a message: framebuffer size.
    pub open spec fn wire(self) -> Seq<u8> {
        self.framebuffer_size.wire()
    }

    /// The value whose bytes start at `pos`, or `None` if the bytes end before it does.
    pub open spec fn parse(bytes: Seq<u8>, pos: int) -> Option<GetConsoleCapabilitiesReturns> {
        if fits(bytes, pos, 16) && Size::parse(bytes, pos + 0) is Some {
            Some(GetConsoleCapabilitiesReturns { framebuffer_size: Size::parse(bytes, pos + 0).unwrap() })
        } else {
            None
        }
    }

    /// A value placed between any other bytes is parsed back.
    pub proof fn lemma_roundtrip(self, prefix: Seq<u8>, suffix: Seq<u8>)
        ensures
            self.wire().len() == 16,
            GetConsoleCapabilitiesReturns::parse(prefix + self.wire() + suffix, prefix.len() as int) == Some(self),
    {
        let all = prefix + self.wire() + suffix;
        let p0 = prefix;
        let s0 = suffix;
        self.framebuffer_size.lemma_roundtrip(p0, s0);
        assert(all =~= p0 + self.framebuffer_size.wire() + s0);
    }

    /// Appends the value's bytes and returns their number.
    pub fn write_at(&self, buffer: &mut Vec<u8>) -> (size: usize)
        ensures
            final(buffer)@ == old(buffer)@ + self.wire(),
            size == 16,
    {
        self.framebuffer_size.write_at(buffer);
        proof {
            assert(buffer@ =~= old(buffer)@ + self.wire());
            self.lemma_roundtrip(Seq::empty(), Seq::empty());
        }
        16
    }

    /// The value refers to no further data: nothing is appended.
    pub fn write_references_at(&self, buffer: &mut Vec<u8>) -> (size: usize)
        ensures
            final(buffer)@ == old(buffer)@,
            size == 0,
    {
        0
    }

    /// Reads the value at `position`; the size read is its fixed size.
    pub fn reconstruct_at_inline(bytes: &[u8], position: usize) -> (read: Option<(GetConsoleCapabilitiesReturns, usize)>)
        ensures
            read == (match GetConsoleCapabilitiesReturns::parse(bytes@, position as int) { Some(v) => Some((v, 16usize)), None => None }),
    {
        if position > bytes.len() || bytes.len() - position < 16 {
            return None;
        }
        let framebuffer_size = match Size::reconstruct_at_inline(bytes, position + 0) { Some((v, _)) => v, None => return None };
        Some((GetConsoleCapabilitiesReturns { framebuffer_size }, 16))
    }

    /// Reads the value whose fixed part is at `object`; it has no
    /// references, so the size read from `references` is 0.
    pub fn reconstruct_at(bytes: &[u8], object: usize, references: usize) -> (read: Option<(GetConsoleCapabilitiesReturns, usize)>)
        ensures
            read == (match GetConsoleCapabilitiesReturns::parse(bytes@, object as int) { Some(v) => Some((v, 0usize)), None => None }),
    {
        match GetConsoleCapabilitiesReturns::reconstruct_at_inline(bytes, object) {
            Some((v, _)) => Some((v, 0)),
            None => None,
        }
    }
}

/// Reply to a request for the capabilities of a console.
#[derive(Clone, Copy, PartialEq, Eq, Structural, Debug)]
pub struct GetCapabilitiesReturns {
    pub is_framebuffer: bool,
    pub framebuffer_size: Size,
    pub text_size: Size,
}

impl GetCapabilitiesReturns {
    /// Bytes that a value occupies in a message.
    pub open spec fn wire_size() -> nat { 40nat }

    /// The bytes of the value in a message: whether the console is a framebuffer (one byte, then seven zero bytes), framebuffer size, text size.
    pub open spec fn wire(self) -> Seq<u8> {
        (seq![flag_byte(self.is_framebuffer)] + zeros(7)) + self.framebuffer_size.wire() + self.text_size.wire()
    }

    /// The value whose bytes start at `pos`, or `None` if the bytes end before it does.
    pub open spec fn parse(bytes: Seq<u8>, pos: int) -> Option<GetCapabilitiesReturns> {
        if fits(bytes, pos, 40) && Size::parse(bytes, pos + 8) is Some && Size::parse(bytes, pos + 24) is Some {
            Some(GetCapabilitiesReturns { is_framebuffer: bytes[pos + 0] != 0, framebuffer_size: Size::parse(bytes, pos + 8).unwrap(), text_size: Size::parse(bytes, pos + 24).unwrap() })
        } else {
            None
        }
    }

    /// A value placed between any other bytes is parsed back.
    pub proof fn lemma_roundtrip(self, prefix: Seq<u8>, suffix: Seq<u8>)
        ensures
            self.wire().len() == 40,
            GetCapabilitiesReturns::parse(prefix + self.wire() + suffix, prefix.len() as int) == Some(self),
    {
        let all = prefix + self.wire() + suffix;
        let p0 = prefix;
        let s0 = self.framebuffer_size.wire() + self.text_size.wire() + suffix;
        assert(all =~= p0 + (seq![flag_byte(self.is_framebuffer)] + zeros(7)) + s0);
        assert(all[prefix.len() as int + 0] == flag_byte(self.is_framebuffer));
        let p1 = prefix + (seq![flag_byte(self.is_framebuffer)] + zeros(7));
        let s1 = self.text_size.wire() + suffix;
        self.framebuffer_size.lemma_roundtrip(p1, s1);
        assert(all =~= p1 + self.framebuffer_size.wire() + s1);
        let p2 = prefix + (seq![flag_byte(self.is_framebuffer)] + zeros(7)) + self.framebuffer_size.wire();
        let s2 = suffix;
        self.text_size.lemma_roundtrip(p2, s2);
        assert(all =~= p2 + self.text_size.wire() + s2);
    }

    /// Appends the value's bytes and returns their number.
    pub fn write_at(&self, buffer: &mut Vec<u8>) -> (size: usize)
        ensures
            final(buffer)@ == old(buffer)@ + self.wire(),
            size == 40,
    {
        push_flag(buffer, self.is_framebuffer);
        push_zeros(buffer, 7);
        self.framebuffer_size.write_at(buffer);
        self.text_size.write_at(buffer);
        proof {
            assert(buffer@ =~= old(buffer)@ + self.wire());
            self.lemma_roundtrip(Seq::empty(), Seq::empty());
        }
        40
    }

    /// The value refers to no further data: nothing is appended.
    pub fn write_references_at(&self, buffer: &mut Vec<u8>) -> (size: usize)
        ensures
            final(buffer)@ == old(buffer)@,
            size == 0,
    {
        0
    }

    /// Reads the value at `position`; the size read is its fixed size.
    pub fn reconstruct_at_inline(bytes: &[u8], position: usize) -> (read: Option<(GetCapabilitiesReturns, usize)>)
        ensures
            read == (match GetCapabilitiesReturns::parse(bytes@, position as int) { Some(v) => Some((v, 40usize)), None => None }),
    {
        if position > bytes.len() || bytes.len() - position < 40 {
            return None;
        }
        let is_framebuffer = bytes[position + 0] != 0;
        let framebuffer_size = match Size::reconstruct_at_inline(bytes, position + 8) { Some((v, _)) => v, None => return None };
        let text_size = match Size::reconstruct_at_inline(bytes, position + 24) { Some((v, _)) => v, None => return None };
        Some((GetCapabilitiesReturns { is_framebuffer, framebuffer_size, text_size }, 40))
    }

    /// Reads the value whose fixed part is at `object`; it has no
    /// references, so the size read from `references` is 0.
    pub fn reconstruct_at(bytes: &[u8], object: usize, references: usize) -> (read: Option<(GetCapabilitiesReturns, usize)>)
        ensures
            read == (match GetCapabilitiesReturns::parse(bytes@, object as int) { Some(v) => Some((v, 0usize)), None => None }),
    {
        match GetCapabilitiesReturns::reconstruct_at_inline(bytes, object) {
            Some((v, _)) => Some((v, 0)),
            None => None,
        }
    }
}

/// Event: a key was released.
#[derive(Clone, Copy, PartialEq, Eq, Structural, Debug)]
pub struct KeyReleasedParameters {
    pub key_code: KeyCode,
}

impl KeyReleasedParameters {
    /// Bytes that a value occupies in a message.
    pub open spec fn wire_size() -> nat { 8nat }

    /// The bytes of the value in a message: key.
    pub open spec fn wire(self) -> Seq<u8> {
        self.key_code.wire()
    }

    /// The value whose bytes start at `pos`, or `None` if the bytes end before it does.
    pub open spec fn parse(bytes: Seq<u8>, pos: int) -> Option<KeyReleasedParameters> {
        if fits(bytes, pos, 8) && KeyCode::parse(bytes, pos + 0) is Some {
            Some(KeyReleasedParameters { key_code: KeyCode::parse(bytes, pos + 0).unwrap() })
        } else {
            None
        }
    }

    /// A value placed between any other bytes is parsed back.
    pub proof fn lemma_roundtrip(self, prefix: Seq<u8>, suffix: Seq<u8>)
        ensures
            self.wire().len() == 8,
            KeyReleasedParameters::parse(prefix + self.wire() + suffix, prefix.len() as int) == Some(self),
    {
        let all = prefix + self.wire() + suffix;
        let p0 = prefix;
        let s0 = suffix;
        self.key_code.lemma_roundtrip(p0, s0);
        assert(all =~= p0 + self.key_code.wire() + s0);
    }

    /// Appends the value's bytes and returns their number.
    pub fn write_at(&self, buffer: &mut Vec<u8>) -> (size: usize)
        ensures
            final(buffer)@ == old(buffer)@ + self.wire(),
            size == 8,
    {
        self.key_code.write_at(buffer);
        proof {
            assert(buffer@ =~= old(buffer)@ + self.wire());
            self.lemma_roundtrip(Seq::empty(), Seq::empty());
        }
        8
    }

    /// The value refers to no further data: nothing is appended.
    pub fn write_references_at(&self, buffer: &mut Vec<u8>) -> (size: usize)
        ensures
            final(buffer)@ == old(buffer)@,
            size == 0,
    {
        0
    }

    /// Reads the value at `position`; the size read is its fixed size.
    pub fn reconstruct_at_inline(bytes: &[u8], position: usize) -> (read: Option<(KeyReleasedParameters, usize)>)
        ensures
            read == (match KeyReleasedParameters::parse(bytes@, position as int) { Some(v) => Some((v, 8usize)), None => None }),
    {
        if position > bytes.len() || bytes.len() - position < 8 {
            return None;
        }
        let key_code = match KeyCode::reconstruct_at_inline(bytes, position + 0) { Some((v, _)) => v, None => return None };
        Some((KeyReleasedParameters { key_code }, 8))
    }

    /// Reads the value whose fixed part is at `object`; it has no
    /// references, so the size read from `references` is 0.
    pub fn reconstruct_at(bytes: &[u8], object: usize, references: usize) -> (read: Option<(KeyReleasedParameters, usize)>)
        ensures
            read == (match KeyReleasedParameters::parse(bytes@, object as int) { Some(v) => Some((v, 0usize)), None => None }),
    {
        match KeyReleasedParameters::reconstruct_at_inline(bytes, object) {
            Some((v, _)) => Some((v, 0)),
            None => None,
        }
    }
}

/// Event: a key was pressed.
#[derive(Clone, Copy, PartialEq, Eq, Structural, Debug)]
pub struct KeyPressedParameters {
    pub key_code: KeyCode,
}

impl KeyPressedParameters {
    /// Bytes that a value occupies in a message.
    pub open spec fn wire_size() -> nat { 8nat }

    /// The bytes of the value in a message: key.
    pub open spec fn wire(self) -> Seq<u8> {
        self.key_code.wire()
    }

    /// The value whose bytes start at `pos`, or `None` if the bytes end before it does.
    pub open spec fn parse(bytes: Seq<u8>, pos: int) -> Option<KeyPressedParameters> {
        if fits(bytes, pos, 8) && KeyCode::parse(bytes, pos + 0) is Some {
            Some(KeyPressedParameters { key_code: KeyCode::parse(bytes, pos + 0).unwrap() })
        } else {
            None
        }
    }

    /// A value placed between any other bytes is parsed back.
    pub proof fn lemma_roundtrip(self, prefix: Seq<u8>, suffix: Seq<u8>)
        ensures
            self.wire().len() == 8,
            KeyPressedParameters::parse(prefix + self.wire() + suffix, prefix.len() as int) == Some(self),
    {
        let all = prefix + self.wire() + suffix;
        let p0 = prefix;
        let s0 = suffix;
        self.key_code.lemma_roundtrip(p0, s0);
        assert(all =~= p0 + self.key_code.wire() + s0);
    }

    /// Appends the value's bytes and returns their number.
    pub fn write_at(&self, buffer: &mut Vec<u8>) -> (size: usize)
        ensures
            final(buffer)@ == old(buffer)@ + self.wire(),
            size == 8,
    {
        self.key_code.write_at(buffer);
        proof {
            assert(buffer@ =~= old(buffer)@ + self.wire());
            self.lemma_roundtrip(Seq::empty(), Seq::empty());
        }
        8
    }

    /// The value refers to no further data: nothing is appended.
    pub fn write_references_at(&self, buffer: &mut Vec<u8>) -> (size: usize)
        ensures
            final(buffer)@ == old(buffer)@,
            size == 0,
    {
        0
    }

    /// Reads the value at `position`; the size read is its fixed size.
    pub fn reconstruct_at_inline(bytes: &[u8], position: usize) -> (read: Option<(KeyPressedParameters, usize)>)
        ensures
            read == (match KeyPressedParameters::parse(bytes@, position as int) { Some(v) => Some((v, 8usize)), None => None }),
    {
        if position > bytes.len() || bytes.len() - position < 8 {
            return None;
        }
        let key_code = match KeyCode::reconstruct_at_inline(bytes, position + 0) { Some((v, _)) => v, None => return None };
        Some((KeyPressedParameters { key_code }, 8))
    }

    /// Reads the value whose fixed part is at `object`; it has no
    /// references, so the size read from `references` is 0.
    pub fn reconstruct_at(bytes: &[u8], object: usize, references: usize) -> (read: Option<(KeyPressedParameters, usize)>)
        ensures
            read == (match KeyPressedParameters::parse(bytes@, object as int) { Some(v) => Some((v, 0usize)), None => None }),
    {
        match KeyPressedParameters::reconstruct_at_inline(bytes, object) {
            Some((v, _)) => Some((v, 0)),
            None => None,
        }
    }
}

/// Event: a character was typed (its Unicode scalar value).
#[derive(Clone, Copy, PartialEq, Eq, Structural, Debug)]
pub struct CharacterInputParameters {
    pub character: u64,
}

impl CharacterInputParameters {
    /// Bytes that a value occupies in a message.
    pub open spec fn wire_size() -> nat { 8nat }

    /// The bytes of the value in a message: character.
    pub open spec fn wire(self) -> Seq<u8> {
        le_u64(self.character)
    }

    /// The value whose bytes start at `pos`, or `None` if the bytes end before it does.
    pub open spec fn parse(bytes: Seq<u8>, pos: int) -> Option<CharacterInputParameters> {
        if fits(bytes, pos, 8) {
            Some(CharacterInputParameters { character: u64_at(bytes, pos + 0) })
        } else {
            None
        }
    }

    /// A value placed between any other bytes is parsed back.
    pub proof fn lemma_roundtrip(self, prefix: Seq<u8>, suffix: Seq<u8>)
        ensures
            self.wire().len() == 8,
            CharacterInputParameters::parse(prefix + self.wire() + suffix, prefix.len() as int) == Some(self),
    {
        let all = prefix + self.wire() + suffix;
        let p0 = prefix;
        let s0 = suffix;
        lemma_u64_at(p0, self.character, s0);
        lemma_u64_roundtrip(self.character);
        assert(all =~= p0 + le_u64(self.character) + s0);
    }

    /// Appends the value's bytes and returns their number.
    pub fn write_at(&self, buffer: &mut Vec<u8>) -> (size: usize)
        ensures
            final(buffer)@ == old(buffer)@ + self.wire(),
            size == 8,
    {
        push_u64(buffer, self.character);
        proof {
            assert(buffer@ =~= old(buffer)@ + self.wire());
            self.lemma_roundtrip(Seq::empty(), Seq::empty());
        }
        8
    }

    /// The value refers to no further data: nothing is appended.
    pub fn write_references_at(&self, buffer: &mut Vec<u8>) -> (size: usize)
        ensures
            final(buffer)@ == old(buffer)@,
            size == 0,
    {
        0
    }

    /// Reads the value at `position`; the size read is its fixed size.
    pub fn reconstruct_at_inline(bytes: &[u8], position: usize) -> (read: Option<(CharacterInputParameters, usize)>)
        ensures
            read == (match CharacterInputParameters::parse(bytes@, position as int) { Some(v) => Some((v, 8usize)), None => None }),
    {
        if position > bytes.len() || bytes.len() - position < 8 {
            return None;
        }
        let character = read_u64(bytes, position + 0).unwrap();
        Some((CharacterInputParameters { character }, 8))
    }

    /// Reads the value whose fixed part is at `object`; it has no
    /// references, so the size read from `references` is 0.
    pub fn reconstruct_at(bytes: &[u8], object: usize, references: usize) -> (read: Option<(CharacterInputParameters, usize)>)
        ensures
            read == (match CharacterInputParameters::parse(bytes@, object as int) { Some(v) => Some((v, 0usize)), None => None }),
    {
        match CharacterInputParameters::reconstruct_at_inline(bytes, object) {
            Some((v, _)) => Some((v, 0)),
            None => None,
        }
    }
}

/// Event: the pointer moved.
#[derive(Clone, Copy, PartialEq, Eq, Structural, Debug)]
pub struct PointerMovedParameters {
    pub position: Point,
}

impl PointerMovedParameters {
    /// Bytes that a value occupies in a message.
    pub open spec fn wire_size() -> nat { 16nat }

    /// The bytes of the value in a message: position.
    pub open spec fn wire(self) -> Seq<u8> {
        self.position.wire()
    }

    /// The value whose bytes start at `pos`, or `None` if the bytes end before it does.
    pub open spec fn parse(bytes: Seq<u8>, pos: int) -> Option<PointerMovedParameters> {
        if fits(bytes, pos, 16) && Point::parse(bytes, pos + 0) is Some {
            Some(PointerMovedParameters { position: Point::parse(bytes, pos + 0).unwrap() })
        } else {
            None
        }
    }

    /// A value placed between any other bytes is parsed back.
    pub proof fn lemma_roundtrip(self, prefix: Seq<u8>, suffix: Seq<u8>)
        ensures
            self.wire().len() == 16,
            PointerMovedParameters::parse(prefix + self.wire() + suffix, prefix.len() as int) == Some(self),
    {
        let all = prefix + self.wire() + suffix;
        let p0 = prefix;
        let s0 = suffix;
        self.position.lemma_roundtrip(p0, s0);
        assert(all =~= p0 + self.position.wire() + s0);
    }

    /// Appends the value's bytes and returns their number.
    pub fn write_at(&self, buffer: &mut Vec<u8>) -> (size: usize)
        ensures
            final(buffer)@ == old(buffer)@ + self.wire(),
            size == 16,
    {
        self.position.write_at(buffer);
        proof {
            assert(buffer@ =~= old(buffer)@ + self.wire());
            self.lemma_roundtrip(Seq::empty(), Seq::empty());
        }
        16
    }

    /// The value refers to no further data: nothing is appended.
    pub fn write_references_at(&self, buffer: &mut Vec<u8>) -> (size: usize)
        ensures
            final(buffer)@ == old(buffer)@,
            size == 0,
    {
        0
    }

    /// Reads the value at `position`; the size read is its fixed size.
    pub fn reconstruct_at_inline(bytes: &[u8], position: usize) -> (read: Option<(PointerMovedParameters, usize)>)
        ensures
            read == (match PointerMovedParameters::parse(bytes@, position as int) { Some(v) => Some((v, 16usize)), None => None }),
    {
        if position > bytes.len() || bytes.len() - position < 16 {
            return None;
        }
        let position = match Point::reconstruct_at_inline(bytes, position + 0) { Some((v, _)) => v, None => return None };
        Some((PointerMovedParameters { position }, 16))
    }

    /// Reads the value whose fixed part is at `object`; it has no
    /// references, so the size read from `references` is 0.
    pub fn reconstruct_at(bytes: &[u8], object: usize, references: usize) -> (read: Option<(PointerMovedParameters, usize)>)
        ensures
            read == (match PointerMovedParameters::parse(bytes@, object as int) { Some(v) => Some((v, 0usize)), None => None }),
    {
        match PointerMovedParameters::reconstruct_at_inline(bytes, object) {
            Some((v, _)) => Some((v, 0)),
            None => None,
        }
    }
}

/// Request to draw one pixel.
#[derive(Clone, Copy, PartialEq, Eq, Structural, Debug)]
pub struct DrawPixelDebugParameters {
    pub color: Color,
    pub position: Point,
}

impl DrawPixelDebugParameters {
    /// Bytes that a value occupies in a message.
    pub open spec fn wire_size() -> nat { 20nat }

    /// The bytes of the value in a message: colour, position.
    pub open spec fn wire(self) -> Seq<u8> {
        self.color.wire() + self.position.wire()
    }

    /// The value whose bytes start at `pos`, or `None` if the bytes end before it does.
    pub open spec fn parse(bytes: Seq<u8>, pos: int) -> Option<DrawPixelDebugParameters> {
        if fits(bytes, pos, 20) && Color::parse(bytes, pos + 0) is Some && Point::parse(bytes, pos + 4) is Some {
            Some(DrawPixelDebugParameters { color: Color::parse(bytes, pos + 0).unwrap(), position: Point::parse(bytes, pos + 4).unwrap() })
        } else {
            None
        }
    }

    /// A value placed between any other bytes is parsed back.
    pub proof fn lemma_roundtrip(self, prefix: Seq<u8>, suffix: Seq<u8>)
        ensures
            self.wire().len() == 20,
            DrawPixelDebugParameters::parse(prefix + self.wire() + suffix, prefix.len() as int) == Some(self),
    {
        let all = prefix + self.wire() + suffix;
        let p0 = prefix;
        let s0 = self.position.wire() + suffix;
        self.color.lemma_roundtrip(p0, s0);
        assert(all =~= p0 + self.color.wire() + s0);
        let p1 = prefix + self.color.wire();
        let s1 = suffix;
        self.position.lemma_roundtrip(p1, s1);
        assert(all =~= p1 + self.position.wire() + s1);
    }

    /// Appends the value's bytes and returns their number.
    pub fn write_at(&self, buffer: &mut Vec<u8>) -> (size: usize)
        ensures
            final(buffer)@ == old(buffer)@ + self.wire(),
            size == 20,
    {
        self.color.write_at(buffer);
        self.position.write_at(buffer);
        proof {
            assert(buffer@ =~= old(buffer)@ + self.wire());
            self.lemma_roundtrip(Seq::empty(), Seq::empty());
        }
        20
    }

    /// The value refers to no further data: nothing is appended.
    pub fn write_references_at(&self, buffer: &mut Vec<u8>) -> (size: usize)
        ensures
            final(buffer)@ == old(buffer)@,
            size == 0,
    {
        0
    }

    /// Reads the value at `position`; the size read is its fixed size.
    pub fn reconstruct_at_inline(bytes: &[u8], position: usize) -> (read: Option<(DrawPixelDebugParameters, usize)>)
        ensures
            read == (match DrawPixelDebugParameters::parse(bytes@, position as int) { Some(v) => Some((v, 20usize)), None => None }),
    {
        if position > bytes.len() || bytes.len() - position < 20 {
            return None;
        }
        let color = match Color::reconstruct_at_inline(bytes, position + 0) { Some((v, _)) => v, None => return None };
        let position = match Point::reconstruct_at_inline(bytes, position + 4) { Some((v, _)) => v, None => return None };
        Some((DrawPixelDebugParameters { color, position }, 20))
    }

    /// Reads the value whose fixed part is at `object`; it has no
    /// references, so the size read from `references` is 0.
    pub fn reconstruct_at(bytes: &[u8], object: usize, references: usize) -> (read: Option<(DrawPixelDebugParameters, usize)>)
        ensures
            read == (match DrawPixelDebugParameters::parse(bytes@, object as int) { Some(v) => Some((v, 0usize)), None => None }),
    {
        match DrawPixelDebugParameters::reconstruct_at_inline(bytes, object) {
            Some((v, _)) => Some((v, 0)),
            None => None,
        }
    }
}

/// Event: the console was resized.
#[derive(Clone, Copy, PartialEq, Eq, Structural, Debug)]
pub struct SizeChangedParameters {
    pub framebuffer_size: Size,
    pub text_size: Size,
}

impl SizeChangedParameters {
    /// Bytes that a value occupies in a message.
    pub open spec fn wire_size() -> nat { 32nat }

    /// The bytes of the value in a message: framebuffer size, text size.
    pub open spec fn wire(self) -> Seq<u8> {
        self.framebuffer_size.wire() + self.text_size.wire()
    }

    /// The value whose bytes start at `pos`, or `None` if the bytes end before it does.
    pub open spec fn parse(bytes: Seq<u8>, pos: int) -> Option<SizeChangedParameters> {
        if fits(bytes, pos, 32) && Size::parse(bytes, pos + 0) is Some && Size::parse(bytes, pos + 16) is Some {
            Some(SizeChangedParameters { framebuffer_size: Size::parse(bytes, pos + 0).unwrap(), text_size: Size::parse(bytes, pos + 16).unwrap() })
        } else {
            None
        }
    }

    /// A value placed between any other bytes is parsed back.
    pub proof fn lemma_roundtrip(self, prefix: Seq<u8>, suffix: Seq<u8>)
        ensures
            self.wire().len() == 32,
            SizeChangedParameters::parse(prefix + self.wire() + suffix, prefix.len() as int) == Some(self),
    {
        let all = prefix + self.wire() + suffix;
        let p0 = prefix;
        let s0 = self.text_size.wire() + suffix;
        self.framebuffer_size.lemma_roundtrip(p0, s0);
        assert(all =~= p0 + self.framebuffer_size.wire() + s0);
        let p1 = prefix + self.framebuffer_size.wire();
        let s1 = suffix;
        self.text_size.lemma_roundtrip(p1, s1);
        assert(all =~= p1 + self.text_size.wire() + s1);
    }

    /// Appends the value's bytes and returns their number.
    pub fn write_at(&self, buffer: &mut Vec<u8>) -> (size: usize)
        ensures
            final(buffer)@ == old(buffer)@ + self.wire(),
            size == 32,
    {
        self.framebuffer_size.write_at(buffer);
        self.text_size.write_at(buffer);
        proof {
            assert(buffer@ =~= old(buffer)@ + self.wire());
            self.lemma_roundtrip(Seq::empty(), Seq::empty());
        }
        32
    }

    /// The value refers to no further data: nothing is appended.
    pub fn write_references_at(&self, buffer: &mut Vec<u8>) -> (size: usize)
        ensures
            final(buffer)@ == old(buffer)@,
            size == 0,
    {
        0
    }

    /// Reads the value at `position`; the size read is its fixed size.
    pub fn reconstruct_at_inline(bytes: &[u8], position: usize) -> (read: Option<(SizeChangedParameters, usize)>)
        ensures
            read == (match SizeChangedParameters::parse(bytes@, position as int) { Some(v) => Some((v, 32usize)), None => None }),
    {
        if position > bytes.len() || bytes.len() - position < 32 {
            return None;
        }
        let framebuffer_size = match Size::reconstruct_at_inline(bytes, position + 0) { Some((v, _)) => v, None => return None };
        let text_size = match Size::reconstruct_at_inline(bytes, position + 16) { Some((v, _)) => v, None => return None };
        Some((SizeChangedParameters { framebuffer_size, text_size }, 32))
    }

    /// Reads the value whose fixed part is at `object`; it has no
    /// references, so the size read from `references` is 0.
    pub fn reconstruct_at(bytes: &[u8], object: usize, references: usize) -> (read: Option<(SizeChangedParameters, usize)>)
        ensures
            read == (match SizeChangedParameters::parse(bytes@, object as int) { Some(v) => Some((v, 0usize)), None => None }),
    {
        match SizeChangedParameters::reconstruct_at_inline(bytes, object) {
            Some((v, _)) => Some((v, 0)),
            None => None,
        }
    }
}

} // verus!
