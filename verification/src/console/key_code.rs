//! Keys of the console protocol.

use vstd::prelude::*;
use crate::wire::{fits, i64_at, le_i64, le_u64, lemma_i64_at, lemma_u64_at, lemma_u64_roundtrip, push_i64, push_u64, read_i64, read_u64, u64_at};

verus! {

/// A key of the console keyboard.
#[derive(Clone, Copy, PartialEq, Eq, Structural, Debug)]
pub enum KeyCode {
    A,
    B,
    C,
    D,
    E,
    F,
    G,
    H,
    I,
    J,
    K,
    L,
    Enter,
    Backspace,
    LeftArrow,
    RightArrow,
    UpArrow,
    DownArrow,
    Delete,
    Home,
    End,
}

impl KeyCode {
    /// The tag of a variant: its position in the declaration, from 0.
    pub open spec fn tag(self) -> u64 {
        match self {
            KeyCode::A => 0,
            KeyCode::B => 1,
            KeyCode::C => 2,
            KeyCode::D => 3,
            KeyCode::E => 4,
            KeyCode::F => 5,
            KeyCode::G => 6,
            KeyCode::H => 7,
            KeyCode::I => 8,
            KeyCode::J => 9,
            KeyCode::K => 10,
            KeyCode::L => 11,
            KeyCode::Enter => 12,
            KeyCode::Backspace => 13,
            KeyCode::LeftArrow => 14,
            KeyCode::RightArrow => 15,
            KeyCode::UpArrow => 16,
            KeyCode::DownArrow => 17,
            KeyCode::Delete => 18,
            KeyCode::Home => 19,
            KeyCode::End => 20,
        }
    }

    /// The variant of a tag, or `None` for a tag that names none.
    pub open spec fn from_tag(tag: u64) -> Option<KeyCode> {
        if tag == 0 {
            Some(KeyCode::A)
        } else if tag == 1 {
            Some(KeyCode::B)
        } else if tag == 2 {
            Some(KeyCode::C)
        } else if tag == 3 {
            Some(KeyCode::D)
        } else if tag == 4 {
            Some(KeyCode::E)
        } else if tag == 5 {
            Some(KeyCode::F)
        } else if tag == 6 {
            Some(KeyCode::G)
        } else if tag == 7 {
            Some(KeyCode::H)
        } else if tag == 8 {
            Some(KeyCode::I)
        } else if tag == 9 {
            Some(KeyCode::J)
        } else if tag == 10 {
            Some(KeyCode::K)
        } else if tag == 11 {
            Some(KeyCode::L)
        } else if tag == 12 {
            Some(KeyCode::Enter)
        } else if tag == 13 {
            Some(KeyCode::Backspace)
        } else if tag == 14 {
            Some(KeyCode::LeftArrow)
        } else if tag == 15 {
            Some(KeyCode::RightArrow)
        } else if tag == 16 {
            Some(KeyCode::UpArrow)
        } else if tag == 17 {
            Some(KeyCode::DownArrow)
        } else if tag == 18 {
            Some(KeyCode::Delete)
        } else if tag == 19 {
            Some(KeyCode::Home)
        } else if tag == 20 {
            Some(KeyCode::End)
        } else {
            None
        }
    }

    /// The bytes of the value in a message: its tag as a 64-bit value.
    pub open spec fn wire(self) -> Seq<u8> {
        le_u64(self.tag())
    }

    /// The value whose bytes start at `pos`, or `None` if the bytes end
    /// before it does or hold a tag that names no variant.
    pub open spec fn parse(bytes: Seq<u8>, pos: int) -> Option<KeyCode> {
        if fits(bytes, pos, 8) {
            KeyCode::from_tag(u64_at(bytes, pos))
        } else {
            None
        }
    }

    /// A value placed between any other bytes is parsed back.
    pub proof fn lemma_roundtrip(self, prefix: Seq<u8>, suffix: Seq<u8>)
        ensures
            self.wire().len() == 8,
            KeyCode::parse(prefix + self.wire() + suffix, prefix.len() as int) == Some(self),
    {
        lemma_u64_at(prefix, self.tag(), suffix);
        lemma_u64_roundtrip(self.tag());
    }

    /// The tag of the variant.
    pub fn to_tag(&self) -> (tag: u64)
        ensures
            tag == self.tag(),
    {
        match self {
            KeyCode::A => 0,
            KeyCode::B => 1,
            KeyCode::C => 2,
            KeyCode::D => 3,
            KeyCode::E => 4,
            KeyCode::F => 5,
            KeyCode::G => 6,
            KeyCode::H => 7,
            KeyCode::I => 8,
            KeyCode::J => 9,
            KeyCode::K => 10,
            KeyCode::L => 11,
            KeyCode::Enter => 12,
            KeyCode::Backspace => 13,
            KeyCode::LeftArrow => 14,
            KeyCode::RightArrow => 15,
            KeyCode::UpArrow => 16,
            KeyCode::DownArrow => 17,
            KeyCode::Delete => 18,
            KeyCode::Home => 19,
            KeyCode::End => 20,
        }
    }

    /// The variant of a tag, or `None` for a tag that names none.
    pub fn tag_to_variant(tag: u64) -> (v: Option<KeyCode>)
        ensures
            v == KeyCode::from_tag(tag),
    {
        match tag {
            0 => Some(KeyCode::A),
            1 => Some(KeyCode::B),
            2 => Some(KeyCode::C),
            3 => Some(KeyCode::D),
            4 => Some(KeyCode::E),
            5 => Some(KeyCode::F),
            6 => Some(KeyCode::G),
            7 => Some(KeyCode::H),
            8 => Some(KeyCode::I),
            9 => Some(KeyCode::J),
            10 => Some(KeyCode::K),
            11 => Some(KeyCode::L),
            12 => Some(KeyCode::Enter),
            13 => Some(KeyCode::Backspace),
            14 => Some(KeyCode::LeftArrow),
            15 => Some(KeyCode::RightArrow),
            16 => Some(KeyCode::UpArrow),
            17 => Some(KeyCode::DownArrow),
            18 => Some(KeyCode::Delete),
            19 => Some(KeyCode::Home),
            20 => Some(KeyCode::End),
            _ => None,
        }
    }

    /// Appends the value's bytes and returns their number.
    pub fn write_at(&self, buffer: &mut Vec<u8>) -> (size: usize)
        ensures
            final(buffer)@ == old(buffer)@ + self.wire(),
            size == 8,
    {
        push_u64(buffer, self.to_tag());
        proof { lemma_u64_roundtrip(self.tag()); }
        8
    }

    /// No variant refers to further data: nothing is appended.
    pub fn write_references_at(&self, buffer: &mut Vec<u8>) -> (size: usize)
        ensures
            final(buffer)@ == old(buffer)@,
            size == 0,
    {
        0
    }

    /// Reads the value at `position`; the size read is 8.
    pub fn reconstruct_at_inline(bytes: &[u8], position: usize) -> (read: Option<(KeyCode, usize)>)
        ensures
            read == (match KeyCode::parse(bytes@, position as int) { Some(v) => Some((v, 8usize)), None => None }),
    {
        match read_u64(bytes, position) {
            Some(tag) => match KeyCode::tag_to_variant(tag) {
                Some(v) => Some((v, 8)),
                None => None,
            },
            None => None,
        }
    }

    /// Reads the value whose tag is at `object`; no variant has
    /// references, so the size read from `references` is 0.
    pub fn reconstruct_at(bytes: &[u8], object: usize, references: usize) -> (read: Option<(KeyCode, usize)>)
        ensures
            read == (match KeyCode::parse(bytes@, object as int) { Some(v) => Some((v, 0usize)), None => None }),
    {
        match KeyCode::reconstruct_at_inline(bytes, object) {
            Some((v, _)) => Some((v, 0)),
            None => None,
        }
    }
}

} // verus!
