//! Pointer buttons of the console protocol.

use vstd::prelude::*;
use crate::wire::{fits, i64_at, le_i64, le_u64, lemma_i64_at, lemma_u64_at, lemma_u64_roundtrip, push_i64, push_u64, read_i64, read_u64, u64_at};
use crate::layout::Layout;

verus! {

/// A button of the console pointer.
#[derive(Clone, Copy, PartialEq, Eq, Structural, Debug)]
pub enum PointerButton {
    Left,
    Middle,
    Right,
}

impl PointerButton {
    /// The tag of a variant: its position in the declaration, from 0.
    pub open spec fn tag(self) -> u64 {
        match self {
            PointerButton::Left => 0,
            PointerButton::Middle => 1,
            PointerButton::Right => 2,
        }
    }

    /// The variant of a tag, or `None` for a tag that names none.
    pub open spec fn from_tag(tag: u64) -> Option<PointerButton> {
        if tag == 0 {
            Some(PointerButton::Left)
        } else if tag == 1 {
            Some(PointerButton::Middle)
        } else if tag == 2 {
            Some(PointerButton::Right)
        } else {
            None
        }
    }

    /// The bytes of the value in a message: its tag as a 64-bit value.
    pub open spec fn wire(self) -> Seq<u8> {
        le_u64(self.tag())
    }

    /// The value whose bytes start at `pos`, or `None` if the bytes end
    /// before it does or hold a tag that names no variant.
    pub open spec fn parse(bytes: Seq<u8>, pos: int) -> Option<PointerButton> {
        if fits(bytes, pos, 8) {
            PointerButton::from_tag(u64_at(bytes, pos))
        } else {
            None
        }
    }

    /// A value placed between any other bytes is parsed back.
    pub proof fn lemma_roundtrip(self, prefix: Seq<u8>, suffix: Seq<u8>)
        ensures
            self.wire().len() == 8,
            PointerButton::parse(prefix + self.wire() + suffix, prefix.len() as int) == Some(self),
    {
        lemma_u64_at(prefix, self.tag(), suffix);
        lemma_u64_roundtrip(self.tag());
    }

    /// The tag of the variant.
    pub fn to_tag(&self) -> (tag: u64)
        ensures
            tag == self.tag(),
    {
        match self {
            PointerButton::Left => 0,
            PointerButton::Middle => 1,
            PointerButton::Right => 2,
        }
    }

    /// The variant of a tag, or `None` for a tag that names none.
    pub fn tag_to_variant(tag: u64) -> (v: Option<PointerButton>)
        ensures
            v == PointerButton::from_tag(tag),
    {
        match tag {
            0 => Some(PointerButton::Left),
            1 => Some(PointerButton::Middle),
            2 => Some(PointerButton::Right),
            _ => None,
        }
    }

    /// Appends the value's bytes and returns their number.
    pub fn write_at(&self, buffer: &mut Vec<u8>) -> (size: usize)
        ensures
            final(buffer)@ == old(buffer)@ + self.wire(),
            size == 8,
    {
        push_u64(buffer, self.to_tag());
        proof { lemma_u64_roundtrip(self.tag()); }
        8
    }

    /// No variant refers to further data: nothing is appended.
    pub fn write_references_at(&self, buffer: &mut Vec<u8>) -> (size: usize)
        ensures
            final(buffer)@ == old(buffer)@,
            size == 0,
    {
        0
    }

    /// Reads the value at `position`; the size read is 8.
    pub fn reconstruct_at_inline(bytes: &[u8], position: usize) -> (read: Option<(PointerButton, usize)>)
        ensures
            read == (match PointerButton::parse(bytes@, position as int) { Some(v) => Some((v, 8usize)), None => None }),
    {
        match read_u64(bytes, position) {
            Some(tag) => match PointerButton::tag_to_variant(tag) {
                Some(v) => Some((v, 8)),
                None => None,
            },
            None => None,
        }
    }

    /// Reads the value whose tag is at `object`; no variant has
    /// references, so the size read from `references` is 0.
    pub fn reconstruct_at(bytes: &[u8], object: usize, references: usize) -> (read: Option<(PointerButton, usize)>)
        ensures
            read == (match PointerButton::parse(bytes@, object as int) { Some(v) => Some((v, 0usize)), None => None }),
    {
        match PointerButton::reconstruct_at_inline(bytes, object) {
            Some((v, _)) => Some((v, 0)),
            None => None,
        }
    }
}

impl DeepView for PointerButton {
    type V = PointerButton;

    open spec fn deep_view(&self) -> PointerButton {
        *self
    }
}

impl Layout for PointerButton {
    open spec fn fixed_size() -> nat { 8 }

    open spec fn fixed_part(&self) -> Seq<u8> { self.wire() }

    open spec fn references(&self) -> Seq<u8> { Seq::empty() }

    open spec fn parse_at(bytes: Seq<u8>, object: int, refs: int) -> Option<(PointerButton, nat)> {
        if 0 <= refs <= bytes.len() {
            match PointerButton::parse(bytes, object) {
                Some(v) => Some((v, 0nat)),
                None => None,
            }
        } else {
            None
        }
    }

    proof fn lemma_fixed_size(&self) {
        self.lemma_roundtrip(Seq::empty(), Seq::empty());
        assert(Seq::<u8>::empty() + self.wire() + Seq::<u8>::empty() =~= self.wire());
    }

    proof fn lemma_parse_bounds(bytes: Seq<u8>, object: int, refs: int) {
    }

    proof fn lemma_placed(&self, bytes: Seq<u8>, object: int, refs: int) {
        let w = self.wire();
        let prefix = bytes.subrange(0, object);
        let suffix = bytes.subrange(object + w.len(), bytes.len() as int);
        assert(bytes =~= prefix + w + suffix);
        self.lemma_roundtrip(prefix, suffix);
    }

    fn fixed_len() -> (n: usize) {
        8
    }

    fn write_fixed(&self, buffer: &mut Vec<u8>) {
        let _ = self.write_at(buffer);
    }

    fn write_references(&self, buffer: &mut Vec<u8>) -> (size: usize) {
        proof {
            assert(buffer@ =~= buffer@ + Seq::<u8>::empty());
        }
        0
    }

    fn read_at(bytes: &[u8], object: usize, refs: usize) -> (read: Option<(PointerButton, usize)>) {
        if refs > bytes.len() {
            return None;
        }
        match PointerButton::reconstruct_at_inline(bytes, object) {
            Some((v, _)) => Some((v, 0)),
            None => None,
        }
    }
}

} // verus!
