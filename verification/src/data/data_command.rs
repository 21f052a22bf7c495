//! Editing commands of the data protocol.

use vstd::prelude::*;
use crate::wire::{fits, i64_at, le_i64, le_u64, lemma_i64_at, lemma_u64_at, lemma_u64_roundtrip, push_i64, push_u64, read_i64, read_u64, u64_at};
use crate::layout::Layout;

verus! {

/// An editing command sent to a data client.
#[derive(Clone, Copy, PartialEq, Eq, Structural, Debug)]
pub enum DataCommand {
    Enter,
    Backspace,
    LeftArrow,
    RightArrow,
    UpArrow,
    DownArrow,
    Delete,
    Home,
    End,
}

impl DataCommand {
    /// The tag of a variant: its position in the declaration, from 0.
    pub open spec fn tag(self) -> u64 {
        match self {
            DataCommand::Enter => 0,
            DataCommand::Backspace => 1,
            DataCommand::LeftArrow => 2,
            DataCommand::RightArrow => 3,
            DataCommand::UpArrow => 4,
            DataCommand::DownArrow => 5,
            DataCommand::Delete => 6,
            DataCommand::Home => 7,
            DataCommand::End => 8,
        }
    }

    /// The variant of a tag, or `None` for a tag that names none.
    pub open spec fn from_tag(tag: u64) -> Option<DataCommand> {
        if tag == 0 {
            Some(DataCommand::Enter)
        } else if tag == 1 {
            Some(DataCommand::Backspace)
        } else if tag == 2 {
            Some(DataCommand::LeftArrow)
        } else if tag == 3 {
            Some(DataCommand::RightArrow)
        } else if tag == 4 {
            Some(DataCommand::UpArrow)
        } else if tag == 5 {
            Some(DataCommand::DownArrow)
        } else if tag == 6 {
            Some(DataCommand::Delete)
        } else if tag == 7 {
            Some(DataCommand::Home)
        } else if tag == 8 {
            Some(DataCommand::End)
        } else {
            None
        }
    }

    /// The bytes of the value in a message: its tag as a 64-bit value.
    pub open spec fn wire(self) -> Seq<u8> {
        le_u64(self.tag())
    }

    /// The value whose bytes start at `pos`, or `None` if the bytes end
    /// before it does or hold a tag that names no variant.
    pub open spec fn parse(bytes: Seq<u8>, pos: int) -> Option<DataCommand> {
        if fits(bytes, pos, 8) {
            DataCommand::from_tag(u64_at(bytes, pos))
        } else {
            None
        }
    }

    /// A value placed between any other bytes is parsed back.
    pub proof fn lemma_roundtrip(self, prefix: Seq<u8>, suffix: Seq<u8>)
        ensures
            self.wire().len() == 8,
            DataCommand::parse(prefix + self.wire() + suffix, prefix.len() as int) == Some(self),
    {
        lemma_u64_at(prefix, self.tag(), suffix);
        lemma_u64_roundtrip(self.tag());
    }

    /// The tag of the variant.
    pub fn to_tag(&self) -> (tag: u64)
        ensures
            tag == self.tag(),
    {
        match self {
            DataCommand::Enter => 0,
            DataCommand::Backspace => 1,
            DataCommand::LeftArrow => 2,
            DataCommand::RightArrow => 3,
            DataCommand::UpArrow => 4,
            DataCommand::DownArrow => 5,
            DataCommand::Delete => 6,
            DataCommand::Home => 7,
            DataCommand::End => 8,
        }
    }

    /// The variant of a tag, or `None` for a tag that names none.
    pub fn tag_to_variant(tag: u64) -> (v: Option<DataCommand>)
        ensures
            v == DataCommand::from_tag(tag),
    {
        match tag {
            0 => Some(DataCommand::Enter),
            1 => Some(DataCommand::Backspace),
            2 => Some(DataCommand::LeftArrow),
            3 => Some(DataCommand::RightArrow),
            4 => Some(DataCommand::UpArrow),
            5 => Some(DataCommand::DownArrow),
            6 => Some(DataCommand::Delete),
            7 => Some(DataCommand::Home),
            8 => Some(DataCommand::End),
            _ => None,
        }
    }

    /// Appends the value's bytes and returns their number.
    pub fn write_at(&self, buffer: &mut Vec<u8>) -> (size: usize)
        ensures
            final(buffer)@ == old(buffer)@ + self.wire(),
            size == 8,
    {
        push_u64(buffer, self.to_tag());
        proof { lemma_u64_roundtrip(self.tag()); }
        8
    }

    /// No variant refers to further data: nothing is appended.
    pub fn write_references_at(&self, buffer: &mut Vec<u8>) -> (size: usize)
        ensures
            final(buffer)@ == old(buffer)@,
            size == 0,
    {
        0
    }

    /// Reads the value at `position`; the size read is 8.
    pub fn reconstruct_at_inline(bytes: &[u8], position: usize) -> (read: Option<(DataCommand, usize)>)
        ensures
            read == (match DataCommand::parse(bytes@, position as int) { Some(v) => Some((v, 8usize)), None => None }),
    {
        match read_u64(bytes, position) {
            Some(tag) => match DataCommand::tag_to_variant(tag) {
                Some(v) => Some((v, 8)),
                None => None,
            },
            None => None,
        }
    }

    /// Reads the value whose tag is at `object`; no variant has
    /// references, so the size read from `references` is 0.
    pub fn reconstruct_at(bytes: &[u8], object: usize, references: usize) -> (read: Option<(DataCommand, usize)>)
        ensures
            read == (match DataCommand::parse(bytes@, object as int) { Some(v) => Some((v, 0usize)), None => None }),
    {
        match DataCommand::reconstruct_at_inline(bytes, object) {
            Some((v, _)) => Some((v, 0)),
            None => None,
        }
    }
}

impl DeepView for DataCommand {
    type V = DataCommand;

    open spec fn deep_view(&self) -> DataCommand {
        *self
    }
}

impl Layout for DataCommand {
    open spec fn fixed_size() -> nat { 8 }

    open spec fn fixed_part(&self) -> Seq<u8> { self.wire() }

    open spec fn references(&self) -> Seq<u8> { Seq::empty() }

    open spec fn parse_at(bytes: Seq<u8>, object: int, refs: int) -> Option<(DataCommand, nat)> {
        if 0 <= refs <= bytes.len() {
            match DataCommand::parse(bytes, object) {
                Some(v) => Some((v, 0nat)),
                None => None,
            }
        } else {
            None
        }
    }

    proof fn lemma_fixed_size(&self) {
        self.lemma_roundtrip(Seq::empty(), Seq::empty());
        assert(Seq::<u8>::empty() + self.wire() + Seq::<u8>::empty() =~= self.wire());
    }

    proof fn lemma_parse_bounds(bytes: Seq<u8>, object: int, refs: int) {
    }

    proof fn lemma_placed(&self, bytes: Seq<u8>, object: int, refs: int) {
        let w = self.wire();
        let prefix = bytes.subrange(0, object);
        let suffix = bytes.subrange(object + w.len(), bytes.len() as int);
        assert(bytes =~= prefix + w + suffix);
        self.lemma_roundtrip(prefix, suffix);
    }

    fn fixed_len() -> (n: usize) {
        8
    }

    fn write_fixed(&self, buffer: &mut Vec<u8>) {
        let _ = self.write_at(buffer);
    }

    fn write_references(&self, buffer: &mut Vec<u8>) -> (size: usize) {
        proof {
            assert(buffer@ =~= buffer@ + Seq::<u8>::empty());
        }
        0
    }

    fn read_at(bytes: &[u8], object: usize, refs: usize) -> (read: Option<(DataCommand, usize)>) {
        if refs > bytes.len() {
            return None;
        }
        match DataCommand::reconstruct_at_inline(bytes, object) {
            Some((v, _)) => Some((v, 0)),
            None => None,
        }
    }
}

} // verus!
