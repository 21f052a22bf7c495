//! Editing commands in the older form of the data protocol.

use vstd::prelude::*;
use crate::layout::{lemma_split, parse_inline, read_inline, write_inline, Layout};
use crate::wire::{fits, le_u64, lemma_u64_at, lemma_u64_roundtrip, push_u64, read_u64, u64_at};

verus! {

/// An editing command, as an older form of the data protocol sends it.
#[derive(Clone, Copy, PartialEq, Eq, Structural, Debug)]
pub enum Command {
    Enter,
    Backspace,
    LeftArrow,
    RightArrow,
    UpArrow,
    DownArrow,
    Delete,
    Home,
    End,
}

impl Command {
    /// The tag of a variant: its position in the declaration, from 0.
    pub open spec fn tag(self) -> u64 {
        match self {
            Command::Enter => 0,
            Command::Backspace => 1,
            Command::LeftArrow => 2,
            Command::RightArrow => 3,
            Command::UpArrow => 4,
            Command::DownArrow => 5,
            Command::Delete => 6,
            Command::Home => 7,
            Command::End => 8,
        }
    }

    /// The variant of a tag, or `None` for a tag that names none.
    pub open spec fn from_tag(tag: u64) -> Option<Command> {
        if tag == 0 {
            Some(Command::Enter)
        } else if tag == 1 {
            Some(Command::Backspace)
        } else if tag == 2 {
            Some(Command::LeftArrow)
        } else if tag == 3 {
            Some(Command::RightArrow)
        } else if tag == 4 {
            Some(Command::UpArrow)
        } else if tag == 5 {
            Some(Command::DownArrow)
        } else if tag == 6 {
            Some(Command::Delete)
        } else if tag == 7 {
            Some(Command::Home)
        } else if tag == 8 {
            Some(Command::End)
        } else {
            None
        }
    }

    /// The bytes of the value in a message: its tag as a 64-bit value.
    pub open spec fn wire(self) -> Seq<u8> {
        le_u64(self.tag())
    }

    /// The value whose bytes start at `pos`, or `None` if the bytes end
    /// before it does or hold a tag that names no variant.
    pub open spec fn parse(bytes: Seq<u8>, pos: int) -> Option<Command> {
        if fits(bytes, pos, 8) {
            Command::from_tag(u64_at(bytes, pos))
        } else {
            None
        }
    }

    /// A value placed between any other bytes is parsed back.
    pub proof fn lemma_roundtrip(self, prefix: Seq<u8>, suffix: Seq<u8>)
        ensures
            self.wire().len() == 8,
            Command::parse(prefix + self.wire() + suffix, prefix.len() as int) == Some(self),
    {
        lemma_u64_at(prefix, self.tag(), suffix);
        lemma_u64_roundtrip(self.tag());
    }

    /// The tag of the variant.
    pub fn to_tag(&self) -> (tag: u64)
        ensures
            tag == self.tag(),
    {
        match self {
            Command::Enter => 0,
            Command::Backspace => 1,
            Command::LeftArrow => 2,
            Command::RightArrow => 3,
            Command::UpArrow => 4,
            Command::DownArrow => 5,
            Command::Delete => 6,
            Command::Home => 7,
            Command::End => 8,
        }
    }

    /// The variant of a tag, or `None` for a tag that names none.
    pub fn tag_to_variant(tag: u64) -> (v: Option<Command>)
        ensures
            v == Command::from_tag(tag),
    {
        match tag {
            0 => Some(Command::Enter),
            1 => Some(Command::Backspace),
            2 => Some(Command::LeftArrow),
            3 => Some(Command::RightArrow),
            4 => Some(Command::UpArrow),
            5 => Some(Command::DownArrow),
            6 => Some(Command::Delete),
            7 => Some(Command::Home),
            8 => Some(Command::End),
            _ => None,
        }
    }

    /// Appends the value's bytes and returns their number.
    pub fn write_at(&self, buffer: &mut Vec<u8>) -> (size: usize)
        ensures
            final(buffer)@ == old(buffer)@ + self.wire(),
            size == 8,
    {
        push_u64(buffer, self.to_tag());
        proof { lemma_u64_roundtrip(self.tag()); }
        8
    }

    /// No variant refers to further data: nothing is appended.
    pub fn write_references_at(&self, buffer: &mut Vec<u8>) -> (size: usize)
        ensures
            final(buffer)@ == old(buffer)@,
            size == 0,
    {
        0
    }

    /// Reads the value at `position`; the size read is 8.
    pub fn reconstruct_at_inline(bytes: &[u8], position: usize) -> (read: Option<(Command, usize)>)
        ensures
            read == (match Command::parse(bytes@, position as int) { Some(v) => Some((v, 8usize)), None => None }),
    {
        match read_u64(bytes, position) {
            Some(tag) => match Command::tag_to_variant(tag) {
                Some(v) => Some((v, 8)),
                None => None,
            },
            None => None,
        }
    }

    /// Reads the value whose tag is at `object`; no variant has
    /// references, so the size read from `references` is 0.
    pub fn reconstruct_at(bytes: &[u8], object: usize, references: usize) -> (read: Option<(Command, usize)>)
        ensures
            read == (match Command::parse(bytes@, object as int) { Some(v) => Some((v, 0usize)), None => None }),
    {
        match Command::reconstruct_at_inline(bytes, object) {
            Some((v, _)) => Some((v, 0)),
            None => None,
        }
    }
}

impl DeepView for Command {
    type V = Command;

    open spec fn deep_view(&self) -> Command {
        *self
    }
}

impl Layout for Command {
    open spec fn fixed_size() -> nat { 8 }

    open spec fn fixed_part(&self) -> Seq<u8> { self.wire() }

    open spec fn references(&self) -> Seq<u8> { Seq::empty() }

    open spec fn parse_at(bytes: Seq<u8>, object: int, refs: int) -> Option<(Command, nat)> {
        if 0 <= refs <= bytes.len() {
            match Command::parse(bytes, object) {
                Some(v) => Some((v, 0nat)),
                None => None,
            }
        } else {
            None
        }
    }

    proof fn lemma_fixed_size(&self) {
        self.lemma_roundtrip(Seq::empty(), Seq::empty());
        assert(Seq::<u8>::empty() + self.wire() + Seq::<u8>::empty() =~= self.wire());
    }

    proof fn lemma_parse_bounds(bytes: Seq<u8>, object: int, refs: int) {
    }

    proof fn lemma_placed(&self, bytes: Seq<u8>, object: int, refs: int) {
        let w = self.wire();
        let prefix = bytes.subrange(0, object);
        let suffix = bytes.subrange(object + w.len(), bytes.len() as int);
        assert(bytes =~= prefix + w + suffix);
        self.lemma_roundtrip(prefix, suffix);
    }

    fn fixed_len() -> (n: usize) {
        8
    }

    fn write_fixed(&self, buffer: &mut Vec<u8>) {
        let _ = self.write_at(buffer);
    }

    fn write_references(&self, buffer: &mut Vec<u8>) -> (size: usize) {
        proof {
            assert(buffer@ =~= buffer@ + Seq::<u8>::empty());
        }
        0
    }

    fn read_at(bytes: &[u8], object: usize, refs: usize) -> (read: Option<(Command, usize)>) {
        if refs > bytes.len() {
            return None;
        }
        match Command::reconstruct_at_inline(bytes, object) {
            Some((v, _)) => Some((v, 0)),
            None => None,
        }
    }
}

/// Event: editing commands were given, in the older form.
pub struct CommandParameters {
    /// The commands, in the order given.
    pub command: Vec<Command>,
}

impl DeepView for CommandParameters {
    type V = Seq<Command>;

    open spec fn deep_view(&self) -> Seq<Command> {
        self.command.deep_view()
    }
}

impl Layout for CommandParameters {
    open spec fn fixed_size() -> nat { 24 }

    open spec fn fixed_part(&self) -> Seq<u8> {
        self.command.fixed_part()
    }

    open spec fn references(&self) -> Seq<u8> {
        self.command.references()
    }

    open spec fn parse_at(bytes: Seq<u8>, object: int, refs: int) -> Option<(Seq<Command>, nat)> {
        if fits(bytes, object, 24) {
            match Vec::<Command>::parse_at(bytes, object, refs) {
                Some((v0, u0)) => Some((v0, u0)),
                None => None,
            }
        } else {
            None
        }
    }

    proof fn lemma_fixed_size(&self) {
        self.command.lemma_fixed_size();
    }

    proof fn lemma_parse_bounds(bytes: Seq<u8>, object: int, refs: int) {
        Vec::<Command>::lemma_parse_bounds(bytes, object, refs);
    }

    proof fn lemma_placed(&self, bytes: Seq<u8>, object: int, refs: int) {
        self.command.lemma_fixed_size();
        self.command.lemma_placed(bytes, object, refs);
    }

    fn fixed_len() -> (n: usize) {
        24
    }

    fn write_fixed(&self, buffer: &mut Vec<u8>) {
        self.command.write_fixed(buffer);
        proof {
            assert(final(buffer)@ =~= old(buffer)@ + self.fixed_part());
        }
    }

    fn write_references(&self, buffer: &mut Vec<u8>) -> (size: usize) {
        let start = buffer.len();
        let _ = self.command.write_references(buffer);
        proof {
            assert(buffer@ =~= old(buffer)@ + self.references());
        }
        buffer.len() - start
    }

    fn read_at(bytes: &[u8], object: usize, refs: usize) -> (read: Option<(CommandParameters, usize)>) {
        if object > bytes.len() || bytes.len() - object < 24 {
            return None;
        }
        let (x0, u0) = match Vec::<Command>::read_at(bytes, object, refs) {
            Some(r) => r,
            None => return None,
        };
        proof {
            Vec::<Command>::lemma_parse_bounds(bytes@, (object) as int, (refs) as int);
        }
        Some((CommandParameters { command: x0 }, u0))
    }
}

impl CommandParameters {
    /// Appends the value (its fixed part, then the data it refers to) and
    /// returns the number of bytes appended.
    pub fn write_at(&self, buffer: &mut Vec<u8>) -> (size: usize)
        ensures
            final(buffer)@ == old(buffer)@ + self.fixed_part() + self.references(),
            size == self.fixed_part().len() + self.references().len(),
    {
        write_inline(self, buffer)
    }

    /// Appends the data the value refers to and returns its size.
    pub fn write_references_at(&self, buffer: &mut Vec<u8>) -> (size: usize)
        ensures
            final(buffer)@ == old(buffer)@ + self.references(),
            size == self.references().len(),
    {
        self.write_references(buffer)
    }

    /// Reads a value written by `write_at` at `position`, and the number
    /// of bytes it takes.
    pub fn reconstruct_at_inline(bytes: &[u8], position: usize) -> (read: Option<(CommandParameters, usize)>)
        ensures
            match read {
                Some((v, size)) => parse_inline::<CommandParameters>(bytes@, position as int) == Some((v.deep_view(), size as nat)),
                None => parse_inline::<CommandParameters>(bytes@, position as int) is None,
            },
    {
        read_inline(bytes, position)
    }

    /// Reads a value whose fixed part is at `object` and whose data starts
    /// at `references`, and the number of data bytes it uses.
    pub fn reconstruct_at(bytes: &[u8], object: usize, references: usize) -> (read: Option<(CommandParameters, usize)>)
        ensures
            match read {
                Some((v, used)) => CommandParameters::parse_at(bytes@, object as int, references as int) == Some((v.deep_view(), used as nat)),
                None => CommandParameters::parse_at(bytes@, object as int, references as int) is None,
            },
    {
        Self::read_at(bytes, object, references)
    }
}

} // verus!
