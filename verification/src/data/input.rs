//! Input events of the data protocol.

use vstd::prelude::*;
use crate::layout::{lemma_split, parse_inline, read_inline, write_inline, Layout};
use crate::wire::fits;
use crate::data::data_command::DataCommand;

verus! {

/// Event: characters were typed (their Unicode scalar values).
pub struct CharactersParameters {
    /// The characters, in the order typed.
    pub characters: Vec<u64>,
}

impl DeepView for CharactersParameters {
    type V = Seq<u64>;

    open spec fn deep_view(&self) -> Seq<u64> {
        self.characters.deep_view()
    }
}

impl Layout for CharactersParameters {
    open spec fn fixed_size() -> nat { 24 }

    open spec fn fixed_part(&self) -> Seq<u8> {
        self.characters.fixed_part()
    }

    open spec fn references(&self) -> Seq<u8> {
        self.characters.references()
    }

    open spec fn parse_at(bytes: Seq<u8>, object: int, refs: int) -> Option<(Seq<u64>, nat)> {
        if fits(bytes, object, 24) {
            match Vec::<u64>::parse_at(bytes, object, refs) {
                Some((v0, u0)) => Some((v0, u0)),
                None => None,
            }
        } else {
            None
        }
    }

    proof fn lemma_fixed_size(&self) {
        self.characters.lemma_fixed_size();
    }

    proof fn lemma_parse_bounds(bytes: Seq<u8>, object: int, refs: int) {
        Vec::<u64>::lemma_parse_bounds(bytes, object, refs);
    }

    proof fn lemma_placed(&self, bytes: Seq<u8>, object: int, refs: int) {
        self.characters.lemma_fixed_size();
        self.characters.lemma_placed(bytes, object, refs);
    }

    fn fixed_len() -> (n: usize) {
        24
    }

    fn write_fixed(&self, buffer: &mut Vec<u8>) {
        self.characters.write_fixed(buffer);
        proof {
            assert(final(buffer)@ =~= old(buffer)@ + self.fixed_part());
        }
    }

    fn write_references(&self, buffer: &mut Vec<u8>) -> (size: usize) {
        let start = buffer.len();
        let _ = self.characters.write_references(buffer);
        proof {
            assert(buffer@ =~= old(buffer)@ + self.references());
        }
        buffer.len() - start
    }

    fn read_at(bytes: &[u8], object: usize, refs: usize) -> (read: Option<(CharactersParameters, usize)>) {
        if object > bytes.len() || bytes.len() - object < 24 {
            return None;
        }
        let (x0, u0) = match Vec::<u64>::read_at(bytes, object, refs) {
            Some(r) => r,
            None => return None,
        };
        proof {
            Vec::<u64>::lemma_parse_bounds(bytes@, (object) as int, (refs) as int);
        }
        Some((CharactersParameters { characters: x0 }, u0))
    }
}

impl CharactersParameters {
    /// Appends the value (its fixed part, then the data it refers to) and
    /// returns the number of bytes appended.
    pub fn write_at(&self, buffer: &mut Vec<u8>) -> (size: usize)
        ensures
            final(buffer)@ == old(buffer)@ + self.fixed_part() + self.references(),
            size == self.fixed_part().len() + self.references().len(),
    {
        write_inline(self, buffer)
    }

    /// Appends the data the value refers to and returns its size.
    pub fn write_references_at(&self, buffer: &mut Vec<u8>) -> (size: usize)
        ensures
            final(buffer)@ == old(buffer)@ + self.references(),
            size == self.references().len(),
    {
        self.write_references(buffer)
    }

    /// Reads a value written by `write_at` at `position`, and the number
    /// of bytes it takes.
    pub fn reconstruct_at_inline(bytes: &[u8], position: usize) -> (read: Option<(CharactersParameters, usize)>)
        ensures
            match read {
                Some((v, size)) => parse_inline::<CharactersParameters>(bytes@, position as int) == Some((v.deep_view(), size as nat)),
                None => parse_inline::<CharactersParameters>(bytes@, position as int) is None,
            },
    {
        read_inline(bytes, position)
    }

    /// Reads a value whose fixed part is at `object` and whose data starts
    /// at `references`, and the number of data bytes it uses.
    pub fn reconstruct_at(bytes: &[u8], object: usize, references: usize) -> (read: Option<(CharactersParameters, usize)>)
        ensures
            match read {
                Some((v, used)) => CharactersParameters::parse_at(bytes@, object as int, references as int) == Some((v.deep_view(), used as nat)),
                None => CharactersParameters::parse_at(bytes@, object as int, references as int) is None,
            },
    {
        Self::read_at(bytes, object, references)
    }
}

/// Event: editing commands were given.
pub struct CommandsParameters {
    /// The commands, in the order given.
    pub commands: Vec<DataCommand>,
}

impl DeepView for CommandsParameters {
    type V = Seq<DataCommand>;

    open spec fn deep_view(&self) -> Seq<DataCommand> {
        self.commands.deep_view()
    }
}

impl Layout for CommandsParameters {
    open spec fn fixed_size() -> nat { 24 }

    open spec fn fixed_part(&self) -> Seq<u8> {
        self.commands.fixed_part()
    }

    open spec fn references(&self) -> Seq<u8> {
        self.commands.references()
    }

    open spec fn parse_at(bytes: Seq<u8>, object: int, refs: int) -> Option<(Seq<DataCommand>, nat)> {
        if fits(bytes, object, 24) {
            match Vec::<DataCommand>::parse_at(bytes, object, refs) {
                Some((v0, u0)) => Some((v0, u0)),
                None => None,
            }
        } else {
            None
        }
    }

    proof fn lemma_fixed_size(&self) {
        self.commands.lemma_fixed_size();
    }

    proof fn lemma_parse_bounds(bytes: Seq<u8>, object: int, refs: int) {
        Vec::<DataCommand>::lemma_parse_bounds(bytes, object, refs);
    }

    proof fn lemma_placed(&self, bytes: Seq<u8>, object: int, refs: int) {
        self.commands.lemma_fixed_size();
        self.commands.lemma_placed(bytes, object, refs);
    }

    fn fixed_len() -> (n: usize) {
        24
    }

    fn write_fixed(&self, buffer: &mut Vec<u8>) {
        self.commands.write_fixed(buffer);
        proof {
            assert(final(buffer)@ =~= old(buffer)@ + self.fixed_part());
        }
    }

    fn write_references(&self, buffer: &mut Vec<u8>) -> (size: usize) {
        let start = buffer.len();
        let _ = self.commands.write_references(buffer);
        proof {
            assert(buffer@ =~= old(buffer)@ + self.references());
        }
        buffer.len() - start
    }

    fn read_at(bytes: &[u8], object: usize, refs: usize) -> (read: Option<(CommandsParameters, usize)>) {
        if object > bytes.len() || bytes.len() - object < 24 {
            return None;
        }
        let (x0, u0) = match Vec::<DataCommand>::read_at(bytes, object, refs) {
            Some(r) => r,
            None => return None,
        };
        proof {
            Vec::<DataCommand>::lemma_parse_bounds(bytes@, (object) as int, (refs) as int);
        }
        Some((CommandsParameters { commands: x0 }, u0))
    }
}

impl CommandsParameters {
    /// Appends the value (its fixed part, then the data it refers to) and
    /// returns the number of bytes appended.
    pub fn write_at(&self, buffer: &mut Vec<u8>) -> (size: usize)
        ensures
            final(buffer)@ == old(buffer)@ + self.fixed_part() + self.references(),
            size == self.fixed_part().len() + self.references().len(),
    {
        write_inline(self, buffer)
    }

    /// Appends the data the value refers to and returns its size.
    pub fn write_references_at(&self, buffer: &mut Vec<u8>) -> (size: usize)
        ensures
            final(buffer)@ == old(buffer)@ + self.references(),
            size == self.references().len(),
    {
        self.write_references(buffer)
    }

    /// Reads a value written by `write_at` at `position`, and the number
    /// of bytes it takes.
    pub fn reconstruct_at_inline(bytes: &[u8], position: usize) -> (read: Option<(CommandsParameters, usize)>)
        ensures
            match read {
                Some((v, size)) => parse_inline::<CommandsParameters>(bytes@, position as int) == Some((v.deep_view(), size as nat)),
                None => parse_inline::<CommandsParameters>(bytes@, position as int) is None,
            },
    {
        read_inline(bytes, position)
    }

    /// Reads a value whose fixed part is at `object` and whose data starts
    /// at `references`, and the number of data bytes it uses.
    pub fn reconstruct_at(bytes: &[u8], object: usize, references: usize) -> (read: Option<(CommandsParameters, usize)>)
        ensures
            match read {
                Some((v, used)) => CommandsParameters::parse_at(bytes@, object as int, references as int) == Some((v.deep_view(), used as nat)),
                None => CommandsParameters::parse_at(bytes@, object as int, references as int) is None,
            },
    {
        Self::read_at(bytes, object, references)
    }
}

} // verus!
