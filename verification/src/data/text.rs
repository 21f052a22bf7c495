//! The text request of the data protocol.

use vstd::prelude::*;
use crate::layout::{lemma_split, parse_inline, read_inline, write_inline, Layout};
use crate::wire::fits;

verus! {

/// Request to write text at the text cursor.
pub struct WriteTextParameters {
    /// The text.
    pub text: String,
}

impl DeepView for WriteTextParameters {
    type V = Seq<char>;

    open spec fn deep_view(&self) -> Seq<char> {
        self.text.deep_view()
    }
}

impl Layout for WriteTextParameters {
    open spec fn fixed_size() -> nat { 24 }

    open spec fn fixed_part(&self) -> Seq<u8> {
        self.text.fixed_part()
    }

    open spec fn references(&self) -> Seq<u8> {
        self.text.references()
    }

    open spec fn parse_at(bytes: Seq<u8>, object: int, refs: int) -> Option<(Seq<char>, nat)> {
        if fits(bytes, object, 24) {
            match String::parse_at(bytes, object, refs) {
                Some((v0, u0)) => Some((v0, u0)),
                None => None,
            }
        } else {
            None
        }
    }

    proof fn lemma_fixed_size(&self) {
        self.text.lemma_fixed_size();
    }

    proof fn lemma_parse_bounds(bytes: Seq<u8>, object: int, refs: int) {
        String::lemma_parse_bounds(bytes, object, refs);
    }

    proof fn lemma_placed(&self, bytes: Seq<u8>, object: int, refs: int) {
        self.text.lemma_fixed_size();
        self.text.lemma_placed(bytes, object, refs);
    }

    fn fixed_len() -> (n: usize) {
        24
    }

    fn write_fixed(&self, buffer: &mut Vec<u8>) {
        self.text.write_fixed(buffer);
        proof {
            assert(final(buffer)@ =~= old(buffer)@ + self.fixed_part());
        }
    }

    fn write_references(&self, buffer: &mut Vec<u8>) -> (size: usize) {
        let start = buffer.len();
        let _ = self.text.write_references(buffer);
        proof {
            assert(buffer@ =~= old(buffer)@ + self.references());
        }
        buffer.len() - start
    }

    fn read_at(bytes: &[u8], object: usize, refs: usize) -> (read: Option<(WriteTextParameters, usize)>) {
        if object > bytes.len() || bytes.len() - object < 24 {
            return None;
        }
        let (x0, u0) = match String::read_at(bytes, object, refs) {
            Some(r) => r,
            None => return None,
        };
        proof {
            String::lemma_parse_bounds(bytes@, (object) as int, (refs) as int);
        }
        Some((WriteTextParameters { text: x0 }, u0))
    }
}

impl WriteTextParameters {
    /// Appends the value (its fixed part, then the data it refers to) and
    /// returns the number of bytes appended.
    pub fn write_at(&self, buffer: &mut Vec<u8>) -> (size: usize)
        ensures
            final(buffer)@ == old(buffer)@ + self.fixed_part() + self.references(),
            size == self.fixed_part().len() + self.references().len(),
    {
        write_inline(self, buffer)
    }

    /// Appends the data the value refers to and returns its size.
    pub fn write_references_at(&self, buffer: &mut Vec<u8>) -> (size: usize)
        ensures
            final(buffer)@ == old(buffer)@ + self.references(),
            size == self.references().len(),
    {
        self.write_references(buffer)
    }

    /// Reads a value written by `write_at` at `position`, and the number
    /// of bytes it takes.
    pub fn reconstruct_at_inline(bytes: &[u8], position: usize) -> (read: Option<(WriteTextParameters, usize)>)
        ensures
            match read {
                Some((v, size)) => parse_inline::<WriteTextParameters>(bytes@, position as int) == Some((v.deep_view(), size as nat)),
                None => parse_inline::<WriteTextParameters>(bytes@, position as int) is None,
            },
    {
        read_inline(bytes, position)
    }

    /// Reads a value whose fixed part is at `object` and whose data starts
    /// at `references`, and the number of data bytes it uses.
    pub fn reconstruct_at(bytes: &[u8], object: usize, references: usize) -> (read: Option<(WriteTextParameters, usize)>)
        ensures
            match read {
                Some((v, used)) => WriteTextParameters::parse_at(bytes@, object as int, references as int) == Some((v.deep_view(), used as nat)),
                None => WriteTextParameters::parse_at(bytes@, object as int, references as int) is None,
            },
    {
        Self::read_at(bytes, object, references)
    }
}

} // verus!
