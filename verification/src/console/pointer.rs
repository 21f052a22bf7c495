//! Pointer button events of the console protocol.

use vstd::prelude::*;
use crate::layout::{lemma_split, parse_inline, read_inline, write_inline, Layout};
use crate::wire::fits;
use crate::console::types::Point;
use crate::console::pointer_button::PointerButton;

verus! {

/// Event: pointer buttons were pressed.
pub struct PointerPressedParameters {
    /// Where the pointer is.
    pub position: Point,
    /// The buttons pressed.
    pub buttons: Vec<PointerButton>,
}

impl DeepView for PointerPressedParameters {
    type V = (Point, Seq<PointerButton>);

    open spec fn deep_view(&self) -> (Point, Seq<PointerButton>) {
        (self.position.deep_view(), self.buttons.deep_view())
    }
}

impl Layout for PointerPressedParameters {
    open spec fn fixed_size() -> nat { 40 }

    open spec fn fixed_part(&self) -> Seq<u8> {
        self.position.fixed_part() + self.buttons.fixed_part()
    }

    open spec fn references(&self) -> Seq<u8> {
        self.position.references() + self.buttons.references()
    }

    open spec fn parse_at(bytes: Seq<u8>, object: int, refs: int) -> Option<((Point, Seq<PointerButton>), nat)> {
        if fits(bytes, object, 40) {
            match Point::parse_at(bytes, object, refs) {
                Some((v0, u0)) => match Vec::<PointerButton>::parse_at(bytes, object + 16, refs + u0) {
                    Some((v1, u1)) => Some(((v0, v1), u0 + u1)),
                    None => None,
                },
                None => None,
            }
        } else {
            None
        }
    }

    proof fn lemma_fixed_size(&self) {
        self.position.lemma_fixed_size();
        self.buttons.lemma_fixed_size();
    }

    proof fn lemma_parse_bounds(bytes: Seq<u8>, object: int, refs: int) {
        Point::lemma_parse_bounds(bytes, object, refs);
        if let Some((v0, u0)) = Point::parse_at(bytes, object, refs) {
            Vec::<PointerButton>::lemma_parse_bounds(bytes, object + 16, refs + u0);
        }
    }

    proof fn lemma_placed(&self, bytes: Seq<u8>, object: int, refs: int) {
        self.position.lemma_fixed_size();
        self.buttons.lemma_fixed_size();
        lemma_split(bytes, object, self.position.fixed_part(), self.buttons.fixed_part());
        lemma_split(bytes, refs, self.position.references(), self.buttons.references());
        self.position.lemma_placed(bytes, object, refs);
        self.buttons.lemma_placed(bytes, object + 16, refs + self.position.references().len());
    }

    fn fixed_len() -> (n: usize) {
        40
    }

    fn write_fixed(&self, buffer: &mut Vec<u8>) {
        self.position.write_fixed(buffer);
        self.buttons.write_fixed(buffer);
        proof {
            assert(final(buffer)@ =~= old(buffer)@ + self.fixed_part());
        }
    }

    fn write_references(&self, buffer: &mut Vec<u8>) -> (size: usize) {
        let start = buffer.len();
        let _ = self.position.write_references(buffer);
        let _ = self.buttons.write_references(buffer);
        proof {
            assert(buffer@ =~= old(buffer)@ + self.references());
        }
        buffer.len() - start
    }

    fn read_at(bytes: &[u8], object: usize, refs: usize) -> (read: Option<(PointerPressedParameters, usize)>) {
        if object > bytes.len() || bytes.len() - object < 40 {
            return None;
        }
        let (x0, u0) = match Point::read_at(bytes, object, refs) {
            Some(r) => r,
            None => return None,
        };
        proof {
            Point::lemma_parse_bounds(bytes@, (object) as int, (refs) as int);
        }
        let (x1, u1) = match Vec::<PointerButton>::read_at(bytes, object + 16, refs + u0) {
            Some(r) => r,
            None => return None,
        };
        proof {
            Vec::<PointerButton>::lemma_parse_bounds(bytes@, (object + 16) as int, (refs + u0) as int);
        }
        Some((PointerPressedParameters { position: x0, buttons: x1 }, u0 + u1))
    }
}

impl PointerPressedParameters {
    /// Appends the value (its fixed part, then the data it refers to) and
    /// returns the number of bytes appended.
    pub fn write_at(&self, buffer: &mut Vec<u8>) -> (size: usize)
        ensures
            final(buffer)@ == old(buffer)@ + self.fixed_part() + self.references(),
            size == self.fixed_part().len() + self.references().len(),
    {
        write_inline(self, buffer)
    }

    /// Appends the data the value refers to and returns its size.
    pub fn write_references_at(&self, buffer: &mut Vec<u8>) -> (size: usize)
        ensures
            final(buffer)@ == old(buffer)@ + self.references(),
            size == self.references().len(),
    {
        self.write_references(buffer)
    }

    /// Reads a value written by `write_at` at `position`, and the number
    /// of bytes it takes.
    pub fn reconstruct_at_inline(bytes: &[u8], position: usize) -> (read: Option<(PointerPressedParameters, usize)>)
        ensures
            match read {
                Some((v, size)) => parse_inline::<PointerPressedParameters>(bytes@, position as int) == Some((v.deep_view(), size as nat)),
                None => parse_inline::<PointerPressedParameters>(bytes@, position as int) is None,
            },
    {
        read_inline(bytes, position)
    }

    /// Reads a value whose fixed part is at `object` and whose data starts
    /// at `references`, and the number of data bytes it uses.
    pub fn reconstruct_at(bytes: &[u8], object: usize, references: usize) -> (read: Option<(PointerPressedParameters, usize)>)
        ensures
            match read {
                Some((v, used)) => PointerPressedParameters::parse_at(bytes@, object as int, references as int) == Some((v.deep_view(), used as nat)),
                None => PointerPressedParameters::parse_at(bytes@, object as int, references as int) is None,
            },
    {
        Self::read_at(bytes, object, references)
    }
}

/// Event: pointer buttons were released.
pub struct PointerReleasedParameters {
    /// Where the pointer is.
    pub position: Point,
    /// The buttons released.
    pub buttons: Vec<PointerButton>,
}

impl DeepView for PointerReleasedParameters {
    type V = (Point, Seq<PointerButton>);

    open spec fn deep_view(&self) -> (Point, Seq<PointerButton>) {
        (self.position.deep_view(), self.buttons.deep_view())
    }
}

impl Layout for PointerReleasedParameters {
    open spec fn fixed_size() -> nat { 40 }

    open spec fn fixed_part(&self) -> Seq<u8> {
        self.position.fixed_part() + self.buttons.fixed_part()
    }

    open spec fn references(&self) -> Seq<u8> {
        self.position.references() + self.buttons.references()
    }

    open spec fn parse_at(bytes: Seq<u8>, object: int, refs: int) -> Option<((Point, Seq<PointerButton>), nat)> {
        if fits(bytes, object, 40) {
            match Point::parse_at(bytes, object, refs) {
                Some((v0, u0)) => match Vec::<PointerButton>::parse_at(bytes, object + 16, refs + u0) {
                    Some((v1, u1)) => Some(((v0, v1), u0 + u1)),
                    None => None,
                },
                None => None,
            }
        } else {
            None
        }
    }

    proof fn lemma_fixed_size(&self) {
        self.position.lemma_fixed_size();
        self.buttons.lemma_fixed_size();
    }

    proof fn lemma_parse_bounds(bytes: Seq<u8>, object: int, refs: int) {
        Point::lemma_parse_bounds(bytes, object, refs);
        if let Some((v0, u0)) = Point::parse_at(bytes, object, refs) {
            Vec::<PointerButton>::lemma_parse_bounds(bytes, object + 16, refs + u0);
        }
    }

    proof fn lemma_placed(&self, bytes: Seq<u8>, object: int, refs: int) {
        self.position.lemma_fixed_size();
        self.buttons.lemma_fixed_size();
        lemma_split(bytes, object, self.position.fixed_part(), self.buttons.fixed_part());
        lemma_split(bytes, refs, self.position.references(), self.buttons.references());
        self.position.lemma_placed(bytes, object, refs);
        self.buttons.lemma_placed(bytes, object + 16, refs + self.position.references().len());
    }

    fn fixed_len() -> (n: usize) {
        40
    }

    fn write_fixed(&self, buffer: &mut Vec<u8>) {
        self.position.write_fixed(buffer);
        self.buttons.write_fixed(buffer);
        proof {
            assert(final(buffer)@ =~= old(buffer)@ + self.fixed_part());
        }
    }

    fn write_references(&self, buffer: &mut Vec<u8>) -> (size: usize) {
        let start = buffer.len();
        let _ = self.position.write_references(buffer);
        let _ = self.buttons.write_references(buffer);
        proof {
            assert(buffer@ =~= old(buffer)@ + self.references());
        }
        buffer.len() - start
    }

    fn read_at(bytes: &[u8], object: usize, refs: usize) -> (read: Option<(PointerReleasedParameters, usize)>) {
        if object > bytes.len() || bytes.len() - object < 40 {
            return None;
        }
        let (x0, u0) = match Point::read_at(bytes, object, refs) {
            Some(r) => r,
            None => return None,
        };
        proof {
            Point::lemma_parse_bounds(bytes@, (object) as int, (refs) as int);
        }
        let (x1, u1) = match Vec::<PointerButton>::read_at(bytes, object + 16, refs + u0) {
            Some(r) => r,
            None => return None,
        };
        proof {
            Vec::<PointerButton>::lemma_parse_bounds(bytes@, (object + 16) as int, (refs + u0) as int);
        }
        Some((PointerReleasedParameters { position: x0, buttons: x1 }, u0 + u1))
    }
}

impl PointerReleasedParameters {
    /// Appends the value (its fixed part, then the data it refers to) and
    /// returns the number of bytes appended.
    pub fn write_at(&self, buffer: &mut Vec<u8>) -> (size: usize)
        ensures
            final(buffer)@ == old(buffer)@ + self.fixed_part() + self.references(),
            size == self.fixed_part().len() + self.references().len(),
    {
        write_inline(self, buffer)
    }

    /// Appends the data the value refers to and returns its size.
    pub fn write_references_at(&self, buffer: &mut Vec<u8>) -> (size: usize)
        ensures
            final(buffer)@ == old(buffer)@ + self.references(),
            size == self.references().len(),
    {
        self.write_references(buffer)
    }

    /// Reads a value written by `write_at` at `position`, and the number
    /// of bytes it takes.
    pub fn reconstruct_at_inline(bytes: &[u8], position: usize) -> (read: Option<(PointerReleasedParameters, usize)>)
        ensures
            match read {
                Some((v, size)) => parse_inline::<PointerReleasedParameters>(bytes@, position as int) == Some((v.deep_view(), size as nat)),
                None => parse_inline::<PointerReleasedParameters>(bytes@, position as int) is None,
            },
    {
        read_inline(bytes, position)
    }

    /// Reads a value whose fixed part is at `object` and whose data starts
    /// at `references`, and the number of data bytes it uses.
    pub fn reconstruct_at(bytes: &[u8], object: usize, references: usize) -> (read: Option<(PointerReleasedParameters, usize)>)
        ensures
            match read {
                Some((v, used)) => PointerReleasedParameters::parse_at(bytes@, object as int, references as int) == Some((v.deep_view(), used as nat)),
                None => PointerReleasedParameters::parse_at(bytes@, object as int, references as int) is None,
            },
    {
        Self::read_at(bytes, object, references)
    }
}

} // verus!
