//! Objects of the filesystem protocol and the requests that name them.

use vstd::prelude::*;
use crate::layout::{lemma_split, parse_inline, read_inline, write_inline, Layout};
use crate::wire::fits;

verus! {

/// An object of the filesystem, named by its path.
pub struct Object {
    /// The path of the object.
    pub path: String,
}

impl DeepView for Object {
    type V = Seq<char>;

    open spec fn deep_view(&self) -> Seq<char> {
        self.path.deep_view()
    }
}

impl Layout for Object {
    open spec fn fixed_size() -> nat { 24 }

    open spec fn fixed_part(&self) -> Seq<u8> {
        self.path.fixed_part()
    }

    open spec fn references(&self) -> Seq<u8> {
        self.path.references()
    }

    open spec fn parse_at(bytes: Seq<u8>, object: int, refs: int) -> Option<(Seq<char>, nat)> {
        if fits(bytes, object, 24) {
            match String::parse_at(bytes, object, refs) {
                Some((v0, u0)) => Some((v0, u0)),
                None => None,
            }
        } else {
            None
        }
    }

    proof fn lemma_fixed_size(&self) {
        self.path.lemma_fixed_size();
    }

    proof fn lemma_parse_bounds(bytes: Seq<u8>, object: int, refs: int) {
        String::lemma_parse_bounds(bytes, object, refs);
    }

    proof fn lemma_placed(&self, bytes: Seq<u8>, object: int, refs: int) {
        self.path.lemma_fixed_size();
        self.path.lemma_placed(bytes, object, refs);
    }

    fn fixed_len() -> (n: usize) {
        24
    }

    fn write_fixed(&self, buffer: &mut Vec<u8>) {
        self.path.write_fixed(buffer);
        proof {
            assert(final(buffer)@ =~= old(buffer)@ + self.fixed_part());
        }
    }

    fn write_references(&self, buffer: &mut Vec<u8>) -> (size: usize) {
        let start = buffer.len();
        let _ = self.path.write_references(buffer);
        proof {
            assert(buffer@ =~= old(buffer)@ + self.references());
        }
        buffer.len() - start
    }

    fn read_at(bytes: &[u8], object: usize, refs: usize) -> (read: Option<(Object, usize)>) {
        if object > bytes.len() || bytes.len() - object < 24 {
            return None;
        }
        let (x0, u0) = match String::read_at(bytes, object, refs) {
            Some(r) => r,
            None => return None,
        };
        proof {
            String::lemma_parse_bounds(bytes@, (object) as int, (refs) as int);
        }
        Some((Object { path: x0 }, u0))
    }
}

impl Object {
    /// Appends the value (its fixed part, then the data it refers to) and
    /// returns the number of bytes appended.
    pub fn write_at(&self, buffer: &mut Vec<u8>) -> (size: usize)
        ensures
            final(buffer)@ == old(buffer)@ + self.fixed_part() + self.references(),
            size == self.fixed_part().len() + self.references().len(),
    {
        write_inline(self, buffer)
    }

    /// Appends the data the value refers to and returns its size.
    pub fn write_references_at(&self, buffer: &mut Vec<u8>) -> (size: usize)
        ensures
            final(buffer)@ == old(buffer)@ + self.references(),
            size == self.references().len(),
    {
        self.write_references(buffer)
    }

    /// Reads a value written by `write_at` at `position`, and the number
    /// of bytes it takes.
    pub fn reconstruct_at_inline(bytes: &[u8], position: usize) -> (read: Option<(Object, usize)>)
        ensures
            match read {
                Some((v, size)) => parse_inline::<Object>(bytes@, position as int) == Some((v.deep_view(), size as nat)),
                None => parse_inline::<Object>(bytes@, position as int) is None,
            },
    {
        read_inline(bytes, position)
    }

    /// Reads a value whose fixed part is at `object` and whose data starts
    /// at `references`, and the number of data bytes it uses.
    pub fn reconstruct_at(bytes: &[u8], object: usize, references: usize) -> (read: Option<(Object, usize)>)
        ensures
            match read {
                Some((v, used)) => Object::parse_at(bytes@, object as int, references as int) == Some((v.deep_view(), used as nat)),
                None => Object::parse_at(bytes@, object as int, references as int) is None,
            },
    {
        Self::read_at(bytes, object, references)
    }
}

/// Request to lock an object.
pub struct LockObjectParameters {
    /// The object to lock.
    pub object: Object,
}

impl DeepView for LockObjectParameters {
    type V = Seq<char>;

    open spec fn deep_view(&self) -> Seq<char> {
        self.object.deep_view()
    }
}

impl Layout for LockObjectParameters {
    open spec fn fixed_size() -> nat { 24 }

    open spec fn fixed_part(&self) -> Seq<u8> {
        self.object.fixed_part()
    }

    open spec fn references(&self) -> Seq<u8> {
        self.object.references()
    }

    open spec fn parse_at(bytes: Seq<u8>, object: int, refs: int) -> Option<(Seq<char>, nat)> {
        if fits(bytes, object, 24) {
            match Object::parse_at(bytes, object, refs) {
                Some((v0, u0)) => Some((v0, u0)),
                None => None,
            }
        } else {
            None
        }
    }

    proof fn lemma_fixed_size(&self) {
        self.object.lemma_fixed_size();
    }

    proof fn lemma_parse_bounds(bytes: Seq<u8>, object: int, refs: int) {
        Object::lemma_parse_bounds(bytes, object, refs);
    }

    proof fn lemma_placed(&self, bytes: Seq<u8>, object: int, refs: int) {
        self.object.lemma_fixed_size();
        self.object.lemma_placed(bytes, object, refs);
    }

    fn fixed_len() -> (n: usize) {
        24
    }

    fn write_fixed(&self, buffer: &mut Vec<u8>) {
        self.object.write_fixed(buffer);
        proof {
            assert(final(buffer)@ =~= old(buffer)@ + self.fixed_part());
        }
    }

    fn write_references(&self, buffer: &mut Vec<u8>) -> (size: usize) {
        let start = buffer.len();
        let _ = self.object.write_references(buffer);
        proof {
            assert(buffer@ =~= old(buffer)@ + self.references());
        }
        buffer.len() - start
    }

    fn read_at(bytes: &[u8], object: usize, refs: usize) -> (read: Option<(LockObjectParameters, usize)>) {
        if object > bytes.len() || bytes.len() - object < 24 {
            return None;
        }
        let (x0, u0) = match Object::read_at(bytes, object, refs) {
            Some(r) => r,
            None => return None,
        };
        proof {
            Object::lemma_parse_bounds(bytes@, (object) as int, (refs) as int);
        }
        Some((LockObjectParameters { object: x0 }, u0))
    }
}

impl LockObjectParameters {
    /// Appends the value (its fixed part, then the data it refers to) and
    /// returns the number of bytes appended.
    pub fn write_at(&self, buffer: &mut Vec<u8>) -> (size: usize)
        ensures
            final(buffer)@ == old(buffer)@ + self.fixed_part() + self.references(),
            size == self.fixed_part().len() + self.references().len(),
    {
        write_inline(self, buffer)
    }

    /// Appends the data the value refers to and returns its size.
    pub fn write_references_at(&self, buffer: &mut Vec<u8>) -> (size: usize)
        ensures
            final(buffer)@ == old(buffer)@ + self.references(),
            size == self.references().len(),
    {
        self.write_references(buffer)
    }

    /// Reads a value written by `write_at` at `position`, and the number
    /// of bytes it takes.
    pub fn reconstruct_at_inline(bytes: &[u8], position: usize) -> (read: Option<(LockObjectParameters, usize)>)
        ensures
            match read {
                Some((v, size)) => parse_inline::<LockObjectParameters>(bytes@, position as int) == Some((v.deep_view(), size as nat)),
                None => parse_inline::<LockObjectParameters>(bytes@, position as int) is None,
            },
    {
        read_inline(bytes, position)
    }

    /// Reads a value whose fixed part is at `object` and whose data starts
    /// at `references`, and the number of data bytes it uses.
    pub fn reconstruct_at(bytes: &[u8], object: usize, references: usize) -> (read: Option<(LockObjectParameters, usize)>)
        ensures
            match read {
                Some((v, used)) => LockObjectParameters::parse_at(bytes@, object as int, references as int) == Some((v.deep_view(), used as nat)),
                None => LockObjectParameters::parse_at(bytes@, object as int, references as int) is None,
            },
    {
        Self::read_at(bytes, object, references)
    }
}

/// Request to be told when an object changes.
pub struct WatchObjectParameters {
    /// The object to watch.
    pub object: Object,
}

impl DeepView for WatchObjectParameters {
    type V = Seq<char>;

    open spec fn deep_view(&self) -> Seq<char> {
        self.object.deep_view()
    }
}

impl Layout for WatchObjectParameters {
    open spec fn fixed_size() -> nat { 24 }

    open spec fn fixed_part(&self) -> Seq<u8> {
        self.object.fixed_part()
    }

    open spec fn references(&self) -> Seq<u8> {
        self.object.references()
    }

    open spec fn parse_at(bytes: Seq<u8>, object: int, refs: int) -> Option<(Seq<char>, nat)> {
        if fits(bytes, object, 24) {
            match Object::parse_at(bytes, object, refs) {
                Some((v0, u0)) => Some((v0, u0)),
                None => None,
            }
        } else {
            None
        }
    }

    proof fn lemma_fixed_size(&self) {
        self.object.lemma_fixed_size();
    }

    proof fn lemma_parse_bounds(bytes: Seq<u8>, object: int, refs: int) {
        Object::lemma_parse_bounds(bytes, object, refs);
    }

    proof fn lemma_placed(&self, bytes: Seq<u8>, object: int, refs: int) {
        self.object.lemma_fixed_size();
        self.object.lemma_placed(bytes, object, refs);
    }

    fn fixed_len() -> (n: usize) {
        24
    }

    fn write_fixed(&self, buffer: &mut Vec<u8>) {
        self.object.write_fixed(buffer);
        proof {
            assert(final(buffer)@ =~= old(buffer)@ + self.fixed_part());
        }
    }

    fn write_references(&self, buffer: &mut Vec<u8>) -> (size: usize) {
        let start = buffer.len();
        let _ = self.object.write_references(buffer);
        proof {
            assert(buffer@ =~= old(buffer)@ + self.references());
        }
        buffer.len() - start
    }

    fn read_at(bytes: &[u8], object: usize, refs: usize) -> (read: Option<(WatchObjectParameters, usize)>) {
        if object > bytes.len() || bytes.len() - object < 24 {
            return None;
        }
        let (x0, u0) = match Object::read_at(bytes, object, refs) {
            Some(r) => r,
            None => return None,
        };
        proof {
            Object::lemma_parse_bounds(bytes@, (object) as int, (refs) as int);
        }
        Some((WatchObjectParameters { object: x0 }, u0))
    }
}

impl WatchObjectParameters {
    /// Appends the value (its fixed part, then the data it refers to) and
    /// returns the number of bytes appended.
    pub fn write_at(&self, buffer: &mut Vec<u8>) -> (size: usize)
        ensures
            final(buffer)@ == old(buffer)@ + self.fixed_part() + self.references(),
            size == self.fixed_part().len() + self.references().len(),
    {
        write_inline(self, buffer)
    }

    /// Appends the data the value refers to and returns its size.
    pub fn write_references_at(&self, buffer: &mut Vec<u8>) -> (size: usize)
        ensures
            final(buffer)@ == old(buffer)@ + self.references(),
            size == self.references().len(),
    {
        self.write_references(buffer)
    }

    /// Reads a value written by `write_at` at `position`, and the number
    /// of bytes it takes.
    pub fn reconstruct_at_inline(bytes: &[u8], position: usize) -> (read: Option<(WatchObjectParameters, usize)>)
        ensures
            match read {
                Some((v, size)) => parse_inline::<WatchObjectParameters>(bytes@, position as int) == Some((v.deep_view(), size as nat)),
                None => parse_inline::<WatchObjectParameters>(bytes@, position as int) is None,
            },
    {
        read_inline(bytes, position)
    }

    /// Reads a value whose fixed part is at `object` and whose data starts
    /// at `references`, and the number of data bytes it uses.
    pub fn reconstruct_at(bytes: &[u8], object: usize, references: usize) -> (read: Option<(WatchObjectParameters, usize)>)
        ensures
            match read {
                Some((v, used)) => WatchObjectParameters::parse_at(bytes@, object as int, references as int) == Some((v.deep_view(), used as nat)),
                None => WatchObjectParameters::parse_at(bytes@, object as int, references as int) is None,
            },
    {
        Self::read_at(bytes, object, references)
    }
}

} // verus!
