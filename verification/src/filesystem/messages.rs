//! Fixed-size messages of the filesystem protocol.

use vstd::prelude::*;
use crate::wire::{fits, i64_at, le_i64, le_u64, lemma_i64_at, lemma_u64_at, lemma_u64_roundtrip, push_i64, push_u64, read_i64, read_u64, u64_at};

verus! {

/// Reply to a lock request: the id of the lock.
#[derive(Clone, Copy, PartialEq, Eq, Structural, Debug)]
pub struct LockObjectReturns {
    pub lock_id: u64,
}

impl LockObjectReturns {
    /// Bytes that a value occupies in a message.
    pub open spec fn wire_size() -> nat { 8nat }

    /// The bytes of the value in a message: lock id.
    pub open spec fn wire(self) -> Seq<u8> {
        le_u64(self.lock_id)
    }

    /// The value whose bytes start at `pos`, or `None` if the bytes end before it does.
    pub open spec fn parse(bytes: Seq<u8>, pos: int) -> Option<LockObjectReturns> {
        if fits(bytes, pos, 8) {
            Some(LockObjectReturns { lock_id: u64_at(bytes, pos + 0) })
        } else {
            None
        }
    }

    /// A value placed between any other bytes is parsed back.
    pub proof fn lemma_roundtrip(self, prefix: Seq<u8>, suffix: Seq<u8>)
        ensures
            self.wire().len() == 8,
            LockObjectReturns::parse(prefix + self.wire() + suffix, prefix.len() as int) == Some(self),
    {
        let all = prefix + self.wire() + suffix;
        let p0 = prefix;
        let s0 = suffix;
        lemma_u64_at(p0, self.lock_id, s0);
        lemma_u64_roundtrip(self.lock_id);
        assert(all =~= p0 + le_u64(self.lock_id) + s0);
    }

    /// Appends the value's bytes and returns their number.
    pub fn write_at(&self, buffer: &mut Vec<u8>) -> (size: usize)
        ensures
            final(buffer)@ == old(buffer)@ + self.wire(),
            size == 8,
    {
        push_u64(buffer, self.lock_id);
        proof {
            assert(buffer@ =~= old(buffer)@ + self.wire());
            self.lemma_roundtrip(Seq::empty(), Seq::empty());
        }
        8
    }

    /// The value refers to no further data: nothing is appended.
    pub fn write_references_at(&self, buffer: &mut Vec<u8>) -> (size: usize)
        ensures
            final(buffer)@ == old(buffer)@,
            size == 0,
    {
        0
    }

    /// Reads the value at `position`; the size read is its fixed size.
    pub fn reconstruct_at_inline(bytes: &[u8], position: usize) -> (read: Option<(LockObjectReturns, usize)>)
        ensures
            read == (match LockObjectReturns::parse(bytes@, position as int) { Some(v) => Some((v, 8usize)), None => None }),
    {
        if position > bytes.len() || bytes.len() - position < 8 {
            return None;
        }
        let lock_id = read_u64(bytes, position + 0).unwrap();
        Some((LockObjectReturns { lock_id }, 8))
    }

    /// Reads the value whose fixed part is at `object`; it has no
    /// references, so the size read from `references` is 0.
    pub fn reconstruct_at(bytes: &[u8], object: usize, references: usize) -> (read: Option<(LockObjectReturns, usize)>)
        ensures
            read == (match LockObjectReturns::parse(bytes@, object as int) { Some(v) => Some((v, 0usize)), None => None }),
    {
        match LockObjectReturns::reconstruct_at_inline(bytes, object) {
            Some((v, _)) => Some((v, 0)),
            None => None,
        }
    }
}

/// Reply to a watch request: the id of the watch.
#[derive(Clone, Copy, PartialEq, Eq, Structural, Debug)]
pub struct WatchObjectReturns {
    pub watch_id: u64,
}

impl WatchObjectReturns {
    /// Bytes that a value occupies in a message.
    pub open spec fn wire_size() -> nat { 8nat }

    /// The bytes of the value in a message: watch id.
    pub open spec fn wire(self) -> Seq<u8> {
        le_u64(self.watch_id)
    }

    /// The value whose bytes start at `pos`, or `None` if the bytes end before it does.
    pub open spec fn parse(bytes: Seq<u8>, pos: int) -> Option<WatchObjectReturns> {
        if fits(bytes, pos, 8) {
            Some(WatchObjectReturns { watch_id: u64_at(bytes, pos + 0) })
        } else {
            None
        }
    }

    /// A value placed between any other bytes is parsed back.
    pub proof fn lemma_roundtrip(self, prefix: Seq<u8>, suffix: Seq<u8>)
        ensures
            self.wire().len() == 8,
            WatchObjectReturns::parse(prefix + self.wire() + suffix, prefix.len() as int) == Some(self),
    {
        let all = prefix + self.wire() + suffix;
        let p0 = prefix;
        let s0 = suffix;
        lemma_u64_at(p0, self.watch_id, s0);
        lemma_u64_roundtrip(self.watch_id);
        assert(all =~= p0 + le_u64(self.watch_id) + s0);
    }

    /// Appends the value's bytes and returns their number.
    pub fn write_at(&self, buffer: &mut Vec<u8>) -> (size: usize)
        ensures
            final(buffer)@ == old(buffer)@ + self.wire(),
            size == 8,
    {
        push_u64(buffer, self.watch_id);
        proof {
            assert(buffer@ =~= old(buffer)@ + self.wire());
            self.lemma_roundtrip(Seq::empty(), Seq::empty());
        }
        8
    }

    /// The value refers to no further data: nothing is appended.
    pub fn write_references_at(&self, buffer: &mut Vec<u8>) -> (size: usize)
        ensures
            final(buffer)@ == old(buffer)@,
            size == 0,
    {
        0
    }

    /// Reads the value at `position`; the size read is its fixed size.
    pub fn reconstruct_at_inline(bytes: &[u8], position: usize) -> (read: Option<(WatchObjectReturns, usize)>)
        ensures
            read == (match WatchObjectReturns::parse(bytes@, position as int) { Some(v) => Some((v, 8usize)), None => None }),
    {
        if position > bytes.len() || bytes.len() - position < 8 {
            return None;
        }
        let watch_id = read_u64(bytes, position + 0).unwrap();
        Some((WatchObjectReturns { watch_id }, 8))
    }

    /// Reads the value whose fixed part is at `object`; it has no
    /// references, so the size read from `references` is 0.
    pub fn reconstruct_at(bytes: &[u8], object: usize, references: usize) -> (read: Option<(WatchObjectReturns, usize)>)
        ensures
            read == (match WatchObjectReturns::parse(bytes@, object as int) { Some(v) => Some((v, 0usize)), None => None }),
    {
        match WatchObjectReturns::reconstruct_at_inline(bytes, object) {
            Some((v, _)) => Some((v, 0)),
            None => None,
        }
    }
}

/// Request to release a lock.
#[derive(Clone, Copy, PartialEq, Eq, Structural, Debug)]
pub struct UnlockObjectParameters {
    pub lock_id: u64,
}

impl UnlockObjectParameters {
    /// Bytes that a value occupies in a message.
    pub open spec fn wire_size() -> nat { 8nat }

    /// The bytes of the value in a message: lock id.
    pub open spec fn wire(self) -> Seq<u8> {
        le_u64(self.lock_id)
    }

    /// The value whose bytes start at `pos`, or `None` if the bytes end before it does.
    pub open spec fn parse(bytes: Seq<u8>, pos: int) -> Option<UnlockObjectParameters> {
        if fits(bytes, pos, 8) {
            Some(UnlockObjectParameters { lock_id: u64_at(bytes, pos + 0) })
        } else {
            None
        }
    }

    /// A value placed between any other bytes is parsed back.
    pub proof fn lemma_roundtrip(self, prefix: Seq<u8>, suffix: Seq<u8>)
        ensures
            self.wire().len() == 8,
            UnlockObjectParameters::parse(prefix + self.wire() + suffix, prefix.len() as int) == Some(self),
    {
        let all = prefix + self.wire() + suffix;
        let p0 = prefix;
        let s0 = suffix;
        lemma_u64_at(p0, self.lock_id, s0);
        lemma_u64_roundtrip(self.lock_id);
        assert(all =~= p0 + le_u64(self.lock_id) + s0);
    }

    /// Appends the value's bytes and returns their number.
    pub fn write_at(&self, buffer: &mut Vec<u8>) -> (size: usize)
        ensures
            final(buffer)@ == old(buffer)@ + self.wire(),
            size == 8,
    {
        push_u64(buffer, self.lock_id);
        proof {
            assert(buffer@ =~= old(buffer)@ + self.wire());
            self.lemma_roundtrip(Seq::empty(), Seq::empty());
        }
        8
    }

    /// The value refers to no further data: nothing is appended.
    pub fn write_references_at(&self, buffer: &mut Vec<u8>) -> (size: usize)
        ensures
            final(buffer)@ == old(buffer)@,
            size == 0,
    {
        0
    }

    /// Reads the value at `position`; the size read is its fixed size.
    pub fn reconstruct_at_inline(bytes: &[u8], position: usize) -> (read: Option<(UnlockObjectParameters, usize)>)
        ensures
            read == (match UnlockObjectParameters::parse(bytes@, position as int) { Some(v) => Some((v, 8usize)), None => None }),
    {
        if position > bytes.len() || bytes.len() - position < 8 {
            return None;
        }
        let lock_id = read_u64(bytes, position + 0).unwrap();
        Some((UnlockObjectParameters { lock_id }, 8))
    }

    /// Reads the value whose fixed part is at `object`; it has no
    /// references, so the size read from `references` is 0.
    pub fn reconstruct_at(bytes: &[u8], object: usize, references: usize) -> (read: Option<(UnlockObjectParameters, usize)>)
        ensures
            read == (match UnlockObjectParameters::parse(bytes@, object as int) { Some(v) => Some((v, 0usize)), None => None }),
    {
        match UnlockObjectParameters::reconstruct_at_inline(bytes, object) {
            Some((v, _)) => Some((v, 0)),
            None => None,
        }
    }
}

/// Request to stop a watch.
#[derive(Clone, Copy, PartialEq, Eq, Structural, Debug)]
pub struct UnwatchObjectParameters {
    pub watch_id: u64,
}

impl UnwatchObjectParameters {
    /// Bytes that a value occupies in a message.
    pub open spec fn wire_size() -> nat { 8nat }

    /// The bytes of the value in a message: watch id.
    pub open spec fn wire(self) -> Seq<u8> {
        le_u64(self.watch_id)
    }

    /// The value whose bytes start at `pos`, or `None` if the bytes end before it does.
    pub open spec fn parse(bytes: Seq<u8>, pos: int) -> Option<UnwatchObjectParameters> {
        if fits(bytes, pos, 8) {
            Some(UnwatchObjectParameters { watch_id: u64_at(bytes, pos + 0) })
        } else {
            None
        }
    }

    /// A value placed between any other bytes is parsed back.
    pub proof fn lemma_roundtrip(self, prefix: Seq<u8>, suffix: Seq<u8>)
        ensures
            self.wire().len() == 8,
            UnwatchObjectParameters::parse(prefix + self.wire() + suffix, prefix.len() as int) == Some(self),
    {
        let all = prefix + self.wire() + suffix;
        let p0 = prefix;
        let s0 = suffix;
        lemma_u64_at(p0, self.watch_id, s0);
        lemma_u64_roundtrip(self.watch_id);
        assert(all =~= p0 + le_u64(self.watch_id) + s0);
    }

    /// Appends the value's bytes and returns their number.
    pub fn write_at(&self, buffer: &mut Vec<u8>) -> (size: usize)
        ensures
            final(buffer)@ == old(buffer)@ + self.wire(),
            size == 8,
    {
        push_u64(buffer, self.watch_id);
        proof {
            assert(buffer@ =~= old(buffer)@ + self.wire());
            self.lemma_roundtrip(Seq::empty(), Seq::empty());
        }
        8
    }

    /// The value refers to no further data: nothing is appended.
    pub fn write_references_at(&self, buffer: &mut Vec<u8>) -> (size: usize)
        ensures
            final(buffer)@ == old(buffer)@,
            size == 0,
    {
        0
    }

    /// Reads the value at `position`; the size read is its fixed size.
    pub fn reconstruct_at_inline(bytes: &[u8], position: usize) -> (read: Option<(UnwatchObjectParameters, usize)>)
        ensures
            read == (match UnwatchObjectParameters::parse(bytes@, position as int) { Some(v) => Some((v, 8usize)), None => None }),
    {
        if position > bytes.len() || bytes.len() - position < 8 {
            return None;
        }
        let watch_id = read_u64(bytes, position + 0).unwrap();
        Some((UnwatchObjectParameters { watch_id }, 8))
    }

    /// Reads the value whose fixed part is at `object`; it has no
    /// references, so the size read from `references` is 0.
    pub fn reconstruct_at(bytes: &[u8], object: usize, references: usize) -> (read: Option<(UnwatchObjectParameters, usize)>)
        ensures
            read == (match UnwatchObjectParameters::parse(bytes@, object as int) { Some(v) => Some((v, 0usize)), None => None }),
    {
        match UnwatchObjectParameters::reconstruct_at_inline(bytes, object) {
            Some((v, _)) => Some((v, 0)),
            None => None,
        }
    }
}

/// Event: a watched object changed.
#[derive(Clone, Copy, PartialEq, Eq, Structural, Debug)]
pub struct WatchedObjectChangedParameters {
    pub watch_id: u64,
}

impl WatchedObjectChangedParameters {
    /// Bytes that a value occupies in a message.
    pub open spec fn wire_size() -> nat { 8nat }

    /// The bytes of the value in a message: watch id.
    pub open spec fn wire(self) -> Seq<u8> {
        le_u64(self.watch_id)
    }

    /// The value whose bytes start at `pos`, or `None` if the bytes end before it does.
    pub open spec fn parse(bytes: Seq<u8>, pos: int) -> Option<WatchedObjectChangedParameters> {
        if fits(bytes, pos, 8) {
            Some(WatchedObjectChangedParameters { watch_id: u64_at(bytes, pos + 0) })
        } else {
            None
        }
    }

    /// A value placed between any other bytes is parsed back.
    pub proof fn lemma_roundtrip(self, prefix: Seq<u8>, suffix: Seq<u8>)
        ensures
            self.wire().len() == 8,
            WatchedObjectChangedParameters::parse(prefix + self.wire() + suffix, prefix.len() as int) == Some(self),
    {
        let all = prefix + self.wire() + suffix;
        let p0 = prefix;
        let s0 = suffix;
        lemma_u64_at(p0, self.watch_id, s0);
        lemma_u64_roundtrip(self.watch_id);
        assert(all =~= p0 + le_u64(self.watch_id) + s0);
    }

    /// Appends the value's bytes and returns their number.
    pub fn write_at(&self, buffer: &mut Vec<u8>) -> (size: usize)
        ensures
            final(buffer)@ == old(buffer)@ + self.wire(),
            size == 8,
    {
        push_u64(buffer, self.watch_id);
        proof {
            assert(buffer@ =~= old(buffer)@ + self.wire());
            self.lemma_roundtrip(Seq::empty(), Seq::empty());
        }
        8
    }

    /// The value refers to no further data: nothing is appended.
    pub fn write_references_at(&self, buffer: &mut Vec<u8>) -> (size: usize)
        ensures
            final(buffer)@ == old(buffer)@,
            size == 0,
    {
        0
    }

    /// Reads the value at `position`; the size read is its fixed size.
    pub fn reconstruct_at_inline(bytes: &[u8], position: usize) -> (read: Option<(WatchedObjectChangedParameters, usize)>)
        ensures
            read == (match WatchedObjectChangedParameters::parse(bytes@, position as int) { Some(v) => Some((v, 8usize)), None => None }),
    {
        if position > bytes.len() || bytes.len() - position < 8 {
            return None;
        }
        let watch_id = read_u64(bytes, position + 0).unwrap();
        Some((WatchedObjectChangedParameters { watch_id }, 8))
    }

    /// Reads the value whose fixed part is at `object`; it has no
    /// references, so the size read from `references` is 0.
    pub fn reconstruct_at(bytes: &[u8], object: usize, references: usize) -> (read: Option<(WatchedObjectChangedParameters, usize)>)
        ensures
            read == (match WatchedObjectChangedParameters::parse(bytes@, object as int) { Some(v) => Some((v, 0usize)), None => None }),
    {
        match WatchedObjectChangedParameters::reconstruct_at_inline(bytes, object) {
            Some((v, _)) => Some((v, 0)),
            None => None,
        }
    }
}

} // verus!
