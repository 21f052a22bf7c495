//! The layout of protocol values in a message: every value has a fixed part
//! of a fixed size, and may refer to further data (texts, lists) that is
//! written after the fixed parts. A list is its length, the fixed parts of
//! its items one after another, then the data each item refers to, in item
//! order. A reader is given where a value's fixed part and its references
//! start, and learns how many reference bytes the value used.

use vstd::prelude::*;
use crate::wire::{fits, le_u64, lemma_text_roundtrip, lemma_u64_roundtrip, parse_text, push_text, push_u64, push_zeros, read_text, read_u64, text_bytes, u64_at, zeros};

verus! {

/// A value with a fixed part and references in the message layout.
pub trait Layout: Sized + DeepView {
    /// Bytes of the fixed part.
    spec fn fixed_size() -> nat;

    /// The fixed part of the value.
    spec fn fixed_part(&self) -> Seq<u8>;

    /// The data the value refers to.
    spec fn references(&self) -> Seq<u8>;

    /// The value that `bytes` hold with the fixed part at `object` and the
    /// references at `refs`, and the number of reference bytes it uses; or
    /// `None` when the bytes hold no such value there.
    spec fn parse_at(bytes: Seq<u8>, object: int, refs: int) -> Option<(Self::V, nat)>;

    /// The fixed part has the fixed size, which is not zero.
    proof fn lemma_fixed_size(&self)
        ensures
            self.fixed_part().len() == Self::fixed_size(),
            Self::fixed_size() > 0,
    ;

    /// A value that is read uses bytes within the message.
    proof fn lemma_parse_bounds(bytes: Seq<u8>, object: int, refs: int)
        ensures
            Self::parse_at(bytes, object, refs) matches Some((v, used)) ==> 0 <= refs && refs + used <= bytes.len() && fits(bytes, object, Self::fixed_size() as int),
    ;

    /// A value whose fixed part and references are placed in a message is
    /// read back, and uses exactly its references.
    proof fn lemma_placed(&self, bytes: Seq<u8>, object: int, refs: int)
        requires
            bytes.len() <= u64::MAX,
            fits(bytes, object, self.fixed_part().len() as int),
            bytes.subrange(object, object + self.fixed_part().len()) == self.fixed_part(),
            fits(bytes, refs, self.references().len() as int),
            bytes.subrange(refs, refs + self.references().len()) == self.references(),
        ensures
            Self::parse_at(bytes, object, refs) == Some((self.deep_view(), self.references().len())),
    ;

    /// The size of the fixed part.
    fn fixed_len() -> (n: usize)
        ensures
            n == Self::fixed_size(),
            n > 0,
    ;

    /// Appends the fixed part.
    fn write_fixed(&self, buffer: &mut Vec<u8>)
        ensures
            final(buffer)@ == old(buffer)@ + self.fixed_part(),
    ;

    /// Appends the references and returns their size.
    fn write_references(&self, buffer: &mut Vec<u8>) -> (size: usize)
        ensures
            final(buffer)@ == old(buffer)@ + self.references(),
            size == self.references().len(),
    ;

    /// Reads the value with the fixed part at `object` and the references
    /// at `refs`, as `parse_at` says.
    fn read_at(bytes: &[u8], object: usize, refs: usize) -> (read: Option<(Self, usize)>)
        ensures
            match read {
                Some((v, used)) => Self::parse_at(bytes@, object as int, refs as int) == Some((v.deep_view(), used as nat)),
                None => Self::parse_at(bytes@, object as int, refs as int) is None,
            },
    ;
}

/// The two parts of a placed concatenation are placed one after the other.
pub proof fn lemma_split(bytes: Seq<u8>, pos: int, a: Seq<u8>, b: Seq<u8>)
    requires
        fits(bytes, pos, (a.len() + b.len()) as int),
        bytes.subrange(pos, pos + a.len() + b.len()) == a + b,
    ensures
        bytes.subrange(pos, pos + a.len()) == a,
        bytes.subrange(pos + a.len(), pos + a.len() + b.len()) == b,
{
    assert(bytes.subrange(pos, pos + a.len()) =~= (a + b).subrange(0, a.len() as int));
    assert(bytes.subrange(pos + a.len(), pos + a.len() + b.len()) =~= (a + b).subrange(a.len() as int, (a.len() + b.len()) as int));
}

/// The deep views of the items of a sequence.
pub open spec fn deep_views<T: DeepView>(s: Seq<T>) -> Seq<T::V> {
    Seq::new(s.len(), |i: int| s[i].deep_view())
}

/// The fixed parts of the items, one after another.
pub open spec fn fixed_parts<T: Layout>(s: Seq<T>) -> Seq<u8>
    decreases s.len(),
{
    if s.len() == 0 {
        Seq::empty()
    } else {
        fixed_parts(s.drop_last()) + s.last().fixed_part()
    }
}

/// The references of the items, one after another.
pub open spec fn references_of<T: Layout>(s: Seq<T>) -> Seq<u8>
    decreases s.len(),
{
    if s.len() == 0 {
        Seq::empty()
    } else {
        references_of(s.drop_last()) + s.last().references()
    }
}

/// A list in the message layout: its length, the fixed parts of the items,
/// then their references.
pub open spec fn list_bytes<T: Layout>(s: Seq<T>) -> Seq<u8> {
    le_u64(s.len() as u64) + fixed_parts(s) + references_of(s)
}

/// The first `n` items of a list whose fixed parts start at `object` and
/// whose references start at `refs`, and the reference bytes they use.
pub open spec fn parse_items<T: Layout>(bytes: Seq<u8>, object: int, refs: int, n: nat) -> Option<(Seq<T::V>, nat)>
    decreases n,
{
    if n == 0 {
        Some((Seq::empty(), 0nat))
    } else {
        match parse_items::<T>(bytes, object, refs, (n - 1) as nat) {
            Some((vs, used)) => match T::parse_at(bytes, object + (n - 1) * T::fixed_size(), refs + used) {
                Some((v, u)) => Some((vs.push(v), used + u)),
                None => None,
            },
            None => None,
        }
    }
}

/// A list at `pos` in the message layout, and the number of bytes it takes.
pub open spec fn parse_list<T: Layout>(bytes: Seq<u8>, pos: int) -> Option<(Seq<T::V>, nat)> {
    if fits(bytes, pos, 8) {
        let n = u64_at(bytes, pos) as nat;
        let items = pos + 8;
        let rest = items + n * T::fixed_size();
        if rest <= bytes.len() {
            match parse_items::<T>(bytes, items, rest, n) {
                Some((vs, used)) => Some((vs, (8 + n * T::fixed_size() + used) as nat)),
                None => None,
            }
        } else {
            None
        }
    } else {
        None
    }
}

/// The fixed parts of `n` items take `n` times the fixed size.
pub proof fn lemma_fixed_parts_len<T: Layout>(s: Seq<T>)
    ensures
        fixed_parts(s).len() == s.len() * T::fixed_size(),
    decreases s.len(),
{
    if s.len() > 0 {
        lemma_fixed_parts_len(s.drop_last());
        s.last().lemma_fixed_size();
        assert(s.len() * T::fixed_size() == (s.len() - 1) * T::fixed_size() + T::fixed_size()) by (nonlinear_arith);
    }
}

/// Items whose fixed parts and references are placed one after another are
/// read back.
pub proof fn lemma_items_placed<T: Layout>(s: Seq<T>, bytes: Seq<u8>, object: int, refs: int)
    requires
        bytes.len() <= u64::MAX,
        fits(bytes, object, fixed_parts(s).len() as int),
        bytes.subrange(object, object + fixed_parts(s).len()) == fixed_parts(s),
        fits(bytes, refs, references_of(s).len() as int),
        bytes.subrange(refs, refs + references_of(s).len()) == references_of(s),
    ensures
        parse_items::<T>(bytes, object, refs, s.len()) == Some((deep_views(s), references_of(s).len())),
    decreases s.len(),
{
    if s.len() == 0 {
        assert(deep_views(s) =~= Seq::<T::V>::empty());
    } else {
        let init = s.drop_last();
        let last = s.last();
        lemma_fixed_parts_len(init);
        last.lemma_fixed_size();
        lemma_split(bytes, object, fixed_parts(init), last.fixed_part());
        lemma_split(bytes, refs, references_of(init), last.references());
        lemma_items_placed(init, bytes, object, refs);
        last.lemma_placed(bytes, object + fixed_parts(init).len(), refs + references_of(init).len());
        assert(deep_views(s) =~= deep_views(init).push(last.deep_view()));
    }
}

/// A list placed in a message is read back and takes exactly its bytes.
pub proof fn lemma_list_placed<T: Layout>(s: Seq<T>, bytes: Seq<u8>, pos: int)
    requires
        bytes.len() <= u64::MAX,
        s.len() <= u64::MAX,
        fits(bytes, pos, list_bytes(s).len() as int),
        bytes.subrange(pos, pos + list_bytes(s).len()) == list_bytes(s),
    ensures
        parse_list::<T>(bytes, pos) == Some((deep_views(s), list_bytes(s).len())),
{
    lemma_u64_roundtrip(s.len() as u64);
    lemma_fixed_parts_len(s);
    let head = le_u64(s.len() as u64);
    lemma_split(bytes, pos, head + fixed_parts(s), references_of(s));
    lemma_split(bytes, pos, head, fixed_parts(s));
    assert(u64_at(bytes, pos) == s.len());
    lemma_items_placed(s, bytes, pos + 8, pos + 8 + fixed_parts(s).len());
}

/// Reading `n` items keeps within the message.
pub proof fn lemma_items_bounds<T: Layout>(bytes: Seq<u8>, object: int, refs: int, n: nat)
    requires
        0 <= refs <= bytes.len(),
    ensures
        parse_items::<T>(bytes, object, refs, n) matches Some((vs, used)) ==> refs + used <= bytes.len() && vs.len() == n,
    decreases n,
{
    if n > 0 {
        lemma_items_bounds::<T>(bytes, object, refs, (n - 1) as nat);
        if let Some((vs, used)) = parse_items::<T>(bytes, object, refs, (n - 1) as nat) {
            T::lemma_parse_bounds(bytes, object + (n - 1) * T::fixed_size(), refs + used);
        }
    }
}

/// Once an item cannot be read, no longer run of items can.
pub proof fn lemma_items_stop<T: Layout>(bytes: Seq<u8>, object: int, refs: int, k: nat, n: nat)
    requires
        k <= n,
        parse_items::<T>(bytes, object, refs, k) is None,
    ensures
        parse_items::<T>(bytes, object, refs, n) is None,
    decreases n,
{
    if k < n {
        lemma_items_stop::<T>(bytes, object, refs, k, (n - 1) as nat);
    }
}

/// Appends the fixed parts of the items.
fn write_fixed_parts<T: Layout>(items: &Vec<T>, buffer: &mut Vec<u8>)
    ensures
        final(buffer)@ == old(buffer)@ + fixed_parts(items@),
{
    let ghost start = buffer@;
    let mut i: usize = 0;
    while i < items.len()
        invariant
            i <= items.len(),
            buffer@ == start + fixed_parts(items@.take(i as int)),
        decreases items.len() - i,
    {
        proof {
            assert(items@.take(i + 1).drop_last() =~= items@.take(i as int));
        }
        items[i].write_fixed(buffer);
        proof {
            assert(buffer@ =~= start + fixed_parts(items@.take(i + 1)));
        }
        i += 1;
    }
    proof {
        assert(items@.take(items.len() as int) =~= items@);
    }
}

/// Appends the references of the items.
fn write_references_of<T: Layout>(items: &Vec<T>, buffer: &mut Vec<u8>)
    ensures
        final(buffer)@ == old(buffer)@ + references_of(items@),
{
    let ghost start = buffer@;
    let mut i: usize = 0;
    while i < items.len()
        invariant
            i <= items.len(),
            buffer@ == start + references_of(items@.take(i as int)),
        decreases items.len() - i,
    {
        proof {
            assert(items@.take(i + 1).drop_last() =~= items@.take(i as int));
        }
        let _ = items[i].write_references(buffer);
        proof {
            assert(buffer@ =~= start + references_of(items@.take(i + 1)));
        }
        i += 1;
    }
    proof {
        assert(items@.take(items.len() as int) =~= items@);
    }
}

/// Appends a list in the message layout and returns its size.
pub fn write_list<T: Layout>(items: &Vec<T>, buffer: &mut Vec<u8>) -> (size: usize)
    ensures
        final(buffer)@ == old(buffer)@ + list_bytes(items@),
        size == list_bytes(items@).len(),
{
    let start = buffer.len();
    push_u64(buffer, items.len() as u64);
    write_fixed_parts(items, buffer);
    write_references_of(items, buffer);
    proof {
        assert(buffer@ =~= old(buffer)@ + list_bytes(items@));
    }
    buffer.len() - start
}

/// Reads a list at `pos`, as `parse_list` says.
pub fn read_list<T: Layout>(bytes: &[u8], pos: usize) -> (read: Option<(Vec<T>, usize)>)
    ensures
        match read {
            Some((v, used)) => parse_list::<T>(bytes@, pos as int) == Some((v.deep_view(), used as nat)),
            None => parse_list::<T>(bytes@, pos as int) is None,
        },
{
    let len = bytes.len();
    let count = match read_u64(bytes, pos) {
        Some(c) => c,
        None => return None,
    };
    let fs = T::fixed_len();
    let items = pos + 8;
    let room = len - items;
    if count > (room / fs) as u64 {
        proof {
            assert(count * fs > room) by (nonlinear_arith)
                requires count > room / fs, fs > 0;
        }
        return None;
    }
    proof {
        assert(count * fs <= room) by (nonlinear_arith)
            requires count <= room / fs, fs > 0;
    }
    let n = count as usize;
    let rest = items + n * fs;
    let mut out: Vec<T> = Vec::new();
    let mut used: usize = 0;
    let mut i: usize = 0;
    while i < n
        invariant
            len == bytes@.len(),
            fits(bytes@, pos as int, 8),
            n == u64_at(bytes@, pos as int),
            items == pos + 8,
            fs == T::fixed_size(),
            fs > 0,
            i <= n,
            rest == items + n * fs,
            rest <= len,
            rest + used <= len,
            parse_items::<T>(bytes@, items as int, rest as int, i as nat) == Some((out.deep_view(), used as nat)),
        decreases n - i,
    {
        proof {
            assert(i * fs <= n * fs - fs) by (nonlinear_arith)
                requires i < n, fs > 0;
        }
        let object = items + i * fs;
        match T::read_at(bytes, object, rest + used) {
            Some((v, u)) => {
                proof {
                    T::lemma_parse_bounds(bytes@, object as int, (rest + used) as int);
                }
                let ghost before = out.deep_view();
                let ghost item = v.deep_view();
                out.push(v);
                proof {
                    assert(out.deep_view() =~= before.push(item));
                }
                used = used + u;
            },
            None => {
                proof {
                    lemma_items_stop::<T>(bytes@, items as int, rest as int, (i + 1) as nat, n as nat);
                }
                return None;
            },
        }
        i += 1;
    }
    Some((out, 8 + n * fs + used))
}

/// A value written inline at `pos`: its fixed part, then its references
/// right after it. The result holds the value and the number of bytes it
/// takes.
pub open spec fn parse_inline<T: Layout>(bytes: Seq<u8>, pos: int) -> Option<(T::V, nat)> {
    match T::parse_at(bytes, pos, pos + T::fixed_size()) {
        Some((v, used)) => Some((v, T::fixed_size() + used)),
        None => None,
    }
}

/// Appends a value inline (fixed part, then references) and returns the
/// number of bytes appended.
pub fn write_inline<T: Layout>(value: &T, buffer: &mut Vec<u8>) -> (size: usize)
    ensures
        final(buffer)@ == old(buffer)@ + value.fixed_part() + value.references(),
        size == value.fixed_part().len() + value.references().len(),
{
    let start = buffer.len();
    value.write_fixed(buffer);
    let _ = value.write_references(buffer);
    buffer.len() - start
}

/// Reads a value written inline at `position`, as `parse_inline` says.
pub fn read_inline<T: Layout>(bytes: &[u8], position: usize) -> (read: Option<(T, usize)>)
    ensures
        match read {
            Some((v, size)) => parse_inline::<T>(bytes@, position as int) == Some((v.deep_view(), size as nat)),
            None => parse_inline::<T>(bytes@, position as int) is None,
        },
{
    let fs = T::fixed_len();
    if position > bytes.len() || bytes.len() - position < fs {
        proof {
            T::lemma_parse_bounds(bytes@, position as int, position + fs);
        }
        return None;
    }
    match T::read_at(bytes, position, position + fs) {
        Some((v, used)) => {
            proof {
                T::lemma_parse_bounds(bytes@, position as int, position + fs);
            }
            Some((v, fs + used))
        },
        None => None,
    }
}

/// A value written inline between any other bytes is read back, and takes
/// exactly the bytes written.
pub proof fn law_inline_roundtrip<T: Layout>(value: T, prefix: Seq<u8>, suffix: Seq<u8>)
    requires
        (prefix + value.fixed_part() + value.references() + suffix).len() <= u64::MAX,
    ensures
        parse_inline::<T>(prefix + value.fixed_part() + value.references() + suffix, prefix.len() as int)
            == Some((value.deep_view(), value.fixed_part().len() + value.references().len())),
{
    let bytes = prefix + value.fixed_part() + value.references() + suffix;
    let f = value.fixed_part();
    let r = value.references();
    value.lemma_fixed_size();
    assert(bytes.subrange(prefix.len() as int, (prefix.len() + f.len()) as int) =~= f);
    assert(bytes.subrange((prefix.len() + f.len()) as int, (prefix.len() + f.len() + r.len()) as int) =~= r);
    value.lemma_placed(bytes, prefix.len() as int, (prefix.len() + f.len()) as int);
}

/// A list written between any other bytes is read back, and takes exactly
/// the bytes written.
pub proof fn law_list_roundtrip<T: Layout>(items: Seq<T>, prefix: Seq<u8>, suffix: Seq<u8>)
    requires
        items.len() <= u64::MAX,
        (prefix + list_bytes(items) + suffix).len() <= u64::MAX,
    ensures
        parse_list::<T>(prefix + list_bytes(items) + suffix, prefix.len() as int) == Some((deep_views(items), list_bytes(items).len())),
{
    let bytes = prefix + list_bytes(items) + suffix;
    assert(bytes.subrange(prefix.len() as int, (prefix.len() + list_bytes(items).len()) as int) =~= list_bytes(items));
    lemma_list_placed(items, bytes, prefix.len() as int);
}

/// A 64-bit value: its eight bytes are its fixed part.
impl Layout for u64 {
    open spec fn fixed_size() -> nat { 8 }

    open spec fn fixed_part(&self) -> Seq<u8> { le_u64(*self) }

    open spec fn references(&self) -> Seq<u8> { Seq::empty() }

    open spec fn parse_at(bytes: Seq<u8>, object: int, refs: int) -> Option<(u64, nat)> {
        if fits(bytes, object, 8) && 0 <= refs <= bytes.len() {
            Some((u64_at(bytes, object), 0nat))
        } else {
            None
        }
    }

    proof fn lemma_fixed_size(&self) {
        lemma_u64_roundtrip(*self);
    }

    proof fn lemma_parse_bounds(bytes: Seq<u8>, object: int, refs: int) {
    }

    proof fn lemma_placed(&self, bytes: Seq<u8>, object: int, refs: int) {
        lemma_u64_roundtrip(*self);
    }

    fn fixed_len() -> (n: usize) { 8 }

    fn write_fixed(&self, buffer: &mut Vec<u8>) {
        push_u64(buffer, *self);
    }

    fn write_references(&self, buffer: &mut Vec<u8>) -> (size: usize) {
        proof {
            assert(buffer@ =~= buffer@ + Seq::<u8>::empty());
        }
        0
    }

    fn read_at(bytes: &[u8], object: usize, refs: usize) -> (read: Option<(u64, usize)>) {
        if refs > bytes.len() {
            return None;
        }
        match read_u64(bytes, object) {
            Some(v) => Some((v, 0)),
            None => None,
        }
    }
}

/// A text: its fixed part is the 24-byte slot that holds it in memory,
/// written as zeros; it refers to its bytes in the text format.
impl Layout for String {
    open spec fn fixed_size() -> nat { 24 }

    open spec fn fixed_part(&self) -> Seq<u8> { zeros(24) }

    open spec fn references(&self) -> Seq<u8> { text_bytes(self@) }

    open spec fn parse_at(bytes: Seq<u8>, object: int, refs: int) -> Option<(Seq<char>, nat)> {
        if fits(bytes, object, 24) {
            match parse_text(bytes, refs) {
                Some((t, end)) => Some((t, (end - refs) as nat)),
                None => None,
            }
        } else {
            None
        }
    }

    proof fn lemma_fixed_size(&self) {
    }

    proof fn lemma_parse_bounds(bytes: Seq<u8>, object: int, refs: int) {
    }

    proof fn lemma_placed(&self, bytes: Seq<u8>, object: int, refs: int) {
        let t = text_bytes(self@);
        let prefix = bytes.subrange(0, refs);
        let suffix = bytes.subrange(refs + t.len(), bytes.len() as int);
        assert(bytes =~= prefix + t + suffix);
        lemma_text_roundtrip(prefix, self@, suffix);
    }

    fn fixed_len() -> (n: usize) { 24 }

    fn write_fixed(&self, buffer: &mut Vec<u8>) {
        push_zeros(buffer, 24);
    }

    fn write_references(&self, buffer: &mut Vec<u8>) -> (size: usize) {
        push_text(buffer, self.as_str())
    }

    fn read_at(bytes: &[u8], object: usize, refs: usize) -> (read: Option<(String, usize)>) {
        if object > bytes.len() || bytes.len() - object < 24 {
            return None;
        }
        match read_text(bytes, refs) {
            Some((t, end)) => Some((t, end - refs)),
            None => None,
        }
    }
}

/// A list: its fixed part is the 24-byte slot that holds it in memory,
/// written as zeros; it refers to its items in the list layout.
impl<T: Layout> Layout for Vec<T> {
    open spec fn fixed_size() -> nat { 24 }

    open spec fn fixed_part(&self) -> Seq<u8> { zeros(24) }

    open spec fn references(&self) -> Seq<u8> { list_bytes(self@) }

    open spec fn parse_at(bytes: Seq<u8>, object: int, refs: int) -> Option<(Seq<T::V>, nat)> {
        if fits(bytes, object, 24) {
            parse_list::<T>(bytes, refs)
        } else {
            None
        }
    }

    proof fn lemma_fixed_size(&self) {
    }

    proof fn lemma_parse_bounds(bytes: Seq<u8>, object: int, refs: int) {
        if fits(bytes, refs, 8) {
            let n = u64_at(bytes, refs) as nat;
            let items = refs + 8;
            let rest = items + n * T::fixed_size();
            if rest <= bytes.len() {
                assert(n * T::fixed_size() >= 0) by (nonlinear_arith);
                lemma_items_bounds::<T>(bytes, items, rest, n);
            }
        }
    }

    proof fn lemma_placed(&self, bytes: Seq<u8>, object: int, refs: int) {
        assert(self@.len() == self.len()) by {
            broadcast use vstd::std_specs::vec::axiom_spec_len;
        }
        lemma_list_placed(self@, bytes, refs);
        assert(deep_views(self@) =~= self.deep_view());
    }

    fn fixed_len() -> (n: usize) { 24 }

    fn write_fixed(&self, buffer: &mut Vec<u8>) {
        push_zeros(buffer, 24);
    }

    fn write_references(&self, buffer: &mut Vec<u8>) -> (size: usize) {
        write_list(self, buffer)
    }

    fn read_at(bytes: &[u8], object: usize, refs: usize) -> (read: Option<(Vec<T>, usize)>) {
        if object > bytes.len() || bytes.len() - object < 24 {
            return None;
        }
        read_list(bytes, refs)
    }
}

} // verus!
