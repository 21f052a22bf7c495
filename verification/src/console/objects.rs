//! Structured objects that the console protocol can show: maps and tables.

use vstd::prelude::*;
use crate::layout::{lemma_split, parse_inline, read_inline, write_inline, Layout};
use crate::wire::fits;
use crate::wire::{le_u64, lemma_u64_roundtrip, push_u64, push_zeros, read_u64, u64_at, zeros};

verus! {

/// One named value of a map.
pub struct MapField {
    /// The name of the field.
    pub name: String,
    /// Its value, as text.
    pub value: String,
}

/// What a reader takes from a `MapField`: name, value.
pub type MapFieldView = (Seq<char>, Seq<char>);

impl DeepView for MapField {
    type V = MapFieldView;

    open spec fn deep_view(&self) -> MapFieldView {
        (self.name.deep_view(), self.value.deep_view())
    }
}

impl Layout for MapField {
    open spec fn fixed_size() -> nat { 48 }

    open spec fn fixed_part(&self) -> Seq<u8> {
        self.name.fixed_part() + self.value.fixed_part()
    }

    open spec fn references(&self) -> Seq<u8> {
        self.name.references() + self.value.references()
    }

    open spec fn parse_at(bytes: Seq<u8>, object: int, refs: int) -> Option<(MapFieldView, nat)> {
        if fits(bytes, object, 48) {
            match String::parse_at(bytes, object, refs) {
                Some((v0, u0)) => match String::parse_at(bytes, object + 24, refs + u0) {
                    Some((v1, u1)) => Some(((v0, v1), u0 + u1)),
                    None => None,
                },
                None => None,
            }
        } else {
            None
        }
    }

    proof fn lemma_fixed_size(&self) {
        self.name.lemma_fixed_size();
        self.value.lemma_fixed_size();
    }

    proof fn lemma_parse_bounds(bytes: Seq<u8>, object: int, refs: int) {
        String::lemma_parse_bounds(bytes, object, refs);
        if let Some((v0, u0)) = String::parse_at(bytes, object, refs) {
            String::lemma_parse_bounds(bytes, object + 24, refs + u0);
        }
    }

    proof fn lemma_placed(&self, bytes: Seq<u8>, object: int, refs: int) {
        self.name.lemma_fixed_size();
        self.value.lemma_fixed_size();
        lemma_split(bytes, object, self.name.fixed_part(), self.value.fixed_part());
        lemma_split(bytes, refs, self.name.references(), self.value.references());
        self.name.lemma_placed(bytes, object, refs);
        self.value.lemma_placed(bytes, object + 24, refs + self.name.references().len());
    }

    fn fixed_len() -> (n: usize) {
        48
    }

    fn write_fixed(&self, buffer: &mut Vec<u8>) {
        self.name.write_fixed(buffer);
        self.value.write_fixed(buffer);
        proof {
            assert(final(buffer)@ =~= old(buffer)@ + self.fixed_part());
        }
    }

    fn write_references(&self, buffer: &mut Vec<u8>) -> (size: usize) {
        let start = buffer.len();
        let _ = self.name.write_references(buffer);
        let _ = self.value.write_references(buffer);
        proof {
            assert(buffer@ =~= old(buffer)@ + self.references());
        }
        buffer.len() - start
    }

    fn read_at(bytes: &[u8], object: usize, refs: usize) -> (read: Option<(MapField, usize)>) {
        if object > bytes.len() || bytes.len() - object < 48 {
            return None;
        }
        let (x0, u0) = match String::read_at(bytes, object, refs) {
            Some(r) => r,
            None => return None,
        };
        proof {
            String::lemma_parse_bounds(bytes@, (object) as int, (refs) as int);
        }
        let (x1, u1) = match String::read_at(bytes, object + 24, refs + u0) {
            Some(r) => r,
            None => return None,
        };
        proof {
            String::lemma_parse_bounds(bytes@, (object + 24) as int, (refs + u0) as int);
        }
        Some((MapField { name: x0, value: x1 }, u0 + u1))
    }
}

impl MapField {
    /// Appends the value (its fixed part, then the data it refers to) and
    /// returns the number of bytes appended.
    pub fn write_at(&self, buffer: &mut Vec<u8>) -> (size: usize)
        ensures
            final(buffer)@ == old(buffer)@ + self.fixed_part() + self.references(),
            size == self.fixed_part().len() + self.references().len(),
    {
        write_inline(self, buffer)
    }

    /// Appends the data the value refers to and returns its size.
    pub fn write_references_at(&self, buffer: &mut Vec<u8>) -> (size: usize)
        ensures
            final(buffer)@ == old(buffer)@ + self.references(),
            size == self.references().len(),
    {
        self.write_references(buffer)
    }

    /// Reads a value written by `write_at` at `position`, and the number
    /// of bytes it takes.
    pub fn reconstruct_at_inline(bytes: &[u8], position: usize) -> (read: Option<(MapField, usize)>)
        ensures
            match read {
                Some((v, size)) => parse_inline::<MapField>(bytes@, position as int) == Some((v.deep_view(), size as nat)),
                None => parse_inline::<MapField>(bytes@, position as int) is None,
            },
    {
        read_inline(bytes, position)
    }

    /// Reads a value whose fixed part is at `object` and whose data starts
    /// at `references`, and the number of data bytes it uses.
    pub fn reconstruct_at(bytes: &[u8], object: usize, references: usize) -> (read: Option<(MapField, usize)>)
        ensures
            match read {
                Some((v, used)) => MapField::parse_at(bytes@, object as int, references as int) == Some((v.deep_view(), used as nat)),
                None => MapField::parse_at(bytes@, object as int, references as int) is None,
            },
    {
        Self::read_at(bytes, object, references)
    }
}

/// A named collection of fields, shown as a block of text.
pub struct MapObject {
    /// The name of the map.
    pub name: String,
    /// What the map describes.
    pub description: String,
    /// Its fields, in order.
    pub fields: Vec<MapField>,
}

/// What a reader takes from a `MapObject`: name, description, fields.
pub type MapObjectView = (Seq<char>, Seq<char>, Seq<MapFieldView>);

impl DeepView for MapObject {
    type V = MapObjectView;

    open spec fn deep_view(&self) -> MapObjectView {
        (self.name.deep_view(), self.description.deep_view(), self.fields.deep_view())
    }
}

impl Layout for MapObject {
    open spec fn fixed_size() -> nat { 72 }

    open spec fn fixed_part(&self) -> Seq<u8> {
        self.name.fixed_part() + self.description.fixed_part() + self.fields.fixed_part()
    }

    open spec fn references(&self) -> Seq<u8> {
        self.name.references() + self.description.references() + self.fields.references()
    }

    open spec fn parse_at(bytes: Seq<u8>, object: int, refs: int) -> Option<(MapObjectView, nat)> {
        if fits(bytes, object, 72) {
            match String::parse_at(bytes, object, refs) {
                Some((v0, u0)) => match String::parse_at(bytes, object + 24, refs + u0) {
                    Some((v1, u1)) => match Vec::<MapField>::parse_at(bytes, object + 48, refs + u0 + u1) {
                        Some((v2, u2)) => Some(((v0, v1, v2), u0 + u1 + u2)),
                        None => None,
                    },
                    None => None,
                },
                None => None,
            }
        } else {
            None
        }
    }

    proof fn lemma_fixed_size(&self) {
        self.name.lemma_fixed_size();
        self.description.lemma_fixed_size();
        self.fields.lemma_fixed_size();
    }

    proof fn lemma_parse_bounds(bytes: Seq<u8>, object: int, refs: int) {
        String::lemma_parse_bounds(bytes, object, refs);
        if let Some((v0, u0)) = String::parse_at(bytes, object, refs) {
            String::lemma_parse_bounds(bytes, object + 24, refs + u0);
            if let Some((v1, u1)) = String::parse_at(bytes, object + 24, refs + u0) {
                Vec::<MapField>::lemma_parse_bounds(bytes, object + 48, refs + u0 + u1);
            }
        }
    }

    proof fn lemma_placed(&self, bytes: Seq<u8>, object: int, refs: int) {
        self.name.lemma_fixed_size();
        self.description.lemma_fixed_size();
        self.fields.lemma_fixed_size();
        lemma_split(bytes, object, self.name.fixed_part() + self.description.fixed_part(), self.fields.fixed_part());
        lemma_split(bytes, refs, self.name.references() + self.description.references(), self.fields.references());
        lemma_split(bytes, object, self.name.fixed_part(), self.description.fixed_part());
        lemma_split(bytes, refs, self.name.references(), self.description.references());
        self.name.lemma_placed(bytes, object, refs);
        self.description.lemma_placed(bytes, object + 24, refs + self.name.references().len());
        self.fields.lemma_placed(bytes, object + 48, refs + self.name.references().len() + self.description.references().len());
    }

    fn fixed_len() -> (n: usize) {
        72
    }

    fn write_fixed(&self, buffer: &mut Vec<u8>) {
        self.name.write_fixed(buffer);
        self.description.write_fixed(buffer);
        self.fields.write_fixed(buffer);
        proof {
            assert(final(buffer)@ =~= old(buffer)@ + self.fixed_part());
        }
    }

    fn write_references(&self, buffer: &mut Vec<u8>) -> (size: usize) {
        let start = buffer.len();
        let _ = self.name.write_references(buffer);
        let _ = self.description.write_references(buffer);
        let _ = self.fields.write_references(buffer);
        proof {
            assert(buffer@ =~= old(buffer)@ + self.references());
        }
        buffer.len() - start
    }

    fn read_at(bytes: &[u8], object: usize, refs: usize) -> (read: Option<(MapObject, usize)>) {
        if object > bytes.len() || bytes.len() - object < 72 {
            return None;
        }
        let (x0, u0) = match String::read_at(bytes, object, refs) {
            Some(r) => r,
            None => return None,
        };
        proof {
            String::lemma_parse_bounds(bytes@, (object) as int, (refs) as int);
        }
        let (x1, u1) = match String::read_at(bytes, object + 24, refs + u0) {
            Some(r) => r,
            None => return None,
        };
        proof {
            String::lemma_parse_bounds(bytes@, (object + 24) as int, (refs + u0) as int);
        }
        let (x2, u2) = match Vec::<MapField>::read_at(bytes, object + 48, refs + u0 + u1) {
            Some(r) => r,
            None => return None,
        };
        proof {
            Vec::<MapField>::lemma_parse_bounds(bytes@, (object + 48) as int, (refs + u0 + u1) as int);
        }
        Some((MapObject { name: x0, description: x1, fields: x2 }, u0 + u1 + u2))
    }
}

impl MapObject {
    /// Appends the value (its fixed part, then the data it refers to) and
    /// returns the number of bytes appended.
    pub fn write_at(&self, buffer: &mut Vec<u8>) -> (size: usize)
        ensures
            final(buffer)@ == old(buffer)@ + self.fixed_part() + self.references(),
            size == self.fixed_part().len() + self.references().len(),
    {
        write_inline(self, buffer)
    }

    /// Appends the data the value refers to and returns its size.
    pub fn write_references_at(&self, buffer: &mut Vec<u8>) -> (size: usize)
        ensures
            final(buffer)@ == old(buffer)@ + self.references(),
            size == self.references().len(),
    {
        self.write_references(buffer)
    }

    /// Reads a value written by `write_at` at `position`, and the number
    /// of bytes it takes.
    pub fn reconstruct_at_inline(bytes: &[u8], position: usize) -> (read: Option<(MapObject, usize)>)
        ensures
            match read {
                Some((v, size)) => parse_inline::<MapObject>(bytes@, position as int) == Some((v.deep_view(), size as nat)),
                None => parse_inline::<MapObject>(bytes@, position as int) is None,
            },
    {
        read_inline(bytes, position)
    }

    /// Reads a value whose fixed part is at `object` and whose data starts
    /// at `references`, and the number of data bytes it uses.
    pub fn reconstruct_at(bytes: &[u8], object: usize, references: usize) -> (read: Option<(MapObject, usize)>)
        ensures
            match read {
                Some((v, used)) => MapObject::parse_at(bytes@, object as int, references as int) == Some((v.deep_view(), used as nat)),
                None => MapObject::parse_at(bytes@, object as int, references as int) is None,
            },
    {
        Self::read_at(bytes, object, references)
    }
}

/// A named table: its column headings and one map per row.
pub struct Table {
    /// The name of the table.
    pub name: String,
    /// What the table describes.
    pub description: String,
    /// The column headings.
    pub columns: Vec<String>,
    /// The rows.
    pub rows: Vec<MapObject>,
}

/// What a reader takes from a `Table`: name, description, columns, rows.
pub type TableView = (Seq<char>, Seq<char>, Seq<Seq<char>>, Seq<MapObjectView>);

impl DeepView for Table {
    type V = TableView;

    open spec fn deep_view(&self) -> TableView {
        (self.name.deep_view(), self.description.deep_view(), self.columns.deep_view(), self.rows.deep_view())
    }
}

impl Layout for Table {
    open spec fn fixed_size() -> nat { 96 }

    open spec fn fixed_part(&self) -> Seq<u8> {
        self.name.fixed_part() + self.description.fixed_part() + self.columns.fixed_part() + self.rows.fixed_part()
    }

    open spec fn references(&self) -> Seq<u8> {
        self.name.references() + self.description.references() + self.columns.references() + self.rows.references()
    }

    open spec fn parse_at(bytes: Seq<u8>, object: int, refs: int) -> Option<(TableView, nat)> {
        if fits(bytes, object, 96) {
            match String::parse_at(bytes, object, refs) {
                Some((v0, u0)) => match String::parse_at(bytes, object + 24, refs + u0) {
                    Some((v1, u1)) => match Vec::<String>::parse_at(bytes, object + 48, refs + u0 + u1) {
                        Some((v2, u2)) => match Vec::<MapObject>::parse_at(bytes, object + 72, refs + u0 + u1 + u2) {
                            Some((v3, u3)) => Some(((v0, v1, v2, v3), u0 + u1 + u2 + u3)),
                            None => None,
                        },
                        None => None,
                    },
                    None => None,
                },
                None => None,
            }
        } else {
            None
        }
    }

    proof fn lemma_fixed_size(&self) {
        self.name.lemma_fixed_size();
        self.description.lemma_fixed_size();
        self.columns.lemma_fixed_size();
        self.rows.lemma_fixed_size();
    }

    proof fn lemma_parse_bounds(bytes: Seq<u8>, object: int, refs: int) {
        String::lemma_parse_bounds(bytes, object, refs);
        if let Some((v0, u0)) = String::parse_at(bytes, object, refs) {
            String::lemma_parse_bounds(bytes, object + 24, refs + u0);
            if let Some((v1, u1)) = String::parse_at(bytes, object + 24, refs + u0) {
                Vec::<String>::lemma_parse_bounds(bytes, object + 48, refs + u0 + u1);
                if let Some((v2, u2)) = Vec::<String>::parse_at(bytes, object + 48, refs + u0 + u1) {
                    Vec::<MapObject>::lemma_parse_bounds(bytes, object + 72, refs + u0 + u1 + u2);
                }
            }
        }
    }

    proof fn lemma_placed(&self, bytes: Seq<u8>, object: int, refs: int) {
        self.name.lemma_fixed_size();
        self.description.lemma_fixed_size();
        self.columns.lemma_fixed_size();
        self.rows.lemma_fixed_size();
        lemma_split(bytes, object, self.name.fixed_part() + self.description.fixed_part() + self.columns.fixed_part(), self.rows.fixed_part());
        lemma_split(bytes, refs, self.name.references() + self.description.references() + self.columns.references(), self.rows.references());
        lemma_split(bytes, object, self.name.fixed_part() + self.description.fixed_part(), self.columns.fixed_part());
        lemma_split(bytes, refs, self.name.references() + self.description.references(), self.columns.references());
        lemma_split(bytes, object, self.name.fixed_part(), self.description.fixed_part());
        lemma_split(bytes, refs, self.name.references(), self.description.references());
        self.name.lemma_placed(bytes, object, refs);
        self.description.lemma_placed(bytes, object + 24, refs + self.name.references().len());
        self.columns.lemma_placed(bytes, object + 48, refs + self.name.references().len() + self.description.references().len());
        self.rows.lemma_placed(bytes, object + 72, refs + self.name.references().len() + self.description.references().len() + self.columns.references().len());
    }

    fn fixed_len() -> (n: usize) {
        96
    }

    fn write_fixed(&self, buffer: &mut Vec<u8>) {
        self.name.write_fixed(buffer);
        self.description.write_fixed(buffer);
        self.columns.write_fixed(buffer);
        self.rows.write_fixed(buffer);
        proof {
            assert(final(buffer)@ =~= old(buffer)@ + self.fixed_part());
        }
    }

    fn write_references(&self, buffer: &mut Vec<u8>) -> (size: usize) {
        let start = buffer.len();
        let _ = self.name.write_references(buffer);
        let _ = self.description.write_references(buffer);
        let _ = self.columns.write_references(buffer);
        let _ = self.rows.write_references(buffer);
        proof {
            assert(buffer@ =~= old(buffer)@ + self.references());
        }
        buffer.len() - start
    }

    fn read_at(bytes: &[u8], object: usize, refs: usize) -> (read: Option<(Table, usize)>) {
        if object > bytes.len() || bytes.len() - object < 96 {
            return None;
        }
        let (x0, u0) = match String::read_at(bytes, object, refs) {
            Some(r) => r,
            None => return None,
        };
        proof {
            String::lemma_parse_bounds(bytes@, (object) as int, (refs) as int);
        }
        let (x1, u1) = match String::read_at(bytes, object + 24, refs + u0) {
            Some(r) => r,
            None => return None,
        };
        proof {
            String::lemma_parse_bounds(bytes@, (object + 24) as int, (refs + u0) as int);
        }
        let (x2, u2) = match Vec::<String>::read_at(bytes, object + 48, refs + u0 + u1) {
            Some(r) => r,
            None => return None,
        };
        proof {
            Vec::<String>::lemma_parse_bounds(bytes@, (object + 48) as int, (refs + u0 + u1) as int);
        }
        let (x3, u3) = match Vec::<MapObject>::read_at(bytes, object + 72, refs + u0 + u1 + u2) {
            Some(r) => r,
            None => return None,
        };
        proof {
            Vec::<MapObject>::lemma_parse_bounds(bytes@, (object + 72) as int, (refs + u0 + u1 + u2) as int);
        }
        Some((Table { name: x0, description: x1, columns: x2, rows: x3 }, u0 + u1 + u2 + u3))
    }
}

impl Table {
    /// Appends the value (its fixed part, then the data it refers to) and
    /// returns the number of bytes appended.
    pub fn write_at(&self, buffer: &mut Vec<u8>) -> (size: usize)
        ensures
            final(buffer)@ == old(buffer)@ + self.fixed_part() + self.references(),
            size == self.fixed_part().len() + self.references().len(),
    {
        write_inline(self, buffer)
    }

    /// Appends the data the value refers to and returns its size.
    pub fn write_references_at(&self, buffer: &mut Vec<u8>) -> (size: usize)
        ensures
            final(buffer)@ == old(buffer)@ + self.references(),
            size == self.references().len(),
    {
        self.write_references(buffer)
    }

    /// Reads a value written by `write_at` at `position`, and the number
    /// of bytes it takes.
    pub fn reconstruct_at_inline(bytes: &[u8], position: usize) -> (read: Option<(Table, usize)>)
        ensures
            match read {
                Some((v, size)) => parse_inline::<Table>(bytes@, position as int) == Some((v.deep_view(), size as nat)),
                None => parse_inline::<Table>(bytes@, position as int) is None,
            },
    {
        read_inline(bytes, position)
    }

    /// Reads a value whose fixed part is at `object` and whose data starts
    /// at `references`, and the number of data bytes it uses.
    pub fn reconstruct_at(bytes: &[u8], object: usize, references: usize) -> (read: Option<(Table, usize)>)
        ensures
            match read {
                Some((v, used)) => Table::parse_at(bytes@, object as int, references as int) == Some((v.deep_view(), used as nat)),
                None => Table::parse_at(bytes@, object as int, references as int) is None,
            },
    {
        Self::read_at(bytes, object, references)
    }
}

/// An object to show: a table or a map.
pub enum WriteObjectsParametersObjectsEnum {
    TypeTable(Table),
    TypeMap(MapObject),
}

/// What a reader takes from a `WriteObjectsParametersObjectsEnum`.
pub enum ObjectView {
    TypeTable(TableView),
    TypeMap(MapObjectView),
}

impl DeepView for WriteObjectsParametersObjectsEnum {
    type V = ObjectView;

    open spec fn deep_view(&self) -> ObjectView {
        match self {
            WriteObjectsParametersObjectsEnum::TypeTable(t) => ObjectView::TypeTable(t.deep_view()),
            WriteObjectsParametersObjectsEnum::TypeMap(m) => ObjectView::TypeMap(m.deep_view()),
        }
    }
}

/// The fixed part is the variant's tag as a 64-bit value (0 for a table, 1
/// for a map) followed by the fixed part of its object, padded with zeros
/// to the size of the larger one; the references are the object's.
impl Layout for WriteObjectsParametersObjectsEnum {
    open spec fn fixed_size() -> nat { 104 }

    open spec fn fixed_part(&self) -> Seq<u8> {
        match self {
            WriteObjectsParametersObjectsEnum::TypeTable(t) => le_u64(0) + t.fixed_part(),
            WriteObjectsParametersObjectsEnum::TypeMap(m) => le_u64(1) + m.fixed_part() + zeros(24),
        }
    }

    open spec fn references(&self) -> Seq<u8> {
        match self {
            WriteObjectsParametersObjectsEnum::TypeTable(t) => t.references(),
            WriteObjectsParametersObjectsEnum::TypeMap(m) => m.references(),
        }
    }

    open spec fn parse_at(bytes: Seq<u8>, object: int, refs: int) -> Option<(ObjectView, nat)> {
        if fits(bytes, object, 104) {
            let tag = u64_at(bytes, object);
            if tag == 0 {
                match Table::parse_at(bytes, object + 8, refs) {
                    Some((t, used)) => Some((ObjectView::TypeTable(t), used)),
                    None => None,
                }
            } else if tag == 1 {
                match MapObject::parse_at(bytes, object + 8, refs) {
                    Some((m, used)) => Some((ObjectView::TypeMap(m), used)),
                    None => None,
                }
            } else {
                None
            }
        } else {
            None
        }
    }

    proof fn lemma_fixed_size(&self) {
        lemma_u64_roundtrip(0);
        lemma_u64_roundtrip(1);
        match self {
            WriteObjectsParametersObjectsEnum::TypeTable(t) => t.lemma_fixed_size(),
            WriteObjectsParametersObjectsEnum::TypeMap(m) => m.lemma_fixed_size(),
        }
    }

    proof fn lemma_parse_bounds(bytes: Seq<u8>, object: int, refs: int) {
        Table::lemma_parse_bounds(bytes, object + 8, refs);
        MapObject::lemma_parse_bounds(bytes, object + 8, refs);
    }

    proof fn lemma_placed(&self, bytes: Seq<u8>, object: int, refs: int) {
        match self {
            WriteObjectsParametersObjectsEnum::TypeTable(t) => {
                lemma_u64_roundtrip(0);
                t.lemma_fixed_size();
                lemma_split(bytes, object, le_u64(0), t.fixed_part());
                t.lemma_placed(bytes, object + 8, refs);
            },
            WriteObjectsParametersObjectsEnum::TypeMap(m) => {
                lemma_u64_roundtrip(1);
                m.lemma_fixed_size();
                lemma_split(bytes, object, le_u64(1) + m.fixed_part(), zeros(24));
                lemma_split(bytes, object, le_u64(1), m.fixed_part());
                m.lemma_placed(bytes, object + 8, refs);
            },
        }
    }

    fn fixed_len() -> (n: usize) {
        104
    }

    fn write_fixed(&self, buffer: &mut Vec<u8>) {
        match self {
            WriteObjectsParametersObjectsEnum::TypeTable(t) => {
                push_u64(buffer, 0);
                t.write_fixed(buffer);
            },
            WriteObjectsParametersObjectsEnum::TypeMap(m) => {
                push_u64(buffer, 1);
                m.write_fixed(buffer);
                push_zeros(buffer, 24);
            },
        }
        proof {
            assert(final(buffer)@ =~= old(buffer)@ + self.fixed_part());
        }
    }

    fn write_references(&self, buffer: &mut Vec<u8>) -> (size: usize) {
        match self {
            WriteObjectsParametersObjectsEnum::TypeTable(t) => t.write_references(buffer),
            WriteObjectsParametersObjectsEnum::TypeMap(m) => m.write_references(buffer),
        }
    }

    fn read_at(bytes: &[u8], object: usize, refs: usize) -> (read: Option<(WriteObjectsParametersObjectsEnum, usize)>) {
        if object > bytes.len() || bytes.len() - object < 104 {
            return None;
        }
        let tag = match read_u64(bytes, object) {
            Some(t) => t,
            None => return None,
        };
        if tag == 0 {
            match Table::read_at(bytes, object + 8, refs) {
                Some((t, used)) => Some((WriteObjectsParametersObjectsEnum::TypeTable(t), used)),
                None => None,
            }
        } else if tag == 1 {
            match MapObject::read_at(bytes, object + 8, refs) {
                Some((m, used)) => Some((WriteObjectsParametersObjectsEnum::TypeMap(m), used)),
                None => None,
            }
        } else {
            None
        }
    }
}

impl WriteObjectsParametersObjectsEnum {
    /// Appends the value (its fixed part, then the data it refers to) and
    /// returns the number of bytes appended.
    pub fn write_at(&self, buffer: &mut Vec<u8>) -> (size: usize)
        ensures
            final(buffer)@ == old(buffer)@ + self.fixed_part() + self.references(),
            size == self.fixed_part().len() + self.references().len(),
    {
        write_inline(self, buffer)
    }

    /// Appends the data the object refers to and returns its size.
    pub fn write_references_at(&self, buffer: &mut Vec<u8>) -> (size: usize)
        ensures
            final(buffer)@ == old(buffer)@ + self.references(),
            size == self.references().len(),
    {
        self.write_references(buffer)
    }

    /// Reads a value whose fixed part is at `object` and whose data starts
    /// at `references`, and the number of data bytes it uses.
    pub fn reconstruct_at(bytes: &[u8], object: usize, references: usize) -> (read: Option<(WriteObjectsParametersObjectsEnum, usize)>)
        ensures
            match read {
                Some((v, used)) => WriteObjectsParametersObjectsEnum::parse_at(bytes@, object as int, references as int) == Some((v.deep_view(), used as nat)),
                None => WriteObjectsParametersObjectsEnum::parse_at(bytes@, object as int, references as int) is None,
            },
    {
        Self::read_at(bytes, object, references)
    }
}

/// Request to show a list of objects.
pub struct WriteObjectsParameters {
    /// The objects, in order.
    pub objects: Vec<WriteObjectsParametersObjectsEnum>,
}

impl DeepView for WriteObjectsParameters {
    type V = Seq<ObjectView>;

    open spec fn deep_view(&self) -> Seq<ObjectView> {
        self.objects.deep_view()
    }
}

impl Layout for WriteObjectsParameters {
    open spec fn fixed_size() -> nat { 24 }

    open spec fn fixed_part(&self) -> Seq<u8> {
        self.objects.fixed_part()
    }

    open spec fn references(&self) -> Seq<u8> {
        self.objects.references()
    }

    open spec fn parse_at(bytes: Seq<u8>, object: int, refs: int) -> Option<(Seq<ObjectView>, nat)> {
        if fits(bytes, object, 24) {
            match Vec::<WriteObjectsParametersObjectsEnum>::parse_at(bytes, object, refs) {
                Some((v0, u0)) => Some((v0, u0)),
                None => None,
            }
        } else {
            None
        }
    }

    proof fn lemma_fixed_size(&self) {
        self.objects.lemma_fixed_size();
    }

    proof fn lemma_parse_bounds(bytes: Seq<u8>, object: int, refs: int) {
        Vec::<WriteObjectsParametersObjectsEnum>::lemma_parse_bounds(bytes, object, refs);
    }

    proof fn lemma_placed(&self, bytes: Seq<u8>, object: int, refs: int) {
        self.objects.lemma_fixed_size();
        self.objects.lemma_placed(bytes, object, refs);
    }

    fn fixed_len() -> (n: usize) {
        24
    }

    fn write_fixed(&self, buffer: &mut Vec<u8>) {
        self.objects.write_fixed(buffer);
        proof {
            assert(final(buffer)@ =~= old(buffer)@ + self.fixed_part());
        }
    }

    fn write_references(&self, buffer: &mut Vec<u8>) -> (size: usize) {
        let start = buffer.len();
        let _ = self.objects.write_references(buffer);
        proof {
            assert(buffer@ =~= old(buffer)@ + self.references());
        }
        buffer.len() - start
    }

    fn read_at(bytes: &[u8], object: usize, refs: usize) -> (read: Option<(WriteObjectsParameters, usize)>) {
        if object > bytes.len() || bytes.len() - object < 24 {
            return None;
        }
        let (x0, u0) = match Vec::<WriteObjectsParametersObjectsEnum>::read_at(bytes, object, refs) {
            Some(r) => r,
            None => return None,
        };
        proof {
            Vec::<WriteObjectsParametersObjectsEnum>::lemma_parse_bounds(bytes@, (object) as int, (refs) as int);
        }
        Some((WriteObjectsParameters { objects: x0 }, u0))
    }
}

impl WriteObjectsParameters {
    /// Appends the value (its fixed part, then the data it refers to) and
    /// returns the number of bytes appended.
    pub fn write_at(&self, buffer: &mut Vec<u8>) -> (size: usize)
        ensures
            final(buffer)@ == old(buffer)@ + self.fixed_part() + self.references(),
            size == self.fixed_part().len() + self.references().len(),
    {
        write_inline(self, buffer)
    }

    /// Appends the data the value refers to and returns its size.
    pub fn write_references_at(&self, buffer: &mut Vec<u8>) -> (size: usize)
        ensures
            final(buffer)@ == old(buffer)@ + self.references(),
            size == self.references().len(),
    {
        self.write_references(buffer)
    }

    /// Reads a value written by `write_at` at `position`, and the number
    /// of bytes it takes.
    pub fn reconstruct_at_inline(bytes: &[u8], position: usize) -> (read: Option<(WriteObjectsParameters, usize)>)
        ensures
            match read {
                Some((v, size)) => parse_inline::<WriteObjectsParameters>(bytes@, position as int) == Some((v.deep_view(), size as nat)),
                None => parse_inline::<WriteObjectsParameters>(bytes@, position as int) is None,
            },
    {
        read_inline(bytes, position)
    }

    /// Reads a value whose fixed part is at `object` and whose data starts
    /// at `references`, and the number of data bytes it uses.
    pub fn reconstruct_at(bytes: &[u8], object: usize, references: usize) -> (read: Option<(WriteObjectsParameters, usize)>)
        ensures
            match read {
                Some((v, used)) => WriteObjectsParameters::parse_at(bytes@, object as int, references as int) == Some((v.deep_view(), used as nat)),
                None => WriteObjectsParameters::parse_at(bytes@, object as int, references as int) is None,
            },
    {
        Self::read_at(bytes, object, references)
    }
}

} // verus!
