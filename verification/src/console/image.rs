//! Images in the console protocol.

use vstd::prelude::*;
use crate::layout::{lemma_split, parse_inline, read_inline, write_inline, Layout};
use crate::wire::fits;
use crate::console::types::{Color, Point, Size};

verus! {

/// An image: its size in pixels and its pixels, row by row.
pub struct Image {
    /// Width and height in pixels.
    pub size: Size,
    /// The pixels, row by row from the top left.
    pub pixels: Vec<Color>,
}

/// What a reader takes from a `Image`: size, pixels.
pub type ImageView = (Size, Seq<Color>);

impl DeepView for Image {
    type V = ImageView;

    open spec fn deep_view(&self) -> ImageView {
        (self.size.deep_view(), self.pixels.deep_view())
    }
}

impl Layout for Image {
    open spec fn fixed_size() -> nat { 40 }

    open spec fn fixed_part(&self) -> Seq<u8> {
        self.size.fixed_part() + self.pixels.fixed_part()
    }

    open spec fn references(&self) -> Seq<u8> {
        self.size.references() + self.pixels.references()
    }

    open spec fn parse_at(bytes: Seq<u8>, object: int, refs: int) -> Option<(ImageView, nat)> {
        if fits(bytes, object, 40) {
            match Size::parse_at(bytes, object, refs) {
                Some((v0, u0)) => match Vec::<Color>::parse_at(bytes, object + 16, refs + u0) {
                    Some((v1, u1)) => Some(((v0, v1), u0 + u1)),
                    None => None,
                },
                None => None,
            }
        } else {
            None
        }
    }

    proof fn lemma_fixed_size(&self) {
        self.size.lemma_fixed_size();
        self.pixels.lemma_fixed_size();
    }

    proof fn lemma_parse_bounds(bytes: Seq<u8>, object: int, refs: int) {
        Size::lemma_parse_bounds(bytes, object, refs);
        if let Some((v0, u0)) = Size::parse_at(bytes, object, refs) {
            Vec::<Color>::lemma_parse_bounds(bytes, object + 16, refs + u0);
        }
    }

    proof fn lemma_placed(&self, bytes: Seq<u8>, object: int, refs: int) {
        self.size.lemma_fixed_size();
        self.pixels.lemma_fixed_size();
        lemma_split(bytes, object, self.size.fixed_part(), self.pixels.fixed_part());
        lemma_split(bytes, refs, self.size.references(), self.pixels.references());
        self.size.lemma_placed(bytes, object, refs);
        self.pixels.lemma_placed(bytes, object + 16, refs + self.size.references().len());
    }

    fn fixed_len() -> (n: usize) {
        40
    }

    fn write_fixed(&self, buffer: &mut Vec<u8>) {
        self.size.write_fixed(buffer);
        self.pixels.write_fixed(buffer);
        proof {
            assert(final(buffer)@ =~= old(buffer)@ + self.fixed_part());
        }
    }

    fn write_references(&self, buffer: &mut Vec<u8>) -> (size: usize) {
        let start = buffer.len();
        let _ = self.size.write_references(buffer);
        let _ = self.pixels.write_references(buffer);
        proof {
            assert(buffer@ =~= old(buffer)@ + self.references());
        }
        buffer.len() - start
    }

    fn read_at(bytes: &[u8], object: usize, refs: usize) -> (read: Option<(Image, usize)>) {
        if object > bytes.len() || bytes.len() - object < 40 {
            return None;
        }
        let (x0, u0) = match Size::read_at(bytes, object, refs) {
            Some(r) => r,
            None => return None,
        };
        proof {
            Size::lemma_parse_bounds(bytes@, (object) as int, (refs) as int);
        }
        let (x1, u1) = match Vec::<Color>::read_at(bytes, object + 16, refs + u0) {
            Some(r) => r,
            None => return None,
        };
        proof {
            Vec::<Color>::lemma_parse_bounds(bytes@, (object + 16) as int, (refs + u0) as int);
        }
        Some((Image { size: x0, pixels: x1 }, u0 + u1))
    }
}

impl Image {
    /// Appends the value (its fixed part, then the data it refers to) and
    /// returns the number of bytes appended.
    pub fn write_at(&self, buffer: &mut Vec<u8>) -> (size: usize)
        ensures
            final(buffer)@ == old(buffer)@ + self.fixed_part() + self.references(),
            size == self.fixed_part().len() + self.references().len(),
    {
        write_inline(self, buffer)
    }

    /// Appends the data the value refers to and returns its size.
    pub fn write_references_at(&self, buffer: &mut Vec<u8>) -> (size: usize)
        ensures
            final(buffer)@ == old(buffer)@ + self.references(),
            size == self.references().len(),
    {
        self.write_references(buffer)
    }

    /// Reads a value written by `write_at` at `position`, and the number
    /// of bytes it takes.
    pub fn reconstruct_at_inline(bytes: &[u8], position: usize) -> (read: Option<(Image, usize)>)
        ensures
            match read {
                Some((v, size)) => parse_inline::<Image>(bytes@, position as int) == Some((v.deep_view(), size as nat)),
                None => parse_inline::<Image>(bytes@, position as int) is None,
            },
    {
        read_inline(bytes, position)
    }

    /// Reads a value whose fixed part is at `object` and whose data starts
    /// at `references`, and the number of data bytes it uses.
    pub fn reconstruct_at(bytes: &[u8], object: usize, references: usize) -> (read: Option<(Image, usize)>)
        ensures
            match read {
                Some((v, used)) => Image::parse_at(bytes@, object as int, references as int) == Some((v.deep_view(), used as nat)),
                None => Image::parse_at(bytes@, object as int, references as int) is None,
            },
    {
        Self::read_at(bytes, object, references)
    }
}

/// An image and where on the console it goes.
pub struct ImagePatch {
    /// The image.
    pub image: Image,
    /// Where its top left pixel goes.
    pub position: Point,
}

/// What a reader takes from a `ImagePatch`: image, position.
pub type ImagePatchView = (ImageView, Point);

impl DeepView for ImagePatch {
    type V = ImagePatchView;

    open spec fn deep_view(&self) -> ImagePatchView {
        (self.image.deep_view(), self.position.deep_view())
    }
}

impl Layout for ImagePatch {
    open spec fn fixed_size() -> nat { 56 }

    open spec fn fixed_part(&self) -> Seq<u8> {
        self.image.fixed_part() + self.position.fixed_part()
    }

    open spec fn references(&self) -> Seq<u8> {
        self.image.references() + self.position.references()
    }

    open spec fn parse_at(bytes: Seq<u8>, object: int, refs: int) -> Option<(ImagePatchView, nat)> {
        if fits(bytes, object, 56) {
            match Image::parse_at(bytes, object, refs) {
                Some((v0, u0)) => match Point::parse_at(bytes, object + 40, refs + u0) {
                    Some((v1, u1)) => Some(((v0, v1), u0 + u1)),
                    None => None,
                },
                None => None,
            }
        } else {
            None
        }
    }

    proof fn lemma_fixed_size(&self) {
        self.image.lemma_fixed_size();
        self.position.lemma_fixed_size();
    }

    proof fn lemma_parse_bounds(bytes: Seq<u8>, object: int, refs: int) {
        Image::lemma_parse_bounds(bytes, object, refs);
        if let Some((v0, u0)) = Image::parse_at(bytes, object, refs) {
            Point::lemma_parse_bounds(bytes, object + 40, refs + u0);
        }
    }

    proof fn lemma_placed(&self, bytes: Seq<u8>, object: int, refs: int) {
        self.image.lemma_fixed_size();
        self.position.lemma_fixed_size();
        lemma_split(bytes, object, self.image.fixed_part(), self.position.fixed_part());
        lemma_split(bytes, refs, self.image.references(), self.position.references());
        self.image.lemma_placed(bytes, object, refs);
        self.position.lemma_placed(bytes, object + 40, refs + self.image.references().len());
    }

    fn fixed_len() -> (n: usize) {
        56
    }

    fn write_fixed(&self, buffer: &mut Vec<u8>) {
        self.image.write_fixed(buffer);
        self.position.write_fixed(buffer);
        proof {
            assert(final(buffer)@ =~= old(buffer)@ + self.fixed_part());
        }
    }

    fn write_references(&self, buffer: &mut Vec<u8>) -> (size: usize) {
        let start = buffer.len();
        let _ = self.image.write_references(buffer);
        let _ = self.position.write_references(buffer);
        proof {
            assert(buffer@ =~= old(buffer)@ + self.references());
        }
        buffer.len() - start
    }

    fn read_at(bytes: &[u8], object: usize, refs: usize) -> (read: Option<(ImagePatch, usize)>) {
        if object > bytes.len() || bytes.len() - object < 56 {
            return None;
        }
        let (x0, u0) = match Image::read_at(bytes, object, refs) {
            Some(r) => r,
            None => return None,
        };
        proof {
            Image::lemma_parse_bounds(bytes@, (object) as int, (refs) as int);
        }
        let (x1, u1) = match Point::read_at(bytes, object + 40, refs + u0) {
            Some(r) => r,
            None => return None,
        };
        proof {
            Point::lemma_parse_bounds(bytes@, (object + 40) as int, (refs + u0) as int);
        }
        Some((ImagePatch { image: x0, position: x1 }, u0 + u1))
    }
}

impl ImagePatch {
    /// Appends the value (its fixed part, then the data it refers to) and
    /// returns the number of bytes appended.
    pub fn write_at(&self, buffer: &mut Vec<u8>) -> (size: usize)
        ensures
            final(buffer)@ == old(buffer)@ + self.fixed_part() + self.references(),
            size == self.fixed_part().len() + self.references().len(),
    {
        write_inline(self, buffer)
    }

    /// Appends the data the value refers to and returns its size.
    pub fn write_references_at(&self, buffer: &mut Vec<u8>) -> (size: usize)
        ensures
            final(buffer)@ == old(buffer)@ + self.references(),
            size == self.references().len(),
    {
        self.write_references(buffer)
    }

    /// Reads a value written by `write_at` at `position`, and the number
    /// of bytes it takes.
    pub fn reconstruct_at_inline(bytes: &[u8], position: usize) -> (read: Option<(ImagePatch, usize)>)
        ensures
            match read {
                Some((v, size)) => parse_inline::<ImagePatch>(bytes@, position as int) == Some((v.deep_view(), size as nat)),
                None => parse_inline::<ImagePatch>(bytes@, position as int) is None,
            },
    {
        read_inline(bytes, position)
    }

    /// Reads a value whose fixed part is at `object` and whose data starts
    /// at `references`, and the number of data bytes it uses.
    pub fn reconstruct_at(bytes: &[u8], object: usize, references: usize) -> (read: Option<(ImagePatch, usize)>)
        ensures
            match read {
                Some((v, used)) => ImagePatch::parse_at(bytes@, object as int, references as int) == Some((v.deep_view(), used as nat)),
                None => ImagePatch::parse_at(bytes@, object as int, references as int) is None,
            },
    {
        Self::read_at(bytes, object, references)
    }
}

} // verus!
