//! Bitmap fonts: the glyphs of a font description, and where they are
//! drawn.
//!
//! A font description is a text of lines. A line begins with what it is
//! about and goes on with fields, each written as a name, `=` and a value:
//! the line `common` gives the height of a line of text, the line `page`
//! the file that holds the picture of the glyphs, and each line `char` one
//! glyph.

pub mod number;
pub mod text;

use number::{parse_i32, parse_u32, parse_u8, signed_number, unsigned_number};
use std::collections::HashMap;
use text::{begins_with, field, find_byte, first_index, lookup, split_words, starts_with, words};
use vstd::prelude::*;
use vstd::slice::{slice_subrange, slice_to_vec};

verus! {

broadcast use vstd::std_specs::hash::group_hash_axioms;

/// Where a glyph stands in the picture of the font, and how it is set on a
/// line of text.
#[derive(Clone, Copy, Debug, PartialEq, Eq, Structural)]
pub struct Glyph {
    pub x: i32,
    pub y: i32,
    pub width: u32,
    pub height: u32,
    pub x_offset: i32,
    pub y_offset: i32,
    pub x_advance: i32,
}

impl Glyph {
    /// Whether there is nothing to draw of the glyph.
    pub open spec fn spec_is_empty(&self) -> bool {
        self.width == 0 || self.height == 0
    }

    /// Whether there is nothing to draw of the glyph.
    #[verifier::when_used_as_spec(spec_is_empty)]
    pub fn is_empty(&self) -> (empty: bool)
        ensures
            empty == self.spec_is_empty(),
    {
        self.width == 0 || self.height == 0
    }
}

/// What can be wrong with a font description.
#[derive(Clone, Copy, Debug, PartialEq, Eq, Structural)]
pub enum FontError {
    /// A line lacks a field that it has to give.
    MissingField,
    /// The value of a field is no number, or none that the field can take.
    BadNumber,
    /// There is neither a glyph for the blank nor one for the digit one,
    /// from which the width of the blank is taken.
    NoSpaceWidth,
    /// No line gives the file of the picture.
    NoPage,
    /// No line gives the height of a line of text.
    NoLineHeight,
}

/// What has been read of a font description, as a mathematical value.
pub struct FontDataView {
    pub file_name: Option<Seq<u8>>,
    pub line_height: Option<i32>,
    pub glyphs: Map<u8, Glyph>,
}

/// What has been read of a font description.
pub struct BitmapFontData {
    file_name: Option<Vec<u8>>,
    line_height: Option<i32>,
    glyphs: HashMap<u8, Glyph>,
}

impl View for BitmapFontData {
    type V = FontDataView;

    closed spec fn view(&self) -> FontDataView {
        FontDataView {
            file_name: match self.file_name {
                Some(name) => Some(name@),
                None => None,
            },
            line_height: self.line_height,
            glyphs: self.glyphs@,
        }
    }
}

/// The names of the lines and of the fields, in bytes.
pub open spec fn tag_info() -> Seq<u8> {
    seq![105u8, 110, 102, 111]
}

pub open spec fn tag_common() -> Seq<u8> {
    seq![99u8, 111, 109, 109, 111, 110]
}

pub open spec fn tag_page() -> Seq<u8> {
    seq![112u8, 97, 103, 101]
}

pub open spec fn tag_chars() -> Seq<u8> {
    seq![99u8, 104, 97, 114, 115]
}

pub open spec fn tag_char() -> Seq<u8> {
    seq![99u8, 104, 97, 114]
}

pub open spec fn key_line_height() -> Seq<u8> {
    seq![108u8, 105, 110, 101, 72, 101, 105, 103, 104, 116]
}

pub open spec fn key_file() -> Seq<u8> {
    seq![102u8, 105, 108, 101]
}

pub open spec fn key_id() -> Seq<u8> {
    seq![105u8, 100]
}

pub open spec fn key_x() -> Seq<u8> {
    seq![120u8]
}

pub open spec fn key_y() -> Seq<u8> {
    seq![121u8]
}

pub open spec fn key_width() -> Seq<u8> {
    seq![119u8, 105, 100, 116, 104]
}

pub open spec fn key_height() -> Seq<u8> {
    seq![104u8, 101, 105, 103, 104, 116]
}

pub open spec fn key_x_offset() -> Seq<u8> {
    seq![120u8, 111, 102, 102, 115, 101, 116]
}

pub open spec fn key_y_offset() -> Seq<u8> {
    seq![121u8, 111, 102, 102, 115, 101, 116]
}

pub open spec fn key_x_advance() -> Seq<u8> {
    seq![120u8, 97, 100, 118, 97, 110, 99, 101]
}

/// The field `key` of a line as an `i32`.
pub open spec fn int_field(ws: Seq<Seq<u8>>, key: Seq<u8>) -> Result<i32, FontError> {
    match field(ws, key) {
        Some(value) => match signed_number(value, i32::MIN as int, i32::MAX as int) {
            Some(n) => Ok(n as i32),
            None => Err(FontError::BadNumber),
        },
        None => Err(FontError::MissingField),
    }
}

/// The field `key` of a line as a `u32`.
pub open spec fn uint_field(ws: Seq<Seq<u8>>, key: Seq<u8>) -> Result<u32, FontError> {
    match field(ws, key) {
        Some(value) => match unsigned_number(value, u32::MAX as int) {
            Some(n) => Ok(n as u32),
            None => Err(FontError::BadNumber),
        },
        None => Err(FontError::MissingField),
    }
}

/// The field `key` of a line as a `u8`.
pub open spec fn byte_field(ws: Seq<Seq<u8>>, key: Seq<u8>) -> Result<u8, FontError> {
    match field(ws, key) {
        Some(value) => match unsigned_number(value, u8::MAX as int) {
            Some(n) => Ok(n as u8),
            None => Err(FontError::BadNumber),
        },
        None => Err(FontError::MissingField),
    }
}

/// The glyph that a line `char` gives, and the character that it is for.
/// The fields are read in the order `id`, `x`, `y`, `width`, `height`,
/// `xoffset`, `yoffset`, `xadvance`; the first that is missing or wrong
/// decides the error.
pub open spec fn glyph_of(ws: Seq<Seq<u8>>) -> Result<(u8, Glyph), FontError> {
    match byte_field(ws, key_id()) {
        Err(e) => Err(e),
        Ok(id) => match int_field(ws, key_x()) {
            Err(e) => Err(e),
            Ok(x) => match int_field(ws, key_y()) {
                Err(e) => Err(e),
                Ok(y) => match uint_field(ws, key_width()) {
                    Err(e) => Err(e),
                    Ok(width) => match uint_field(ws, key_height()) {
                        Err(e) => Err(e),
                        Ok(height) => match int_field(ws, key_x_offset()) {
                            Err(e) => Err(e),
                            Ok(x_offset) => match int_field(ws, key_y_offset()) {
                                Err(e) => Err(e),
                                Ok(y_offset) => match int_field(ws, key_x_advance()) {
                                    Err(e) => Err(e),
                                    Ok(x_advance) => Ok(
                                        (
                                            id,
                                            Glyph {
                                                x,
                                                y,
                                                width,
                                                height,
                                                x_offset,
                                                y_offset,
                                                x_advance,
                                            },
                                        ),
                                    ),
                                },
                            },
                        },
                    },
                },
            },
        },
    }
}

impl FontDataView {
    /// What has been read once `line` has been read too.
    pub open spec fn with_line(self, line: Seq<u8>) -> Result<FontDataView, FontError> {
        if starts_with(line, tag_info()) {
            Ok(self)
        } else if starts_with(line, tag_common()) {
            match int_field(words(line), key_line_height()) {
                Ok(height) => Ok(FontDataView { line_height: Some(height), ..self }),
                Err(e) => Err(e),
            }
        } else if starts_with(line, tag_page()) {
            match field(words(line), key_file()) {
                Some(name) => Ok(FontDataView { file_name: Some(name), ..self }),
                None => Err(FontError::MissingField),
            }
        } else if starts_with(line, tag_chars()) {
            Ok(self)
        } else if starts_with(line, tag_char()) {
            match glyph_of(words(line)) {
                Ok((id, glyph)) => Ok(
                    FontDataView { glyphs: self.glyphs.insert(id, glyph), ..self },
                ),
                Err(e) => Err(e),
            }
        } else {
            Ok(self)
        }
    }

    /// What has been read once the lines of `text` have been read too,
    /// one after the other; a line ends before a line feed or with the
    /// text.
    pub open spec fn with_text(self, text: Seq<u8>) -> Result<FontDataView, FontError>
        decreases text.len(),
    {
        if text.len() == 0 {
            Ok(self)
        } else {
            let end = first_index(text, 10);
            match self.with_line(text.take(end)) {
                Err(e) => Err(e),
                Ok(next) => if 0 <= end < text.len() {
                    next.with_text(text.skip(end + 1))
                } else {
                    Ok(next)
                },
            }
        }
    }
}

impl BitmapFontData {
    /// Nothing read yet.
    pub fn new() -> (data: BitmapFontData)
        ensures
            data@ == (FontDataView {
                file_name: None,
                line_height: None,
                glyphs: Map::<u8, Glyph>::empty(),
            }),
    {
        BitmapFontData { file_name: None, line_height: None, glyphs: HashMap::new() }
    }

    pub fn set_file_name(&mut self, file_name: Vec<u8>)
        ensures
            final(self)@ == (FontDataView { file_name: Some(file_name@), ..old(self)@ }),
    {
        self.file_name = Some(file_name);
    }

    pub fn set_line_height(&mut self, line_height: i32)
        ensures
            final(self)@ == (FontDataView { line_height: Some(line_height), ..old(self)@ }),
    {
        self.line_height = Some(line_height);
    }

    /// Sets the glyph for the character `c`, in place of the one it had.
    pub fn add_glyph(&mut self, c: u8, glyph: Glyph)
        ensures
            final(self)@ == (FontDataView { glyphs: old(self)@.glyphs.insert(c, glyph), ..old(self)@ }),
    {
        self.glyphs.insert(c, glyph);
    }

    /// Reads one line of a font description.
    pub fn read_line(&mut self, line: &[u8]) -> (r: Result<(), FontError>)
        ensures
            match r {
                Ok(()) => old(self)@.with_line(line@) == Ok::<FontDataView, FontError>(
                    final(self)@,
                ),
                Err(e) => old(self)@.with_line(line@) == Err::<FontDataView, FontError>(e),
            },
    {
        let tag_info: [u8; 4] = [105, 110, 102, 111];
        let tag_common: [u8; 6] = [99, 111, 109, 109, 111, 110];
        let tag_page: [u8; 4] = [112, 97, 103, 101];
        let tag_chars: [u8; 5] = [99, 104, 97, 114, 115];
        let tag_char: [u8; 4] = [99, 104, 97, 114];
        assert(tag_info@ =~= self::tag_info());
        assert(tag_common@ =~= self::tag_common());
        assert(tag_page@ =~= self::tag_page());
        assert(tag_chars@ =~= self::tag_chars());
        assert(tag_char@ =~= self::tag_char());
        if begins_with(line, tag_info.as_slice()) {
            Ok(())
        } else if begins_with(line, tag_common.as_slice()) {
            let key: [u8; 10] = [108, 105, 110, 101, 72, 101, 105, 103, 104, 116];
            assert(key@ =~= key_line_height());
            let ranges = split_words(line);
            let height = read_int(line, &ranges, key.as_slice())?;
            self.set_line_height(height);
            Ok(())
        } else if begins_with(line, tag_page.as_slice()) {
            let key: [u8; 4] = [102, 105, 108, 101];
            assert(key@ =~= key_file());
            let ranges = split_words(line);
            match lookup(line, &ranges, key.as_slice()) {
                Some((from, to)) => {
                    self.set_file_name(slice_to_vec(slice_subrange(line, from, to)));
                    Ok(())
                },
                None => Err(FontError::MissingField),
            }
        } else if begins_with(line, tag_chars.as_slice()) {
            Ok(())
        } else if begins_with(line, tag_char.as_slice()) {
            let ranges = split_words(line);
            let (id, glyph) = read_glyph(line, &ranges)?;
            self.add_glyph(id, glyph);
            Ok(())
        } else {
            Ok(())
        }
    }

    /// Reads a font description.
    pub fn read(&mut self, text: &[u8]) -> (r: Result<(), FontError>)
        ensures
            match r {
                Ok(()) => old(self)@.with_text(text@) == Ok::<FontDataView, FontError>(
                    final(self)@,
                ),
                Err(e) => old(self)@.with_text(text@) == Err::<FontDataView, FontError>(e),
            },
    {
        let len = text.len();
        let mut from: usize = 0;
        assert(text@.skip(0) =~= text@);
        while from < len
            invariant
                from <= len,
                len == text@.len(),
                old(self)@.with_text(text@) == self@.with_text(text@.skip(from as int)),
            decreases len - from,
        {
            let end = find_byte(text, from, len, 10);
            let ghost rest = text@.skip(from as int);
            proof {
                assert(text@.subrange(from as int, len as int) =~= rest);
                assert(text@.subrange(from as int, end as int) =~= rest.take(end - from));
                if end < len {
                    assert(rest.skip(end - from + 1) =~= text@.skip(end as int + 1));
                }
            }
            match self.read_line(slice_subrange(text, from, end)) {
                Ok(()) => {},
                Err(e) => {
                    return Err(e);
                },
            }
            if end < len {
                from = end + 1;
            } else {
                return Ok(());
            }
        }
        Ok(())
    }
}

/// The field `key` of a line as an `i32`.
fn read_int(line: &[u8], ranges: &Vec<(usize, usize)>, key: &[u8]) -> (r: Result<i32, FontError>)
    requires
        ranges@.len() == words(line@).len(),
        forall|k: int|
            0 <= k < ranges@.len() ==> (#[trigger] ranges@[k]).0 < ranges@[k].1 <= line@.len()
                && line@.subrange(ranges@[k].0 as int, ranges@[k].1 as int) == words(line@)[k],
    ensures
        r == int_field(words(line@), key@),
{
    match lookup(line, ranges, key) {
        Some((from, to)) => match parse_i32(slice_subrange(line, from, to)) {
            Some(n) => Ok(n),
            None => Err(FontError::BadNumber),
        },
        None => Err(FontError::MissingField),
    }
}

/// The field `key` of a line as a `u32`.
fn read_uint(line: &[u8], ranges: &Vec<(usize, usize)>, key: &[u8]) -> (r: Result<u32, FontError>)
    requires
        ranges@.len() == words(line@).len(),
        forall|k: int|
            0 <= k < ranges@.len() ==> (#[trigger] ranges@[k]).0 < ranges@[k].1 <= line@.len()
                && line@.subrange(ranges@[k].0 as int, ranges@[k].1 as int) == words(line@)[k],
    ensures
        r == uint_field(words(line@), key@),
{
    match lookup(line, ranges, key) {
        Some((from, to)) => match parse_u32(slice_subrange(line, from, to)) {
            Some(n) => Ok(n),
            None => Err(FontError::BadNumber),
        },
        None => Err(FontError::MissingField),
    }
}

/// The field `key` of a line as a `u8`.
fn read_byte(line: &[u8], ranges: &Vec<(usize, usize)>, key: &[u8]) -> (r: Result<u8, FontError>)
    requires
        ranges@.len() == words(line@).len(),
        forall|k: int|
            0 <= k < ranges@.len() ==> (#[trigger] ranges@[k]).0 < ranges@[k].1 <= line@.len()
                && line@.subrange(ranges@[k].0 as int, ranges@[k].1 as int) == words(line@)[k],
    ensures
        r == byte_field(words(line@), key@),
{
    match lookup(line, ranges, key) {
        Some((from, to)) => match parse_u8(slice_subrange(line, from, to)) {
            Some(n) => Ok(n),
            None => Err(FontError::BadNumber),
        },
        None => Err(FontError::MissingField),
    }
}

/// The glyph that a line `char` gives, and the character that it is for.
fn read_glyph(line: &[u8], ranges: &Vec<(usize, usize)>) -> (r: Result<(u8, Glyph), FontError>)
    requires
        ranges@.len() == words(line@).len(),
        forall|k: int|
            0 <= k < ranges@.len() ==> (#[trigger] ranges@[k]).0 < ranges@[k].1 <= line@.len()
                && line@.subrange(ranges@[k].0 as int, ranges@[k].1 as int) == words(line@)[k],
    ensures
        r == glyph_of(words(line@)),
{
    let key_id: [u8; 2] = [105, 100];
    let key_x: [u8; 1] = [120];
    let key_y: [u8; 1] = [121];
    let key_width: [u8; 5] = [119, 105, 100, 116, 104];
    let key_height: [u8; 6] = [104, 101, 105, 103, 104, 116];
    let key_x_offset: [u8; 7] = [120, 111, 102, 102, 115, 101, 116];
    let key_y_offset: [u8; 7] = [121, 111, 102, 102, 115, 101, 116];
    let key_x_advance: [u8; 8] = [120, 97, 100, 118, 97, 110, 99, 101];
    assert(key_id@ =~= self::key_id());
    assert(key_x@ =~= self::key_x());
    assert(key_y@ =~= self::key_y());
    assert(key_width@ =~= self::key_width());
    assert(key_height@ =~= self::key_height());
    assert(key_x_offset@ =~= self::key_x_offset());
    assert(key_y_offset@ =~= self::key_y_offset());
    assert(key_x_advance@ =~= self::key_x_advance());
    let id = read_byte(line, ranges, key_id.as_slice())?;
    let x = read_int(line, ranges, key_x.as_slice())?;
    let y = read_int(line, ranges, key_y.as_slice())?;
    let width = read_uint(line, ranges, key_width.as_slice())?;
    let height = read_uint(line, ranges, key_height.as_slice())?;
    let x_offset = read_int(line, ranges, key_x_offset.as_slice())?;
    let y_offset = read_int(line, ranges, key_y_offset.as_slice())?;
    let x_advance = read_int(line, ranges, key_x_advance.as_slice())?;
    Ok((id, Glyph { x, y, width, height, x_offset, y_offset, x_advance }))
}

/// A font that is ready to draw with, as a mathematical value.
pub struct FontView {
    pub line_height: i32,
    pub file_name: Seq<u8>,
    pub glyphs: Map<u8, Glyph>,
}

/// The glyph of a blank as wide as the glyph `one`: nothing to draw.
pub open spec fn blank_like(one: Glyph) -> Glyph {
    Glyph { x: 0, y: 0, width: 0, height: 0, x_offset: 0, y_offset: 0, x_advance: one.x_advance }
}

impl FontDataView {
    /// The font that has been read. A font without a glyph for the blank
    /// gets one as wide as its digit one.
    pub open spec fn finished(self) -> Result<FontView, FontError> {
        if !self.glyphs.contains_key(32) && !self.glyphs.contains_key(49) {
            Err(FontError::NoSpaceWidth)
        } else if self.file_name is None {
            Err(FontError::NoPage)
        } else if self.line_height is None {
            Err(FontError::NoLineHeight)
        } else {
            Ok(
                FontView {
                    line_height: self.line_height->0,
                    file_name: self.file_name->0,
                    glyphs: if self.glyphs.contains_key(32) {
                        self.glyphs
                    } else {
                        self.glyphs.insert(32, blank_like(self.glyphs[49]))
                    },
                },
            )
        }
    }
}

/// The font that `text` describes.
pub open spec fn described(text: Seq<u8>) -> Result<FontView, FontError> {
    match (FontDataView {
        file_name: None,
        line_height: None,
        glyphs: Map::<u8, Glyph>::empty(),
    }).with_text(text) {
        Ok(data) => data.finished(),
        Err(e) => Err(e),
    }
}

/// One glyph to copy from the picture of a font to the screen: where it
/// stands in the picture, its size, and where it goes.
#[derive(Clone, Copy, Debug, PartialEq, Eq, Structural)]
pub struct GlyphBlit {
    pub src_x: i32,
    pub src_y: i32,
    pub width: u32,
    pub height: u32,
    pub dst_x: i32,
    pub dst_y: i32,
}

/// The glyph for a character: fonts hold glyphs for the first 256
/// characters only.
pub open spec fn glyph_for(glyphs: Map<u8, Glyph>, c: char) -> Option<Glyph> {
    if (c as u32) < 256 && glyphs.contains_key(c as u32 as u8) {
        Some(glyphs[c as u32 as u8])
    } else {
        None
    }
}

/// How far a character moves the pen to the right; a character without a
/// glyph does not move it.
pub open spec fn advance_of(glyphs: Map<u8, Glyph>, c: char) -> int {
    match glyph_for(glyphs, c) {
        Some(glyph) => glyph.x_advance as int,
        None => 0,
    }
}

/// Where the pen stands after `text`, set out from the column `x`.
pub open spec fn pen_after(glyphs: Map<u8, Glyph>, text: Seq<char>, x: int) -> int
    decreases text.len(),
{
    if text.len() == 0 {
        x
    } else {
        pen_after(glyphs, text.drop_last(), x) + advance_of(glyphs, text.last())
    }
}

/// The copy that draws the glyph at the pen.
pub open spec fn glyph_blit(glyph: Glyph, pen: int, y: int) -> GlyphBlit {
    GlyphBlit {
        src_x: glyph.x,
        src_y: glyph.y,
        width: glyph.width,
        height: glyph.height,
        dst_x: (pen + glyph.x_offset) as i32,
        dst_y: (y + glyph.y_offset) as i32,
    }
}

/// Whether `c` is drawn: it has a glyph, and there is something to draw of
/// it.
pub open spec fn is_drawn(glyphs: Map<u8, Glyph>, c: char) -> bool {
    glyph_for(glyphs, c) is Some && !glyph_for(glyphs, c)->0.spec_is_empty()
}

/// The copies that draw `text` on a line whose pen sets out from
/// `(x, y)`, one for each character that is drawn.
pub open spec fn drawn(glyphs: Map<u8, Glyph>, text: Seq<char>, x: int, y: int) -> Seq<GlyphBlit>
    decreases text.len(),
{
    if text.len() == 0 {
        Seq::empty()
    } else {
        let before = drawn(glyphs, text.drop_last(), x, y);
        if is_drawn(glyphs, text.last()) {
            before.push(
                glyph_blit(
                    glyph_for(glyphs, text.last())->0,
                    pen_after(glyphs, text.drop_last(), x),
                    y,
                ),
            )
        } else {
            before
        }
    }
}

pub open spec fn fits_i32(n: int) -> bool {
    i32::MIN <= n <= i32::MAX
}

/// Whether `text` can be drawn from `(x, y)`: the pen stays within what an
/// `i32` can hold, and so does the place of every glyph that is drawn.
pub open spec fn can_draw(glyphs: Map<u8, Glyph>, text: Seq<char>, x: int, y: int) -> bool
    decreases text.len(),
{
    if text.len() == 0 {
        true
    } else {
        &&& can_draw(glyphs, text.drop_last(), x, y)
        &&& fits_i32(pen_after(glyphs, text, x))
        &&& is_drawn(glyphs, text.last()) ==> {
            &&& fits_i32(
                pen_after(glyphs, text.drop_last(), x) + glyph_for(glyphs, text.last())->0.x_offset,
            )
            &&& fits_i32(y + glyph_for(glyphs, text.last())->0.y_offset)
        }
    }
}

/// A font to draw text with. The picture of its glyphs is in the file
/// that the description names.
pub struct BitmapFont {
    pub line_height: i32,
    file_name: Vec<u8>,
    glyphs: HashMap<u8, Glyph>,
}

impl View for BitmapFont {
    type V = FontView;

    closed spec fn view(&self) -> FontView {
        FontView { line_height: self.line_height, file_name: self.file_name@, glyphs: self.glyphs@ }
    }
}

impl BitmapFont {
    /// The font that `text` describes.
    pub fn load(text: &[u8]) -> (r: Result<BitmapFont, FontError>)
        ensures
            match r {
                Ok(font) => described(text@) == Ok::<FontView, FontError>(font@),
                Err(e) => described(text@) == Err::<FontView, FontError>(e),
            },
    {
        let mut data = BitmapFontData::new();
        data.read(text)?;
        let blank: u8 = 32;
        let one: u8 = 49;
        if !data.glyphs.contains_key(&blank) {
            let space_width = match data.glyphs.get(&one) {
                Some(glyph) => glyph.x_advance,
                None => {
                    return Err(FontError::NoSpaceWidth);
                },
            };
            data.add_glyph(
                blank,
                Glyph {
                    x: 0,
                    y: 0,
                    width: 0,
                    height: 0,
                    x_offset: 0,
                    y_offset: 0,
                    x_advance: space_width,
                },
            );
        }
        let file_name = match data.file_name {
            Some(name) => name,
            None => {
                return Err(FontError::NoPage);
            },
        };
        let line_height = match data.line_height {
            Some(height) => height,
            None => {
                return Err(FontError::NoLineHeight);
            },
        };
        Ok(BitmapFont { line_height, file_name, glyphs: data.glyphs })
    }

    /// The name of the file that holds the picture of the glyphs, as the
    /// description gives it.
    pub fn file_name(&self) -> (name: &Vec<u8>)
        ensures
            name@ == self@.file_name,
    {
        &self.file_name
    }

    /// The glyph for the character with the code `c`.
    pub fn glyph(&self, c: u8) -> (glyph: Option<Glyph>)
        ensures
            glyph == if self@.glyphs.contains_key(c) {
                Some(self@.glyphs[c])
            } else {
                None
            },
    {
        match self.glyphs.get(&c) {
            Some(glyph) => Some(*glyph),
            None => None,
        }
    }

    /// The copies that draw `s` on a line whose pen sets out from
    /// `(x, y)`, if the text can be drawn there.
    pub fn draw_str(&self, s: &str, x: i32, y: i32) -> (r: Option<Vec<GlyphBlit>>)
        ensures
            match r {
                Some(blits) => can_draw(self@.glyphs, s@, x as int, y as int) && blits@ == drawn(
                    self@.glyphs,
                    s@,
                    x as int,
                    y as int,
                ),
                None => !can_draw(self@.glyphs, s@, x as int, y as int),
            },
    {
        let ghost glyphs = self@.glyphs;
        let mut blits: Vec<GlyphBlit> = Vec::new();
        let mut x_pos: i32 = x;
        let chars = s.chars();
        assert(s@.take(0) =~= Seq::<char>::empty());
        for c in it: chars
            invariant
                it.seq() == s@,
                glyphs == self@.glyphs,
                can_draw(glyphs, s@.take(it.index() as int), x as int, y as int),
                blits@ == drawn(glyphs, s@.take(it.index() as int), x as int, y as int),
                x_pos == pen_after(glyphs, s@.take(it.index() as int), x as int),
        {
            let ghost index = it.index() as int;
            let ghost before = s@.take(index);
            let ghost after = s@.take(index + 1);
            proof {
                assert(after.drop_last() =~= before);
                assert(after.last() == c);
            }
            let code = c as u32;
            if code < 256 {
                match self.glyph(code as u8) {
                    Some(glyph) => {
                        if !glyph.is_empty() {
                            let dst_x = x_pos as i64 + glyph.x_offset as i64;
                            let dst_y = y as i64 + glyph.y_offset as i64;
                            if dst_x < i32::MIN as i64 || dst_x > i32::MAX as i64 || dst_y
                                < i32::MIN as i64 || dst_y > i32::MAX as i64 {
                                proof {
                                    lemma_cannot_draw(glyphs, s@, index + 1, x as int, y as int);
                                }
                                return None;
                            }
                            blits.push(
                                GlyphBlit {
                                    src_x: glyph.x,
                                    src_y: glyph.y,
                                    width: glyph.width,
                                    height: glyph.height,
                                    dst_x: dst_x as i32,
                                    dst_y: dst_y as i32,
                                },
                            );
                        }
                        let pen = x_pos as i64 + glyph.x_advance as i64;
                        if pen < i32::MIN as i64 || pen > i32::MAX as i64 {
                            proof {
                                lemma_cannot_draw(glyphs, s@, index + 1, x as int, y as int);
                            }
                            return None;
                        }
                        x_pos = pen as i32;
                    },
                    None => {},
                }
            }
        }
        assert(s@.take(s@.len() as int) =~= s@);
        Some(blits)
    }
}

/// A text that cannot be drawn as far as some place cannot be drawn.
pub proof fn lemma_cannot_draw(glyphs: Map<u8, Glyph>, text: Seq<char>, n: int, x: int, y: int)
    requires
        0 <= n <= text.len(),
        !can_draw(glyphs, text.take(n), x, y),
    ensures
        !can_draw(glyphs, text, x, y),
    decreases text.len() - n,
{
    if n < text.len() {
        assert(text.take(n + 1).drop_last() =~= text.take(n));
        lemma_cannot_draw(glyphs, text, n + 1, x, y);
    } else {
        assert(text.take(n) =~= text);
    }
}

} // verus!
