//! Regions of a texture, and where to draw them.

use vstd::prelude::*;

verus! {

/// A rectangle of pixels in a texture.
#[derive(Clone, Copy, Debug, PartialEq, Eq, Structural)]
pub struct TextureRegion {
    pub x: u32,
    pub y: u32,
    pub w: u32,
    pub h: u32,
}

impl TextureRegion {
    /// The region as its left edge, its top edge, its width and its
    /// height.
    pub open spec fn spec_xywh(&self) -> (u32, u32, u32, u32) {
        (self.x, self.y, self.w, self.h)
    }

    pub fn new(x: u32, y: u32, width: u32, height: u32) -> (region: TextureRegion)
        ensures
            region.spec_xywh() == (x, y, width, height),
    {
        TextureRegion { x, y, w: width, h: height }
    }

    #[verifier::when_used_as_spec(spec_xywh)]
    pub fn xywh(&self) -> (r: (u32, u32, u32, u32))
        ensures
            r == self.spec_xywh(),
    {
        (self.x, self.y, self.w, self.h)
    }
}

/// One copy from a texture to the screen: the region to take, and the
/// rectangle of the screen to fill with it.
#[derive(Clone, Copy, Debug, PartialEq, Eq, Structural)]
pub struct Blit {
    pub region: TextureRegion,
    pub x: i32,
    pub y: i32,
    pub w: u32,
    pub h: u32,
}

/// A texture region cut in nine, to be drawn at any size: the corners keep
/// their size, the edges and the middle are stretched.
#[derive(Clone, Copy, Debug, PartialEq, Eq, Structural)]
pub struct NinePatch {
    pub top_left: TextureRegion,
    pub top_center: TextureRegion,
    pub top_right: TextureRegion,
    pub middle_left: TextureRegion,
    pub middle_center: TextureRegion,
    pub middle_right: TextureRegion,
    pub bottom_left: TextureRegion,
    pub bottom_center: TextureRegion,
    pub bottom_right: TextureRegion,
}

/// A region given by numbers that may not fit one.
pub open spec fn region(x: int, y: int, w: int, h: int) -> TextureRegion {
    TextureRegion { x: x as u32, y: y as u32, w: w as u32, h: h as u32 }
}

/// Whether a region can be cut with the given borders: the borders fit in
/// the region, and the region ends within what a `u32` can hold.
pub open spec fn can_cut(r: TextureRegion, left: u32, right: u32, top: u32, bottom: u32) -> bool {
    let (x, y, w, h) = r.xywh();
    &&& left + right <= w
    &&& top + bottom <= h
    &&& x + w <= u32::MAX
    &&& y + h <= u32::MAX
}

/// The nine parts of a region with the given borders.
pub open spec fn cut(r: TextureRegion, left: u32, right: u32, top: u32, bottom: u32) -> NinePatch {
    let (x, y, w, h) = r.xywh();
    let left_width = x + left;
    let center_width = w - left - right;
    let middle_height = h - top - bottom;
    NinePatch {
        top_left: region(x as int, y as int, left_width, top as int),
        top_center: region(left_width, y as int, center_width, top as int),
        top_right: region(x + w - right, y as int, right as int, top as int),
        middle_left: region(x as int, y + top, left as int, middle_height),
        middle_center: region(x + left, y + top, left as int, middle_height),
        middle_right: region(x as int, y + top, right as int, middle_height),
        bottom_left: region(x as int, y + h - bottom, left_width, bottom as int),
        bottom_center: region(x + left, y + h - bottom, center_width, bottom as int),
        bottom_right: region(x + w - right, y + h - bottom, right as int, bottom as int),
    }
}

/// A copy given by numbers that may not fit one.
pub open spec fn blit(r: TextureRegion, x: int, y: int, w: int, h: int) -> Blit {
    Blit { region: r, x: x as i32, y: y as i32, w: w as u32, h: h as u32 }
}

impl NinePatch {
    /// The nine parts of `texture_region` with the given borders, if the
    /// region can be cut so.
    pub fn new(texture_region: TextureRegion, left: u32, right: u32, top: u32, bottom: u32) -> (r:
        Option<NinePatch>)
        ensures
            r == if can_cut(texture_region, left, right, top, bottom) {
                Some(cut(texture_region, left, right, top, bottom))
            } else {
                None
            },
    {
        let (x, y, w, h) = texture_region.xywh();
        if left as u64 + right as u64 > w as u64 || top as u64 + bottom as u64 > h as u64 || x as u64
            + w as u64 > u32::MAX as u64 || y as u64 + h as u64 > u32::MAX as u64 {
            return None;
        }
        let left_width = x + left;
        let center_width = w - left - right;
        let middle_height = h - top - bottom;
        Some(
            NinePatch {
                top_left: TextureRegion::new(x, y, left_width, top),
                top_center: TextureRegion::new(left_width, y, center_width, top),
                top_right: TextureRegion::new(x + w - right, y, right, top),
                middle_left: TextureRegion::new(x, y + top, left, middle_height),
                middle_center: TextureRegion::new(x + left, y + top, left, middle_height),
                middle_right: TextureRegion::new(x, y + top, right, middle_height),
                bottom_left: TextureRegion::new(x, y + h - bottom, left_width, bottom),
                bottom_center: TextureRegion::new(x + left, y + h - bottom, center_width, bottom),
                bottom_right: TextureRegion::new(x + w - right, y + h - bottom, right, bottom),
            },
        )
    }

    /// Whether the nine parts can be laid out over the rectangle of `w` by
    /// `h` pixels at `(x, y)`: the corners fit in it, and it ends within
    /// what an `i32` can hold.
    pub open spec fn can_lay_out(self, x: i32, y: i32, w: u32, h: u32) -> bool {
        &&& self.top_left.xywh().2 + self.top_right.xywh().2 <= w
        &&& self.top_left.xywh().3 + self.bottom_left.xywh().3 <= h
        &&& x + w <= i32::MAX
        &&& y + h <= i32::MAX
    }

    /// The nine copies that draw the patch over the rectangle of `w` by `h`
    /// pixels at `(x, y)`, row by row.
    pub open spec fn laid_out(self, x: i32, y: i32, w: u32, h: u32) -> Seq<Blit> {
        let left_width = self.top_left.xywh().2;
        let right_width = self.top_right.xywh().2;
        let top_height = self.top_left.xywh().3;
        let bottom_height = self.bottom_left.xywh().3;
        let center_width = w - left_width - right_width;
        let center_height = h - top_height - bottom_height;
        seq![
            blit(self.top_left, x as int, y as int, left_width as int, top_height as int),
            blit(self.top_center, x + left_width, y as int, center_width, top_height as int),
            blit(self.top_right, x + w - right_width, y as int, right_width as int, top_height as int),
            blit(self.middle_left, x as int, y + top_height, left_width as int, center_height),
            blit(self.middle_center, x + left_width, y + top_height, center_width, center_height),
            blit(
                self.middle_right,
                x + w - right_width,
                y + top_height,
                right_width as int,
                center_height,
            ),
            blit(
                self.bottom_left,
                x as int,
                y + h - bottom_height,
                left_width as int,
                bottom_height as int,
            ),
            blit(
                self.bottom_center,
                x + left_width,
                y + h - bottom_height,
                center_width,
                bottom_height as int,
            ),
            blit(
                self.bottom_right,
                x + w - right_width,
                y + h - bottom_height,
                right_width as int,
                bottom_height as int,
            ),
        ]
    }

    /// The copies that draw the patch over the rectangle `(x, y, w, h)`,
    /// if it can be laid out there.
    pub fn render(&self, x: i32, y: i32, w: u32, h: u32) -> (r: Option<Vec<Blit>>)
        ensures
            match r {
                Some(blits) => self.can_lay_out(x, y, w, h) && blits@ == self.laid_out(x, y, w, h),
                None => !self.can_lay_out(x, y, w, h),
            },
    {
        let left_width = self.top_left.xywh().2;
        let right_width = self.top_right.xywh().2;
        let top_height = self.top_left.xywh().3;
        let bottom_height = self.bottom_left.xywh().3;
        if left_width as u64 + right_width as u64 > w as u64 || top_height as u64
            + bottom_height as u64 > h as u64 || x as i64 + w as i64 > i32::MAX as i64 || y as i64
            + h as i64 > i32::MAX as i64 {
            return None;
        }
        let center_width = w - left_width - right_width;
        let center_height = h - top_height - bottom_height;
        let x_center: i32 = (x as i64 + left_width as i64) as i32;
        let x_right: i32 = (x as i64 + w as i64 - right_width as i64) as i32;
        let y_middle: i32 = (y as i64 + top_height as i64) as i32;
        let y_bottom: i32 = (y as i64 + h as i64 - bottom_height as i64) as i32;
        let mut blits: Vec<Blit> = Vec::new();
        blits.push(Blit { region: self.top_left, x, y, w: left_width, h: top_height });
        blits.push(Blit { region: self.top_center, x: x_center, y, w: center_width, h: top_height });
        blits.push(Blit { region: self.top_right, x: x_right, y, w: right_width, h: top_height });
        blits.push(
            Blit { region: self.middle_left, x, y: y_middle, w: left_width, h: center_height },
        );
        blits.push(
            Blit {
                region: self.middle_center,
                x: x_center,
                y: y_middle,
                w: center_width,
                h: center_height,
            },
        );
        blits.push(
            Blit {
                region: self.middle_right,
                x: x_right,
                y: y_middle,
                w: right_width,
                h: center_height,
            },
        );
        blits.push(
            Blit { region: self.bottom_left, x, y: y_bottom, w: left_width, h: bottom_height },
        );
        blits.push(
            Blit {
                region: self.bottom_center,
                x: x_center,
                y: y_bottom,
                w: center_width,
                h: bottom_height,
            },
        );
        blits.push(
            Blit {
                region: self.bottom_right,
                x: x_right,
                y: y_bottom,
                w: right_width,
                h: bottom_height,
            },
        );
        assert(blits@ =~= self.laid_out(x, y, w, h));
        Some(blits)
    }
}

/// The copy that draws `texture_region` at its own size with its top left
/// corner at `position`.
pub fn render_region(texture_region: &TextureRegion, position: (i32, i32)) -> (b: Blit)
    ensures
        b == (Blit {
            region: *texture_region,
            x: position.0,
            y: position.1,
            w: texture_region.xywh().2,
            h: texture_region.xywh().3,
        }),
{
    let (_, _, w, h) = texture_region.xywh();
    Blit { region: *texture_region, x: position.0, y: position.1, w, h }
}

} // verus!
