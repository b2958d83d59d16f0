use vstd::prelude::*;

verus! {

/// Largest number of tiles along either side of the visible grid.
pub const MAX_SIDE: i32 = 1024;

/// Smallest number of tiles along either side of the visible grid.
pub const MIN_SIDE: i32 = 3;

/// A side length after clamping into `[MIN_SIDE, MAX_SIDE]`.
pub open spec fn clamp_side(v: int) -> int {
    if v > MAX_SIDE as int {
        MAX_SIDE as int
    } else if v < MIN_SIDE as int {
        MIN_SIDE as int
    } else {
        v
    }
}

/// A scale factor after clamping to at least one.
pub open spec fn clamp_scale(s: int) -> int {
    if s < 1 {
        1
    } else {
        s
    }
}

/// The visible part of the tile grid, in tiles, and the pixel scale factor.
#[derive(Clone, Copy, Debug)]
pub struct Viewport {
    width: i32,
    height: i32,
    scale: i32,
}

fn clamp_side_exec(v: i32) -> (r: i32)
    ensures
        r as int == clamp_side(v as int),
{
    if v > MAX_SIDE {
        MAX_SIDE
    } else if v < MIN_SIDE {
        MIN_SIDE
    } else {
        v
    }
}

fn clamp_scale_exec(s: i32) -> (r: i32)
    ensures
        r as int == clamp_scale(s as int),
{
    if s < 1 {
        1
    } else {
        s
    }
}

impl Viewport {
    /// Width in tiles.
    pub closed spec fn spec_width(&self) -> int {
        self.width as int
    }

    /// Height in tiles.
    pub closed spec fn spec_height(&self) -> int {
        self.height as int
    }

    /// Pixel scale factor.
    pub closed spec fn spec_scale(&self) -> int {
        self.scale as int
    }

    /// Dimensions lie in `[MIN_SIDE, MAX_SIDE]` and the scale is positive.
    pub open spec fn wf(&self) -> bool {
        &&& MIN_SIDE <= self.spec_width() <= MAX_SIDE
        &&& MIN_SIDE <= self.spec_height() <= MAX_SIDE
        &&& 1 <= self.spec_scale() <= i32::MAX
    }

    /// Whether the tile `(x, y)` lies inside the visible grid.
    pub open spec fn spec_contains(&self, x: int, y: int) -> bool {
        0 <= x < self.spec_width() && 0 <= y < self.spec_height()
    }

    /// The viewport `new(width, height, scale)` builds.
    pub closed spec fn new_spec(width: i32, height: i32, scale: i32) -> Viewport {
        Viewport {
            width: clamp_side(width as int) as i32,
            height: clamp_side(height as int) as i32,
            scale: clamp_scale(scale as int) as i32,
        }
    }

    /// Builds a viewport, clamping each side into `[MIN_SIDE, MAX_SIDE]` and
    /// the scale to at least one.
    pub fn new(width: i32, height: i32, scale: i32) -> (r: Self)
        ensures
            r == Self::new_spec(width, height, scale),
            r.wf(),
            r.spec_width() == clamp_side(width as int),
            r.spec_height() == clamp_side(height as int),
            r.spec_scale() == clamp_scale(scale as int),
    {
        Viewport {
            width: clamp_side_exec(width),
            height: clamp_side_exec(height),
            scale: clamp_scale_exec(scale),
        }
    }

    /// Whether the tile `(x, y)` lies inside the visible grid.
    pub fn contains(&self, x: i32, y: i32) -> (r: bool)
        ensures
            r == self.spec_contains(x as int, y as int),
    {
        x >= 0 && x < self.width && y >= 0 && y < self.height
    }

    /// Replaces the dimensions and scale, clamped as in `new`.
    pub fn set(&mut self, width: i32, height: i32, scale: i32)
        ensures
            final(self).wf(),
            final(self).spec_width() == clamp_side(width as int),
            final(self).spec_height() == clamp_side(height as int),
            final(self).spec_scale() == clamp_scale(scale as int),
    {
        self.width = clamp_side_exec(width);
        self.height = clamp_side_exec(height);
        self.scale = clamp_scale_exec(scale);
    }

    /// Width and height in tiles.
    pub fn get_dimensions(&self) -> (r: (i32, i32))
        ensures
            r.0 as int == self.spec_width(),
            r.1 as int == self.spec_height(),
    {
        (self.width, self.height)
    }

    /// Pixel scale factor.
    pub fn get_scale(&self) -> (r: i32)
        ensures
            r as int == self.spec_scale(),
    {
        self.scale
    }

    /// Width and height in tiles, unsigned.
    pub fn get_dimensions_u32(&self) -> (r: (u32, u32))
        requires
            self.wf(),
        ensures
            r.0 as int == self.spec_width(),
            r.1 as int == self.spec_height(),
    {
        (self.width as u32, self.height as u32)
    }

    /// The pixel canvas that shows this viewport with tiles of
    /// `tile_size` pixels: `(width * tile_w * scale, height * tile_h * scale)`,
    /// or `None` where a side does not fit in a `u32`.
    pub fn get_framebuffer_size(&self, tile_size: (u32, u32)) -> (r: Option<(u32, u32)>)
        requires
            self.wf(),
        ensures
            ({
                let w = self.spec_width() * tile_size.0 * self.spec_scale();
                let h = self.spec_height() * tile_size.1 * self.spec_scale();
                match r {
                    Some(size) => size.0 as int == w && size.1 as int == h,
                    None => w > u32::MAX || h > u32::MAX,
                }
            }),
    {
        proof {
            let (a, b, c, d) = (self.width as int, tile_size.0 as int, self.height as int, tile_size.1 as int);
            assert(a * b <= 1024 * 0xffff_ffff && c * d <= 1024 * 0xffff_ffff) by (nonlinear_arith)
                requires
                    0 <= a <= 1024,
                    0 <= c <= 1024,
                    0 <= b <= 0xffff_ffff,
                    0 <= d <= 0xffff_ffff,
            ;
        }
        let tw = self.width as u64 * tile_size.0 as u64;
        let th = self.height as u64 * tile_size.1 as u64;
        match (tw.checked_mul(self.scale as u64), th.checked_mul(self.scale as u64)) {
            (Some(w), Some(h)) => {
                if w <= u32::MAX as u64 && h <= u32::MAX as u64 {
                    Some((w as u32, h as u32))
                } else {
                    None
                }
            },
            _ => None,
        }
    }
}

} // verus!
