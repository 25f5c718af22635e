//! Plain RGBA images: a width, a height, and a flat byte buffer holding
//! four bytes (red, green, blue, alpha) per pixel, row by row.

use vstd::prelude::*;

verus! {

/// An owned RGBA image. A well-formed image has positive dimensions and a
/// buffer of exactly `4 * width * height` bytes; pixel `(x, y)` starts at
/// byte `4 * (y * width + x)`.
pub struct Image {
    pub width: u32,
    pub height: u32,
    pub data: Vec<u8>,
}

impl Image {
    /// Well-formedness: positive dimensions and a buffer of the exact size.
    pub open spec fn wf(self) -> bool {
        &&& self.width >= 1
        &&& self.height >= 1
        &&& self.data@.len() == 4 * ((self.width as nat) * (self.height as nat))
    }

    /// Whether `(x, y)` lies inside the image.
    pub open spec fn in_bounds(self, x: int, y: int) -> bool {
        &&& 0 <= x < self.width
        &&& 0 <= y < self.height
    }

    /// Channel `c` (0 red, 1 green, 2 blue, 3 alpha) of pixel `(x, y)`.
    pub open spec fn chan(self, x: int, y: int, c: int) -> u8 {
        self.data@[4 * (y * self.width + x) + c]
    }

    /// The images have the same dimensions and the same channel values at
    /// every pixel.
    pub open spec fn same_content(self, other: Image) -> bool {
        &&& self.width == other.width
        &&& self.height == other.height
        &&& forall|x: int, y: int, c: int|
                self.in_bounds(x, y) && 0 <= c < 4 ==> self.chan(x, y, c) == other.chan(x, y, c)
    }

    pub fn width(&self) -> (r: u32)
        ensures
            r == self.width,
    {
        self.width
    }

    pub fn height(&self) -> (r: u32)
        ensures
            r == self.height,
    {
        self.height
    }

    /// Builds an image from raw parts. Returns the image exactly when the
    /// dimensions are positive and the buffer has the right length;
    /// otherwise returns the buffer unchanged.
    pub fn from_raw(width: u32, height: u32, data: Vec<u8>) -> (r: Result<Image, Vec<u8>>)
        ensures
            ({
                let ok = width >= 1 && height >= 1
                    && data@.len() == 4 * ((width as nat) * (height as nat));
                match r {
                    Ok(im) => ok && im.wf() && im.width == width && im.height == height
                        && im.data@ == data@,
                    Err(d) => !ok && d@ == data@,
                }
            }),
    {
        proof {
            lemma_mul_bound_u32(width as int, height as int);
        }
        let expected: u128 = 4u128 * ((width as u128) * (height as u128));
        if width >= 1 && height >= 1 && (data.len() as u128) == expected {
            Ok(Image { width, height, data })
        } else {
            Err(data)
        }
    }

    /// Reads channel `c` of pixel `(x, y)`.
    pub fn channel(&self, x: u32, y: u32, c: u32) -> (r: u8)
        requires
            self.wf(),
            self.in_bounds(x as int, y as int),
            c < 4,
        ensures
            r == self.chan(x as int, y as int, c as int),
    {
        let n: usize = self.data.len();
        proof {
            lemma_pixel_index_bound(self.width as int, self.height as int, x as int, y as int);
            assert(4 * (y * self.width + x) + c < n);
        }
        let idx: usize = 4 * ((y as usize) * (self.width as usize) + (x as usize)) + (c as usize);
        self.data[idx]
    }

    /// Hands the raw byte buffer out for encoding or display.
    pub fn raw_bytes(&self) -> (r: &Vec<u8>)
        ensures
            r@ == self.data@,
    {
        &self.data
    }

    /// Collects the coordinates of every pixel whose red channel is nonzero,
    /// column by column, top to bottom within a column: exactly the points a
    /// two-tone renderer plots in the foreground color.
    pub fn foreground_points(&self) -> (pts: Vec<(u32, u32)>)
        requires
            self.wf(),
        ensures
            forall|i: int| 0 <= i < pts@.len() ==> {
                &&& self.in_bounds(#[trigger] pts@[i].0 as int, pts@[i].1 as int)
                &&& self.chan(pts@[i].0 as int, pts@[i].1 as int, 0) != 0
            },
            forall|px: u32, py: u32|
                self.in_bounds(px as int, py as int)
                    && self.chan(px as int, py as int, 0) != 0
                    ==> pts@.contains((px, py)),
            forall|i: int, j: int| 0 <= i < j < pts@.len()
                ==> column_order(#[trigger] pts@[i], #[trigger] pts@[j]),
    {
        let mut pts: Vec<(u32, u32)> = Vec::new();
        let w = self.width;
        let h = self.height;
        let mut x: u32 = 0;
        while x < w
            invariant
                self.wf(),
                w == self.width,
                h == self.height,
                x <= w,
                forall|i: int| 0 <= i < pts@.len() ==> {
                    &&& self.in_bounds(#[trigger] pts@[i].0 as int, pts@[i].1 as int)
                    &&& self.chan(pts@[i].0 as int, pts@[i].1 as int, 0) != 0
                    &&& pts@[i].0 < x
                },
                forall|px: u32, py: u32|
                    px < x && py < h && self.chan(px as int, py as int, 0) != 0
                        ==> pts@.contains((px, py)),
                forall|i: int, j: int| 0 <= i < j < pts@.len()
                    ==> column_order(#[trigger] pts@[i], #[trigger] pts@[j]),
            decreases w - x,
        {
            let mut y: u32 = 0;
            while y < h
                invariant
                    self.wf(),
                    w == self.width,
                    h == self.height,
                    x < w,
                    y <= h,
                    forall|i: int| 0 <= i < pts@.len() ==> {
                        &&& self.in_bounds(#[trigger] pts@[i].0 as int, pts@[i].1 as int)
                        &&& self.chan(pts@[i].0 as int, pts@[i].1 as int, 0) != 0
                        &&& (pts@[i].0 < x || (pts@[i].0 == x && pts@[i].1 < y))
                    },
                    forall|px: u32, py: u32|
                        (px < x || (px == x && py < y)) && px < w && py < h
                            && self.chan(px as int, py as int, 0) != 0
                            ==> pts@.contains((px, py)),
                    forall|i: int, j: int| 0 <= i < j < pts@.len()
                        ==> column_order(#[trigger] pts@[i], #[trigger] pts@[j]),
                decreases h - y,
            {
                if self.channel(x, y, 0) != 0 {
                    let ghost before = pts@;
                    pts.push((x, y));
                    proof {
                        assert forall|px: u32, py: u32|
                            (px < x || (px == x && py < y + 1)) && px < w && py < h
                                && self.chan(px as int, py as int, 0) != 0
                                implies pts@.contains((px, py)) by {
                            if px == x && py == y {
                                assert(pts@[before.len() as int] == (px, py));
                            } else {
                                assert(before.contains((px, py)));
                                let i = choose|i: int|
                                    0 <= i < before.len() && before[i] == (px, py);
                                assert(pts@[i] == (px, py));
                            }
                        }
                    }
                }
                y = y + 1;
            }
            x = x + 1;
        }
        pts
    }
}

/// Strict "column-major" order on coordinates: earlier column first, and
/// within one column the smaller row first.
pub open spec fn column_order(a: (u32, u32), b: (u32, u32)) -> bool {
    a.0 < b.0 || (a.0 == b.0 && a.1 < b.1)
}

/// The product of two `u32`-sized values times four stays far below `u128`.
proof fn lemma_mul_bound_u32(w: int, h: int)
    by (nonlinear_arith)
    requires
        0 <= w <= u32::MAX,
        0 <= h <= u32::MAX,
    ensures
        0 <= w * h,
        4 * (w * h) < u128::MAX,
{
}

/// A pixel's flat index lies below the pixel count.
pub proof fn lemma_pixel_index_bound(w: int, h: int, x: int, y: int)
    by (nonlinear_arith)
    requires
        0 <= x < w,
        0 <= y < h,
    ensures
        0 <= y * w + x,
        y * w + x < w * h,
{
}

} // verus!
