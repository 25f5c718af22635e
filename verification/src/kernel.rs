//! Ordered-dithering threshold matrices (Bayer matrices) for the three
//! detail levels: 2x2, 4x4 and 8x8.
//!
//! An entry `v` of a matrix of size `n` stands for the normalized threshold
//! `v / n^2`, a rational in `[0, 1)`.

use vstd::prelude::*;

verus! {

/// A square threshold matrix of size `size`, stored row by row: the entry
/// for column `x` and row `y` sits at index `(x % size) * size + (y % size)`
/// once the matrix is tiled over the plane.
pub struct DitherKernel {
    pub size: u32,
    pub values: Vec<u8>,
}

/// The 2x2 Bayer matrix, flattened.
pub open spec fn bayer2_values() -> Seq<u8> {
    seq![0u8, 2, 3, 1]
}

/// The 4x4 Bayer matrix, flattened.
pub open spec fn bayer4_values() -> Seq<u8> {
    seq![
        0u8, 8, 2, 10,
        12, 4, 14, 6,
        3, 11, 1, 9,
        15, 7, 13, 5,
    ]
}

/// The 8x8 Bayer matrix, flattened.
pub open spec fn bayer8_values() -> Seq<u8> {
    seq![
        0u8, 32, 8, 40, 2, 34, 10, 42,
        48, 16, 56, 24, 50, 18, 58, 26,
        12, 44, 4, 36, 14, 46, 6, 38,
        60, 28, 52, 20, 62, 30, 54, 22,
        3, 35, 11, 43, 1, 33, 9, 41,
        51, 19, 59, 27, 49, 17, 57, 25,
        15, 47, 7, 39, 13, 45, 5, 37,
        63, 31, 55, 23, 61, 29, 53, 21,
    ]
}

/// Matrix size for a detail level: 1, 2, 3 select 2, 4, 8; any other level
/// falls back to the 4x4 default.
pub open spec fn level_size(level: int) -> int {
    if level == 1 {
        2
    } else if level == 3 {
        8
    } else {
        4
    }
}

/// Matrix contents for a detail level, with the same fallback.
pub open spec fn level_values(level: int) -> Seq<u8> {
    if level == 1 {
        bayer2_values()
    } else if level == 3 {
        bayer8_values()
    } else {
        bayer4_values()
    }
}

impl DitherKernel {
    /// Well-formedness: one of the three sizes, exactly `size * size`
    /// entries, each below `size * size` and each unique, so the tiled
    /// thresholds sweep `[0, 1)` evenly.
    pub open spec fn wf(self) -> bool {
        &&& (self.size == 2 || self.size == 4 || self.size == 8)
        &&& self.values@.len() == self.size * self.size
        &&& forall|i: int| 0 <= i < self.values@.len()
                ==> #[trigger] self.values@[i] < self.size * self.size
        &&& forall|i: int, j: int| 0 <= i < j < self.values@.len()
                ==> #[trigger] self.values@[i] != #[trigger] self.values@[j]
    }

    /// The threshold numerator that applies at `(x, y)` once the matrix is
    /// tiled over the plane.
    pub open spec fn entry(self, x: int, y: int) -> u8 {
        self.values@[(x % (self.size as int)) * (self.size as int) + (y % (self.size as int))]
    }

    /// Builds the matrix for a detail level; levels other than 1, 2, 3 get
    /// the 4x4 default.
    pub fn for_level(level: i32) -> (k: DitherKernel)
        ensures
            k.wf(),
            k.size == level_size(level as int),
            k.values@ == level_values(level as int),
    {
        if level == 1 {
            DitherKernel { size: 2, values: vec![0u8, 2, 3, 1] }
        } else if level == 3 {
            DitherKernel {
                size: 8,
                values: vec![
                    0u8, 32, 8, 40, 2, 34, 10, 42,
                    48, 16, 56, 24, 50, 18, 58, 26,
                    12, 44, 4, 36, 14, 46, 6, 38,
                    60, 28, 52, 20, 62, 30, 54, 22,
                    3, 35, 11, 43, 1, 33, 9, 41,
                    51, 19, 59, 27, 49, 17, 57, 25,
                    15, 47, 7, 39, 13, 45, 5, 37,
                    63, 31, 55, 23, 61, 29, 53, 21,
                ],
            }
        } else {
            DitherKernel {
                size: 4,
                values: vec![
                    0u8, 8, 2, 10,
                    12, 4, 14, 6,
                    3, 11, 1, 9,
                    15, 7, 13, 5,
                ],
            }
        }
    }

    /// Reads the threshold numerator that applies at `(x, y)`.
    pub fn entry_at(&self, x: u32, y: u32) -> (r: u8)
        requires
            self.wf(),
        ensures
            r == self.entry(x as int, y as int),
            r < self.size * self.size,
    {
        let n = self.size;
        let cx = x % n;
        let cy = y % n;
        proof {
            lemma_tile_index_bound(cx as int, cy as int, n as int);
        }
        let idx: usize = (cx * n + cy) as usize;
        self.values[idx]
    }
}

/// The lookup table holding the three precomputed matrices: no allocation
/// happens at lookup time.
pub struct KernelTable {
    pub k2: DitherKernel,
    pub k4: DitherKernel,
    pub k8: DitherKernel,
}

impl KernelTable {
    pub open spec fn wf(self) -> bool {
        &&& self.k2.wf() && self.k2.size == 2 && self.k2.values@ == bayer2_values()
        &&& self.k4.wf() && self.k4.size == 4 && self.k4.values@ == bayer4_values()
        &&& self.k8.wf() && self.k8.size == 8 && self.k8.values@ == bayer8_values()
    }

    /// Precomputes the three matrices.
    pub fn new() -> (t: KernelTable)
        ensures
            t.wf(),
    {
        KernelTable {
            k2: DitherKernel::for_level(1),
            k4: DitherKernel::for_level(2),
            k8: DitherKernel::for_level(3),
        }
    }

    /// The matrix for a detail level; levels other than 1, 2, 3 get the 4x4
    /// default.
    pub fn kernel_for(&self, level: i32) -> (k: &DitherKernel)
        requires
            self.wf(),
        ensures
            k.wf(),
            k.size == level_size(level as int),
            k.values@ == level_values(level as int),
    {
        if level == 1 {
            &self.k2
        } else if level == 3 {
            &self.k8
        } else {
            &self.k4
        }
    }
}

/// The flattened index of a tile coordinate stays inside the matrix.
proof fn lemma_tile_index_bound(cx: int, cy: int, n: int)
    by (nonlinear_arith)
    requires
        0 <= cx < n,
        0 <= cy < n,
    ensures
        0 <= cx * n + cy < n * n,
{
}

} // verus!
