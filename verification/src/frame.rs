//! The frame buffer: a mutable two-dimensional grid of BGR pixels with a
//! fixed width and height for the session. Redaction and overlay operations
//! mutate it in place, one pixel at a time.

use vstd::prelude::*;

verus! {

/// One pixel: three 8-bit samples in BGR channel order.
#[derive(Clone, Copy, Debug, PartialEq, Eq, Structural)]
pub struct Pixel {
    pub b: u8,
    pub g: u8,
    pub r: u8,
}

/// A frame: `width * height` pixels in row-major order.
pub struct Frame {
    pub width: i32,
    pub height: i32,
    pub data: Vec<Pixel>,
}

impl Frame {
    /// Well-formedness: non-negative dimensions and a backing vector of
    /// exactly `width * height` pixels.
    pub open spec fn wf(self) -> bool {
        &&& 0 <= self.width
        &&& 0 <= self.height
        &&& self.data@.len() == self.width * self.height
    }

    /// True when `(x, y)` addresses a pixel of this frame.
    pub open spec fn valid_coord(self, x: int, y: int) -> bool {
        &&& 0 <= x < self.width
        &&& 0 <= y < self.height
    }

    /// Row-major position of `(x, y)` in the backing vector.
    pub open spec fn spec_index_of(self, x: int, y: int) -> int {
        y * self.width + x
    }

    /// The pixel at `(x, y)`.
    pub open spec fn pixel(self, x: int, y: int) -> Pixel {
        self.data@[self.spec_index_of(x, y)]
    }

    /// A valid coordinate addresses a position inside the backing vector.
    pub proof fn lemma_index_in_range(self, x: int, y: int)
        requires
            self.wf(),
            self.valid_coord(x, y),
        ensures
            0 <= self.spec_index_of(x, y) < self.data@.len(),
            y * self.width <= self.spec_index_of(x, y),
    {
        assert(0 <= y * self.width + x < self.width * self.height) by (nonlinear_arith)
            requires
                0 <= x < self.width,
                0 <= y < self.height,
        ;
    }

    /// Distinct valid coordinates address distinct positions.
    pub proof fn lemma_index_injective(self, x1: int, y1: int, x2: int, y2: int)
        requires
            self.wf(),
            self.valid_coord(x1, y1),
            self.valid_coord(x2, y2),
            !(x1 == x2 && y1 == y2),
        ensures
            self.spec_index_of(x1, y1) != self.spec_index_of(x2, y2),
    {
        assert(y1 * self.width + x1 != y2 * self.width + x2) by (nonlinear_arith)
            requires
                0 <= x1 < self.width,
                0 <= y1 < self.height,
                0 <= x2 < self.width,
                0 <= y2 < self.height,
                !(x1 == x2 && y1 == y2),
        ;
    }

    /// Every position of the backing vector is addressed by exactly one
    /// coordinate pair: row `i / width`, column `i % width`.
    pub proof fn lemma_coord_of_index(self, i: int)
        requires
            self.wf(),
            0 < self.width,
            0 <= i < self.data@.len(),
        ensures
            self.valid_coord(i % (self.width as int), i / (self.width as int)),
            self.spec_index_of(i % (self.width as int), i / (self.width as int)) == i,
    {
        let w = self.width as int;
        vstd::arithmetic::div_mod::lemma_fundamental_div_mod(i, w);
        vstd::arithmetic::div_mod::lemma_mod_bound(i, w);
        assert((0 <= i / w < self.height as int) && ((i / w) * w + (i % w) == i))
            by (nonlinear_arith)
            requires
                i == w * (i / w) + (i % w),
                0 <= i % w < w,
                0 <= i < w * (self.height as int),
                0 < w,
        ;
    }

    /// Builds a frame of the given dimensions with every pixel set to `fill`.
    pub fn new(width: i32, height: i32, fill: Pixel) -> (f: Frame)
        requires
            0 <= width,
            0 <= height,
            width * height <= usize::MAX,
        ensures
            f.wf(),
            f.width == width,
            f.height == height,
            forall|x: int, y: int| f.valid_coord(x, y) ==> f.pixel(x, y) == fill,
    {
        let n: usize = (width as usize) * (height as usize);
        let mut data: Vec<Pixel> = Vec::new();
        let mut i: usize = 0;
        while i < n
            invariant
                i <= n,
                n == width * height,
                data@.len() == i,
                forall|j: int| 0 <= j < i ==> data@[j] == fill,
            decreases n - i,
        {
            data.push(fill);
            i = i + 1;
        }
        let f = Frame { width, height, data };
        proof {
            assert forall|x: int, y: int| f.valid_coord(x, y) implies f.pixel(x, y) == fill by {
                f.lemma_index_in_range(x, y);
            }
        }
        f
    }

    /// Reads the pixel at `(x, y)`.
    pub fn get(&self, x: i32, y: i32) -> (p: Pixel)
        requires
            self.wf(),
            self.valid_coord(x as int, y as int),
        ensures
            p == self.pixel(x as int, y as int),
    {
        let _len: usize = self.data.len();
        proof {
            self.lemma_index_in_range(x as int, y as int);
        }
        let i: usize = (y as usize) * (self.width as usize) + (x as usize);
        self.data[i]
    }

    /// Overwrites the pixel at `(x, y)`, leaving every other pixel as it was.
    pub fn set(&mut self, x: i32, y: i32, p: Pixel)
        requires
            old(self).wf(),
            old(self).valid_coord(x as int, y as int),
        ensures
            final(self).wf(),
            final(self).width == old(self).width,
            final(self).height == old(self).height,
            final(self).data@ == old(self).data@.update(
                old(self).spec_index_of(x as int, y as int),
                p,
            ),
            final(self).pixel(x as int, y as int) == p,
            forall|qx: int, qy: int|
                old(self).valid_coord(qx, qy) && !(qx == x && qy == y)
                    ==> final(self).pixel(qx, qy) == old(self).pixel(qx, qy),
    {
        let _len: usize = self.data.len();
        proof {
            self.lemma_index_in_range(x as int, y as int);
        }
        let i: usize = (y as usize) * (self.width as usize) + (x as usize);
        self.data[i] = p;
        proof {
            assert forall|qx: int, qy: int|
                old(self).valid_coord(qx, qy) && !(qx == x && qy == y)
                    implies self.pixel(qx, qy) == old(self).pixel(qx, qy) by {
                old(self).lemma_index_injective(qx, qy, x as int, y as int);
                old(self).lemma_index_in_range(qx, qy);
            }
        }
    }
}

} // verus!
