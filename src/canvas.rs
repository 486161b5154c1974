//! A rectangular grid of pixels, and its text in the plain PPM format.
//!
//! The grid is generic over the pixel type; the PPM text is written from
//! pixels whose channels are already bytes.

use vstd::prelude::*;

verus! {

/// Longest line of pixel data in the PPM text, in characters.
pub const MAX_LINE: usize = 70;

/// A `width` by `height` grid of pixels, stored column after column.
pub struct Canvas<P> {
    width: usize,
    height: usize,
    data: Vec<P>,
}

/// A pixel whose three channels are bytes.
#[derive(Clone, Copy, Debug, PartialEq, Eq, Structural)]
pub struct Rgb8 {
    pub r: u8,
    pub g: u8,
    pub b: u8,
}

impl<P: Copy> Canvas<P> {
    pub closed spec fn spec_width(&self) -> nat {
        self.width as nat
    }

    pub closed spec fn spec_height(&self) -> nat {
        self.height as nat
    }

    /// The pixel in column `x`, row `y`.
    pub closed spec fn pixel(&self, x: int, y: int) -> P {
        self.data@[x * self.height + y]
    }

    pub closed spec fn wf(&self) -> bool {
        &&& self.data@.len() == self.width * self.height
        &&& self.width * self.height <= usize::MAX
    }

    /// The width and height are machine sizes.
    pub proof fn lemma_size_fits(&self)
        ensures
            self.spec_width() <= usize::MAX,
            self.spec_height() <= usize::MAX,
    {
    }

    /// A canvas of the given size with every pixel set to `fill`.
    pub fn new(width: usize, height: usize, fill: P) -> (c: Self)
        requires
            width * height <= usize::MAX,
        ensures
            c.wf(),
            c.spec_width() == width,
            c.spec_height() == height,
            forall|x: int, y: int| 0 <= x < width && 0 <= y < height ==> c.pixel(x, y) == fill,
    {
        let n: usize = width * height;
        let mut data: Vec<P> = Vec::new();
        let mut k: usize = 0;
        while k < n
            invariant
                k <= n,
                data@.len() == k,
                forall|j: int| 0 <= j < k ==> data@[j] == fill,
            decreases n - k,
        {
            data.push(fill);
            k = k + 1;
        }
        let c = Canvas { width, height, data };
        assert forall|x: int, y: int| 0 <= x < width && 0 <= y < height implies c.pixel(x, y)
            == fill by {
            lemma_cell_in_range(x, y, width as int, height as int);
        }
        c
    }

    pub fn width(&self) -> (r: usize)
        ensures
            r == self.spec_width(),
    {
        self.width
    }

    pub fn height(&self) -> (r: usize)
        ensures
            r == self.spec_height(),
    {
        self.height
    }

    /// Whether column `x`, row `y` lies on the canvas.
    pub fn in_bounds(&self, x: usize, y: usize) -> (r: bool)
        ensures
            r == (x < self.spec_width() && y < self.spec_height()),
    {
        x < self.width && y < self.height
    }

    /// Sets the pixel in column `x`, row `y`; every other pixel stays.
    pub fn set(&mut self, x: usize, y: usize, color: &P)
        requires
            old(self).wf(),
            x < old(self).spec_width(),
            y < old(self).spec_height(),
        ensures
            final(self).wf(),
            final(self).spec_width() == old(self).spec_width(),
            final(self).spec_height() == old(self).spec_height(),
            final(self).pixel(x as int, y as int) == *color,
            forall|i: int, j: int|
                0 <= i < old(self).spec_width() && 0 <= j < old(self).spec_height() && (i != x
                    || j != y) ==> final(self).pixel(i, j) == old(self).pixel(i, j),
    {
        proof {
            lemma_cell_in_range(x as int, y as int, self.width as int, self.height as int);
        }
        let k = x * self.height + y;
        let ghost before = *self;
        self.data.set(k, *color);
        proof {
            assert forall|i: int, j: int|
                0 <= i < self.width && 0 <= j < self.height && (i != x || j != y) implies
                #[trigger] self.pixel(i, j) == before.pixel(i, j) by {
                lemma_cell_in_range(i, j, self.width as int, self.height as int);
                lemma_cells_differ(i, j, x as int, y as int, self.height as int);
            }
        }
    }

    /// The pixel in column `x`, row `y`.
    pub fn at(&self, x: usize, y: usize) -> (r: P)
        requires
            self.wf(),
            x < self.spec_width(),
            y < self.spec_height(),
        ensures
            r == self.pixel(x as int, y as int),
    {
        proof {
            lemma_cell_in_range(x as int, y as int, self.width as int, self.height as int);
        }
        self.data[x * self.height + y]
    }
}

proof fn lemma_cell_in_range(x: int, y: int, w: int, h: int)
    requires
        0 <= x < w,
        0 <= y < h,
    ensures
        0 <= x * h + y < w * h,
        x * h <= (w - 1) * h,
{
    assert(x * h <= (w - 1) * h) by (nonlinear_arith)
        requires
            0 <= x < w,
            0 <= h,
    ;
    assert((w - 1) * h + h == w * h) by (nonlinear_arith);
    assert(0 <= x * h) by (nonlinear_arith)
        requires
            0 <= x,
            0 <= h,
    ;
}

proof fn lemma_cells_differ(i: int, j: int, x: int, y: int, h: int)
    requires
        0 <= j < h,
        0 <= y < h,
        i != x || j != y,
    ensures
        i * h + j != x * h + y,
{
    if i == x {
    } else if i < x {
        assert(i * h + h <= x * h) by (nonlinear_arith)
            requires
                i < x,
                0 <= h,
        ;
    } else {
        assert(x * h + h <= i * h) by (nonlinear_arith)
            requires
                x < i,
                0 <= h,
        ;
    }
}

} // verus!
