use vstd::prelude::*;

verus! {

/// One pixel as (red, green, blue, alpha).
pub type Rgba = (u8, u8, u8, u8);

/// Measured size of a string bitmap, in whole pixels.
///
/// `y_min` is how far the ink reaches below the baseline and `y_max` how far
/// it reaches above it.
#[derive(Clone, Copy, Debug, PartialEq, Eq, Structural)]
pub struct StringBitmapSize {
    pub width: u64,
    pub height: u64,
    pub y_min: u64,
    pub y_max: u64,
}

/// Rendered string bitmap: four row-major byte planes of `width * height`
/// bytes each.
pub struct StringBitmap {
    pub r: Vec<u8>,
    pub g: Vec<u8>,
    pub b: Vec<u8>,
    pub a: Vec<u8>,
    pub size: StringBitmapSize,
}

/// Number of pixels of a bitmap of the given size.
pub open spec fn area(size: StringBitmapSize) -> int {
    size.width * size.height
}

/// Whether `(x, y)` lies in `[0, width) x [0, height)`.
pub open spec fn in_box(size: StringBitmapSize, x: int, y: int) -> bool {
    0 <= x < size.width && 0 <= y < size.height
}

/// Row-major index of `(x, y)`.
pub open spec fn pos_of(size: StringBitmapSize, x: int, y: int) -> int {
    y * size.width + x
}

/// Pixels of the box have indices in `[0, width * height)`.
pub proof fn lemma_pos_in_area(size: StringBitmapSize, x: int, y: int)
    requires
        in_box(size, x, y),
    ensures
        0 <= pos_of(size, x, y) < area(size),
{
    let w = size.width as int;
    let h = size.height as int;
    assert(0 <= y * w) by (nonlinear_arith)
        requires
            0 <= y,
            0 <= w,
    ;
    assert((y + 1) * w <= h * w) by (nonlinear_arith)
        requires
            y + 1 <= h,
            0 <= w,
    ;
    assert((y + 1) * w == y * w + w) by (nonlinear_arith);
}

/// Distinct pixels of the box have distinct row-major indices.
pub proof fn lemma_pos_injective(size: StringBitmapSize, x1: int, y1: int, x2: int, y2: int)
    requires
        in_box(size, x1, y1),
        in_box(size, x2, y2),
        pos_of(size, x1, y1) == pos_of(size, x2, y2),
    ensures
        x1 == x2 && y1 == y2,
{
    let w = size.width as int;
    if y1 < y2 {
        assert(y1 * w + w <= y2 * w) by (nonlinear_arith)
            requires
                y1 + 1 <= y2,
                0 <= w,
        ;
    } else if y2 < y1 {
        assert(y2 * w + w <= y1 * w) by (nonlinear_arith)
            requires
                y2 + 1 <= y1,
                0 <= w,
        ;
    }
}

impl StringBitmap {
    /// The planes all hold exactly `width * height` bytes, an amount that an
    /// allocation can hold (at most `isize::MAX`).
    pub open spec fn wf(&self) -> bool {
        &&& area(self.size) <= isize::MAX
        &&& self.r@.len() == area(self.size)
        &&& self.g@.len() == area(self.size)
        &&& self.b@.len() == area(self.size)
        &&& self.a@.len() == area(self.size)
    }

    /// The pixel stored at row-major index `i`.
    pub open spec fn pixel_at(&self, i: int) -> Rgba {
        (self.r@[i], self.g@[i], self.b@[i], self.a@[i])
    }

    /// The pixel at `(x, y)`.
    pub open spec fn pixel(&self, x: int, y: int) -> Rgba {
        self.pixel_at(pos_of(self.size, x, y))
    }

    /// A zero-filled (fully transparent) bitmap of the given size.
    pub fn new(size: StringBitmapSize) -> (result: StringBitmap)
        requires
            area(size) <= isize::MAX,
        ensures
            result.wf(),
            result.size == size,
            forall|i: int| 0 <= i < area(size) ==> #[trigger] result.pixel_at(i) == (0u8, 0u8, 0u8, 0u8),
    {
        let n = (size.width * size.height) as usize;
        let result = StringBitmap {
            r: vec![0u8; n],
            g: vec![0u8; n],
            b: vec![0u8; n],
            a: vec![0u8; n],
            size: size,
        };
        result
    }

    /// Writes one pixel.
    pub fn set_rgba(&mut self, x: i64, y: i64, rgba: Rgba)
        requires
            old(self).wf(),
            in_box(old(self).size, x as int, y as int),
        ensures
            final(self).wf(),
            final(self).size == old(self).size,
            final(self).r@ == old(self).r@.update(pos_of(old(self).size, x as int, y as int), rgba.0),
            final(self).g@ == old(self).g@.update(pos_of(old(self).size, x as int, y as int), rgba.1),
            final(self).b@ == old(self).b@.update(pos_of(old(self).size, x as int, y as int), rgba.2),
            final(self).a@ == old(self).a@.update(pos_of(old(self).size, x as int, y as int), rgba.3),
    {
        let pos = self.get_pos(x, y);
        self.r.set(pos, rgba.0);
        self.g.set(pos, rgba.1);
        self.b.set(pos, rgba.2);
        self.a.set(pos, rgba.3);
    }

    /// Row-major index of `(x, y)`.
    pub fn get_pos(&self, x: i64, y: i64) -> (pos: usize)
        requires
            self.wf(),
            in_box(self.size, x as int, y as int),
        ensures
            pos as int == pos_of(self.size, x as int, y as int),
            pos < self.r@.len(),
    {
        let n = self.r.len();
        proof {
            lemma_pos_in_area(self.size, x as int, y as int);
            assert(self.size.height <= area(self.size)) by (nonlinear_arith)
                requires
                    1 <= self.size.width,
            ;
            assert(y * self.size.width <= pos_of(self.size, x as int, y as int));
            assert(self.size.width <= area(self.size)) by (nonlinear_arith)
                requires
                    1 <= self.size.height,
            ;
        }
        let w = self.size.width as usize;
        (y as usize) * w + (x as usize)
    }

    /// Reads the pixel at `(x, y)`.
    pub fn get_rgba(&self, x: i64, y: i64) -> (rgba: Rgba)
        requires
            self.wf(),
            in_box(self.size, x as int, y as int),
        ensures
            rgba == self.pixel(x as int, y as int),
    {
        let pos = self.get_pos(x, y);
        (self.r[pos], self.g[pos], self.b[pos], self.a[pos])
    }
}

} // verus!
