//! The pixel window a fractal is rendered into, and how a pixel index maps to
//! its offset from the window's center.

use vstd::prelude::*;

verus! {

/// The extension of the window we represent: width (`x_dim`) and height
/// (`y_dim`) in pixels. Pixels are numbered row by row.
#[derive(Debug, Clone, Copy)]
pub struct WindowExtension {
    x_dim: i32,
    y_dim: i32,
}

impl WindowExtension {
    /// The width in pixels.
    pub closed spec fn width(self) -> int {
        self.x_dim as int
    }

    /// The height in pixels.
    pub closed spec fn height(self) -> int {
        self.y_dim as int
    }

    /// Creates a window extension from its width (`x_dim`) and height (`y_dim`) in pixels.
    pub fn new(x_dim: i32, y_dim: i32) -> (r: WindowExtension)
        ensures
            r.width() == x_dim,
            r.height() == y_dim,
    {
        WindowExtension { x_dim, y_dim }
    }

    /// Creates the window for an image of `rows` x `columns` pixels. Each count
    /// is converted to `i32` as `as` does (wrapping on overflow).
    pub fn from_numpy_extension(rows: usize, columns: usize) -> (r: WindowExtension)
        ensures
            r.width() == columns as i32,
            r.height() == rows as i32,
    {
        WindowExtension::new(columns as i32, rows as i32)
    }

    /// Gets the smaller of width and height.
    pub fn get_smallest_size(&self) -> (r: i32)
        ensures
            r == (if self.width() <= self.height() { self.width() } else { self.height() }),
    {
        if self.x_dim <= self.y_dim {
            self.x_dim
        } else {
            self.y_dim
        }
    }

    /// Gets the amount of pixels in the window.
    pub fn get_amount_of_pixels(&self) -> (r: i32)
        requires
            i32::MIN <= self.width() * self.height() <= i32::MAX,
        ensures
            r == self.width() * self.height(),
    {
        self.x_dim * self.y_dim
    }

    /// Gets the numpy-style shape in (rows, columns).
    pub fn get_numpy_shape(&self) -> (r: (usize, usize))
        ensures
            r.0 == self.height() as usize,
            r.1 == self.width() as usize,
    {
        (self.y_dim as usize, self.x_dim as usize)
    }

    /// Gets the numpy-style shape with the trailing color channel: (rows, columns, 3).
    pub fn get_numpy_shape_color(&self) -> (r: (usize, usize, usize))
        ensures
            r.0 == self.height() as usize,
            r.1 == self.width() as usize,
            r.2 == 3,
    {
        (self.y_dim as usize, self.x_dim as usize, 3)
    }

    /// The offset (in pixels, as (x, y)) of the pixel with the given row-major
    /// index from the pixel at the window's center, with the signed division
    /// and remainder of Rust (rounding toward zero).
    pub open spec fn spec_pixel_offset(self, pixel_index: int) -> (int, int) {
        (
            rem_toward_zero(pixel_index, self.width()) - div_toward_zero(self.width(), 2),
            div_toward_zero(pixel_index, self.width()) - div_toward_zero(self.height(), 2),
        )
    }

    /// Gets the offset (x, y) of a pixel from the window's center pixel, as the
    /// iteration field places it in the complex plane. The width must not be
    /// zero (it divides the index), and the arithmetic must stay within `i32`.
    pub fn get_pixel_offset(&self, pixel_index: i32) -> (r: (i32, i32))
        requires
            self.width() != 0,
            !(pixel_index == i32::MIN && self.width() == -1),
            i32::MIN <= self.spec_pixel_offset(pixel_index as int).0 <= i32::MAX,
            i32::MIN <= self.spec_pixel_offset(pixel_index as int).1 <= i32::MAX,
        ensures
            r.0 == self.spec_pixel_offset(pixel_index as int).0,
            r.1 == self.spec_pixel_offset(pixel_index as int).1,
    {
        proof {
            lemma_div_toward_zero_bounds(pixel_index as int, self.width());
        }
        let y_pos = pixel_index / self.x_dim - self.y_dim / 2;
        let x_pos = pixel_index % self.x_dim - self.x_dim / 2;
        (x_pos, y_pos)
    }
}

/// Integer division rounding toward zero, as `/` on Rust's signed integers.
pub open spec fn div_toward_zero(a: int, b: int) -> int {
    if a >= 0 {
        a / b
    } else {
        -((-a) / b)
    }
}

/// What division toward zero means: quotient times divisor plus remainder
/// gives the dividend back, the remainder is smaller in magnitude than the
/// divisor, and it is never of the opposite sign to the dividend.
pub proof fn lemma_div_rem_toward_zero(a: int, b: int)
    requires
        b != 0,
    ensures
        b * div_toward_zero(a, b) + rem_toward_zero(a, b) == a,
        a >= 0 ==> 0 <= rem_toward_zero(a, b) && (b > 0 ==> rem_toward_zero(a, b) < b) && (b < 0
            ==> rem_toward_zero(a, b) < -b),
        a < 0 ==> rem_toward_zero(a, b) <= 0 && (b > 0 ==> -b < rem_toward_zero(a, b)) && (b < 0 ==> b
            < rem_toward_zero(a, b)),
{
    let x = if a >= 0 { a } else { -a };
    vstd::arithmetic::div_mod::lemma_fundamental_div_mod(x, b);
    if b > 0 {
        vstd::arithmetic::div_mod::lemma_mod_bound(x, b);
    } else {
        assert(0 <= x % b < -b) by (nonlinear_arith)
            requires
                b < 0,
        ;
    }
    if a < 0 {
        assert(b * (-(x / b)) == -(b * (x / b))) by (nonlinear_arith);
    }
}

/// A quotient of `i32` values rounded toward zero is an `i32`, except for
/// `i32::MIN / -1`.
proof fn lemma_div_toward_zero_bounds(a: int, b: int)
    requires
        i32::MIN <= a <= i32::MAX,
        i32::MIN <= b <= i32::MAX,
        b != 0,
        !(a == i32::MIN && b == -1),
    ensures
        i32::MIN <= div_toward_zero(a, b) <= i32::MAX,
{
    if a >= 0 {
        if b > 0 {
            assert(0 <= a / b <= a) by (nonlinear_arith)
                requires
                    a >= 0,
                    b > 0,
            ;
        } else {
            assert(-a <= a / b <= 0) by (nonlinear_arith)
                requires
                    a >= 0,
                    b < 0,
            ;
        }
    } else {
        let x = -a;
        if b > 0 {
            assert(0 <= x / b <= x) by (nonlinear_arith)
                requires
                    x > 0,
                    b > 0,
            ;
        } else if b == -1 {
            assert(x / b == -x) by (nonlinear_arith)
                requires
                    b == -1,
            ;
        } else {
            assert(-x <= 2 * (x / b) <= 0) by (nonlinear_arith)
                requires
                    x > 0,
                    b <= -2,
            ;
        }
    }
}

/// The remainder that goes with [`div_toward_zero`]: it takes the sign of the
/// dividend, as `%` on Rust's signed integers.
pub open spec fn rem_toward_zero(a: int, b: int) -> int {
    if a >= 0 {
        a % b
    } else {
        -((-a) % b)
    }
}

/// Pixels are laid out row by row: the pixel in row `row` and column `column`
/// has index `row * width + column`, and its offset from the center is
/// `(column - width / 2, row - height / 2)`. The center pixel has offset (0, 0).
pub proof fn lemma_pixel_layout(window: WindowExtension, row: int, column: int)
    requires
        window.width() > 0,
        window.height() > 0,
        0 <= row < window.height(),
        0 <= column < window.width(),
    ensures
        window.spec_pixel_offset(row * window.width() + column) == (column - window.width() / 2,
            row - window.height() / 2),
        window.spec_pixel_offset((window.height() / 2) * window.width() + window.width() / 2) == (0int, 0int),
{
    let w = window.width();
    vstd::arithmetic::div_mod::lemma_fundamental_div_mod_converse(row * w + column, w, row, column);
    vstd::arithmetic::div_mod::lemma_fundamental_div_mod_converse(
        (window.height() / 2) * w + w / 2,
        w,
        window.height() / 2,
        w / 2,
    );
}

/// The numpy shape of a window describes exactly its pixels: rows times
/// columns is the amount of pixels, so a row-major buffer of one value per
/// pixel (three for colors) fills the shape.
pub proof fn lemma_shape_matches_pixels(window: WindowExtension)
    requires
        window.width() >= 0,
        window.height() >= 0,
    ensures
        (window.height() as usize) as int * (window.width() as usize) as int == window.width()
            * window.height(),
        (window.height() as usize) as int * (window.width() as usize) as int * 3 == 3 * (
        window.width() * window.height()),
{
    let w = window.width();
    let h = window.height();
    assert(h * w == w * h) by (nonlinear_arith);
    assert(h * w * 3 == 3 * (w * h)) by (nonlinear_arith);
}

} // verus!
