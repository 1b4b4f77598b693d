//! The image grid, its orientation correction, and the full sort pass.
//!
//! A grid is a row-major rectangle of pixels. The source grid is read
//! only; every pass allocates a fresh output grid. Orientation codes
//! come from embedded metadata: only codes 3, 6 and 8 rotate the grid
//! (by 180, 90 and 270 degrees clockwise); every other code, and an
//! absent code, leaves it untouched.

use vstd::prelude::*;
use vstd::arithmetic::div_mod::lemma_fundamental_div_mod_converse;

use crate::line::{line_out, line_out_at, sort_line};
use crate::pixel::Pixel;
use crate::settings::{Direction, SortSettings};

verus! {

/// A rectangle of pixels, stored row-major: the pixel at column `x` of
/// row `y` is `pixels[y * width + x]`.
#[derive(Debug)]
pub struct Grid {
    pub width: usize,
    pub height: usize,
    pub pixels: Vec<Pixel>,
}

/// Row `y` of a row-major pixel rectangle of width `w`.
pub open spec fn row_of(w: int, ps: Seq<Pixel>, y: int) -> Seq<Pixel> {
    Seq::new(w as nat, |x: int| ps[y * w + x])
}

/// Column `x` of a row-major pixel rectangle of width `w` and height `h`.
pub open spec fn col_of(w: int, h: int, ps: Seq<Pixel>, x: int) -> Seq<Pixel> {
    Seq::new(h as nat, |y: int| ps[y * w + x])
}

impl Grid {
    /// The grid invariant: the pixel store covers the rectangle exactly.
    pub open spec fn wf(self) -> bool {
        self.pixels@.len() == self.width * self.height
    }

    /// The pixel at column `x` of row `y`.
    pub open spec fn pix(self, x: int, y: int) -> Pixel {
        self.pixels@[y * self.width + x]
    }

    /// Build a grid from its dimensions and a row-major pixel store.
    pub fn from_pixels(width: usize, height: usize, pixels: Vec<Pixel>) -> (g: Grid)
        requires
            pixels@.len() == width * height,
        ensures
            g.wf(),
            g.width == width,
            g.height == height,
            g.pixels@ == pixels@,
    {
        Grid { width, height, pixels }
    }

    /// Read the pixel at column `x` of row `y`.
    pub fn get(&self, x: usize, y: usize) -> (p: Pixel)
        requires
            self.wf(),
            x < self.width,
            y < self.height,
        ensures
            p == self.pix(x as int, y as int),
    {
        let n = self.pixels.len();
        proof {
            lemma_flat_index(self.width as int, self.height as int, x as int, y as int);
        }
        assert(y * self.width + x < n);
        self.pixels[y * self.width + x]
    }
}

/// Multiplication distributes over adding one.
proof fn lemma_mul_succ(a: int, b: int)
    ensures
        (a + 1) * b == a * b + b,
{
    assert((a + 1) * b == a * b + b) by (nonlinear_arith);
}

/// A flat index decomposes as row times width plus column.
pub proof fn lemma_flat_index(w: int, h: int, x: int, y: int)
    requires
        0 <= x < w,
        0 <= y < h,
    ensures
        0 <= y * w + x < w * h,
        (y * w + x) / w == y,
        (y * w + x) % w == x,
{
    assert(0 <= y * w + x < w * h) by (nonlinear_arith)
        requires
            0 <= x < w,
            0 <= y < h,
    ;
    lemma_fundamental_div_mod_converse(y * w + x, w, y, x);
}

/// The grid rotated 90 degrees clockwise: the output is `h` wide and
/// `w` tall, and the output pixel at `(x, y)` is the input pixel at
/// `(y, h - 1 - x)`.
pub open spec fn rotate90_spec(w: int, h: int, ps: Seq<Pixel>) -> Seq<Pixel> {
    Seq::new((w * h) as nat, |j: int| ps[(h - 1 - j % h) * w + j / h])
}

/// The grid rotated 180 degrees: same dimensions, and the output pixel
/// at `(x, y)` is the input pixel at `(w - 1 - x, h - 1 - y)`.
pub open spec fn rotate180_spec(w: int, h: int, ps: Seq<Pixel>) -> Seq<Pixel> {
    Seq::new((w * h) as nat, |j: int| ps[(h - 1 - j / w) * w + (w - 1 - j % w)])
}

/// The grid rotated 270 degrees clockwise: the output is `h` wide and
/// `w` tall, and the output pixel at `(x, y)` is the input pixel at
/// `(w - 1 - y, x)`.
pub open spec fn rotate270_spec(w: int, h: int, ps: Seq<Pixel>) -> Seq<Pixel> {
    Seq::new((w * h) as nat, |j: int| ps[(j % h) * w + (w - 1 - j / h)])
}

/// Copy a pixel store.
fn copy_pixels(v: &Vec<Pixel>) -> (out: Vec<Pixel>)
    ensures
        out@ == v@,
{
    let mut out: Vec<Pixel> = Vec::new();
    let mut i: usize = 0;
    while i < v.len()
        invariant
            i <= v@.len(),
            out@.len() == i,
            forall|j: int| 0 <= j < i ==> #[trigger] out@[j] == v@[j],
        decreases v@.len() - i,
    {
        out.push(v[i]);
        i = i + 1;
    }
    assert(out@ =~= v@);
    out
}

/// Rotate the grid 90 degrees clockwise. Pixel values are preserved
/// exactly; only the geometry changes.
pub fn rotate90(img: &Grid) -> (out: Grid)
    requires
        img.wf(),
    ensures
        out.wf(),
        out.width == img.height,
        out.height == img.width,
        out.pixels@ == rotate90_spec(img.width as int, img.height as int, img.pixels@),
{
    let w = img.width;
    let h = img.height;
    let ghost spec = rotate90_spec(w as int, h as int, img.pixels@);
    let mut ps: Vec<Pixel> = Vec::new();
    let mut y: usize = 0;
    while y < w
        invariant
            y <= w,
            w == img.width,
            h == img.height,
            img.wf(),
            spec == rotate90_spec(w as int, h as int, img.pixels@),
            ps@.len() == y * h,
            forall|j: int| 0 <= j < y * h ==> #[trigger] ps@[j] == spec[j],
        decreases w - y,
    {
        let mut x: usize = 0;
        while x < h
            invariant
                x <= h,
                y < w,
                w == img.width,
                h == img.height,
                img.wf(),
                spec == rotate90_spec(w as int, h as int, img.pixels@),
                ps@.len() == y * h + x,
                forall|j: int| 0 <= j < y * h + x ==> #[trigger] ps@[j] == spec[j],
            decreases h - x,
        {
            ps.push(img.get(y, h - 1 - x));
            proof {
                let j = y * h + x;
                lemma_flat_index(h as int, w as int, x as int, y as int);
                lemma_flat_index(w as int, h as int, y as int, h - 1 - x);
            }
            x = x + 1;
        }
        proof {
            lemma_mul_succ(y as int, h as int);
        }
        y = y + 1;
    }
    proof {
        lemma_mul_commute(w as int, h as int);
        assert(ps@ =~= spec);
    }
    Grid { width: h, height: w, pixels: ps }
}

/// Rotate the grid 180 degrees. Pixel values are preserved exactly;
/// only the geometry changes.
pub fn rotate180(img: &Grid) -> (out: Grid)
    requires
        img.wf(),
    ensures
        out.wf(),
        out.width == img.width,
        out.height == img.height,
        out.pixels@ == rotate180_spec(img.width as int, img.height as int, img.pixels@),
{
    let w = img.width;
    let h = img.height;
    let ghost spec = rotate180_spec(w as int, h as int, img.pixels@);
    let mut ps: Vec<Pixel> = Vec::new();
    let mut y: usize = 0;
    while y < h
        invariant
            y <= h,
            w == img.width,
            h == img.height,
            img.wf(),
            spec == rotate180_spec(w as int, h as int, img.pixels@),
            ps@.len() == y * w,
            forall|j: int| 0 <= j < y * w ==> #[trigger] ps@[j] == spec[j],
        decreases h - y,
    {
        let mut x: usize = 0;
        while x < w
            invariant
                x <= w,
                y < h,
                w == img.width,
                h == img.height,
                img.wf(),
                spec == rotate180_spec(w as int, h as int, img.pixels@),
                ps@.len() == y * w + x,
                forall|j: int| 0 <= j < y * w + x ==> #[trigger] ps@[j] == spec[j],
            decreases w - x,
        {
            ps.push(img.get(w - 1 - x, h - 1 - y));
            proof {
                let j = y * w + x;
                lemma_flat_index(w as int, h as int, x as int, y as int);
                lemma_flat_index(w as int, h as int, w - 1 - x, h - 1 - y);
            }
            x = x + 1;
        }
        proof {
            lemma_mul_succ(y as int, w as int);
        }
        y = y + 1;
    }
    proof {
        lemma_mul_commute(h as int, w as int);
        assert(ps@ =~= spec);
    }
    Grid { width: w, height: h, pixels: ps }
}

/// Rotate the grid 270 degrees clockwise. Pixel values are preserved
/// exactly; only the geometry changes.
pub fn rotate270(img: &Grid) -> (out: Grid)
    requires
        img.wf(),
    ensures
        out.wf(),
        out.width == img.height,
        out.height == img.width,
        out.pixels@ == rotate270_spec(img.width as int, img.height as int, img.pixels@),
{
    let w = img.width;
    let h = img.height;
    let ghost spec = rotate270_spec(w as int, h as int, img.pixels@);
    let mut ps: Vec<Pixel> = Vec::new();
    let mut y: usize = 0;
    while y < w
        invariant
            y <= w,
            w == img.width,
            h == img.height,
            img.wf(),
            spec == rotate270_spec(w as int, h as int, img.pixels@),
            ps@.len() == y * h,
            forall|j: int| 0 <= j < y * h ==> #[trigger] ps@[j] == spec[j],
        decreases w - y,
    {
        let mut x: usize = 0;
        while x < h
            invariant
                x <= h,
                y < w,
                w == img.width,
                h == img.height,
                img.wf(),
                spec == rotate270_spec(w as int, h as int, img.pixels@),
                ps@.len() == y * h + x,
                forall|j: int| 0 <= j < y * h + x ==> #[trigger] ps@[j] == spec[j],
            decreases h - x,
        {
            ps.push(img.get(w - 1 - y, x));
            proof {
                let j = y * h + x;
                lemma_flat_index(h as int, w as int, x as int, y as int);
                lemma_flat_index(w as int, h as int, w - 1 - y, x as int);
            }
            x = x + 1;
        }
        proof {
            lemma_mul_succ(y as int, h as int);
        }
        y = y + 1;
    }
    proof {
        lemma_mul_commute(w as int, h as int);
        assert(ps@ =~= spec);
    }
    Grid { width: h, height: w, pixels: ps }
}

/// Multiplication commutes.
proof fn lemma_mul_commute(a: int, b: int)
    ensures
        a * b == b * a,
{
    assert(a * b == b * a) by (nonlinear_arith);
}

/// The width of the grid after orientation correction: rotations by 90
/// or 270 degrees (codes 6 and 8) swap the dimensions.
pub open spec fn oriented_width(w: int, h: int, code: Option<u32>) -> int {
    if code == Some(6u32) || code == Some(8u32) {
        h
    } else {
        w
    }
}

/// The height of the grid after orientation correction.
pub open spec fn oriented_height(w: int, h: int, code: Option<u32>) -> int {
    if code == Some(6u32) || code == Some(8u32) {
        w
    } else {
        h
    }
}

/// The pixel store after orientation correction: code 3 rotates 180
/// degrees, 6 rotates 90, 8 rotates 270; every other code, and an
/// absent one, is the identity.
pub open spec fn orient_spec(w: int, h: int, ps: Seq<Pixel>, code: Option<u32>) -> Seq<Pixel> {
    if code == Some(3u32) {
        rotate180_spec(w, h, ps)
    } else if code == Some(6u32) {
        rotate90_spec(w, h, ps)
    } else if code == Some(8u32) {
        rotate270_spec(w, h, ps)
    } else {
        ps
    }
}

/// Correct the grid for an embedded orientation code: rotate by 180,
/// 90 or 270 degrees for codes 3, 6 and 8, and return the grid
/// unchanged for any other code or for none.
pub fn apply_orientation(img: &Grid, orientation: Option<u32>) -> (out: Grid)
    requires
        img.wf(),
    ensures
        out.wf(),
        out.width == oriented_width(img.width as int, img.height as int, orientation),
        out.height == oriented_height(img.width as int, img.height as int, orientation),
        out.pixels@ == orient_spec(img.width as int, img.height as int, img.pixels@, orientation),
{
    match orientation {
        Some(3u32) => rotate180(img),
        Some(6u32) => rotate90(img),
        Some(8u32) => rotate270(img),
        _ => Grid { width: img.width, height: img.height, pixels: copy_pixels(&img.pixels) },
    }
}

/// The pixel store after the sort pass: along the chosen axis, each
/// line is segmented into spans and each closed span of at least two
/// pixels is rewritten in the requested order.
pub open spec fn sorted_pixels_spec(w: int, h: int, ps: Seq<Pixel>, s: SortSettings) -> Seq<
    Pixel,
> {
    Seq::new(
        (w * h) as nat,
        |j: int|
            match s.direction {
                Direction::Horizontal => line_out_at(
                    row_of(w, ps, j / w),
                    s.lower_threshold,
                    s.upper_threshold,
                    s.order,
                    j % w,
                ),
                Direction::Vertical => line_out_at(
                    col_of(w, h, ps, j % w),
                    s.lower_threshold,
                    s.upper_threshold,
                    s.order,
                    j / w,
                ),
            },
    )
}

/// Under a horizontal scan, each row of the sorted pixel store is
/// exactly the input row run through the line pass.
pub proof fn lemma_sorted_row(w: int, h: int, ps: Seq<Pixel>, s: SortSettings, y: int)
    requires
        s.direction == Direction::Horizontal,
        0 <= w,
        0 <= y < h,
        ps.len() == w * h,
    ensures
        row_of(w, sorted_pixels_spec(w, h, ps, s), y) == line_out(
            row_of(w, ps, y),
            s.lower_threshold,
            s.upper_threshold,
            s.order,
        ),
{
    let lhs = row_of(w, sorted_pixels_spec(w, h, ps, s), y);
    let rhs = line_out(row_of(w, ps, y), s.lower_threshold, s.upper_threshold, s.order);
    assert forall|x: int| 0 <= x < lhs.len() implies #[trigger] lhs[x] == rhs[x] by {
        lemma_flat_index(w, h, x, y);
    }
    assert(lhs =~= rhs);
}

/// Under a vertical scan, each column of the sorted pixel store is
/// exactly the input column run through the line pass.
pub proof fn lemma_sorted_col(w: int, h: int, ps: Seq<Pixel>, s: SortSettings, x: int)
    requires
        s.direction == Direction::Vertical,
        0 <= h,
        0 <= x < w,
        ps.len() == w * h,
    ensures
        col_of(w, h, sorted_pixels_spec(w, h, ps, s), x) == line_out(
            col_of(w, h, ps, x),
            s.lower_threshold,
            s.upper_threshold,
            s.order,
        ),
{
    let lhs = col_of(w, h, sorted_pixels_spec(w, h, ps, s), x);
    let rhs = line_out(col_of(w, h, ps, x), s.lower_threshold, s.upper_threshold, s.order);
    assert forall|y: int| 0 <= y < lhs.len() implies #[trigger] lhs[y] == rhs[y] by {
        lemma_flat_index(w, h, x, y);
    }
    assert(lhs =~= rhs);
}

/// A boundary pixel of the grid is never reordered: wherever the
/// input pixel's luminance lies outside the threshold window, the
/// output of the sort pass is bit-identical to the input.
pub proof fn lemma_sort_boundary_unchanged(
    w: int,
    h: int,
    ps: Seq<Pixel>,
    s: SortSettings,
    x: int,
    y: int,
)
    requires
        0 <= x < w,
        0 <= y < h,
        ps.len() == w * h,
        crate::pixel::is_boundary(ps[y * w + x], s.lower_threshold, s.upper_threshold),
    ensures
        sorted_pixels_spec(w, h, ps, s)[y * w + x] == ps[y * w + x],
{
    lemma_flat_index(w, h, x, y);
}

/// Extract row `y` of the grid.
fn extract_row(img: &Grid, y: usize) -> (row: Vec<Pixel>)
    requires
        img.wf(),
        y < img.height,
    ensures
        row@ == row_of(img.width as int, img.pixels@, y as int),
{
    let mut row: Vec<Pixel> = Vec::new();
    let mut x: usize = 0;
    while x < img.width
        invariant
            x <= img.width,
            y < img.height,
            img.wf(),
            row@.len() == x,
            forall|k: int| 0 <= k < x ==> #[trigger] row@[k] == img.pix(k, y as int),
        decreases img.width - x,
    {
        row.push(img.get(x, y));
        x = x + 1;
    }
    assert(row@ =~= row_of(img.width as int, img.pixels@, y as int));
    row
}

/// Extract column `x` of the grid.
fn extract_col(img: &Grid, x: usize) -> (col: Vec<Pixel>)
    requires
        img.wf(),
        x < img.width,
    ensures
        col@ == col_of(img.width as int, img.height as int, img.pixels@, x as int),
{
    let mut col: Vec<Pixel> = Vec::new();
    let mut y: usize = 0;
    while y < img.height
        invariant
            y <= img.height,
            x < img.width,
            img.wf(),
            col@.len() == y,
            forall|k: int| 0 <= k < y ==> #[trigger] col@[k] == img.pix(x as int, k),
        decreases img.height - y,
    {
        col.push(img.get(x, y));
        y = y + 1;
    }
    assert(col@ =~= col_of(img.width as int, img.height as int, img.pixels@, x as int));
    col
}

/// Sort the image: scan each line along the chosen axis, segment it
/// into spans at boundary pixels, and rewrite every closed span of at
/// least two pixels in the requested order. The output grid has the
/// input's dimensions exactly; the source grid is never mutated.
pub fn sort_img(img: &Grid, settings: &SortSettings) -> (out: Grid)
    requires
        img.wf(),
        settings.wf(),
    ensures
        out.wf(),
        out.width == img.width,
        out.height == img.height,
        out.pixels@ == sorted_pixels_spec(
            img.width as int,
            img.height as int,
            img.pixels@,
            *settings,
        ),
{
    let w = img.width;
    let h = img.height;
    let lo = settings.lower_threshold;
    let hi = settings.upper_threshold;
    let ord = settings.order;
    let ghost spec = sorted_pixels_spec(w as int, h as int, img.pixels@, *settings);
    match settings.direction {
        Direction::Horizontal => {
            let mut ps: Vec<Pixel> = Vec::new();
            let mut y: usize = 0;
            while y < h
                invariant
                    y <= h,
                    w == img.width,
                    h == img.height,
                    img.wf(),
                    settings.direction == Direction::Horizontal,
                    lo == settings.lower_threshold,
                    hi == settings.upper_threshold,
                    ord == settings.order,
                    spec == sorted_pixels_spec(w as int, h as int, img.pixels@, *settings),
                    ps@.len() == y * w,
                    forall|j: int| 0 <= j < y * w ==> #[trigger] ps@[j] == spec[j],
                decreases h - y,
            {
                let row = extract_row(img, y);
                let mut sorted = sort_line(&row, lo, hi, ord);
                ps.append(&mut sorted);
                proof {
                    assert forall|j: int| y * w <= j < y * w + w implies #[trigger] ps@[j]
                        == spec[j] by {
                        lemma_fundamental_div_mod_converse(j, w as int, y as int, j - y * w);
                        lemma_flat_index(w as int, h as int, j - y * w, y as int);
                    }
                    lemma_mul_succ(y as int, w as int);
                }
                y = y + 1;
            }
            proof {
                lemma_mul_commute(w as int, h as int);
                assert(ps@ =~= spec);
            }
            Grid { width: w, height: h, pixels: ps }
        },
        Direction::Vertical => {
            let mut ps: Vec<Pixel> = copy_pixels(&img.pixels);
            let total = ps.len();
            let mut x: usize = 0;
            while x < w
                invariant
                    x <= w,
                    w == img.width,
                    h == img.height,
                    img.wf(),
                    settings.direction == Direction::Vertical,
                    lo == settings.lower_threshold,
                    hi == settings.upper_threshold,
                    ord == settings.order,
                    spec == sorted_pixels_spec(w as int, h as int, img.pixels@, *settings),
                    total == w * h,
                    ps@.len() == total,
                    forall|j: int|
                        0 <= j < w * h && j % (w as int) < x ==> #[trigger] ps@[j] == spec[j],
                    forall|j: int|
                        0 <= j < w * h && j % (w as int) >= x ==> #[trigger] ps@[j]
                            == img.pixels@[j],
                decreases w - x,
            {
                let col = extract_col(img, x);
                let sorted = sort_line(&col, lo, hi, ord);
                let mut k: usize = 0;
                while k < h
                    invariant
                        k <= h,
                        x < w,
                        w == img.width,
                        h == img.height,
                        img.wf(),
                        settings.direction == Direction::Vertical,
                        lo == settings.lower_threshold,
                        hi == settings.upper_threshold,
                        ord == settings.order,
                        spec == sorted_pixels_spec(w as int, h as int, img.pixels@, *settings),
                        sorted@ == line_out(
                            col_of(w as int, h as int, img.pixels@, x as int),
                            lo,
                            hi,
                            ord,
                        ),
                        sorted@.len() == h,
                        total == w * h,
                        ps@.len() == total,
                        forall|j: int|
                            0 <= j < w * h && j % (w as int) < x ==> #[trigger] ps@[j] == spec[j],
                        forall|j: int|
                            0 <= j < w * h && j % (w as int) == x && j / (w as int) < k
                                ==> #[trigger] ps@[j] == spec[j],
                        forall|j: int|
                            0 <= j < w * h && j % (w as int) > x ==> #[trigger] ps@[j]
                                == img.pixels@[j],
                    decreases h - k,
                {
                    proof {
                        lemma_flat_index(w as int, h as int, x as int, k as int);
                    }
                    assert(k * w + x < total);
                    ps.set(k * w + x, sorted[k]);
                    proof {
                        assert forall|j: int|
                            0 <= j < w * h && j % (w as int) == x && j / (w as int) < k + 1
                                implies ps@[j] == spec[j] by {
                            if j / (w as int) == k {
                                vstd::arithmetic::div_mod::lemma_fundamental_div_mod(
                                    j,
                                    w as int,
                                );
                                lemma_mul_commute(k as int, w as int);
                                assert(j == k * w + x);
                            }
                        }
                    }
                    k = k + 1;
                }
                proof {
                    assert forall|j: int|
                        0 <= j < w * h && j % (w as int) < x + 1 implies ps@[j] == spec[j] by {
                        if j % (w as int) == x {
                            let q = j / (w as int);
                            let r = j % (w as int);
                            vstd::arithmetic::div_mod::lemma_fundamental_div_mod(j, w as int);
                            assert(q < h) by (nonlinear_arith)
                                requires
                                    j == (w as int) * q + r,
                                    0 <= r,
                                    j < (w as int) * (h as int),
                                    (w as int) > 0,
                            ;
                        }
                    }
                }
                x = x + 1;
            }
            proof {
                assert forall|j: int| 0 <= j < w * h implies ps@[j] == spec[j] by {
                    assert(j % (w as int) < w) by {
                        assert(w > 0) by (nonlinear_arith)
                            requires
                                0 <= j < w * h,
                        ;
                        vstd::arithmetic::div_mod::lemma_mod_bound(j, w as int);
                    }
                }
                assert(ps@ =~= spec);
            }
            Grid { width: w, height: h, pixels: ps }
        },
    }
}

} // verus!
