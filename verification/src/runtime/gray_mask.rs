//! An 8-bit grayscale canvas and the drawing primitives that wipe masks are
//! made of. Every primitive clips to the canvas.

use vstd::prelude::*;

verus! {

/// A grayscale image, row by row, one byte per pixel.
#[derive(Debug, Clone)]
pub struct GrayMask {
    pub width: u32,
    pub height: u32,
    pub pixels: Vec<u8>,
}

/// The tone that is stored for `gray`: itself, or its complement.
pub open spec fn tone(gray: int, reverse: bool) -> int {
    if reverse {
        255 - gray
    } else {
        gray
    }
}

/// The larger of two integers.
pub open spec fn larger(a: int, b: int) -> int {
    if a >= b {
        a
    } else {
        b
    }
}

/// The smaller of two integers.
pub open spec fn smaller(a: int, b: int) -> int {
    if a <= b {
        a
    } else {
        b
    }
}

/// The distance between two integers.
pub open spec fn distance(a: int, b: int) -> int {
    if a <= b {
        b - a
    } else {
        a - b
    }
}

/// Whether `v` lies between `a` and `b`, ends included, in whichever order
/// the two ends are given.
pub open spec fn between(a: int, v: int, b: int) -> bool {
    smaller(a, b) <= v <= larger(a, b)
}

/// Whether a canvas of this size can be held: it has a pixel, and no more bytes
/// than a `Vec` can have on a machine of 32 bits, so that signed 32-bit
/// arithmetic can index it.
pub open spec fn size_fits(width: int, height: int) -> bool {
    1 <= width && 1 <= height && width * height <= i32::MAX
}

/// One step of the line walk. `run` and `rise` are the line's extents and
/// `a`, `b` the steps already made along each; `err` is
/// `(b + 1) * run - (a + 1) * rise`. True if the next step advances along the run.
pub open spec fn line_runs(run: int, rise: int, a: int, b: int) -> bool {
    2 * ((b + 1) * run - (a + 1) * rise) >= -rise
}

/// True if the next step of the line walk advances along the rise.
pub open spec fn line_rises(run: int, rise: int, a: int, b: int) -> bool {
    2 * ((b + 1) * run - (a + 1) * rise) <= run
}

/// Whether the line walk that stands at `(a, b)` visits `(p, q)` on its way to
/// `(run, rise)`.
pub open spec fn line_visits(run: int, rise: int, a: int, b: int, p: int, q: int) -> bool
    decreases (run - a) + (rise - b) + 2,
{
    if a > run || b > rise {
        false
    } else if p == a && q == b {
        true
    } else if a == run && b == rise {
        false
    } else {
        let a2 = if line_runs(run, rise, a, b) { a + 1 } else { a };
        let b2 = if line_rises(run, rise, a, b) { b + 1 } else { b };
        if a2 + b2 > a + b {
            line_visits(run, rise, a2, b2, p, q)
        } else {
            false
        }
    }
}

/// Whether the line from `(x0, y0)` to `(x1, y1)`, of which `a` and `b` steps
/// have been made, has `(x, y)` still ahead.
pub open spec fn line_ahead(
    x0: int,
    y0: int,
    x1: int,
    y1: int,
    a: int,
    b: int,
    x: int,
    y: int,
) -> bool {
    line_visits(
        distance(x0, x1),
        distance(y0, y1),
        a,
        b,
        if x0 < x1 { x - x0 } else { x0 - x },
        if y0 < y1 { y - y0 } else { y0 - y },
    )
}

/// Whether the line from `(x0, y0)` to `(x1, y1)` covers `(x, y)`.
pub open spec fn on_line(x0: int, y0: int, x1: int, y1: int, x: int, y: int) -> bool {
    line_ahead(x0, y0, x1, y1, 0, 0, x, y)
}

/// Whether the outline of the box with these corners covers `(x, y)`: its two
/// horizontal edges, and its two vertical edges without their end pixels.
pub open spec fn on_outline(x1: int, y1: int, x2: int, y2: int, x: int, y: int) -> bool {
    ||| (y == y1 || y == y2) && between(x1, x, x2)
    ||| (x == x1 || x == x2) && between(y1 + 1, y, y2 - 1)
}

pub proof fn lemma_line_horizontal(n: int, a: int, p: int, q: int)
    requires
        0 <= a <= n,
    ensures
        line_visits(n, 0, a, 0, p, q) == (q == 0 && a <= p <= n),
    decreases n - a,
{
    if a < n {
        assert((0 + 1) * n - (a + 1) * 0 == n) by (nonlinear_arith);
        assert(line_runs(n, 0, a, 0));
        assert(!line_rises(n, 0, a, 0));
        lemma_line_horizontal(n, a + 1, p, q);
    }
}

pub proof fn lemma_line_vertical(n: int, b: int, p: int, q: int)
    requires
        0 <= b <= n,
    ensures
        line_visits(0, n, 0, b, p, q) == (p == 0 && b <= q <= n),
    decreases n - b,
{
    if b < n {
        assert((b + 1) * 0 - (0 + 1) * n == -n) by (nonlinear_arith);
        assert(!line_runs(0, n, 0, b));
        assert(line_rises(0, n, 0, b));
        lemma_line_vertical(n, b + 1, p, q);
    }
}

pub proof fn lemma_line_diagonal(n: int, a: int, p: int, q: int)
    requires
        0 <= a <= n,
    ensures
        line_visits(n, n, a, a, p, q) == (p == q && a <= p <= n),
    decreases n - a,
{
    if a < n {
        assert(line_runs(n, n, a, a));
        assert(line_rises(n, n, a, a));
        lemma_line_diagonal(n, a + 1, p, q);
    }
}

/// A level or upright line covers exactly the pixels between its ends.
pub proof fn lemma_straight_line(x0: int, y0: int, x1: int, y1: int, x: int, y: int)
    requires
        x0 == x1 || y0 == y1,
    ensures
        on_line(x0, y0, x1, y1, x, y) == (between(x0, x, x1) && between(y0, y, y1)),
{
    let p = if x0 < x1 { x - x0 } else { x0 - x };
    let q = if y0 < y1 { y - y0 } else { y0 - y };
    if y0 == y1 {
        lemma_line_horizontal(distance(x0, x1), 0, p, q);
    } else {
        lemma_line_vertical(distance(y0, y1), 0, p, q);
    }
}

/// Where a line walk stands inside its extents, it has a next step, and the
/// step stays inside.
pub proof fn lemma_line_step(run: int, rise: int, a: int, b: int)
    requires
        0 <= a <= run,
        0 <= b <= rise,
        !(a == run && b == rise),
    ensures
        line_runs(run, rise, a, b) || line_rises(run, rise, a, b),
        line_runs(run, rise, a, b) ==> a < run,
        line_rises(run, rise, a, b) ==> b < rise,
{
    if a == run {
        assert((b + 1) * run - (run + 1) * rise <= -rise) by (nonlinear_arith)
            requires
                b + 1 <= rise,
                0 <= run,
        ;
    }
    if b == rise {
        assert((rise + 1) * run - (a + 1) * rise >= run) by (nonlinear_arith)
            requires
                a + 1 <= run,
                0 <= rise,
        ;
    }
}

impl GrayMask {
    pub open spec fn wf(&self) -> bool {
        &&& size_fits(self.width as int, self.height as int)
        &&& self.pixels@.len() == self.width * self.height
    }

    pub open spec fn contains(&self, x: int, y: int) -> bool {
        0 <= x < self.width && 0 <= y < self.height
    }

    /// The tone of the pixel in column `x` of row `y`.
    #[verifier::opaque]
    pub open spec fn at(&self, x: int, y: int) -> u8 {
        self.pixels@[y * self.width + x]
    }

    pub open spec fn sized(&self, width: int, height: int) -> bool {
        self.wf() && self.width == width && self.height == height
    }

    /// Whether every pixel of the canvas has the tone that `image` gives it.
    pub open spec fn shows(&self, image: spec_fn(int, int) -> int) -> bool {
        forall|x: int, y: int|
            #![trigger self.at(x, y)]
            self.contains(x, y) ==> self.at(x, y) == image(x, y)
    }

    pub proof fn lemma_cell(&self, x: int, y: int)
        requires
            self.wf(),
            self.contains(x, y),
        ensures
            0 <= y * self.width + x < self.pixels@.len(),
            self.at(x, y) == self.pixels@[y * self.width + x],
            self.width <= i32::MAX,
            self.height <= i32::MAX,
            y * self.width <= i32::MAX,
    {
        let w = self.width as int;
        let h = self.height as int;
        reveal(GrayMask::at);
        assert(0 <= y * w + x < w * h && y * w <= w * h) by (nonlinear_arith)
            requires
                0 <= x < w,
                0 <= y < h,
        ;
        self.lemma_sides();
    }

    pub proof fn lemma_sides(&self)
        requires
            self.wf(),
        ensures
            self.width <= i32::MAX,
            self.height <= i32::MAX,
    {
        let w = self.width as int;
        let h = self.height as int;
        assert(w <= w * h && h <= w * h) by (nonlinear_arith)
            requires
                1 <= w,
                1 <= h,
        ;
    }

    pub fn new(width: u32, height: u32) -> (mask: GrayMask)
        requires
            size_fits(larger(width as int, 1), larger(height as int, 1)),
        ensures
            mask.sized(larger(width as int, 1), larger(height as int, 1)),
            mask.shows(|x: int, y: int| 0),
    {
        let width: u32 = if width == 0 { 1 } else { width };
        let height: u32 = if height == 0 { 1 } else { height };
        let count: usize = width as usize * height as usize;
        let mut pixels: Vec<u8> = Vec::new();
        pixels.resize(count, 0);
        let mask = GrayMask { width, height, pixels };
        proof {
            assert forall|x: int, y: int| mask.contains(x, y) implies mask.at(x, y) == 0 by {
                mask.lemma_cell(x, y);
            }
        }
        mask
    }

    pub fn get(&self, x: i32, y: i32) -> (gray: Option<u8>)
        requires
            self.wf(),
        ensures
            gray == (if self.contains(x as int, y as int) {
                Some(self.at(x as int, y as int))
            } else {
                None
            }),
    {
        if x < 0 || y < 0 || x as u32 >= self.width || y as u32 >= self.height {
            return None;
        }
        proof {
            self.lemma_cell(x as int, y as int);
        }
        Some(self.pixels[y as usize * self.width as usize + x as usize])
    }

    /// Stores `gray` at `(x, y)`, or nothing where that lies outside.
    fn put(&mut self, x: i64, y: i64, gray: u8)
        requires
            old(self).wf(),
        ensures
            final(self).sized(old(self).width as int, old(self).height as int),
            forall|a: int, b: int|
                #![trigger final(self).at(a, b)]
                old(self).contains(a, b) ==> final(self).at(a, b) == (if a == x && b == y {
                    gray
                } else {
                    old(self).at(a, b)
                }),
    {
        if x < 0 || y < 0 || x >= self.width as i64 || y >= self.height as i64 {
            return ;
        }
        proof {
            self.lemma_cell(x as int, y as int);
        }
        let index: usize = y as usize * self.width as usize + x as usize;
        let ghost before = *self;
        self.pixels.set(index, gray);
        proof {
            let w = self.width as int;
            assert forall|a: int, b: int| before.contains(a, b) implies self.at(a, b) == (if a == x
                && b == y {
                gray
            } else {
                before.at(a, b)
            }) by {
                before.lemma_cell(a, b);
                self.lemma_cell(a, b);
                if b * w + a == y * w + x {
                    assert(a == x && b == y) by (nonlinear_arith)
                        requires
                            b * w + a == y * w + x,
                            0 <= a < w,
                            0 <= x < w,
                    ;
                }
            }
        }
    }

    pub fn set(&mut self, x: i32, y: i32, gray: u8, reverse: bool)
        requires
            old(self).wf(),
        ensures
            final(self).sized(old(self).width as int, old(self).height as int),
            forall|a: int, b: int|
                #![trigger final(self).at(a, b)]
                old(self).contains(a, b) ==> final(self).at(a, b) == (if a == x && b == y {
                    tone(gray as int, reverse)
                } else {
                    old(self).at(a, b) as int
                }),
    {
        let gray: u8 = if reverse { 255 - gray } else { gray };
        self.put(x as i64, y as i64, gray);
    }

    /// Fills the box between two corners, given in any order.
    pub fn fill_box(&mut self, x1: i32, y1: i32, x2: i32, y2: i32, gray: u8, reverse: bool)
        requires
            old(self).wf(),
        ensures
            final(self).sized(old(self).width as int, old(self).height as int),
            forall|a: int, b: int|
                #![trigger final(self).at(a, b)]
                old(self).contains(a, b) ==> final(self).at(a, b) == (if between(
                    x1 as int,
                    a,
                    x2 as int,
                ) && between(y1 as int, b, y2 as int) {
                    tone(gray as int, reverse)
                } else {
                    old(self).at(a, b) as int
                }),
    {
        proof {
            self.lemma_sides();
        }
        let (xa, xb) = if x1 > x2 { (x2, x1) } else { (x1, x2) };
        let (ya, yb) = if y1 > y2 { (y2, y1) } else { (y1, y2) };
        let xa: i32 = if xa < 0 { 0 } else { xa };
        let ya: i32 = if ya < 0 { 0 } else { ya };
        let right: i32 = self.width as i32 - 1;
        let bottom: i32 = self.height as i32 - 1;
        let xb: i32 = if xb > right { right } else { xb };
        let yb: i32 = if yb > bottom { bottom } else { yb };
        let gray: u8 = if reverse { 255 - gray } else { gray };
        let mut y: i32 = ya;
        while y <= yb
            invariant
                self.sized(old(self).width as int, old(self).height as int),
                0 <= ya <= y,
                0 <= xa,
                y <= yb + 1 || y == ya,
                xb < self.width <= i32::MAX,
                yb < self.height <= i32::MAX,
                forall|a: int, b: int|
                    #![trigger self.at(a, b)]
                    self.contains(a, b) ==> self.at(a, b) == (if xa <= a <= xb && ya <= b < y {
                        gray
                    } else {
                        old(self).at(a, b)
                    }),
            decreases yb + 1 - y,
        {
            let mut x: i32 = xa;
            while x <= xb
                invariant
                    self.sized(old(self).width as int, old(self).height as int),
                    0 <= ya <= y <= yb,
                    0 <= xa <= x,
                    x <= xb + 1 || x == xa,
                    xb < self.width <= i32::MAX,
                    forall|a: int, b: int|
                        #![trigger self.at(a, b)]
                        self.contains(a, b) ==> self.at(a, b) == (if (xa <= a <= xb && ya <= b < y)
                            || (xa <= a < x && b == y) {
                            gray
                        } else {
                            old(self).at(a, b)
                        }),
                decreases xb + 1 - x,
            {
                self.put(x as i64, y as i64, gray);
                x = x + 1;
            }
            y = y + 1;
        }
    }

    /// Draws the line between two points, both ends included.
    pub fn line(&mut self, x0: i32, y0: i32, x1: i32, y1: i32, gray: u8, reverse: bool)
        requires
            old(self).wf(),
        ensures
            final(self).sized(old(self).width as int, old(self).height as int),
            forall|a: int, b: int|
                #![trigger final(self).at(a, b)]
                old(self).contains(a, b) ==> final(self).at(a, b) == (if on_line(
                    x0 as int,
                    y0 as int,
                    x1 as int,
                    y1 as int,
                    a,
                    b,
                ) {
                    tone(gray as int, reverse)
                } else {
                    old(self).at(a, b) as int
                }),
    {
        let gray: u8 = if reverse { 255 - gray } else { gray };
        let run: i64 = if x0 < x1 { x1 as i64 - x0 as i64 } else { x0 as i64 - x1 as i64 };
        let rise: i64 = if y0 < y1 { y1 as i64 - y0 as i64 } else { y0 as i64 - y1 as i64 };
        let sx: i64 = if x0 < x1 { 1 } else { -1 };
        let sy: i64 = if y0 < y1 { 1 } else { -1 };
        let mut x: i64 = x0 as i64;
        let mut y: i64 = y0 as i64;
        let mut err: i64 = run - rise;
        let ghost mut a: int = 0;
        let ghost mut b: int = 0;
        let ghost start = *self;
        proof {
            assert((0 + 1) * run - (0 + 1) * rise == run - rise) by (nonlinear_arith);
        }
        loop
            invariant_except_break
                forall|px: int, py: int|
                    #[trigger] line_ahead(x0 as int, y0 as int, x1 as int, y1 as int, a, b, px, py)
                        ==> on_line(x0 as int, y0 as int, x1 as int, y1 as int, px, py),
                forall|px: int, py: int|
                    #![trigger self.at(px, py)]
                    self.contains(px, py) && !line_ahead(x0 as int, y0 as int, x1 as int, y1 as int, a, b, px, py)
                        ==> self.at(px, py) == (if on_line(x0 as int, y0 as int, x1 as int, y1 as int, px, py) {
                        gray
                    } else {
                        start.at(px, py)
                    }),
            invariant
                self.sized(start.width as int, start.height as int),
                start.wf(),
                run == distance(x0 as int, x1 as int),
                rise == distance(y0 as int, y1 as int),
                sx == (if x0 < x1 { 1int } else { -1int }),
                sy == (if y0 < y1 { 1int } else { -1int }),
                0 <= a <= run,
                0 <= b <= rise,
                x == (if x0 < x1 { x0 + a } else { x0 - a }),
                y == (if y0 < y1 { y0 + b } else { y0 - b }),
                err == (b + 1) * run - (a + 1) * rise,
                -2 * rise <= err <= 2 * run,
            ensures
                self.sized(start.width as int, start.height as int),
                forall|px: int, py: int|
                    #![trigger self.at(px, py)]
                    self.contains(px, py) ==> self.at(px, py) == (if on_line(
                        x0 as int,
                        y0 as int,
                        x1 as int,
                        y1 as int,
                        px,
                        py,
                    ) {
                        gray
                    } else {
                        start.at(px, py)
                    }),
            decreases (run - a) + (rise - b),
        {
            let ghost x_before = x;
            let ghost y_before = y;
            self.put(x, y, gray);
            if x == x1 as i64 && y == y1 as i64 {
                proof {
                    assert forall|px: int, py: int| #[trigger]
                        line_ahead(x0 as int, y0 as int, x1 as int, y1 as int, a, b, px, py) == (px == x && py == y) by {}
                    assert(line_ahead(x0 as int, y0 as int, x1 as int, y1 as int, a, b, x as int, y as int));
                }
                break;
            }
            proof {
                lemma_line_step(run as int, rise as int, a, b);
                assert((b + 2) * run == (b + 1) * run + run) by (nonlinear_arith);
                assert((a + 2) * rise == (a + 1) * rise + rise) by (nonlinear_arith);
            }
            let e2: i64 = err * 2;
            let ghost a0 = a;
            let ghost b0 = b;
            if e2 >= -rise {
                err = err - rise;
                x = x + sx;
                proof {
                    a = a + 1;
                }
            }
            if e2 <= run {
                err = err + run;
                y = y + sy;
                proof {
                    b = b + 1;
                }
            }
            proof {
                assert forall|px: int, py: int|
                    line_ahead(x0 as int, y0 as int, x1 as int, y1 as int, a0, b0, px, py) == ((px == x_before && py == y_before) || line_ahead(x0 as int, y0 as int, x1 as int, y1 as int, a, b, px, py)) by {}
                assert forall|px: int, py: int| #[trigger]
                    line_ahead(x0 as int, y0 as int, x1 as int, y1 as int, a, b, px, py) implies on_line(x0 as int, y0 as int, x1 as int, y1 as int, px, py) by {
                    assert(line_ahead(x0 as int, y0 as int, x1 as int, y1 as int, a0, b0, px, py));
                }
            }
        }
    }

    /// Draws the outline of the box between two corners.
    pub fn empty_box(&mut self, x1: i32, y1: i32, x2: i32, y2: i32, gray: u8, reverse: bool)
        requires
            old(self).wf(),
            y1 < i32::MAX,
            y2 > i32::MIN,
        ensures
            final(self).sized(old(self).width as int, old(self).height as int),
            forall|a: int, b: int|
                #![trigger final(self).at(a, b)]
                old(self).contains(a, b) ==> final(self).at(a, b) == (if on_outline(
                    x1 as int,
                    y1 as int,
                    x2 as int,
                    y2 as int,
                    a,
                    b,
                ) {
                    tone(gray as int, reverse)
                } else {
                    old(self).at(a, b) as int
                }),
    {
        self.line(x1, y1, x2, y1, gray, reverse);
        let ghost m1 = *self;
        self.line(x1, y2, x2, y2, gray, reverse);
        let ghost m2 = *self;
        self.line(x1, y1 + 1, x1, y2 - 1, gray, reverse);
        let ghost m3 = *self;
        self.line(x2, y1 + 1, x2, y2 - 1, gray, reverse);
        proof {
            assert forall|a: int, b: int|
                #![trigger self.at(a, b)]
                old(self).contains(a, b) implies self.at(a, b) == (if on_outline(
                x1 as int,
                y1 as int,
                x2 as int,
                y2 as int,
                a,
                b,
            ) {
                tone(gray as int, reverse)
            } else {
                old(self).at(a, b) as int
            }) by {
                lemma_straight_line(x1 as int, y1 as int, x2 as int, y1 as int, a, b);
                lemma_straight_line(x1 as int, y2 as int, x2 as int, y2 as int, a, b);
                lemma_straight_line(x1 as int, y1 + 1, x1 as int, y2 - 1, a, b);
                lemma_straight_line(x2 as int, y1 + 1, x2 as int, y2 - 1, a, b);
                assert(m1.at(a, b) == m1.at(a, b) && m2.at(a, b) == m2.at(a, b) && m3.at(a, b)
                    == m3.at(a, b));
            }
        }
    }

    /// Copies `src` so that its upper left corner comes to `(dst_x, dst_y)`.
    pub fn copy_from(&mut self, src: &GrayMask, dst_x: i32, dst_y: i32)
        requires
            old(self).wf(),
            src.wf(),
        ensures
            final(self).sized(old(self).width as int, old(self).height as int),
            forall|a: int, b: int|
                #![trigger final(self).at(a, b)]
                old(self).contains(a, b) ==> final(self).at(a, b) == (if src.contains(
                    a - dst_x,
                    b - dst_y,
                ) {
                    src.at(a - dst_x, b - dst_y)
                } else {
                    old(self).at(a, b)
                }),
    {
        proof {
            src.lemma_sides();
        }
        let src_w: i32 = src.width as i32;
        let src_h: i32 = src.height as i32;
        let mut y: i32 = 0;
        while y < src_h
            invariant
                self.sized(old(self).width as int, old(self).height as int),
                src.wf(),
                src_w == src.width,
                src_h == src.height,
                0 <= y <= src_h,
                forall|a: int, b: int|
                    #![trigger self.at(a, b)]
                    self.contains(a, b) ==> self.at(a, b) == (if 0 <= a - dst_x < src_w && 0 <= b
                        - dst_y < y {
                        src.at(a - dst_x, b - dst_y)
                    } else {
                        old(self).at(a, b)
                    }),
            decreases src_h - y,
        {
            let mut x: i32 = 0;
            while x < src_w
                invariant
                    self.sized(old(self).width as int, old(self).height as int),
                    src.wf(),
                    src_w == src.width,
                    src_h == src.height,
                    0 <= y < src_h,
                    0 <= x <= src_w,
                    forall|a: int, b: int|
                        #![trigger self.at(a, b)]
                        self.contains(a, b) ==> self.at(a, b) == (if 0 <= a - dst_x < src_w && (0
                            <= b - dst_y < y || (b - dst_y == y && a - dst_x < x)) {
                            src.at(a - dst_x, b - dst_y)
                        } else {
                            old(self).at(a, b)
                        }),
                decreases src_w - x,
            {
                if let Some(gray) = src.get(x, y) {
                    self.put(dst_x as i64 + x as i64, dst_y as i64 + y as i64, gray);
                }
                x = x + 1;
            }
            y = y + 1;
        }
    }

    /// A canvas of the given size, covered with copies of this one side by side.
    pub fn tiled_to(&self, width: u32, height: u32) -> (out: GrayMask)
        requires
            self.wf(),
            size_fits(width as int, height as int),
        ensures
            out.sized(width as int, height as int),
            out.shows(
                |x: int, y: int| self.at(x % (self.width as int), y % (self.height as int)) as int,
            ),
            self.width == 1 ==> out.shows(|x: int, y: int| self.at(0, y % (self.height as int)) as int),
            self.height == 1 ==> out.shows(|x: int, y: int| self.at(x % (self.width as int), 0) as int),
            self.width == 1 && self.height == height ==> out.shows(
                |x: int, y: int| self.at(0, y) as int,
            ),
            self.height == 1 && self.width == width ==> out.shows(
                |x: int, y: int| self.at(x, 0) as int,
            ),
            self.width == width ==> out.shows(
                |x: int, y: int| self.at(x, y % (self.height as int)) as int,
            ),
            self.height == height ==> out.shows(
                |x: int, y: int| self.at(x % (self.width as int), y) as int,
            ),
    {
        let mut out = GrayMask::new(width, height);
        proof {
            self.lemma_sides();
            out.lemma_sides();
        }
        let mut y: u32 = 0;
        while y < height
            invariant
                self.wf(),
                out.sized(width as int, height as int),
                width <= i32::MAX,
                height <= i32::MAX,
                self.width <= i32::MAX,
                self.height <= i32::MAX,
                y <= height,
                forall|a: int, b: int|
                    #![trigger out.at(a, b)]
                    out.contains(a, b) && b < y ==> out.at(a, b) == self.at(
                        a % (self.width as int),
                        b % (self.height as int),
                    ),
            decreases height - y,
        {
            let sy: u32 = y % self.height;
            let mut x: u32 = 0;
            while x < width
                invariant
                    self.wf(),
                    out.sized(width as int, height as int),
                    width <= i32::MAX,
                    height <= i32::MAX,
                    self.width <= i32::MAX,
                    self.height <= i32::MAX,
                    y < height,
                    x <= width,
                    sy == y as int % (self.height as int),
                    forall|a: int, b: int|
                        #![trigger out.at(a, b)]
                        out.contains(a, b) && (b < y || (b == y && a < x)) ==> out.at(a, b)
                            == self.at(a % (self.width as int), b % (self.height as int)),
                decreases width - x,
            {
                let sx: u32 = x % self.width;
                if let Some(gray) = self.get(sx as i32, sy as i32) {
                    out.put(x as i64, y as i64, gray);
                }
                x = x + 1;
            }
            y = y + 1;
        }
        proof {
            assert forall|x: int, y: int|
                #![trigger out.at(x, y)]
                out.contains(x, y) implies {
                &&& self.width == 1 ==> x % (self.width as int) == 0
                &&& self.height == 1 ==> y % (self.height as int) == 0
                &&& self.width == width ==> x % (self.width as int) == x
                &&& self.height == height ==> y % (self.height as int) == y
            } by {
                vstd::arithmetic::div_mod::lemma_small_mod(x as nat, width as nat);
                vstd::arithmetic::div_mod::lemma_small_mod(y as nat, height as nat);
            }
        }
        out
    }
}

} // verus!
