//! Screenshot annotations drawn onto an RGBA canvas: lines, outlines, pen strokes, blur and
//! pixelate regions, and text.
use vstd::prelude::*;
use crate::text::{trim, trim_str};

verus! {

/// One RGBA pixel.
#[derive(Clone, Copy, Debug, PartialEq, Eq, Structural)]
pub struct Rgba {
    pub r: u8,
    pub g: u8,
    pub b: u8,
    pub a: u8,
}

/// An RGBA image: `pixels[y * width + x]` is the pixel at column `x`, row `y`.
#[derive(Debug)]
pub struct Canvas {
    pub width: u32,
    pub height: u32,
    pub pixels: Vec<Rgba>,
}

/// The pixel at `(x, y)` of a row-major pixel sequence of width `w`.
pub open spec fn px(p: Seq<Rgba>, w: int, x: int, y: int) -> Rgba {
    p[y * w + x]
}

impl Canvas {
    /// The pixel buffer holds exactly `width * height` pixels.
    pub open spec fn wf(&self) -> bool {
        self.pixels@.len() == (self.width as int) * (self.height as int)
    }

    pub open spec fn at(&self, x: int, y: int) -> Rgba {
        px(self.pixels@, self.width as int, x, y)
    }
}

proof fn lemma_pixel_index(w: int, h: int, x: int, y: int)
    requires
        0 <= x < w,
        0 <= y < h,
    ensures
        0 <= y * w + x < w * h,
{
    assert(0 <= y * w + x < w * h) by (nonlinear_arith)
        requires
            0 <= x < w,
            0 <= y < h,
    ;
}

proof fn lemma_pixel_index_unique(w: int, x: int, y: int, x2: int, y2: int)
    requires
        0 <= x < w,
        0 <= x2 < w,
        0 <= y,
        0 <= y2,
        y * w + x == y2 * w + x2,
    ensures
        x == x2,
        y == y2,
{
    if y < y2 {
        assert(y * w + x < y2 * w + x2) by (nonlinear_arith)
            requires
                0 <= x < w,
                0 <= x2,
                y < y2,
        ;
    } else if y2 < y {
        assert(y2 * w + x2 < y * w + x) by (nonlinear_arith)
            requires
                0 <= x2 < w,
                0 <= x,
                y2 < y,
        ;
    }
}

/// Whether `(x, y)` lies on the canvas.
pub open spec fn on_canvas(w: int, h: int, x: int, y: int) -> bool {
    0 <= x < w && 0 <= y < h
}

/// `new` has the dimensions of `old` and equals it except at the pixels where `changed`
/// holds, which hold `value`.
pub open spec fn repainted(
    old: Seq<Rgba>,
    new: Seq<Rgba>,
    w: int,
    h: int,
    changed: spec_fn(int, int) -> bool,
    value: spec_fn(int, int) -> Rgba,
) -> bool {
    &&& new.len() == old.len()
    &&& forall|x: int, y: int|
        on_canvas(w, h, x, y) ==> #[trigger] px(new, w, x, y) == if changed(x, y) {
            value(x, y)
        } else {
            px(old, w, x, y)
        }
}

fn pixel_index(c: &Canvas, x: u32, y: u32) -> (i: usize)
    requires
        c.wf(),
        x < c.width,
        y < c.height,
    ensures
        i == y * c.width + x,
        i < c.pixels@.len(),
{
    let len = c.pixels.len();
    proof {
        lemma_pixel_index(c.width as int, c.height as int, x as int, y as int);
        assert(0 <= (y as int) * (c.width as int) <= (y as int) * (c.width as int) + x as int);
    }
    (y as usize) * (c.width as usize) + (x as usize)
}

impl Canvas {
    /// The pixel at `(x, y)`.
    pub fn get(&self, x: u32, y: u32) -> (p: Rgba)
        requires
            self.wf(),
            x < self.width,
            y < self.height,
        ensures
            p == self.at(x as int, y as int),
    {
        let i = pixel_index(self, x, y);
        self.pixels[i]
    }

    /// Sets the pixel at `(x, y)`.
    pub fn put(&mut self, x: u32, y: u32, p: Rgba)
        requires
            old(self).wf(),
            x < old(self).width,
            y < old(self).height,
        ensures
            final(self).wf(),
            final(self).width == old(self).width,
            final(self).height == old(self).height,
            final(self).pixels@.len() == old(self).pixels@.len(),
            forall|xx: int, yy: int|
                on_canvas(old(self).width as int, old(self).height as int, xx, yy)
                    ==> #[trigger] final(self).at(xx, yy) == if xx == x && yy == y {
                    p
                } else {
                    old(self).at(xx, yy)
                },
    {
        let i = pixel_index(self, x, y);
        self.pixels.set(i, p);
        proof {
            let w = self.width as int;
            let h = self.height as int;
            assert forall|xx: int, yy: int| on_canvas(w, h, xx, yy) implies #[trigger] self.at(
                xx,
                yy,
            ) == if xx == x && yy == y {
                p
            } else {
                old(self).at(xx, yy)
            } by {
                lemma_pixel_index(w, h, xx, yy);
                if !(xx == x && yy == y) {
                    if yy * w + xx == y * w + x {
                        lemma_pixel_index_unique(w, xx, yy, x as int, y as int);
                    }
                }
            }
        }
    }
}

/// The canvas of an RGBA byte buffer (4 bytes per pixel, row-major); `None` unless the
/// buffer holds exactly `width * height` pixels.
pub fn canvas_from_rgba(width: u32, height: u32, raw: &[u8]) -> (r: Option<Canvas>)
    ensures
        (raw@.len() == 4 * (width as int) * (height as int)) <==> r is Some,
        r matches Some(c) ==> {
            &&& c.width == width
            &&& c.height == height
            &&& c.wf()
            &&& forall|i: int|
                0 <= i < c.pixels@.len() ==> #[trigger] c.pixels@[i] == (Rgba {
                    r: raw@[4 * i],
                    g: raw@[4 * i + 1],
                    b: raw@[4 * i + 2],
                    a: raw@[4 * i + 3],
                })
        },
{
    let w = width as u128;
    let h = height as u128;
    proof {
        assert(w * h <= 0xffff_ffffu128 * 0xffff_ffffu128) by (nonlinear_arith)
            requires
                w <= 0xffff_ffff,
                h <= 0xffff_ffff,
        ;
    }
    let count = w * h;
    proof {
        assert(4 * (count as int) == 4 * (width as int) * (height as int)) by (nonlinear_arith)
            requires
                count == w * h,
                w == width,
                h == height,
        ;
    }
    let len = raw.len();
    if 4 * count != len as u128 {
        return None;
    }
    let n = len / 4;
    let mut pixels: Vec<Rgba> = Vec::new();
    let mut i: usize = 0;
    while i < n
        invariant
            n == raw@.len() / 4,
            len == raw@.len(),
            raw@.len() == 4 * n,
            n == (width as int) * (height as int),
            i <= n,
            pixels@.len() == i,
            forall|k: int|
                0 <= k < i ==> #[trigger] pixels@[k] == (Rgba {
                    r: raw@[4 * k],
                    g: raw@[4 * k + 1],
                    b: raw@[4 * k + 2],
                    a: raw@[4 * k + 3],
                }),
        decreases n - i,
    {
        pixels.push(
            Rgba { r: raw[4 * i], g: raw[4 * i + 1], b: raw[4 * i + 2], a: raw[4 * i + 3] },
        );
        i = i + 1;
    }
    Some(Canvas { width, height, pixels })
}

/// The canvas as an RGBA byte buffer (4 bytes per pixel, row-major).
pub fn canvas_to_rgba(c: &Canvas) -> (raw: Vec<u8>)
    ensures
        raw@.len() == 4 * c.pixels@.len(),
        forall|i: int|
            0 <= i < c.pixels@.len() ==> {
                &&& #[trigger] raw@[4 * i] == c.pixels@[i].r
                &&& raw@[4 * i + 1] == c.pixels@[i].g
                &&& raw@[4 * i + 2] == c.pixels@[i].b
                &&& raw@[4 * i + 3] == c.pixels@[i].a
            },
{
    let n = c.pixels.len();
    let mut raw: Vec<u8> = Vec::new();
    let mut i: usize = 0;
    while i < n
        invariant
            n == c.pixels@.len(),
            i <= n,
            raw@.len() == 4 * i,
            forall|k: int|
                0 <= k < i ==> {
                    &&& #[trigger] raw@[4 * k] == c.pixels@[k].r
                    &&& raw@[4 * k + 1] == c.pixels@[k].g
                    &&& raw@[4 * k + 2] == c.pixels@[k].b
                    &&& raw@[4 * k + 3] == c.pixels@[k].a
                },
        decreases n - i,
    {
        let p = c.pixels[i];
        let ghost before = raw@;
        raw.push(p.r);
        raw.push(p.g);
        raw.push(p.b);
        raw.push(p.a);
        proof {
            assert forall|k: int| 0 <= k <= i implies {
                &&& #[trigger] raw@[4 * k] == c.pixels@[k].r
                &&& raw@[4 * k + 1] == c.pixels@[k].g
                &&& raw@[4 * k + 2] == c.pixels@[k].b
                &&& raw@[4 * k + 3] == c.pixels@[k].a
            } by {
                if k < i {
                    assert(raw@[4 * k] == before[4 * k]);
                    assert(raw@[4 * k + 1] == before[4 * k + 1]);
                    assert(raw@[4 * k + 2] == before[4 * k + 2]);
                    assert(raw@[4 * k + 3] == before[4 * k + 3]);
                }
            }
        }
        i = i + 1;
    }
    raw
}

/// A region of pixels: columns `x0..x1`, rows `y0..y1`.
#[derive(Clone, Copy, Debug, PartialEq, Eq, Structural)]
pub struct PixelRect {
    pub x0: u32,
    pub y0: u32,
    pub x1: u32,
    pub y1: u32,
}

impl PixelRect {
    pub open spec fn contains(self, x: int, y: int) -> bool {
        self.x0 <= x < self.x1 && self.y0 <= y < self.y1
    }

    /// The region lies on a canvas of `w` x `h`.
    pub open spec fn within(self, w: int, h: int) -> bool {
        self.x0 <= self.x1 <= w && self.y0 <= self.y1 <= h
    }
}

/// The region between bounds already rounded outward and clipped to the canvas (so the
/// near corner is not negative): `None` when it is narrower or shorter than two pixels.
pub fn pixel_rect(x0: i32, y0: i32, x1: i32, y1: i32) -> (r: Option<PixelRect>)
    requires
        0 <= x0,
        0 <= y0,
    ensures
        r is Some <==> (x1 - x0 >= 2 && y1 - y0 >= 2),
        r matches Some(rect) ==> (rect.x0 == x0 && rect.y0 == y0 && rect.x1 == x1 && rect.y1
            == y1),
{
    if (x1 as i64) - (x0 as i64) < 2 || (y1 as i64) - (y0 as i64) < 2 {
        return None;
    }
    Some(PixelRect { x0: x0 as u32, y0: y0 as u32, x1: x1 as u32, y1: y1 as u32 })
}

/// Channel `ch` (0 red, 1 green, 2 blue, 3 alpha) of a pixel.
pub open spec fn chan(p: Rgba, ch: int) -> int {
    if ch == 0 {
        p.r as int
    } else if ch == 1 {
        p.g as int
    } else if ch == 2 {
        p.b as int
    } else {
        p.a as int
    }
}

/// `v` clamped into `lo..=hi`.
pub open spec fn clamp_to(v: int, lo: int, hi: int) -> int {
    if v < lo {
        lo
    } else if v > hi {
        hi
    } else {
        v
    }
}

/// Radius of the blur's square window.
pub const BLUR_RADIUS: i32 = 6;

/// Sum of channel `ch` over the first `k` pixels of the blur window's row at offset `oy`
/// around `(x, y)`; coordinates past an edge are clamped to it.
pub open spec fn blur_row_sum(p: Seq<Rgba>, w: int, h: int, x: int, y: int, oy: int, k: nat, ch: int) -> int
    decreases k,
{
    if k == 0 {
        0
    } else {
        blur_row_sum(p, w, h, x, y, oy, (k - 1) as nat, ch) + chan(
            px(p, w, clamp_to(x + (k - 1) - 6, 0, w - 1), clamp_to(y + oy, 0, h - 1)),
            ch,
        )
    }
}

/// Sum of channel `ch` over the first `m` rows of the 13 x 13 blur window around `(x, y)`.
pub open spec fn blur_window_sum(p: Seq<Rgba>, w: int, h: int, x: int, y: int, m: nat, ch: int) -> int
    decreases m,
{
    if m == 0 {
        0
    } else {
        blur_window_sum(p, w, h, x, y, (m - 1) as nat, ch) + blur_row_sum(
            p,
            w,
            h,
            x,
            y,
            (m - 1) - 6,
            13,
            ch,
        )
    }
}

/// The blurred pixel at `(x, y)`: each channel the mean, rounded down, over the 13 x 13
/// window around it, edges clamped.
pub open spec fn blurred(p: Seq<Rgba>, w: int, h: int, x: int, y: int) -> Rgba {
    Rgba {
        r: (blur_window_sum(p, w, h, x, y, 13, 0) / 169) as u8,
        g: (blur_window_sum(p, w, h, x, y, 13, 1) / 169) as u8,
        b: (blur_window_sum(p, w, h, x, y, 13, 2) / 169) as u8,
        a: (blur_window_sum(p, w, h, x, y, 13, 3) / 169) as u8,
    }
}

proof fn lemma_blur_row_bounds(p: Seq<Rgba>, w: int, h: int, x: int, y: int, oy: int, k: nat, ch: int)
    ensures
        0 <= blur_row_sum(p, w, h, x, y, oy, k, ch) <= 255 * k,
    decreases k,
{
    if k > 0 {
        lemma_blur_row_bounds(p, w, h, x, y, oy, (k - 1) as nat, ch);
    }
}

proof fn lemma_blur_window_bounds(p: Seq<Rgba>, w: int, h: int, x: int, y: int, m: nat, ch: int)
    ensures
        0 <= blur_window_sum(p, w, h, x, y, m, ch) <= 255 * 13 * m,
    decreases m,
{
    if m > 0 {
        let m1 = (m - 1) as nat;
        lemma_blur_window_bounds(p, w, h, x, y, m1, ch);
        lemma_blur_row_bounds(p, w, h, x, y, m1 - 6, 13, ch);
        assert(blur_window_sum(p, w, h, x, y, m, ch) == blur_window_sum(p, w, h, x, y, m1, ch)
            + blur_row_sum(p, w, h, x, y, m1 - 6, 13, ch));
        assert(255 * 13 * m1 + 255 * 13 == 255 * 13 * m) by (nonlinear_arith)
            requires
                m1 == m - 1,
        ;
    }
}

fn clamp_i32(v: i32, lo: i32, hi: i32) -> (r: i32)
    requires
        lo <= hi,
    ensures
        r == clamp_to(v as int, lo as int, hi as int),
{
    if v < lo {
        lo
    } else if v > hi {
        hi
    } else {
        v
    }
}

/// Largest width or height the blur handles: its window arithmetic is in `i32`.
pub const MAX_BLUR_SIDE: u32 = 0x7fff_fff0;

/// The blurred pixel at `(x, y)` of `src` (see `blurred`).
fn blur_at(src: &Canvas, x: u32, y: u32) -> (r: Rgba)
    requires
        src.wf(),
        x < src.width <= MAX_BLUR_SIDE,
        y < src.height <= MAX_BLUR_SIDE,
    ensures
        r == blurred(src.pixels@, src.width as int, src.height as int, x as int, y as int),
{
    let ghost p = src.pixels@;
    let ghost w = src.width as int;
    let ghost h = src.height as int;
    let wmax = (src.width - 1) as i32;
    let hmax = (src.height - 1) as i32;
    let xi = x as i32;
    let yi = y as i32;
    let mut r: u32 = 0;
    let mut g: u32 = 0;
    let mut b: u32 = 0;
    let mut a: u32 = 0;
    let mut c: u32 = 0;
    let mut oy: i32 = -BLUR_RADIUS;
    while oy <= BLUR_RADIUS
        invariant
            src.wf(),
            x < src.width <= MAX_BLUR_SIDE,
            y < src.height <= MAX_BLUR_SIDE,
            p == src.pixels@,
            w == src.width,
            h == src.height,
            wmax == w - 1,
            hmax == h - 1,
            xi == x,
            yi == y,
            -6 <= oy <= 7,
            c == 13 * (oy + 6),
            r == blur_window_sum(p, w, h, x as int, y as int, (oy + 6) as nat, 0),
            g == blur_window_sum(p, w, h, x as int, y as int, (oy + 6) as nat, 1),
            b == blur_window_sum(p, w, h, x as int, y as int, (oy + 6) as nat, 2),
            a == blur_window_sum(p, w, h, x as int, y as int, (oy + 6) as nat, 3),
        decreases 7 - oy,
    {
        proof {
            lemma_blur_window_bounds(p, w, h, x as int, y as int, (oy + 6) as nat, 0);
            lemma_blur_window_bounds(p, w, h, x as int, y as int, (oy + 6) as nat, 1);
            lemma_blur_window_bounds(p, w, h, x as int, y as int, (oy + 6) as nat, 2);
            lemma_blur_window_bounds(p, w, h, x as int, y as int, (oy + 6) as nat, 3);
        }
        let ghost m = (oy + 6) as nat;
        let mut ox: i32 = -BLUR_RADIUS;
        while ox <= BLUR_RADIUS
            invariant
                src.wf(),
                x < src.width <= MAX_BLUR_SIDE,
                y < src.height <= MAX_BLUR_SIDE,
                p == src.pixels@,
                w == src.width,
                h == src.height,
                wmax == w - 1,
                hmax == h - 1,
                xi == x,
                yi == y,
                -6 <= oy <= 6,
                m == oy + 6,
                -6 <= ox <= 7,
                c == 13 * m + (ox + 6),
                r == blur_window_sum(p, w, h, x as int, y as int, m, 0) + blur_row_sum(p, w, h, x as int, y as int, oy as int, (ox + 6) as nat, 0),
                g == blur_window_sum(p, w, h, x as int, y as int, m, 1) + blur_row_sum(p, w, h, x as int, y as int, oy as int, (ox + 6) as nat, 1),
                b == blur_window_sum(p, w, h, x as int, y as int, m, 2) + blur_row_sum(p, w, h, x as int, y as int, oy as int, (ox + 6) as nat, 2),
                a == blur_window_sum(p, w, h, x as int, y as int, m, 3) + blur_row_sum(p, w, h, x as int, y as int, oy as int, (ox + 6) as nat, 3),
                blur_window_sum(p, w, h, x as int, y as int, m, 0) <= 255 * 13 * m,
                blur_window_sum(p, w, h, x as int, y as int, m, 1) <= 255 * 13 * m,
                blur_window_sum(p, w, h, x as int, y as int, m, 2) <= 255 * 13 * m,
                blur_window_sum(p, w, h, x as int, y as int, m, 3) <= 255 * 13 * m,
            decreases 7 - ox,
        {
            proof {
                lemma_blur_row_bounds(p, w, h, x as int, y as int, oy as int, (ox + 6) as nat, 0);
                lemma_blur_row_bounds(p, w, h, x as int, y as int, oy as int, (ox + 6) as nat, 1);
                lemma_blur_row_bounds(p, w, h, x as int, y as int, oy as int, (ox + 6) as nat, 2);
                lemma_blur_row_bounds(p, w, h, x as int, y as int, oy as int, (ox + 6) as nat, 3);
            }
            assert(255 * 13 * m + 255 * (ox + 6) <= 255 * 169) by (nonlinear_arith)
                requires
                    m <= 12,
                    ox + 6 <= 12,
            ;
            let nx = clamp_i32(xi + ox, 0, wmax) as u32;
            let ny = clamp_i32(yi + oy, 0, hmax) as u32;
            let q = src.get(nx, ny);
            r = r + q.r as u32;
            g = g + q.g as u32;
            b = b + q.b as u32;
            a = a + q.a as u32;
            c = c + 1;
            ox = ox + 1;
        }
        oy = oy + 1;
    }
    proof {
        lemma_blur_window_bounds(p, w, h, x as int, y as int, 13, 0);
        lemma_blur_window_bounds(p, w, h, x as int, y as int, 13, 1);
        lemma_blur_window_bounds(p, w, h, x as int, y as int, 13, 2);
        lemma_blur_window_bounds(p, w, h, x as int, y as int, 13, 3);
        assert(c == 169);
        assert(r / 169 <= 255 && g / 169 <= 255 && b / 169 <= 255 && a / 169 <= 255) by (
        nonlinear_arith)
            requires
                r <= 255 * 169,
                g <= 255 * 169,
                b <= 255 * 169,
                a <= 255 * 169,
        ;
    }
    Rgba { r: (r / c) as u8, g: (g / c) as u8, b: (b / c) as u8, a: (a / c) as u8 }
}

/// Blurs the pixels of `rect`: each becomes the 13 x 13 mean of the canvas as it was
/// before (see `blurred`); the rest of the canvas is unchanged.
pub fn apply_blur_rect(img: &mut Canvas, rect: PixelRect)
    requires
        old(img).wf(),
        old(img).width <= MAX_BLUR_SIDE,
        old(img).height <= MAX_BLUR_SIDE,
        rect.within(old(img).width as int, old(img).height as int),
    ensures
        final(img).wf(),
        final(img).width == old(img).width,
        final(img).height == old(img).height,
        repainted(
            old(img).pixels@,
            final(img).pixels@,
            old(img).width as int,
            old(img).height as int,
            |x: int, y: int| rect.contains(x, y),
            |x: int, y: int|
                blurred(old(img).pixels@, old(img).width as int, old(img).height as int, x, y),
        ),
{
    let src = Canvas { width: img.width, height: img.height, pixels: img.pixels.clone() };
    let ghost w = img.width as int;
    let ghost h = img.height as int;
    let ghost p = src.pixels@;
    assert(p =~= old(img).pixels@);
    let mut y = rect.y0;
    while y < rect.y1
        invariant
            img.wf(),
            src.wf(),
            img.width == src.width == w,
            img.height == src.height == h,
            w <= MAX_BLUR_SIDE,
            h <= MAX_BLUR_SIDE,
            p == src.pixels@,
            p == old(img).pixels@,
            rect.within(w, h),
            rect.y0 <= y <= rect.y1,
            img.pixels@.len() == p.len(),
            forall|xx: int, yy: int|
                on_canvas(w, h, xx, yy) ==> #[trigger] img.at(xx, yy) == if rect.contains(xx, yy)
                    && yy < y {
                    blurred(p, w, h, xx, yy)
                } else {
                    px(p, w, xx, yy)
                },
        decreases rect.y1 - y,
    {
        let mut x = rect.x0;
        while x < rect.x1
            invariant
                img.wf(),
                src.wf(),
                img.width == src.width == w,
                img.height == src.height == h,
                w <= MAX_BLUR_SIDE,
                h <= MAX_BLUR_SIDE,
                p == src.pixels@,
                rect.within(w, h),
                rect.y0 <= y < rect.y1,
                rect.x0 <= x <= rect.x1,
                img.pixels@.len() == p.len(),
                forall|xx: int, yy: int|
                    on_canvas(w, h, xx, yy) ==> #[trigger] img.at(xx, yy) == if rect.contains(
                        xx,
                        yy,
                    ) && (yy < y || (yy == y && xx < x)) {
                        blurred(p, w, h, xx, yy)
                    } else {
                        px(p, w, xx, yy)
                    },
            decreases rect.x1 - x,
        {
            let v = blur_at(&src, x, y);
            img.put(x, y, v);
            x = x + 1;
        }
        y = y + 1;
    }
    proof {
        assert forall|xx: int, yy: int| on_canvas(w, h, xx, yy) implies #[trigger] px(
            img.pixels@,
            w,
            xx,
            yy,
        ) == if rect.contains(xx, yy) {
            blurred(p, w, h, xx, yy)
        } else {
            px(p, w, xx, yy)
        } by {
            assert(img.at(xx, yy) == px(img.pixels@, w, xx, yy));
        }
    }
}

/// Side of the pixelate blocks.
pub const PIXELATE_BLOCK: u32 = 12;

/// The first column (or row) of the block that holds `v`, blocks starting at `v0`.
pub open spec fn block_start(v: int, v0: int) -> int {
    v0 + (v - v0) / 12 * 12
}

/// Sum of channel `ch` over `k` pixels of row `y` from column `bx`.
pub open spec fn block_row_sum(p: Seq<Rgba>, w: int, y: int, bx: int, k: nat, ch: int) -> int
    decreases k,
{
    if k == 0 {
        0
    } else {
        block_row_sum(p, w, y, bx, (k - 1) as nat, ch) + chan(px(p, w, bx + k - 1, y), ch)
    }
}

/// Sum of channel `ch` over the `kx` x `m` block from `(bx, by)`.
pub open spec fn block_sum(p: Seq<Rgba>, w: int, bx: int, by: int, kx: nat, m: nat, ch: int) -> int
    decreases m,
{
    if m == 0 {
        0
    } else {
        block_sum(p, w, bx, by, kx, (m - 1) as nat, ch) + block_row_sum(p, w, by + m - 1, bx, kx, ch)
    }
}

/// The pixelated pixel at `(x, y)` of `rect`: each channel the mean, rounded down, over
/// the 12 x 12 block that holds it (blocks start at the rectangle's corner and are cut
/// at its far edges).
pub open spec fn pixelated(p: Seq<Rgba>, w: int, rect: PixelRect, x: int, y: int) -> Rgba {
    let bx = block_start(x, rect.x0 as int);
    let by = block_start(y, rect.y0 as int);
    let ex = if bx + 12 < rect.x1 { bx + 12 } else { rect.x1 as int };
    let ey = if by + 12 < rect.y1 { by + 12 } else { rect.y1 as int };
    let kx = (ex - bx) as nat;
    let m = (ey - by) as nat;
    Rgba {
        r: (block_sum(p, w, bx, by, kx, m, 0) / (kx * m) as int) as u8,
        g: (block_sum(p, w, bx, by, kx, m, 1) / (kx * m) as int) as u8,
        b: (block_sum(p, w, bx, by, kx, m, 2) / (kx * m) as int) as u8,
        a: (block_sum(p, w, bx, by, kx, m, 3) / (kx * m) as int) as u8,
    }
}

proof fn lemma_block_start(v: int, v0: int, k: int)
    requires
        0 <= k,
        v0 + 12 * k <= v < v0 + 12 * k + 12,
    ensures
        block_start(v, v0) == v0 + 12 * k,
{
    assert((v - v0) / 12 == k) by (nonlinear_arith)
        requires
            12 * k <= v - v0 < 12 * k + 12,
    ;
}

proof fn lemma_block_row_bounds(p: Seq<Rgba>, w: int, y: int, bx: int, k: nat, ch: int)
    ensures
        0 <= block_row_sum(p, w, y, bx, k, ch) <= 255 * k,
    decreases k,
{
    if k > 0 {
        lemma_block_row_bounds(p, w, y, bx, (k - 1) as nat, ch);
    }
}

proof fn lemma_block_bounds(p: Seq<Rgba>, w: int, bx: int, by: int, kx: nat, m: nat, ch: int)
    ensures
        0 <= block_sum(p, w, bx, by, kx, m, ch) <= 255 * kx * m,
    decreases m,
{
    if m > 0 {
        let m1 = (m - 1) as nat;
        lemma_block_bounds(p, w, bx, by, kx, m1, ch);
        lemma_block_row_bounds(p, w, by + m - 1, bx, kx, ch);
        assert(255 * kx * m1 + 255 * kx == 255 * kx * m) by (nonlinear_arith)
            requires
                m1 == m - 1,
        ;
    }
}

/// Channel sums over the block `bx..ex` x `by..ey` of `src`, and its pixel count.
fn block_sums(src: &Canvas, bx: u32, by: u32, ex: u32, ey: u32) -> (r: (u32, u32, u32, u32, u32))
    requires
        src.wf(),
        bx < ex <= src.width,
        by < ey <= src.height,
        ex - bx <= 12,
        ey - by <= 12,
    ensures
        ({
            let kx = (ex - bx) as nat;
            let m = (ey - by) as nat;
            let p = src.pixels@;
            let w = src.width as int;
            &&& r.4 == kx * m
            &&& r.0 == block_sum(p, w, bx as int, by as int, kx, m, 0)
            &&& r.1 == block_sum(p, w, bx as int, by as int, kx, m, 1)
            &&& r.2 == block_sum(p, w, bx as int, by as int, kx, m, 2)
            &&& r.3 == block_sum(p, w, bx as int, by as int, kx, m, 3)
        }),
{
    let ghost p = src.pixels@;
    let ghost w = src.width as int;
    let ghost kx = (ex - bx) as nat;
    let mut r: u32 = 0;
    let mut g: u32 = 0;
    let mut b: u32 = 0;
    let mut a: u32 = 0;
    let mut c: u32 = 0;
    let mut y = by;
    while y < ey
        invariant
            src.wf(),
            bx < ex <= src.width,
            by < ey <= src.height,
            ex - bx <= 12,
            ey - by <= 12,
            p == src.pixels@,
            w == src.width,
            kx == ex - bx,
            by <= y <= ey,
            c == kx * (y - by),
            r == block_sum(p, w, bx as int, by as int, kx, (y - by) as nat, 0),
            g == block_sum(p, w, bx as int, by as int, kx, (y - by) as nat, 1),
            b == block_sum(p, w, bx as int, by as int, kx, (y - by) as nat, 2),
            a == block_sum(p, w, bx as int, by as int, kx, (y - by) as nat, 3),
        decreases ey - y,
    {
        let ghost m = (y - by) as nat;
        proof {
            lemma_block_bounds(p, w, bx as int, by as int, kx, m, 0);
            lemma_block_bounds(p, w, bx as int, by as int, kx, m, 1);
            lemma_block_bounds(p, w, bx as int, by as int, kx, m, 2);
            lemma_block_bounds(p, w, bx as int, by as int, kx, m, 3);
            assert(255 * kx * m <= 255 * 12 * 11) by (nonlinear_arith)
                requires
                    kx <= 12,
                    m <= 11,
            ;
            assert(kx * m <= 12 * 11) by (nonlinear_arith)
                requires
                    kx <= 12,
                    m <= 11,
            ;
        }
        let mut x = bx;
        while x < ex
            invariant
                src.wf(),
                bx < ex <= src.width,
                by <= y < ey <= src.height,
                p == src.pixels@,
                w == src.width,
                kx == ex - bx,
                m == y - by,
                m <= 11,
                kx <= 12,
                bx <= x <= ex,
                c == kx * m + (x - bx),
                kx * m <= 132,
                r == block_sum(p, w, bx as int, by as int, kx, m, 0) + block_row_sum(p, w, y as int, bx as int, (x - bx) as nat, 0),
                g == block_sum(p, w, bx as int, by as int, kx, m, 1) + block_row_sum(p, w, y as int, bx as int, (x - bx) as nat, 1),
                b == block_sum(p, w, bx as int, by as int, kx, m, 2) + block_row_sum(p, w, y as int, bx as int, (x - bx) as nat, 2),
                a == block_sum(p, w, bx as int, by as int, kx, m, 3) + block_row_sum(p, w, y as int, bx as int, (x - bx) as nat, 3),
                block_sum(p, w, bx as int, by as int, kx, m, 0) <= 255 * 132,
                block_sum(p, w, bx as int, by as int, kx, m, 1) <= 255 * 132,
                block_sum(p, w, bx as int, by as int, kx, m, 2) <= 255 * 132,
                block_sum(p, w, bx as int, by as int, kx, m, 3) <= 255 * 132,
            decreases ex - x,
        {
            proof {
                lemma_block_row_bounds(p, w, y as int, bx as int, (x - bx) as nat, 0);
                lemma_block_row_bounds(p, w, y as int, bx as int, (x - bx) as nat, 1);
                lemma_block_row_bounds(p, w, y as int, bx as int, (x - bx) as nat, 2);
                lemma_block_row_bounds(p, w, y as int, bx as int, (x - bx) as nat, 3);
            }
            let q = src.get(x, y);
            r = r + q.r as u32;
            g = g + q.g as u32;
            b = b + q.b as u32;
            a = a + q.a as u32;
            c = c + 1;
            x = x + 1;
        }
        proof {
            assert(kx * m + kx == kx * (m + 1)) by (nonlinear_arith);
        }
        y = y + 1;
    }
    (r, g, b, a, c)
}

/// The block average of `src` for the block `bx..ex` x `by..ey`.
fn block_average(src: &Canvas, bx: u32, by: u32, ex: u32, ey: u32) -> (r: Rgba)
    requires
        src.wf(),
        bx < ex <= src.width,
        by < ey <= src.height,
        ex - bx <= 12,
        ey - by <= 12,
    ensures
        ({
            let kx = (ex - bx) as nat;
            let m = (ey - by) as nat;
            let p = src.pixels@;
            let w = src.width as int;
            &&& r.r == (block_sum(p, w, bx as int, by as int, kx, m, 0) / (kx * m) as int) as u8
            &&& r.g == (block_sum(p, w, bx as int, by as int, kx, m, 1) / (kx * m) as int) as u8
            &&& r.b == (block_sum(p, w, bx as int, by as int, kx, m, 2) / (kx * m) as int) as u8
            &&& r.a == (block_sum(p, w, bx as int, by as int, kx, m, 3) / (kx * m) as int) as u8
        }),
{
    let (r, g, b, a, c) = block_sums(src, bx, by, ex, ey);
    let ghost kx = (ex - bx) as nat;
    let ghost m = (ey - by) as nat;
    proof {
        let p = src.pixels@;
        let w = src.width as int;
        lemma_block_bounds(p, w, bx as int, by as int, kx, m, 0);
        lemma_block_bounds(p, w, bx as int, by as int, kx, m, 1);
        lemma_block_bounds(p, w, bx as int, by as int, kx, m, 2);
        lemma_block_bounds(p, w, bx as int, by as int, kx, m, 3);
        assert(c > 0) by (nonlinear_arith)
            requires
                c == kx * m,
                kx >= 1,
                m >= 1,
        ;
        assert(r / c <= 255 && g / c <= 255 && b / c <= 255 && a / c <= 255) by (nonlinear_arith)
            requires
                c > 0,
                c == kx * m,
                r <= 255 * kx * m,
                g <= 255 * kx * m,
                b <= 255 * kx * m,
                a <= 255 * kx * m,
        ;
    }
    Rgba { r: (r / c) as u8, g: (g / c) as u8, b: (b / c) as u8, a: (a / c) as u8 }
}

/// Pixelates the pixels of `rect`: 12 x 12 blocks from its corner (cut at its far
/// edges) each take their mean color on the canvas as it was before (see `pixelated`);
/// the rest of the canvas is unchanged.
pub fn apply_pixelate_rect(img: &mut Canvas, rect: PixelRect)
    requires
        old(img).wf(),
        old(img).width <= u32::MAX - PIXELATE_BLOCK,
        old(img).height <= u32::MAX - PIXELATE_BLOCK,
        rect.within(old(img).width as int, old(img).height as int),
    ensures
        final(img).wf(),
        final(img).width == old(img).width,
        final(img).height == old(img).height,
        repainted(
            old(img).pixels@,
            final(img).pixels@,
            old(img).width as int,
            old(img).height as int,
            |x: int, y: int| rect.contains(x, y),
            |x: int, y: int| pixelated(old(img).pixels@, old(img).width as int, rect, x, y),
        ),
{
    let src = Canvas { width: img.width, height: img.height, pixels: img.pixels.clone() };
    let ghost w = img.width as int;
    let ghost h = img.height as int;
    let ghost p = src.pixels@;
    assert(p =~= old(img).pixels@);
    let block = PIXELATE_BLOCK;
    let mut by = rect.y0;
    let ghost mut ky: int = 0;
    while by < rect.y1
        invariant
            img.wf(),
            src.wf(),
            img.width == src.width == w,
            img.height == src.height == h,
            w <= u32::MAX - 12,
            h <= u32::MAX - 12,
            p == src.pixels@,
            p == old(img).pixels@,
            rect.within(w, h),
            block == 12,
            ky >= 0,
            by == rect.y0 + 12 * ky,
            rect.y0 <= by,
            by < rect.y1 || by <= rect.y1 + 11,
            img.pixels@.len() == p.len(),
            forall|xx: int, yy: int|
                on_canvas(w, h, xx, yy) ==> #[trigger] img.at(xx, yy) == if rect.contains(xx, yy)
                    && yy < by {
                    pixelated(p, w, rect, xx, yy)
                } else {
                    px(p, w, xx, yy)
                },
        decreases rect.y1 + 12 - by,
    {
        let ey = if by + block < rect.y1 {
            by + block
        } else {
            rect.y1
        };
        let mut bx = rect.x0;
        let ghost mut kx: int = 0;
        while bx < rect.x1
            invariant
                img.wf(),
                src.wf(),
                img.width == src.width == w,
                img.height == src.height == h,
                w <= u32::MAX - 12,
                h <= u32::MAX - 12,
                p == src.pixels@,
                rect.within(w, h),
                block == 12,
                ky >= 0,
                by == rect.y0 + 12 * ky,
                rect.y0 <= by < rect.y1,
                ey == (if by + 12 < rect.y1 { by + 12 } else { rect.y1 as int }),
                kx >= 0,
                bx == rect.x0 + 12 * kx,
                rect.x0 <= bx,
                img.pixels@.len() == p.len(),
                forall|xx: int, yy: int|
                    on_canvas(w, h, xx, yy) ==> #[trigger] img.at(xx, yy) == if rect.contains(
                        xx,
                        yy,
                    ) && (yy < by || (yy < ey && xx < bx)) {
                        pixelated(p, w, rect, xx, yy)
                    } else {
                        px(p, w, xx, yy)
                    },
            decreases rect.x1 + 12 - bx,
        {
            let ex = if bx + block < rect.x1 {
                bx + block
            } else {
                rect.x1
            };
            let avg = block_average(&src, bx, by, ex, ey);
            proof {
                assert forall|xx: int, yy: int|
                    bx <= xx < ex && by <= yy < ey implies #[trigger] pixelated(
                    p,
                    w,
                    rect,
                    xx,
                    yy,
                ) == avg by {
                    lemma_block_start(xx, rect.x0 as int, kx);
                    lemma_block_start(yy, rect.y0 as int, ky);
                }
            }
            let mut y = by;
            while y < ey
                invariant
                    img.wf(),
                    img.width == w,
                    img.height == h,
                    rect.within(w, h),
                    rect.y0 <= by <= y <= ey <= rect.y1,
                    rect.x0 <= bx < ex <= rect.x1,
                    ex == (if bx + 12 < rect.x1 { bx + 12 } else { rect.x1 as int }),
                    ey == (if by + 12 < rect.y1 { by + 12 } else { rect.y1 as int }),
                    img.pixels@.len() == p.len(),
                    forall|xx: int, yy: int|
                        bx <= xx < ex && by <= yy < ey ==> #[trigger] pixelated(p, w, rect, xx, yy)
                            == avg,
                    forall|xx: int, yy: int|
                        on_canvas(w, h, xx, yy) ==> #[trigger] img.at(xx, yy) == if rect.contains(
                            xx,
                            yy,
                        ) && (yy < by || (yy < ey && xx < bx) || (by <= yy < y && bx <= xx < ex)) {
                            pixelated(p, w, rect, xx, yy)
                        } else {
                            px(p, w, xx, yy)
                        },
                decreases ey - y,
            {
                let mut x = bx;
                while x < ex
                    invariant
                        img.wf(),
                        img.width == w,
                        img.height == h,
                        rect.within(w, h),
                        rect.y0 <= by <= y < ey <= rect.y1,
                        rect.x0 <= bx <= x <= ex <= rect.x1,
                        ex == (if bx + 12 < rect.x1 { bx + 12 } else { rect.x1 as int }),
                        ey == (if by + 12 < rect.y1 { by + 12 } else { rect.y1 as int }),
                        img.pixels@.len() == p.len(),
                        forall|xx: int, yy: int|
                            bx <= xx < ex && by <= yy < ey ==> #[trigger] pixelated(
                                p,
                                w,
                                rect,
                                xx,
                                yy,
                            ) == avg,
                        forall|xx: int, yy: int|
                            on_canvas(w, h, xx, yy) ==> #[trigger] img.at(xx, yy) == if rect.contains(
                                xx,
                                yy,
                            ) && (yy < by || (yy < ey && xx < bx) || (by <= yy < y && bx <= xx < ex)
                                || (yy == y && bx <= xx < x)) {
                                pixelated(p, w, rect, xx, yy)
                            } else {
                                px(p, w, xx, yy)
                            },
                    decreases ex - x,
                {
                    img.put(x, y, avg);
                    x = x + 1;
                }
                y = y + 1;
            }
            bx = bx + block;
            proof {
                kx = kx + 1;
            }
        }
        by = by + block;
        proof {
            ky = ky + 1;
        }
    }
    proof {
        assert forall|xx: int, yy: int| on_canvas(w, h, xx, yy) implies #[trigger] px(
            img.pixels@,
            w,
            xx,
            yy,
        ) == if rect.contains(xx, yy) {
            pixelated(p, w, rect, xx, yy)
        } else {
            px(p, w, xx, yy)
        } by {
            assert(img.at(xx, yy) == px(img.pixels@, w, xx, yy));
        }
    }
}

pub open spec fn abs(v: int) -> int {
    if v < 0 {
        -v
    } else {
        v
    }
}

/// `(x, y)` is within one pixel (in both directions) of `p`: the 3 x 3 brush around `p`
/// covers it.
pub open spec fn near(p: (int, int), x: int, y: int) -> bool {
    abs(p.0 - x) <= 1 && abs(p.1 - y) <= 1
}

/// The brush covers `(x, y)` at one of the points.
pub open spec fn covered(pts: Seq<(int, int)>, x: int, y: int) -> bool {
    exists|i: int| 0 <= i < pts.len() && #[trigger] near(pts[i], x, y)
}

proof fn lemma_covered_push(pts: Seq<(int, int)>, p: (int, int), x: int, y: int)
    ensures
        covered(pts.push(p), x, y) == (covered(pts, x, y) || near(p, x, y)),
{
    let q = pts.push(p);
    if covered(pts, x, y) {
        let i = choose|i: int| 0 <= i < pts.len() && #[trigger] near(pts[i], x, y);
        assert(q[i] == pts[i]);
        assert(near(q[i], x, y));
    }
    if near(p, x, y) {
        assert(q[pts.len() as int] == p);
        assert(near(q[pts.len() as int], x, y));
    }
    if covered(q, x, y) {
        let i = choose|i: int| 0 <= i < q.len() && #[trigger] near(q[i], x, y);
        if i < pts.len() {
            assert(q[i] == pts[i]);
            assert(near(pts[i], x, y));
        }
    }
}

/// One step of the line algorithm from `(x, y)` with error term `err`.
pub open spec fn line_step(x: int, y: int, err: int, dx: int, dy: int, sx: int, sy: int) -> (
    int,
    int,
    int,
) {
    let e2 = 2 * err;
    let (x2, err2) = if e2 >= dy {
        (x + sx, err + dy)
    } else {
        (x, err)
    };
    let (y3, err3) = if e2 <= dx {
        (y + sy, err2 + dx)
    } else {
        (y, err2)
    };
    (x2, y3, err3)
}

/// The points the line algorithm visits from `(x, y)` to `(x1, y1)`, at most `fuel` of
/// them.
pub open spec fn line_points_from(
    x: int,
    y: int,
    err: int,
    x1: int,
    y1: int,
    dx: int,
    dy: int,
    sx: int,
    sy: int,
    fuel: nat,
) -> Seq<(int, int)>
    decreases fuel,
{
    if fuel == 0 {
        Seq::<(int, int)>::empty()
    } else if x == x1 && y == y1 {
        seq![(x, y)]
    } else {
        let (nx, ny, ne) = line_step(x, y, err, dx, dy, sx, sy);
        seq![(x, y)] + line_points_from(nx, ny, ne, x1, y1, dx, dy, sx, sy, (fuel - 1) as nat)
    }
}

/// The points of the line from `(x0, y0)` to `(x1, y1)` in the order the integer
/// (Bresenham) line algorithm visits them.
pub open spec fn line_points(x0: int, y0: int, x1: int, y1: int) -> Seq<(int, int)> {
    let dx = abs(x1 - x0);
    let dy = -abs(y1 - y0);
    let sx = if x0 < x1 {
        1int
    } else {
        -1int
    };
    let sy = if y0 < y1 {
        1int
    } else {
        -1int
    };
    line_points_from(x0, y0, dx + dy, x1, y1, dx, dy, sx, sy, (dx - dy + 1) as nat)
}

/// Remaining horizontal and vertical distance to the end point.
pub open spec fn line_remaining(x: int, y: int, x1: int, y1: int, sx: int, sy: int) -> (int, int) {
    (if sx == 1 {
        x1 - x
    } else {
        x - x1
    }, if sy == 1 {
        y1 - y
    } else {
        y - y1
    })
}

/// The invariant of the line algorithm: it moves toward the end point, never past it,
/// with the error term tied to the distance left.
pub open spec fn line_inv(x: int, y: int, err: int, x1: int, y1: int, dx: int, dy: int, sx: int, sy: int) -> bool {
    let (a, b) = line_remaining(x, y, x1, y1, sx, sy);
    &&& dx >= 0
    &&& dy <= 0
    &&& sx == 1 || sx == -1
    &&& sy == 1 || sy == -1
    &&& 0 <= a <= dx
    &&& 0 <= b <= -dy
    &&& err == dx + dy - dx * b - dy * a
    &&& 3 * dy <= 2 * err <= 3 * dx
}

proof fn lemma_line_step(x: int, y: int, err: int, x1: int, y1: int, dx: int, dy: int, sx: int, sy: int)
    requires
        line_inv(x, y, err, x1, y1, dx, dy, sx, sy),
        !(x == x1 && y == y1),
    ensures
        ({
            let (nx, ny, ne) = line_step(x, y, err, dx, dy, sx, sy);
            let (a, b) = line_remaining(x, y, x1, y1, sx, sy);
            let (na, nb) = line_remaining(nx, ny, x1, y1, sx, sy);
            &&& line_inv(nx, ny, ne, x1, y1, dx, dy, sx, sy)
            &&& na + nb < a + b
        }),
{
    let (a, b) = line_remaining(x, y, x1, y1, sx, sy);
    let e2 = 2 * err;
    assert(a > 0 || b > 0);
    if a == 0 {
        assert(b >= 1);
        assert(dx * b >= dx) by (nonlinear_arith)
            requires
                dx >= 0,
                b >= 1,
        ;
        assert(dy * a == 0) by (nonlinear_arith)
            requires
                a == 0,
        ;
        assert(e2 < dy);
    }
    if b == 0 {
        assert(a >= 1);
        assert(-dy * a >= -dy) by (nonlinear_arith)
            requires
                dy <= 0,
                a >= 1,
        ;
        assert(dx * b == 0) by (nonlinear_arith)
            requires
                b == 0,
        ;
        assert(err >= dx) by (nonlinear_arith)
            requires
                err == dx + dy - dx * b - dy * a,
                dx * b == 0,
                dy <= 0,
                a >= 1,
        ;
        assert(dx >= 1);
        assert(e2 > dx);
    }
    let xs = e2 >= dy;
    let ys = e2 <= dx;
    let na = if xs {
        a - 1
    } else {
        a
    };
    let nb = if ys {
        b - 1
    } else {
        b
    };
    let ne = err + (if xs {
        dy
    } else {
        0
    }) + (if ys {
        dx
    } else {
        0
    });
    assert(ne == dx + dy - dx * nb - dy * na) by (nonlinear_arith)
        requires
            err == dx + dy - dx * b - dy * a,
            na == (if xs {
                a - 1
            } else {
                a
            }),
            nb == (if ys {
                b - 1
            } else {
                b
            }),
            ne == err + (if xs {
                dy
            } else {
                0
            }) + (if ys {
                dx
            } else {
                0
            }),
    ;
}

proof fn lemma_line_points_step(
    x: int,
    y: int,
    err: int,
    x1: int,
    y1: int,
    dx: int,
    dy: int,
    sx: int,
    sy: int,
    fuel: nat,
)
    requires
        fuel >= 1,
        !(x == x1 && y == y1),
    ensures
        ({
            let (nx, ny, ne) = line_step(x, y, err, dx, dy, sx, sy);
            line_points_from(x, y, err, x1, y1, dx, dy, sx, sy, fuel) == seq![(x, y)]
                + line_points_from(nx, ny, ne, x1, y1, dx, dy, sx, sy, (fuel - 1) as nat)
        }),
{
}

/// Paints the 3 x 3 brush around `(cx, cy)`, clipped to the canvas.
fn stamp(img: &mut Canvas, cx: i64, cy: i64, color: Rgba)
    requires
        old(img).wf(),
        -0x1_0000_0000_0000 <= cx <= 0x1_0000_0000_0000,
        -0x1_0000_0000_0000 <= cy <= 0x1_0000_0000_0000,
    ensures
        final(img).wf(),
        final(img).width == old(img).width,
        final(img).height == old(img).height,
        repainted(
            old(img).pixels@,
            final(img).pixels@,
            old(img).width as int,
            old(img).height as int,
            |x: int, y: int| near((cx as int, cy as int), x, y),
            |x: int, y: int| color,
        ),
{
    let ghost w = img.width as int;
    let ghost h = img.height as int;
    let ghost p = old(img).pixels@;
    let mut ox: i64 = -1;
    while ox <= 1
        invariant
            img.wf(),
            img.width == w,
            img.height == h,
            -1 <= ox <= 2,
            img.pixels@.len() == p.len(),
            p.len() == w * h,
            -0x8000_0000_0000_0000 <= cx - 1,
            cx + 1 <= 0x7fff_ffff_ffff_ffff,
            -0x8000_0000_0000_0000 <= cy - 1,
            cy + 1 <= 0x7fff_ffff_ffff_ffff,
            forall|x: int, y: int|
                on_canvas(w, h, x, y) ==> #[trigger] img.at(x, y) == if near((cx as int, cy as int), x, y) && x < cx + ox {
                    color
                } else {
                    px(p, w, x, y)
                },
        decreases 2 - ox,
    {
        let mut oy: i64 = -1;
        while oy <= 1
            invariant
                img.wf(),
                img.width == w,
                img.height == h,
                -1 <= ox <= 1,
                -1 <= oy <= 2,
                img.pixels@.len() == p.len(),
                -0x8000_0000_0000_0000 <= cx - 1,
                cx + 1 <= 0x7fff_ffff_ffff_ffff,
                -0x8000_0000_0000_0000 <= cy - 1,
                cy + 1 <= 0x7fff_ffff_ffff_ffff,
                forall|x: int, y: int|
                    on_canvas(w, h, x, y) ==> #[trigger] img.at(x, y) == if near((cx as int, cy as int), x, y) && (x < cx + ox || (x == cx + ox && y < cy + oy)) {
                        color
                    } else {
                        px(p, w, x, y)
                    },
            decreases 2 - oy,
        {
            let x = cx + ox;
            let y = cy + oy;
            if x >= 0 && y >= 0 && x < img.width as i64 && y < img.height as i64 {
                img.put(x as u32, y as u32, color);
            }
            oy = oy + 1;
        }
        ox = ox + 1;
    }
    proof {
        assert forall|x: int, y: int| on_canvas(w, h, x, y) implies #[trigger] px(
            img.pixels@,
            w,
            x,
            y,
        ) == if near((cx as int, cy as int), x, y) {
            color
        } else {
            px(p, w, x, y)
        } by {
            assert(img.at(x, y) == px(img.pixels@, w, x, y));
        }
    }
}

fn abs_diff_i64(a: i64, b: i64) -> (r: i64)
    requires
        -0x1_0000_0000 <= a <= 0x1_0000_0000,
        -0x1_0000_0000 <= b <= 0x1_0000_0000,
    ensures
        r == abs(b - a),
{
    if b - a < 0 {
        a - b
    } else {
        b - a
    }
}

/// Draws a line from `(x0, y0)` to `(x1, y1)` with a 3 x 3 brush at every point of the
/// integer line (see `line_points`), clipped to the canvas.
pub fn draw_line(img: &mut Canvas, x0: i32, y0: i32, x1: i32, y1: i32, color: Rgba)
    requires
        old(img).wf(),
    ensures
        final(img).wf(),
        final(img).width == old(img).width,
        final(img).height == old(img).height,
        repainted(
            old(img).pixels@,
            final(img).pixels@,
            old(img).width as int,
            old(img).height as int,
            |x: int, y: int| covered(line_points(x0 as int, y0 as int, x1 as int, y1 as int), x, y),
            |x: int, y: int| color,
        ),
{
    let ghost w = img.width as int;
    let ghost h = img.height as int;
    let ghost orig = img.pixels@;
    let ghost path = line_points(x0 as int, y0 as int, x1 as int, y1 as int);
    let mut x: i64 = x0 as i64;
    let mut y: i64 = y0 as i64;
    let xe: i64 = x1 as i64;
    let ye: i64 = y1 as i64;
    let dx = abs_diff_i64(x, xe);
    let sx: i64 = if x < xe {
        1
    } else {
        -1
    };
    let dy = -abs_diff_i64(y, ye);
    let sy: i64 = if y < ye {
        1
    } else {
        -1
    };
    let mut err = dx + dy;
    let ghost mut done: Seq<(int, int)> = Seq::empty();
    let ghost mut fuel: nat = (dx - dy + 1) as nat;
    proof {
        assert(err == dx + dy - dx * (-dy) - dy * dx) by (nonlinear_arith)
            requires
                err == dx + dy,
        ;
        assert(path == done + line_points_from(
            x as int,
            y as int,
            err as int,
            xe as int,
            ye as int,
            dx as int,
            dy as int,
            sx as int,
            sy as int,
            fuel,
        ));
    }
    loop
        invariant_except_break
            ({
                let (a, b) = line_remaining(x as int, y as int, xe as int, ye as int, sx as int, sy as int);
                fuel >= a + b + 1
            }),
            path == done + line_points_from(
                x as int,
                y as int,
                err as int,
                xe as int,
                ye as int,
                dx as int,
                dy as int,
                sx as int,
                sy as int,
                fuel,
            ),
            forall|xx: int, yy: int|
                on_canvas(w, h, xx, yy) ==> #[trigger] img.at(xx, yy) == if covered(done, xx, yy) {
                    color
                } else {
                    px(orig, w, xx, yy)
                },
        invariant
            img.wf(),
            img.width == w,
            img.height == h,
            img.pixels@.len() == orig.len(),
            orig == old(img).pixels@,
            path == line_points(x0 as int, y0 as int, x1 as int, y1 as int),
            xe == x1,
            ye == y1,
            line_inv(x as int, y as int, err as int, xe as int, ye as int, dx as int, dy as int, sx as int, sy as int),
            dx <= 0x1_0000_0000,
            -dy <= 0x1_0000_0000,
            -0x1_0000_0000 <= xe <= 0x1_0000_0000,
            -0x1_0000_0000 <= ye <= 0x1_0000_0000,
        ensures
            forall|xx: int, yy: int|
                on_canvas(w, h, xx, yy) ==> #[trigger] img.at(xx, yy) == if covered(path, xx, yy) {
                    color
                } else {
                    px(orig, w, xx, yy)
                },
            img.wf(),
            img.width == w,
            img.height == h,
            img.pixels@.len() == orig.len(),
        decreases ({
            let (a, b) = line_remaining(x as int, y as int, xe as int, ye as int, sx as int, sy as int);
            a + b
        }),
    {
        let ghost before = *img;
        proof {
            let (a, b) = line_remaining(x as int, y as int, xe as int, ye as int, sx as int, sy as int);
            assert(-0x1_0000_0000_0000 <= x <= 0x1_0000_0000_0000);
            assert(-0x1_0000_0000_0000 <= y <= 0x1_0000_0000_0000);
        }
        stamp(img, x, y, color);
        proof {
            assert forall|xx: int, yy: int| on_canvas(w, h, xx, yy) implies #[trigger] img.at(
                xx,
                yy,
            ) == if covered(done.push((x as int, y as int)), xx, yy) {
                color
            } else {
                px(orig, w, xx, yy)
            } by {
                lemma_covered_push(done, (x as int, y as int), xx, yy);
                assert(img.at(xx, yy) == px(img.pixels@, w, xx, yy));
                assert(before.at(xx, yy) == px(before.pixels@, w, xx, yy));
            }
            done = done.push((x as int, y as int));
        }
        if x == xe && y == ye {
            proof {
                assert(line_points_from(
                    x as int,
                    y as int,
                    err as int,
                    xe as int,
                    ye as int,
                    dx as int,
                    dy as int,
                    sx as int,
                    sy as int,
                    fuel,
                ) == seq![(x as int, y as int)]);
                assert(path =~= done);
            }
            break;
        }
        proof {
            lemma_line_step(x as int, y as int, err as int, xe as int, ye as int, dx as int, dy as int, sx as int, sy as int);
            lemma_line_points_step(x as int, y as int, err as int, xe as int, ye as int, dx as int, dy as int, sx as int, sy as int, fuel);
        }
        let e2 = 2 * err;
        if e2 >= dy {
            err = err + dy;
            x = x + sx;
        }
        if e2 <= dx {
            err = err + dx;
            y = y + sy;
        }
        proof {
            let old_done = done.drop_last();
            assert(done == old_done.push(done.last()));
            fuel = (fuel - 1) as nat;
            assert(path =~= done + line_points_from(
                x as int,
                y as int,
                err as int,
                xe as int,
                ye as int,
                dx as int,
                dy as int,
                sx as int,
                sy as int,
                fuel,
            ));
        }
    }
    proof {
        assert forall|xx: int, yy: int| on_canvas(w, h, xx, yy) implies #[trigger] px(
            img.pixels@,
            w,
            xx,
            yy,
        ) == if covered(path, xx, yy) {
            color
        } else {
            px(orig, w, xx, yy)
        } by {
            assert(img.at(xx, yy) == px(img.pixels@, w, xx, yy));
        }
    }
}

pub type Point = (i32, i32);

/// The points of a series of line segments, in order.
pub open spec fn segments_points(segs: Seq<(Point, Point)>) -> Seq<(int, int)>
    decreases segs.len(),
{
    if segs.len() == 0 {
        Seq::<(int, int)>::empty()
    } else {
        let (a, b) = segs.last();
        segments_points(segs.drop_last()) + line_points(a.0 as int, a.1 as int, b.0 as int, b.1 as int)
    }
}

proof fn lemma_covered_concat(p: Seq<(int, int)>, q: Seq<(int, int)>, x: int, y: int)
    ensures
        covered(p + q, x, y) == (covered(p, x, y) || covered(q, x, y)),
{
    let pq = p + q;
    if covered(p, x, y) {
        let i = choose|i: int| 0 <= i < p.len() && #[trigger] near(p[i], x, y);
        assert(pq[i] == p[i]);
        assert(near(pq[i], x, y));
    }
    if covered(q, x, y) {
        let i = choose|i: int| 0 <= i < q.len() && #[trigger] near(q[i], x, y);
        assert(pq[p.len() + i] == q[i]);
        assert(near(pq[p.len() + i], x, y));
    }
    if covered(pq, x, y) {
        let i = choose|i: int| 0 <= i < pq.len() && #[trigger] near(pq[i], x, y);
        if i < p.len() {
            assert(pq[i] == p[i]);
            assert(near(p[i], x, y));
        } else {
            assert(pq[i] == q[i - p.len()]);
            assert(near(q[i - p.len()], x, y));
        }
    }
}

/// Draws the segments in order, each as `draw_line` does.
pub fn draw_segments(img: &mut Canvas, segs: &Vec<(Point, Point)>, color: Rgba)
    requires
        old(img).wf(),
    ensures
        final(img).wf(),
        final(img).width == old(img).width,
        final(img).height == old(img).height,
        repainted(
            old(img).pixels@,
            final(img).pixels@,
            old(img).width as int,
            old(img).height as int,
            |x: int, y: int| covered(segments_points(segs@), x, y),
            |x: int, y: int| color,
        ),
{
    let ghost w = img.width as int;
    let ghost h = img.height as int;
    let ghost orig = img.pixels@;
    let n = segs.len();
    let mut i: usize = 0;
    while i < n
        invariant
            img.wf(),
            img.width == w,
            img.height == h,
            orig == old(img).pixels@,
            n == segs.len(),
            i <= n,
            img.pixels@.len() == orig.len(),
            forall|x: int, y: int|
                on_canvas(w, h, x, y) ==> #[trigger] img.at(x, y) == if covered(
                    segments_points(segs@.subrange(0, i as int)),
                    x,
                    y,
                ) {
                    color
                } else {
                    px(orig, w, x, y)
                },
        decreases n - i,
    {
        let ghost before = *img;
        let (a, b) = segs[i];
        draw_line(img, a.0, a.1, b.0, b.1, color);
        proof {
            let pre = segs@.subrange(0, i as int);
            let next = segs@.subrange(0, i + 1);
            assert(next.drop_last() =~= pre);
            assert(next.last() == (a, b));
            assert forall|x: int, y: int| on_canvas(w, h, x, y) implies #[trigger] img.at(x, y)
                == if covered(segments_points(next), x, y) {
                color
            } else {
                px(orig, w, x, y)
            } by {
                lemma_covered_concat(
                    segments_points(pre),
                    line_points(a.0 as int, a.1 as int, b.0 as int, b.1 as int),
                    x,
                    y,
                );
                assert(img.at(x, y) == px(img.pixels@, w, x, y));
                assert(before.at(x, y) == px(before.pixels@, w, x, y));
            }
        }
        i = i + 1;
    }
    proof {
        assert(segs@.subrange(0, n as int) =~= segs@);
        assert forall|x: int, y: int| on_canvas(w, h, x, y) implies #[trigger] px(
            img.pixels@,
            w,
            x,
            y,
        ) == if covered(segments_points(segs@), x, y) {
            color
        } else {
            px(orig, w, x, y)
        } by {
            assert(img.at(x, y) == px(img.pixels@, w, x, y));
        }
    }
}

/// The annotation color.
pub open spec fn annotation_green() -> Rgba {
    Rgba { r: 34, g: 197, b: 94, a: 255 }
}

/// One annotation, in canvas pixels.
#[derive(Debug)]
pub enum Annotation {
    /// A pen stroke through the points.
    Pen(Vec<Point>),
    /// The outline of the rectangle with these opposite corners.
    Rect { start: Point, end: Point },
    /// A shaft from `start` to `end` and two head strokes from `end`.
    Arrow { start: Point, end: Point, heads: (Point, Point) },
    /// Text drawn without a font: a stroke from `at` to `(end_x, at.1)` stands for it,
    /// unless the text is blank.
    Text { at: Point, text: String, end_x: i32 },
    /// Blur this region, if any.
    Blur(Option<PixelRect>),
    /// Pixelate this region, if any.
    Pixelate(Option<PixelRect>),
}

/// The segments of a pen stroke: between consecutive points.
pub open spec fn pen_segments(pts: Seq<Point>) -> Seq<(Point, Point)> {
    Seq::new((if pts.len() >= 1 { pts.len() - 1 } else { 0 }) as nat, |i: int| (pts[i], pts[i + 1]))
}

/// The four sides of a rectangle outline: top, right, bottom, left.
pub open spec fn rect_segments(start: Point, end: Point) -> Seq<(Point, Point)> {
    let p2 = (end.0, start.1);
    let p4 = (start.0, end.1);
    seq![(start, p2), (p2, end), (end, p4), (p4, start)]
}

/// The three strokes of an arrow.
pub open spec fn arrow_segments(start: Point, end: Point, heads: (Point, Point)) -> Seq<(Point, Point)> {
    seq![(start, end), (end, heads.0), (end, heads.1)]
}

/// Whether a blur or pixelate region is usable on a canvas of `w` x `h`.
pub open spec fn region_ok(r: Option<PixelRect>, w: int, h: int) -> bool {
    r matches Some(rect) ==> rect.within(w, h)
}

/// What an annotation does to the pixels `old` of a `w` x `h` canvas, giving `new`.
pub open spec fn annotation_effect(op: Annotation, old: Seq<Rgba>, w: int, h: int, new: Seq<Rgba>) -> bool {
    let green = annotation_green();
    match op {
        Annotation::Pen(pts) => repainted(old, new, w, h, |x: int, y: int| covered(segments_points(pen_segments(pts@)), x, y), |x: int, y: int| green),
        Annotation::Rect { start, end } => repainted(old, new, w, h, |x: int, y: int| covered(segments_points(rect_segments(start, end)), x, y), |x: int, y: int| green),
        Annotation::Arrow { start, end, heads } => repainted(old, new, w, h, |x: int, y: int| covered(segments_points(arrow_segments(start, end, heads)), x, y), |x: int, y: int| green),
        Annotation::Text { at, text, end_x } => if trim(text@).len() == 0 {
            new == old
        } else {
            repainted(old, new, w, h, |x: int, y: int| covered(line_points(at.0 as int, at.1 as int, end_x as int, at.1 as int), x, y), |x: int, y: int| green)
        },
        Annotation::Blur(None) => new == old,
        Annotation::Blur(Some(rect)) => repainted(old, new, w, h, |x: int, y: int| rect.contains(x, y), |x: int, y: int| blurred(old, w, h, x, y)),
        Annotation::Pixelate(None) => new == old,
        Annotation::Pixelate(Some(rect)) => repainted(old, new, w, h, |x: int, y: int| rect.contains(x, y), |x: int, y: int| pixelated(old, w, rect, x, y)),
    }
}

/// Whether an annotation can be applied to a `w` x `h` canvas: its regions lie on it.
pub open spec fn annotation_fits(op: Annotation, w: int, h: int) -> bool {
    match op {
        Annotation::Blur(r) => region_ok(r, w, h),
        Annotation::Pixelate(r) => region_ok(r, w, h),
        _ => true,
    }
}

/// Whether text is drawn at all: it is not blank.
pub fn has_visible_text(text: &str) -> (r: bool)
    ensures
        r == (trim(text@).len() != 0),
{
    !trim_str(text).is_empty()
}

/// Applies one annotation in green (see `annotation_effect`).
pub fn apply_annotation(img: &mut Canvas, op: &Annotation)
    requires
        old(img).wf(),
        old(img).width <= MAX_BLUR_SIDE,
        old(img).height <= MAX_BLUR_SIDE,
        annotation_fits(*op, old(img).width as int, old(img).height as int),
    ensures
        final(img).wf(),
        final(img).width == old(img).width,
        final(img).height == old(img).height,
        annotation_effect(*op, old(img).pixels@, old(img).width as int, old(img).height as int, final(img).pixels@),
{
    let green = Rgba { r: 34, g: 197, b: 94, a: 255 };
    match op {
        Annotation::Pen(points) => {
            let mut segs: Vec<(Point, Point)> = Vec::new();
            let n = points.len();
            let mut i: usize = 1;
            while i < n
                invariant
                    1 <= i,
                    n == points.len(),
                    i <= n || n == 0,
                    segs@ =~= pen_segments(points@).subrange(0, (i - 1) as int),
                    i - 1 <= pen_segments(points@).len(),
                decreases n - i,
            {
                segs.push((points[i - 1], points[i]));
                i = i + 1;
            }
            assert(segs@ =~= pen_segments(points@));
            draw_segments(img, &segs, green);
        },
        Annotation::Rect { start, end } => {
            let p2 = (end.0, start.1);
            let p4 = (start.0, end.1);
            let segs = vec![(*start, p2), (p2, *end), (*end, p4), (p4, *start)];
            assert(segs@ =~= rect_segments(*start, *end));
            draw_segments(img, &segs, green);
        },
        Annotation::Arrow { start, end, heads } => {
            let segs = vec![(*start, *end), (*end, heads.0), (*end, heads.1)];
            assert(segs@ =~= arrow_segments(*start, *end, *heads));
            draw_segments(img, &segs, green);
        },
        Annotation::Text { at, text, end_x } => {
            if has_visible_text(text.as_str()) {
                draw_line(img, at.0, at.1, *end_x, at.1, green);
            }
        },
        Annotation::Blur(rect) => {
            if let Some(r) = rect {
                apply_blur_rect(img, *r);
            }
        },
        Annotation::Pixelate(rect) => {
            if let Some(r) = rect {
                apply_pixelate_rect(img, *r);
            }
        },
    }
}

proof fn lemma_line_reaches_end(
    x: int,
    y: int,
    err: int,
    x1: int,
    y1: int,
    dx: int,
    dy: int,
    sx: int,
    sy: int,
    fuel: nat,
)
    requires
        line_inv(x, y, err, x1, y1, dx, dy, sx, sy),
        line_remaining(x, y, x1, y1, sx, sy).0 + line_remaining(x, y, x1, y1, sx, sy).1 < fuel,
    ensures
        ({
            let pts = line_points_from(x, y, err, x1, y1, dx, dy, sx, sy, fuel);
            &&& pts.len() > 0
            &&& pts[0] == (x, y)
            &&& pts.last() == (x1, y1)
        }),
    decreases fuel,
{
    if !(x == x1 && y == y1) {
        let (nx, ny, ne) = line_step(x, y, err, dx, dy, sx, sy);
        lemma_line_step(x, y, err, x1, y1, dx, dy, sx, sy);
        lemma_line_reaches_end(nx, ny, ne, x1, y1, dx, dy, sx, sy, (fuel - 1) as nat);
        lemma_line_points_step(x, y, err, x1, y1, dx, dy, sx, sy, fuel);
        let rest = line_points_from(nx, ny, ne, x1, y1, dx, dy, sx, sy, (fuel - 1) as nat);
        assert((seq![(x, y)] + rest).last() == rest.last());
    }
}

/// The integer line runs from its first end point to its second, so a drawn line covers
/// both ends.
pub proof fn lemma_line_covers_ends(x0: int, y0: int, x1: int, y1: int)
    ensures
        ({
            let pts = line_points(x0, y0, x1, y1);
            &&& pts.len() > 0
            &&& pts[0] == (x0, y0)
            &&& pts.last() == (x1, y1)
        }),
        covered(line_points(x0, y0, x1, y1), x0, y0),
        covered(line_points(x0, y0, x1, y1), x1, y1),
{
    let dx = abs(x1 - x0);
    let dy = -abs(y1 - y0);
    let sx = if x0 < x1 {
        1int
    } else {
        -1int
    };
    let sy = if y0 < y1 {
        1int
    } else {
        -1int
    };
    let (a, b) = line_remaining(x0, y0, x1, y1, sx, sy);
    assert(a == dx && b == -dy);
    assert(dx + dy == dx + dy - dx * b - dy * a) by (nonlinear_arith)
        requires
            a == dx,
            b == -dy,
    ;
    lemma_line_reaches_end(x0, y0, dx + dy, x1, y1, dx, dy, sx, sy, (dx - dy + 1) as nat);
    let pts = line_points(x0, y0, x1, y1);
    assert(near(pts[0], x0, y0));
    assert(near(pts[pts.len() - 1], x1, y1));
}

/// Pixelating makes each block one solid colour: two pixels of the rectangle in the same
/// 12 x 12 block get the same colour.
pub proof fn lemma_pixelate_blocks_uniform(
    p: Seq<Rgba>,
    w: int,
    rect: PixelRect,
    x: int,
    y: int,
    x2: int,
    y2: int,
)
    requires
        block_start(x, rect.x0 as int) == block_start(x2, rect.x0 as int),
        block_start(y, rect.y0 as int) == block_start(y2, rect.y0 as int),
    ensures
        pixelated(p, w, rect, x, y) == pixelated(p, w, rect, x2, y2),
{
}

proof fn lemma_uniform_row(p: Seq<Rgba>, w: int, y: int, bx: int, k: nat, ch: int, c: Rgba)
    requires
        forall|xx: int| bx <= xx < bx + k ==> #[trigger] px(p, w, xx, y) == c,
    ensures
        block_row_sum(p, w, y, bx, k, ch) == k * chan(c, ch),
    decreases k,
{
    if k > 0 {
        let k1 = (k - 1) as nat;
        lemma_uniform_row(p, w, y, bx, k1, ch, c);
        assert(px(p, w, bx + k - 1, y) == c);
        let v = chan(c, ch);
        assert(k1 * v + v == k * v) by (nonlinear_arith)
            requires
                k1 == k - 1,
        ;
    } else {
        assert(0 * chan(c, ch) == 0);
    }
}

proof fn lemma_uniform_block(p: Seq<Rgba>, w: int, bx: int, by: int, kx: nat, m: nat, ch: int, c: Rgba)
    requires
        forall|xx: int, yy: int|
            bx <= xx < bx + kx && by <= yy < by + m ==> #[trigger] px(p, w, xx, yy) == c,
    ensures
        block_sum(p, w, bx, by, kx, m, ch) == kx * m * chan(c, ch),
    decreases m,
{
    if m > 0 {
        let m1 = (m - 1) as nat;
        lemma_uniform_block(p, w, bx, by, kx, m1, ch, c);
        let y = by + m - 1;
        assert forall|xx: int| bx <= xx < bx + kx implies #[trigger] px(p, w, xx, y) == c by {}
        lemma_uniform_row(p, w, y, bx, kx, ch, c);
        let v = chan(c, ch);
        assert(kx * m1 * v + kx * v == kx * m * v) by (nonlinear_arith)
            requires
                m1 == m - 1,
        ;
    } else {
        assert(kx * 0 * chan(c, ch) == 0) by (nonlinear_arith);
    }
}

proof fn lemma_mean_of_uniform(v: int, n: int)
    requires
        n > 0,
    ensures
        (n * v) / n == v,
{
    assert((n * v) / n == v) by (nonlinear_arith)
        requires
            n > 0,
    ;
}

/// Pixelating a region leaves every pixel of it equal to the mean of its block: a block
/// already of one colour keeps it.
proof fn lemma_pixelated_fixed(old: Seq<Rgba>, mid: Seq<Rgba>, w: int, h: int, rect: PixelRect, x: int, y: int)
    requires
        rect.within(w, h),
        rect.contains(x, y),
        repainted(old, mid, w, h, |x: int, y: int| rect.contains(x, y), |x: int, y: int| pixelated(old, w, rect, x, y)),
    ensures
        pixelated(mid, w, rect, x, y) == px(mid, w, x, y),
{
    let x0 = rect.x0 as int;
    let y0 = rect.y0 as int;
    let qx = (x - x0) / 12;
    let qy = (y - y0) / 12;
    let bx = block_start(x, x0);
    let by = block_start(y, y0);
    assert(0 <= qx && 12 * qx <= x - x0 < 12 * qx + 12) by (nonlinear_arith)
        requires
            qx == (x - x0) / 12,
            x - x0 >= 0,
    ;
    assert(0 <= qy && 12 * qy <= y - y0 < 12 * qy + 12) by (nonlinear_arith)
        requires
            qy == (y - y0) / 12,
            y - y0 >= 0,
    ;
    assert(bx == x0 + 12 * qx);
    assert(by == y0 + 12 * qy);
    let ex = if bx + 12 < rect.x1 { bx + 12 } else { rect.x1 as int };
    let ey = if by + 12 < rect.y1 { by + 12 } else { rect.y1 as int };
    let kx = (ex - bx) as nat;
    let m = (ey - by) as nat;
    let c = pixelated(old, w, rect, x, y);
    assert forall|xx: int, yy: int| bx <= xx < bx + kx && by <= yy < by + m implies #[trigger] px(
        mid,
        w,
        xx,
        yy,
    ) == c by {
        lemma_block_start(xx, x0, qx);
        lemma_block_start(yy, y0, qy);
        assert(rect.contains(xx, yy));
        assert(on_canvas(w, h, xx, yy));
    }
    assert(kx * m > 0) by (nonlinear_arith)
        requires
            kx >= 1,
            m >= 1,
    ;
    let n = (kx * m) as int;
    lemma_uniform_block(mid, w, bx, by, kx, m, 0, c);
    lemma_uniform_block(mid, w, bx, by, kx, m, 1, c);
    lemma_uniform_block(mid, w, bx, by, kx, m, 2, c);
    lemma_uniform_block(mid, w, bx, by, kx, m, 3, c);
    lemma_mean_of_uniform(c.r as int, n);
    lemma_mean_of_uniform(c.g as int, n);
    lemma_mean_of_uniform(c.b as int, n);
    lemma_mean_of_uniform(c.a as int, n);
    assert(n * (c.r as int) == kx * m * chan(c, 0));
    assert(n * (c.g as int) == kx * m * chan(c, 1));
    assert(n * (c.b as int) == kx * m * chan(c, 2));
    assert(n * (c.a as int) == kx * m * chan(c, 3));
    assert(px(mid, w, x, y) == c);
}

/// Pixelating the same region twice is pixelating it once: after the first pass every
/// block is one colour, which is its own mean, so the second pass changes no pixel.
pub proof fn lemma_pixelate_twice(
    old: Seq<Rgba>,
    mid: Seq<Rgba>,
    new: Seq<Rgba>,
    w: int,
    h: int,
    rect: PixelRect,
)
    requires
        old.len() == w * h,
        rect.within(w, h),
        repainted(old, mid, w, h, |x: int, y: int| rect.contains(x, y), |x: int, y: int| pixelated(old, w, rect, x, y)),
        repainted(mid, new, w, h, |x: int, y: int| rect.contains(x, y), |x: int, y: int| pixelated(mid, w, rect, x, y)),
    ensures
        new == mid,
{
    assert forall|x: int, y: int| on_canvas(w, h, x, y) implies #[trigger] px(new, w, x, y) == px(mid, w, x, y) by {
        if rect.contains(x, y) {
            lemma_pixelated_fixed(old, mid, w, h, rect, x, y);
        }
    }
    assert forall|i: int| 0 <= i < new.len() implies new[i] == mid[i] by {
        let x = i % w;
        let y = i / w;
        assert(w > 0 && 0 <= x < w && 0 <= y < h && y * w + x == i) by (nonlinear_arith)
            requires
                0 <= i < w * h,
                x == i % w,
                y == i / w,
                w >= 0,
                h >= 0,
        ;
        assert(px(new, w, x, y) == px(mid, w, x, y));
    }
    assert(new =~= mid);
}

proof fn lemma_blur_row_uniform(p: Seq<Rgba>, w: int, h: int, x: int, y: int, oy: int, k: nat, ch: int, c: Rgba)
    requires
        on_canvas(w, h, x, y),
        -6 <= oy <= 6,
        k <= 13,
        forall|xx: int, yy: int|
            on_canvas(w, h, xx, yy) && x - 6 <= xx <= x + 6 && y - 6 <= yy <= y + 6
                ==> #[trigger] px(p, w, xx, yy) == c,
    ensures
        blur_row_sum(p, w, h, x, y, oy, k, ch) == k * chan(c, ch),
    decreases k,
{
    if k > 0 {
        let k1 = (k - 1) as nat;
        lemma_blur_row_uniform(p, w, h, x, y, oy, k1, ch, c);
        let xx = clamp_to(x + k1 - 6, 0, w - 1);
        let yy = clamp_to(y + oy, 0, h - 1);
        assert(on_canvas(w, h, xx, yy) && x - 6 <= xx <= x + 6 && y - 6 <= yy <= y + 6);
        assert(px(p, w, xx, yy) == c);
        let v = chan(c, ch);
        assert(k1 * v + v == k * v) by (nonlinear_arith)
            requires
                k1 == k - 1,
        ;
    } else {
        assert(0 * chan(c, ch) == 0);
    }
}

proof fn lemma_blur_window_uniform(p: Seq<Rgba>, w: int, h: int, x: int, y: int, m: nat, ch: int, c: Rgba)
    requires
        on_canvas(w, h, x, y),
        m <= 13,
        forall|xx: int, yy: int|
            on_canvas(w, h, xx, yy) && x - 6 <= xx <= x + 6 && y - 6 <= yy <= y + 6
                ==> #[trigger] px(p, w, xx, yy) == c,
    ensures
        blur_window_sum(p, w, h, x, y, m, ch) == 13 * m * chan(c, ch),
    decreases m,
{
    if m > 0 {
        let m1 = (m - 1) as nat;
        lemma_blur_window_uniform(p, w, h, x, y, m1, ch, c);
        lemma_blur_row_uniform(p, w, h, x, y, m1 - 6, 13, ch, c);
        let v = chan(c, ch);
        assert(13 * m1 * v + 13 * v == 13 * m * v) by (nonlinear_arith)
            requires
                m1 == m - 1,
        ;
    } else {
        assert(13 * 0 * chan(c, ch) == 0) by (nonlinear_arith);
    }
}

/// The blur window is centred on the pixel itself: a pixel whose neighbours within six
/// columns and six rows (those on the canvas) all have colour `c` blurs to `c`, whatever
/// the canvas holds further away.
pub proof fn lemma_blur_keeps_uniform_neighbourhood(p: Seq<Rgba>, w: int, h: int, x: int, y: int, c: Rgba)
    requires
        on_canvas(w, h, x, y),
        forall|xx: int, yy: int|
            on_canvas(w, h, xx, yy) && x - 6 <= xx <= x + 6 && y - 6 <= yy <= y + 6
                ==> #[trigger] px(p, w, xx, yy) == c,
    ensures
        blurred(p, w, h, x, y) == c,
{
    lemma_blur_window_uniform(p, w, h, x, y, 13, 0, c);
    lemma_blur_window_uniform(p, w, h, x, y, 13, 1, c);
    lemma_blur_window_uniform(p, w, h, x, y, 13, 2, c);
    lemma_blur_window_uniform(p, w, h, x, y, 13, 3, c);
    lemma_mean_of_uniform(c.r as int, 169);
    lemma_mean_of_uniform(c.g as int, 169);
    lemma_mean_of_uniform(c.b as int, 169);
    lemma_mean_of_uniform(c.a as int, 169);
}

/// Blurring a region leaves a pixel of it unchanged when its 13 x 13 neighbourhood on the
/// canvas is of one colour.
pub proof fn lemma_blur_region_keeps_uniform(
    old: Seq<Rgba>,
    new: Seq<Rgba>,
    w: int,
    h: int,
    rect: PixelRect,
    x: int,
    y: int,
    c: Rgba,
)
    requires
        repainted(old, new, w, h, |x: int, y: int| rect.contains(x, y), |x: int, y: int| blurred(old, w, h, x, y)),
        on_canvas(w, h, x, y),
        forall|xx: int, yy: int|
            on_canvas(w, h, xx, yy) && x - 6 <= xx <= x + 6 && y - 6 <= yy <= y + 6
                ==> #[trigger] px(old, w, xx, yy) == c,
    ensures
        px(new, w, x, y) == c,
{
    lemma_blur_keeps_uniform_neighbourhood(old, w, h, x, y, c);
    assert(px(old, w, x, y) == c);
}

/// `v` lies between `a` and `b`, both included, in either order.
pub open spec fn between(v: int, a: int, b: int) -> bool {
    (a <= v && v <= b) || (b <= v && v <= a)
}

proof fn lemma_vertical_from(x: int, y: int, y1: int, dy: int, sy: int, fuel: nat)
    requires
        dy <= 0,
        y != y1 ==> dy < 0,
        sy == 1 ==> y <= y1,
        sy == -1 ==> y1 <= y,
        sy == 1 || sy == -1,
        abs(y1 - y) < fuel,
    ensures
        forall|yy: int| between(yy, y, y1) ==> #[trigger] covered(
            line_points_from(x, y, dy, x, y1, 0, dy, -1, sy, fuel),
            x,
            yy,
        ),
    decreases fuel,
{
    let pts = line_points_from(x, y, dy, x, y1, 0, dy, -1, sy, fuel);
    if y == y1 {
        assert forall|yy: int| between(yy, y, y1) implies #[trigger] covered(pts, x, yy) by {
            assert(near(pts[0], x, yy));
        }
    } else {
        let ny = y + sy;
        assert(line_step(x, y, dy, 0, dy, -1, sy) == (x, ny, dy));
        lemma_vertical_from(x, ny, y1, dy, sy, (fuel - 1) as nat);
        let rest = line_points_from(x, ny, dy, x, y1, 0, dy, -1, sy, (fuel - 1) as nat);
        assert(pts == seq![(x, y)] + rest);
        assert forall|yy: int| between(yy, y, y1) implies #[trigger] covered(pts, x, yy) by {
            lemma_covered_concat(seq![(x, y)], rest, x, yy);
            if yy == y {
                assert(near(seq![(x, y)][0], x, yy));
            } else {
                assert(between(yy, ny, y1));
                assert(covered(rest, x, yy));
            }
        }
    }
}

proof fn lemma_horizontal_from(x: int, y: int, x1: int, dx: int, sx: int, fuel: nat)
    requires
        dx >= 0,
        x != x1 ==> dx > 0,
        sx == 1 ==> x <= x1,
        sx == -1 ==> x1 <= x,
        sx == 1 || sx == -1,
        abs(x1 - x) < fuel,
    ensures
        forall|xx: int| between(xx, x, x1) ==> #[trigger] covered(
            line_points_from(x, y, dx, x1, y, dx, 0, sx, -1, fuel),
            xx,
            y,
        ),
    decreases fuel,
{
    let pts = line_points_from(x, y, dx, x1, y, dx, 0, sx, -1, fuel);
    if x == x1 {
        assert forall|xx: int| between(xx, x, x1) implies #[trigger] covered(pts, xx, y) by {
            assert(near(pts[0], xx, y));
        }
    } else {
        let nx = x + sx;
        assert(line_step(x, y, dx, dx, 0, sx, -1) == (nx, y, dx));
        lemma_horizontal_from(nx, y, x1, dx, sx, (fuel - 1) as nat);
        let rest = line_points_from(nx, y, dx, x1, y, dx, 0, sx, -1, (fuel - 1) as nat);
        assert(pts == seq![(x, y)] + rest);
        assert forall|xx: int| between(xx, x, x1) implies #[trigger] covered(pts, xx, y) by {
            lemma_covered_concat(seq![(x, y)], rest, xx, y);
            if xx == x {
                assert(near(seq![(x, y)][0], xx, y));
            } else {
                assert(between(xx, nx, x1));
                assert(covered(rest, xx, y));
            }
        }
    }
}

/// A vertical line covers every point of its column between its ends.
proof fn lemma_vertical_line(x: int, y0: int, y1: int)
    ensures
        forall|yy: int| between(yy, y0, y1) ==> #[trigger] covered(line_points(x, y0, x, y1), x, yy),
{
    let dy = -abs(y1 - y0);
    let sy = if y0 < y1 { 1int } else { -1int };
    assert(abs(x - x) == 0);
    lemma_vertical_from(x, y0, y1, dy, sy, (0 - dy + 1) as nat);
}

/// A horizontal line covers every point of its row between its ends.
proof fn lemma_horizontal_line(x0: int, x1: int, y: int)
    ensures
        forall|xx: int| between(xx, x0, x1) ==> #[trigger] covered(line_points(x0, y, x1, y), xx, y),
{
    let dx = abs(x1 - x0);
    let sx = if x0 < x1 { 1int } else { -1int };
    assert(abs(y - y) == 0);
    lemma_horizontal_from(x0, y, x1, dx, sx, (dx + 1) as nat);
}

/// A rectangle annotation paints all four sides green: every pixel on the canvas in the
/// columns of its two corners between its two rows, and in the rows of its two corners
/// between its two columns.
pub proof fn lemma_rect_sides_painted(start: Point, end: Point, old: Seq<Rgba>, w: int, h: int, new: Seq<Rgba>)
    requires
        annotation_effect(Annotation::Rect { start, end }, old, w, h, new),
    ensures
        forall|x: int, y: int|
            on_canvas(w, h, x, y) && (((x == start.0 || x == end.0) && between(
                y,
                start.1 as int,
                end.1 as int,
            )) || ((y == start.1 || y == end.1) && between(x, start.0 as int, end.0 as int)))
                ==> #[trigger] px(new, w, x, y) == (Rgba { r: 34, g: 197, b: 94, a: 255 }),
{
    let (sx, sy, ex, ey) = (start.0 as int, start.1 as int, end.0 as int, end.1 as int);
    let segs = rect_segments(start, end);
    let l1 = line_points(sx, sy, ex, sy);
    let l2 = line_points(ex, sy, ex, ey);
    let l3 = line_points(ex, ey, sx, ey);
    let l4 = line_points(sx, ey, sx, sy);
    let s3 = segs.drop_last();
    let s2 = s3.drop_last();
    let s1 = s2.drop_last();
    let s0 = s1.drop_last();
    assert(s0 =~= Seq::<(Point, Point)>::empty());
    assert(s1.last() == (start, (end.0, start.1)));
    assert(s2.last() == ((end.0, start.1), end));
    assert(s3.last() == (end, (start.0, end.1)));
    assert(segs.last() == ((start.0, end.1), start));
    assert(segments_points(s0) == Seq::<(int, int)>::empty());
    assert(segments_points(s1) == Seq::<(int, int)>::empty() + l1);
    assert(segments_points(s2) == Seq::<(int, int)>::empty() + l1 + l2);
    assert(segments_points(s3) == Seq::<(int, int)>::empty() + l1 + l2 + l3);
    assert(segments_points(segs) == Seq::<(int, int)>::empty() + l1 + l2 + l3 + l4);
    let all = segments_points(segs);
    lemma_horizontal_line(sx, ex, sy);
    lemma_vertical_line(ex, sy, ey);
    lemma_horizontal_line(ex, sx, ey);
    lemma_vertical_line(sx, ey, sy);
    assert forall|x: int, y: int|
        on_canvas(w, h, x, y) && (((x == start.0 || x == end.0) && between(y, sy, ey)) || ((y
            == start.1 || y == end.1) && between(x, sx, ex))) implies #[trigger] px(new, w, x, y)
        == (Rgba { r: 34, g: 197, b: 94, a: 255 }) by {
        lemma_covered_concat(Seq::<(int, int)>::empty(), l1, x, y);
        lemma_covered_concat(Seq::<(int, int)>::empty() + l1, l2, x, y);
        lemma_covered_concat(Seq::<(int, int)>::empty() + l1 + l2, l3, x, y);
        lemma_covered_concat(Seq::<(int, int)>::empty() + l1 + l2 + l3, l4, x, y);
        if x == ex && between(y, sy, ey) {
            assert(covered(l2, x, y));
        } else if x == sx && between(y, sy, ey) {
            assert(between(y, ey, sy));
            assert(covered(l4, x, y));
        } else if y == sy {
            assert(covered(l1, x, y));
        } else {
            assert(between(x, ex, sx));
            assert(covered(l3, x, y));
        }
        assert(covered(all, x, y));
    }
}

} // verus!
