//! Captured frames: conversion to packed RGBA, cropping, downscaling and PNG
//! encoding.

use vstd::prelude::*;

verus! {

/// A captured frame in packed RGBA8: four bytes per pixel, no row padding.
#[derive(Debug, PartialEq, Eq)]
pub struct RgbaBuffer {
    pub width: u32,
    pub height: u32,
    /// Packed `width * height * 4` bytes, RGBA order.
    pub data: Vec<u8>,
}

/// The shared-memory pixel formats that can be decoded; all others are `Other`.
#[derive(Debug, Clone, Copy, PartialEq, Eq, Structural)]
pub enum ShmFormat {
    Argb8888,
    Xrgb8888,
    Abgr8888,
    Xbgr8888,
    Other,
}

/// Byte `b` of row `y`, in rows of `row` bytes.
pub open spec fn at(data: Seq<u8>, row: int, y: int, b: int) -> u8 {
    data[y * row + b]
}

/// The lower end of the part of `[start, start + len)` inside `[0, size)`.
pub open spec fn clip_start(start: int, size: int) -> int {
    if start < 0 {
        0
    } else if start > size {
        size
    } else {
        start
    }
}

/// The size of an image of `w` by `h` scaled down by the tighter of the two
/// ratios, so that it fits `max_w` by `max_h`: the tighter side is met
/// exactly, the other is rounded to the nearest integer and is at least one.
pub open spec fn fit(w: int, h: int, max_w: int, max_h: int) -> (int, int) {
    if max_w * h <= max_h * w {
        (max_w, at_least_one(rounded_ratio(h * max_w, w)))
    } else {
        (at_least_one(rounded_ratio(w * max_h, h)), max_h)
    }
}

/// `n` or one, whichever is greater.
pub open spec fn at_least_one(n: int) -> int {
    if n < 1 {
        1
    } else {
        n
    }
}

/// `a / b` rounded to the nearest integer, halves up.
pub open spec fn rounded_ratio(a: int, b: int) -> int {
    (2 * a + b) / (2 * b)
}

/// The first of `size` source positions that destination `d` of `n` overlaps.
pub open spec fn window_start(d: int, size: int, n: int) -> int {
    (d * size) / n
}

/// The end of the source positions that destination `d` of `n` overlaps.
pub open spec fn window_end(d: int, size: int, n: int) -> int {
    ((d + 1) * size + (n - 1)) / n
}

/// `v`, or the nearest end of destination `d`, which reaches from `d * size` to
/// `(d + 1) * size`.
pub open spec fn reach(v: int, d: int, size: int) -> int {
    if v < d * size {
        d * size
    } else if v > (d + 1) * size {
        (d + 1) * size
    } else {
        v
    }
}

/// How much of the source positions `s0..s1` of `size` lies in destination `d`
/// of `n`, in units of one `n`-th of a source position.
pub open spec fn covered(s0: int, s1: int, d: int, size: int, n: int) -> int {
    reach(s1 * n, d, size) - reach(s0 * n, d, size)
}

/// The sum of channel `k` over the pixels `x0..x1` of row `y`, each weighted by
/// how much of it lies in column `dx` of `dw`.
pub open spec fn row_sum(
    data: Seq<u8>,
    w: int,
    k: int,
    y: int,
    dx: int,
    dw: int,
    x0: int,
    x1: int,
) -> int
    decreases x1 - x0,
{
    if x1 <= x0 {
        0
    } else {
        row_sum(data, w, k, y, dx, dw, x0, x1 - 1) + covered(x1 - 1, x1, dx, w, dw) * at(
            data,
            w * 4,
            y,
            (x1 - 1) * 4 + k,
        )
    }
}

/// The sum of channel `k` over the rows `y0..y1`, each pixel weighted by how
/// much of it lies in column `dx` of `dw` and row `dy` of `dh`.
pub open spec fn block_sum(
    data: Seq<u8>,
    w: int,
    h: int,
    k: int,
    dx: int,
    dw: int,
    dy: int,
    dh: int,
    y0: int,
    y1: int,
) -> int
    decreases y1 - y0,
{
    if y1 <= y0 {
        0
    } else {
        block_sum(data, w, h, k, dx, dw, dy, dh, y0, y1 - 1) + covered(y1 - 1, y1, dy, h, dh)
            * row_sum(
            data,
            w,
            k,
            y1 - 1,
            dx,
            dw,
            window_start(dx, w, dw),
            window_end(dx, w, dw),
        )
    }
}

/// The mean of channel `k` over the area that the pixel in column `dx` of `dw`
/// and row `dy` of `dh` covers of an image of `w` by `h`, rounded down. The
/// weights of the source pixels add up to `w * h`.
pub open spec fn area_mean(
    data: Seq<u8>,
    w: int,
    h: int,
    k: int,
    dx: int,
    dw: int,
    dy: int,
    dh: int,
) -> int {
    block_sum(
        data,
        w,
        h,
        k,
        dx,
        dw,
        dy,
        dh,
        window_start(dy, h, dh),
        window_end(dy, h, dh),
    ) / (w * h)
}

proof fn lemma_in_row(y: int, b: int, row: int, height: int)
    requires
        0 <= y < height,
        0 <= b < row,
    ensures
        0 <= y * row + b < height * row,
        y * row + b < (y + 1) * row,
{
    assert(0 <= y * row + b < height * row && y * row + b < (y + 1) * row) by (nonlinear_arith)
        requires
            0 <= y < height,
            0 <= b < row,
    ;
}

/// What a fitted image's size is good for: it fits the box, is not empty and
/// is no larger than the source.
pub proof fn law_fit_is_within_box(w: int, h: int, max_w: int, max_h: int)
    requires
        w > 0,
        h > 0,
        max_w > 0,
        max_h > 0,
        w > max_w || h > max_h,
    ensures
        1 <= fit(w, h, max_w, max_h).0 <= max_w,
        1 <= fit(w, h, max_w, max_h).1 <= max_h,
        fit(w, h, max_w, max_h).0 <= w,
        fit(w, h, max_w, max_h).1 <= h,
{
    if max_w * h <= max_h * w {
        assert(max_w < w) by (nonlinear_arith)
            requires
                max_w * h <= max_h * w,
                w > max_w || h > max_h,
                w > 0,
                h > 0,
                max_w > 0,
        ;
        lemma_rounded(h * max_w, w, max_h);
        assert(h * max_w <= h * w) by (nonlinear_arith)
            requires
                max_w < w,
                h > 0,
        ;
        assert(h * max_w <= max_h * w) by (nonlinear_arith)
            requires
                max_w * h <= max_h * w,
        ;
        lemma_rounded(h * max_w, w, h);
    } else {
        assert(max_h < h) by (nonlinear_arith)
            requires
                max_w * h > max_h * w,
                w > max_w || h > max_h,
                w > 0,
                h > 0,
                max_w > 0,
                max_h > 0,
        ;
        assert(w * max_h <= max_w * h) by (nonlinear_arith)
            requires
                max_w * h > max_h * w,
        ;
        assert(w * max_h <= w * h) by (nonlinear_arith)
            requires
                max_h < h,
                w > 0,
        ;
        lemma_rounded(w * max_h, h, max_w);
        lemma_rounded(w * max_h, h, w);
    }
}

proof fn lemma_rounded(a: int, b: int, c: int)
    requires
        b > 0,
        a >= 0,
        c >= 0,
    ensures
        0 <= rounded_ratio(a, b),
        a <= c * b ==> rounded_ratio(a, b) <= c,
{
    assert(0 <= (2 * a + b) / (2 * b)) by (nonlinear_arith)
        requires
            b > 0,
            a >= 0,
    ;
    if a <= c * b {
        assert((2 * a + b) / (2 * b) <= c) by (nonlinear_arith)
            requires
                b > 0,
                a >= 0,
                a <= c * b,
        ;
    }
}

/// Each destination position overlaps at least one source position, and no
/// position outside the source.
pub proof fn law_windows_cover_source(d: int, size: int, n: int)
    requires
        0 <= d < n,
        0 < n <= size,
    ensures
        0 <= window_start(d, size, n) < window_end(d, size, n) <= size,
        window_start(0, size, n) == 0,
        window_end(n - 1, size, n) == size,
        window_start(d + 1, size, n) <= window_end(d, size, n),
{
    let a = d * size;
    let b = (d + 1) * size;
    assert(b == a + size) by (nonlinear_arith)
        requires
            a == d * size,
            b == (d + 1) * size,
    ;
    assert(0 <= a) by (nonlinear_arith)
        requires
            a == d * size,
            d >= 0,
            size > 0,
    ;
    assert(b <= n * size) by (nonlinear_arith)
        requires
            b == (d + 1) * size,
            d + 1 <= n,
            size > 0,
    ;
    assert(0 <= a / n) by (nonlinear_arith)
        requires
            0 <= a,
            n > 0,
    ;
    assert(a / n < (b + (n - 1)) / n) by (nonlinear_arith)
        requires
            n > 0,
            b >= a + n,
    ;
    assert((b + (n - 1)) / n <= size) by (nonlinear_arith)
        requires
            n > 0,
            b <= n * size,
    ;
    assert(b / n <= (b + (n - 1)) / n) by (nonlinear_arith)
        requires
            n > 0,
    ;
    assert((n * size + (n - 1)) / n == size) by (nonlinear_arith)
        requires
            n > 0,
    ;
    assert((0 * size) / n == 0) by (nonlinear_arith)
        requires
            n > 0,
    ;
}

proof fn lemma_covered(s0: int, s1: int, d: int, size: int, n: int)
    requires
        s0 <= s1,
        0 <= n,
        0 <= size,
    ensures
        0 <= covered(s0, s1, d, size, n) <= size,
{
    assert(s0 * n <= s1 * n) by (nonlinear_arith)
        requires
            s0 <= s1,
            0 <= n,
    ;
    assert((d + 1) * size == d * size + size) by (nonlinear_arith);
}

/// The weights of the source positions that a destination position overlaps
/// add up to the number of source positions, the same for every destination.
pub proof fn law_weights_add_up(d: int, size: int, n: int)
    requires
        0 <= d < n,
        0 < n <= size,
    ensures
        covered(window_start(d, size, n), window_end(d, size, n), d, size, n) == size,
{
    let a = d * size;
    let b = (d + 1) * size;
    assert(b == a + size) by (nonlinear_arith)
        requires
            a == d * size,
            b == (d + 1) * size,
    ;
    assert((a / n) * n <= a) by (nonlinear_arith)
        requires
            n > 0,
    ;
    assert(((b + (n - 1)) / n) * n >= b) by (nonlinear_arith)
        requires
            n > 0,
    ;
}

fn byte_at(data: &Vec<u8>, row: usize, y: usize, b: usize, Ghost(height): Ghost<int>) -> (r: u8)
    requires
        y < height,
        b < row,
        data@.len() == height * row,
    ensures
        r == at(data@, row as int, y as int, b as int),
{
    proof {
        lemma_in_row(y as int, b as int, row as int, height);
        assert(data.len() == data@.len());
    }
    data[y * row + b]
}

impl Clone for RgbaBuffer {
    fn clone(&self) -> (r: Self)
        ensures
            r.width == self.width,
            r.height == self.height,
            r.data@ == self.data@,
    {
        RgbaBuffer {
            width: self.width,
            height: self.height,
            data: vstd::slice::slice_to_vec(self.data.as_slice()),
        }
    }
}

impl RgbaBuffer {
    /// The buffer holds exactly the pixels of its dimensions.
    pub open spec fn wf(&self) -> bool {
        self.data@.len() == self.height as int * (self.width as int * 4)
    }

    /// Byte `b` of row `y`.
    pub open spec fn byte(&self, y: int, b: int) -> u8 {
        at(self.data@, self.width as int * 4, y, b)
    }

    /// Crops a sub-rectangle out of this buffer. Rectangles that reach out of
    /// the source are clipped to it; an empty intersection gives `None`.
    pub fn crop(&self, x: i32, y: i32, w: u32, h: u32) -> (r: Option<RgbaBuffer>)
        requires
            self.wf(),
        ensures
            ({
                let x0 = clip_start(x as int, self.width as int);
                let x1 = clip_start(x + w, self.width as int);
                let y0 = clip_start(y as int, self.height as int);
                let y1 = clip_start(y + h, self.height as int);
                match r {
                    None => x0 >= x1 || y0 >= y1,
                    Some(c) => {
                        &&& x0 < x1 && y0 < y1
                        &&& c.width == x1 - x0
                        &&& c.height == y1 - y0
                        &&& c.wf()
                        &&& forall|v: int, b: int|
                            0 <= v < c.height && 0 <= b < c.width * 4 ==> #[trigger] c.byte(v, b)
                                == self.byte(y0 + v, x0 * 4 + b)
                    },
                }
            }),
    {
        let (cx, cex) = clip(x, w, self.width);
        let (cy, cey) = clip(y, h, self.height);
        if cx >= cex || cy >= cey {
            return None;
        }
        let cw: u32 = cex - cx;
        let ch: u32 = cey - cy;
        let ghost wide = self.width as int * 4;
        let ghost narrow = cw as int * 4;
        proof {
            assert(self.data.len() == self.data@.len());
            assert(self.width * 4 <= self.data@.len()) by (nonlinear_arith)
                requires
                    self.data@.len() == self.height as int * (self.width as int * 4),
                    self.height >= 1,
            ;
        }
        let row_bytes: usize = self.width as usize * 4;
        let offset: usize = cx as usize * 4;
        let span: usize = cw as usize * 4;
        let mut out: Vec<u8> = Vec::new();
        let mut v: u32 = 0;
        while v < ch
            invariant
                self.wf(),
                row_bytes == self.width as int * 4,
                offset == cx as int * 4,
                span == narrow,
                narrow == cw as int * 4,
                cx + cw <= self.width,
                cy + ch <= self.height,
                cw > 0,
                v <= ch,
                out@.len() == v as int * narrow,
                forall|r: int, b: int|
                    0 <= r < v && 0 <= b < narrow ==> #[trigger] at(out@, narrow, r, b)
                        == self.byte(cy + r, cx * 4 + b),
            decreases ch - v,
        {
            let mut b: usize = 0;
            while b < span
                invariant
                    self.wf(),
                    row_bytes == self.width as int * 4,
                    offset == cx as int * 4,
                    span == narrow,
                    narrow == cw as int * 4,
                    cx + cw <= self.width,
                    cy + ch <= self.height,
                    v < ch,
                    b <= span,
                    out@.len() == v as int * narrow + b,
                    forall|r: int, c: int|
                        0 <= r < v && 0 <= c < narrow ==> #[trigger] at(out@, narrow, r, c)
                            == self.byte(cy + r, cx * 4 + c),
                    forall|c: int|
                        0 <= c < b ==> #[trigger] at(out@, narrow, v as int, c) == self.byte(
                            cy + v,
                            cx * 4 + c,
                        ),
                decreases span - b,
            {
                let ghost before = out@;
                let value = byte_at(
                    &self.data,
                    row_bytes,
                    (cy + v) as usize,
                    offset + b,
                    Ghost(self.height as int),
                );
                out.push(value);
                proof {
                    assert forall|r: int, c: int| 0 <= r < v && 0 <= c < narrow implies #[trigger] at(
                        out@,
                        narrow,
                        r,
                        c,
                    ) == self.byte(cy + r, cx * 4 + c) by {
                        lemma_in_row(r, c, narrow, v as int);
                        assert(at(before, narrow, r, c) == self.byte(cy + r, cx * 4 + c));
                    }
                    assert forall|c: int| 0 <= c < b + 1 implies #[trigger] at(
                        out@,
                        narrow,
                        v as int,
                        c,
                    ) == self.byte(cy + v, cx * 4 + c) by {
                        assert(0 <= v as int * narrow) by (nonlinear_arith)
                            requires
                                narrow >= 0,
                        ;
                        if c < b {
                            assert(at(before, narrow, v as int, c) == self.byte(cy + v, cx * 4 + c));
                        }
                    }
                }
                b = b + 1;
            }
            proof {
                assert((v + 1) as int * narrow == v as int * narrow + narrow) by (nonlinear_arith);
            }
            v = v + 1;
        }
        Some(RgbaBuffer { width: cw, height: ch, data: out })
    }

    /// Downscales to fit within a box, preserving the aspect ratio: each
    /// destination pixel is the mean of the source pixels that it overlaps,
    /// weighted by how much of each it overlaps. A buffer that already fits
    /// comes back as it is.
    pub fn downscale_to_box(&self, max_w: u32, max_h: u32) -> (r: RgbaBuffer)
        requires
            self.wf(),
        ensures
            r.wf(),
            ({
                if self.width == 0 || self.height == 0 || max_w == 0 || max_h == 0 || (self.width
                    <= max_w && self.height <= max_h) {
                    r.width == self.width && r.height == self.height && r.data@ == self.data@
                } else {
                    let size = fit(
                        self.width as int,
                        self.height as int,
                        max_w as int,
                        max_h as int,
                    );
                    &&& r.width == size.0
                    &&& r.height == size.1
                    &&& forall|y: int, x: int, k: int|
                        0 <= y < size.1 && 0 <= x < size.0 && 0 <= k < 4 ==> #[trigger] r.byte(
                            y,
                            x * 4 + k,
                        ) == area_mean(
                            self.data@,
                            self.width as int,
                            self.height as int,
                            k,
                            x,
                            size.0,
                            y,
                            size.1,
                        )
                }
            }),
    {
        if self.width == 0 || self.height == 0 || max_w == 0 || max_h == 0 || (self.width <= max_w
            && self.height <= max_h) {
            return self.clone();
        }
        let ghost w = self.width as int;
        let ghost h = self.height as int;
        let ghost size = fit(w, h, max_w as int, max_h as int);
        proof {
            law_fit_is_within_box(w, h, max_w as int, max_h as int);
        }
        let (dw, dh) = fit_dims(self.width, self.height, max_w, max_h);
        let ghost row = dw as int * 4;
        let mut out: Vec<u8> = Vec::new();
        let mut y: u32 = 0;
        while y < dh
            invariant
                self.wf(),
                w == self.width,
                h == self.height,
                size == (dw as int, dh as int),
                1 <= dw <= w,
                1 <= dh <= h,
                row == dw as int * 4,
                y <= dh,
                out@.len() == y as int * row,
                forall|v: int, u: int, k: int|
                    0 <= v < y && 0 <= u < dw && 0 <= k < 4 ==> #[trigger] at(out@, row, v, u * 4 + k)
                        == area_mean(self.data@, w, h, k, u, dw as int, v, dh as int),
            decreases dh - y,
        {
            let mut x: u32 = 0;
            while x < dw
                invariant
                    self.wf(),
                    w == self.width,
                    h == self.height,
                    size == (dw as int, dh as int),
                    1 <= dw <= w,
                    1 <= dh <= h,
                    row == dw as int * 4,
                    y < dh,
                    x <= dw,
                    out@.len() == y as int * row + x * 4,
                    forall|v: int, u: int, k: int|
                        0 <= v < y && 0 <= u < dw && 0 <= k < 4 ==> #[trigger] at(
                            out@,
                            row,
                            v,
                            u * 4 + k,
                        ) == area_mean(self.data@, w, h, k, u, dw as int, v, dh as int),
                    forall|u: int, k: int|
                        0 <= u < x && 0 <= k < 4 ==> #[trigger] at(out@, row, y as int, u * 4 + k)
                            == area_mean(self.data@, w, h, k, u, dw as int, y as int, dh as int),
                decreases dw - x,
            {
                let ghost before = out@;
                let c0 = self.mean(0, x, dw, y, dh);
                let c1 = self.mean(1, x, dw, y, dh);
                let c2 = self.mean(2, x, dw, y, dh);
                let c3 = self.mean(3, x, dw, y, dh);
                out.push(c0);
                out.push(c1);
                out.push(c2);
                out.push(c3);
                proof {
                    let base = y as int * row;
                    assert(0 <= base) by (nonlinear_arith)
                        requires
                            base == y as int * row,
                            row >= 0,
                    ;
                    assert forall|v: int, u: int, k: int|
                        0 <= v < y && 0 <= u < dw && 0 <= k < 4 implies #[trigger] at(
                        out@,
                        row,
                        v,
                        u * 4 + k,
                    ) == area_mean(self.data@, w, h, k, u, dw as int, v, dh as int) by {
                        lemma_in_row(v, u * 4 + k, row, y as int);
                        assert(at(out@, row, v, u * 4 + k) == at(before, row, v, u * 4 + k));
                    }
                    assert forall|u: int, k: int| 0 <= u < x + 1 && 0 <= k < 4 implies #[trigger] at(
                        out@,
                        row,
                        y as int,
                        u * 4 + k,
                    ) == area_mean(self.data@, w, h, k, u, dw as int, y as int, dh as int) by {
                        if u < x {
                            assert(at(out@, row, y as int, u * 4 + k) == at(
                                before,
                                row,
                                y as int,
                                u * 4 + k,
                            ));
                        } else {
                            assert(out@[base + x * 4] == c0);
                            assert(out@[base + x * 4 + 1] == c1);
                            assert(out@[base + x * 4 + 2] == c2);
                            assert(out@[base + x * 4 + 3] == c3);
                        }
                    }
                }
                x = x + 1;
            }
            proof {
                assert((y + 1) as int * row == y as int * row + row) by (nonlinear_arith);
            }
            y = y + 1;
        }
        RgbaBuffer { width: dw, height: dh, data: out }
    }

    /// [`RgbaBuffer::downscale_to_box`] with a square box.
    pub fn downscale_to(&self, max_side: u32) -> (r: RgbaBuffer)
        requires
            self.wf(),
        ensures
            r.wf(),
            ({
                if self.width == 0 || self.height == 0 || max_side == 0 || (self.width <= max_side
                    && self.height <= max_side) {
                    r.width == self.width && r.height == self.height && r.data@ == self.data@
                } else {
                    let size = fit(
                        self.width as int,
                        self.height as int,
                        max_side as int,
                        max_side as int,
                    );
                    &&& r.width == size.0
                    &&& r.height == size.1
                    &&& forall|y: int, x: int, k: int|
                        0 <= y < size.1 && 0 <= x < size.0 && 0 <= k < 4 ==> #[trigger] r.byte(
                            y,
                            x * 4 + k,
                        ) == area_mean(
                            self.data@,
                            self.width as int,
                            self.height as int,
                            k,
                            x,
                            size.0,
                            y,
                            size.1,
                        )
                }
            }),
    {
        self.downscale_to_box(max_side, max_side)
    }

    /// The mean of one channel over the area of a destination pixel.
    fn mean(&self, k: usize, dx: u32, dw: u32, dy: u32, dh: u32) -> (r: u8)
        requires
            self.wf(),
            k < 4,
            dx < dw <= self.width,
            dy < dh <= self.height,
        ensures
            r == area_mean(
                self.data@,
                self.width as int,
                self.height as int,
                k as int,
                dx as int,
                dw as int,
                dy as int,
                dh as int,
            ),
    {
        let ghost w = self.width as int;
        let ghost h = self.height as int;
        proof {
            assert(self.data.len() == self.data@.len());
            assert(self.width * 4 <= self.data@.len()) by (nonlinear_arith)
                requires
                    self.data@.len() == self.height as int * (self.width as int * 4),
                    self.height >= 1,
            ;
        }
        let row_bytes: usize = self.width as usize * 4;
        let (x0, x1) = window(dx, self.width, dw);
        let (y0, y1) = window(dy, self.height, dh);
        let mut total: u128 = 0;
        let mut y: u32 = y0;
        while y < y1
            invariant
                self.wf(),
                k < 4,
                w == self.width,
                h == self.height,
                row_bytes == w * 4,
                dx < dw <= w,
                dy < dh <= h,
                x0 == window_start(dx as int, w, dw as int),
                x1 == window_end(dx as int, w, dw as int),
                x0 < x1 <= w,
                y0 <= y <= y1 <= h,
                total == block_sum(
                    self.data@,
                    w,
                    h,
                    k as int,
                    dx as int,
                    dw as int,
                    dy as int,
                    dh as int,
                    y0 as int,
                    y as int,
                ),
            decreases y1 - y,
        {
            let mut x: u32 = x0;
            let mut line: u128 = 0;
            while x < x1
                invariant
                    self.wf(),
                    k < 4,
                    w == self.width,
                    row_bytes == w * 4,
                    dx < dw <= w,
                    x0 <= x <= x1 <= w,
                    y < self.height,
                    line == row_sum(
                        self.data@,
                        w,
                        k as int,
                        y as int,
                        dx as int,
                        dw as int,
                        x0 as int,
                        x as int,
                    ),
                decreases x1 - x,
            {
                let value = byte_at(
                    &self.data,
                    row_bytes,
                    y as usize,
                    x as usize * 4 + k,
                    Ghost(self.height as int),
                );
                let weight = weight_of(x, dx, self.width, dw);
                proof {
                    lemma_row_sum_bound(
                        self.data@,
                        w,
                        k as int,
                        y as int,
                        dx as int,
                        dw as int,
                        x0 as int,
                        x as int,
                    );
                    lemma_row_sum_bound(
                        self.data@,
                        w,
                        k as int,
                        y as int,
                        dx as int,
                        dw as int,
                        x0 as int,
                        x as int + 1,
                    );
                    assert(0 <= weight * value) by (nonlinear_arith);
                }
                line = line + weight as u128 * value as u128;
                x = x + 1;
            }
            let weight = weight_of(y, dy, self.height, dh);
            proof {
                lemma_row_sum_bound(
                    self.data@,
                    w,
                    k as int,
                    y as int,
                    dx as int,
                    dw as int,
                    x0 as int,
                    x1 as int,
                );
                lemma_block_sum_bound(
                    self.data@,
                    w,
                    h,
                    k as int,
                    dx as int,
                    dw as int,
                    dy as int,
                    dh as int,
                    y0 as int,
                    y as int,
                );
                lemma_block_sum_bound(
                    self.data@,
                    w,
                    h,
                    k as int,
                    dx as int,
                    dw as int,
                    dy as int,
                    dh as int,
                    y0 as int,
                    y as int + 1,
                );
                assert(0 <= weight * line) by (nonlinear_arith);
                assert(255 * w * h <= 255 * 0xffff_ffff * 0xffff_ffff) by (nonlinear_arith)
                    requires
                        0 <= w <= 0xffff_ffff,
                        0 <= h <= 0xffff_ffff,
                ;
            }
            total = total + weight as u128 * line;
            y = y + 1;
        }
        proof {
            lemma_block_sum_bound(
                self.data@,
                w,
                h,
                k as int,
                dx as int,
                dw as int,
                dy as int,
                dh as int,
                y0 as int,
                y1 as int,
            );
            let n = w * h;
            assert(1 <= n <= 0xffff_ffff * 0xffff_ffff) by (nonlinear_arith)
                requires
                    n == w * h,
                    1 <= w <= 0xffff_ffff,
                    1 <= h <= 0xffff_ffff,
            ;
            assert(255 * w * h == 255 * n) by (nonlinear_arith)
                requires
                    n == w * h,
            ;
            assert(total as int / n <= 255) by (nonlinear_arith)
                requires
                    n >= 1,
                    total <= 255 * n,
                    total >= 0,
            ;
        }
        let whole: u128 = self.width as u128 * self.height as u128;
        (total / whole) as u8
    }

    /// Encodes the buffer as a PNG image. `None` on an empty image.
    pub fn to_png(&self) -> (r: Option<Vec<u8>>)
        requires
            self.wf(),
        ensures
            bytes_of(r) == png_image(self.width, self.height, self.data@),
            r.is_some() == (self.width != 0 && self.height != 0),
            r.is_some() ==> png_size(r.unwrap()@) == (self.width, self.height),
    {
        proof {
            assert(self.data.len() == self.data@.len());
        }
        encode_png(self.width, self.height, self.data.as_slice())
    }
}

proof fn lemma_row_sum_bound(
    data: Seq<u8>,
    w: int,
    k: int,
    y: int,
    dx: int,
    dw: int,
    x0: int,
    x1: int,
)
    requires
        x0 <= x1,
        0 <= dw,
        0 <= w,
    ensures
        0 <= row_sum(data, w, k, y, dx, dw, x0, x1) <= 255 * covered(x0, x1, dx, w, dw),
        0 <= row_sum(data, w, k, y, dx, dw, x0, x1) <= 255 * w,
    decreases x1 - x0,
{
    lemma_covered(x0, x1, dx, w, dw);
    if x0 < x1 {
        lemma_row_sum_bound(data, w, k, y, dx, dw, x0, x1 - 1);
        lemma_covered(x1 - 1, x1, dx, w, dw);
        let c = covered(x1 - 1, x1, dx, w, dw);
        let v = at(data, w * 4, y, (x1 - 1) * 4 + k) as int;
        assert(0 <= c * v <= 255 * c) by (nonlinear_arith)
            requires
                0 <= c,
                0 <= v <= 255,
        ;
    }
}

proof fn lemma_block_sum_bound(
    data: Seq<u8>,
    w: int,
    h: int,
    k: int,
    dx: int,
    dw: int,
    dy: int,
    dh: int,
    y0: int,
    y1: int,
)
    requires
        y0 <= y1,
        0 <= dx < dw <= w,
        0 <= dh,
        0 <= h,
    ensures
        0 <= block_sum(data, w, h, k, dx, dw, dy, dh, y0, y1) <= 255 * w * covered(
            y0,
            y1,
            dy,
            h,
            dh,
        ),
        0 <= block_sum(data, w, h, k, dx, dw, dy, dh, y0, y1) <= 255 * w * h,
    decreases y1 - y0,
{
    lemma_covered(y0, y1, dy, h, dh);
    let m = 255 * w;
    let all = covered(y0, y1, dy, h, dh);
    if y0 < y1 {
        lemma_block_sum_bound(data, w, h, k, dx, dw, dy, dh, y0, y1 - 1);
        lemma_covered(y1 - 1, y1, dy, h, dh);
        law_windows_cover_source(dx, w, dw);
        let x0 = window_start(dx, w, dw);
        let x1 = window_end(dx, w, dw);
        lemma_row_sum_bound(data, w, k, y1 - 1, dx, dw, x0, x1);
        let before = covered(y0, y1 - 1, dy, h, dh);
        let c = covered(y1 - 1, y1, dy, h, dh);
        let v = row_sum(data, w, k, y1 - 1, dx, dw, x0, x1);
        assert(0 <= c * v <= m * c) by (nonlinear_arith)
            requires
                0 <= c,
                0 <= v <= m,
        ;
        assert(m * all == m * before + m * c) by (nonlinear_arith)
            requires
                all == before + c,
        ;
    } else {
        assert(m * all == 0) by (nonlinear_arith)
            requires
                all == 0,
        ;
    }
    assert(m * all <= m * h) by (nonlinear_arith)
        requires
            0 <= m,
            all <= h,
    ;
}

/// How much of source position `s` lies in destination `d`.
fn weight_of(s: u32, d: u32, size: u32, n: u32) -> (r: u64)
    requires
        d < n <= size,
        s < size,
    ensures
        r == covered(s as int, s + 1, d as int, size as int, n as int),
        r <= size,
{
    proof {
        lemma_covered(s as int, s + 1, d as int, size as int, n as int);
        assert(0 <= (d + 1) * size <= 0xffff_ffff * 0xffff_ffff) by (nonlinear_arith)
            requires
                d + 1 <= 0xffff_ffff,
                size <= 0xffff_ffff,
        ;
        assert(0 <= d * size <= (d + 1) * size) by (nonlinear_arith);
        assert(0 <= (s + 1) * n <= 0xffff_ffff * 0xffff_ffff) by (nonlinear_arith)
            requires
                s + 1 <= 0xffff_ffff,
                n <= 0xffff_ffff,
        ;
        assert(0 <= s * n) by (nonlinear_arith);
        assert((s + 1) * n == s * n + n) by (nonlinear_arith);
    }
    let start: u64 = d as u64 * size as u64;
    let end: u64 = (d as u64 + 1) * size as u64;
    let from: u64 = s as u64 * n as u64;
    clamp_to(from + n as u64, start, end) - clamp_to(from, start, end)
}

/// `v`, or the nearest end of `start..=end`.
fn clamp_to(v: u64, start: u64, end: u64) -> (r: u64)
    ensures
        r == (if v < start {
            start
        } else if v > end {
            end
        } else {
            v
        }),
{
    if v < start {
        start
    } else if v > end {
        end
    } else {
        v
    }
}

fn clip(start: i32, len: u32, size: u32) -> (r: (u32, u32))
    ensures
        r.0 == clip_start(start as int, size as int),
        r.1 == clip_start(start + len, size as int),
{
    let end: i64 = start as i64 + len as i64;
    (clip_to(start as i64, size), clip_to(end, size))
}

fn clip_to(v: i64, size: u32) -> (r: u32)
    ensures
        r == clip_start(v as int, size as int),
{
    if v < 0 {
        0
    } else if v > size as i64 {
        size
    } else {
        v as u32
    }
}

fn fit_dims(w: u32, h: u32, max_w: u32, max_h: u32) -> (r: (u32, u32))
    requires
        w > 0,
        h > 0,
        max_w > 0,
        max_h > 0,
        w > max_w || h > max_h,
    ensures
        (r.0 as int, r.1 as int) == fit(w as int, h as int, max_w as int, max_h as int),
{
    proof {
        law_fit_is_within_box(w as int, h as int, max_w as int, max_h as int);
        assert(max_w * h == max_w as int * h as int);
        assert(0 <= h * max_w <= 0xffff_ffff * 0xffff_ffff) by (nonlinear_arith)
            requires
                h <= 0xffff_ffff,
                max_w <= 0xffff_ffff,
        ;
        assert(0 <= w * max_h <= 0xffff_ffff * 0xffff_ffff) by (nonlinear_arith)
            requires
                w <= 0xffff_ffff,
                max_h <= 0xffff_ffff,
        ;
        assert(max_w * h == h * max_w) by (nonlinear_arith);
        assert(max_h * w == w * max_h) by (nonlinear_arith);
    }
    let a: u128 = max_w as u128 * h as u128;
    let b: u128 = max_h as u128 * w as u128;
    if a <= b {
        let side: u128 = (2 * a + w as u128) / (2 * (w as u128));
        let side: u128 = if side < 1 {
            1
        } else {
            side
        };
        (max_w, side as u32)
    } else {
        let side: u128 = (2 * b + h as u128) / (2 * (h as u128));
        let side: u128 = if side < 1 {
            1
        } else {
            side
        };
        (side as u32, max_h)
    }
}

fn window(d: u32, size: u32, n: u32) -> (r: (u32, u32))
    requires
        d < n <= size,
    ensures
        r.0 == window_start(d as int, size as int, n as int),
        r.1 == window_end(d as int, size as int, n as int),
        r.0 < r.1 <= size,
{
    proof {
        law_windows_cover_source(d as int, size as int, n as int);
        assert(0 <= (d + 1) * size <= 0xffff_ffff * 0xffff_ffff) by (nonlinear_arith)
            requires
                d + 1 <= 0xffff_ffff,
                size <= 0xffff_ffff,
        ;
        assert(0 <= d * size <= (d + 1) * size) by (nonlinear_arith);
    }
    let start: u64 = (d as u64 * size as u64) / n as u64;
    let end: u64 = ((d as u64 + 1) * size as u64 + (n as u64 - 1)) / n as u64;
    (start as u32, end as u32)
}

// ---------------------------------------------------------------------------
// Raw frames
// ---------------------------------------------------------------------------

/// Channel `k` of the pixel whose four raw bytes start at `i`. The formats are
/// little-endian words, so `Argb8888` is blue, green, red, alpha in memory. A
/// pixel that the raw bytes do not cover is opaque black; one of an unknown
/// format is opaque magenta.
pub open spec fn channel(raw: Seq<u8>, i: int, format: ShmFormat, k: int) -> u8 {
    if i + 4 > raw.len() {
        if k == 3 {
            255
        } else {
            0
        }
    } else {
        match format {
            ShmFormat::Argb8888 => if k == 3 {
                raw[i + 3]
            } else {
                raw[i + 2 - k]
            },
            ShmFormat::Xrgb8888 => if k == 3 {
                255
            } else {
                raw[i + 2 - k]
            },
            ShmFormat::Abgr8888 => raw[i + k],
            ShmFormat::Xbgr8888 => if k == 3 {
                255
            } else {
                raw[i + k]
            },
            ShmFormat::Other => if k == 1 {
                0
            } else {
                255
            },
        }
    }
}

fn pixel(raw: &[u8], i: usize, format: ShmFormat) -> (r: (u8, u8, u8, u8))
    ensures
        r.0 == channel(raw@, i as int, format, 0),
        r.1 == channel(raw@, i as int, format, 1),
        r.2 == channel(raw@, i as int, format, 2),
        r.3 == channel(raw@, i as int, format, 3),
{
    if raw.len() < 4 || i > raw.len() - 4 {
        return (0, 0, 0, 255);
    }
    match format {
        ShmFormat::Argb8888 => (raw[i + 2], raw[i + 1], raw[i], raw[i + 3]),
        ShmFormat::Xrgb8888 => (raw[i + 2], raw[i + 1], raw[i], 255),
        ShmFormat::Abgr8888 => (raw[i], raw[i + 1], raw[i + 2], raw[i + 3]),
        ShmFormat::Xbgr8888 => (raw[i], raw[i + 1], raw[i + 2], 255),
        ShmFormat::Other => (255, 0, 255, 255),
    }
}

/// Translates a raw frame, whose rows start `stride` bytes apart, into packed RGBA8.
pub fn convert_to_rgba(raw: &[u8], width: u32, height: u32, stride: u32, format: ShmFormat) -> (r:
    Vec<u8>)
    requires
        height as int * (width as int * 4) <= usize::MAX,
        height as int * stride as int + width as int * 4 <= usize::MAX,
    ensures
        r@.len() == height as int * (width as int * 4),
        forall|y: int, x: int, k: int|
            0 <= y < height && 0 <= x < width && 0 <= k < 4 ==> #[trigger] at(
                r@,
                width as int * 4,
                y,
                x * 4 + k,
            ) == channel(raw@, y * stride as int + x * 4, format, k),
{
    let ghost row = width as int * 4;
    let mut out: Vec<u8> = Vec::new();
    let mut y: u32 = 0;
    while y < height
        invariant
            height as int * stride as int + width as int * 4 <= usize::MAX,
            row == width as int * 4,
            y <= height,
            out@.len() == y as int * row,
            forall|v: int, x: int, k: int|
                0 <= v < y && 0 <= x < width && 0 <= k < 4 ==> #[trigger] at(out@, row, v, x * 4 + k)
                    == channel(raw@, v * stride as int + x * 4, format, k),
        decreases height - y,
    {
        proof {
            assert(0 <= y as int * stride as int <= height as int * stride as int) by (nonlinear_arith)
                requires
                    0 <= y <= height,
                    stride >= 0,
            ;
        }
        let row_start: usize = y as usize * stride as usize;
        let mut x: u32 = 0;
        while x < width
            invariant
                row == width as int * 4,
                y < height,
                x <= width,
                row_start == y as int * stride as int,
                row_start + width as int * 4 <= usize::MAX,
                out@.len() == y as int * row + x * 4,
                forall|v: int, u: int, k: int|
                    0 <= v < y && 0 <= u < width && 0 <= k < 4 ==> #[trigger] at(
                        out@,
                        row,
                        v,
                        u * 4 + k,
                    ) == channel(raw@, v * stride as int + u * 4, format, k),
                forall|u: int, k: int|
                    0 <= u < x && 0 <= k < 4 ==> #[trigger] at(out@, row, y as int, u * 4 + k)
                        == channel(raw@, y as int * stride as int + u * 4, format, k),
            decreases width - x,
        {
            let ghost before = out@;
            let p = pixel(raw, row_start + x as usize * 4, format);
            out.push(p.0);
            out.push(p.1);
            out.push(p.2);
            out.push(p.3);
            proof {
                let base = y as int * row;
                assert(0 <= base) by (nonlinear_arith)
                    requires
                        base == y as int * row,
                        row >= 0,
                ;
                assert forall|v: int, u: int, k: int|
                    0 <= v < y && 0 <= u < width && 0 <= k < 4 implies #[trigger] at(
                    out@,
                    row,
                    v,
                    u * 4 + k,
                ) == channel(raw@, v * stride as int + u * 4, format, k) by {
                    lemma_in_row(v, u * 4 + k, row, y as int);
                    assert(at(out@, row, v, u * 4 + k) == at(before, row, v, u * 4 + k));
                }
                assert forall|u: int, k: int| 0 <= u < x + 1 && 0 <= k < 4 implies #[trigger] at(
                    out@,
                    row,
                    y as int,
                    u * 4 + k,
                ) == channel(raw@, y as int * stride as int + u * 4, format, k) by {
                    if u < x {
                        assert(at(out@, row, y as int, u * 4 + k) == at(
                            before,
                            row,
                            y as int,
                            u * 4 + k,
                        ));
                    } else {
                        assert(out@[base + x * 4] == p.0);
                        assert(out@[base + x * 4 + 1] == p.1);
                        assert(out@[base + x * 4 + 2] == p.2);
                        assert(out@[base + x * 4 + 3] == p.3);
                    }
                }
            }
            x = x + 1;
        }
        proof {
            assert((y + 1) as int * row == y as int * row + row) by (nonlinear_arith);
        }
        y = y + 1;
    }
    out
}

/// Whether `b` is `a` with its `height` rows of `row` bytes in reverse order.
pub open spec fn flipped(a: Seq<u8>, b: Seq<u8>, row: int, height: int) -> bool {
    forall|y: int, c: int|
        0 <= y < height && 0 <= c < row ==> #[trigger] at(b, row, y, c) == at(
            a,
            row,
            height - 1 - y,
            c,
        )
}

/// Reverses the order of the rows. Bytes behind the last row come out as zeros.
pub fn flip_vertical(buf: &[u8], width: u32, height: u32) -> (r: Vec<u8>)
    requires
        height as int * (width as int * 4) <= buf@.len(),
    ensures
        r@.len() == buf@.len(),
        flipped(buf@, r@, width as int * 4, height as int),
        forall|i: int|
            height as int * (width as int * 4) <= i < buf@.len() ==> #[trigger] r@[i] == 0,
{
    let ghost row = width as int * 4;
    let ghost body = height as int * row;
    proof {
        assert(buf.len() == buf@.len());
    }
    let mut out: Vec<u8> = Vec::new();
    let mut y: u32 = 0;
    while y < height
        invariant
            row == width as int * 4,
            body == height as int * row,
            body <= buf@.len() <= usize::MAX,
            y <= height,
            out@.len() == y as int * row,
            forall|v: int, c: int|
                0 <= v < y && 0 <= c < row ==> #[trigger] at(out@, row, v, c) == at(
                    buf@,
                    row,
                    height - 1 - v,
                    c,
                ),
        decreases height - y,
    {
        proof {
            assert(row <= body) by (nonlinear_arith)
                requires
                    body == height as int * row,
                    height >= 1,
                    row >= 0,
            ;
            assert(0 <= (height - 1 - y) * row && (height - 1 - y) * row + row <= body)
                by (nonlinear_arith)
                requires
                    body == height as int * row,
                    0 <= y < height,
                    row >= 0,
            ;
        }
        let span: usize = width as usize * 4;
        let src: usize = (height - 1 - y) as usize * span;
        let mut b: usize = 0;
        while b < span
            invariant
                row == width as int * 4,
                span == row,
                src == (height - 1 - y) * row,
                src + row <= buf@.len() <= usize::MAX,
                y < height,
                b <= span,
                out@.len() == y as int * row + b,
                forall|v: int, c: int|
                    0 <= v < y && 0 <= c < row ==> #[trigger] at(out@, row, v, c) == at(
                        buf@,
                        row,
                        height - 1 - v,
                        c,
                    ),
                forall|c: int|
                    0 <= c < b ==> #[trigger] at(out@, row, y as int, c) == at(
                        buf@,
                        row,
                        height - 1 - y,
                        c,
                    ),
            decreases span - b,
        {
            let ghost before = out@;
            out.push(buf[src + b]);
            proof {
                let base = y as int * row;
                assert(0 <= base) by (nonlinear_arith)
                    requires
                        base == y as int * row,
                        row >= 0,
                ;
                assert forall|v: int, c: int| 0 <= v < y && 0 <= c < row implies #[trigger] at(
                    out@,
                    row,
                    v,
                    c,
                ) == at(buf@, row, height - 1 - v, c) by {
                    lemma_in_row(v, c, row, y as int);
                    assert(at(out@, row, v, c) == at(before, row, v, c));
                }
                assert forall|c: int| 0 <= c < b + 1 implies #[trigger] at(out@, row, y as int, c)
                    == at(buf@, row, height - 1 - y, c) by {
                    if c < b {
                        assert(at(out@, row, y as int, c) == at(before, row, y as int, c));
                    }
                }
            }
            b = b + 1;
        }
        proof {
            assert((y + 1) as int * row == y as int * row + row) by (nonlinear_arith);
        }
        y = y + 1;
    }
    while out.len() < buf.len()
        invariant
            row == width as int * 4,
            body == height as int * row,
            body <= out@.len() <= buf@.len(),
            flipped(buf@, out@, row, height as int),
            forall|i: int| body <= i < out@.len() ==> #[trigger] out@[i] == 0,
        decreases buf.len() - out.len(),
    {
        let ghost before = out@;
        out.push(0);
        proof {
            assert forall|v: int, c: int| 0 <= v < height && 0 <= c < row implies #[trigger] at(
                out@,
                row,
                v,
                c,
            ) == at(buf@, row, height - 1 - v, c) by {
                lemma_in_row(v, c, row, height as int);
                assert(at(out@, row, v, c) == at(before, row, v, c));
            }
        }
    }
    out
}

/// Flipping twice gives the image back.
pub proof fn law_flip_twice_is_identity(
    a: Seq<u8>,
    b: Seq<u8>,
    c: Seq<u8>,
    row: int,
    height: int,
)
    requires
        row > 0,
        height >= 0,
        a.len() == height * row,
        b.len() == a.len(),
        c.len() == a.len(),
        flipped(a, b, row, height),
        flipped(b, c, row, height),
    ensures
        c == a,
{
    assert forall|i: int| 0 <= i < a.len() implies a[i] == c[i] by {
        let y = i / row;
        let x = i % row;
        assert(i == y * row + x && 0 <= x < row && 0 <= y < height) by (nonlinear_arith)
            requires
                y == i / row,
                x == i % row,
                row > 0,
                0 <= i < height * row,
        ;
        assert(at(c, row, y, x) == at(b, row, height - 1 - y, x));
        assert(at(b, row, height - 1 - y, x) == at(a, row, height - 1 - (height - 1 - y), x));
        assert(height - 1 - (height - 1 - y) == y);
    }
    assert(c =~= a);
}

// ---------------------------------------------------------------------------
// One frame
// ---------------------------------------------------------------------------

/// What the compositor says of a frame while it is being captured.
#[derive(Debug, Clone, Copy, PartialEq, Eq, Structural)]
pub enum FrameEvent {
    /// A buffer layout that the compositor offers.
    Buffer { format: ShmFormat, width: u32, height: u32, stride: u32 },
    BufferDone,
    Flags { y_invert: bool },
    Ready,
    Failed,
}

/// What is known of a frame that is being captured.
#[derive(Debug, Clone, Copy, PartialEq, Eq)]
pub struct FrameState {
    pub buffer_done: bool,
    pub ready: bool,
    pub failed: bool,
    pub y_invert: bool,
    /// Format, width, height and stride of the first layout on offer.
    pub params: Option<(ShmFormat, u32, u32, u32)>,
}

/// What to do next with a frame.
#[derive(Debug, Clone, Copy, PartialEq, Eq, Structural)]
pub enum FrameAction {
    /// Wait for another event.
    Wait,
    /// Give up: the compositor reported a failure.
    Fail,
    /// Allocate a buffer with this format, width, height and stride and ask for the copy.
    Allocate(ShmFormat, u32, u32, u32),
    /// The copy is complete.
    Finish,
}

impl Default for FrameState {
    fn default() -> (r: Self)
        ensures
            r == (FrameState {
                buffer_done: false,
                ready: false,
                failed: false,
                y_invert: false,
                params: None,
            }),
    {
        FrameState { buffer_done: false, ready: false, failed: false, y_invert: false, params: None }
    }
}

impl FrameState {
    /// The state after an event. The first layout on offer is kept.
    pub open spec fn after(self, event: FrameEvent) -> FrameState {
        match event {
            FrameEvent::Buffer { format, width, height, stride } => if self.params is None {
                FrameState { params: Some((format, width, height, stride)), ..self }
            } else {
                self
            },
            FrameEvent::BufferDone => FrameState { buffer_done: true, ..self },
            FrameEvent::Flags { y_invert } => FrameState { y_invert, ..self },
            FrameEvent::Ready => FrameState { ready: true, ..self },
            FrameEvent::Failed => FrameState { failed: true, ..self },
        }
    }

    /// Records an event.
    pub fn apply(&mut self, event: FrameEvent)
        ensures
            *final(self) == old(self).after(event),
    {
        match event {
            FrameEvent::Buffer { format, width, height, stride } => {
                if self.params.is_none() {
                    self.params = Some((format, width, height, stride));
                }
            },
            FrameEvent::BufferDone => {
                self.buffer_done = true;
            },
            FrameEvent::Flags { y_invert } => {
                self.y_invert = y_invert;
            },
            FrameEvent::Ready => {
                self.ready = true;
            },
            FrameEvent::Failed => {
                self.failed = true;
            },
        }
    }

    /// What to do before a buffer is allocated.
    pub fn before_copy(&self) -> (r: FrameAction)
        ensures
            r == (if self.failed {
                FrameAction::Fail
            } else if self.buffer_done {
                match self.params {
                    Some(p) => FrameAction::Allocate(p.0, p.1, p.2, p.3),
                    None => FrameAction::Wait,
                }
            } else {
                FrameAction::Wait
            }),
    {
        if self.failed {
            return FrameAction::Fail;
        }
        if self.buffer_done {
            if let Some(p) = self.params {
                return FrameAction::Allocate(p.0, p.1, p.2, p.3);
            }
        }
        FrameAction::Wait
    }

    /// What to do once the copy has been asked for.
    pub fn during_copy(&self) -> (r: FrameAction)
        ensures
            r == (if self.failed {
                FrameAction::Fail
            } else if self.ready {
                FrameAction::Finish
            } else {
                FrameAction::Wait
            }),
    {
        if self.failed {
            FrameAction::Fail
        } else if self.ready {
            FrameAction::Finish
        } else {
            FrameAction::Wait
        }
    }

    /// Turns the raw bytes of a completed copy into a buffer, right side up.
    pub fn finish(&self, raw: &[u8], format: ShmFormat, width: u32, height: u32, stride: u32) -> (r:
        RgbaBuffer)
        requires
            height as int * (width as int * 4) <= usize::MAX,
            height as int * stride as int + width as int * 4 <= usize::MAX,
        ensures
            r.width == width,
            r.height == height,
            r.wf(),
            forall|y: int, x: int, k: int|
                0 <= y < height && 0 <= x < width && 0 <= k < 4 ==> #[trigger] r.byte(y, x * 4 + k)
                    == channel(
                    raw@,
                    (if self.y_invert {
                        height - 1 - y
                    } else {
                        y
                    }) * stride as int + x * 4,
                    format,
                    k,
                ),
    {
        let rgba = convert_to_rgba(raw, width, height, stride, format);
        if self.y_invert {
            let data = flip_vertical(rgba.as_slice(), width, height);
            let r = RgbaBuffer { width, height, data };
            proof {
                assert forall|y: int, x: int, k: int|
                    0 <= y < height && 0 <= x < width && 0 <= k < 4 implies #[trigger] r.byte(
                    y,
                    x * 4 + k,
                ) == channel(raw@, (height - 1 - y) * stride as int + x * 4, format, k) by {
                    assert(at(data@, width as int * 4, y, x * 4 + k) == at(
                        rgba@,
                        width as int * 4,
                        height - 1 - y,
                        x * 4 + k,
                    ));
                }
            }
            r
        } else {
            RgbaBuffer { width, height, data: rgba }
        }
    }
}

// ---------------------------------------------------------------------------
// PNG
// ---------------------------------------------------------------------------

/// The contents of optional bytes.
pub open spec fn bytes_of(o: Option<Vec<u8>>) -> Option<Seq<u8>> {
    match o {
        Some(v) => Some(v@),
        None => None,
    }
}

/// The bytes that the `png` crate's encoder makes of an RGBA8 image with its
/// default settings.
pub uninterp spec fn png_image(width: u32, height: u32, data: Seq<u8>) -> Option<Seq<u8>>;

/// The unsigned big-endian number at `i`.
pub open spec fn be32(b: Seq<u8>, i: int) -> int {
    b[i] * 0x100_0000 + b[i + 1] * 0x1_0000 + b[i + 2] * 0x100 + b[i + 3]
}

/// The size that a PNG file's leading header chunk declares.
pub open spec fn png_size(b: Seq<u8>) -> (u32, u32) {
    (be32(b, 16) as u32, be32(b, 20) as u32)
}

/// `png::Encoder` with `ColorType::Rgba` and `BitDepth::Eight`, writing into a
/// vector: `write_header`, then `write_image_data`. The encoder refuses an empty
/// image and data of another length than the dimensions ask for, and nothing
/// else; the header chunk that follows the signature holds the dimensions.
#[verifier::external_body]
fn encode_png(width: u32, height: u32, data: &[u8]) -> (r: Option<Vec<u8>>)
    requires
        height as int * (width as int * 4) <= usize::MAX,
    ensures
        bytes_of(r) == png_image(width, height, data@),
        r.is_some() == (data@.len() == height as int * (width as int * 4) && width != 0 && height
            != 0),
        r.is_some() ==> png_size(r.unwrap()@) == (width, height),
{
    let mut out = Vec::new();
    {
        let mut encoder = png::Encoder::new(&mut out, width, height);
        encoder.set_color(png::ColorType::Rgba);
        encoder.set_depth(png::BitDepth::Eight);
        let mut writer = encoder.write_header().ok()?;
        writer.write_image_data(data).ok()?;
    }
    Some(out)
}

/// A picture that is not made smaller stays as it is.
pub proof fn law_same_size_is_identity(data: Seq<u8>, w: int, h: int, k: int, dx: int, dy: int)
    requires
        0 <= dx < w,
        0 <= dy < h,
    ensures
        area_mean(data, w, h, k, dx, w, dy, h) == at(data, w * 4, dy, dx * 4 + k),
{
    lemma_own_window(dx, w);
    lemma_own_window(dy, h);
    let px = at(data, w * 4, dy, dx * 4 + k) as int;
    assert(row_sum(data, w, k, dy, dx, w, dx, dx) == 0);
    assert(row_sum(data, w, k, dy, dx, w, dx, dx + 1) == w * px);
    assert(block_sum(data, w, h, k, dx, w, dy, h, dy, dy) == 0);
    assert(block_sum(data, w, h, k, dx, w, dy, h, dy, dy + 1) == h * (w * px));
    assert((h * (w * px)) / (w * h) == px) by (nonlinear_arith)
        requires
            w > 0,
            h > 0,
    {
        assert(h * (w * px) == px * (w * h));
        assert(w * h > 0);
    }
}

proof fn lemma_own_window(d: int, size: int)
    requires
        0 <= d < size,
    ensures
        window_start(d, size, size) == d,
        window_end(d, size, size) == d + 1,
        covered(d, d + 1, d, size, size) == size,
{
    assert((d * size) / size == d) by (nonlinear_arith)
        requires
            size > 0,
    ;
    assert(((d + 1) * size + (size - 1)) / size == d + 1) by (nonlinear_arith)
        requires
            size > 0,
    ;
    assert((d + 1) * size - d * size == size) by (nonlinear_arith);
}

proof fn lemma_flat_row(
    data: Seq<u8>,
    w: int,
    k: int,
    y: int,
    dx: int,
    dw: int,
    x0: int,
    x1: int,
    v: u8,
)
    requires
        x0 <= x1,
        forall|x: int| x0 <= x < x1 ==> #[trigger] at(data, w * 4, y, x * 4 + k) == v,
    ensures
        row_sum(data, w, k, y, dx, dw, x0, x1) == covered(x0, x1, dx, w, dw) * v,
    decreases x1 - x0,
{
    if x0 < x1 {
        lemma_flat_row(data, w, k, y, dx, dw, x0, x1 - 1, v);
        assert(at(data, w * 4, y, (x1 - 1) * 4 + k) == v);
        let a = covered(x0, x1 - 1, dx, w, dw);
        let b = covered(x1 - 1, x1, dx, w, dw);
        assert(a * v + b * v == (a + b) * v) by (nonlinear_arith);
    }
}

proof fn lemma_flat_block(
    data: Seq<u8>,
    w: int,
    h: int,
    k: int,
    dx: int,
    dw: int,
    dy: int,
    dh: int,
    y0: int,
    y1: int,
    v: u8,
)
    requires
        0 <= dx < dw <= w,
        0 <= y0 <= y1 <= h,
        forall|y: int, x: int|
            0 <= y < h && 0 <= x < w ==> #[trigger] at(data, w * 4, y, x * 4 + k) == v,
    ensures
        block_sum(data, w, h, k, dx, dw, dy, dh, y0, y1) == covered(y0, y1, dy, h, dh) * (w * v),
    decreases y1 - y0,
{
    if y0 < y1 {
        lemma_flat_block(data, w, h, k, dx, dw, dy, dh, y0, y1 - 1, v);
        let x0 = window_start(dx, w, dw);
        let x1 = window_end(dx, w, dw);
        law_windows_cover_source(dx, w, dw);
        law_weights_add_up(dx, w, dw);
        lemma_flat_row(data, w, k, y1 - 1, dx, dw, x0, x1, v);
        let a = covered(y0, y1 - 1, dy, h, dh);
        let b = covered(y1 - 1, y1, dy, h, dh);
        let r = w * v;
        assert(a * r + b * r == (a + b) * r) by (nonlinear_arith);
    }
}

/// A picture of one shade keeps that shade at every size.
pub proof fn law_flat_picture_stays_flat(
    data: Seq<u8>,
    w: int,
    h: int,
    k: int,
    dx: int,
    dw: int,
    dy: int,
    dh: int,
    v: u8,
)
    requires
        0 <= dx < dw <= w,
        0 <= dy < dh <= h,
        forall|y: int, x: int|
            0 <= y < h && 0 <= x < w ==> #[trigger] at(data, w * 4, y, x * 4 + k) == v,
    ensures
        area_mean(data, w, h, k, dx, dw, dy, dh) == v,
{
    let y0 = window_start(dy, h, dh);
    let y1 = window_end(dy, h, dh);
    law_windows_cover_source(dy, h, dh);
    law_weights_add_up(dy, h, dh);
    lemma_flat_block(data, w, h, k, dx, dw, dy, dh, y0, y1, v);
    let n = v as int;
    assert((h * (w * n)) / (w * h) == n) by (nonlinear_arith)
        requires
            w > 0,
            h > 0,
    {
        assert(h * (w * n) == n * (w * h));
        assert(w * h > 0);
    }
}

/// Each pixel format is read for what it is: red, green, blue and alpha in this
/// order come out, an alpha that the format does not have is opaque, and what is
/// missing is black.
pub proof fn law_pixel_formats(raw: Seq<u8>, i: int)
    requires
        0 <= i,
    ensures
        i + 4 <= raw.len() ==> {
            &&& channel(raw, i, ShmFormat::Argb8888, 0) == raw[i + 2]
            &&& channel(raw, i, ShmFormat::Argb8888, 1) == raw[i + 1]
            &&& channel(raw, i, ShmFormat::Argb8888, 2) == raw[i]
            &&& channel(raw, i, ShmFormat::Argb8888, 3) == raw[i + 3]
            &&& channel(raw, i, ShmFormat::Xrgb8888, 0) == raw[i + 2]
            &&& channel(raw, i, ShmFormat::Xrgb8888, 1) == raw[i + 1]
            &&& channel(raw, i, ShmFormat::Xrgb8888, 2) == raw[i]
            &&& channel(raw, i, ShmFormat::Xrgb8888, 3) == 255
            &&& channel(raw, i, ShmFormat::Abgr8888, 0) == raw[i]
            &&& channel(raw, i, ShmFormat::Abgr8888, 1) == raw[i + 1]
            &&& channel(raw, i, ShmFormat::Abgr8888, 2) == raw[i + 2]
            &&& channel(raw, i, ShmFormat::Abgr8888, 3) == raw[i + 3]
            &&& channel(raw, i, ShmFormat::Xbgr8888, 0) == raw[i]
            &&& channel(raw, i, ShmFormat::Xbgr8888, 1) == raw[i + 1]
            &&& channel(raw, i, ShmFormat::Xbgr8888, 2) == raw[i + 2]
            &&& channel(raw, i, ShmFormat::Xbgr8888, 3) == 255
        },
        i + 4 > raw.len() ==> forall|f: ShmFormat|
            channel(raw, i, f, 0) == 0 && channel(raw, i, f, 1) == 0 && channel(raw, i, f, 2) == 0
                && #[trigger] channel(raw, i, f, 3) == 255,
{
}

/// A frame remembers the first layout on offer and the last orientation, and
/// what was reported once stays reported.
pub proof fn law_frame_remembers(s: FrameState, e: FrameEvent)
    ensures
        s.params is Some ==> s.after(e).params == s.params,
        s.params is None ==> (s.after(e).params is Some <==> e is Buffer),
        match e {
            FrameEvent::Buffer { format, width, height, stride } => s.params is None
                ==> s.after(e).params == Some((format, width, height, stride)),
            FrameEvent::Flags { y_invert } => s.after(e).y_invert == y_invert,
            _ => true,
        },
        !(e is Flags) ==> s.after(e).y_invert == s.y_invert,
        s.after(e).buffer_done <==> s.buffer_done || e is BufferDone,
        s.after(e).ready <==> s.ready || e is Ready,
        s.after(e).failed <==> s.failed || e is Failed,
{
}

/// A crop is the part of the picture that lies in the rectangle, each pixel from
/// its own place, and there is none exactly if they have no pixel in common.
pub proof fn law_crop_is_the_common_part(
    b: RgbaBuffer,
    x: i32,
    y: i32,
    w: u32,
    h: u32,
    r: Option<RgbaBuffer>,
    sx: int,
    sy: int,
    k: int,
)
    requires
        b.wf(),
        call_ensures(RgbaBuffer::crop, (&b, x, y, w, h), r),
    ensures
        r is None ==> !(0 <= sx < b.width && 0 <= sy < b.height && x <= sx < x + w && y <= sy < y
            + h),
        r is Some ==> r->0.wf() && r->0.width <= w && r->0.height <= h && r->0.width <= b.width
            && r->0.height <= b.height,
        r is Some && 0 <= k < 4 && 0 <= sx < b.width && 0 <= sy < b.height && x <= sx < x + w && y
            <= sy < y + h ==> {
            let dx = sx - if x < 0 {
                0int
            } else {
                x as int
            };
            let dy = sy - if y < 0 {
                0int
            } else {
                y as int
            };
            &&& 0 <= dx < r->0.width && 0 <= dy < r->0.height
            &&& r->0.byte(dy, dx * 4 + k) == b.byte(sy, sx * 4 + k)
        },
{
    if let Some(c) = r {
        if 0 <= k < 4 && 0 <= sx < b.width && 0 <= sy < b.height && x <= sx < x + w && y <= sy < y
            + h {
            let x0 = clip_start(x as int, b.width as int);
            let y0 = clip_start(y as int, b.height as int);
            assert(c.byte(sy - y0, (sx - x0) * 4 + k) == b.byte(
                y0 + (sy - y0),
                x0 * 4 + ((sx - x0) * 4 + k),
            ));
        }
    }
}

/// A frame fails as soon as a failure was reported, is allocated for once the
/// layouts are known, and is finished once it is ready.
pub proof fn law_frame_steps(s: FrameState, before: FrameAction, during: FrameAction)
    requires
        call_ensures(FrameState::before_copy, (&s,), before),
        call_ensures(FrameState::during_copy, (&s,), during),
    ensures
        before is Fail <==> s.failed,
        during is Fail <==> s.failed,
        before is Allocate <==> !s.failed && s.buffer_done && s.params is Some,
        before matches FrameAction::Allocate(f, w, h, stride) ==> s.params == Some(
            (f, w, h, stride),
        ),
        during is Finish <==> !s.failed && s.ready,
{
}

/// A picture that fits the box stays as it is; one that does not is made to fit,
/// with at least one side of the box filled.
pub proof fn law_downscaled_to_the_box(b: RgbaBuffer, max_w: u32, max_h: u32, r: RgbaBuffer)
    requires
        b.wf(),
        call_ensures(RgbaBuffer::downscale_to_box, (&b, max_w, max_h), r),
    ensures
        r.wf(),
        b.width <= max_w && b.height <= max_h ==> r.width == b.width && r.height == b.height
            && r.data@ == b.data@,
        b.width > 0 && b.height > 0 && max_w > 0 && max_h > 0 && (b.width > max_w || b.height
            > max_h) ==> r.width <= max_w && r.height <= max_h && (r.width == max_w || r.height
            == max_h) && r.width > 0 && r.height > 0,
{
    if b.width > 0 && b.height > 0 && max_w > 0 && max_h > 0 && (b.width > max_w || b.height
        > max_h) {
        law_fit_is_within_box(b.width as int, b.height as int, max_w as int, max_h as int);
    }
}

/// A finished frame is upright: of an inverted one the last row comes first.
pub proof fn law_finished_frame_is_upright(
    s: FrameState,
    raw: &[u8],
    format: ShmFormat,
    width: u32,
    height: u32,
    stride: u32,
    r: RgbaBuffer,
    x: int,
    y: int,
    k: int,
)
    requires
        height as int * (width as int * 4) <= usize::MAX,
        height as int * stride as int + width as int * 4 <= usize::MAX,
        call_ensures(FrameState::finish, (&s, raw, format, width, height, stride), r),
        0 <= x < width,
        0 <= y < height,
        0 <= k < 4,
    ensures
        r.width == width && r.height == height && r.wf(),
        !s.y_invert ==> r.byte(y, x * 4 + k) == channel(raw@, y * stride as int + x * 4, format, k),
        s.y_invert ==> r.byte(y, x * 4 + k) == channel(
            raw@,
            (height - 1 - y) * stride as int + x * 4,
            format,
            k,
        ),
{
    assert(r.byte(y, x * 4 + k) == r.byte(y, x * 4 + k));
}

proof fn lemma_ratio_is_near(a: int, b: int)
    requires
        a >= 0,
        b > 0,
    ensures
        2 * (rounded_ratio(a, b) * b - a) <= b,
        2 * (a - rounded_ratio(a, b) * b) <= b,
        rounded_ratio(a, b) >= 0,
{
    let r = rounded_ratio(a, b);
    assert(r * (2 * b) <= 2 * a + b < (r + 1) * (2 * b) && r >= 0) by (nonlinear_arith)
        requires
            a >= 0,
            b > 0,
            r == (2 * a + b) / (2 * b),
    ;
    assert(r * (2 * b) == 2 * (r * b)) by (nonlinear_arith);
    assert((r + 1) * (2 * b) == 2 * (r * b) + 2 * b) by (nonlinear_arith);
}

/// A fitted picture keeps its proportions: the side that is short of room is as
/// long as the box allows, and the other is the nearest whole length, but never
/// nothing.
pub proof fn law_fit_keeps_proportions(w: int, h: int, max_w: int, max_h: int)
    requires
        w > 0,
        h > 0,
        max_w > 0,
        max_h > 0,
    ensures
        ({
            let (fw, fh) = fit(w, h, max_w, max_h);
            &&& max_w * h <= max_h * w ==> {
                &&& fw == max_w
                &&& fh >= 1
                &&& 2 * (h * max_w - fh * w) <= w
                &&& fh > 1 ==> 2 * (fh * w - h * max_w) <= w
            }
            &&& max_w * h > max_h * w ==> {
                &&& fh == max_h
                &&& fw >= 1
                &&& 2 * (w * max_h - fw * h) <= h
                &&& fw > 1 ==> 2 * (fw * h - w * max_h) <= h
            }
        }),
{
    assert(h * max_w >= 0 && w * max_h >= 0) by (nonlinear_arith)
        requires
            w > 0,
            h > 0,
            max_w > 0,
            max_h > 0,
    ;
    lemma_ratio_is_near(h * max_w, w);
    lemma_ratio_is_near(w * max_h, h);
    let a = rounded_ratio(h * max_w, w);
    let b = rounded_ratio(w * max_h, h);
    if a < 1 {
        assert(a == 0);
        assert(a * w == 0 && 1 * w == w) by (nonlinear_arith)
            requires
                a == 0,
        ;
    }
    if b < 1 {
        assert(b == 0);
        assert(b * h == 0 && 1 * h == h) by (nonlinear_arith)
            requires
                b == 0,
        ;
    }
}

} // verus!
