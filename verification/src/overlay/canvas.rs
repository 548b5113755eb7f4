//! A pixel buffer for clipped drawing.

use vstd::prelude::*;

verus! {

/// A picture: the four bytes of each of its pixels, by column and row.
pub type Picture = Map<(int, int), Seq<u8>>;

/// The point is in the rectangle.
pub open spec fn inside(p: (int, int), x: int, y: int, w: int, h: int) -> bool {
    x <= p.0 < x + w && y <= p.1 < y + h
}

/// The picture with everything that lies in the rectangle painted over.
pub open spec fn filled(m: Picture, x: int, y: int, w: int, h: int, c: Seq<u8>) -> Picture {
    Map::new(
        |p: (int, int)| m.dom().contains(p),
        |p: (int, int)|
            if inside(p, x, y, w, h) {
                c
            } else {
                m[p]
            },
    )
}

/// The picture with a frame of thickness `t` along the inside of the rectangle.
pub open spec fn framed(m: Picture, x: int, y: int, w: int, h: int, t: int, c: Seq<u8>) -> Picture {
    Map::new(
        |p: (int, int)| m.dom().contains(p),
        |p: (int, int)|
            if inside(p, x, y, w, t) || inside(p, x, y + h - t, w, t) || inside(p, x, y, t, h)
                || inside(p, x + w - t, y, t, h) {
                c
            } else {
                m[p]
            },
    )
}

/// A pixel buffer, four bytes per pixel, row by row.
#[derive(Debug)]
pub struct Canvas {
    pub buf: Vec<u8>,
    pub width: u32,
    pub height: u32,
}

/// The bytes of the pixel at column `x` and row `y`.
pub open spec fn pixel(buf: Seq<u8>, width: int, x: int, y: int) -> Seq<u8> {
    buf.subrange((y * width + x) * 4, (y * width + x) * 4 + 4)
}

impl View for Canvas {
    type V = Picture;

    open spec fn view(&self) -> Picture {
        Map::new(
            |p: (int, int)| inside(p, 0, 0, self.width as int, self.height as int),
            |p: (int, int)| pixel(self.buf@, self.width as int, p.0, p.1),
        )
    }
}

/// The number of bytes of a pixel buffer.
pub open spec fn byte_count(width: u32, height: u32) -> int {
    width * height * 4
}

/// The number of bytes of a pixel buffer, if it can be addressed.
pub fn buffer_len(width: u32, height: u32) -> (r: Option<usize>)
    ensures
        r is Some <==> byte_count(width, height) <= u32::MAX,
        r matches Some(n) ==> n == byte_count(width, height),
{
    let w: u64 = width as u64;
    let h: u64 = height as u64;
    assert(w * h <= 0xffff_fffe_0000_0001) by (nonlinear_arith)
        requires
            w <= 0xffff_ffff,
            h <= 0xffff_ffff,
    ;
    let pixels: u64 = w * h;
    if pixels <= 0x3fff_ffff {
        Some((pixels * 4) as usize)
    } else {
        None
    }
}

/// A pixel lies within the buffer, and two pixels do not share a byte.
proof fn lemma_pixel_bounds(width: int, height: int, x: int, y: int)
    requires
        0 <= x < width,
        0 <= y < height,
    ensures
        0 <= y * width + x < width * height,
{
    assert(0 <= y * width + x < width * height) by (nonlinear_arith)
        requires
            0 <= x < width,
            0 <= y < height,
    ;
}

proof fn lemma_pixels_differ(width: int, x: int, y: int, u: int, v: int)
    requires
        0 <= x < width,
        0 <= u < width,
        (x, y) != (u, v),
    ensures
        y * width + x != v * width + u,
{
    assert(y * width + x != v * width + u) by (nonlinear_arith)
        requires
            0 <= x < width,
            0 <= u < width,
            x != u || y != v,
    ;
}

impl Canvas {
    /// The buffer holds exactly the pixels, and they can be addressed.
    pub open spec fn wf(self) -> bool {
        &&& self.buf@.len() == byte_count(self.width, self.height)
        &&& byte_count(self.width, self.height) <= u32::MAX
    }

    /// A transparent canvas.
    pub fn new(width: u32, height: u32) -> (r: Canvas)
        requires
            byte_count(width, height) <= u32::MAX,
        ensures
            r.wf(),
            r.width == width,
            r.height == height,
            forall|i: int| 0 <= i < r.buf@.len() ==> #[trigger] r.buf@[i] == 0,
    {
        let n: usize = match buffer_len(width, height) {
            Some(n) => n,
            None => 0,
        };
        let mut buf: Vec<u8> = Vec::new();
        for i in 0..n
            invariant
                buf@.len() == i,
                forall|j: int| 0 <= j < i ==> #[trigger] buf@[j] == 0,
        {
            buf.push(0);
        }
        Canvas { buf, width, height }
    }

    /// Paint one pixel, if it is on the canvas.
    pub(crate) fn dot(&mut self, x: i64, y: i64, color: [u8; 4])
        requires
            old(self).wf(),
        ensures
            final(self).wf(),
            final(self).width == old(self).width,
            final(self).height == old(self).height,
            final(self)@ == filled(old(self)@, x as int, y as int, 1, 1, color@),
    {
        if x < 0 || y < 0 || x >= self.width as i64 || y >= self.height as i64 {
            assert(self@ =~= filled(self@, x as int, y as int, 1, 1, color@));
            return;
        }
        let ghost (w, h) = (self.width as int, self.height as int);
        proof {
            lemma_pixel_bounds(w, h, x as int, y as int);
            assert(y * w <= w * h && 0 <= y * w) by (nonlinear_arith)
                requires
                    0 <= y < h,
                    0 < w,
            ;
            assert(w * h * 4 == byte_count(self.width, self.height));
        }
        let row: u64 = y as u64 * self.width as u64;
        let at: usize = ((row + x as u64) * 4) as usize;
        let ghost before = self.buf@;
        for k in 0..4usize
            invariant
                at + 4 <= self.buf@.len() <= u32::MAX,
                self.buf@.len() == before.len(),
                self.width == old(self).width,
                self.height == old(self).height,
                forall|i: int| 0 <= i < k ==> self.buf@[at + i] == color@[i],
                forall|i: int|
                    0 <= i < before.len() && !(at <= i < at + k) ==> #[trigger] self.buf@[i]
                        == before[i],
        {
            self.buf.set(at + k, color[k]);
        }
        proof {
            let m = filled(old(self)@, x as int, y as int, 1, 1, color@);
            assert forall|p: (int, int)| inside(p, 0, 0, w, h) implies #[trigger] self@[p]
                == m[p] by {
                lemma_pixel_bounds(w, h, p.0, p.1);
                let q = p.1 * w + p.0;
                if p == (x as int, y as int) {
                    assert(pixel(self.buf@, w, p.0, p.1) =~= color@);
                } else {
                    lemma_pixels_differ(w, x as int, y as int, p.0, p.1);
                    assert(pixel(self.buf@, w, p.0, p.1) =~= pixel(before, w, p.0, p.1));
                }
            }
            assert(self@ =~= m);
        }
    }

    /// Paint one pixel, if it is on the canvas.
    pub fn put(&mut self, x: i32, y: i32, color: [u8; 4])
        requires
            old(self).wf(),
        ensures
            final(self).wf(),
            final(self).width == old(self).width,
            final(self).height == old(self).height,
            final(self)@ == filled(old(self)@, x as int, y as int, 1, 1, color@),
    {
        self.dot(x as i64, y as i64, color);
    }

    /// Paint a rectangle, as far as it is on the canvas.
    pub fn fill(&mut self, x: i32, y: i32, w: i32, h: i32, c: [u8; 4])
        requires
            old(self).wf(),
        ensures
            final(self).wf(),
            final(self).width == old(self).width,
            final(self).height == old(self).height,
            final(self)@ == filled(old(self)@, x as int, y as int, w as int, h as int, c@),
    {
        self.fill_wide(x as i64, y as i64, w, h, c);
    }

    fn fill_wide(&mut self, x: i64, y: i64, w: i32, h: i32, c: [u8; 4])
        requires
            old(self).wf(),
            -0x4_0000_0000 <= x <= 0x4_0000_0000,
            -0x4_0000_0000 <= y <= 0x4_0000_0000,
        ensures
            final(self).wf(),
            final(self).width == old(self).width,
            final(self).height == old(self).height,
            final(self)@ == filled(old(self)@, x as int, y as int, w as int, h as int, c@),
    {
        let ghost m = self@;
        let mut dy: i32 = 0;
        assert(self@ =~= filled(m, x as int, y as int, w as int, 0, c@));
        while dy < h
            invariant
                self.wf(),
                self.width == old(self).width,
                self.height == old(self).height,
                0 <= dy,
                dy <= h || dy == 0,
                -0x4_0000_0000 <= x <= 0x4_0000_0000,
                -0x4_0000_0000 <= y <= 0x4_0000_0000,
                self@ == filled(m, x as int, y as int, w as int, dy as int, c@),
            decreases h - dy,
        {
            let ghost above = self@;
            let mut dx: i32 = 0;
            assert(self@ =~= filled(above, x as int, y + dy, 0, 1, c@));
            while dx < w
                invariant
                    self.wf(),
                    self.width == old(self).width,
                    self.height == old(self).height,
                    0 <= dx,
                    dx <= w || dx == 0,
                    0 <= dy < h,
                    -0x4_0000_0000 <= x <= 0x4_0000_0000,
                    -0x4_0000_0000 <= y <= 0x4_0000_0000,
                    self@ == filled(above, x as int, y + dy, dx as int, 1, c@),
                decreases w - dx,
            {
                self.dot(x + dx as i64, y + dy as i64, c);
                dx = dx + 1;
                assert(self@ =~= filled(above, x as int, y + dy, dx as int, 1, c@));
            }
            assert(self@ =~= filled(above, x as int, y + dy, w as int, 1, c@));
            dy = dy + 1;
            assert(self@ =~= filled(m, x as int, y as int, w as int, dy as int, c@));
        }
        assert(self@ =~= filled(m, x as int, y as int, w as int, h as int, c@));
    }

    /// Paint a frame of thickness `t` along the inside of a rectangle.
    pub fn border(&mut self, x: i32, y: i32, w: i32, h: i32, t: i32, c: [u8; 4])
        requires
            old(self).wf(),
        ensures
            final(self).wf(),
            final(self).width == old(self).width,
            final(self).height == old(self).height,
            final(self)@ == framed(
                old(self)@,
                x as int,
                y as int,
                w as int,
                h as int,
                t as int,
                c@,
            ),
    {
        self.fill(x, y, w, t, c);
        self.fill_wide(x as i64, y as i64 + h as i64 - t as i64, w, t, c);
        self.fill(x, y, t, h, c);
        self.fill_wide(x as i64 + w as i64 - t as i64, y as i64, t, h, c);
        assert(self@ =~= framed(
            old(self)@,
            x as int,
            y as int,
            w as int,
            h as int,
            t as int,
            c@,
        ));
    }
}

} // verus!
