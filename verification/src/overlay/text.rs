//! Drawing text from rasterized glyphs.

use super::canvas::{filled, Canvas, Picture};
use crate::text::chars_of;
use vstd::prelude::*;

verus! {

/// A rasterized glyph.
#[derive(Debug)]
pub struct Glyph {
    /// From the pen to the left edge.
    pub xmin: i32,
    /// From the baseline up to the bottom edge.
    pub ymin: i32,
    pub width: usize,
    pub height: usize,
    /// Coverage bitmap, `width * height`, row-major.
    pub coverage: Vec<u8>,
}

impl Glyph {
    /// The bitmap has the size that the glyph says.
    pub open spec fn wf(self) -> bool {
        &&& self.width <= i32::MAX
        &&& self.height <= i32::MAX
        &&& self.coverage@.len() == self.width * self.height
    }

    /// Whether the bitmap has the size that the glyph says.
    pub fn is_whole(&self) -> (r: bool)
        ensures
            r == self.wf(),
    {
        if self.width > i32::MAX as usize || self.height > i32::MAX as usize {
            return false;
        }
        let (w, h): (u64, u64) = (self.width as u64, self.height as u64);
        assert(w * h <= 0x7fff_ffff * 0x7fff_ffff) by (nonlinear_arith)
            requires
                w <= 0x7fff_ffff,
                h <= 0x7fff_ffff,
        ;
        self.coverage.len() as u64 == w * h
    }
}

/// A share of `f` and the rest of `b`; `a` of 255 is the share.
pub open spec fn mixed(b: u8, f: u8, a: u8) -> u8 {
    ((b * (255 - a) + f * a) / 255) as u8
}

/// A color laid over an opaque background with the given coverage.
pub open spec fn blended(bg: [u8; 4], fg: [u8; 4], cov: u8) -> Seq<u8> {
    seq![
        mixed(bg@[0], fg@[0], cov),
        mixed(bg@[1], fg@[1], cov),
        mixed(bg@[2], fg@[2], cov),
        0xff,
    ]
}

fn mix(b: u8, f: u8, a: u8) -> (r: u8)
    ensures
        r == mixed(b, f, a),
{
    proof {
        lemma_mixed(b, f, a);
    }
    let rest: u32 = b as u32 * (255 - a) as u32;
    let share: u32 = f as u32 * a as u32;
    ((rest + share) / 255) as u8
}

proof fn lemma_mixed(b: u8, f: u8, a: u8)
    ensures
        0 <= f * a <= 255 * 255,
        0 <= b * (255 - a) <= 255 * 255,
        b <= f ==> b * 255 <= b * (255 - a) + f * a <= f * 255,
        f <= b ==> f * 255 <= b * (255 - a) + f * a <= b * 255,
{
    assert(0 <= f * a <= 255 * 255 && 0 <= b * (255 - a) <= 255 * 255) by (nonlinear_arith)
        requires
            0 <= a <= 255,
            0 <= b <= 255,
            0 <= f <= 255,
    ;
    if b <= f {
        assert(b * 255 <= b * (255 - a) + f * a <= f * 255) by (nonlinear_arith)
            requires
                0 <= a <= 255,
                0 <= b <= f,
        ;
    } else {
        assert(f * 255 <= b * (255 - a) + f * a <= b * 255) by (nonlinear_arith)
            requires
                0 <= a <= 255,
                0 <= f < b,
        ;
    }
}

/// `fg` over `bg` with the given coverage; the result is opaque.
pub fn blend(bg: [u8; 4], fg: [u8; 4], cov: u8) -> (r: [u8; 4])
    ensures
        r@ == blended(bg, fg, cov),
{
    let r = [mix(bg[0], fg[0], cov), mix(bg[1], fg[1], cov), mix(bg[2], fg[2], cov), 0xff];
    assert(r@ =~= blended(bg, fg, cov));
    r
}

/// Without coverage the background stays, with full coverage the foreground
/// replaces it, and anything between lies between the two.
pub proof fn law_blending_lies_between(b: u8, f: u8, a: u8)
    ensures
        mixed(b, f, 0) == b,
        mixed(b, f, 255) == f,
        b <= f ==> b <= mixed(b, f, a) <= f,
        f <= b ==> f <= mixed(b, f, a) <= b,
{
    lemma_mixed(b, f, a);
    assert((b * (255 - 0u8) + f * 0u8) / 255 == b);
    assert((b * (255 - 255u8) + f * 255u8) / 255 == f);
}

/// The glyph for a character: the one that was added last.
pub open spec fn glyph_for(glyphs: Seq<(char, Glyph)>, c: char) -> Option<Glyph>
    decreases glyphs.len(),
{
    if glyphs.len() == 0 {
        None
    } else if glyphs.last().0 == c {
        Some(glyphs.last().1)
    } else {
        glyph_for(glyphs.drop_last(), c)
    }
}

/// The largest of the widths, or zero.
pub open spec fn widest(advances: Seq<usize>) -> nat
    decreases advances.len(),
{
    if advances.len() == 0 {
        0
    } else {
        let rest = widest(advances.drop_last());
        if advances.last() > rest {
            advances.last() as nat
        } else {
            rest
        }
    }
}

/// The glyphs of a monospace font at one size.
#[derive(Debug)]
pub struct GlyphAtlas {
    pub glyphs: Vec<(char, Glyph)>,
    /// Height of a line of text.
    pub line: usize,
    /// From the top of the line down to the baseline.
    pub baseline: i32,
    /// From one character to the next.
    pub advance: usize,
}

/// The picture with a glyph on it, its top-left corner at (`gx`, `gy`).
pub open spec fn glyph_drawn(
    m: Picture,
    g: Glyph,
    gx: int,
    gy: int,
    color: [u8; 4],
    bg: [u8; 4],
) -> Picture {
    cells_drawn(m, g, gx, gy, color, bg, g.width * g.height)
}

/// The picture with the first `n` cells of a glyph on it.
pub open spec fn cells_drawn(
    m: Picture,
    g: Glyph,
    gx: int,
    gy: int,
    color: [u8; 4],
    bg: [u8; 4],
    n: int,
) -> Picture {
    Map::new(
        |p: (int, int)| m.dom().contains(p),
        |p: (int, int)|
            {
                let cell = (p.1 - gy) * g.width + (p.0 - gx);
                if 0 <= p.0 - gx < g.width && 0 <= p.1 - gy < g.height && cell < n
                    && g.coverage@[cell] != 0 {
                    blended(bg, color, g.coverage@[cell])
                } else {
                    m[p]
                }
            },
    )
}

impl GlyphAtlas {
    /// The bitmaps are whole and the advance is a width in pixels.
    pub open spec fn wf(self) -> bool {
        &&& forall|i: int| 0 <= i < self.glyphs@.len() ==> (#[trigger] self.glyphs@[i]).1.wf()
        &&& self.advance <= i32::MAX
    }

    /// Whether the bitmaps are whole and the advance is a width in pixels.
    pub fn is_whole(&self) -> (r: bool)
        ensures
            r == self.wf(),
    {
        for i in 0..self.glyphs.len()
            invariant
                forall|j: int| 0 <= j < i ==> (#[trigger] self.glyphs@[j]).1.wf(),
        {
            if !self.glyphs[i].1.is_whole() {
                assert(!self.glyphs@[i as int].1.wf());
                return false;
            }
        }
        self.advance <= i32::MAX as usize
    }

    /// Collect rasterized glyphs. The characters are set as far apart as the
    /// widest of them needs.
    pub fn new(
        line: usize,
        baseline: i32,
        glyphs: Vec<(char, Glyph)>,
        advances: &Vec<usize>,
    ) -> (r: GlyphAtlas)
        ensures
            r.glyphs@ == glyphs@,
            r.line == line,
            r.baseline == baseline,
            r.advance == widest(advances@),
    {
        let mut advance: usize = 0;
        for i in 0..advances.len()
            invariant
                advance == widest(advances@.take(i as int)),
        {
            assert(advances@.take(i + 1).drop_last() =~= advances@.take(i as int));
            if advances[i] > advance {
                advance = advances[i];
            }
        }
        assert(advances@.take(advances@.len() as int) =~= advances@);
        GlyphAtlas { glyphs, line, baseline, advance }
    }

    /// The glyph for a character.
    fn find(&self, c: char) -> (r: Option<&Glyph>)
        ensures
            match r {
                Some(g) => glyph_for(self.glyphs@, c) == Some(*g),
                None => glyph_for(self.glyphs@, c) is None,
            },
            r matches Some(g) ==> self.wf() ==> g.wf(),
    {
        let mut i: usize = self.glyphs.len();
        assert(self.glyphs@.take(i as int) =~= self.glyphs@);
        while i > 0
            invariant
                i <= self.glyphs@.len(),
                glyph_for(self.glyphs@, c) == glyph_for(self.glyphs@.take(i as int), c),
            decreases i,
        {
            i = i - 1;
            assert(self.glyphs@.take(i + 1).drop_last() =~= self.glyphs@.take(i as int));
            if self.glyphs[i].0 == c {
                return Some(&self.glyphs[i].1);
            }
        }
        None
    }

    /// Pixel size of the rendered text box for `text` (width, height).
    pub fn measure(&self, text: &str) -> (r: (usize, usize))
        requires
            self.advance * text@.len() <= usize::MAX,
        ensures
            r.0 == self.advance * text@.len(),
            r.1 == self.line,
    {
        let n = text.unicode_len();
        (self.advance * n, self.line)
    }

    /// The picture with `text` on it, the top-left corner of its box at
    /// (`x`, `y`).
    pub open spec fn text_drawn(
        self,
        m: Picture,
        text: Seq<char>,
        x: int,
        y: int,
        color: [u8; 4],
        bg: [u8; 4],
    ) -> Picture
        decreases text.len(),
    {
        if text.len() == 0 {
            m
        } else {
            let before = self.text_drawn(m, text.drop_last(), x, y, color, bg);
            match glyph_for(self.glyphs@, text.last()) {
                Some(g) => glyph_drawn(
                    before,
                    g,
                    x + self.advance * (text.len() - 1) + g.xmin,
                    y + self.baseline - g.height - g.ymin,
                    color,
                    bg,
                ),
                None => before,
            }
        }
    }

    /// Blit `text` with its top-left at (`x`, `y`), `color` foreground over the
    /// (assumed opaque) background `bg`.
    pub fn draw(
        &self,
        text: &str,
        x: i32,
        y: i32,
        color: [u8; 4],
        bg: [u8; 4],
        canvas: &mut Canvas,
    )
        requires
            self.wf(),
            self.advance * text@.len() <= i32::MAX,
            old(canvas).wf(),
        ensures
            final(canvas).wf(),
            final(canvas).width == old(canvas).width,
            final(canvas).height == old(canvas).height,
            final(canvas)@ == self.text_drawn(old(canvas)@, text@, x as int, y as int, color, bg),
    {
        let chars = chars_of(text);
        let ghost m = canvas@;
        for k in 0..chars.len()
            invariant
                self.wf(),
                chars@ == text@,
                self.advance * text@.len() <= i32::MAX,
                canvas.wf(),
                canvas.width == old(canvas).width,
                canvas.height == old(canvas).height,
                canvas@ == self.text_drawn(m, text@.take(k as int), x as int, y as int, color, bg),
        {
            proof {
                assert(text@.take(k + 1).drop_last() =~= text@.take(k as int));
                assert(0 <= self.advance * k <= self.advance * text@.len()) by (nonlinear_arith)
                    requires
                        0 <= k <= text@.len(),
                        0 <= self.advance,
                ;
            }
            if let Some(g) = self.find(chars[k]) {
                let gx: i64 = x as i64 + (self.advance * k) as i64 + g.xmin as i64;
                let gy: i64 = y as i64 + self.baseline as i64 - g.height as i64 - g.ymin as i64;
                blit(g, gx, gy, color, bg, canvas);
            }
        }
        assert(text@.take(text@.len() as int) =~= text@);
    }
}

/// One more cell of a glyph.
proof fn lemma_cell(m: Picture, g: Glyph, gx: int, gy: int, color: [u8; 4], bg: [u8; 4], row: int, col: int)
    requires
        g.wf(),
        0 <= row < g.height,
        0 <= col < g.width,
    ensures
        ({
            let n = row * g.width + col;
            let before = cells_drawn(m, g, gx, gy, color, bg, n);
            cells_drawn(m, g, gx, gy, color, bg, n + 1) == if g.coverage@[n] != 0 {
                filled(before, gx + col, gy + row, 1, 1, blended(bg, color, g.coverage@[n]))
            } else {
                before
            }
        }),
{
    let n = row * g.width + col;
    let w = g.width as int;
    let before = cells_drawn(m, g, gx, gy, color, bg, n);
    let after = cells_drawn(m, g, gx, gy, color, bg, n + 1);
    let step = if g.coverage@[n] != 0 {
        filled(before, gx + col, gy + row, 1, 1, blended(bg, color, g.coverage@[n]))
    } else {
        before
    };
    assert forall|p: (int, int)| m.dom().contains(p) implies #[trigger] after[p] == step[p] by {
        let (u, v) = (p.0 - gx, p.1 - gy);
        if 0 <= u < w && 0 <= v < g.height && v * w + u == n {
            assert(u == col && v == row) by (nonlinear_arith)
                requires
                    0 <= u < w,
                    0 <= col < w,
                    v * w + u == row * w + col,
            ;
        }
    }
    assert(after =~= step);
}

fn blit(g: &Glyph, gx: i64, gy: i64, color: [u8; 4], bg: [u8; 4], canvas: &mut Canvas)
    requires
        g.wf(),
        old(canvas).wf(),
        -0x4_0000_0000 <= gx <= 0x4_0000_0000,
        -0x4_0000_0000 <= gy <= 0x4_0000_0000,
    ensures
        final(canvas).wf(),
        final(canvas).width == old(canvas).width,
        final(canvas).height == old(canvas).height,
        final(canvas)@ == glyph_drawn(old(canvas)@, *g, gx as int, gy as int, color, bg),
{
    let ghost m = canvas@;
    proof {
        assert forall|p: (int, int)| 0 <= p.0 - gx < g.width && 0 <= p.1 - gy < g.height implies 0
            <= #[trigger] ((p.1 - gy) * g.width) + (p.0 - gx) by {
            assert(0 <= (p.1 - gy) * g.width) by (nonlinear_arith)
                requires
                    0 <= p.1 - gy,
                    0 <= g.width,
            ;
        }
        assert(canvas@ =~= cells_drawn(m, *g, gx as int, gy as int, color, bg, 0));
        assert(0 * g.width == 0);
    }
    let cells = g.coverage.len();
    for row in 0..g.height
        invariant
            g.wf(),
            cells == g.coverage@.len(),
            canvas.wf(),
            canvas.width == old(canvas).width,
            canvas.height == old(canvas).height,
            -0x4_0000_0000 <= gx <= 0x4_0000_0000,
            -0x4_0000_0000 <= gy <= 0x4_0000_0000,
            canvas@ == cells_drawn(m, *g, gx as int, gy as int, color, bg, row * g.width),
    {
        for col in 0..g.width
            invariant
                g.wf(),
                cells == g.coverage@.len(),
                canvas.wf(),
                canvas.width == old(canvas).width,
                canvas.height == old(canvas).height,
                0 <= row < g.height,
                -0x4_0000_0000 <= gx <= 0x4_0000_0000,
                -0x4_0000_0000 <= gy <= 0x4_0000_0000,
                canvas@ == cells_drawn(m, *g, gx as int, gy as int, color, bg, row * g.width + col),
        {
            proof {
                lemma_cell(m, *g, gx as int, gy as int, color, bg, row as int, col as int);
                assert(0 <= row * g.width + col < g.width * g.height) by (nonlinear_arith)
                    requires
                        0 <= row < g.height,
                        0 <= col < g.width,
                ;
                assert(0 <= row * g.width <= row * g.width + col) by (nonlinear_arith)
                    requires
                        0 <= row,
                        0 <= g.width,
                        0 <= col,
                ;
            }
            let cov = g.coverage[row * g.width + col];
            if cov != 0 {
                canvas.dot(gx + col as i64, gy + row as i64, blend(bg, color, cov));
            }
        }
        assert((row + 1) * g.width == row * g.width + g.width) by (nonlinear_arith);
    }
    assert(g.height * g.width == g.width * g.height) by (nonlinear_arith);
}

} // verus!
