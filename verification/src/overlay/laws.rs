//! What holds of the drawn overlay: pixels, glyphs, and where labels are put.

use super::canvas::{byte_count, filled, framed, Canvas, Picture};
use super::fonts::{marked, resolved};
use super::text::{blended, glyph_drawn, glyph_for, widest, Glyph, GlyphAtlas};
use super::{
    anchored, ascending, box_size, fits, free, in_labels, keyed, label_drawn, labels_drawn, last_fit, layout, nudged,
    overlapping, settled, Area, Key, LABEL_BG, LABEL_DIM, LABEL_FG, LABEL_PAD, LABEL_PX, NUDGES,
};
use crate::geometry::PhysicalRect;
use crate::hints::{law_how_many_are_reachable, sole, Hint};
use crate::text::ascii_lower;
use vstd::prelude::*;

verus! {

// ---- pixels ----

/// A canvas shows four bytes per pixel, row by row: those of the pixel in
/// column `x` and row `y` stand behind `y` whole rows and `x` pixels.
pub proof fn law_pixels_lie_row_by_row(c: Canvas, x: int, y: int, k: int)
    requires
        c.wf(),
        0 <= x < c.width,
        0 <= y < c.height,
        0 <= k < 4,
    ensures
        c@.dom().contains((x, y)),
        c@[(x, y)].len() == 4,
        c@[(x, y)][k] == c.buf@[4 * (y * c.width + x) + k],
        c.buf@.len() == 4 * c.width * c.height,
        0 <= 4 * (y * c.width + x) + k < c.buf@.len(),
{
    let (w, h) = (c.width as int, c.height as int);
    assert(0 <= y * w + x < w * h) by (nonlinear_arith)
        requires
            0 <= x < w,
            0 <= y < h,
    ;
    assert(byte_count(c.width, c.height) == w * h * 4);
    assert(4 * w * h == w * h * 4) by (nonlinear_arith);
}

/// Nothing beyond its edges is on a canvas.
pub proof fn law_canvas_ends_at_its_edges(c: Canvas, p: (int, int))
    ensures
        c@.dom().contains(p) <==> 0 <= p.0 < c.width && 0 <= p.1 < c.height,
{
}

/// Filling paints exactly the points of the rectangle and keeps the others.
pub proof fn law_fill_paints_its_rectangle(
    m: Picture,
    x: int,
    y: int,
    w: int,
    h: int,
    c: Seq<u8>,
    p: (int, int),
)
    ensures
        filled(m, x, y, w, h, c).dom() == m.dom(),
        m.dom().contains(p) ==> filled(m, x, y, w, h, c)[p] == if x <= p.0 && p.0 < x + w && y
            <= p.1 && p.1 < y + h {
            c
        } else {
            m[p]
        },
{
    assert(filled(m, x, y, w, h, c).dom() =~= m.dom());
}

/// A frame paints exactly what lies in the rectangle within `t` of its edge.
pub proof fn law_frame_paints_the_edge(
    m: Picture,
    x: int,
    y: int,
    w: int,
    h: int,
    t: int,
    c: Seq<u8>,
    p: (int, int),
)
    requires
        0 <= t <= w,
        t <= h,
        m.dom().contains(p),
    ensures
        framed(m, x, y, w, h, t, c).dom() == m.dom(),
        ({
            let outer = x <= p.0 && p.0 < x + w && y <= p.1 && p.1 < y + h;
            let inner = x + t <= p.0 && p.0 < x + w - t && y + t <= p.1 && p.1 < y + h - t;
            framed(m, x, y, w, h, t, c)[p] == if outer && !inner {
                c
            } else {
                m[p]
            }
        }),
{
    assert(framed(m, x, y, w, h, t, c).dom() =~= m.dom());
}

// ---- glyphs ----

/// Blending keeps the order of the channels and ends opaque; each channel is
/// the weighted mean of the two, rounded down.
pub proof fn law_blending_is_a_weighted_mean(bg: [u8; 4], fg: [u8; 4], cov: u8, k: int)
    ensures
        blended(bg, fg, cov).len() == 4,
        blended(bg, fg, cov)[3] == 255,
        0 <= k < 3 ==> {
            let sum = bg@[k] * (255 - cov) + fg@[k] * cov;
            255 * blended(bg, fg, cov)[k] <= sum < 255 * blended(bg, fg, cov)[k] + 255
        },
{
    if 0 <= k < 3 {
        let (b, f) = (bg@[k] as int, fg@[k] as int);
        assert(0 <= b * (255 - cov) + f * cov <= 255 * 255) by (nonlinear_arith)
            requires
                0 <= b <= 255,
                0 <= f <= 255,
                0 <= cov <= 255,
        ;
    }
}

/// A glyph paints its own cells: where the bitmap covers a pixel its color is
/// blended in, by that coverage, and everywhere else the picture stays.
pub proof fn law_glyphs_paint_their_cells(
    m: Picture,
    g: Glyph,
    gx: int,
    gy: int,
    color: [u8; 4],
    bg: [u8; 4],
    p: (int, int),
)
    requires
        g.wf(),
        m.dom().contains(p),
    ensures
        glyph_drawn(m, g, gx, gy, color, bg).dom() == m.dom(),
        ({
            let (col, row) = (p.0 - gx, p.1 - gy);
            let cov = g.coverage@[row * g.width + col];
            let drawn = glyph_drawn(m, g, gx, gy, color, bg)[p];
            if 0 <= col && col < g.width && 0 <= row && row < g.height && cov > 0 {
                drawn == blended(bg, color, cov)
            } else {
                drawn == m[p]
            }
        }),
{
    assert(glyph_drawn(m, g, gx, gy, color, bg).dom() =~= m.dom());
    let (col, row) = (p.0 - gx, p.1 - gy);
    let (w, h) = (g.width as int, g.height as int);
    if 0 <= col < w && 0 <= row < h {
        assert(row * w + col < w * h) by (nonlinear_arith)
            requires
                0 <= col < w,
                0 <= row < h,
        ;
    }
}

/// The glyph of a character is the one that was added last; a character for
/// which none was added has none.
pub proof fn law_last_glyph_counts(
    a: Seq<(char, Glyph)>,
    c: char,
    g: Glyph,
    b: Seq<(char, Glyph)>,
)
    requires
        forall|i: int| 0 <= i < b.len() ==> (#[trigger] b[i]).0 != c,
    ensures
        glyph_for(a.push((c, g)) + b, c) == Some(g),
        glyph_for(b, c) is None,
    decreases b.len(),
{
    let all = a.push((c, g)) + b;
    if b.len() == 0 {
        assert(all =~= a.push((c, g)));
        assert(all.last() == (c, g));
    } else {
        let rest = b.drop_last();
        assert forall|i: int| 0 <= i < rest.len() implies (#[trigger] rest[i]).0 != c by {
            assert(rest[i] == b[i]);
        }
        law_last_glyph_counts(a, c, g, rest);
        assert(all.drop_last() =~= a.push((c, g)) + rest);
        assert(all.last() == b.last());
        assert(b[b.len() - 1].0 != c);
    }
}

/// Characters are set as far apart as the widest needs: no width is greater, and
/// one of them is as great, unless there are none.
pub proof fn law_widest_is_the_greatest(advances: Seq<usize>)
    ensures
        forall|i: int| 0 <= i < advances.len() ==> #[trigger] advances[i] <= widest(advances),
        advances.len() == 0 ==> widest(advances) == 0,
        advances.len() > 0 ==> exists|i: int|
            0 <= i < advances.len() && #[trigger] advances[i] == widest(advances),
    decreases advances.len(),
{
    if advances.len() > 0 {
        let front = advances.drop_last();
        law_widest_is_the_greatest(front);
        assert forall|i: int| 0 <= i < advances.len() implies #[trigger] advances[i] <= widest(
            advances,
        ) by {
            if i < front.len() {
                assert(front[i] == advances[i]);
            }
        }
        if advances.last() > widest(front) || front.len() == 0 {
            assert(advances[advances.len() - 1] == widest(advances));
        } else {
            let i = choose|i: int| 0 <= i < front.len() && #[trigger] front[i] == widest(front);
            assert(advances[i] == widest(advances));
        }
    }
}

/// A text is drawn character by character, each an advance further right: the
/// parts of a text are drawn one behind the other.
pub proof fn law_text_is_drawn_in_turn(
    atlas: GlyphAtlas,
    m: Picture,
    a: Seq<char>,
    b: Seq<char>,
    x: int,
    y: int,
    color: [u8; 4],
    bg: [u8; 4],
)
    ensures
        atlas.text_drawn(m, a + b, x, y, color, bg) == atlas.text_drawn(
            atlas.text_drawn(m, a, x, y, color, bg),
            b,
            x + atlas.advance * a.len(),
            y,
            color,
            bg,
        ),
    decreases b.len(),
{
    let all = a + b;
    if b.len() == 0 {
        assert(all =~= a);
    } else {
        law_text_is_drawn_in_turn(atlas, m, a, b.drop_last(), x, y, color, bg);
        assert(all.drop_last() =~= a + b.drop_last());
        assert(all.last() == b.last());
        let (adv, n, k) = (atlas.advance as int, a.len() as int, b.len() as int);
        assert(x + adv * (n + k - 1) == x + adv * n + adv * (k - 1)) by (nonlinear_arith);
    }
}

/// A single character is drawn from its glyph: its left edge `xmin` right of the
/// corner, and its bottom edge `ymin` above the baseline. One without a glyph
/// leaves the picture as it is.
pub proof fn law_characters_stand_on_the_baseline(
    atlas: GlyphAtlas,
    m: Picture,
    c: char,
    x: int,
    y: int,
    color: [u8; 4],
    bg: [u8; 4],
)
    ensures
        glyph_for(atlas.glyphs@, c) matches Some(g) ==> atlas.text_drawn(
            m,
            seq![c],
            x,
            y,
            color,
            bg,
        ) == glyph_drawn(
            m,
            g,
            x + g.xmin,
            y + atlas.baseline - g.ymin - g.height,
            color,
            bg,
        ),
        glyph_for(atlas.glyphs@, c) is None ==> atlas.text_drawn(m, seq![c], x, y, color, bg) == m,
{
    assert(seq![c].drop_last() =~= seq![]);
    assert(atlas.text_drawn(m, seq![c].drop_last(), x, y, color, bg) == m);
    assert(atlas.advance * (seq![c].len() - 1) == 0);
}

// ---- places ----

/// The point lies in the box.
pub open spec fn holds_point(a: Area, x: int, y: int) -> bool {
    a.0 <= x < a.0 + a.2 && a.1 <= y < a.1 + a.3
}

/// Two boxes that share a point overlap, and boxes that overlap share the point
/// where their later edges meet.
pub proof fn law_overlapping_boxes_share_a_point(a: Area, b: Area, x: int, y: int)
    ensures
        holds_point(a, x, y) && holds_point(b, x, y) ==> overlapping(a, b),
        overlapping(a, b) && a.2 > 0 && a.3 > 0 && b.2 > 0 && b.3 > 0 ==> {
            let px = if a.0 > b.0 {
                a.0 as int
            } else {
                b.0 as int
            };
            let py = if a.1 > b.1 {
                a.1 as int
            } else {
                b.1 as int
            };
            holds_point(a, px, py) && holds_point(b, px, py)
        },
        overlapping(a, b) == overlapping(b, a),
{
}

/// A label begins at the top-left corner of its element, as far as the screen
/// has room for it there: one that would leave the screen is moved back to its
/// edge, and one too large for the screen begins at the edge.
pub proof fn law_labels_begin_at_their_element(
    rect: PhysicalRect,
    size: (int, int),
    screen: (int, int),
)
    requires
        0 <= size.0 <= i32::MAX,
        0 <= size.1 <= i32::MAX,
        0 <= screen.0 <= i32::MAX,
        0 <= screen.1 <= i32::MAX,
    ensures
        ({
            let b = anchored(rect, size, screen);
            &&& b.2 == size.0 && b.3 == size.1
            &&& 0 <= rect.x && rect.x + size.0 <= screen.0 ==> b.0 == rect.x
            &&& rect.x < 0 || size.0 > screen.0 ==> b.0 == 0
            &&& rect.x >= 0 && size.0 <= screen.0 && rect.x + size.0 > screen.0 ==> b.0 + size.0
                == screen.0
            &&& 0 <= rect.y && rect.y + size.1 <= screen.1 ==> b.1 == rect.y
            &&& rect.y < 0 || size.1 > screen.1 ==> b.1 == 0
            &&& rect.y >= 0 && size.1 <= screen.1 && rect.y + size.1 > screen.1 ==> b.1 + size.1
                == screen.1
        }),
{
}

/// A label is nudged straight down, by its own height and no further than the
/// screen goes.
pub proof fn law_nudges_go_down(b: Area, limit: int)
    requires
        0 <= b.1 <= limit,
        0 <= b.3,
        limit + b.3 <= i32::MAX,
    ensures
        ({
            let c = nudged(b, limit);
            &&& c.0 == b.0 && c.2 == b.2 && c.3 == b.3
            &&& b.1 + b.3 <= limit ==> c.1 == b.1 + b.3
            &&& b.1 + b.3 > limit ==> c.1 == limit
        }),
{
}

/// A label that is free where it begins stays there; any other one is nudged at
/// least once while a try is left.
pub proof fn law_free_labels_stay(b: Area, placed: Seq<Area>, limit: int, tries: nat)
    ensures
        (forall|i: int| 0 <= i < placed.len() ==> !overlapping(b, #[trigger] placed[i]))
            ==> settled(b, placed, limit, tries) == b,
        tries > 0 && (exists|i: int| 0 <= i < placed.len() && overlapping(b, #[trigger] placed[i]))
            ==> settled(b, placed, limit, tries) == settled(
            nudged(b, limit),
            placed,
            limit,
            (tries - 1) as nat,
        ),
{
}

/// A label's box is its text and four pixels around it.
pub proof fn law_boxes_are_padded(atlas: GlyphAtlas, label: Seq<char>)
    ensures
        box_size(atlas, label).0 == atlas.advance * label.len() + 8,
        box_size(atlas, label).1 == atlas.line + 8,
{
}

/// The greatest coordinate at which something is still on-screen leaves exactly
/// its own length.
pub proof fn law_last_fit_leaves_room(extent: int, len: int)
    ensures
        len <= extent ==> last_fit(extent, len) + len == extent,
        len > extent ==> last_fit(extent, len) == 0,
{
}

/// One more hint: where the prefix leads to it, it gets a place that is as free
/// of the ones before as its nudges allow, beginning at its element; otherwise
/// it gets none. The places before it stay.
pub proof fn law_labels_are_placed_in_turn(
    hints: Seq<Hint>,
    typed: Seq<char>,
    atlas: GlyphAtlas,
    screen: (u32, u32),
    n: nat,
)
    requires
        n < hints.len() <= usize::MAX,
        fits(atlas, hints[n as int].label@, screen),
    ensures
        ({
            let before = layout(hints, typed, atlas, screen, n);
            let after = layout(hints, typed, atlas, screen, n + 1);
            let hint = hints[n as int];
            let (w, h) = (atlas.advance * hint.label@.len() + 8, atlas.line + 8);
            &&& !typed.is_prefix_of(hint.label@) ==> after == before
            &&& typed.is_prefix_of(hint.label@) ==> {
                &&& after.len() == before.len() + 1
                &&& after.drop_last() == before
                &&& after.last().0 == n
                &&& 0 <= hint.rect.x && hint.rect.x + w <= screen.0 && 0 <= hint.rect.y
                    && hint.rect.y + h <= screen.1 && (forall|k: int|
                    0 <= k < before.len() ==> !overlapping(
                        (hint.rect.x, hint.rect.y, w as i32, h as i32),
                        (#[trigger] before[k]).1,
                    )) ==> after.last().1 == (hint.rect.x, hint.rect.y, w as i32, h as i32)
            }
        }),
{
    let before = layout(hints, typed, atlas, screen, n);
    let after = layout(hints, typed, atlas, screen, n + 1);
    let hint = hints[n as int];
    if typed.is_prefix_of(hint.label@) {
        assert(after.drop_last() =~= before);
        let size = box_size(atlas, hint.label@);
        let placed = before.map_values(|e: (usize, Area)| e.1);
        let start = anchored(hint.rect, size, (screen.0 as int, screen.1 as int));
        assert(0 <= atlas.advance * hint.label@.len()) by (nonlinear_arith);
        if (forall|k: int|
            0 <= k < before.len() ==> !overlapping(
                (hint.rect.x, hint.rect.y, size.0 as i32, size.1 as i32),
                (#[trigger] before[k]).1,
            )) && start == (hint.rect.x, hint.rect.y, size.0 as i32, size.1 as i32) {
            assert forall|i: int| 0 <= i < placed.len() implies !overlapping(
                start,
                #[trigger] placed[i],
            ) by {
                assert(placed[i] == before[i].1);
            }
            assert(free(start, placed));
        }
    }
}

// ---- labels ----

/// The looks of a label: a yellow box with dark text and frame, and grey for
/// what is typed already.
pub proof fn law_label_looks()
    ensures
        LABEL_BG@ == seq![0x00u8, 0xC8, 0xFF, 0xFF],
        LABEL_FG@ == seq![0x10u8, 0x10, 0x10, 0xFF],
        LABEL_DIM@ == seq![0x70u8, 0x70, 0x70, 0xFF],
        LABEL_PAD == 4,
        LABEL_PX == 26,
        NUDGES == 16,
{
    assert(LABEL_BG@ =~= seq![0x00u8, 0xC8, 0xFF, 0xFF]);
    assert(LABEL_FG@ =~= seq![0x10u8, 0x10, 0x10, 0xFF]);
    assert(LABEL_DIM@ =~= seq![0x70u8, 0x70, 0x70, 0xFF]);
}

/// Nothing of the text has a glyph.
pub open spec fn blank_text(atlas: GlyphAtlas, text: Seq<char>) -> bool {
    forall|i: int| 0 <= i < text.len() ==> glyph_for(atlas.glyphs@, #[trigger] text[i]) is None
}

proof fn lemma_blank_text(
    atlas: GlyphAtlas,
    m: Picture,
    text: Seq<char>,
    x: int,
    y: int,
    color: [u8; 4],
    bg: [u8; 4],
)
    requires
        blank_text(atlas, text),
    ensures
        atlas.text_drawn(m, text, x, y, color, bg) == m,
    decreases text.len(),
{
    if text.len() > 0 {
        let front = text.drop_last();
        assert forall|i: int| 0 <= i < front.len() implies glyph_for(
            atlas.glyphs@,
            #[trigger] front[i],
        ) is None by {
            assert(front[i] == text[i]);
        }
        lemma_blank_text(atlas, m, front, x, y, color, bg);
        assert(glyph_for(atlas.glyphs@, text[text.len() - 1]) is None);
    }
}

/// Text aside, a label is its box in the background color with an edge of one
/// pixel in the text color, and leaves everything outside as it was.
pub proof fn law_labels_are_framed_boxes(
    m: Picture,
    atlas: GlyphAtlas,
    label: Seq<char>,
    typed: nat,
    b: Area,
    p: (int, int),
)
    requires
        blank_text(atlas, label),
        typed <= label.len(),
        b.2 > 0,
        b.3 > 0,
        m.dom().contains(p),
    ensures
        ({
            let drawn = label_drawn(m, atlas, label, typed, b)[p];
            let outer = b.0 <= p.0 < b.0 + b.2 && b.1 <= p.1 < b.1 + b.3;
            let inner = b.0 < p.0 < b.0 + b.2 - 1 && b.1 < p.1 < b.1 + b.3 - 1;
            drawn == if inner {
                LABEL_BG@
            } else if outer {
                LABEL_FG@
            } else {
                m[p]
            }
        }),
{
    let (front, back) = (label.take(typed as int), label.skip(typed as int));
    assert(blank_text(atlas, front)) by {
        assert forall|i: int| 0 <= i < front.len() implies glyph_for(
            atlas.glyphs@,
            #[trigger] front[i],
        ) is None by {
            assert(front[i] == label[i]);
        }
    }
    assert(blank_text(atlas, back)) by {
        assert forall|i: int| 0 <= i < back.len() implies glyph_for(
            atlas.glyphs@,
            #[trigger] back[i],
        ) is None by {
            assert(back[i] == label[typed + i]);
        }
    }
    let (x, y, w, h) = (b.0 as int, b.1 as int, b.2 as int, b.3 as int);
    let boxed = framed(filled(m, x, y, w, h, LABEL_BG@), x, y, w, h, 1, LABEL_FG@);
    lemma_blank_text(atlas, boxed, front, x + LABEL_PAD, y + LABEL_PAD, LABEL_DIM, LABEL_BG);
    lemma_blank_text(
        atlas,
        boxed,
        back,
        x + LABEL_PAD + atlas.advance * typed,
        y + LABEL_PAD,
        LABEL_FG,
        LABEL_BG,
    );
    law_fill_paints_its_rectangle(m, x, y, w, h, LABEL_BG@, p);
    law_frame_paints_the_edge(
        filled(m, x, y, w, h, LABEL_BG@),
        x,
        y,
        w,
        h,
        1,
        LABEL_FG@,
        p,
    );
}

/// The text of a label stands four pixels inside its box: muted as far as it is
/// typed, and in full behind that, each character where it would stand in the
/// whole text.
pub proof fn law_typed_part_is_muted(
    m: Picture,
    atlas: GlyphAtlas,
    done: Seq<char>,
    left: Seq<char>,
    b: Area,
)
    ensures
        ({
            let bare = label_drawn(m, atlas, seq![], 0, b);
            let muted = atlas.text_drawn(bare, done, b.0 + 4, b.1 + 4, LABEL_DIM, LABEL_BG);
            label_drawn(m, atlas, done + left, done.len(), b) == atlas.text_drawn(
                muted,
                left,
                b.0 + 4 + atlas.advance * done.len(),
                b.1 + 4,
                LABEL_FG,
                LABEL_BG,
            )
        }),
{
    let whole = done + left;
    assert(whole.take(done.len() as int) =~= done);
    assert(whole.skip(done.len() as int) =~= left);
    let none: Seq<char> = seq![];
    assert(none.take(0) =~= none);
    assert(none.skip(0) =~= none);
}

/// The labels are drawn one over the other, the first one first.
pub proof fn law_labels_are_drawn_in_turn(
    m: Picture,
    atlas: GlyphAtlas,
    hints: Seq<Hint>,
    typed: nat,
    places: Seq<(usize, Area)>,
    n: nat,
)
    requires
        n < places.len(),
    ensures
        labels_drawn(m, atlas, hints, typed, places, 0) == m,
        labels_drawn(m, atlas, hints, typed, places, n + 1) == label_drawn(
            labels_drawn(m, atlas, hints, typed, places, n),
            atlas,
            hints[places[n as int].0 as int].label@,
            typed,
            places[n as int].1,
        ),
{
}

// ---- keys ----

/// Escape ends the loop without a selection, and Backspace takes the last
/// character back; neither selects anything.
pub proof fn law_control_keys(labels: Seq<Seq<char>>, typed: Seq<char>)
    ensures
        ({
            let (t, selected, done, redraw) = keyed(labels, typed, Key::Escape);
            t == typed && selected is None && done && !redraw
        }),
        ({
            let (t, selected, done, redraw) = keyed(labels, typed, Key::BackSpace);
            &&& selected is None && !done
            &&& typed.len() == 0 ==> t == typed && !redraw
            &&& typed.len() > 0 ==> t == typed.take(typed.len() - 1) && redraw
        }),
{
    assert(typed.len() > 0 ==> typed.take(typed.len() - 1) =~= typed.drop_last());
}

// ---- fonts ----

/// A family that resolves adds its face behind those before it, and one that
/// does not adds nothing.
pub proof fn law_families_resolve_in_order(a: Seq<Option<usize>>, face: usize)
    ensures
        resolved(seq![]) == Seq::<usize>::empty(),
        resolved(a.push(Some(face))) == resolved(a).push(face),
        resolved(a.push(None)) == resolved(a),
{
    assert(a.push(Some(face)).drop_last() =~= a);
    assert(a.push(None::<usize>).drop_last() =~= a);
}

/// Exactly the positions that are marked are listed, in ascending order.
pub proof fn law_marked_positions(flags: Seq<bool>, i: usize)
    requires
        flags.len() <= usize::MAX,
    ensures
        marked(flags).contains(i) <==> i < flags.len() && flags[i as int],
        forall|a: int, b: int|
            0 <= a < b < marked(flags).len() ==> #[trigger] marked(flags)[a]
                < #[trigger] marked(flags)[b],
        forall|a: int| 0 <= a < marked(flags).len() ==> #[trigger] marked(flags)[a] < flags.len(),
    decreases flags.len(),
{
    if flags.len() > 0 {
        let front = flags.drop_last();
        law_marked_positions(front, i);
        let (before, after) = (marked(front), marked(flags));
        assert forall|a: int| 0 <= a < before.len() implies before[a] < flags.len() - 1 && after[a]
            == before[a] by {}
        if before.contains(i) {
            let k = choose|k: int| 0 <= k < before.len() && before[k] == i;
            assert(after[k] == i);
        }
        if flags.last() {
            assert(after[after.len() - 1] == flags.len() - 1);
        }
        if after.contains(i) {
            let k = choose|k: int| 0 <= k < after.len() && after[k] == i;
            if k < before.len() {
                assert(before[k] == i);
            }
        }
    }
}

/// What a key with a text does, by the first character of the text: where
/// exactly one label begins with the longer prefix its hint is selected and the
/// loop is over, where none does nothing happens, and where several do the
/// longer prefix stands. A key without a text does nothing.
pub proof fn law_texts_narrow_the_choice(
    labels: Seq<Seq<char>>,
    typed: Seq<char>,
    text: String,
    i: int,
    j: int,
)
    requires
        labels.len() <= usize::MAX,
    ensures
        text@.len() == 0 ==> keyed(labels, typed, Key::Text(text)) == (
            typed,
            None::<usize>,
            false,
            false,
        ),
        text@.len() > 0 ==> {
            let longer = typed.push(ascii_lower(text@[0]));
            let (t, selected, done, redraw) = keyed(labels, typed, Key::Text(text));
            &&& sole(labels, longer, i) ==> selected == Some(i as usize) && done
            &&& (forall|k: int| 0 <= k < labels.len() ==> !longer.is_prefix_of(#[trigger] labels[k]))
                ==> selected is None && !done && !redraw && t == typed
            &&& 0 <= i < j < labels.len() && longer.is_prefix_of(labels[i]) && longer.is_prefix_of(
                labels[j],
            ) ==> selected is None && !done && redraw && t == longer
        },
{
    if text@.len() > 0 {
        law_how_many_are_reachable(labels, typed.push(ascii_lower(text@[0])), i, j);
    }
}

/// A character occurs in the labels exactly where it stands in one of them.
pub proof fn law_characters_of_the_labels(hints: Seq<Hint>, i: int, j: int)
    ensures
        0 <= i < hints.len() && 0 <= j < hints[i].label@.len() ==> in_labels(
            hints,
            hints[i].label@[j],
        ),
{
    if 0 <= i < hints.len() && 0 <= j < hints[i].label@.len() {
        assert(hints[i].label@.contains(hints[i].label@[j]));
    }
}

/// Where a character of the labels stands.
pub proof fn law_label_characters_have_a_place(hints: Seq<Hint>, c: char) -> (at: (int, int))
    requires
        in_labels(hints, c),
    ensures
        0 <= at.0 < hints.len(),
        0 <= at.1 < hints[at.0].label@.len(),
        hints[at.0].label@[at.1] == c,
{
    let i = choose|i: int| 0 <= i < hints.len() && (#[trigger] hints[i]).label@.contains(c);
    let j = choose|j: int| 0 <= j < hints[i].label@.len() && hints[i].label@[j] == c;
    (i, j)
}

/// A label fits where its text with four pixels around it, and the screen, are
/// no longer than coordinates go.
pub proof fn law_what_fits(atlas: GlyphAtlas, label: Seq<char>, screen: (u32, u32))
    ensures
        fits(atlas, label, screen) <==> atlas.advance * label.len() + 8 <= 0x7fff_ffff && atlas.line
            + 8 <= 0x7fff_ffff && screen.0 <= 0x7fff_ffff && screen.1 <= 0x7fff_ffff,
{
}

/// A glyph is whole where its bitmap has as many cells as its width times its
/// height, and both are no longer than coordinates go.
pub proof fn law_whole_glyphs(g: Glyph)
    ensures
        g.wf() <==> g.width <= 0x7fff_ffff && g.height <= 0x7fff_ffff && g.coverage@.len() == g.width
            * g.height,
{
}

/// Ascending characters differ, and each is greater than all before it.
pub proof fn law_ascending_characters(s: Seq<char>, a: int, b: int)
    requires
        ascending(s),
        0 <= a < b < s.len(),
    ensures
        s[a] < s[b],
        s[a] != s[b],
{
}

} // verus!
