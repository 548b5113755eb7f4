//! A software-drawn hint overlay: where labels are put, how they are drawn,
//! and how keys select one of them.

pub mod canvas;
pub mod fonts;
pub mod laws;
pub mod text;

use crate::geometry::PhysicalRect;
use crate::hints::typing::{
    candidate, law_typing_a_label_selects_its_hint, narrow, types, typing, Narrowed,
};
use crate::hints::{
    labels_of, leads_to, lemma_reachable_has, lemma_reachable_step, positions, reachable, usable,
    Hint,
};
use crate::text::{chars_of, piece, starts_with, string_of};
use canvas::{filled, framed, Canvas, Picture};
use text::GlyphAtlas;
use vstd::prelude::*;

verus! {

/// Label glyph height in physical pixels.
pub const LABEL_PX: u32 = 26;

/// Padding inside a label background box, physical pixels.
pub const LABEL_PAD: i32 = 4;

/// Label background (BGRA, opaque yellow).
pub const LABEL_BG: [u8; 4] = [0x00, 0xC8, 0xFF, 0xFF];

/// Label foreground (black).
pub const LABEL_FG: [u8; 4] = [0x10, 0x10, 0x10, 0xFF];

/// Already-typed prefix, drawn muted so the remaining keys stand out.
pub const LABEL_DIM: [u8; 4] = [0x70, 0x70, 0x70, 0xFF];

/// How often a label is nudged down to find a free place.
pub const NUDGES: usize = 16;

// ---- characters ----

/// The character occurs in the label of one of the hints.
pub open spec fn in_labels(hints: Seq<Hint>, c: char) -> bool {
    exists|i: int| 0 <= i < hints.len() && (#[trigger] hints[i]).label@.contains(c)
}

/// Each character is greater than the one before.
pub open spec fn ascending(s: Seq<char>) -> bool {
    forall|a: int, b: int| 0 <= a < b < s.len() ==> (#[trigger] s[a]) < (#[trigger] s[b])
}

/// Adds a character at its place, unless it is there already.
fn add_char(v: &mut Vec<char>, c: char)
    requires
        ascending(old(v)@),
    ensures
        ascending(final(v)@),
        forall|d: char| #[trigger] final(v)@.contains(d) <==> old(v)@.contains(d) || d == c,
{
    let mut at: usize = 0;
    while at < v.len() && v[at] < c
        invariant
            at <= v@.len(),
            v@ == old(v)@,
            forall|j: int| 0 <= j < at ==> #[trigger] v@[j] < c,
        decreases v@.len() - at,
    {
        at = at + 1;
    }
    let ghost before = v@;
    if at < v.len() && v[at] == c {
        assert(before[at as int] == c);
        return;
    }
    v.insert(at, c);
    proof {
        assert(v@[at as int] == c);
        assert forall|d: char| #[trigger] v@.contains(d) <==> before.contains(d) || d == c by {
            if before.contains(d) {
                let j = choose|j: int| 0 <= j < before.len() && before[j] == d;
                if j < at {
                    assert(v@[j] == d);
                } else {
                    assert(v@[j + 1] == d);
                }
            }
            if v@.contains(d) && d != c {
                let j = choose|j: int| 0 <= j < v@.len() && v@[j] == d;
                if j < at {
                    assert(before[j] == d);
                } else {
                    assert(before[j - 1] == d);
                }
            }
        }
    }
}

/// The characters that the labels are made of, in ascending order.
pub fn label_chars(hints: &[Hint]) -> (r: Vec<char>)
    ensures
        ascending(r@),
        forall|c: char| #[trigger] r@.contains(c) <==> in_labels(hints@, c),
{
    let mut r: Vec<char> = Vec::new();
    for i in 0..hints.len()
        invariant
            ascending(r@),
            forall|c: char| #[trigger] r@.contains(c) <==> in_labels(hints@.take(i as int), c),
    {
        let ghost before = hints@.take(i as int);
        let ghost after = hints@.take(i + 1);
        let chars = chars_of(hints[i].label.as_str());
        for k in 0..chars.len()
            invariant
                ascending(r@),
                forall|c: char| #[trigger]
                    r@.contains(c) <==> in_labels(before, c) || chars@.take(k as int).contains(c),
        {
            let ghost start = r@;
            add_char(&mut r, chars[k]);
            proof {
                let (p, q) = (chars@.take(k as int), chars@.take(k + 1));
                assert(q =~= p.push(chars@[k as int]));
                assert forall|c: char| q.contains(c) <==> p.contains(c) || c
                    == chars@[k as int] by {
                    if p.contains(c) {
                        let j = choose|j: int| 0 <= j < p.len() && p[j] == c;
                        assert(q[j] == c);
                    }
                    if c == chars@[k as int] {
                        assert(q[k as int] == c);
                    }
                }
                assert forall|c: char| #[trigger]
                    r@.contains(c) <==> in_labels(before, c) || q.contains(c) by {
                    assert(q.contains(c) <==> p.contains(c) || c == chars@[k as int]);
                    assert(start.contains(c) <==> in_labels(before, c) || p.contains(c));
                }
            }
        }
        proof {
            assert(chars@.take(chars@.len() as int) =~= chars@);
            assert forall|c: char| #[trigger] r@.contains(c) <==> in_labels(after, c) by {
                if in_labels(before, c) {
                    let j = choose|j: int|
                        0 <= j < before.len() && (#[trigger] before[j]).label@.contains(c);
                    assert(after[j].label@.contains(c));
                }
                if chars@.contains(c) {
                    assert(after[i as int].label@.contains(c));
                }
                if in_labels(after, c) {
                    let j = choose|j: int|
                        0 <= j < after.len() && (#[trigger] after[j]).label@.contains(c);
                    if j < i {
                        assert(before[j].label@.contains(c));
                    }
                }
            }
        }
    }
    assert(hints@.take(hints@.len() as int) =~= hints@);
    r
}

// ---- places ----

/// A label's box: left, top, width and height.
pub type Area = (i32, i32, i32, i32);

/// The two boxes have a point in common.
pub open spec fn overlapping(a: Area, b: Area) -> bool {
    a.0 < b.0 + b.2 && b.0 < a.0 + a.2 && a.1 < b.1 + b.3 && b.1 < a.1 + a.3
}

pub fn overlaps(a: Area, b: Area) -> (r: bool)
    ensures
        r == overlapping(a, b),
{
    let (ax, ay, bx, by): (i64, i64, i64, i64) = (a.0 as i64, a.1 as i64, b.0 as i64, b.1 as i64);
    ax < bx + b.2 as i64 && bx < ax + a.2 as i64 && ay < by + b.3 as i64 && by < ay + a.3 as i64
}

/// The box has no point in common with those already placed.
pub open spec fn free(b: Area, placed: Seq<Area>) -> bool {
    forall|i: int| 0 <= i < placed.len() ==> !overlapping(b, #[trigger] placed[i])
}

fn is_free(b: Area, placed: &Vec<Area>) -> (r: bool)
    ensures
        r == free(b, placed@),
{
    for i in 0..placed.len()
        invariant
            forall|j: int| 0 <= j < i ==> !overlapping(b, #[trigger] placed@[j]),
    {
        if overlaps(b, placed[i]) {
            return false;
        }
    }
    true
}

/// The greatest coordinate at which something that long is still on-screen.
pub open spec fn last_fit(extent: int, len: int) -> int {
    if extent > len {
        extent - len
    } else {
        0
    }
}

/// `n`, or the nearest coordinate from 0 to `limit`.
pub open spec fn clamped(n: int, limit: int) -> int {
    if n < 0 {
        0
    } else if n > limit {
        limit
    } else {
        n
    }
}

fn clamp(n: i32, limit: i32) -> (r: i32)
    requires
        limit >= 0,
    ensures
        r == clamped(n as int, limit as int),
{
    if n < 0 {
        0
    } else if n > limit {
        limit
    } else {
        n
    }
}

/// A label's box where its element is, clamped on-screen.
pub open spec fn anchored(rect: PhysicalRect, size: (int, int), screen: (int, int)) -> Area {
    (
        clamped(rect.x as int, last_fit(screen.0, size.0)) as i32,
        clamped(rect.y as int, last_fit(screen.1, size.1)) as i32,
        size.0 as i32,
        size.1 as i32,
    )
}

/// The box one height further down, or as far as the screen goes.
pub open spec fn nudged(b: Area, limit: int) -> Area {
    (
        b.0,
        (if b.1 + b.3 < limit {
            b.1 + b.3
        } else {
            limit
        }) as i32,
        b.2,
        b.3,
    )
}

/// The box nudged down until it is free, `tries` times at most.
pub open spec fn settled(b: Area, placed: Seq<Area>, limit: int, tries: nat) -> Area
    decreases tries,
{
    if tries == 0 || free(b, placed) {
        b
    } else {
        settled(nudged(b, limit), placed, limit, (tries - 1) as nat)
    }
}

/// The box nudged down `k` times.
pub open spec fn nudged_by(b: Area, limit: int, k: nat) -> Area
    decreases k,
{
    if k == 0 {
        b
    } else {
        nudged_by(nudged(b, limit), limit, (k - 1) as nat)
    }
}

/// A label gets a free place if there is one within reach: it overlaps another
/// label only if all the places it was nudged to do.
pub proof fn law_labels_find_a_free_place(b: Area, placed: Seq<Area>, limit: int, tries: nat, k: nat)
    requires
        k <= tries,
        free(nudged_by(b, limit, k), placed),
    ensures
        free(settled(b, placed, limit, tries), placed),
    decreases tries,
{
    if !free(b, placed) && tries > 0 {
        if k > 0 {
            law_labels_find_a_free_place(
                nudged(b, limit),
                placed,
                limit,
                (tries - 1) as nat,
                (k - 1) as nat,
            );
        }
    }
}

/// What a settled box keeps: its size, its column, and the screen.
proof fn lemma_settled(b: Area, placed: Seq<Area>, limit: int, tries: nat)
    requires
        0 <= b.1 <= limit,
        limit + b.3 <= i32::MAX,
        b.3 >= 0,
    ensures
        ({
            let r = settled(b, placed, limit, tries);
            r.0 == b.0 && r.2 == b.2 && r.3 == b.3 && b.1 <= r.1 <= limit
        }),
    decreases tries,
{
    if tries > 0 && !free(b, placed) {
        lemma_settled(nudged(b, limit), placed, limit, (tries - 1) as nat);
    }
}

/// The size of a label's box.
pub open spec fn box_size(atlas: GlyphAtlas, label: Seq<char>) -> (int, int) {
    (atlas.advance * label.len() + 2 * LABEL_PAD, atlas.line + 2 * LABEL_PAD)
}

/// The sides of the label's box and of the screen can be written down.
pub open spec fn fits(atlas: GlyphAtlas, label: Seq<char>, screen: (u32, u32)) -> bool {
    let size = box_size(atlas, label);
    &&& size.0 <= i32::MAX
    &&& size.1 <= i32::MAX
    &&& screen.0 <= i32::MAX
    &&& screen.1 <= i32::MAX
}

/// Where the labels that start with the typed prefix are put, among the first
/// `n` hints: each with the index of its hint.
pub open spec fn layout(
    hints: Seq<Hint>,
    typed: Seq<char>,
    atlas: GlyphAtlas,
    screen: (u32, u32),
    n: nat,
) -> Seq<(usize, Area)>
    decreases n,
{
    if n == 0 {
        seq![]
    } else {
        let before = layout(hints, typed, atlas, screen, (n - 1) as nat);
        let hint = hints[n - 1];
        if typed.is_prefix_of(hint.label@) {
            let size = box_size(atlas, hint.label@);
            let placed = before.map_values(|e: (usize, Area)| e.1);
            let start = anchored(hint.rect, size, (screen.0 as int, screen.1 as int));
            let limit = last_fit(screen.1 as int, size.1);
            before.push(((n - 1) as usize, settled(start, placed, limit, NUDGES as nat)))
        } else {
            before
        }
    }
}

/// Nudges a box down until it is free.
fn settle(start: Area, placed: &Vec<Area>, limit: i32) -> (r: Area)
    requires
        0 <= start.1 <= limit,
        start.3 >= 0,
        limit + start.3 <= i32::MAX,
    ensures
        r == settled(start, placed@, limit as int, NUDGES as nat),
{
    let mut b = start;
    let mut tries: usize = NUDGES;
    while tries > 0 && !is_free(b, placed)
        invariant
            tries <= NUDGES,
            0 <= b.1 <= limit,
            b.3 >= 0,
            limit + b.3 <= i32::MAX,
            settled(start, placed@, limit as int, NUDGES as nat) == settled(
                b,
                placed@,
                limit as int,
                tries as nat,
            ),
        decreases tries,
    {
        let down: i32 = b.1 + b.3;
        b = (
            b.0,
            if down < limit {
                down
            } else {
                limit
            },
            b.2,
            b.3,
        );
        tries = tries - 1;
    }
    b
}

/// Whether a label's box can be written down.
pub fn label_fits(atlas: &GlyphAtlas, label: &str, screen: (u32, u32)) -> (r: bool)
    ensures
        r == fits(*atlas, label@, screen),
{
    let n = label.unicode_len();
    let room: usize = (i32::MAX - 2 * LABEL_PAD) as usize;
    let narrow_enough = match atlas.advance.checked_mul(n) {
        Some(w) => w <= room,
        None => false,
    };
    narrow_enough && atlas.line <= room && screen.0 <= i32::MAX as u32 && screen.1
        <= i32::MAX as u32
}

/// Places the labels that start with the typed prefix: each at its element's
/// top-left, clamped on-screen, and nudged down to avoid overlapping an
/// already-placed label.
pub fn place_labels(
    hints: &[Hint],
    typed: &str,
    atlas: &GlyphAtlas,
    screen: (u32, u32),
) -> (r: Vec<(usize, Area)>)
    requires
        forall|i: int|
            0 <= i < hints@.len() ==> fits(*atlas, (#[trigger] hints@[i]).label@, screen),
    ensures
        r@ == layout(hints@, typed@, *atlas, screen, hints@.len()),
{
    let mut r: Vec<(usize, Area)> = Vec::new();
    let mut placed: Vec<Area> = Vec::new();
    assert(placed@ =~= r@.map_values(|e: (usize, Area)| e.1));
    for i in 0..hints.len()
        invariant
            forall|j: int|
                0 <= j < hints@.len() ==> fits(*atlas, (#[trigger] hints@[j]).label@, screen),
            r@ == layout(hints@, typed@, *atlas, screen, i as nat),
            placed@ == r@.map_values(|e: (usize, Area)| e.1),
    {
        let hint = &hints[i];
        assert(fits(*atlas, hints@[i as int].label@, screen));
        if starts_with(hint.label.as_str(), typed) {
            let (tw, th) = atlas.measure(hint.label.as_str());
            let bw: i32 = tw as i32 + 2 * LABEL_PAD;
            let bh: i32 = th as i32 + 2 * LABEL_PAD;
            let (sw, sh): (i32, i32) = (screen.0 as i32, screen.1 as i32);
            let right: i32 = if sw > bw {
                sw - bw
            } else {
                0
            };
            let bottom: i32 = if sh > bh {
                sh - bh
            } else {
                0
            };
            let start = (clamp(hint.rect.x, right), clamp(hint.rect.y, bottom), bw, bh);
            let at = settle(start, &placed, bottom);
            let ghost before = r@;
            r.push((i, at));
            placed.push(at);
            assert(placed@ =~= r@.map_values(|e: (usize, Area)| e.1));
        }
    }
    r
}

/// What [`layout`] holds: boxes of the right size that are on-screen as far as
/// they can be, for exactly the hints that the prefix leads to.
pub proof fn law_labels_stay_on_screen(
    hints: Seq<Hint>,
    typed: Seq<char>,
    atlas: GlyphAtlas,
    screen: (u32, u32),
    n: nat,
)
    requires
        n <= hints.len() <= usize::MAX,
        forall|i: int|
            0 <= i < hints.len() ==> fits(atlas, (#[trigger] hints[i]).label@, screen),
    ensures
        forall|k: int|
            0 <= k < layout(hints, typed, atlas, screen, n).len() ==> {
                let (i, b) = #[trigger] layout(hints, typed, atlas, screen, n)[k];
                let size = box_size(atlas, hints[i as int].label@);
                &&& i < n
                &&& typed.is_prefix_of(hints[i as int].label@)
                &&& (b.2 as int, b.3 as int) == size
                &&& 0 <= b.0 <= last_fit(screen.0 as int, size.0)
                &&& 0 <= b.1 <= last_fit(screen.1 as int, size.1)
            },
        layout(hints, typed, atlas, screen, n).map_values(|e: (usize, Area)| e.0)
            == positions(n).filter(
            leads_to(labels_of(hints), typed),
        ),
    decreases n,
{
    let all = positions(n);
    let leads = leads_to(labels_of(hints), typed);
    let whole = layout(hints, typed, atlas, screen, n);
    reveal(Seq::filter);
    if n > 0 {
        let m = (n - 1) as nat;
        law_labels_stay_on_screen(hints, typed, atlas, screen, m);
        lemma_reachable_step(labels_of(hints), typed, m);
        let before = layout(hints, typed, atlas, screen, m);
        let hint = hints[n - 1];
        assert(fits(atlas, hint.label@, screen));
        if typed.is_prefix_of(hint.label@) {
            let size = box_size(atlas, hint.label@);
            assert(0 <= atlas.advance * hint.label@.len()) by (nonlinear_arith);
            let start = anchored(hint.rect, size, (screen.0 as int, screen.1 as int));
            let placed = before.map_values(|e: (usize, Area)| e.1);
            let limit = last_fit(screen.1 as int, size.1);
            lemma_settled(start, placed, limit, NUDGES as nat);
        }
        assert(whole.map_values(|e: (usize, Area)| e.0) =~= all.filter(leads));
    } else {
        assert(whole.map_values(|e: (usize, Area)| e.0) =~= all.filter(leads));
    }
}

// ---- drawing ----

/// The picture with one label on it: its box, with a frame, the already-typed
/// prefix muted, the remaining keys in full.
pub open spec fn label_drawn(
    m: Picture,
    atlas: GlyphAtlas,
    label: Seq<char>,
    typed: nat,
    b: Area,
) -> Picture {
    let (x, y, w, h) = (b.0 as int, b.1 as int, b.2 as int, b.3 as int);
    let (tx, ty) = (x + LABEL_PAD, y + LABEL_PAD);
    let boxed = framed(filled(m, x, y, w, h, LABEL_BG@), x, y, w, h, 1, LABEL_FG@);
    let muted = atlas.text_drawn(boxed, label.take(typed as int), tx, ty, LABEL_DIM, LABEL_BG);
    atlas.text_drawn(
        muted,
        label.skip(typed as int),
        tx + atlas.advance * typed,
        ty,
        LABEL_FG,
        LABEL_BG,
    )
}

/// The picture with the first `n` of the placed labels on it.
pub open spec fn labels_drawn(
    m: Picture,
    atlas: GlyphAtlas,
    hints: Seq<Hint>,
    typed: nat,
    places: Seq<(usize, Area)>,
    n: nat,
) -> Picture
    decreases n,
{
    if n == 0 {
        m
    } else {
        let (i, b) = places[n - 1];
        label_drawn(
            labels_drawn(m, atlas, hints, typed, places, (n - 1) as nat),
            atlas,
            hints[i as int].label@,
            typed,
            b,
        )
    }
}

/// Draws one label.
fn draw_label(canvas: &mut Canvas, atlas: &GlyphAtlas, label: &str, typed: usize, b: Area)
    requires
        old(canvas).wf(),
        atlas.wf(),
        typed <= label@.len(),
        atlas.advance * label@.len() + 2 * LABEL_PAD <= i32::MAX,
        0 <= b.0,
        b.0 + atlas.advance * label@.len() + 2 * LABEL_PAD <= i32::MAX,
        0 <= b.1 <= i32::MAX - LABEL_PAD,
    ensures
        final(canvas).wf(),
        final(canvas).width == old(canvas).width,
        final(canvas).height == old(canvas).height,
        final(canvas)@ == label_drawn(old(canvas)@, *atlas, label@, typed as nat, b),
{
    let (bx, by, bw, bh) = b;
    canvas.fill(bx, by, bw, bh, LABEL_BG);
    canvas.border(bx, by, bw, bh, 1, LABEL_FG);
    let chars = chars_of(label);
    let prefix = string_of(piece(chars.as_slice(), 0, typed).as_slice());
    let rest = string_of(piece(chars.as_slice(), typed, chars.len()).as_slice());
    proof {
        assert(prefix@ =~= label@.take(typed as int));
        assert(rest@ =~= label@.skip(typed as int));
        assert(0 <= atlas.advance * typed <= atlas.advance * label@.len() && 0 <= atlas.advance
            * rest@.len() <= atlas.advance * label@.len()) by (nonlinear_arith)
            requires
                0 <= typed <= label@.len(),
                0 <= rest@.len() <= label@.len(),
                0 <= atlas.advance,
        ;
    }
    let tx: i32 = bx + LABEL_PAD;
    let ty: i32 = by + LABEL_PAD;
    atlas.draw(prefix.as_str(), tx, ty, LABEL_DIM, LABEL_BG, canvas);
    let rx: i32 = tx + atlas.measure(prefix.as_str()).0 as i32;
    atlas.draw(rest.as_str(), rx, ty, LABEL_FG, LABEL_BG, canvas);
}

/// Draws the labels that start with the typed prefix.
pub fn draw(canvas: &mut Canvas, hints: &[Hint], typed: &str, atlas: &GlyphAtlas) -> (r: Vec<
    (usize, Area),
>)
    requires
        old(canvas).wf(),
        atlas.wf(),
        forall|i: int|
            0 <= i < hints@.len() ==> fits(
                *atlas,
                (#[trigger] hints@[i]).label@,
                (old(canvas).width, old(canvas).height),
            ),
    ensures
        final(canvas).wf(),
        final(canvas).width == old(canvas).width,
        final(canvas).height == old(canvas).height,
        r@ == layout(
            hints@,
            typed@,
            *atlas,
            (old(canvas).width, old(canvas).height),
            hints@.len(),
        ),
        final(canvas)@ == labels_drawn(
            old(canvas)@,
            *atlas,
            hints@,
            typed@.len(),
            r@,
            r@.len(),
        ),
{
    let screen = (canvas.width, canvas.height);
    let places = place_labels(hints, typed, atlas, screen);
    let split = typed.unicode_len();
    let count = hints.len();
    let ghost m = canvas@;
    proof {
        assert(hints@.len() == count);
        law_labels_stay_on_screen(hints@, typed@, *atlas, screen, hints@.len());
    }
    for k in 0..places.len()
        invariant
            atlas.wf(),
            canvas.wf(),
            canvas.width == old(canvas).width,
            canvas.height == old(canvas).height,
            split == typed@.len(),
            hints@.len() <= usize::MAX,
            places@ == layout(hints@, typed@, *atlas, screen, hints@.len()),
            forall|i: int|
                0 <= i < hints@.len() ==> fits(*atlas, (#[trigger] hints@[i]).label@, screen),
            canvas@ == labels_drawn(m, *atlas, hints@, typed@.len(), places@, k as nat),
    {
        let (i, b) = places[k];
        proof {
            law_labels_stay_on_screen(hints@, typed@, *atlas, screen, hints@.len());
            assert(layout(hints@, typed@, *atlas, screen, hints@.len())[k as int] == (i, b));
            assert(fits(*atlas, hints@[i as int].label@, screen));
        }
        draw_label(canvas, atlas, hints[i].label.as_str(), split, b);
    }
    places
}

// ---- keys ----

/// A key press, as far as the overlay tells them apart.
#[derive(Debug)]
pub enum Key {
    Escape,
    BackSpace,
    /// Any other key, with the text it enters.
    Text(String),
}

/// The overlay while the user types.
#[derive(Debug)]
pub struct Overlay {
    /// Logical surface size from the configure.
    pub logical: (u32, u32),
    pub hints: Vec<Hint>,
    /// Prefix the user has typed so far.
    pub typed: String,
    /// Index (into `hints`) of the selected target, once resolved.
    pub selected: Option<usize>,
    /// Whether the first configure has produced a surface size.
    pub configured: bool,
    /// Set when selection or cancellation finishes the loop.
    pub done: bool,
    pub closed: bool,
}

/// What a key does: the prefix and the selection after it, and whether it
/// finishes the loop and changes what is shown.
pub open spec fn keyed(labels: Seq<Seq<char>>, typed: Seq<char>, key: Key) -> (
    Seq<char>,
    Option<usize>,
    bool,
    bool,
) {
    match key {
        Key::Escape => (typed, None, true, false),
        Key::BackSpace => if typed.len() > 0 {
            (typed.drop_last(), None, false, true)
        } else {
            (typed, None, false, false)
        },
        Key::Text(text) => if text@.len() == 0 {
            (typed, None, false, false)
        } else {
            let longer = candidate(typed, text@[0]);
            let found = reachable(labels, longer);
            if found.len() == 0 {
                (typed, None, false, false)
            } else if found.len() == 1 {
                (typed, Some(found[0]), true, false)
            } else {
                (longer, None, false, true)
            }
        },
    }
}

impl Overlay {
    pub fn new(hints: Vec<Hint>) -> (r: Overlay)
        ensures
            r.hints@ == hints@,
            r.logical == (0u32, 0u32),
            r.typed@.len() == 0,
            r.selected is None,
            !r.configured && !r.done && !r.closed,
    {
        Overlay {
            logical: (0, 0),
            hints,
            typed: String::new(),
            selected: None,
            configured: false,
            done: false,
            closed: false,
        }
    }

    /// The surface has a size, at least one pixel each way. Returns whether the
    /// overlay is to be drawn: only the first time.
    pub fn configure(&mut self, new_size: (u32, u32)) -> (r: bool)
        ensures
            final(self).logical.0 == (if new_size.0 == 0 {
                1
            } else {
                new_size.0
            }),
            final(self).logical.1 == (if new_size.1 == 0 {
                1
            } else {
                new_size.1
            }),
            r == !old(self).configured,
            final(self).hints == old(self).hints,
            final(self).typed == old(self).typed,
            final(self).selected == old(self).selected,
            final(self).configured == old(self).configured,
            final(self).done == old(self).done,
            final(self).closed == old(self).closed,
    {
        let w: u32 = if new_size.0 == 0 {
            1
        } else {
            new_size.0
        };
        let h: u32 = if new_size.1 == 0 {
            1
        } else {
            new_size.1
        };
        self.logical = (w, h);
        !self.configured
    }

    /// Handle a typed character / control key, updating the filter and possibly
    /// resolving a selection. Returns whether the visible set changes.
    pub fn handle_key(&mut self, key: Key) -> (r: bool)
        ensures
            ({
                let (typed, selected, done, redraw) = keyed(
                    labels_of(old(self).hints@),
                    old(self).typed@,
                    key,
                );
                &&& final(self).typed@ == typed
                &&& final(self).selected == (if selected is Some {
                    selected
                } else {
                    old(self).selected
                })
                &&& final(self).done == (old(self).done || done)
                &&& r == redraw
            }),
            final(self).hints == old(self).hints,
            final(self).logical == old(self).logical,
            final(self).configured == old(self).configured,
            final(self).closed == old(self).closed,
    {
        match key {
            Key::Escape => {
                self.done = true;
                false
            },
            Key::BackSpace => self.typed.pop().is_some(),
            Key::Text(text) => {
                let chars = chars_of(text.as_str());
                if chars.len() == 0 {
                    return false;
                }
                match narrow(self.hints.as_slice(), &self.typed, chars[0]) {
                    Narrowed::Ignored => false,
                    Narrowed::Selected(i) => {
                        self.selected = Some(i);
                        self.done = true;
                        false
                    },
                    Narrowed::Prefix(longer) => {
                        self.typed = longer;
                        true
                    },
                }
            },
        }
    }

    /// Whether the loop is over.
    pub fn finished(&self) -> (r: bool)
        ensures
            r == (self.done || self.closed),
    {
        self.done || self.closed
    }

    /// The selected hint, if there is one.
    pub fn choice(&self) -> (r: Option<Hint>)
        requires
            self.selected matches Some(i) ==> i < self.hints@.len(),
        ensures
            r == match self.selected {
                Some(i) => Some(self.hints@[i as int]),
                None => None,
            },
    {
        match self.selected {
            Some(i) => Some(self.hints[i].clone()),
            None => None,
        }
    }
}

/// A key selects nothing but a hint, and only while it finishes the loop.
pub proof fn law_keys_select_hints(labels: Seq<Seq<char>>, typed: Seq<char>, key: Key)
    requires
        labels.len() <= usize::MAX,
    ensures
        keyed(labels, typed, key).1 matches Some(i) ==> i < labels.len() && keyed(
            labels,
            typed,
            key,
        ).2,
        keyed(labels, typed, key).3 ==> !keyed(labels, typed, key).2,
{
    if let Key::Text(text) = key {
        if text@.len() > 0 {
            lemma_reachable_has(labels, candidate(typed, text@[0]), labels.len(), 0);
        }
    }
}

/// What comes of the keys one after the other, up to the one that finishes the
/// loop: the prefix, the selection, and whether the loop is over.
pub open spec fn keyed_in_turn(labels: Seq<Seq<char>>, typed: Seq<char>, keys: Seq<Key>) -> (
    Seq<char>,
    Option<usize>,
    bool,
)
    decreases keys.len(),
{
    if keys.len() == 0 {
        (typed, None, false)
    } else {
        let (longer, selected, done, _) = keyed(labels, typed, keys[0]);
        if done {
            (longer, selected, done)
        } else {
            keyed_in_turn(labels, longer, keys.drop_first())
        }
    }
}

/// Each key enters a text that begins with the character.
pub open spec fn entering(keys: Seq<Key>, chars: Seq<char>) -> bool {
    &&& keys.len() == chars.len()
    &&& forall|j: int|
        0 <= j < keys.len() ==> {
            &&& #[trigger] keys[j] is Text
            &&& keys[j]->Text_0@.len() > 0
            &&& keys[j]->Text_0@[0] == chars[j]
        }
}

proof fn lemma_keying_types(
    labels: Seq<Seq<char>>,
    typed: Seq<char>,
    keys: Seq<Key>,
    chars: Seq<char>,
)
    requires
        entering(keys, chars),
        typing(labels, typed, chars) is Some,
    ensures
        keyed_in_turn(labels, typed, keys).1 == typing(labels, typed, chars),
        keyed_in_turn(labels, typed, keys).2,
    decreases keys.len(),
{
    let (rest, left) = (keys.drop_first(), chars.drop_first());
    assert(keys[0] is Text && keys[0]->Text_0@[0] == chars[0]);
    assert(entering(rest, left)) by {
        assert forall|j: int| 0 <= j < rest.len() implies {
            &&& #[trigger] rest[j] is Text
            &&& rest[j]->Text_0@.len() > 0
            &&& rest[j]->Text_0@[0] == left[j]
        } by {
            assert(rest[j] == keys[j + 1]);
        }
    }
    let found = reachable(labels, candidate(typed, chars[0]));
    if found.len() == 0 {
        lemma_keying_types(labels, typed, rest, left);
    } else if found.len() > 1 {
        lemma_keying_types(labels, candidate(typed, chars[0]), rest, left);
    }
}

/// Keys that enter the characters of a label in turn, in either case, select its
/// hint and finish the loop.
pub proof fn law_keying_a_label_selects_its_hint(
    labels: Seq<Seq<char>>,
    i: int,
    keys: Seq<Key>,
    chars: Seq<char>,
)
    requires
        usable(labels, labels.len()),
        labels.len() <= usize::MAX,
        0 <= i < labels.len(),
        types(chars, labels[i]),
        entering(keys, chars),
    ensures
        keyed_in_turn(labels, seq![], keys).1 == Some(i as usize),
        keyed_in_turn(labels, seq![], keys).2,
{
    law_typing_a_label_selects_its_hint(labels, i, chars);
    lemma_keying_types(labels, seq![], keys, chars);
}

} // verus!
