//! Rectangles on the output, and how elements are located.

use crate::atspi::Element;
use vstd::prelude::*;

verus! {

/// A rectangle in output-local physical pixels.
#[derive(Debug, Clone, Copy, PartialEq, Eq, Structural)]
pub struct PhysicalRect {
    pub x: i32,
    pub y: i32,
    pub w: i32,
    pub h: i32,
}

/// Half of `n`, rounded towards zero.
pub open spec fn half(n: int) -> int {
    if n >= 0 {
        n / 2
    } else {
        -((-n) / 2)
    }
}

/// Half of `n`, rounded towards zero.
fn halve(n: i32) -> (r: i32)
    ensures
        r == half(n as int),
{
    if n >= 0 {
        n / 2
    } else if n == i32::MIN {
        -0x4000_0000
    } else {
        -((-n) / 2)
    }
}

impl PhysicalRect {
    /// The middle of the rectangle, as integers of any size.
    pub open spec fn middle(self) -> (int, int) {
        (self.x + half(self.w as int), self.y + half(self.h as int))
    }

    /// The middle of the rectangle can be written down.
    pub open spec fn has_center(self) -> bool {
        &&& i32::MIN <= self.middle().0 <= i32::MAX
        &&& i32::MIN <= self.middle().1 <= i32::MAX
    }

    /// Whether [`PhysicalRect::center`] can be computed: both coordinates of
    /// the middle are within the range of `i32`.
    pub fn center_fits(&self) -> (r: bool)
        ensures
            r == self.has_center(),
    {
        let x: i64 = self.x as i64 + halve(self.w) as i64;
        let y: i64 = self.y as i64 + halve(self.h) as i64;
        i32::MIN as i64 <= x && x <= i32::MAX as i64 && i32::MIN as i64 <= y && y <= i32::MAX as i64
    }

    pub fn center(&self) -> (r: (i32, i32))
        requires
            self.has_center(),
        ensures
            (r.0 as int, r.1 as int) == self.middle(),
    {
        (self.x + halve(self.w), self.y + halve(self.h))
    }
}

/// The origin to which the extents of a frame's elements are relative: that of
/// the frame itself, or zero where the frame does not report its extents.
pub fn frame_origin(frame: Option<(i32, i32, i32, i32)>) -> (r: (i32, i32))
    ensures
        r == match frame {
            Some((x, y, _, _)) => (x, y),
            None => (0i32, 0i32),
        },
{
    match frame {
        Some((x, y, _, _)) => (x, y),
        None => (0, 0),
    }
}

/// The origin can be subtracted from the extents.
pub open spec fn subtractable(extents: (i32, i32, i32, i32), origin: (i32, i32)) -> bool {
    &&& i32::MIN <= extents.0 - origin.0 <= i32::MAX
    &&& i32::MIN <= extents.1 - origin.1 <= i32::MAX
}

/// Whether [`window_relative`] can be computed.
pub fn can_subtract(extents: (i32, i32, i32, i32), origin: (i32, i32)) -> (r: bool)
    ensures
        r == subtractable(extents, origin),
{
    let x: i64 = extents.0 as i64 - origin.0 as i64;
    let y: i64 = extents.1 as i64 - origin.1 as i64;
    i32::MIN as i64 <= x && x <= i32::MAX as i64 && i32::MIN as i64 <= y && y <= i32::MAX as i64
}

/// The extents of an element relative to its frame.
pub fn window_relative(extents: (i32, i32, i32, i32), origin: (i32, i32)) -> (r: (
    i32,
    i32,
    i32,
    i32,
))
    requires
        subtractable(extents, origin),
    ensures
        r.0 == extents.0 - origin.0,
        r.1 == extents.1 - origin.1,
        r.2 == extents.2,
        r.3 == extents.3,
{
    let (x, y, w, h) = extents;
    (x - origin.0, y - origin.1, w, h)
}

/// The elements whose place is known, with it, in order.
pub open spec fn placed(elements: Seq<Element>, rects: Seq<Option<PhysicalRect>>) -> Seq<
    (Element, PhysicalRect),
>
    decreases elements.len(),
{
    if elements.len() == 0 {
        seq![]
    } else {
        let before = placed(elements.drop_last(), rects);
        match rects[elements.len() - 1] {
            Some(rect) => before.push((elements.last(), rect)),
            None => before,
        }
    }
}

/// Pairs each element with its place and drops those without one.
pub fn located(elements: Vec<Element>, rects: &Vec<Option<PhysicalRect>>) -> (r: Vec<
    (Element, PhysicalRect),
>)
    requires
        rects@.len() == elements@.len(),
    ensures
        r@ == placed(elements@, rects@),
{
    let mut r: Vec<(Element, PhysicalRect)> = Vec::new();
    for i in 0..elements.len()
        invariant
            rects@.len() == elements@.len(),
            r@ == placed(elements@.take(i as int), rects@),
    {
        assert(elements@.take(i + 1).drop_last() =~= elements@.take(i as int));
        if let Some(rect) = rects[i] {
            r.push((elements[i].clone(), rect));
        }
    }
    assert(elements@.take(elements@.len() as int) =~= elements@);
    r
}

/// The middle halves each side, rounded towards the corner: twice the way from
/// the corner to it is the side, or one less where that is odd.
pub proof fn law_middle_halves_both_sides(r: PhysicalRect)
    ensures
        ({
            let (dx, dy) = (r.middle().0 - r.x, r.middle().1 - r.y);
            &&& r.w >= 0 ==> r.w - 1 <= 2 * dx <= r.w
            &&& r.w < 0 ==> r.w <= 2 * dx <= r.w + 1
            &&& r.h >= 0 ==> r.h - 1 <= 2 * dy <= r.h
            &&& r.h < 0 ==> r.h <= 2 * dy <= r.h + 1
        }),
{
}

/// A rectangle with an area holds its middle.
pub proof fn law_middle_is_inside(r: PhysicalRect)
    requires
        r.w > 0,
        r.h > 0,
    ensures
        r.x <= r.middle().0 < r.x + r.w,
        r.y <= r.middle().1 < r.y + r.h,
{
}

/// Moving a rectangle moves its middle by as much.
pub proof fn law_middle_moves_along(r: PhysicalRect, s: PhysicalRect)
    requires
        r.w == s.w,
        r.h == s.h,
    ensures
        s.middle().0 - r.middle().0 == s.x - r.x,
        s.middle().1 - r.middle().1 == s.y - r.y,
{
}

/// A rectangle has a center exactly where both coordinates of its middle fit.
pub proof fn law_center_exists_where_it_fits(r: PhysicalRect)
    ensures
        r.has_center() <==> -0x8000_0000 <= r.middle().0 <= 0x7fff_ffff && -0x8000_0000
            <= r.middle().1 <= 0x7fff_ffff,
{
}

/// How many of the first `n` places are known.
pub open spec fn known_before(rects: Seq<Option<PhysicalRect>>, n: int) -> nat
    decreases n,
{
    if n <= 0 {
        0
    } else {
        known_before(rects, n - 1) + (if rects[n - 1] is Some {
            1nat
        } else {
            0nat
        })
    }
}

/// Every element whose place is known stands in the result exactly once, paired
/// with that place and in its turn: behind as many others as there are known
/// places before its own. Nothing else stands there.
pub proof fn law_each_element_has_its_own_place(
    elements: Seq<Element>,
    rects: Seq<Option<PhysicalRect>>,
    i: int,
)
    requires
        rects.len() == elements.len(),
        0 <= i < elements.len(),
    ensures
        placed(elements, rects).len() == known_before(rects, elements.len() as int),
        rects[i] matches Some(rect) ==> {
            let k = known_before(rects, i) as int;
            &&& k < placed(elements, rects).len()
            &&& placed(elements, rects)[k].0 == elements[i]
            &&& placed(elements, rects)[k].1 == rect
        },
{
    lemma_placed(elements, rects, i);
}

proof fn lemma_placed(elements: Seq<Element>, rects: Seq<Option<PhysicalRect>>, i: int)
    requires
        elements.len() <= rects.len(),
    ensures
        placed(elements, rects).len() == known_before(rects, elements.len() as int),
        0 <= i < elements.len() ==> (rects[i] matches Some(rect) ==> {
            let k = known_before(rects, i) as int;
            &&& k < placed(elements, rects).len()
            &&& placed(elements, rects)[k] == (elements[i], rect)
        }),
    decreases elements.len(),
{
    if elements.len() > 0 {
        lemma_placed(elements.drop_last(), rects, i);
    }
}

/// Every pair in the result is an element with its own place, and the pairs are
/// in the order of the elements.
pub proof fn law_pairs_come_from_the_elements(
    elements: Seq<Element>,
    rects: Seq<Option<PhysicalRect>>,
) -> (from: Seq<int>)
    requires
        rects.len() == elements.len(),
    ensures
        from.len() == placed(elements, rects).len(),
        forall|k: int|
            0 <= k < from.len() ==> {
                &&& 0 <= #[trigger] from[k] < elements.len()
                &&& rects[from[k]] == Some(placed(elements, rects)[k].1)
                &&& elements[from[k]] == placed(elements, rects)[k].0
            },
        forall|a: int, b: int| 0 <= a < b < from.len() ==> #[trigger] from[a] < #[trigger] from[b],
{
    lemma_pairs(elements, rects)
}

proof fn lemma_pairs(elements: Seq<Element>, rects: Seq<Option<PhysicalRect>>) -> (from: Seq<int>)
    requires
        elements.len() <= rects.len(),
    ensures
        from.len() == placed(elements, rects).len(),
        forall|k: int|
            0 <= k < from.len() ==> {
                &&& 0 <= #[trigger] from[k] < elements.len()
                &&& rects[from[k]] == Some(placed(elements, rects)[k].1)
                &&& elements[from[k]] == placed(elements, rects)[k].0
            },
        forall|a: int, b: int| 0 <= a < b < from.len() ==> #[trigger] from[a] < #[trigger] from[b],
    decreases elements.len(),
{
    if elements.len() == 0 {
        seq![]
    } else {
        let before = lemma_pairs(elements.drop_last(), rects);
        if rects[elements.len() - 1] is Some {
            before.push(elements.len() - 1)
        } else {
            before
        }
    }
}

/// Where every place is known, the elements come out one for one.
pub proof fn law_known_places_keep_the_elements(
    elements: Seq<Element>,
    rects: Seq<Option<PhysicalRect>>,
)
    requires
        rects.len() == elements.len(),
        forall|i: int| 0 <= i < rects.len() ==> (#[trigger] rects[i]) is Some,
    ensures
        placed(elements, rects).len() == elements.len(),
        forall|i: int|
            0 <= i < elements.len() ==> (#[trigger] placed(elements, rects)[i]).0 == elements[i]
                && Some(placed(elements, rects)[i].1) == rects[i],
{
    assert forall|n: int| 0 <= n <= rects.len() implies #[trigger] known_before(rects, n) == n by {
        lemma_all_known(rects, n);
    }
    lemma_placed(elements, rects, 0);
    assert forall|i: int| 0 <= i < elements.len() implies (#[trigger] placed(
        elements,
        rects,
    )[i]).0 == elements[i] && Some(placed(elements, rects)[i].1) == rects[i] by {
        lemma_placed(elements, rects, i);
        assert(rects[i] is Some);
        assert(known_before(rects, i) == i);
    }
}

proof fn lemma_all_known(rects: Seq<Option<PhysicalRect>>, n: int)
    requires
        0 <= n <= rects.len(),
        forall|i: int| 0 <= i < rects.len() ==> (#[trigger] rects[i]) is Some,
    ensures
        known_before(rects, n) == n,
    decreases n,
{
    if n > 0 {
        lemma_all_known(rects, n - 1);
        assert(rects[n - 1] is Some);
    }
}

/// An origin can be subtracted from extents exactly where both differences fit.
pub proof fn law_origins_subtract_where_they_fit(e: (i32, i32, i32, i32), origin: (i32, i32))
    ensures
        subtractable(e, origin) <==> -0x8000_0000 <= e.0 - origin.0 <= 0x7fff_ffff && -0x8000_0000
            <= e.1 - origin.1 <= 0x7fff_ffff,
{
}

} // verus!
