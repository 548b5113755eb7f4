//! Fixed-width labels, the easiest of them for the most prominent targets.

use super::{labels_of, usable, Hint};
use crate::atspi::Element;
use crate::geometry::PhysicalRect;
use crate::rank::{by_rank, lemma_ranked, ranked, sort_ranks, Rank};
use crate::text::texts;
use vstd::prelude::*;

verus! {

/// Ergonomic, home-row-biased alphabet as ASCII codes: `sadfjklewcmpgh`.
/// Earlier characters are "easier" and are handed out first.
pub const ALPHABET: [u8; 14] = [115, 97, 100, 102, 106, 107, 108, 101, 119, 99, 109, 112, 103, 104];

/// The letter at position `d` of the alphabet.
pub open spec fn letter(d: int) -> char {
    ALPHABET@[d] as char
}

/// How many labels of width `w` there are.
pub open spec fn room(w: nat) -> nat
    decreases w,
{
    if w == 0 {
        1
    } else {
        14 * room((w - 1) as nat)
    }
}

/// The width of `n` labels: one letter for up to as many as the alphabet has,
/// and otherwise one letter more than their first letters would need.
pub open spec fn width(n: nat) -> nat
    decreases n,
{
    if n <= 14 {
        1
    } else {
        1 + width((n + 13) / 14)
    }
}

/// The `i`-th label of width `w`: `i` written in the digits of the alphabet.
pub open spec fn label(i: nat, w: nat) -> Seq<char>
    decreases w,
{
    if w == 0 {
        seq![]
    } else {
        label(i / 14, (w - 1) as nat).push(letter((i % 14) as int))
    }
}

/// The labels for `n` targets.
pub open spec fn uniform_labels(n: nat) -> Seq<Seq<char>> {
    Seq::new(n, |i: int| label(i as nat, width(n)))
}

/// The width of `n` labels.
fn label_width(n: usize) -> (w: usize)
    ensures
        w == width(n as nat),
        1 <= w <= n || w == 1,
    decreases n,
{
    if n <= 14 {
        1
    } else {
        let rest: usize = n / 14 + (if n % 14 == 0 {
            0
        } else {
            1
        });
        assert(rest == (n + 13) / 14);
        1 + label_width(rest)
    }
}

/// The `i`-th label of width `w`.
fn make_label(i: usize, w: usize) -> (r: String)
    ensures
        r@ == label(i as nat, w as nat),
    decreases w,
{
    if w == 0 {
        String::new()
    } else {
        let mut r = make_label(i / 14, w - 1);
        r.push(ALPHABET[i % 14] as char);
        r
    }
}

/// Generate `n` distinct fixed-width labels in "easiest first" order.
pub fn generate(n: usize) -> (r: Vec<String>)
    ensures
        texts(r@) == uniform_labels(n as nat),
        usable(texts(r@), n as nat),
{
    let w = label_width(n);
    let mut r: Vec<String> = Vec::new();
    assert(texts(r@) =~= uniform_labels(n as nat).take(0));
    for i in 0..n
        invariant
            w == width(n as nat),
            texts(r@) == uniform_labels(n as nat).take(i as int),
    {
        let ghost before = r@;
        let next = make_label(i, w);
        r.push(next);
        assert(texts(r@) =~= texts(before).push(next@));
        assert(uniform_labels(n as nat).take(i + 1) =~= uniform_labels(n as nat).take(i as int).push(
            next@,
        ));
    }
    assert(uniform_labels(n as nat).take(n as int) =~= uniform_labels(n as nat));
    proof {
        law_uniform_labels_usable(n as nat);
    }
    r
}

/// The width is the least that leaves room for all labels.
pub proof fn law_width_is_least(n: nat)
    ensures
        width(n) >= 1,
        room(width(n)) >= n,
        forall|w: nat| 1 <= w < width(n) ==> #[trigger] room(w) < n,
    decreases n,
{
    reveal_with_fuel(room, 2);
    if n > 14 {
        let m = (n + 13) / 14;
        law_width_is_least(m);
        assert forall|w: nat| 1 <= w < width(n) implies #[trigger] room(w) < n by {
            if w > 1 {
                assert(room((w - 1) as nat) < m);
            }
        }
    }
}

/// The letters are different from one another.
proof fn lemma_letters()
    ensures
        forall|a: int, b: int|
            0 <= a < 14 && 0 <= b < 14 && a != b ==> #[trigger] letter(a) != #[trigger] letter(b),
{
}

proof fn lemma_label_len(i: nat, w: nat)
    ensures
        label(i, w).len() == w,
    decreases w,
{
    if w > 0 {
        lemma_label_len(i / 14, (w - 1) as nat);
    }
}

proof fn lemma_label_injective(i: nat, j: nat, w: nat)
    requires
        i < room(w),
        j < room(w),
        label(i, w) == label(j, w),
    ensures
        i == j,
    decreases w,
{
    if w > 0 {
        let v = (w - 1) as nat;
        lemma_letters();
        lemma_label_len(i / 14, v);
        lemma_label_len(j / 14, v);
        assert(label(i, w).last() == letter((i % 14) as int));
        assert(label(j, w).last() == letter((j % 14) as int));
        assert(label(i, w).drop_last() =~= label(i / 14, v));
        assert(label(j, w).drop_last() =~= label(j / 14, v));
        lemma_label_injective(i / 14, j / 14, v);
    }
}

/// All labels are equally wide.
pub proof fn law_labels_are_uniform(n: nat, i: int)
    requires
        0 <= i < n,
    ensures
        uniform_labels(n)[i].len() == width(n),
{
    lemma_label_len(i as nat, width(n));
}

/// The labels for any number of targets can be told apart while typing: there
/// is one for each target, none is empty, and none begins another.
pub proof fn law_uniform_labels_usable(n: nat)
    ensures
        usable(uniform_labels(n), n),
{
    law_width_is_least(n);
    let w = width(n);
    let labels = uniform_labels(n);
    assert forall|i: int| 0 <= i < n implies (#[trigger] labels[i]).len() > 0 by {
        lemma_label_len(i as nat, w);
    }
    assert forall|i: int, j: int|
        #![trigger labels[i], labels[j]]
        0 <= i < labels.len() && 0 <= j < labels.len() && i != j implies !labels[i].is_prefix_of(
        labels[j],
    ) by {
        lemma_label_len(i as nat, w);
        lemma_label_len(j as nat, w);
        if labels[i].is_prefix_of(labels[j]) {
            assert(labels[i] =~= labels[j]);
            lemma_label_injective(i as nat, j as nat, w);
        }
    }
}

/// The texts are the same up to some position, where the first one has the
/// earlier letter of the alphabet.
pub open spec fn easier(s: Seq<char>, t: Seq<char>) -> bool {
    exists|k: int, d: int, e: int|
        #![trigger s[k], letter(d), letter(e)]
        {
            &&& 0 <= k < s.len() && k < t.len()
            &&& s.take(k) == t.take(k)
            &&& 0 <= d < e < 14
            &&& s[k] == letter(d) && t[k] == letter(e)
        }
}

proof fn lemma_labels_ascend(i: nat, j: nat, w: nat)
    requires
        i < j < room(w),
    ensures
        easier(label(i, w), label(j, w)),
    decreases w,
{
    if w > 0 {
        let v = (w - 1) as nat;
        let (p, q) = (i / 14, j / 14);
        let (s, t) = (label(i, w), label(j, w));
        lemma_label_len(p, v);
        lemma_label_len(q, v);
        if p == q {
            let (d, e) = ((i % 14) as int, (j % 14) as int);
            assert(s.take(v as int) =~= label(p, v));
            assert(t.take(v as int) =~= label(q, v));
            assert(s[v as int] == letter(d) && t[v as int] == letter(e));
        } else {
            lemma_labels_ascend(p, q, v);
            let (a, b) = (label(p, v), label(q, v));
            let (k, d, e) = choose|k: int, d: int, e: int|
                #![trigger a[k], letter(d), letter(e)]
                {
                    &&& 0 <= k < a.len() && k < b.len()
                    &&& a.take(k) == b.take(k)
                    &&& 0 <= d < e < 14
                    &&& a[k] == letter(d) && b[k] == letter(e)
                };
            assert(s.take(k) =~= a.take(k));
            assert(t.take(k) =~= b.take(k));
            assert(s[k] == letter(d) && t[k] == letter(e));
        }
    }
}

/// The labels ascend in the order of the alphabet: the easier ones come first.
pub proof fn law_uniform_labels_ascend(n: nat, i: int, j: int)
    requires
        0 <= i < j < n,
    ensures
        easier(uniform_labels(n)[i], uniform_labels(n)[j]),
{
    law_width_is_least(n);
    lemma_labels_ascend(i as nat, j as nat, width(n));
}

// ---- assignment ----

/// The side of a rectangle, at least zero.
pub open spec fn side(n: i32) -> int {
    if n > 0 {
        n as int
    } else {
        0
    }
}

/// Prominence score for a target. Larger on-screen area ranks higher.
pub open spec fn area(r: PhysicalRect) -> int {
    side(r.w) * side(r.h)
}

/// What each located element is ordered by: the larger area first, then in
/// reading order.
pub open spec fn prominence(located: Seq<(Element, PhysicalRect)>) -> Seq<Rank> {
    Seq::new(
        located.len(),
        |i: int|
            Rank {
                weight: area(located[i].1) as u64,
                y: located[i].1.y,
                x: located[i].1.x,
                index: i as usize,
            },
    )
}

/// The positions of the located elements, in the order of their prominence.
pub open spec fn order(located: Seq<(Element, PhysicalRect)>) -> Seq<int> {
    ranked(prominence(located)).map_values(|r: Rank| r.index as int)
}

/// Prominence score for a target. Larger on-screen area ranks higher.
pub fn priority(r: &PhysicalRect) -> (p: u64)
    ensures
        p == area(*r),
{
    let w: u64 = if r.w > 0 {
        r.w as u64
    } else {
        0
    };
    let h: u64 = if r.h > 0 {
        r.h as u64
    } else {
        0
    };
    assert(w * h <= 0x7fff_ffff * 0x7fff_ffff) by (nonlinear_arith)
        requires
            w <= 0x7fff_ffff,
            h <= 0x7fff_ffff,
    ;
    w * h
}

/// Assign labels to located elements, ordered so prominent targets get the
/// easiest codes.
pub fn assign(located: &[(Element, PhysicalRect)]) -> (r: Vec<Hint>)
    ensures
        r@.len() == located@.len(),
        forall|k: int|
            0 <= k < r@.len() ==> {
                &&& 0 <= order(located@)[k] < located@.len()
                &&& (#[trigger] r@[k]).element == located@[order(located@)[k]].0
                &&& r@[k].rect == located@[order(located@)[k]].1
            },
        labels_of(r@) == uniform_labels(located@.len()),
        usable(labels_of(r@), located@.len()),
{
    let mut ranks: Vec<Rank> = Vec::new();
    for i in 0..located.len()
        invariant
            ranks@ == prominence(located@).take(i as int),
    {
        let rect = located[i].1;
        ranks.push(Rank { weight: priority(&rect), y: rect.y, x: rect.x, index: i });
        assert(ranks@ =~= prominence(located@).take(i + 1));
    }
    assert(ranks@ =~= prominence(located@));
    let sorted = sort_ranks(&ranks);
    let labels = generate(located.len());
    proof {
        lemma_order(located@);
    }
    let mut r: Vec<Hint> = Vec::new();
    for k in 0..located.len()
        invariant
            sorted@ == ranked(prominence(located@)),
            sorted@.len() == located@.len(),
            labels@.len() == located@.len(),
            forall|j: int|
                0 <= j < located@.len() ==> 0 <= #[trigger] order(located@)[j] < located@.len(),
            r@.len() == k,
            forall|j: int|
                0 <= j < k ==> {
                    &&& (#[trigger] r@[j]).element == located@[order(located@)[j]].0
                    &&& r@[j].rect == located@[order(located@)[j]].1
                    &&& r@[j].label@ == labels@[j]@
                },
    {
        let i = sorted[k].index;
        assert(order(located@)[k as int] == i);
        let e = &located[i];
        r.push(Hint { label: labels[k].clone(), rect: e.1, element: e.0.clone() });
    }
    assert(labels_of(r@) =~= texts(labels@));
    r
}

/// The order names each located element exactly once.
proof fn lemma_order(located: Seq<(Element, PhysicalRect)>)
    requires
        located.len() <= usize::MAX,
    ensures
        order(located).len() == located.len(),
        forall|k: int|
            0 <= k < located.len() ==> 0 <= #[trigger] order(located)[k] < located.len()
                && prominence(located)[order(located)[k]] == ranked(prominence(located))[k],
        order(located).no_duplicates(),
{
    let ranks = prominence(located);
    let sorted = ranked(ranks);
    lemma_ranked(ranks);
    assert forall|k: int| 0 <= k < located.len() implies 0 <= #[trigger] order(located)[k]
        < located.len() && ranks[order(located)[k]] == sorted[k] by {
        assert(sorted.contains(sorted[k]));
        assert(ranks.contains(sorted[k]));
        let i = choose|i: int| 0 <= i < ranks.len() && ranks[i] == sorted[k];
        assert(ranks[i].index == i);
    }
    assert(ranks.no_duplicates()) by {
        assert forall|i: int, j: int|
            0 <= i < ranks.len() && 0 <= j < ranks.len() && i != j implies ranks[i] != ranks[j] by {
            assert(ranks[i].index == i && ranks[j].index == j);
        }
    }
    ranks.lemma_multiset_has_no_duplicates();
    sorted.lemma_multiset_has_no_duplicates_conv();
    assert forall|a: int, b: int|
        0 <= a < order(located).len() && 0 <= b < order(located).len() && a != b implies order(
        located,
    )[a] != order(located)[b] by {
        assert(sorted[a] != sorted[b]);
        assert(ranks[order(located)[a]] == sorted[a]);
        assert(ranks[order(located)[b]] == sorted[b]);
    }
}

/// Each located element gets exactly one label, and of any two the one with
/// the larger area, or else the one that is read first, or else the one that
/// was found first, gets the easier one.
pub proof fn law_prominent_targets_come_first(
    located: Seq<(Element, PhysicalRect)>,
    a: int,
    b: int,
)
    requires
        located.len() <= usize::MAX,
        0 <= a < b < located.len(),
    ensures
        order(located).no_duplicates(),
        0 <= order(located)[a] < located.len(),
        0 <= order(located)[b] < located.len(),
        ({
            let (p, q) = (located[order(located)[a]].1, located[order(located)[b]].1);
            ||| area(p) > area(q)
            ||| area(p) == area(q) && p.y < q.y
            ||| area(p) == area(q) && p.y == q.y && p.x < q.x
            ||| area(p) == area(q) && p.y == q.y && p.x == q.x && order(located)[a]
                < order(located)[b]
        }),
{
    lemma_order(located);
    lemma_ranked(prominence(located));
    let sorted = ranked(prominence(located));
    assert(by_rank()(sorted[a], sorted[b]));
    assert(prominence(located)[order(located)[a]] == sorted[a]);
    assert(prominence(located)[order(located)[b]] == sorted[b]);
    let (p, q) = (located[order(located)[a]].1, located[order(located)[b]].1);
    lemma_area(p);
    lemma_area(q);
}

proof fn lemma_area(r: PhysicalRect)
    ensures
        0 <= area(r) <= u64::MAX,
{
    let (w, h) = (side(r.w), side(r.h));
    assert(0 <= w * h <= 0x7fff_ffff * 0x7fff_ffff) by (nonlinear_arith)
        requires
            0 <= w <= 0x7fff_ffff,
            0 <= h <= 0x7fff_ffff,
    ;
}

/// The area of a rectangle is its width times its height, and none where either
/// is not positive; a rectangle that is no smaller either way has no less.
pub proof fn law_area_of_a_rectangle(r: PhysicalRect, s: PhysicalRect)
    ensures
        r.w > 0 && r.h > 0 ==> area(r) == r.w * r.h,
        r.w <= 0 || r.h <= 0 ==> area(r) == 0,
        r.w <= s.w && r.h <= s.h ==> area(r) <= area(s),
{
    let (a, b, c, d) = (side(r.w), side(r.h), side(s.w), side(s.h));
    assert(a <= c && b <= d ==> a * b <= c * d) by (nonlinear_arith)
        requires
            0 <= a,
            0 <= b,
            0 <= c,
            0 <= d,
    ;
    assert(a == 0 || b == 0 ==> a * b == 0) by (nonlinear_arith);
}

/// The labels count up in the alphabet: the letters of the alphabet, in order,
/// are the last letters of consecutive labels.
pub proof fn law_uniform_labels_count_up(i: nat, w: nat)
    requires
        w > 0,
    ensures
        label(i, w).len() == w,
        label(i, w).last() == letter((i % 14) as int),
        label(i, w).drop_last() == label(i / 14, (w - 1) as nat),
{
    lemma_label_len(i, w);
    lemma_label_len(i / 14, (w - 1) as nat);
    assert(label(i, w).drop_last() =~= label(i / 14, (w - 1) as nat));
}

} // verus!
