//! Variable-width labels.

use super::{prefix_free, usable, Labeler, Target, ALPHABET};
use crate::text::texts;
use vstd::prelude::*;

verus! {

/// Variable-width labels: enumerate strings over the alphabet in
/// length-then-lexicographic order, skip some, and take as many as there are
/// targets. Each skipped string stops being a label and instead prefixes the
/// longer labels at the tail of the window, so the result is prefix-free with
/// the minimal number of demotions: high-priority targets keep one-key labels
/// until the screen saturates.
pub struct ShortLabeler;

/// The letter at position `d` of the alphabet.
pub open spec fn letter(d: int) -> char {
    ALPHABET@[d] as char
}

/// The `i`-th string over the alphabet in length-then-lexicographic order:
/// "h", "j", …, "b", "hh", "hj", ….
pub open spec fn label(i: nat) -> Seq<char>
    decreases i,
{
    if i < 26 {
        seq![letter(i as int)]
    } else {
        label((i / 26 - 1) as nat).push(letter((i % 26) as int))
    }
}

/// How many strings are skipped for `n` targets: those beyond the alphabet,
/// divided by one less than its size, rounded up.
pub open spec fn demoted(n: nat) -> nat {
    if n <= 26 {
        0
    } else {
        ((n - 26 + 24) / 25) as nat
    }
}

/// The `n` strings that follow the first `skip` ones.
pub open spec fn window(skip: nat, n: nat) -> Seq<Seq<char>> {
    Seq::new(n, |k: int| label((skip + k) as nat))
}

/// The labels for `n` targets.
pub open spec fn short_labels(n: nat) -> Seq<Seq<char>> {
    window(demoted(n), n)
}

/// The `i`-th string over [`ALPHABET`] in length-then-lexicographic order:
/// "h", "j", …, "b", "hh", "hj", ….
pub fn nth_label(i: usize) -> (r: String)
    ensures
        r@ == label(i as nat),
    decreases i,
{
    let mut r = if i < 26 {
        String::new()
    } else {
        nth_label(i / 26 - 1)
    };
    r.push(ALPHABET[i % 26] as char);
    assert(r@ =~= label(i as nat));
    r
}

impl Labeler for ShortLabeler {
    open spec fn labeling(&self, targets: Seq<Target>) -> Seq<Seq<char>> {
        short_labels(targets.len())
    }

    open spec fn fits(&self, n: nat) -> bool {
        n + demoted(n) <= usize::MAX
    }

    fn labels(&self, targets: &[Target]) -> (r: Vec<String>) {
        let n: usize = targets.len();
        let skip: usize = if n <= 26 {
            0
        } else {
            (n - 26) / 25 + (if (n - 26) % 25 == 0 {
                0
            } else {
                1
            })
        };
        let mut r: Vec<String> = Vec::new();
        for k in 0..n
            invariant
                n + skip <= usize::MAX,
                texts(r@) == window(skip as nat, k as nat),
        {
            let ghost before = r@;
            let next = nth_label(skip + k);
            r.push(next);
            assert(texts(r@) =~= texts(before).push(next@));
            assert(window(skip as nat, (k + 1) as nat) =~= window(skip as nat, k as nat).push(
                next@,
            ));
        }
        proof {
            law_short_labels_usable(n as nat);
        }
        r
    }
}

/// The letters are different from one another, and lower-case.
pub proof fn lemma_letters()
    ensures
        forall|a: int, b: int|
            0 <= a < 26 && 0 <= b < 26 && a != b ==> #[trigger] letter(a) != #[trigger] letter(b),
        forall|a: int| 0 <= a < 26 ==> 'a' <= #[trigger] letter(a) && letter(a) <= 'z',
{
}

/// The position of a letter in the alphabet.
pub open spec fn place(c: char) -> int {
    choose|d: int| 0 <= d < 26 && #[trigger] letter(d) == c
}

/// A text over the alphabet.
pub open spec fn spelled(s: Seq<char>) -> bool {
    forall|i: int| 0 <= i < s.len() ==> 0 <= place(#[trigger] s[i]) < 26 && letter(place(s[i]))
        == s[i]
}

/// The number of a text in the enumeration.
pub open spec fn value(s: Seq<char>) -> int
    decreases s.len(),
{
    if s.len() == 0 {
        -1
    } else {
        26 * (value(s.drop_last()) + 1) + place(s.last())
    }
}

/// `s` comes before `t` in length-then-lexicographic order.
pub open spec fn shortlex(s: Seq<char>, t: Seq<char>) -> bool {
    ||| s.len() < t.len()
    ||| s.len() == t.len() && exists|k: int|
        #![trigger s[k]]
        0 <= k < s.len() && s.take(k) == t.take(k) && place(s[k]) < place(t[k])
}

proof fn lemma_place(d: int)
    requires
        0 <= d < 26,
    ensures
        place(letter(d)) == d,
{
    lemma_letters();
}

/// Every label is a text over the alphabet, and its number is its index: no
/// two indices give the same label.
pub proof fn lemma_label(i: nat)
    ensures
        label(i).len() > 0,
        spelled(label(i)),
        value(label(i)) == i,
    decreases i,
{
    if i < 26 {
        lemma_place(i as int);
        assert(label(i).drop_last() =~= seq![]);
        assert(value(label(i).drop_last()) == -1);
    } else {
        let p = (i / 26 - 1) as nat;
        lemma_label(p);
        lemma_place((i % 26) as int);
        assert(label(i).drop_last() =~= label(p));
    }
}

/// The enumeration leaves nothing out: every text over the alphabet that is
/// not empty is the label with its number.
pub proof fn law_enumeration_is_complete(s: Seq<char>)
    requires
        s.len() > 0,
        spelled(s),
    ensures
        value(s) >= 0,
        label(value(s) as nat) == s,
    decreases s.len(),
{
    let d = place(s.last());
    assert(0 <= d < 26 && letter(d) == s.last()) by {
        assert(s.last() == s[s.len() - 1]);
    }
    assert(s.drop_last().push(s.last()) =~= s);
    if s.len() == 1 {
        assert(value(s.drop_last()) == -1);
        assert(value(s) == d);
        assert(label(value(s) as nat) =~= s);
    } else {
        let front = s.drop_last();
        assert forall|i: int| 0 <= i < front.len() implies 0 <= place(#[trigger] front[i]) < 26
            && letter(place(front[i])) == front[i] by {
            assert(front[i] == s[i]);
        }
        law_enumeration_is_complete(front);
        let v = value(s);
        assert(v / 26 - 1 == value(front));
        assert(v % 26 == d);
    }
}

/// The enumeration is in length-then-lexicographic order.
pub proof fn law_enumeration_is_in_order(i: nat, j: nat)
    requires
        i < j,
    ensures
        shortlex(label(i), label(j)),
    decreases j,
{
    lemma_label(i);
    lemma_label(j);
    let (s, t) = (label(i), label(j));
    if i < 26 {
        if j < 26 {
            lemma_place(i as int);
            lemma_place(j as int);
            assert(s.take(0) =~= t.take(0));
            assert(place(s[0]) < place(t[0]));
        } else {
            let q = (j / 26 - 1) as nat;
            lemma_label(q);
            assert(t.len() == label(q).len() + 1);
        }
    } else {
        let p = (i / 26 - 1) as nat;
        let q = (j / 26 - 1) as nat;
        lemma_place((i % 26) as int);
        lemma_place((j % 26) as int);
        if p == q {
            let k = s.len() - 1;
            assert(s.take(k) =~= label(p));
            assert(t.take(k) =~= label(p));
            assert(place(s[k]) < place(t[k]));
        } else {
            law_enumeration_is_in_order(p, q);
            let (u, v) = (label(p), label(q));
            if u.len() == v.len() {
                let k = choose|k: int|
                    #![trigger u[k]]
                    0 <= k < u.len() && u.take(k) == v.take(k) && place(u[k]) < place(v[k]);
                assert(s[k] == u[k] && t[k] == v[k]);
                assert(s.take(k) =~= u.take(k));
                assert(t.take(k) =~= v.take(k));
            }
        }
    }
}

/// Earlier labels are no longer than later ones.
pub proof fn law_lengths_do_not_decrease(n: nat, i: int, j: int)
    requires
        0 <= i <= j < n,
    ensures
        short_labels(n)[i].len() <= short_labels(n)[j].len(),
{
    let skip = demoted(n);
    if i < j {
        law_enumeration_is_in_order((skip + i) as nat, (skip + j) as nat);
    }
}

/// The targets with one-key labels are the first ones, as many as there are
/// letters that do not begin a longer label; up to the size of the alphabet
/// that is all of them.
pub proof fn law_one_key_labels_come_first(n: nat, k: int)
    requires
        0 <= k < n,
    ensures
        short_labels(n)[k].len() == 1 <==> k < 26 - demoted(n),
        n <= 26 ==> short_labels(n)[k].len() == 1,
{
    let i = (demoted(n) + k) as nat;
    if i >= 26 {
        lemma_label((i / 26 - 1) as nat);
    }
}

/// A label begins another one only if its index is no greater than that of
/// the other one without its last letter.
proof fn lemma_beginning(i: nat, j: nat)
    requires
        i != j,
        label(i).is_prefix_of(label(j)),
    ensures
        j >= 26,
        i <= j / 26 - 1,
    decreases j,
{
    lemma_label(i);
    lemma_label(j);
    if label(i).len() == label(j).len() {
        assert(label(i) =~= label(j));
    } else if j >= 26 {
        let q = (j / 26 - 1) as nat;
        assert(label(i).is_prefix_of(label(q))) by {
            assert forall|k: int| 0 <= k < label(i).len() implies label(i)[k] == label(q)[k] by {
                assert(label(j)[k] == label(i)[k]);
            }
            assert(label(i) =~= label(q).subrange(0, label(i).len() as int));
        }
        if i != q {
            lemma_beginning(i, q);
        }
    }
}

/// The labels for any number of targets can be told apart while typing: there
/// is one for each target, none is empty, and none begins another.
pub proof fn law_short_labels_usable(n: nat)
    ensures
        usable(short_labels(n), n),
{
    let skip = demoted(n);
    let labels = short_labels(n);
    assert forall|i: int| 0 <= i < n implies (#[trigger] labels[i]).len() > 0 by {
        lemma_label((skip + i) as nat);
    }
    assert forall|i: int, j: int|
        #![trigger labels[i], labels[j]]
        0 <= i < labels.len() && 0 <= j < labels.len() && i != j implies !labels[i].is_prefix_of(
        labels[j],
    ) by {
        if labels[i].is_prefix_of(labels[j]) {
            lemma_beginning((skip + i) as nat, (skip + j) as nat);
        }
    }
}

/// No fewer strings could be skipped: with any smaller number, one of the
/// labels would begin another.
pub proof fn law_demotions_are_minimal(n: nat, skip: nat)
    requires
        skip < demoted(n),
    ensures
        !prefix_free(window(skip, n)),
{
    let labels = window(skip, n);
    let j = (skip + n - 1) as nat;
    let i = (j / 26 - 1) as nat;
    assert(labels[i - skip] == label(i));
    assert(labels[j - skip] == label(j));
    assert(label(i) =~= label(j).subrange(0, label(i).len() as int));
    assert(labels[i - skip].is_prefix_of(labels[j - skip]));
}

/// The labels for `n` targets are consecutive strings of the enumeration, and
/// the first `n` of them of which none begins another.
pub proof fn law_labels_are_the_first_that_work(n: nat)
    ensures
        short_labels(n) == window(demoted(n), n),
        forall|k: int| 0 <= k < n ==> #[trigger] short_labels(n)[k] == label((demoted(n) + k) as nat),
        prefix_free(window(demoted(n), n)),
        forall|skip: nat| skip < demoted(n) ==> !prefix_free(#[trigger] window(skip, n)),
{
    law_short_labels_usable(n);
    assert forall|skip: nat| skip < demoted(n) implies !prefix_free(#[trigger] window(skip, n)) by {
        law_demotions_are_minimal(n, skip);
    }
}

/// Labels can be numbered as long as the last number that they need fits.
pub proof fn law_how_many_labels_fit(n: nat)
    ensures
        ShortLabeler.fits(n) <==> demoted(n) + n <= usize::MAX,
{
}

} // verus!
