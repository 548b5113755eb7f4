//! Hint label generation and assignment.

pub mod short;
pub mod typing;
pub mod uniform;

pub use short::ShortLabeler;

use crate::atspi::{Element, Role};
use crate::geometry::PhysicalRect;
use crate::text::{invalid_variant, names_value, reject_variant, same_value, texts};
use vstd::prelude::*;

verus! {

/// The full lowercase alphabet as ASCII codes, ordered by ergonomics:
/// `hjklasdfgyuiopqwertnmzxcvb`.
pub const ALPHABET: [u8; 26] = [
    104, 106, 107, 108, 97, 115, 100, 102, 103, 121, 117, 105, 111,
    112, 113, 119, 101, 114, 116, 110, 109, 122, 120, 99, 118, 98,
];

/// A label assigned to an on-screen target.
#[derive(Debug)]
pub struct Hint {
    pub label: String,
    pub rect: PhysicalRect,
    pub element: Element,
}

impl Clone for Hint {
    fn clone(&self) -> (r: Hint)
        ensures
            r == *self,
    {
        Hint { label: self.label.clone(), rect: self.rect, element: self.element.clone() }
    }
}

/// What a labeler may know about each target. Targets arrive in
/// accessibility-tree pre-order.
pub struct Target<'a> {
    pub name: &'a str,
    pub role: Role,
    pub rect: PhysicalRect,
}

/// No label is a prefix of another one; in particular no two are the same.
pub open spec fn prefix_free(labels: Seq<Seq<char>>) -> bool {
    forall|i: int, j: int|
        #![trigger labels[i], labels[j]]
        0 <= i < labels.len() && 0 <= j < labels.len() && i != j ==> !labels[i].is_prefix_of(
            labels[j],
        )
}

/// Labels that a user can type to tell `n` targets apart: one for each, none
/// of them empty, and none the beginning of another.
pub open spec fn usable(labels: Seq<Seq<char>>, n: nat) -> bool {
    &&& labels.len() == n
    &&& forall|i: int| 0 <= i < n ==> (#[trigger] labels[i]).len() > 0
    &&& prefix_free(labels)
}

/// The positions of `n` things, in order.
pub open spec fn positions(n: nat) -> Seq<usize> {
    Seq::new(n, |i: int| i as usize)
}

/// The label at a position starts with the prefix.
pub open spec fn leads_to(labels: Seq<Seq<char>>, prefix: Seq<char>) -> spec_fn(usize) -> bool {
    |i: usize| prefix.is_prefix_of(labels[i as int])
}

/// The positions of the labels that start with the prefix, in order.
pub open spec fn reachable(labels: Seq<Seq<char>>, prefix: Seq<char>) -> Seq<usize> {
    positions(labels.len()).filter(leads_to(labels, prefix))
}

/// Going through one more label: it is reachable where it starts with the
/// prefix.
pub proof fn lemma_reachable_step(labels: Seq<Seq<char>>, prefix: Seq<char>, n: nat)
    requires
        n < labels.len(),
        n <= usize::MAX,
    ensures
        positions(n + 1).filter(leads_to(labels, prefix)) == if prefix.is_prefix_of(
            labels[n as int],
        ) {
            positions(n).filter(leads_to(labels, prefix)).push(n as usize)
        } else {
            positions(n).filter(leads_to(labels, prefix))
        },
{
    reveal(Seq::filter);
    assert(positions(n + 1).drop_last() =~= positions(n));
    assert(positions(n + 1).last() == n as usize);
}

/// Of the first `n` positions, exactly those of labels that start with the
/// prefix are reachable.
pub proof fn lemma_reachable_has(labels: Seq<Seq<char>>, prefix: Seq<char>, n: nat, i: int)
    requires
        n <= labels.len(),
        n <= usize::MAX,
    ensures
        0 <= i < n && prefix.is_prefix_of(labels[i]) ==> positions(n).filter(
            leads_to(labels, prefix),
        ).contains(i as usize),
        forall|k: int|
            0 <= k < positions(n).filter(leads_to(labels, prefix)).len() ==> (#[trigger] positions(
                n,
            ).filter(leads_to(labels, prefix))[k]) < n && prefix.is_prefix_of(
                labels[positions(n).filter(leads_to(labels, prefix))[k] as int],
            ),
    decreases n,
{
    reveal(Seq::filter);
    if n > 0 {
        let m = (n - 1) as nat;
        let before = positions(m).filter(leads_to(labels, prefix));
        let after = positions(n).filter(leads_to(labels, prefix));
        lemma_reachable_has(labels, prefix, m, i);
        lemma_reachable_step(labels, prefix, m);
        if 0 <= i < n && prefix.is_prefix_of(labels[i]) {
            if i == m {
                assert(after.last() == i as usize);
                assert(after[after.len() - 1] == i as usize);
            } else {
                let k = choose|k: int| 0 <= k < before.len() && before[k] == i as usize;
                assert(after[k] == i as usize);
            }
        }
    }
}

/// A label assignment strategy.
pub trait Labeler {
    /// The labels for the targets, in their order.
    spec fn labeling(&self, targets: Seq<Target>) -> Seq<Seq<char>>;

    /// The labels of that many targets can be numbered.
    spec fn fits(&self, n: nat) -> bool;

    fn labels(&self, targets: &[Target]) -> (r: Vec<String>)
        requires
            self.fits(targets@.len()),
        ensures
            texts(r@) == self.labeling(targets@),
            usable(texts(r@), targets@.len()),
    ;
}

#[derive(Debug, Clone, Copy, PartialEq, Eq, Structural)]
pub enum HintStyle {
    /// Variable-width codes.
    Short,
}

impl Default for HintStyle {
    fn default() -> (r: HintStyle)
        ensures
            r == HintStyle::Short,
    {
        HintStyle::Short
    }
}

impl HintStyle {
    /// The name of the style.
    pub open spec fn text(self) -> Seq<char> {
        match self {
            HintStyle::Short => "short"@,
        }
    }

    /// All styles.
    pub fn value_variants() -> (r: Vec<HintStyle>)
        ensures
            r@ == seq![HintStyle::Short],
    {
        vec![HintStyle::Short]
    }

    /// The style with the given name.
    pub fn from_str(input: &str, ignore_case: bool) -> (r: Result<HintStyle, String>)
        ensures
            match r {
                Ok(style) => same_value(style.text(), input@, ignore_case),
                Err(message) => {
                    &&& !same_value(HintStyle::Short.text(), input@, ignore_case)
                    &&& message@ == invalid_variant(input@)
                },
            },
    {
        if names_value("short", input, ignore_case) {
            Ok(HintStyle::Short)
        } else {
            Err(reject_variant(input))
        }
    }

    pub fn labeler(self) -> (r: ShortLabeler)
        ensures
            r == ShortLabeler,
    {
        match self {
            HintStyle::Short => ShortLabeler,
        }
    }

    pub fn as_str(self) -> (r: &'static str)
        ensures
            r@ == self.text(),
    {
        match self {
            HintStyle::Short => "short",
        }
    }

    /// The name of the style, as an owned string.
    pub fn to_string(&self) -> (r: String)
        ensures
            r@ == self.text(),
    {
        self.as_str().to_owned()
    }
}

/// The hints carry the elements and their places, in order.
pub open spec fn carried(hints: Seq<Hint>, located: Seq<(Element, PhysicalRect)>) -> bool {
    &&& hints.len() == located.len()
    &&& forall|i: int|
        0 <= i < located.len() ==> (#[trigger] hints[i]).element == located[i].0 && hints[i].rect
            == located[i].1
}

/// The labels of the hints.
pub open spec fn labels_of(hints: Seq<Hint>) -> Seq<Seq<char>> {
    hints.map_values(|h: Hint| h.label@)
}

/// Assign labels to located elements in accessibility-tree pre-order.
pub fn assign(located: &[(Element, PhysicalRect)], style: HintStyle) -> (r: Vec<Hint>)
    requires
        located@.len() + short::demoted(located@.len()) <= usize::MAX,
    ensures
        carried(r@, located@),
        labels_of(r@) == short::short_labels(located@.len()),
        usable(labels_of(r@), located@.len()),
        forall|i: int, j: int|
            #![trigger r@[i], r@[j]]
            0 <= i <= j < r@.len() ==> r@[i].label@.len() <= r@[j].label@.len(),
{
    let labeler = style.labeler();
    let mut targets: Vec<Target> = Vec::new();
    for i in 0..located.len()
        invariant
            targets@.len() == i,
    {
        let e = &located[i];
        targets.push(Target { name: e.0.name.as_str(), role: e.0.role, rect: e.1 });
    }
    let labels = labeler.labels(targets.as_slice());
    let mut r: Vec<Hint> = Vec::new();
    for i in 0..located.len()
        invariant
            labels@.len() == located@.len(),
            r@.len() == i,
            forall|j: int|
                0 <= j < i ==> {
                    &&& (#[trigger] r@[j]).element == located@[j].0
                    &&& r@[j].rect == located@[j].1
                    &&& r@[j].label@ == labels@[j]@
                },
    {
        let e = &located[i];
        r.push(Hint { label: labels[i].clone(), rect: e.1, element: e.0.clone() });
    }
    assert(labels_of(r@) =~= texts(labels@));
    assert forall|i: int, j: int|
        #![trigger r@[i], r@[j]]
        0 <= i <= j < r@.len() implies r@[i].label@.len() <= r@[j].label@.len() by {
        short::law_lengths_do_not_decrease(located@.len(), i, j);
        assert(labels_of(r@)[i] == r@[i].label@ && labels_of(r@)[j] == r@[j].label@);
    }
    r
}

/// Each hint carries the element at its own position, and that element's place.
pub proof fn law_hints_carry_their_own_element(
    hints: Seq<Hint>,
    located: Seq<(Element, PhysicalRect)>,
    i: int,
)
    requires
        carried(hints, located),
        0 <= i < located.len(),
    ensures
        hints.len() == located.len(),
        hints[i].element == located[i].0,
        hints[i].rect == located[i].1,
{
}

/// The labels are those of each hint in turn.
pub proof fn law_labels_are_each_hints_own(hints: Seq<Hint>)
    ensures
        labels_of(hints).len() == hints.len(),
        forall|i: int| 0 <= i < hints.len() ==> #[trigger] labels_of(hints)[i] == hints[i].label@,
{
}

/// Usable labels are there for everyone, none is empty, and of any two neither
/// begins with the other.
pub proof fn law_usable_labels(labels: Seq<Seq<char>>, n: nat, i: int, j: int)
    requires
        usable(labels, n),
        0 <= i < n,
        0 <= j < n,
        i != j,
    ensures
        labels.len() == n,
        labels[i].len() > 0,
        labels[i] != labels[j],
        labels[i].len() <= labels[j].len() ==> exists|k: int|
            0 <= k < labels[i].len() && #[trigger] labels[i][k] != labels[j][k],
{
    let (a, b) = (labels[i], labels[j]);
    assert(!a.is_prefix_of(b));
    if a.len() <= b.len() && forall|k: int| 0 <= k < a.len() ==> #[trigger] a[k] == b[k] {
        assert(b.subrange(0, a.len() as int) =~= a);
    }
    if a == b {
        assert(b.subrange(0, a.len() as int) =~= a);
    }
}

/// Short labels depend on nothing but how many targets there are.
pub proof fn law_short_labels_depend_on_the_count(a: Seq<Target>, b: Seq<Target>)
    requires
        a.len() == b.len(),
    ensures
        ShortLabeler.labeling(a) == ShortLabeler.labeling(b),
        ShortLabeler.labeling(a) == short::short_labels(a.len()),
{
}

/// A position is reachable exactly where it is one and its label begins with the
/// prefix, character by character; a longer prefix reaches no more.
pub proof fn law_reachable_positions(labels: Seq<Seq<char>>, prefix: Seq<char>, i: usize)
    requires
        labels.len() <= usize::MAX,
    ensures
        reachable(labels, prefix).contains(i) <==> i < labels.len() && prefix.len()
            <= labels[i as int].len() && (forall|j: int|
            0 <= j < prefix.len() ==> labels[i as int][j] == #[trigger] prefix[j]),
{
    let found = reachable(labels, prefix);
    lemma_reachable_has(labels, prefix, labels.len(), i as int);
    if found.contains(i) {
        let k = choose|k: int| 0 <= k < found.len() && found[k] == i;
        let label = labels[found[k] as int];
        assert(prefix.is_prefix_of(label));
        assert forall|j: int| 0 <= j < prefix.len() implies label[j] == #[trigger] prefix[j] by {
            assert(label.subrange(0, prefix.len() as int)[j] == label[j]);
        }
    }
    if i < labels.len() && prefix.len() <= labels[i as int].len() && forall|j: int|
        0 <= j < prefix.len() ==> labels[i as int][j] == #[trigger] prefix[j] {
        assert(labels[i as int].subrange(0, prefix.len() as int) =~= prefix);
    }
}

/// The label at `i` begins with the prefix, and no other one does.
pub open spec fn sole(labels: Seq<Seq<char>>, prefix: Seq<char>, i: int) -> bool {
    &&& 0 <= i < labels.len()
    &&& prefix.is_prefix_of(labels[i])
    &&& forall|j: int| 0 <= j < labels.len() && j != i ==> !prefix.is_prefix_of(#[trigger] labels[j])
}

/// How many labels a prefix reaches: the only one that begins with it, none
/// where none does, and several where two do.
pub proof fn law_how_many_are_reachable(labels: Seq<Seq<char>>, prefix: Seq<char>, i: int, j: int)
    requires
        labels.len() <= usize::MAX,
    ensures
        sole(labels, prefix, i) ==> reachable(labels, prefix) == seq![i as usize],
        (forall|k: int| 0 <= k < labels.len() ==> !prefix.is_prefix_of(#[trigger] labels[k]))
            ==> reachable(labels, prefix).len() == 0,
        0 <= i < j < labels.len() && prefix.is_prefix_of(labels[i]) && prefix.is_prefix_of(labels[j])
            ==> reachable(labels, prefix).len() >= 2,
{
    let found = reachable(labels, prefix);
    lemma_reachable_has(labels, prefix, labels.len(), i);
    lemma_reachable_has(labels, prefix, labels.len(), j);
    typing::lemma_reachable_ascends(labels, prefix, labels.len());
    if sole(labels, prefix, i) {
        assert(found.contains(i as usize));
        assert forall|k: int| 0 <= k < found.len() implies found[k] == i by {
            assert(prefix.is_prefix_of(labels[found[k] as int]));
        }
        if found.len() > 1 {
            assert(found[0] < found[1]);
        }
        assert(found =~= seq![i as usize]);
    }
    if 0 <= i < j < labels.len() && prefix.is_prefix_of(labels[i]) && prefix.is_prefix_of(
        labels[j],
    ) {
        assert(found.contains(i as usize) && found.contains(j as usize));
        if found.len() == 1 {
            assert(found[0] == i && found[0] == j);
        }
    }
    if (forall|k: int| 0 <= k < labels.len() ==> !prefix.is_prefix_of(#[trigger] labels[k]))
        && found.len() > 0 {
        assert(prefix.is_prefix_of(labels[found[0] as int]));
    }
}

} // verus!
