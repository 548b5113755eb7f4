//! Selecting a hint by typing its label.

use super::short::{demoted, lemma_label, lemma_letters, letter, short_labels};
use super::{
    labels_of, law_how_many_are_reachable, leads_to, lemma_reachable_has, lemma_reachable_step, positions, reachable, sole, usable,
    Hint,
};
use crate::text::{alphanumeric, ascii_lower, starts_with, to_ascii_lower};
use vstd::prelude::*;

verus! {

/// What a typed character does to the prefix that was typed before it.
#[derive(Debug)]
pub enum Narrowed {
    /// No label starts with the longer prefix: the keystroke is ignored.
    Ignored,
    /// Exactly one label does: its hint is selected.
    Selected(usize),
    /// Several labels do: this is the prefix now.
    Prefix(String),
}

/// The prefix with one more character, in lower case.
pub open spec fn candidate(typed: Seq<char>, c: char) -> Seq<char> {
    typed.push(ascii_lower(c))
}

/// What remains to be told apart once `c` is typed after `typed`.
pub open spec fn narrowing(labels: Seq<Seq<char>>, typed: Seq<char>, c: char, r: Narrowed) -> bool {
    let found = reachable(labels, candidate(typed, c));
    match r {
        Narrowed::Ignored => found.len() == 0,
        Narrowed::Selected(i) => found == seq![i],
        Narrowed::Prefix(p) => found.len() > 1 && p@ == candidate(typed, c),
    }
}

/// The hints whose labels start with the prefix, in order.
pub fn matching(hints: &[Hint], prefix: &str) -> (r: Vec<usize>)
    ensures
        r@ == reachable(labels_of(hints@), prefix@),
{
    let ghost labels = labels_of(hints@);
    let mut r: Vec<usize> = Vec::new();
    assert(positions(0).filter(leads_to(labels, prefix@)) =~= r@) by {
        reveal(Seq::filter);
    }
    for i in 0..hints.len()
        invariant
            labels == labels_of(hints@),
            r@ == positions(i as nat).filter(leads_to(labels, prefix@)),
    {
        proof {
            lemma_reachable_step(labels, prefix@, i as nat);
        }
        if starts_with(hints[i].label.as_str(), prefix) {
            r.push(i);
        }
    }
    r
}

/// A character narrows the prefix: it is ignored where no label starts with the
/// result, and selects a hint where only one does.
pub fn narrow(hints: &[Hint], typed: &String, c: char) -> (r: Narrowed)
    ensures
        narrowing(labels_of(hints@), typed@, c, r),
{
    let mut longer = typed.clone();
    longer.push(to_ascii_lower(c));
    let found = matching(hints, longer.as_str());
    if found.len() == 0 {
        Narrowed::Ignored
    } else if found.len() == 1 {
        assert(found@ =~= seq![found@[0]]);
        Narrowed::Selected(found[0])
    } else {
        Narrowed::Prefix(longer)
    }
}

/// Typing `keys` after `typed`, one after the other, until a hint is selected.
pub open spec fn typing(labels: Seq<Seq<char>>, typed: Seq<char>, keys: Seq<char>) -> Option<usize>
    decreases keys.len(),
{
    if keys.len() == 0 {
        None
    } else {
        let longer = candidate(typed, keys[0]);
        let found = reachable(labels, longer);
        if found.len() == 1 {
            Some(found[0])
        } else if found.len() == 0 {
            typing(labels, typed, keys.drop_first())
        } else {
            typing(labels, longer, keys.drop_first())
        }
    }
}

/// Only one position is reachable, and it is `i`.
proof fn lemma_sole(labels: Seq<Seq<char>>, prefix: Seq<char>, i: int)
    requires
        labels.len() <= usize::MAX,
        0 <= i < labels.len(),
        prefix.is_prefix_of(labels[i]),
        reachable(labels, prefix).len() == 1,
    ensures
        reachable(labels, prefix)[0] == i,
{
    lemma_reachable_has(labels, prefix, labels.len(), i);
}

/// No position is reachable twice.
pub proof fn lemma_reachable_ascends(labels: Seq<Seq<char>>, prefix: Seq<char>, n: nat)
    requires
        n <= labels.len(),
        n <= usize::MAX,
    ensures
        forall|a: int, b: int|
            0 <= a < b < positions(n).filter(leads_to(labels, prefix)).len() ==> (
            #[trigger] positions(n).filter(leads_to(labels, prefix))[a]) < (#[trigger] positions(
                n,
            ).filter(leads_to(labels, prefix))[b]),
    decreases n,
{
    reveal(Seq::filter);
    if n > 0 {
        let m = (n - 1) as nat;
        lemma_reachable_ascends(labels, prefix, m);
        lemma_reachable_step(labels, prefix, m);
        lemma_reachable_has(labels, prefix, m, 0);
    }
}

/// The keys type the label, in either case.
pub open spec fn types(keys: Seq<char>, label: Seq<char>) -> bool {
    &&& keys.len() == label.len()
    &&& forall|j: int| 0 <= j < keys.len() ==> ascii_lower(#[trigger] keys[j]) == label[j]
}

proof fn lemma_typing_on(labels: Seq<Seq<char>>, i: int, keys: Seq<char>, k: int)
    requires
        usable(labels, labels.len()),
        labels.len() <= usize::MAX,
        0 <= i < labels.len(),
        types(keys, labels[i]),
        0 <= k < labels[i].len(),
    ensures
        typing(labels, labels[i].take(k), keys.skip(k)) == Some(i as usize),
    decreases labels[i].len() - k,
{
    let label = labels[i];
    let rest = keys.skip(k);
    let longer = candidate(label.take(k), rest[0]);
    assert(rest[0] == keys[k]);
    assert(longer =~= label.take(k + 1));
    assert(longer.is_prefix_of(label));
    let found = reachable(labels, longer);
    lemma_reachable_has(labels, longer, labels.len(), i);
    assert(found.contains(i as usize));
    assert(found.len() > 0);
    if found.len() == 1 {
        lemma_sole(labels, longer, i);
    } else {
        if k + 1 == label.len() {
            assert(longer =~= label);
            lemma_reachable_ascends(labels, longer, labels.len());
            assert(found[0] < found[1]);
            assert(label.is_prefix_of(labels[found[0] as int]));
            assert(label.is_prefix_of(labels[found[1] as int]));
            assert(found[0] == i);
            assert(found[1] == i);
        }
        assert(rest.drop_first() =~= keys.skip(k + 1));
        lemma_typing_on(labels, i, keys, k + 1);
    }
}

/// Typing a label out selects its hint and no other: never one on the way, and
/// at the latest with the last key.
pub proof fn law_typing_a_label_selects_its_hint(labels: Seq<Seq<char>>, i: int, keys: Seq<char>)
    requires
        usable(labels, labels.len()),
        labels.len() <= usize::MAX,
        0 <= i < labels.len(),
        types(keys, labels[i]),
    ensures
        typing(labels, seq![], keys) == Some(i as usize),
{
    lemma_typing_on(labels, i, keys, 0);
    assert(labels[i].take(0) =~= seq![]);
    assert(keys.skip(0) =~= keys);
}

/// The short labels are in lower case, and made of letters that a key types.
pub proof fn lemma_short_labels_typed(n: nat, i: int)
    requires
        0 <= i < n,
    ensures
        types(short_labels(n)[i], short_labels(n)[i]),
        forall|j: int|
            0 <= j < short_labels(n)[i].len() ==> alphanumeric(#[trigger] short_labels(n)[i][j]),
{
    let s = short_labels(n)[i];
    lemma_label((demoted(n) + i) as nat);
    lemma_letters();
    assert forall|j: int| 0 <= j < s.len() implies ascii_lower(#[trigger] s[j]) == s[j]
        && alphanumeric(s[j]) by {
        let d = choose|d: int| 0 <= d < 26 && #[trigger] letter(d) == s[j];
        assert(letter(d) == s[j]);
    }
}

/// Every hint of a window can be reached by typing its label.
pub proof fn law_every_short_label_can_be_typed(n: nat, i: int)
    requires
        n <= usize::MAX,
        0 <= i < n,
    ensures
        typing(short_labels(n), seq![], short_labels(n)[i]) == Some(i as usize),
{
    super::short::law_short_labels_usable(n);
    lemma_short_labels_typed(n, i);
    law_typing_a_label_selects_its_hint(short_labels(n), i, short_labels(n)[i]);
}

/// A hint is selected by nothing but a beginning of its own label that begins
/// no other label.
pub proof fn law_selection_is_unambiguous(
    labels: Seq<Seq<char>>,
    typed: Seq<char>,
    c: char,
    i: usize,
)
    requires
        labels.len() <= usize::MAX,
        narrowing(labels, typed, c, Narrowed::Selected(i)),
    ensures
        i < labels.len(),
        candidate(typed, c).is_prefix_of(labels[i as int]),
        forall|j: int|
            0 <= j < labels.len() && candidate(typed, c).is_prefix_of(#[trigger] labels[j]) ==> j
                == i,
{
    let prefix = candidate(typed, c);
    let found = reachable(labels, prefix);
    lemma_reachable_has(labels, prefix, labels.len(), 0);
    assert(found[0] == i);
    assert forall|j: int|
        0 <= j < labels.len() && prefix.is_prefix_of(#[trigger] labels[j]) implies j == i by {
        lemma_sole(labels, prefix, j);
    }
}

/// What a typed character comes to, told by the labels that begin with the
/// longer prefix: it is ignored where none does, selects a hint where that one
/// alone does, and stands where several do.
pub proof fn law_narrowing_tells_how_many_remain(
    labels: Seq<Seq<char>>,
    typed: Seq<char>,
    c: char,
    r: Narrowed,
    j: int,
)
    requires
        labels.len() <= usize::MAX,
        narrowing(labels, typed, c, r),
    ensures
        ({
            let longer = typed.push(ascii_lower(c));
            &&& r is Ignored && 0 <= j < labels.len() ==> !longer.is_prefix_of(labels[j])
            &&& r matches Narrowed::Selected(i) ==> sole(labels, longer, i as int)
            &&& r matches Narrowed::Prefix(p) ==> p@ == longer && !sole(labels, longer, j) && exists|
                k: int,
            |
                0 <= k < labels.len() && longer.is_prefix_of(#[trigger] labels[k])
        }),
{
    let longer = typed.push(ascii_lower(c));
    let found = reachable(labels, longer);
    lemma_reachable_has(labels, longer, labels.len(), j);
    match r {
        Narrowed::Ignored => {},
        Narrowed::Selected(i) => {
            law_selection_is_unambiguous(labels, typed, c, i);
        },
        Narrowed::Prefix(p) => {
            law_how_many_are_reachable(labels, longer, j, j);
            assert(longer.is_prefix_of(labels[found[0] as int]));
        },
    }
}

} // verus!
