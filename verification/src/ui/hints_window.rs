//! The hint overlay: which chips it shows, what it outlines, and how the user
//! selects a hint by typing.

use crate::geometry::PhysicalRect;
use crate::hints::short::{law_short_labels_usable, short_labels};
use crate::hints::typing::{
    candidate, law_typing_a_label_selects_its_hint, lemma_short_labels_typed, narrow, types, typing,
    Narrowed,
};
use crate::hints::{
    labels_of, law_how_many_are_reachable, lemma_reachable_has, reachable, sole, usable, Hint,
};
use crate::text::{alphanumeric, ascii_lower, is_alphanumeric, starts_with};
use vstd::prelude::*;
use vstd::utf8::encode_utf8;

verus! {

pub struct State {
    pub hints: Vec<Hint>,
    /// Chips are shown only for labels starting with this prefix.
    pub typed: String,
    /// Index into `hints` whose element is outlined (green) as selected.
    pub selected: Option<usize>,
    /// Index whose hint label has been typed out (cyan chip).
    pub hint_match: Option<usize>,
    /// Hide all chips/outlines (panel mode: positions stale after a scroll).
    pub hidden: bool,
}

impl State {
    /// Nothing is typed or selected yet.
    pub fn new(hints: Vec<Hint>) -> (r: State)
        ensures
            r.hints@ == hints@,
            r.typed@.len() == 0,
            r.selected is None,
            r.hint_match is None,
            !r.hidden,
    {
        State { hints, typed: String::new(), selected: None, hint_match: None, hidden: false }
    }
}

// ---- chips ----

/// How a hint's chip is shown.
#[derive(Debug, Clone, Copy, PartialEq, Eq, Structural)]
pub enum Chip {
    Hidden,
    /// Shown, with its first `faded` bytes faded, and lit up where its label
    /// is typed out.
    Shown { faded: usize, lit: bool },
}

/// How the chip of hint `i` is shown: only labels still matching the typed
/// prefix are, with that prefix faded.
pub open spec fn chip_of(s: State, i: int) -> Chip {
    if s.hidden || !s.typed@.is_prefix_of(s.hints@[i].label@) {
        Chip::Hidden
    } else {
        Chip::Shown {
            faded: encode_utf8(s.typed@).len() as usize,
            lit: s.hint_match == Some(i as usize),
        }
    }
}

/// The chips, one per hint.
pub fn chips(s: &State) -> (r: Vec<Chip>)
    ensures
        r@ == Seq::new(s.hints@.len(), |i: int| chip_of(*s, i)),
{
    let faded: usize = s.typed.as_str().as_bytes().len();
    let mut r: Vec<Chip> = Vec::new();
    for i in 0..s.hints.len()
        invariant
            faded == encode_utf8(s.typed@).len(),
            r@ == Seq::new(i as nat, |i: int| chip_of(*s, i)),
    {
        let chip = if s.hidden || !starts_with(s.hints[i].label.as_str(), s.typed.as_str()) {
            Chip::Hidden
        } else {
            let lit = match s.hint_match {
                Some(k) => k == i,
                None => false,
            };
            Chip::Shown { faded, lit }
        };
        r.push(chip);
        assert(r@ =~= Seq::new((i + 1) as nat, |i: int| chip_of(*s, i)));
    }
    r
}

/// The rectangle of the selected element, which is outlined unless everything
/// is hidden.
pub fn outline(s: &State) -> (r: Option<PhysicalRect>)
    ensures
        r == match s.selected {
            Some(i) => if !s.hidden && i < s.hints@.len() {
                Some(s.hints@[i as int].rect)
            } else {
                None
            },
            None => None,
        },
{
    match s.selected {
        Some(i) => {
            if !s.hidden && i < s.hints.len() {
                Some(s.hints[i].rect)
            } else {
                None
            }
        },
        None => None,
    }
}

/// While the positions are stale nothing is shown.
pub proof fn law_hidden_overlay_shows_nothing(s: State, i: int)
    requires
        s.hidden,
        0 <= i < s.hints@.len(),
    ensures
        chip_of(s, i) == Chip::Hidden,
{
}

// ---- keys ----

/// A key press, as far as the overlay tells them apart.
#[derive(Debug, Clone, Copy, PartialEq, Eq, Structural)]
pub enum GestureKey {
    Escape,
    BackSpace,
    /// A key that stands for a character.
    Char(char),
    Other,
}

#[derive(Debug, Clone, Copy, PartialEq, Eq)]
pub enum KeyOutcome {
    Pending,
    Redraw,
    Finished(Option<usize>),
}

/// What a key does to the typed prefix, and what comes of it.
pub open spec fn pressed(labels: Seq<Seq<char>>, typed: Seq<char>, key: GestureKey) -> (
    Seq<char>,
    KeyOutcome,
) {
    match key {
        GestureKey::Escape => (typed, KeyOutcome::Finished(None)),
        GestureKey::BackSpace => if typed.len() > 0 {
            (typed.drop_last(), KeyOutcome::Redraw)
        } else {
            (typed, KeyOutcome::Pending)
        },
        GestureKey::Char(c) => {
            let found = reachable(labels, candidate(typed, c));
            if !alphanumeric(c) || found.len() == 0 {
                (typed, KeyOutcome::Pending)
            } else if found.len() == 1 {
                (typed, KeyOutcome::Finished(Some(found[0])))
            } else {
                (candidate(typed, c), KeyOutcome::Redraw)
            }
        },
        GestureKey::Other => (typed, KeyOutcome::Pending),
    }
}

/// Gesture-mode key semantics: Esc cancels, Backspace pops, an ASCII letter or
/// digit narrows the prefix (0 matches → ignored, 1 → selected, n → redraw).
pub fn handle_gesture_key(state: &mut State, key: GestureKey) -> (r: KeyOutcome)
    ensures
        (final(state).typed@, r) == pressed(labels_of(old(state).hints@), old(state).typed@, key),
        final(state).hints == old(state).hints,
        final(state).selected == old(state).selected,
        final(state).hint_match == old(state).hint_match,
        final(state).hidden == old(state).hidden,
{
    match key {
        GestureKey::Escape => KeyOutcome::Finished(None),
        GestureKey::BackSpace => {
            if state.typed.pop().is_some() {
                KeyOutcome::Redraw
            } else {
                KeyOutcome::Pending
            }
        },
        GestureKey::Char(c) => {
            if !is_alphanumeric(c) {
                return KeyOutcome::Pending;
            }
            match narrow(state.hints.as_slice(), &state.typed, c) {
                Narrowed::Ignored => KeyOutcome::Pending,
                Narrowed::Selected(i) => KeyOutcome::Finished(Some(i)),
                Narrowed::Prefix(longer) => {
                    state.typed = longer;
                    KeyOutcome::Redraw
                },
            }
        },
        GestureKey::Other => KeyOutcome::Pending,
    }
}

/// The hint that a finished selection stands for.
pub fn chosen(state: &State, selection: Option<usize>) -> (r: Option<Hint>)
    requires
        selection matches Some(i) ==> i < state.hints@.len(),
    ensures
        r == match selection {
            Some(i) => Some(state.hints@[i as int]),
            None => None,
        },
{
    match selection {
        Some(i) => Some(state.hints[i].clone()),
        None => None,
    }
}

/// A finished selection names one of the hints.
pub proof fn law_selection_is_a_hint(labels: Seq<Seq<char>>, typed: Seq<char>, key: GestureKey)
    requires
        labels.len() <= usize::MAX,
    ensures
        pressed(labels, typed, key).1 matches KeyOutcome::Finished(Some(i)) ==> i < labels.len(),
{
    if let GestureKey::Char(c) = key {
        lemma_reachable_has(labels, candidate(typed, c), labels.len(), 0);
    }
}

/// Backspace undoes a keystroke that narrowed the prefix.
pub proof fn law_backspace_undoes_a_keystroke(labels: Seq<Seq<char>>, typed: Seq<char>, c: char)
    requires
        pressed(labels, typed, GestureKey::Char(c)).1 == KeyOutcome::Redraw,
    ensures
        pressed(labels, pressed(labels, typed, GestureKey::Char(c)).0, GestureKey::BackSpace) == (
            typed,
            KeyOutcome::Redraw,
        ),
{
    assert(candidate(typed, c).drop_last() =~= typed);
}

/// A key that selects nothing and narrows nothing changes nothing.
pub proof fn law_ignored_keys_change_nothing(
    labels: Seq<Seq<char>>,
    typed: Seq<char>,
    key: GestureKey,
)
    requires
        pressed(labels, typed, key).1 != KeyOutcome::Redraw,
    ensures
        pressed(labels, typed, key).0 == typed,
{
}

/// What comes of pressing the keys one after the other, up to the one that
/// finishes the gesture; nothing does before the last.
pub open spec fn pressed_in_turn(labels: Seq<Seq<char>>, typed: Seq<char>, keys: Seq<char>) -> (
    Seq<char>,
    KeyOutcome,
)
    decreases keys.len(),
{
    if keys.len() == 0 {
        (typed, KeyOutcome::Pending)
    } else {
        let (longer, outcome) = pressed(labels, typed, GestureKey::Char(keys[0]));
        if outcome is Finished {
            (longer, outcome)
        } else {
            pressed_in_turn(labels, longer, keys.drop_first())
        }
    }
}

proof fn lemma_pressing_types(labels: Seq<Seq<char>>, typed: Seq<char>, keys: Seq<char>)
    requires
        forall|j: int| 0 <= j < keys.len() ==> alphanumeric(#[trigger] keys[j]),
        typing(labels, typed, keys) is Some,
    ensures
        pressed_in_turn(labels, typed, keys).1 == KeyOutcome::Finished(typing(labels, typed, keys)),
    decreases keys.len(),
{
    let rest = keys.drop_first();
    assert(alphanumeric(keys[0]));
    assert forall|j: int| 0 <= j < rest.len() implies alphanumeric(#[trigger] rest[j]) by {
        assert(rest[j] == keys[j + 1]);
    }
    let found = reachable(labels, candidate(typed, keys[0]));
    if found.len() == 0 {
        lemma_pressing_types(labels, typed, rest);
    } else if found.len() > 1 {
        lemma_pressing_types(labels, candidate(typed, keys[0]), rest);
    }
}

/// Pressing the keys of a label in turn, in either case, ends with its hint.
pub proof fn law_pressing_a_label_selects_its_hint(
    labels: Seq<Seq<char>>,
    i: int,
    keys: Seq<char>,
)
    requires
        usable(labels, labels.len()),
        labels.len() <= usize::MAX,
        0 <= i < labels.len(),
        types(keys, labels[i]),
        forall|j: int| 0 <= j < keys.len() ==> alphanumeric(#[trigger] keys[j]),
    ensures
        pressed_in_turn(labels, seq![], keys).1 == KeyOutcome::Finished(Some(i as usize)),
{
    law_typing_a_label_selects_its_hint(labels, i, keys);
    lemma_pressing_types(labels, seq![], keys);
}

/// Every hint of a window can be selected by pressing the keys of its label.
pub proof fn law_every_hint_can_be_pressed(n: nat, i: int)
    requires
        n <= usize::MAX,
        0 <= i < n,
    ensures
        pressed_in_turn(short_labels(n), seq![], short_labels(n)[i]).1 == KeyOutcome::Finished(
            Some(i as usize),
        ),
{
    law_short_labels_usable(n);
    lemma_short_labels_typed(n, i);
    law_pressing_a_label_selects_its_hint(short_labels(n), i, short_labels(n)[i]);
}

/// A chip is shown exactly where nothing hides it and its label begins with what
/// is typed; as many bytes as that has are faded, and it lights up only for the
/// hint that is typed out.
pub proof fn law_chips_follow_the_typed_prefix(s: State, i: int)
    requires
        0 <= i < s.hints@.len() <= usize::MAX,
        encode_utf8(s.typed@).len() <= usize::MAX,
    ensures
        ({
            let (typed, label) = (s.typed@, s.hints@[i].label@);
            let begins = typed.len() <= label.len() && forall|j: int|
                0 <= j < typed.len() ==> label[j] == #[trigger] typed[j];
            &&& chip_of(s, i) is Shown <==> !s.hidden && begins
            &&& chip_of(s, i) matches Chip::Shown { faded, lit } ==> {
                &&& faded == encode_utf8(typed).len()
                &&& lit <==> s.hint_match == Some(i as usize)
            }
        }),
{
    let (typed, label) = (s.typed@, s.hints@[i].label@);
    if typed.is_prefix_of(label) {
        assert forall|j: int| 0 <= j < typed.len() implies label[j] == #[trigger] typed[j] by {
            assert(label.subrange(0, typed.len() as int)[j] == label[j]);
        }
    }
    if typed.len() <= label.len() && forall|j: int|
        0 <= j < typed.len() ==> label[j] == #[trigger] typed[j] {
        assert(label.subrange(0, typed.len() as int) =~= typed);
    }
}

/// Escape ends the gesture without a selection, Backspace takes the last
/// character back where there is one, and neither any other key nor a character
/// that is no ASCII letter or digit does anything.
pub proof fn law_keys_of_a_gesture(labels: Seq<Seq<char>>, typed: Seq<char>, c: char)
    ensures
        pressed(labels, typed, GestureKey::Escape) == (typed, KeyOutcome::Finished(None)),
        pressed(labels, typed, GestureKey::Other) == (typed, KeyOutcome::Pending),
        typed.len() == 0 ==> pressed(labels, typed, GestureKey::BackSpace) == (
            typed,
            KeyOutcome::Pending,
        ),
        typed.len() > 0 ==> pressed(labels, typed, GestureKey::BackSpace) == (
            typed.take(typed.len() - 1),
            KeyOutcome::Redraw,
        ),
        !(48 <= c as u32 <= 57) && !(65 <= c as u32 <= 90) && !(97 <= c as u32 <= 122) ==> pressed(
            labels,
            typed,
            GestureKey::Char(c),
        ) == (typed, KeyOutcome::Pending),
{
    assert(typed.len() > 0 ==> typed.take(typed.len() - 1) =~= typed.drop_last());
}

/// What a letter or digit does: where exactly one label begins with the longer
/// prefix its hint is selected, where none does nothing happens, and where
/// several do the longer prefix stands.
pub proof fn law_characters_narrow_the_choice(
    labels: Seq<Seq<char>>,
    typed: Seq<char>,
    c: char,
    i: int,
    j: int,
)
    requires
        labels.len() <= usize::MAX,
        alphanumeric(c),
    ensures
        ({
            let longer = typed.push(ascii_lower(c));
            let (t, outcome) = pressed(labels, typed, GestureKey::Char(c));
            &&& sole(labels, longer, i) ==> outcome == KeyOutcome::Finished(Some(i as usize))
            &&& (forall|k: int| 0 <= k < labels.len() ==> !longer.is_prefix_of(#[trigger] labels[k]))
                ==> outcome == KeyOutcome::Pending && t == typed
            &&& 0 <= i < j < labels.len() && longer.is_prefix_of(labels[i]) && longer.is_prefix_of(
                labels[j],
            ) ==> outcome == KeyOutcome::Redraw && t == longer
        }),
{
    law_how_many_are_reachable(labels, typed.push(ascii_lower(c)), i, j);
}

} // verus!
