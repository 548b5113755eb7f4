//! The panel: a state machine that matches, ranks and acts on the targets.

use super::matching::{can_score, fuzzy_score, scorable, score, word_states, words_in, words_of};
use crate::hints::{leads_to, lemma_reachable_step, positions, reachable};
use crate::pointer::{BTN_LEFT, BTN_RIGHT};
use crate::rank::{lemma_ranked, ranked, sort_ranks, Rank};
use crate::text::{
    ascii_lowercase, is_ascii_text, lead, lemma_lead_is, lowercase, starts_with,
    to_lowercase,
};
use vstd::prelude::*;

verus! {

/// One wheel detent per scroll keypress (libinput convention).
pub const SCROLL_STEP: i32 = 15;

/// How long a click waits for a second `Return` to become a double click,
/// in milliseconds.
pub const GRACE_MS: u64 = 300;

/// The core's view of one target: enough to match, rank, and act on it.
#[derive(Debug)]
pub struct Item {
    /// Hint label (typing it selects the item).
    pub label: String,
    /// Element center, output-local physical px.
    pub center: (i32, i32),
    /// Fuzzy-search haystack (element name + role).
    pub text: String,
}

impl Clone for Item {
    fn clone(&self) -> (r: Item)
        ensures
            r == *self,
    {
        Item { label: self.label.clone(), center: self.center, text: self.text.clone() }
    }
}

/// Non-text keys the shell feeds the core.
#[derive(Debug, Clone, Copy, PartialEq, Eq, Structural)]
pub enum PanelKey {
    Return { ctrl: bool },
    Escape,
    Up,
    Down,
    ScrollUp,
    ScrollDown,
    ScrollLeft,
    ScrollRight,
    CtrlPressed,
    CtrlReleased,
    /// Any other key press (still disarms a pending Ctrl tap).
    Other,
}

#[derive(Debug, Clone)]
pub enum Event {
    /// The query entry's text changed.
    Query(String),
    Key(PanelKey),
    /// The double-click grace timer fired.
    GraceElapsed,
    /// Fresh items arrived from a re-scan after scrolling.
    NewHints(Vec<Item>),
}

/// Side effects for the shell to execute, in order.
#[derive(Debug, Clone, Copy, PartialEq, Eq)]
pub enum Effect {
    /// Selection/filter changed: re-render the list and hint chips.
    Redraw,
    /// Clear the query entry (round-trips as an `Event::Query("")`).
    ClearQuery,
    /// Warp the cursor to output-local physical (x, y).
    Warp(i32, i32),
    /// Click `button` at physical (x, y) (the shell warps there first).
    Click { button: u32, at: (i32, i32) },
    /// Scroll the focused window (the shell warps to its center first).
    Scroll { horizontal: bool, amount: i32 },
    /// Start the double-click grace timer.
    ArmGrace,
    /// Scrolling invalidated the element positions: re-scan the window and
    /// feed the result back as [`Event::NewHints`].
    Refetch,
    /// Interaction over.
    Finish(CoreOutcome),
}

#[derive(Debug, Clone, Copy, PartialEq, Eq)]
pub enum CoreOutcome {
    Dismissed { scrolls: u32, warped: bool },
    Clicked { index: usize, at: (i32, i32), double: bool },
    RightClicked { index: usize, at: (i32, i32) },
}

pub struct PanelCore {
    pub items: Vec<Item>,
    /// Entry text, lowercased once at intake (labels and matching are
    /// case-insensitive).
    pub query: String,
    /// Items whose hint labels start with the query — shown as their own
    /// "hints" section above the fuzzy matches. Empty when the query is.
    pub label_matches: Vec<usize>,
    /// Fuzzy-ranked items (all of them when the query is empty), excluding
    /// anything already in `label_matches`.
    pub fuzzy_matches: Vec<usize>,
    /// Cursor position within the combined (labels, then fuzzy) list.
    pub cursor: usize,
    /// The item whose hint label the query types out *exactly*, if any —
    /// only then does the hint chip light up.
    pub hint_match: Option<usize>,
    /// Armed by a bare Ctrl press; cleared by any other key.
    pub ctrl_tap_armed: bool,
    /// `Some(target index)` while the double-click grace window is open.
    pub grace: Option<usize>,
    /// Scrolling has invalidated the element positions: hints are cleared
    /// and selection disabled until a re-scan (on Ctrl release) lands.
    pub stale: bool,
    /// A re-scan is in flight (between [`Effect::Refetch`] and
    /// [`Event::NewHints`]) — shown in the status line.
    pub refetching: bool,
    pub scrolls: u32,
    pub warped: bool,
}

// ---- the model ----

/// What a panel is: its fields, with strings and lists as sequences.
#[verifier::ext_equal]
pub struct PanelState {
    pub items: Seq<Item>,
    pub query: Seq<char>,
    pub label_matches: Seq<usize>,
    pub fuzzy_matches: Seq<usize>,
    pub cursor: int,
    pub hint_match: Option<usize>,
    pub ctrl_tap_armed: bool,
    pub grace: Option<usize>,
    pub stale: bool,
    pub refetching: bool,
    pub scrolls: int,
    pub warped: bool,
}

impl View for PanelCore {
    type V = PanelState;

    open spec fn view(&self) -> PanelState {
        PanelState {
            items: self.items@,
            query: self.query@,
            label_matches: self.label_matches@,
            fuzzy_matches: self.fuzzy_matches@,
            cursor: self.cursor as int,
            hint_match: self.hint_match,
            ctrl_tap_armed: self.ctrl_tap_armed,
            grace: self.grace,
            stale: self.stale,
            refetching: self.refetching,
            scrolls: self.scrolls as int,
            warped: self.warped,
        }
    }
}

/// The labels of the items.
pub open spec fn item_labels(items: Seq<Item>) -> Seq<Seq<char>> {
    items.map_values(|item: Item| item.label@)
}

/// The item's label is not the query.
pub open spec fn not_typed_out(items: Seq<Item>, query: Seq<char>) -> spec_fn(usize) -> bool {
    |i: usize| items[i as int].label@ != query
}

/// The first of the listed items whose label is the query.
pub open spec fn typed_out(items: Seq<Item>, query: Seq<char>, hits: Seq<usize>) -> Option<usize> {
    let k = lead(hits, not_typed_out(items, query));
    if k < hits.len() {
        Some(hits[k as int])
    } else {
        None
    }
}

/// The score of an item, if it is among the fuzzy matches: the query matches
/// its text, and its label does not start with the query.
pub open spec fn item_score(query: Seq<char>, item: Item) -> Option<u32> {
    if query.is_prefix_of(item.label@) {
        None
    } else {
        fuzzy_score(query, item.text@)
    }
}

/// The scores of all items.
pub open spec fn all_scores(items: Seq<Item>, query: Seq<char>) -> Seq<Option<u32>> {
    items.map_values(|item: Item| item_score(query, item))
}

/// Those among the first `n` that have a score, each with it.
pub open spec fn scored(scores: Seq<Option<u32>>, n: nat) -> Seq<Rank>
    decreases n,
{
    if n == 0 {
        seq![]
    } else {
        let before = scored(scores, (n - 1) as nat);
        match scores[n - 1] {
            Some(s) => before.push(
                Rank { weight: s as u64, y: 0, x: 0, index: (n - 1) as usize },
            ),
            None => before,
        }
    }
}

/// Those that have a score: higher score first, and in their own order among
/// equals.
pub open spec fn best_first(scores: Seq<Option<u32>>) -> Seq<usize> {
    ranked(scored(scores, scores.len())).map_values(|r: Rank| r.index)
}

/// The items that the query matches but whose labels do not start with it,
/// the best match first.
pub open spec fn fuzzy_hits(items: Seq<Item>, query: Seq<char>) -> Seq<usize> {
    best_first(all_scores(items, query))
}

/// Whether the items can be listed for a query: nothing is searched while
/// they are stale, and no more than the limits of the matcher otherwise.
pub open spec fn listable(items: Seq<Item>, query: Seq<char>, stale: bool) -> bool {
    ||| stale
    ||| query.len() == 0
    ||| forall|i: int|
        0 <= i < items.len() && !query.is_prefix_of((#[trigger] items[i]).label@) ==> scorable(
            query,
            items[i].text@,
        )
}

/// What is known of the query that an entry text becomes: it is empty exactly
/// where the text is, and ASCII letters are put in lower case.
pub open spec fn taken_in(text: Seq<char>, query: Seq<char>) -> bool {
    &&& query == lowercase(text)
    &&& query.len() == 0 <==> text.len() == 0
    &&& is_ascii_text(text) ==> query == ascii_lowercase(text)
}

impl PanelState {
    /// A panel that was just opened: everything is listed, in order.
    pub open spec fn opened(items: Seq<Item>) -> PanelState {
        PanelState {
            items,
            query: seq![],
            label_matches: seq![],
            fuzzy_matches: positions(items.len()),
            cursor: 0,
            hint_match: None,
            ctrl_tap_armed: false,
            grace: None,
            stale: false,
            refetching: false,
            scrolls: 0,
            warped: false,
        }
    }

    /// The panel with its lists brought in line with items and query.
    pub open spec fn relisted(self) -> PanelState {
        if self.stale {
            PanelState {
                hint_match: None,
                label_matches: seq![],
                fuzzy_matches: seq![],
                ..self
            }
        } else if self.query.len() == 0 {
            PanelState {
                hint_match: None,
                label_matches: seq![],
                fuzzy_matches: positions(self.items.len()),
                ..self
            }
        } else {
            let hits = reachable(item_labels(self.items), self.query);
            PanelState {
                hint_match: typed_out(self.items, self.query, hits),
                label_matches: hits,
                fuzzy_matches: fuzzy_hits(self.items, self.query),
                ..self
            }
        }
    }

    /// The combined list: labels, then fuzzy matches.
    pub open spec fn listed(self) -> Seq<usize> {
        self.label_matches + self.fuzzy_matches
    }

    /// The item the action keys operate on.
    pub open spec fn selection(self) -> Option<usize> {
        if self.grace is Some {
            self.grace
        } else if self.hint_match is Some {
            self.hint_match
        } else if 0 <= self.cursor < self.listed().len() {
            Some(self.listed()[self.cursor])
        } else {
            None
        }
    }

    /// Where an item is.
    pub open spec fn place(self, i: usize) -> (i32, i32) {
        self.items[i as int].center
    }

    /// Every index refers to an item, stale items are neither listed nor
    /// matched, and the cursor is on the list where there is one.
    pub open spec fn wf(self) -> bool {
        &&& self.grace matches Some(i) ==> i < self.items.len()
        &&& self.hint_match matches Some(i) ==> i < self.items.len()
        &&& forall|k: int|
            0 <= k < self.label_matches.len() ==> (#[trigger] self.label_matches[k])
                < self.items.len()
        &&& forall|k: int|
            0 <= k < self.fuzzy_matches.len() ==> (#[trigger] self.fuzzy_matches[k])
                < self.items.len()
        &&& self.label_matches.len() + self.fuzzy_matches.len() <= self.items.len()
        &&& self.items.len() <= usize::MAX
        &&& self.listed().len() > 0 ==> 0 <= self.cursor < self.listed().len()
        &&& self.stale ==> self.label_matches.len() == 0 && self.fuzzy_matches.len() == 0
            && self.hint_match is None && self.grace is None
        &&& 0 <= self.scrolls <= u32::MAX
    }

    /// The panel with another query: relisted, and the cursor on top.
    pub open spec fn queried(self, query: Seq<char>) -> PanelState {
        PanelState { cursor: 0, ..PanelState { query, ..self }.relisted() }
    }

    /// The cursor moved by one, down or up, if there is anywhere to go. An
    /// explicit move overrides a hint match.
    pub open spec fn cursor_moved(self, down: bool) -> (PanelState, Seq<Effect>) {
        let n = self.listed().len();
        let to = if down {
            if self.cursor + 1 < n {
                self.cursor + 1
            } else {
                n - 1
            }
        } else if self.cursor > 0 {
            self.cursor - 1
        } else {
            0
        };
        if n == 0 || (to == self.cursor && self.hint_match is None) {
            (self, seq![])
        } else {
            (PanelState { cursor: to, hint_match: None, ..self }, seq![Effect::Redraw])
        }
    }

    /// Scrolled once. The first scroll invalidates every element position:
    /// the lists are cleared until a re-scan arrives.
    pub open spec fn scrolled(self, horizontal: bool, amount: i32) -> (PanelState, Seq<Effect>) {
        let counted = PanelState { scrolls: self.scrolls + 1, ..self };
        if self.stale {
            (counted, seq![Effect::Scroll { horizontal, amount }])
        } else {
            (
                PanelState { stale: true, ..counted }.relisted(),
                seq![Effect::Scroll { horizontal, amount }, Effect::Redraw],
            )
        }
    }

    /// What a key does.
    pub open spec fn keyed(self, key: PanelKey) -> (PanelState, Seq<Effect>) {
        match key {
            PanelKey::Escape => if self.query.len() == 0 {
                (
                    self,
                    seq![
                        Effect::Finish(
                            CoreOutcome::Dismissed {
                                scrolls: self.scrolls as u32,
                                warped: self.warped,
                            },
                        ),
                    ],
                )
            } else {
                (self, seq![Effect::ClearQuery])
            },
            PanelKey::Return { ctrl } => match self.selection() {
                None => (self, seq![]),
                Some(index) => {
                    let at = self.place(index);
                    if ctrl {
                        (
                            self,
                            seq![
                                Effect::Click { button: BTN_RIGHT, at },
                                Effect::Finish(CoreOutcome::RightClicked { index, at }),
                            ],
                        )
                    } else {
                        (
                            PanelState { grace: Some(index), ..self },
                            seq![
                                Effect::Click { button: BTN_LEFT, at },
                                Effect::ArmGrace,
                                Effect::Redraw,
                            ],
                        )
                    }
                },
            },
            PanelKey::Up => self.cursor_moved(false),
            PanelKey::Down => self.cursor_moved(true),
            PanelKey::ScrollUp => self.scrolled(false, (-SCROLL_STEP) as i32),
            PanelKey::ScrollDown => self.scrolled(false, SCROLL_STEP),
            PanelKey::ScrollLeft => self.scrolled(true, (-SCROLL_STEP) as i32),
            PanelKey::ScrollRight => self.scrolled(true, SCROLL_STEP),
            PanelKey::CtrlPressed => (PanelState { ctrl_tap_armed: true, ..self }, seq![]),
            PanelKey::CtrlReleased => {
                let disarmed = PanelState { ctrl_tap_armed: false, ..self };
                if self.stale {
                    (
                        PanelState { refetching: true, ..disarmed },
                        seq![Effect::Redraw, Effect::Refetch],
                    )
                } else if !self.ctrl_tap_armed || self.selection() is None {
                    (disarmed, seq![])
                } else {
                    let at = self.place(self.selection()->0);
                    (PanelState { warped: true, ..disarmed }, seq![Effect::Warp(at.0, at.1)])
                }
            },
            PanelKey::Other => (self, seq![]),
        }
    }

    /// The panel as an event finds it: a pending Ctrl tap survives only a bare
    /// press and release.
    pub open spec fn touched(self, event: Event) -> PanelState {
        match event {
            Event::Key(PanelKey::CtrlPressed)
            | Event::Key(PanelKey::CtrlReleased)
            | Event::GraceElapsed => self,
            _ => PanelState { ctrl_tap_armed: false, ..self },
        }
    }

    /// What an event does.
    pub open spec fn step(self, event: Event) -> (PanelState, Seq<Effect>) {
        let s = self.touched(event);
        match s.grace {
            // The click was already sent; only a second Return (double click),
            // Escape, or the timer finish the interaction.
            Some(index) => {
                let at = s.place(index);
                match event {
                    Event::Key(PanelKey::Return { ctrl: false }) => (
                        s,
                        seq![
                            Effect::Click { button: BTN_LEFT, at },
                            Effect::Finish(CoreOutcome::Clicked { index, at, double: true }),
                        ],
                    ),
                    Event::GraceElapsed | Event::Key(PanelKey::Escape) => (
                        s,
                        seq![Effect::Finish(CoreOutcome::Clicked { index, at, double: false })],
                    ),
                    _ => (s, seq![]),
                }
            },
            None => match event {
                Event::GraceElapsed => (s, seq![]),
                Event::Query(q) => (s.queried(lowercase(q@)), seq![Effect::Redraw]),
                Event::NewHints(items) => (
                    PanelState {
                        cursor: 0,
                        ..PanelState {
                            items: items@,
                            stale: false,
                            refetching: false,
                            ..s
                        }.relisted()
                    },
                    seq![Effect::Redraw],
                ),
                Event::Key(key) => s.keyed(key),
            },
        }
    }

    /// The event is within the limits of the scroll counter and the matcher.
    pub open spec fn admits(self, event: Event) -> bool {
        self.grace is Some || match event {
            Event::Query(q) => listable(self.items, lowercase(q@), self.stale),
            Event::NewHints(items) => listable(items@, self.query, false),
            Event::Key(PanelKey::ScrollUp)
            | Event::Key(PanelKey::ScrollDown)
            | Event::Key(PanelKey::ScrollLeft)
            | Event::Key(PanelKey::ScrollRight) => self.scrolls < u32::MAX,
            _ => true,
        }
    }
}

// ---- listing ----

/// The positions of `n` items, in order.
fn all_positions(n: usize) -> (r: Vec<usize>)
    ensures
        r@ == positions(n as nat),
{
    let mut r: Vec<usize> = Vec::new();
    for i in 0..n
        invariant
            r@ == positions(i as nat),
    {
        r.push(i);
        assert(r@ =~= positions((i + 1) as nat));
    }
    r
}

/// The items whose labels start with the query, in order.
pub fn list_labels(items: &Vec<Item>, query: &str) -> (r: Vec<usize>)
    ensures
        r@ == reachable(item_labels(items@), query@),
{
    let ghost labels = item_labels(items@);
    let mut r: Vec<usize> = Vec::new();
    assert(positions(0).filter(leads_to(labels, query@)) =~= r@) by {
        reveal(Seq::filter);
    }
    for i in 0..items.len()
        invariant
            labels == item_labels(items@),
            r@ == positions(i as nat).filter(leads_to(labels, query@)),
    {
        proof {
            lemma_reachable_step(labels, query@, i as nat);
        }
        if starts_with(items[i].label.as_str(), query) {
            r.push(i);
        }
    }
    r
}

/// The first of the listed items whose label is the query.
pub fn find_typed_out(items: &Vec<Item>, query: &String, hits: &Vec<usize>) -> (r: Option<usize>)
    requires
        forall|k: int| 0 <= k < hits@.len() ==> (#[trigger] hits@[k]) < items@.len(),
    ensures
        r == typed_out(items@, query@, hits@),
{
    for k in 0..hits.len()
        invariant
            forall|j: int| 0 <= j < hits@.len() ==> (#[trigger] hits@[j]) < items@.len(),
            forall|j: int| 0 <= j < k ==> not_typed_out(items@, query@)(#[trigger] hits@[j]),
    {
        let i = hits[k];
        if items[i].label == *query {
            proof {
                lemma_lead_is(hits@, not_typed_out(items@, query@), k as int);
            }
            return Some(i);
        }
    }
    proof {
        lemma_lead_is(hits@, not_typed_out(items@, query@), hits@.len() as int);
    }
    None
}

/// Those that have a score: higher score first, and in their own order among
/// equals.
pub fn rank_matches(scores: &Vec<Option<u32>>) -> (r: Vec<usize>)
    ensures
        r@ == best_first(scores@),
{
    let mut found: Vec<Rank> = Vec::new();
    for i in 0..scores.len()
        invariant
            found@ == scored(scores@, i as nat),
    {
        if let Some(s) = scores[i] {
            found.push(Rank { weight: s as u64, y: 0, x: 0, index: i });
        }
    }
    let sorted = sort_ranks(&found);
    let mut r: Vec<usize> = Vec::new();
    for k in 0..sorted.len()
        invariant
            r@ == sorted@.take(k as int).map_values(|r: Rank| r.index),
    {
        r.push(sorted[k].index);
        assert(r@ =~= sorted@.take(k + 1).map_values(|r: Rank| r.index));
    }
    assert(sorted@.take(sorted@.len() as int) =~= sorted@);
    r
}

/// The items that the query matches but whose labels do not start with it,
/// the best match first.
fn list_matches(items: &Vec<Item>, query: &str) -> (r: Vec<usize>)
    requires
        query@.len() > 0,
        listable(items@, query@, false),
    ensures
        r@ == fuzzy_hits(items@, query@),
{
    let mut scores: Vec<Option<u32>> = Vec::new();
    for i in 0..items.len()
        invariant
            query@.len() > 0,
            listable(items@, query@, false),
            scores@ == all_scores(items@, query@).take(i as int),
    {
        let item = &items[i];
        // Already listed among the labels otherwise.
        let found = if starts_with(item.label.as_str(), query) {
            None
        } else {
            assert(scorable(query@, items@[i as int].text@));
            score(query, item.text.as_str())
        };
        scores.push(found);
        assert(scores@ =~= all_scores(items@, query@).take(i + 1));
    }
    assert(scores@ =~= all_scores(items@, query@));
    rank_matches(&scores)
}

/// Whether the items can be listed for a query.
fn can_list(items: &Vec<Item>, query: &str, stale: bool) -> (r: bool)
    ensures
        r == listable(items@, query@, stale),
{
    if stale || query.is_empty() {
        return true;
    }
    let words = words_of(query);
    for i in 0..items.len()
        invariant
            query@.len() > 0,
            !stale,
            word_states(words@) == words_in(query@),
            forall|j: int|
                0 <= j < i && !query@.is_prefix_of((#[trigger] items@[j]).label@) ==> scorable(
                    query@,
                    items@[j].text@,
                ),
    {
        let item = &items[i];
        if !starts_with(item.label.as_str(), query) && !can_score(&words, item.text.as_str()) {
            assert(!scorable(query@, items@[i as int].text@));
            return false;
        }
    }
    true
}

/// The lists refer to items, and have no more entries than there are items.
pub proof fn lemma_counts(items: Seq<Item>, query: Seq<char>, n: nat)
    requires
        n <= items.len(),
        items.len() <= usize::MAX,
    ensures
        positions(n).filter(leads_to(item_labels(items), query)).len() + scored(
            all_scores(items, query),
            n,
        ).len() <= n,
        forall|k: int|
            0 <= k < positions(n).filter(leads_to(item_labels(items), query)).len()
                ==> (#[trigger] positions(n).filter(leads_to(item_labels(items), query))[k]) < n,
        forall|k: int|
            0 <= k < scored(all_scores(items, query), n).len() ==> (#[trigger] scored(
                all_scores(items, query),
                n,
            )[k]).index < n,
    decreases n,
{
    reveal(Seq::filter);
    if n > 0 {
        let m = (n - 1) as nat;
        lemma_counts(items, query, m);
        lemma_reachable_step(item_labels(items), query, m);
    }
}

/// What relisting lists are items.
pub proof fn lemma_relisted(s: PanelState)
    requires
        s.items.len() <= usize::MAX,
    ensures
        ({
            let t = s.relisted();
            &&& t.label_matches.len() + t.fuzzy_matches.len() <= t.items.len()
            &&& forall|k: int|
                0 <= k < t.label_matches.len() ==> (#[trigger] t.label_matches[k]) < t.items.len()
            &&& forall|k: int|
                0 <= k < t.fuzzy_matches.len() ==> (#[trigger] t.fuzzy_matches[k]) < t.items.len()
            &&& t.hint_match matches Some(i) ==> i < t.items.len()
        }),
{
    if !s.stale && s.query.len() > 0 {
        let found = scored(all_scores(s.items, s.query), s.items.len());
        let hits = reachable(item_labels(s.items), s.query);
        lemma_counts(s.items, s.query, s.items.len());
        lemma_ranked(found);
        assert forall|k: int| 0 <= k < ranked(found).len() implies (#[trigger] ranked(
            found,
        )[k]).index < s.items.len() by {
            assert(ranked(found).contains(ranked(found)[k]));
            assert(found.contains(ranked(found)[k]));
        }
        let k = lead(hits, not_typed_out(s.items, s.query));
        if k < hits.len() {
            assert(hits[k as int] < s.items.len());
        }
    }
}

// ---- the panel ----

impl PanelCore {
    pub fn new(items: Vec<Item>) -> (r: PanelCore)
        ensures
            r@ == PanelState::opened(items@),
            r@.wf(),
    {
        let fuzzy_matches = all_positions(items.len());
        let r = PanelCore {
            items,
            query: String::new(),
            label_matches: Vec::new(),
            fuzzy_matches,
            cursor: 0,
            hint_match: None,
            ctrl_tap_armed: false,
            grace: None,
            stale: false,
            refetching: false,
            scrolls: 0,
            warped: false,
        };
        assert(r@.query =~= seq![]);
        r
    }

    /// The item the action keys operate on: the grace target while a click is
    /// pending, else a typed-out hint, else the list cursor.
    pub fn selected(&self) -> (r: Option<usize>)
        requires
            self@.wf(),
        ensures
            r == self@.selection(),
            r matches Some(i) ==> i < self@.items.len(),
    {
        if self.grace.is_some() {
            self.grace
        } else if self.hint_match.is_some() {
            self.hint_match
        } else {
            self.combined(self.cursor)
        }
    }

    /// Item at `pos` of the combined (labels, then fuzzy) list.
    fn combined(&self, pos: usize) -> (r: Option<usize>)
        requires
            self@.wf(),
        ensures
            r == if pos < self@.listed().len() {
                Some(self@.listed()[pos as int])
            } else {
                None
            },
            r matches Some(i) ==> i < self@.items.len(),
    {
        if pos < self.label_matches.len() {
            Some(self.label_matches[pos])
        } else if pos - self.label_matches.len() < self.fuzzy_matches.len() {
            Some(self.fuzzy_matches[pos - self.label_matches.len()])
        } else {
            None
        }
    }

    fn combined_len(&self) -> (r: usize)
        requires
            self@.wf(),
        ensures
            r == self@.listed().len(),
    {
        self.label_matches.len() + self.fuzzy_matches.len()
    }

    fn refilter(&mut self)
        requires
            listable(old(self)@.items, old(self)@.query, old(self)@.stale),
        ensures
            final(self)@ == old(self)@.relisted(),
    {
        // Stale items have invalid positions; nothing is listed or matchable
        // until the re-scan replaces them.
        if self.stale {
            self.hint_match = None;
            self.label_matches = Vec::new();
            self.fuzzy_matches = Vec::new();
            assert(self@ =~= old(self)@.relisted());
            return;
        }
        if self.query.as_str().is_empty() {
            self.hint_match = None;
            self.label_matches = Vec::new();
            self.fuzzy_matches = all_positions(self.items.len());
            assert(self@ =~= old(self)@.relisted());
            return;
        }
        let n = self.items.len();
        proof {
            assert(self@.items.len() == n);
            lemma_relisted(self@);
        }
        // Hints the query is typing towards get their own section; the chip
        // highlight engages only once the label is typed out exactly.
        self.label_matches = list_labels(&self.items, self.query.as_str());
        self.hint_match = find_typed_out(&self.items, &self.query, &self.label_matches);
        self.fuzzy_matches = list_matches(&self.items, self.query.as_str());
    }

    /// List the items for a query that is in lower case already.
    pub fn set_query(&mut self, query: String)
        requires
            old(self)@.wf(),
            listable(old(self)@.items, query@, old(self)@.stale),
        ensures
            final(self)@ == old(self)@.queried(query@),
            final(self)@.wf(),
    {
        self.query = query;
        proof {
            lemma_relisted(self@);
        }
        self.refilter();
        self.cursor = 0;
    }

    fn move_cursor(&mut self, down: bool) -> (r: Vec<Effect>)
        requires
            old(self)@.wf(),
        ensures
            (final(self)@, r@) == old(self)@.cursor_moved(down),
            final(self)@.wf(),
    {
        let n = self.combined_len();
        if n == 0 {
            return vec![];
        }
        let new: usize = if down {
            if self.cursor < n - 1 {
                self.cursor + 1
            } else {
                n - 1
            }
        } else if self.cursor > 0 {
            self.cursor - 1
        } else {
            0
        };
        if new == self.cursor && self.hint_match.is_none() {
            return vec![];
        }
        self.cursor = new;
        // Explicit navigation overrides a hint match.
        self.hint_match = None;
        vec![Effect::Redraw]
    }

    fn scroll(&mut self, horizontal: bool, amount: i32) -> (r: Vec<Effect>)
        requires
            old(self)@.wf(),
            old(self)@.scrolls < u32::MAX,
            old(self)@.grace is None,
        ensures
            (final(self)@, r@) == old(self)@.scrolled(horizontal, amount),
            final(self)@.wf(),
    {
        self.scrolls = self.scrolls + 1;
        // The first scroll invalidates every element position: clear the
        // hints and the list until the post-scroll re-scan arrives.
        if !self.stale {
            self.stale = true;
            self.refilter();
            return vec![Effect::Scroll { horizontal, amount }, Effect::Redraw];
        }
        vec![Effect::Scroll { horizontal, amount }]
    }

    fn on_key(&mut self, key: PanelKey) -> (r: Vec<Effect>)
        requires
            old(self)@.wf(),
            old(self)@.admits(Event::Key(key)),
            old(self)@.grace is None,
        ensures
            (final(self)@, r@) == old(self)@.keyed(key),
            final(self)@.wf(),
    {
        match key {
            PanelKey::Escape => {
                if self.query.as_str().is_empty() {
                    vec![
                        Effect::Finish(
                            CoreOutcome::Dismissed { scrolls: self.scrolls, warped: self.warped },
                        ),
                    ]
                } else {
                    vec![Effect::ClearQuery]
                }
            },
            PanelKey::Return { ctrl } => {
                let Some(index) = self.selected() else {
                    return vec![];
                };
                let at = self.items[index].center;
                if ctrl {
                    vec![
                        Effect::Click { button: BTN_RIGHT, at },
                        Effect::Finish(CoreOutcome::RightClicked { index, at }),
                    ]
                } else {
                    self.grace = Some(index);
                    vec![
                        Effect::Click { button: BTN_LEFT, at },
                        Effect::ArmGrace,
                        Effect::Redraw,
                    ]
                }
            },
            PanelKey::Up => self.move_cursor(false),
            PanelKey::Down => self.move_cursor(true),
            PanelKey::ScrollUp => self.scroll(false, -SCROLL_STEP),
            PanelKey::ScrollDown => self.scroll(false, SCROLL_STEP),
            PanelKey::ScrollLeft => self.scroll(true, -SCROLL_STEP),
            PanelKey::ScrollRight => self.scroll(true, SCROLL_STEP),
            PanelKey::CtrlPressed => {
                self.ctrl_tap_armed = true;
                vec![]
            },
            PanelKey::CtrlReleased => {
                let armed = self.ctrl_tap_armed;
                self.ctrl_tap_armed = false;
                // Letting go of Ctrl after scrolling: positions are invalid,
                // ask for a re-scan.
                if self.stale {
                    self.refetching = true;
                    return vec![Effect::Redraw, Effect::Refetch];
                }
                if !armed {
                    return vec![];
                }
                let Some(index) = self.selected() else {
                    return vec![];
                };
                self.warped = true;
                let (x, y) = self.items[index].center;
                vec![Effect::Warp(x, y)]
            },
            PanelKey::Other => vec![],
        }
    }

    /// React to an event that is within the limits of the panel.
    pub fn on_event(&mut self, event: Event) -> (r: Vec<Effect>)
        requires
            old(self)@.wf(),
            old(self)@.admits(event),
        ensures
            (final(self)@, r@) == old(self)@.step(event),
            final(self)@.wf(),
            event matches Event::Query(q) ==> old(self)@.grace is None ==> taken_in(
                q@,
                final(self)@.query,
            ),
    {
        // A pending Ctrl tap survives only a bare press+release.
        match event {
            Event::Key(PanelKey::CtrlPressed)
            | Event::Key(PanelKey::CtrlReleased)
            | Event::GraceElapsed => {},
            _ => {
                self.ctrl_tap_armed = false;
            },
        }
        assert(self@ == old(self)@.touched(event));

        // Grace window open: the click was already sent; only a second Return
        // (double click), Escape, or the timer finish the interaction.
        if let Some(index) = self.grace {
            let at = self.items[index].center;
            return match event {
                Event::Key(PanelKey::Return { ctrl: false }) => vec![
                    Effect::Click { button: BTN_LEFT, at },
                    Effect::Finish(CoreOutcome::Clicked { index, at, double: true }),
                ],
                Event::GraceElapsed | Event::Key(PanelKey::Escape) => vec![
                    Effect::Finish(CoreOutcome::Clicked { index, at, double: false }),
                ],
                _ => vec![],
            };
        }

        match event {
            // An expired timer with no grace open.
            Event::GraceElapsed => vec![],
            Event::Query(q) => {
                self.set_query(to_lowercase(q.as_str()));
                vec![Effect::Redraw]
            },
            Event::NewHints(items) => {
                let n = items.len();
                self.items = items;
                self.stale = false;
                self.refetching = false;
                self.hint_match = None;
                proof {
                    assert(self@.items.len() == n);
                    lemma_relisted(self@);
                }
                self.refilter();
                self.cursor = 0;
                vec![Effect::Redraw]
            },
            Event::Key(key) => self.on_key(key),
        }
    }

    /// React to an event, or to none that is beyond the limits of the panel:
    /// that one changes nothing.
    pub fn offer(&mut self, event: Event) -> (r: Option<Vec<Effect>>)
        requires
            old(self)@.wf(),
        ensures
            r is Some <==> old(self)@.admits(event),
            r matches Some(effects) ==> (final(self)@, effects@) == old(self)@.step(event),
            r is None ==> final(self)@ == old(self)@,
            final(self)@.wf(),
            event matches Event::Query(q) ==> r is Some ==> old(self)@.grace is None ==> taken_in(
                q@,
                final(self)@.query,
            ),
    {
        let admitted = self.grace.is_some() || match &event {
            Event::Query(q) => {
                let query = to_lowercase(q.as_str());
                can_list(&self.items, query.as_str(), self.stale)
            },
            Event::NewHints(items) => can_list(items, self.query.as_str(), false),
            Event::Key(PanelKey::ScrollUp)
            | Event::Key(PanelKey::ScrollDown)
            | Event::Key(PanelKey::ScrollLeft)
            | Event::Key(PanelKey::ScrollRight) => self.scrolls < u32::MAX,
            _ => true,
        };
        if admitted {
            Some(self.on_event(event))
        } else {
            None
        }
    }
}

} // verus!
