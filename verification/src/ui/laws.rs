//! What holds of the panel as a whole: over every state it can reach, over
//! several events, over whole interactions.

use super::matching::{fuzzy_score, scorable};
use super::panel::{
    all_scores, best_first, fuzzy_hits, item_labels, item_score, lemma_relisted,
    not_typed_out, scored, taken_in, CoreOutcome, Effect, Event, Item, PanelCore, PanelKey, PanelState,
};
use crate::hints::{lemma_reachable_has, reachable};
use crate::pointer::BTN_LEFT;
use crate::rank::{by_rank, lemma_ranked, ranked, Rank};
use crate::hints::typing::lemma_reachable_ascends;
use crate::text::{ascii_lower, lead, lemma_lead, lemma_lead_is, lowercase};
use vstd::prelude::*;

verus! {

/// The effect ends the interaction.
pub open spec fn finishes(e: Effect) -> bool {
    e is Finish
}

/// The effect acts on a target.
pub open spec fn acts(e: Effect) -> bool {
    e is Click || e is Warp
}

/// A panel stays well-formed: every index refers to an item, stale items are
/// neither listed nor matched, and the cursor is on the list.
pub proof fn law_events_keep_the_panel_well_formed(s: PanelState, event: Event)
    requires
        s.wf(),
        s.admits(event),
        event matches Event::NewHints(items) ==> items@.len() <= usize::MAX,
    ensures
        s.step(event).0.wf(),
{
    let t = s.touched(event);
    match event {
        Event::Query(q) => {
            lemma_relisted(PanelState { query: lowercase(q@), ..t });
        },
        Event::NewHints(items) => {
            lemma_relisted(PanelState { items: items@, stale: false, refetching: false, ..t });
        },
        _ => {},
    }
}

/// The lists are those of the items and the query, and a hint match, where
/// there is one, is the item whose label the query types out.
pub open spec fn in_line(s: PanelState) -> bool {
    &&& s.label_matches == s.relisted().label_matches
    &&& s.fuzzy_matches == s.relisted().fuzzy_matches
    &&& s.hint_match is Some ==> s.hint_match == s.relisted().hint_match
}

/// The lists always follow the items and the query: from the start, and after
/// every event.
pub proof fn law_lists_follow_the_query(s: PanelState, event: Event, items: Seq<Item>)
    ensures
        in_line(PanelState::opened(items)),
        in_line(s) ==> in_line(s.step(event).0),
{
}

/// Nothing can be selected while the positions are stale.
pub proof fn law_stale_items_cannot_be_selected(s: PanelState)
    requires
        s.wf(),
        s.stale,
    ensures
        s.selection() is None,
        s.listed().len() == 0,
{
}

/// A key that scrolls.
pub open spec fn scroll_key(key: PanelKey) -> bool {
    key is ScrollUp || key is ScrollDown || key is ScrollLeft || key is ScrollRight
}

/// The first scroll makes the positions stale. They stay so, whatever else
/// happens, until fresh items arrive; letting go of Ctrl asks for them.
pub proof fn law_scrolling_invalidates_until_rescan(s: PanelState, key: PanelKey, event: Event)
    requires
        s.wf(),
        s.grace is None,
    ensures
        scroll_key(key) ==> {
            let t = s.step(Event::Key(key)).0;
            t.stale && t.listed().len() == 0 && t.selection() is None
        },
        s.stale && !(event is NewHints) ==> s.step(event).0.stale && s.step(event).0.selection()
            is None,
        s.stale ==> s.step(Event::Key(PanelKey::CtrlReleased)).1 == seq![
            Effect::Redraw,
            Effect::Refetch,
        ],
{
    let t = s.step(event).0;
    if s.stale && !(event is NewHints) {
        assert(t.listed().len() == 0);
    }
}

/// Nothing is listed, matched or clicked while the positions are stale.
pub open spec fn idle(s: PanelState) -> bool {
    s.stale && s.listed().len() == 0 && s.hint_match is None && s.grace is None
}

/// After a scroll, and whatever else happens before fresh items arrive, nothing
/// can be selected: Return and the arrows do nothing, a query is only shown,
/// and letting go of Ctrl asks for a re-scan and never warps.
pub proof fn law_scrolled_panel_waits_for_rescan(s: PanelState, key: PanelKey, events: Seq<Event>)
    requires
        s.wf(),
        s.grace is None,
        scroll_key(key),
        forall|k: int| 0 <= k < events.len() ==> !(#[trigger] events[k] is NewHints),
    ensures
        ({
            let t = run(s.step(Event::Key(key)).0, events).0;
            &&& idle(t) && t.selection() is None
            &&& forall|ctrl: bool|
                #[trigger] t.step(Event::Key(PanelKey::Return { ctrl })).1 == Seq::<
                    Effect,
                >::empty()
            &&& t.step(Event::Key(PanelKey::Up)).1 == Seq::<Effect>::empty()
            &&& t.step(Event::Key(PanelKey::Down)).1 == Seq::<Effect>::empty()
            &&& forall|q: String| #[trigger] t.step(Event::Query(q)).1 == seq![Effect::Redraw]
            &&& t.step(Event::Key(PanelKey::CtrlReleased)).1 == seq![
                Effect::Redraw,
                Effect::Refetch,
            ]
        }),
    decreases events.len(),
{
    let first = s.step(Event::Key(key)).0;
    if events.len() == 0 {
        assert(first.listed().len() == 0);
    } else {
        let front = events.drop_last();
        assert forall|k: int| 0 <= k < front.len() implies !(#[trigger] front[k] is NewHints) by {
            assert(front[k] == events[k]);
        }
        law_scrolled_panel_waits_for_rescan(s, key, front);
        let t = run(first, front).0;
        assert(events.last() == events[events.len() - 1]);
        assert(t.step(events.last()).0.listed().len() == 0);
    }
}

/// Fresh items are listed for the standing query, just as if the query were
/// typed into a panel opened with them.
pub proof fn law_new_hints_reapply_the_query(s: PanelState, items: Vec<Item>, q: String)
    requires
        s.grace is None,
        lowercase(q@) == s.query,
    ensures
        ({
            let (t, effects) = s.step(Event::NewHints(items));
            let fresh = PanelState::opened(items@).step(Event::Query(q)).0;
            &&& effects == seq![Effect::Redraw]
            &&& !t.stale && !t.refetching
            &&& t.items == items@ && t.query == s.query
            &&& t.label_matches == fresh.label_matches
            &&& t.fuzzy_matches == fresh.fuzzy_matches
            &&& t.hint_match == fresh.hint_match
            &&& t.cursor == fresh.cursor
            &&& t.selection() == fresh.selection()
        }),
{
}

/// No two items have the same label.
pub open spec fn labels_differ(items: Seq<Item>) -> bool {
    forall|i: int, j: int|
        #![trigger items[i], items[j]]
        0 <= i < items.len() && 0 <= j < items.len() && i != j ==> items[i].label@
            != items[j].label@
}

/// Typing a label out selects its item, whatever the rest of the list holds.
pub proof fn law_typed_out_label_is_selected(s: PanelState, q: String, i: int)
    requires
        s.grace is None,
        !s.stale,
        s.items.len() <= usize::MAX,
        labels_differ(s.items),
        0 <= i < s.items.len(),
        lowercase(q@) == s.items[i].label@,
        lowercase(q@).len() > 0,
    ensures
        ({
            let (t, effects) = s.step(Event::Query(q));
            &&& t.hint_match == Some(i as usize)
            &&& t.selection() == Some(i as usize)
            &&& t.label_matches.contains(i as usize)
            &&& effects == seq![Effect::Redraw]
        }),
{
    let query = lowercase(q@);
    let labels = item_labels(s.items);
    let hits = reachable(labels, query);
    let p = not_typed_out(s.items, query);
    lemma_reachable_has(labels, query, labels.len(), i);
    let k = choose|k: int| 0 <= k < hits.len() && hits[k] == i as usize;
    lemma_lead(hits, p);
    if lead(hits, p) > k {
        assert(p(hits[k]));
    }
    let found = hits[lead(hits, p) as int];
    assert(!p(found));
    assert(s.items[found as int].label@ == s.items[i].label@);
}

/// A hint match is never engaged by anything but the exact label.
pub proof fn law_hint_match_is_typed_out(s: PanelState, i: usize)
    requires
        in_line(s),
        s.items.len() <= usize::MAX,
        s.hint_match == Some(i),
    ensures
        i < s.items.len(),
        s.items[i as int].label@ == s.query,
        s.query.len() > 0,
        s.label_matches.contains(i),
{
    let labels = item_labels(s.items);
    let hits = reachable(labels, s.query);
    let p = not_typed_out(s.items, s.query);
    lemma_lead(hits, p);
    lemma_reachable_has(labels, s.query, labels.len(), 0);
    let k = lead(hits, p) as int;
    assert(hits[k] == i);
    assert(!p(hits[k]));
}

/// What [`scored`] holds: each one with a score, once, with it.
proof fn lemma_scored(scores: Seq<Option<u32>>, n: nat)
    requires
        n <= scores.len(),
        scores.len() <= usize::MAX,
    ensures
        forall|k: int|
            0 <= k < scored(scores, n).len() ==> {
                let r = #[trigger] scored(scores, n)[k];
                &&& r.index < n
                &&& scores[r.index as int] == Some(r.weight as u32)
                &&& r.weight <= u32::MAX
                &&& r.y == 0 && r.x == 0
            },
        forall|a: int, b: int|
            0 <= a < b < scored(scores, n).len() ==> (#[trigger] scored(scores, n)[a]).index < (
            #[trigger] scored(scores, n)[b]).index,
        forall|i: int|
            0 <= i < n && (#[trigger] scores[i]) is Some ==> scored(scores, n).contains(
                Rank { weight: scores[i]->0 as u64, y: 0, x: 0, index: i as usize },
            ),
    decreases n,
{
    if n > 0 {
        let m = (n - 1) as nat;
        lemma_scored(scores, m);
        let before = scored(scores, m);
        let after = scored(scores, n);
        assert forall|i: int| 0 <= i < n && (#[trigger] scores[i]) is Some implies after.contains(
            Rank { weight: scores[i]->0 as u64, y: 0, x: 0, index: i as usize },
        ) by {
            let r = Rank { weight: scores[i]->0 as u64, y: 0, x: 0, index: i as usize };
            if i == m {
                assert(after[after.len() - 1] == r);
            } else {
                let k = choose|k: int| 0 <= k < before.len() && before[k] == r;
                assert(after[k] == r);
            }
        }
    }
}

/// Whatever the scores: exactly those with one are listed, each once, the
/// higher score first, and in their own order among equals.
pub proof fn law_ranking_is_by_score(scores: Seq<Option<u32>>, i: usize)
    requires
        scores.len() <= usize::MAX,
    ensures
        best_first(scores).contains(i) <==> i < scores.len() && scores[i as int] is Some,
        forall|a: int, b: int|
            0 <= a < b < best_first(scores).len() ==> {
                let (i, j) = (#[trigger] best_first(scores)[a], #[trigger] best_first(scores)[b]);
                &&& i < scores.len() && j < scores.len() && i != j
                &&& scores[i as int] is Some && scores[j as int] is Some
                &&& scores[i as int]->0 > scores[j as int]->0 || (scores[i as int]
                    == scores[j as int] && i < j)
            },
{
    let found = scored(scores, scores.len());
    let order = ranked(found);
    let listed = best_first(scores);
    lemma_scored(scores, scores.len());
    lemma_ranked(found);
    lemma_ranked_once(scores);
    assert forall|a: int, b: int| 0 <= a < b < listed.len() implies {
        let (i, j) = (#[trigger] listed[a], #[trigger] listed[b]);
        &&& i < scores.len() && j < scores.len() && i != j
        &&& scores[i as int] is Some && scores[j as int] is Some
        &&& scores[i as int]->0 > scores[j as int]->0 || (scores[i as int] == scores[j as int] && i
            < j)
    } by {
        assert(order.contains(order[a]) && order.contains(order[b]));
        assert(found.contains(order[a]) && found.contains(order[b]));
        assert(by_rank()(order[a], order[b]));
        assert(order[a] != order[b]);
    }
    if listed.contains(i) {
        let k = choose|k: int| 0 <= k < listed.len() && listed[k] == i;
        assert(order.contains(order[k]));
        assert(found.contains(order[k]));
    }
    if i < scores.len() && scores[i as int] is Some {
        let r = Rank { weight: scores[i as int]->0 as u64, y: 0, x: 0, index: i };
        assert(found.contains(r));
        assert(order.contains(r));
        let k = choose|k: int| 0 <= k < order.len() && order[k] == r;
        assert(listed[k] == i);
    }
}

/// None is ranked twice.
proof fn lemma_ranked_once(scores: Seq<Option<u32>>)
    requires
        scores.len() <= usize::MAX,
    ensures
        ranked(scored(scores, scores.len())).no_duplicates(),
{
    let found = scored(scores, scores.len());
    lemma_scored(scores, scores.len());
    lemma_ranked(found);
    assert(found.no_duplicates()) by {
        assert forall|i: int, j: int|
            0 <= i < found.len() && 0 <= j < found.len() && i != j implies found[i] != found[j] by {
            if i < j {
                assert(found[i].index < found[j].index);
            } else {
                assert(found[j].index < found[i].index);
            }
        }
    }
    found.lemma_multiset_has_no_duplicates();
    ranked(found).lemma_multiset_has_no_duplicates_conv();
}

/// Fuzzy matches come with the higher score first, and in the order of the
/// items among equals; each of them matches.
pub proof fn law_fuzzy_matches_are_ranked(items: Seq<Item>, query: Seq<char>, a: int, b: int)
    requires
        items.len() <= usize::MAX,
        0 <= a < b < fuzzy_hits(items, query).len(),
    ensures
        ({
            let (i, j) = (fuzzy_hits(items, query)[a], fuzzy_hits(items, query)[b]);
            let (p, q) = (
                fuzzy_score(query, items[i as int].text@),
                fuzzy_score(query, items[j as int].text@),
            );
            &&& i < items.len() && j < items.len() && i != j
            &&& p is Some && q is Some
            &&& p->0 > q->0 || (p->0 == q->0 && i < j)
        }),
{
    law_ranking_is_by_score(all_scores(items, query), 0);
    let (i, j) = (fuzzy_hits(items, query)[a], fuzzy_hits(items, query)[b]);
    assert(all_scores(items, query)[i as int] == item_score(query, items[i as int]));
    assert(all_scores(items, query)[j as int] == item_score(query, items[j as int]));
}

/// While a query stands, an item is listed exactly where its label starts with
/// the query or the query matches its text: with the labels in the first
/// case, and with the fuzzy matches in no other.
pub proof fn law_everything_that_matches_is_listed(s: PanelState, i: usize)
    requires
        in_line(s),
        !s.stale,
        s.query.len() > 0,
        s.items.len() <= usize::MAX,
        i < s.items.len(),
    ensures
        s.label_matches.contains(i) <==> s.query.is_prefix_of(s.items[i as int].label@),
        s.fuzzy_matches.contains(i) <==> !s.query.is_prefix_of(s.items[i as int].label@)
            && fuzzy_score(s.query, s.items[i as int].text@) is Some,
{
    let labels = item_labels(s.items);
    let hits = reachable(labels, s.query);
    lemma_reachable_has(labels, s.query, labels.len(), i as int);
    if hits.contains(i) {
        let k = choose|k: int| 0 <= k < hits.len() && hits[k] == i;
        assert(s.query.is_prefix_of(labels[hits[k] as int]));
    }
    law_ranking_is_by_score(all_scores(s.items, s.query), i);
    assert(all_scores(s.items, s.query)[i as int] == item_score(s.query, s.items[i as int]));
}

/// An explicit move takes the selection off a typed-out hint and onto the list.
pub proof fn law_arrows_override_a_hint_match(s: PanelState, down: bool)
    requires
        s.wf(),
        s.grace is None,
        s.hint_match is Some,
        s.listed().len() > 0,
    ensures
        ({
            let (t, effects) = s.step(Event::Key(if down { PanelKey::Down } else { PanelKey::Up }));
            &&& t.hint_match is None
            &&& t.selection() == Some(t.listed()[t.cursor])
            &&& effects == seq![Effect::Redraw]
        }),
{
}

/// While the grace window is open the click was already sent: nothing but a
/// plain Return, Escape or the timer does anything, and each of these ends the
/// interaction on the clicked item; only Return makes it a double click.
pub proof fn law_grace_ends_with_return_escape_or_the_timer(s: PanelState, event: Event)
    requires
        s.grace is Some,
    ensures
        ({
            let (t, effects) = s.step(event);
            let ended = |double: bool|
                Effect::Finish(
                    CoreOutcome::Clicked { index: s.grace->0, at: s.items[s.grace->0 as int].center, double },
                );
            &&& t == s.touched(event)
            &&& match event {
                Event::Key(PanelKey::Return { ctrl: false }) => effects == seq![
                    Effect::Click { button: BTN_LEFT, at: s.items[s.grace->0 as int].center },
                    ended(true),
                ],
                Event::Key(PanelKey::Escape) | Event::GraceElapsed => effects == seq![
                    ended(false),
                ],
                _ => effects == Seq::<Effect>::empty(),
            }
        }),
{
}

/// Return clicks the selected item at once; a second Return, or else the
/// timer, tells whether it was a double click.
pub proof fn law_return_clicks_and_a_second_return_double_clicks(s: PanelState, index: usize)
    requires
        s.grace is None,
        s.selection() == Some(index),
    ensures
        ({
            let (t, first) = s.step(Event::Key(PanelKey::Return { ctrl: false }));
            let at = s.items[index as int].center;
            &&& first == seq![
                Effect::Click { button: BTN_LEFT, at },
                Effect::ArmGrace,
                Effect::Redraw,
            ]
            &&& t.selection() == Some(index)
            &&& t.step(Event::Key(PanelKey::Return { ctrl: false })).1 == seq![
                Effect::Click { button: BTN_LEFT, at },
                Effect::Finish(CoreOutcome::Clicked { index, at, double: true }),
            ]
            &&& t.step(Event::GraceElapsed).1 == seq![
                Effect::Finish(CoreOutcome::Clicked { index, at, double: false }),
            ]
        }),
{
}

/// Pressing and releasing Ctrl on its own warps to the selected item, and the
/// panel stays open.
pub proof fn law_ctrl_tap_warps(s: PanelState, index: usize)
    requires
        s.grace is None,
        !s.stale,
        s.selection() == Some(index),
    ensures
        ({
            let (pressed, first) = s.step(Event::Key(PanelKey::CtrlPressed));
            let (released, second) = pressed.step(Event::Key(PanelKey::CtrlReleased));
            &&& first == Seq::<Effect>::empty()
            &&& second == seq![
                Effect::Warp(s.items[index as int].center.0, s.items[index as int].center.1),
            ]
            &&& released.warped
            &&& released.selection() == Some(index)
        }),
{
}

// ---- whole interactions ----

/// A panel after a series of events, and everything that they did.
pub open spec fn run(s: PanelState, events: Seq<Event>) -> (PanelState, Seq<Effect>)
    decreases events.len(),
{
    if events.len() == 0 {
        (s, seq![])
    } else {
        let (t, before) = run(s, events.drop_last());
        let (u, last) = t.step(events.last());
        (u, before + last)
    }
}

/// How many of the effects scroll.
pub open spec fn scroll_count(effects: Seq<Effect>) -> nat {
    effects.filter(|e: Effect| e is Scroll).len()
}

/// One of the effects warps.
pub open spec fn any_warp(effects: Seq<Effect>) -> bool {
    exists|k: int| 0 <= k < effects.len() && (#[trigger] effects[k]) is Warp
}

proof fn lemma_step_tally(s: PanelState, event: Event)
    ensures
        s.step(event).0.scrolls == s.scrolls + scroll_count(s.step(event).1),
        s.step(event).0.warped == (s.warped || any_warp(s.step(event).1)),
{
    reveal_with_fuel(Seq::filter, 4);
    let effects = s.step(event).1;
    let p = |e: Effect| e is Scroll;
    if effects.len() > 0 {
        assert(effects[0] == effects.first());
        assert(effects.drop_last().len() == effects.len() - 1);
        if effects.len() > 1 {
            assert(effects.drop_last().last() == effects[effects.len() - 2]);
            assert(effects.drop_last().drop_last().len() == effects.len() - 2);
            if effects.len() > 2 {
                assert(effects.drop_last().drop_last().last() == effects[effects.len() - 3]);
                assert(effects.drop_last().drop_last().drop_last().len() == 0);
            }
        }
    }
}

/// The panel counts the scrolls it asks for and remembers a warp, over any
/// interaction; dismissing it reports both.
pub proof fn law_dismissal_reports_scrolls_and_warps(s: PanelState, events: Seq<Event>)
    requires
        s.scrolls == 0,
        !s.warped,
    ensures
        ({
            let (t, effects) = run(s, events);
            &&& t.scrolls == scroll_count(effects)
            &&& t.warped == any_warp(effects)
            &&& t.grace is None && t.query.len() == 0 ==> t.step(
                Event::Key(PanelKey::Escape),
            ).1 == seq![
                Effect::Finish(
                    CoreOutcome::Dismissed {
                        scrolls: scroll_count(effects) as u32,
                        warped: any_warp(effects),
                    },
                ),
            ]
        }),
    decreases events.len(),
{
    reveal(Seq::filter);
    if events.len() > 0 {
        law_dismissal_reports_scrolls_and_warps(s, events.drop_last());
        let (t, before) = run(s, events.drop_last());
        let (u, last) = t.step(events.last());
        lemma_step_tally(t, events.last());
        Seq::filter_distributes_over_add(before, last, |e: Effect| e is Scroll);
        let all = before + last;
        if any_warp(before) {
            let k = choose|k: int| 0 <= k < before.len() && before[k] is Warp;
            assert(all[k] is Warp);
        }
        if any_warp(last) {
            let k = choose|k: int| 0 <= k < last.len() && last[k] is Warp;
            assert(all[before.len() + k] is Warp);
        }
        if any_warp(all) {
            let k = choose|k: int| 0 <= k < all.len() && all[k] is Warp;
            if k < before.len() {
                assert(before[k] is Warp);
            } else {
                assert(last[k - before.len()] is Warp);
            }
        }
    }
}

/// The event leaves a pending Ctrl tap alone.
pub open spec fn spares_tap(event: Event) -> bool {
    event is GraceElapsed || event == Event::Key(PanelKey::CtrlPressed) || event == Event::Key(
        PanelKey::CtrlReleased,
    )
}

proof fn lemma_tap_stays_disarmed(s: PanelState, events: Seq<Event>, at: int)
    requires
        0 <= at < events.len(),
        !spares_tap(events[at]),
        forall|k: int|
            at < k < events.len() ==> #[trigger] events[k] != Event::Key(PanelKey::CtrlPressed),
    ensures
        !run(s, events).0.ctrl_tap_armed,
    decreases events.len(),
{
    if at < events.len() - 1 {
        lemma_tap_stays_disarmed(s, events.drop_last(), at);
        assert(events.last() == events[events.len() - 1]);
    }
}

/// Ctrl held down for anything else, such as a chord with another key, is no
/// tap: letting go of it does not warp.
pub proof fn law_ctrl_chord_does_not_warp(s: PanelState, events: Seq<Event>, at: int)
    requires
        0 <= at < events.len(),
        !spares_tap(events[at]),
        forall|k: int|
            at < k < events.len() ==> #[trigger] events[k] != Event::Key(PanelKey::CtrlPressed),
    ensures
        !any_warp(run(s, events).0.step(Event::Key(PanelKey::CtrlReleased)).1),
{
    lemma_tap_stays_disarmed(s, events, at);
}

/// Escape first asks for the query to be cleared, and dismisses the panel only
/// once it is.
pub proof fn law_escape_clears_the_query_first(s: PanelState, q: String)
    requires
        s.grace is None,
        s.query.len() > 0,
        lowercase(q@).len() == 0,
    ensures
        ({
            let (asked, first) = s.step(Event::Key(PanelKey::Escape));
            let cleared = asked.step(Event::Query(q)).0;
            &&& first == seq![Effect::ClearQuery]
            &&& asked.query == s.query
            &&& cleared.step(Event::Key(PanelKey::Escape)).1 == seq![
                Effect::Finish(
                    CoreOutcome::Dismissed { scrolls: s.scrolls as u32, warped: s.warped },
                ),
            ]
        }),
{
}

/// The text of the last query among the events, if there is one.
pub open spec fn last_query(events: Seq<Event>) -> Option<Seq<char>>
    decreases events.len(),
{
    if events.len() == 0 {
        None
    } else {
        match events.last() {
            Event::Query(q) => Some(q@),
            _ => last_query(events.drop_last()),
        }
    }
}

/// While no click is pending, the panel's query is the last one that came in,
/// whatever else happened; it is empty if none did.
pub proof fn law_query_is_the_last_one(items: Seq<Item>, events: Seq<Event>)
    requires
        run(PanelState::opened(items), events).0.grace is None,
    ensures
        run(PanelState::opened(items), events).0.query == match last_query(events) {
            Some(text) => lowercase(text),
            None => seq![],
        },
    decreases events.len(),
{
    if events.len() > 0 {
        let before = run(PanelState::opened(items), events.drop_last()).0;
        assert(before.grace is None);
        law_query_is_the_last_one(items, events.drop_last());
    }
}

/// What the Escape key does after any interaction, while no click is pending:
/// where the last query came in empty, or none did, it dismisses the panel and
/// reports how often the panel has scrolled since it was opened and whether it
/// has warped; otherwise it asks for the query to be cleared. The panel itself
/// stays as it is.
pub proof fn law_escape_after_any_interaction(items: Seq<Item>, events: Seq<Event>)
    requires
        run(PanelState::opened(items), events).0.grace is None,
    ensures
        ({
            let (t, effects) = run(PanelState::opened(items), events);
            let empty = match last_query(events) {
                Some(text) => lowercase(text).len() == 0,
                None => true,
            };
            t.keyed(PanelKey::Escape) == if empty {
                (
                    t,
                    seq![
                        Effect::Finish(
                            CoreOutcome::Dismissed {
                                scrolls: scroll_count(effects) as u32,
                                warped: any_warp(effects),
                            },
                        ),
                    ],
                )
            } else {
                (t, seq![Effect::ClearQuery])
            }
        }),
{
    law_query_is_the_last_one(items, events);
    law_dismissal_reports_scrolls_and_warps(PanelState::opened(items), events);
}

/// A panel without items scrolls, but never clicks or warps, and stays without
/// items until some arrive.
pub proof fn law_empty_panel_never_acts(s: PanelState, event: Event)
    requires
        s.wf(),
        s.items.len() == 0,
    ensures
        s.selection() is None,
        forall|k: int|
            0 <= k < s.step(event).1.len() ==> !acts(#[trigger] s.step(event).1[k]),
        !(event is NewHints) ==> s.step(event).0.items == s.items,
        event matches Event::Key(key) && scroll_key(key) ==> s.step(event).1.len() > 0
            && s.step(event).1[0] is Scroll,
{
}

/// Nothing but Escape with an empty query, a right click, and what ends a
/// grace window ends the interaction.
pub proof fn law_what_ends_the_interaction(s: PanelState, event: Event, k: int)
    requires
        0 <= k < s.step(event).1.len(),
        finishes(s.step(event).1[k]),
    ensures
        k == s.step(event).1.len() - 1,
        s.grace is None ==> {
            ||| event == Event::Key(PanelKey::Escape) && s.query.len() == 0
            ||| event == Event::Key(PanelKey::Return { ctrl: true }) && s.selection() is Some
        },
        s.grace is Some ==> {
            ||| event == Event::Key(PanelKey::Escape)
            ||| event == Event::Key(PanelKey::Return { ctrl: false })
            ||| event is GraceElapsed
        },
{
}

// ---- where the panel acts, and on what ----

/// The effect acts at the center of item `i`, its first coordinate across and
/// its second one down, or does not act at all.
pub open spec fn acts_on(e: Effect, items: Seq<Item>, i: usize) -> bool {
    let (x, y) = (items[i as int].center.0, items[i as int].center.1);
    match e {
        Effect::Click { at, .. } => at.0 == x && at.1 == y,
        Effect::Warp(to_x, to_y) => to_x == x && to_y == y,
        Effect::Finish(CoreOutcome::Clicked { index, at, .. }) => index == i && at.0 == x && at.1
            == y,
        Effect::Finish(CoreOutcome::RightClicked { index, at }) => index == i && at.0 == x && at.1
            == y,
        _ => true,
    }
}

/// The effect does something to an item, or reports that it was done.
pub open spec fn concerns_an_item(e: Effect) -> bool {
    match e {
        Effect::Click { .. } => true,
        Effect::Warp(_, _) => true,
        Effect::Finish(CoreOutcome::Clicked { .. }) => true,
        Effect::Finish(CoreOutcome::RightClicked { .. }) => true,
        _ => false,
    }
}

/// Whatever the event: every click, warp and report of a click is at the center
/// of the selected item, and there is none where nothing is selected.
pub proof fn law_acts_at_the_center_of_the_selected_item(s: PanelState, event: Event, k: int)
    requires
        0 <= k < s.step(event).1.len(),
    ensures
        s.selection() matches Some(i) ==> acts_on(s.step(event).1[k], s.items, i),
        s.selection() is None ==> !concerns_an_item(s.step(event).1[k]),
{
}

/// What each of the action keys does to the selected item: a plain Return
/// clicks with the left button, and one with Ctrl with the right one; while a
/// click is pending a plain Return clicks with the left button again.
pub proof fn law_action_keys_use_their_button(s: PanelState, i: usize)
    requires
        s.selection() == Some(i),
    ensures
        ({
            let (_, effects) = s.step(Event::Key(PanelKey::Return { ctrl: false }));
            &&& effects.len() > 0
            &&& effects[0] matches Effect::Click { button, at }
            &&& button == 0x110 && at == s.items[i as int].center
        }),
        s.grace is None ==> {
            let (_, effects) = s.step(Event::Key(PanelKey::Return { ctrl: true }));
            &&& effects.len() == 2
            &&& effects[0] matches Effect::Click { button, at }
            &&& button == 0x111 && at == s.items[i as int].center
            &&& effects[1] == Effect::Finish(
                CoreOutcome::RightClicked { index: i, at: s.items[i as int].center },
            )
        },
{
}

/// Which item is selected: the one with a pending click, or else the one whose
/// label is typed out, or else the one that the cursor is on, counting the
/// label matches first and the fuzzy matches after them.
pub proof fn law_what_is_selected(s: PanelState)
    ensures
        s.grace matches Some(i) ==> s.selection() == Some(i),
        s.grace is None ==> (s.hint_match matches Some(i) ==> s.selection() == Some(i)),
        s.grace is None && s.hint_match is None ==> {
            let (n, m) = (s.label_matches.len(), s.fuzzy_matches.len());
            &&& 0 <= s.cursor < n ==> s.selection() == Some(s.label_matches[s.cursor])
            &&& n <= s.cursor < n + m ==> s.selection() == Some(s.fuzzy_matches[s.cursor - n])
            &&& s.cursor < 0 || s.cursor >= n + m ==> s.selection() is None
        },
{
}

/// A freshly opened panel lists all items in their order, selects the first of
/// them, and has done nothing yet.
pub proof fn law_opening_lists_everything(items: Seq<Item>)
    requires
        items.len() <= usize::MAX,
    ensures
        ({
            let s = PanelState::opened(items);
            &&& s.items == items
            &&& s.label_matches.len() == 0
            &&& s.fuzzy_matches.len() == items.len()
            &&& forall|k: int| 0 <= k < items.len() ==> #[trigger] s.fuzzy_matches[k] == k
            &&& items.len() > 0 ==> s.selection() == Some(0usize)
            &&& items.len() == 0 ==> s.selection() is None
            &&& s.query.len() == 0 && s.scrolls == 0
            &&& !s.stale && !s.refetching && !s.warped && !s.ctrl_tap_armed
            &&& s.grace is None && s.hint_match is None
        }),
{
}

/// The cursor moves by one, down or up, and not past either end of the list;
/// a move back undoes it. Nothing but the cursor, a hint match and a pending
/// Ctrl tap is touched, and the panel is redrawn exactly where something was.
pub proof fn law_arrows_move_the_cursor_by_one(s: PanelState, down: bool)
    requires
        s.wf(),
        s.grace is None,
    ensures
        ({
            let n = s.label_matches.len() + s.fuzzy_matches.len();
            let (t, effects) = s.step(Event::Key(if down { PanelKey::Down } else { PanelKey::Up }));
            &&& n == 0 ==> t.cursor == s.cursor && t.hint_match == s.hint_match
            &&& n > 0 && down && s.cursor < n - 1 ==> t.cursor == s.cursor + 1
            &&& n > 0 && down && s.cursor == n - 1 ==> t.cursor == s.cursor
            &&& n > 0 && !down && s.cursor > 0 ==> t.cursor == s.cursor - 1
            &&& n > 0 && !down && s.cursor == 0 ==> t.cursor == 0
            &&& n > 0 ==> t.hint_match is None
            &&& t.items == s.items && t.query == s.query && t.label_matches == s.label_matches
            &&& t.fuzzy_matches == s.fuzzy_matches && t.grace == s.grace && t.stale == s.stale
            &&& t.refetching == s.refetching && t.scrolls == s.scrolls && t.warped == s.warped
            &&& if t.cursor == s.cursor && t.hint_match == s.hint_match {
                effects.len() == 0
            } else {
                effects == seq![Effect::Redraw]
            }
        }),
{
}

/// A scroll key scrolls once, by one detent in its own direction: up and left
/// are negative, left and right are horizontal. It is counted.
pub proof fn law_scroll_keys_have_their_direction(s: PanelState, key: PanelKey)
    requires
        s.wf(),
        s.grace is None,
        scroll_key(key),
    ensures
        ({
            let (t, effects) = s.step(Event::Key(key));
            &&& effects.len() > 0
            &&& effects[0] matches Effect::Scroll { horizontal, amount }
            &&& horizontal == (key is ScrollLeft || key is ScrollRight)
            &&& amount == if key is ScrollUp || key is ScrollLeft {
                -15
            } else {
                15int
            }
            &&& t.scrolls == s.scrolls + 1
            &&& t.stale && t.label_matches.len() == 0 && t.fuzzy_matches.len() == 0
            &&& t.hint_match is None
            &&& effects.len() == if s.stale {
                1int
            } else {
                2
            }
            &&& !s.stale ==> effects[1] == Effect::Redraw
            &&& t.items == s.items && t.query == s.query && t.warped == s.warped
        }),
{
}

/// What an event leaves as it is: the items stay but for fresh ones, the query
/// but for another one, the count of scrolls but for a scroll, and a warp is
/// never forgotten and comes only from letting go of Ctrl. A pending click
/// keeps everything but a Ctrl tap as it is.
pub proof fn law_what_an_event_changes(s: PanelState, event: Event)
    ensures
        ({
            let t = s.step(event).0;
            &&& s.grace is Some || !(event is NewHints) ==> t.items == s.items
            &&& s.grace is Some || !(event is Query) ==> t.query == s.query
            &&& !(event matches Event::Key(key) && scroll_key(key)) || s.grace is Some ==> t.scrolls
                == s.scrolls
            &&& s.warped ==> t.warped
            &&& event != Event::Key(PanelKey::CtrlReleased) ==> t.warped == s.warped
            &&& s.grace is Some ==> {
                &&& t.grace == s.grace && t.cursor == s.cursor && t.hint_match == s.hint_match
                &&& t.label_matches == s.label_matches && t.fuzzy_matches == s.fuzzy_matches
                &&& t.stale == s.stale && t.refetching == s.refetching && t.warped == s.warped
            }
            &&& event != Event::Key(PanelKey::Return { ctrl: false }) ==> t.grace == s.grace
            &&& t.ctrl_tap_armed == if event == Event::Key(PanelKey::CtrlPressed) {
                s.grace is None || s.ctrl_tap_armed
            } else if event == Event::Key(PanelKey::CtrlReleased) {
                s.grace is Some && s.ctrl_tap_armed
            } else if event is GraceElapsed {
                s.ctrl_tap_armed
            } else {
                false
            }
        }),
{
}

/// A new query, and fresh items, put the cursor on top and ask for a redraw.
/// Fresh items end the wait for a re-scan; a query does not.
pub proof fn law_queries_and_items_are_taken_over(s: PanelState, q: String, items: Vec<Item>)
    requires
        s.grace is None,
    ensures
        ({
            let (t, effects) = s.step(Event::Query(q));
            &&& t.query == lowercase(q@) && t.cursor == 0
            &&& t.stale == s.stale && t.refetching == s.refetching
            &&& effects == seq![Effect::Redraw]
        }),
        ({
            let (t, effects) = s.step(Event::NewHints(items));
            &&& t.items == items@ && t.cursor == 0
            &&& !t.stale && !t.refetching
            &&& effects == seq![Effect::Redraw]
        }),
{
}

/// Letting go of Ctrl while the positions are stale asks for a re-scan and
/// notes that it is under way; otherwise it warps exactly where the tap is
/// pending and something is selected.
pub proof fn law_letting_go_of_ctrl(s: PanelState)
    requires
        s.grace is None,
    ensures
        ({
            let (t, effects) = s.step(Event::Key(PanelKey::CtrlReleased));
            &&& s.stale ==> t.refetching && effects == seq![Effect::Redraw, Effect::Refetch]
            &&& !s.stale ==> t.refetching == s.refetching
            &&& !s.stale && s.ctrl_tap_armed ==> (s.selection() matches Some(i) ==> {
                &&& effects == seq![
                    Effect::Warp(s.items[i as int].center.0, s.items[i as int].center.1),
                ]
                &&& t.warped
            })
            &&& !s.stale && (!s.ctrl_tap_armed || s.selection() is None) ==> effects.len() == 0
                && t.warped == s.warped
        }),
{
}

/// The lists while a query stands: the label matches are in the order of the
/// items, none twice; of two fuzzy matches the one with the higher score comes
/// first, and the earlier item among equals. While no query stands, everything
/// is listed in order.
pub proof fn law_lists_are_in_order(s: PanelState, a: int, b: int)
    requires
        in_line(s),
        !s.stale,
        s.items.len() <= usize::MAX,
        a < b,
    ensures
        s.query.len() > 0 && 0 <= a && b < s.label_matches.len() ==> s.label_matches[a]
            < s.label_matches[b],
        s.query.len() > 0 && 0 <= a && b < s.fuzzy_matches.len() ==> {
            let (i, j) = (s.fuzzy_matches[a], s.fuzzy_matches[b]);
            let (p, q) = (
                fuzzy_score(s.query, s.items[i as int].text@),
                fuzzy_score(s.query, s.items[j as int].text@),
            );
            p->0 > q->0 || (p == q && i < j)
        },
        s.query.len() == 0 ==> s.label_matches.len() == 0 && s.fuzzy_matches.len()
            == s.items.len() && (0 <= a < s.fuzzy_matches.len() ==> s.fuzzy_matches[a] == a),
{
    if s.query.len() > 0 {
        lemma_reachable_ascends(item_labels(s.items), s.query, s.items.len());
        if 0 <= a && b < s.fuzzy_matches.len() {
            law_fuzzy_matches_are_ranked(s.items, s.query, a, b);
        }
    }
}

/// A query that is some item's label engages the first item that has it.
pub proof fn law_first_label_typed_out_is_engaged(s: PanelState, q: String, i: usize)
    requires
        s.grace is None,
        !s.stale,
        s.items.len() <= usize::MAX,
        i < s.items.len(),
        lowercase(q@).len() > 0,
        s.items[i as int].label@ == lowercase(q@),
        forall|j: int| 0 <= j < i ==> (#[trigger] s.items[j]).label@ != lowercase(q@),
    ensures
        s.step(Event::Query(q)).0.hint_match == Some(i),
{
    let query = lowercase(q@);
    let labels = item_labels(s.items);
    let hits = reachable(labels, query);
    let p = not_typed_out(s.items, query);
    lemma_reachable_has(labels, query, labels.len(), i as int);
    lemma_reachable_ascends(labels, query, labels.len());
    let k = choose|k: int| 0 <= k < hits.len() && hits[k] == i;
    assert forall|j: int| 0 <= j < k implies p(#[trigger] hits[j]) by {
        assert(hits[j] < hits[k]);
        assert(s.items[hits[j] as int].label@ != query);
    }
    lemma_lead_is(hits, p, k);
}

/// A query that is no item's label engages none.
pub proof fn law_no_label_typed_out_engages_none(s: PanelState, q: String)
    requires
        s.grace is None,
        s.items.len() <= usize::MAX,
        s.stale || lowercase(q@).len() == 0 || forall|j: int|
            0 <= j < s.items.len() ==> (#[trigger] s.items[j]).label@ != lowercase(q@),
    ensures
        s.step(Event::Query(q)).0.hint_match is None,
{
    let query = lowercase(q@);
    let labels = item_labels(s.items);
    let hits = reachable(labels, query);
    let p = not_typed_out(s.items, query);
    lemma_lead(hits, p);
    if !s.stale && query.len() > 0 && lead(hits, p) < hits.len() {
        lemma_reachable_has(labels, query, labels.len(), 0);
        assert(hits[lead(hits, p) as int] < labels.len());
    }
}

/// What the panel's state is made of: its own fields.
pub proof fn law_state_is_the_panels_own(core: PanelCore)
    ensures
        core@.items == core.items@ && core@.query == core.query@,
        core@.label_matches == core.label_matches@,
        core@.fuzzy_matches == core.fuzzy_matches@,
        core@.cursor == core.cursor && core@.hint_match == core.hint_match,
        core@.ctrl_tap_armed == core.ctrl_tap_armed && core@.grace == core.grace,
        core@.stale == core.stale && core@.refetching == core.refetching,
        core@.scrolls == core.scrolls && core@.warped == core.warped,
{
}

/// Keys and timers without a meaning of their own do nothing but disarm a
/// pending Ctrl tap, and the timer not even that.
pub proof fn law_what_does_nothing(s: PanelState)
    requires
        s.grace is None,
    ensures
        s.step(Event::Key(PanelKey::Other)) == (
            PanelState { ctrl_tap_armed: false, ..s },
            Seq::<Effect>::empty(),
        ),
        s.step(Event::Key(PanelKey::CtrlPressed)) == (
            PanelState { ctrl_tap_armed: true, ..s },
            Seq::<Effect>::empty(),
        ),
        s.step(Event::GraceElapsed) == (s, Seq::<Effect>::empty()),
{
}

/// Which events are within the limits: all of them while a click is pending, a
/// scroll while it can still be counted, and every other key and the timer. A
/// query, or fresh items, are exactly where each text that has to be searched
/// can be: none while the positions are stale or the query is empty, and none
/// of an item whose label begins with the query.
pub proof fn law_what_is_within_the_limits(s: PanelState, q: String, items: Vec<Item>, key: PanelKey)
    ensures
        s.grace is Some ==> s.admits(Event::Query(q)) && s.admits(Event::NewHints(items)) && s.admits(
            Event::Key(key),
        ),
        s.admits(Event::GraceElapsed),
        s.grace is None ==> {
            &&& s.admits(Event::Key(key)) <==> !scroll_key(key) || s.scrolls < 0xffff_ffff
            &&& s.admits(Event::Query(q)) <==> s.stale || lowercase(q@).len() == 0 || forall|i: int|
                0 <= i < s.items.len() && !lowercase(q@).is_prefix_of((#[trigger] s.items[i]).label@)
                    ==> scorable(lowercase(q@), s.items[i].text@)
            &&& s.admits(Event::NewHints(items)) <==> s.query.len() == 0 || forall|i: int|
                0 <= i < items@.len() && !s.query.is_prefix_of((#[trigger] items@[i]).label@)
                    ==> scorable(s.query, items@[i].text@)
        },
{
}

/// What a well-formed panel can rely on: whatever it has selected, matched or
/// listed is one of its items, the cursor is on the list, and nothing is listed
/// or selected while the positions are stale.
pub proof fn law_well_formed_panels(s: PanelState, k: int)
    requires
        s.wf(),
    ensures
        s.selection() matches Some(i) ==> i < s.items.len(),
        s.hint_match matches Some(i) ==> i < s.items.len(),
        s.grace matches Some(i) ==> i < s.items.len(),
        0 <= k < s.label_matches.len() ==> s.label_matches[k] < s.items.len(),
        0 <= k < s.fuzzy_matches.len() ==> s.fuzzy_matches[k] < s.items.len(),
        s.label_matches.len() + s.fuzzy_matches.len() > 0 ==> 0 <= s.cursor
            < s.label_matches.len() + s.fuzzy_matches.len(),
        s.stale ==> s.label_matches.len() == 0 && s.fuzzy_matches.len() == 0 && s.hint_match is None
            && s.grace is None,
{
    if s.grace is None && s.hint_match is None && 0 <= s.cursor < s.listed().len() {
        let n = s.label_matches.len();
        if s.cursor < n {
            assert(s.listed()[s.cursor] == s.label_matches[s.cursor]);
        } else {
            assert(s.listed()[s.cursor] == s.fuzzy_matches[s.cursor - n]);
        }
    }
}

/// The labels and the scores of the items are those of each item in turn; an
/// item whose label begins with the query has no score.
pub proof fn law_scores_are_each_items_own(items: Seq<Item>, query: Seq<char>, i: int)
    requires
        0 <= i < items.len(),
    ensures
        item_labels(items).len() == items.len(),
        item_labels(items)[i] == items[i].label@,
        all_scores(items, query).len() == items.len(),
        query.is_prefix_of(items[i].label@) ==> all_scores(items, query)[i] is None,
        !query.is_prefix_of(items[i].label@) ==> all_scores(items, query)[i] == fuzzy_score(
            query,
            items[i].text@,
        ),
{
}

/// A query is the entry's text in lower case, and empty only with it.
pub proof fn law_queries_are_in_lower_case(text: Seq<char>, query: Seq<char>)
    requires
        taken_in(text, query),
    ensures
        query == lowercase(text),
        query.len() == 0 <==> text.len() == 0,
        (forall|i: int| 0 <= i < text.len() ==> (#[trigger] text[i] as u32) < 128) ==> query.len()
            == text.len() && forall|i: int|
            0 <= i < text.len() ==> #[trigger] query[i] == ascii_lower(text[i]),
{
}

} // verus!
