//! Finding the active toplevel frame, one question to the bus at a time.
//!
//! The applications are asked for their toplevels in order, and each toplevel
//! for its states; the first one that is active is the frame.

use super::{ObjectRef, State, StateSet};
use vstd::prelude::*;

verus! {

/// The question that the search is waiting on.
#[derive(Debug, PartialEq, Eq)]
pub enum FramePhase {
    /// The toplevels of an application.
    Listing { app: ObjectRef },
    /// The states of a toplevel.
    Reading { top: ObjectRef },
    /// Nothing: this is the active frame, if there is one.
    Done(Option<ObjectRef>),
}

impl Clone for FramePhase {
    fn clone(&self) -> (r: FramePhase)
        ensures
            r == *self,
    {
        match self {
            FramePhase::Listing { app } => FramePhase::Listing { app: app.clone() },
            FramePhase::Reading { top } => FramePhase::Reading { top: top.clone() },
            FramePhase::Done(Some(top)) => FramePhase::Done(Some(top.clone())),
            FramePhase::Done(None) => FramePhase::Done(None),
        }
    }
}

/// What the caller found out; `None` where the object did not answer.
#[derive(Debug)]
pub enum FrameEvent {
    Toplevels(Option<Vec<ObjectRef>>),
    States(Option<StateSet>),
}

/// A [`FrameEvent`] with its contents as mathematical values.
pub enum FrameReply {
    Toplevels(Seq<ObjectRef>),
    States(Option<StateSet>),
}

impl View for FrameEvent {
    type V = FrameReply;

    open spec fn view(&self) -> FrameReply {
        match self {
            FrameEvent::Toplevels(Some(tops)) => FrameReply::Toplevels(tops@),
            FrameEvent::Toplevels(None) => FrameReply::Toplevels(seq![]),
            FrameEvent::States(states) => FrameReply::States(*states),
        }
    }
}

/// A search in progress.
pub struct FrameSearch {
    /// Applications still to be asked, in order.
    pub apps: Vec<ObjectRef>,
    /// Toplevels of the current application still to be asked, in order.
    pub tops: Vec<ObjectRef>,
    pub phase: FramePhase,
}

/// A [`FrameSearch`] with its contents as mathematical values.
pub struct FrameState {
    pub apps: Seq<ObjectRef>,
    pub tops: Seq<ObjectRef>,
    pub phase: FramePhase,
}

impl View for FrameSearch {
    type V = FrameState;

    open spec fn view(&self) -> FrameState {
        FrameState { apps: self.apps@, tops: self.tops@, phase: self.phase }
    }
}

/// The states hold `Active`.
pub open spec fn active(states: Option<StateSet>) -> bool {
    states matches Some(states) && states.has(State::Active)
}

/// The search about to ask the next toplevel, or else the next application.
pub open spec fn proceed(apps: Seq<ObjectRef>, tops: Seq<ObjectRef>) -> FrameState {
    if tops.len() > 0 {
        FrameState { apps, tops: tops.drop_first(), phase: FramePhase::Reading { top: tops[0] } }
    } else if apps.len() > 0 {
        FrameState { apps: apps.drop_first(), tops, phase: FramePhase::Listing { app: apps[0] } }
    } else {
        FrameState { apps, tops, phase: FramePhase::Done(None) }
    }
}

/// The search after an answer. An answer to another question than the one
/// that was asked changes nothing.
pub open spec fn advance(f: FrameState, reply: FrameReply) -> FrameState {
    match (f.phase, reply) {
        (FramePhase::Listing { .. }, FrameReply::Toplevels(tops)) => proceed(f.apps, tops),
        (FramePhase::Reading { top }, FrameReply::States(states)) => if active(states) {
            FrameState { phase: FramePhase::Done(Some(top)), ..f }
        } else {
            proceed(f.apps, f.tops)
        },
        _ => f,
    }
}

impl FrameSearch {
    /// A search through the applications, in order.
    pub fn new(apps: Vec<ObjectRef>) -> (f: FrameSearch)
        ensures
            f@ == proceed(apps@, seq![]),
    {
        let mut f = FrameSearch { apps, tops: Vec::new(), phase: FramePhase::Done(None) };
        assert(f@.tops =~= seq![]);
        f.go_on();
        f
    }

    /// Turns to the next toplevel, or else to the next application.
    fn go_on(&mut self)
        ensures
            final(self)@ == proceed(old(self)@.apps, old(self)@.tops),
    {
        if self.tops.len() > 0 {
            let top = self.tops.remove(0);
            self.phase = FramePhase::Reading { top };
            assert(self@.tops =~= old(self)@.tops.drop_first());
        } else if self.apps.len() > 0 {
            let app = self.apps.remove(0);
            self.phase = FramePhase::Listing { app };
            assert(self@.apps =~= old(self)@.apps.drop_first());
        } else {
            self.phase = FramePhase::Done(None);
        }
    }

    /// Takes an answer and gives the next question.
    pub fn on_event(&mut self, event: FrameEvent) -> (r: FramePhase)
        ensures
            final(self)@ == advance(old(self)@, event@),
            r == final(self)@.phase,
    {
        match event {
            FrameEvent::Toplevels(tops) => {
                if let FramePhase::Listing { .. } = &self.phase {
                    self.tops =
                    match tops {
                        Some(tops) => tops,
                        None => Vec::new(),
                    };
                    assert(self@.tops =~= event@->Toplevels_0);
                    self.go_on();
                }
            },
            FrameEvent::States(states) => {
                if let FramePhase::Reading { top } = &self.phase {
                    let is_active = match states {
                        Some(states) => states.contains(State::Active),
                        None => false,
                    };
                    if is_active {
                        self.phase = FramePhase::Done(Some(top.clone()));
                    } else {
                        self.go_on();
                    }
                }
            },
        }
        self.phase.clone()
    }
}

// ---- which frame is found ----

/// An application as the bus would report it: its toplevels with their
/// states, in order; no toplevels if it cannot be reached.
pub struct App {
    pub object: ObjectRef,
    pub tops: Seq<(ObjectRef, Option<StateSet>)>,
}

/// The first active one of some toplevels.
pub open spec fn first_active(tops: Seq<(ObjectRef, Option<StateSet>)>) -> Option<ObjectRef>
    decreases tops.len(),
{
    if tops.len() == 0 {
        None
    } else if active(tops[0].1) {
        Some(tops[0].0)
    } else {
        first_active(tops.drop_first())
    }
}

/// The toplevels of all applications, one application after the other.
pub open spec fn all_tops(apps: Seq<App>) -> Seq<(ObjectRef, Option<StateSet>)>
    decreases apps.len(),
{
    if apps.len() == 0 {
        seq![]
    } else {
        apps[0].tops + all_tops(apps.drop_first())
    }
}

/// The search when every question was answered, with `tops` of the current
/// application and then `apps` still to be asked.
pub open spec fn run(
    f: FrameState,
    tops: Seq<(ObjectRef, Option<StateSet>)>,
    apps: Seq<App>,
) -> FrameState
    decreases apps.len(), tops.len(),
{
    if tops.len() > 0 {
        let next = advance(f, FrameReply::States(tops[0].1));
        if active(tops[0].1) {
            next
        } else {
            run(next, tops.drop_first(), apps)
        }
    } else if apps.len() > 0 {
        let answer = apps[0].tops.map_values(|t: (ObjectRef, Option<StateSet>)| t.0);
        run(advance(f, FrameReply::Toplevels(answer)), apps[0].tops, apps.drop_first())
    } else {
        f
    }
}

proof fn lemma_first_active_append(
    a: Seq<(ObjectRef, Option<StateSet>)>,
    b: Seq<(ObjectRef, Option<StateSet>)>,
)
    ensures
        first_active(a + b) == (match first_active(a) {
            Some(top) => Some(top),
            None => first_active(b),
        }),
    decreases a.len(),
{
    if a.len() == 0 {
        assert(a + b =~= b);
    } else {
        lemma_first_active_append(a.drop_first(), b);
        assert((a + b).drop_first() =~= a.drop_first() + b);
    }
}

proof fn lemma_run(f: FrameState, tops: Seq<(ObjectRef, Option<StateSet>)>, apps: Seq<App>)
    requires
        f == proceed(
            apps.map_values(|a: App| a.object),
            tops.map_values(|t: (ObjectRef, Option<StateSet>)| t.0),
        ),
    ensures
        run(f, tops, apps).phase == FramePhase::Done(first_active(tops + all_tops(apps))),
    decreases apps.len(), tops.len(),
{
    let object = |a: App| a.object;
    let top = |t: (ObjectRef, Option<StateSet>)| t.0;
    lemma_first_active_append(tops, all_tops(apps));
    if tops.len() > 0 {
        if !active(tops[0].1) {
            assert(tops.map_values(top).drop_first() =~= tops.drop_first().map_values(top));
            lemma_run(
                advance(f, FrameReply::States(tops[0].1)),
                tops.drop_first(),
                apps,
            );
            assert((tops + all_tops(apps)).drop_first() =~= tops.drop_first() + all_tops(apps));
        }
    } else if apps.len() > 0 {
        assert(apps.map_values(object).drop_first() =~= apps.drop_first().map_values(object));
        let answer = apps[0].tops.map_values(top);
        lemma_run(
            advance(f, FrameReply::Toplevels(answer)),
            apps[0].tops,
            apps.drop_first(),
        );
        assert(tops + all_tops(apps) =~= apps[0].tops + all_tops(apps.drop_first()));
    } else {
        assert(tops + all_tops(apps) =~= seq![]);
    }
}

/// The search ends with the first active toplevel of the applications in
/// order, and with none if no toplevel is active.
pub proof fn law_search_finds_first_active(apps: Seq<App>)
    ensures
        run(proceed(apps.map_values(|a: App| a.object), seq![]), seq![], apps).phase
            == FramePhase::Done(first_active(all_tops(apps))),
{
    let none: Seq<(ObjectRef, Option<StateSet>)> = seq![];
    assert(none.map_values(|t: (ObjectRef, Option<StateSet>)| t.0) =~= seq![]);
    lemma_run(proceed(apps.map_values(|a: App| a.object), seq![]), none, apps);
    assert(none + all_tops(apps) =~= all_tops(apps));
}

} // verus!
