//! What holds of elements and of the searches for them, whatever the objects
//! on the bus answer.

use super::action::{
    activating_verbs, carries, first_for, lacks, law_most_preferred_verb_wins, pointer_role,
};
use super::frame::{
    advance as frame_after, all_tops, first_active, law_search_finds_first_active, proceed,
    run as frame_run, App, FrameEvent, FramePhase, FrameReply, FrameSearch, FrameState,
};
use super::tree::{actionable_role, interactable, web_document_role};
use super::walk::{
    advance as walk_after, forest, hidden, preorder, question, Keep, Node, TreeWalk,
    WalkAction, WalkEvent, WalkPhase, WalkReply, WalkState,
};
use super::{Element, ObjectRef, Role, State, StateSet};
use vstd::prelude::*;

verus! {

// ---- states ----

/// All states of the first set are in the second one.
pub open spec fn within(s: StateSet, t: StateSet) -> bool {
    s.bits & t.bits == s.bits
}

/// A state is in a set exactly where its own bit is set, whatever the others
/// are: `Active` is bit 1, `Enabled` 8, `Sensitive` 24, `Showing` 25 and
/// `Visible` 30.
pub proof fn law_a_state_is_one_bit(s: StateSet)
    ensures
        s.has(State::Active) <==> s.bits & (1u64 << 1) != 0,
        s.has(State::Enabled) <==> s.bits & (1u64 << 8) != 0,
        s.has(State::Sensitive) <==> s.bits & (1u64 << 24) != 0,
        s.has(State::Showing) <==> s.bits & (1u64 << 25) != 0,
        s.has(State::Visible) <==> s.bits & (1u64 << 30) != 0,
{
    assert(1u64 << 1 == 0x2 && 1u64 << 8 == 0x100 && 1u64 << 24 == 0x100_0000 && 1u64 << 25
        == 0x200_0000 && 1u64 << 30 == 0x4000_0000) by (bit_vector);
}

/// What a set holds, a larger set holds too.
pub proof fn law_larger_sets_hold_more(s: StateSet, t: StateSet, state: State)
    requires
        within(s, t),
        s.has(state),
    ensures
        t.has(state),
{
    let (a, b, m) = (s.bits, t.bits, state.mask());
    assert(a & b == a && a & m != 0 ==> b & m != 0) by (bit_vector);
}

/// An element is interactable whatever other states it has, once it is showing,
/// visible, and enabled or sensitive; without one of these it is not.
pub proof fn law_interactable_whatever_else(s: StateSet)
    ensures
        s.bits & (1u64 << 25) != 0 && s.bits & (1u64 << 30) != 0 && s.bits & (1u64 << 8) != 0
            ==> interactable(s),
        s.bits & (1u64 << 25) != 0 && s.bits & (1u64 << 30) != 0 && s.bits & (1u64 << 24) != 0
            ==> interactable(s),
        s.bits & (1u64 << 25) == 0 ==> !interactable(s),
        s.bits & (1u64 << 30) == 0 ==> !interactable(s),
        s.bits & (1u64 << 8) == 0 && s.bits & (1u64 << 24) == 0 ==> !interactable(s),
{
    law_a_state_is_one_bit(s);
}

/// More states leave an interactable element interactable.
pub proof fn law_more_states_stay_interactable(s: StateSet, t: StateSet)
    requires
        within(s, t),
        interactable(s),
    ensures
        interactable(t),
{
    law_larger_sets_hold_more(s, t, State::Showing);
    law_larger_sets_hold_more(s, t, State::Visible);
    if s.has(State::Enabled) {
        law_larger_sets_hold_more(s, t, State::Enabled);
    } else {
        law_larger_sets_hold_more(s, t, State::Sensitive);
    }
}

/// Whether a subtree is skipped is decided by a single state: `Visible` inside a
/// web document and `Showing` outside. More states never hide it.
pub proof fn law_one_state_hides(s: StateSet, t: StateSet, in_web_doc: bool)
    ensures
        hidden(true, s) <==> s.bits & (1u64 << 30) == 0,
        hidden(false, s) <==> s.bits & (1u64 << 25) == 0,
        within(s, t) && !hidden(in_web_doc, s) ==> !hidden(in_web_doc, t),
{
    law_a_state_is_one_bit(s);
    if within(s, t) && !hidden(in_web_doc, s) {
        law_larger_sets_hold_more(
            s,
            t,
            if in_web_doc {
                State::Visible
            } else {
                State::Showing
            },
        );
    }
}

/// What is interactable is not hidden, inside a web document or outside.
pub proof fn law_interactable_elements_are_not_hidden(s: StateSet, in_web_doc: bool)
    requires
        interactable(s),
    ensures
        !hidden(in_web_doc, s),
{
}

// ---- the active frame ----

/// A toplevel that answers with the `Active` bit, whatever other bits are set,
/// ends the search with that toplevel; one that answers without it, or not at
/// all, does not.
pub proof fn law_an_active_toplevel_ends_the_search(f: FrameState, top: ObjectRef, s: StateSet)
    requires
        f.phase == (FramePhase::Reading { top }),
    ensures
        s.bits & (1u64 << 1) != 0 ==> frame_after(f, FrameReply::States(Some(s))).phase
            == FramePhase::Done(Some(top)),
        s.bits & (1u64 << 1) == 0 ==> !(frame_after(f, FrameReply::States(Some(s))).phase
            matches FramePhase::Done(Some(_))),
        !(frame_after(f, FrameReply::States(None)).phase matches FramePhase::Done(Some(_))),
{
    law_a_state_is_one_bit(s);
}

/// The search asks the toplevels of an application in order, and then the next
/// application; it gives up only when there is none left. Nothing is skipped
/// and nothing asked twice.
pub proof fn law_search_asks_in_order(f: FrameState, top: ObjectRef, tops: Seq<ObjectRef>)
    ensures
        f.phase is Listing ==> {
            let g = frame_after(f, FrameReply::Toplevels(tops));
            &&& tops.len() > 0 ==> g.phase == (FramePhase::Reading { top: tops[0] }) && g.tops
                == tops.skip(1) && g.apps == f.apps
            &&& tops.len() == 0 && f.apps.len() > 0 ==> g.phase == (FramePhase::Listing {
                app: f.apps[0],
            }) && g.apps == f.apps.skip(1) && g.tops.len() == 0
            &&& tops.len() == 0 && f.apps.len() == 0 ==> g.phase == FramePhase::Done(None)
        },
        f.phase is Reading ==> {
            let g = frame_after(f, FrameReply::States(None));
            &&& f.tops.len() > 0 ==> g.phase == (FramePhase::Reading { top: f.tops[0] }) && g.tops
                == f.tops.skip(1) && g.apps == f.apps
            &&& f.tops.len() == 0 && f.apps.len() > 0 ==> g.phase == (FramePhase::Listing {
                app: f.apps[0],
            }) && g.apps == f.apps.skip(1) && g.tops.len() == 0
            &&& f.tops.len() == 0 && f.apps.len() == 0 ==> g.phase == FramePhase::Done(None)
        },
        f.phase is Done ==> frame_after(f, FrameReply::Toplevels(tops)) == f && frame_after(
            f,
            FrameReply::States(None),
        ) == f,
{
    assert(tops.len() > 0 ==> tops.skip(1) =~= tops.drop_first());
    assert(f.tops.len() > 0 ==> f.tops.skip(1) =~= f.tops.drop_first());
    assert(f.apps.len() > 0 ==> f.apps.skip(1) =~= f.apps.drop_first());
}

/// A toplevel that is not active is passed over just like one that does not
/// answer.
pub proof fn law_inactive_toplevels_are_passed_over(f: FrameState, s: StateSet)
    requires
        f.phase is Reading,
        s.bits & (1u64 << 1) == 0,
    ensures
        frame_after(f, FrameReply::States(Some(s))) == frame_after(f, FrameReply::States(None)),
{
    law_a_state_is_one_bit(s);
}

/// The toplevel at `k` answers with the `Active` bit set.
pub open spec fn active_at(tops: Seq<(ObjectRef, Option<StateSet>)>, k: int) -> bool {
    &&& 0 <= k < tops.len()
    &&& tops[k].1 matches Some(s)
    &&& s.bits & (1u64 << 1) != 0
}

/// The first toplevel whose answer holds the `Active` bit is found, and none is
/// found only where no answer holds it.
pub proof fn law_first_active_is_found(tops: Seq<(ObjectRef, Option<StateSet>)>, k: int)
    requires
        forall|j: int| 0 <= j < k ==> !#[trigger] active_at(tops, j),
    ensures
        active_at(tops, k) ==> first_active(tops) == Some(tops[k].0),
        k >= tops.len() ==> first_active(tops) is None,
    decreases tops.len(),
{
    if tops.len() > 0 {
        if let Some(s) = tops[0].1 {
            law_a_state_is_one_bit(s);
        }
        assert(k > 0 ==> !active_at(tops, 0));
        let rest = tops.drop_first();
        if k > 0 {
            assert forall|j: int| 0 <= j < k - 1 implies !#[trigger] active_at(rest, j) by {
                assert(!active_at(tops, j + 1));
            }
            law_first_active_is_found(rest, k - 1);
        }
    }
}

/// The toplevels of the applications follow one another, each application's
/// together.
pub proof fn law_toplevels_follow_one_another(a: Seq<App>, app: App, b: Seq<App>)
    ensures
        all_tops(a + seq![app] + b) == all_tops(a) + app.tops + all_tops(b),
    decreases a.len(),
{
    if a.len() == 0 {
        let all = a + seq![app] + b;
        assert(all.drop_first() =~= b);
        assert(all_tops(all) =~= all_tops(a) + app.tops + all_tops(b));
    } else {
        let all = a + seq![app] + b;
        assert(all.drop_first() =~= a.drop_first() + seq![app] + b);
        law_toplevels_follow_one_another(a.drop_first(), app, b);
        assert(all_tops(all) =~= all_tops(a) + app.tops + all_tops(b));
    }
}

/// A search over any applications ends with the first of all their toplevels,
/// in order, that answers with the `Active` bit, and with none if none does.
pub proof fn law_search_ends_with_the_active_frame(apps: Seq<App>, k: int)
    requires
        forall|j: int| 0 <= j < k ==> !#[trigger] active_at(all_tops(apps), j),
    ensures
        ({
            let start = proceed(apps.map_values(|a: App| a.object), seq![]);
            let end = frame_run(start, seq![], apps);
            &&& active_at(all_tops(apps), k) ==> end.phase == FramePhase::Done(
                Some(all_tops(apps)[k].0),
            )
            &&& k >= all_tops(apps).len() ==> end.phase == FramePhase::Done(None)
        }),
{
    law_search_finds_first_active(apps);
    law_first_active_is_found(all_tops(apps), k);
}

/// An application that cannot be reached counts as one without toplevels, and
/// any other reply is what was answered.
pub proof fn law_frame_answers_are_taken_as_given(event: FrameEvent, f: FrameSearch)
    ensures
        event matches FrameEvent::Toplevels(Some(tops)) ==> event@ == FrameReply::Toplevels(tops@),
        event matches FrameEvent::Toplevels(None) ==> event@ == FrameReply::Toplevels(seq![]),
        event matches FrameEvent::States(states) ==> event@ == FrameReply::States(states),
        f@.apps == f.apps@ && f@.tops == f.tops@ && f@.phase == f.phase,
{
}

// ---- the walk ----

/// A node that does not answer, or is not on screen, is left with everything
/// below it; any other one is asked for its role next.
pub proof fn law_nodes_off_screen_are_left(w: WalkState, node: ObjectRef, inside: bool, s: StateSet)
    requires
        w.phase == (WalkPhase::Inspecting { node, in_web_doc: inside }),
    ensures
        ({
            let shown = if inside {
                s.bits & (1u64 << 30) != 0
            } else {
                s.bits & (1u64 << 25) != 0
            };
            let after = walk_after(w, WalkReply::States(Some(s)));
            let left = walk_after(w, WalkReply::States(None));
            &&& shown ==> after.phase == (WalkPhase::AskingRole {
                node,
                in_web_doc: inside,
                states: s,
            }) && after.stack == w.stack && after.found == w.found
            &&& !shown ==> after == left
            &&& left.found == w.found
            &&& w.stack.len() == 0 ==> left.phase is Done
            &&& w.stack.len() > 0 ==> left.phase == (WalkPhase::Inspecting {
                node: w.stack.last().0,
                in_web_doc: w.stack.last().1,
            }) && left.stack == w.stack.drop_last()
        }),
{
    law_a_state_is_one_bit(s);
}

/// A wanted node is recorded with its own object, role, name and states, and
/// nothing else ever is.
pub proof fn law_wanted_nodes_are_recorded(
    w: WalkState,
    node: ObjectRef,
    inside: bool,
    s: StateSet,
    role: Role,
    name: Seq<char>,
)
    ensures
        w.phase == (WalkPhase::AskingRole { node, in_web_doc: inside, states: s }) ==> walk_after(
            w,
            WalkReply::Role(role),
        ).phase == (WalkPhase::Judging { node, in_web_doc: inside, states: s, role }),
        w.phase == (WalkPhase::Judging { node, in_web_doc: inside, states: s, role }) ==> {
            &&& question(w.phase) == WalkAction::Judge(role, s)
            &&& walk_after(w, WalkReply::Verdict(true)).phase == (WalkPhase::AskingName {
                node,
                in_web_doc: inside,
                states: s,
                role,
            })
            &&& walk_after(w, WalkReply::Verdict(false)).phase == (WalkPhase::AskingChildren {
                node,
                in_web_doc: inside,
                role,
            })
        },
        w.phase == (WalkPhase::AskingName { node, in_web_doc: inside, states: s, role }) ==> {
            let after = walk_after(w, WalkReply::Name(name));
            &&& after.phase == (WalkPhase::AskingChildren { node, in_web_doc: inside, role })
            &&& after.stack == w.stack
            &&& after.found.len() == w.found.len() + 1
            &&& after.found.drop_last() == w.found
            &&& after.found.last().object == node && after.found.last().role == role
            &&& after.found.last().name == name && after.found.last().states == s
        },
{
    let after = walk_after(w, WalkReply::Name(name));
    if w.phase == (WalkPhase::AskingName { node, in_web_doc: inside, states: s, role }) {
        assert(after.found.drop_last() =~= w.found);
    }
}

/// Only a name is ever recorded, one at a time.
pub proof fn law_only_names_are_recorded(w: WalkState, reply: WalkReply)
    requires
        !(w.phase is AskingName && reply is Name),
    ensures
        walk_after(w, reply).found == w.found,
{
}

/// The children are visited right after their parent, the first one first, and
/// before anything that was waiting; they lie inside a web document where
/// their parent does, or is one.
pub proof fn law_children_come_next(
    w: WalkState,
    node: ObjectRef,
    inside: bool,
    role: Role,
    children: Seq<ObjectRef>,
)
    requires
        w.phase == (WalkPhase::AskingChildren { node, in_web_doc: inside, role }),
    ensures
        ({
            let after = walk_after(w, WalkReply::Children(children));
            let below = inside || role.number() == 95 || role.number() == 82;
            let n = children.len() as int;
            &&& n > 0 ==> {
                &&& after.phase == (WalkPhase::Inspecting { node: children[0], in_web_doc: below })
                &&& after.stack.len() == w.stack.len() + n - 1
                &&& after.stack.take(w.stack.len() as int) == w.stack
                &&& forall|i: int|
                    1 <= i < n ==> after.stack[w.stack.len() + n - 1 - i] == (
                        #[trigger] children[i],
                        below,
                    )
            }
            &&& n == 0 && w.stack.len() > 0 ==> after.phase == (WalkPhase::Inspecting {
                node: w.stack.last().0,
                in_web_doc: w.stack.last().1,
            }) && after.stack == w.stack.drop_last()
            &&& n == 0 && w.stack.len() == 0 ==> after.phase is Done
        }),
{
    let after = walk_after(w, WalkReply::Children(children));
    let below = inside || web_document_role(role.number());
    let back = super::walk::pushed(children, below);
    let n = children.len() as int;
    if n > 0 {
        assert((w.stack + back).last() == (children[0], below));
        assert(after.stack.take(w.stack.len() as int) =~= w.stack);
        assert forall|i: int| 1 <= i < n implies after.stack[w.stack.len() + n - 1 - i] == (
            #[trigger] children[i],
            below,
        ) by {
            assert(back[n - 1 - i] == (children[i], below));
        }
    } else {
        assert(w.stack + back =~= w.stack);
    }
}

/// The order of the elements: a wanted parent comes first, then what its
/// children hold, one child after the other; what is not on screen holds
/// nothing.
pub proof fn law_parents_before_children(node: Node, inside: bool, keep: Keep)
    ensures
        node.states is None ==> preorder(node, inside, keep).len() == 0,
        node.states matches Some(s) ==> {
            let shown = if inside {
                s.bits & (1u64 << 30) != 0
            } else {
                s.bits & (1u64 << 25) != 0
            };
            let below = inside || node.role.number() == 95 || node.role.number() == 82;
            let all = preorder(node, inside, keep);
            &&& !shown ==> all.len() == 0
            &&& shown && keep(node.role, s) ==> {
                &&& all.len() > 0
                &&& all[0].object == node.object && all[0].role == node.role
                &&& all[0].name == node.name && all[0].states == s
                &&& all.skip(1) == forest(node.children, below, keep)
            }
            &&& shown && !keep(node.role, s) ==> all == forest(node.children, below, keep)
        },
{
    if let Some(s) = node.states {
        law_a_state_is_one_bit(s);
        let below = inside || web_document_role(node.role.number());
        let all = preorder(node, inside, keep);
        if !hidden(inside, s) {
            if keep(node.role, s) {
                assert(all.skip(1) =~= forest(node.children, below, keep));
            } else {
                assert(all =~= forest(node.children, below, keep));
            }
        }
    }
}

/// What several subtrees hold is what each of them holds, from the first one
/// to the last.
pub proof fn law_subtrees_follow_one_another(
    a: Seq<Node>,
    node: Node,
    b: Seq<Node>,
    inside: bool,
    keep: Keep,
)
    ensures
        forest(a + seq![node] + b, inside, keep) == forest(a, inside, keep) + preorder(
            node,
            inside,
            keep,
        ) + forest(b, inside, keep),
    decreases a.len(),
{
    let all = a + seq![node] + b;
    let rest = all.subrange(1, all.len() as int);
    if a.len() == 0 {
        assert(rest =~= b);
        assert(all[0] == node);
        assert(forest(a, inside, keep) =~= seq![]);
        assert(forest(all, inside, keep) =~= forest(a, inside, keep) + preorder(node, inside, keep)
            + forest(b, inside, keep));
    } else {
        let shorter = a.subrange(1, a.len() as int);
        assert(rest =~= shorter + seq![node] + b);
        assert(all[0] == a[0]);
        law_subtrees_follow_one_another(shorter, node, b, inside, keep);
        assert(forest(all, inside, keep) =~= forest(a, inside, keep) + preorder(node, inside, keep)
            + forest(b, inside, keep));
    }
}

/// The walk asks about the object it is at, and goes on only when it is told.
pub proof fn law_walk_asks_about_its_object(w: WalkState)
    ensures
        w.phase matches WalkPhase::Inspecting { node, .. } ==> question(w.phase)
            == WalkAction::Inspect(node),
        w.phase is AskingRole ==> question(w.phase) == WalkAction::AskRole,
        w.phase is AskingName ==> question(w.phase) == WalkAction::AskName,
        w.phase is AskingChildren ==> question(w.phase) == WalkAction::AskChildren,
        w.phase is Done <==> question(w.phase) == WalkAction::Done,
{
}

/// What a missing answer counts as: no role, an empty name, and no children.
/// Any other answer is what was given.
pub proof fn law_walk_answers_are_taken_as_given(event: WalkEvent, w: TreeWalk, e: Element)
    ensures
        event matches WalkEvent::States(states) ==> event@ == WalkReply::States(states),
        event matches WalkEvent::Role(Some(role)) ==> event@ == WalkReply::Role(role),
        event matches WalkEvent::Role(None) ==> event@ == WalkReply::Role(Role::none()),
        event matches WalkEvent::Verdict(wanted) ==> event@ == WalkReply::Verdict(wanted),
        event matches WalkEvent::Name(Some(name)) ==> event@ == WalkReply::Name(name@),
        event matches WalkEvent::Name(None) ==> event@ == WalkReply::Name(seq![]),
        event matches WalkEvent::Children(Some(c)) ==> event@ == WalkReply::Children(c@),
        event matches WalkEvent::Children(None) ==> event@ == WalkReply::Children(seq![]),
        w@.stack == w.stack@ && w@.phase == w.phase && w@.found.len() == w.found@.len(),
        forall|k: int| 0 <= k < w.found@.len() ==> #[trigger] w@.found[k] == w.found@[k]@,
        e@.object == e.object && e@.role == e.role && e@.name == e.name@ && e@.states == e.states,
{
}

// ---- actions ----

/// The verbs, from the most preferred one on.
pub proof fn law_verbs_in_order_of_preference()
    ensures
        activating_verbs().len() == 5,
        activating_verbs()[0] == "click"@,
        activating_verbs()[1] == "press"@,
        activating_verbs()[2] == "activate"@,
        activating_verbs()[3] == "jump"@,
        activating_verbs()[4] == "open"@,
{
}

/// A name carries a verb exactly where the verb stands in it somewhere, the
/// ASCII letters of the name put in lower case.
pub proof fn law_a_name_carries_its_parts(front: Seq<char>, verb: Seq<char>, back: Seq<char>)
    requires
        forall|i: int| 0 <= i < verb.len() ==> !('A' <= #[trigger] verb[i] && verb[i] <= 'Z'),
    ensures
        carries(front + verb + back, verb),
        !lacks(verb)(front + verb + back),
{
    let name = front + verb + back;
    let lower = crate::text::ascii_lowercase(name);
    let i = front.len() as int;
    assert(lower.subrange(i, i + verb.len()) =~= verb) by {
        assert forall|j: int| 0 <= j < verb.len() implies lower.subrange(i, i + verb.len())[j]
            == #[trigger] verb[j] by {
            assert(name[i + j] == verb[j]);
        }
    }
}

/// The action for the most preferred verb is chosen, and among several the
/// first one: no earlier name carries that verb, and no name at all a verb that
/// is preferred to it.
pub proof fn law_action_is_the_first_for_its_verb(names: Seq<Seq<char>>, v: int, k: int)
    requires
        0 <= v < 5,
        0 <= k < names.len(),
        carries(names[k], activating_verbs()[v]),
        forall|j: int| 0 <= j < k ==> !carries(#[trigger] names[j], activating_verbs()[v]),
        forall|u: int, j: int|
            0 <= u < v && 0 <= j < names.len() ==> !#[trigger] carries(
                names[j],
                activating_verbs()[u],
            ),
    ensures
        first_for(names, activating_verbs()) == Some(k as nat),
{
    let verbs = activating_verbs();
    law_most_preferred_verb_wins(names, verbs);
    assert(carries(names[k], verbs[v]));
    match first_for(names, verbs) {
        Some(i) => {
            let w = choose|w: int|
                {
                    &&& 0 <= w < verbs.len()
                    &&& carries(names[i as int], #[trigger] verbs[w])
                    &&& forall|j: int| 0 <= j < i ==> !carries(#[trigger] names[j], verbs[w])
                    &&& forall|u: int, j: int|
                        0 <= u < w && 0 <= j < names.len() ==> !#[trigger] carries(
                            names[j],
                            verbs[u],
                        )
                };
            if w < v {
                assert(!carries(names[i as int], verbs[w]));
            }
            if v < w {
                assert(!carries(names[k], verbs[v]));
            }
        },
        None => {},
    }
}

// ---- roles ----

/// The roles that can be acted on, by their numbers: buttons of all kinds, check
/// and radio boxes, menus and their items, links, tabs, and what takes input.
/// Those whose use begins with a pointer are among them; a web document is not.
pub proof fn law_roles_by_number(code: u32)
    ensures
        actionable_role(code) <==> {
            ||| code == 7 || code == 8 || code == 11 || code == 33 || code == 35 || code == 37
            ||| code == 40 || code == 43 || code == 44 || code == 45 || code == 51 || code == 52
            ||| code == 62 || code == 79 || code == 88 || code == 129
        },
        pointer_role(code) <==> code == 11 || code == 40 || code == 51 || code == 52 || code == 79,
        web_document_role(code) <==> code == 82 || code == 95,
        pointer_role(code) ==> actionable_role(code),
        web_document_role(code) ==> !actionable_role(code),
        Role::none().number() == 0,
{
    super::lemma_no_role();
}

} // verus!
