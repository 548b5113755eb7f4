//! Walking an accessibility subtree, one question to the bus at a time.
//!
//! [`TreeWalk`] decides what to ask next and what to make of each answer; its
//! caller asks the question and feeds the answer back.

use super::tree::{is_web_document, web_document_role};
use super::{Element, ElementView, ObjectRef, Role, State, StateSet};
use vstd::prelude::*;

verus! {

/// The question that the walk is waiting on.
pub enum WalkPhase {
    /// The states of `node`.
    Inspecting { node: ObjectRef, in_web_doc: bool },
    /// The role of `node`, which is on screen.
    AskingRole { node: ObjectRef, in_web_doc: bool, states: StateSet },
    /// Whether `node` is wanted.
    Judging { node: ObjectRef, in_web_doc: bool, states: StateSet, role: Role },
    /// The name of `node`, which is wanted.
    AskingName { node: ObjectRef, in_web_doc: bool, states: StateSet, role: Role },
    /// The children of `node`.
    AskingChildren { node: ObjectRef, in_web_doc: bool, role: Role },
    /// Nothing: the subtree is exhausted.
    Done,
}

/// What the caller is to find out.
#[derive(Debug, PartialEq, Eq)]
pub enum WalkAction {
    /// Read the states of the object, which becomes the current one.
    Inspect(ObjectRef),
    /// Read the role of the current object.
    AskRole,
    /// Decide whether an object with this role and these states is wanted.
    Judge(Role, StateSet),
    /// Read the name of the current object.
    AskName,
    /// List the children of the current object.
    AskChildren,
    /// The walk is over.
    Done,
}

/// What the caller found out; `None` where the object did not answer.
#[derive(Debug)]
pub enum WalkEvent {
    States(Option<StateSet>),
    Role(Option<Role>),
    Verdict(bool),
    Name(Option<String>),
    Children(Option<Vec<ObjectRef>>),
}

/// A [`WalkEvent`] with its contents as mathematical values.
pub enum WalkReply {
    States(Option<StateSet>),
    Role(Role),
    Verdict(bool),
    Name(Seq<char>),
    Children(Seq<ObjectRef>),
}

impl View for WalkEvent {
    type V = WalkReply;

    open spec fn view(&self) -> WalkReply {
        match self {
            WalkEvent::States(states) => WalkReply::States(*states),
            WalkEvent::Role(role) => WalkReply::Role(
                match role {
                    Some(role) => *role,
                    None => Role::none(),
                },
            ),
            WalkEvent::Verdict(wanted) => WalkReply::Verdict(*wanted),
            WalkEvent::Name(name) => WalkReply::Name(
                match name {
                    Some(name) => name@,
                    None => seq![],
                },
            ),
            WalkEvent::Children(children) => WalkReply::Children(
                match children {
                    Some(children) => children@,
                    None => seq![],
                },
            ),
        }
    }
}

/// A walk in progress.
pub struct TreeWalk {
    /// Nodes still to be visited, the next one last, each with whether it
    /// lies inside a web document.
    pub stack: Vec<(ObjectRef, bool)>,
    pub phase: WalkPhase,
    /// The wanted elements so far.
    pub found: Vec<Element>,
}

/// A [`TreeWalk`] with its contents as mathematical values.
pub struct WalkState {
    pub stack: Seq<(ObjectRef, bool)>,
    pub phase: WalkPhase,
    pub found: Seq<ElementView>,
}

impl View for TreeWalk {
    type V = WalkState;

    open spec fn view(&self) -> WalkState {
        WalkState {
            stack: self.stack@,
            phase: self.phase,
            found: self.found@.map_values(|e: Element| e@),
        }
    }
}

/// A subtree that is not on screen is skipped. Inside a web document `Showing`
/// is unreliable, so there `Visible` decides.
pub open spec fn hidden(in_web_doc: bool, states: StateSet) -> bool {
    if in_web_doc {
        !states.has(State::Visible)
    } else {
        !states.has(State::Showing)
    }
}

/// Whether the subtree of a node with these states is skipped.
pub fn is_hidden(in_web_doc: bool, states: &StateSet) -> (r: bool)
    ensures
        r == hidden(in_web_doc, *states),
{
    if in_web_doc {
        !states.contains(State::Visible)
    } else {
        !states.contains(State::Showing)
    }
}

/// The walk about to visit the last node of `stack`.
pub open spec fn resume(stack: Seq<(ObjectRef, bool)>, found: Seq<ElementView>) -> WalkState {
    if stack.len() == 0 {
        WalkState { stack, phase: WalkPhase::Done, found }
    } else {
        let (node, in_web_doc) = stack.last();
        WalkState {
            stack: stack.drop_last(),
            phase: WalkPhase::Inspecting { node, in_web_doc },
            found,
        }
    }
}

/// The children as they are put on the stack: the first one last, so that it
/// is visited next.
pub open spec fn pushed(children: Seq<ObjectRef>, in_web_doc: bool) -> Seq<(ObjectRef, bool)> {
    children.reverse().map_values(|c: ObjectRef| (c, in_web_doc))
}

/// The walk after an answer. An answer to another question than the one that
/// was asked changes nothing.
pub open spec fn advance(w: WalkState, reply: WalkReply) -> WalkState {
    match (w.phase, reply) {
        (WalkPhase::Inspecting { node, in_web_doc }, WalkReply::States(Some(states))) => {
            if hidden(in_web_doc, states) {
                resume(w.stack, w.found)
            } else {
                WalkState { phase: WalkPhase::AskingRole { node, in_web_doc, states }, ..w }
            }
        },
        (WalkPhase::Inspecting { .. }, WalkReply::States(None)) => resume(w.stack, w.found),
        (WalkPhase::AskingRole { node, in_web_doc, states }, WalkReply::Role(role)) => WalkState {
            phase: WalkPhase::Judging { node, in_web_doc, states, role },
            ..w
        },
        (WalkPhase::Judging { node, in_web_doc, states, role }, WalkReply::Verdict(true)) => {
            WalkState { phase: WalkPhase::AskingName { node, in_web_doc, states, role }, ..w }
        },
        (WalkPhase::Judging { node, in_web_doc, role, .. }, WalkReply::Verdict(false)) => {
            WalkState { phase: WalkPhase::AskingChildren { node, in_web_doc, role }, ..w }
        },
        (WalkPhase::AskingName { node, in_web_doc, states, role }, WalkReply::Name(name)) => {
            WalkState {
                phase: WalkPhase::AskingChildren { node, in_web_doc, role },
                found: w.found.push(ElementView { object: node, role, name, states }),
                ..w
            }
        },
        (WalkPhase::AskingChildren { in_web_doc, role, .. }, WalkReply::Children(children)) => {
            resume(
                w.stack + pushed(children, in_web_doc || web_document_role(role.number())),
                w.found,
            )
        },
        _ => w,
    }
}

/// The question that goes with a phase.
pub open spec fn question(phase: WalkPhase) -> WalkAction {
    match phase {
        WalkPhase::Inspecting { node, .. } => WalkAction::Inspect(node),
        WalkPhase::AskingRole { .. } => WalkAction::AskRole,
        WalkPhase::Judging { states, role, .. } => WalkAction::Judge(role, states),
        WalkPhase::AskingName { .. } => WalkAction::AskName,
        WalkPhase::AskingChildren { .. } => WalkAction::AskChildren,
        WalkPhase::Done => WalkAction::Done,
    }
}

impl TreeWalk {
    /// A walk of the subtree under `frame`.
    pub fn new(frame: ObjectRef) -> (w: TreeWalk)
        ensures
            w@ == resume(seq![(frame, false)], seq![]),
    {
        let w = TreeWalk {
            stack: Vec::new(),
            phase: WalkPhase::Inspecting { node: frame, in_web_doc: false },
            found: Vec::new(),
        };
        assert(w@.stack =~= seq![(frame, false)].drop_last());
        assert(w@.found =~= seq![]);
        w
    }

    /// What the walk is waiting to learn.
    pub fn action(&self) -> (r: WalkAction)
        ensures
            r == question(self@.phase),
    {
        match &self.phase {
            WalkPhase::Inspecting { node, .. } => WalkAction::Inspect(node.clone()),
            WalkPhase::AskingRole { .. } => WalkAction::AskRole,
            WalkPhase::Judging { states, role, .. } => WalkAction::Judge(*role, *states),
            WalkPhase::AskingName { .. } => WalkAction::AskName,
            WalkPhase::AskingChildren { .. } => WalkAction::AskChildren,
            WalkPhase::Done => WalkAction::Done,
        }
    }

    /// Turns to the next node on the stack.
    fn go_on(&mut self)
        ensures
            final(self)@ == resume(old(self)@.stack, old(self)@.found),
    {
        match self.stack.pop() {
            Some((node, in_web_doc)) => {
                self.phase = WalkPhase::Inspecting { node, in_web_doc };
            },
            None => {
                self.phase = WalkPhase::Done;
            },
        }
    }

    /// Puts the children on the stack, the first one last.
    fn push_children(&mut self, children: Vec<ObjectRef>, in_web_doc: bool)
        ensures
            final(self)@ == (WalkState {
                stack: old(self)@.stack + pushed(children@, in_web_doc),
                ..old(self)@
            }),
    {
        let ghost all = children@;
        let ghost stack = self.stack@;
        let mut rest = children;
        assert(self.stack@ =~= stack + pushed(all, in_web_doc).take(0));
        while rest.len() > 0
            invariant
                rest@ == all.take(rest@.len() as int),
                rest@.len() <= all.len(),
                self.stack@ == stack + pushed(all, in_web_doc).take(all.len() - rest@.len()),
                self.phase == old(self).phase,
                self.found == old(self).found,
            decreases rest@.len(),
        {
            let ghost n = rest@.len();
            if let Some(child) = rest.pop() {
                assert(child == all[n - 1]);
                assert(pushed(all, in_web_doc)[all.len() - n] == (child, in_web_doc));
                self.stack.push((child, in_web_doc));
                assert(rest@ =~= all.take(n - 1));
                assert(self.stack@ =~= stack + pushed(all, in_web_doc).take(all.len() - n + 1));
            }
        }
        assert(pushed(all, in_web_doc).take(all.len() as int) =~= pushed(all, in_web_doc));
    }

    /// Takes an answer and gives the next question.
    pub fn on_event(&mut self, event: WalkEvent) -> (r: WalkAction)
        ensures
            final(self)@ == advance(old(self)@, event@),
            r == question(final(self)@.phase),
    {
        match event {
            WalkEvent::States(states) => {
                if let WalkPhase::Inspecting { node, in_web_doc } = &self.phase {
                    match states {
                        Some(states) => {
                            if is_hidden(*in_web_doc, &states) {
                                self.go_on();
                            } else {
                                self.phase =
                                WalkPhase::AskingRole {
                                    node: node.clone(),
                                    in_web_doc: *in_web_doc,
                                    states,
                                };
                            }
                        },
                        None => self.go_on(),
                    }
                }
            },
            WalkEvent::Role(role) => {
                if let WalkPhase::AskingRole { node, in_web_doc, states } = &self.phase {
                    let role = match role {
                        Some(role) => role,
                        None => Role::invalid(),
                    };
                    self.phase =
                    WalkPhase::Judging {
                        node: node.clone(),
                        in_web_doc: *in_web_doc,
                        states: *states,
                        role,
                    };
                }
            },
            WalkEvent::Verdict(wanted) => {
                if let WalkPhase::Judging { node, in_web_doc, states, role } = &self.phase {
                    if wanted {
                        self.phase =
                        WalkPhase::AskingName {
                            node: node.clone(),
                            in_web_doc: *in_web_doc,
                            states: *states,
                            role: *role,
                        };
                    } else {
                        self.phase =
                        WalkPhase::AskingChildren {
                            node: node.clone(),
                            in_web_doc: *in_web_doc,
                            role: *role,
                        };
                    }
                }
            },
            WalkEvent::Name(name) => {
                if let WalkPhase::AskingName { node, in_web_doc, states, role } = &self.phase {
                    let name = match name {
                        Some(name) => name,
                        None => String::new(),
                    };
                    let element = Element {
                        object: node.clone(),
                        role: *role,
                        name,
                        states: *states,
                    };
                    let phase = WalkPhase::AskingChildren {
                        node: node.clone(),
                        in_web_doc: *in_web_doc,
                        role: *role,
                    };
                    self.found.push(element);
                    self.phase = phase;
                    assert(self@.found =~= old(self)@.found.push(element@));
                }
            },
            WalkEvent::Children(children) => {
                if let WalkPhase::AskingChildren { in_web_doc, role, .. } = &self.phase {
                    let child_in_web_doc = *in_web_doc || is_web_document(*role);
                    let children = match children {
                        Some(children) => children,
                        None => Vec::new(),
                    };
                    self.push_children(children, child_in_web_doc);
                    self.go_on();
                }
            },
        }
        self.action()
    }
}

// ---- the order of the walk ----

/// A subtree as the bus would report it: what each object answers, and its
/// children in order.
pub struct Node {
    pub object: ObjectRef,
    pub states: Option<StateSet>,
    pub role: Role,
    pub name: Seq<char>,
    pub children: Seq<Node>,
}

/// Which roles and states are wanted.
pub type Keep = spec_fn(Role, StateSet) -> bool;

/// The wanted elements of a subtree, a parent before its children and those
/// from first to last, without the subtrees that are not on screen.
pub open spec fn preorder(node: Node, in_web_doc: bool, keep: Keep) -> Seq<ElementView>
    decreases node,
{
    match node.states {
        Some(states) if !hidden(in_web_doc, states) => {
            let own = if keep(node.role, states) {
                seq![ElementView { object: node.object, role: node.role, name: node.name, states }]
            } else {
                seq![]
            };
            own + forest(
                node.children,
                in_web_doc || web_document_role(node.role.number()),
                keep,
            )
        },
        _ => seq![],
    }
}

/// The wanted elements of several subtrees, one after the other.
pub open spec fn forest(nodes: Seq<Node>, in_web_doc: bool, keep: Keep) -> Seq<ElementView>
    decreases nodes,
{
    if nodes.len() == 0 {
        seq![]
    } else {
        preorder(nodes[0], in_web_doc, keep) + forest(
            nodes.subrange(1, nodes.len() as int),
            in_web_doc,
            keep,
        )
    }
}

/// How many objects a subtree holds.
pub open spec fn node_count(node: Node) -> nat
    decreases node,
{
    1 + forest_count(node.children)
}

/// How many objects several subtrees hold.
pub open spec fn forest_count(nodes: Seq<Node>) -> nat
    decreases nodes,
{
    if nodes.len() == 0 {
        0
    } else {
        node_count(nodes[0]) + forest_count(nodes.subrange(1, nodes.len() as int))
    }
}

/// The walk after every question about `node` was answered.
pub open spec fn visit(w: WalkState, node: Node, keep: Keep) -> WalkState {
    let shown = advance(w, WalkReply::States(node.states));
    match (node.states, shown.phase) {
        (Some(states), WalkPhase::AskingRole { .. }) => {
            let judged = advance(
                advance(shown, WalkReply::Role(node.role)),
                WalkReply::Verdict(keep(node.role, states)),
            );
            let named = if keep(node.role, states) {
                advance(judged, WalkReply::Name(node.name))
            } else {
                judged
            };
            advance(
                named,
                WalkReply::Children(node.children.map_values(|c: Node| c.object)),
            )
        },
        _ => shown,
    }
}

/// The children of a visited node as pending subtrees, the first one last.
pub open spec fn pending_children(node: Node, in_web_doc: bool) -> Seq<(Node, bool)> {
    let inside = in_web_doc || web_document_role(node.role.number());
    node.children.reverse().map_values(|c: Node| (c, inside))
}

/// The subtrees pending after the last of `pending` was visited.
pub open spec fn pending_after(pending: Seq<(Node, bool)>) -> Seq<(Node, bool)> {
    let (node, in_web_doc) = pending.last();
    match node.states {
        Some(states) if !hidden(in_web_doc, states) => pending.drop_last() + pending_children(
            node,
            in_web_doc,
        ),
        _ => pending.drop_last(),
    }
}

/// How many objects the pending subtrees hold.
pub open spec fn pending_count(pending: Seq<(Node, bool)>) -> nat
    decreases pending.len(),
{
    if pending.len() == 0 {
        0
    } else {
        node_count(pending.last().0) + pending_count(pending.drop_last())
    }
}

/// What the pending subtrees hold, the last of them first.
pub open spec fn outstanding(pending: Seq<(Node, bool)>, keep: Keep) -> Seq<ElementView>
    decreases pending.len(),
{
    if pending.len() == 0 {
        seq![]
    } else {
        preorder(pending.last().0, pending.last().1, keep) + outstanding(pending.drop_last(), keep)
    }
}

/// The walk is about to visit exactly the pending subtrees.
pub open spec fn on_course(w: WalkState, pending: Seq<(Node, bool)>) -> bool {
    w == resume(pending.map_values(|p: (Node, bool)| (p.0.object, p.1)), w.found)
}

/// The walk when every pending subtree was visited.
pub open spec fn run(w: WalkState, pending: Seq<(Node, bool)>, keep: Keep) -> WalkState
    decreases pending_count(pending),
{
    if pending.len() == 0 {
        w
    } else {
        proof {
            lemma_pending_shrinks(pending);
        }
        run(visit(w, pending.last().0, keep), pending_after(pending), keep)
    }
}

proof fn lemma_pending_append(a: Seq<(Node, bool)>, nodes: Seq<Node>, inside: bool, keep: Keep)
    ensures
        ({
            let all = a + nodes.reverse().map_values(|c: Node| (c, inside));
            &&& pending_count(all) == pending_count(a) + forest_count(nodes)
            &&& outstanding(all, keep) == forest(nodes, inside, keep) + outstanding(a, keep)
        }),
    decreases nodes.len(),
{
    let back = nodes.reverse().map_values(|c: Node| (c, inside));
    let all = a + back;
    if nodes.len() == 0 {
        assert(all =~= a);
        assert(forest(nodes, inside, keep) + outstanding(a, keep) =~= outstanding(a, keep));
    } else {
        let rest = nodes.subrange(1, nodes.len() as int);
        lemma_pending_append(a, rest, inside, keep);
        assert(all.last() == (nodes[0], inside));
        assert(all.drop_last() =~= a + rest.reverse().map_values(|c: Node| (c, inside)));
        assert(outstanding(all, keep) =~= forest(nodes, inside, keep) + outstanding(a, keep));
    }
}

/// A visit leaves fewer objects pending.
pub proof fn lemma_pending_shrinks(pending: Seq<(Node, bool)>)
    requires
        pending.len() > 0,
    ensures
        pending_count(pending_after(pending)) < pending_count(pending),
{
    let (node, in_web_doc) = pending.last();
    let inside = in_web_doc || web_document_role(node.role.number());
    lemma_pending_append(
        pending.drop_last(),
        node.children,
        inside,
        |r: Role, s: StateSet| true,
    );
}

proof fn lemma_visit(w: WalkState, pending: Seq<(Node, bool)>, keep: Keep)
    requires
        pending.len() > 0,
        on_course(w, pending),
    ensures
        on_course(visit(w, pending.last().0, keep), pending_after(pending)),
        visit(w, pending.last().0, keep).found + outstanding(pending_after(pending), keep)
            == w.found + outstanding(pending, keep),
{
    let plan = |p: (Node, bool)| (p.0.object, p.1);
    let (node, in_web_doc) = pending.last();
    let rest = pending.drop_last();
    assert(pending.map_values(plan).drop_last() =~= rest.map_values(plan));
    let after = visit(w, node, keep);
    match node.states {
        Some(states) if !hidden(in_web_doc, states) => {
            let inside = in_web_doc || web_document_role(node.role.number());
            let objects = node.children.map_values(|c: Node| c.object);
            assert(pending_after(pending).map_values(plan) =~= rest.map_values(plan) + pushed(
                objects,
                inside,
            ));
            lemma_pending_append(rest, node.children, inside, keep);
            assert(after.found + outstanding(pending_after(pending), keep) =~= w.found
                + outstanding(pending, keep));
        },
        _ => {
            assert(preorder(node, in_web_doc, keep) + outstanding(rest, keep) =~= outstanding(
                rest,
                keep,
            ));
        },
    }
}

proof fn lemma_run(w: WalkState, pending: Seq<(Node, bool)>, keep: Keep)
    requires
        on_course(w, pending),
    ensures
        run(w, pending, keep).phase is Done,
        run(w, pending, keep).found == w.found + outstanding(pending, keep),
    decreases pending_count(pending),
{
    if pending.len() == 0 {
        assert(w.found + outstanding(pending, keep) =~= w.found);
    } else {
        lemma_visit(w, pending, keep);
        lemma_pending_shrinks(pending);
        lemma_run(visit(w, pending.last().0, keep), pending_after(pending), keep);
    }
}

/// A walk of any subtree ends, and it then has found the wanted elements that
/// are on screen, in pre-order.
pub proof fn law_walk_is_preorder(root: Node, keep: Keep)
    ensures
        ({
            let start = resume(seq![(root.object, false)], seq![]);
            let end = run(start, seq![(root, false)], keep);
            &&& end.phase is Done
            &&& end.found == preorder(root, false, keep)
        }),
{
    let pending = seq![(root, false)];
    let start = resume(seq![(root.object, false)], seq![]);
    assert(pending.map_values(|p: (Node, bool)| (p.0.object, p.1)) =~= seq![(root.object, false)]);
    lemma_run(start, pending, keep);
    assert(pending.drop_last() =~= seq![]);
    assert(outstanding(pending, keep) =~= preorder(root, false, keep) + outstanding(
        pending.drop_last(),
        keep,
    ));
    assert(outstanding(pending, keep) =~= preorder(root, false, keep));
    assert(start.found + outstanding(pending, keep) =~= preorder(root, false, keep));
}

} // verus!
