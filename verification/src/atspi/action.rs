//! Choosing the action through which an element is activated.

use super::{Role, COMBO_BOX, ENTRY, PASSWORD_TEXT, SLIDER, SPIN_BUTTON};
use crate::text::{
    ascii_lowercase, contains, has_piece, lead, lemma_lead, lemma_lead_is, texts,
    to_ascii_lowercase,
};
use vstd::prelude::*;

verus! {

/// Roles for which a synthetic pointer click is preferable to an action: it
/// places the caret or the focus.
pub open spec fn pointer_role(code: u32) -> bool {
    ||| code == ENTRY
    ||| code == PASSWORD_TEXT
    ||| code == COMBO_BOX
    ||| code == SLIDER
    ||| code == SPIN_BUTTON
}

/// Whether a synthetic pointer click is preferable to an action.
pub fn prefers_pointer(role: Role) -> (r: bool)
    ensures
        r == pointer_role(role.number()),
{
    let code = role.code();
    code == ENTRY || code == PASSWORD_TEXT || code == COMBO_BOX || code == SLIDER || code
        == SPIN_BUTTON
}

/// The verbs that activate an element, the preferred ones first.
pub open spec fn activating_verbs() -> Seq<Seq<char>> {
    seq!["click"@, "press"@, "activate"@, "jump"@, "open"@]
}

/// The verb does not occur in the name, whatever the case of its letters.
pub open spec fn lacks(verb: Seq<char>) -> spec_fn(Seq<char>) -> bool {
    |name: Seq<char>| !has_piece(ascii_lowercase(name), verb)
}

/// The first of the names in which the verb occurs.
pub open spec fn first_with(names: Seq<Seq<char>>, verb: Seq<char>) -> Option<nat> {
    let k = lead(names, lacks(verb));
    if k < names.len() {
        Some(k)
    } else {
        None
    }
}

/// The first name for the first of the verbs that occurs in any name.
pub open spec fn first_for(names: Seq<Seq<char>>, verbs: Seq<Seq<char>>) -> Option<nat>
    decreases verbs.len(),
{
    if verbs.len() == 0 {
        None
    } else {
        match first_with(names, verbs[0]) {
            Some(k) => Some(k),
            None => first_for(names, verbs.drop_first()),
        }
    }
}

/// Where the verb first occurs among the names.
fn find_verb(names: &[String], verb: &str) -> (r: Option<usize>)
    ensures
        first_with(texts(names@), verb@) == match r {
            Some(k) => Some(k as nat),
            None => None::<nat>,
        },
        r matches Some(k) ==> k < names@.len(),
{
    for i in 0..names.len()
        invariant
            forall|j: int|
                0 <= j < i ==> lacks(verb@)(#[trigger] texts(names@)[j]),
    {
        let lower = to_ascii_lowercase(names[i].as_str());
        assert(texts(names@)[i as int] == names@[i as int]@);
        if contains(lower.as_str(), verb) {
            proof {
                lemma_lead_is(texts(names@), lacks(verb@), i as int);
            }
            return Some(i);
        }
    }
    proof {
        lemma_lead_is(texts(names@), lacks(verb@), names@.len() as int);
    }
    None
}

/// The action to perform, of those that an element offers: the first one for
/// the most preferred verb that any of them carries, with its own name.
pub fn choose_action(names: &[String]) -> (r: Option<(usize, String)>)
    ensures
        r is Some <==> first_for(texts(names@), activating_verbs()) is Some,
        r matches Some((index, name)) ==> {
            &&& first_for(texts(names@), activating_verbs()) == Some(index as nat)
            &&& index < names@.len()
            &&& name@ == names@[index as int]@
        },
{
    let verbs: [&str; 5] = ["click", "press", "activate", "jump", "open"];
    let ghost all = activating_verbs();
    assert(all.skip(0) == all);
    for i in 0..5
        invariant
            all == activating_verbs(),
            verbs@.len() == 5,
            all.len() == 5,
            forall|j: int| 0 <= j < 5 ==> verbs@[j]@ == #[trigger] all[j],
            first_for(texts(names@), all) == first_for(texts(names@), all.skip(i as int)),
    {
        assert(all.skip(i as int)[0] == all[i as int]);
        assert(all.skip(i as int).drop_first() == all.skip(i + 1));
        if let Some(index) = find_verb(names, verbs[i]) {
            return Some((index, names[index].clone()));
        }
    }
    assert(all.skip(5).len() == 0);
    None
}

/// The action with which an element is activated, if its role and what it
/// offers allow one; otherwise the pointer is used. An element without an
/// action interface offers nothing.
pub fn plan_action(role: Role, offered: Option<&[String]>) -> (r: Option<(usize, String)>)
    ensures
        r is Some <==> {
            &&& !pointer_role(role.number())
            &&& offered matches Some(names)
            &&& first_for(texts(names@), activating_verbs()) is Some
        },
        r matches Some((index, name)) ==> {
            &&& offered matches Some(names)
            &&& first_for(texts(names@), activating_verbs()) == Some(index as nat)
            &&& index < names@.len()
            &&& name@ == names@[index as int]@
        },
{
    if prefers_pointer(role) {
        return None;
    }
    match offered {
        Some(names) => choose_action(names),
        None => None,
    }
}

/// The verb to report, if the action was performed.
pub fn performed_verb(performed: bool, verb: String) -> (r: Option<String>)
    ensures
        r == if performed {
            Some(verb)
        } else {
            None
        },
{
    if performed {
        Some(verb)
    } else {
        None
    }
}

/// The verb occurs in the name, whatever the case of its letters.
pub open spec fn carries(name: Seq<char>, verb: Seq<char>) -> bool {
    has_piece(ascii_lowercase(name), verb)
}

/// The most preferred verb that occurs anywhere decides, and the first action
/// that carries it is chosen; nothing is chosen only where no verb occurs.
pub proof fn law_most_preferred_verb_wins(names: Seq<Seq<char>>, verbs: Seq<Seq<char>>)
    ensures
        match first_for(names, verbs) {
            Some(k) => {
                &&& k < names.len()
                &&& exists|v: int|
                    {
                        &&& 0 <= v < verbs.len()
                        &&& carries(names[k as int], #[trigger] verbs[v])
                        &&& forall|j: int| 0 <= j < k ==> !carries(#[trigger] names[j], verbs[v])
                        &&& forall|u: int, j: int|
                            0 <= u < v && 0 <= j < names.len() ==> !#[trigger] carries(
                                names[j],
                                verbs[u],
                            )
                    }
            },
            None => forall|u: int, j: int|
                0 <= u < verbs.len() && 0 <= j < names.len() ==> !#[trigger] carries(
                    names[j],
                    verbs[u],
                ),
        },
    decreases verbs.len(),
{
    if verbs.len() > 0 {
        let p = lacks(verbs[0]);
        lemma_lead(names, p);
        let k = lead(names, p) as int;
        if k < names.len() {
            assert(!p(names[k]));
            assert forall|j: int| 0 <= j < k implies !carries(#[trigger] names[j], verbs[0]) by {
                assert(p(names[j]));
            }
            assert(carries(names[k], verbs[0]));
        } else {
            let rest = verbs.drop_first();
            law_most_preferred_verb_wins(names, rest);
            assert forall|j: int| 0 <= j < names.len() implies !carries(
                #[trigger] names[j],
                verbs[0],
            ) by {
                assert(p(names[j]));
            }
            match first_for(names, rest) {
                Some(i) => {
                    let w = choose|v: int|
                        {
                            &&& 0 <= v < rest.len()
                            &&& carries(names[i as int], #[trigger] rest[v])
                            &&& forall|j: int|
                                0 <= j < i ==> !carries(#[trigger] names[j], rest[v])
                            &&& forall|u: int, j: int|
                                0 <= u < v && 0 <= j < names.len() ==> !#[trigger] carries(
                                    names[j],
                                    rest[u],
                                )
                        };
                    assert(rest[w] == verbs[w + 1]);
                    assert forall|u: int, j: int|
                        0 <= u < w + 1 && 0 <= j < names.len() implies !#[trigger] carries(
                        names[j],
                        verbs[u],
                    ) by {
                        if u > 0 {
                            assert(!carries(names[j], rest[u - 1]));
                        }
                    }
                    assert(carries(names[i as int], verbs[w + 1]));
                },
                None => {
                    assert forall|u: int, j: int|
                        0 <= u < verbs.len() && 0 <= j < names.len() implies !#[trigger] carries(
                        names[j],
                        verbs[u],
                    ) by {
                        if u > 0 {
                            assert(!carries(names[j], rest[u - 1]));
                        }
                    }
                },
            }
        }
    }
}

} // verus!
