//! Between the panel's core and the toolkit: which keys it is fed, what it
//! shows, and how its outcome names elements.

use super::hints_window::State;
use super::panel::{CoreOutcome, Item, PanelCore, PanelKey, PanelState};
use crate::atspi::role_name;
use crate::hints::Hint;
use crate::session::PanelOutcome;
use vstd::prelude::*;

verus! {

/// The most rows the panel is sized for.
pub const MAX_ROWS: usize = 10;

/// How many rows a panel for `n` hints is sized for: at least one, and at most
/// [`MAX_ROWS`].
pub fn sized_rows(n: usize) -> (r: usize)
    ensures
        r == if n < 1 {
            1
        } else if n > MAX_ROWS {
            MAX_ROWS
        } else {
            n
        },
{
    if n < 1 {
        1
    } else if n > MAX_ROWS {
        MAX_ROWS
    } else {
        n
    }
}

// ---- items ----

/// The text that an element is searched by: its name and its role.
pub open spec fn haystack(hint: Hint, role: Seq<char>) -> Seq<char> {
    hint.element.name@ + " "@ + role
}

/// The item stands for the hint, whose role has that name.
pub open spec fn stands_for(item: Item, hint: Hint, role: Seq<char>) -> bool {
    &&& item.label@ == hint.label@
    &&& (item.center.0 as int, item.center.1 as int) == hint.rect.middle()
    &&& item.text@ == haystack(hint, role)
}

/// The core's item for a hint whose role has that name.
pub fn item_for(hint: &Hint, role: &str) -> (r: Item)
    requires
        hint.rect.has_center(),
    ensures
        stands_for(r, *hint, role@),
{
    let mut text = hint.element.name.clone();
    text.append(" ");
    text.append(role);
    Item { label: hint.label.clone(), center: hint.rect.center(), text }
}

/// Whether every hint has a center.
pub fn centers_fit(hints: &[Hint]) -> (r: bool)
    ensures
        r == (forall|i: int| 0 <= i < hints@.len() ==> (#[trigger] hints@[i]).rect.has_center()),
{
    for i in 0..hints.len()
        invariant
            forall|j: int| 0 <= j < i ==> (#[trigger] hints@[j]).rect.has_center(),
    {
        if !hints[i].rect.center_fits() {
            assert(!hints@[i as int].rect.has_center());
            return false;
        }
    }
    true
}

/// Build the core's items from located hints.
pub fn items_from(hints: &[Hint]) -> (r: Vec<Item>)
    requires
        forall|i: int| 0 <= i < hints@.len() ==> (#[trigger] hints@[i]).rect.has_center(),
    ensures
        r@.len() == hints@.len(),
        forall|i: int|
            0 <= i < hints@.len() ==> stands_for(
                #[trigger] r@[i],
                hints@[i],
                role_name(hints@[i].element.role.number()),
            ),
{
    let mut r: Vec<Item> = Vec::new();
    for i in 0..hints.len()
        invariant
            forall|j: int| 0 <= j < hints@.len() ==> (#[trigger] hints@[j]).rect.has_center(),
            r@.len() == i,
            forall|j: int|
                0 <= j < i ==> stands_for(
                    #[trigger] r@[j],
                    hints@[j],
                    role_name(hints@[j].element.role.number()),
                ),
    {
        let hint = &hints[i];
        r.push(item_for(hint, hint.element.role.name().as_str()));
    }
    r
}

// ---- keys ----

/// A key press, as far as the panel tells them apart.
#[derive(Debug, Clone, Copy, PartialEq, Eq, Structural)]
pub enum KeyPress {
    Escape,
    /// Return, or Enter on the keypad.
    Return,
    Up,
    Down,
    /// A letter, in lower case.
    Letter(char),
    /// Either Control key.
    Control,
    Other,
}

/// What a key press means to the panel.
pub open spec fn key_meaning(press: KeyPress, ctrl: bool) -> PanelKey {
    match press {
        KeyPress::Escape => PanelKey::Escape,
        KeyPress::Return => PanelKey::Return { ctrl },
        KeyPress::Up => PanelKey::Up,
        KeyPress::Down => PanelKey::Down,
        KeyPress::Letter(c) => if !ctrl {
            PanelKey::Other
        } else if c == 'p' {
            PanelKey::Up
        } else if c == 'n' {
            PanelKey::Down
        } else if c == 'h' {
            PanelKey::ScrollLeft
        } else if c == 'j' {
            PanelKey::ScrollDown
        } else if c == 'k' {
            PanelKey::ScrollUp
        } else if c == 'l' {
            PanelKey::ScrollRight
        } else {
            PanelKey::Other
        },
        KeyPress::Control => PanelKey::CtrlPressed,
        KeyPress::Other => PanelKey::Other,
    }
}

/// What a key press means to the panel, and whether it is kept from the entry.
/// Intercepted keys never reach the entry; everything else does (but still
/// disarms a pending Ctrl tap).
pub fn panel_key(press: KeyPress, ctrl: bool) -> (r: (PanelKey, bool))
    ensures
        r.0 == key_meaning(press, ctrl),
        r.1 == !(r.0 is CtrlPressed || r.0 is Other),
{
    let key = match press {
        KeyPress::Escape => PanelKey::Escape,
        KeyPress::Return => PanelKey::Return { ctrl },
        KeyPress::Up => PanelKey::Up,
        KeyPress::Down => PanelKey::Down,
        KeyPress::Letter(c) => {
            if !ctrl {
                PanelKey::Other
            } else if c == 'p' {
                PanelKey::Up
            } else if c == 'n' {
                PanelKey::Down
            } else if c == 'h' {
                PanelKey::ScrollLeft
            } else if c == 'j' {
                PanelKey::ScrollDown
            } else if c == 'k' {
                PanelKey::ScrollUp
            } else if c == 'l' {
                PanelKey::ScrollRight
            } else {
                PanelKey::Other
            }
        },
        KeyPress::Control => PanelKey::CtrlPressed,
        KeyPress::Other => PanelKey::Other,
    };
    let stop = match key {
        PanelKey::CtrlPressed | PanelKey::Other => false,
        _ => true,
    };
    (key, stop)
}

/// What letting go of a key means to the panel, if anything.
pub fn released_key(press: KeyPress) -> (r: Option<PanelKey>)
    ensures
        r == if press is Control {
            Some(PanelKey::CtrlReleased)
        } else {
            None
        },
{
    match press {
        KeyPress::Control => Some(PanelKey::CtrlReleased),
        _ => None,
    }
}

// ---- what is shown ----

/// The status line.
pub open spec fn status(s: PanelState) -> Seq<char> {
    if s.grace is Some {
        "↵ again → double-click"@
    } else if s.refetching {
        "re-scanning…"@
    } else {
        "↵ click · ⌃↵ right-click · ↵↵ double · ⌃ warp · ⌃hjkl scroll · esc"@
    }
}

/// The status line.
pub fn status_text(core: &PanelCore) -> (r: &'static str)
    ensures
        r@ == status(core@),
{
    if core.grace.is_some() {
        "↵ again → double-click"
    } else if core.refetching {
        "re-scanning…"
    } else {
        "↵ click · ⌃↵ right-click · ↵↵ double · ⌃ warp · ⌃hjkl scroll · esc"
    }
}

/// A row of the list.
#[derive(Debug, Clone, Copy, PartialEq, Eq, Structural)]
pub enum Row {
    /// Nothing is listed, because the positions are stale.
    StaleNote,
    /// Nothing is listed, because there are no elements.
    EmptyNote,
    /// Nothing is listed, because nothing matches.
    NoMatchNote,
    /// The header of the hints that the query is typing towards.
    HintsHeader,
    /// The header of the fuzzy matches below them.
    MatchesHeader,
    /// An element, with its chip lit up where its label is typed out.
    Element { index: usize, typed_out: bool },
}

impl Row {
    /// The fixed text of a row that shows no element.
    pub fn text(self) -> (r: Option<&'static str>)
        ensures
            match self {
                Row::StaleNote => r matches Some(t) && t@ == "release ⌃ to re-scan"@,
                Row::EmptyNote => r matches Some(t) && t@
                    == "no accessible elements — ⌃hjkl scrolls"@,
                Row::NoMatchNote => r matches Some(t) && t@ == "no matches"@,
                Row::HintsHeader => r matches Some(t) && t@ == "hints"@,
                Row::MatchesHeader => r matches Some(t) && t@ == "matches"@,
                Row::Element { .. } => r is None,
            },
    {
        match self {
            Row::StaleNote => Some("release ⌃ to re-scan"),
            Row::EmptyNote => Some("no accessible elements — ⌃hjkl scrolls"),
            Row::NoMatchNote => Some("no matches"),
            Row::HintsHeader => Some("hints"),
            Row::MatchesHeader => Some("matches"),
            Row::Element { .. } => None,
        }
    }
}

/// The rows for listed labels; only a typed-out one lights up.
pub open spec fn label_rows(s: PanelState) -> Seq<Row> {
    s.label_matches.map_values(
        |index: usize| Row::Element { index, typed_out: s.hint_match == Some(index) },
    )
}

/// The rows for fuzzy matches.
pub open spec fn match_rows(s: PanelState) -> Seq<Row> {
    s.fuzzy_matches.map_values(|index: usize| Row::Element { index, typed_out: false })
}

/// The rows of the list: hints the query is typing towards in their own
/// section, above the fuzzy matches, or else a note why nothing is listed.
pub open spec fn rows(s: PanelState) -> Seq<Row> {
    if s.listed().len() == 0 {
        seq![
            if s.stale {
                Row::StaleNote
            } else if s.items.len() == 0 {
                Row::EmptyNote
            } else {
                Row::NoMatchNote
            },
        ]
    } else if s.label_matches.len() == 0 {
        match_rows(s)
    } else if s.fuzzy_matches.len() == 0 {
        seq![Row::HintsHeader] + label_rows(s)
    } else {
        seq![Row::HintsHeader] + label_rows(s) + seq![Row::MatchesHeader] + match_rows(s)
    }
}

/// The row shows the element.
pub open spec fn shows(row: Row, index: usize) -> bool {
    row matches Row::Element { index: i, .. } && i == index
}

/// Some element is selected and the row at `k` shows it, and none after it
/// does.
pub open spec fn selected_row_is(s: PanelState, k: Option<usize>) -> bool {
    match k {
        Some(k) => {
            &&& s.selection() is Some
            &&& k < rows(s).len()
            &&& shows(rows(s)[k as int], s.selection()->0)
            &&& forall|j: int| k < j < rows(s).len() ==> !shows(#[trigger] rows(s)[j], s.selection()->0)
        },
        None => s.selection() is None || forall|j: int|
            0 <= j < rows(s).len() ==> !shows(#[trigger] rows(s)[j], s.selection()->0),
    }
}

/// The rows of the list, and which of them is the selected one.
pub fn list_rows(core: &PanelCore) -> (r: (Vec<Row>, Option<usize>))
    requires
        core@.wf(),
        core@.items.len() <= usize::MAX - 2,
    ensures
        r.0@ == rows(core@),
        selected_row_is(core@, r.1),
{
    let ghost s = core@;
    let mut out: Vec<Row> = Vec::new();
    if core.label_matches.len() == 0 && core.fuzzy_matches.len() == 0 {
        if core.stale {
            out.push(Row::StaleNote);
        } else if core.items.len() == 0 {
            out.push(Row::EmptyNote);
        } else {
            out.push(Row::NoMatchNote);
        }
        assert(out@ =~= rows(s));
        return (out, None);
    }
    if core.label_matches.len() > 0 {
        out.push(Row::HintsHeader);
        let ghost head = out@;
        for k in 0..core.label_matches.len()
            invariant
                s == core@,
                head == seq![Row::HintsHeader],
                out@ == head + label_rows(s).take(k as int),
        {
            let index = core.label_matches[k];
            let typed_out = match core.hint_match {
                Some(i) => i == index,
                None => false,
            };
            out.push(Row::Element { index, typed_out });
            assert(out@ =~= head + label_rows(s).take(k + 1));
        }
        assert(label_rows(s).take(core.label_matches@.len() as int) =~= label_rows(s));
        if core.fuzzy_matches.len() > 0 {
            out.push(Row::MatchesHeader);
        }
    }
    let ghost head = out@;
    for k in 0..core.fuzzy_matches.len()
        invariant
            s == core@,
            out@ == head + match_rows(s).take(k as int),
    {
        out.push(Row::Element { index: core.fuzzy_matches[k], typed_out: false });
        assert(out@ =~= head + match_rows(s).take(k + 1));
    }
    assert(match_rows(s).take(core.fuzzy_matches@.len() as int) =~= match_rows(s));
    assert(out@ =~= rows(s));
    let mut selected: Option<usize> = None;
    if let Some(wanted) = core.selected() {
        for k in 0..out.len()
            invariant
                out@ == rows(s),
                s.selection() == Some(wanted),
                match selected {
                    Some(i) => {
                        &&& i < k
                        &&& shows(rows(s)[i as int], wanted)
                        &&& forall|j: int| i < j < k ==> !shows(#[trigger] rows(s)[j], wanted)
                    },
                    None => forall|j: int| 0 <= j < k ==> !shows(#[trigger] rows(s)[j], wanted),
                },
        {
            if let Row::Element { index, .. } = out[k] {
                if index == wanted {
                    selected = Some(k);
                }
            }
        }
    }
    (out, selected)
}

/// Brings the hint overlay in line with the panel: its chips are filtered by
/// the query, the selection is outlined, only a typed-out chip lights up, and
/// everything is hidden while the positions are stale.
pub fn mirror(core: &PanelCore, overlay: &mut State)
    requires
        core@.wf(),
    ensures
        final(overlay).typed@ == core@.query,
        final(overlay).selected == core@.selection(),
        final(overlay).hint_match == core@.hint_match,
        final(overlay).hidden == core@.stale,
        final(overlay).hints == old(overlay).hints,
{
    overlay.typed = core.query.clone();
    overlay.selected = core.selected();
    overlay.hint_match = core.hint_match;
    overlay.hidden = core.stale;
}

// ---- the outcome ----

/// How a panel interaction ended, with the element it ended on.
pub fn panel_outcome(outcome: CoreOutcome, hints: &[Hint]) -> (r: PanelOutcome)
    requires
        match outcome {
            CoreOutcome::Dismissed { .. } => true,
            CoreOutcome::Clicked { index, .. } => index < hints@.len(),
            CoreOutcome::RightClicked { index, .. } => index < hints@.len(),
        },
    ensures
        r == match outcome {
            CoreOutcome::Dismissed { scrolls, warped } => PanelOutcome::Dismissed {
                scrolls,
                warped,
            },
            CoreOutcome::Clicked { index, at, double } => PanelOutcome::Clicked {
                element: hints@[index as int].element,
                at,
                double,
            },
            CoreOutcome::RightClicked { index, at } => PanelOutcome::RightClicked {
                element: hints@[index as int].element,
                at,
            },
        },
{
    match outcome {
        CoreOutcome::Dismissed { scrolls, warped } => PanelOutcome::Dismissed { scrolls, warped },
        CoreOutcome::Clicked { index, at, double } => PanelOutcome::Clicked {
            element: hints[index].element.clone(),
            at,
            double,
        },
        CoreOutcome::RightClicked { index, at } => PanelOutcome::RightClicked {
            element: hints[index].element.clone(),
            at,
        },
    }
}

// ---- what the shell shows and understands ----

/// An item is found by its element's name, a space, and the name of its role.
pub proof fn law_items_are_searched_by_name_and_role(hint: Hint, role: Seq<char>)
    ensures
        ({
            let (text, n) = (haystack(hint, role), hint.element.name@.len() as int);
            &&& text.len() == n + 1 + role.len()
            &&& text.take(n) == hint.element.name@
            &&& text[n] == ' '
            &&& text.skip(n + 1) == role
        }),
{
    reveal_strlit(" ");
    let (text, n) = (haystack(hint, role), hint.element.name@.len() as int);
    assert(text.take(n) =~= hint.element.name@);
    assert(text.skip(n + 1) =~= role);
}

/// An item carries its hint's label and lies in the middle of its rectangle: no
/// further from the one edge than from the other, by a pixel at most.
pub proof fn law_items_stand_for_their_hints(item: Item, hint: Hint, role: Seq<char>)
    requires
        stands_for(item, hint, role),
    ensures
        item.label@ == hint.label@,
        item.text@ == haystack(hint, role),
        hint.rect.w >= 0 ==> 0 <= hint.rect.w - 2 * (item.center.0 - hint.rect.x) <= 1,
        hint.rect.h >= 0 ==> 0 <= hint.rect.h - 2 * (item.center.1 - hint.rect.y) <= 1,
{
}

/// With Ctrl the letters h, j, k and l scroll left, down, up and right, and p and
/// n move up and down; no other letter means anything, and none does without
/// Ctrl.
pub proof fn law_letters_act_only_with_ctrl(c: char)
    ensures
        key_meaning(KeyPress::Letter(c), false) is Other,
        ({
            let key = key_meaning(KeyPress::Letter(c), true);
            &&& key is ScrollLeft <==> c == 'h'
            &&& key is ScrollDown <==> c == 'j'
            &&& key is ScrollUp <==> c == 'k'
            &&& key is ScrollRight <==> c == 'l'
            &&& key is Up <==> c == 'p'
            &&& key is Down <==> c == 'n'
            &&& !(key is Return) && !(key is Escape) && !(key is CtrlPressed)
            &&& !(key is CtrlReleased)
        }),
{
}

/// The other keys mean the same with Ctrl and without, but for Return, which
/// passes it on.
pub proof fn law_keys_mean_what_they_say(ctrl: bool)
    ensures
        key_meaning(KeyPress::Escape, ctrl) is Escape,
        key_meaning(KeyPress::Up, ctrl) is Up,
        key_meaning(KeyPress::Down, ctrl) is Down,
        key_meaning(KeyPress::Control, ctrl) is CtrlPressed,
        key_meaning(KeyPress::Other, ctrl) is Other,
        key_meaning(KeyPress::Return, ctrl) == (PanelKey::Return { ctrl }),
{
}

/// A pending click comes before a re-scan in the status line; the two have
/// texts of their own, and everything else has the third.
pub proof fn law_status_follows_the_state(s: PanelState, t: PanelState)
    ensures
        s.grace is Some && t.grace is Some ==> status(s) == status(t),
        s.grace is None && t.grace is None && s.refetching == t.refetching ==> status(s) == status(
            t,
        ),
        s.grace is Some && t.grace is None ==> status(s) != status(t),
        s.grace is None && t.grace is None && s.refetching && !t.refetching ==> status(s)
            != status(t),
        s.grace is Some ==> status(s) == "↵ again → double-click"@,
        s.grace is None && s.refetching ==> status(s) == "re-scanning…"@,
{
    reveal_strlit("↵ again → double-click");
    reveal_strlit("re-scanning…");
    reveal_strlit("↵ click · ⌃↵ right-click · ↵↵ double · ⌃ warp · ⌃hjkl scroll · esc");
    assert("↵ again → double-click"@.len() != "re-scanning…"@.len());
}

/// The rows of a list that is not empty: every label match in order, below a
/// header, then every fuzzy match in order, below another header where there
/// are both; only a label match that is typed out lights up.
pub proof fn law_rows_show_every_match(s: PanelState, k: int)
    requires
        s.label_matches.len() + s.fuzzy_matches.len() > 0,
    ensures
        ({
            let (n, m) = (s.label_matches.len() as int, s.fuzzy_matches.len() as int);
            let heads = (if n > 0 { 1int } else { 0 }) + (if n > 0 && m > 0 { 1int } else { 0 });
            &&& rows(s).len() == n + m + heads
            &&& n > 0 ==> rows(s)[0] == Row::HintsHeader
            &&& n > 0 && m > 0 ==> rows(s)[n + 1] == Row::MatchesHeader
            &&& 0 <= k < n ==> rows(s)[k + 1] == (Row::Element {
                index: s.label_matches[k],
                typed_out: s.hint_match == Some(s.label_matches[k]),
            })
            &&& 0 <= k < m ==> rows(s)[n + heads + k] == (Row::Element {
                index: s.fuzzy_matches[k],
                typed_out: false,
            })
        }),
{
}

/// Why nothing is listed: the positions are stale, or else there are no
/// elements, or else none matches.
pub proof fn law_empty_lists_say_why(s: PanelState)
    requires
        s.label_matches.len() + s.fuzzy_matches.len() == 0,
    ensures
        rows(s).len() == 1,
        s.stale ==> rows(s)[0] == Row::StaleNote,
        !s.stale && s.items.len() == 0 ==> rows(s)[0] == Row::EmptyNote,
        !s.stale && s.items.len() > 0 ==> rows(s)[0] == Row::NoMatchNote,
{
}

/// The row that is marked as selected shows the selected item, and one is marked
/// wherever that item is listed.
pub proof fn law_selected_row_shows_the_selection(s: PanelState, k: Option<usize>, j: int, i: usize)
    requires
        selected_row_is(s, k),
        s.selection() == Some(i),
        0 <= j < rows(s).len(),
        rows(s)[j] matches Row::Element { index, .. } && index == i,
    ensures
        k matches Some(r) && r < rows(s).len() && j <= r && (rows(s)[r as int] matches Row::Element {
            index,
            ..
        } && index == i),
{
    assert(shows(rows(s)[j], i));
}

/// The line that is shown while nothing is pending.
pub proof fn law_status_lists_the_keys(s: PanelState)
    requires
        s.grace is None,
        !s.refetching,
    ensures
        status(s) == "↵ click · ⌃↵ right-click · ↵↵ double · ⌃ warp · ⌃hjkl scroll · esc"@,
{
}

} // verus!
