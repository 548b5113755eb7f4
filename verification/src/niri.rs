//! What is asked of the compositor, what its replies mean, and where its
//! configuration is.

use crate::paths::{join, joined};
use crate::text::{
    chars_of, digit, digits, lead, lemma_lead, lemma_lead_is, not_sep, piece, runs, same_chars, split_chars,
    split_on, split_words, string_of, texts, trim, trimmed, white_space, is_white_space, words,
};
use vstd::prelude::*;
use vstd::utf8::encode_utf8;

verus! {

// ---- replies ----

/// What can be asked of the compositor.
#[derive(Debug, Clone, Copy, PartialEq, Eq, Structural)]
pub enum Question {
    FocusedWindow,
    FocusedOutput,
    Windows,
    Workspaces,
}

impl Question {
    pub open spec fn text(self) -> Seq<char> {
        match self {
            Question::FocusedWindow => "FocusedWindow"@,
            Question::FocusedOutput => "FocusedOutput"@,
            Question::Windows => "Windows"@,
            Question::Workspaces => "Workspaces"@,
        }
    }

    pub fn name(self) -> (r: &'static str)
        ensures
            r@ == self.text(),
    {
        match self {
            Question::FocusedWindow => "FocusedWindow",
            Question::FocusedOutput => "FocusedOutput",
            Question::Windows => "Windows",
            Question::Workspaces => "Workspaces",
        }
    }
}

/// A reply to a question.
#[derive(Debug)]
pub enum Reply<T> {
    /// What was asked for.
    Value(T),
    /// A reply to some other question, as a text.
    Other(String),
}

/// Why the focused window's geometry could not be resolved.
#[derive(Debug)]
pub enum GeometryError {
    NoFocusedWindow,
    NoOutput,
    Unexpected { question: Question, reply: String },
    FloatingWithoutPosition,
    TiledWithoutPosition,
    NoWorkspace,
    NoLogicalGeometry,
    NoMode,
}

impl GeometryError {
    pub open spec fn text(self) -> Seq<char> {
        match self {
            GeometryError::NoFocusedWindow =>
                "no focused window (a layer-shell surface may hold focus)"@,
            GeometryError::NoOutput => "focused window has no output"@,
            GeometryError::Unexpected { question, reply } => "unexpected niri response to "@
                + question.text() + ": "@ + reply@,
            GeometryError::FloatingWithoutPosition =>
                "floating window missing tile_pos_in_workspace_view"@,
            GeometryError::TiledWithoutPosition =>
                "tiled window missing pos_in_scrolling_layout"@,
            GeometryError::NoWorkspace => "could not find the window's workspace"@,
            GeometryError::NoLogicalGeometry =>
                "focused output has no logical geometry (disabled?)"@,
            GeometryError::NoMode => "focused output has no current mode"@,
        }
    }

    pub fn to_string(&self) -> (r: String)
        ensures
            r@ == self.text(),
    {
        match self {
            GeometryError::NoFocusedWindow =>
                "no focused window (a layer-shell surface may hold focus)".to_owned(),
            GeometryError::NoOutput => "focused window has no output".to_owned(),
            GeometryError::Unexpected { question, reply } => {
                let mut r = "unexpected niri response to ".to_owned();
                r.append(question.name());
                r.append(": ");
                r.append(reply.as_str());
                r
            },
            GeometryError::FloatingWithoutPosition =>
                "floating window missing tile_pos_in_workspace_view".to_owned(),
            GeometryError::TiledWithoutPosition =>
                "tiled window missing pos_in_scrolling_layout".to_owned(),
            GeometryError::NoWorkspace => "could not find the window's workspace".to_owned(),
            GeometryError::NoLogicalGeometry =>
                "focused output has no logical geometry (disabled?)".to_owned(),
            GeometryError::NoMode => "focused output has no current mode".to_owned(),
        }
    }
}

/// The focused window.
pub fn focused_window<T>(reply: Reply<Option<T>>) -> (r: Result<T, GeometryError>)
    ensures
        r == match reply {
            Reply::Value(Some(window)) => Ok::<T, GeometryError>(window),
            Reply::Value(None) => Err(GeometryError::NoFocusedWindow),
            Reply::Other(reply) => Err(
                GeometryError::Unexpected { question: Question::FocusedWindow, reply },
            ),
        },
{
    match reply {
        Reply::Value(Some(window)) => Ok(window),
        Reply::Value(None) => Err(GeometryError::NoFocusedWindow),
        Reply::Other(reply) => Err(
            GeometryError::Unexpected { question: Question::FocusedWindow, reply },
        ),
    }
}

/// The output that the focused window is on.
pub fn focused_output<T>(reply: Reply<Option<T>>) -> (r: Result<T, GeometryError>)
    ensures
        r == match reply {
            Reply::Value(Some(output)) => Ok::<T, GeometryError>(output),
            Reply::Value(None) => Err(GeometryError::NoOutput),
            Reply::Other(reply) => Err(
                GeometryError::Unexpected { question: Question::FocusedOutput, reply },
            ),
        },
{
    match reply {
        Reply::Value(Some(output)) => Ok(output),
        Reply::Value(None) => Err(GeometryError::NoOutput),
        Reply::Other(reply) => Err(
            GeometryError::Unexpected { question: Question::FocusedOutput, reply },
        ),
    }
}

/// Where a window's place comes from.
#[derive(Debug, Clone, Copy, PartialEq, Eq, Structural)]
pub enum Placement {
    /// Floating windows carry their tile position directly.
    Floating,
    /// Tiled: reconstructed from the scrolling layout, by the window's column
    /// and its place there, both counted from one.
    Tiled { column: usize, tile: usize },
}

/// Where the window's place comes from.
pub fn placement(
    is_floating: bool,
    has_tile_pos: bool,
    layout: Option<(usize, usize)>,
) -> (r: Result<Placement, GeometryError>)
    ensures
        r == if is_floating {
            if has_tile_pos {
                Ok::<Placement, GeometryError>(Placement::Floating)
            } else {
                Err(GeometryError::FloatingWithoutPosition)
            }
        } else {
            match layout {
                Some((column, tile)) => Ok(Placement::Tiled { column, tile }),
                None => Err(GeometryError::TiledWithoutPosition),
            }
        },
{
    if is_floating {
        if has_tile_pos {
            Ok(Placement::Floating)
        } else {
            Err(GeometryError::FloatingWithoutPosition)
        }
    } else {
        match layout {
            Some((column, tile)) => Ok(Placement::Tiled { column, tile }),
            None => Err(GeometryError::TiledWithoutPosition),
        }
    }
}

/// An id other than the wanted one.
pub open spec fn other_id(wanted: Option<u64>) -> spec_fn(u64) -> bool {
    |id: u64| Some(id) != wanted
}

fn find_id(ids: &Vec<u64>, wanted: Option<u64>) -> (r: Option<usize>)
    ensures
        match r {
            Some(k) => k == lead(ids@, other_id(wanted)) && k < ids@.len(),
            None => lead(ids@, other_id(wanted)) == ids@.len(),
        },
{
    for k in 0..ids.len()
        invariant
            forall|j: int| 0 <= j < k ==> other_id(wanted)(#[trigger] ids@[j]),
    {
        let found = match wanted {
            Some(id) => ids[k] == id,
            None => false,
        };
        if found {
            proof {
                lemma_lead_is(ids@, other_id(wanted), k as int);
            }
            return Some(k);
        }
    }
    proof {
        lemma_lead_is(ids@, other_id(wanted), ids@.len() as int);
    }
    None
}

/// The first of the workspaces that is the window's.
pub fn find_workspace(reply: Reply<Vec<u64>>, wanted: Option<u64>) -> (r: Result<
    usize,
    GeometryError,
>)
    ensures
        match reply {
            Reply::Value(ids) => {
                let k = lead(ids@, other_id(wanted));
                if k < ids@.len() {
                    r == Ok::<usize, GeometryError>(k as usize)
                } else {
                    r == Err::<usize, GeometryError>(GeometryError::NoWorkspace)
                }
            },
            Reply::Other(reply) => r == Err::<usize, GeometryError>(
                GeometryError::Unexpected { question: Question::Workspaces, reply },
            ),
        },
{
    match reply {
        Reply::Value(ids) => match find_id(&ids, wanted) {
            Some(k) => Ok(k),
            None => Err(GeometryError::NoWorkspace),
        },
        Reply::Other(reply) => Err(
            GeometryError::Unexpected { question: Question::Workspaces, reply },
        ),
    }
}

/// What is known of a window's tile.
#[derive(Debug, Clone, Copy)]
pub struct Tile {
    pub workspace: Option<u64>,
    /// Column and place in it, both counted from one.
    pub layout: Option<(usize, usize)>,
}

/// The tile is on the workspace and in the column.
pub open spec fn in_column(t: Tile, workspace: Option<u64>, column: int) -> bool {
    &&& t.workspace == workspace
    &&& t.layout matches Some((c, _))
    &&& c == column
}

/// The tile is on the workspace, in the column, and above the place.
pub open spec fn above(t: Tile, workspace: Option<u64>, column: int, tile: int) -> bool {
    &&& in_column(t, workspace, column)
    &&& t.layout matches Some((_, k))
    &&& k < tile
}

/// The positions, among the first `n`, of the tiles for which `p` holds.
pub open spec fn selected(tiles: Seq<Tile>, p: spec_fn(Tile) -> bool, n: nat) -> Seq<usize>
    decreases n,
{
    if n == 0 {
        seq![]
    } else if p(tiles[n - 1]) {
        selected(tiles, p, (n - 1) as nat).push((n - 1) as usize)
    } else {
        selected(tiles, p, (n - 1) as nat)
    }
}

/// The tiles of one column.
pub open spec fn column_of(tiles: Seq<Tile>, workspace: Option<u64>, column: int) -> Seq<usize> {
    selected(tiles, |t: Tile| in_column(t, workspace, column), tiles.len())
}

/// The tiles above one place of a column.
pub open spec fn stack_above(
    tiles: Seq<Tile>,
    workspace: Option<u64>,
    column: int,
    tile: int,
) -> Seq<usize> {
    selected(tiles, |t: Tile| above(t, workspace, column, tile), tiles.len())
}

/// What a tiled window's place is summed up from: a column's width is the
/// widest of its tiles, and the columns to the left and the tiles above come
/// before the window.
#[derive(Debug)]
pub struct TilePlan {
    /// The tiles of each column to the left, from the first one.
    pub columns: Vec<Vec<usize>>,
    /// The tiles above in the same column.
    pub above: Vec<usize>,
}

fn collect_column(tiles: &Vec<Tile>, workspace: Option<u64>, column: usize) -> (r: Vec<usize>)
    ensures
        r@ == column_of(tiles@, workspace, column as int),
{
    let ghost p = |t: Tile| in_column(t, workspace, column as int);
    let mut r: Vec<usize> = Vec::new();
    for i in 0..tiles.len()
        invariant
            p == (|t: Tile| in_column(t, workspace, column as int)),
            r@ == selected(tiles@, p, i as nat),
    {
        let t = tiles[i];
        if tile_in_column(t, workspace, column) {
            r.push(i);
        }
    }
    r
}

fn same_workspace(a: Option<u64>, b: Option<u64>) -> (r: bool)
    ensures
        r == (a == b),
{
    match (a, b) {
        (Some(x), Some(y)) => x == y,
        (None, None) => true,
        _ => false,
    }
}

fn tile_in_column(t: Tile, workspace: Option<u64>, column: usize) -> (r: bool)
    ensures
        r == in_column(t, workspace, column as int),
{
    match t.layout {
        Some((c, _)) => same_workspace(t.workspace, workspace) && c == column,
        None => false,
    }
}

fn collect_above(tiles: &Vec<Tile>, workspace: Option<u64>, column: usize, tile: usize) -> (r: Vec<
    usize,
>)
    ensures
        r@ == stack_above(tiles@, workspace, column as int, tile as int),
{
    let ghost p = |t: Tile| above(t, workspace, column as int, tile as int);
    let mut r: Vec<usize> = Vec::new();
    for i in 0..tiles.len()
        invariant
            p == (|t: Tile| above(t, workspace, column as int, tile as int)),
            r@ == selected(tiles@, p, i as nat),
    {
        let t = tiles[i];
        let over = match t.layout {
            Some((_, k)) => tile_in_column(t, workspace, column) && k < tile,
            None => false,
        };
        if over {
            r.push(i);
        }
    }
    r
}

/// What a tiled window's place is summed up from.
pub fn plan_tiles(
    reply: Reply<Vec<Tile>>,
    workspace: Option<u64>,
    column: usize,
    tile: usize,
) -> (r: Result<TilePlan, GeometryError>)
    ensures
        match reply {
            Reply::Value(tiles) => {
                &&& r matches Ok(plan)
                &&& plan.columns@.len() == (if column > 0 {
                    column - 1
                } else {
                    0
                })
                &&& forall|k: int|
                    0 <= k < plan.columns@.len() ==> (#[trigger] plan.columns@[k])@ == column_of(
                        tiles@,
                        workspace,
                        k + 1,
                    )
                &&& plan.above@ == stack_above(tiles@, workspace, column as int, tile as int)
            },
            Reply::Other(reply) => r == Err::<TilePlan, GeometryError>(
                GeometryError::Unexpected { question: Question::Windows, reply },
            ),
        },
{
    match reply {
        Reply::Other(reply) => Err(
            GeometryError::Unexpected { question: Question::Windows, reply },
        ),
        Reply::Value(tiles) => {
            let mut columns: Vec<Vec<usize>> = Vec::new();
            let mut c: usize = 1;
            while c < column
                invariant
                    1 <= c,
                    c <= column || c == 1,
                    columns@.len() == c - 1,
                    forall|k: int|
                        0 <= k < columns@.len() ==> (#[trigger] columns@[k])@ == column_of(
                            tiles@,
                            workspace,
                            k + 1,
                        ),
                decreases column - c,
            {
                columns.push(collect_column(&tiles, workspace, c));
                c = c + 1;
            }
            let above = collect_above(&tiles, workspace, column, tile);
            Ok(TilePlan { columns, above })
        },
    }
}

/// The physical size of the output: that of its current mode.
pub fn output_mode(
    has_logical: bool,
    modes: &Vec<(u16, u16)>,
    current: Option<usize>,
) -> (r: Result<(u16, u16), GeometryError>)
    ensures
        r == if !has_logical {
            Err::<(u16, u16), GeometryError>(GeometryError::NoLogicalGeometry)
        } else {
            match current {
                Some(i) => if i < modes@.len() {
                    Ok(modes@[i as int])
                } else {
                    Err(GeometryError::NoMode)
                },
                None => Err(GeometryError::NoMode),
            }
        },
{
    if !has_logical {
        return Err(GeometryError::NoLogicalGeometry);
    }
    match current {
        Some(i) => {
            if i < modes.len() {
                Ok(modes[i])
            } else {
                Err(GeometryError::NoMode)
            }
        },
        None => Err(GeometryError::NoMode),
    }
}

/// A column to the left holds exactly the tiles of the workspace in it, and
/// the stack above a window exactly those of its column that come first.
pub proof fn law_selected_tiles(tiles: Seq<Tile>, p: spec_fn(Tile) -> bool, n: nat, i: usize)
    requires
        n <= tiles.len(),
        n <= usize::MAX,
    ensures
        selected(tiles, p, n).contains(i) <==> i < n && p(tiles[i as int]),
    decreases n,
{
    if n > 0 {
        law_selected_tiles(tiles, p, (n - 1) as nat, i);
        let before = selected(tiles, p, (n - 1) as nat);
        let after = selected(tiles, p, n);
        if before.contains(i) {
            let k = choose|k: int| 0 <= k < before.len() && before[k] == i;
            assert(after[k] == i);
        }
        if p(tiles[n - 1]) {
            assert(after[after.len() - 1] == n - 1);
            if after.contains(i) {
                let k = choose|k: int| 0 <= k < after.len() && after[k] == i;
                if k < before.len() {
                    assert(before[k] == i);
                }
            }
        }
    }
}

// ---- the configuration file ----

/// The path, if there is one.
pub open spec fn maybe(path: Option<Seq<u8>>) -> Seq<Seq<u8>> {
    match path {
        Some(p) => seq![p],
        None => seq![],
    }
}

/// The path below the directory, if there is one.
pub open spec fn below(dir: Option<Vec<u8>>, name: Seq<char>) -> Option<Seq<u8>> {
    match dir {
        Some(d) => Some(joined(d@, encode_utf8(name))),
        None => None,
    }
}

/// The bytes of an optional path.
pub open spec fn bytes_of(path: Option<Vec<u8>>) -> Option<Seq<u8>> {
    match path {
        Some(p) => Some(p@),
        None => None,
    }
}

/// The contents of the paths.
pub open spec fn paths_of(v: Seq<Vec<u8>>) -> Seq<Seq<u8>> {
    v.map_values(|p: Vec<u8>| p@)
}

fn push_path(paths: &mut Vec<Vec<u8>>, path: Option<Vec<u8>>)
    ensures
        paths_of(final(paths)@) == paths_of(old(paths)@) + maybe(bytes_of(path)),
{
    match path {
        Some(p) => {
            paths.push(p);
        },
        None => {},
    }
    assert(paths_of(paths@) =~= paths_of(old(paths)@) + maybe(bytes_of(path)));
}

/// Candidate niri config paths, in priority order: `$NIRI_CONFIG`, that of the
/// running niri, those below `$XDG_CONFIG_HOME` and `$HOME`, and the system's.
pub fn config_candidates(
    niri_config: Option<Vec<u8>>,
    from_process: Option<Vec<u8>>,
    xdg_config_home: Option<Vec<u8>>,
    home: Option<Vec<u8>>,
) -> (r: Vec<Vec<u8>>)
    ensures
        paths_of(r@) == maybe(bytes_of(niri_config)) + maybe(bytes_of(from_process)) + maybe(
            below(xdg_config_home, "niri/config.kdl"@),
        ) + maybe(below(home, ".config/niri/config.kdl"@)) + seq![
            encode_utf8("/etc/niri/config.kdl"@),
        ],
{
    let mut paths: Vec<Vec<u8>> = Vec::new();
    assert(paths_of(paths@) =~= seq![]);
    push_path(&mut paths, niri_config);
    assert(paths_of(paths@) =~= maybe(bytes_of(niri_config)));
    push_path(&mut paths, from_process);
    let xdg = match xdg_config_home {
        Some(dir) => Some(join(dir, "niri/config.kdl".as_bytes())),
        None => None,
    };
    push_path(&mut paths, xdg);
    let user = match home {
        Some(dir) => Some(join(dir, ".config/niri/config.kdl".as_bytes())),
        None => None,
    };
    push_path(&mut paths, user);
    let system = join(Vec::new(), "/etc/niri/config.kdl".as_bytes());
    assert(system@ =~= encode_utf8("/etc/niri/config.kdl"@));
    let ghost before = paths_of(paths@);
    paths.push(system);
    assert(paths_of(paths@) =~= before.push(system@));
    paths
}

// ---- the running niri ----

/// A decimal digit.
pub open spec fn is_digit(c: char) -> bool {
    '0' <= c && c <= '9'
}

/// The number that digits stand for.
pub open spec fn numeral(s: Seq<char>) -> nat
    decreases s.len(),
{
    if s.len() == 0 {
        0
    } else {
        10 * numeral(s.drop_last()) + (s.last() as nat - 48) as nat
    }
}

/// Digits, at least one.
pub open spec fn all_digits(s: Seq<char>) -> bool {
    s.len() > 0 && forall|i: int| 0 <= i < s.len() ==> is_digit(#[trigger] s[i])
}

/// The text without a plus sign in front.
pub open spec fn unsigned(s: Seq<char>) -> Seq<char> {
    if s.len() > 0 && s[0] == '+' {
        s.drop_first()
    } else {
        s
    }
}

/// A process id in decimal, with a plus sign or without.
pub open spec fn pid(s: Seq<char>) -> Option<u32> {
    let d = unsigned(s);
    if all_digits(d) && numeral(d) <= u32::MAX {
        Some(numeral(d) as u32)
    } else {
        None
    }
}

/// More digits do not make a smaller number.
proof fn lemma_numeral_grows(s: Seq<char>, k: int)
    requires
        0 <= k <= s.len(),
        forall|i: int| 0 <= i < s.len() ==> is_digit(#[trigger] s[i]),
    ensures
        numeral(s.take(k)) <= numeral(s),
    decreases s.len(),
{
    if k < s.len() {
        let t = s.drop_last();
        assert forall|i: int| 0 <= i < t.len() implies is_digit(#[trigger] t[i]) by {
            assert(t[i] == s[i]);
        }
        lemma_numeral_grows(t, k);
        assert(t.take(k) =~= s.take(k));
    } else {
        assert(s.take(k) =~= s);
    }
}

fn parse_pid(s: &Vec<char>) -> (r: Option<u32>)
    ensures
        r == pid(s@),
{
    let start: usize = if s.len() > 0 && s[0] == '+' {
        1
    } else {
        0
    };
    let d = piece(s.as_slice(), start, s.len());
    assert(d@ =~= unsigned(s@));
    if d.len() == 0 {
        return None;
    }
    for i in 0..d.len()
        invariant
            d@ == unsigned(s@),
            forall|j: int| 0 <= j < i ==> is_digit(#[trigger] d@[j]),
    {
        if !('0' <= d[i] && d[i] <= '9') {
            assert(!is_digit(d@[i as int]));
            return None;
        }
    }
    let mut n: u64 = 0;
    for i in 0..d.len()
        invariant
            d@ == unsigned(s@),
            forall|j: int| 0 <= j < d@.len() ==> is_digit(#[trigger] d@[j]),
            n == numeral(d@.take(i as int)),
            n <= u32::MAX,
    {
        assert(d@.take(i + 1).drop_last() =~= d@.take(i as int));
        assert(is_digit(d@[i as int]));
        n = 10 * n + (d[i] as u64 - 48);
        if n > u32::MAX as u64 {
            proof {
                lemma_numeral_grows(d@, i + 1);
            }
            return None;
        }
    }
    assert(d@.take(d@.len() as int) =~= d@);
    Some(n as u32)
}

/// The process ids among the pieces.
pub open spec fn pids(parts: Seq<Seq<char>>) -> Seq<u32>
    decreases parts.len(),
{
    if parts.len() == 0 {
        seq![]
    } else {
        match pid(parts.last()) {
            Some(p) => pids(parts.drop_last()).push(p),
            None => pids(parts.drop_last()),
        }
    }
}

/// The process ids that the socket's name may hold. `$NIRI_SOCKET` is named
/// `niri.<wayland-display>.<pid>.sock`, so niri's is among the pieces between
/// the dots.
pub fn pid_candidates(socket_name: &str) -> (r: Vec<u32>)
    ensures
        r@ == pids(split_on(socket_name@, '.')),
{
    let chars = chars_of(socket_name);
    let parts = split_chars(chars.as_slice(), '.');
    let ghost all = runs(parts@);
    let mut r: Vec<u32> = Vec::new();
    for i in 0..parts.len()
        invariant
            all == runs(parts@),
            r@ == pids(all.take(i as int)),
    {
        assert(all.take(i + 1).drop_last() =~= all.take(i as int));
        assert(all.take(i + 1).last() == parts@[i as int]@);
        if let Some(p) = parse_pid(&parts[i]) {
            r.push(p);
        }
    }
    assert(all.take(all.len() as int) =~= all);
    r
}

/// Splitting at a separator splits what is in front of it and what follows.
proof fn lemma_split_at(a: Seq<char>, sep: char, b: Seq<char>)
    ensures
        split_on(a.push(sep) + b, sep) == split_on(a, sep) + split_on(b, sep),
    decreases a.len(),
{
    let s = a.push(sep) + b;
    let p = not_sep(sep);
    lemma_lead(a, p);
    let k = lead(a, p) as int;
    assert forall|i: int| 0 <= i < k implies p(#[trigger] s[i]) by {
        assert(s[i] == a[i]);
    }
    if k < a.len() {
        assert(s[k] == a[k]);
        lemma_lead_is(s, p, k);
        let rest = a.skip(k + 1);
        assert(s.take(k) =~= a.take(k));
        assert(s.skip(k + 1) =~= rest.push(sep) + b);
        lemma_split_at(rest, sep, b);
        assert(split_on(s, sep) =~= split_on(a, sep) + split_on(b, sep));
    } else {
        assert(s[k] == sep);
        lemma_lead_is(s, p, k);
        assert(s.take(k) =~= a);
        assert(s.skip(k + 1) =~= b);
        assert(split_on(s, sep) =~= split_on(a, sep) + split_on(b, sep));
    }
}

/// The ids among two lists of pieces are those of the first and the second.
proof fn lemma_pids_append(a: Seq<Seq<char>>, b: Seq<Seq<char>>)
    ensures
        pids(a + b) == pids(a) + pids(b),
    decreases b.len(),
{
    if b.len() == 0 {
        assert(a + b =~= a);
        assert(pids(a) + pids(b) =~= pids(a));
    } else {
        lemma_pids_append(a, b.drop_last());
        assert((a + b).drop_last() =~= a + b.drop_last());
        assert((a + b).last() == b.last());
        assert(pids(a + b) =~= pids(a) + pids(b));
    }
}

/// A number is read back from its decimal digits.
proof fn lemma_digits_numeral(n: nat)
    ensures
        all_digits(digits(n)),
        digits(n)[0] != '+',
        numeral(digits(n)) == n,
    decreases n,
{
    let s = digits(n);
    if n < 10 {
        assert(s.drop_last() =~= seq![]);
        assert(numeral(s.drop_last()) == 0);
        assert(digit(n as int) as nat == 48 + n);
    } else {
        let front = digits(n / 10);
        lemma_digits_numeral(n / 10);
        assert(s.drop_last() =~= front);
        assert(digit((n % 10) as int) as nat == 48 + n % 10);
        assert forall|i: int| 0 <= i < s.len() implies is_digit(#[trigger] s[i]) by {
            if i < front.len() {
                assert(s[i] == front[i]);
            }
        }
        assert(s[0] == front[0]);
    }
}

/// Digits hold no dot.
proof fn lemma_no_dot(s: Seq<char>)
    requires
        all_digits(s),
    ensures
        split_on(s, '.') == seq![s],
{
    assert forall|i: int| 0 <= i < s.len() implies not_sep('.')(#[trigger] s[i]) by {
        assert(is_digit(s[i]));
    }
    lemma_lead_is(s, not_sep('.'), s.len() as int);
}

/// The process id is found in a socket name of the form
/// `niri.<wayland-display>.<pid>.sock`, whatever the display is called.
pub proof fn law_socket_name_holds_the_pid(front: Seq<char>, back: Seq<char>, n: u32)
    ensures
        pids(split_on(front.push('.') + (digits(n as nat).push('.') + back), '.')).contains(n),
{
    let d = digits(n as nat);
    let rest = d.push('.') + back;
    lemma_digits_numeral(n as nat);
    lemma_split_at(front, '.', rest);
    lemma_split_at(d, '.', back);
    lemma_no_dot(d);
    let (x, z) = (split_on(front, '.'), split_on(back, '.'));
    lemma_pids_append(x, seq![d] + z);
    lemma_pids_append(seq![d], z);
    assert(pid(d) == Some(n));
    assert(seq![d].drop_last() =~= seq![]);
    assert(pids(seq![d].drop_last()) =~= seq![]);
    assert(pids(seq![d]) =~= seq![n]);
    let all = pids(x) + (seq![n] + pids(z));
    assert(all[pids(x).len() as int] == n);
}

/// Whether a process is niri, by its `comm`.
pub fn is_niri(comm: &str) -> (r: bool)
    ensures
        r == (trimmed(comm@) == "niri"@),
{
    let name = trim(chars_of(comm).as_slice());
    same_chars(name.as_slice(), chars_of("niri").as_slice())
}

/// The prefix of the entry that holds the configuration's path.
pub open spec fn config_key() -> Seq<u8> {
    encode_utf8("NIRI_CONFIG="@)
}

/// The value of the first of the entries that starts with the key.
pub open spec fn config_entry(entries: Seq<Seq<u8>>) -> Option<Seq<u8>>
    decreases entries.len(),
{
    if entries.len() == 0 {
        None
    } else if config_key().is_prefix_of(entries[0]) {
        Some(entries[0].skip(config_key().len() as int))
    } else {
        config_entry(entries.drop_first())
    }
}

/// The bytes from `lo` up to `hi` without the key, if they start with it.
fn entry_value(environ: &[u8], lo: usize, hi: usize) -> (r: Option<Vec<u8>>)
    requires
        lo <= hi <= environ@.len(),
    ensures
        ({
            let e = environ@.subrange(lo as int, hi as int);
            match r {
                Some(v) => config_key().is_prefix_of(e) && v@ == e.skip(config_key().len() as int),
                None => !config_key().is_prefix_of(e),
            }
        }),
{
    let key = "NIRI_CONFIG=".as_bytes();
    let ghost e = environ@.subrange(lo as int, hi as int);
    if hi - lo < key.len() {
        return None;
    }
    for i in 0..key.len()
        invariant
            lo <= hi <= environ@.len(),
            key@ == config_key(),
            key@.len() <= hi - lo,
            e == environ@.subrange(lo as int, hi as int),
            forall|j: int| 0 <= j < i ==> #[trigger] key@[j] == e[j],
    {
        if environ[lo + i] != key[i] {
            assert(e[i as int] == environ@[lo + i]);
            assert(!config_key().is_prefix_of(e)) by {
                if config_key().is_prefix_of(e) {
                    assert(config_key()[i as int] == e.subrange(
                        0,
                        config_key().len() as int,
                    )[i as int]);
                }
            }
            return None;
        }
    }
    assert(config_key() =~= e.subrange(0, config_key().len() as int));
    let mut v: Vec<u8> = Vec::new();
    let start: usize = lo + key.len();
    for i in start..hi
        invariant
            start <= hi <= environ@.len(),
            v@ == environ@.subrange(start as int, i as int),
    {
        v.push(environ[i]);
        assert(v@ =~= environ@.subrange(start as int, i + 1));
    }
    assert(v@ =~= e.skip(config_key().len() as int));
    Some(v)
}

/// The path of the configuration in a process environment: the value of the
/// first `NIRI_CONFIG` entry, entries being separated by zero bytes.
pub fn config_from_environ(environ: &[u8]) -> (r: Option<Vec<u8>>)
    ensures
        bytes_of(r) == config_entry(split_on(environ@, 0u8)),
{
    let mut start: usize = 0;
    assert(environ@.skip(0) =~= environ@);
    for i in 0..environ.len()
        invariant
            start <= i <= environ@.len(),
            forall|j: int| start <= j < i ==> environ@[j] != 0,
            config_entry(split_on(environ@, 0u8)) == config_entry(
                split_on(environ@.skip(start as int), 0u8),
            ),
    {
        if environ[i] == 0 {
            let ghost rest = environ@.skip(start as int);
            proof {
                lemma_lead_is(rest, not_sep(0u8), i - start);
                assert(rest.take(i - start) =~= environ@.subrange(start as int, i as int));
                assert(rest.skip(i - start + 1) =~= environ@.skip(i + 1));
                let tail = split_on(rest.skip(i - start + 1), 0u8);
                assert((seq![rest.take(i - start)] + tail).drop_first() =~= tail);
            }
            let value = entry_value(environ, start, i);
            if value.is_some() {
                return value;
            }
            start = i + 1;
        }
    }
    let ghost rest = environ@.skip(start as int);
    proof {
        lemma_lead_is(rest, not_sep(0u8), rest.len() as int);
        assert(rest =~= environ@.subrange(start as int, environ@.len() as int));
        assert(split_on(rest, 0u8) =~= seq![rest]);
        assert(seq![rest].drop_first() =~= seq![]);
        assert(config_entry(seq![rest].drop_first()) is None);
    }
    entry_value(environ, start, environ.len())
}

// ---- gaps ----

/// The text without the quotes at its front.
pub open spec fn unquoted_front(s: Seq<char>) -> Seq<char> {
    s.skip(lead(s, |c: char| c == '"') as int)
}

/// The text without the quotes at its front and back.
pub open spec fn unquoted(s: Seq<char>) -> Seq<char> {
    unquoted_front(unquoted_front(s).reverse()).reverse()
}

fn unquote(s: &Vec<char>) -> (r: Vec<char>)
    ensures
        r@ == unquoted(s@),
{
    let ghost quote = |c: char| c == '"';
    let mut lo: usize = 0;
    while lo < s.len() && s[lo] == '"'
        invariant
            lo <= s@.len(),
            forall|j: int| 0 <= j < lo ==> #[trigger] s@[j] == '"',
        decreases s@.len() - lo,
    {
        lo = lo + 1;
    }
    let ghost front = s@.skip(lo as int);
    proof {
        lemma_lead_is(s@, quote, lo as int);
    }
    let mut hi: usize = s.len();
    while hi > lo && s[hi - 1] == '"'
        invariant
            lo <= hi <= s@.len(),
            forall|j: int| hi <= j < s@.len() ==> #[trigger] s@[j] == '"',
        decreases hi,
    {
        hi = hi - 1;
    }
    proof {
        let back = front.reverse();
        let k = s@.len() - hi;
        assert forall|i: int| 0 <= i < k implies quote(#[trigger] back[i]) by {
            assert(back[i] == s@[s@.len() - 1 - i]);
        }
        if k < back.len() {
            assert(back[k] == s@[hi - 1]);
        }
        lemma_lead_is(back, quote, k);
        assert(back.skip(k).reverse() =~= s@.subrange(lo as int, hi as int));
    }
    piece(s.as_slice(), lo, hi)
}

/// What follows the node's name on a line, if the line starts with it.
pub open spec fn after_gaps(line: Seq<char>) -> Option<Seq<char>> {
    if "\"gaps\""@.is_prefix_of(line) {
        Some(line.skip("\"gaps\""@.len() as int))
    } else if "gaps"@.is_prefix_of(line) {
        Some(line.skip("gaps"@.len() as int))
    } else {
        None
    }
}

/// The value that a line gives for `gaps`, as it is written there.
pub open spec fn gap_value(line: Seq<char>) -> Option<Seq<char>> {
    match after_gaps(trimmed(line)) {
        // Guard against matching a longer node name like `gaps-foo`.
        Some(rest) => if rest.len() > 0 && white_space(rest[0]) && words(rest).len() > 0 {
            Some(unquoted(words(rest)[0]))
        } else {
            None
        },
        None => None,
    }
}

/// The values that the lines give, in order.
pub open spec fn gap_values(lines: Seq<Seq<char>>) -> Seq<Seq<char>>
    decreases lines.len(),
{
    if lines.len() == 0 {
        seq![]
    } else {
        match gap_value(lines.last()) {
            Some(v) => gap_values(lines.drop_last()).push(v),
            None => gap_values(lines.drop_last()),
        }
    }
}

/// What follows `prefix` in `line`, if it starts with it.
fn strip(line: &Vec<char>, prefix: &str) -> (r: Option<Vec<char>>)
    ensures
        match r {
            Some(rest) => prefix@.is_prefix_of(line@) && rest@ == line@.skip(prefix@.len() as int),
            None => !prefix@.is_prefix_of(line@),
        },
{
    let p = chars_of(prefix);
    if line.len() < p.len() {
        return None;
    }
    let front = piece(line.as_slice(), 0, p.len());
    if same_chars(front.as_slice(), p.as_slice()) {
        let rest = piece(line.as_slice(), p.len(), line.len());
        assert(rest@ =~= line@.skip(prefix@.len() as int));
        Some(rest)
    } else {
        None
    }
}

fn line_value(line: &Vec<char>) -> (r: Option<String>)
    ensures
        match r {
            Some(v) => gap_value(line@) == Some(v@),
            None => gap_value(line@) is None,
        },
{
    let line = trim(line.as_slice());
    let rest = match strip(&line, "\"gaps\"") {
        Some(rest) => rest,
        None => match strip(&line, "gaps") {
            Some(rest) => rest,
            None => {
                return None;
            },
        },
    };
    if rest.len() > 0 && is_white_space(rest[0]) {
        let tokens = split_words(rest.as_slice());
        assert(runs(tokens@) == words(rest@));
        if tokens.len() > 0 {
            assert(words(rest@)[0] == tokens@[0]@);
            return Some(string_of(unquote(&tokens[0]).as_slice()));
        }
    }
    None
}

/// The values that KDL text gives for `gaps`, in order and as they are written
/// there: the first of them that is a number counts.
pub fn parse_gaps(text: &str) -> (r: Vec<String>)
    ensures
        texts(r@) == gap_values(split_on(text@, '\n')),
{
    let chars = chars_of(text);
    let lines = split_chars(chars.as_slice(), '\n');
    let ghost all = runs(lines@);
    let mut r: Vec<String> = Vec::new();
    assert(texts(r@) =~= gap_values(all.take(0)));
    for i in 0..lines.len()
        invariant
            all == runs(lines@),
            texts(r@) == gap_values(all.take(i as int)),
    {
        assert(all.take(i + 1).drop_last() =~= all.take(i as int));
        assert(all.take(i + 1).last() == lines@[i as int]@);
        if let Some(v) = line_value(&lines[i]) {
            let ghost before = r@;
            r.push(v);
            assert(texts(r@) =~= texts(before).push(v@));
        }
    }
    assert(all.take(all.len() as int) =~= all);
    r
}

// ---- what the plans and the settings hold ----

/// Every tile that is listed above a window is on the window's own workspace,
/// in its column and at an earlier place; every such tile is listed, once, and
/// the list is in the order of the tiles.
pub proof fn law_tiles_above_a_window(
    tiles: Seq<Tile>,
    workspace: Option<u64>,
    column: int,
    tile: int,
    i: usize,
)
    requires
        tiles.len() <= usize::MAX,
    ensures
        stack_above(tiles, workspace, column, tile).contains(i) <==> {
            &&& i < tiles.len()
            &&& tiles[i as int].workspace == workspace
            &&& tiles[i as int].layout matches Some((c, k))
            &&& c == column && k < tile
        },
        forall|a: int, b: int|
            0 <= a < b < stack_above(tiles, workspace, column, tile).len() ==> #[trigger] stack_above(
                tiles,
                workspace,
                column,
                tile,
            )[a] < #[trigger] stack_above(tiles, workspace, column, tile)[b],
{
    let p = |t: Tile| above(t, workspace, column, tile);
    law_selected_tiles(tiles, p, tiles.len(), i);
    lemma_selected_ascends(tiles, p, tiles.len());
}

/// Every tile that is listed for a column is on the window's own workspace and
/// in that column; every such tile is listed, once, and the list is in the
/// order of the tiles.
pub proof fn law_tiles_of_a_column(
    tiles: Seq<Tile>,
    workspace: Option<u64>,
    column: int,
    i: usize,
)
    requires
        tiles.len() <= usize::MAX,
    ensures
        column_of(tiles, workspace, column).contains(i) <==> {
            &&& i < tiles.len()
            &&& tiles[i as int].workspace == workspace
            &&& tiles[i as int].layout matches Some((c, _))
            &&& c == column
        },
        forall|a: int, b: int|
            0 <= a < b < column_of(tiles, workspace, column).len() ==> #[trigger] column_of(
                tiles,
                workspace,
                column,
            )[a] < #[trigger] column_of(tiles, workspace, column)[b],
{
    let p = |t: Tile| in_column(t, workspace, column);
    law_selected_tiles(tiles, p, tiles.len(), i);
    lemma_selected_ascends(tiles, p, tiles.len());
}

proof fn lemma_selected_ascends(tiles: Seq<Tile>, p: spec_fn(Tile) -> bool, n: nat)
    requires
        n <= tiles.len(),
        n <= usize::MAX,
    ensures
        forall|a: int, b: int|
            0 <= a < b < selected(tiles, p, n).len() ==> #[trigger] selected(tiles, p, n)[a]
                < #[trigger] selected(tiles, p, n)[b],
        forall|a: int| 0 <= a < selected(tiles, p, n).len() ==> #[trigger] selected(tiles, p, n)[a] < n,
    decreases n,
{
    if n > 0 {
        lemma_selected_ascends(tiles, p, (n - 1) as nat);
        let before = selected(tiles, p, (n - 1) as nat);
        let after = selected(tiles, p, n);
        assert forall|a: int| 0 <= a < before.len() implies before[a] < n - 1 && after[a]
            == before[a] by {}
    }
}

/// A tile of another workspace changes nothing about a window's place.
pub proof fn law_other_workspaces_do_not_count(
    tiles: Seq<Tile>,
    workspace: Option<u64>,
    column: int,
    tile: int,
    i: usize,
)
    requires
        tiles.len() <= usize::MAX,
        i < tiles.len(),
        tiles[i as int].workspace != workspace,
    ensures
        !stack_above(tiles, workspace, column, tile).contains(i),
        !column_of(tiles, workspace, column).contains(i),
{
    law_tiles_above_a_window(tiles, workspace, column, tile, i);
    law_tiles_of_a_column(tiles, workspace, column, i);
}

/// The workspace that is found is the first one with the wanted id; none is
/// found where no id is wanted, or none is the wanted one.
pub proof fn law_the_wanted_workspace_is_found(ids: Seq<u64>, wanted: Option<u64>)
    ensures
        ({
            let k = lead(ids, other_id(wanted)) as int;
            &&& k < ids.len() ==> wanted == Some(ids[k])
            &&& forall|j: int| 0 <= j < k ==> wanted != Some(#[trigger] ids[j])
            &&& 0 <= k <= ids.len()
        }),
{
    lemma_lead(ids, other_id(wanted));
    let k = lead(ids, other_id(wanted)) as int;
    assert forall|j: int| 0 <= j < k implies wanted != Some(#[trigger] ids[j]) by {
        assert(other_id(wanted)(ids[j]));
    }
}

/// A number is read back from its digits, with a plus sign in front or without,
/// and nothing but digits is a number.
pub proof fn law_process_ids_are_decimal(n: u32, s: Seq<char>, i: int)
    ensures
        pid(digits(n as nat)) == Some(n),
        pid(seq!['+'] + digits(n as nat)) == Some(n),
        pid(seq![]) is None,
        0 < i < s.len() && !('0' <= s[i] && s[i] <= '9') ==> pid(s) is None,
        s.len() > 0 && s[0] != '+' && !('0' <= s[0] && s[0] <= '9') ==> pid(s) is None,
{
    lemma_digits_numeral(n as nat);
    assert((seq!['+'] + digits(n as nat)).drop_first() =~= digits(n as nat));
    let d = unsigned(s);
    if 0 < i < s.len() && !('0' <= s[i] && s[i] <= '9') {
        if s[0] == '+' {
            assert(d[i - 1] == s[i]);
            assert(!is_digit(d[i - 1]));
        } else {
            assert(!is_digit(d[i]));
        }
    }
    if s.len() > 0 && s[0] != '+' && !('0' <= s[0] && s[0] <= '9') {
        assert(!is_digit(d[0]));
    }
}

/// One more digit makes ten times the number and the digit.
pub proof fn law_numerals_are_decimal(s: Seq<char>, d: int)
    requires
        0 <= d <= 9,
    ensures
        numeral(s.push(digit(d))) == 10 * numeral(s) + d,
{
    assert(s.push(digit(d)).drop_last() =~= s);
    assert(digit(d) as nat == 48 + d);
}

/// The candidates are the numbers among the pieces, in their order.
pub proof fn law_candidates_are_the_numbers(a: Seq<Seq<char>>, s: Seq<char>, b: Seq<Seq<char>>)
    ensures
        pids(a + seq![s] + b) == pids(a) + (match pid(s) {
            Some(n) => seq![n],
            None => seq![],
        }) + pids(b),
{
    lemma_pids_append(a + seq![s], b);
    lemma_pids_append(a, seq![s]);
    assert(seq![s].drop_last() =~= seq![]);
    assert(pids(seq![s].drop_last()) =~= seq![]);
    match pid(s) {
        Some(n) => {
            assert(pids(seq![s]) =~= seq![n]);
        },
        None => {
            assert(pids(seq![s]) =~= seq![]);
        },
    }
}

/// The first entry that begins with `NIRI_CONFIG=` gives the path: what follows
/// there. Entries before it do not count, nor do any after it.
pub proof fn law_first_config_entry_counts(
    a: Seq<Seq<u8>>,
    value: Seq<u8>,
    b: Seq<Seq<u8>>,
)
    requires
        forall|j: int| 0 <= j < a.len() ==> !encode_utf8("NIRI_CONFIG="@).is_prefix_of(#[trigger] a[j]),
    ensures
        config_entry(a + seq![encode_utf8("NIRI_CONFIG="@) + value] + b) == Some(value),
        config_entry(a) is None,
    decreases a.len(),
{
    let key = encode_utf8("NIRI_CONFIG="@);
    let entry = key + value;
    let all = a + seq![entry] + b;
    if a.len() == 0 {
        assert(all[0] == entry);
        assert(entry.subrange(0, key.len() as int) =~= key);
        assert(entry.skip(key.len() as int) =~= value);
    } else {
        let rest = a.drop_first();
        assert forall|j: int| 0 <= j < rest.len() implies !key.is_prefix_of(
            #[trigger] rest[j],
        ) by {
            assert(rest[j] == a[j + 1]);
        }
        assert(!key.is_prefix_of(a[0]));
        assert(all[0] == a[0]);
        assert(all.drop_first() =~= rest + seq![entry] + b);
        law_first_config_entry_counts(rest, value, b);
    }
}

/// The paths in the order in which they are tried: a path that is missing is
/// left out and moves none of the others.
pub proof fn law_missing_paths_are_left_out(path: Vec<u8>, dir: Vec<u8>, name: Seq<char>)
    ensures
        maybe(None) == Seq::<Seq<u8>>::empty(),
        maybe(bytes_of(Some(path))) == seq![path@],
        bytes_of(None) is None,
        below(None, name) is None,
        below(Some(dir), name) matches Some(p) && encode_utf8(name).len() <= p.len() && p.skip(
            p.len() - encode_utf8(name).len(),
        ) == encode_utf8(name) && dir@.is_prefix_of(p),
{
    crate::paths::law_joined_paths(dir@, encode_utf8(name));
}

/// A line gives a value only where, white space aside, it begins with `gaps`,
/// quoted or not, and goes on with white space: a longer node name does not
/// count.
pub proof fn law_gaps_need_their_own_name(line: Seq<char>)
    requires
        gap_value(line) is Some,
    ensures
        ({
            let s = trimmed(line);
            ||| s.len() > 4 && s.take(4) == "gaps"@ && white_space(s[4])
            ||| s.len() > 6 && s.take(6) == "\"gaps\""@ && white_space(s[6])
        }),
{
    reveal_strlit("gaps");
    reveal_strlit("\"gaps\"");
    let s = trimmed(line);
    assert("gaps"@.is_prefix_of(s) ==> s.take(4) =~= "gaps"@);
    assert("\"gaps\""@.is_prefix_of(s) ==> s.take(6) =~= "\"gaps\""@);
}

/// A line that says `gaps` and then a value gives that value, without the quotes
/// around it; indentation and what follows do not matter.
pub proof fn law_gaps_lines_give_their_value(line: Seq<char>, gap: char, value: Seq<char>)
    requires
        white_space(gap),
        value.len() > 0,
        forall|i: int| 0 <= i < value.len() ==> !white_space(#[trigger] value[i]),
        trimmed(line) == "gaps"@.push(gap) + value || trimmed(line) == "\"gaps\""@.push(gap) + value,
    ensures
        gap_value(line) == Some(unquoted(value)),
{
    reveal_strlit("gaps");
    reveal_strlit("\"gaps\"");
    let s = trimmed(line);
    let rest = seq![gap] + value;
    if s == "gaps"@.push(gap) + value {
        assert(s[0] == 'g');
        assert(!"\"gaps\""@.is_prefix_of(s)) by {
            if "\"gaps\""@.is_prefix_of(s) {
                assert("\"gaps\""@[0] == s.subrange(0, 6)[0]);
            }
        }
        assert(s.subrange(0, 4) =~= "gaps"@);
        assert(s.skip(4) =~= rest);
    } else {
        assert(s.subrange(0, 6) =~= "\"gaps\""@);
        assert(s.skip(6) =~= rest);
    }
    assert(rest.drop_first() =~= value);
    crate::text::law_a_word_is_its_own(value);
    assert(words(rest) == words(value));
}

/// The values come in the order of their lines.
pub proof fn law_gap_values_in_order(lines: Seq<Seq<char>>, line: Seq<char>)
    ensures
        gap_values(seq![]) == Seq::<Seq<char>>::empty(),
        gap_values(lines.push(line)) == match gap_value(line) {
            Some(v) => gap_values(lines).push(v),
            None => gap_values(lines),
        },
{
    assert(lines.push(line).drop_last() =~= lines);
}

/// Quotes are taken off both ends and nowhere else.
pub proof fn law_unquoted_text(s: Seq<char>)
    requires
        s.len() > 0,
        s[0] != '"',
        s.last() != '"',
    ensures
        unquoted(s) == s,
        unquoted(seq!['"'] + s + seq!['"']) == s,
{
    let quote = |c: char| c == '"';
    lemma_lead_is(s, quote, 0);
    assert(s.skip(0) =~= s);
    let back = s.reverse();
    assert(back[0] == s.last());
    lemma_lead_is(back, quote, 0);
    assert(back.skip(0) =~= back);
    assert(back.reverse() =~= s);
    let t = seq!['"'] + s + seq!['"'];
    lemma_lead_is(t, quote, 1);
    let front = t.skip(1);
    assert(front =~= s + seq!['"']);
    let rear = front.reverse();
    assert(rear[0] == '"');
    assert(rear[1] == s.last());
    lemma_lead_is(rear, quote, 1);
    assert(rear.skip(1) =~= back);
}

/// What each failure says.
pub proof fn law_failures_say_what_is_missing(question: Question, reply: String)
    ensures
        GeometryError::NoFocusedWindow.text()
            == "no focused window (a layer-shell surface may hold focus)"@,
        GeometryError::NoOutput.text() == "focused window has no output"@,
        GeometryError::FloatingWithoutPosition.text()
            == "floating window missing tile_pos_in_workspace_view"@,
        GeometryError::TiledWithoutPosition.text()
            == "tiled window missing pos_in_scrolling_layout"@,
        GeometryError::NoWorkspace.text() == "could not find the window's workspace"@,
        GeometryError::NoLogicalGeometry.text()
            == "focused output has no logical geometry (disabled?)"@,
        GeometryError::NoMode.text() == "focused output has no current mode"@,
        (GeometryError::Unexpected { question, reply }).text() == "unexpected niri response to "@
            + question.text() + ": "@ + reply@,
        Question::FocusedWindow.text() == "FocusedWindow"@,
        Question::FocusedOutput.text() == "FocusedOutput"@,
        Question::Windows.text() == "Windows"@,
        Question::Workspaces.text() == "Workspaces"@,
{
}

/// A number that does not fit in 32 bits is no process id; any other one that is
/// written in digits alone is.
pub proof fn law_process_ids_fit(s: Seq<char>)
    requires
        s.len() > 0,
        forall|i: int| 0 <= i < s.len() ==> '0' <= #[trigger] s[i] && s[i] <= '9',
    ensures
        numeral(s) <= 0xffff_ffff ==> pid(s) == Some(numeral(s) as u32),
        numeral(s) > 0xffff_ffff ==> pid(s) is None,
{
    assert(s[0] != '+');
    assert forall|i: int| 0 <= i < s.len() implies is_digit(#[trigger] s[i]) by {}
}

} // verus!
