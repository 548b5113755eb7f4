//! The lines of the diagnostic dumps.

use crate::atspi::{role_name, Element};
use crate::geometry::PhysicalRect;
use crate::text::{decimal, push_decimal};
use vstd::prelude::*;

verus! {

/// As many spaces as `s` lacks to be `width` characters long.
pub open spec fn padding(s: Seq<char>, width: nat) -> Seq<char> {
    Seq::new(
        (if s.len() < width {
            width - s.len()
        } else {
            0
        }) as nat,
        |i: int| ' ',
    )
}

/// Appends `s` and spaces up to a width.
fn push_padded(out: &mut String, s: &str, width: usize)
    ensures
        final(out)@ == old(out)@ + s@ + padding(s@, width as nat),
{
    out.append(s);
    let n = s.unicode_len();
    let mut k: usize = n;
    let ghost start = out@;
    assert(out@ =~= start + Seq::new(0, |i: int| ' '));
    while k < width
        invariant
            n <= k,
            k <= width || k == n,
            out@ == start + Seq::new((k - n) as nat, |i: int| ' '),
        decreases width - k,
    {
        out.push(' ');
        k = k + 1;
        assert(out@ =~= start + Seq::new((k - n) as nat, |i: int| ' '));
    }
    assert(out@ =~= start + padding(s@, width as nat));
}

/// A role and a name, the name in a column of that width.
pub open spec fn named(role: Seq<char>, name: Seq<char>, width: nat) -> Seq<char> {
    role + " | "@ + name + padding(name, width) + " | "@
}

/// `role | name | object-path`.
pub fn tree_row(role: &str, name: &str, path: &str) -> (r: String)
    ensures
        r@ == named(role@, name@, 40) + path@,
{
    let mut r = role.to_owned();
    r.append(" | ");
    push_padded(&mut r, name, 40);
    r.append(" | ");
    r.append(path);
    assert(r@ =~= named(role@, name@, 40) + path@);
    r
}

/// `role | name | object-path` for one element.
pub fn tree_line(el: &Element) -> (r: String)
    ensures
        r@ == named(role_name(el.role.number()), el.name@, 40) + el.object.path@,
{
    tree_row(el.role.name().as_str(), el.name.as_str(), el.object.path.as_str())
}

/// A number in a column of five characters.
pub open spec fn cell(n: int) -> Seq<char> {
    decimal(n) + padding(decimal(n), 5)
}

fn push_cell(out: &mut String, n: i32)
    ensures
        final(out)@ == old(out)@ + cell(n as int),
{
    let mut s = String::new();
    push_decimal(&mut s, n as i64);
    assert(s@ =~= decimal(n as int));
    push_padded(out, s.as_str(), 5);
    assert(out@ =~= old(out)@ + cell(n as int));
}

/// A role and a name with a place in output-local physical pixels.
pub open spec fn coords_text(role: Seq<char>, name: Seq<char>, rect: PhysicalRect) -> Seq<char> {
    named(role, name, 32) + "x="@ + cell(rect.x as int) + " y="@ + cell(rect.y as int) + " w="@
        + cell(rect.w as int) + " h="@ + cell(rect.h as int) + " (center ("@ + decimal(
        rect.middle().0,
    ) + ", "@ + decimal(rect.middle().1) + "))"@
}

/// A role and a name with a place in output-local physical pixels.
pub fn coords_row(role: &str, name: &str, rect: &PhysicalRect) -> (r: String)
    requires
        rect.has_center(),
    ensures
        r@ == coords_text(role@, name@, *rect),
{
    let mut r = role.to_owned();
    r.append(" | ");
    push_padded(&mut r, name, 32);
    r.append(" | x=");
    assert(" | x="@ =~= " | "@ + "x="@) by {
        reveal_strlit(" | x=");
        reveal_strlit(" | ");
        reveal_strlit("x=");
    }
    push_cell(&mut r, rect.x);
    r.append(" y=");
    push_cell(&mut r, rect.y);
    r.append(" w=");
    push_cell(&mut r, rect.w);
    r.append(" h=");
    push_cell(&mut r, rect.h);
    let (cx, cy) = rect.center();
    r.append(" (center (");
    push_decimal(&mut r, cx as i64);
    r.append(", ");
    push_decimal(&mut r, cy as i64);
    r.append("))");
    assert(r@ =~= coords_text(role@, name@, *rect));
    r
}

/// One element with its place in output-local physical pixels.
pub fn coords_line(el: &Element, rect: &PhysicalRect) -> (r: String)
    requires
        rect.has_center(),
    ensures
        r@ == coords_text(role_name(el.role.number()), el.name@, *rect),
{
    coords_row(el.role.name().as_str(), el.name.as_str(), rect)
}

/// A padded text begins with the text, goes on with spaces only, and is as wide
/// as its column unless it is wider by itself.
pub proof fn law_padding_fills_the_column(s: Seq<char>, width: nat)
    ensures
        (s + padding(s, width)).len() == if s.len() < width {
            width
        } else {
            s.len()
        },
        forall|i: int| 0 <= i < padding(s, width).len() ==> #[trigger] padding(s, width)[i] == ' ',
{
}

/// A row names the role first and then the name in its column, with a bar after
/// each.
pub proof fn law_rows_name_role_and_name(role: Seq<char>, name: Seq<char>, width: nat)
    ensures
        ({
            let row = named(role, name, width);
            let (r, n) = (role.len() as int, name.len() as int);
            let cut = if name.len() < width {
                width as int
            } else {
                name.len() as int
            };
            &&& row.len() == r + cut + 6
            &&& row.take(r) == role
            &&& row.subrange(r, r + 3) == seq![' ', '|', ' ']
            &&& row.subrange(r + 3, r + 3 + n) == name
            &&& row.skip(r + 3 + cut) == seq![' ', '|', ' ']
        }),
{
    reveal_strlit(" | ");
    let row = named(role, name, width);
    let (r, n) = (role.len() as int, name.len() as int);
    assert(row.take(r) =~= role);
    assert(row.subrange(r, r + 3) =~= seq![' ', '|', ' ']);
    assert(row.subrange(r + 3, r + 3 + n) =~= name);
    let cut = if name.len() < width {
        width as int
    } else {
        name.len() as int
    };
    assert(row.skip(r + 3 + cut) =~= seq![' ', '|', ' ']);
}

/// A number in a column begins with its decimal form and is five characters wide
/// unless it is wider by itself.
pub proof fn law_numbers_stand_in_columns(n: int)
    ensures
        cell(n).take(decimal(n).len() as int) == decimal(n),
        cell(n).len() == if decimal(n).len() < 5 {
            5
        } else {
            decimal(n).len()
        },
{
    assert(cell(n).take(decimal(n).len() as int) =~= decimal(n));
}

/// A row of coordinates begins with role and name and then tells the left edge,
/// the top edge, the width, the height and the middle, in this order.
pub proof fn law_coordinates_in_order(role: Seq<char>, name: Seq<char>, x: i32, y: i32, w: i32, h: i32)
    ensures
        ({
            let r = PhysicalRect { x, y, w, h };
            coords_text(role, name, r) == named(role, name, 32) + ("x="@ + cell(x as int)) + (" y="@
                + cell(y as int)) + (" w="@ + cell(w as int)) + (" h="@ + cell(h as int)) + (
            " (center ("@ + decimal(r.middle().0)) + (", "@ + decimal(r.middle().1)) + "))"@
        }),
{
    let r = PhysicalRect { x, y, w, h };
    assert(coords_text(role, name, r) =~= named(role, name, 32) + ("x="@ + cell(x as int)) + (" y="@
        + cell(y as int)) + (" w="@ + cell(w as int)) + (" h="@ + cell(h as int)) + (" (center ("@
        + decimal(r.middle().0)) + (", "@ + decimal(r.middle().1)) + "))"@);
}

} // verus!
