//! Which font the labels are drawn in.

use vstd::prelude::*;

verus! {

/// Well-known monospace families, tried in order if the generic `monospace`
/// family does not resolve.
pub fn fallback_families() -> (r: Vec<&'static str>)
    ensures
        r@.map_values(|s: &'static str| s@) == seq![
            "DejaVu Sans Mono"@,
            "Liberation Mono"@,
            "Noto Sans Mono"@,
            "Source Code Pro"@,
            "JetBrains Mono"@,
            "Hack"@,
            "Ubuntu Mono"@,
        ],
{
    let r = vec![
        "DejaVu Sans Mono",
        "Liberation Mono",
        "Noto Sans Mono",
        "Source Code Pro",
        "JetBrains Mono",
        "Hack",
        "Ubuntu Mono",
    ];
    assert(r@.map_values(|s: &'static str| s@) =~= seq![
        "DejaVu Sans Mono"@,
        "Liberation Mono"@,
        "Noto Sans Mono"@,
        "Source Code Pro"@,
        "JetBrains Mono"@,
        "Hack"@,
        "Ubuntu Mono"@,
    ]);
    r
}

/// The faces that the families resolved to, in order.
pub open spec fn resolved(by_family: Seq<Option<usize>>) -> Seq<usize>
    decreases by_family.len(),
{
    if by_family.len() == 0 {
        seq![]
    } else {
        let before = resolved(by_family.drop_last());
        match by_family.last() {
            Some(face) => before.push(face),
            None => before,
        }
    }
}

/// The positions at which `flags` holds, in order.
pub open spec fn marked(flags: Seq<bool>) -> Seq<usize>
    decreases flags.len(),
{
    if flags.len() == 0 {
        seq![]
    } else if flags.last() {
        marked(flags.drop_last()).push((flags.len() - 1) as usize)
    } else {
        marked(flags.drop_last())
    }
}

/// Preference-ordered candidate faces: what the families resolved to, then
/// every face that is monospaced.
pub fn font_candidates(by_family: &Vec<Option<usize>>, monospaced: &Vec<bool>) -> (r: Vec<usize>)
    ensures
        r@ == resolved(by_family@) + marked(monospaced@),
{
    let mut r: Vec<usize> = Vec::new();
    for i in 0..by_family.len()
        invariant
            r@ == resolved(by_family@.take(i as int)),
    {
        assert(by_family@.take(i + 1).drop_last() =~= by_family@.take(i as int));
        if let Some(face) = by_family[i] {
            r.push(face);
        }
    }
    assert(by_family@.take(by_family@.len() as int) =~= by_family@);
    let ghost first = r@;
    assert(r@ =~= first + marked(monospaced@.take(0)));
    for i in 0..monospaced.len()
        invariant
            first == resolved(by_family@),
            r@ == first + marked(monospaced@.take(i as int)),
    {
        assert(monospaced@.take(i + 1).drop_last() =~= monospaced@.take(i as int));
        if monospaced[i] {
            r.push(i);
        }
        assert(r@ =~= first + marked(monospaced@.take(i + 1)));
    }
    assert(monospaced@.take(monospaced@.len() as int) =~= monospaced@);
    r
}

} // verus!
