//! File paths as bytes.

use vstd::prelude::*;

verus! {

/// The separator between the parts of a path.
pub const SLASH: u8 = 47;

/// The path of `name`, which is relative, below `base`.
pub open spec fn joined(base: Seq<u8>, name: Seq<u8>) -> Seq<u8> {
    if base.len() == 0 || base.last() == SLASH {
        base + name
    } else {
        base.push(SLASH) + name
    }
}

/// The path of `name`, which is relative, below `base`.
pub fn join(base: Vec<u8>, name: &[u8]) -> (r: Vec<u8>)
    ensures
        r@ == joined(base@, name@),
{
    let mut r = base;
    if r.len() > 0 && r[r.len() - 1] != SLASH {
        r.push(SLASH);
    }
    let ghost start = r@;
    for i in 0..name.len()
        invariant
            r@ == start + name@.take(i as int),
    {
        r.push(name[i]);
        assert(r@ =~= start + name@.take(i + 1));
    }
    assert(name@.take(name@.len() as int) =~= name@);
    r
}

/// A joined path begins with the base and ends with the name, with nothing but
/// one separator between them, and none where the base is empty or has one
/// already.
pub proof fn law_joined_paths(base: Seq<u8>, name: Seq<u8>)
    ensures
        ({
            let p = joined(base, name);
            &&& base.is_prefix_of(p)
            &&& name.len() <= p.len()
            &&& p.skip(p.len() - name.len()) == name
            &&& base.len() == 0 ==> p == name
            &&& base.len() > 0 && base.last() == 47 ==> p.len() == base.len() + name.len()
            &&& base.len() > 0 && base.last() != 47 ==> p.len() == base.len() + 1 + name.len()
                && p[base.len() as int] == 47
        }),
{
    let p = joined(base, name);
    assert(p.subrange(0, base.len() as int) =~= base);
    assert(p.skip(p.len() - name.len()) =~= name);
    assert(base.len() == 0 ==> p =~= name);
}

} // verus!
