use vstd::prelude::*;

verus! {

/// The corners of the two triangles that cover the quad `p0 p1 p2 p3`, where `p0`-`p3` is a
/// diagonal: `(p0, p1, p2)` and `(p1, p3, p2)`, both wound the same way.
pub fn quad_corners<P: Copy>(p0: P, p1: P, p2: P, p3: P) -> (r: [[P; 3]; 2])
    ensures
        r[0]@ == seq![p0, p1, p2],
        r[1]@ == seq![p1, p3, p2],
{
    let r = [[p0, p1, p2], [p1, p3, p2]];
    assert(r[0]@ =~= seq![p0, p1, p2]);
    assert(r[1]@ =~= seq![p1, p3, p2]);
    r
}

} // verus!
