//! How byte strings are ordered.
use vstd::prelude::*;

use crate::sorting::precedes;

verus! {

/// The order of byte strings is decided by the first byte in which they differ, and one
/// that another begins with comes first.
pub proof fn law_order_of_blobs(front: Seq<u8>, x: u8, y: u8, s: Seq<u8>, t: Seq<u8>)
    ensures
        precedes(front + seq![x] + s, front + seq![y] + t) <==> x < y || (x == y && precedes(s, t)),
        precedes(front, front + seq![y] + t),
        !precedes(front + s, front),
    decreases front.len(),
{
    let (a, b) = (front + seq![x] + s, front + seq![y] + t);
    if front.len() == 0 {
        assert(a.drop_first() =~= s && b.drop_first() =~= t);
        assert(front + s =~= s);
    } else {
        let f = front.drop_first();
        law_order_of_blobs(f, x, y, s, t);
        assert(a.drop_first() =~= f + seq![x] + s);
        assert(b.drop_first() =~= f + seq![y] + t);
        assert((front + s).drop_first() =~= f + s);
    }
}

} // verus!
