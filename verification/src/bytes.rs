//! Lists of bytes.

use vstd::prelude::*;

verus! {

/// Appends bytes.
pub(crate) fn push_bytes(out: &mut Vec<u8>, tail: &[u8])
    ensures
        final(out)@ == old(out)@ + tail@,
{
    let ghost start = out@;
    for i in 0..tail.len()
        invariant
            out@ == start + tail@.take(i as int),
    {
        out.push(tail[i]);
        assert(out@ =~= start + tail@.take(i + 1));
    }
    assert(tail@.take(tail@.len() as int) =~= tail@);
}

} // verus!
