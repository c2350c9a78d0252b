//! Streams of plain values, as the asset document hands them over.

use vstd::prelude::*;

verus! {

/// A copy of `source`, element for element.
pub fn copy_of<T: Copy>(source: &Vec<T>) -> (copy: Vec<T>)
    ensures
        copy@ == source@,
{
    let mut copy: Vec<T> = Vec::new();
    let mut i: usize = 0;
    while i < source.len()
        invariant
            i <= source@.len(),
            copy@ == source@.take(i as int),
        decreases source@.len() - i,
    {
        copy.push(source[i]);
        assert(copy@ =~= source@.take(i + 1));
        i += 1;
    }
    assert(source@.take(i as int) =~= source@);
    copy
}

} // verus!
