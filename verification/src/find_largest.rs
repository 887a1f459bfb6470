//! Finding the largest element of a fixed-size array with a single scan.

use vstd::prelude::*;

verus! {

pub fn find_largest(array: [i32; 10]) -> (max: i32)
    ensures
        exists|k: int| 0 <= k < array@.len() && max == array@[k],
        forall|k: int| 0 <= k < array@.len() ==> array@[k] <= max,
{
    let mut i: usize = 0;
    let mut max: i32 = array[0];
    loop
        invariant_except_break
            i < 10,
            exists|k: int| 0 <= k <= i && max == array@[k],
            forall|k: int| 0 <= k <= i ==> array@[k] <= max,
        invariant
            array@.len() == 10,
        ensures
            exists|k: int| 0 <= k < 10 && max == array@[k],
            forall|k: int| 0 <= k < 10 ==> array@[k] <= max,
        decreases 10 - i,
    {
        i += 1;

        if i >= 10 {
            break;
        }

        if array[i] > max {
            max = array[i];
        }
    }

    max
}

} // verus!
