use vstd::prelude::*;

use crate::HexBytesInner;

verus! {

/// Wraps every buffer of a sequence for hex-text rendering.  An explicit
/// element-wise conversion, O(n) in the number of buffers: nothing here
/// depends on the wrapper sharing the buffer's layout.
pub fn serialize(bts: &Vec<Vec<u8>>) -> (r: Vec<HexBytesInner>)
    ensures
        r@.len() == bts@.len(),
        forall|i: int| 0 <= i < bts@.len() ==> #[trigger] r@[i]@ == bts@[i]@,
{
    let mut out: Vec<HexBytesInner> = Vec::new();
    let mut i: usize = 0;
    let ghost orig = bts@;
    while i < bts.len()
        invariant
            i <= bts@.len(),
            bts@ == orig,
            out@.len() == i,
            forall|j: int| 0 <= j < i ==> #[trigger] out@[j]@ == orig[j]@,
        decreases bts@.len() - i,
    {
        let b = bts[i].clone();
        out.push(HexBytesInner::from_vec(b));
        i = i + 1;
    }
    out
}

/// Unwraps a sequence of hex-adapted buffers back to plain buffers, O(n).
pub fn deserialize(wrapped: &Vec<HexBytesInner>) -> (r: Vec<Vec<u8>>)
    ensures
        r@.len() == wrapped@.len(),
        forall|i: int| 0 <= i < wrapped@.len() ==> #[trigger] r@[i]@ == wrapped@[i]@,
{
    let mut out: Vec<Vec<u8>> = Vec::new();
    let ghost orig = wrapped@;
    let mut i: usize = 0;
    while i < wrapped.len()
        invariant
            i <= wrapped@.len(),
            wrapped@ == orig,
            out@.len() == i,
            forall|j: int| 0 <= j < i ==> #[trigger] out@[j]@ == orig[j]@,
        decreases wrapped@.len() - i,
    {
        out.push(wrapped[i].to_vec());
        i = i + 1;
    }
    out
}

} // verus!
