//! Turning labels into target vectors and output vectors into class labels.

use crate::scalar::{ONE_CODE, POS_ZERO};
use crate::NetError;
use vstd::prelude::*;

verus! {

/// One-hot encoding: a vector of `size` codes, `1.0` at `label` and `0.0`
/// elsewhere; `DimensionMismatch` if and only if `label` is out of range.
pub fn one_hot(label: usize, size: usize) -> (r: Result<Vec<u32>, NetError>)
    ensures
        label < size <==> r is Ok,
        r matches Ok(v) ==> v@.len() == size && v@[label as int] == ONE_CODE && (forall|k: int|
            0 <= k < size && k != label ==> v@[k] == POS_ZERO),
        r matches Err(e) ==> e == NetError::DimensionMismatch,
{
    if label >= size {
        return Err(NetError::DimensionMismatch);
    }
    let mut v: Vec<u32> = Vec::new();
    let mut k: usize = 0;
    while k < size
        invariant
            label < size,
            0 <= k <= size,
            v@.len() == k,
            forall|k2: int|
                0 <= k2 < k ==> #[trigger] v@[k2] == (if k2 == label {
                    ONE_CODE
                } else {
                    POS_ZERO
                }),
        decreases size - k,
    {
        if k == label {
            v.push(ONE_CODE);
        } else {
            v.push(POS_ZERO);
        }
        k = k + 1;
    }
    Ok(v)
}

/// `m` is the first index of the maximum of `out` under the unsigned order
/// on codes.
pub open spec fn is_first_max(out: Seq<u32>, m: int) -> bool {
    &&& 0 <= m < out.len()
    &&& forall|k: int| 0 <= k < out.len() ==> #[trigger] out[k] <= out[m]
    &&& forall|k: int| 0 <= k < m ==> #[trigger] out[k] < out[m]
}

/// The predicted class for an output vector: the index of its maximum, ties
/// broken by the first occurrence, or nothing for an empty vector.
///
/// Codes are compared as unsigned integers. On rectifier outputs the sign
/// bit is clear and no code is a NaN, so this order is exactly the order of
/// the values the codes denote, and it stays deterministic and total on any
/// other input.
pub fn predict(outputs: &Vec<u32>) -> (r: Option<usize>)
    ensures
        outputs@.len() == 0 <==> r is None,
        r matches Some(m) ==> is_first_max(outputs@, m as int),
{
    if outputs.len() == 0 {
        return None;
    }
    let mut best: usize = 0;
    let mut k: usize = 1;
    while k < outputs.len()
        invariant
            outputs@.len() >= 1,
            0 <= best < k <= outputs@.len(),
            forall|k2: int| 0 <= k2 < k ==> #[trigger] outputs@[k2] <= outputs@[best as int],
            forall|k2: int| 0 <= k2 < best ==> #[trigger] outputs@[k2] < outputs@[best as int],
        decreases outputs@.len() - k,
    {
        if outputs[k] > outputs[best] {
            best = k;
        }
        k = k + 1;
    }
    Some(best)
}

} // verus!
