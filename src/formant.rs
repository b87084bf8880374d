//! Layout of the formant read-out that precedes a frequency response.
use vstd::prelude::*;

verus! {

/// Number of formant slots reported ahead of a frequency response.
pub const FORMANT_SLOTS: usize = 4;

/// The first `FORMANT_SLOTS` formants, padded with `fill` where fewer were
/// found, followed by the whole frequency response.
pub fn formants_with_response<T: Copy>(formants: &[T], response: &[T], fill: T) -> (r: Vec<T>)
    requires
        response@.len() + FORMANT_SLOTS <= usize::MAX,
    ensures
        r@.len() == FORMANT_SLOTS + response@.len(),
        forall|i: int|
            0 <= i < FORMANT_SLOTS ==> #[trigger] r@[i] == if i < formants@.len() {
                formants@[i]
            } else {
                fill
            },
        forall|j: int| 0 <= j < response@.len() ==> r@[FORMANT_SLOTS + j] == #[trigger] response@[j],
{
    let mut r: Vec<T> = Vec::with_capacity(FORMANT_SLOTS + response.len());
    for i in 0..FORMANT_SLOTS
        invariant
            r@.len() == i,
            forall|k: int|
                0 <= k < i ==> #[trigger] r@[k] == if k < formants@.len() {
                    formants@[k]
                } else {
                    fill
                },
    {
        if i < formants.len() {
            r.push(formants[i]);
        } else {
            r.push(fill);
        }
    }
    for j in 0..response.len()
        invariant
            r@.len() == FORMANT_SLOTS + j,
            forall|k: int|
                0 <= k < FORMANT_SLOTS ==> #[trigger] r@[k] == if k < formants@.len() {
                    formants@[k]
                } else {
                    fill
                },
            forall|k: int| 0 <= k < j ==> r@[FORMANT_SLOTS + k] == #[trigger] response@[k],
    {
        r.push(response[j]);
    }
    r
}

} // verus!
