//! Frame-level helpers: decimation and pre-emphasis.
use vstd::prelude::*;

verus! {

/// Number of samples kept when every `factor`-th sample of `n` is taken,
/// starting with the first.
pub open spec fn decimated_len(n: nat, factor: nat) -> nat
    recommends
        factor > 0,
{
    if n == 0 {
        0
    } else {
        ((n - 1) as nat / factor + 1) as nat
    }
}

/// Keeps every `factor`-th sample of `input`, starting with the first.
///
/// The effective sample rate of the result is the original rate divided by
/// `factor`.
pub fn downsample<T: Copy>(input: &[T], factor: usize) -> (r: Vec<T>)
    requires
        factor > 0,
    ensures
        r@.len() == decimated_len(input@.len(), factor as nat),
        forall|i: int| 0 <= i < r@.len() ==> #[trigger] r@[i] == input@[i * factor],
{
    let n = input.len();
    let count: usize = if n == 0 { 0 } else { (n - 1) / factor + 1 };
    let mut r: Vec<T> = Vec::with_capacity(count);
    for j in 0..count
        invariant
            factor > 0,
            n == input@.len(),
            count == decimated_len(n as nat, factor as nat),
            r@.len() == j,
            forall|i: int| 0 <= i < r@.len() ==> #[trigger] r@[i] == input@[i * factor],
    {
        assert(j * factor < n) by (nonlinear_arith)
            requires
                j < count,
                count == (n - 1) / factor as int + 1,
                n > 0,
                factor > 0,
        ;
        r.push(input[j * factor]);
    }
    r
}

/// First-order pre-emphasis, in place.
///
/// For a coefficient `alpha`, `emphasize(x, prev)` is `x - alpha * prev` and
/// `scale_first(x)` is `(1 - alpha) * x`. The frame is walked from its last
/// sample down to the second, so that each sample is combined with the
/// value its predecessor held before the call; the first sample is scaled
/// last. An empty frame is left as it is.
pub fn pre_emphasis<T: Copy, D: Fn(T, T) -> T, S: Fn(T) -> T>(
    signal: &mut [T],
    emphasize: D,
    scale_first: S,
)
    requires
        forall|x: T, prev: T| #[trigger] emphasize.requires((x, prev)),
        forall|x: T| #[trigger] scale_first.requires((x,)),
    ensures
        final(signal)@.len() == old(signal)@.len(),
        forall|i: int|
            1 <= i < old(signal)@.len() ==> emphasize.ensures(
                (old(signal)@[i], old(signal)@[i - 1]),
                #[trigger] final(signal)@[i],
            ),
        old(signal)@.len() > 0 ==> scale_first.ensures((old(signal)@[0],), final(signal)@[0]),
{
    let n = signal.len();
    if n == 0 {
        return;
    }
    let ghost before = signal@;
    let mut i: usize = n - 1;
    while i > 0
        invariant
            i < n,
            n == before.len(),
            signal@.len() == n,
            forall|x: T, prev: T| #[trigger] emphasize.requires((x, prev)),
            forall|j: int| 0 <= j <= i ==> #[trigger] signal@[j] == before[j],
            forall|j: int|
                i < j < n ==> emphasize.ensures((before[j], before[j - 1]), #[trigger] signal@[j]),
        decreases i,
    {
        let x = signal[i];
        let prev = signal[i - 1];
        signal[i] = emphasize(x, prev);
        i = i - 1;
    }
    let first = signal[0];
    signal[0] = scale_first(first);
}

} // verus!
