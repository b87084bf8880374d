//! Linear prediction: lag sums, autocorrelation and the coefficient update
//! of the Levinson-Durbin recursion.
use vstd::prelude::*;

verus! {

/// Number of index pairs `(i, i + lag)` that fall inside a frame of `n`
/// samples.
pub open spec fn lag_terms(n: nat, lag: nat) -> nat {
    if lag < n {
        (n - lag) as nat
    } else {
        0
    }
}

/// `trace` starts at `zero` and takes one `step` for each pair
/// `(x[i], x[i + lag])` inside the frame, `i` ascending: `trace[i + 1]` is
/// `step(trace[i], x[i], x[i + lag])`.
pub open spec fn is_lag_trace<T, F: Fn(T, T, T) -> T>(
    x: Seq<T>,
    lag: nat,
    zero: T,
    step: F,
    trace: Seq<T>,
) -> bool {
    &&& trace.len() == lag_terms(x.len(), lag) + 1
    &&& trace[0] == zero
    &&& forall|i: int|
        0 <= i < trace.len() - 1 ==> step.ensures(
            (trace[i], x[i], x[i + lag]),
            #[trigger] trace[i + 1],
        )
}

/// `v` is what the accumulation of `step` over the pairs at distance `lag`
/// ends with.
pub open spec fn is_lag_sum<T, F: Fn(T, T, T) -> T>(
    x: Seq<T>,
    lag: nat,
    zero: T,
    step: F,
    v: T,
) -> bool {
    exists|trace: Seq<T>| is_lag_trace(x, lag, zero, step, trace) && trace.last() == v
}

/// Accumulates `step(acc, signal[i], signal[i + lag])` from `zero`, for `i`
/// ascending while `i + lag` stays inside the frame.
///
/// With `step(acc, a, b) = acc + a * b` this is the autocorrelation at
/// `lag`; with `step(acc, a, b) = acc + (a - b)^2` it is the squared
/// difference of the frame and its shift by `lag`. A lag at or beyond the
/// frame's length has no terms and gives `zero`.
pub fn lag_sum<T: Copy, F: Fn(T, T, T) -> T>(signal: &[T], lag: usize, zero: T, step: &F) -> (r: T)
    requires
        forall|acc: T, a: T, b: T| #[trigger] step.requires((acc, a, b)),
    ensures
        is_lag_sum(signal@, lag as nat, zero, *step, r),
{
    let n = signal.len();
    let terms: usize = if lag < n { n - lag } else { 0 };
    let mut acc = zero;
    let ghost mut trace: Seq<T> = seq![zero];
    for i in 0..terms
        invariant
            terms == lag_terms(n as nat, lag as nat),
            n == signal@.len(),
            forall|acc: T, a: T, b: T| #[trigger] step.requires((acc, a, b)),
            trace.len() == i + 1,
            trace[0] == zero,
            trace.last() == acc,
            forall|k: int|
                0 <= k < i ==> step.ensures(
                    (trace[k], signal@[k], signal@[k + lag]),
                    #[trigger] trace[k + 1],
                ),
    {
        let next = step(acc, signal[i], signal[i + lag]);
        proof {
            trace = trace.push(next);
        }
        acc = next;
    }
    assert(is_lag_trace(signal@, lag as nat, zero, *step, trace));
    acc
}

/// Biased autocorrelation of `signal` at every lag from `0` to `maxlag`,
/// each one the lag sum of `step` from `zero` (`step(acc, a, b)` is
/// `acc + a * b`). Lags at or beyond the frame's length give `zero`.
pub fn autocorrelate<T: Copy, F: Fn(T, T, T) -> T>(
    signal: &[T],
    maxlag: usize,
    zero: T,
    step: F,
) -> (r: Vec<T>)
    requires
        maxlag < usize::MAX,
        forall|acc: T, a: T, b: T| #[trigger] step.requires((acc, a, b)),
    ensures
        r@.len() == maxlag + 1,
        forall|lag: int| 0 <= lag <= maxlag ==> is_lag_sum(signal@, lag as nat, zero, step, #[trigger] r@[lag]),
{
    let mut r: Vec<T> = Vec::with_capacity(maxlag + 1);
    for lag in 0..maxlag + 1
        invariant
            forall|acc: T, a: T, b: T| #[trigger] step.requires((acc, a, b)),
            r@.len() == lag,
            forall|k: int| 0 <= k < lag ==> is_lag_sum(signal@, k as nat, zero, step, #[trigger] r@[k]),
    {
        let v = lag_sum(signal, lag, zero, &step);
        r.push(v);
    }
    r
}

/// One order step of the Levinson-Durbin recursion, in place.
///
/// For a reflection coefficient `lambda`, `combine(own, mirror)` is
/// `own + lambda * mirror`. Every coefficient `a[j]` with `j <= order` is
/// replaced by `combine(a[j], a[order - j])`, both read before the step;
/// coefficients above `order` are left as they are. Each pair `j`,
/// `order - j` is read once and written once, so no coefficient is read
/// after it has been overwritten.
pub fn reflect_update<T: Copy, F: Fn(T, T) -> T>(a: &mut [T], order: usize, combine: F)
    requires
        order < old(a)@.len(),
        forall|own: T, mirror: T| #[trigger] combine.requires((own, mirror)),
    ensures
        final(a)@.len() == old(a)@.len(),
        forall|j: int|
            0 <= j <= order ==> combine.ensures(
                (old(a)@[j], old(a)@[order - j]),
                #[trigger] final(a)@[j],
            ),
        forall|j: int| order < j < old(a)@.len() ==> #[trigger] final(a)@[j] == old(a)@[j],
{
    let ghost before = a@;
    let half = order / 2;
    for j in 0..half + 1
        invariant
            half == order / 2,
            order < before.len(),
            a@.len() == before.len(),
            forall|own: T, mirror: T| #[trigger] combine.requires((own, mirror)),
            forall|k: int| j <= k <= order - j ==> #[trigger] a@[k] == before[k],
            forall|k: int| order < k < before.len() ==> #[trigger] a@[k] == before[k],
            forall|k: int|
                0 <= k < j ==> combine.ensures((before[k], before[order - k]), #[trigger] a@[k]),
            forall|k: int|
                order - j < k <= order ==> combine.ensures(
                    (before[k], before[order - k]),
                    #[trigger] a@[k],
                ),
    {
        let mirror_index = order - j;
        let own = a[j];
        let mirror = a[mirror_index];
        let new_own = combine(own, mirror);
        let new_mirror = combine(mirror, own);
        a[mirror_index] = new_mirror;
        a[j] = new_own;
    }
}

/// `x[0] * x[lag] + ... + x[m - 1] * x[m - 1 + lag]`, exactly.
pub open spec fn product_sum(x: Seq<i64>, lag: nat, m: nat) -> int
    decreases m,
{
    if m == 0 {
        0
    } else {
        product_sum(x, lag, (m - 1) as nat) + x[m - 1] as int * x[m - 1 + lag] as int
    }
}

/// `x[lo]^2 + ... + x[hi - 1]^2`, exactly.
pub open spec fn square_sum(x: Seq<i64>, lo: int, hi: int) -> int
    decreases hi - lo,
{
    if hi <= lo {
        0
    } else {
        square_sum(x, lo, hi - 1) + x[hi - 1] as int * x[hi - 1] as int
    }
}

/// A step that adds the product of its two samples to the running sum
/// exactly, whenever that product and that sum fit in `i64`.
pub open spec fn adds_products_exactly<F: Fn(i64, i64, i64) -> i64>(step: F) -> bool {
    forall|acc: i64, a: i64, b: i64, r: i64|
        #[trigger] step.ensures((acc, a, b), r) && i64::MIN <= a as int * b as int <= i64::MAX
            && i64::MIN <= acc as int + a as int * b as int <= i64::MAX ==> r as int == acc as int
            + a as int * b as int
}

proof fn lemma_trace_is_product_sum<F: Fn(i64, i64, i64) -> i64>(
    x: Seq<i64>,
    lag: nat,
    step: F,
    trace: Seq<i64>,
    k: nat,
)
    requires
        adds_products_exactly(step),
        square_sum(x, 0, x.len() as int) <= i64::MAX,
        is_lag_trace(x, lag, 0i64, step, trace),
        k < trace.len(),
    ensures
        trace[k as int] as int == product_sum(x, lag, k),
    decreases k,
{
    if k > 0 {
        let n = x.len() as int;
        let i = k - 1;
        lemma_trace_is_product_sum(x, lag, step, trace, i as nat);
        assert(step.ensures((trace[i], x[i], x[i + lag]), trace[i + 1]));
        let a = x[i] as int;
        let b = x[i + lag] as int;
        lemma_square_sum_within(x, i, i + 1, n);
        lemma_square_sum_within(x, i + lag, i + lag + 1, n);
        assert(square_sum(x, i, i) == 0);
        assert(square_sum(x, i, i + 1) == a * a);
        assert(square_sum(x, i + lag, i + lag) == 0);
        assert(square_sum(x, i + lag, i + lag + 1) == b * b);
        assert(2 * (a * b) <= a * a + b * b && -2 * (a * b) <= a * a + b * b) by (nonlinear_arith);
        lemma_product_sum_bound(x, lag, k);
        lemma_square_sum_within(x, 0, k as int, n);
        lemma_square_sum_within(x, lag as int, (lag + k) as int, n);
        assert(product_sum(x, lag, k) == product_sum(x, lag, i as nat) + a * b);
    }
}

proof fn lemma_square_sum_within(x: Seq<i64>, lo: int, hi: int, n: int)
    requires
        0 <= lo <= hi <= n,
    ensures
        0 <= square_sum(x, lo, hi) <= square_sum(x, 0, n),
{
    lemma_square_sum_split(x, 0, lo, n);
    lemma_square_sum_split(x, lo, hi, n);
    lemma_square_sum_nonneg(x, 0, lo);
    lemma_square_sum_nonneg(x, lo, hi);
    lemma_square_sum_nonneg(x, hi, n);
}

proof fn lemma_product_sum_at_zero(x: Seq<i64>, m: nat)
    ensures
        product_sum(x, 0, m) == square_sum(x, 0, m as int),
    decreases m,
{
    if m > 0 {
        lemma_product_sum_at_zero(x, (m - 1) as nat);
    }
}

proof fn lemma_square_sum_nonneg(x: Seq<i64>, lo: int, hi: int)
    ensures
        square_sum(x, lo, hi) >= 0,
    decreases hi - lo,
{
    if hi > lo {
        lemma_square_sum_nonneg(x, lo, hi - 1);
        let v = x[hi - 1] as int;
        assert(v * v >= 0) by (nonlinear_arith);
    }
}

proof fn lemma_square_sum_split(x: Seq<i64>, lo: int, mid: int, hi: int)
    requires
        lo <= mid <= hi,
    ensures
        square_sum(x, lo, hi) == square_sum(x, lo, mid) + square_sum(x, mid, hi),
    decreases hi - mid,
{
    if hi > mid {
        lemma_square_sum_split(x, lo, mid, hi - 1);
    }
}

proof fn lemma_product_sum_bound(x: Seq<i64>, lag: nat, m: nat)
    requires
        lag + m <= x.len(),
    ensures
        2 * product_sum(x, lag, m) <= square_sum(x, 0, m as int) + square_sum(
            x,
            lag as int,
            (lag + m) as int,
        ),
        -2 * product_sum(x, lag, m) <= square_sum(x, 0, m as int) + square_sum(
            x,
            lag as int,
            (lag + m) as int,
        ),
    decreases m,
{
    if m > 0 {
        lemma_product_sum_bound(x, lag, (m - 1) as nat);
        let a = x[m - 1] as int;
        let b = x[m - 1 + lag] as int;
        assert(2 * (a * b) <= a * a + b * b && -2 * (a * b) <= a * a + b * b) by (nonlinear_arith);
        assert(product_sum(x, lag, m) == product_sum(x, lag, (m - 1) as nat) + a * b);
        assert(square_sum(x, 0, m as int) == square_sum(x, 0, m - 1) + a * a);
        assert(square_sum(x, lag as int, (lag + m) as int) == square_sum(x, lag as int, lag + m - 1)
            + b * b);
    }
}

/// For a frame of integer samples whose energy fits in `i64`, accumulated
/// with a step that is exact wherever the values fit, the autocorrelation at
/// lag 0 (the energy) bounds the magnitude of the autocorrelation at every
/// lag.
pub proof fn lemma_energy_bounds_every_lag<F: Fn(i64, i64, i64) -> i64>(
    x: Seq<i64>,
    lag: nat,
    step: F,
    energy: i64,
    v: i64,
)
    requires
        adds_products_exactly(step),
        square_sum(x, 0, x.len() as int) <= i64::MAX,
        is_lag_sum(x, 0, 0i64, step, energy),
        is_lag_sum(x, lag, 0i64, step, v),
    ensures
        energy >= 0,
        energy >= v,
        energy >= -v,
{
    let n = x.len();
    let t0 = choose|t: Seq<i64>| is_lag_trace(x, 0, 0i64, step, t) && t.last() == energy;
    let tl = choose|t: Seq<i64>| is_lag_trace(x, lag, 0i64, step, t) && t.last() == v;
    let m = lag_terms(n, lag);
    lemma_trace_is_product_sum(x, 0, step, t0, n);
    lemma_trace_is_product_sum(x, lag, step, tl, m);
    assert(energy as int == square_sum(x, 0, n as int)) by {
        lemma_product_sum_at_zero(x, n);
    }
    assert(v as int == product_sum(x, lag, m));
    lemma_square_sum_nonneg(x, 0, n as int);
    if lag < n {
        lemma_product_sum_bound(x, lag, m);
        lemma_square_sum_split(x, 0, m as int, n as int);
        lemma_square_sum_split(x, 0, lag as int, n as int);
        lemma_square_sum_nonneg(x, m as int, n as int);
        lemma_square_sum_nonneg(x, 0, lag as int);
    }
}

} // verus!
