use vstd::prelude::*;

verus! {

/// Bit pattern of the accuracy `0.2`: a lag is useful when its accuracy exceeds it.
pub const USEFUL_ACCURACY: u64 = 0x3FC9_9999_9999_999Au64;

/// The accuracies of the predictions for one target at one lag, in storage order.
#[derive(Debug)]
pub struct LagGroup {
    /// The lag shared by the group.
    pub lag: usize,
    /// Bit patterns of the accuracies of the group's predictions.
    pub accuracies: Vec<u64>,
}

/// Accuracy profile at every lag for a given target.
#[derive(Debug)]
pub struct PredictiveHorizon {
    /// The largest lag whose accuracy exceeds `USEFUL_ACCURACY`, or 0.
    pub max_useful_lag: usize,
    /// Bit patterns of the accuracies, one per lag starting from 1; a lag with no
    /// prediction gets 0, the bit pattern of `0.0`.
    pub accuracies: Vec<u64>,
}

/// The lags of `lag_acc` are positive and strictly increasing.
pub open spec fn lags_ascending(lag_acc: Seq<(usize, u64)>) -> bool {
    &&& forall|i: int| 0 <= i < lag_acc.len() ==> #[trigger] lag_acc[i].0 >= 1
    &&& forall|i: int, j: int|
        0 <= i < j < lag_acc.len() ==> #[trigger] lag_acc[i].0 < #[trigger] lag_acc[j].0
}

impl PredictiveHorizon {
    /// Build the horizon from `(lag, accuracy)` pairs sorted by lag: the dense
    /// accuracy profile over lags `1..=` the largest lag, and the largest useful lag.
    pub fn from_lag_accuracies(lag_acc: &[(usize, u64)]) -> (h: PredictiveHorizon)
        requires
            lags_ascending(lag_acc@),
        ensures
            h.accuracies@.len() == if lag_acc@.len() == 0 {
                0
            } else {
                lag_acc@.last().0 as int
            },
            forall|q: int|
                0 <= q < lag_acc@.len() ==> h.accuracies@[#[trigger] lag_acc@[q].0 - 1]
                    == lag_acc@[q].1,
            forall|j: int|
                0 <= j < h.accuracies@.len() && (forall|q: int|
                    0 <= q < lag_acc@.len() ==> #[trigger] lag_acc@[q].0 != j + 1)
                    ==> #[trigger] h.accuracies@[j] == 0,
            forall|q: int|
                0 <= q < lag_acc@.len() && #[trigger] lag_acc@[q].1 > USEFUL_ACCURACY
                    ==> lag_acc@[q].0 <= h.max_useful_lag,
            h.max_useful_lag == 0 || exists|q: int|
                0 <= q < lag_acc@.len() && #[trigger] lag_acc@[q].0 == h.max_useful_lag
                    && lag_acc@[q].1 > USEFUL_ACCURACY,
    {
        let n = lag_acc.len();
        let mut max_useful_lag: usize = 0;
        let mut i: usize = 0;
        while i < n
            invariant
                n == lag_acc@.len(),
                i <= n,
                forall|q: int|
                    0 <= q < i && #[trigger] lag_acc@[q].1 > USEFUL_ACCURACY ==> lag_acc@[q].0
                        <= max_useful_lag,
                max_useful_lag == 0 || exists|q: int|
                    0 <= q < i && #[trigger] lag_acc@[q].0 == max_useful_lag && lag_acc@[q].1
                        > USEFUL_ACCURACY,
            decreases n - i,
        {
            let (lag, acc) = lag_acc[i];
            if acc > USEFUL_ACCURACY && lag > max_useful_lag {
                max_useful_lag = lag;
            }
            i += 1;
        }

        let last: usize = if n == 0 {
            0
        } else {
            lag_acc[n - 1].0
        };
        let mut accuracies: Vec<u64> = Vec::new();
        let mut idx: usize = 0;
        let mut j: usize = 0;
        while j < last
            invariant
                n == lag_acc@.len(),
                lags_ascending(lag_acc@),
                last == if n == 0 {
                    0
                } else {
                    lag_acc@[n - 1].0
                },
                j <= last,
                idx <= n,
                accuracies@.len() == j,
                forall|q: int| 0 <= q < idx ==> #[trigger] lag_acc@[q].0 <= j,
                forall|q: int| idx <= q < n ==> #[trigger] lag_acc@[q].0 > j,
                forall|q: int|
                    0 <= q < idx ==> accuracies@[#[trigger] lag_acc@[q].0 - 1] == lag_acc@[q].1,
                forall|m: int|
                    0 <= m < j && (forall|q: int|
                        0 <= q < n ==> #[trigger] lag_acc@[q].0 != m + 1) ==> #[trigger] accuracies@[m]
                        == 0,
            decreases last - j,
        {
            if idx < n && lag_acc[idx].0 == j + 1 {
                accuracies.push(lag_acc[idx].1);
                idx += 1;
            } else {
                accuracies.push(0);
                assert forall|q: int| idx <= q < n implies #[trigger] lag_acc@[q].0 > j + 1 by {
                    assert(lag_acc@[idx as int].0 > j);
                    if q > idx {
                        assert(lag_acc@[idx as int].0 < lag_acc@[q].0);
                    }
                }
            }
            j += 1;
        }
        assert(idx == n) by {
            if idx < n {
                assert(lag_acc@[n - 1].0 > j);
            }
        }
        PredictiveHorizon { max_useful_lag, accuracies }
    }
}

} // verus!
