//! What the predictor learns and answers, stated over sequences, and the laws
//! that hold of it.

use vstd::prelude::*;
use vstd::arithmetic::div_mod::lemma_fundamental_div_mod_converse;

use crate::prediction::{clipped_accuracy, lemma_clipped_accuracy_laws, Prediction, FULL_ACCURACY};

verus! {

/// Number of lags analysed for series of `series_len` samples when lags go up to
/// `max_lag`: lags run from 1 for as long as they stay below the series length.
pub open spec fn evaluated_lags(series_len: nat, max_lag: nat) -> nat {
    if series_len == 0 {
        0
    } else if max_lag < series_len {
        max_lag
    } else {
        (series_len - 1) as nat
    }
}

/// `correlations[i]` is the correlation at lag `i + 1`; index `best` holds the
/// highest accuracy among the first `k` lags, and no earlier lag reaches it.
pub open spec fn is_first_best(correlations: Seq<u64>, k: int, best: int) -> bool {
    &&& 0 <= best < k
    &&& forall|j: int|
        0 <= j < k ==> clipped_accuracy(#[trigger] correlations[j]) <= clipped_accuracy(
            correlations[best],
        )
    &&& forall|j: int|
        0 <= j < best ==> clipped_accuracy(#[trigger] correlations[j]) < clipped_accuracy(
            correlations[best],
        )
}

/// `p` is what the predictor keeps for `source -> target` when `correlations`
/// holds the correlations at lags `1..=k` of that pair: the first lag of highest
/// accuracy, with its correlation and the accuracy of that correlation.
pub open spec fn is_best_prediction(
    p: Prediction,
    source: int,
    target: int,
    correlations: Seq<u64>,
    k: int,
) -> bool {
    &&& p.source == source
    &&& p.target == target
    &&& 1 <= p.lag <= k
    &&& is_first_best(correlations, k, p.lag - 1)
    &&& p.correlation == correlations[p.lag - 1]
    &&& p.accuracy == clipped_accuracy(p.correlation)
}

/// The correlation table holds, for every ordered pair of the first `n` agents,
/// the correlations of at least `k` lags.
pub open spec fn covers(scores: Seq<Vec<Vec<u64>>>, n: int, k: int) -> bool {
    &&& scores.len() >= n
    &&& forall|s: int| 0 <= s < n ==> #[trigger] scores[s]@.len() >= n
    &&& forall|s: int, t: int|
        0 <= s < n && 0 <= t < n ==> #[trigger] scores[s]@[t]@.len() >= k
}

/// `preds` is what `analyze` learns for a fleet of `n` agents from `scores`
/// when `k` lags can be scored: nothing when `k` is 0, and otherwise one
/// prediction per ordered pair, source-major, each the best for its pair.
pub open spec fn learned_from(preds: Seq<Prediction>, n: int, scores: Seq<Vec<Vec<u64>>>, k: nat) -> bool {
    &&& k == 0 ==> preds.len() == 0
    &&& k > 0 ==> preds.len() == n * n
    &&& forall|i: int|
        #![trigger preds[i]]
        0 <= i < preds.len() ==> is_best_prediction(
            preds[i],
            i / n,
            i % n,
            scores[i / n]@[i % n]@,
            k as int,
        )
}

/// Two lags that are both the first best of the same scores are the same lag.
pub proof fn lemma_first_best_unique(correlations: Seq<u64>, k: int, a: int, b: int)
    requires
        is_first_best(correlations, k, a),
        is_first_best(correlations, k, b),
    ensures
        a == b,
{
    if a < b {
        assert(clipped_accuracy(correlations[a]) < clipped_accuracy(correlations[b]));
        assert(clipped_accuracy(correlations[b]) <= clipped_accuracy(correlations[a]));
    } else if b < a {
        assert(clipped_accuracy(correlations[b]) < clipped_accuracy(correlations[a]));
        assert(clipped_accuracy(correlations[a]) <= clipped_accuracy(correlations[b]));
    }
}

/// What is learned depends on the fleet size and the scores alone: two
/// analyses of the same scores learn the same predictions, whatever was
/// learned before.
pub proof fn lemma_learned_is_determined(
    p1: Seq<Prediction>,
    p2: Seq<Prediction>,
    n: int,
    scores: Seq<Vec<Vec<u64>>>,
    k: nat,
)
    requires
        learned_from(p1, n, scores, k),
        learned_from(p2, n, scores, k),
    ensures
        p1 == p2,
{
    assert forall|i: int| 0 <= i < p1.len() implies p1[i] == p2[i] by {
        let s = scores[i / n]@[i % n]@;
        lemma_first_best_unique(s, k as int, p1[i].lag - 1, p2[i].lag - 1);
    }
    assert(p1 =~= p2);
}

/// After an analysis that could score at least one lag, every agent of the
/// fleet has a best predictor.
pub proof fn lemma_every_agent_predicted(
    preds: Seq<Prediction>,
    n: int,
    scores: Seq<Vec<Vec<u64>>>,
    k: nat,
    target: usize,
)
    requires
        learned_from(preds, n, scores, k),
        k > 0,
        target < n,
    ensures
        best_for(preds, target) is Some,
{
    let t = target as int;
    assert(t < n * n) by (nonlinear_arith)
        requires
            0 <= t < n,
    ;
    lemma_fundamental_div_mod_converse(t, n, 0, t);
    assert(preds[t].target == target);
    lemma_best_for_is_last_maximum(preds, target);
}

/// The lags that `analyze` scores are exactly the lags `1..=max_lag` that stay
/// below the series length: their number never exceeds `max_lag`, stays below a
/// non-empty series' length, is `max_lag` itself when the series is longer than
/// `max_lag`, and is 0 for an empty series.
pub proof fn lemma_evaluated_lags_range(series_len: nat, max_lag: nat)
    ensures
        evaluated_lags(series_len, max_lag) <= max_lag,
        series_len == 0 ==> evaluated_lags(series_len, max_lag) == 0,
        series_len > 0 ==> evaluated_lags(series_len, max_lag) < series_len,
        max_lag < series_len ==> evaluated_lags(series_len, max_lag) == max_lag,
        0 < series_len <= max_lag ==> evaluated_lags(series_len, max_lag) == series_len - 1,
{
}

/// Every prediction learned from a series of `series_len` samples with lags up
/// to `max_lag` has a lag in `1..=max_lag` below the series length.
pub proof fn lemma_learned_lags_in_range(
    preds: Seq<Prediction>,
    n: int,
    scores: Seq<Vec<Vec<u64>>>,
    series_len: nat,
    max_lag: nat,
)
    requires
        learned_from(preds, n, scores, evaluated_lags(series_len, max_lag)),
    ensures
        forall|i: int|
            0 <= i < preds.len() ==> 1 <= #[trigger] preds[i].lag <= max_lag && preds[i].lag
                < series_len,
{
    lemma_evaluated_lags_range(series_len, max_lag);
    assert forall|i: int| 0 <= i < preds.len() implies 1 <= #[trigger] preds[i].lag <= max_lag
        && preds[i].lag < series_len by {
        assert(is_best_prediction(preds[i], i / n, i % n, scores[i / n]@[i % n]@, evaluated_lags(series_len, max_lag) as int));
    }
}

/// Selecting the predictions for a target keeps exactly those whose target it is,
/// whatever their accuracies, in storage order and without adding any.
pub proof fn lemma_aimed_at_selects_target(preds: Seq<Prediction>, target: usize)
    ensures
        forall|i: int|
            0 <= i < preds.filter(aimed_at(target)).len() ==> #[trigger] preds.filter(
                aimed_at(target),
            )[i].target == target,
        forall|j: int|
            0 <= j < preds.len() && #[trigger] preds[j].target == target ==> preds.filter(
                aimed_at(target),
            ).contains(preds[j]),
        forall|p: Prediction|
            #[trigger] preds.filter(aimed_at(target)).contains(p) ==> preds.contains(p),
        preds.filter(aimed_at(target)).len() <= preds.len(),
{
    broadcast use vstd::seq_lib::group_filter_ensures;
    assert forall|j: int| 0 <= j < preds.len() && #[trigger] preds[j].target == target implies preds.filter(
        aimed_at(target),
    ).contains(preds[j]) by {
        preds.lemma_filter_contains(aimed_at(target), j);
    }
    assert forall|p: Prediction| #[trigger] preds.filter(aimed_at(target)).contains(p) implies preds.contains(p) by {
        preds.lemma_filter_contains_rev(aimed_at(target), p);
    }
}

/// How many of `preds` are predictions for `target`.
pub open spec fn count_for(preds: Seq<Prediction>, target: usize) -> nat
    decreases preds.len(),
{
    if preds.len() == 0 {
        0
    } else {
        count_for(preds.drop_last(), target) + if preds.last().target == target {
            1nat
        } else {
            0nat
        }
    }
}

/// How many of `preds` are predictions for `target` at `lag`.
pub open spec fn count_at(preds: Seq<Prediction>, target: usize, lag: usize) -> nat
    decreases preds.len(),
{
    if preds.len() == 0 {
        0
    } else {
        count_at(preds.drop_last(), target, lag) + if preds.last().target == target
            && preds.last().lag == lag {
            1nat
        } else {
            0nat
        }
    }
}

/// There are as many predictions selected for a target as stored predictions
/// aimed at it.
pub proof fn lemma_aimed_at_count(preds: Seq<Prediction>, target: usize)
    ensures
        preds.filter(aimed_at(target)).len() == count_for(preds, target),
    decreases preds.len(),
{
    reveal_with_fuel(Seq::filter, 1);
    if preds.len() > 0 {
        lemma_aimed_at_count(preds.drop_last(), target);
    }
}

/// A lag group holds one accuracy per stored prediction for its target at its
/// lag, and the accuracy of each of them.
pub proof fn lemma_accuracies_at_complete(preds: Seq<Prediction>, target: usize, lag: usize)
    ensures
        accuracies_at(preds, target, lag).len() == count_at(preds, target, lag),
        forall|m: int|
            0 <= m < preds.len() && (#[trigger] preds[m]).target == target && preds[m].lag == lag
                ==> accuracies_at(preds, target, lag).contains(preds[m].accuracy),
    decreases preds.len(),
{
    broadcast use vstd::seq_lib::group_filter_ensures;
    reveal_with_fuel(Seq::filter, 1);
    if preds.len() > 0 {
        lemma_accuracies_at_complete(preds.drop_last(), target, lag);
    }
    let f = preds.filter(aimed_at_lag(target, lag));
    assert forall|m: int|
        0 <= m < preds.len() && (#[trigger] preds[m]).target == target && preds[m].lag == lag
            implies accuracies_at(preds, target, lag).contains(preds[m].accuracy) by {
        preds.lemma_filter_contains(aimed_at_lag(target, lag), m);
        let q = choose|q: int| 0 <= q < f.len() && f[q] == preds[m];
        assert(accuracies_at(preds, target, lag)[q] == preds[m].accuracy);
    }
}

/// Some stored prediction for `target` at `lag` has accuracy `a`.
pub open spec fn accuracy_stored(preds: Seq<Prediction>, target: usize, lag: usize, a: u64) -> bool {
    exists|m: int|
        #![trigger preds[m]]
        0 <= m < preds.len() && preds[m].target == target && preds[m].lag == lag
            && preds[m].accuracy == a
}

/// Each value of a lag group is the accuracy field of a stored prediction for
/// that target at that lag; for well-formed predictions it therefore lies in
/// `[0, 1]` and is the clipped magnitude of that prediction's correlation.
pub proof fn lemma_accuracies_at_are_accuracies(
    n: usize,
    preds: Seq<Prediction>,
    target: usize,
    lag: usize,
)
    ensures
        forall|i: int|
            0 <= i < accuracies_at(preds, target, lag).len() ==> accuracy_stored(
                preds,
                target,
                lag,
                #[trigger] accuracies_at(preds, target, lag)[i],
            ),
        predictions_well_formed(n, preds) ==> forall|i: int|
            0 <= i < accuracies_at(preds, target, lag).len() ==> {
                &&& #[trigger] accuracies_at(preds, target, lag)[i] <= FULL_ACCURACY
                &&& exists|m: int|
                    #![trigger preds[m]]
                    0 <= m < preds.len() && accuracies_at(preds, target, lag)[i]
                        == clipped_accuracy(preds[m].correlation)
            },
{
    broadcast use vstd::seq_lib::group_filter_ensures;
    let f = preds.filter(aimed_at_lag(target, lag));
    assert forall|i: int| 0 <= i < accuracies_at(preds, target, lag).len() implies accuracy_stored(
        preds,
        target,
        lag,
        #[trigger] accuracies_at(preds, target, lag)[i],
    ) by {
        assert(accuracies_at(preds, target, lag)[i] == f[i].accuracy);
        preds.lemma_filter_pred(aimed_at_lag(target, lag), i);
        assert(f.contains(f[i]));
        preds.lemma_filter_contains_rev(aimed_at_lag(target, lag), f[i]);
        let m = choose|m: int| 0 <= m < preds.len() && preds[m] == f[i];
        assert(preds[m].accuracy == accuracies_at(preds, target, lag)[i]);
    }
    if predictions_well_formed(n, preds) {
        assert forall|i: int| 0 <= i < accuracies_at(preds, target, lag).len() implies {
            &&& #[trigger] accuracies_at(preds, target, lag)[i] <= FULL_ACCURACY
            &&& exists|m: int|
                #![trigger preds[m]]
                0 <= m < preds.len() && accuracies_at(preds, target, lag)[i]
                    == clipped_accuracy(preds[m].correlation)
        } by {
            assert(accuracy_stored(preds, target, lag, accuracies_at(preds, target, lag)[i]));
            let m = choose|m: int|
                #![trigger preds[m]]
                0 <= m < preds.len() && preds[m].target == target && preds[m].lag == lag
                    && preds[m].accuracy == accuracies_at(preds, target, lag)[i];
            assert(preds[m].accuracy <= FULL_ACCURACY);
        }
    }
}

/// Every stored prediction links two agents of the fleet at a positive lag, and
/// its accuracy is its correlation's magnitude clipped to `[0, 1]`.
pub open spec fn predictions_well_formed(n: usize, preds: Seq<Prediction>) -> bool {
    forall|i: int|
        0 <= i < preds.len() ==> {
            &&& (#[trigger] preds[i]).source < n
            &&& preds[i].target < n
            &&& preds[i].lag >= 1
            &&& preds[i].accuracy == clipped_accuracy(preds[i].correlation)
            &&& preds[i].accuracy <= FULL_ACCURACY
        }
}

/// The prediction that `best_predictor_for` picks for `target` among `preds`:
/// scanning in order, a prediction for `target` takes the place of the current
/// pick when its accuracy is at least as high.
pub open spec fn best_for(preds: Seq<Prediction>, target: usize) -> Option<Prediction>
    decreases preds.len(),
{
    if preds.len() == 0 {
        None
    } else {
        let rest = best_for(preds.drop_last(), target);
        let p = preds.last();
        if p.target != target {
            rest
        } else {
            match rest {
                None => Some(p),
                Some(b) => if b.accuracy <= p.accuracy {
                    Some(p)
                } else {
                    Some(b)
                },
            }
        }
    }
}

/// The predicate "is a prediction for `target`".
pub open spec fn aimed_at(target: usize) -> spec_fn(Prediction) -> bool {
    |p: Prediction| p.target == target
}

/// The best prediction for a target is one of the stored predictions for that
/// target, its accuracy is the highest among them, and every later prediction
/// for that target is strictly less accurate; there is none exactly when no
/// prediction is stored for the target.
pub proof fn lemma_best_for_is_last_maximum(preds: Seq<Prediction>, target: usize)
    ensures
        best_for(preds, target) is None <==> forall|i: int|
            0 <= i < preds.len() ==> #[trigger] preds[i].target != target,
        best_for(preds, target) matches Some(b) ==> exists|i: int|
            {
                &&& 0 <= i < preds.len()
                &&& #[trigger] preds[i] == b
                &&& b.target == target
                &&& forall|j: int|
                    0 <= j < preds.len() && #[trigger] preds[j].target == target
                        ==> preds[j].accuracy <= b.accuracy
                &&& forall|j: int|
                    i < j < preds.len() && #[trigger] preds[j].target == target
                        ==> preds[j].accuracy < b.accuracy
            },
    decreases preds.len(),
{
    if preds.len() > 0 {
        let init = preds.drop_last();
        lemma_best_for_is_last_maximum(init, target);
        let last = preds.len() - 1;
        assert forall|j: int| 0 <= j < init.len() implies #[trigger] preds[j] == init[j] by {}
        match best_for(init, target) {
            None => {
                if preds.last().target == target {
                    assert(preds[last] == preds.last());
                } else {
                    assert forall|i: int| 0 <= i < preds.len() implies #[trigger] preds[i].target
                        != target by {
                        if i < last {
                            assert(init[i].target != target);
                        }
                    }
                }
            },
            Some(b) => {
                let i0 = choose|i: int|
                    {
                        &&& 0 <= i < init.len()
                        &&& #[trigger] init[i] == b
                        &&& b.target == target
                        &&& forall|j: int|
                            0 <= j < init.len() && #[trigger] init[j].target == target
                                ==> init[j].accuracy <= b.accuracy
                        &&& forall|j: int|
                            i < j < init.len() && #[trigger] init[j].target == target
                                ==> init[j].accuracy < b.accuracy
                    };
                assert(preds[i0] == b);
                if preds.last().target == target && b.accuracy <= preds.last().accuracy {
                    assert(preds[last] == preds.last());
                    assert forall|j: int|
                        0 <= j < preds.len() && #[trigger] preds[j].target == target implies
                            preds[j].accuracy <= preds.last().accuracy by {
                        if j < last {
                            assert(init[j].target == target);
                        }
                    }
                } else {
                    assert forall|j: int|
                        0 <= j < preds.len() && #[trigger] preds[j].target == target implies
                            preds[j].accuracy <= b.accuracy by {
                        if j < last {
                            assert(init[j].target == target);
                        }
                    }
                    assert forall|j: int|
                        i0 < j < preds.len() && #[trigger] preds[j].target == target implies
                            preds[j].accuracy < b.accuracy by {
                        if j < last {
                            assert(init[j].target == target);
                        }
                    }
                }
            },
        }
    }
}

/// The predicate "is a prediction for `target` at `lag`".
pub open spec fn aimed_at_lag(target: usize, lag: usize) -> spec_fn(Prediction) -> bool {
    |p: Prediction| p.target == target && p.lag == lag
}

/// The accuracy of a prediction.
pub open spec fn accuracy_of(p: Prediction) -> u64 {
    p.accuracy
}

/// The accuracies of the predictions for `target` at `lag`, in storage order.
pub open spec fn accuracies_at(preds: Seq<Prediction>, target: usize, lag: usize) -> Seq<u64> {
    preds.filter(aimed_at_lag(target, lag)).map_values(|p: Prediction| accuracy_of(p))
}

/// Indexing `history` as `predict` does succeeds: the first series exists, and
/// the series that the prediction reads are long enough.
pub open spec fn predict_defined<T>(preds: Seq<Prediction>, target: usize, history: Seq<Vec<T>>) -> bool {
    &&& history.len() > 0
    &&& history[0]@.len() > 0 ==> match best_for(preds, target) {
        Some(b) => {
            &&& b.source < history.len()
            &&& target < history.len()
            &&& b.lag < history[0]@.len() ==> history[b.source as int]@.len() >= history[0]@.len() - b.lag
            &&& history[target as int]@.len() >= if b.lag < history[0]@.len() {
                b.lag as int
            } else {
                history[0]@.len() as int
            }
        },
        None => {
            &&& target < history.len()
            &&& history[target as int]@.len() >= history[0]@.len()
        },
    }
}

} // verus!
