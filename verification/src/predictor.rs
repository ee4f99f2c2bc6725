use vstd::prelude::*;
use vstd::arithmetic::div_mod::lemma_fundamental_div_mod_converse;

use crate::horizon::LagGroup;
use crate::model::{
    count_at, count_for, lemma_accuracies_at_complete, lemma_aimed_at_count, accuracy_stored, lemma_accuracies_at_are_accuracies, lemma_aimed_at_selects_target,
    lemma_evaluated_lags_range, lemma_learned_lags_in_range, accuracies_at, accuracy_of, aimed_at, aimed_at_lag, best_for, covers, evaluated_lags,
    is_best_prediction, is_first_best, lemma_best_for_is_last_maximum, learned_from,
    predict_defined, predictions_well_formed,
};
use crate::prediction::{clip_accuracy, clipped_accuracy, Prediction, FULL_ACCURACY};

verus! {

/// A fleet-wide predictor that learns cross-agent correlation relationships.
#[derive(Debug)]
pub struct FleetPredictor {
    n_agents: usize,
    predictions: Vec<Prediction>,
}

impl FleetPredictor {
    #[verifier::type_invariant]
    spec fn inv(self) -> bool {
        predictions_well_formed(self.n_agents, self.predictions@)
    }

    /// Number of agents in the fleet.
    pub closed spec fn agents(&self) -> usize {
        self.n_agents
    }

    /// The stored predictions.
    pub closed spec fn learned(&self) -> Seq<Prediction> {
        self.predictions@
    }

    /// Create a new predictor for `n_agents` in the fleet, with nothing learned.
    pub fn new(n_agents: usize) -> (fp: Self)
        ensures
            fp.agents() == n_agents,
            fp.learned() == Seq::<Prediction>::empty(),
    {
        FleetPredictor { n_agents, predictions: Vec::new() }
    }

    /// Number of agents in this fleet.
    pub fn n_agents(&self) -> (n: usize)
        ensures
            n == self.agents(),
    {
        self.n_agents
    }

    /// All stored predictions.
    pub fn predictions(&self) -> (preds: &[Prediction])
        ensures
            preds@ == self.learned(),
            predictions_well_formed(self.agents(), preds@),
    {
        proof {
            use_type_invariant(self);
        }
        self.predictions.as_slice()
    }

    /// Get the best (highest-accuracy) predictor for a given target agent; among
    /// equally accurate ones, the one stored last.
    pub fn best_predictor_for(&self, target: usize) -> (r: Option<&Prediction>)
        ensures
            r is None <==> best_for(self.learned(), target) is None,
            r matches Some(p) ==> best_for(self.learned(), target) == Some(*p),
            r is None <==> forall|i: int|
                0 <= i < self.learned().len() ==> #[trigger] self.learned()[i].target != target,
            r matches Some(p) ==> p.target == target && self.learned().contains(*p) && forall|j: int|
                0 <= j < self.learned().len() && #[trigger] self.learned()[j].target == target
                    ==> self.learned()[j].accuracy <= p.accuracy,
    {
        let ghost preds = self.predictions@;
        let mut best: Option<usize> = None;
        let mut i: usize = 0;
        while i < self.predictions.len()
            invariant
                preds == self.predictions@,
                i <= preds.len(),
                best matches Some(b) ==> b < i,
                best_for(preds.take(i as int), target) == match best {
                    None => None,
                    Some(b) => Some(preds[b as int]),
                },
            decreases preds.len() - i,
        {
            assert(preds.take(i + 1).drop_last() =~= preds.take(i as int));
            if self.predictions[i].target == target {
                match best {
                    None => {
                        best = Some(i);
                    },
                    Some(b) => {
                        if self.predictions[b].accuracy <= self.predictions[i].accuracy {
                            best = Some(i);
                        }
                    },
                }
            }
            i += 1;
        }
        assert(preds.take(preds.len() as int) =~= preds);
        proof {
            lemma_best_for_is_last_maximum(preds, target);
        }
        match best {
            None => None,
            Some(b) => Some(&self.predictions[b]),
        }
    }

    /// The stored predictions for `target`, in storage order.
    pub fn predictions_for(&self, target: usize) -> (r: Vec<Prediction>)
        ensures
            r@ == self.learned().filter(aimed_at(target)),
            forall|i: int| 0 <= i < r@.len() ==> #[trigger] r@[i].target == target,
            forall|j: int|
                0 <= j < self.learned().len() && #[trigger] self.learned()[j].target == target
                    ==> r@.contains(self.learned()[j]),
            forall|p: Prediction| #[trigger] r@.contains(p) ==> self.learned().contains(p),
            r@.len() <= self.learned().len(),
            r@.len() == count_for(self.learned(), target),
    {
        proof {
            lemma_aimed_at_selects_target(self.learned(), target);
            lemma_aimed_at_count(self.learned(), target);
        }
        let ghost preds = self.predictions@;
        let mut r: Vec<Prediction> = Vec::new();
        let mut i: usize = 0;
        while i < self.predictions.len()
            invariant
                preds == self.predictions@,
                i <= preds.len(),
                r@ == preds.take(i as int).filter(aimed_at(target)),
            decreases preds.len() - i,
        {
            proof {
                assert(preds.take(i + 1) =~= preds.take(i as int).push(preds[i as int]));
                preds.take(i as int).lemma_filter_push(preds[i as int], aimed_at(target));
            }
            if self.predictions[i].target == target {
                r.push(self.predictions[i]);
            }
            i += 1;
        }
        assert(preds.take(preds.len() as int) =~= preds);
        r
    }

    /// The predictions for `target` grouped by lag: one group per lag at which
    /// `target` has a prediction, in increasing lag order, each holding the
    /// accuracies of that lag's predictions in storage order.
    pub fn lag_groups(&self, target: usize) -> (groups: Vec<LagGroup>)
        ensures
            forall|a: int, b: int|
                0 <= a < b < groups@.len() ==> #[trigger] groups@[a].lag < #[trigger] groups@[b].lag,
            forall|g: int|
                0 <= g < groups@.len() ==> {
                    &&& #[trigger] groups@[g].lag >= 1
                    &&& groups@[g].accuracies@ == accuracies_at(self.learned(), target, groups@[g].lag)
                    &&& groups@[g].accuracies@.len() > 0
                    &&& groups@[g].accuracies@.len() == count_at(self.learned(), target, groups@[g].lag)
                },
            forall|g: int, m: int|
                0 <= g < groups@.len() && 0 <= m < self.learned().len() && (#[trigger] self.learned()[m]).target == target
                    && self.learned()[m].lag == groups@[g].lag ==> #[trigger] groups@[g].accuracies@.contains(self.learned()[m].accuracy),
            forall|g: int, i: int|
                0 <= g < groups@.len() && 0 <= i < groups@[g].accuracies@.len() ==> {
                    &&& accuracy_stored(self.learned(), target, groups@[g].lag, #[trigger] groups@[g].accuracies@[i])
                    &&& groups@[g].accuracies@[i] <= FULL_ACCURACY
                },
            forall|i: int|
                0 <= i < self.learned().len() && #[trigger] self.learned()[i].target == target
                    ==> exists|g: int| 0 <= g < groups@.len() && #[trigger] groups@[g].lag == self.learned()[i].lag,
    {
        proof {
            use_type_invariant(self);
        }
        let ghost preds = self.predictions@;
        assert(preds == self.learned());
        let lags = self.lags_for(target);
        let mut groups: Vec<LagGroup> = Vec::new();
        let mut g: usize = 0;
        while g < lags.len()
            invariant
                preds == self.predictions@,
                predictions_well_formed(self.n_agents, preds),
                g <= lags@.len(),
                groups@.len() == g,
                forall|a: int, b: int|
                    0 <= a < b < lags@.len() ==> #[trigger] lags@[a] < #[trigger] lags@[b],
                forall|x: usize|
                    #[trigger] lags@.contains(x) <==> exists|m: int|
                        0 <= m < self.predictions@.len() && (#[trigger] self.predictions@[m]).lag == x
                            && self.predictions@[m].target == target,
                forall|q: int|
                    0 <= q < g ==> {
                        &&& #[trigger] groups@[q].lag == lags@[q]
                        &&& groups@[q].lag >= 1
                        &&& groups@[q].accuracies@ == accuracies_at(preds, target, groups@[q].lag)
                        &&& groups@[q].accuracies@.len() > 0
                    },
            decreases lags@.len() - g,
        {
            let lag = lags[g];
            assert(lags@.contains(lag));
            let ghost w = choose|m: int|
                0 <= m < preds.len() && (#[trigger] preds[m]).lag == lag && preds[m].target == target;
            assert(preds[w].lag >= 1);
            let accuracies = self.accuracies_for(target, lag);
            assert(accuracies@.len() > 0);
            let ghost old_groups = groups@;
            groups.push(LagGroup { lag, accuracies });
            assert forall|q: int|
                0 <= q < g + 1 implies {
                    &&& #[trigger] groups@[q].lag == lags@[q]
                    &&& groups@[q].lag >= 1
                    &&& groups@[q].accuracies@ == accuracies_at(preds, target, groups@[q].lag)
                    &&& groups@[q].accuracies@.len() > 0
                } by {
                if q < g {
                    assert(groups@[q] == old_groups[q]);
                }
            }
            g += 1;
        }
        assert forall|g: int| 0 <= g < groups@.len() implies #[trigger] groups@[g].accuracies@.len()
            == count_at(preds, target, groups@[g].lag) by {
            lemma_accuracies_at_complete(preds, target, groups@[g].lag);
        }
        assert forall|g: int, m: int|
            0 <= g < groups@.len() && 0 <= m < preds.len() && (#[trigger] preds[m]).target == target
                && preds[m].lag == groups@[g].lag implies #[trigger] groups@[g].accuracies@.contains(preds[m].accuracy) by {
            lemma_accuracies_at_complete(preds, target, groups@[g].lag);
        }
        assert forall|g: int, i: int|
            0 <= g < groups@.len() && 0 <= i < groups@[g].accuracies@.len() implies {
                &&& accuracy_stored(preds, target, groups@[g].lag, #[trigger] groups@[g].accuracies@[i])
                &&& groups@[g].accuracies@[i] <= FULL_ACCURACY
            } by {
            lemma_accuracies_at_are_accuracies(self.n_agents, preds, target, groups@[g].lag);
            assert(groups@[g].accuracies@[i] == accuracies_at(preds, target, groups@[g].lag)[i]);
        }
        assert forall|i: int|
            0 <= i < preds.len() && #[trigger] preds[i].target == target implies exists|q: int|
                0 <= q < groups@.len() && #[trigger] groups@[q].lag == preds[i].lag by {
            assert(exists|m: int| 0 <= m < preds.len() && (#[trigger] preds[m]).lag == preds[i].lag && preds[m].target == target);
            assert(lags@.contains(preds[i].lag));
            let q = choose|q: int| 0 <= q < lags@.len() && lags@[q] == preds[i].lag;
            assert(groups@[q].lag == lags@[q]);
        }
        groups
    }

    /// The distinct lags of the predictions for `target`, in increasing order.
    fn lags_for(&self, target: usize) -> (lags: Vec<usize>)
        ensures
            forall|a: int, b: int|
                0 <= a < b < lags@.len() ==> #[trigger] lags@[a] < #[trigger] lags@[b],
            forall|x: usize|
                #[trigger] lags@.contains(x) <==> exists|m: int|
                    0 <= m < self.predictions@.len() && (#[trigger] self.predictions@[m]).lag == x
                        && self.predictions@[m].target == target,
    {
        let len = self.predictions.len();
        let mut lags: Vec<usize> = Vec::new();
        let mut i: usize = 0;
        while i < len
            invariant
                len == self.predictions@.len(),
                i <= len,
                forall|a: int, b: int|
                    0 <= a < b < lags@.len() ==> #[trigger] lags@[a] < #[trigger] lags@[b],
                forall|x: usize|
                    #[trigger] lags@.contains(x) <==> exists|m: int|
                        0 <= m < i && (#[trigger] self.predictions@[m]).lag == x && self.predictions@[m].target == target,
            decreases len - i,
        {
            let ghost before = lags@;
            if self.predictions[i].target == target {
                insert_sorted(&mut lags, self.predictions[i].lag);
            }
            assert forall|x: usize|
                #[trigger] lags@.contains(x) <==> exists|m: int|
                    0 <= m < i + 1 && (#[trigger] self.predictions@[m]).lag == x && self.predictions@[m].target == target by {
                if exists|m: int| 0 <= m < i + 1 && (#[trigger] self.predictions@[m]).lag == x && self.predictions@[m].target == target {
                    let m = choose|m: int| 0 <= m < i + 1 && (#[trigger] self.predictions@[m]).lag == x && self.predictions@[m].target == target;
                    if m < i {
                        assert(before.contains(x));
                    }
                }
                if lags@.contains(x) && !before.contains(x) {
                    assert(self.predictions@[i as int].lag == x && self.predictions@[i as int].target == target);
                }
            }
            i += 1;
        }
        lags
    }

    /// The accuracies of the predictions for `target` at `lag`, in storage order.
    fn accuracies_for(&self, target: usize, lag: usize) -> (accuracies: Vec<u64>)
        ensures
            accuracies@ == accuracies_at(self.predictions@, target, lag),
            (exists|m: int|
                0 <= m < self.predictions@.len() && (#[trigger] self.predictions@[m]).lag == lag
                    && self.predictions@[m].target == target) ==> accuracies@.len() > 0,
    {
        let ghost preds = self.predictions@;
        let len = self.predictions.len();
        let mut accuracies: Vec<u64> = Vec::new();
        let mut m: usize = 0;
        while m < len
            invariant
                preds == self.predictions@,
                len == preds.len(),
                m <= len,
                accuracies@ == preds.take(m as int).filter(aimed_at_lag(target, lag)).map_values(
                    |p: Prediction| accuracy_of(p),
                ),
                (exists|k: int| 0 <= k < m && (#[trigger] preds[k]).lag == lag && preds[k].target == target)
                    ==> accuracies@.len() > 0,
            decreases len - m,
        {
            let ghost before = preds.take(m as int).filter(aimed_at_lag(target, lag));
            let ghost had = accuracies@.len() > 0;
            proof {
                assert(preds.take(m + 1) =~= preds.take(m as int).push(preds[m as int]));
                preds.take(m as int).lemma_filter_push(preds[m as int], aimed_at_lag(target, lag));
            }
            if self.predictions[m].target == target && self.predictions[m].lag == lag {
                accuracies.push(self.predictions[m].accuracy);
                assert(before.push(preds[m as int]).map_values(|p: Prediction| accuracy_of(p))
                    =~= before.map_values(|p: Prediction| accuracy_of(p)).push(preds[m as int].accuracy));
            }
            assert((exists|k: int| 0 <= k < m + 1 && (#[trigger] preds[k]).lag == lag && preds[k].target == target)
                ==> accuracies@.len() > 0) by {
                if exists|k: int| 0 <= k < m + 1 && (#[trigger] preds[k]).lag == lag && preds[k].target == target {
                    let k = choose|k: int| 0 <= k < m + 1 && (#[trigger] preds[k]).lag == lag && preds[k].target == target;
                    if k < m {
                        assert(had);
                    }
                }
            }
            m += 1;
        }
        assert(preds.take(len as int) =~= preds);
        accuracies
    }

    /// Predict the states of `target` from `history`, one series per agent.
    ///
    /// Returns as many values as `history[0]` holds. With a best predictor
    /// `source` at `lag`, position `i` is `scale(correlation, source[i - lag])`
    /// once `i >= lag`, and the target's own value before; without one, every
    /// position is the last known value of the target.
    pub fn predict<T: Copy, F: Fn(u64, T) -> T>(&self, target: usize, history: &[Vec<T>], scale: F) -> (r: Vec<T>)
        requires
            predict_defined(self.learned(), target, history@),
            forall|c: u64, x: T| #[trigger] scale.requires((c, x)),
        ensures
            r@.len() == history@[0]@.len(),
            history@[0]@.len() > 0 ==> match best_for(self.learned(), target) {
                Some(b) => forall|i: int|
                    0 <= i < r@.len() ==> {
                        &&& i < b.lag ==> #[trigger] r@[i] == history@[target as int]@[i]
                        &&& i >= b.lag ==> scale.ensures(
                            (b.correlation, history@[b.source as int]@[i - b.lag]),
                            r@[i],
                        )
                    },
                None => forall|i: int|
                    0 <= i < r@.len() ==> #[trigger] r@[i] == history@[target as int]@[history@[0]@.len()
                        - 1],
            },
    {
        let len = history[0].len();
        let mut result: Vec<T> = Vec::new();
        if len == 0 {
            return result;
        }
        match self.best_predictor_for(target) {
            Some(best) => {
                let src_series = &history[best.source];
                let own = &history[target];
                let lag = best.lag;
                let corr = best.correlation;
                let mut i: usize = 0;
                while i < len
                    invariant
                        len == history@[0]@.len(),
                        i <= len,
                        *src_series == history@[best.source as int],
                        *own == history@[target as int],
                        lag == best.lag,
                        corr == best.correlation,
                        lag < len ==> src_series@.len() >= len - lag,
                        own@.len() >= if lag < len { lag as int } else { len as int },
                        forall|c: u64, x: T| #[trigger] scale.requires((c, x)),
                        result@.len() == i,
                        forall|j: int|
                            0 <= j < i ==> {
                                &&& j < lag ==> #[trigger] result@[j] == own@[j]
                                &&& j >= lag ==> scale.ensures((corr, src_series@[j - lag]), result@[j])
                            },
                    decreases len - i,
                {
                    if i >= lag {
                        let predicted = scale(corr, src_series[i - lag]);
                        result.push(predicted);
                    } else {
                        result.push(own[i]);
                    }
                    i += 1;
                }
                result
            },
            None => {
                let last = history[target][len - 1];
                let mut i: usize = 0;
                while i < len
                    invariant
                        i <= len,
                        result@.len() == i,
                        forall|j: int| 0 <= j < i ==> #[trigger] result@[j] == last,
                    decreases len - i,
                {
                    result.push(last);
                    i += 1;
                }
                result
            },
        }
    }

    /// Number of lags that `analyze` scores for series of `series_len` samples
    /// and lags up to `max_lag`.
    pub fn lag_count(series_len: usize, max_lag: usize) -> (k: usize)
        ensures
            k == evaluated_lags(series_len as nat, max_lag as nat),
            k <= max_lag,
            series_len == 0 ==> k == 0,
            series_len > 0 ==> k < series_len,
            max_lag < series_len ==> k == max_lag,
            0 < series_len <= max_lag ==> k == series_len - 1,
    {
        proof {
            lemma_evaluated_lags_range(series_len as nat, max_lag as nat);
        }
        if series_len == 0 {
            0
        } else if max_lag < series_len {
            max_lag
        } else {
            series_len - 1
        }
    }

    /// Learn, for every ordered pair of agents, the lag that best predicts.
    ///
    /// The series are `series_len` samples long; lags `1..=max_lag` are scored
    /// while they stay below `series_len` (see `lag_count`).
    /// `scores[source][target][lag - 1]` is the bit pattern of the correlation of
    /// `source[t]` against `target[t + lag]`; its accuracy is its magnitude
    /// clipped to `[0, 1]`. Previous predictions are dropped; for every ordered
    /// pair (source-major order) the first lag of highest accuracy is stored.
    /// Nothing is stored when no lag can be scored.
    pub fn analyze(&mut self, series_len: usize, max_lag: usize, scores: &[Vec<Vec<u64>>])
        requires
            evaluated_lags(series_len as nat, max_lag as nat) > 0 ==> covers(
                scores@,
                old(self).agents() as int,
                evaluated_lags(series_len as nat, max_lag as nat) as int,
            ),
        ensures
            final(self).agents() == old(self).agents(),
            predictions_well_formed(old(self).agents(), final(self).learned()),
            forall|i: int|
                0 <= i < final(self).learned().len() ==> 1 <= #[trigger] final(self).learned()[i].lag
                    <= max_lag && final(self).learned()[i].lag < series_len,
            learned_from(
                final(self).learned(),
                old(self).agents() as int,
                scores@,
                evaluated_lags(series_len as nat, max_lag as nat),
            ),
    {
        let n = self.n_agents;
        let k = Self::lag_count(series_len, max_lag);
        let mut learned: Vec<Prediction> = Vec::new();
        if n == 0 || k == 0 {
            self.predictions = learned;
            return;
        }
        let mut source: usize = 0;
        while source < n
            invariant
                0 < n,
                0 < k,
                k == evaluated_lags(series_len as nat, max_lag as nat),
                covers(scores@, n as int, k as int),
                source <= n,
                learned@.len() == source * n,
                predictions_well_formed(n, learned@),
                forall|i: int|
                    #![trigger learned@[i]]
                    0 <= i < learned@.len() ==> is_best_prediction(
                        learned@[i],
                        i / n as int,
                        i % n as int,
                        scores@[i / n as int]@[i % n as int]@,
                        k as int,
                    ),
            decreases n - source,
        {
            let mut target: usize = 0;
            while target < n
                invariant
                    0 < n,
                    0 < k,
                    source < n,
                    covers(scores@, n as int, k as int),
                    target <= n,
                    learned@.len() == source * n + target,
                    predictions_well_formed(n, learned@),
                    forall|i: int|
                        #![trigger learned@[i]]
                        0 <= i < learned@.len() ==> is_best_prediction(
                            learned@[i],
                            i / n as int,
                            i % n as int,
                            scores@[i / n as int]@[i % n as int]@,
                            k as int,
                        ),
                decreases n - target,
            {
                let row: &Vec<u64> = &scores[source][target];
                assert(row@.len() >= k) by {
                    assert(scores@[source as int]@.len() >= n);
                }
                let mut best: usize = 0;
                let mut best_accuracy = clip_accuracy(row[0]);
                let mut lag_index: usize = 1;
                while lag_index < k
                    invariant
                        0 < k <= row@.len(),
                        best < lag_index <= k,
                        best_accuracy == clipped_accuracy(row@[best as int]),
                        is_first_best(row@, lag_index as int, best as int),
                    decreases k - lag_index,
                {
                    let accuracy = clip_accuracy(row[lag_index]);
                    if accuracy > best_accuracy {
                        best = lag_index;
                        best_accuracy = accuracy;
                    }
                    lag_index += 1;
                }
                let p = Prediction {
                    source,
                    target,
                    lag: best + 1,
                    correlation: row[best],
                    accuracy: best_accuracy,
                };
                proof {
                    let idx = source * n + target;
                    assert(idx == learned@.len());
                    lemma_fundamental_div_mod_converse(idx as int, n as int, source as int, target as int);
                }
                learned.push(p);
                target += 1;
            }
            assert(learned@.len() == (source + 1) * n) by (nonlinear_arith)
                requires
                    learned@.len() == source * n + n,
            ;
            source += 1;
        }
        proof {
            assert(learned_from(learned@, n as int, scores@, evaluated_lags(series_len as nat, max_lag as nat)));
            lemma_learned_lags_in_range(learned@, n as int, scores@, series_len as nat, max_lag as nat);
        }
        self.predictions = learned;
    }
}

/// Insert `lag` into the strictly increasing `lags` unless it is already there.
#[verifier::rlimit(40)]
fn insert_sorted(lags: &mut Vec<usize>, lag: usize)
    requires
        forall|a: int, b: int|
            0 <= a < b < old(lags)@.len() ==> #[trigger] old(lags)@[a] < #[trigger] old(lags)@[b],
    ensures
        forall|a: int, b: int|
            0 <= a < b < final(lags)@.len() ==> #[trigger] final(lags)@[a] < #[trigger] final(lags)@[b],
        forall|x: usize| #[trigger] final(lags)@.contains(x) <==> old(lags)@.contains(x) || x == lag,
{
    let mut pos: usize = 0;
    while pos < lags.len() && lags[pos] < lag
        invariant
            pos <= lags@.len(),
            forall|q: int| 0 <= q < pos ==> #[trigger] lags@[q] < lag,
        decreases lags@.len() - pos,
    {
        pos += 1;
    }
    if pos < lags.len() && lags[pos] == lag {
        return;
    }
    let ghost old_lags = lags@;
    proof {
        old_lags.insert_ensures(pos as int, lag);
    }
    lags.insert(pos, lag);
    assert forall|a: int, b: int|
        0 <= a < b < lags@.len() implies #[trigger] lags@[a] < #[trigger] lags@[b] by {
        if b > pos {
            assert(old_lags[b - 1] == lags@[b]);
            if a < pos {
                assert(old_lags[a] < lag);
                assert(old_lags[pos as int] >= lag);
                if b - 1 > pos {
                    assert(old_lags[pos as int] < old_lags[b - 1]);
                }
            } else if a == pos {
                assert(old_lags[pos as int] >= lag);
                if b - 1 > pos {
                    assert(old_lags[pos as int] < old_lags[b - 1]);
                }
            } else {
                assert(old_lags[a - 1] == lags@[a]);
            }
        }
    }
    assert forall|x: usize| #[trigger] lags@.contains(x) <==> old_lags.contains(x) || x == lag by {
        if old_lags.contains(x) {
            let q = choose|q: int| 0 <= q < old_lags.len() && old_lags[q] == x;
            if q < pos {
                assert(lags@[q] == x);
            } else {
                assert(lags@[q + 1] == x);
            }
        }
        if x == lag {
            assert(lags@[pos as int] == x);
        }
        if lags@.contains(x) {
            let q = choose|q: int| 0 <= q < lags@.len() && lags@[q] == x;
            if q < pos {
                assert(old_lags[q] == x);
            } else if q > pos {
                assert(old_lags[q - 1] == x);
            }
        }
    }
}

impl Clone for FleetPredictor {
    /// A predictor with the same fleet size and the same predictions.
    fn clone(&self) -> (c: Self)
        ensures
            c.agents() == self.agents(),
            c.learned() == self.learned(),
    {
        proof {
            use_type_invariant(self);
        }
        let mut predictions: Vec<Prediction> = Vec::new();
        let mut i: usize = 0;
        while i < self.predictions.len()
            invariant
                i <= self.predictions@.len(),
                predictions@ == self.predictions@.take(i as int),
            decreases self.predictions@.len() - i,
        {
            predictions.push(self.predictions[i]);
            i += 1;
            assert(predictions@ =~= self.predictions@.take(i as int));
        }
        assert(predictions@ =~= self.predictions@);
        FleetPredictor { n_agents: self.n_agents, predictions }
    }
}

} // verus!
