# fleet_predict

Correlation-based predictive coding for multi-agent fleets, as a Verus library.

For every ordered pair of agents a `FleetPredictor` keeps the lag at which the
first agent's past best predicts the second one's future, and answers queries
over what it has learned: the best predictor of an agent, its predicted states,
and the accuracy profile over lags.

Correlations and accuracies are held as the bit patterns of their `f64` values.
The library derives each accuracy from its correlation, so accuracies are never
negative nor NaN, and their bit patterns order exactly as the values do: every
selection is made, and verified, on integers.

- `src/prediction.rs`: `Prediction`, and `clip_accuracy`, the accuracy of a
  correlation (`|correlation|` clipped to `[0, 1]`) computed on its bit pattern.
- `src/model.rs`: spec functions for what is learned and picked, and the laws
  proved of them.
- `src/predictor.rs`: `FleetPredictor` (`analyze`, `best_predictor_for`,
  `predict`, `predictions_for`, `lag_groups`).
- `src/horizon.rs`: `PredictiveHorizon` and the usefulness threshold.
- `app/`: the `f64` front end: Pearson correlations, averages, the lag-1
  autocorrelation and the matrix helpers, which are floating-point arithmetic.
