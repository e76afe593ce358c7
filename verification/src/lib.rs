//! The keep-or-revert research loop.
//!
//! One editable artifact, one frozen evaluator, one scalar metric: propose a variation, score
//! it, keep it when the metric strictly improved and revert it otherwise, log the attempt,
//! repeat.
//!
//! * [`scalar`], [`arithmetic`]: binary64 numbers, compared exactly and computed with by
//!   whatever arithmetic is supplied.
//! * [`metric`]: the direction of a metric and the rule of strict improvement.
//! * [`evaluator`], [`strategy`]: frozen scorers, and the metrics of a backtest.
//! * [`scenario`]: ensembles of price paths.
//! * [`proposer`]: the mutation operator.
//! * [`git`], [`attempt_log`]: git commands, the log of every attempt, and the ratchet of the kept
//!   ones.
//! * [`engine`]: the loop, and the sweep over many candidates at once.
//! * [`timesfm_walkforward`]: forecasters, and scoring strictly out of sample.
//! * [`reproducibility`]: that scores are reproducible where the arithmetic is.
//! * [`cli`], [`facade`]: what a command line asks for, and whole runs in one call.
//! * [`exact`]: numbers as reals, and an arithmetic that rounds nothing. The modules whose names
//!   end in `_laws` say, of such an arithmetic where numbers are computed, what each operation is
//!   for: [`scalar_laws`], [`text_laws`], [`naming_laws`] and [`making_laws`] of the single parts,
//!   [`metric_laws`], [`backtest_laws`], [`forecast_laws`], [`walk_laws`] and [`scenario_laws`] of
//!   the scores, [`loop_laws`], [`record_laws`], [`facade_laws`] and [`cli_laws`] of whole runs.
#![allow(unused_imports)]

pub mod scalar;
pub mod arithmetic;
pub mod text;
pub mod metric;
pub mod git;
pub mod attempt_log;
mod parallel;
pub mod rng;
pub mod ranking;
pub mod strategy;
pub mod evaluator;
pub mod proposer;
pub mod scenario;
pub mod engine;
pub mod timesfm_walkforward;
pub mod cli;
pub mod facade;
pub mod reproducibility;
pub mod exact;
pub mod metric_laws;
pub mod backtest_laws;
pub mod forecast_laws;
pub mod walk_laws;
pub mod scenario_laws;
pub mod loop_laws;
pub mod record_laws;
pub mod facade_laws;
pub mod scalar_laws;
pub mod naming_laws;
pub mod making_laws;
pub mod text_laws;
pub mod cli_laws;

pub use crate::attempt_log::{AttemptLog, AttemptRow, GitRatchet, NoopRatchet, Ratchet};
pub use crate::engine::{
    scenario_sweep, spawn_swarm, sweep, vectorbt_evaluator_from_source, IterationResult, Run,
    StopCondition, SwarmMode, SwarmResult, SweepResult,
};
pub use crate::evaluator::{
    bt_metric_of_path, Artifact, BtMetric, Evaluator, ScalarEvaluator, SseEvaluator,
    VectorBtEvaluator,
};
pub use crate::metric::{Direction, KeepOrRevert, Metric};
pub use crate::proposer::{Candidate, LocalProposer, Proposer, VariationProposer};
pub use crate::scenario::{MirofishScenarioSource, ScenarioSource};
