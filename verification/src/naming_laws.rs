//! Which names mean what.
use vstd::prelude::*;

use crate::arithmetic::Arithmetic;
use crate::evaluator::{BtMetric, Evaluator, SseEvaluator, VectorBtEvaluator};
use crate::metric::{Direction, KeepOrRevert, Metric};
use crate::proposer::{LocalProposer, Proposer, VariationProposer};
use crate::scenario::{MirofishScenarioSource, ScenarioSource};
use crate::timesfm_walkforward::{ForecasterKind, Model, WalkForward};

verus! {

/// The metrics and the names that they go by; every other name means the Sharpe ratio.
pub proof fn law_metric_names(word: &str, m: BtMetric)
    requires
        call_ensures(BtMetric::from_keyword, (word,), m),
    ensures
        m is Sortino <==> word@ == "sortino"@,
        m is TotalReturn <==> word@ == "total_return"@ || word@ == "totalreturn"@ || word@
            == "return"@,
        m is MaxDrawdown <==> word@ == "max_drawdown"@ || word@ == "maxdrawdown"@ || word@
            == "drawdown"@ || word@ == "mdd"@,
        m is Calmar <==> word@ == "calmar"@,
        m is WinRate <==> word@ == "win_rate"@ || word@ == "winrate"@,
        m is Cvar <==> word@ == "cvar"@ || word@ == "es"@,
{
    reveal_strlit("sortino");
    reveal_strlit("total_return");
    reveal_strlit("totalreturn");
    reveal_strlit("return");
    reveal_strlit("max_drawdown");
    reveal_strlit("maxdrawdown");
    reveal_strlit("drawdown");
    reveal_strlit("mdd");
    reveal_strlit("calmar");
    reveal_strlit("win_rate");
    reveal_strlit("winrate");
    reveal_strlit("cvar");
    reveal_strlit("es");
    assert("sortino"@[0] == 's');
    assert("total_return"@[0] == 't' && "totalreturn"@[0] == 't' && "return"@[0] == 'r');
    assert("max_drawdown"@[0] == 'm' && "maxdrawdown"@[0] == 'm' && "drawdown"@[0] == 'd'
        && "mdd"@[0] == 'm');
    assert("calmar"@[0] == 'c' && "cvar"@[0] == 'c' && "es"@[0] == 'e');
    assert("calmar"@[1] == 'a' && "cvar"@[1] == 'v');
    assert("win_rate"@[0] == 'w' && "winrate"@[0] == 'w');
}

/// The name of a metric means the metric.
pub proof fn law_metric_is_found_by_its_name(m: BtMetric, name: &str, r: BtMetric)
    requires
        call_ensures(BtMetric::name, (&m,), name),
        call_ensures(BtMetric::from_keyword, (name,), r),
    ensures
        r == m,
{
    law_metric_names(name, r);
    reveal_strlit("sharpe");
    reveal_strlit("sortino");
    reveal_strlit("total_return");
    reveal_strlit("totalreturn");
    reveal_strlit("return");
    reveal_strlit("max_drawdown");
    reveal_strlit("maxdrawdown");
    reveal_strlit("drawdown");
    reveal_strlit("mdd");
    reveal_strlit("calmar");
    reveal_strlit("win_rate");
    reveal_strlit("winrate");
    reveal_strlit("cvar");
    reveal_strlit("es");
    assert("sharpe"@[1] == 'h' && "sortino"@[1] == 'o');
    assert("sharpe"@[0] == 's' && "total_return"@[0] == 't' && "totalreturn"@[0] == 't'
        && "return"@[0] == 'r');
    assert("max_drawdown"@[0] == 'm' && "maxdrawdown"@[0] == 'm' && "drawdown"@[0] == 'd'
        && "mdd"@[0] == 'm' && "calmar"@[0] == 'c' && "cvar"@[0] == 'c' && "es"@[0] == 'e');
    assert("win_rate"@[0] == 'w' && "winrate"@[0] == 'w');
}

/// A metric by its name in any case and with white space around it is the one that its trimmed
/// lower-case form means.
pub proof fn law_metric_by_any_form(s: &str, m: BtMetric, folded: String, word: &str, r: BtMetric)
    requires
        call_ensures(BtMetric::from_str, (s,), m),
        call_ensures(crate::text::fold, (s,), folded),
        word@ == folded@,
        call_ensures(BtMetric::from_keyword, (word,), r),
    ensures
        m == r,
{
}

/// Drawdown and shortfall are optimized down and all other metrics up, under the metric's name.
pub proof fn law_metric_directions(m: BtMetric, d: Direction, scalar: Metric, name: &str)
    requires
        call_ensures(BtMetric::direction, (&m,), d),
        call_ensures(BtMetric::metric, (&m,), scalar),
        call_ensures(BtMetric::name, (&m,), name),
    ensures
        d is Minimize <==> m is MaxDrawdown || m is Cvar,
        scalar.direction == d,
        scalar.name@ == name@,
{
}

/// The name of a metric's direction is that of the direction of the metric that the name means.
pub proof fn law_direction_of_a_named_metric(
    s: &str,
    r: String,
    m: BtMetric,
    d: Direction,
    name: &'static str,
)
    requires
        call_ensures(crate::evaluator::metric_direction, (s,), r),
        call_ensures(BtMetric::from_str, (s,), m),
        call_ensures(BtMetric::direction, (&m,), d),
        call_ensures(Direction::as_str, (&d,), name),
    ensures
        r@ == name@,
{
}

/// The words that mean up; every other means down. The names of the two directions.
pub proof fn law_direction_names(word: &str, d: Direction, name: &'static str)
    requires
        call_ensures(Direction::from_keyword, (word,), d),
        call_ensures(Direction::as_str, (&d,), name),
    ensures
        d is Maximize <==> word@ == "maximize"@ || word@ == "max"@ || word@ == "higher"@ || word@
            == "up"@,
        d is Maximize ==> name@ == "maximize"@,
        d is Minimize ==> name@ == "minimize"@,
{
}

/// A direction in any case and with white space around it is the one that its trimmed lower-case
/// form means.
pub proof fn law_direction_by_any_form(
    s: &str,
    d: Direction,
    folded: String,
    word: &str,
    r: Direction,
)
    requires
        call_ensures(Direction::from_str, (s,), d),
        call_ensures(crate::text::fold, (s,), folded),
        word@ == folded@,
        call_ensures(Direction::from_keyword, (word,), r),
    ensures
        d == r,
{
}

/// The names of the two verdicts.
pub proof fn law_verdict_names(v: KeepOrRevert, name: &'static str)
    requires
        call_ensures(KeepOrRevert::as_str, (&v,), name),
    ensures
        v is Keep ==> name@ == "keep"@,
        v is Revert ==> name@ == "revert"@,
{
}

/// The canonical metric is the validation bits per byte, and lower is better.
pub proof fn law_canonical_metric(m: Metric)
    requires
        call_ensures(Metric::val_bpb, (), m),
    ensures
        m.name@ == "val_bpb"@,
        m.direction is Minimize,
{
}

/// The forecasters and the names that they go by; every other name means double smoothing.
pub proof fn law_forecaster_names(word: &str, k: ForecasterKind)
    requires
        call_ensures(ForecasterKind::from_keyword, (word,), k),
    ensures
        k is Naive <==> word@ == "naive"@ || word@ == "rw"@ || word@ == "random_walk"@,
        k is Ewma <==> word@ == "ewma"@ || word@ == "ewm"@ || word@ == "ema"@,
        k is TimesFmOnnx <==> word@ == "timesfm"@ || word@ == "timesfm-onnx"@ || word@ == "onnx"@,
{
    reveal_strlit("naive");
    reveal_strlit("rw");
    reveal_strlit("random_walk");
    reveal_strlit("ewma");
    reveal_strlit("ewm");
    reveal_strlit("ema");
    reveal_strlit("timesfm");
    reveal_strlit("timesfm-onnx");
    reveal_strlit("onnx");
    assert("naive"@[0] == 'n' && "rw"@[0] == 'r' && "random_walk"@[0] == 'r' && "ewma"@[0] == 'e'
        && "ewm"@[0] == 'e' && "ema"@[0] == 'e' && "timesfm"@[0] == 't' && "timesfm-onnx"@[0] == 't'
        && "onnx"@[0] == 'o');
}

/// The name of a forecaster means the forecaster.
pub proof fn law_forecaster_is_found_by_its_name(
    k: ForecasterKind,
    name: &'static str,
    r: ForecasterKind,
)
    requires
        call_ensures(ForecasterKind::name, (&k,), name),
        call_ensures(ForecasterKind::from_keyword, (name,), r),
    ensures
        r == k,
{
    law_forecaster_names(name, r);
    reveal_strlit("naive");
    reveal_strlit("rw");
    reveal_strlit("random_walk");
    reveal_strlit("ewma");
    reveal_strlit("ewm");
    reveal_strlit("ema");
    reveal_strlit("timesfm");
    reveal_strlit("timesfm-onnx");
    reveal_strlit("onnx");
    reveal_strlit("holt");
    assert("holt"@[0] == 'h' && "naive"@[0] == 'n' && "rw"@[0] == 'r' && "random_walk"@[0] == 'r'
        && "ewma"@[0] == 'e' && "ewm"@[0] == 'e' && "ema"@[0] == 'e' && "timesfm"@[0] == 't'
        && "timesfm-onnx"@[0] == 't' && "onnx"@[0] == 'o');
}

/// A forecaster by its name in any case and with white space around it is the one that its
/// trimmed lower-case form means.
pub proof fn law_forecaster_by_any_form(
    s: &str,
    k: ForecasterKind,
    folded: String,
    word: &str,
    r: ForecasterKind,
)
    requires
        call_ensures(ForecasterKind::from_str, (s,), k),
        call_ensures(crate::text::fold, (s,), folded),
        word@ == folded@,
        call_ensures(ForecasterKind::from_keyword, (word,), r),
    ensures
        k == r,
{
}

/// The labels of the evaluators: those over a market are called like their metric.
pub proof fn law_evaluator_labels<A: Arithmetic, M: Model>(
    sse: SseEvaluator<A>,
    sse_name: &str,
    backtest: VectorBtEvaluator<A>,
    backtest_name: &str,
    walk: WalkForward<A, M>,
    walk_name: &str,
    metric_name: &'static str,
    other_name: &'static str,
)
    requires
        call_ensures(SseEvaluator::<A>::name, (&sse,), sse_name),
        call_ensures(VectorBtEvaluator::<A>::name, (&backtest,), backtest_name),
        call_ensures(WalkForward::<A, M>::name, (&walk,), walk_name),
        call_ensures(BtMetric::name, (&backtest.kernel(),), metric_name),
        call_ensures(BtMetric::name, (&walk.kernel(),), other_name),
    ensures
        sse_name@ == "sse_to_target"@,
        backtest_name@ == metric_name@,
        walk_name@ == other_name@,
{
}

/// The labels of the proposers and of the source of scenarios.
pub proof fn law_search_labels<A: Arithmetic>(
    local: LocalProposer<A>,
    local_name: &str,
    listed: VariationProposer,
    listed_name: &str,
    source: MirofishScenarioSource<A>,
    source_name: &str,
    are_prices: bool,
)
    requires
        call_ensures(LocalProposer::<A>::name, (&local,), local_name),
        call_ensures(VariationProposer::name, (&listed,), listed_name),
        call_ensures(MirofishScenarioSource::<A>::name, (&source,), source_name),
        call_ensures(MirofishScenarioSource::<A>::paths_are_prices, (&source,), are_prices),
    ensures
        local_name@ == "local_proposer"@,
        listed_name@ == "variation_proposer"@,
        source_name@ == "mirofish_rollout"@,
        are_prices,
{
}

} // verus!
