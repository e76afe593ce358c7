//! What the command line does: which command a word starts, what a flag holds, and what each
//! command takes from its flags.
use vstd::prelude::*;

use crate::cli::{NumberReader, Refusal, RunPlan, Subcommand, WalkForwardPlan, Windows};
use crate::evaluator::BtMetric;
use crate::facade::Market;
use crate::scalar::Scalar;
use crate::timesfm_walkforward::ForecasterKind;

verus! {

/// Each command starts by its name or by its short name, and by no other word.
pub proof fn law_commands(word: &str, r: Subcommand)
    requires
        call_ensures(Subcommand::from_str, (word,), r),
    ensures
        r is Run <==> word@ == "run"@,
        r is WalkForward <==> word@ == "walkforward"@ || word@ == "wf"@,
        r is Example <==> word@ == "example"@ || word@ == "demo"@,
        r is Help <==> word@ == "-h"@ || word@ == "--help"@ || word@ == "help"@,
{
    reveal_strlit("run");
    reveal_strlit("walkforward");
    reveal_strlit("wf");
    reveal_strlit("example");
    reveal_strlit("demo");
    reveal_strlit("-h");
    reveal_strlit("--help");
    reveal_strlit("help");
    assert("run"@[0] == 'r' && "walkforward"@[0] == 'w' && "wf"@[0] == 'w' && "example"@[0] == 'e'
        && "demo"@[0] == 'd' && "-h"@[0] == '-' && "--help"@[0] == '-' && "help"@[0] == 'h');
}

/// The first argument is the program's, the second chooses the command, and the others are the
/// command's own.
pub proof fn law_command_line(args: &[String], word: String, rest: &[String], i: int)
    requires
        call_ensures(crate::cli::command_word, (args,), word),
        call_ensures(crate::cli::command_args, (args,), rest),
    ensures
        args@.len() >= 2 ==> word@ == args@[1]@,
        args@.len() < 2 ==> word@ == "example"@ && rest@.len() == 0,
        args@.len() >= 2 ==> rest@.len() == args@.len() - 2,
        0 <= i < rest@.len() ==> rest@[i] == args@[i + 2],
{
}

/// Does an argument write the flag itself?
pub open spec fn bare(arg: Seq<char>, key: Seq<char>) -> bool {
    arg == key
}

/// Does an argument write the flag with this value behind an equals sign?
pub open spec fn paired(arg: Seq<char>, key: Seq<char>, value: Seq<char>) -> bool {
    arg == key + seq!['='] + value
}

/// Does an argument write the flag in neither way?
pub open spec fn unrelated(arg: Seq<char>, key: Seq<char>) -> bool {
    &&& !bare(arg, key)
    &&& forall|value: Seq<char>| !#[trigger] paired(arg, key, value)
}

proof fn lemma_after(arg: Seq<char>, key: Seq<char>, value: Seq<char>)
    ensures
        paired(arg, key, value) ==> crate::cli::after(arg, key + "="@) == Some(value) && !bare(
            arg,
            key,
        ),
        unrelated(arg, key) ==> crate::cli::after(arg, key + "="@) is None,
{
    reveal_strlit("=");
    let prefix = key + "="@;
    assert(prefix =~= key + seq!['=']);
    if paired(arg, key, value) {
        assert(arg.take(prefix.len() as int) =~= prefix);
        assert(arg.skip(prefix.len() as int) =~= value);
    }
    if crate::cli::after(arg, prefix) is Some {
        let found = arg.skip(prefix.len() as int);
        assert(arg =~= arg.take(prefix.len() as int) + found);
        assert(paired(arg, key, found));
    }
}

proof fn lemma_flag(args: Seq<Seq<char>>, key: Seq<char>, i: int)
    requires
        0 <= i <= args.len(),
        forall|j: int| 0 <= j < i ==> unrelated(#[trigger] args[j], key),
    ensures
        crate::cli::flag_value(args, key) == crate::cli::flag_value(args.skip(i), key),
    decreases i,
{
    if i == 0 {
        assert(args.skip(0) =~= args);
    } else {
        lemma_flag(args, key, i - 1);
        let rest = args.skip(i - 1);
        assert(rest[0] == args[i - 1]);
        assert(rest.drop_first() =~= args.skip(i));
        lemma_after(args[i - 1], key, Seq::empty());
    }
}

/// A flag holds what the first argument that writes it says: the argument behind it where it
/// stands alone, what comes behind the equals sign where it stands with its value, and nothing
/// where it is the last argument. Without such an argument it holds nothing.
pub proof fn law_flag(
    args: &[String],
    key: &str,
    r: Option<String>,
    i: int,
    value: Seq<char>,
)
    requires
        call_ensures(crate::cli::flag, (args, key), r),
        0 <= i <= args@.len(),
        forall|j: int| 0 <= j < i ==> unrelated((#[trigger] args@[j])@, key@),
    ensures
        i == args@.len() ==> r is None,
        i < args@.len() && paired(args@[i]@, key@, value) ==> r is Some && (r->0)@ == value,
        i < args@.len() - 1 && bare(args@[i]@, key@) ==> r is Some && (r->0)@ == args@[i + 1]@,
        i == args@.len() - 1 && bare(args@[i]@, key@) ==> r is None,
{
    let all = crate::text::texts(args@);
    assert forall|j: int| 0 <= j < i implies unrelated(#[trigger] all[j], key@) by {
        assert(all[j] == args@[j]@);
    }
    lemma_flag(all, key@, i);
    let rest = all.skip(i);
    if i < args@.len() {
        assert(rest[0] == args@[i]@);
        lemma_after(args@[i]@, key@, value);
        if i + 1 < args@.len() {
            assert(rest[1] == args@[i + 1]@);
        }
    }
}

/// A flag's size is the number that the flag holds, and the default where it holds none.
pub proof fn law_flag_usize(
    args: &[String],
    key: &str,
    default: usize,
    r: usize,
    held: Option<String>,
    text: &str,
    number: Option<usize>,
)
    requires
        call_ensures(crate::cli::flag_usize, (args, key, default), r),
        call_ensures(crate::cli::flag, (args, key), held),
        held is Some ==> text@ == (held->0)@,
        call_ensures(crate::text::parse_usize, (text,), number),
    ensures
        held is None ==> r == default,
        held is Some && number is None ==> r == default,
        held is Some && number is Some ==> r == number->0,
{
}

/// A flag's number is the number that the flag holds, and the default where it holds none.
pub proof fn law_flag_u64(
    args: &[String],
    key: &str,
    default: u64,
    r: u64,
    held: Option<String>,
    text: &str,
    number: Option<u64>,
)
    requires
        call_ensures(crate::cli::flag_u64, (args, key, default), r),
        call_ensures(crate::cli::flag, (args, key), held),
        held is Some ==> text@ == (held->0)@,
        call_ensures(crate::text::parse_u64, (text,), number),
    ensures
        held is None ==> r == default,
        held is Some && number is None ==> r == default,
        held is Some && number is Some ==> r == number->0,
{
}

/// A flag's text is the text that the flag holds, and the default where it holds none.
pub proof fn law_flag_str(
    args: &[String],
    key: &str,
    default: &str,
    r: String,
    held: Option<String>,
)
    requires
        call_ensures(crate::cli::flag_str, (args, key, default), r),
        call_ensures(crate::cli::flag, (args, key), held),
    ensures
        held is None ==> r@ == default@,
        held is Some ==> r@ == (held->0)@,
{
}

/// Does a reader read each text as one number, or each time as none?
pub open spec fn settled<R: NumberReader>(reader: &R) -> bool {
    forall|s: &str, t: &str, a: Option<Scalar>, b: Option<Scalar>|
        s@ == t@ && #[trigger] call_ensures(R::number, (reader, s), a) && #[trigger] call_ensures(
            R::number,
            (reader, t),
            b,
        ) ==> a == b
}

/// A flag's number with a fraction is what the reader reads from the text that the flag holds,
/// and the default where the flag holds none or the reader reads none.
pub proof fn law_flag_scalar<R: NumberReader>(
    reader: &R,
    args: &[String],
    key: &str,
    default: Scalar,
    r: Scalar,
    held: Option<String>,
    text: &str,
    number: Option<Scalar>,
)
    requires
        settled(reader),
        call_ensures(crate::cli::flag_scalar::<R>, (reader, args, key, default), r),
        call_ensures(crate::cli::flag, (args, key), held),
        held is Some ==> text@ == (held->0)@,
        call_ensures(R::number, (reader, text), number),
    ensures
        held is None ==> r == default,
        held is Some && number is None ==> r == default,
        held is Some && number is Some ==> r == number->0,
{
    if held is Some {
        let read = choose|read: Option<Scalar>| #[trigger]
            crate::cli::reads(reader, text@, read) && r == (match read {
                Some(v) => v,
                None => default,
            });
        assert(crate::cli::reads(reader, text@, read));
        let s = choose|s: &str| s@ == text@ && #[trigger] call_ensures(
            R::number,
            (reader, s),
            read,
        );
        assert(call_ensures(R::number, (reader, s), read));
    }
}

/// The windows are what their flags hold; without them the window is a quarter of the series and
/// eight at least, the horizon a twelfth of it and four at least, and the stride the horizon and
/// one at least.
pub proof fn law_windows(
    args: &[String],
    len: usize,
    r: Windows,
    train_key: &str,
    train_default: usize,
    train: usize,
    horizon_key: &str,
    horizon_default: usize,
    horizon: usize,
    step_key: &str,
    step_default: usize,
    step: usize,
)
    requires
        call_ensures(crate::cli::windows, (args, len), r),
        train_key@ == "--train-len"@,
        horizon_key@ == "--horizon"@,
        step_key@ == "--step"@,
        len < 32 ==> train_default == 8,
        len >= 32 ==> 4 * train_default <= len < 4 * train_default + 4,
        len < 48 ==> horizon_default == 4,
        len >= 48 ==> 12 * horizon_default <= len < 12 * horizon_default + 12,
        horizon == 0 ==> step_default == 1,
        horizon > 0 ==> step_default == horizon,
        call_ensures(crate::cli::flag_usize, (args, train_key, train_default), train),
        call_ensures(crate::cli::flag_usize, (args, horizon_key, horizon_default), horizon),
        call_ensures(crate::cli::flag_usize, (args, step_key, step_default), step),
    ensures
        r.train_len == train,
        r.horizon == horizon,
        r.step == step,
{
}

/// The metric and the forecaster are those that their flags name; without them the Sharpe ratio
/// and double smoothing.
pub proof fn law_choices(
    args: &[String],
    metric: BtMetric,
    kind: ForecasterKind,
    metric_key: &str,
    metric_default: &str,
    metric_name: String,
    kind_key: &str,
    kind_default: &str,
    kind_name: String,
    s: &str,
    m: BtMetric,
    t: &str,
    k: ForecasterKind,
)
    requires
        call_ensures(crate::cli::chosen_metric, (args,), metric),
        call_ensures(crate::cli::chosen_forecaster, (args,), kind),
        metric_key@ == "--metric"@,
        metric_default@ == "sharpe"@,
        kind_key@ == "--forecaster"@,
        kind_default@ == "holt"@,
        call_ensures(crate::cli::flag_str, (args, metric_key, metric_default), metric_name),
        call_ensures(crate::cli::flag_str, (args, kind_key, kind_default), kind_name),
        s@ == metric_name@,
        t@ == kind_name@,
        call_ensures(BtMetric::from_str, (s,), m),
        call_ensures(ForecasterKind::from_str, (t,), k),
    ensures
        metric == m,
        kind == k,
{
}

/// Can the number that a command takes from a flag come out as `r`: what the reader reads from
/// the text that the flag holds, and the default where there is none?
pub open spec fn taken<R: NumberReader>(
    reader: &R,
    args: &[String],
    key: Seq<char>,
    default: u64,
    r: Scalar,
) -> bool {
    forall|k: &str, d: Scalar, x: Scalar|
        k@ == key && d.bits == default && #[trigger] call_ensures(
            crate::cli::flag_scalar::<R>,
            (reader, args, k, d),
            x,
        ) ==> r == x
}

proof fn lemma_taken<R: NumberReader>(
    reader: &R,
    args: &[String],
    key: Seq<char>,
    default: Scalar,
    r: Scalar,
)
    requires
        settled(reader),
        crate::cli::is_flag_scalar(reader, crate::text::texts(args@), key, default, r),
    ensures
        taken(reader, args, key, default.bits, r),
{
    let texts = crate::text::texts(args@);
    assert forall|k: &str, d: Scalar, x: Scalar|
        k@ == key && d.bits == default.bits && #[trigger] call_ensures(
            crate::cli::flag_scalar::<R>,
            (reader, args, k, d),
            x,
        ) implies r == x by {
        assert(d == default);
        assert(crate::cli::is_flag_scalar(reader, texts, key, default, x));
        match crate::cli::flag_value(texts, key) {
            Some(text) => {
                let a = choose|a: Option<Scalar>| #[trigger]
                    crate::cli::reads(reader, text, a) && r == (match a {
                        Some(v) => v,
                        None => default,
                    });
                let b = choose|b: Option<Scalar>| #[trigger]
                    crate::cli::reads(reader, text, b) && x == (match b {
                        Some(v) => v,
                        None => default,
                    });
                let s = choose|s: &str| s@ == text && #[trigger] call_ensures(
                    R::number,
                    (reader, s),
                    a,
                );
                let t = choose|t: &str| t@ == text && #[trigger] call_ensures(
                    R::number,
                    (reader, t),
                    b,
                );
                assert(call_ensures(R::number, (reader, s), a));
                assert(call_ensures(R::number, (reader, t), b));
            },
            None => {},
        }
    }
}

/// What the walk takes from its flags: a penalty of a half, fully long, without momentum, with
/// factors of four tenths and a tenth where they say nothing else; the metric, the forecaster and
/// the windows as they are chosen.
pub proof fn law_walkforward_plan<R: NumberReader>(
    reader: &R,
    args: &[String],
    len: usize,
    r: WalkForwardPlan,
    metric: BtMetric,
    kind: ForecasterKind,
    windows: Windows,
)
    requires
        settled(reader),
        call_ensures(crate::cli::walkforward_plan::<R>, (reader, args, len), r),
        call_ensures(crate::cli::chosen_metric, (args,), metric),
        call_ensures(crate::cli::chosen_forecaster, (args,), kind),
        call_ensures(crate::cli::windows, (args, len), windows),
    ensures
        r.metric == metric,
        r.kind == kind,
        r.windows == windows,
        taken(reader, args, "--overfit-penalty"@, 0x3FE0_0000_0000_0000, r.overfit_penalty),
        taken(reader, args, "--tilt"@, 0x3FF0_0000_0000_0000, r.tilt),
        taken(reader, args, "--mom"@, 0, r.mom),
        taken(reader, args, "--alpha"@, 0x3FD9_9999_9999_999A, r.alpha),
        taken(reader, args, "--beta"@, 0x3FB9_9999_9999_999A, r.beta),
{
    lemma_taken(
        reader,
        args,
        "--overfit-penalty"@,
        Scalar { bits: 0x3FE0_0000_0000_0000 },
        r.overfit_penalty,
    );
    lemma_taken(reader, args, "--tilt"@, Scalar { bits: 0x3FF0_0000_0000_0000 }, r.tilt);
    lemma_taken(reader, args, "--mom"@, Scalar { bits: 0 }, r.mom);
    lemma_taken(reader, args, "--alpha"@, Scalar { bits: 0x3FD9_9999_9999_999A }, r.alpha);
    lemma_taken(reader, args, "--beta"@, Scalar { bits: 0x3FB9_9999_9999_999A }, r.beta);
}

/// What the loop takes from its flags: the market unless the mode is the walk, a hundred
/// iterations and never none, the seed forty-two and a step of a fifth where they say nothing
/// else.
pub proof fn law_run_plan<R: NumberReader>(
    reader: &R,
    args: &[String],
    r: RunPlan,
    metric: BtMetric,
    mode_key: &str,
    mode_default: &str,
    mode: String,
    iterations_key: &str,
    iterations: usize,
    seed_key: &str,
    seed: u64,
)
    requires
        settled(reader),
        call_ensures(crate::cli::run_plan::<R>, (reader, args), r),
        call_ensures(crate::cli::chosen_metric, (args,), metric),
        mode_key@ == "--mode"@,
        mode_default@ == "backtest"@,
        iterations_key@ == "--iterations"@,
        seed_key@ == "--seed"@,
        call_ensures(crate::cli::flag_str, (args, mode_key, mode_default), mode),
        call_ensures(crate::cli::flag_usize, (args, iterations_key, 100usize), iterations),
        call_ensures(crate::cli::flag_u64, (args, seed_key, 42u64), seed),
    ensures
        r.metric == metric,
        r.walkforward <==> mode@ == "walkforward"@ || mode@ == "wf"@,
        iterations > 0 ==> r.iterations == iterations,
        iterations == 0 ==> r.iterations == 1,
        r.seed == seed,
        taken(reader, args, "--step-size"@, 0x3FC9_9999_9999_999A, r.step_size),
{
    lemma_taken(
        reader,
        args,
        "--step-size"@,
        Scalar { bits: 0x3FC9_9999_9999_999A },
        r.step_size,
    );
}

/// What the market takes from its flags: two hundred scenarios of twelve steps from a hundred,
/// with a drift of a thousandth and a volatility of a fiftieth where they say nothing else.
pub proof fn law_scenario_plan<R: NumberReader>(
    reader: &R,
    args: &[String],
    r: Market,
    scenarios_key: &str,
    scenarios: usize,
    horizon_key: &str,
    horizon: usize,
)
    requires
        settled(reader),
        call_ensures(crate::cli::scenario_plan::<R>, (reader, args), r),
        scenarios_key@ == "--n-scenarios"@,
        horizon_key@ == "--horizon"@,
        call_ensures(crate::cli::flag_usize, (args, scenarios_key, 200usize), scenarios),
        call_ensures(crate::cli::flag_usize, (args, horizon_key, 12usize), horizon),
    ensures
        r.n_scenarios == scenarios,
        r.horizon == horizon,
        taken(reader, args, "--start"@, 0x4059_0000_0000_0000, r.start),
        taken(reader, args, "--drift"@, 0x3F50_624D_D2F1_A9FC, r.drift),
        taken(reader, args, "--vol"@, 0x3F94_7AE1_47AE_147B, r.vol),
{
    lemma_taken(reader, args, "--start"@, Scalar { bits: 0x4059_0000_0000_0000 }, r.start);
    lemma_taken(reader, args, "--drift"@, Scalar { bits: 0x3F50_624D_D2F1_A9FC }, r.drift);
    lemma_taken(reader, args, "--vol"@, Scalar { bits: 0x3F94_7AE1_47AE_147B }, r.vol);
}

/// The numbers among what was read, in order.
pub open spec fn found(reads: Seq<Option<Scalar>>) -> Seq<Scalar> {
    reads.filter(|read: Option<Scalar>| read is Some).map_values(|read: Option<Scalar>| read->0)
}

proof fn lemma_found<R: NumberReader>(
    reader: &R,
    words: Seq<Seq<char>>,
    reads: Seq<Option<Scalar>>,
    numbers: Seq<Scalar>,
)
    requires
        settled(reader),
        reads.len() == words.len(),
        forall|i: int|
            0 <= i < words.len() ==> crate::cli::reads(reader, words[i], #[trigger] reads[i]),
        crate::cli::are_numbers(reader, words, numbers),
    ensures
        numbers == found(reads),
    decreases words.len(),
{
    reveal(Seq::filter);
    if words.len() == 0 {
        assert(numbers =~= found(reads));
    } else {
        let read = choose|read: Option<Scalar>| #[trigger]
            crate::cli::reads(reader, words.last(), read) && match read {
                Some(v) => {
                    &&& numbers.len() > 0
                    &&& numbers.last() == v
                    &&& crate::cli::are_numbers(reader, words.drop_last(), numbers.drop_last())
                },
                None => crate::cli::are_numbers(reader, words.drop_last(), numbers),
            };
        let same = reads.last();
        assert(crate::cli::reads(reader, words.last(), reads[words.len() - 1]));
        let s = choose|s: &str| s@ == words.last() && #[trigger] call_ensures(
            R::number,
            (reader, s),
            read,
        );
        let t = choose|t: &str| t@ == words.last() && #[trigger] call_ensures(
            R::number,
            (reader, t),
            same,
        );
        assert(call_ensures(R::number, (reader, s), read));
        assert(call_ensures(R::number, (reader, t), same));
        assert(read == same);
        let rest = reads.drop_last();
        match read {
            Some(v) => {
                lemma_found(reader, words.drop_last(), rest, numbers.drop_last());
                assert(found(reads) =~= found(rest).push(v));
                assert(numbers =~= numbers.drop_last().push(v));
            },
            None => {
                lemma_found(reader, words.drop_last(), rest, numbers);
                assert(found(reads) =~= found(rest));
            },
        }
    }
}

/// The series of a text that does not begin with a bracket holds the numbers among its pieces, in
/// order; without any, the message names the file.
pub proof fn law_series_of_a_list<R: NumberReader>(
    reader: &R,
    path: &str,
    raw: &str,
    r: Result<Vec<Scalar>, String>,
    begun: String,
    words: Vec<String>,
    reads: Seq<Option<Scalar>>,
)
    requires
        settled(reader),
        call_ensures(crate::cli::parse_series::<R>, (reader, path, raw), r),
        call_ensures(crate::text::trim_start, (raw,), begun),
        begun@.len() == 0 || begun@[0] != '[',
        call_ensures(crate::text::split_pieces, (raw,), words),
        reads.len() == words@.len(),
        forall|i: int|
            0 <= i < reads.len() ==> exists|s: &str|
                s@ == words@[i]@ && #[trigger] call_ensures(
                    R::number,
                    (reader, s),
                    #[trigger] reads[i],
                ),
    ensures
        found(reads).len() > 0 ==> r is Ok && (r->Ok_0)@ == found(reads),
        found(reads).len() == 0 ==> r is Err && (r->Err_0)@ == "`"@ + path@ + "`"@
            + " contained no parseable numbers"@,
{
    let all = crate::text::texts(words@);
    let numbers = choose|numbers: Seq<Scalar>|
        #![trigger crate::cli::are_numbers(
            reader,
            crate::text::pieces(Seq::empty(), raw@),
            numbers,
        )]
        crate::cli::are_numbers(reader, crate::text::pieces(Seq::empty(), raw@), numbers)
            && crate::cli::series_or(
            numbers,
            crate::cli::file_message(path@, " contained no parseable numbers"@),
            r,
        );
    assert forall|i: int| 0 <= i < all.len() implies crate::cli::reads(
        reader,
        all[i],
        #[trigger] reads[i],
    ) by {
        assert(all[i] == words@[i]@);
    }
    lemma_found(reader, all, reads, numbers);
}

/// The series of a text that begins with a bracket holds what the reader reads from the whole text
/// behind its leading white space; where it reads an empty series or none, the message names the
/// file and tells which.
pub proof fn law_series_of_an_array<R: NumberReader>(
    reader: &R,
    path: &str,
    raw: &str,
    r: Result<Vec<Scalar>, String>,
    begun: String,
    text: &str,
    read: Result<Vec<Scalar>, String>,
)
    requires
        forall|s: &str, t: &str, a: Result<Vec<Scalar>, String>, b: Result<Vec<Scalar>, String>|
            s@ == t@ && #[trigger] call_ensures(R::array, (reader, s), a)
                && #[trigger] call_ensures(R::array, (reader, t), b) ==> a == b,
        call_ensures(crate::cli::parse_series::<R>, (reader, path, raw), r),
        call_ensures(crate::text::trim_start, (raw,), begun),
        begun@.len() > 0,
        begun@[0] == '[',
        text@ == begun@,
        call_ensures(R::array, (reader, text), read),
    ensures
        read is Ok && (read->Ok_0)@.len() > 0 ==> r is Ok && (r->Ok_0)@ == (read->Ok_0)@,
        read is Ok && (read->Ok_0)@.len() == 0 ==> r is Err && (r->Err_0)@ == "`"@ + path@ + "`"@
            + " parsed to an empty series"@,
        read is Err ==> r is Err && (r->Err_0)@ == "`"@ + path@ + "`"@ + (
        " looks like JSON but failed to parse as a number array: "@ + (read->Err_0)@),
{
}

/// A file that cannot be read is named with the reason.
pub proof fn law_unreadable_files_are_named(path: &str, reason: &str, r: String)
    requires
        call_ensures(crate::cli::unreadable, (path, reason), r),
    ensures
        r@ == "cannot read `"@ + path@ + "`: "@ + reason@,
{
    reveal_strlit("cannot read `");
    reveal_strlit("cannot read ");
    reveal_strlit("`");
    reveal_strlit("`: ");
    reveal_strlit(": ");
    assert("cannot read `"@ =~= "cannot read "@ + "`"@);
    assert("`: "@ =~= "`"@ + ": "@);
    assert(r@ =~= "cannot read `"@ + path@ + "`: "@ + reason@);
}

/// A command that needs a series takes its path from the flag, and without one it is refused with
/// code two.
pub proof fn law_required_series(
    command: &str,
    args: &[String],
    r: Result<String, Refusal>,
    key: &str,
    held: Option<String>,
)
    requires
        call_ensures(crate::cli::required_series, (command, args), r),
        key@ == "--series"@,
        call_ensures(crate::cli::flag, (args, key), held),
    ensures
        held is Some ==> r is Ok && (r->Ok_0)@ == (held->0)@,
        held is None ==> r is Err && (r->Err_0).code == 2 && (r->Err_0).message@ == command@
            + ": --series <file> is required"@,
{
}

/// A series that was read is taken as it is, and a command without one is refused with code one
/// and the message behind its name.
pub proof fn law_refused_series(
    command: &str,
    read: Result<Vec<Scalar>, String>,
    r: Result<Vec<Scalar>, Refusal>,
)
    requires
        call_ensures(crate::cli::series_or_refusal, (command, read), r),
    ensures
        read is Ok ==> r is Ok && r->Ok_0 == read->Ok_0,
        read is Err ==> r is Err && (r->Err_0).code == 1 && (r->Err_0).message@ == command@ + ": "@
            + (read->Err_0)@,
{
}

/// A scoring ends with code one where the score is infinite or no number, and else with zero.
pub proof fn law_score_code(score: Scalar, r: i32)
    requires
        call_ensures(crate::cli::score_code, (score,), r),
    ensures
        r == 1 <==> score@ is Nan || score@ is PosInf || score@ is NegInf,
        r == 0 || r == 1,
{
}

} // verus!
