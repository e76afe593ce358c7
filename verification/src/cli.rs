//! The command line: which command, with which flags, on which series.
use vstd::prelude::*;

use crate::evaluator::BtMetric;
use crate::facade::Market;
use crate::scalar::{Scalar, HALF, ONE};
use crate::text::{
    chars_of, join, parse_u64, parse_usize, same_text, split_pieces, text_of, trim_start,
};
use crate::timesfm_walkforward::{ForecasterKind, DEFAULT_ALPHA, DEFAULT_BETA};

verus! {

/// The subcommands.
#[derive(Debug)]
pub enum Subcommand {
    /// The keep-or-revert loop.
    Run,
    /// The walk-forward score of a series.
    WalkForward,
    /// The demonstration.
    Example,
    Help,
    /// Anything else.
    Unknown,
}

impl Subcommand {
    /// The subcommand that a word names.
    pub open spec fn named(word: Seq<char>) -> Subcommand {
        if word == "run"@ {
            Subcommand::Run
        } else if word == "walkforward"@ || word == "wf"@ {
            Subcommand::WalkForward
        } else if word == "example"@ || word == "demo"@ {
            Subcommand::Example
        } else if word == "-h"@ || word == "--help"@ || word == "help"@ {
            Subcommand::Help
        } else {
            Subcommand::Unknown
        }
    }

    pub fn from_str(word: &str) -> (r: Subcommand)
        ensures
            r == Subcommand::named(word@),
    {
        if same_text(word, "run") {
            Subcommand::Run
        } else if same_text(word, "walkforward") || same_text(word, "wf") {
            Subcommand::WalkForward
        } else if same_text(word, "example") || same_text(word, "demo") {
            Subcommand::Example
        } else if same_text(word, "-h") || same_text(word, "--help") || same_text(word, "help") {
            Subcommand::Help
        } else {
            Subcommand::Unknown
        }
    }
}

/// The word that chooses the subcommand: the first after the program's name, `example` where
/// there is none.
pub fn command_word(args: &[String]) -> (r: String)
    ensures
        r@ == (if args@.len() > 1 {
            args@[1]@
        } else {
            "example"@
        }),
{
    if args.len() > 1 {
        args[1].clone()
    } else {
        "example".to_owned()
    }
}

/// The arguments of the subcommand: those after its name.
pub fn command_args(args: &[String]) -> (r: &[String])
    ensures
        r@ == (if args@.len() > 2 {
            args@.skip(2)
        } else {
            Seq::<String>::empty()
        }),
{
    let n: usize = args.len();
    let start: usize = if n < 2 {
        n
    } else {
        2
    };
    let r = vstd::slice::slice_subrange(args, start, n);
    assert(r@ == (if args@.len() > 2 {
        args@.skip(2)
    } else {
        Seq::<String>::empty()
    }));
    r
}

/// What follows `prefix` in a text that begins with it.
pub open spec fn after(s: Seq<char>, prefix: Seq<char>) -> Option<Seq<char>> {
    if prefix.len() <= s.len() && s.take(prefix.len() as int) == prefix {
        Some(s.skip(prefix.len() as int))
    } else {
        None
    }
}

fn strip_prefix(s: &str, prefix: &str) -> (r: Option<String>)
    ensures
        match r {
            Some(rest) => after(s@, prefix@) == Some(rest@),
            None => after(s@, prefix@) is None,
        },
{
    let v = chars_of(s);
    let p = chars_of(prefix);
    if p.len() > v.len() {
        return None;
    }
    let mut i: usize = 0;
    while i < p.len()
        invariant
            i <= p@.len() <= v@.len(),
            v@ == s@,
            p@ == prefix@,
            forall|j: int| 0 <= j < i ==> v@[j] == p@[j],
        decreases p@.len() - i,
    {
        if v[i] != p[i] {
            assert(s@.take(prefix@.len() as int)[i as int] != prefix@[i as int]);
            return None;
        }
        i += 1;
    }
    assert(s@.take(prefix@.len() as int) == prefix@);
    let rest = vstd::slice::slice_subrange(v.as_slice(), p.len(), v.len());
    assert(rest@ == s@.skip(prefix@.len() as int));
    Some(text_of(rest))
}

/// The value of a flag: what comes after the first `key`, or after the `=` of the first
/// `key=value`, whichever stands first. A `key` at the very end has no value.
pub open spec fn flag_value(args: Seq<Seq<char>>, key: Seq<char>) -> Option<Seq<char>>
    decreases args.len(),
{
    if args.len() == 0 {
        None
    } else if args[0] == key {
        if args.len() > 1 {
            Some(args[1])
        } else {
            None
        }
    } else if after(args[0], key + "="@) is Some {
        after(args[0], key + "="@)
    } else {
        flag_value(args.drop_first(), key)
    }
}

/// The value of a flag.
pub fn flag(args: &[String], key: &str) -> (r: Option<String>)
    ensures
        match r {
            Some(value) => flag_value(crate::text::texts(args@), key@) == Some(value@),
            None => flag_value(crate::text::texts(args@), key@) is None,
        },
{
    let prefix = join(key.to_owned(), "=");
    let ghost all = crate::text::texts(args@);
    let mut i: usize = 0;
    assert(all.skip(0) == all);
    while i < args.len()
        invariant
            i <= args@.len(),
            all == crate::text::texts(args@),
            prefix@ == key@ + "="@,
            flag_value(all, key@) == flag_value(all.skip(i as int), key@),
        decreases args@.len() - i,
    {
        assert(all.skip(i as int)[0] == args@[i as int]@);
        assert(all.skip(i as int).drop_first() == all.skip(i + 1));
        if same_text(args[i].as_str(), key) {
            if i + 1 < args.len() {
                assert(all.skip(i as int)[1] == args@[i + 1]@);
                return Some(args[i + 1].clone());
            }
            return None;
        }
        match strip_prefix(args[i].as_str(), prefix.as_str()) {
            Some(value) => {
                return Some(value);
            },
            None => {},
        }
        i += 1;
    }
    assert(all.skip(i as int).len() == 0);
    None
}

/// The number that a flag holds, if it holds an unsigned one up to `max`.
pub open spec fn flag_number(
    args: Seq<Seq<char>>,
    key: Seq<char>,
    max: int,
    default: int,
) -> int {
    match flag_value(args, key) {
        Some(text) => match crate::text::unsigned_value(text) {
            Some(v) => if v <= max {
                v as int
            } else {
                default
            },
            None => default,
        },
        None => default,
    }
}

/// A flag's number, or the default where it is missing or unreadable.
pub fn flag_usize(args: &[String], key: &str, default: usize) -> (r: usize)
    ensures
        r == flag_number(crate::text::texts(args@), key@, usize::MAX as int, default as int),
{
    match flag(args, key) {
        Some(text) => match parse_usize(text.as_str()) {
            Some(v) => v,
            None => default,
        },
        None => default,
    }
}

/// A flag's number, or the default where it is missing or unreadable.
pub fn flag_u64(args: &[String], key: &str, default: u64) -> (r: u64)
    ensures
        r == flag_number(crate::text::texts(args@), key@, u64::MAX as int, default as int),
{
    match flag(args, key) {
        Some(text) => match parse_u64(text.as_str()) {
            Some(v) => v,
            None => default,
        },
        None => default,
    }
}

/// A flag's text, or the default where it is missing.
pub open spec fn flag_text(args: Seq<Seq<char>>, key: Seq<char>, default: Seq<char>) -> Seq<char> {
    match flag_value(args, key) {
        Some(text) => text,
        None => default,
    }
}

/// A flag's text, or the default where it is missing.
pub fn flag_str(args: &[String], key: &str, default: &str) -> (r: String)
    ensures
        r@ == flag_text(crate::text::texts(args@), key@, default@),
{
    match flag(args, key) {
        Some(text) => text,
        None => default.to_owned(),
    }
}

/// Reads numbers: whoever knows how they are written.
pub trait NumberReader {
    /// The number that a text writes, if it writes one.
    fn number(&self, text: &str) -> Option<Scalar>;

    /// The numbers of a JSON array of numbers, or what is wrong with the text.
    fn array(&self, text: &str) -> Result<Vec<Scalar>, String>;
}

/// Can a text be read as this number, or as none?
pub open spec fn reads<R: NumberReader>(reader: &R, text: Seq<char>, r: Option<Scalar>) -> bool {
    exists|s: &str| s@ == text && #[trigger] call_ensures(R::number, (reader, s), r)
}

/// Can a flag's number come out as `r`? It is the default where the flag is missing or
/// unreadable.
pub open spec fn is_flag_scalar<R: NumberReader>(
    reader: &R,
    args: Seq<Seq<char>>,
    key: Seq<char>,
    default: Scalar,
    r: Scalar,
) -> bool {
    match flag_value(args, key) {
        Some(text) => exists|read: Option<Scalar>| #[trigger]
            reads(reader, text, read) && r == (match read {
                Some(v) => v,
                None => default,
            }),
        None => r == default,
    }
}

/// A flag's number, or the default where it is missing or unreadable.
pub fn flag_scalar<R: NumberReader>(
    reader: &R,
    args: &[String],
    key: &str,
    default: Scalar,
) -> (r: Scalar)
    ensures
        is_flag_scalar(reader, crate::text::texts(args@), key@, default, r),
{
    match flag(args, key) {
        Some(text) => {
            let s = text.as_str();
            let read = reader.number(s);
            assert(call_ensures(R::number, (reader, s), read));
            assert(flag_value(crate::text::texts(args@), key@) == Some(text@));
            assert(reads(
                reader,
                flag_value(crate::text::texts(args@), key@)->0,
                read,
            ));
            match read {
                Some(v) => v,
                None => default,
            }
        },
        None => default,
    }
}

/// Can the readable ones among some texts be these numbers, in order?
pub open spec fn are_numbers<R: NumberReader>(
    reader: &R,
    texts: Seq<Seq<char>>,
    numbers: Seq<Scalar>,
) -> bool
    decreases texts.len(),
{
    if texts.len() == 0 {
        numbers.len() == 0
    } else {
        exists|read: Option<Scalar>| #[trigger]
            reads(reader, texts.last(), read) && match read {
                Some(v) => {
                    &&& numbers.len() > 0
                    &&& numbers.last() == v
                    &&& are_numbers(reader, texts.drop_last(), numbers.drop_last())
                },
                None => are_numbers(reader, texts.drop_last(), numbers),
            }
    }
}

fn readable<R: NumberReader>(reader: &R, words: &Vec<String>) -> (numbers: Vec<Scalar>)
    ensures
        are_numbers(reader, crate::text::texts(words@), numbers@),
{
    let ghost all = crate::text::texts(words@);
    let mut numbers: Vec<Scalar> = Vec::new();
    let mut i: usize = 0;
    while i < words.len()
        invariant
            i <= words@.len(),
            all == crate::text::texts(words@),
            are_numbers(reader, all.take(i as int), numbers@),
        decreases words@.len() - i,
    {
        let s = words[i].as_str();
        let read = reader.number(s);
        let ghost before = numbers@;
        assert(call_ensures(R::number, (reader, s), read));
        assert(reads(reader, all.take(i + 1).last(), read));
        assert(all.take(i + 1).drop_last() == all.take(i as int));
        match read {
            Some(v) => {
                numbers.push(v);
                assert(numbers@.drop_last() == before);
            },
            None => {},
        }
        i += 1;
    }
    assert(all.take(i as int) == all);
    numbers
}

/// A message about a file: its name in back quotes, and what is to be said.
pub open spec fn file_message(path: Seq<char>, rest: Seq<char>) -> Seq<char> {
    "`"@ + path + "`"@ + rest
}

fn about_file(path: &str, rest: &str) -> (r: String)
    ensures
        r@ == file_message(path@, rest@),
{
    let head = join("`".to_owned(), path);
    let quoted = join(head, "`");
    join(quoted, rest)
}

/// The message for a file that cannot be read, for the reason given.
pub fn unreadable(path: &str, reason: &str) -> (r: String)
    ensures
        r@ == "cannot read "@ + file_message(path@, ": "@ + reason@),
{
    let rest = join(": ".to_owned(), reason);
    let message = about_file(path, rest.as_str());
    join("cannot read ".to_owned(), message.as_str())
}

/// The outcome of reading a series: the numbers, or a message where there are none.
pub open spec fn series_or(
    numbers: Seq<Scalar>,
    message: Seq<char>,
    r: Result<Vec<Scalar>, String>,
) -> bool {
    match r {
        Ok(series) => series@ == numbers && numbers.len() > 0,
        Err(text) => text@ == message && numbers.len() == 0,
    }
}

/// Can a JSON text be read as this outcome?
pub open spec fn is_json_series<R: NumberReader>(
    reader: &R,
    path: Seq<char>,
    text: Seq<char>,
    r: Result<Vec<Scalar>, String>,
) -> bool {
    exists|s: &str, read: Result<Vec<Scalar>, String>|
        {
            &&& s@ == text
            &&& #[trigger] call_ensures(R::array, (reader, s), read)
            &&& match read {
                Ok(v) => series_or(
                    v@,
                    file_message(path, " parsed to an empty series"@),
                    r,
                ),
                Err(e) => r matches Err(message) && message@ == file_message(
                    path,
                    " looks like JSON but failed to parse as a number array: "@ + e@,
                ),
            }
        }
}

/// Reads a series from the text of a file: a JSON array of numbers where the text begins with a
/// bracket, else numbers between commas, semicolons and white space, where what is not a number
/// is skipped. `path` names the file in messages.
pub fn parse_series<R: NumberReader>(reader: &R, path: &str, raw: &str) -> (r: Result<
    Vec<Scalar>,
    String,
>)
    ensures
        ({
            let text = crate::text::without_leading(raw@);
            if text.len() > 0 && text[0] == '[' {
                is_json_series(reader, path@, text, r)
            } else {
                exists|numbers: Seq<Scalar>|
                    #![trigger are_numbers(
                        reader,
                        crate::text::pieces(Seq::empty(), raw@),
                        numbers,
                    )]
                    are_numbers(reader, crate::text::pieces(Seq::empty(), raw@), numbers)
                        && series_or(
                        numbers,
                        file_message(path@, " contained no parseable numbers"@),
                        r,
                    )
            }
        }),
{
    let text = trim_start(raw);
    let chars = chars_of(text.as_str());
    if chars.len() > 0 && chars[0] == '[' {
        let s = text.as_str();
        let read = reader.array(s);
        assert(call_ensures(R::array, (reader, s), read));
        match read {
            Ok(v) => {
                if v.len() == 0 {
                    Err(about_file(path, " parsed to an empty series"))
                } else {
                    Ok(v)
                }
            },
            Err(e) => {
                let rest = join(
                    " looks like JSON but failed to parse as a number array: ".to_owned(),
                    e.as_str(),
                );
                Err(about_file(path, rest.as_str()))
            },
        }
    } else {
        let words = split_pieces(raw);
        let numbers = readable(reader, &words);
        if numbers.len() == 0 {
            Err(about_file(path, " contained no parseable numbers"))
        } else {
            Ok(numbers)
        }
    }
}

/// The windows of a walk over a series: from the flags, or from the series' length.
#[derive(Debug, Clone, Copy)]
pub struct Windows {
    pub train_len: usize,
    pub horizon: usize,
    pub step: usize,
}

/// The larger of two numbers.
pub open spec fn at_least(n: int, least: int) -> int {
    if n < least {
        least
    } else {
        n
    }
}

/// The windows for a series of length `len`. By default the window is a quarter of the series,
/// eight at least, the horizon a twelfth of it, four at least, and the folds follow each other
/// without a gap.
pub open spec fn are_windows(args: Seq<Seq<char>>, len: int, w: Windows) -> bool {
    let max = usize::MAX as int;
    &&& w.train_len == flag_number(args, "--train-len"@, max, at_least(len / 4, 8))
    &&& w.horizon == flag_number(args, "--horizon"@, max, at_least(len / 12, 4))
    &&& w.step == flag_number(args, "--step"@, max, at_least(w.horizon as int, 1))
}

/// The windows for a series of length `len`, from the flags or by default.
pub fn windows(args: &[String], len: usize) -> (r: Windows)
    ensures
        are_windows(crate::text::texts(args@), len as int, r),
{
    let quarter: usize = len / 4;
    let twelfth: usize = len / 12;
    let train_len: usize = flag_usize(
        args,
        "--train-len",
        if quarter < 8 {
            8
        } else {
            quarter
        },
    );
    let horizon: usize = flag_usize(
        args,
        "--horizon",
        if twelfth < 4 {
            4
        } else {
            twelfth
        },
    );
    let step: usize = flag_usize(
        args,
        "--step",
        if horizon == 0 {
            1
        } else {
            horizon
        },
    );
    Windows { train_len, horizon, step }
}

/// The metric that the flags choose, `sharpe` by default.
pub fn chosen_metric(args: &[String]) -> (r: BtMetric)
    ensures
        r == BtMetric::named(
            crate::text::folded(
                flag_text(crate::text::texts(args@), "--metric"@, "sharpe"@),
            ),
        ),
{
    let word = flag_str(args, "--metric", "sharpe");
    BtMetric::from_str(word.as_str())
}

/// The forecaster that the flags choose, `holt` by default.
pub fn chosen_forecaster(args: &[String]) -> (r: ForecasterKind)
    ensures
        r == ForecasterKind::named(
            crate::text::folded(
                flag_text(crate::text::texts(args@), "--forecaster"@, "holt"@),
            ),
        ),
{
    let word = flag_str(args, "--forecaster", "holt");
    ForecasterKind::from_str(word.as_str())
}

/// What the `walkforward` command scores.
#[derive(Debug, Clone, Copy)]
pub struct WalkForwardPlan {
    pub metric: BtMetric,
    pub windows: Windows,
    pub kind: ForecasterKind,
    pub overfit_penalty: Scalar,
    pub tilt: Scalar,
    pub mom: Scalar,
    pub alpha: Scalar,
    pub beta: Scalar,
}

/// The plan of the `walkforward` command for a series of length `len`.
pub fn walkforward_plan<R: NumberReader>(reader: &R, args: &[String], len: usize) -> (r:
    WalkForwardPlan)
    ensures
        ({
            let texts = crate::text::texts(args@);
            &&& is_flag_scalar(
                reader,
                texts,
                "--overfit-penalty"@,
                Scalar { bits: HALF },
                r.overfit_penalty,
            )
            &&& is_flag_scalar(reader, texts, "--tilt"@, Scalar { bits: ONE }, r.tilt)
            &&& is_flag_scalar(reader, texts, "--mom"@, Scalar { bits: 0 }, r.mom)
            &&& is_flag_scalar(
                reader,
                texts,
                "--alpha"@,
                Scalar { bits: DEFAULT_ALPHA },
                r.alpha,
            )
            &&& is_flag_scalar(reader, texts, "--beta"@, Scalar { bits: DEFAULT_BETA }, r.beta)
            &&& r.metric == BtMetric::named(
                crate::text::folded(flag_text(texts, "--metric"@, "sharpe"@)),
            )
            &&& r.kind == ForecasterKind::named(
                crate::text::folded(flag_text(texts, "--forecaster"@, "holt"@)),
            )
            &&& are_windows(texts, len as int, r.windows)
        }),
{
    WalkForwardPlan {
        metric: chosen_metric(args),
        windows: windows(args, len),
        kind: chosen_forecaster(args),
        overfit_penalty: flag_scalar(
            reader,
            args,
            "--overfit-penalty",
            Scalar::from_bits(HALF),
        ),
        tilt: flag_scalar(reader, args, "--tilt", Scalar::from_bits(ONE)),
        mom: flag_scalar(reader, args, "--mom", Scalar::from_bits(0)),
        alpha: flag_scalar(reader, args, "--alpha", Scalar::from_bits(DEFAULT_ALPHA)),
        beta: flag_scalar(reader, args, "--beta", Scalar::from_bits(DEFAULT_BETA)),
    }
}

/// The bits of a fifth, the default step of the loop's proposer.
pub const FIFTH: u64 = 0x3FC9_9999_9999_999A;

/// The bits of a hundred, the default start of a scenario.
pub const HUNDRED: u64 = 0x4059_0000_0000_0000;

/// The bits of a thousandth, the default drift of a scenario.
pub const THOUSANDTH: u64 = 0x3F50_624D_D2F1_A9FC;

/// The bits of a fiftieth, the default volatility of a scenario.
pub const FIFTIETH: u64 = 0x3F94_7AE1_47AE_147B;

/// What the `run` command runs, whatever it runs on.
#[derive(Debug, Clone, Copy)]
pub struct RunPlan {
    /// Over the folds of a series, not over scenarios.
    pub walkforward: bool,
    pub metric: BtMetric,
    /// One at least.
    pub iterations: usize,
    pub seed: u64,
    pub step_size: Scalar,
}

/// The plan of the `run` command.
pub fn run_plan<R: NumberReader>(reader: &R, args: &[String]) -> (r: RunPlan)
    ensures
        ({
            let texts = crate::text::texts(args@);
            let mode = flag_text(texts, "--mode"@, "backtest"@);
            &&& r.walkforward == (mode == "walkforward"@ || mode == "wf"@)
            &&& r.metric == BtMetric::named(
                crate::text::folded(flag_text(texts, "--metric"@, "sharpe"@)),
            )
            &&& r.iterations == at_least(
                flag_number(texts, "--iterations"@, usize::MAX as int, 100),
                1,
            )
            &&& r.seed == flag_number(texts, "--seed"@, u64::MAX as int, 42)
            &&& is_flag_scalar(
                reader,
                texts,
                "--step-size"@,
                Scalar { bits: FIFTH },
                r.step_size,
            )
        }),
{
    let mode = flag_str(args, "--mode", "backtest");
    let iterations: usize = flag_usize(args, "--iterations", 100);
    RunPlan {
        walkforward: same_text(mode.as_str(), "walkforward") || same_text(mode.as_str(), "wf"),
        metric: chosen_metric(args),
        iterations: if iterations == 0 {
            1
        } else {
            iterations
        },
        seed: flag_u64(args, "--seed", 42),
        step_size: flag_scalar(reader, args, "--step-size", Scalar::from_bits(FIFTH)),
    }
}

/// The scenarios of the `run` command.
pub fn scenario_plan<R: NumberReader>(reader: &R, args: &[String]) -> (r: Market)
    ensures
        ({
            let texts = crate::text::texts(args@);
            &&& is_flag_scalar(reader, texts, "--start"@, Scalar { bits: HUNDRED }, r.start)
            &&& is_flag_scalar(reader, texts, "--drift"@, Scalar { bits: THOUSANDTH }, r.drift)
            &&& is_flag_scalar(reader, texts, "--vol"@, Scalar { bits: FIFTIETH }, r.vol)
            &&& r.n_scenarios == flag_number(texts, "--n-scenarios"@, usize::MAX as int, 200)
            &&& r.horizon == flag_number(texts, "--horizon"@, usize::MAX as int, 12)
        }),
{
    Market {
        start: flag_scalar(reader, args, "--start", Scalar::from_bits(HUNDRED)),
        drift: flag_scalar(reader, args, "--drift", Scalar::from_bits(THOUSANDTH)),
        vol: flag_scalar(reader, args, "--vol", Scalar::from_bits(FIFTIETH)),
        n_scenarios: flag_usize(args, "--n-scenarios", 200),
        horizon: flag_usize(args, "--horizon", 12),
    }
}

/// Why a command does not run: a message, and the code that the program ends with.
#[derive(Debug)]
pub struct Refusal {
    pub message: String,
    pub code: i32,
}

/// The path of the series that a command needs. Without one the command ends with code two.
pub fn required_series(command: &str, args: &[String]) -> (r: Result<String, Refusal>)
    ensures
        match r {
            Ok(path) => flag_value(crate::text::texts(args@), "--series"@) == Some(path@),
            Err(refusal) => {
                &&& flag_value(crate::text::texts(args@), "--series"@) is None
                &&& refusal.message@ == command@ + ": --series <file> is required"@
                &&& refusal.code == 2
            },
        },
{
    match flag(args, "--series") {
        Some(path) => Ok(path),
        None => Err(
            Refusal {
                message: join(command.to_owned(), ": --series <file> is required"),
                code: 2,
            },
        ),
    }
}

/// A series, or the end of a command that has none: the message under the command's name, and
/// code one.
pub fn series_or_refusal(command: &str, read: Result<Vec<Scalar>, String>) -> (r: Result<
    Vec<Scalar>,
    Refusal,
>)
    ensures
        match (read, r) {
            (Ok(series), Ok(same)) => series == same,
            (Err(message), Err(refusal)) => {
                &&& refusal.message@ == command@ + ": "@ + message@
                &&& refusal.code == 1
            },
            _ => false,
        },
{
    match read {
        Ok(series) => Ok(series),
        Err(message) => {
            let head = join(command.to_owned(), ": ");
            Err(Refusal { message: join(head, message.as_str()), code: 1 })
        },
    }
}

/// The code that a scoring ends with: zero with a finite score, else one.
pub fn score_code(score: Scalar) -> (r: i32)
    ensures
        r == (if score@.finite() {
            0i32
        } else {
            1i32
        }),
{
    if score.is_finite() {
        0
    } else {
        1
    }
}

} // verus!
