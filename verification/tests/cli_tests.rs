use vision_autoresearch::cli::{
    chosen_forecaster, chosen_metric, command_args, command_word, flag, flag_scalar, flag_str,
    flag_u64, flag_usize, parse_series, required_series, run_plan, scenario_plan, score_code,
    series_or_refusal, unreadable, walkforward_plan, windows, NumberReader, Subcommand,
};
use vision_autoresearch::evaluator::BtMetric;
use vision_autoresearch::scalar::Scalar;
use vision_autoresearch::text::{
    chars_of, decimal, fold, hex, is_white_space, parse_u64, parse_usize, split_pieces, text_of, trim, trim_start,
};
use vision_autoresearch::timesfm_walkforward::ForecasterKind;

fn s(x: f64) -> Scalar {
    Scalar::from_bits(x.to_bits())
}

fn args(words: &[&str]) -> Vec<String> {
    words.iter().map(|w| w.to_string()).collect()
}

struct Std;

impl NumberReader for Std {
    fn number(&self, text: &str) -> Option<Scalar> {
        text.parse::<f64>().ok().map(s)
    }
    fn array(&self, text: &str) -> Result<Vec<Scalar>, String> {
        let v: Vec<f64> = serde_json::from_str(text).map_err(|e| e.to_string())?;
        Ok(v.into_iter().map(s).collect())
    }
}

#[test]
fn flags_with_a_space_or_an_equals_sign() {
    let a = args(&["--x", "1", "--y=2", "--z"]);
    assert_eq!(flag(&a, "--x").as_deref(), Some("1"));
    assert_eq!(flag(&a, "--y").as_deref(), Some("2"));
    assert_eq!(flag(&a, "--z"), None);
    assert_eq!(flag(&a, "--w"), None);
    // the first one counts
    let a = args(&["--y=2", "--y", "3"]);
    assert_eq!(flag(&a, "--y").as_deref(), Some("2"));
    assert_eq!(flag(&args(&["--y=", "7"]), "--y").as_deref(), Some(""));
    assert_eq!(flag(&args(&["--yy=1"]), "--y"), None);
}

#[test]
fn flags_of_numbers_fall_back() {
    let a = args(&["--n", "12", "--bad", "x1", "--big", "18446744073709551616", "--f=0.25"]);
    assert_eq!(flag_usize(&a, "--n", 5), 12);
    assert_eq!(flag_usize(&a, "--bad", 5), 5);
    assert_eq!(flag_usize(&a, "--none", 5), 5);
    assert_eq!(flag_u64(&a, "--n", 5), 12);
    assert_eq!(flag_u64(&a, "--big", 5), 5);
    assert_eq!(flag_scalar(&Std, &a, "--f", s(1.0)), s(0.25));
    assert_eq!(flag_scalar(&Std, &a, "--bad", s(1.0)), s(1.0));
    assert_eq!(flag_scalar(&Std, &a, "--none", s(1.0)), s(1.0));
    assert_eq!(flag_str(&a, "--bad", "d"), "x1");
    assert_eq!(flag_str(&a, "--none", "d"), "d");
}

#[test]
fn subcommands() {
    for (word, expected) in [
        ("run", "Run"),
        ("walkforward", "WalkForward"),
        ("wf", "WalkForward"),
        ("example", "Example"),
        ("demo", "Example"),
        ("-h", "Help"),
        ("--help", "Help"),
        ("help", "Help"),
        ("Run", "Unknown"),
    ] {
        assert_eq!(format!("{:?}", Subcommand::from_str(word)), expected);
    }
    assert_eq!(command_word(&args(&["prog", "wf", "--x"])), "wf");
    assert_eq!(command_word(&args(&["prog"])), "example");
    assert_eq!(command_word(&[]), "example");
    assert_eq!(command_args(&args(&["prog", "wf", "--x", "1"])), &args(&["--x", "1"])[..]);
    assert!(command_args(&args(&["prog"])).is_empty());
}

#[test]
fn series_as_plain_text() {
    let read = |raw: &str| parse_series(&Std, "p.csv", raw);
    assert_eq!(read("1, 2;3\n4\t5 x 6").unwrap(), [1.0, 2.0, 3.0, 4.0, 5.0, 6.0].map(s).to_vec());
    assert_eq!(read("close\n100.5\n101").unwrap(), [100.5, 101.0].map(s).to_vec());
    assert_eq!(read("a b").unwrap_err(), "`p.csv` contained no parseable numbers");
    assert_eq!(read("").unwrap_err(), "`p.csv` contained no parseable numbers");
}

#[test]
fn series_as_json() {
    let read = |raw: &str| parse_series(&Std, "p.json", raw);
    assert_eq!(read("  [1, 2.5, -3e2]").unwrap(), [1.0, 2.5, -300.0].map(s).to_vec());
    assert_eq!(read("[]").unwrap_err(), "`p.json` parsed to an empty series");
    let e = read("[1, \"a\"]").unwrap_err();
    assert!(e.starts_with("`p.json` looks like JSON but failed to parse as a number array: "), "{e}");
}

#[test]
fn messages_about_files() {
    assert_eq!(unreadable("a b", "gone"), "cannot read `a b`: gone");
    let r = series_or_refusal("walkforward", Err("why".to_string())).unwrap_err();
    assert_eq!((r.message.as_str(), r.code), ("walkforward: why", 1));
    assert_eq!(series_or_refusal("run", Ok(vec![s(1.0)])).unwrap(), vec![s(1.0)]);
    let r = required_series("run --mode walkforward", &[]).unwrap_err();
    assert_eq!(
        (r.message.as_str(), r.code),
        ("run --mode walkforward: --series <file> is required", 2)
    );
    assert_eq!(required_series("walkforward", &args(&["--series", "f"])).unwrap(), "f");
}

#[test]
fn windows_by_default_and_by_flag() {
    let w = windows(&[], 240);
    assert_eq!((w.train_len, w.horizon, w.step), (60, 20, 20));
    let w = windows(&[], 10);
    assert_eq!((w.train_len, w.horizon, w.step), (8, 4, 4));
    let w = windows(&args(&["--train-len", "9", "--horizon=0"]), 240);
    assert_eq!((w.train_len, w.horizon, w.step), (9, 0, 1));
    let w = windows(&args(&["--horizon", "6", "--step", "2"]), 240);
    assert_eq!((w.train_len, w.horizon, w.step), (60, 6, 2));
}

#[test]
fn plans_have_defaults() {
    let p = walkforward_plan(&Std, &[], 48);
    assert_eq!(p.metric, BtMetric::Sharpe);
    assert_eq!(p.kind, ForecasterKind::Holt);
    assert_eq!(
        (p.overfit_penalty, p.tilt, p.mom, p.alpha, p.beta),
        (s(0.5), s(1.0), s(0.0), s(0.4), s(0.1))
    );
    assert_eq!(p.windows.train_len, 12);
    let r = run_plan(&Std, &[]);
    assert!(!r.walkforward);
    assert_eq!((r.iterations, r.seed, r.step_size), (100, 42, s(0.2)));
    let c = scenario_plan(&Std, &[]);
    assert_eq!((c.start, c.drift, c.vol), (s(100.0), s(0.001), s(0.02)));
    assert_eq!((c.n_scenarios, c.horizon), (200, 12));
}

#[test]
fn plans_follow_the_flags() {
    let a = args(&[
        "--metric", "MDD", "--forecaster", "naive", "--tilt", "0.5", "--mode", "wf", "--iterations",
        "0", "--seed", "7", "--step-size", "1.5", "--n-scenarios", "3", "--vol", "0.5",
        "--overfit-penalty", "2", "--mom", "0.25", "--alpha", "0.75", "--beta", "0.125",
        "--start", "10", "--drift", "0.5", "--horizon", "5",
    ]);
    let p = walkforward_plan(&Std, &a, 48);
    assert_eq!((p.metric, p.kind), (BtMetric::MaxDrawdown, ForecasterKind::Naive));
    assert_eq!(
        (p.overfit_penalty, p.tilt, p.mom, p.alpha, p.beta),
        (s(2.0), s(0.5), s(0.25), s(0.75), s(0.125))
    );
    let r = run_plan(&Std, &a);
    assert!(r.walkforward);
    assert_eq!((r.iterations, r.seed, r.step_size), (1, 7, s(1.5)));
    let c = scenario_plan(&Std, &a);
    assert_eq!((c.start, c.drift, c.vol), (s(10.0), s(0.5), s(0.5)));
    assert_eq!((c.n_scenarios, c.horizon), (3, 5));
    assert_eq!(chosen_metric(&a), BtMetric::MaxDrawdown);
    assert_eq!(chosen_forecaster(&a), ForecasterKind::Naive);
}

#[test]
fn codes_of_scores() {
    assert_eq!(score_code(s(1.0)), 0);
    assert_eq!(score_code(s(f64::NAN)), 1);
    assert_eq!(score_code(s(f64::INFINITY)), 1);
}

#[test]
fn numbers_are_read_and_written() {
    for n in [0u64, 7, 10, 42, 1_000_000, u64::MAX] {
        assert_eq!(decimal(n), n.to_string());
        assert_eq!(parse_u64(&n.to_string()), Some(n));
    }
    for text in ["+5", "007", "", "+", "-1", "1 ", "18446744073709551616", "5x"] {
        assert_eq!(parse_u64(text), text.parse::<u64>().ok(), "{text:?}");
        assert_eq!(parse_usize(text), text.parse::<usize>().ok(), "{text:?}");
    }
    assert_eq!(hex(0xABCDEF, 7), "0abcdef");
    assert_eq!(hex(0x123456789, 7), "3456789");
}

#[test]
fn texts_are_trimmed_and_folded() {
    for text in ["", "  ", " a b ", "\u{2003}x\u{85}", "tab\t", "\u{3000}\u{200b}y"] {
        assert_eq!(trim(text), text.trim());
        assert_eq!(trim_start(text), text.trim_start());
    }
    assert_eq!(fold("  MixedCase\t"), "mixedcase");
    assert_eq!(fold("\u{c4}PFEL"), "\u{e4}pfel");
    assert_eq!(text_of(&chars_of("h\u{e9}llo")), "h\u{e9}llo");
    assert_eq!(split_pieces("a,,b ;c\n"), vec!["a", "b", "c"]);
}

#[test]
fn white_space_is_that_of_unicode() {
    for n in 0..=0x10FFFFu32 {
        if let Some(c) = char::from_u32(n) {
            assert_eq!(is_white_space(c), c.is_whitespace(), "{n:x}");
        }
    }
}
