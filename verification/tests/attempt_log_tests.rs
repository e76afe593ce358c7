use std::sync::Mutex;

use vision_autoresearch::arithmetic::Arithmetic;
use vision_autoresearch::attempt_log::{
    is_git_repo, make_row, row_at, AttemptLog, GitRatchet, NoopRatchet, PeakMem, Ratchet,
};
use vision_autoresearch::git::{Git, GitRunner};
use vision_autoresearch::metric::KeepOrRevert;
use vision_autoresearch::scalar::Scalar;

fn s(x: f64) -> Scalar {
    Scalar::from_bits(x.to_bits())
}

fn f(x: Scalar) -> f64 {
    f64::from_bits(x.to_bits())
}

fn series(xs: &[f64]) -> Vec<Scalar> {
    xs.iter().map(|x| s(*x)).collect()
}

/// The machine's own arithmetic.
#[derive(Clone, Copy)]
struct Native;

impl Arithmetic for Native {
    fn plus(&self, a: Scalar, b: Scalar) -> Scalar {
        s(f(a) + f(b))
    }
    fn minus(&self, a: Scalar, b: Scalar) -> Scalar {
        s(f(a) - f(b))
    }
    fn times(&self, a: Scalar, b: Scalar) -> Scalar {
        s(f(a) * f(b))
    }
    fn over(&self, a: Scalar, b: Scalar) -> Scalar {
        s(f(a) / f(b))
    }
    fn root(&self, a: Scalar) -> Scalar {
        s(f(a).sqrt())
    }
    fn log(&self, a: Scalar) -> Scalar {
        s(f(a).ln())
    }
    fn cosine(&self, a: Scalar) -> Scalar {
        s(f(a).cos())
    }
    fn nearest(&self, a: Scalar) -> Scalar {
        s(f(a).round())
    }
    fn whole(&self, n: u64) -> Scalar {
        s(n as f64)
    }
    fn three_places(&self, a: Scalar) -> String {
        format!("{:.3}", f(a))
    }
}

fn gb(x: f64) -> PeakMem {
    PeakMem::Measured(s(x))
}

#[test]
fn attempt_log_appends_and_recents() {
    let mut log = AttemptLog::new();
    for i in 0..5 {
        log.append(make_row(
            i,
            format!("{:07x}", i),
            "val_bpb",
            s(1.0 - i as f64 * 0.1),
            s(1.0),
            gb(0.5),
            Some(KeepOrRevert::Keep),
            false,
            format!("attempt {}", i),
        ));
    }
    assert_eq!(log.len(), 5);
    assert_eq!(log.recent(2).len(), 2);
    assert_eq!(log.recent(2)[1].iter, 4);
    assert_eq!(log.n_kept(), 5);
}

#[test]
fn noop_ratchet_tracks_kept_only() {
    let mut r = NoopRatchet::new();
    let h1 = r.commit_candidate("c1");
    assert!(r.apply(KeepOrRevert::Keep));
    let _h2 = r.commit_candidate("c2");
    assert!(r.apply(KeepOrRevert::Revert));
    let kept = r.kept_history();
    assert_eq!(kept.len(), 1);
    assert_eq!(kept[0], h1);
}

#[test]
fn row_status_reflects_decision_and_crash() {
    let keep = make_row(0, "a".into(), "m", s(0.5), s(1.0), gb(0.0), Some(KeepOrRevert::Keep), false, "d".into());
    assert_eq!(keep.status, "keep");
    let rev = make_row(0, "a".into(), "m", s(1.5), s(1.0), gb(0.0), Some(KeepOrRevert::Revert), false, "d".into());
    assert_eq!(rev.status, "revert");
    let crash = make_row(0, "-".into(), "m", s(f64::NAN), s(1.0), gb(0.0), None, true, "boom".into());
    assert_eq!(crash.status, "crash");
}

#[test]
fn row_keeps_what_it_is_given() {
    let row = row_at(
        2,
        "abc1234".into(),
        "sharpe",
        s(1.23),
        s(1.0),
        gb(0.7),
        None,
        false,
        "x".into(),
        77,
    );
    assert_eq!(row.iter, 2);
    assert_eq!(row.commit7, "abc1234");
    assert_eq!(row.metric_name, "sharpe");
    assert_eq!(f(row.metric_value), 1.23);
    assert_eq!(f(row.baseline_value), 1.0);
    assert_eq!(row.status, "revert");
    assert_eq!(row.description, "x");
    assert_eq!(row.ts, 77);
    let copy = row.clone();
    assert_eq!(copy.description, row.description);
}

#[test]
fn make_row_stamps_the_present() {
    let row = make_row(0, "a".into(), "m", s(0.5), s(1.0), gb(0.0), None, false, "d".into());
    // Some time after the year 2020 and before the year 3000.
    assert!(row.ts > 1_577_836_800 && row.ts < 32_503_680_000);
}

#[test]
fn log_remembers_its_file_and_hands_out_all_rows() {
    let log = AttemptLog::with_file("attempts.jsonl");
    assert_eq!(log.file_path(), Some("attempts.jsonl"));
    assert!(log.is_empty());
    assert_eq!(AttemptLog::default().file_path(), None);
    let mut log = AttemptLog::new();
    log.append(make_row(7, "a".into(), "m", s(0.5), s(1.0), gb(0.0), Some(KeepOrRevert::Revert), false, "d".into()));
    assert_eq!(log.all().len(), 1);
    assert_eq!(log.all()[0].iter, 7);
    assert_eq!(log.recent(9).len(), 1);
    assert_eq!(log.recent(0).len(), 0);
    assert_eq!(log.n_kept(), 0);
}

#[test]
fn synthetic_hashes_count_up_in_hexadecimal() {
    let mut r = NoopRatchet::default();
    assert_eq!(r.commit_candidate("m"), "0000001");
    for _ in 0..9 {
        r.commit_candidate("m");
    }
    assert_eq!(r.commit_candidate("m"), "000000b");
    for _ in 0..5 {
        r.commit_candidate("m");
    }
    assert_eq!(r.commit_candidate("m"), "0000011");
    let mut seen: Vec<String> = (0..300).map(|_| r.commit_candidate("m")).collect();
    seen.sort();
    seen.dedup();
    assert_eq!(seen.len(), 300);
    assert!(seen.iter().all(|h| h.len() == 7));
}

#[test]
fn peak_memory_is_one_gigabyte_plus_the_knobs() {
    assert_eq!(f(PeakMem::Estimated { knobs: 3 }.gigabytes(&Native)), 1.0);
    assert_eq!(f(PeakMem::Estimated { knobs: 125_000_000 }.gigabytes(&Native)), 2.0);
    assert_eq!(f(PeakMem::Estimated { knobs: 1_000_000 }.gigabytes(&Native)), 1.008);
    assert_eq!(f(gb(0.25).gigabytes(&Native)), 0.25);
}

/// Records what it is asked to run and answers from a list.
struct Script {
    asked: Mutex<Vec<String>>,
    replies: Mutex<Vec<Option<String>>>,
}

impl Script {
    fn new(replies: Vec<Option<&str>>) -> Script {
        Script {
            asked: Mutex::new(Vec::new()),
            replies: Mutex::new(replies.into_iter().rev().map(|r| r.map(|t| t.to_string())).collect()),
        }
    }
}

impl GitRunner for &Script {
    fn run(&self, args: &Vec<String>) -> Option<String> {
        self.asked.lock().unwrap().push(args.join(" "));
        self.replies.lock().unwrap().pop().unwrap()
    }
}

#[test]
fn git_ratchet_commits_keeps_and_resets() {
    let script = Script::new(vec![
        Some(""),
        Some("done"),
        Some("  abc1234\n"),
        None,
        Some(""),
        None,
        Some("HEAD is now at"),
        Some(""),
        Some(""),
        Some("fff0000"),
        None,
    ]);
    let mut r = GitRatchet::new(Git::new(&script), "/work");
    assert!(r.kept_history().is_empty());
    assert_eq!(r.commit_candidate("autoresearch[0]: c1"), "abc1234");
    assert!(r.apply(KeepOrRevert::Keep));
    assert_eq!(r.kept_history(), vec!["abc1234".to_string()]);
    // git does not tell the hash
    assert_eq!(r.commit_candidate("c2"), "-------");
    assert!(r.apply(KeepOrRevert::Revert));
    assert_eq!(r.commit_candidate("c3"), "fff0000");
    // the reset fails
    assert!(!r.apply(KeepOrRevert::Revert));
    assert_eq!(r.kept_history(), vec!["abc1234".to_string()]);
    let asked = script.asked.lock().unwrap();
    assert_eq!(asked[0], "-C /work add -A");
    assert_eq!(asked[1], "-C /work commit --allow-empty -m autoresearch[0]: c1");
    assert_eq!(asked[2], "-C /work rev-parse --short=7 HEAD");
    assert_eq!(asked[6], "-C /work reset --hard HEAD~1");
    assert_eq!(asked.len(), 11);
}

#[test]
fn work_trees_are_recognized() {
    let script = Script::new(vec![Some("true\n"), None, Some("false\n"), Some("true story")]);
    let mut git = Git::new(&script);
    assert!(is_git_repo(&mut git, "/work"));
    assert!(!is_git_repo(&mut git, "/tmp"));
    // inside the git directory, but not in the work tree
    assert!(!is_git_repo(&mut git, "/work/.git"));
    assert!(!is_git_repo(&mut git, "/odd"));
    let asked = script.asked.lock().unwrap();
    assert_eq!(asked[0], "-C /work rev-parse --is-inside-work-tree");
    assert_eq!(asked.len(), 4);
}

#[test]
fn a_commit_that_failed_is_not_reset() {
    let script = Script::new(vec![
        Some(""),
        Some("done"),
        Some("abc1234"),
        Some(""),
        None,
        Some("abc1234"),
    ]);
    let mut r = GitRatchet::new(Git::new(&script), "/work");
    r.commit_candidate("c1");
    assert!(r.apply(KeepOrRevert::Keep));
    r.commit_candidate("c2");
    assert!(r.apply(KeepOrRevert::Revert));
    // a second decision finds no commit to drop either
    assert!(r.apply(KeepOrRevert::Revert));
    let asked = script.asked.lock().unwrap();
    assert_eq!(asked.len(), 6);
    assert!(asked.iter().all(|a| !a.contains("reset")));
}

/// A branch, as far as commits and resets go.
struct Branch {
    commits: Mutex<Vec<String>>,
    full: bool,
}

impl GitRunner for &Branch {
    fn run(&self, args: &Vec<String>) -> Option<String> {
        let mut commits = self.commits.lock().unwrap();
        match args[2].as_str() {
            "commit" => {
                if self.full && commits.len() >= 2 {
                    return None;
                }
                commits.push(args[5].clone());
            }
            "reset" => {
                commits.pop();
            }
            "rev-parse" => return commits.last().cloned(),
            _ => {}
        }
        Some(String::new())
    }
}

#[test]
fn a_revert_returns_to_the_commit_before() {
    let branch = Branch { commits: Mutex::new(vec!["base".to_string()]), full: false };
    let mut r = GitRatchet::new(Git::new(&branch), "/work");
    assert_eq!(r.commit_candidate("c1"), "c1");
    assert!(r.apply(KeepOrRevert::Keep));
    assert_eq!(r.commit_candidate("c2"), "c2");
    assert!(r.apply(KeepOrRevert::Revert));
    assert_eq!(*branch.commits.lock().unwrap(), vec!["base".to_string(), "c1".to_string()]);
    assert_eq!(r.kept_history(), vec!["c1".to_string()]);

    // nothing more can be committed: what was kept stays
    let branch = Branch { commits: Mutex::new(vec!["base".to_string()]), full: true };
    let mut r = GitRatchet::new(Git::new(&branch), "/work");
    r.commit_candidate("c1");
    assert!(r.apply(KeepOrRevert::Keep));
    r.commit_candidate("c2");
    assert!(r.apply(KeepOrRevert::Revert));
    assert_eq!(*branch.commits.lock().unwrap(), vec!["base".to_string(), "c1".to_string()]);
}
