//! The attempt log and the ratchet.
//!
//! A loop leaves two records behind: the log holds every attempt, and the ratchet's history
//! holds the kept ones only. A ratchet commits each candidate; on a keep the commit stays and
//! becomes the new baseline, on a revert it is dropped.
use vstd::prelude::*;

use crate::arithmetic::Arithmetic;
use crate::git::{Git, GitCall, GitRunner};
use crate::metric::KeepOrRevert;
use crate::scalar::{Scalar, ONE};
use crate::text::{hex, same_text};

verus! {

/// The peak memory column of an attempt, in gigabytes.
#[derive(Debug, Clone, Copy)]
pub enum PeakMem {
    /// As measured by whoever ran the evaluation.
    Measured(Scalar),
    /// The proxy for an artifact of this many knobs, on which alone it depends.
    Estimated { knobs: usize },
}

/// The bits of eight, the bytes of a knob.
pub const KNOB_BYTES: u64 = 0x4020_0000_0000_0000;

/// The bits of a thousand million, the bytes of a gigabyte.
pub const GIGABYTE: u64 = 0x41CD_CD65_0000_0000;

/// The bits of a thousand.
pub const THOUSAND: u64 = 0x408F_4000_0000_0000;

/// Can the memory proxy of an artifact with this many knobs come out as `r`? It is one gigabyte,
/// plus the bytes of the knobs, rounded to three places.
pub open spec fn is_estimate<A: Arithmetic>(ops: &A, knobs: nat, r: Scalar) -> bool {
    exists|n: Scalar, bytes: Scalar, share: Scalar, size: Scalar, scaled: Scalar, rounded: Scalar|
        {
            &&& crate::arithmetic::counts(ops, knobs, n)
            &&& #[trigger] crate::arithmetic::multiplies(
                ops,
                n,
                Scalar { bits: KNOB_BYTES },
                bytes,
            )
            &&& #[trigger] crate::arithmetic::divides(
                ops,
                bytes,
                Scalar { bits: GIGABYTE },
                share,
            )
            &&& crate::arithmetic::adds(ops, Scalar { bits: ONE }, share, size)
            &&& #[trigger] crate::arithmetic::multiplies(
                ops,
                size,
                Scalar { bits: THOUSAND },
                scaled,
            )
            &&& #[trigger] crate::arithmetic::rounds(ops, scaled, rounded)
            &&& crate::arithmetic::divides(ops, rounded, Scalar { bits: THOUSAND }, r)
        }
}

/// A coarse, reproducible proxy for the peak memory of an artifact.
fn est_peak_mem_gb<A: Arithmetic>(ops: &A, knobs: usize) -> (r: Scalar)
    ensures
        is_estimate(ops, knobs as nat, r),
{
    let n = ops.whole(knobs as u64);
    let bytes = ops.times(n, Scalar::from_bits(KNOB_BYTES));
    let share = ops.over(bytes, Scalar::from_bits(GIGABYTE));
    let size = ops.plus(Scalar::from_bits(ONE), share);
    let scaled = ops.times(size, Scalar::from_bits(THOUSAND));
    let rounded = ops.nearest(scaled);
    let r = ops.over(rounded, Scalar::from_bits(THOUSAND));
    proof {
        assert(crate::arithmetic::counts(ops, knobs as nat, n));
        assert(crate::arithmetic::multiplies(ops, n, Scalar { bits: KNOB_BYTES }, bytes));
        assert(crate::arithmetic::divides(ops, bytes, Scalar { bits: GIGABYTE }, share));
        assert(crate::arithmetic::adds(ops, Scalar { bits: ONE }, share, size));
        assert(crate::arithmetic::multiplies(ops, size, Scalar { bits: THOUSAND }, scaled));
        assert(crate::arithmetic::rounds(ops, scaled, rounded));
        assert(crate::arithmetic::divides(ops, rounded, Scalar { bits: THOUSAND }, r));
    }
    r
}

impl PeakMem {
    /// The column's value.
    pub fn gigabytes<A: Arithmetic>(&self, ops: &A) -> (r: Scalar)
        ensures
            match *self {
                PeakMem::Measured(value) => r == value,
                PeakMem::Estimated { knobs } => is_estimate(ops, knobs as nat, r),
            },
    {
        match self {
            PeakMem::Measured(value) => *value,
            PeakMem::Estimated { knobs } => est_peak_mem_gb(ops, *knobs),
        }
    }
}

/// One attempt.
#[derive(Debug)]
pub struct AttemptRow {
    pub iter: usize,
    /// The short hash of the candidate's commit.
    pub commit7: String,
    pub metric_name: String,
    pub metric_value: Scalar,
    pub baseline_value: Scalar,
    pub peak_mem_gb: PeakMem,
    /// `keep`, `revert` or `crash`.
    pub status: String,
    pub description: String,
    /// Seconds since the Unix epoch.
    pub ts: u64,
}

impl Clone for AttemptRow {
    fn clone(&self) -> (r: AttemptRow)
        ensures
            r == *self,
    {
        AttemptRow {
            iter: self.iter,
            commit7: self.commit7.clone(),
            metric_name: self.metric_name.clone(),
            metric_value: self.metric_value,
            baseline_value: self.baseline_value,
            peak_mem_gb: self.peak_mem_gb,
            status: self.status.clone(),
            description: self.description.clone(),
            ts: self.ts,
        }
    }
}

impl AttemptRow {
    /// Was the candidate of this attempt kept?
    pub open spec fn kept(self) -> bool {
        self.status@ == "keep"@
    }
}

/// The status column for a decision: a crash comes first, and no decision counts as a revert.
pub open spec fn status_text(decision: Option<KeepOrRevert>, crashed: bool) -> Seq<char> {
    if crashed {
        "crash"@
    } else if decision == Some(KeepOrRevert::Keep) {
        "keep"@
    } else {
        "revert"@
    }
}

/// A point in time, as `std::time` holds it.
#[verifier::external_type_specification]
#[verifier::external_body]
pub struct ExSystemTime(std::time::SystemTime);

/// What `SystemTime::duration_since` gives where the other time is the later one.
#[verifier::external_type_specification]
#[verifier::external_body]
pub struct ExSystemTimeError(std::time::SystemTimeError);

/// `SystemTime::now` reads the clock: nothing is known of the result.
pub assume_specification[ std::time::SystemTime::now ]() -> std::time::SystemTime
;

/// `SystemTime::duration_since` gives the time between two points in time, or an error where
/// `earlier` is the later one. Nothing is stated of the result: both points are opaque.
pub assume_specification[ std::time::SystemTime::duration_since ](
    time: &std::time::SystemTime,
    earlier: std::time::SystemTime,
) -> Result<std::time::Duration, std::time::SystemTimeError>
;

/// `Duration::as_secs` gives the whole seconds of a span of time. Nothing is stated of the
/// result: the span is opaque.
pub assume_specification[ std::time::Duration::as_secs ](span: &std::time::Duration) -> u64
;

/// The constant `SystemTime::UNIX_EPOCH`.
#[verifier::external_body]
fn unix_epoch() -> std::time::SystemTime {
    std::time::SystemTime::UNIX_EPOCH
}

/// Can the whole seconds of a time that has passed come out as `seconds`? They are zero where it
/// runs backwards.
pub open spec fn are_seconds(
    passed: Result<std::time::Duration, std::time::SystemTimeError>,
    seconds: u64,
) -> bool {
    match passed {
        Ok(span) => call_ensures(std::time::Duration::as_secs, (&span,), seconds),
        Err(_) => seconds == 0,
    }
}

/// Can a clock that reads `now` come out as `ts` seconds since `epoch`?
pub open spec fn is_stamp(
    now: std::time::SystemTime,
    epoch: std::time::SystemTime,
    ts: u64,
) -> bool {
    exists|passed: Result<std::time::Duration, std::time::SystemTimeError>|
        {
            &&& #[trigger] call_ensures(
                std::time::SystemTime::duration_since,
                (&now, epoch),
                passed,
            )
            &&& are_seconds(passed, ts)
        }
}

/// The whole seconds of a time that has passed, 0 where it runs backwards.
fn whole_seconds(passed: Result<std::time::Duration, std::time::SystemTimeError>) -> (seconds: u64)
    ensures
        are_seconds(passed, seconds),
{
    match passed {
        Ok(span) => span.as_secs(),
        Err(_) => 0,
    }
}

/// Can the clock, read now, come out as `ts` whole seconds since the Unix epoch, 0 where it
/// stands before it?
pub closed spec fn is_present(ts: u64) -> bool {
    exists|now: std::time::SystemTime, epoch: std::time::SystemTime|
        {
            &&& call_ensures(std::time::SystemTime::now, (), now)
            &&& call_ensures(unix_epoch, (), epoch)
            &&& #[trigger] is_stamp(now, epoch, ts)
        }
}

/// Seconds since the Unix epoch, 0 where the clock stands before it.
fn now_ts() -> (ts: u64)
    ensures
        is_present(ts),
{
    let now = std::time::SystemTime::now();
    let epoch = unix_epoch();
    let passed = now.duration_since(epoch);
    let ts: u64 = whole_seconds(passed);
    assert(call_ensures(std::time::SystemTime::duration_since, (&now, epoch), passed));
    assert(is_stamp(now, epoch, ts));
    ts
}

/// Builds the row of a completed evaluation, stamped with the time `ts`.
pub fn row_at(
    iter: usize,
    commit7: String,
    metric_name: &str,
    metric_value: Scalar,
    baseline_value: Scalar,
    peak_mem_gb: PeakMem,
    decision: Option<KeepOrRevert>,
    crashed: bool,
    description: String,
    ts: u64,
) -> (row: AttemptRow)
    ensures
        row.iter == iter,
        row.commit7 == commit7,
        row.metric_name@ == metric_name@,
        row.metric_value == metric_value,
        row.baseline_value == baseline_value,
        row.peak_mem_gb == peak_mem_gb,
        row.status@ == status_text(decision, crashed),
        row.description == description,
        row.ts == ts,
{
    let status = if crashed {
        "crash".to_owned()
    } else {
        match decision {
            Some(KeepOrRevert::Keep) => "keep".to_owned(),
            Some(KeepOrRevert::Revert) => "revert".to_owned(),
            None => "revert".to_owned(),
        }
    };
    AttemptRow {
        iter,
        commit7,
        metric_name: metric_name.to_owned(),
        metric_value,
        baseline_value,
        peak_mem_gb,
        status,
        description,
        ts,
    }
}

/// Builds the row of a completed evaluation, stamped with the current time.
pub fn make_row(
    iter: usize,
    commit7: String,
    metric_name: &str,
    metric_value: Scalar,
    baseline_value: Scalar,
    peak_mem_gb: PeakMem,
    decision: Option<KeepOrRevert>,
    crashed: bool,
    description: String,
) -> (row: AttemptRow)
    ensures
        row.iter == iter,
        row.commit7 == commit7,
        row.metric_name@ == metric_name@,
        row.metric_value == metric_value,
        row.baseline_value == baseline_value,
        row.peak_mem_gb == peak_mem_gb,
        row.status@ == status_text(decision, crashed),
        row.description == description,
        is_present(row.ts),
{
    let ts: u64 = now_ts();
    row_at(
        iter,
        commit7,
        metric_name,
        metric_value,
        baseline_value,
        peak_mem_gb,
        decision,
        crashed,
        description,
        ts,
    )
}

/// The short hashes of the kept attempts among `rows`, in order.
pub open spec fn kept_hashes(rows: Seq<AttemptRow>) -> Seq<Seq<char>>
    decreases rows.len(),
{
    if rows.len() == 0 {
        Seq::empty()
    } else if rows.last().kept() {
        kept_hashes(rows.drop_last()).push(rows.last().commit7@)
    } else {
        kept_hashes(rows.drop_last())
    }
}

/// The last `n` rows, or all of them where there are fewer.
pub open spec fn latest(rows: Seq<AttemptRow>, n: nat) -> Seq<AttemptRow> {
    if rows.len() <= n {
        rows
    } else {
        rows.skip(rows.len() - n)
    }
}

/// The attempt log: every attempt in order, and the file that it is also written to, if any.
pub struct AttemptLog {
    rows: Vec<AttemptRow>,
    path: Option<String>,
}

impl View for AttemptLog {
    type V = Seq<AttemptRow>;

    closed spec fn view(&self) -> Seq<AttemptRow> {
        self.rows@
    }
}

impl AttemptLog {
    /// The path of the file that every row is also appended to.
    pub closed spec fn file(&self) -> Option<Seq<char>> {
        match self.path {
            Some(p) => Some(p@),
            None => None,
        }
    }

    pub fn new() -> (log: AttemptLog)
        ensures
            log@ == Seq::<AttemptRow>::empty(),
            log.file() is None,
    {
        AttemptLog { rows: Vec::new(), path: None }
    }

    /// A log whose rows are also appended to a file.
    pub fn with_file(path: &str) -> (log: AttemptLog)
        ensures
            log@ == Seq::<AttemptRow>::empty(),
            log.file() == Some(path@),
    {
        AttemptLog { rows: Vec::new(), path: Some(path.to_owned()) }
    }

    /// The path of the file that every row is also appended to.
    pub fn file_path(&self) -> (r: Option<&str>)
        ensures
            match r {
                Some(p) => self.file() == Some(p@),
                None => self.file() is None,
            },
    {
        match &self.path {
            Some(p) => Some(p.as_str()),
            None => None,
        }
    }

    /// Appends a row. Whoever holds the log writes it to the file, if there is one.
    pub fn append(&mut self, row: AttemptRow)
        ensures
            final(self)@ == old(self)@.push(row),
            final(self).file() == old(self).file(),
    {
        self.rows.push(row);
    }

    /// The most recent `n` rows, newest last.
    pub fn recent(&self, n: usize) -> (r: &[AttemptRow])
        ensures
            r@ == latest(self@, n as nat),
    {
        let len: usize = self.rows.len();
        let start: usize = if n < len {
            len - n
        } else {
            0
        };
        let r = vstd::slice::slice_subrange(self.rows.as_slice(), start, len);
        assert(r@ == latest(self@, n as nat));
        r
    }

    pub fn all(&self) -> (r: &[AttemptRow])
        ensures
            r@ == self@,
    {
        self.rows.as_slice()
    }

    pub fn len(&self) -> (n: usize)
        ensures
            n == self@.len(),
    {
        self.rows.len()
    }

    pub fn is_empty(&self) -> (r: bool)
        ensures
            r == (self@.len() == 0),
    {
        self.rows.len() == 0
    }

    /// The number of kept attempts.
    pub fn n_kept(&self) -> (n: usize)
        ensures
            n == kept_hashes(self@).len(),
    {
        let mut n: usize = 0;
        let mut i: usize = 0;
        assert(self@.take(0) == Seq::<AttemptRow>::empty());
        while i < self.rows.len()
            invariant
                n <= i <= self.rows@.len(),
                self@ == self.rows@,
                n == kept_hashes(self@.take(i as int)).len(),
            decreases self.rows@.len() - i,
        {
            assert(self@.take(i + 1).drop_last() == self@.take(i as int));
            assert(self@.take(i + 1).last() == self.rows@[i as int]);
            if crate::text::same_text(self.rows[i].status.as_str(), "keep") {
                n += 1;
            }
            i += 1;
        }
        assert(self@.take(i as int) == self@);
        n
    }
}

impl Default for AttemptLog {
    fn default() -> (log: AttemptLog)
        ensures
            log@ == Seq::<AttemptRow>::empty(),
            log.file() is None,
    {
        AttemptLog::new()
    }
}

/// The keep-or-revert store of candidates.
pub trait Ratchet: Send + Sized {
    /// The short hashes of the kept commits, in order. The default is one fixed value, for
    /// ratchets that are not verified; a verified one defines it, or its `apply` cannot grow it.
    open spec fn kept(&self) -> Seq<Seq<char>> {
        arbitrary()
    }

    /// The short hash of the last candidate that was committed. The default is one fixed value,
    /// for ratchets that are not verified; a verified one defines it.
    open spec fn head(&self) -> Seq<char> {
        arbitrary()
    }

    /// Can committing `message` give this hash and leave the ratchet as `after`?
    open spec fn may_commit(&self, message: Seq<char>, hash: Seq<char>, after: &Self) -> bool {
        true
    }

    /// Can applying `decision` give this answer and leave the ratchet as `after`?
    open spec fn may_apply(&self, decision: KeepOrRevert, ok: bool, after: &Self) -> bool {
        true
    }

    /// Commits the current candidate and returns its short hash.
    fn commit_candidate(&mut self, message: &str) -> (hash: String)
        ensures
            old(self).may_commit(message@, hash@, final(self)),
            final(self).head() == hash@,
            final(self).kept() == old(self).kept(),
    ;

    /// Applies the decision on the last candidate: a keep leaves its commit, a revert drops it.
    /// Says whether that worked.
    fn apply(&mut self, decision: KeepOrRevert) -> (ok: bool)
        ensures
            old(self).may_apply(decision, ok, final(self)),
            final(self).kept() == (if decision is Keep {
                old(self).kept().push(old(self).head())
            } else {
                old(self).kept()
            }),
    ;

    /// The short hashes of the kept commits, in order.
    fn kept_history(&self) -> (r: Vec<String>)
        ensures
            crate::text::texts(r@) == self.kept(),
    ;
}

fn copy_texts(v: &Vec<String>) -> (r: Vec<String>)
    ensures
        r@ == v@,
{
    let mut r: Vec<String> = Vec::new();
    let mut i: usize = 0;
    while i < v.len()
        invariant
            i <= v@.len(),
            r@ == v@.take(i as int),
        decreases v@.len() - i,
    {
        r.push(v[i].clone());
        i += 1;
    }
    assert(v@.take(i as int) == v@);
    r
}

/// The hash of a ratchet that has committed nothing yet, or that cannot tell.
pub open spec fn no_hash() -> Seq<char> {
    "-------"@
}

/// A ratchet for in-memory runs. Its hashes are numbers in hexadecimal, counted up.
pub struct NoopRatchet {
    counter: u64,
    last: String,
    kept: Vec<String>,
}

impl NoopRatchet {
    /// The number of candidates committed so far, modulo two to the power of 64.
    pub closed spec fn count(&self) -> u64 {
        self.counter
    }

    pub fn new() -> (r: NoopRatchet)
        ensures
            r.count() == 0,
            r.head() == no_hash(),
            r.kept() == Seq::<Seq<char>>::empty(),
    {
        let r = NoopRatchet { counter: 0, last: "-------".to_owned(), kept: Vec::new() };
        assert(r.kept() == Seq::<Seq<char>>::empty());
        r
    }
}

impl Default for NoopRatchet {
    fn default() -> (r: NoopRatchet)
        ensures
            r.count() == 0,
            r.head() == no_hash(),
            r.kept() == Seq::<Seq<char>>::empty(),
    {
        NoopRatchet::new()
    }
}

/// The synthetic hash of the commit with number `n`: its low seven hexadecimal digits.
pub open spec fn synthetic_hash(n: nat) -> Seq<char> {
    crate::text::hex_text(n, 7)
}

impl Ratchet for NoopRatchet {
    closed spec fn kept(&self) -> Seq<Seq<char>> {
        crate::text::texts(self.kept@)
    }

    closed spec fn head(&self) -> Seq<char> {
        self.last@
    }

    open spec fn may_commit(&self, message: Seq<char>, hash: Seq<char>, after: &Self) -> bool {
        &&& after.count() == if self.count() == u64::MAX {
            0
        } else {
            self.count() + 1
        }
        &&& hash == synthetic_hash(after.count() as nat)
    }

    open spec fn may_apply(&self, decision: KeepOrRevert, ok: bool, after: &Self) -> bool {
        &&& ok
        &&& after.count() == self.count()
        &&& after.head() == self.head()
    }

    fn commit_candidate(&mut self, message: &str) -> (hash: String) {
        self.counter = self.counter.wrapping_add(1);
        self.last = hex(self.counter, 7);
        self.last.clone()
    }

    fn apply(&mut self, decision: KeepOrRevert) -> (ok: bool) {
        if decision.is_keep() {
            self.kept.push(self.last.clone());
            assert(crate::text::texts(self.kept@) == crate::text::texts(old(self).kept@).push(
                old(self).last@,
            ));
        }
        true
    }

    fn kept_history(&self) -> (r: Vec<String>) {
        copy_texts(&self.kept)
    }
}

/// Synthetic hashes are seven characters long, and those of two commits less than two to the
/// power of 28 apart differ.
pub proof fn law_synthetic_hashes_differ(a: nat, b: nat)
    requires
        a < b < a + 0x1000_0000,
    ensures
        synthetic_hash(a).len() == 7,
        synthetic_hash(a) != synthetic_hash(b),
{
    crate::text::lemma_hex_text_len(a, 7);
    assert(vstd::arithmetic::power::pow(16, 7) == 0x1000_0000) by {
        reveal_with_fuel(vstd::arithmetic::power::pow, 8);
    }
    if synthetic_hash(a) == synthetic_hash(b) {
        let k = crate::text::lemma_hex_text_tells_apart(b, a, 7);
        assert(false) by (nonlinear_arith)
            requires
                b - a == k * 0x1000_0000,
                0 < b - a < 0x1000_0000,
        ;
    }
}

/// The arguments `add -A`, which stages everything.
pub open spec fn stage_args() -> Seq<Seq<char>> {
    seq!["add"@, "-A"@]
}

/// The arguments that commit what is staged under `message`, even where nothing changed.
pub open spec fn commit_args(message: Seq<char>) -> Seq<Seq<char>> {
    seq!["commit"@, "--allow-empty"@, "-m"@, message]
}

/// The arguments that print the short hash of the current commit.
pub open spec fn head_args() -> Seq<Seq<char>> {
    seq!["rev-parse"@, "--short=7"@, "HEAD"@]
}

/// The arguments that drop the current commit together with its tree.
pub open spec fn reset_args() -> Seq<Seq<char>> {
    seq!["reset"@, "--hard"@, "HEAD~1"@]
}

/// The arguments that ask whether a directory belongs to a work tree.
pub open spec fn work_tree_args() -> Seq<Seq<char>> {
    seq!["rev-parse"@, "--is-inside-work-tree"@]
}

fn stage_command() -> (r: Vec<String>)
    ensures
        crate::text::texts(r@) == stage_args(),
{
    let mut r: Vec<String> = Vec::new();
    r.push("add".to_owned());
    r.push("-A".to_owned());
    assert(crate::text::texts(r@) == stage_args());
    r
}

fn commit_command(message: &str) -> (r: Vec<String>)
    ensures
        crate::text::texts(r@) == commit_args(message@),
{
    let mut r: Vec<String> = Vec::new();
    r.push("commit".to_owned());
    r.push("--allow-empty".to_owned());
    r.push("-m".to_owned());
    r.push(message.to_owned());
    assert(crate::text::texts(r@) == commit_args(message@));
    r
}

fn head_command() -> (r: Vec<String>)
    ensures
        crate::text::texts(r@) == head_args(),
{
    let mut r: Vec<String> = Vec::new();
    r.push("rev-parse".to_owned());
    r.push("--short=7".to_owned());
    r.push("HEAD".to_owned());
    assert(crate::text::texts(r@) == head_args());
    r
}

fn reset_command() -> (r: Vec<String>)
    ensures
        crate::text::texts(r@) == reset_args(),
{
    let mut r: Vec<String> = Vec::new();
    r.push("reset".to_owned());
    r.push("--hard".to_owned());
    r.push("HEAD~1".to_owned());
    assert(crate::text::texts(r@) == reset_args());
    r
}

fn work_tree_command() -> (r: Vec<String>)
    ensures
        crate::text::texts(r@) == work_tree_args(),
{
    let mut r: Vec<String> = Vec::new();
    r.push("rev-parse".to_owned());
    r.push("--is-inside-work-tree".to_owned());
    assert(crate::text::texts(r@) == work_tree_args());
    r
}

/// The ratchet over a git work tree: each candidate is a commit, a keep leaves it, a revert
/// resets to the one before. Where the commit did not succeed there is nothing to reset.
pub struct GitRatchet<G: GitRunner> {
    git: Git<G>,
    repo: String,
    kept: Vec<String>,
    last: String,
    fresh: bool,
}

impl<G: GitRunner> GitRatchet<G> {
    /// Who runs the commands.
    pub closed spec fn operator(&self) -> G {
        self.git.operator()
    }

    /// Every command that ran, in order.
    pub closed spec fn ran(&self) -> Seq<GitCall> {
        self.git.ran()
    }

    /// The path of the work tree.
    pub closed spec fn work_tree(&self) -> Seq<char> {
        self.repo@
    }

    /// Did the last commit succeed, with no decision on it yet?
    pub closed spec fn undecided(&self) -> bool {
        self.fresh
    }

    pub fn new(git: Git<G>, repo: &str) -> (r: GitRatchet<G>)
        ensures
            r.operator() == git.operator(),
            r.ran() == git.ran(),
            r.work_tree() == repo@,
            r.kept() == Seq::<Seq<char>>::empty(),
            r.head() == no_hash(),
            !r.undecided(),
    {
        let r = GitRatchet {
            git,
            repo: repo.to_owned(),
            kept: Vec::new(),
            last: "-------".to_owned(),
            fresh: false,
        };
        assert(r.kept() == Seq::<Seq<char>>::empty());
        r
    }
}

impl<G: GitRunner> Ratchet for GitRatchet<G> {
    closed spec fn kept(&self) -> Seq<Seq<char>> {
        crate::text::texts(self.kept@)
    }

    closed spec fn head(&self) -> Seq<char> {
        self.last@
    }

    /// Three commands run, in this order and no others: everything is staged, it is committed
    /// under the message, and git is asked for the current commit, whose hash is given, seven
    /// dashes where git does not tell.
    open spec fn may_commit(&self, message: Seq<char>, hash: Seq<char>, after: &Self) -> bool {
        let n = self.ran().len() as int;
        let staged = after.ran()[n];
        let committed = after.ran()[n + 1];
        let asked = after.ran()[n + 2];
        &&& after.operator() == self.operator()
        &&& after.work_tree() == self.work_tree()
        &&& after.ran() == self.ran() + seq![staged, committed, asked]
        &&& staged == crate::git::called(self.work_tree(), stage_args(), staged.answer)
        &&& committed == crate::git::called(
            self.work_tree(),
            commit_args(message),
            committed.answer,
        )
        &&& asked == crate::git::called(self.work_tree(), head_args(), asked.answer)
        &&& staged.comes_from(&self.operator())
        &&& committed.comes_from(&self.operator())
        &&& asked.comes_from(&self.operator())
        &&& after.undecided() == (committed.answer is Some)
        &&& hash == (match asked.answer {
            Some(h) => h,
            None => no_hash(),
        })
    }

    /// A keep runs nothing and works. A revert of a commit runs one reset and works where that
    /// does; where there is no commit to drop it runs nothing and works.
    open spec fn may_apply(&self, decision: KeepOrRevert, ok: bool, after: &Self) -> bool {
        &&& after.operator() == self.operator()
        &&& after.work_tree() == self.work_tree()
        &&& after.head() == self.head()
        &&& !after.undecided()
        &&& if decision is Revert && self.undecided() {
            let reset = after.ran()[self.ran().len() as int];
            &&& after.ran() == self.ran().push(reset)
            &&& reset == crate::git::called(self.work_tree(), reset_args(), reset.answer)
            &&& reset.comes_from(&self.operator())
            &&& ok == (reset.answer is Some)
        } else {
            ok && after.ran() == self.ran()
        }
    }

    fn commit_candidate(&mut self, message: &str) -> (hash: String) {
        let _ = self.git.run(self.repo.as_str(), stage_command());
        let ghost staged = self.git.ran().last();
        let made = self.git.run(self.repo.as_str(), commit_command(message));
        let ghost committed = self.git.ran().last();
        self.fresh = made.is_some();
        let told = self.git.run(self.repo.as_str(), head_command());
        let ghost asked = self.git.ran().last();
        assert(self.git.ran() == old(self).git.ran() + seq![staged, committed, asked]);
        self.last = match told {
            Some(hash) => hash,
            None => "-------".to_owned(),
        };
        self.last.clone()
    }

    fn apply(&mut self, decision: KeepOrRevert) -> (ok: bool) {
        let made: bool = self.fresh;
        self.fresh = false;
        match decision {
            KeepOrRevert::Keep => {
                self.kept.push(self.last.clone());
                assert(crate::text::texts(self.kept@) == crate::text::texts(old(self).kept@).push(
                    old(self).last@,
                ));
                true
            },
            KeepOrRevert::Revert => {
                if made {
                    self.git.run(self.repo.as_str(), reset_command()).is_some()
                } else {
                    true
                }
            },
        }
    }

    fn kept_history(&self) -> (r: Vec<String>) {
        copy_texts(&self.kept)
    }
}

/// Does `path` belong to a git work tree that one can ratchet on? One command runs, which git
/// answers with `true` there.
pub fn is_git_repo<G: GitRunner>(git: &mut Git<G>, path: &str) -> (r: bool)
    ensures
        ({
            let asked = final(git).ran().last();
            &&& final(git).operator() == old(git).operator()
            &&& final(git).ran() == old(git).ran().push(asked)
            &&& asked == crate::git::called(path@, work_tree_args(), asked.answer)
            &&& asked.comes_from(&old(git).operator())
            &&& r == (asked.answer == Some("true"@))
        }),
{
    match git.run(path, work_tree_command()) {
        Some(told) => same_text(told.as_str(), "true"),
        None => false,
    }
}

/// The commits that a record of commands leaves on the branch beyond those that were there
/// before, each by its place in the record: a commit that succeeds puts one on top, and a reset
/// that succeeds takes the topmost away.
pub open spec fn branch(calls: Seq<GitCall>) -> Seq<int>
    decreases calls.len(),
{
    if calls.len() == 0 {
        Seq::empty()
    } else {
        let before = branch(calls.drop_last());
        let call = calls.last();
        if call.answer is None || call.args.len() < 3 {
            before
        } else if call.args[2] == "commit"@ {
            before.push(calls.len() - 1)
        } else if call.args[2] == "reset"@ {
            before.drop_last()
        } else {
            before
        }
    }
}

proof fn lemma_commands_differ(path: Seq<char>, message: Seq<char>)
    ensures
        crate::git::arguments(path, stage_args()).len() >= 3,
        crate::git::arguments(path, stage_args())[2] == "add"@,
        crate::git::arguments(path, commit_args(message)).len() >= 3,
        crate::git::arguments(path, commit_args(message))[2] == "commit"@,
        crate::git::arguments(path, head_args()).len() >= 3,
        crate::git::arguments(path, head_args())[2] == "rev-parse"@,
        crate::git::arguments(path, reset_args()).len() >= 3,
        crate::git::arguments(path, reset_args())[2] == "reset"@,
        "add"@ != "commit"@,
        "add"@ != "reset"@,
        "rev-parse"@ != "commit"@,
        "rev-parse"@ != "reset"@,
        "reset"@ != "commit"@,
{
    reveal_strlit("add");
    reveal_strlit("commit");
    reveal_strlit("rev-parse");
    reveal_strlit("reset");
    assert("add"@[0] != "commit"@[0]);
    assert("add"@[0] != "reset"@[0]);
    assert("rev-parse"@[0] != "commit"@[0]);
    assert("rev-parse"@[2] != "reset"@[2]);
    assert("reset"@[0] != "commit"@[0]);
}

/// A revert undoes its commit, and a keep leaves it: a candidate that is committed and then
/// decided upon puts one commit on the branch where it was committed and kept, and where it was
/// reverted, and the reset worked, the branch is what it was before. Where the commit did not
/// succeed nothing is taken away, whatever the decision.
pub proof fn law_revert_undoes_the_commit<G: GitRunner>(
    before: GitRatchet<G>,
    message: Seq<char>,
    hash: Seq<char>,
    mid: GitRatchet<G>,
    decision: KeepOrRevert,
    ok: bool,
    after: GitRatchet<G>,
)
    requires
        before.may_commit(message, hash, &mid),
        mid.may_apply(decision, ok, &after),
    ensures
        branch(after.ran()) == (if mid.undecided() && (decision is Keep || !ok) {
            branch(before.ran()).push(before.ran().len() as int + 1)
        } else {
            branch(before.ran())
        }),
{
    lemma_commands_differ(before.work_tree(), message);
    let n = before.ran().len() as int;
    let all = mid.ran();
    assert(all.drop_last().drop_last().drop_last() == before.ran());
    assert(all.drop_last().drop_last().last() == all[n]);
    assert(all.drop_last().last() == all[n + 1]);
    assert(all.last() == all[n + 2]);
    reveal_with_fuel(branch, 5);
    if decision is Revert && mid.undecided() {
        assert(after.ran().drop_last() == all);
        assert(branch(before.ran()).push(n + 1).drop_last() == branch(before.ran()));
    }
}

} // verus!
