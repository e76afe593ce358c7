//! The mutation operator: from the baseline and the recent attempts to one candidate.
use vstd::prelude::*;

use crate::arithmetic::Arithmetic;
use crate::attempt_log::AttemptRow;
use crate::evaluator::Artifact;
use crate::rng::{next_unit, path_seed};
use crate::scalar::{Scalar, ONE, SIGN, TWO};
use crate::text::{decimal, join};

verus! {

/// One proposed candidate: the mutated artifact and a description for the log.
#[derive(Debug)]
pub struct Candidate {
    pub artifact: Artifact,
    pub description: String,
}

/// Copies the knobs of an artifact.
pub fn copy_knobs(knobs: &[Scalar]) -> (r: Artifact)
    ensures
        r@ == knobs@,
{
    vstd::slice::slice_to_vec(knobs)
}

impl Clone for Candidate {
    fn clone(&self) -> (r: Candidate)
        ensures
            r.artifact@ == self.artifact@,
            r.description@ == self.description@,
    {
        Candidate {
            artifact: copy_knobs(self.artifact.as_slice()),
            description: self.description.clone(),
        }
    }
}

/// The mutation operator. It reads the baseline and the recent history and returns one
/// candidate; `n` is the iteration index. It has no access to the evaluator.
pub trait Proposer: Send + Sync {
    /// Can this candidate come back from these inputs? A proposer that is not verified says
    /// nothing here.
    open spec fn may_propose(
        &self,
        baseline: Seq<Scalar>,
        history: Seq<AttemptRow>,
        n: nat,
        candidate: Candidate,
    ) -> bool {
        true
    }

    fn propose(&self, baseline: &Artifact, history: &[AttemptRow], n: usize) -> (c: Candidate)
        ensures
            self.may_propose(baseline@, history@, n as nat, c),
    ;

    fn name(&self) -> (r: &str)
        default_ensures
            r@ == "proposer"@,
    {
        "proposer"
    }
}

/// The bits of ten, the default bound of a knob.
pub const TEN: u64 = 0x4024_0000_0000_0000;

/// The bits of two to the power of 53.
pub const FRACTIONS: u64 = 0x4340_0000_0000_0000;

/// Can a draw come out as `r`, between minus one and one? `numerator` counts it in fractions of
/// two to the power of minus 53.
pub open spec fn is_swing<A: Arithmetic>(ops: &A, numerator: u64, r: Scalar) -> bool {
    exists|whole: Scalar, unit: Scalar, twice: Scalar|
        {
            &&& crate::arithmetic::counts(ops, numerator as nat, whole)
            &&& #[trigger] crate::arithmetic::divides(
                ops,
                whole,
                Scalar { bits: FRACTIONS },
                unit,
            )
            &&& #[trigger] crate::arithmetic::multiplies(ops, unit, Scalar { bits: TWO }, twice)
            &&& crate::arithmetic::subtracts(ops, twice, Scalar { bits: ONE }, r)
        }
}

fn swing<A: Arithmetic>(ops: &A, numerator: u64) -> (r: Scalar)
    ensures
        is_swing(ops, numerator, r),
{
    let whole = ops.whole(numerator);
    let unit = ops.over(whole, Scalar::from_bits(FRACTIONS));
    let twice = ops.times(unit, Scalar::from_bits(TWO));
    let r = ops.minus(twice, Scalar::from_bits(ONE));
    proof {
        assert(crate::arithmetic::counts(ops, numerator as nat, whole));
        assert(crate::arithmetic::divides(ops, whole, Scalar { bits: FRACTIONS }, unit));
        assert(crate::arithmetic::multiplies(ops, unit, Scalar { bits: TWO }, twice));
        assert(crate::arithmetic::subtracts(ops, twice, Scalar { bits: ONE }, r));
    }
    r
}

/// A reproducible local search: every knob moves by a step drawn uniformly between `-step` and
/// `step` and is then confined to the box from `lo` to `hi`. Iteration `n` draws from a stream
/// of its own.
pub struct LocalProposer<A: Arithmetic> {
    ops: A,
    step: Scalar,
    base_seed: u64,
    lo: Scalar,
    hi: Scalar,
}

impl<A: Arithmetic> LocalProposer<A> {
    pub closed spec fn arithmetic(&self) -> A {
        self.ops
    }

    pub closed spec fn reach(&self) -> Scalar {
        self.step
    }

    pub closed spec fn seed(&self) -> u64 {
        self.base_seed
    }

    pub closed spec fn lower(&self) -> Scalar {
        self.lo
    }

    pub closed spec fn upper(&self) -> Scalar {
        self.hi
    }

    /// The bounds make a box.
    #[verifier::type_invariant]
    closed spec fn boxed(&self) -> bool {
        self.lo@.le(self.hi@)
    }

    /// Searches the box from minus ten to ten.
    pub fn new(ops: A, step: Scalar, base_seed: u64) -> (p: LocalProposer<A>)
        ensures
            p.arithmetic() == ops,
            p.reach() == step,
            p.seed() == base_seed,
            p.lower().bits == TEN + SIGN,
            p.upper().bits == TEN,
    {
        let lo = Scalar::from_bits(TEN + SIGN);
        let hi = Scalar::from_bits(TEN);
        proof {
            crate::scalar::lemma_place_orders(lo, hi);
        }
        LocalProposer { ops, step, base_seed, lo, hi }
    }

    /// Searches the box from `lo` to `hi`.
    pub fn with_bounds(self, lo: Scalar, hi: Scalar) -> (p: LocalProposer<A>)
        requires
            lo@.le(hi@),
        ensures
            p.arithmetic() == self.arithmetic(),
            p.reach() == self.reach(),
            p.seed() == self.seed(),
            p.lower() == lo,
            p.upper() == hi,
    {
        LocalProposer { ops: self.ops, step: self.step, base_seed: self.base_seed, lo, hi }
    }

    /// The largest step of a knob.
    pub fn step(&self) -> (r: Scalar)
        ensures
            r == self.reach(),
    {
        self.step
    }

    pub fn base_seed(&self) -> (r: u64)
        ensures
            r == self.seed(),
    {
        self.base_seed
    }

    /// The lower bound of every knob.
    pub fn lo(&self) -> (r: Scalar)
        ensures
            r == self.lower(),
    {
        self.lo
    }

    /// The upper bound of every knob.
    pub fn hi(&self) -> (r: Scalar)
        ensures
            r == self.upper(),
    {
        self.hi
    }

    /// Can knob number `i` go from `from` to `to` in iteration `n`?
    pub open spec fn may_move(&self, n: nat, i: int, from: Scalar, to: Scalar) -> bool {
        let draw = crate::rng::unit_draw(
            crate::rng::derived_seed(self.seed(), n as u64),
            i as nat,
        );
        exists|s: Scalar, delta: Scalar, moved: Scalar|
            {
                &&& is_swing(&self.arithmetic(), draw, s)
                &&& #[trigger] crate::arithmetic::multiplies(
                    &self.arithmetic(),
                    s,
                    self.reach(),
                    delta,
                )
                &&& #[trigger] crate::arithmetic::adds(&self.arithmetic(), from, delta, moved)
                &&& to == crate::scalar::clamped(moved, self.lower(), self.upper())
            }
    }

    /// Can the one knob that an empty baseline gets in iteration `n` be `to`?
    pub open spec fn may_begin(&self, n: nat, to: Scalar) -> bool {
        let draw = crate::rng::unit_draw(crate::rng::derived_seed(self.seed(), n as u64), 0);
        exists|s: Scalar|
            #![trigger is_swing(&self.arithmetic(), draw, s)]
            is_swing(&self.arithmetic(), draw, s) && to == crate::scalar::clamped(
                s,
                self.lower(),
                self.upper(),
            )
    }
}

impl<A: Arithmetic> Proposer for LocalProposer<A> {
    open spec fn may_propose(
        &self,
        baseline: Seq<Scalar>,
        history: Seq<AttemptRow>,
        n: nat,
        candidate: Candidate,
    ) -> bool {
        &&& if baseline.len() == 0 {
            candidate.artifact@.len() == 1 && self.may_begin(n, candidate.artifact@[0])
        } else {
            &&& candidate.artifact@.len() == baseline.len()
            &&& forall|i: int|
                0 <= i < baseline.len() ==> self.may_move(
                    n,
                    i,
                    baseline[i],
                    #[trigger] candidate.artifact@[i],
                )
        }
        &&& exists|shown: String| #[trigger]
            crate::arithmetic::shows(&self.arithmetic(), self.reach(), shown)
                && candidate.description@ == "local-perturb step="@ + shown@ + " iter="@
                + crate::text::decimal_text(n)
    }

    fn propose(&self, baseline: &Artifact, history: &[AttemptRow], n: usize) -> (c: Candidate) {
        proof {
            use_type_invariant(self);
        }
        let ops = &self.ops;
        let mut state: u64 = path_seed(self.base_seed, n);
        let ghost seed = state;
        assert(state == crate::rng::state_after(seed, 0));
        let mut artifact: Artifact = Vec::new();
        if baseline.len() == 0 {
            let draw: u64 = next_unit(&mut state);
            let s = swing(ops, draw);
            artifact.push(s.clamp(self.lo, self.hi));
            assert(is_swing(
                &self.arithmetic(),
                crate::rng::unit_draw(crate::rng::derived_seed(self.seed(), n as u64), 0),
                s,
            ));
            assert(self.may_begin(n as nat, artifact@[0]));
        } else {
            let mut i: usize = 0;
            while i < baseline.len()
                invariant
                    i <= baseline@.len(),
                    ops == self.arithmetic(),
                    self.lower()@.le(self.upper()@),
                    self.lo == self.lower(),
                    self.hi == self.upper(),
                    self.step == self.reach(),
                    seed == crate::rng::derived_seed(self.seed(), n as u64),
                    state == crate::rng::state_after(seed, i as nat),
                    artifact@.len() == i,
                    forall|j: int|
                        0 <= j < i ==> self.may_move(
                            n as nat,
                            j,
                            baseline@[j],
                            #[trigger] artifact@[j],
                        ),
                decreases baseline@.len() - i,
            {
                proof {
                    crate::rng::lemma_state_steps(seed, i as nat);
                }
                let draw: u64 = next_unit(&mut state);
                let s = swing(ops, draw);
                let delta = ops.times(s, self.step);
                let moved = ops.plus(baseline[i], delta);
                proof {
                    assert(crate::arithmetic::multiplies(
                        &self.arithmetic(),
                        s,
                        self.reach(),
                        delta,
                    ));
                    assert(crate::arithmetic::adds(
                        &self.arithmetic(),
                        baseline@[i as int],
                        delta,
                        moved,
                    ));
                }
                artifact.push(moved.clamp(self.lo, self.hi));
                i += 1;
            }
        }
        let shown = ops.three_places(self.step);
        assert(crate::arithmetic::shows(&self.arithmetic(), self.reach(), shown));
        let head = join("local-perturb step=".to_owned(), shown.as_str());
        let mid = join(head, " iter=");
        let number = decimal(n as u64);
        Candidate { artifact, description: join(mid, number.as_str()) }
    }

    fn name(&self) -> (r: &str)
        ensures
            r@ == "local_proposer"@,
    {
        "local_proposer"
    }
}

/// Every knob of a local perturbation lies in the proposer's box, unless it is NaN.
pub proof fn law_local_knobs_are_bounded<A: Arithmetic>(
    p: LocalProposer<A>,
    baseline: Seq<Scalar>,
    history: Seq<AttemptRow>,
    n: nat,
    c: Candidate,
    i: int,
)
    requires
        p.lower()@.le(p.upper()@),
        p.may_propose(baseline, history, n, c),
        0 <= i < c.artifact@.len(),
    ensures
        ({
            let knob = c.artifact@[i];
            knob@ is Nan || p.lower()@.le(knob@) && knob@.le(p.upper()@)
        }),
{
    let knob = c.artifact@[i];
    if baseline.len() == 0 {
        let draw = crate::rng::unit_draw(crate::rng::derived_seed(p.seed(), n as u64), 0);
        let s = choose|s: Scalar|
            #![trigger is_swing(&p.arithmetic(), draw, s)]
            is_swing(&p.arithmetic(), draw, s) && knob == crate::scalar::clamped(
                s,
                p.lower(),
                p.upper(),
            );
        crate::scalar::law_clamped_is_bounded(s, p.lower(), p.upper());
    } else {
        assert(p.may_move(n, i, baseline[i], knob));
        let (s, delta, moved) = choose|s: Scalar, delta: Scalar, moved: Scalar|
            {
                &&& #[trigger] crate::arithmetic::multiplies(
                    &p.arithmetic(),
                    s,
                    p.reach(),
                    delta,
                )
                &&& #[trigger] crate::arithmetic::adds(
                    &p.arithmetic(),
                    baseline[i],
                    delta,
                    moved,
                )
                &&& knob == crate::scalar::clamped(moved, p.lower(), p.upper())
            };
        crate::scalar::law_clamped_is_bounded(moved, p.lower(), p.upper());
    }
}

/// A draw lies between minus one and one where the arithmetic rounds faithfully.
proof fn lemma_swing_is_small<A: Arithmetic>(ops: &A, numerator: u64, r: Scalar)
    requires
        crate::arithmetic::faithful(ops),
        numerator < 0x20_0000_0000_0000,
        is_swing(ops, numerator, r),
    ensures
        r@.finite(),
        -crate::scalar::one() <= r@->Finite_0 <= crate::scalar::one(),
{
    let (whole, unit, twice) = choose|whole: Scalar, unit: Scalar, twice: Scalar|
        {
            &&& crate::arithmetic::counts(ops, numerator as nat, whole)
            &&& #[trigger] crate::arithmetic::divides(
                ops,
                whole,
                Scalar { bits: FRACTIONS },
                unit,
            )
            &&& #[trigger] crate::arithmetic::multiplies(ops, unit, Scalar { bits: TWO }, twice)
            &&& crate::arithmetic::subtracts(ops, twice, Scalar { bits: ONE }, r)
        };
    crate::scalar::lemma_powers_of_two();
    let one = crate::scalar::one();
    let none = Scalar { bits: 0 };
    let plus_one = Scalar { bits: ONE };
    let minus_one = Scalar { bits: (ONE + SIGN) as u64 };
    let two = Scalar { bits: TWO };
    let fractions = Scalar { bits: FRACTIONS };
    // The unit lies between zero and one.
    let w = whole@->Finite_0;
    let f = fractions@->Finite_0;
    assert(crate::arithmetic::rounding(w * one, f, unit@));
    assert(0 <= w * one <= one * f && 0 * f <= w * one && f > 0) by (nonlinear_arith)
        requires
            w == numerator * one,
            f == 0x20_0000_0000_0000 * one,
            0 <= numerator < 0x20_0000_0000_0000,
            one >= 1,
    ;
    assert(none@.le(unit@) && unit@.le(plus_one@));
    // Its double between zero and two.
    let u = unit@->Finite_0;
    assert(crate::arithmetic::rounding(u * (2 * one), one, twice@));
    assert(0 * one <= u * (2 * one) <= (2 * one) * one) by (nonlinear_arith)
        requires
            0 <= u <= one,
            one >= 1,
    ;
    assert(none@.le(twice@) && twice@.le(two@));
    // And that less one between minus one and one.
    assert(crate::arithmetic::rounding(twice@->Finite_0 - one, 1, r@));
    assert(minus_one@.le(r@) && r@.le(plus_one@));
}

/// Where the arithmetic rounds faithfully, every knob of a local perturbation of finite knobs by a
/// finite step lies in the proposer's box, and there are as many knobs as before, one where there
/// was none.
pub proof fn law_local_knobs_stay_in_the_box<A: Arithmetic>(
    p: LocalProposer<A>,
    baseline: Seq<Scalar>,
    history: Seq<AttemptRow>,
    n: nat,
    c: Candidate,
    i: int,
)
    requires
        p.lower()@.le(p.upper()@),
        crate::arithmetic::faithful(&p.arithmetic()),
        p.reach()@.finite(),
        forall|k: int| 0 <= k < baseline.len() ==> (#[trigger] baseline[k])@.finite(),
        p.may_propose(baseline, history, n, c),
        0 <= i < c.artifact@.len(),
    ensures
        c.artifact@.len() == (if baseline.len() == 0 {
            1
        } else {
            baseline.len()
        }),
        p.lower()@.le(c.artifact@[i]@),
        c.artifact@[i]@.le(p.upper()@),
{
    let knob = c.artifact@[i];
    let seed = crate::rng::derived_seed(p.seed(), n as u64);
    let draw = crate::rng::unit_draw(seed, i as nat);
    crate::rng::lemma_draws_are_fractions(seed, i as nat);
    if baseline.len() == 0 {
        let s = choose|s: Scalar|
            #![trigger is_swing(&p.arithmetic(), draw, s)]
            is_swing(&p.arithmetic(), draw, s) && knob == crate::scalar::clamped(
                s,
                p.lower(),
                p.upper(),
            );
        lemma_swing_is_small(&p.arithmetic(), draw, s);
    } else {
        assert(p.may_move(n, i, baseline[i], knob));
        let (s, delta, moved) = choose|s: Scalar, delta: Scalar, moved: Scalar|
            {
                &&& is_swing(&p.arithmetic(), draw, s)
                &&& #[trigger] crate::arithmetic::multiplies(
                    &p.arithmetic(),
                    s,
                    p.reach(),
                    delta,
                )
                &&& #[trigger] crate::arithmetic::adds(
                    &p.arithmetic(),
                    baseline[i],
                    delta,
                    moved,
                )
                &&& knob == crate::scalar::clamped(moved, p.lower(), p.upper())
            };
        lemma_swing_is_small(&p.arithmetic(), draw, s);
        lemma_delta_is_small(&p.arithmetic(), s, p.reach(), delta);
    }
}

/// A step times a draw is no larger than the step.
proof fn lemma_delta_is_small<A: Arithmetic>(ops: &A, s: Scalar, step: Scalar, delta: Scalar)
    requires
        crate::arithmetic::faithful(ops),
        s@.finite(),
        -crate::scalar::one() <= s@->Finite_0 <= crate::scalar::one(),
        step@.finite(),
        crate::arithmetic::multiplies(ops, s, step, delta),
    ensures
        delta@.finite(),
        step@->Finite_0 >= 0 ==> -step@->Finite_0 <= delta@->Finite_0 <= step@->Finite_0,
{
    let one = crate::scalar::one();
    let x = s@->Finite_0;
    let y = step@->Finite_0;
    let back = crate::scalar::negated(step);
    crate::scalar::lemma_powers_of_two();
    crate::scalar::lemma_negated_is_opposite(step);
    assert(crate::arithmetic::rounding(x * y, one, delta@));
    if y >= 0 {
        assert(-y * one <= x * y <= y * one) by (nonlinear_arith)
            requires
                -one <= x <= one,
                y >= 0,
        ;
        assert(back@.le(delta@) && delta@.le(step@));
    } else {
        assert(y * one <= x * y <= -y * one) by (nonlinear_arith)
            requires
                -one <= x <= one,
                y < 0,
        ;
        assert(step@.le(delta@) && delta@.le(back@));
    }
}

/// Every knob moves by a step at most: where the arithmetic rounds faithfully and the knob lies
/// in the box, its new value lies between the old one less the step and the old one plus the
/// step, as that arithmetic computes them, and in the box.
pub proof fn law_local_knobs_move_by_a_step<A: Arithmetic>(
    p: LocalProposer<A>,
    baseline: Seq<Scalar>,
    history: Seq<AttemptRow>,
    n: nat,
    c: Candidate,
    i: int,
    least: Scalar,
    most: Scalar,
)
    requires
        crate::arithmetic::faithful(&p.arithmetic()),
        p.reach()@.finite(),
        crate::scalar::zero().le(p.reach()@),
        p.may_propose(baseline, history, n, c),
        0 <= i < baseline.len(),
        baseline[i]@.finite(),
        p.lower()@.le(baseline[i]@),
        baseline[i]@.le(p.upper()@),
        crate::arithmetic::subtracts(&p.arithmetic(), baseline[i], p.reach(), least),
        crate::arithmetic::adds(&p.arithmetic(), baseline[i], p.reach(), most),
    ensures
        least@.le(c.artifact@[i]@),
        c.artifact@[i]@.le(most@),
        p.lower()@.le(c.artifact@[i]@),
        c.artifact@[i]@.le(p.upper()@),
{
    let ops = p.arithmetic();
    let knob = c.artifact@[i];
    let from = baseline[i];
    let seed = crate::rng::derived_seed(p.seed(), n as u64);
    let draw = crate::rng::unit_draw(seed, i as nat);
    crate::rng::lemma_draws_are_fractions(seed, i as nat);
    assert(p.may_move(n, i, from, knob));
    let (s, delta, moved) = choose|s: Scalar, delta: Scalar, moved: Scalar|
        {
            &&& is_swing(&ops, draw, s)
            &&& #[trigger] crate::arithmetic::multiplies(&ops, s, p.reach(), delta)
            &&& #[trigger] crate::arithmetic::adds(&ops, from, delta, moved)
            &&& knob == crate::scalar::clamped(moved, p.lower(), p.upper())
        };
    lemma_swing_is_small(&ops, draw, s);
    lemma_delta_is_small(&ops, s, p.reach(), delta);
    assert(least@.le(moved@) && moved@.le(most@));
    let x = from@->Finite_0;
    let y = p.reach()@->Finite_0;
    assert(crate::arithmetic::rounding(x + y, 1, most@));
    assert(crate::arithmetic::rounding(x - y, 1, least@));
    assert(x * 1 == x);
    assert(from@.le(most@) && least@.le(from@));
}

proof fn lemma_swing_is_unique<A: Arithmetic>(ops: &A, numerator: u64, r: Scalar, s: Scalar)
    requires
        crate::arithmetic::reproducible(ops),
        is_swing(ops, numerator, r),
        is_swing(ops, numerator, s),
    ensures
        r == s,
{
}

/// A local perturbation depends on the seed, the baseline and the iteration alone: with a
/// reproducible arithmetic it is the same candidate whatever the history.
pub proof fn law_local_proposals_are_reproducible<A: Arithmetic>(
    p: LocalProposer<A>,
    baseline: Seq<Scalar>,
    history: Seq<AttemptRow>,
    other: Seq<AttemptRow>,
    n: nat,
    a: Candidate,
    b: Candidate,
)
    requires
        crate::arithmetic::reproducible(&p.arithmetic()),
        p.may_propose(baseline, history, n, a),
        p.may_propose(baseline, other, n, b),
    ensures
        a.artifact@ == b.artifact@,
        a.description@ == b.description@,
{
    let ops = p.arithmetic();
    let seed = crate::rng::derived_seed(p.seed(), n as u64);
    assert(a.artifact@.len() == b.artifact@.len());
    assert forall|i: int| 0 <= i < a.artifact@.len() implies a.artifact@[i] == b.artifact@[i] by {
        let draw = crate::rng::unit_draw(seed, i as nat);
        assert forall|r: Scalar, s: Scalar| #[trigger]
            is_swing(&ops, draw, r) && #[trigger] is_swing(&ops, draw, s) implies r == s by {
            lemma_swing_is_unique(&ops, draw, r, s);
        }
        if baseline.len() > 0 {
            assert(p.may_move(n, i, baseline[i], a.artifact@[i]));
            assert(p.may_move(n, i, baseline[i], b.artifact@[i]));
        }
    }
}

/// Two local proposers with the same arithmetic, step, seed and box are the same.
pub proof fn lemma_same_search<A: Arithmetic>(p: LocalProposer<A>, q: LocalProposer<A>)
    requires
        p.arithmetic() == q.arithmetic(),
        p.reach() == q.reach(),
        p.seed() == q.seed(),
        p.lower() == q.lower(),
        p.upper() == q.upper(),
    ensures
        p == q,
{
}

/// A fixed list of variations, replayed in order and then from the start again.
pub struct VariationProposer {
    pub variations: Vec<Artifact>,
}

impl VariationProposer {
    pub fn new(variations: Vec<Artifact>) -> (p: VariationProposer)
        ensures
            p.variations == variations,
    {
        VariationProposer { variations }
    }
}

impl Proposer for VariationProposer {
    open spec fn may_propose(
        &self,
        baseline: Seq<Scalar>,
        history: Seq<AttemptRow>,
        n: nat,
        candidate: Candidate,
    ) -> bool {
        if self.variations@.len() == 0 {
            &&& candidate.artifact@ == baseline
            &&& candidate.description@ == "no-op (empty variation list)"@
        } else {
            let turn = n % self.variations@.len();
            &&& candidate.artifact@ == self.variations@[turn as int]@
            &&& candidate.description@ == "variation["@ + crate::text::decimal_text(turn) + "]"@
        }
    }

    fn propose(&self, baseline: &Artifact, history: &[AttemptRow], n: usize) -> (c: Candidate) {
        if self.variations.len() == 0 {
            return Candidate {
                artifact: copy_knobs(baseline.as_slice()),
                description: "no-op (empty variation list)".to_owned(),
            };
        }
        let turn: usize = n % self.variations.len();
        let number = decimal(turn as u64);
        let head = join("variation[".to_owned(), number.as_str());
        Candidate {
            artifact: copy_knobs(self.variations[turn].as_slice()),
            description: join(head, "]"),
        }
    }

    fn name(&self) -> (r: &str)
        ensures
            r@ == "variation_proposer"@,
    {
        "variation_proposer"
    }
}

/// Variations cycle: two iterations a whole number of list lengths apart propose the same.
pub proof fn law_variations_cycle(
    p: VariationProposer,
    baseline: Seq<Scalar>,
    history: Seq<AttemptRow>,
    other_baseline: Seq<Scalar>,
    other_history: Seq<AttemptRow>,
    n: nat,
    rounds: nat,
    a: Candidate,
    b: Candidate,
)
    requires
        p.variations@.len() > 0,
        p.may_propose(baseline, history, n, a),
        p.may_propose(other_baseline, other_history, n + rounds * p.variations@.len(), b),
    ensures
        a.artifact@ == b.artifact@,
        a.description@ == b.description@,
{
    let len = p.variations@.len() as int;
    vstd::arithmetic::div_mod::lemma_mod_multiples_vanish(rounds as int, n as int, len);
    assert((len * rounds + n) % len == (n as int) % len);
    assert(len * rounds == rounds * len) by (nonlinear_arith);
}

} // verus!
