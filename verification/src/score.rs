use std::ops::{Add, AddAssign, Div, Mul, Neg, Sub};
use vstd::prelude::*;
use vstd::std_specs::convert::FromSpecImpl;
use vstd::std_specs::ops::{AddSpecImpl, DivSpecImpl, MulSpecImpl, NegSpecImpl, SubSpecImpl};

verus! {

/// The points of a turn, or of a single event of a turn: what was gained
/// (`add`) and what was lost (`sub`), kept apart for display.
#[derive(Copy, Clone, Debug, PartialEq, Eq, Structural)]
pub struct TurnScore {
    pub add: i16,
    pub sub: i16,
}

/// Whether `x` is a value of `i16`
pub open spec fn fits_i16(x: int) -> bool {
    i16::MIN <= x <= i16::MAX
}

/// The `TurnScore` that stands for `points` points: gains are added, losses
/// subtracted
pub open spec fn spec_from_points(points: i16) -> TurnScore {
    if points >= 0 {
        TurnScore::spec_new(points, 0)
    } else if points == i16::MIN {
        TurnScore::spec_new(0, i16::MIN)
    } else {
        TurnScore::spec_new(0, (-points) as i16)
    }
}

impl TurnScore {
    pub open spec fn spec_new(add: i16, sub: i16) -> TurnScore {
        TurnScore { add, sub }
    }

    /// Points gained
    pub open spec fn spec_add(self) -> i16 {
        self.add
    }

    /// Points lost
    pub open spec fn spec_sub(self) -> i16 {
        self.sub
    }

    /// Net points
    pub open spec fn spec_score(self) -> int {
        self.add - self.sub
    }

    /// The component-wise sum of two scores
    pub open spec fn plus(self, rhs: TurnScore) -> TurnScore {
        TurnScore { add: (self.add + rhs.add) as i16, sub: (self.sub + rhs.sub) as i16 }
    }

    /// Whether the component-wise sum of two scores fits in `i16`
    pub open spec fn can_add(self, rhs: TurnScore) -> bool {
        fits_i16(self.add + rhs.add) && fits_i16(self.sub + rhs.sub)
    }

    /// The component-wise sum of two scores in 16-bit arithmetic, which
    /// wraps where the sum does not fit
    pub open spec fn wrapping_plus(self, rhs: TurnScore) -> TurnScore {
        TurnScore { add: self.add.wrapping_add(rhs.add), sub: self.sub.wrapping_add(rhs.sub) }
    }

    /// The component-wise difference of two scores
    pub open spec fn minus(self, rhs: TurnScore) -> TurnScore {
        TurnScore { add: (self.add - rhs.add) as i16, sub: (self.sub - rhs.sub) as i16 }
    }

    /// Whether the component-wise difference of two scores fits in `i16`
    pub open spec fn can_sub(self, rhs: TurnScore) -> bool {
        fits_i16(self.add - rhs.add) && fits_i16(self.sub - rhs.sub)
    }

    /// The score with both components negated
    pub open spec fn negated(self) -> TurnScore {
        TurnScore { add: (-self.add) as i16, sub: (-self.sub) as i16 }
    }

    /// Whether both components can be negated in `i16`
    pub open spec fn can_negate(self) -> bool {
        self.add != i16::MIN && self.sub != i16::MIN
    }

    /// Both components multiplied by `k`
    pub open spec fn times(self, k: i16) -> TurnScore {
        TurnScore { add: (self.add * k) as i16, sub: (self.sub * k) as i16 }
    }

    /// Whether both components can be multiplied by `k` in `i16`
    pub open spec fn can_multiply(self, k: i16) -> bool {
        fits_i16(self.add * k) && fits_i16(self.sub * k)
    }

    /// Both components divided by a positive `k`, rounding toward zero as Rust does
    pub open spec fn divided(self, k: i16) -> TurnScore {
        TurnScore { add: truncating_div(self.add as int, k as int) as i16, sub: truncating_div(self.sub as int, k as int) as i16 }
    }

    /// Whether `k` is a divisor this library divides scores by: a positive one
    pub open spec fn can_divide(self, k: i16) -> bool {
        k > 0
    }

    /// Both `add` and `sub` should be >= 0, unless the `TurnScore` instance is
    /// part of an undo or revert operation like removing a tile.
    pub fn new(add: i16, sub: i16) -> (s: TurnScore)
        ensures
            s == TurnScore::spec_new(add, sub),
    {
        Self { add, sub }
    }

    /// Points gained
    pub fn add(&self) -> (a: i16)
        ensures
            a == self.add,
    {
        self.add
    }

    /// Points lost
    pub fn sub(&self) -> (s: i16)
        ensures
            s == self.sub,
    {
        self.sub
    }

    /// Net points: what was gained minus what was lost
    pub fn score(&self) -> (s: i16)
        requires
            fits_i16(self.spec_score()),
        ensures
            s == self.spec_score(),
    {
        self.add - self.sub
    }
}

/// Division by a positive integer rounding toward zero, as Rust's `/` does
pub open spec fn truncating_div(x: int, k: int) -> int {
    if x >= 0 {
        x / k
    } else {
        -((-x) / k)
    }
}

/// `x / k` for a positive `k`, rounding toward zero
fn div_toward_zero(x: i16, k: i16) -> (q: i16)
    requires
        k > 0,
    ensures
        q == truncating_div(x as int, k as int),
{
    let m: i32 = if x >= 0 { x as i32 } else { -(x as i32) };
    assert(m / (k as i32) <= m) by (nonlinear_arith)
        requires m >= 0, k > 0;
    let q: i32 = m / (k as i32);
    if x >= 0 { q as i16 } else { -q as i16 }
}

impl Default for TurnScore {
    fn default() -> (s: Self)
        ensures
            s == TurnScore::spec_new(0, 0),
    {
        TurnScore { add: 0, sub: 0 }
    }
}

impl From<i16> for TurnScore {
    fn from(points: i16) -> (s: Self) {
        if points >= 0 {
            TurnScore { add: points, sub: 0 }
        } else if points == i16::MIN {
            TurnScore { add: 0, sub: i16::MIN }
        } else {
            TurnScore { add: 0, sub: -points }
        }
    }
}

impl FromSpecImpl<i16> for TurnScore {
    open spec fn obeys_from_spec() -> bool {
        true
    }

    open spec fn from_spec(points: i16) -> TurnScore {
        spec_from_points(points)
    }
}

impl Add for TurnScore {
    type Output = Self;

    fn add(self, rhs: Self) -> (s: Self::Output) {
        Self { add: self.add + rhs.add, sub: self.sub + rhs.sub }
    }
}

impl AddSpecImpl for TurnScore {
    open spec fn obeys_add_spec() -> bool {
        true
    }

    open spec fn add_req(self, rhs: TurnScore) -> bool {
        self.can_add(rhs)
    }

    open spec fn add_spec(self, rhs: TurnScore) -> TurnScore {
        self.plus(rhs)
    }
}

impl Sub for TurnScore {
    type Output = Self;

    fn sub(self, rhs: Self) -> (s: Self::Output) {
        Self { add: self.add - rhs.add, sub: self.sub - rhs.sub }
    }
}

impl SubSpecImpl for TurnScore {
    open spec fn obeys_sub_spec() -> bool {
        true
    }

    open spec fn sub_req(self, rhs: TurnScore) -> bool {
        self.can_sub(rhs)
    }

    open spec fn sub_spec(self, rhs: TurnScore) -> TurnScore {
        self.minus(rhs)
    }
}

impl Neg for TurnScore {
    type Output = Self;

    fn neg(self) -> (s: Self::Output) {
        Self { add: -self.add, sub: -self.sub }
    }
}

impl NegSpecImpl for TurnScore {
    open spec fn obeys_neg_spec() -> bool {
        true
    }

    open spec fn neg_req(self) -> bool {
        self.can_negate()
    }

    open spec fn neg_spec(self) -> TurnScore {
        self.negated()
    }
}

impl Mul<i16> for TurnScore {
    type Output = Self;

    fn mul(self, k: i16) -> (s: Self::Output) {
        Self { add: self.add * k, sub: self.sub * k }
    }
}

impl MulSpecImpl<i16> for TurnScore {
    open spec fn obeys_mul_spec() -> bool {
        true
    }

    open spec fn mul_req(self, k: i16) -> bool {
        self.can_multiply(k)
    }

    open spec fn mul_spec(self, k: i16) -> TurnScore {
        self.times(k)
    }
}

impl Div<i16> for TurnScore {
    type Output = Self;

    fn div(self, k: i16) -> (s: Self::Output) {
        Self { add: div_toward_zero(self.add, k), sub: div_toward_zero(self.sub, k) }
    }
}

impl DivSpecImpl<i16> for TurnScore {
    open spec fn obeys_div_spec() -> bool {
        true
    }

    open spec fn div_req(self, k: i16) -> bool {
        self.can_divide(k)
    }

    open spec fn div_spec(self, k: i16) -> TurnScore {
        self.divided(k)
    }
}

impl AddAssign for TurnScore {
    /// Adds `rhs` component-wise. The components are 16-bit and wrap where
    /// the sum does not fit, as they do in a release build.
    fn add_assign(&mut self, rhs: Self)
        ensures
            *final(self) == old(self).wrapping_plus(rhs),
    {
        self.add = self.add.wrapping_add(rhs.add);
        self.sub = self.sub.wrapping_add(rhs.sub);
    }
}

} // verus!

verus! {

/// Adding no points changes nothing
pub proof fn lemma_add_identity(a: TurnScore)
    ensures
        a.plus(TurnScore::spec_new(0, 0)) == a,
        a.can_add(TurnScore::spec_new(0, 0)),
{
}

/// The sum of scores does not depend on their order
pub proof fn lemma_add_commutative(a: TurnScore, b: TurnScore)
    ensures
        a.plus(b) == b.plus(a),
        a.can_add(b) == b.can_add(a),
{
}

/// The sum of scores does not depend on how they are grouped
pub proof fn lemma_add_associative(a: TurnScore, b: TurnScore, c: TurnScore)
    requires
        a.can_add(b),
        a.plus(b).can_add(c),
        b.can_add(c),
        a.can_add(b.plus(c)),
    ensures
        a.plus(b).plus(c) == a.plus(b.plus(c)),
{
}

/// Adding the negation of a score undoes it
pub proof fn lemma_neg_undoes(a: TurnScore)
    requires
        a.can_negate(),
    ensures
        a.can_add(a.negated()),
        a.plus(a.negated()) == TurnScore::spec_new(0, 0),
{
}

/// Subtracting a score adds its negation
pub proof fn lemma_sub_is_add_neg(a: TurnScore, b: TurnScore)
    requires
        b.can_negate(),
        a.can_sub(b),
    ensures
        a.can_add(b.negated()),
        a.minus(b) == a.plus(b.negated()),
{
}

/// The net points of a sum are the sum of the net points
pub proof fn lemma_score_of_sum(a: TurnScore, b: TurnScore)
    requires
        a.can_add(b),
    ensures
        a.plus(b).spec_score() == a.spec_score() + b.spec_score(),
{
}

/// The points a score stands for are its net points
pub proof fn lemma_from_points_score(points: i16)
    requires
        points != i16::MIN,
    ensures
        spec_from_points(points).spec_score() == points,
{
}

/// Adding a score and then its negation gives back the start, even where
/// the 16-bit components wrap
pub proof fn lemma_wrapping_undo(a: TurnScore, b: TurnScore)
    requires
        b.can_negate(),
    ensures
        a.wrapping_plus(b).wrapping_plus(b.negated()) == a,
{
}

} // verus!
