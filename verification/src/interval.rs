//! Calendar intervals, kept as three independent units: months, days and milliseconds.
//!
//! No unit is ever converted into another, because a month has no fixed number of days. Every
//! operation therefore works unit by unit.
use num_traits::CheckedSub;
use vstd::arithmetic::mul::{lemma_mul_basics, lemma_mul_is_distributive_sub};
use vstd::prelude::*;

verus! {

/// A length of time made of months, days and milliseconds.
#[derive(Debug, Clone, Copy, PartialEq, Eq, Structural)]
pub struct IntervalUnit {
    pub months: i32,
    pub days: i32,
    pub ms: i64,
}

/// The mathematical counterpart of [`IntervalUnit`], without bounds on its units.
pub struct Span {
    pub months: int,
    pub days: int,
    pub ms: int,
}

impl Span {
    /// The span of no length.
    pub open spec fn zero() -> Span {
        Span { months: 0, days: 0, ms: 0 }
    }

    /// `self` repeated `k` times.
    pub open spec fn times(self, k: int) -> Span {
        Span { months: self.months * k, days: self.days * k, ms: self.ms * k }
    }

    /// The unit-wise difference.
    pub open spec fn minus(self, other: Span) -> Span {
        Span {
            months: self.months - other.months,
            days: self.days - other.days,
            ms: self.ms - other.ms,
        }
    }

    /// Whether every unit fits the machine integer that [`IntervalUnit`] keeps it in.
    pub open spec fn fits(self) -> bool {
        &&& i32::MIN <= self.months <= i32::MAX
        &&& i32::MIN <= self.days <= i32::MAX
        &&& i64::MIN <= self.ms <= i64::MAX
    }

    /// The interval with these units, for a span that [`fits`](Span::fits).
    pub open spec fn to_interval(self) -> IntervalUnit {
        IntervalUnit { months: self.months as i32, days: self.days as i32, ms: self.ms as i64 }
    }

    /// Whether `self` is `n` times `step`, for a `step` that is not the zero span.
    pub open spec fn is_multiple(self, step: Span, n: int) -> bool {
        step != Span::zero() && self == step.times(n)
    }
}

impl View for IntervalUnit {
    type V = Span;

    open spec fn view(&self) -> Span {
        Span { months: self.months as int, days: self.days as int, ms: self.ms as int }
    }
}

/// `num_traits::CheckedSub::checked_sub` on `i32`: the difference, or `None` where it does not
/// fit an `i32`.
#[verifier::external_body]
fn sub_i32(a: i32, b: i32) -> (r: Option<i32>)
    ensures
        r == (if i32::MIN <= a - b <= i32::MAX {
            Some((a - b) as i32)
        } else {
            None
        }),
{
    CheckedSub::checked_sub(&a, &b)
}

/// `num_traits::CheckedSub::checked_sub` on `i64`: the difference, or `None` where it does not
/// fit an `i64`.
#[verifier::external_body]
fn sub_i64(a: i64, b: i64) -> (r: Option<i64>)
    ensures
        r == (if i64::MIN <= a - b <= i64::MAX {
            Some((a - b) as i64)
        } else {
            None
        }),
{
    CheckedSub::checked_sub(&a, &b)
}

/// What one unit says of the quotient of two intervals.
enum UnitQuotient {
    /// Both sides are zero, so any quotient will do.
    Any,
    /// Only this quotient will do.
    Only(i64),
    /// No quotient that fits an `i64` will do.
    Impossible,
}

impl UnitQuotient {
    spec fn admits(self, q: int) -> bool {
        match self {
            UnitQuotient::Any => true,
            UnitQuotient::Only(only) => q == only,
            UnitQuotient::Impossible => false,
        }
    }
}

proof fn lemma_exact_quotient(l: int, r: int, q: int)
    by (nonlinear_arith)
    requires
        r != 0,
        l == r * q,
    ensures
        l / r == q,
{
}

/// The quotients `q` with `l == r * q`.
fn unit_quotient(l: i64, r: i64) -> (u: UnitQuotient)
    ensures
        u is Any <==> l == 0 && r == 0,
        u is Only ==> r != 0,
        forall|q: int|
            i64::MIN <= q <= i64::MAX ==> (#[trigger] u.admits(q) <==> l as int == r * q),
{
    if r == 0 {
        let u = if l == 0 {
            UnitQuotient::Any
        } else {
            UnitQuotient::Impossible
        };
        proof {
            assert forall|q: int| #[trigger] u.admits(q) <==> l as int == r * q by {
                lemma_mul_basics(q);
            }
        }
        return u;
    }
    let u = match l.checked_div_euclid(r) {
        None => UnitQuotient::Impossible,
        Some(q) => match r.checked_mul(q) {
            Some(product) => if product == l {
                UnitQuotient::Only(q)
            } else {
                UnitQuotient::Impossible
            },
            None => UnitQuotient::Impossible,
        },
    };
    proof {
        assert forall|q: int| i64::MIN <= q <= i64::MAX implies (#[trigger] u.admits(q)
            <==> l as int == r * q) by {
            if l as int == r * q {
                lemma_exact_quotient(l as int, r as int, q);
            }
        }
    }
    u
}

/// Keeps only the quotients that both sides admit.
fn meet(a: UnitQuotient, b: UnitQuotient) -> (r: UnitQuotient)
    ensures
        r is Any <==> a is Any && b is Any,
        r is Only ==> a is Only || b is Only,
        forall|q: int| #[trigger] r.admits(q) <==> a.admits(q) && b.admits(q),
{
    match (a, b) {
        (UnitQuotient::Any, b) => b,
        (a, UnitQuotient::Any) => a,
        (UnitQuotient::Only(x), UnitQuotient::Only(y)) => if x == y {
            UnitQuotient::Only(x)
        } else {
            UnitQuotient::Impossible
        },
        _ => UnitQuotient::Impossible,
    }
}

impl IntervalUnit {
    pub fn new(months: i32, days: i32, ms: i64) -> (r: Self)
        ensures
            r == (IntervalUnit { months, days, ms }),
    {
        IntervalUnit { months, days, ms }
    }

    /// How many times `rhs` goes into `self`, unit by unit and without remainder.
    ///
    /// There is no answer when `rhs` is the zero interval, when the units disagree, or when the
    /// quotient does not fit an `i64`.
    pub fn exact_div(&self, rhs: &Self) -> (r: Option<i64>)
        ensures
            match r {
                Some(q) => self@.is_multiple(rhs@, q as int),
                None => forall|q: int|
                    i64::MIN <= q <= i64::MAX ==> !#[trigger] self@.is_multiple(rhs@, q),
            },
            r is Some ==> {
                &&& self.months == rhs.months * r->Some_0
                &&& self.days == rhs.days * r->Some_0
                &&& self.ms == rhs.ms * r->Some_0
                &&& rhs.months != 0 || rhs.days != 0 || rhs.ms != 0
            },
    {
        let months: UnitQuotient = unit_quotient(self.months as i64, rhs.months as i64);
        let days: UnitQuotient = unit_quotient(self.days as i64, rhs.days as i64);
        let ms: UnitQuotient = unit_quotient(self.ms, rhs.ms);
        let quotient = meet(meet(months, days), ms);
        proof {
            assert forall|q: int|
                i64::MIN <= q <= i64::MAX && rhs@ != Span::zero() implies (
            #[trigger] self@.is_multiple(rhs@, q) <==> quotient.admits(q)) by {
                assert(months.admits(q) && days.admits(q) && ms.admits(q) <==> quotient.admits(q));
            }
        }
        match quotient {
            UnitQuotient::Only(q) => {
                assert(quotient.admits(q as int));
                Some(q)
            },
            _ => None,
        }
    }

    /// The unit-wise difference, or `None` where a unit overflows.
    pub fn checked_sub(&self, other: &Self) -> (r: Option<Self>)
        ensures
            match r {
                Some(d) => d@ == self@.minus(other@),
                None => !self@.minus(other@).fits(),
            },
            r is Some ==> {
                &&& r->Some_0.months == self.months - other.months
                &&& r->Some_0.days == self.days - other.days
                &&& r->Some_0.ms == self.ms - other.ms
            },
    {
        match (
            sub_i32(self.months, other.months),
            sub_i32(self.days, other.days),
            sub_i64(self.ms, other.ms),
        ) {
            (Some(months), Some(days), Some(ms)) => Some(IntervalUnit { months, days, ms }),
            _ => None,
        }
    }

    /// `self` repeated `rhs` times, or `None` where `rhs` does not fit an `i32` or a unit
    /// overflows.
    pub fn checked_mul_int(&self, rhs: usize) -> (r: Option<Self>)
        ensures
            match r {
                Some(p) => rhs <= i32::MAX && p@ == self@.times(rhs as int),
                None => rhs > i32::MAX || !self@.times(rhs as int).fits(),
            },
            r is Some ==> {
                &&& r->Some_0.months == self.months * rhs
                &&& r->Some_0.days == self.days * rhs
                &&& r->Some_0.ms == self.ms * rhs
            },
    {
        if rhs > 0x7fff_ffff {
            return None;
        }
        let k: i32 = rhs as i32;
        match (self.months.checked_mul(k), self.days.checked_mul(k), self.ms.checked_mul(k as i64)) {
            (Some(months), Some(days), Some(ms)) => Some(IntervalUnit { months, days, ms }),
            _ => None,
        }
    }
}

/// A span that fits still fits after being scaled down: if `n` steps fit and `0 <= m <= n`,
/// then so do `m` steps.
pub proof fn law_fewer_steps_fit(step: Span, m: int, n: int)
    requires
        0 <= m <= n,
        step.times(n).fits(),
    ensures
        step.times(m).fits(),
{
    lemma_scaled_between(step.months, m, n);
    lemma_scaled_between(step.days, m, n);
    lemma_scaled_between(step.ms, m, n);
}

proof fn lemma_scaled_between(x: int, m: int, n: int)
    requires
        0 <= m <= n,
    ensures
        0 <= x * m <= x * n || x * n <= x * m <= 0,
{
    assert(0 <= x * m <= x * n || x * n <= x * m <= 0) by (nonlinear_arith)
        requires
            0 <= m <= n,
    ;
}

/// Taking one step away from `n` steps leaves `n - 1` steps.
pub proof fn law_one_step_less(step: Span, n: int)
    ensures
        step.times(n).minus(step) == step.times(n - 1),
{
    lemma_mul_is_distributive_sub(step.months, n, 1);
    lemma_mul_is_distributive_sub(step.days, n, 1);
    lemma_mul_is_distributive_sub(step.ms, n, 1);
}

/// A multiple of a step that is not zero determines how many steps it is made of.
pub proof fn law_multiple_is_unique(whole: Span, step: Span, m: int, n: int)
    requires
        whole.is_multiple(step, m),
        whole.is_multiple(step, n),
    ensures
        m == n,
{
    let x = if step.months != 0 {
        step.months
    } else if step.days != 0 {
        step.days
    } else {
        step.ms
    };
    assert(x * m == x * n);
    assert(m == n) by (nonlinear_arith)
        requires
            x != 0,
            x * m == x * n,
    ;
}

/// Intervals are reckoned unit by unit: an interval is `n` times another that is not zero exactly if
/// each of its units is `n` times that of the other; a difference is that of each unit; a product
/// is that of each unit; and one of these is an interval exactly if each unit fits its integer.
pub proof fn law_units_are_independent(a: IntervalUnit, b: IntervalUnit, n: int)
    ensures
        a@.is_multiple(b@, n) <==> {
            &&& b.months != 0 || b.days != 0 || b.ms != 0
            &&& a.months == b.months * n
            &&& a.days == b.days * n
            &&& a.ms == b.ms * n
        },
        a@.minus(b@).fits() <==> {
            &&& i32::MIN <= a.months - b.months <= i32::MAX
            &&& i32::MIN <= a.days - b.days <= i32::MAX
            &&& i64::MIN <= a.ms - b.ms <= i64::MAX
        },
        a@.minus(b@).fits() ==> {
            let d = a@.minus(b@).to_interval();
            d.months == a.months - b.months && d.days == a.days - b.days && d.ms == a.ms - b.ms
        },
        b@.times(n).fits() <==> {
            &&& i32::MIN <= b.months * n <= i32::MAX
            &&& i32::MIN <= b.days * n <= i32::MAX
            &&& i64::MIN <= b.ms * n <= i64::MAX
        },
        b@.times(n).fits() ==> {
            let p = b@.times(n).to_interval();
            p.months == b.months * n && p.days == b.days * n && p.ms == b.ms * n
        },
{
}

} // verus!
