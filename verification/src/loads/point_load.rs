//! A force concentrated at one point of a span.

use vstd::prelude::*;
use crate::loads::load_traits::LoadTraits;
use crate::nodes::node::SupportType;
use crate::numbers::rational::Rational;
use crate::spans::span::{Span, SpanView};
use crate::spans::traits::SpanDetails;

verus! {

/// The mathematical content of a [`PunctualLoad`].
pub struct PunctualLoadView {
    pub value: real,
    pub x: real,
}

/// A point load of size `value` at distance `x` from the start of its span.
#[derive(Debug)]
pub struct PunctualLoad {
    pub value: Rational,
    pub x: Rational,
}

impl View for PunctualLoad {
    type V = PunctualLoadView;

    open spec fn view(&self) -> PunctualLoadView {
        PunctualLoadView { value: self.value@, x: self.x@ }
    }
}

impl DeepView for PunctualLoad {
    type V = PunctualLoadView;

    open spec fn deep_view(&self) -> PunctualLoadView {
        self@
    }
}

impl Clone for PunctualLoad {
    fn clone(&self) -> (r: Self)
        ensures
            r@ == self@,
    {
        PunctualLoad { value: self.value.clone(), x: self.x.clone() }
    }
}

impl Default for PunctualLoad {
    fn default() -> (r: Self)
        ensures
            r@ == (PunctualLoadView { value: 0 as real, x: 0 as real }),
    {
        PunctualLoad { value: Rational::from_int(0), x: Rational::from_int(0) }
    }
}

/// The moment that a point load `w` at distance `a` from the near end causes
/// at the near end of a span of length `l`.
///
/// With both ends fixed it is `-w a b^2 / l^2`, where `b = l - a`; with only
/// the near end fixed, `-(w / l^2) (b^2 a + a^2 b / 2)`; otherwise nothing.
pub open spec fn point_fem_near(
    load: PunctualLoadView,
    near: SupportType,
    far: SupportType,
    l: real,
) -> real {
    let a = load.x;
    let b = l - a;
    let w = load.value;
    match (near, far) {
        (SupportType::Fixed, SupportType::Fixed) => -w * a * (b * b) / (l * l),
        (SupportType::Fixed, _) => -w / (l * l) * (b * b * a + a * a * b / (2 as real)),
        _ => 0 as real,
    }
}

/// The moment that the same load causes at the far end.
///
/// With both ends fixed it is `w b a^2 / l^2`; with only the far end fixed,
/// `(w / l^2) (b^2 a / 2 + a^2 b)`; otherwise nothing.
pub open spec fn point_fem_far(
    load: PunctualLoadView,
    near: SupportType,
    far: SupportType,
    l: real,
) -> real {
    let a = load.x;
    let b = l - a;
    let w = load.value;
    match (far, near) {
        (SupportType::Fixed, SupportType::Fixed) => b * (a * a) * w / (l * l),
        (SupportType::Fixed, _) => w / (l * l) * (b * b * a / (2 as real) + a * a * b),
        _ => 0 as real,
    }
}

impl LoadTraits for PunctualLoad {
    open spec fn fem_a_value(&self, span: SpanView) -> real {
        point_fem_near(self@, span.start_node.support, span.end_node.support, span.length)
    }

    open spec fn fem_b_value(&self, span: SpanView) -> real {
        point_fem_far(self@, span.start_node.support, span.end_node.support, span.length)
    }

    fn fem_a(&self, span: &Span) -> (moment: Rational) {
        let l: Rational = span.get_length();
        let b: Rational = l.sub(&self.x);
        match (span.get_est_a(), span.get_est_b()) {
            (SupportType::Fixed, SupportType::Fixed) => {
                let ll: Rational = square_of_length(span);
                self.value.neg().mul(&self.x).mul(&b.mul(&b)).div(&ll)
            },
            (SupportType::Fixed, _) => {
                let ll: Rational = square_of_length(span);
                let first: Rational = b.mul(&b).mul(&self.x);
                let second: Rational = self.x.mul(&self.x).mul(&b).div(&Rational::from_int(2));
                self.value.neg().div(&ll).mul(&first.add(&second))
            },
            _ => Rational::from_int(0),
        }
    }

    fn fem_b(&self, span: &Span) -> (moment: Rational) {
        let l: Rational = span.get_length();
        let b: Rational = l.sub(&self.x);
        match (span.get_est_b(), span.get_est_a()) {
            (SupportType::Fixed, SupportType::Fixed) => {
                let ll: Rational = square_of_length(span);
                b.mul(&self.x.mul(&self.x)).mul(&self.value).div(&ll)
            },
            (SupportType::Fixed, _) => {
                let ll: Rational = square_of_length(span);
                let first: Rational = b.mul(&b).mul(&self.x).div(&Rational::from_int(2));
                let second: Rational = self.x.mul(&self.x).mul(&b);
                self.value.div(&ll).mul(&first.add(&second))
            },
            _ => Rational::from_int(0),
        }
    }
}

/// A point load on a span fixed at both ends causes at the start the
/// opposite of the moment that the mirrored load, the same force at the same
/// distance from the other end, causes at the end.
pub proof fn lemma_point_load_mirror(load: PunctualLoad, mirrored: PunctualLoad, span: SpanView)
    requires
        span.wf(),
        span.start_node.support == SupportType::Fixed,
        span.end_node.support == SupportType::Fixed,
        mirrored@.value == load@.value,
        mirrored@.x == span.length - load@.x,
    ensures
        load.fem_a_value(span) == -mirrored.fem_b_value(span),
{
    let l: real = span.length;
    let w: real = load@.value;
    let a: real = load@.x;
    let b: real = l - a;
    let bb: real = b * b;
    let ll: real = l * l;
    assert(-w * a * bb == -(a * bb * w)) by (nonlinear_arith);
    assert(ll != 0 as real) by (nonlinear_arith)
        requires
            ll == l * l,
            l > 0 as real,
    ;
    let top: real = a * bb * w;
    assert((-top) / ll == -(top / ll)) by (nonlinear_arith)
        requires
            ll != 0 as real,
    ;
}

/// However a span of length `l` is held, a point load causes at its near end
/// the opposite of the moment that the mirrored load causes at the far end
/// of the mirrored span: the same force at the same distance from the other
/// end, on a span whose two supports have changed places.
pub proof fn lemma_point_load_mirror_any_supports(
    load: PunctualLoadView,
    mirrored: PunctualLoadView,
    near: SupportType,
    far: SupportType,
    l: real,
)
    requires
        l > 0 as real,
        mirrored.value == load.value,
        mirrored.x == l - load.x,
    ensures
        point_fem_near(load, near, far, l) == -point_fem_far(mirrored, far, near, l),
{
    let w: real = load.value;
    let a: real = load.x;
    let b: real = l - a;
    let ll: real = l * l;
    assert(ll != 0 as real) by (nonlinear_arith)
        requires
            ll == l * l,
            l > 0 as real,
    ;
    if near == SupportType::Fixed {
        if far == SupportType::Fixed {
            let bb: real = b * b;
            let top: real = a * bb * w;
            assert(-w * a * bb == -top) by (nonlinear_arith)
                requires
                    top == a * bb * w,
            ;
            assert((-top) / ll == -(top / ll)) by (nonlinear_arith)
                requires
                    ll != 0 as real,
            ;
        } else {
            let first: real = b * b * a;
            let second: real = a * a * b / (2 as real);
            let sum: real = first + second;
            assert(second + first == sum);
            let share: real = w / ll;
            assert(-w / ll == -share) by (nonlinear_arith)
                requires
                    share == w / ll,
                    ll != 0 as real,
            ;
            assert((-share) * sum == -(share * sum)) by (nonlinear_arith);
        }
    }
}

/// The square of the span's length, which is never zero.
fn square_of_length(span: &Span) -> (ll: Rational)
    ensures
        ll@ == span@.length * span@.length,
        ll@ != 0 as real,
{
    let l: Rational = span.get_length();
    proof {
        use_type_invariant(span);
        let x: real = span@.length;
        assert(x * x != 0 as real) by (nonlinear_arith)
            requires
                x > 0 as real,
        ;
    }
    l.mul(&l)
}

} // verus!
