//! A load spread along a span, with an intensity that changes evenly from
//! one end of its range to the other.

use vstd::prelude::*;
use crate::loads::load_traits::LoadTraits;
use crate::nodes::node::SupportType;
use crate::numbers::rational::Rational;
use crate::spans::span::{Span, SpanView};
use crate::spans::traits::SpanDetails;

verus! {

/// The mathematical content of a [`DistributedLoad`].
pub struct DistributedLoadView {
    pub start_value: real,
    pub end_value: real,
    pub x0: real,
    pub xf: real,
    pub tg: real,
    pub x_centroid: real,
    pub total_force: real,
}

/// A trapezoidal load: intensity `start_value` at `x0`, `end_value` at `xf`,
/// slope `tg`, and the size and place of its resultant.
///
/// The resultant and its place are carried as they are given. Whatever is
/// computed of a load rests on its intensities and its range alone: see
/// [`DistributedLoad::resultant`] and [`DistributedLoad::first_moment`].
#[derive(Debug)]
pub struct DistributedLoad {
    pub start_value: Rational,
    pub end_value: Rational,
    pub x0: Rational,
    pub xf: Rational,
    pub tg: Rational,
    pub x_centroid: Rational,
    pub total_force: Rational,
}

impl View for DistributedLoad {
    type V = DistributedLoadView;

    open spec fn view(&self) -> DistributedLoadView {
        DistributedLoadView {
            start_value: self.start_value@,
            end_value: self.end_value@,
            x0: self.x0@,
            xf: self.xf@,
            tg: self.tg@,
            x_centroid: self.x_centroid@,
            total_force: self.total_force@,
        }
    }
}

impl DeepView for DistributedLoad {
    type V = DistributedLoadView;

    open spec fn deep_view(&self) -> DistributedLoadView {
        self@
    }
}

impl Clone for DistributedLoad {
    fn clone(&self) -> (r: Self)
        ensures
            r@ == self@,
    {
        DistributedLoad {
            start_value: self.start_value.clone(),
            end_value: self.end_value.clone(),
            x0: self.x0.clone(),
            xf: self.xf.clone(),
            tg: self.tg.clone(),
            x_centroid: self.x_centroid.clone(),
            total_force: self.total_force.clone(),
        }
    }
}

impl Default for DistributedLoad {
    fn default() -> (r: Self)
        ensures
            r@ == (DistributedLoadView {
                start_value: 0 as real,
                end_value: 0 as real,
                x0: 0 as real,
                xf: 0 as real,
                tg: 0 as real,
                x_centroid: 0 as real,
                total_force: 0 as real,
            }),
    {
        DistributedLoad {
            start_value: Rational::from_int(0),
            end_value: Rational::from_int(0),
            x0: Rational::from_int(0),
            xf: Rational::from_int(0),
            tg: Rational::from_int(0),
            x_centroid: Rational::from_int(0),
            total_force: Rational::from_int(0),
        }
    }
}

/// The resultant of the load: the area of the trapezoid that its
/// intensities make over its range.
pub open spec fn resultant_of(load: DistributedLoadView) -> real {
    (load.start_value + load.end_value) / (2 as real) * (load.xf - load.x0)
}

/// The moment of the load about the start of its span: its resultant times
/// the distance of its centroid from there,
/// `(xf - x0) (s (2 x0 + xf) + e (x0 + 2 xf)) / 6`.
pub open spec fn first_moment_of(load: DistributedLoadView) -> real {
    (load.xf - load.x0) * (load.start_value * ((2 as real) * load.x0 + load.xf) + load.end_value
        * (load.x0 + (2 as real) * load.xf)) / (6 as real)
}

impl DistributedLoad {
    /// The resultant of the load.
    pub fn resultant(&self) -> (r: Rational)
        ensures
            r@ == resultant_of(self@),
    {
        self.start_value.add(&self.end_value).div(&Rational::from_int(2)).mul(
            &self.xf.sub(&self.x0),
        )
    }

    /// The moment of the load about the start of its span.
    pub fn first_moment(&self) -> (r: Rational)
        ensures
            r@ == first_moment_of(self@),
    {
        let two: Rational = Rational::from_int(2);
        let by_start: Rational = self.start_value.mul(&two.mul(&self.x0).add(&self.xf));
        let by_end: Rational = self.end_value.mul(&self.x0.add(&two.mul(&self.xf)));
        self.xf.sub(&self.x0).mul(&by_start.add(&by_end)).div(&Rational::from_int(6))
    }
}

/// The moment at the fixed end of a span whose other end is free to turn,
/// under a load of intensity `s` at the fixed end and `e` at the other:
/// `-s l^2 / 8` where the load is uniform, `-(s - e) l^2 / 20 + e l^2 / 15`
/// where it is not.
pub open spec fn propped_fem(s: real, e: real, l: real) -> real {
    if s == e {
        -(s * l * l) / (8 as real)
    } else {
        -((s - e) * l * l) / (20 as real) + (e * l * l) / (15 as real)
    }
}

/// The moment that a load over the whole span causes at the near end.
///
/// With both ends fixed it is `-s l^2 / 12` for a uniform load and
/// `-(s - e) l^2 / 20 + e l^2 / 12` for a trapezoidal one; with only the near
/// end fixed it is [`propped_fem`]; otherwise nothing.
pub open spec fn distributed_fem_near(
    load: DistributedLoadView,
    near: SupportType,
    far: SupportType,
    l: real,
) -> real {
    let s = load.start_value;
    let e = load.end_value;
    match (near, far) {
        (SupportType::Fixed, SupportType::Fixed) => if s == e {
            -(s * l * l) / (12 as real)
        } else {
            -((s - e) * l * l) / (20 as real) + (e * l * l) / (12 as real)
        },
        (SupportType::Fixed, _) => propped_fem(s, e, l),
        _ => 0 as real,
    }
}

/// The moment that the same load causes at the far end.
///
/// With both ends fixed it is `s l^2 / 12` for a uniform load and
/// `(s - e) l^2 / 30 + e l^2 / 12` for a trapezoidal one. With only the far
/// end fixed the span is read from that end: the two intensities change
/// places and the sign is reversed. Otherwise nothing.
pub open spec fn distributed_fem_far(
    load: DistributedLoadView,
    near: SupportType,
    far: SupportType,
    l: real,
) -> real {
    let s = load.start_value;
    let e = load.end_value;
    match (near, far) {
        (SupportType::Fixed, SupportType::Fixed) => if s == e {
            (s * l * l) / (12 as real)
        } else {
            ((s - e) * l * l) / (30 as real) + (e * l * l) / (12 as real)
        },
        (SupportType::Fixed, _) => 0 as real,
        (_, SupportType::Fixed) => -propped_fem(e, s, l),
        _ => 0 as real,
    }
}

/// `intensity * l * l / divisor`, the building block of every formula here.
fn area_term(intensity: &Rational, l: &Rational, divisor: i64) -> (r: Rational)
    requires
        divisor != 0,
    ensures
        r@ == (intensity@ * l@ * l@) / (divisor as real),
{
    intensity.mul(l).mul(l).div(&Rational::from_int(divisor))
}

/// [`propped_fem`] on rational numbers.
fn propped(s: &Rational, e: &Rational, l: &Rational) -> (r: Rational)
    ensures
        r@ == propped_fem(s@, e@, l@),
{
    if s.eq_value(e) {
        area_term(s, l, 8).neg()
    } else {
        area_term(&s.sub(e), l, 20).neg().add(&area_term(e, l, 15))
    }
}

impl LoadTraits for DistributedLoad {
    open spec fn fem_a_value(&self, span: SpanView) -> real {
        distributed_fem_near(self@, span.start_node.support, span.end_node.support, span.length)
    }

    open spec fn fem_b_value(&self, span: SpanView) -> real {
        distributed_fem_far(self@, span.start_node.support, span.end_node.support, span.length)
    }

    fn fem_a(&self, span: &Span) -> (moment: Rational) {
        let l: Rational = span.get_length();
        let s: &Rational = &self.start_value;
        let e: &Rational = &self.end_value;
        match (span.get_est_a(), span.get_est_b()) {
            (SupportType::Fixed, SupportType::Fixed) => {
                if s.eq_value(e) {
                    area_term(s, &l, 12).neg()
                } else {
                    area_term(&s.sub(e), &l, 20).neg().add(&area_term(e, &l, 12))
                }
            },
            (SupportType::Fixed, _) => propped(s, e, &l),
            _ => Rational::from_int(0),
        }
    }

    fn fem_b(&self, span: &Span) -> (moment: Rational) {
        let l: Rational = span.get_length();
        let s: &Rational = &self.start_value;
        let e: &Rational = &self.end_value;
        match (span.get_est_a(), span.get_est_b()) {
            (SupportType::Fixed, SupportType::Fixed) => {
                if s.eq_value(e) {
                    area_term(s, &l, 12)
                } else {
                    area_term(&s.sub(e), &l, 30).add(&area_term(e, &l, 12))
                }
            },
            (SupportType::Fixed, _) => Rational::from_int(0),
            (_, SupportType::Fixed) => propped(e, s, &l).neg(),
            _ => Rational::from_int(0),
        }
    }
}

} // verus!
