use frame_analysis::errors::FrameError;
use frame_analysis::loads::distributed_load::DistributedLoad;
use frame_analysis::loads::point_load::PunctualLoad;
use frame_analysis::nodes::node::{Node, NodeTraits, SupportType};
use frame_analysis::numbers::rational::Rational;
use frame_analysis::spans::span::Span;
use frame_analysis::spans::traits::{SpanBuilder, SpanDetails, SpanFEM, SpanTraits};

fn q(x: i64) -> Rational {
    Rational::from_int(x)
}

#[test]
fn span_test_point_load_with_fixed_ends() {
    let load = PunctualLoad { value: q(40), x: q(6) };

    let support = SupportType::Fixed;
    let start_node = Node::new(q(0), q(0), support);
    let end_node = Node::new(q(12), q(0), support);

    let span =
        Span::new(start_node, end_node, vec![], vec![load.clone(), load])
            .unwrap();
    assert_eq!(q(-120), span.mem_a());
    assert_eq!(q(120), span.mem_b());
}

#[test]
fn span_test2_point_load_with_fixed_ends() {
    let load = PunctualLoad { value: q(40), x: q(2) };

    let support = SupportType::Fixed;
    let start_node = Node::new(q(0), q(0), support);
    let end_node = Node::new(q(4), q(0), support);

    let span = Span::new(start_node, end_node, vec![], vec![load]).unwrap();
    assert_eq!(q(-20), span.mem_a());
    assert_eq!(q(20), span.mem_b());
}

fn frac(n: i64, d: i64) -> Rational {
    Rational::from_ratio(n, d).unwrap()
}

fn point(value: i64, x: i64) -> PunctualLoad {
    PunctualLoad { value: q(value), x: q(x) }
}

/// A load from `x0` to `xf`, with its slope, its resultant and the place
/// of its resultant as the intensities and the range make them.
fn spread(start_value: i64, end_value: i64, x0: i64, xf: i64) -> DistributedLoad {
    let extent = xf - x0;
    let total = frac((start_value + end_value) * extent, 2);
    let moment =
        frac(extent * (start_value * (2 * x0 + xf) + end_value * (x0 + 2 * xf)), 6);
    DistributedLoad {
        start_value: q(start_value),
        end_value: q(end_value),
        x0: q(x0),
        xf: q(xf),
        tg: Rational::from_ratio(end_value - start_value, extent).unwrap_or(q(0)),
        x_centroid: moment.checked_div(&total).unwrap_or(q(x0)),
        total_force: total,
    }
}

fn build(
    near: SupportType,
    far: SupportType,
    length: i64,
    distributed: Vec<DistributedLoad>,
    points: Vec<PunctualLoad>,
) -> Result<Span, FrameError> {
    let start_node = Node::new(q(0), q(0), near);
    let end_node = Node::new(q(length), q(0), far);
    Span::new(start_node, end_node, distributed, points)
}

#[test]
fn span_reads_back_what_it_was_made_of() {
    let span = build(SupportType::Fixed, SupportType::Roller, 12, vec![], vec![]).unwrap();
    assert_eq!(span.get_length(), q(12));
    assert_eq!(span.get_ei(), q(1));
    assert_eq!(span.get_est_a(), SupportType::Fixed);
    assert_eq!(span.get_est_b(), SupportType::Roller);
    assert_eq!(span.get_est(), [SupportType::Fixed, SupportType::Roller]);
}

#[test]
fn span_refuses_what_is_not_well_formed() {
    let fixed = SupportType::Fixed;
    // the end does not lie beyond the start
    assert_eq!(build(fixed, fixed, 0, vec![], vec![]).err(), Some(FrameError::InvalidGeometry));
    assert_eq!(build(fixed, fixed, -3, vec![], vec![]).err(), Some(FrameError::InvalidGeometry));
    // a point load off the member
    assert_eq!(
        build(fixed, fixed, 4, vec![], vec![point(1, 5)]).err(),
        Some(FrameError::InvalidGeometry)
    );
    assert_eq!(
        build(fixed, fixed, 4, vec![], vec![point(1, 2), point(1, -1)]).err(),
        Some(FrameError::InvalidGeometry)
    );
    // a range without extent
    assert_eq!(
        build(fixed, fixed, 4, vec![spread(1, 1, 2, 2)], vec![]).err(),
        Some(FrameError::InvalidGeometry)
    );
    assert_eq!(
        build(fixed, fixed, 4, vec![Default::default()], vec![]).err(),
        Some(FrameError::InvalidGeometry)
    );
    assert_eq!(
        build(fixed, fixed, 4, vec![spread(1, 1, 0, 4), spread(0, 0, 4, 4)], vec![]).err(),
        Some(FrameError::InvalidGeometry)
    );
    // a range that is reversed or leaves the member
    assert_eq!(
        build(fixed, fixed, 4, vec![spread(1, 1, 3, 2)], vec![]).err(),
        Some(FrameError::InvalidGeometry)
    );
    assert_eq!(
        build(fixed, fixed, 4, vec![spread(1, 1, 0, 5)], vec![]).err(),
        Some(FrameError::InvalidGeometry)
    );
    assert_eq!(
        build(fixed, fixed, 4, vec![spread(1, 1, -1, 2)], vec![]).err(),
        Some(FrameError::InvalidGeometry)
    );
    // loads at the very ends are on the member
    assert!(build(fixed, fixed, 4, vec![spread(1, 1, 0, 4)], vec![point(1, 0), point(1, 4)])
        .is_ok());
}

#[test]
fn rigidity_must_be_positive() {
    let span = build(SupportType::Fixed, SupportType::Fixed, 4, vec![], vec![]).unwrap();
    assert_eq!(span.with_flexural_rigidity(q(0)).err(), Some(FrameError::InvalidGeometry));
    let span = build(SupportType::Fixed, SupportType::Fixed, 4, vec![], vec![]).unwrap();
    assert_eq!(span.with_flexural_rigidity(q(-2)).err(), Some(FrameError::InvalidGeometry));
    let span = build(SupportType::Fixed, SupportType::Fixed, 4, vec![], vec![]).unwrap();
    assert_eq!(span.with_flexural_rigidity(frac(7, 2)).unwrap().get_ei(), frac(7, 2));
}

#[test]
fn settlement_and_rotation_enter_the_end_moments() {
    // EI = 3, l = 4, settlements 1 and 2, rotations 1/2 and 0
    let start_node = Node::new(q(0), q(1), SupportType::Fixed).with_rotation(frac(1, 2));
    let end_node = Node::new(q(4), q(2), SupportType::Fixed);
    let span = Span::new(start_node, end_node, vec![], vec![])
        .unwrap()
        .with_flexural_rigidity(q(3))
        .unwrap();
    // 2 * 3 * (2 * 1 + 2 - 3 * (1/2) / 4) / 4 and 2 * 3 * (1 + 2 * 2 - 3 * (1/2) / 4) / 4
    assert_eq!(span.mem_a(), frac(87, 16));
    assert_eq!(span.mem_b(), frac(111, 16));
    assert_eq!(span.mem(), [frac(87, 16), frac(111, 16)]);
}

#[test]
fn end_moments_add_up_all_loads() {
    let span = build(
        SupportType::Fixed,
        SupportType::Fixed,
        6,
        vec![spread(20, 20, 0, 6), spread(30, 10, 0, 6)],
        vec![point(40, 3)],
    )
    .unwrap();
    // point: -30 and 30; uniform: -60 and 60; trapezoid: -6 and 54
    assert_eq!(span.mem_a(), q(-96));
    assert_eq!(span.mem_b(), q(144));
}

#[test]
fn end_shears_balance_the_member() {
    let span = build(SupportType::Fixed, SupportType::Fixed, 12, vec![], vec![point(40, 6)])
        .unwrap();
    assert_eq!(span.mes_a(), q(20));
    assert_eq!(span.mes_b(), q(20));

    let span = build(SupportType::Fixed, SupportType::Hinged, 12, vec![], vec![point(40, 6)])
        .unwrap();
    assert_eq!(span.mes(), [frac(55, 2), frac(25, 2)]);
    // moments about the far joint and about the near joint add up to nothing
    let moments = span.mem_a().add(&span.mem_b());
    assert_eq!(span.mes_a().mul(&q(12)).add(&moments), q(40 * 6));
    assert_eq!(moments.add(&q(40 * 6)), span.mes_b().mul(&q(12)));
}

#[test]
fn end_shears_take_distributed_loads_by_their_resultant() {
    let load = DistributedLoad {
        start_value: q(20),
        end_value: q(20),
        x0: q(0),
        xf: q(6),
        tg: q(0),
        x_centroid: q(3),
        total_force: q(120),
    };
    let span = build(SupportType::Fixed, SupportType::Fixed, 6, vec![load], vec![]).unwrap();
    assert_eq!(span.mes(), [q(60), q(60)]);
}

#[test]
fn end_shears_rest_on_the_intensities_and_the_range() {
    // 4 at 2 rising to 10 at 5 on a span of 6: resultant 21, moment 78 about the start
    let fixed = SupportType::Fixed;
    let span = build(fixed, fixed, 6, vec![spread(4, 10, 2, 5)], vec![]).unwrap();
    let moments = span.mem_a().add(&span.mem_b());
    assert_eq!(span.mes_a(), q(21 * 6 - 78).sub(&moments).div(&q(6)));
    assert_eq!(span.mes_b(), q(78).add(&moments).div(&q(6)));
    // a resultant given otherwise than the intensities make it changes nothing
    let mut other = spread(4, 10, 2, 5);
    other.total_force = q(1000);
    other.x_centroid = q(1);
    let same = build(fixed, fixed, 6, vec![other], vec![]).unwrap();
    assert_eq!(same.mes(), span.mes());
}

#[test]
fn end_shears_carry_all_the_load() {
    let span = build(
        SupportType::Fixed,
        SupportType::Hinged,
        6,
        vec![spread(20, 20, 0, 6), spread(4, 10, 2, 5)],
        vec![point(40, 3), point(-7, 5)],
    )
    .unwrap();
    // 120 + 21 + 40 - 7
    assert_eq!(span.mes_a().add(&span.mes_b()), q(174));
    // and the moments about either joint add up to nothing
    let moments = span.mem_a().add(&span.mem_b());
    let about_start = q(20 * 6 * 3 + 78 + 40 * 3 - 7 * 5);
    assert_eq!(moments.add(&about_start), span.mes_b().mul(&q(6)));
    assert_eq!(span.mes_a().mul(&q(6)).add(&moments), q(174 * 6).sub(&about_start));
}

#[test]
fn span_asks_a_load_for_its_moments() {
    let span = build(SupportType::Fixed, SupportType::Fixed, 12, vec![], vec![]).unwrap();
    assert_eq!(SpanFEM::fem_a(&span, point(40, 6)), q(-60));
    assert_eq!(SpanFEM::fem_b(&span, point(40, 6)), q(60));
    assert_eq!(SpanFEM::fem(&span, point(40, 6)), [q(-60), q(60)]);
    assert_eq!(SpanFEM::fem(&span, spread(20, 20, 0, 12)), [q(-240), q(240)]);
}

#[test]
fn node_reads_back_what_it_was_made_of() {
    let node = Node::new(frac(3, 2), q(-1), SupportType::Hinged);
    assert_eq!(node.get_x(), frac(3, 2));
    assert_eq!(node.get_deflection(), q(-1));
    assert_eq!(node.get_rotation(), q(0));
    assert_eq!(node.get_support(), SupportType::Hinged);
    let turned = node.clone().with_rotation(frac(1, 8));
    assert_eq!(turned.get_rotation(), frac(1, 8));
    assert_eq!(turned.get_x(), frac(3, 2));
    assert_eq!(turned.get_support(), SupportType::Hinged);
}
