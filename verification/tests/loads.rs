use frame_analysis::loads::distributed_load::DistributedLoad;
use frame_analysis::loads::load_traits::LoadTraits;
use frame_analysis::loads::point_load::PunctualLoad;
use frame_analysis::nodes::node::{Node, NodeTraits, SupportType};
use frame_analysis::numbers::rational::Rational;
use frame_analysis::spans::span::Span;
use frame_analysis::spans::traits::SpanBuilder;

fn q(x: i64) -> Rational {
    Rational::from_int(x)
}

fn span_between(near: SupportType, far: SupportType, length: i64) -> Span {
    let start_node = Node::new(q(0), q(0), near);
    let end_node = Node::new(q(length), q(0), far);
    Span::new(start_node, end_node, vec![], vec![Default::default()]).unwrap()
}

#[test]
fn point_load_test_point_load_with_fixed_ends() {
    let load = PunctualLoad { value: q(40), x: q(6) };
    let span = span_between(SupportType::Fixed, SupportType::Fixed, 12);
    assert_eq!(q(-60), load.fem_a(&span));
    assert_eq!(q(60), load.fem_b(&span));
}

#[test]
fn point_load_test2_point_load_with_fixed_ends() {
    let load = PunctualLoad { value: q(40), x: q(2) };
    let span = span_between(SupportType::Fixed, SupportType::Fixed, 4);
    assert_eq!(q(-20), load.fem_a(&span));
    assert_eq!(q(20), load.fem_b(&span));
}

#[test]
fn test_point_load_with_fixed_end_and_free_end() {
    let load = PunctualLoad { value: q(40), x: q(6) };
    let span = span_between(SupportType::Fixed, SupportType::Hinged, 12);
    assert_eq!(q(-90), load.fem_a(&span));
    assert_eq!(q(0), load.fem_b(&span));
}

#[test]
fn test_point_load_with_free_end_and_fixed_end() {
    let load = PunctualLoad { value: q(40), x: q(6) };
    let span = span_between(SupportType::Hinged, SupportType::Fixed, 12);
    assert_eq!(q(0), load.fem_a(&span));
    assert_eq!(q(90), load.fem_b(&span));
}

fn uniform_twenty_over_six() -> DistributedLoad {
    DistributedLoad {
        start_value: q(20),
        end_value: q(20),
        x0: q(0),
        xf: q(6),
        tg: q(0),
        x_centroid: q(3),
        total_force: q(120),
    }
}

#[test]
fn test_distributed_load_with_fixed_supports() {
    let start_node = Node::new(q(0), q(0), SupportType::Fixed);
    let end_node = Node::new(q(6), q(0), SupportType::Fixed);
    let span = Span::new(start_node, end_node, vec![uniform_twenty_over_six()], vec![]).unwrap();

    let distributed_load = uniform_twenty_over_six();
    assert_eq!(distributed_load.fem_a(&span), q(-60));
    assert_eq!(distributed_load.fem_b(&span), q(60));
}

fn frac(n: i64, d: i64) -> Rational {
    Rational::from_ratio(n, d).unwrap()
}

/// A load over the whole of a span of length 6, with its slope, its
/// resultant and the place of its resultant as the intensities make them.
fn trapezoid(start_value: i64, end_value: i64) -> DistributedLoad {
    let total = 3 * (start_value + end_value);
    let moment = 6 * start_value + 12 * end_value;
    DistributedLoad {
        start_value: q(start_value),
        end_value: q(end_value),
        x0: q(0),
        xf: q(6),
        tg: frac(end_value - start_value, 6),
        x_centroid: frac(moment, total),
        total_force: q(total),
    }
}

#[test]
fn point_load_between_ends_free_to_turn() {
    let load = PunctualLoad { value: q(40), x: q(6) };
    for (near, far) in [
        (SupportType::Hinged, SupportType::Hinged),
        (SupportType::Hinged, SupportType::Roller),
        (SupportType::Roller, SupportType::Hinged),
        (SupportType::Roller, SupportType::Roller),
    ] {
        let span = span_between(near, far, 12);
        assert_eq!(load.fem(&span), [q(0), q(0)]);
    }
}

#[test]
fn point_load_off_centre() {
    let load = PunctualLoad { value: q(7), x: q(1) };
    // -7 * 1 * 16 / 25 and 4 * 1 * 7 / 25
    let span = span_between(SupportType::Fixed, SupportType::Fixed, 5);
    assert_eq!(load.fem_a(&span), frac(-112, 25));
    assert_eq!(load.fem_b(&span), frac(28, 25));
    // -(7 / 25) * (16 * 1 + 1 * 4 / 2)
    let span = span_between(SupportType::Fixed, SupportType::Roller, 5);
    assert_eq!(load.fem(&span), [frac(-126, 25), q(0)]);
    // (7 / 25) * (16 * 1 / 2 + 1 * 4)
    let span = span_between(SupportType::Roller, SupportType::Fixed, 5);
    assert_eq!(load.fem(&span), [q(0), frac(84, 25)]);
}

#[test]
fn mirrored_point_load_gives_the_opposite_moment_at_the_other_end() {
    let span = span_between(SupportType::Fixed, SupportType::Fixed, 5);
    let load = PunctualLoad { value: q(7), x: q(1) };
    let mirrored = PunctualLoad { value: q(7), x: q(4) };
    assert_eq!(load.fem_a(&span), mirrored.fem_b(&span).neg());
    assert_eq!(load.fem_b(&span), mirrored.fem_a(&span).neg());
}

#[test]
fn default_loads_are_zero() {
    let span = span_between(SupportType::Fixed, SupportType::Fixed, 5);
    let point: PunctualLoad = Default::default();
    assert_eq!(point.value, q(0));
    assert_eq!(point.x, q(0));
    assert_eq!(point.fem(&span), [q(0), q(0)]);
    let spread: DistributedLoad = Default::default();
    assert_eq!(spread.start_value, q(0));
    assert_eq!(spread.total_force, q(0));
    assert_eq!(spread.fem(&span), [q(0), q(0)]);
    assert_eq!(spread.resultant(), q(0));
    assert_eq!(spread.first_moment(), q(0));
}

#[test]
fn resultant_and_moment_of_a_distributed_load() {
    // uniform: 20 * 6 at the middle of the range
    assert_eq!(trapezoid(20, 20).resultant(), q(120));
    assert_eq!(trapezoid(20, 20).first_moment(), q(360));
    assert_eq!(trapezoid(20, 20).x_centroid, q(3));
    // (30 + 10) / 2 * 6, and 6 * (30 * 6 + 10 * 12) / 6
    assert_eq!(trapezoid(30, 10).resultant(), q(120));
    assert_eq!(trapezoid(30, 10).first_moment(), q(300));
    // a triangle from nothing to 9 over a range of 6 acts at two thirds of it
    assert_eq!(trapezoid(0, 9).resultant(), q(27));
    assert_eq!(trapezoid(0, 9).first_moment(), q(27 * 4));
    // over a part of the span: from 4 at 2 to 10 at 5
    let part = DistributedLoad {
        start_value: q(4),
        end_value: q(10),
        x0: q(2),
        xf: q(5),
        tg: q(2),
        x_centroid: frac(26, 7),
        total_force: q(21),
    };
    assert_eq!(part.resultant(), q(21));
    assert_eq!(part.first_moment(), q(78));
    assert_eq!(part.first_moment(), part.total_force.mul(&part.x_centroid));
}

#[test]
fn trapezoidal_load_between_fixed_ends() {
    // -(30 - 10) * 36 / 20 + 10 * 36 / 12 and (30 - 10) * 36 / 30 + 10 * 36 / 12
    let span = span_between(SupportType::Fixed, SupportType::Fixed, 6);
    assert_eq!(trapezoid(30, 10).fem_a(&span), q(-6));
    assert_eq!(trapezoid(30, 10).fem_b(&span), q(54));
    assert_eq!(trapezoid(30, 10).clone().fem(&span), [q(-6), q(54)]);
}

#[test]
fn distributed_load_with_only_the_near_end_fixed() {
    for far in [SupportType::Hinged, SupportType::Roller] {
        let span = span_between(SupportType::Fixed, far, 6);
        // -20 * 36 / 8
        assert_eq!(trapezoid(20, 20).fem(&span), [q(-90), q(0)]);
        // -(30 - 10) * 36 / 20 + 10 * 36 / 15
        assert_eq!(trapezoid(30, 10).fem(&span), [q(-12), q(0)]);
    }
}

#[test]
fn distributed_load_with_only_the_far_end_fixed() {
    for near in [SupportType::Hinged, SupportType::Roller] {
        let span = span_between(near, SupportType::Fixed, 6);
        assert_eq!(trapezoid(20, 20).fem(&span), [q(0), q(90)]);
        // read from the far end the load runs from 10 to 30:
        // -(-(10 - 30) * 36 / 20 + 30 * 36 / 15)
        assert_eq!(trapezoid(30, 10).fem(&span), [q(0), q(-108)]);
    }
}

#[test]
fn distributed_load_between_ends_free_to_turn() {
    let span = span_between(SupportType::Hinged, SupportType::Roller, 6);
    assert_eq!(trapezoid(20, 20).fem(&span), [q(0), q(0)]);
    assert_eq!(trapezoid(30, 10).fem(&span), [q(0), q(0)]);
}

#[test]
fn mirrored_point_load_on_a_mirrored_span() {
    let load = PunctualLoad { value: q(7), x: q(1) };
    let mirrored = PunctualLoad { value: q(7), x: q(4) };
    let span = span_between(SupportType::Fixed, SupportType::Roller, 5);
    let turned = span_between(SupportType::Roller, SupportType::Fixed, 5);
    assert_eq!(load.fem_a(&span), frac(-126, 25));
    assert_eq!(mirrored.fem_b(&turned), frac(126, 25));
    assert_eq!(load.fem_b(&span), mirrored.fem_a(&turned).neg());
}
