use frame_analysis::errors::FrameError;
use frame_analysis::frames::elimination::gaussian_elimination;
use frame_analysis::frames::frame::{Element, Frame, MaterialProperties};
use frame_analysis::frames::matrix::multiply_matrices;
use frame_analysis::nodes::node::{Node, NodeTraits, SupportType};
use frame_analysis::numbers::rational::Rational;

fn q(x: i64) -> Rational {
    Rational::from_int(x)
}

fn frac(n: i64, d: i64) -> Rational {
    Rational::from_ratio(n, d).unwrap()
}

fn element(start: usize, end: usize, length: i64, e: i64, i: i64) -> Element {
    Element {
        nodes: [start, end],
        length: q(length),
        material_properties: MaterialProperties {
            modulus_of_elasticity: q(e),
            moment_of_inertia: q(i),
        },
    }
}

#[test]
fn test_frame_analysis() {
    let node1 = Node::new(q(0), q(0), SupportType::Fixed);
    let node2 = Node::new(q(4), q(0), SupportType::Hinged);
    let node3 = Node::new(q(4), q(3), SupportType::Hinged);
    let nodes = vec![node1, node2, node3];
    let elements = vec![element(0, 1, 4, 1, 1), element(1, 2, 3, 1, 1)];
    let supports = vec![0];
    let loads = vec![(2, q(10))];
    let frame = Frame::new(nodes, elements, loads, supports).unwrap();

    let internal_forces = frame.calculate_internal_forces().unwrap();

    assert_eq!(internal_forces.len(), 2);
    assert_eq!(internal_forces[0].0, q(-10));
    assert_eq!(internal_forces[0].1, q(-40));
    assert_eq!(internal_forces[1].0, q(0));
    assert_eq!(internal_forces[1].1, q(10));
}

#[test]
fn cantilever_under_a_tip_load() {
    let nodes = vec![
        Node::new(q(0), q(0), SupportType::Fixed),
        Node::new(q(4), q(0), SupportType::Roller),
    ];
    let frame = Frame::new(nodes, vec![element(0, 1, 4, 1, 1)], vec![(1, q(10))], vec![0]).unwrap();
    assert_eq!(frame.node_count(), 2);
    assert_eq!(frame.size(), 4);
    // tip deflection P l^3 / 3 EI and tip rotation P l^2 / 2 EI
    let d = frame.displacements().unwrap();
    assert_eq!(d, vec![q(0), q(0), frac(640, 3), q(80)]);
    let forces = frame.internal_forces(&d);
    assert_eq!(forces, vec![(q(-10), q(-40))]);
}

#[test]
fn frame_without_supports_is_singular() {
    let nodes = vec![
        Node::new(q(0), q(0), SupportType::Fixed),
        Node::new(q(4), q(0), SupportType::Fixed),
    ];
    let frame = Frame::new(nodes, vec![element(0, 1, 4, 1, 1)], vec![(1, q(10))], vec![]).unwrap();
    assert_eq!(frame.displacements(), Err(FrameError::SingularSystem));
    assert_eq!(frame.calculate_internal_forces(), Err(FrameError::SingularSystem));
}

#[test]
fn two_elements_between_fixed_ends() {
    let nodes = vec![
        Node::new(q(0), q(0), SupportType::Fixed),
        Node::new(q(2), q(0), SupportType::Roller),
        Node::new(q(4), q(0), SupportType::Fixed),
    ];
    let elements = vec![element(0, 1, 2, 1, 1), element(1, 2, 2, 1, 1)];
    let frame = Frame::new(nodes, elements, vec![(1, q(-12))], vec![0, 2]).unwrap();
    let d = frame.displacements().unwrap();
    assert_eq!(d, vec![q(0), q(0), q(-4), q(0), q(0), q(0)]);
    assert_eq!(
        frame.calculate_internal_forces().unwrap(),
        vec![(q(6), q(6)), (q(-6), q(-6))]
    );
}

#[test]
fn supports_take_their_settlement() {
    let nodes = vec![
        Node::new(q(0), q(1), SupportType::Fixed),
        Node::new(q(4), q(1), SupportType::Roller),
    ];
    let frame = Frame::new(nodes, vec![element(0, 1, 4, 2, 3)], vec![(1, q(5))], vec![0]).unwrap();
    let d = frame.displacements().unwrap();
    assert_eq!(d[0], q(1));
    assert_eq!(d[1], q(0));
    assert_eq!(d, vec![q(1), q(0), frac(160, 9), frac(20, 3)]);
    assert_eq!(frame.internal_forces(&d), vec![(frac(-31, 8), frac(-71, 4))]);
}

#[test]
fn unloaded_frame_is_at_rest() {
    let nodes = vec![
        Node::new(q(0), q(0), SupportType::Fixed),
        Node::new(q(3), q(0), SupportType::Hinged),
        Node::new(q(7), q(0), SupportType::Roller),
    ];
    let elements = vec![element(0, 1, 3, 2, 5), element(1, 2, 4, 2, 5)];
    let frame = Frame::new(nodes, elements, vec![(1, q(0))], vec![0]).unwrap();
    let d = frame.displacements().unwrap();
    assert_eq!(d, vec![q(0), q(0), q(0), q(0), q(0), q(0)]);
    assert_eq!(
        frame.calculate_internal_forces().unwrap(),
        vec![(q(0), q(0)), (q(0), q(0))]
    );
}

#[test]
fn later_load_on_a_joint_replaces_the_earlier() {
    let nodes = vec![
        Node::new(q(0), q(0), SupportType::Fixed),
        Node::new(q(4), q(0), SupportType::Roller),
    ];
    let loads = vec![(1, q(3)), (1, q(10))];
    let frame = Frame::new(nodes, vec![element(0, 1, 4, 1, 1)], loads, vec![0]).unwrap();
    let system = frame.constrained_system();
    assert_eq!(system.1, vec![q(0), q(0), q(10), q(0)]);
}

#[test]
fn stiffness_matrix_of_one_element() {
    let nodes = vec![
        Node::new(q(0), q(0), SupportType::Fixed),
        Node::new(q(2), q(0), SupportType::Roller),
    ];
    let frame = Frame::new(nodes, vec![element(0, 1, 2, 4, 1)], vec![], vec![0]).unwrap();
    // EI / l^3 = 1/2
    let k = frame.stiffness_matrix();
    assert_eq!(
        k,
        vec![
            vec![q(6), q(6), q(-6), q(6)],
            vec![q(6), q(8), q(-6), q(4)],
            vec![q(-6), q(-6), q(6), q(-6)],
            vec![q(6), q(4), q(-6), q(8)],
        ]
    );
    assert_eq!(frame.element_stiffness(0), k);
    assert_eq!(
        frame.element_transform(0),
        vec![
            vec![q(1), q(0), q(0), q(0)],
            vec![q(0), q(1), q(0), q(0)],
            vec![q(0), q(0), q(1), q(0)],
            vec![q(0), q(0), q(0), q(1)],
        ]
    );
    let system = frame.constrained_system();
    assert_eq!(
        system.0,
        vec![
            vec![q(1), q(0), q(0), q(0)],
            vec![q(0), q(1), q(0), q(0)],
            vec![q(0), q(0), q(6), q(-6)],
            vec![q(0), q(0), q(-6), q(8)],
        ]
    );
}

#[test]
fn inclined_element_is_turned() {
    let nodes = vec![
        Node::new(q(0), q(0), SupportType::Fixed),
        Node::new(q(4), q(3), SupportType::Roller),
    ];
    let frame = Frame::new(nodes, vec![element(0, 1, 5, 1, 1)], vec![], vec![0]).unwrap();
    let t = frame.element_transform(0);
    assert_eq!(t[0], vec![frac(4, 5), frac(3, 5), q(0), q(0)]);
    assert_eq!(t[1], vec![frac(-3, 5), frac(4, 5), q(0), q(0)]);
    assert_eq!(t[2], vec![q(0), q(0), frac(4, 5), frac(3, 5)]);
    assert_eq!(t[3], vec![q(0), q(0), frac(-3, 5), frac(4, 5)]);
}

#[test]
fn frame_refuses_what_is_not_well_formed() {
    let two = || {
        vec![
            Node::new(q(0), q(0), SupportType::Fixed),
            Node::new(q(4), q(0), SupportType::Roller),
        ]
    };
    // an element to a joint that does not exist
    let r = Frame::new(two(), vec![element(0, 2, 4, 1, 1)], vec![], vec![0]);
    assert_eq!(r.err(), Some(FrameError::InvalidGeometry));
    // an element without length
    let r = Frame::new(two(), vec![element(0, 1, 0, 1, 1)], vec![], vec![0]);
    assert_eq!(r.err(), Some(FrameError::InvalidGeometry));
    // an element without positive flexural rigidity
    let r = Frame::new(two(), vec![element(0, 1, 4, 0, 1)], vec![], vec![0]);
    assert_eq!(r.err(), Some(FrameError::InvalidGeometry));
    let r = Frame::new(two(), vec![element(0, 1, 4, 3, -2)], vec![], vec![0]);
    assert_eq!(r.err(), Some(FrameError::InvalidGeometry));
    assert!(Frame::new(two(), vec![element(0, 1, 4, -3, -2)], vec![], vec![0]).is_ok());
    // an element that is not as long as its joints are apart
    let r = Frame::new(two(), vec![element(0, 1, 5, 1, 1)], vec![], vec![0]);
    assert_eq!(r.err(), Some(FrameError::InvalidGeometry));
    let r = Frame::new(two(), vec![element(0, 0, 4, 1, 1)], vec![], vec![0]);
    assert_eq!(r.err(), Some(FrameError::InvalidGeometry));
    // an element may run backwards
    assert!(Frame::new(two(), vec![element(1, 0, 4, 1, 1)], vec![], vec![0]).is_ok());
    // a load on a joint that does not exist
    let r = Frame::new(two(), vec![element(0, 1, 4, 1, 1)], vec![(5, q(1))], vec![0]);
    assert_eq!(r.err(), Some(FrameError::InvalidGeometry));
    // a support that does not exist
    let r = Frame::new(two(), vec![element(0, 1, 4, 1, 1)], vec![], vec![2]);
    assert_eq!(r.err(), Some(FrameError::InvalidGeometry));
    assert!(Frame::new(two(), vec![element(0, 1, 4, 1, 1)], vec![], vec![0]).is_ok());
}

#[test]
fn elimination_exchanges_rows_for_a_pivot() {
    let a = vec![vec![q(0), q(1)], vec![q(1), q(0)]];
    let b = vec![q(2), q(3)];
    assert_eq!(gaussian_elimination(&a, &b), Ok(vec![q(3), q(2)]));
}

#[test]
fn elimination_solves_three_equations() {
    let a = vec![
        vec![q(2), q(1), q(-1)],
        vec![q(-3), q(-1), q(2)],
        vec![q(-2), q(1), q(2)],
    ];
    let b = vec![q(8), q(-11), q(-3)];
    assert_eq!(gaussian_elimination(&a, &b), Ok(vec![q(2), q(3), q(-1)]));
    // the arguments are left as they were
    assert_eq!(a[0], vec![q(2), q(1), q(-1)]);
}

#[test]
fn elimination_reports_a_singular_matrix() {
    let a = vec![vec![q(1), q(2)], vec![q(2), q(4)]];
    let b = vec![q(1), q(2)];
    assert_eq!(gaussian_elimination(&a, &b), Err(FrameError::SingularSystem));
    let empty: Vec<Vec<Rational>> = vec![];
    assert_eq!(gaussian_elimination(&empty, &vec![]), Ok(vec![]));
}

#[test]
fn matrix_times_vector() {
    let a = vec![vec![q(1), q(2)], vec![q(3), q(4)], vec![frac(1, 2), frac(-1, 3)]];
    let b = vec![q(5), q(6)];
    assert_eq!(multiply_matrices(&a, &b), vec![q(17), q(39), frac(1, 2)]);
}

#[test]
fn inclined_elements_in_a_ring_are_solved_even_without_supports() {
    // a triangle with sides 4, 3 and 5
    let nodes = vec![
        Node::new(q(0), q(0), SupportType::Roller),
        Node::new(q(4), q(0), SupportType::Roller),
        Node::new(q(4), q(3), SupportType::Roller),
    ];
    let elements = vec![element(0, 1, 4, 1, 1), element(1, 2, 3, 1, 1), element(0, 2, 5, 1, 1)];
    let frame = Frame::new(nodes, elements, vec![(1, q(10))], vec![]).unwrap();
    let d = frame.displacements().unwrap();
    assert_eq!(
        d,
        vec![
            frac(85, 49),
            frac(555, 196),
            frac(920, 49),
            frac(4465, 588),
            frac(-155, 98),
            frac(-7235, 588),
        ]
    );
    assert_eq!(
        frame.internal_forces(&d),
        vec![
            (frac(5, 7), frac(5, 21)),
            (frac(-55, 21), frac(-75, 7)),
            (frac(-5, 7), frac(5, 21)),
        ]
    );
}

#[test]
fn level_frames_without_supports_are_singular() {
    let nodes = vec![
        Node::new(q(0), q(2), SupportType::Fixed),
        Node::new(q(3), q(2), SupportType::Hinged),
        Node::new(q(7), q(2), SupportType::Roller),
    ];
    let elements = vec![element(0, 1, 3, 2, 5), element(1, 2, 4, 2, 5), element(0, 2, 7, 1, 1)];
    let frame = Frame::new(nodes, elements, vec![(1, q(4))], vec![]).unwrap();
    assert_eq!(frame.displacements(), Err(FrameError::SingularSystem));
}

#[test]
fn beam_of_eight_elements_between_fixed_ends() {
    let nodes: Vec<Node> = (0..9).map(|i| Node::new(q(i), q(0), SupportType::Roller)).collect();
    let elements: Vec<Element> = (0..8).map(|i| element(i, i + 1, 1, 1, 1)).collect();
    let frame = Frame::new(nodes, elements, vec![(3, q(-5)), (6, q(2))], vec![0, 8]).unwrap();
    assert_eq!(frame.size(), 18);
    let d = frame.displacements().unwrap();
    assert_eq!(d[0], q(0));
    assert_eq!(d[1], q(0));
    assert_eq!(d[2], frac(-1043, 512));
    assert_eq!(d[3], frac(-1821, 512));
    assert_eq!(d[8], frac(-103, 12));
    assert_eq!(d[10], frac(-8965, 1536));
    assert_eq!(d[15], frac(675, 512));
    assert_eq!(d[16], q(0));
    assert_eq!(d[17], q(0));
    let forces = frame.internal_forces(&d);
    assert_eq!(forces[0], (frac(795, 256), frac(327, 64)));
    assert_eq!(forces[3], (frac(-485, 256), frac(-1077, 256)));
    assert_eq!(forces[7], (frac(27, 256), frac(351, 256)));
}

#[test]
fn beam_of_twelve_elements_over_three_supports() {
    let nodes: Vec<Node> =
        (0..13).map(|i| Node::new(q(2 * i), q(0), SupportType::Hinged)).collect();
    let elements: Vec<Element> = (0..12).map(|i| element(i, i + 1, 2, 3, 7)).collect();
    let loads = vec![(3, q(-5)), (6, q(2)), (9, q(1))];
    let frame = Frame::new(nodes, elements, loads, vec![0, 5, 12]).unwrap();
    let d = frame.displacements().unwrap();
    assert_eq!(d.len(), 26);
    assert_eq!(d[6], frac(-192, 175));
    assert_eq!(d[13], frac(486, 2401));
    let forces = frame.calculate_internal_forces().unwrap();
    assert_eq!(forces[4], (frac(-81, 25), frac(18, 25)));
    assert_eq!(forces[11], (frac(246, 343), frac(-348, 343)));
}

#[test]
fn stiffness_of_an_inclined_element() {
    let nodes = vec![
        Node::new(q(0), q(0), SupportType::Fixed),
        Node::new(q(4), q(3), SupportType::Roller),
    ];
    let frame = Frame::new(nodes, vec![element(0, 1, 5, 1, 1)], vec![], vec![0]).unwrap();
    let g = frame.element_stiffness(0);
    assert_eq!(
        g,
        vec![
            vec![frac(372, 3125), frac(-846, 3125), frac(258, 3125), frac(6, 3125)],
            vec![frac(-846, 3125), frac(2428, 3125), frac(-1494, 3125), frac(692, 3125)],
            vec![frac(258, 3125), frac(-1494, 3125), frac(1812, 3125), frac(-1266, 3125)],
            vec![frac(6, 3125), frac(692, 3125), frac(-1266, 3125), frac(988, 3125)],
        ]
    );
    assert_eq!(frame.stiffness_matrix(), g);
}

#[test]
fn frame_with_every_joint_supported() {
    let nodes = vec![
        Node::new(q(0), q(1), SupportType::Fixed),
        Node::new(q(4), q(1), SupportType::Fixed),
        Node::new(q(8), q(3), SupportType::Hinged),
    ];
    let frame =
        Frame::new(nodes, vec![element(0, 1, 4, 2, 1)], vec![(1, q(3))], vec![0, 1, 2, 1]).unwrap();
    let d = frame.displacements().unwrap();
    assert_eq!(d, vec![q(1), q(0), q(1), q(0), q(3), q(0)]);
    assert_eq!(frame.calculate_internal_forces().unwrap(), vec![(q(0), q(0))]);
}

#[test]
fn frame_without_joints_has_nothing_to_solve() {
    let frame = Frame::new(vec![], vec![], vec![], vec![]).unwrap();
    assert_eq!(frame.size(), 0);
    assert_eq!(frame.displacements(), Ok(vec![]));
    assert_eq!(frame.calculate_internal_forces(), Ok(vec![]));
}
