use mwpf_web::actions::ActionEntry;
use mwpf_web::codes::{observable_on_line, ServerCodeInfo};
use mwpf_web::color::TriangularColorCodeBitFlip;
use mwpf_web::display::{color_code_id, color_code_name, decimal_string, rotated_code_id, rotated_code_name, Color};
use mwpf_web::graph::{compile_actions, same_set, subset, vertex_set};
use mwpf_web::noise::{NoiseType, Pauli};
use mwpf_web::rotated::RotatedSurfaceCode;
use mwpf_web::sites::{find_site, shift};

#[test]
fn test_rotated_surface_code() {
    let code = RotatedSurfaceCode::new(3, NoiseType::Depolarize);
    println!("{:?}", code);
    let info = ServerCodeInfo::from_rotated_surface_code(code);
    println!("{:?}\n\n", info);
}

#[test]
fn test_triangular_color_code_bit_flip() {
    let code = TriangularColorCodeBitFlip::new(3);
    println!("{:?}", code);
    let info = ServerCodeInfo::from_triangular_color_code(code);
    println!("{:?}\n\n", info);
}

#[test]
fn test_code_info() {
    let info = ServerCodeInfo::from_rotated_surface_code(RotatedSurfaceCode::new(3, NoiseType::Depolarize));
    assert_eq!(info.client_info.id, "rsc-depolarize-d-3");
    assert_eq!(info.client_info.name, "Surface Code (d=3)");
    assert_eq!(info.client_info.d, 3);
}

#[test]
fn noise_has_error_by_label() {
    for label in ["X", "Y", "Z"] {
        assert!(NoiseType::Depolarize.has_error(label));
    }
    assert!(NoiseType::BitFlip.has_error("X"));
    assert!(!NoiseType::BitFlip.has_error("Y"));
    assert!(!NoiseType::BitFlip.has_error("Z"));
    assert!(NoiseType::OnlyY.has_error("Y"));
    assert!(!NoiseType::OnlyY.has_error("X"));
    assert!(!NoiseType::Depolarize.has_error("I"));
    assert!(!NoiseType::Depolarize.has_error(""));
    assert!(!NoiseType::Depolarize.has_error("XX"));
    assert!(!NoiseType::Depolarize.has_error("x"));
}

#[test]
fn noise_permits_by_operator() {
    assert!(NoiseType::Depolarize.permits(Pauli::Z));
    assert!(NoiseType::BitFlip.permits(Pauli::X));
    assert!(!NoiseType::BitFlip.permits(Pauli::Z));
    assert!(NoiseType::OnlyY.permits(Pauli::Y));
    assert!(!NoiseType::OnlyY.permits(Pauli::X));
    assert_eq!(NoiseType::default(), NoiseType::Depolarize);
}

#[test]
fn noise_and_pauli_names() {
    assert_eq!(NoiseType::Depolarize.to_string(), "depolarize");
    assert_eq!(NoiseType::BitFlip.to_string(), "bit-flip");
    assert_eq!(NoiseType::OnlyY.to_string(), "only-Y");
    assert_eq!(NoiseType::Depolarize.title(), "Depolarize");
    assert_eq!(NoiseType::BitFlip.title(), "Bit-Flip");
    assert_eq!(NoiseType::OnlyY.title(), "Only Y");
    assert_eq!(Pauli::X.label(), "X");
    assert_eq!(Pauli::Y.label(), "Y");
    assert_eq!(Pauli::Z.label(), "Z");
    assert_eq!(Pauli::from_label("Z"), Some(Pauli::Z));
    assert_eq!(Pauli::from_label("Q"), None);
    assert_eq!(Pauli::from_label("ZZ"), None);
}

#[test]
fn rotated_data_qubit_count_is_distance_squared() {
    for d in [1usize, 2, 3, 4, 5, 7] {
        for noise in [NoiseType::Depolarize, NoiseType::BitFlip, NoiseType::OnlyY] {
            let code = RotatedSurfaceCode::new(d, noise);
            assert_eq!(code.data_qubit_positions.len(), d * d);
        }
    }
}

#[test]
fn rotated_data_qubits_do_not_depend_on_noise() {
    let a = RotatedSurfaceCode::new(5, NoiseType::Depolarize);
    let b = RotatedSurfaceCode::new(5, NoiseType::BitFlip);
    let c = RotatedSurfaceCode::new(5, NoiseType::OnlyY);
    assert_eq!(a.data_qubit_positions, b.data_qubit_positions);
    assert_eq!(a.data_qubit_positions, c.data_qubit_positions);
    assert_eq!(a.stabilizer_positions.len(), 24);
    assert_eq!(b.stabilizer_positions.len(), 12);
    assert_eq!(c.stabilizer_positions.len(), 24);
}

#[test]
fn rotated_distance_three_lattice() {
    let code = RotatedSurfaceCode::new(3, NoiseType::Depolarize);
    assert_eq!(
        code.data_qubit_positions,
        vec![(1, 1), (1, 3), (1, 5), (3, 1), (3, 3), (3, 5), (5, 1), (5, 3), (5, 5)]
    );
    assert_eq!(
        code.stabilizer_positions,
        vec![(0, 4), (2, 0), (2, 2), (2, 4), (4, 2), (4, 4), (4, 6), (6, 2)]
    );
    assert_eq!(
        code.stabilizer_types,
        vec![Pauli::Z, Pauli::X, Pauli::Z, Pauli::X, Pauli::X, Pauli::Z, Pauli::X, Pauli::Z]
    );
    assert_eq!(code.data_qubit_positions.len(), 9);
    assert_eq!(code.stabilizer_positions.len(), 8);
}

#[test]
fn rotated_site_predicates() {
    let code = RotatedSurfaceCode::new(3, NoiseType::Depolarize);
    assert!(!code.is_qubit(0, 0));
    assert!(code.is_qubit(0, 4));
    assert!(!code.is_qubit(0, 2));
    assert!(code.is_qubit(6, 2));
    assert!(!code.is_qubit(6, 4));
    assert!(code.is_qubit(2, 0));
    assert!(!code.is_qubit(4, 0));
    assert!(code.is_qubit(4, 6));
    assert!(!code.is_qubit(2, 6));
    assert!(!code.is_qubit(7, 1));
    assert!(!code.is_qubit(1, 7));
    assert!(!code.is_qubit(1, 2));
    assert!(code.is_data_qubit(1, 1));
    assert!(!code.is_data_qubit(2, 2));
    assert!(code.is_stabilizer(2, 2));
    assert!(code.is_z_stabilizer(2, 2));
    assert!(!code.is_x_stabilizer(2, 2));
    assert!(code.is_x_stabilizer(2, 4));
    assert!(!code.is_z_stabilizer(2, 4));
    assert!(!code.is_x_stabilizer(1, 1));
    let flips = RotatedSurfaceCode::new(3, NoiseType::BitFlip);
    assert!(flips.is_stabilizer(2, 2));
    assert!(!flips.is_stabilizer(2, 4));
    assert!(!flips.is_x_stabilizer(2, 4));
    assert_eq!(flips.stabilizer_positions, vec![(0, 4), (2, 2), (4, 4), (6, 2)]);
}

#[test]
fn rotated_actions_follow_the_noise() {
    let code = RotatedSurfaceCode::new(3, NoiseType::Depolarize);
    let first = &code.data_qubit_actions[0];
    assert_eq!(first.x, Some(vec![2]));
    assert_eq!(first.y, Some(vec![2, 1]));
    assert_eq!(first.z, Some(vec![1]));
    assert_eq!(first.get(Pauli::Y), Some(&vec![2, 1]));
    assert_eq!(first.error_count(), 3);
    let centre = &code.data_qubit_actions[4];
    assert_eq!(centre.y, Some(vec![2, 3, 5, 4]));
    assert_eq!(centre.x, Some(vec![2, 5]));
    assert_eq!(centre.z, Some(vec![3, 4]));
    let flips = RotatedSurfaceCode::new(3, NoiseType::BitFlip);
    for entry in flips.data_qubit_actions.iter() {
        assert!(entry.x.is_some());
        assert!(entry.y.is_none());
        assert!(entry.z.is_none());
        assert_eq!(entry.error_count(), 1);
    }
    let only_y = RotatedSurfaceCode::new(3, NoiseType::OnlyY);
    for entry in only_y.data_qubit_actions.iter() {
        assert!(entry.x.is_none());
        assert!(entry.y.is_some());
        assert!(entry.z.is_none());
    }
}

#[test]
fn rotated_checks_have_two_or_four_qubits() {
    for d in [1usize, 2, 3, 5] {
        for noise in [NoiseType::Depolarize, NoiseType::BitFlip, NoiseType::OnlyY] {
            let code = RotatedSurfaceCode::new(d, noise);
            let checks = code.stabilizer_checks();
            assert_eq!(checks.len(), code.stabilizer_positions.len());
            for (k, check) in checks.iter().enumerate() {
                let (i, j) = code.stabilizer_positions[k];
                let interior = i > 0 && j > 0 && i < 2 * d && j < 2 * d;
                assert_eq!(check.len(), if interior { 4 } else { 2 });
                for (_, basis) in check.iter() {
                    assert_eq!(*basis, code.stabilizer_types[k]);
                }
            }
        }
    }
    let code = RotatedSurfaceCode::new(3, NoiseType::Depolarize);
    let checks = code.stabilizer_checks();
    assert_eq!(checks[0], vec![(2, Pauli::Z), (1, Pauli::Z)]);
    assert_eq!(checks[2], vec![(0, Pauli::Z), (1, Pauli::Z), (4, Pauli::Z), (3, Pauli::Z)]);
}

#[test]
fn rotated_colors_follow_the_basis() {
    let code = RotatedSurfaceCode::new(3, NoiseType::Depolarize);
    let colors = code.stabilizer_colors();
    assert_eq!(
        colors,
        vec![
            Color::Green,
            Color::Blue,
            Color::Green,
            Color::Blue,
            Color::Blue,
            Color::Green,
            Color::Blue,
            Color::Green
        ]
    );
    assert_eq!(Color::Red.hex(), "#ffe8e8");
    assert_eq!(Color::Green.hex(), "#e8f5e8");
    assert_eq!(Color::Blue.hex(), "#e8f0ff");
}

#[test]
fn color_distance_three_matches_reference() {
    let code = TriangularColorCodeBitFlip::new(3);
    assert_eq!(code.rows(), 4);
    assert_eq!(code.columns(), 5);
    assert_eq!(code.range_for_row(0), 0..5);
    assert_eq!(code.range_for_row(1), 1..5);
    assert_eq!(code.range_for_row(2), 1..4);
    assert_eq!(code.range_for_row(3), 2..3);
    assert_eq!(
        code.data_qubit_positions,
        vec![(0, 0), (0, 3), (0, 4), (1, 1), (1, 2), (2, 3), (3, 2)]
    );
    assert_eq!(code.stabilizer_positions, vec![(0, 1), (1, 3), (2, 1)]);
    assert_eq!(code.stabilizer_types, vec![Pauli::Z, Pauli::Z, Pauli::Z]);
    assert_eq!(code.data_qubit_actions[0].x, Some(vec![0]));
    assert_eq!(code.data_qubit_actions[4].x, Some(vec![1, 0, 2]));
    assert!(code.data_qubit_actions[0].y.is_none());
    assert!(code.data_qubit_actions[0].z.is_none());
    let info = ServerCodeInfo::from_triangular_color_code(code);
    assert_eq!(info.client_info.data_qubit_positions.len(), 7);
    assert_eq!(info.client_info.logical_observables.len(), 1);
    assert_eq!(
        info.client_info.logical_observables[0],
        vec![(0, Pauli::Z), (1, Pauli::Z), (2, Pauli::Z)]
    );
    assert_eq!(info.client_info.id, "color-d-3");
    assert_eq!(info.client_info.name, "Color Code (Bit-Flip, d=3)");
}

#[test]
fn color_site_predicates() {
    let code = TriangularColorCodeBitFlip::new(3);
    assert!(code.is_qubit(0, 0));
    assert!(!code.is_qubit(0, 5));
    assert!(!code.is_qubit(1, 0));
    assert!(!code.is_qubit(4, 2));
    assert!(code.is_qubit(3, 2));
    assert!(code.is_data_qubit(0, 3));
    assert!(!code.is_data_qubit(0, 1));
    assert!(code.is_z_stabilizer(0, 1));
    assert!(code.is_z_stabilizer(1, 3));
    assert!(!code.is_z_stabilizer(1, 1));
    assert!(!code.is_z_stabilizer(0, usize::MAX));
}

#[test]
fn color_checks_have_at_most_six_qubits() {
    for d in [1usize, 3, 5, 7] {
        let code = TriangularColorCodeBitFlip::new(d);
        let checks = code.stabilizer_checks();
        assert_eq!(checks.len(), code.stabilizer_positions.len());
        for check in checks.iter() {
            assert!(check.len() <= 6);
            assert!(check.len() >= 1);
        }
    }
    let code = TriangularColorCodeBitFlip::new(3);
    let checks = code.stabilizer_checks();
    assert_eq!(checks[0], vec![(1, Pauli::Z), (4, Pauli::Z), (3, Pauli::Z), (0, Pauli::Z)]);
    assert_eq!(code.stabilizer_colors(), vec![Color::Red, Color::Green, Color::Blue]);
    let five = TriangularColorCodeBitFlip::new(5);
    assert_eq!(five.data_qubit_positions.len(), 19);
    assert_eq!(five.stabilizer_positions.len(), 9);
}

#[test]
fn compiled_edges_are_pairwise_distinct() {
    for info in [
        ServerCodeInfo::from_rotated_surface_code(RotatedSurfaceCode::new(3, NoiseType::Depolarize)),
        ServerCodeInfo::from_rotated_surface_code(RotatedSurfaceCode::new(5, NoiseType::BitFlip)),
        ServerCodeInfo::from_rotated_surface_code(RotatedSurfaceCode::new(3, NoiseType::OnlyY)),
        ServerCodeInfo::from_triangular_color_code(TriangularColorCodeBitFlip::new(5)),
    ] {
        let edges = &info.solver_initializer.edges;
        assert_eq!(edges.len(), info.edge_errors.len());
        assert_eq!(info.solver_initializer.vertex_num, info.client_info.stabilizer_positions.len());
        for a in 0..edges.len() {
            assert!(!edges[a].is_empty());
            for w in edges[a].windows(2) {
                assert!(w[0] < w[1]);
            }
            for v in edges[a].iter() {
                assert!(*v < info.solver_initializer.vertex_num);
            }
            for b in (a + 1)..edges.len() {
                assert_ne!(edges[a], edges[b]);
            }
        }
    }
}

#[test]
fn compiled_edges_keep_the_first_error() {
    let info = ServerCodeInfo::from_rotated_surface_code(RotatedSurfaceCode::new(3, NoiseType::Depolarize));
    assert_eq!(info.solver_initializer.edges[0], vec![2]);
    assert_eq!(info.edge_errors[0], (0, Pauli::X));
    assert_eq!(info.solver_initializer.edges[1], vec![1, 2]);
    assert_eq!(info.edge_errors[1], (0, Pauli::Y));
    assert_eq!(info.solver_initializer.edges[2], vec![1]);
    assert_eq!(info.edge_errors[2], (0, Pauli::Z));
    let (graph, errors) = info.client_info.construct_graph();
    assert_eq!(graph.vertex_num, 8);
    assert_eq!(graph.edges, info.solver_initializer.edges);
    assert_eq!(errors, info.edge_errors);
}

#[test]
fn compile_skips_empty_and_repeated_footprints() {
    let actions = vec![
        ActionEntry { x: Some(vec![3, 1]), y: Some(vec![]), z: None },
        ActionEntry { x: Some(vec![1, 3, 3]), y: None, z: Some(vec![0]) },
    ];
    let (edges, errors) = compile_actions(&actions);
    assert_eq!(edges, vec![vec![1, 3], vec![0]]);
    assert_eq!(errors, vec![(0, Pauli::X), (1, Pauli::Z)]);
}

#[test]
fn vertex_sets_are_sorted_and_unique() {
    assert_eq!(vertex_set(&vec![5, 1, 5, 3, 1]), vec![1, 3, 5]);
    assert_eq!(vertex_set(&vec![]), Vec::<usize>::new());
    assert_eq!(vertex_set(&vec![usize::MAX, 0]), vec![0, usize::MAX]);
    assert!(same_set(&vec![1, 2, 2], &vec![2, 1]));
    assert!(!same_set(&vec![1, 2], &vec![1]));
    assert!(subset(&vec![1], &vec![1, 2]));
    assert!(!subset(&vec![1, 3], &vec![1, 2]));
}

#[test]
fn rotated_observables_run_along_a_line() {
    let info = ServerCodeInfo::from_rotated_surface_code(RotatedSurfaceCode::new(3, NoiseType::Depolarize));
    assert_eq!(info.client_info.logical_observables.len(), 2);
    assert_eq!(
        info.client_info.logical_observables[0],
        vec![(0, Pauli::Z), (3, Pauli::Z), (6, Pauli::Z)]
    );
    assert_eq!(
        info.client_info.logical_observables[1],
        vec![(0, Pauli::X), (1, Pauli::X), (2, Pauli::X)]
    );
    let positions = vec![(0, 0), (0, 2), (1, 2)];
    assert_eq!(observable_on_line(&positions, false, 2, Pauli::Y), vec![(1, Pauli::Y), (2, Pauli::Y)]);
}

#[test]
fn identifiers_are_stable() {
    assert_eq!(rotated_code_id(NoiseType::Depolarize, 3), "rsc-depolarize-d-3");
    assert_eq!(rotated_code_id(NoiseType::BitFlip, 5), "rsc-bit-flip-d-5");
    assert_eq!(rotated_code_id(NoiseType::OnlyY, 11), "rsc-only-Y-d-11");
    assert_eq!(rotated_code_name(NoiseType::Depolarize, 5), "Surface Code (d=5)");
    assert_eq!(rotated_code_name(NoiseType::BitFlip, 3), "Surface Code (Bit-Flip, d=3)");
    assert_eq!(rotated_code_name(NoiseType::OnlyY, 3), "Surface Code (Y-Flip, d=3)");
    assert_eq!(color_code_id(5), "color-d-5");
    assert_eq!(color_code_name(5), "Color Code (Bit-Flip, d=5)");
    assert_eq!(decimal_string(0), "0");
    assert_eq!(decimal_string(9), "9");
    assert_eq!(decimal_string(10), "10");
    assert_eq!(decimal_string(1234567890), "1234567890");
}

#[test]
fn sites_are_found_by_coordinate() {
    let positions = vec![(0, 1), (1, 3), (2, 1)];
    assert_eq!(find_site(&positions, 1, 3), Some(1));
    assert_eq!(find_site(&positions, 3, 1), None);
    assert_eq!(shift(0, 0, 0, -2), None);
    assert_eq!(shift(0, 2, 1, -2), Some((1, 0)));
    assert_eq!(shift(3, 3, -1, 2), Some((2, 5)));
}
