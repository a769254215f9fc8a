use mwpf_web::actions::ActionEntry;
use mwpf_web::codes::{verify_color_checks, verify_rotated_checks, ConstructionInvariantViolation, ServerCodeInfo};
use mwpf_web::color::TriangularColorCodeBitFlip;
use mwpf_web::decode::{
    check_syndrome, default_cluster_node_limit, find_code, map_correction, parse_index_in, parse_syndrome,
    parse_syndrome_bytes, prepare_decode, DecodeError, DecodeParams,
};
use mwpf_web::display::{decode_url, syndrome_text, ShapePlan, ROUND_SEGMENTS};
use mwpf_web::noise::{NoiseType, Pauli};
use mwpf_web::rotated::RotatedSurfaceCode;
use mwpf_web::sampler::{
    chosen_error, generate_random_syndrome, sample_decodable_syndrome, symmetric_difference, syndrome_of_choices,
    SyndromeSampler,
};

fn registry() -> Vec<ServerCodeInfo> {
    vec![
        ServerCodeInfo::from_rotated_surface_code(RotatedSurfaceCode::new(3, NoiseType::Depolarize)),
        ServerCodeInfo::from_rotated_surface_code(RotatedSurfaceCode::new(3, NoiseType::BitFlip)),
        ServerCodeInfo::from_triangular_color_code(TriangularColorCodeBitFlip::new(5)),
    ]
}

#[test]
fn out_of_range_syndrome_is_invalid() {
    let codes = registry();
    let k = find_code(&codes, "rsc-depolarize-d-3").unwrap();
    assert_eq!(k, 0);
    let vertex_num = codes[k].solver_initializer.vertex_num;
    assert_eq!(vertex_num, 8);
    assert_eq!(check_syndrome(&vec![999], vertex_num), Err(DecodeError::InvalidSyndrome));
    assert_eq!(check_syndrome(&vec![0, 8], vertex_num), Err(DecodeError::InvalidSyndrome));
    assert_eq!(check_syndrome(&vec![0, 7], vertex_num), Ok(()));
    assert_eq!(check_syndrome(&vec![], vertex_num), Ok(()));
}

#[test]
fn codes_are_found_by_identifier() {
    let codes = registry();
    assert_eq!(find_code(&codes, "rsc-bit-flip-d-3"), Some(1));
    assert_eq!(find_code(&codes, "color-d-5"), Some(2));
    assert_eq!(find_code(&codes, "color-d-7"), None);
    assert_eq!(find_code(&codes, ""), None);
    assert_eq!(default_cluster_node_limit(), 200);
}

#[test]
fn corrections_are_read_through_the_representatives() {
    let edge_errors = vec![(0, Pauli::X), (0, Pauli::Y), (4, Pauli::Z)];
    assert_eq!(
        map_correction(&edge_errors, &vec![2, 0]),
        Ok(vec![(4, Pauli::Z), (0, Pauli::X)])
    );
    assert_eq!(map_correction(&edge_errors, &vec![]), Ok(vec![]));
    assert_eq!(map_correction(&edge_errors, &vec![1, 3]), Err(DecodeError::SolverFailure));
}

#[test]
fn injected_error_has_its_own_hyperedge() {
    let codes = registry();
    let code = &codes[0];
    for (q, entry) in code.client_info.data_qubit_actions.iter().enumerate() {
        for e in [Pauli::X, Pauli::Y, Pauli::Z] {
            let flips = entry.get(e).unwrap();
            let syndrome = symmetric_difference(&vec![], flips);
            assert_eq!(check_syndrome(&syndrome, code.solver_initializer.vertex_num), Ok(()));
            let k = code.solver_initializer.edges.iter().position(|edge| *edge == syndrome).unwrap();
            let correction = map_correction(&code.edge_errors, &vec![k]).unwrap();
            assert_eq!(correction.len(), 1);
            let (q2, e2) = correction[0];
            assert!((q2, e2) == (q, e) || q2 < q || (q2 == q && e2 != e));
            let again = code.client_info.data_qubit_actions[q2].get(e2).unwrap();
            assert_eq!(symmetric_difference(&vec![], again), syndrome);
        }
    }
}

#[test]
fn symmetric_difference_toggles() {
    assert_eq!(symmetric_difference(&vec![1, 2, 3], &vec![3, 4]), vec![1, 2, 4]);
    assert_eq!(symmetric_difference(&vec![], &vec![5, 2, 5]), vec![2, 5]);
    assert_eq!(symmetric_difference(&vec![7], &vec![7]), Vec::<usize>::new());
    assert_eq!(symmetric_difference(&vec![9, 1], &vec![]), vec![1, 9]);
}

#[test]
fn choices_select_errors_in_order() {
    let all = ActionEntry { x: Some(vec![0]), y: Some(vec![1]), z: Some(vec![2]) };
    assert_eq!(chosen_error(&all, 0), Some(Pauli::X));
    assert_eq!(chosen_error(&all, 1), Some(Pauli::Y));
    assert_eq!(chosen_error(&all, 2), Some(Pauli::Z));
    assert_eq!(chosen_error(&all, 3), None);
    let only_y = ActionEntry { x: None, y: Some(vec![1]), z: None };
    assert_eq!(chosen_error(&only_y, 0), Some(Pauli::Y));
    assert_eq!(chosen_error(&only_y, 1), None);
    let none = ActionEntry { x: None, y: None, z: None };
    assert_eq!(chosen_error(&none, 0), None);
}

#[test]
fn syndrome_of_fixed_choices_is_reproducible() {
    let code = ServerCodeInfo::from_rotated_surface_code(RotatedSurfaceCode::new(3, NoiseType::Depolarize));
    let actions = &code.client_info.data_qubit_actions;
    let identity = vec![3; 9];
    assert_eq!(syndrome_of_choices(actions, &identity), Vec::<usize>::new());
    let mut one = vec![3; 9];
    one[0] = 1;
    assert_eq!(syndrome_of_choices(actions, &one), vec![1, 2]);
    let mut two = vec![3; 9];
    two[0] = 0;
    two[4] = 0;
    assert_eq!(syndrome_of_choices(actions, &two), vec![5]);
    assert_eq!(syndrome_of_choices(actions, &two), syndrome_of_choices(actions, &two));
}

#[test]
fn random_syndromes_are_valid_and_not_always_empty() {
    let code = ServerCodeInfo::from_rotated_surface_code(RotatedSurfaceCode::new(3, NoiseType::Depolarize));
    let mut seen_nonempty = false;
    for _ in 0..200 {
        let syndrome = generate_random_syndrome(&code);
        assert_eq!(check_syndrome(&syndrome, code.solver_initializer.vertex_num), Ok(()));
        for w in syndrome.windows(2) {
            assert!(w[0] < w[1]);
        }
        if !syndrome.is_empty() {
            seen_nonempty = true;
        }
    }
    assert!(seen_nonempty);
}

#[test]
fn empty_samples_are_not_handed_on() {
    let code = ServerCodeInfo::from_rotated_surface_code(RotatedSurfaceCode::new(3, NoiseType::BitFlip));
    for _ in 0..200 {
        match sample_decodable_syndrome(&code) {
            Some(syndrome) => assert!(!syndrome.is_empty()),
            None => {}
        }
    }
}

#[test]
fn syndromes_are_read_from_text() {
    assert_eq!(parse_syndrome("1,2,3"), Ok(vec![1, 2, 3]));
    assert_eq!(parse_syndrome("0"), Ok(vec![0]));
    assert_eq!(parse_syndrome("+7,007"), Ok(vec![7, 7]));
    assert_eq!(parse_syndrome("5,5"), Ok(vec![5, 5]));
    assert_eq!(parse_syndrome("18446744073709551615").is_ok(), usize::MAX as u128 >= 18446744073709551615);
    assert_eq!(parse_syndrome(""), Err(DecodeError::InvalidSyndrome));
    assert_eq!(parse_syndrome(","), Err(DecodeError::InvalidSyndrome));
    assert_eq!(parse_syndrome("1,"), Err(DecodeError::InvalidSyndrome));
    assert_eq!(parse_syndrome(",1"), Err(DecodeError::InvalidSyndrome));
    assert_eq!(parse_syndrome("1,,2"), Err(DecodeError::InvalidSyndrome));
    assert_eq!(parse_syndrome("1, 2"), Err(DecodeError::InvalidSyndrome));
    assert_eq!(parse_syndrome("-1"), Err(DecodeError::InvalidSyndrome));
    assert_eq!(parse_syndrome("+"), Err(DecodeError::InvalidSyndrome));
    assert_eq!(parse_syndrome("++1"), Err(DecodeError::InvalidSyndrome));
    assert_eq!(parse_syndrome("a"), Err(DecodeError::InvalidSyndrome));
    assert_eq!(parse_syndrome("1,x,2"), Err(DecodeError::InvalidSyndrome));
    assert_eq!(
        parse_syndrome("340282366920938463463374607431768211456"),
        Err(DecodeError::InvalidSyndrome)
    );
    assert_eq!(parse_index_in("12,345".as_bytes(), 3, 6), Some(345));
    assert_eq!(parse_index_in("12,345".as_bytes(), 2, 6), None);
    assert_eq!(parse_syndrome_bytes("4,2".as_bytes()), Ok(vec![4, 2]));
}

#[test]
fn requests_are_checked_before_decoding() {
    let codes = registry();
    assert_eq!(prepare_decode(&codes, "rsc-depolarize-d-3", "0,7"), Ok((0, vec![0, 7])));
    assert_eq!(prepare_decode(&codes, "rsc-bit-flip-d-3", "3"), Ok((1, vec![3])));
    assert_eq!(
        prepare_decode(&codes, "rsc-bit-flip-d-3", "4"),
        Err(DecodeError::InvalidSyndrome)
    );
    assert_eq!(
        prepare_decode(&codes, "rsc-depolarize-d-3", "999"),
        Err(DecodeError::InvalidSyndrome)
    );
    assert_eq!(
        prepare_decode(&codes, "rsc-depolarize-d-3", "1;2"),
        Err(DecodeError::InvalidSyndrome)
    );
    assert_eq!(prepare_decode(&codes, "rsc-depolarize-d-9", "1"), Err(DecodeError::UnknownCode));
    assert_eq!(prepare_decode(&codes, "nothing", "999"), Err(DecodeError::UnknownCode));
}

#[test]
fn syndromes_are_written_as_text() {
    assert_eq!(syndrome_text(&vec![1, 2, 30]), "1,2,30");
    assert_eq!(syndrome_text(&vec![0]), "0");
    assert_eq!(syndrome_text(&vec![]), "");
    assert_eq!(
        decode_url("color-d-3", &vec![0, 2]),
        Some("/api/decode?code_id=color-d-3&syndrome=0,2".to_string())
    );
    assert_eq!(decode_url("color-d-3", &vec![]), None);
    assert_eq!(parse_syndrome(&syndrome_text(&vec![12, 0, 7])), Ok(vec![12, 0, 7]));
}

#[test]
fn rotated_shapes_follow_the_boundary() {
    let code = RotatedSurfaceCode::new(3, NoiseType::Depolarize);
    let shapes = code.stabilizer_shapes();
    assert_eq!(shapes.len(), 8);
    assert_eq!(ROUND_SEGMENTS, 36);
    let mut turns = vec![];
    for (k, plan) in shapes.iter().enumerate() {
        match plan {
            ShapePlan::Polygon { corners } => {
                assert_eq!(corners.len(), 4);
                let (i, j) = code.stabilizer_positions[k];
                assert!(i > 0 && j > 0 && i < 6 && j < 6);
            }
            ShapePlan::HalfDisc { first, second, quarter_turns } => {
                assert!(first != second);
                turns.push(*quarter_turns);
            }
        }
    }
    assert_eq!(turns, vec![0, 1, 3, 2]);
    match &shapes[2] {
        ShapePlan::Polygon { corners } => assert_eq!(*corners, vec![0, 1, 4, 3]),
        ShapePlan::HalfDisc { .. } => panic!("stabilizer 2 lies inside the lattice"),
    }
    match &shapes[0] {
        ShapePlan::HalfDisc { first, second, quarter_turns } => {
            assert_eq!((*first, *second, *quarter_turns), (2, 1, 0))
        }
        ShapePlan::Polygon { .. } => panic!("stabilizer 0 lies on the boundary"),
    }
}

#[test]
fn color_layout_columns() {
    let code = TriangularColorCodeBitFlip::new(3);
    assert_eq!(code.display_column(0, 0), 0);
    assert_eq!(code.display_column(0, 3), 2);
    assert_eq!(code.display_column(0, 4), 3);
    assert_eq!(code.display_column(1, 1), 0);
    assert_eq!(code.display_column(1, 4), 3);
    assert_eq!(code.display_column(2, 1), 0);
    assert_eq!(code.display_column(2, 3), 1);
    assert_eq!(code.display_column(3, 2), 0);
    assert_eq!(code.display_bias(0), 0);
    assert_eq!(code.display_bias(1), 1);
    assert_eq!(code.display_bias(2), 2);
    assert_eq!(code.display_bias(3), 3);
    let expected = vec![vec![1, 4, 3, 0], vec![1, 2, 5, 4], vec![3, 4, 5, 6]];
    let shapes = code.stabilizer_shapes();
    assert_eq!(shapes.len(), 3);
    for (plan, want) in shapes.iter().zip(expected.iter()) {
        match plan {
            ShapePlan::Polygon { corners } => assert_eq!(corners, want),
            ShapePlan::HalfDisc { .. } => panic!("the color code draws polygons only"),
        }
    }
    let info = ServerCodeInfo::from_triangular_color_code(code);
    assert_eq!(info.client_info.stabilizer_shapes.len(), 3);
}

#[test]
fn requests_default_to_two_hundred_nodes() {
    let params = DecodeParams::new("color-d-3".to_string(), "0,1".to_string());
    assert_eq!(params.cluster_node_limit, 200);
    assert!(!params.wants_trace());
    let traced = DecodeParams { with_html: Some(String::new()), ..params };
    assert!(traced.wants_trace());
    assert_eq!(traced.code_id, "color-d-3");
    assert_eq!(traced.syndrome, "0,1");
}

#[test]
fn check_sizes_are_enforced() {
    let code = RotatedSurfaceCode::new(3, NoiseType::Depolarize);
    let mut checks = code.stabilizer_checks();
    assert_eq!(verify_rotated_checks(3, &code.stabilizer_positions, &checks), Ok(()));
    checks[2].pop();
    assert_eq!(
        verify_rotated_checks(3, &code.stabilizer_positions, &checks),
        Err(ConstructionInvariantViolation { stabilizer: 2 })
    );
    checks.truncate(1);
    assert_eq!(
        verify_rotated_checks(3, &code.stabilizer_positions, &checks),
        Err(ConstructionInvariantViolation { stabilizer: 1 })
    );
    let color = TriangularColorCodeBitFlip::new(5);
    let mut lists = color.stabilizer_checks();
    assert_eq!(verify_color_checks(color.stabilizer_positions.len(), &lists), Ok(()));
    lists[4] = vec![(0, Pauli::Z); 7];
    assert_eq!(
        verify_color_checks(color.stabilizer_positions.len(), &lists),
        Err(ConstructionInvariantViolation { stabilizer: 4 })
    );
    lists[4].pop();
    lists.push(vec![]);
    assert_eq!(
        verify_color_checks(color.stabilizer_positions.len(), &lists),
        Err(ConstructionInvariantViolation { stabilizer: 9 })
    );
}

#[test]
fn seeded_sampler_is_reproducible() {
    let code = ServerCodeInfo::from_rotated_surface_code(RotatedSurfaceCode::new(5, NoiseType::Depolarize));
    let mut first = SyndromeSampler::seeded(42);
    let mut second = SyndromeSampler::seeded(42);
    let mut seen_nonempty = false;
    for _ in 0..50 {
        let a = first.sample(&code);
        let b = second.sample(&code);
        assert_eq!(a, b);
        assert_eq!(check_syndrome(&a, code.solver_initializer.vertex_num), Ok(()));
        if !a.is_empty() {
            seen_nonempty = true;
        }
    }
    assert!(seen_nonempty);
    let mut other = SyndromeSampler::seeded(43);
    let mut third = SyndromeSampler::seeded(42);
    let mut differs = false;
    for _ in 0..50 {
        if other.sample(&code) != third.sample(&code) {
            differs = true;
        }
    }
    assert!(differs);
    let mut free = SyndromeSampler::unseeded();
    let drawn = free.sample(&code);
    assert_eq!(check_syndrome(&drawn, code.solver_initializer.vertex_num), Ok(()));
}
