use quest_sim::measure::choose_outcome;
use quest_sim::noise::check_prob;
use quest_sim::{InputFault, Qcomplex, QuestEnv, QuestError, Qreal, Qureg};

fn num(x: f64) -> Qreal {
    Qreal::from_bits(x.to_bits())
}

fn value(x: Qreal) -> f64 {
    f64::from_bits(x.to_bits())
}

fn fault<T>(f: InputFault) -> Result<T, QuestError> {
    Err(QuestError::InvalidInputError(f))
}

fn same(block: Vec<Qcomplex>) -> Vec<Qcomplex> {
    block
}

fn halve(block: Vec<Qcomplex>) -> Vec<Qcomplex> {
    block.iter().map(|z| Qcomplex::new(num(0.5 * value(z.re)), num(0.5 * value(z.im)))).collect()
}

#[test]
fn encodings_are_ordered_as_their_values() {
    let xs = [
        f64::NEG_INFINITY,
        -1e300,
        -2.0,
        -1.0,
        -1e-300,
        -5e-324,
        -0.0,
        0.0,
        5e-324,
        1e-13,
        0.5,
        0.75,
        1.0,
        1.0000000000000002,
        1e300,
        f64::INFINITY,
        f64::NAN,
    ];
    for a in xs {
        for b in xs {
            assert_eq!(num(a).less_than(num(b)), a < b, "{a} < {b}");
            assert_eq!(num(a).at_most(num(b)), a <= b, "{a} <= {b}");
        }
    }
}

#[test]
fn outcome_follows_the_sample() {
    assert_eq!(choose_outcome(num(0.5), num(0.25)), 0);
    assert_eq!(choose_outcome(num(0.5), num(0.5)), 1);
    assert_eq!(choose_outcome(num(0.5), num(0.75)), 1);
    assert_eq!(choose_outcome(num(0.0), num(0.0)), 1);
    assert_eq!(choose_outcome(num(1.0), num(0.9999999999999999)), 0);
    assert_eq!(choose_outcome(num(1.0), num(0.0)), 0);
}

#[test]
fn probabilities_are_bounded_by_their_channel() {
    assert_eq!(check_prob(num(0.5), num(0.5)), Ok(()));
    assert_eq!(check_prob(num(0.0), num(0.5)), Ok(()));
    assert_eq!(check_prob(num(-0.0), num(0.5)), Ok(()));
    assert_eq!(check_prob(num(0.5000000000000001), num(0.5)), fault(InputFault::Probability));
    assert_eq!(check_prob(num(-1e-300), num(0.5)), fault(InputFault::Probability));
    assert_eq!(check_prob(num(f64::NAN), num(0.5)), fault(InputFault::Probability));
    let env = QuestEnv::new();
    let mut rho = Qureg::try_new_density(2, &env).unwrap();
    assert_eq!(rho.mix_dephasing(0, num(0.5), same), Ok(()));
    assert_eq!(rho.mix_dephasing(0, num(0.51), same), fault(InputFault::Probability));
    assert_eq!(rho.mix_two_qubit_dephasing(0, 1, num(0.75), same), Ok(()));
    assert_eq!(rho.mix_two_qubit_dephasing(0, 1, num(0.76), same), fault(InputFault::Probability));
    assert_eq!(rho.mix_depolarising(1, num(0.75), same), Ok(()));
    assert_eq!(rho.mix_depolarising(1, num(0.7500001), same), fault(InputFault::Probability));
    assert_eq!(rho.mix_two_qubit_depolarising(1, 0, num(0.9375), same), Ok(()));
    assert_eq!(rho.mix_two_qubit_depolarising(1, 0, num(0.94), same), fault(InputFault::Probability));
    assert_eq!(rho.mix_damping(1, num(1.0), same), Ok(()));
    assert_eq!(rho.mix_damping(1, num(1.5), same), fault(InputFault::Probability));
    assert_eq!(rho.mix_damping(1, num(-0.5), same), fault(InputFault::Probability));
}

#[test]
fn channels_check_kind_and_qubits_first() {
    let env = QuestEnv::new();
    let mut reg = Qureg::try_new(2, &env).unwrap();
    assert_eq!(reg.mix_dephasing(5, num(2.0), same), fault(InputFault::NotDensityMatrix));
    let mut rho = Qureg::try_new_density(2, &env).unwrap();
    assert_eq!(rho.mix_dephasing(5, num(2.0), same), fault(InputFault::QubitIndex));
    assert_eq!(rho.mix_two_qubit_dephasing(1, 1, num(2.0), same), fault(InputFault::RepeatedQubit));
    assert_eq!(rho.mix_two_qubit_depolarising(0, 2, num(0.1), same), fault(InputFault::QubitIndex));
    assert_eq!(rho.mix_noise(&[0, 1, 0], num(0.1), num(1.0), same), fault(InputFault::ListLength));
    assert_eq!(value(rho.get_density_amp(0, 0).unwrap().re), 1.0);
    rho.mix_noise(&[0], num(0.1), num(1.0), halve).unwrap();
    assert_eq!(value(rho.get_density_amp(0, 0).unwrap().re), 0.5);
}

#[test]
fn density_matrices_are_mixed_entry_by_entry() {
    let env = QuestEnv::new();
    let mut a = Qureg::try_new_density(1, &env).unwrap();
    let mut b = Qureg::try_new_density(1, &env).unwrap();
    b.init_classical_state(1).unwrap();
    let mix = |x: Qcomplex, y: Qcomplex| Qcomplex::new(num(0.75 * value(x.re) + 0.25 * value(y.re)), num(0.0));
    a.mix_density_matrix(num(0.25), &b, mix).unwrap();
    assert_eq!(value(a.get_density_amp(0, 0).unwrap().re), 0.75);
    assert_eq!(value(a.get_density_amp(1, 1).unwrap().re), 0.25);
    assert_eq!(a.mix_density_matrix(num(1.25), &b, mix), fault(InputFault::Probability));
    let c = Qureg::try_new_density(2, &env).unwrap();
    assert_eq!(a.mix_density_matrix(num(0.25), &c, mix), fault(InputFault::RegisterMismatch));
    let d = Qureg::try_new(1, &env).unwrap();
    assert_eq!(a.mix_density_matrix(num(0.25), &d, mix), fault(InputFault::NotDensityMatrix));
    assert_eq!(value(a.get_density_amp(0, 0).unwrap().re), 0.75);
}

#[test]
fn unitary_gates_check_qubits_then_size_then_unitarity() {
    let env = QuestEnv::new();
    let reg = Qureg::try_new(3, &env).unwrap();
    assert_eq!(reg.check_unitary_gate(&[0], &[1, 2], 2, true), Ok(()));
    assert_eq!(reg.check_unitary_gate(&[0], &[1, 2], 2, false), fault(InputFault::NotUnitary));
    assert_eq!(reg.check_unitary_gate(&[0], &[1, 2], 1, false), fault(InputFault::MatrixSize));
    assert_eq!(reg.check_unitary_gate(&[1], &[1, 2], 1, false), fault(InputFault::ControlTargetOverlap));
    assert_eq!(reg.check_gate_qubits(&[0], &[3]), fault(InputFault::QubitIndex));
    assert_eq!(reg.check_gate_qubits(&[0], &[1]), Ok(()));
    assert_eq!(reg.check_gate_qubits(&[], &[]), Ok(()));
    assert_eq!(reg.check_controlled_gate_qubits(&[0], &[1]), Ok(()));
    assert_eq!(reg.check_controlled_gate_qubits(&[], &[1]), fault(InputFault::ListLength));
    assert_eq!(reg.check_controlled_gate_qubits(&[0], &[]), fault(InputFault::ListLength));
    assert_eq!(reg.check_controlled_gate_qubits(&[1], &[1]), fault(InputFault::ControlTargetOverlap));
    assert_eq!(reg.check_state_gate_qubits(&[0], &[1], 1), Ok(()));
    assert_eq!(reg.check_state_gate_qubits(&[0], &[7], 1), fault(InputFault::ControlState));
}

#[test]
fn failed_reservation_is_an_allocation_error() {
    let env = QuestEnv::new();
    assert!(matches!(
        Qureg::assemble(2, false, &env, Vec::new(), false),
        Err(QuestError::AllocationError)
    ));
    let reg = Qureg::assemble(2, true, &env, Vec::new(), true).unwrap();
    assert_eq!(reg.num_amps_total(), 16);
    assert_eq!(value(reg.get_density_amp(0, 0).unwrap().re), 1.0);
}

#[test]
fn accelerator_copies_change_nothing() {
    let env = QuestEnv::new();
    let mut reg = Qureg::try_new(2, &env).unwrap();
    reg.init_classical_state(2).unwrap();
    reg.copy_state_to_gpu();
    reg.copy_state_from_gpu();
    assert_eq!(reg.copy_substate_to_gpu(1, 3), Ok(()));
    assert_eq!(reg.copy_substate_from_gpu(0, 4), Ok(()));
    assert_eq!(reg.copy_substate_to_gpu(4, 0), fault(InputFault::StateIndex));
    assert_eq!(reg.copy_substate_to_gpu(2, 3), fault(InputFault::StateIndex));
    assert_eq!(reg.copy_substate_from_gpu(-1, 1), fault(InputFault::StateIndex));
    assert_eq!(reg.copy_substate_from_gpu(1, -1), fault(InputFault::StateIndex));
    assert_eq!(value(reg.get_amp(2).unwrap().re), 1.0);
    assert_eq!(Qureg::sync_quest_success(1), 1);
    assert_eq!(Qureg::sync_quest_success(0), 0);
}

#[test]
fn pauli_noise_checks_each_probability() {
    let env = QuestEnv::new();
    let mut rho = Qureg::try_new_density(1, &env).unwrap();
    assert_eq!(rho.mix_pauli(0, num(0.1), num(0.2), num(0.3), num(0.4), same), Ok(()));
    assert_eq!(
        rho.mix_pauli(0, num(0.1), num(0.2), num(0.5), num(0.2), same),
        fault(InputFault::Probability)
    );
    assert_eq!(
        rho.mix_pauli(0, num(-0.1), num(0.2), num(0.3), num(0.6), same),
        fault(InputFault::Probability)
    );
    assert_eq!(
        rho.mix_pauli(0, num(0.1), num(1.5), num(0.3), num(2.0), same),
        fault(InputFault::Probability)
    );
    assert_eq!(
        rho.mix_pauli(1, num(0.1), num(0.2), num(0.3), num(0.4), same),
        fault(InputFault::QubitIndex)
    );
    let mut reg = Qureg::try_new(1, &env).unwrap();
    assert_eq!(
        reg.mix_pauli(0, num(0.1), num(0.2), num(0.3), num(0.4), same),
        fault(InputFault::NotDensityMatrix)
    );
}

#[test]
fn kraus_maps_check_count_size_and_completeness() {
    let env = QuestEnv::new();
    let mut rho = Qureg::try_new_density(2, &env).unwrap();
    assert_eq!(rho.mix_multi_qubit_kraus_map(&[1], &[1, 1, 1, 1], true, halve), Ok(()));
    assert_eq!(value(rho.get_density_amp(0, 0).unwrap().re), 0.5);
    assert_eq!(rho.mix_multi_qubit_kraus_map(&[1], &[], true, same), fault(InputFault::KrausMap));
    assert_eq!(
        rho.mix_multi_qubit_kraus_map(&[1], &[1, 1, 1, 1, 1], true, same),
        fault(InputFault::KrausMap)
    );
    assert_eq!(rho.mix_multi_qubit_kraus_map(&[1], &[1, 2], true, same), fault(InputFault::MatrixSize));
    assert_eq!(rho.mix_multi_qubit_kraus_map(&[1], &[1, 1], false, same), fault(InputFault::KrausMap));
    assert_eq!(rho.mix_multi_qubit_kraus_map(&[2], &[1], true, same), fault(InputFault::QubitIndex));
    assert_eq!(rho.mix_multi_qubit_kraus_map(&[0, 1], &[2; 16], true, same), Ok(()));
    let mut reg = Qureg::try_new(2, &env).unwrap();
    assert_eq!(
        reg.mix_multi_qubit_kraus_map(&[1], &[1], true, same),
        fault(InputFault::NotDensityMatrix)
    );
    assert_eq!(value(rho.get_density_amp(0, 0).unwrap().re), 0.5);
}

#[test]
fn sums_admit_registers_of_the_right_kind() {
    let env = QuestEnv::new();
    let mut psi = Qureg::try_new(1, &env).unwrap();
    psi.init_plus_state();
    let phi = Qureg::try_new(1, &env).unwrap();
    let big = Qureg::try_new(2, &env).unwrap();
    let mut rho = Qureg::try_new_density(1, &env).unwrap();
    rho.init_plus_state();
    let sigma = Qureg::try_new_density(1, &env).unwrap();
    let wide = Qureg::try_new_density(2, &env).unwrap();
    let dot = |acc: f64, p: (Qcomplex, Qcomplex)| acc + value(p.0.re) * value(p.1.re);
    let triple = |acc: f64, t: (Qcomplex, Qcomplex, Qcomplex)| {
        acc + value(t.0.re) * value(t.1.re) * value(t.2.re)
    };
    let square = |acc: f64, a: Qcomplex| acc + value(a.re) * value(a.re);
    let h = 1.0 / 2f64.sqrt();
    assert_eq!(quest_sim::calc_inner_product(&phi, &psi, 0.0, dot), Ok(h));
    assert_eq!(quest_sim::calc_inner_product(&phi, &rho, 0.0, dot), fault(InputFault::NotStateVector));
    assert_eq!(quest_sim::calc_inner_product(&rho, &sigma, 0.0, dot), fault(InputFault::NotStateVector));
    assert_eq!(quest_sim::calc_inner_product(&phi, &big, 0.0, dot), fault(InputFault::RegisterMismatch));
    assert_eq!(quest_sim::calc_density_inner_product(&rho, &sigma, 0.0, dot), Ok(0.5));
    assert_eq!(
        quest_sim::calc_density_inner_product(&rho, &psi, 0.0, dot),
        fault(InputFault::NotDensityMatrix)
    );
    assert_eq!(
        quest_sim::calc_density_inner_product(&rho, &wide, 0.0, dot),
        fault(InputFault::RegisterMismatch)
    );
    assert_eq!(quest_sim::calc_hilbert_schmidt_distance(&sigma, &sigma, 0.0, dot), Ok(1.0));
    assert_eq!(
        quest_sim::calc_hilbert_schmidt_distance(&psi, &sigma, 0.0, dot),
        fault(InputFault::NotDensityMatrix)
    );
    assert_eq!(rho.calc_purity(0.0, square), Ok(1.0));
    assert_eq!(psi.calc_purity(0.0, square), fault(InputFault::NotDensityMatrix));
    assert_eq!(psi.calc_fidelity(&phi, 0.0, dot, triple), Ok(h));
    let f = rho.calc_fidelity(&psi, 0.0, dot, triple).unwrap();
    assert!((f - 1.0).abs() < 1e-12);
    assert_eq!(psi.calc_fidelity(&rho, 0.0, dot, triple), fault(InputFault::NotStateVector));
    assert_eq!(rho.calc_fidelity(&big, 0.0, dot, triple), fault(InputFault::RegisterMismatch));
}
