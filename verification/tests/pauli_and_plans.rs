use quest_sim::circuits::{trotter_plan, QftStep, RotationStep, TimeScale};
use quest_sim::matrix::{check_kraus_count, ComplexMatrix2, ComplexMatrixN};
use quest_sim::pauli::{apply_pauli_hamil, apply_pauli_sum, PauliHamil, PauliOpType};
use quest_sim::{InputFault, Qcomplex, QuestEnv, QuestError, Qreal, Qureg};

use PauliOpType::{PauliI, PauliX, PauliY, PauliZ};

fn num(x: f64) -> Qreal {
    Qreal::from_bits(x.to_bits())
}

fn value(x: Qreal) -> f64 {
    f64::from_bits(x.to_bits())
}

fn cx(re: f64, im: f64) -> Qcomplex {
    Qcomplex::new(num(re), num(im))
}

fn fault<T>(f: InputFault) -> Result<T, QuestError> {
    Err(QuestError::InvalidInputError(f))
}

fn snapshot(reg: &Qureg<'_>) -> Vec<(f64, f64)> {
    let n = reg.num_amps_total();
    let d = 1i64 << reg.num_qubits();
    (0..n)
        .map(|i| {
            let a = if reg.is_density_matrix() {
                reg.get_density_amp(i % d, i / d).unwrap()
            } else {
                reg.get_amp(i).unwrap()
            };
            (value(a.re), value(a.im))
        })
        .collect()
}

fn ramp<'a>(num_qubits: i32, env: &'a QuestEnv) -> Qureg<'a> {
    let mut reg = Qureg::try_new(num_qubits, env).unwrap();
    let n = reg.num_amps_total();
    let re: Vec<Qreal> = (0..n).map(|k| num(k as f64 + 1.0)).collect();
    let im: Vec<Qreal> = (0..n).map(|k| num(k as f64 + 1.5)).collect();
    reg.init_state_from_amps(&re, &im).unwrap();
    reg
}

fn add_scaled(acc: Qcomplex, item: (Qreal, Qcomplex)) -> Qcomplex {
    let w = value(item.0);
    cx(value(acc.re) + w * value(item.1.re), value(acc.im) + w * value(item.1.im))
}

#[test]
fn pauli_product_multiplies_in_order() {
    let env = QuestEnv::new();
    let mut a = ramp(2, &env);
    let mut b = ramp(2, &env);
    a.multiply_pauli_prod(&[0, 1, 0], &[PauliX, PauliI, PauliZ]).unwrap_err();
    a.multiply_pauli_prod(&[0, 1], &[PauliX, PauliZ]).unwrap();
    b.pauli_x(0).unwrap();
    b.pauli_z(1).unwrap();
    assert_eq!(snapshot(&a), snapshot(&b));
    a.multiply_pauli_prod(&[1], &[PauliY]).unwrap();
    b.pauli_y(1).unwrap();
    assert_eq!(snapshot(&a), snapshot(&b));
}

#[test]
fn pauli_product_leaves_columns_of_density_matrix() {
    let env = QuestEnv::new();
    let mut rho = Qureg::try_new_density(1, &env).unwrap();
    let re = [num(1.0), num(2.0), num(3.0), num(4.0)];
    let im = [num(0.0); 4];
    rho.init_state_from_amps(&re, &im).unwrap();
    rho.multiply_pauli_prod(&[0], &[PauliX]).unwrap();
    let got: Vec<f64> = snapshot(&rho).iter().map(|z| z.0).collect();
    assert_eq!(got, vec![2.0, 1.0, 4.0, 3.0]);
    rho.multiply_pauli_prod(&[0], &[PauliZ]).unwrap();
    let got: Vec<f64> = snapshot(&rho).iter().map(|z| z.0).collect();
    assert_eq!(got, vec![2.0, -1.0, 4.0, -3.0]);
}

#[test]
fn pauli_product_faults() {
    let env = QuestEnv::new();
    let mut reg = ramp(2, &env);
    let before = snapshot(&reg);
    assert_eq!(reg.multiply_pauli_prod(&[0, 0], &[PauliX, PauliX]), fault(InputFault::RepeatedQubit));
    assert_eq!(reg.multiply_pauli_prod(&[2], &[PauliX]), fault(InputFault::QubitIndex));
    assert_eq!(reg.multiply_pauli_prod(&[0], &[PauliX, PauliX]), fault(InputFault::PauliTerms));
    assert_eq!(reg.multiply_pauli_prod(&[0, 1, 0], &[PauliX; 3]), fault(InputFault::ListLength));
    assert_eq!(snapshot(&reg), before);
}

#[test]
fn workspace_receives_the_product() {
    let env = QuestEnv::new();
    let reg = ramp(2, &env);
    let before = snapshot(&reg);
    let mut work = Qureg::try_new(2, &env).unwrap();
    reg.pauli_prod_into(&[1], &[PauliX], &mut work).unwrap();
    assert_eq!(snapshot(&reg), before);
    let got: Vec<f64> = snapshot(&work).iter().map(|z| z.0).collect();
    assert_eq!(got, vec![3.0, 4.0, 1.0, 2.0]);
    reg.pauli_term_into(&[PauliI, PauliZ, PauliX, PauliI], 1, &mut work).unwrap();
    let got: Vec<f64> = snapshot(&work).iter().map(|z| z.0).collect();
    assert_eq!(got, vec![2.0, 1.0, 4.0, 3.0]);
    reg.pauli_term_into(&[PauliI, PauliZ, PauliX, PauliI], 0, &mut work).unwrap();
    let got: Vec<f64> = snapshot(&work).iter().map(|z| z.0).collect();
    assert_eq!(got, vec![1.0, 2.0, -3.0, -4.0]);
    let kept = snapshot(&work);
    assert_eq!(
        reg.pauli_term_into(&[PauliI, PauliZ, PauliX, PauliI], 2, &mut work),
        fault(InputFault::PauliTerms)
    );
    assert_eq!(reg.pauli_term_into(&[PauliI, PauliZ, PauliX], 0, &mut work), fault(InputFault::PauliTerms));
    let mut other = Qureg::try_new(3, &env).unwrap();
    assert_eq!(reg.pauli_prod_into(&[1], &[PauliX], &mut other), fault(InputFault::RegisterMismatch));
    assert_eq!(reg.pauli_term_into(&[PauliI, PauliZ], 0, &mut other), fault(InputFault::RegisterMismatch));
    assert_eq!(reg.pauli_prod_into(&[1], &[], &mut work), fault(InputFault::PauliTerms));
    assert_eq!(reg.pauli_prod_into(&[5], &[PauliX], &mut work), fault(InputFault::QubitIndex));
    assert_eq!(snapshot(&work), kept);
}

#[test]
fn weighted_sum_of_products() {
    let env = QuestEnv::new();
    let mut input = Qureg::try_new(2, &env).unwrap();
    input.init_classical_state(1).unwrap();
    let before = snapshot(&input);
    let mut out = ramp(2, &env);
    // 0.5 X(0) I(1) + 2 Y(0) Z(1) on |01>: X gives |00>, Y gives -i |00>
    apply_pauli_sum(
        &mut input,
        &[PauliX, PauliI, PauliY, PauliZ],
        &[num(0.5), num(2.0)],
        &mut out,
        add_scaled,
    )
    .unwrap();
    assert_eq!(snapshot(&input), before);
    assert_eq!(snapshot(&out), vec![(0.5, -2.0), (0.0, 0.0), (0.0, 0.0), (0.0, 0.0)]);
}

#[test]
fn weighted_sum_faults() {
    let env = QuestEnv::new();
    let mut input = ramp(2, &env);
    let mut out = ramp(2, &env);
    let kept = snapshot(&out);
    assert_eq!(
        apply_pauli_sum(&mut input, &[PauliX, PauliI, PauliY], &[num(0.5), num(2.0)], &mut out, add_scaled),
        fault(InputFault::PauliTerms)
    );
    assert_eq!(apply_pauli_sum(&mut input, &[], &[], &mut out, add_scaled), fault(InputFault::PauliTerms));
    let mut small = ramp(1, &env);
    assert_eq!(
        apply_pauli_sum(&mut input, &[PauliX, PauliI], &[num(0.5)], &mut small, add_scaled),
        fault(InputFault::RegisterMismatch)
    );
    assert_eq!(snapshot(&out), kept);
}

#[test]
fn hamiltonian_is_checked_and_applied() {
    let env = QuestEnv::new();
    assert!(matches!(
        PauliHamil::try_new(0, vec![num(1.0)], vec![]),
        Err(QuestError::InvalidInputError(InputFault::QubitCount))
    ));
    assert!(matches!(
        PauliHamil::try_new(2, vec![num(1.0)], vec![PauliX]),
        Err(QuestError::InvalidInputError(InputFault::PauliTerms))
    ));
    assert!(matches!(
        PauliHamil::try_new(2, vec![], vec![]),
        Err(QuestError::InvalidInputError(InputFault::PauliTerms))
    ));
    let hamil = PauliHamil::try_new(2, vec![num(0.5), num(0.5)], vec![PauliX, PauliX, PauliX, PauliZ]).unwrap();
    assert_eq!(hamil.num_qubits(), 2);
    assert_eq!(hamil.num_sum_terms(), 2);
    assert_eq!(hamil.pauli_codes().len(), 4);
    assert_eq!(value(hamil.term_coeffs()[1]), 0.5);
    let mut input = Qureg::try_new(2, &env).unwrap();
    let mut out = Qureg::try_new(2, &env).unwrap();
    apply_pauli_hamil(&mut input, &hamil, &mut out, add_scaled).unwrap();
    assert_eq!(snapshot(&out), vec![(0.0, 0.0), (0.5, 0.0), (0.0, 0.0), (0.5, 0.0)]);
    let mut big = Qureg::try_new(3, &env).unwrap();
    let mut big_out = Qureg::try_new(3, &env).unwrap();
    assert_eq!(
        apply_pauli_hamil(&mut big, &hamil, &mut big_out, add_scaled),
        fault(InputFault::RegisterMismatch)
    );
}

#[test]
fn collapse_zeroes_and_rescales() {
    let env = QuestEnv::new();
    let mut reg = ramp(2, &env);
    let twice = |a: Qcomplex| cx(2.0 * value(a.re), 2.0 * value(a.im));
    reg.collapse_to_outcome(0, 1, num(0.25), twice).unwrap();
    assert_eq!(snapshot(&reg), vec![(0.0, 0.0), (4.0, 5.0), (0.0, 0.0), (8.0, 9.0)]);
    let mut rho = Qureg::try_new_density(1, &env).unwrap();
    let re = [num(1.0), num(2.0), num(3.0), num(4.0)];
    let im = [num(0.0); 4];
    rho.init_state_from_amps(&re, &im).unwrap();
    rho.collapse_to_outcome(0, 0, num(0.5), twice).unwrap();
    assert_eq!(snapshot(&rho), vec![(2.0, 0.0), (0.0, 0.0), (0.0, 0.0), (0.0, 0.0)]);
}

#[test]
fn collapse_is_idempotent_on_outcome_probabilities() {
    let env = QuestEnv::new();
    let mut reg = Qureg::try_new(2, &env).unwrap();
    reg.init_plus_state();
    let square = |acc: f64, a: Qcomplex| acc + value(a.re) * value(a.re) + value(a.im) * value(a.im);
    let p = reg.fold_outcome(1, 1, 0.0, square).unwrap();
    assert!((p - 0.5).abs() < 1e-12);
    let scale = 1.0 / p.sqrt();
    reg.collapse_to_outcome(1, 1, num(p), |a: Qcomplex| cx(scale * value(a.re), scale * value(a.im)))
        .unwrap();
    assert!((reg.fold_outcome(1, 1, 0.0, square).unwrap() - 1.0).abs() < 1e-10);
    assert_eq!(reg.fold_outcome(1, 0, 0.0, square).unwrap(), 0.0);
}

#[test]
fn collapse_faults() {
    let env = QuestEnv::new();
    let mut reg = ramp(2, &env);
    let before = snapshot(&reg);
    let same = |a: Qcomplex| a;
    for p in [0.0, -0.0, 1e-13, 5e-14, -0.5, f64::NAN] {
        assert_eq!(reg.collapse_to_outcome(0, 1, num(p), same), Err(QuestError::ZeroProbabilityError));
    }
    assert_eq!(reg.collapse_to_outcome(2, 1, num(0.5), same), fault(InputFault::QubitIndex));
    assert_eq!(reg.collapse_to_outcome(0, 3, num(0.0), same), fault(InputFault::Outcome));
    assert_eq!(snapshot(&reg), before);
}

#[test]
fn fourier_transform_plan() {
    let env = QuestEnv::new();
    let reg = Qureg::try_new(4, &env).unwrap();
    let plan = reg.qft_plan(&[2, 0, 3]).unwrap();
    assert_eq!(
        plan,
        vec![
            QftStep::Hadamard { qubit: 3 },
            QftStep::Phases { low: 2, high: 3 },
            QftStep::Hadamard { qubit: 0 },
            QftStep::Phases { low: 1, high: 0 },
            QftStep::Hadamard { qubit: 2 },
            QftStep::Swap { first: 2, second: 3 },
        ]
    );
    assert_eq!(reg.qft_plan(&[1]).unwrap(), vec![QftStep::Hadamard { qubit: 1 }]);
    assert_eq!(reg.qft_plan(&[]).unwrap(), vec![]);
    assert_eq!(reg.qft_plan(&[0, 1, 2, 3]).unwrap().len(), 4 + 3 + 2);
    assert_eq!(reg.qft_plan(&[0, 4]), fault(InputFault::QubitIndex));
    assert_eq!(reg.qft_plan(&[1, 1]), fault(InputFault::RepeatedQubit));
}

#[test]
fn trotter_plans() {
    let plan: Vec<(bool, Vec<TimeScale>)> =
        trotter_plan(1, 1).unwrap().into_iter().map(|s| (s.reversed, s.scales)).collect();
    assert_eq!(plan, vec![(false, vec![])]);
    let plan: Vec<(bool, Vec<TimeScale>)> =
        trotter_plan(2, 3).unwrap().into_iter().map(|s| (s.reversed, s.scales)).collect();
    assert_eq!(plan, vec![(false, vec![TimeScale::Half]), (true, vec![TimeScale::Half])]);
    let plan: Vec<(bool, Vec<TimeScale>)> =
        trotter_plan(4, 1).unwrap().into_iter().map(|s| (s.reversed, s.scales)).collect();
    let outer = vec![TimeScale::Outer(4), TimeScale::Half];
    let middle = vec![TimeScale::Middle(4), TimeScale::Half];
    let mut expected = Vec::new();
    for scales in [&outer, &outer, &middle, &outer, &outer] {
        expected.push((false, scales.clone()));
        expected.push((true, scales.clone()));
    }
    assert_eq!(plan, expected);
    assert_eq!(trotter_plan(6, 1).unwrap().len(), 50);
    for (order, reps) in [(0, 1), (3, 1), (-2, 1), (2, 0), (1, -1), (5, 2)] {
        assert!(matches!(
            trotter_plan(order, reps),
            Err(QuestError::InvalidInputError(InputFault::TrotterParameters))
        ));
    }
}

#[test]
fn matrix_descriptors() {
    let mut m = ComplexMatrixN::try_new(2).unwrap();
    assert_eq!(m.num_qubits(), 2);
    assert_eq!(m.dim(), 4);
    assert_eq!(m.get(3, 3), Ok(cx(0.0, 0.0)));
    m.set(1, 2, cx(5.0, -1.0)).unwrap();
    assert_eq!(m.get(1, 2), Ok(cx(5.0, -1.0)));
    assert_eq!(m.get(2, 1), Ok(cx(0.0, 0.0)));
    assert_eq!(m.get(4, 0), fault(InputFault::StateIndex));
    assert_eq!(m.set(0, 4, cx(1.0, 0.0)), fault(InputFault::StateIndex));
    assert_eq!(m.check_targets(2), Ok(()));
    assert_eq!(m.check_targets(1), fault(InputFault::MatrixSize));
    assert!(matches!(ComplexMatrixN::try_new(0), Err(QuestError::InvalidInputError(InputFault::QubitCount))));
    assert!(matches!(ComplexMatrixN::try_new(32), Err(QuestError::InvalidInputError(InputFault::QubitCount))));
    let two = ComplexMatrix2 {
        real: [[num(1.0), num(2.0)], [num(3.0), num(4.0)]],
        imag: [[num(0.0), num(-2.0)], [num(-3.0), num(0.0)]],
    };
    assert_eq!(two.entry(1, 0), Ok(cx(3.0, -3.0)));
    assert_eq!(two.entry(0, 1), Ok(cx(2.0, -2.0)));
    assert_eq!(two.entry(2, 0), fault(InputFault::StateIndex));
    assert_eq!(check_kraus_count(1, 1), Ok(()));
    assert_eq!(check_kraus_count(4, 1), Ok(()));
    assert_eq!(check_kraus_count(5, 1), fault(InputFault::KrausMap));
    assert_eq!(check_kraus_count(0, 1), fault(InputFault::KrausMap));
    assert_eq!(check_kraus_count(16, 2), Ok(()));
    assert_eq!(check_kraus_count(17, 2), fault(InputFault::KrausMap));
    assert_eq!(check_kraus_count(1000, 40), Ok(()));
}

#[test]
fn rotation_plans() {
    let env = QuestEnv::new();
    let reg = Qureg::try_new(4, &env).unwrap();
    assert_eq!(
        reg.rotation_plan(&[3], &[0, 1, 2], &[PauliX, PauliZ, PauliY]).unwrap(),
        vec![
            RotationStep::IntoZ { qubit: 0, code: PauliX },
            RotationStep::IntoZ { qubit: 2, code: PauliY },
            RotationStep::Turn,
            RotationStep::OutOfZ { qubit: 2, code: PauliY },
            RotationStep::OutOfZ { qubit: 0, code: PauliX },
        ]
    );
    assert_eq!(reg.rotation_plan(&[], &[1], &[PauliZ]).unwrap(), vec![RotationStep::Turn]);
    assert_eq!(reg.rotation_plan(&[], &[1, 2], &[PauliI, PauliI]).unwrap(), vec![]);
    assert_eq!(reg.rotation_plan(&[], &[], &[]).unwrap(), vec![]);
    assert_eq!(reg.rotation_plan(&[1], &[1], &[PauliZ]), fault(InputFault::ControlTargetOverlap));
    assert_eq!(reg.rotation_plan(&[], &[1], &[PauliZ, PauliX]), fault(InputFault::PauliTerms));
    assert_eq!(reg.rotation_plan(&[], &[4], &[PauliZ, PauliX]), fault(InputFault::QubitIndex));
    assert_eq!(quest_sim::pauli::non_identity(&[0, 1, 2], &[PauliX, PauliI, PauliZ]), vec![0, 2]);
}

#[test]
fn sums_and_hamiltonians_must_fit_the_register() {
    let env = QuestEnv::new();
    let reg = Qureg::try_new(2, &env).unwrap();
    assert_eq!(reg.check_pauli_sum(4, 2), Ok(()));
    assert_eq!(reg.check_pauli_sum(4, 1), fault(InputFault::PauliTerms));
    assert_eq!(reg.check_pauli_sum(3, 2), fault(InputFault::PauliTerms));
    assert_eq!(reg.check_pauli_sum(0, 0), fault(InputFault::PauliTerms));
    let two = PauliHamil::try_new(2, vec![num(1.0)], vec![PauliX, PauliZ]).unwrap();
    let three = PauliHamil::try_new(3, vec![num(1.0)], vec![PauliX, PauliZ, PauliI]).unwrap();
    assert_eq!(reg.check_hamil(&two), Ok(()));
    assert_eq!(reg.check_hamil(&three), fault(InputFault::RegisterMismatch));
}
