use quest_sim::phase::{BitEncoding, PhaseFunc};
use quest_sim::{InputFault, Qcomplex, QuestEnv, QuestError, Qreal, Qureg};

fn num(x: f64) -> Qreal {
    Qreal::from_bits(x.to_bits())
}

fn value(x: Qreal) -> f64 {
    f64::from_bits(x.to_bits())
}

fn reals(xs: &[f64]) -> Vec<Qreal> {
    xs.iter().map(|x| num(*x)).collect()
}

fn fault(f: InputFault) -> Result<(), QuestError> {
    Err(QuestError::InvalidInputError(f))
}

/// Multiplies an amplitude by `exp(i phase)`, or by its conjugate.
fn rotate(phase: f64, conj: bool, a: Qcomplex) -> Qcomplex {
    let phase = if conj { -phase } else { phase };
    let (c, s) = (phase.cos(), phase.sin());
    let (re, im) = (value(a.re), value(a.im));
    Qcomplex::new(num(re * c - im * s), num(re * s + im * c))
}

/// Writes the values into the amplitude, to record what the sweep hands over.
fn mark(v: Vec<i64>, conj: bool, _a: Qcomplex) -> Qcomplex {
    let code = v.iter().rev().fold(0i64, |acc, r| acc * 100 + (r + 50));
    Qcomplex::new(num(code as f64), num(if conj { 1.0 } else { 0.0 }))
}

/// Writes the override phase into the amplitude.
fn mark_by(p: Qreal, conj: bool, _a: Qcomplex) -> Qcomplex {
    Qcomplex::new(num(-value(p)), num(if conj { 1.0 } else { 0.0 }))
}

fn re_parts(reg: &Qureg<'_>) -> Vec<f64> {
    (0..reg.num_amps_total()).map(|i| value(reg.get_amp(i).unwrap().re)).collect()
}

#[test]
fn unsigned_value_of_listed_qubits() {
    let env = QuestEnv::new();
    let mut reg = Qureg::try_new(3, &env).unwrap();
    reg.apply_phase_func(&[2, 0], BitEncoding::Unsigned, &reals(&[1.0]), &reals(&[2.0]), mark)
        .unwrap();
    // value r: bit 0 is qubit 2, bit 1 is qubit 0; recorded as r + 50
    assert_eq!(re_parts(&reg), vec![50.0, 52.0, 50.0, 52.0, 51.0, 53.0, 51.0, 53.0]);
}

#[test]
fn twos_complement_value_of_listed_qubits() {
    let env = QuestEnv::new();
    let mut reg = Qureg::try_new(2, &env).unwrap();
    reg.apply_phase_func(&[0, 1], BitEncoding::TwosComplement, &reals(&[1.0]), &reals(&[1.0]), mark)
        .unwrap();
    // values 0, 1, -2, -1
    assert_eq!(re_parts(&reg), vec![50.0, 51.0, 48.0, 49.0]);
}

#[test]
fn quadratic_phase_on_plus_state() {
    let env = QuestEnv::new();
    let mut reg = Qureg::try_new(2, &env).unwrap();
    reg.init_plus_state();
    let coeffs = [0.5];
    let exponents = [2.0];
    let turn = |v: Vec<i64>, conj: bool, a: Qcomplex| {
        let r = v[0] as f64;
        rotate(coeffs[0] * r.powf(exponents[0]), conj, a)
    };
    reg.apply_phase_func(&[0, 1], BitEncoding::Unsigned, &reals(&coeffs), &reals(&exponents), turn)
        .unwrap();
    for r in 0..4i64 {
        let a = reg.get_amp(r).unwrap();
        let phase = 0.5 * (r * r) as f64;
        assert!((value(a.re) - 0.5 * phase.cos()).abs() < 1e-12);
        assert!((value(a.im) - 0.5 * phase.sin()).abs() < 1e-12);
    }
}

#[test]
fn overrides_take_precedence_and_first_match_wins() {
    let env = QuestEnv::new();
    let mut reg = Qureg::try_new(2, &env).unwrap();
    reg.apply_phase_func_overrides(
        &[0, 1],
        BitEncoding::Unsigned,
        &reals(&[1.0]),
        &reals(&[-1.0]),
        &[0, 2, 0],
        &reals(&[7.0, 8.0, 9.0]),
        mark,
        mark_by,
    )
    .unwrap();
    assert_eq!(re_parts(&reg), vec![-7.0, 51.0, -8.0, 53.0]);
}

#[test]
fn density_matrix_takes_opposite_phase_on_columns() {
    let env = QuestEnv::new();
    let mut rho = Qureg::try_new_density(1, &env).unwrap();
    rho.init_plus_state();
    let turn = |v: Vec<i64>, conj: bool, a: Qcomplex| rotate(1.25 * v[0] as f64, conj, a);
    rho.apply_phase_func(&[0], BitEncoding::Unsigned, &reals(&[1.25]), &reals(&[1.0]), turn)
        .unwrap();
    let at = |r, c| {
        let z = rho.get_density_amp(r, c).unwrap();
        (value(z.re), value(z.im))
    };
    let close = |a: (f64, f64), b: (f64, f64)| (a.0 - b.0).abs() < 1e-12 && (a.1 - b.1).abs() < 1e-12;
    assert!(close(at(0, 0), (0.5, 0.0)));
    assert!(close(at(1, 1), (0.5, 0.0)));
    assert!(close(at(1, 0), (0.5 * 1.25f64.cos(), 0.5 * 1.25f64.sin())));
    assert!(close(at(0, 1), (0.5 * 1.25f64.cos(), -0.5 * 1.25f64.sin())));
}

#[test]
fn phase_func_faults() {
    let env = QuestEnv::new();
    let mut reg = Qureg::try_new(3, &env).unwrap();
    reg.init_classical_state(6).unwrap();
    let before = re_parts(&reg);
    let one = reals(&[1.0]);
    let u = BitEncoding::Unsigned;
    let t = BitEncoding::TwosComplement;
    assert_eq!(reg.apply_phase_func(&[0, 1, 2, 0], u, &one, &one, mark), fault(InputFault::ListLength));
    assert_eq!(reg.apply_phase_func(&[], u, &one, &one, mark), fault(InputFault::Encoding));
    assert_eq!(reg.apply_phase_func(&[1], t, &one, &one, mark), fault(InputFault::Encoding));
    assert_eq!(reg.apply_phase_func(&[0, 3], u, &one, &one, mark), fault(InputFault::QubitIndex));
    assert_eq!(reg.apply_phase_func(&[1, 1], u, &one, &one, mark), fault(InputFault::RepeatedQubit));
    assert_eq!(reg.apply_phase_func(&[0], u, &one, &reals(&[1.0, 2.0]), mark), fault(InputFault::PhaseTerms));
    assert_eq!(reg.apply_phase_func(&[0], u, &[], &[], mark), fault(InputFault::PhaseTerms));
    assert_eq!(
        reg.apply_phase_func(&[0], u, &one, &reals(&[-1.0]), mark),
        fault(InputFault::NegativeExponent)
    );
    assert_eq!(
        reg.apply_phase_func(&[0, 1], t, &one, &reals(&[0.5]), mark),
        fault(InputFault::FractionalExponent)
    );
    assert_eq!(re_parts(&reg), before);
    // a fractional exponent is fine for unsigned values, and minus zero is no negative exponent
    reg.apply_phase_func(&[0, 1], u, &one, &reals(&[0.5]), mark).unwrap();
    reg.apply_phase_func(&[0, 1], u, &one, &reals(&[-0.0]), mark).unwrap();
}

#[test]
fn override_faults_and_repairs() {
    let env = QuestEnv::new();
    let mut reg = Qureg::try_new(3, &env).unwrap();
    let before = re_parts(&reg);
    let one = reals(&[1.0]);
    let u = BitEncoding::Unsigned;
    let t = BitEncoding::TwosComplement;
    assert_eq!(
        reg.apply_phase_func_overrides(&[0, 1], u, &one, &one, &[0, 1], &reals(&[0.0]), mark, mark_by),
        fault(InputFault::PhaseTerms)
    );
    assert_eq!(
        reg.apply_phase_func_overrides(&[0, 1], u, &one, &one, &[4], &reals(&[0.0]), mark, mark_by),
        fault(InputFault::OverrideIndex)
    );
    assert_eq!(
        reg.apply_phase_func_overrides(&[0, 1], u, &one, &one, &[-1], &reals(&[0.0]), mark, mark_by),
        fault(InputFault::OverrideIndex)
    );
    assert_eq!(
        reg.apply_phase_func_overrides(&[0, 1], t, &one, &one, &[2], &reals(&[0.0]), mark, mark_by),
        fault(InputFault::OverrideIndex)
    );
    assert_eq!(
        reg.apply_phase_func_overrides(
            &[0, 1],
            u,
            &one,
            &reals(&[-2.0]),
            &[1],
            &reals(&[0.0]),
            mark,
            mark_by
        ),
        fault(InputFault::NegativeExponent)
    );
    assert_eq!(
        reg.apply_phase_func_overrides(
            &[0, 1],
            t,
            &one,
            &reals(&[1.5]),
            &[-1],
            &reals(&[0.0]),
            mark,
            mark_by
        ),
        fault(InputFault::FractionalExponent)
    );
    assert_eq!(re_parts(&reg), before);
    reg.apply_phase_func_overrides(
        &[0, 1],
        u,
        &one,
        &reals(&[-2.0]),
        &[0],
        &reals(&[0.0]),
        mark,
        mark_by,
    )
    .unwrap();
    reg.apply_phase_func_overrides(
        &[0, 1],
        t,
        &one,
        &reals(&[1.5]),
        &[-1, -2],
        &reals(&[0.0, 0.0]),
        mark,
        mark_by,
    )
    .unwrap();
}

#[test]
fn several_variables_are_read_from_their_sub_registers() {
    let env = QuestEnv::new();
    let mut reg = Qureg::try_new(3, &env).unwrap();
    reg.apply_multi_var_phase_func(
        &[0, 1, 2],
        &[2, 1],
        BitEncoding::Unsigned,
        &reals(&[1.0, 1.0]),
        &reals(&[1.0, 1.0]),
        &[1, 1],
        mark,
    )
    .unwrap();
    // code = (r2 + 50) * 100 + (r1 + 50), r1 from qubits 0 and 1, r2 from qubit 2
    let expected: Vec<f64> =
        (0..8).map(|i| ((i >> 2) + 50) as f64 * 100.0 + ((i & 3) + 50) as f64).collect();
    assert_eq!(re_parts(&reg), expected);
}

#[test]
fn overrides_of_several_variables_name_one_value_each() {
    let env = QuestEnv::new();
    let mut reg = Qureg::try_new(2, &env).unwrap();
    reg.pauli_x(1).unwrap();
    reg.apply_multi_var_phase_func_overrides(
        &[0, 1],
        &[1, 1],
        BitEncoding::Unsigned,
        &reals(&[0.5, 0.5]),
        &reals(&[2.0, 2.0]),
        &[1, 1],
        &[0, 1, 1, 1],
        &reals(&[3.0, 4.0]),
        mark,
        mark_by,
    )
    .unwrap();
    // index 2 has values (0, 1) and index 3 has values (1, 1)
    assert_eq!(re_parts(&reg), vec![5050.0, 5051.0, -3.0, -4.0]);
}

#[test]
fn multi_var_faults() {
    let env = QuestEnv::new();
    let mut reg = Qureg::try_new(3, &env).unwrap();
    let before = re_parts(&reg);
    let u = BitEncoding::Unsigned;
    let t = BitEncoding::TwosComplement;
    let two = reals(&[1.0, 1.0]);
    assert_eq!(
        reg.apply_multi_var_phase_func(&[0, 1], &[], u, &two, &two, &[], mark),
        fault(InputFault::RegisterCount)
    );
    assert_eq!(
        reg.apply_multi_var_phase_func(&[0, 1], &[2, 0], u, &two, &two, &[1, 1], mark),
        fault(InputFault::Encoding)
    );
    assert_eq!(
        reg.apply_multi_var_phase_func(&[0, 1, 2], &[2, 1], t, &two, &two, &[1, 1], mark),
        fault(InputFault::Encoding)
    );
    assert_eq!(
        reg.apply_multi_var_phase_func(&[0, 1, 2], &[1, 1], u, &two, &two, &[1, 1], mark),
        fault(InputFault::ListLength)
    );
    assert_eq!(
        reg.apply_multi_var_phase_func(&[0, 1], &[1, 2], u, &two, &two, &[1, 1], mark),
        fault(InputFault::ListLength)
    );
    assert_eq!(
        reg.apply_multi_var_phase_func(&[0, 0], &[1, 1], u, &two, &two, &[1, 1], mark),
        fault(InputFault::RepeatedQubit)
    );
    assert_eq!(
        reg.apply_multi_var_phase_func(&[0, 1], &[1, 1], u, &two, &two, &[1], mark),
        fault(InputFault::PhaseTerms)
    );
    assert_eq!(
        reg.apply_multi_var_phase_func(&[0, 1], &[1, 1], u, &two, &two, &[2, 0], mark),
        fault(InputFault::PhaseTerms)
    );
    assert_eq!(
        reg.apply_multi_var_phase_func(&[0, 1], &[1, 1], u, &two, &two, &[2, 1], mark),
        fault(InputFault::PhaseTerms)
    );
    assert_eq!(
        reg.apply_multi_var_phase_func(&[0, 1], &[1, 1], u, &two, &reals(&[1.0, -1.0]), &[1, 1], mark),
        fault(InputFault::NegativeExponent)
    );
    assert_eq!(
        reg.apply_multi_var_phase_func(&[0, 1, 2], &[2, 1], u, &two, &reals(&[1.0, 0.5]), &[1, 1], mark),
        Ok(())
    );
    let mut other = Qureg::try_new(4, &env).unwrap();
    assert_eq!(
        other.apply_multi_var_phase_func(&[0, 1, 2, 3], &[2, 2], t, &two, &reals(&[1.0, 0.5]), &[1, 1], mark),
        fault(InputFault::FractionalExponent)
    );
    assert_eq!(
        other.apply_multi_var_phase_func_overrides(
            &[0, 1, 2, 3],
            &[2, 2],
            t,
            &two,
            &two,
            &[1, 1],
            &[0, 1, 2],
            &reals(&[1.0]),
            mark,
            mark_by
        ),
        fault(InputFault::PhaseTerms)
    );
    assert_eq!(
        other.apply_multi_var_phase_func_overrides(
            &[0, 1, 2, 3],
            &[2, 2],
            t,
            &two,
            &two,
            &[1, 1],
            &[0, 2],
            &reals(&[1.0]),
            mark,
            mark_by
        ),
        fault(InputFault::OverrideIndex)
    );
    let _ = before;
}

#[test]
fn named_functions_need_their_parameters() {
    let env = QuestEnv::new();
    let mut reg = Qureg::try_new(2, &env).unwrap();
    let u = BitEncoding::Unsigned;
    reg.apply_named_phase_func(&[0, 1], &[1, 1], u, PhaseFunc::Distance, mark).unwrap();
    assert_eq!(re_parts(&reg), vec![5050.0, 5051.0, 5150.0, 5151.0]);
    let mut reg = Qureg::try_new(3, &env).unwrap();
    let before = re_parts(&reg);
    assert_eq!(
        reg.apply_named_phase_func(&[0, 1, 2], &[1, 1, 1], u, PhaseFunc::Distance, mark),
        fault(InputFault::PhaseParameters)
    );
    assert_eq!(
        reg.apply_named_phase_func(&[0, 1], &[1, 1], u, PhaseFunc::ScaledNorm, mark),
        fault(InputFault::PhaseParameters)
    );
    assert_eq!(
        reg.apply_param_named_phase_func(&[0, 1], &[1, 1], u, PhaseFunc::Norm, &reals(&[1.0]), mark),
        fault(InputFault::PhaseParameters)
    );
    assert_eq!(
        reg.apply_param_named_phase_func(
            &[0, 1],
            &[1, 1],
            u,
            PhaseFunc::ScaledInverseShiftedNorm,
            &reals(&[1.0, 2.0, 3.0]),
            mark
        ),
        fault(InputFault::PhaseParameters)
    );
    assert_eq!(re_parts(&reg), before);
    reg.apply_param_named_phase_func(
        &[0, 1],
        &[1, 1],
        u,
        PhaseFunc::ScaledInverseShiftedNorm,
        &reals(&[1.0, 2.0, 3.0, 4.0]),
        mark,
    )
    .unwrap();
    reg.apply_param_named_phase_func(
        &[0, 1],
        &[1, 1],
        u,
        PhaseFunc::ScaledInverseShiftedDistance,
        &reals(&[1.0, 2.0, 3.0]),
        mark,
    )
    .unwrap();
    reg.apply_param_named_phase_func_overrides(
        &[0, 1],
        &[1, 1],
        u,
        PhaseFunc::ScaledInverseDistance,
        &reals(&[1.0, 2.0]),
        &[0, 0, 1, 1],
        &reals(&[5.0, 6.0]),
        mark,
        mark_by,
    )
    .unwrap();
    assert_eq!(value(reg.get_amp(0).unwrap().re), -5.0);
    assert_eq!(value(reg.get_amp(3).unwrap().re), -6.0);
    assert_eq!(value(reg.get_amp(1).unwrap().re), 5051.0);
    reg.apply_named_phase_func_overrides(
        &[0, 1],
        &[1, 1],
        u,
        PhaseFunc::Product,
        &[1, 0],
        &reals(&[9.0]),
        mark,
        mark_by,
    )
    .unwrap();
    assert_eq!(value(reg.get_amp(1).unwrap().re), -9.0);
}

#[test]
fn sign_and_wholeness_of_encodings() {
    for x in [-1.0, -0.5, -1e-300, f64::NEG_INFINITY, -5e-324] {
        assert!(num(x).is_negative(), "{x}");
    }
    for x in [0.0, -0.0, 1.0, f64::INFINITY, f64::NAN, -f64::NAN, 5e-324] {
        assert!(!num(x).is_negative(), "{x}");
    }
    for x in [0.0, -0.0, 1.0, -1.0, 2.0, 3.0, 1e15, -4503599627370496.0, 9007199254740993.0, 1e300, f64::INFINITY, f64::NEG_INFINITY] {
        assert!(num(x).is_whole(), "{x}");
        assert_eq!(num(x).is_whole(), x.floor() == x);
    }
    for x in [0.5, -0.5, 1.5, 2.25, 1e-300, 5e-324, 4503599627370495.5, 0.9999999999999999, f64::NAN] {
        assert!(!num(x).is_whole(), "{x}");
        assert_eq!(num(x).is_whole(), x.floor() == x);
    }
}
