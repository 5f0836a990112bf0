use quest_sim::{InputFault, Qcomplex, QuestEnv, QuestError, Qreal, Qureg};

fn num(x: f64) -> Qreal {
    Qreal::from_bits(x.to_bits())
}

fn value(x: Qreal) -> f64 {
    f64::from_bits(x.to_bits())
}

fn parts(reg: &Qureg<'_>, index: i64) -> (f64, f64) {
    let amp = reg.get_amp(index).unwrap();
    (value(amp.re), value(amp.im))
}

fn entry(reg: &Qureg<'_>, row: i64, col: i64) -> (f64, f64) {
    let amp = reg.get_density_amp(row, col).unwrap();
    (value(amp.re), value(amp.im))
}

#[test]
fn zero_state_has_one_at_index_zero() {
    let env = QuestEnv::new();
    let mut reg = Qureg::try_new(3, &env).unwrap();
    reg.init_classical_state(6).unwrap();
    reg.init_zero_state();
    assert_eq!(parts(&reg, 0), (1.0, 0.0));
    for i in 1..8 {
        assert_eq!(parts(&reg, i), (0.0, 0.0));
    }
}

#[test]
fn fresh_register_is_in_zero_state() {
    let env = QuestEnv::new();
    let reg = Qureg::try_new(2, &env).unwrap();
    assert_eq!(parts(&reg, 0), (1.0, 0.0));
    for i in 1..4 {
        assert_eq!(parts(&reg, i), (0.0, 0.0));
    }
    let rho = Qureg::try_new_density(2, &env).unwrap();
    for r in 0..4 {
        for c in 0..4 {
            let expected = if r == 0 && c == 0 { 1.0 } else { 0.0 };
            assert_eq!(entry(&rho, r, c), (expected, 0.0));
        }
    }
}

#[test]
fn blank_state_is_all_zero() {
    let env = QuestEnv::new();
    let mut reg = Qureg::try_new(2, &env).unwrap();
    reg.init_blank_state();
    for i in 0..4 {
        assert_eq!(parts(&reg, i), (0.0, 0.0));
    }
}

#[test]
fn classical_state_five_of_three_qubits() {
    let env = QuestEnv::new();
    let mut reg = Qureg::try_new(3, &env).unwrap();
    reg.init_classical_state(5).unwrap();
    for i in 0..8 {
        let re = value(reg.get_real_amp(i).unwrap());
        let im = value(reg.get_imag_amp(i).unwrap());
        assert_eq!(re, if i == 5 { 1.0 } else { 0.0 });
        assert_eq!(im, 0.0);
    }
}

#[test]
fn classical_state_of_density_matrix_sits_on_diagonal() {
    let env = QuestEnv::new();
    let mut rho = Qureg::try_new_density(2, &env).unwrap();
    rho.init_classical_state(2).unwrap();
    for r in 0..4 {
        for c in 0..4 {
            let expected = if r == 2 && c == 2 { 1.0 } else { 0.0 };
            assert_eq!(entry(&rho, r, c), (expected, 0.0));
        }
    }
}

#[test]
fn classical_state_out_of_range_fails_and_keeps_amplitudes() {
    let env = QuestEnv::new();
    let mut reg = Qureg::try_new(3, &env).unwrap();
    reg.init_classical_state(3).unwrap();
    let before: Vec<Qcomplex> = (0..8).map(|i| reg.get_amp(i).unwrap()).collect();
    for bad in [8i64, -1, 100, i64::MAX, i64::MIN] {
        assert_eq!(
            reg.init_classical_state(bad),
            Err(QuestError::InvalidInputError(InputFault::StateIndex))
        );
        let after: Vec<Qcomplex> = (0..8).map(|i| reg.get_amp(i).unwrap()).collect();
        assert_eq!(before, after);
    }
    let mut rho = Qureg::try_new_density(2, &env).unwrap();
    assert_eq!(
        rho.init_classical_state(4),
        Err(QuestError::InvalidInputError(InputFault::StateIndex))
    );
    assert_eq!(entry(&rho, 0, 0), (1.0, 0.0));
}

#[test]
fn state_from_amps_sets_every_amplitude() {
    let env = QuestEnv::new();
    let mut reg = Qureg::try_new(2, &env).unwrap();
    let re = [num(1.0), num(2.0), num(3.0), num(4.0)];
    let im = [num(-1.0), num(-2.0), num(-3.0), num(-4.0)];
    reg.init_state_from_amps(&re, &im).unwrap();
    for i in 0..4 {
        assert_eq!(parts(&reg, i), ((i + 1) as f64, -((i + 1) as f64)));
    }
}

#[test]
fn state_from_amps_rejects_wrong_lengths() {
    let env = QuestEnv::new();
    let mut reg = Qureg::try_new(2, &env).unwrap();
    let three = [num(1.0), num(2.0), num(3.0)];
    let four = [num(0.0); 4];
    let five = [num(0.0); 5];
    assert_eq!(reg.init_state_from_amps(&three, &four), Err(QuestError::ArrayLengthError));
    assert_eq!(reg.init_state_from_amps(&four, &three), Err(QuestError::ArrayLengthError));
    assert_eq!(reg.init_state_from_amps(&five, &five), Err(QuestError::ArrayLengthError));
    assert_eq!(parts(&reg, 0), (1.0, 0.0));
}

#[test]
fn set_amps_overwrites_a_range() {
    let env = QuestEnv::new();
    let mut reg = Qureg::try_new(2, &env).unwrap();
    let re = [num(1.0), num(2.0), num(3.0)];
    let im = [num(4.0), num(5.0), num(6.0)];
    reg.set_amps(1, &re, &im).unwrap();
    assert_eq!(parts(&reg, 0), (1.0, 0.0));
    assert_eq!(parts(&reg, 1), (1.0, 4.0));
    assert_eq!(parts(&reg, 2), (2.0, 5.0));
    assert_eq!(parts(&reg, 3), (3.0, 6.0));
}

#[test]
fn set_amps_in_two_halves() {
    let env = QuestEnv::new();
    let mut reg = Qureg::try_new(3, &env).unwrap();
    let mut re = [num(1.0), num(2.0), num(3.0), num(4.0)];
    let mut im = re;
    reg.set_amps(0, &re, &im).unwrap();
    for i in 0..4 {
        re[i] = num(value(re[i]) + 4.0);
        im[i] = num(value(im[i]) + 4.0);
    }
    reg.set_amps(4, &re, &im).unwrap();
    for i in 0..8 {
        assert_eq!(parts(&reg, i), ((i + 1) as f64, (i + 1) as f64));
    }
}

#[test]
fn set_amps_faults() {
    let env = QuestEnv::new();
    let mut reg = Qureg::try_new(2, &env).unwrap();
    let two = [num(7.0), num(8.0)];
    let three = [num(7.0), num(8.0), num(9.0)];
    assert_eq!(reg.set_amps(0, &two, &three), Err(QuestError::ArrayLengthError));
    assert_eq!(
        reg.set_amps(4, &two, &two),
        Err(QuestError::InvalidInputError(InputFault::StateIndex))
    );
    assert_eq!(
        reg.set_amps(-1, &two, &two),
        Err(QuestError::InvalidInputError(InputFault::StateIndex))
    );
    assert_eq!(reg.set_amps(3, &two, &two), Err(QuestError::ArrayLengthError));
    assert_eq!(reg.set_amps(2, &three, &three), Err(QuestError::ArrayLengthError));
    let mut rho = Qureg::try_new_density(1, &env).unwrap();
    assert_eq!(
        rho.set_amps(0, &two, &two),
        Err(QuestError::InvalidInputError(InputFault::NotStateVector))
    );
    for i in 0..4 {
        assert_eq!(parts(&reg, i), (if i == 0 { 1.0 } else { 0.0 }, 0.0));
    }
    reg.set_amps(2, &two, &two).unwrap();
    assert_eq!(parts(&reg, 3), (8.0, 8.0));
}

#[test]
fn set_density_amps_runs_down_the_columns() {
    let env = QuestEnv::new();
    let mut rho = Qureg::try_new_density(2, &env).unwrap();
    let re = [num(1.0), num(2.0), num(3.0)];
    let im = [num(4.0), num(5.0), num(6.0)];
    rho.set_density_amps(1, 1, &re, &im).unwrap();
    assert_eq!(entry(&rho, 1, 1), (1.0, 4.0));
    assert_eq!(entry(&rho, 2, 1), (2.0, 5.0));
    assert_eq!(entry(&rho, 3, 1), (3.0, 6.0));
    assert_eq!(entry(&rho, 0, 2), (0.0, 0.0));
    assert_eq!(entry(&rho, 0, 0), (1.0, 0.0));
    rho.set_density_amps(3, 2, &re, &im).unwrap();
    assert_eq!(entry(&rho, 3, 2), (1.0, 4.0));
    assert_eq!(entry(&rho, 0, 3), (2.0, 5.0));
    assert_eq!(entry(&rho, 1, 3), (3.0, 6.0));
}

#[test]
fn set_density_amps_faults() {
    let env = QuestEnv::new();
    let mut rho = Qureg::try_new_density(1, &env).unwrap();
    let two = [num(7.0), num(8.0)];
    let three = [num(7.0), num(8.0), num(9.0)];
    assert_eq!(rho.set_density_amps(0, 0, &two, &three), Err(QuestError::ArrayLengthError));
    assert_eq!(
        rho.set_density_amps(2, 0, &two, &two),
        Err(QuestError::InvalidInputError(InputFault::StateIndex))
    );
    assert_eq!(
        rho.set_density_amps(0, -1, &two, &two),
        Err(QuestError::InvalidInputError(InputFault::StateIndex))
    );
    assert_eq!(rho.set_density_amps(1, 1, &two, &two), Err(QuestError::ArrayLengthError));
    let mut reg = Qureg::try_new(2, &env).unwrap();
    assert_eq!(
        reg.set_density_amps(0, 0, &two, &two),
        Err(QuestError::InvalidInputError(InputFault::NotDensityMatrix))
    );
    assert_eq!(entry(&rho, 0, 0), (1.0, 0.0));
    assert_eq!(entry(&rho, 1, 1), (0.0, 0.0));
}

#[test]
fn getters_check_kind_and_index() {
    let env = QuestEnv::new();
    let reg = Qureg::try_new(2, &env).unwrap();
    let rho = Qureg::try_new_density(2, &env).unwrap();
    assert_eq!(reg.get_amp(4), Err(QuestError::InvalidInputError(InputFault::StateIndex)));
    assert_eq!(reg.get_real_amp(-1), Err(QuestError::InvalidInputError(InputFault::StateIndex)));
    assert_eq!(reg.get_imag_amp(4), Err(QuestError::InvalidInputError(InputFault::StateIndex)));
    assert_eq!(rho.get_amp(0), Err(QuestError::InvalidInputError(InputFault::NotStateVector)));
    assert_eq!(rho.get_real_amp(0), Err(QuestError::InvalidInputError(InputFault::NotStateVector)));
    assert_eq!(
        reg.get_density_amp(0, 0),
        Err(QuestError::InvalidInputError(InputFault::NotDensityMatrix))
    );
    assert_eq!(
        rho.get_density_amp(4, 0),
        Err(QuestError::InvalidInputError(InputFault::StateIndex))
    );
    assert_eq!(
        rho.get_density_amp(0, 4),
        Err(QuestError::InvalidInputError(InputFault::StateIndex))
    );
}

#[test]
fn clone_copies_amplitudes_of_a_matching_register() {
    let env = QuestEnv::new();
    let mut a = Qureg::try_new(2, &env).unwrap();
    let mut b = Qureg::try_new(2, &env).unwrap();
    b.init_classical_state(3).unwrap();
    a.clone_qureg(&b).unwrap();
    assert_eq!(parts(&a, 3), (1.0, 0.0));
    assert_eq!(parts(&a, 0), (0.0, 0.0));
    let c = Qureg::try_new(3, &env).unwrap();
    let d = Qureg::try_new_density(2, &env).unwrap();
    assert_eq!(
        a.clone_qureg(&c),
        Err(QuestError::InvalidInputError(InputFault::RegisterMismatch))
    );
    assert_eq!(
        a.clone_qureg(&d),
        Err(QuestError::InvalidInputError(InputFault::RegisterMismatch))
    );
    assert_eq!(parts(&a, 3), (1.0, 0.0));
}

#[test]
fn scalars_are_bit_patterns() {
    assert_eq!(Qreal::one().to_bits(), 1.0f64.to_bits());
    assert_eq!(Qreal::zero().to_bits(), 0.0f64.to_bits());
    assert_eq!(value(num(2.5).neg()), -2.5);
    assert_eq!(num(0.0).neg().to_bits(), (-0.0f64).to_bits());
    let z = Qcomplex::new(num(3.0), num(-4.0));
    assert_eq!((value(z.neg().re), value(z.neg().im)), (-3.0, 4.0));
    assert_eq!((value(z.conj().re), value(z.conj().im)), (3.0, 4.0));
    assert_eq!((value(z.times_i().re), value(z.times_i().im)), (4.0, 3.0));
    assert_eq!((value(z.times_neg_i().re), value(z.times_neg_i().im)), (-4.0, -3.0));
    assert_eq!(Qcomplex::one(), Qcomplex::new(num(1.0), num(0.0)));
    assert_eq!(Qcomplex::zero(), Qcomplex::new(num(0.0), num(0.0)));
}

#[test]
fn environment_keeps_its_seed() {
    assert_eq!(QuestEnv::new().seed(), 0);
    assert_eq!(QuestEnv::with_seed(42).seed(), 42);
    let env = QuestEnv::with_seed(7);
    let reg = Qureg::try_new(1, &env).unwrap();
    assert_eq!(reg.env().seed(), 7);
}
