use quest_sim::{
    BitEncoding, PauliOpType, PhaseFunc, Qcomplex, QftStep, QuestEnv, QuestError, Qreal, Qureg,
    RotationStep,
};

fn num(x: f64) -> Qreal {
    Qreal::from_bits(x.to_bits())
}

fn value(x: Qreal) -> f64 {
    f64::from_bits(x.to_bits())
}

fn cx(re: f64, im: f64) -> Qcomplex {
    Qcomplex::new(num(re), num(im))
}

fn pair(z: Qcomplex) -> (f64, f64) {
    (value(z.re), value(z.im))
}

fn times(a: (f64, f64), b: (f64, f64)) -> (f64, f64) {
    (a.0 * b.0 - a.1 * b.1, a.0 * b.1 + a.1 * b.0)
}

fn rotate(phase: f64, conj: bool, a: Qcomplex) -> Qcomplex {
    let phase = if conj { -phase } else { phase };
    let z = times(pair(a), (phase.cos(), phase.sin()));
    cx(z.0, z.1)
}

fn hadamard(reg: &mut Qureg<'_>, target: i32) -> Result<(), QuestError> {
    let h = 1.0 / 2f64.sqrt();
    let f = move |a: Qcomplex, b: Qcomplex| {
        let (x, y) = (pair(a), pair(b));
        (cx(h * (x.0 + y.0), h * (x.1 + y.1)), cx(h * (x.0 - y.0), h * (x.1 - y.1)))
    };
    reg.apply_to_pairs(&[], target, f, f)
}

/// Rotates about the product of Z operators on `qubits`, under `ctrls`.
fn rotate_z(reg: &mut Qureg<'_>, ctrls: &[i32], qubits: &[i32], angle: f64) -> Result<(), QuestError> {
    let turn = move |conj: bool| {
        move |key: u64, a: Qcomplex| {
            let half = if key.count_ones() % 2 == 1 { angle / 2.0 } else { -angle / 2.0 };
            rotate(half, conj, a)
        }
    };
    reg.apply_by_key(ctrls, qubits, turn(false), turn(true))
}

fn change_basis(reg: &mut Qureg<'_>, qubit: i32, code: PauliOpType, back: bool) -> Result<(), QuestError> {
    match code {
        PauliOpType::PauliX => hadamard(reg, qubit),
        PauliOpType::PauliY => {
            if back {
                hadamard(reg, qubit)?;
                reg.s_gate(qubit)
            } else {
                reg.pauli_z(qubit)?;
                reg.s_gate(qubit)?;
                hadamard(reg, qubit)
            }
        }
        _ => Ok(()),
    }
}

fn rotate_pauli(
    reg: &mut Qureg<'_>,
    ctrls: &[i32],
    targets: &[i32],
    codes: &[PauliOpType],
    angle: f64,
) -> Result<(), QuestError> {
    let plan = reg.rotation_plan(ctrls, targets, codes)?;
    let turned = quest_sim::pauli::non_identity(targets, codes);
    for step in plan {
        match step {
            RotationStep::IntoZ { qubit, code } => change_basis(reg, qubit, code, false)?,
            RotationStep::Turn => rotate_z(reg, ctrls, &turned, angle)?,
            RotationStep::OutOfZ { qubit, code } => change_basis(reg, qubit, code, true)?,
        }
    }
    Ok(())
}

fn fourier(reg: &mut Qureg<'_>, qubits: &[i32]) -> Result<(), QuestError> {
    let plan = reg.qft_plan(qubits)?;
    for step in plan {
        match step {
            QftStep::Hadamard { qubit } => hadamard(reg, qubit)?,
            QftStep::Phases { low, high } => {
                let mut listed: Vec<i32> = qubits[..low].to_vec();
                listed.push(high);
                let scale = std::f64::consts::PI / (1u64 << low) as f64;
                let turn = move |v: Vec<i64>, conj: bool, a: Qcomplex| {
                    rotate(scale * (v[0] * v[1]) as f64, conj, a)
                };
                reg.apply_param_named_phase_func(
                    &listed,
                    &[low as i32, 1],
                    BitEncoding::Unsigned,
                    PhaseFunc::ScaledProduct,
                    &[num(scale)],
                    turn,
                )?;
            }
            QftStep::Swap { first, second } => reg.swap_gate(first, second)?,
        }
    }
    Ok(())
}

fn amps(reg: &Qureg<'_>) -> Vec<(f64, f64)> {
    (0..reg.num_amps_total()).map(|i| pair(reg.get_amp(i).unwrap())).collect()
}

fn close(a: (f64, f64), b: (f64, f64)) -> bool {
    (a.0 - b.0).abs() < 1e-12 && (a.1 - b.1).abs() < 1e-12
}

#[test]
fn fourier_transform_of_basis_states() {
    let env = QuestEnv::new();
    let n = 3;
    let size = 1i64 << n;
    for k in 0..size {
        let mut reg = Qureg::try_new(n, &env).unwrap();
        reg.init_classical_state(k).unwrap();
        fourier(&mut reg, &[0, 1, 2]).unwrap();
        let got = amps(&reg);
        for j in 0..size {
            let phase = 2.0 * std::f64::consts::PI * (j * k) as f64 / size as f64;
            let scale = 1.0 / (size as f64).sqrt();
            assert!(
                close(got[j as usize], (scale * phase.cos(), scale * phase.sin())),
                "k = {k}, j = {j}: {:?}",
                got[j as usize]
            );
        }
    }
}

#[test]
fn fourier_transform_of_a_sub_register_leaves_the_rest() {
    let env = QuestEnv::new();
    let mut reg = Qureg::try_new(3, &env).unwrap();
    reg.init_classical_state(0b110).unwrap();
    // qubits (2, 0) hold the value 1: bit 0 is qubit 2, bit 1 is qubit 0
    fourier(&mut reg, &[2, 0]).unwrap();
    let got = amps(&reg);
    for i in 0..8usize {
        let j = ((i >> 2) & 1) | ((i & 1) << 1);
        let expected = if i & 2 == 0 {
            (0.0, 0.0)
        } else {
            let phase = 2.0 * std::f64::consts::PI * j as f64 / 4.0;
            (0.5 * phase.cos(), 0.5 * phase.sin())
        };
        assert!(close(got[i], expected), "i = {i}: {:?}", got[i]);
    }
}

#[test]
fn rotations_about_single_paulis() {
    let env = QuestEnv::new();
    let angle = 0.7f64;
    let (c, s) = ((angle / 2.0).cos(), (angle / 2.0).sin());
    let mut reg = Qureg::try_new(1, &env).unwrap();
    rotate_pauli(&mut reg, &[], &[0], &[PauliOpType::PauliX], angle).unwrap();
    let got = amps(&reg);
    assert!(close(got[0], (c, 0.0)) && close(got[1], (0.0, -s)), "{got:?}");
    let mut reg = Qureg::try_new(1, &env).unwrap();
    rotate_pauli(&mut reg, &[], &[0], &[PauliOpType::PauliY], angle).unwrap();
    let got = amps(&reg);
    assert!(close(got[0], (c, 0.0)) && close(got[1], (s, 0.0)), "{got:?}");
    let mut reg = Qureg::try_new(1, &env).unwrap();
    rotate_pauli(&mut reg, &[], &[0], &[PauliOpType::PauliZ], angle).unwrap();
    let got = amps(&reg);
    assert!(close(got[0], (c, -s)) && close(got[1], (0.0, 0.0)), "{got:?}");
    let mut reg = Qureg::try_new(1, &env).unwrap();
    rotate_pauli(&mut reg, &[], &[0], &[PauliOpType::PauliI], angle).unwrap();
    assert_eq!(amps(&reg), vec![(1.0, 0.0), (0.0, 0.0)]);
}

#[test]
fn rotation_about_a_product_of_paulis() {
    let env = QuestEnv::new();
    let angle = 1.1f64;
    let (c, s) = ((angle / 2.0).cos(), (angle / 2.0).sin());
    // exp(-i angle / 2 X(0) Y(1)) |00> = cos |00> - i sin (X Y |00>) = cos |00> + sin |11>
    let mut reg = Qureg::try_new(2, &env).unwrap();
    rotate_pauli(&mut reg, &[], &[0, 1], &[PauliOpType::PauliX, PauliOpType::PauliY], angle).unwrap();
    let got = amps(&reg);
    assert!(close(got[0], (c, 0.0)), "{got:?}");
    assert!(close(got[1], (0.0, 0.0)) && close(got[2], (0.0, 0.0)), "{got:?}");
    assert!(close(got[3], (s, 0.0)), "{got:?}");
    // under a control that is zero nothing happens
    let mut reg = Qureg::try_new(3, &env).unwrap();
    rotate_pauli(&mut reg, &[2], &[0, 1], &[PauliOpType::PauliX, PauliOpType::PauliY], angle).unwrap();
    let got = amps(&reg);
    assert!(close(got[0], (1.0, 0.0)), "{got:?}");
    for z in &got[1..] {
        assert!(close(*z, (0.0, 0.0)), "{got:?}");
    }
}

#[test]
fn rotation_on_density_matrix_matches_the_state_vector() {
    let env = QuestEnv::new();
    let angle = 0.9f64;
    let mut psi = Qureg::try_new(2, &env).unwrap();
    psi.init_plus_state();
    psi.s_gate(0).unwrap();
    let mut rho = Qureg::try_new_density(2, &env).unwrap();
    let outer = |a: Qcomplex, b: Qcomplex| {
        let z = times(pair(a), (value(b.re), -value(b.im)));
        cx(z.0, z.1)
    };
    rho.init_pure_state(&psi, outer).unwrap();
    let codes = [PauliOpType::PauliY, PauliOpType::PauliX];
    rotate_pauli(&mut psi, &[], &[0, 1], &codes, angle).unwrap();
    rotate_pauli(&mut rho, &[], &[0, 1], &codes, angle).unwrap();
    let v = amps(&psi);
    for r in 0..4usize {
        for c in 0..4usize {
            let expected = times(v[r], (v[c].0, -v[c].1));
            let got = pair(rho.get_density_amp(r as i64, c as i64).unwrap());
            assert!(close(got, expected), "({r}, {c}): {got:?} for {expected:?}");
        }
    }
}
