use quest_sim::{Qcomplex, QuestEnv, Qreal, Qureg};

fn num(x: f64) -> Qreal {
    Qreal::from_bits(x.to_bits())
}

fn value(x: Qreal) -> f64 {
    f64::from_bits(x.to_bits())
}

fn cx(z: (f64, f64)) -> Qcomplex {
    Qcomplex::new(num(z.0), num(z.1))
}

fn pair(z: Qcomplex) -> (f64, f64) {
    (value(z.re), value(z.im))
}

fn scaled(z: (f64, f64), s: f64) -> (f64, f64) {
    (z.0 * s, z.1 * s)
}

fn plus(a: (f64, f64), b: (f64, f64)) -> (f64, f64) {
    (a.0 + b.0, a.1 + b.1)
}

fn times(a: (f64, f64), b: (f64, f64)) -> (f64, f64) {
    (a.0 * b.0 - a.1 * b.1, a.0 * b.1 + a.1 * b.0)
}

fn values(block: &[Qcomplex]) -> Vec<(f64, f64)> {
    block.iter().map(|z| pair(*z)).collect()
}

fn back(values: Vec<(f64, f64)>) -> Vec<Qcomplex> {
    values.into_iter().map(cx).collect()
}

fn entries(rho: &Qureg<'_>) -> Vec<(f64, f64)> {
    let d = 1i64 << rho.num_qubits();
    (0..rho.num_amps_total()).map(|i| pair(rho.get_density_amp(i % d, i / d).unwrap())).collect()
}

/// A density register with distinct entries that is Hermitian.
fn sample<'a>(num_qubits: i32, env: &'a QuestEnv) -> Qureg<'a> {
    let mut rho = Qureg::try_new_density(num_qubits, env).unwrap();
    let d = 1i64 << num_qubits;
    let n = rho.num_amps_total();
    let re: Vec<Qreal> = (0..n)
        .map(|k| {
            let (r, c) = (k % d, k / d);
            num(0.1 + 0.01 * ((r + 1) * (c + 1)) as f64 + if r == c { 0.2 * r as f64 } else { 0.0 })
        })
        .collect();
    let im: Vec<Qreal> = (0..n)
        .map(|k| {
            let (r, c) = (k % d, k / d);
            num(0.03 * (r - c) as f64)
        })
        .collect();
    rho.init_state_from_amps(&re, &im).unwrap();
    rho
}

/// The weighted sum of the register after each of the given gate
/// sequences, computed with the exact gates.
fn mixture(
    env: &QuestEnv,
    rho: &Qureg<'_>,
    terms: &[(f64, Vec<(char, i32)>)],
) -> Vec<(f64, f64)> {
    let mut sum = vec![(0.0, 0.0); rho.num_amps_total() as usize];
    for (weight, gates) in terms {
        let mut copy = Qureg::try_new_density(rho.num_qubits(), env).unwrap();
        copy.clone_qureg(rho).unwrap();
        for (gate, qubit) in gates {
            match gate {
                'X' => copy.pauli_x(*qubit).unwrap(),
                'Y' => copy.pauli_y(*qubit).unwrap(),
                'Z' => copy.pauli_z(*qubit).unwrap(),
                _ => {}
            }
        }
        for (acc, z) in sum.iter_mut().zip(entries(&copy)) {
            *acc = plus(*acc, scaled(z, *weight));
        }
    }
    sum
}

fn assert_close(got: &[(f64, f64)], expected: &[(f64, f64)]) {
    assert_eq!(got.len(), expected.len());
    for (i, (g, e)) in got.iter().zip(expected.iter()).enumerate() {
        assert!((g.0 - e.0).abs() < 1e-12 && (g.1 - e.1).abs() < 1e-12, "entry {i}: {g:?} for {e:?}");
    }
}

fn dephase(side: usize, scale: f64) -> impl Fn(Vec<Qcomplex>) -> Vec<Qcomplex> {
    move |block: Vec<Qcomplex>| {
        let mut out = values(&block);
        for (j, z) in out.iter_mut().enumerate() {
            if j % side != j / side {
                *z = scaled(*z, scale);
            }
        }
        back(out)
    }
}

fn depolarise(side: usize, keep: f64, spread: f64) -> impl Fn(Vec<Qcomplex>) -> Vec<Qcomplex> {
    move |block: Vec<Qcomplex>| {
        let old = values(&block);
        let mut trace = (0.0, 0.0);
        for r in 0..side {
            trace = plus(trace, old[r + side * r]);
        }
        let mut out = Vec::new();
        for (j, z) in old.iter().enumerate() {
            let mut entry = scaled(*z, keep);
            if j % side == j / side {
                entry = plus(entry, scaled(trace, spread));
            }
            out.push(entry);
        }
        back(out)
    }
}

type Matrix = Vec<Vec<(f64, f64)>>;

fn kraus_map(ops: Vec<Matrix>, side: usize) -> impl Fn(Vec<Qcomplex>) -> Vec<Qcomplex> {
    move |block: Vec<Qcomplex>| {
        let old = values(&block);
        let mut out = vec![(0.0, 0.0); old.len()];
        for op in &ops {
            for r in 0..side {
                for c in 0..side {
                    let mut sum = (0.0, 0.0);
                    for a in 0..side {
                        for b in 0..side {
                            let conj = (op[c][b].0, -op[c][b].1);
                            sum = plus(sum, times(times(op[r][a], old[a + side * b]), conj));
                        }
                    }
                    out[r + side * c] = plus(out[r + side * c], sum);
                }
            }
        }
        back(out)
    }
}

#[test]
fn dephasing_is_a_mixture_with_phase_flips() {
    let env = QuestEnv::new();
    let p = 0.3;
    let mut rho = sample(2, &env);
    let expected = mixture(&env, &rho, &[(1.0 - p, vec![]), (p, vec![('Z', 1)])]);
    rho.mix_dephasing(1, num(p), dephase(2, 1.0 - 2.0 * p)).unwrap();
    assert_close(&entries(&rho), &expected);
    let mut rho = sample(2, &env);
    let expected = mixture(
        &env,
        &rho,
        &[
            (1.0 - p, vec![]),
            (p / 3.0, vec![('Z', 0)]),
            (p / 3.0, vec![('Z', 1)]),
            (p / 3.0, vec![('Z', 0), ('Z', 1)]),
        ],
    );
    rho.mix_two_qubit_dephasing(0, 1, num(p), dephase(4, 1.0 - 4.0 * p / 3.0)).unwrap();
    assert_close(&entries(&rho), &expected);
}

#[test]
fn depolarising_is_a_mixture_with_pauli_errors() {
    let env = QuestEnv::new();
    let p = 0.4;
    let mut rho = sample(2, &env);
    let expected = mixture(
        &env,
        &rho,
        &[
            (1.0 - p, vec![]),
            (p / 3.0, vec![('X', 0)]),
            (p / 3.0, vec![('Y', 0)]),
            (p / 3.0, vec![('Z', 0)]),
        ],
    );
    rho.mix_depolarising(0, num(p), depolarise(2, 1.0 - 4.0 * p / 3.0, 2.0 * p / 3.0)).unwrap();
    assert_close(&entries(&rho), &expected);
    let mut rho = sample(2, &env);
    let mut terms = vec![(1.0 - p, vec![])];
    for a in ['I', 'X', 'Y', 'Z'] {
        for b in ['I', 'X', 'Y', 'Z'] {
            if a != 'I' || b != 'I' {
                terms.push((p / 15.0, vec![(a, 0), (b, 1)]));
            }
        }
    }
    let expected = mixture(&env, &rho, &terms);
    rho.mix_two_qubit_depolarising(
        0,
        1,
        num(p),
        depolarise(4, 1.0 - 16.0 * p / 15.0, 4.0 * p / 15.0),
    )
    .unwrap();
    assert_close(&entries(&rho), &expected);
}

#[test]
fn pauli_noise_is_a_mixture_with_pauli_errors() {
    let env = QuestEnv::new();
    let (px, py, pz) = (0.1, 0.15, 0.2);
    let rest = 1.0 - px - py - pz;
    let mut rho = sample(2, &env);
    let expected = mixture(
        &env,
        &rho,
        &[(rest, vec![]), (px, vec![('X', 1)]), (py, vec![('Y', 1)]), (pz, vec![('Z', 1)])],
    );
    let noise = move |block: Vec<Qcomplex>| {
        let old = values(&block);
        let stay = rest + pz;
        let flip = px + py;
        let keep = rest - pz;
        let cross = px - py;
        back(vec![
            plus(scaled(old[0], stay), scaled(old[3], flip)),
            plus(scaled(old[1], keep), scaled(old[2], cross)),
            plus(scaled(old[2], keep), scaled(old[1], cross)),
            plus(scaled(old[3], stay), scaled(old[0], flip)),
        ])
    };
    rho.mix_pauli(1, num(px), num(py), num(pz), num(rest), noise).unwrap();
    assert_close(&entries(&rho), &expected);
}

#[test]
fn damping_matches_its_kraus_operators() {
    let env = QuestEnv::new();
    let p = 0.35f64;
    let fade = (1.0 - p).sqrt();
    let mut direct = sample(2, &env);
    let mut by_kraus = sample(2, &env);
    direct
        .mix_damping(0, num(p), move |block: Vec<Qcomplex>| {
            let old = values(&block);
            back(vec![
                plus(old[0], scaled(old[3], p)),
                scaled(old[1], fade),
                scaled(old[2], fade),
                scaled(old[3], 1.0 - p),
            ])
        })
        .unwrap();
    let k0: Matrix = vec![vec![(1.0, 0.0), (0.0, 0.0)], vec![(0.0, 0.0), (fade, 0.0)]];
    let k1: Matrix = vec![vec![(0.0, 0.0), (p.sqrt(), 0.0)], vec![(0.0, 0.0), (0.0, 0.0)]];
    by_kraus.mix_multi_qubit_kraus_map(&[0], &[1, 1], true, kraus_map(vec![k0, k1], 2)).unwrap();
    assert_close(&entries(&direct), &entries(&by_kraus));
}

#[test]
fn kraus_map_of_one_unitary_is_the_gate() {
    let env = QuestEnv::new();
    let mut by_gate = sample(2, &env);
    let mut by_kraus = sample(2, &env);
    by_gate.pauli_y(1).unwrap();
    let y: Matrix = vec![vec![(0.0, 0.0), (0.0, -1.0)], vec![(0.0, 1.0), (0.0, 0.0)]];
    by_kraus.mix_multi_qubit_kraus_map(&[1], &[1], true, kraus_map(vec![y], 2)).unwrap();
    assert_close(&entries(&by_gate), &entries(&by_kraus));
    let mut by_gate = sample(2, &env);
    let mut by_kraus = sample(2, &env);
    by_gate.controlled_not(0, 1).unwrap();
    let o = (1.0, 0.0);
    let z = (0.0, 0.0);
    // targets (0, 1): position j has qubit 0 as bit 0; CNOT with control 0 trades positions 1 and 3
    let cnot: Matrix = vec![vec![o, z, z, z], vec![z, z, z, o], vec![z, z, o, z], vec![z, o, z, z]];
    by_kraus.mix_multi_qubit_kraus_map(&[0, 1], &[2], true, kraus_map(vec![cnot], 4)).unwrap();
    assert_close(&entries(&by_gate), &entries(&by_kraus));
}
