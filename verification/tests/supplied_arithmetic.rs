use quest_sim::{InputFault, Qcomplex, QuestEnv, QuestError, Qreal, Qureg};

fn num(x: f64) -> Qreal {
    Qreal::from_bits(x.to_bits())
}

fn value(x: Qreal) -> f64 {
    f64::from_bits(x.to_bits())
}

fn cx(re: f64, im: f64) -> Qcomplex {
    Qcomplex::new(num(re), num(im))
}

fn pair(z: Qcomplex) -> (f64, f64) {
    (value(z.re), value(z.im))
}

fn mul(a: (f64, f64), b: (f64, f64)) -> (f64, f64) {
    (a.0 * b.0 - a.1 * b.1, a.0 * b.1 + a.1 * b.0)
}

fn add(a: (f64, f64), b: (f64, f64)) -> (f64, f64) {
    (a.0 + b.0, a.1 + b.1)
}

fn back(z: (f64, f64)) -> Qcomplex {
    cx(z.0, z.1)
}

/// The map of a 2x2 matrix on a pair of amplitudes.
fn matrix2(m: [[(f64, f64); 2]; 2]) -> impl Fn(Qcomplex, Qcomplex) -> (Qcomplex, Qcomplex) {
    move |a, b| {
        let (a, b) = (pair(a), pair(b));
        (
            back(add(mul(m[0][0], a), mul(m[0][1], b))),
            back(add(mul(m[1][0], a), mul(m[1][1], b))),
        )
    }
}

fn hadamard_matrix() -> [[(f64, f64); 2]; 2] {
    let h = 1.0 / 2f64.sqrt();
    [[(h, 0.0), (h, 0.0)], [(h, 0.0), (-h, 0.0)]]
}

fn hadamard(reg: &mut Qureg<'_>, target: i32) -> Result<(), QuestError> {
    let m = hadamard_matrix();
    reg.apply_to_pairs(&[], target, matrix2(m), matrix2(m))
}

fn snapshot(reg: &Qureg<'_>) -> Vec<(f64, f64)> {
    let n = reg.num_amps_total();
    let d = 1i64 << reg.num_qubits();
    (0..n)
        .map(|i| {
            if reg.is_density_matrix() {
                pair(reg.get_density_amp(i % d, i / d).unwrap())
            } else {
                pair(reg.get_amp(i).unwrap())
            }
        })
        .collect()
}

fn ramp<'a>(num_qubits: i32, env: &'a QuestEnv) -> Qureg<'a> {
    let mut reg = Qureg::try_new(num_qubits, env).unwrap();
    let n = reg.num_amps_total();
    let re: Vec<Qreal> = (0..n).map(|k| num(k as f64 + 1.0)).collect();
    let im: Vec<Qreal> = (0..n).map(|k| num(-(k as f64))).collect();
    reg.init_state_from_amps(&re, &im).unwrap();
    reg
}

fn prob(reg: &Qureg<'_>, index: i64) -> f64 {
    let a = pair(reg.get_amp(index).unwrap());
    a.0 * a.0 + a.1 * a.1
}

fn close(a: f64, b: f64) -> bool {
    (a - b).abs() < 1e-10
}

#[test]
fn bell_state_probabilities() {
    let env = QuestEnv::new();
    let mut reg = Qureg::try_new(2, &env).unwrap();
    reg.init_zero_state();
    hadamard(&mut reg, 0).unwrap();
    reg.controlled_not(0, 1).unwrap();
    assert!(close(prob(&reg, 0), 0.5));
    assert!(close(prob(&reg, 3), 0.5));
    assert_eq!(prob(&reg, 1), 0.0);
    assert_eq!(prob(&reg, 2), 0.0);
}

#[test]
fn bell_state_outcomes_are_correlated() {
    let env = QuestEnv::new();
    let mut reg = Qureg::try_new(2, &env).unwrap();
    hadamard(&mut reg, 0).unwrap();
    reg.controlled_not(0, 1).unwrap();
    let square = |acc: f64, a: Qcomplex| {
        let a = pair(a);
        acc + a.0 * a.0 + a.1 * a.1
    };
    for outcome in 0..2 {
        let mut collapsed = Qureg::try_new(2, &env).unwrap();
        collapsed.clone_qureg(&reg).unwrap();
        collapsed.apply_projector(0, outcome).unwrap();
        let same = collapsed.fold_outcome(1, outcome, 0.0, square).unwrap();
        let other = collapsed.fold_outcome(1, 1 - outcome, 0.0, square).unwrap();
        assert!(close(same, 0.5));
        assert_eq!(other, 0.0);
    }
}

#[test]
fn unitary_gates_keep_the_norm() {
    let env = QuestEnv::new();
    let mut reg = Qureg::try_new(3, &env).unwrap();
    reg.init_plus_state();
    let square = |acc: f64, a: Qcomplex| {
        let a = pair(a);
        acc + a.0 * a.0 + a.1 * a.1
    };
    assert!(close(reg.fold_basis(0.0, square), 1.0));
    hadamard(&mut reg, 1).unwrap();
    reg.pauli_y(2).unwrap();
    reg.controlled_not(1, 0).unwrap();
    reg.s_gate(0).unwrap();
    reg.swap_gate(0, 2).unwrap();
    hadamard(&mut reg, 2).unwrap();
    reg.multi_controlled_phase_flip(&[0, 1, 2]).unwrap();
    assert!(close(reg.fold_basis(0.0, square), 1.0));
    let mut rho = Qureg::try_new_density(2, &env).unwrap();
    hadamard(&mut rho, 0).unwrap();
    rho.controlled_not(0, 1).unwrap();
    rho.pauli_y(1).unwrap();
    let trace = rho.fold_basis(0.0, |acc: f64, a: Qcomplex| acc + value(a.re));
    assert!(close(trace, 1.0));
}

#[test]
fn hadamard_on_density_matrix_gives_plus_state() {
    let env = QuestEnv::new();
    let mut rho = Qureg::try_new_density(1, &env).unwrap();
    hadamard(&mut rho, 0).unwrap();
    for z in snapshot(&rho) {
        assert!(close(z.0, 0.5) && close(z.1, 0.0));
    }
}

#[test]
fn pair_map_sees_zero_partner_first() {
    let env = QuestEnv::new();
    let mut reg = ramp(2, &env);
    // keep the first, replace the second by first minus second
    let f = |a: Qcomplex, b: Qcomplex| {
        let (x, y) = (pair(a), pair(b));
        (a, cx(x.0 - y.0, x.1 - y.1))
    };
    reg.apply_to_pairs(&[], 1, f, f).unwrap();
    assert_eq!(snapshot(&reg), vec![(1.0, 0.0), (2.0, -1.0), (-2.0, 2.0), (-2.0, 2.0)]);
}

#[test]
fn controlled_pair_map_needs_its_controls() {
    let env = QuestEnv::new();
    let mut reg = ramp(3, &env);
    let swap = |a: Qcomplex, b: Qcomplex| (b, a);
    reg.apply_to_pairs(&[0, 2], 1, swap, swap).unwrap();
    let got = snapshot(&reg);
    for i in 0..8usize {
        let src = if i & 5 == 5 { i ^ 2 } else { i };
        assert_eq!(got[i].0, src as f64 + 1.0);
    }
    let mut reg = ramp(3, &env);
    reg.apply_to_pairs_in_state(&[0, 2], &[0, 1], 1, swap, swap).unwrap();
    let got = snapshot(&reg);
    for i in 0..8usize {
        let src = if i & 5 == 4 { i ^ 2 } else { i };
        assert_eq!(got[i].0, src as f64 + 1.0);
    }
}

#[test]
fn pair_map_faults() {
    let env = QuestEnv::new();
    let mut reg = ramp(2, &env);
    let before = snapshot(&reg);
    let swap = |a: Qcomplex, b: Qcomplex| (b, a);
    let fault = |f| Err(QuestError::InvalidInputError(f));
    assert_eq!(reg.apply_to_pairs(&[], 2, swap, swap), fault(InputFault::QubitIndex));
    assert_eq!(reg.apply_to_pairs(&[0], 0, swap, swap), fault(InputFault::ControlTargetOverlap));
    assert_eq!(reg.apply_to_pairs(&[1, 1], 0, swap, swap), fault(InputFault::RepeatedQubit));
    assert_eq!(reg.apply_to_pairs(&[0, 1, 0], 0, swap, swap), fault(InputFault::ListLength));
    assert_eq!(reg.apply_to_pairs(&[3], 0, swap, swap), fault(InputFault::QubitIndex));
    assert_eq!(reg.apply_to_pairs_on_left(&[0], 0, swap), fault(InputFault::ControlTargetOverlap));
    assert_eq!(
        reg.apply_to_pairs_in_state(&[1], &[1, 0], 0, swap, swap),
        fault(InputFault::ListLength)
    );
    assert_eq!(
        reg.apply_to_pairs_in_state(&[1], &[2], 0, swap, swap),
        fault(InputFault::ControlState)
    );
    assert_eq!(
        reg.apply_to_pairs_in_state(&[1], &[0], 1, swap, swap),
        fault(InputFault::ControlTargetOverlap)
    );
    assert_eq!(snapshot(&reg), before);
}

#[test]
fn left_multiplication_leaves_columns_alone() {
    let env = QuestEnv::new();
    let mut rho = Qureg::try_new_density(1, &env).unwrap();
    let re = [num(1.0), num(2.0), num(3.0), num(4.0)];
    let im = [num(0.0); 4];
    rho.init_state_from_amps(&re, &im).unwrap();
    let swap = |a: Qcomplex, b: Qcomplex| (b, a);
    rho.apply_to_pairs_on_left(&[], 0, swap).unwrap();
    let got: Vec<f64> = snapshot(&rho).iter().map(|z| z.0).collect();
    assert_eq!(got, vec![2.0, 1.0, 4.0, 3.0]);
}

#[test]
fn block_map_orders_amplitudes_by_targets() {
    let env = QuestEnv::new();
    let mut reg = ramp(3, &env);
    // targets (2, 0): position j of a block has qubit 2 as bit 0 and qubit 0 as bit 1
    let seen = std::cell::RefCell::new(Vec::new());
    let f = |block: Vec<Qcomplex>| {
        seen.borrow_mut().push(block.iter().map(|z| pair(*z).0).collect::<Vec<f64>>());
        block.iter().rev().cloned().collect::<Vec<Qcomplex>>()
    };
    let g = |block: Vec<Qcomplex>| block;
    reg.apply_to_blocks(&[], &[2, 0], f, g).unwrap();
    assert_eq!(
        seen.into_inner(),
        vec![vec![1.0, 5.0, 2.0, 6.0], vec![3.0, 7.0, 4.0, 8.0]]
    );
    let got: Vec<f64> = snapshot(&reg).iter().map(|z| z.0).collect();
    assert_eq!(got, vec![6.0, 5.0, 8.0, 7.0, 2.0, 1.0, 4.0, 3.0]);
}

#[test]
fn controlled_block_map_and_faults() {
    let env = QuestEnv::new();
    let mut reg = ramp(3, &env);
    let rev = |block: Vec<Qcomplex>| block.iter().rev().cloned().collect::<Vec<Qcomplex>>();
    reg.apply_to_blocks(&[1], &[0, 2], rev, rev).unwrap();
    let got: Vec<f64> = snapshot(&reg).iter().map(|z| z.0).collect();
    assert_eq!(got, vec![1.0, 2.0, 8.0, 7.0, 5.0, 6.0, 4.0, 3.0]);
    let before = snapshot(&reg);
    let fault = |f| Err(QuestError::InvalidInputError(f));
    assert_eq!(reg.apply_to_blocks(&[1], &[0, 1], rev, rev), fault(InputFault::ControlTargetOverlap));
    assert_eq!(reg.apply_to_blocks(&[], &[0, 0], rev, rev), fault(InputFault::RepeatedQubit));
    assert_eq!(reg.apply_to_blocks(&[], &[0, 3], rev, rev), fault(InputFault::QubitIndex));
    assert_eq!(reg.apply_to_blocks_on_left(&[4], &[0], rev), fault(InputFault::QubitIndex));
    assert_eq!(reg.apply_channel(&[0], rev), fault(InputFault::NotDensityMatrix));
    assert_eq!(snapshot(&reg), before);
}

#[test]
fn two_qubit_block_map_matches_controlled_not() {
    let env = QuestEnv::new();
    let mut a = ramp(3, &env);
    let mut b = ramp(3, &env);
    // CNOT with control = first target, target = second target
    let cnot = |v: Vec<Qcomplex>| vec![v[0], v[3], v[2], v[1]];
    a.apply_to_blocks(&[], &[2, 1], cnot, cnot).unwrap();
    b.controlled_not(2, 1).unwrap();
    assert_eq!(snapshot(&a), snapshot(&b));
    let env2 = QuestEnv::new();
    let mut c = Qureg::try_new_density(2, &env2).unwrap();
    let mut d = Qureg::try_new_density(2, &env2).unwrap();
    c.init_classical_state(3).unwrap();
    d.init_classical_state(3).unwrap();
    c.apply_to_blocks(&[], &[1, 0], cnot, cnot).unwrap();
    d.controlled_not(1, 0).unwrap();
    assert_eq!(snapshot(&c), snapshot(&d));
}

/// Dephasing of one qubit: off-diagonal entries of the block are scaled by `1 - 2p`.
fn dephase(p: f64) -> impl Fn(Vec<Qcomplex>) -> Vec<Qcomplex> {
    move |v| {
        let s = 1.0 - 2.0 * p;
        let scale = |z: Qcomplex| cx(value(z.re) * s, value(z.im) * s);
        vec![v[0], scale(v[1]), scale(v[2]), v[3]]
    }
}

/// Depolarising of one qubit with probability `p`.
fn depolarise(p: f64) -> impl Fn(Vec<Qcomplex>) -> Vec<Qcomplex> {
    move |v| {
        let keep = 1.0 - 2.0 * p / 3.0;
        let mix = 2.0 * p / 3.0;
        let off = 1.0 - 4.0 * p / 3.0;
        let (a, b, c, d) = (pair(v[0]), pair(v[1]), pair(v[2]), pair(v[3]));
        vec![
            cx(keep * a.0 + mix * d.0, keep * a.1 + mix * d.1),
            cx(off * b.0, off * b.1),
            cx(off * c.0, off * c.1),
            cx(keep * d.0 + mix * a.0, keep * d.1 + mix * a.1),
        ]
    }
}

#[test]
fn dephasing_on_plus_state() {
    let env = QuestEnv::new();
    let mut rho = Qureg::try_new_density(2, &env).unwrap();
    rho.init_plus_state();
    rho.apply_channel(&[0], dephase(0.5)).unwrap();
    assert!(close(value(rho.get_density_amp(0, 0).unwrap().re), 0.25));
    assert!(close(value(rho.get_density_amp(0, 1).unwrap().re), 0.0));
    assert!(close(value(rho.get_density_amp(1, 0).unwrap().re), 0.0));
    assert!(close(value(rho.get_density_amp(0, 2).unwrap().re), 0.25));
    assert!(close(value(rho.get_density_amp(1, 3).unwrap().re), 0.25));
    assert!(close(value(rho.get_density_amp(1, 2).unwrap().re), 0.0));
}

#[test]
fn depolarising_at_its_bound() {
    let env = QuestEnv::new();
    let mut rho = Qureg::try_new_density(2, &env).unwrap();
    rho.apply_channel(&[0], depolarise(0.75)).unwrap();
    assert!(close(value(rho.get_density_amp(0, 0).unwrap().re), 0.5));
    assert!(close(value(rho.get_density_amp(1, 1).unwrap().re), 0.5));
    assert!(close(value(rho.get_density_amp(0, 1).unwrap().re), 0.0));
    assert!(close(value(rho.get_density_amp(2, 2).unwrap().re), 0.0));
}

#[test]
fn channel_blocks_hold_rows_then_columns() {
    let env = QuestEnv::new();
    let mut rho = Qureg::try_new_density(2, &env).unwrap();
    let re: Vec<Qreal> = (0..16).map(|k| num(k as f64)).collect();
    let im = vec![num(0.0); 16];
    rho.init_state_from_amps(&re, &im).unwrap();
    let seen = std::cell::RefCell::new(Vec::new());
    let f = |block: Vec<Qcomplex>| {
        seen.borrow_mut().push(block.iter().map(|z| pair(*z).0).collect::<Vec<f64>>());
        block
    };
    rho.apply_channel(&[1], f).unwrap();
    // entry (r, c) is r + 4 c; the block of qubit 1 holds (r1, c1) = 00, 10, 01, 11
    assert_eq!(
        seen.into_inner(),
        vec![
            vec![0.0, 2.0, 8.0, 10.0],
            vec![1.0, 3.0, 9.0, 11.0],
            vec![4.0, 6.0, 12.0, 14.0],
            vec![5.0, 7.0, 13.0, 15.0]
        ]
    );
}

#[test]
fn keyed_map_reads_the_listed_qubits() {
    let env = QuestEnv::new();
    let mut reg = ramp(3, &env);
    let f = |key: u64, _a: Qcomplex| cx(key as f64, 0.0);
    reg.apply_by_key(&[], &[2, 0], f, f).unwrap();
    let got: Vec<f64> = snapshot(&reg).iter().map(|z| z.0).collect();
    assert_eq!(got, vec![0.0, 2.0, 0.0, 2.0, 1.0, 3.0, 1.0, 3.0]);
    let mut reg = ramp(3, &env);
    reg.apply_by_key(&[1], &[0], f, f).unwrap();
    let got: Vec<f64> = snapshot(&reg).iter().map(|z| z.0).collect();
    assert_eq!(got, vec![1.0, 2.0, 0.0, 1.0, 5.0, 6.0, 0.0, 1.0]);
    assert_eq!(
        reg.apply_by_key(&[0], &[0], f, f),
        Err(QuestError::InvalidInputError(InputFault::ControlTargetOverlap))
    );
}

#[test]
fn keyed_map_on_density_matrix_uses_column_bits_second() {
    let env = QuestEnv::new();
    let mut rho = Qureg::try_new_density(1, &env).unwrap();
    let rows = |key: u64, a: Qcomplex| cx(value(a.re) + 10.0 * key as f64, 0.0);
    let cols = |key: u64, a: Qcomplex| cx(value(a.re) + 100.0 * key as f64, 0.0);
    rho.init_blank_state();
    rho.apply_by_key(&[], &[0], rows, cols).unwrap();
    let got: Vec<f64> = snapshot(&rho).iter().map(|z| z.0).collect();
    assert_eq!(got, vec![0.0, 10.0, 100.0, 110.0]);
}

#[test]
fn map_amps_touches_every_amplitude() {
    let env = QuestEnv::new();
    let mut reg = ramp(2, &env);
    reg.map_amps(|a: Qcomplex| cx(2.0 * value(a.re), 0.0));
    let got: Vec<f64> = snapshot(&reg).iter().map(|z| z.0).collect();
    assert_eq!(got, vec![2.0, 4.0, 6.0, 8.0]);
}
