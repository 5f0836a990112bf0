use quest_sim::{InputFault, QuestEnv, QuestError, Qureg};

#[test]
fn new_register_is_in_zero_state_shape() {
    let env = QuestEnv::new();
    let qureg = Qureg::try_new(3, &env).unwrap();
    assert_eq!(qureg.num_qubits(), 3);
    assert_eq!(qureg.num_amps_total(), 8);
    assert!(!qureg.is_density_matrix());
}

#[test]
fn new_density_register_has_squared_size() {
    let env = QuestEnv::new();
    let qureg = Qureg::try_new_density(3, &env).unwrap();
    assert_eq!(qureg.num_qubits(), 3);
    assert_eq!(qureg.num_amps_total(), 64);
    assert!(qureg.is_density_matrix());
}

#[test]
fn zero_qubits_are_rejected() {
    let env = QuestEnv::new();
    assert!(matches!(
        Qureg::try_new(0, &env),
        Err(QuestError::InvalidInputError(InputFault::QubitCount))
    ));
    assert!(matches!(
        Qureg::try_new_density(32, &env),
        Err(QuestError::InvalidInputError(InputFault::QubitCount))
    ));
}
