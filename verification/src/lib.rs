//! A verified core for simulating registers of qubits.
//!
//! A register is a state-vector or a density matrix. The core checks
//! the arguments of every operation, lays out and moves the amplitudes,
//! and applies exactly the gates that need no arithmetic. Gates that
//! multiply and add amplitudes take that arithmetic from the caller as a
//! function, and their contracts say where it was applied.

pub mod amplitude;
pub mod bits;
pub mod blocks;
pub mod calc;
pub mod circuits;
pub mod combine;
pub mod error;
pub mod gates;
pub mod kernel;
pub mod laws;
pub mod matrix;
pub mod measure;
pub mod noise;
pub mod pauli;
pub mod phase;
pub mod qureg;
pub mod reduce;
pub mod state;
pub mod sweeps;
pub mod validate;

pub use amplitude::{Qcomplex, Qreal};
pub use calc::{calc_density_inner_product, calc_hilbert_schmidt_distance, calc_inner_product};
pub use circuits::{trotter_plan, QftStep, RotationStep, TimeScale, TrotterStep};
pub use error::{InputFault, QuestError};
pub use matrix::{check_kraus_count, ComplexMatrix2, ComplexMatrix4, ComplexMatrixN};
pub use pauli::{apply_pauli_hamil, apply_pauli_sum, PauliHamil, PauliOpType};
pub use phase::{BitEncoding, PhaseFunc};
pub use qureg::{QuestEnv, Qureg};
pub use state::QuregState;
