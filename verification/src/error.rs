//! Failure kinds reported by register operations.

use vstd::prelude::*;

verus! {

/// Why an argument was rejected.
///
/// Every fallible operation inspects its arguments before it touches the
/// register, so a rejected call leaves the amplitudes as they were.
#[derive(Clone, Copy, Debug, PartialEq, Eq, Structural)]
pub enum InputFault {
    /// The requested number of qubits is below one or too large to index.
    QubitCount,
    /// A qubit index lies outside `[0, num_qubits)`.
    QubitIndex,
    /// A qubit occurs twice within one list of targets or of controls.
    RepeatedQubit,
    /// A qubit is used both as a control and as a target.
    ControlTargetOverlap,
    /// A list names no qubit, or more qubits than the register holds.
    ListLength,
    /// A basis-state, row or column index lies outside the register.
    StateIndex,
    /// A measurement outcome is neither `0` nor `1`.
    Outcome,
    /// An entry of a control-state list is neither `0` nor `1`.
    ControlState,
    /// A matrix does not have `2^k` rows for `k` target qubits.
    MatrixSize,
    /// A matrix offered as a unitary is not unitary.
    NotUnitary,
    /// A set of Kraus operators is empty, too long, or not trace preserving.
    KrausMap,
    /// A probability exceeds the bound of its channel, or is negative.
    Probability,
    /// The operation needs a state-vector and was given a density matrix.
    NotStateVector,
    /// The operation needs a density matrix and was given a state-vector.
    NotDensityMatrix,
    /// Two registers that must agree in size or kind do not.
    RegisterMismatch,
    /// A sub-register is too small for the chosen bit encoding.
    Encoding,
    /// The number of sub-registers is zero or above the supported maximum.
    RegisterCount,
    /// A phase function has no terms, or its term lists disagree in length.
    PhaseTerms,
    /// A phase function has a negative exponent and index zero is not overridden.
    NegativeExponent,
    /// A phase function has a fractional exponent under two's complement
    /// and some negative index is not overridden.
    FractionalExponent,
    /// An override index cannot be produced by the sub-register.
    OverrideIndex,
    /// A named phase function was given the wrong number of parameters or
    /// of sub-registers.
    PhaseParameters,
    /// A list of Pauli codes or of term coefficients has the wrong length.
    PauliTerms,
    /// A Trotter order is neither one nor a positive even number, or the
    /// repetition count is below one.
    TrotterParameters,
}

/// The ways in which a register operation can fail.
#[derive(Clone, Copy, Debug, PartialEq, Eq, Structural)]
pub enum QuestError {
    /// An argument violates a documented precondition.
    InvalidInputError(InputFault),
    /// A caller-supplied buffer is too short, or two paired buffers
    /// differ in length.
    ArrayLengthError,
    /// The amplitude store could not be allocated.
    AllocationError,
    /// A forced collapse onto an outcome whose probability is zero.
    ZeroProbabilityError,
}

} // verus!
