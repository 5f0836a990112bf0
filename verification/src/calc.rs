//! Sums over one or two registers that must be of a given kind.
//!
//! A purity is a sum over a density matrix, an inner product a sum over
//! two state-vectors, a fidelity a sum over a register and a pure
//! state. Which registers a sum admits is decided here; how its terms
//! are formed and added is arithmetic that the caller supplies.

use vstd::prelude::*;
use crate::amplitude::Qcomplex;
use crate::error::{InputFault, QuestError};
use crate::qureg::Qureg;
use crate::reduce::folded;
use crate::state::QuregState;

verus! {

/// The first rule that two registers break which must both be
/// state-vectors, or both density matrices where `density` is set, of
/// the same number of qubits.
pub open spec fn pair_fault(a: QuregState, b: QuregState, density: bool) -> Option<InputFault> {
    if a.is_density != density || b.is_density != density {
        if density {
            Some(InputFault::NotDensityMatrix)
        } else {
            Some(InputFault::NotStateVector)
        }
    } else if a.num_qubits != b.num_qubits {
        Some(InputFault::RegisterMismatch)
    } else {
        None
    }
}

/// The first rule that a register and a pure state to compare it with
/// break: the pure state is a state-vector, of the same number of
/// qubits as the register.
pub open spec fn fidelity_fault(s: QuregState, pure: QuregState) -> Option<InputFault> {
    if pure.is_density {
        Some(InputFault::NotStateVector)
    } else if s.num_qubits != pure.num_qubits {
        Some(InputFault::RegisterMismatch)
    } else {
        None
    }
}

/// Checks two registers that must be of one kind and one size.
fn check_pair(a: &Qureg<'_>, b: &Qureg<'_>, density: bool) -> (res: Result<(), QuestError>)
    requires
        a.wf(),
        b.wf(),
    ensures
        res == (match pair_fault(a@, b@, density) {
            Some(fault) => Err::<(), QuestError>(QuestError::InvalidInputError(fault)),
            None => Ok(()),
        }),
{
    if a.is_density_matrix() != density || b.is_density_matrix() != density {
        if density {
            return Err(QuestError::InvalidInputError(InputFault::NotDensityMatrix));
        }
        return Err(QuestError::InvalidInputError(InputFault::NotStateVector));
    }
    if a.num_qubits() != b.num_qubits() {
        return Err(QuestError::InvalidInputError(InputFault::RegisterMismatch));
    }
    Ok(())
}

/// The inner product of two state-vectors: the fold of `f` over the
/// pairs of amplitudes that `bra` and `ket` hold at the same index. `f`
/// adds the conjugate of the first times the second.
///
/// Fails with `NotStateVector` where either register is a density
/// matrix, and with `RegisterMismatch` where they differ in their
/// number of qubits.
pub fn calc_inner_product<A, F: Fn(A, (Qcomplex, Qcomplex)) -> A>(
    bra: &Qureg<'_>,
    ket: &Qureg<'_>,
    init: A,
    f: F,
) -> (res: Result<A, QuestError>)
    requires
        bra.wf(),
        ket.wf(),
        forall|acc: A, a: (Qcomplex, Qcomplex)| call_requires(f, (acc, a)),
    ensures
        match pair_fault(bra@, ket@, false) {
            Some(fault) => res == Err::<A, QuestError>(QuestError::InvalidInputError(fault)),
            None => res matches Ok(result) && folded(f, bra@.paired_with(ket@), init, result),
        },
{
    match check_pair(bra, ket, false) {
        Ok(()) => {},
        Err(e) => {
            return Err(e);
        },
    }
    bra.fold_with(ket, init, f)
}

/// The Hilbert-Schmidt inner product of two density matrices: the fold
/// of `f` over the pairs of entries that `rho1` and `rho2` hold at the
/// same index.
///
/// Fails with `NotDensityMatrix` where either register is a
/// state-vector, and with `RegisterMismatch` where they differ in their
/// number of qubits.
pub fn calc_density_inner_product<A, F: Fn(A, (Qcomplex, Qcomplex)) -> A>(
    rho1: &Qureg<'_>,
    rho2: &Qureg<'_>,
    init: A,
    f: F,
) -> (res: Result<A, QuestError>)
    requires
        rho1.wf(),
        rho2.wf(),
        forall|acc: A, a: (Qcomplex, Qcomplex)| call_requires(f, (acc, a)),
    ensures
        match pair_fault(rho1@, rho2@, true) {
            Some(fault) => res == Err::<A, QuestError>(QuestError::InvalidInputError(fault)),
            None => res matches Ok(result) && folded(f, rho1@.paired_with(rho2@), init, result),
        },
{
    match check_pair(rho1, rho2, true) {
        Ok(()) => {},
        Err(e) => {
            return Err(e);
        },
    }
    rho1.fold_with(rho2, init, f)
}

/// The square of the Hilbert-Schmidt distance of two density matrices:
/// the fold of `f` over the pairs of entries that `a` and `b` hold at
/// the same index. `f` adds the squared magnitude of their difference.
///
/// Fails as `calc_density_inner_product` does.
pub fn calc_hilbert_schmidt_distance<A, F: Fn(A, (Qcomplex, Qcomplex)) -> A>(
    a: &Qureg<'_>,
    b: &Qureg<'_>,
    init: A,
    f: F,
) -> (res: Result<A, QuestError>)
    requires
        a.wf(),
        b.wf(),
        forall|acc: A, item: (Qcomplex, Qcomplex)| call_requires(f, (acc, item)),
    ensures
        match pair_fault(a@, b@, true) {
            Some(fault) => res == Err::<A, QuestError>(QuestError::InvalidInputError(fault)),
            None => res matches Ok(result) && folded(f, a@.paired_with(b@), init, result),
        },
{
    match check_pair(a, b, true) {
        Ok(()) => {},
        Err(e) => {
            return Err(e);
        },
    }
    a.fold_with(b, init, f)
}

impl<'a> Qureg<'a> {
    /// The purity of a density matrix: the fold of `f` over all its
    /// entries. `f` adds the squared magnitude of an entry.
    ///
    /// Fails with `NotDensityMatrix` on a state-vector.
    pub fn calc_purity<A, F: Fn(A, Qcomplex) -> A>(&self, init: A, f: F) -> (res: Result<
        A,
        QuestError,
    >)
        requires
            self.wf(),
            forall|acc: A, a: Qcomplex| call_requires(f, (acc, a)),
        ensures
            res is Ok <==> self@.is_density,
            res matches Ok(result) ==> folded(f, self@.amps, init, result),
            res is Err ==> res == Err::<A, QuestError>(
                QuestError::InvalidInputError(InputFault::NotDensityMatrix),
            ),
    {
        if !self.is_density_matrix() {
            return Err(QuestError::InvalidInputError(InputFault::NotDensityMatrix));
        }
        Ok(self.fold_amps(init, f))
    }

    /// The fidelity of the register with the pure state `pure_state`.
    ///
    /// For a state-vector it is the fold of `overlap` over the pairs of
    /// amplitudes of `pure_state` and of the register, of which the
    /// caller takes the squared magnitude. For a density matrix it is
    /// the fold of `sandwich` over the entries, each between the
    /// amplitudes of `pure_state` at its row and at its column.
    ///
    /// Fails with `NotStateVector` where `pure_state` is a density
    /// matrix, and with `RegisterMismatch` where the two differ in their
    /// number of qubits.
    pub fn calc_fidelity<A, F, G>(
        &self,
        pure_state: &Qureg<'_>,
        init: A,
        overlap: F,
        sandwich: G,
    ) -> (res: Result<A, QuestError>) where
        F: Fn(A, (Qcomplex, Qcomplex)) -> A,
        G: Fn(A, (Qcomplex, Qcomplex, Qcomplex)) -> A,

        requires
            self.wf(),
            pure_state.wf(),
            forall|acc: A, a: (Qcomplex, Qcomplex)| call_requires(overlap, (acc, a)),
            forall|acc: A, a: (Qcomplex, Qcomplex, Qcomplex)| call_requires(sandwich, (acc, a)),
        ensures
            match fidelity_fault(self@, pure_state@) {
                Some(fault) => res == Err::<A, QuestError>(QuestError::InvalidInputError(fault)),
                None => res matches Ok(result) && if self@.is_density {
                    folded(sandwich, self@.between(pure_state@), init, result)
                } else {
                    folded(overlap, pure_state@.paired_with(self@), init, result)
                },
            },
    {
        if pure_state.is_density_matrix() {
            return Err(QuestError::InvalidInputError(InputFault::NotStateVector));
        }
        if self.num_qubits() != pure_state.num_qubits() {
            return Err(QuestError::InvalidInputError(InputFault::RegisterMismatch));
        }
        if self.is_density_matrix() {
            self.fold_between(pure_state, init, sandwich)
        } else {
            pure_state.fold_with(self, init, overlap)
        }
    }
}

} // verus!
