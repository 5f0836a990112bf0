//! Noise channels on density matrices.
//!
//! A channel acts on one or two qubits of a density matrix with a
//! probability that is bounded by the channel: beyond the bound the
//! channel would reverse the mixing it stands for. The register must be
//! a density matrix, the qubits valid, and the probability between zero
//! and the bound; then the channel is applied to every block of entries
//! that belongs to the qubits. How the entries of a block are combined
//! is arithmetic that the caller supplies.

use vstd::prelude::*;
use crate::amplitude::{Qcomplex, Qreal, ONE_BITS};
use crate::error::{InputFault, QuestError};
use crate::kernel::{block_fn, block_mapped};
use crate::matrix::{check_kraus_count, max_kraus_ops};
use crate::qureg::Qureg;

use crate::state::QuregState;
use crate::sweeps::channel_fault;
use crate::validate::{bits_of, check_list};

verus! {

/// The encoding of one half, the bound of dephasing on one qubit.
pub const HALF_BITS: u64 = 0x3FE0_0000_0000_0000;

/// The encoding of three quarters, the bound of dephasing on two qubits
/// and of depolarising on one.
pub const THREE_QUARTERS_BITS: u64 = 0x3FE8_0000_0000_0000;

/// The encoding of fifteen sixteenths, the bound of depolarising on two
/// qubits.
pub const FIFTEEN_SIXTEENTHS_BITS: u64 = 0x3FEE_0000_0000_0000;

/// Whether `prob` lies between zero and `most`.
pub open spec fn prob_ok(prob: Qreal, most: Qreal) -> bool {
    (Qreal { bits: 0 }).spec_le(prob) && prob.spec_le(most)
}

/// The first rule that a channel on the qubits `targets` with the
/// probability `prob` breaks: the register is a density matrix, the
/// targets are a valid list of qubits, and the probability lies between
/// zero and the bound `most` of the channel.
pub open spec fn noise_fault(s: QuregState, targets: Seq<i32>, prob: Qreal, most: Qreal) -> Option<
    InputFault,
> {
    if channel_fault(s, targets) is Some {
        channel_fault(s, targets)
    } else if !prob_ok(prob, most) {
        Some(InputFault::Probability)
    } else {
        None
    }
}

/// The first rule that mixing a density matrix with another breaks:
/// both are density matrices of the same size, and the probability lies
/// between zero and one.
pub open spec fn mixing_fault(s: QuregState, other: QuregState, prob: Qreal) -> Option<InputFault> {
    if !s.is_density || !other.is_density {
        Some(InputFault::NotDensityMatrix)
    } else if s.num_qubits != other.num_qubits {
        Some(InputFault::RegisterMismatch)
    } else if !prob_ok(prob, Qreal { bits: ONE_BITS }) {
        Some(InputFault::Probability)
    } else {
        None
    }
}

/// The first rule that Pauli noise on the qubit `target` breaks: the
/// register is a density matrix, the target a qubit, each probability
/// between zero and one, and none greater than the probability `rest`
/// of no error.
pub open spec fn pauli_noise_fault(
    s: QuregState,
    target: i32,
    prob_x: Qreal,
    prob_y: Qreal,
    prob_z: Qreal,
    rest: Qreal,
) -> Option<InputFault> {
    let one = Qreal { bits: ONE_BITS };
    if channel_fault(s, seq![target]) is Some {
        channel_fault(s, seq![target])
    } else if !(prob_ok(prob_x, one) && prob_ok(prob_y, one) && prob_ok(prob_z, one)) {
        Some(InputFault::Probability)
    } else if !(prob_x.spec_le(rest) && prob_y.spec_le(rest) && prob_z.spec_le(rest)) {
        Some(InputFault::Probability)
    } else {
        None
    }
}

/// Whether every operator of a Kraus map acts on `targets` qubits.
pub open spec fn ops_sized(op_qubits: Seq<usize>, targets: nat) -> bool {
    forall|k: int| 0 <= k < op_qubits.len() ==> #[trigger] op_qubits[k] == targets
}

/// The first rule that a Kraus map on the qubits `targets` breaks: the
/// register is a density matrix, the targets are a valid list of
/// qubits, the map has at least one operator and at most the square of
/// the number of rows of one, every operator acts on as many qubits as
/// there are targets, and the operators preserve the trace.
pub open spec fn kraus_fault(
    s: QuregState,
    targets: Seq<i32>,
    op_qubits: Seq<usize>,
    complete: bool,
) -> Option<InputFault> {
    if channel_fault(s, targets) is Some {
        channel_fault(s, targets)
    } else if !(1 <= op_qubits.len() <= max_kraus_ops(targets.len())) {
        Some(InputFault::KrausMap)
    } else if !ops_sized(op_qubits, targets.len()) {
        Some(InputFault::MatrixSize)
    } else if !complete {
        Some(InputFault::KrausMap)
    } else {
        None
    }
}

/// Checks that `prob` lies between zero and `most`.
pub fn check_prob(prob: Qreal, most: Qreal) -> (res: Result<(), QuestError>)
    ensures
        res == (if prob_ok(prob, most) {
            Ok::<(), QuestError>(())
        } else {
            Err(QuestError::InvalidInputError(InputFault::Probability))
        }),
{
    if Qreal::zero().at_most(prob) && prob.at_most(most) {
        Ok(())
    } else {
        Err(QuestError::InvalidInputError(InputFault::Probability))
    }
}

impl<'a> Qureg<'a> {
    /// Applies a channel with the probability `prob`, which may be at
    /// most `most`, to the qubits `targets` of a density matrix.
    ///
    /// `noise` is given the entries of each block as `apply_channel`
    /// orders them and returns their new values.
    ///
    /// Fails, and changes nothing, with the first fault that
    /// `noise_fault` finds.
    pub fn mix_noise<F>(&mut self, targets: &[i32], prob: Qreal, most: Qreal, noise: F) -> (res:
        Result<(), QuestError>) where F: Fn(Vec<Qcomplex>) -> Vec<Qcomplex>
        requires
            old(self).wf(),
            block_fn(noise, 2 * targets@.len()),
        ensures
            old(self).reshaped(final(self)),
            match noise_fault(old(self)@, targets@, prob, most) {
                Some(fault) => res == Err::<(), QuestError>(QuestError::InvalidInputError(fault))
                    && final(self)@ == old(self)@,
                None => res is Ok && block_mapped(
                    old(self)@.amps,
                    final(self)@.amps,
                    0,
                    0,
                    bits_of(targets@, 0) + bits_of(targets@, old(self)@.num_qubits),
                    noise,
                ),
            },
    {
        if !self.is_density {
            return Err(QuestError::InvalidInputError(InputFault::NotDensityMatrix));
        }
        let n = self.qubits();
        match check_list(n, targets) {
            Ok(_) => {},
            Err(fault) => {
                return Err(QuestError::InvalidInputError(fault));
            },
        }
        match check_prob(prob, most) {
            Ok(()) => {},
            Err(e) => {
                return Err(e);
            },
        }
        self.apply_channel(targets, noise)
    }

    /// Mixes in dephasing noise on `target_qubit`: with the probability
    /// `prob`, of at most one half, the qubit suffers a phase flip.
    ///
    /// Fails, and changes nothing, with the first fault that
    /// `noise_fault` finds.
    pub fn mix_dephasing<F>(&mut self, target_qubit: i32, prob: Qreal, noise: F) -> (res: Result<
        (),
        QuestError,
    >) where F: Fn(Vec<Qcomplex>) -> Vec<Qcomplex>
        requires
            old(self).wf(),
            block_fn(noise, 2),
        ensures
            old(self).reshaped(final(self)),
            match noise_fault(old(self)@, seq![target_qubit], prob, Qreal { bits: HALF_BITS }) {
                Some(fault) => res == Err::<(), QuestError>(QuestError::InvalidInputError(fault))
                    && final(self)@ == old(self)@,
                None => res is Ok && block_mapped(
                    old(self)@.amps,
                    final(self)@.amps,
                    0,
                    0,
                    bits_of(seq![target_qubit], 0) + bits_of(
                        seq![target_qubit],
                        old(self)@.num_qubits,
                    ),
                    noise,
                ),
            },
    {
        let mut targets: Vec<i32> = Vec::new();
        targets.push(target_qubit);
        assert(targets@ =~= seq![target_qubit]);
        self.mix_noise(targets.as_slice(), prob, Qreal::from_bits(HALF_BITS), noise)
    }

    /// Mixes in dephasing noise on two qubits, with a probability of
    /// at most three quarters.
    ///
    /// Fails, and changes nothing, with the first fault that
    /// `noise_fault` finds.
    pub fn mix_two_qubit_dephasing<F>(&mut self, qubit1: i32, qubit2: i32, prob: Qreal, noise: F) -> (res:
        Result<(), QuestError>) where F: Fn(Vec<Qcomplex>) -> Vec<Qcomplex>
        requires
            old(self).wf(),
            block_fn(noise, 4),
        ensures
            old(self).reshaped(final(self)),
            match noise_fault(
                old(self)@,
                seq![qubit1, qubit2],
                prob,
                Qreal { bits: THREE_QUARTERS_BITS },
            ) {
                Some(fault) => res == Err::<(), QuestError>(QuestError::InvalidInputError(fault))
                    && final(self)@ == old(self)@,
                None => res is Ok && block_mapped(
                    old(self)@.amps,
                    final(self)@.amps,
                    0,
                    0,
                    bits_of(seq![qubit1, qubit2], 0) + bits_of(
                        seq![qubit1, qubit2],
                        old(self)@.num_qubits,
                    ),
                    noise,
                ),
            },
    {
        let mut targets: Vec<i32> = Vec::new();
        targets.push(qubit1);
        targets.push(qubit2);
        assert(targets@ =~= seq![qubit1, qubit2]);
        self.mix_noise(targets.as_slice(), prob, Qreal::from_bits(THREE_QUARTERS_BITS), noise)
    }

    /// Mixes in homogeneous depolarising noise on `target_qubit`: with
    /// the probability `prob`, of at most three quarters, the qubit
    /// suffers one of the three Pauli errors.
    ///
    /// Fails, and changes nothing, with the first fault that
    /// `noise_fault` finds.
    pub fn mix_depolarising<F>(&mut self, target_qubit: i32, prob: Qreal, noise: F) -> (res: Result<
        (),
        QuestError,
    >) where F: Fn(Vec<Qcomplex>) -> Vec<Qcomplex>
        requires
            old(self).wf(),
            block_fn(noise, 2),
        ensures
            old(self).reshaped(final(self)),
            match noise_fault(
                old(self)@,
                seq![target_qubit],
                prob,
                Qreal { bits: THREE_QUARTERS_BITS },
            ) {
                Some(fault) => res == Err::<(), QuestError>(QuestError::InvalidInputError(fault))
                    && final(self)@ == old(self)@,
                None => res is Ok && block_mapped(
                    old(self)@.amps,
                    final(self)@.amps,
                    0,
                    0,
                    bits_of(seq![target_qubit], 0) + bits_of(
                        seq![target_qubit],
                        old(self)@.num_qubits,
                    ),
                    noise,
                ),
            },
    {
        let mut targets: Vec<i32> = Vec::new();
        targets.push(target_qubit);
        assert(targets@ =~= seq![target_qubit]);
        self.mix_noise(targets.as_slice(), prob, Qreal::from_bits(THREE_QUARTERS_BITS), noise)
    }

    /// Mixes in homogeneous depolarising noise on two qubits, with a
    /// probability of at most fifteen sixteenths.
    ///
    /// Fails, and changes nothing, with the first fault that
    /// `noise_fault` finds.
    pub fn mix_two_qubit_depolarising<F>(
        &mut self,
        qubit1: i32,
        qubit2: i32,
        prob: Qreal,
        noise: F,
    ) -> (res: Result<(), QuestError>) where F: Fn(Vec<Qcomplex>) -> Vec<Qcomplex>
        requires
            old(self).wf(),
            block_fn(noise, 4),
        ensures
            old(self).reshaped(final(self)),
            match noise_fault(
                old(self)@,
                seq![qubit1, qubit2],
                prob,
                Qreal { bits: FIFTEEN_SIXTEENTHS_BITS },
            ) {
                Some(fault) => res == Err::<(), QuestError>(QuestError::InvalidInputError(fault))
                    && final(self)@ == old(self)@,
                None => res is Ok && block_mapped(
                    old(self)@.amps,
                    final(self)@.amps,
                    0,
                    0,
                    bits_of(seq![qubit1, qubit2], 0) + bits_of(
                        seq![qubit1, qubit2],
                        old(self)@.num_qubits,
                    ),
                    noise,
                ),
            },
    {
        let mut targets: Vec<i32> = Vec::new();
        targets.push(qubit1);
        targets.push(qubit2);
        assert(targets@ =~= seq![qubit1, qubit2]);
        self.mix_noise(targets.as_slice(), prob, Qreal::from_bits(FIFTEEN_SIXTEENTHS_BITS), noise)
    }

    /// Mixes in amplitude damping on `target_qubit`: with the
    /// probability `prob`, of at most one, the qubit decays to zero.
    ///
    /// Fails, and changes nothing, with the first fault that
    /// `noise_fault` finds.
    pub fn mix_damping<F>(&mut self, target_qubit: i32, prob: Qreal, noise: F) -> (res: Result<
        (),
        QuestError,
    >) where F: Fn(Vec<Qcomplex>) -> Vec<Qcomplex>
        requires
            old(self).wf(),
            block_fn(noise, 2),
        ensures
            old(self).reshaped(final(self)),
            match noise_fault(old(self)@, seq![target_qubit], prob, Qreal { bits: ONE_BITS }) {
                Some(fault) => res == Err::<(), QuestError>(QuestError::InvalidInputError(fault))
                    && final(self)@ == old(self)@,
                None => res is Ok && block_mapped(
                    old(self)@.amps,
                    final(self)@.amps,
                    0,
                    0,
                    bits_of(seq![target_qubit], 0) + bits_of(
                        seq![target_qubit],
                        old(self)@.num_qubits,
                    ),
                    noise,
                ),
            },
    {
        let mut targets: Vec<i32> = Vec::new();
        targets.push(target_qubit);
        assert(targets@ =~= seq![target_qubit]);
        self.mix_noise(targets.as_slice(), prob, Qreal::one(), noise)
    }

    /// Replaces this density matrix by its mixture with `other_qureg`:
    /// every entry becomes what `mix` makes of it and of the entry of
    /// `other_qureg`, which is `(1 - prob)` times the first plus `prob`
    /// times the second.
    ///
    /// Fails, and changes nothing, with `NotDensityMatrix` where either
    /// register is a state-vector, `RegisterMismatch` where they differ
    /// in their number of qubits, and `Probability` where `prob` is not
    /// between zero and one.
    pub fn mix_density_matrix<F>(&mut self, prob: Qreal, other_qureg: &Qureg<'_>, mix: F) -> (res:
        Result<(), QuestError>) where F: Fn(Qcomplex, Qcomplex) -> Qcomplex
        requires
            old(self).wf(),
            other_qureg.wf(),
            forall|a: Qcomplex, b: Qcomplex| call_requires(mix, (a, b)),
        ensures
            old(self).reshaped(final(self)),
            match mixing_fault(old(self)@, other_qureg@, prob) {
                Some(fault) => res == Err::<(), QuestError>(QuestError::InvalidInputError(fault))
                    && final(self)@ == old(self)@,
                None => res is Ok && forall|i: int|
                    0 <= i < old(self)@.amps.len() ==> call_ensures(
                        mix,
                        (old(self)@.amps[i], other_qureg@.amps[i]),
                        #[trigger] final(self)@.amps[i],
                    ),
            },
    {
        if !self.is_density || !other_qureg.is_density {
            return Err(QuestError::InvalidInputError(InputFault::NotDensityMatrix));
        }
        if self.num_qubits != other_qureg.num_qubits {
            return Err(QuestError::InvalidInputError(InputFault::RegisterMismatch));
        }
        match check_prob(prob, Qreal::one()) {
            Ok(()) => {},
            Err(e) => {
                return Err(e);
            },
        }
        self.zip_with(other_qureg, mix)
    }

    /// Mixes in Pauli noise on `target_qubit`: the qubit suffers an X,
    /// a Y or a Z error with the probabilities `prob_x`, `prob_y` and
    /// `prob_z`. `rest` is the probability of no error, one minus their
    /// sum, as the caller has formed it.
    ///
    /// Fails, and changes nothing, with the first fault that
    /// `pauli_noise_fault` finds.
    pub fn mix_pauli<F>(
        &mut self,
        target_qubit: i32,
        prob_x: Qreal,
        prob_y: Qreal,
        prob_z: Qreal,
        rest: Qreal,
        noise: F,
    ) -> (res: Result<(), QuestError>) where F: Fn(Vec<Qcomplex>) -> Vec<Qcomplex>
        requires
            old(self).wf(),
            block_fn(noise, 2),
        ensures
            old(self).reshaped(final(self)),
            match pauli_noise_fault(old(self)@, target_qubit, prob_x, prob_y, prob_z, rest) {
                Some(fault) => res == Err::<(), QuestError>(QuestError::InvalidInputError(fault))
                    && final(self)@ == old(self)@,
                None => res is Ok && block_mapped(
                    old(self)@.amps,
                    final(self)@.amps,
                    0,
                    0,
                    bits_of(seq![target_qubit], 0) + bits_of(
                        seq![target_qubit],
                        old(self)@.num_qubits,
                    ),
                    noise,
                ),
            },
    {
        if !self.is_density {
            return Err(QuestError::InvalidInputError(InputFault::NotDensityMatrix));
        }
        let n = self.qubits();
        let mut targets: Vec<i32> = Vec::new();
        targets.push(target_qubit);
        assert(targets@ =~= seq![target_qubit]);
        match check_list(n, targets.as_slice()) {
            Ok(_) => {},
            Err(fault) => {
                return Err(QuestError::InvalidInputError(fault));
            },
        }
        let one = Qreal::one();
        let zero = Qreal::zero();
        let bounded = zero.at_most(prob_x) && prob_x.at_most(one) && zero.at_most(prob_y)
            && prob_y.at_most(one) && zero.at_most(prob_z) && prob_z.at_most(one);
        if !bounded || !prob_x.at_most(rest) || !prob_y.at_most(rest) || !prob_z.at_most(rest) {
            return Err(QuestError::InvalidInputError(InputFault::Probability));
        }
        self.apply_channel(targets.as_slice(), noise)
    }

    /// Applies a Kraus map on the qubits `targets` of a density matrix.
    ///
    /// `op_qubits` holds, for each operator of the map, the number of
    /// qubits that its matrix acts on. `complete` says that the
    /// operators preserve the trace, as the caller has found out; a
    /// caller that admits maps which do not passes `true`. `map` is
    /// given the entries of each block as `apply_channel` orders them
    /// and returns the sum over the operators of the operator times the
    /// block times its conjugate transpose.
    ///
    /// Fails, and changes nothing, with the first fault that
    /// `kraus_fault` finds.
    pub fn mix_multi_qubit_kraus_map<F>(
        &mut self,
        targets: &[i32],
        op_qubits: &[usize],
        complete: bool,
        map: F,
    ) -> (res: Result<(), QuestError>) where F: Fn(Vec<Qcomplex>) -> Vec<Qcomplex>
        requires
            old(self).wf(),
            block_fn(map, 2 * targets@.len()),
        ensures
            old(self).reshaped(final(self)),
            match kraus_fault(old(self)@, targets@, op_qubits@, complete) {
                Some(fault) => res == Err::<(), QuestError>(QuestError::InvalidInputError(fault))
                    && final(self)@ == old(self)@,
                None => res is Ok && block_mapped(
                    old(self)@.amps,
                    final(self)@.amps,
                    0,
                    0,
                    bits_of(targets@, 0) + bits_of(targets@, old(self)@.num_qubits),
                    map,
                ),
            },
    {
        if !self.is_density {
            return Err(QuestError::InvalidInputError(InputFault::NotDensityMatrix));
        }
        let n = self.qubits();
        match check_list(n, targets) {
            Ok(_) => {},
            Err(fault) => {
                return Err(QuestError::InvalidInputError(fault));
            },
        }
        match check_kraus_count(op_qubits.len(), targets.len()) {
            Ok(()) => {},
            Err(e) => {
                return Err(e);
            },
        }
        let mut k: usize = 0;
        while k < op_qubits.len()
            invariant
                k <= op_qubits@.len(),
                *self == *old(self),
                channel_fault(self@, targets@) is None,
                1 <= op_qubits@.len() <= max_kraus_ops(targets@.len()),
                forall|i: int| 0 <= i < k ==> #[trigger] op_qubits@[i] == targets@.len(),
            decreases op_qubits@.len() - k,
        {
            if op_qubits[k] != targets.len() {
                assert(op_qubits@[k as int] != targets@.len());
                return Err(QuestError::InvalidInputError(InputFault::MatrixSize));
            }
            k += 1;
        }
        if !complete {
            return Err(QuestError::InvalidInputError(InputFault::KrausMap));
        }
        self.apply_channel(targets, map)
    }
}

} // verus!
