//! Collapse onto a measurement outcome.
//!
//! Measuring a qubit needs the probability of the outcome, which is a
//! sum the caller forms with the folds of this library, and a random
//! number. What follows is decided here: which outcome a random number
//! selects, that a collapse is refused where the outcome cannot occur,
//! and otherwise that the amplitudes that contradict the outcome are set
//! to zero and the others rescaled.

use vstd::prelude::*;
use crate::amplitude::{Qcomplex, Qreal};
use crate::bits::{
    bit, lemma_bit_below_span, lemma_masks, lemma_shifted, lemma_span_is_pow2, selected,
};
use crate::error::{InputFault, QuestError};
use crate::kernel::map_selected;
use crate::qureg::Qureg;
use crate::state::{amps_project, QuregState};
use crate::validate::{check_qubit, outcome_fault};

verus! {

/// The encoding of `1e-13`: a probability that does not exceed it counts
/// as zero.
pub const NEGLIGIBLE_BITS: u64 = 0x3D3C_25C2_6849_7682;

/// Whether an outcome of the probability `prob` can occur: the
/// probability exceeds what counts as zero.
pub open spec fn possible(prob: Qreal) -> bool {
    (Qreal { bits: NEGLIGIBLE_BITS }).spec_lt(prob)
}

/// The failure of a collapse onto an outcome of the probability `prob`,
/// if any: a fault of the qubit or of the outcome, or a probability that
/// counts as zero.
pub open spec fn collapse_fault(n: nat, qubit: i32, outcome: i32, prob: Qreal) -> Option<
    QuestError,
> {
    match outcome_fault(n, qubit, outcome) {
        Some(fault) => Some(QuestError::InvalidInputError(fault)),
        None => if possible(prob) {
            None
        } else {
            Some(QuestError::ZeroProbabilityError)
        },
    }
}

/// The outcome that the random number `sample`, drawn evenly from
/// `[0, 1)`, selects where outcome zero has the probability `zero_prob`:
/// zero where the sample is below the probability, and one otherwise.
pub fn choose_outcome(zero_prob: Qreal, sample: Qreal) -> (outcome: i32)
    ensures
        outcome == (if sample.spec_lt(zero_prob) {
            0i32
        } else {
            1i32
        }),
{
    if sample.less_than(zero_prob) {
        0
    } else {
        1
    }
}

impl QuregState {
    /// Whether the amplitude at `index` agrees with the qubit with bit
    /// `target` having the value `keep`, which is zero or `target`: in a
    /// state-vector the basis state has it, in a density matrix both the
    /// row and the column have it.
    pub open spec fn agrees(self, index: u64, target: u64, keep: u64) -> bool {
        if self.is_density {
            selected(index, target, keep) && selected(index, self.col(target), self.col(keep))
        } else {
            selected(index, target, keep)
        }
    }
}

/// Whether every amplitude of `s` that contradicts the qubit with bit
/// `target` having the value `keep` is zero.
pub open spec fn excludes(s: QuregState, target: u64, keep: u64) -> bool {
    forall|x: u64|
        x < s.amps.len() && !s.agrees(x, target, keep) ==> #[trigger] s.amps[x as int]
            == Qcomplex::spec_zero()
}

impl<'a> Qureg<'a> {
    /// Collapses `measure_qubit` onto `outcome`, which has the
    /// probability `outcome_prob`.
    ///
    /// Every amplitude that contradicts the outcome becomes zero, and
    /// every other one is rescaled by `rescale`, which divides by the
    /// square root of the probability, or by the probability for a
    /// density matrix.
    ///
    /// Fails, and changes nothing, with `QubitIndex` where
    /// `measure_qubit` is no qubit of the register, with `Outcome` where
    /// `outcome` is neither zero nor one, and with
    /// `ZeroProbabilityError` where the probability counts as zero.
    pub fn collapse_to_outcome<F: Fn(Qcomplex) -> Qcomplex>(
        &mut self,
        measure_qubit: i32,
        outcome: i32,
        outcome_prob: Qreal,
        rescale: F,
    ) -> (res: Result<(), QuestError>)
        requires
            old(self).wf(),
            forall|a: Qcomplex| call_requires(rescale, (a,)),
        ensures
            old(self).reshaped(final(self)),
            match collapse_fault(old(self)@.num_qubits, measure_qubit, outcome, outcome_prob) {
                Some(e) => res == Err::<(), QuestError>(e) && final(self)@ == old(self)@,
                None => res is Ok && excludes(
                    final(self)@,
                    bit(measure_qubit as nat),
                    if outcome == 1 {
                        bit(measure_qubit as nat)
                    } else {
                        0
                    },
                ) && forall|x: u64|
                    x < old(self)@.amps.len() ==> if old(self)@.agrees(
                        x,
                        bit(measure_qubit as nat),
                        if outcome == 1 {
                            bit(measure_qubit as nat)
                        } else {
                            0
                        },
                    ) {
                        call_ensures(
                            rescale,
                            (old(self)@.amps[x as int],),
                            #[trigger] final(self)@.amps[x as int],
                        )
                    } else {
                        final(self)@.amps[x as int] == Qcomplex::spec_zero()
                    },
            },
    {
        let n = self.qubits();
        let t = match check_qubit(n, measure_qubit) {
            Ok(b) => b,
            Err(fault) => {
                return Err(QuestError::InvalidInputError(fault));
            },
        };
        if outcome != 0 && outcome != 1 {
            return Err(QuestError::InvalidInputError(InputFault::Outcome));
        }
        if !Qreal::from_bits(NEGLIGIBLE_BITS).less_than(outcome_prob) {
            return Err(QuestError::ZeroProbabilityError);
        }
        let keep: u64 = if outcome == 1 {
            t
        } else {
            0
        };
        let ghost start = self@;
        match self.apply_projector(measure_qubit, outcome) {
            Ok(()) => {},
            Err(_) => {},
        }
        let ghost cleared = self@.amps;
        let (mask, value): (u64, u64) = if self.is_density {
            (t | (t << (n as u64)), keep | (keep << (n as u64)))
        } else {
            (t, keep)
        };
        map_selected(&mut self.amps, mask, value, rescale);
        proof {
            lemma_span_is_pow2(start.index_bits());
            assert forall|x: u64| x < start.amps.len() implies if start.agrees(x, t, keep) {
                call_ensures(rescale, (start.amps[x as int],), #[trigger] self@.amps[x as int])
            } else {
                self@.amps[x as int] == Qcomplex::spec_zero()
            } by {
                let once = amps_project(start.amps, t, keep);
                assert(once[x as int] == (if selected(x, t, keep) {
                    start.amps[x as int]
                } else {
                    Qcomplex::spec_zero()
                }));
                assert(selected(x, mask, value) == start.agrees(x, t, keep)) by {
                    if start.is_density {
                        let ct = start.col(t);
                        let ck = start.col(keep);
                        lemma_bit_below_span(measure_qubit as nat, n as nat);
                        lemma_shifted(t, keep, measure_qubit as nat, n as nat);
                        lemma_shifted(t, t, measure_qubit as nat, n as nat);
                        lemma_masks(0, n as u64, 0);
                        lemma_masks(t, 0, 0);
                        lemma_masks(ct, 0, 0);
                        crate::bits::lemma_zero_mask(0, n as u64);
                        crate::bits::lemma_split_selection(x, t, keep, ct, ck);
                    }
                }
                if start.is_density {
                    let ct = start.col(t);
                    let ck = start.col(keep);
                    assert(cleared[x as int] == amps_project(once, ct, ck)[x as int]);
                }
            }
        }
        Ok(())
    }
}

} // verus!
