//! Operations that fill a register from other registers or from a rule.

use vstd::prelude::*;

use crate::amplitude::{Qcomplex, Qreal, ONE_BITS};
use crate::error::{InputFault, QuestError};
use crate::qureg::Qureg;
use crate::reduce::shape_fault;
use crate::state::QuregState;

verus! {

/// The encoding of `1 / sqrt(2)`, as the quotient of one by the square
/// root of two is rounded.
pub const INV_SQRT2_BITS: u64 = 0x3FE6_A09E_667F_3BCC;

/// The weight of one binary order of magnitude in an encoding.
pub const EXPONENT_STEP: u64 = 0x0010_0000_0000_0000;

/// The amplitude of the plus state: `2^-n` for a density matrix of `n`
/// qubits, and `1 / sqrt(2^n)` for a state-vector.
///
/// Halving a binary64 value lowers its exponent field by one, so these
/// are the encodings of one, or of `1 / sqrt(2)` where `n` is odd, with
/// the exponent lowered by `n`, or by half of `n`.
pub open spec fn plus_amplitude(num_qubits: nat, is_density: bool) -> Qreal {
    if is_density {
        Qreal { bits: (ONE_BITS - num_qubits * EXPONENT_STEP) as u64 }
    } else if num_qubits % 2 == 0 {
        Qreal { bits: (ONE_BITS - (num_qubits / 2) * EXPONENT_STEP) as u64 }
    } else {
        Qreal { bits: (INV_SQRT2_BITS - (num_qubits / 2) * EXPONENT_STEP) as u64 }
    }
}

/// The failure of setting a register to a pure state, if any: the
/// source is a density matrix, or differs in its number of qubits.
pub open spec fn pure_source_fault(s: QuregState, pure: QuregState) -> Option<InputFault> {
    if pure.is_density {
        Some(InputFault::NotStateVector)
    } else if s.num_qubits != pure.num_qubits {
        Some(InputFault::RegisterMismatch)
    } else {
        None
    }
}

/// The failure of combining a register with two others, if any: one of
/// them differs in kind or in its number of qubits.
pub open spec fn shapes_fault(s: QuregState, first: QuregState, second: QuregState) -> Option<
    InputFault,
> {
    if s.same_shape(first) && s.same_shape(second) {
        None
    } else {
        Some(InputFault::RegisterMismatch)
    }
}

impl<'a> Qureg<'a> {
    /// Sets the register to the plus state: every amplitude of a
    /// state-vector becomes `1 / sqrt(2^n)`, every entry of a density
    /// matrix `2^-n`.
    pub fn init_plus_state(&mut self)
        requires
            old(self).wf(),
        ensures
            old(self).reshaped(final(self)),
            final(self)@.amps == Seq::new(
                old(self)@.amps.len(),
                |i: int|
                    Qcomplex {
                        re: plus_amplitude(old(self)@.num_qubits, old(self)@.is_density),
                        im: Qreal { bits: 0 },
                    },
            ),
    {
        let n: u64 = self.qubits() as u64;
        let bits: u64 = if self.is_density {
            ONE_BITS - n * EXPONENT_STEP
        } else if n % 2 == 0 {
            ONE_BITS - (n / 2) * EXPONENT_STEP
        } else {
            INV_SQRT2_BITS - (n / 2) * EXPONENT_STEP
        };
        let value = Qcomplex::new(Qreal::from_bits(bits), Qreal::zero());
        let len: usize = self.amps.len();
        let mut i: usize = 0;
        while i < len
            invariant
                i <= len,
                len == self.amps@.len(),
                old(self).reshaped(self),
                forall|j: int| 0 <= j < i ==> #[trigger] self.amps@[j] == value,
            decreases len - i,
        {
            self.amps[i] = value;
            i += 1;
        }
        assert(self.amps@ =~= Seq::new(
            old(self)@.amps.len(),
            |i: int|
                Qcomplex {
                    re: plus_amplitude(old(self)@.num_qubits, old(self)@.is_density),
                    im: Qreal { bits: 0 },
                },
        ));
    }

    /// Sets the register to the debug state, in which amplitude `k` is
    /// `2k / 10 + i (2k + 1) / 10`. The state is not normalised.
    ///
    /// `tenth` divides a whole number by ten.
    pub fn init_debug_state<F: Fn(i64) -> Qreal>(&mut self, tenth: F)
        requires
            old(self).wf(),
            forall|k: i64| call_requires(tenth, (k,)),
        ensures
            old(self).reshaped(final(self)),
            forall|k: int|
                0 <= k < old(self)@.amps.len() ==> {
                    &&& call_ensures(tenth, ((2 * k) as i64,), (#[trigger] final(self)@.amps[k]).re)
                    &&& call_ensures(tenth, ((2 * k + 1) as i64,), final(self)@.amps[k].im)
                },
    {
        proof {
            self.lemma_layout();
        }
        proof {
            crate::bits::lemma_span_is_pow2(self@.index_bits());
        }
        let len: usize = self.amps.len();
        let mut i: usize = 0;
        while i < len
            invariant
                i <= len,
                len == self.amps@.len(),
                len <= 0x4000_0000_0000_0000u64,
                old(self).reshaped(self),
                forall|k: i64| call_requires(tenth, (k,)),
                forall|k: int|
                    0 <= k < i ==> {
                        &&& call_ensures(tenth, ((2 * k) as i64,), (#[trigger] self.amps@[k]).re)
                        &&& call_ensures(tenth, ((2 * k + 1) as i64,), self.amps@[k].im)
                    },
            decreases len - i,
        {
            let k: i64 = i as i64;
            let re = tenth(2 * k);
            let im = tenth(2 * k + 1);
            self.amps[i] = Qcomplex::new(re, im);
            i += 1;
        }
    }

    /// Sets the register to the pure state held by the state-vector
    /// `pure`.
    ///
    /// A state-vector takes over the amplitudes of `pure`. A density
    /// matrix becomes the outer product of `pure` with itself: its entry
    /// at row `r` and column `c` is what `outer` makes of the
    /// amplitudes `r` and `c` of `pure`, which is the first times the
    /// conjugate of the second.
    ///
    /// Fails, and changes nothing, with `NotStateVector` where `pure` is
    /// a density matrix, and with `RegisterMismatch` where the two
    /// registers differ in their number of qubits.
    pub fn init_pure_state<F: Fn(Qcomplex, Qcomplex) -> Qcomplex>(
        &mut self,
        pure: &Qureg<'_>,
        outer: F,
    ) -> (res: Result<(), QuestError>)
        requires
            old(self).wf(),
            pure.wf(),
            forall|a: Qcomplex, b: Qcomplex| call_requires(outer, (a, b)),
        ensures
            old(self).reshaped(final(self)),
            match pure_source_fault(old(self)@, pure@) {
                Some(fault) => res == Err::<(), QuestError>(QuestError::InvalidInputError(fault))
                    && final(self)@ == old(self)@,
                None => {
                    &&& res is Ok
                    &&& !old(self)@.is_density ==> final(self)@.amps == pure@.amps
                    &&& old(self)@.is_density ==> forall|r: int, c: int|
                        0 <= r < pure@.amps.len() && 0 <= c < pure@.amps.len() ==> call_ensures(
                            outer,
                            (pure@.amps[r], pure@.amps[c]),
                            #[trigger] final(self)@.amps[old(self)@.flat_index(r, c)],
                        )
                },
            },
    {
        if pure.is_density {
            return Err(QuestError::InvalidInputError(InputFault::NotStateVector));
        }
        if self.num_qubits != pure.num_qubits {
            return Err(QuestError::InvalidInputError(InputFault::RegisterMismatch));
        }
        if !self.is_density {
            match self.clone_qureg(pure) {
                Ok(()) => {},
                Err(_) => {},
            }
            return Ok(());
        }
        let d = self.dim();
        proof {
            pure.lemma_layout();
        }
        let mut c: usize = 0;
        while c < d
            invariant
                c <= d,
                self.wf(),
                pure.wf(),
                d == self@.dim(),
                d == pure@.amps.len(),
                d as int * d as int == self@.amps.len(),
                self@.amps.len() <= usize::MAX,
                old(self).reshaped(self),
                forall|a: Qcomplex, b: Qcomplex| call_requires(outer, (a, b)),
                forall|r: int, cc: int|
                    0 <= r < d && 0 <= cc < c ==> call_ensures(
                        outer,
                        (pure@.amps[r], pure@.amps[cc]),
                        #[trigger] self@.amps[r + cc * d],
                    ),
            decreases d - c,
        {
            let mut r: usize = 0;
            assert(c * d + d <= d * d) by (nonlinear_arith)
                requires
                    c < d,
            ;
            while r < d
                invariant
                    r <= d,
                    c < d,
                    c * d + d <= d * d,
                    self.wf(),
                    d == self@.dim(),
                    d == pure@.amps.len(),
                    d as int * d as int == self@.amps.len(),
                    self@.amps.len() <= usize::MAX,
                    old(self).reshaped(self),
                    forall|a: Qcomplex, b: Qcomplex| call_requires(outer, (a, b)),
                    forall|rr: int, cc: int|
                        0 <= rr < d && (0 <= cc < c || (cc == c && rr < r)) ==> call_ensures(
                            outer,
                            (pure@.amps[rr], pure@.amps[cc]),
                            #[trigger] self@.amps[rr + cc * d],
                        ),
                decreases d - r,
            {
                let value = outer(pure.amps[r], pure.amps[c]);
                let ghost before = self@.amps;
                self.amps[r + c * d] = value;
                proof {
                    assert forall|rr: int, cc: int|
                        0 <= rr < d && (0 <= cc < c || (cc == c && rr < r + 1)) implies call_ensures(
                        outer,
                        (pure@.amps[rr], pure@.amps[cc]),
                        #[trigger] self@.amps[rr + cc * d],
                    ) by {
                        if cc == c && rr == r {
                        } else {
                            assert(rr + cc * d != r + c * d) by (nonlinear_arith)
                                requires
                                    0 <= rr < d,
                                    0 <= r < d,
                                    0 <= cc,
                                    0 <= c,
                                    !(cc == c && rr == r),
                            ;
                            assert(0 <= rr + cc * d < d * d) by (nonlinear_arith)
                                requires
                                    0 <= rr < d,
                                    0 <= cc < d,
                            ;
                            assert(self@.amps[rr + cc * d] == before[rr + cc * d]);
                        }
                    }
                }
                r += 1;
            }
            c += 1;
        }
        Ok(())
    }

    /// Replaces every amplitude by what `f` makes of it and of the
    /// amplitude of `other` at the same index.
    ///
    /// Fails with `RegisterMismatch`, and changes nothing, exactly when
    /// the two registers differ in kind or in their number of qubits.
    pub fn zip_with<F: Fn(Qcomplex, Qcomplex) -> Qcomplex>(&mut self, other: &Qureg<'_>, f: F) -> (res:
        Result<(), QuestError>)
        requires
            old(self).wf(),
            other.wf(),
            forall|a: Qcomplex, b: Qcomplex| call_requires(f, (a, b)),
        ensures
            old(self).reshaped(final(self)),
            match shape_fault(old(self)@, other@) {
                Some(fault) => res == Err::<(), QuestError>(QuestError::InvalidInputError(fault))
                    && final(self)@ == old(self)@,
                None => res is Ok && forall|i: int|
                    0 <= i < old(self)@.amps.len() ==> call_ensures(
                        f,
                        (old(self)@.amps[i], other@.amps[i]),
                        #[trigger] final(self)@.amps[i],
                    ),
            },
    {
        if self.is_density != other.is_density || self.num_qubits != other.num_qubits {
            return Err(QuestError::InvalidInputError(InputFault::RegisterMismatch));
        }
        let len: usize = self.amps.len();
        let mut i: usize = 0;
        while i < len
            invariant
                i <= len,
                len == self.amps@.len(),
                len == other.amps@.len(),
                old(self).reshaped(self),
                forall|a: Qcomplex, b: Qcomplex| call_requires(f, (a, b)),
                forall|j: int|
                    0 <= j < i ==> call_ensures(
                        f,
                        (old(self)@.amps[j], other@.amps[j]),
                        #[trigger] self.amps@[j],
                    ),
                forall|j: int| i <= j < len ==> self.amps@[j] == old(self)@.amps[j],
            decreases len - i,
        {
            let value = f(self.amps[i], other.amps[i]);
            self.amps[i] = value;
            i += 1;
        }
        Ok(())
    }

    /// Replaces every amplitude by what `f` makes of the amplitudes of
    /// `first` and of `second` at the same index, and of itself.
    ///
    /// Fails with `RegisterMismatch`, and changes nothing, exactly when
    /// one of the two registers differs from this one in kind or in its
    /// number of qubits.
    pub fn zip_with_two<F: Fn(Qcomplex, Qcomplex, Qcomplex) -> Qcomplex>(
        &mut self,
        first: &Qureg<'_>,
        second: &Qureg<'_>,
        f: F,
    ) -> (res: Result<(), QuestError>)
        requires
            old(self).wf(),
            first.wf(),
            second.wf(),
            forall|a: Qcomplex, b: Qcomplex, c: Qcomplex| call_requires(f, (a, b, c)),
        ensures
            old(self).reshaped(final(self)),
            match shapes_fault(old(self)@, first@, second@) {
                Some(fault) => res == Err::<(), QuestError>(QuestError::InvalidInputError(fault))
                    && final(self)@ == old(self)@,
                None => res is Ok && forall|i: int|
                    0 <= i < old(self)@.amps.len() ==> call_ensures(
                        f,
                        (first@.amps[i], second@.amps[i], old(self)@.amps[i]),
                        #[trigger] final(self)@.amps[i],
                    ),
            },
    {
        if self.is_density != first.is_density || self.num_qubits != first.num_qubits
            || self.is_density != second.is_density || self.num_qubits != second.num_qubits {
            return Err(QuestError::InvalidInputError(InputFault::RegisterMismatch));
        }
        let len: usize = self.amps.len();
        let mut i: usize = 0;
        while i < len
            invariant
                i <= len,
                len == self.amps@.len(),
                len == first.amps@.len(),
                len == second.amps@.len(),
                old(self).reshaped(self),
                forall|a: Qcomplex, b: Qcomplex, c: Qcomplex| call_requires(f, (a, b, c)),
                forall|j: int|
                    0 <= j < i ==> call_ensures(
                        f,
                        (first@.amps[j], second@.amps[j], old(self)@.amps[j]),
                        #[trigger] self.amps@[j],
                    ),
                forall|j: int| i <= j < len ==> self.amps@[j] == old(self)@.amps[j],
            decreases len - i,
        {
            let value = f(first.amps[i], second.amps[i], self.amps[i]);
            self.amps[i] = value;
            i += 1;
        }
        Ok(())
    }
}

} // verus!
