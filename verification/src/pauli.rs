//! Products and sums of Pauli operators.
//!
//! A Pauli product names one of I, X, Y or Z for each of some qubits.
//! Multiplying a register by one moves amplitudes and turns them by
//! quarter turns, so it is exact. An expectation value is then a sum
//! over the product of the result with the original, and a weighted sum
//! of products is an accumulation; the arithmetic of both is supplied by
//! the caller.

use vstd::prelude::*;
use crate::amplitude::{lemma_quarter_turns, Qcomplex, Qreal};
use crate::bits::{
    bit, flipped, lemma_bit_below_span, lemma_flip_twice, lemma_not_selection,
    lemma_ops_below_span, lemma_single_bit, lemma_span_is_pow2, lemma_zero_mask, span,
    MAX_INDEX_BITS,
};
use crate::error::{InputFault, QuestError};
use crate::gates::{
    lemma_point_sweep, lemma_swap_sweep_is_not, lemma_y_sweep, negated, swap_pair, y_pair,
};
use crate::kernel::{map_pairs, map_selected};
use crate::laws::lemma_amps_not_twice;
use crate::qureg::Qureg;
use crate::reduce::{folded, lemma_fold_step};
use crate::state::{amps_negate, amps_not, amps_y, QuregState};
use crate::validate::{all_ok, check_list, list_fault, qubit_ok};

verus! {

/// One of the four Pauli operators.
#[derive(Clone, Copy, Debug, PartialEq, Eq, Structural)]
pub enum PauliOpType {
    PauliI,
    PauliX,
    PauliY,
    PauliZ,
}

/// `amps` multiplied from the left by the Pauli operator `code` on the
/// qubit `target`.
pub open spec fn pauli_factor(amps: Seq<Qcomplex>, target: i32, code: PauliOpType) -> Seq<
    Qcomplex,
> {
    match code {
        PauliOpType::PauliI => amps,
        PauliOpType::PauliX => amps_not(amps, 0, bit(target as nat)),
        PauliOpType::PauliY => amps_y(amps, 0, bit(target as nat), false),
        PauliOpType::PauliZ => amps_negate(amps, bit(target as nat)),
    }
}

/// `amps` multiplied from the left by the operators `codes` on the
/// qubits `targets`, one after the other.
pub open spec fn pauli_product(amps: Seq<Qcomplex>, targets: Seq<i32>, codes: Seq<PauliOpType>) -> Seq<
    Qcomplex,
>
    decreases targets.len(),
{
    if targets.len() == 0 || codes.len() != targets.len() {
        amps
    } else {
        pauli_factor(
            pauli_product(amps, targets.drop_last(), codes.drop_last()),
            targets.last(),
            codes.last(),
        )
    }
}

/// The qubits `0` to `n - 1`, in order.
pub open spec fn all_qubits(n: nat) -> Seq<i32> {
    Seq::new(n, |q: int| q as i32)
}

/// The codes of term `t` of a sum over products on all `n` qubits.
pub open spec fn term_codes(all: Seq<PauliOpType>, n: nat, t: int) -> Seq<PauliOpType> {
    all.subrange(t * n, t * n + n)
}

/// The first rule that a Pauli product breaks: the rules of its list of
/// qubits, then one code per qubit.
pub open spec fn product_fault(n: nat, targets: Seq<i32>, codes: Seq<PauliOpType>) -> Option<
    InputFault,
> {
    if list_fault(n, targets) is Some {
        list_fault(n, targets)
    } else if codes.len() != targets.len() {
        Some(InputFault::PauliTerms)
    } else {
        None
    }
}

/// The first rule that a sum of `terms` Pauli products on all `n`
/// qubits breaks: at least one term, and one code per qubit and term.
pub open spec fn sum_fault(n: nat, codes: nat, terms: nat) -> Option<InputFault> {
    if terms == 0 || codes != terms * n {
        Some(InputFault::PauliTerms)
    } else {
        None
    }
}

/// The qubits of `targets` whose code is not the identity, in order.
pub open spec fn acted_on(targets: Seq<i32>, codes: Seq<PauliOpType>) -> Seq<i32>
    decreases targets.len(),
{
    if targets.len() == 0 || codes.len() != targets.len() {
        Seq::empty()
    } else if codes.last() == PauliOpType::PauliI {
        acted_on(targets.drop_last(), codes.drop_last())
    } else {
        acted_on(targets.drop_last(), codes.drop_last()).push(targets.last())
    }
}

/// The qubits of `targets` whose code is not the identity, in order: the
/// qubits on which a rotation about the product turns.
pub fn non_identity(targets: &[i32], codes: &[PauliOpType]) -> (qubits: Vec<i32>)
    ensures
        qubits@ == acted_on(targets@, codes@),
{
    let mut qubits: Vec<i32> = Vec::new();
    if codes.len() != targets.len() {
        return qubits;
    }
    let mut k: usize = 0;
    while k < targets.len()
        invariant
            k <= targets@.len(),
            codes@.len() == targets@.len(),
            qubits@ == acted_on(targets@.take(k as int), codes@.take(k as int)),
        decreases targets@.len() - k,
    {
        proof {
            assert(targets@.take(k + 1).drop_last() =~= targets@.take(k as int));
            assert(codes@.take(k + 1).drop_last() =~= codes@.take(k as int));
        }
        match codes[k] {
            PauliOpType::PauliI => {},
            _ => {
                qubits.push(targets[k]);
            },
        }
        k += 1;
    }
    proof {
        assert(targets@.take(targets@.len() as int) =~= targets@);
        assert(codes@.take(codes@.len() as int) =~= codes@);
    }
    qubits
}

/// A Pauli operator applied twice gives the amplitudes back.
pub proof fn lemma_factor_twice(amps: Seq<Qcomplex>, n: nat, target: i32, code: PauliOpType)
    requires
        n <= MAX_INDEX_BITS,
        amps.len() == span(n),
        0 <= target < n,
    ensures
        pauli_factor(pauli_factor(amps, target, code), target, code) == amps,
        pauli_factor(amps, target, code).len() == amps.len(),
{
    let t = bit(target as nat);
    lemma_bit_below_span(target as nat, n);
    lemma_zero_mask(0, t);
    let once = pauli_factor(amps, target, code);
    let twice = pauli_factor(once, target, code);
    match code {
        PauliOpType::PauliI => {},
        PauliOpType::PauliX => {
            lemma_amps_not_twice(amps, n, 0, t);
        },
        PauliOpType::PauliY => {
            assert forall|i: int| 0 <= i < amps.len() implies twice[i] == amps[i] by {
                let x = i as u64;
                lemma_ops_below_span(x, t, n);
                lemma_flip_twice(x, t);
                lemma_zero_mask(x, t);
                lemma_zero_mask(flipped(x, t), t);
                lemma_not_selection(x, 0, target as nat, t);
                lemma_single_bit(x, target as nat);
                lemma_single_bit(flipped(x, t), target as nat);
                lemma_quarter_turns(amps[i]);
            }
            assert(twice =~= amps);
        },
        PauliOpType::PauliZ => {
            assert forall|i: int| 0 <= i < amps.len() implies twice[i] == amps[i] by {
                lemma_quarter_turns(amps[i]);
            }
            assert(twice =~= amps);
        },
    }
}

/// A Pauli product keeps the number of amplitudes.
pub proof fn lemma_product_len(amps: Seq<Qcomplex>, targets: Seq<i32>, codes: Seq<PauliOpType>)
    ensures
        pauli_product(amps, targets, codes).len() == amps.len(),
    decreases targets.len(),
{
    if targets.len() == 0 || codes.len() != targets.len() {
    } else {
        lemma_product_len(amps, targets.drop_last(), codes.drop_last());
    }
}

impl<'a> Qureg<'a> {
    /// Multiplies from the left by one Pauli operator.
    fn multiply_by_pauli(&mut self, target: i32, code: PauliOpType)
        requires
            old(self).wf(),
            qubit_ok(old(self)@.num_qubits, target),
        ensures
            old(self).reshaped(final(self)),
            final(self)@.amps == pauli_factor(old(self)@.amps, target, code),
    {
        let n = self.qubits();
        let nb = self.index_bits();
        let t: u64 = 1u64 << (target as u64);
        let ghost start = self@.amps;
        proof {
            lemma_bit_below_span(target as nat, n as nat);
            lemma_span_is_pow2(n as nat);
            lemma_span_is_pow2(nb as nat);
            lemma_zero_mask(0, t);
            lemma_not_selection(0, 0, target as nat, t);
            if self@.is_density {
                crate::bits::lemma_shifted(t, t, target as nat, n as nat);
            }
        }
        match code {
            PauliOpType::PauliI => {},
            PauliOpType::PauliX => {
                map_pairs(&mut self.amps, nb, 0 | t, 0, t, swap_pair);
                proof {
                    lemma_swap_sweep_is_not(start, self.amps@, nb as nat, 0, target as nat, t);
                }
            },
            PauliOpType::PauliY => {
                map_pairs(&mut self.amps, nb, 0 | t, 0, t, y_pair);
                proof {
                    lemma_y_sweep(start, self.amps@, nb as nat, 0, target as nat, y_pair, false);
                }
            },
            PauliOpType::PauliZ => {
                map_selected(&mut self.amps, t, t, negated);
                proof {
                    lemma_point_sweep(
                        start,
                        self.amps@,
                        t,
                        t,
                        negated,
                        |a: Qcomplex| a.spec_neg(),
                    );
                    assert(self.amps@ =~= amps_negate(start, t));
                }
            },
        }
    }

    /// Multiplies from the left by the operators `codes[offset + k]` on
    /// the qubits `targets[k]`, in order.
    fn multiply_forward(&mut self, targets: &[i32], codes: &[PauliOpType], offset: usize)
        requires
            old(self).wf(),
            all_ok(old(self)@.num_qubits, targets@),
            offset + targets@.len() <= codes@.len(),
        ensures
            old(self).reshaped(final(self)),
            final(self)@.amps == pauli_product(
                old(self)@.amps,
                targets@,
                codes@.subrange(offset as int, offset + targets@.len()),
            ),
    {
        let len = targets.len();
        let total = codes.len();
        let ghost mine = codes@.subrange(offset as int, offset + len);
        let mut k: usize = 0;
        while k < len
            invariant
                k <= len,
                total == codes@.len(),
                len == targets@.len(),
                offset + len <= codes@.len(),
                mine == codes@.subrange(offset as int, offset + len),
                self.wf(),
                old(self).reshaped(self),
                all_ok(self@.num_qubits, targets@),
                self@.amps == pauli_product(old(self)@.amps, targets@.take(k as int), mine.take(k as int)),
            decreases len - k,
        {
            assert(qubit_ok(self@.num_qubits, targets@[k as int]));
            proof {
                assert(targets@.take(k + 1).drop_last() =~= targets@.take(k as int));
                assert(mine.take(k + 1).drop_last() =~= mine.take(k as int));
                assert(mine.take(k + 1).last() == codes@[offset + k]);
            }
            self.multiply_by_pauli(targets[k], codes[offset + k]);
            k += 1;
        }
        proof {
            assert(targets@.take(len as int) =~= targets@);
            assert(mine.take(len as int) =~= mine);
        }
    }

    /// Undoes `multiply_forward`: multiplies by the same operators in
    /// the opposite order.
    fn multiply_backward(
        &mut self,
        targets: &[i32],
        codes: &[PauliOpType],
        offset: usize,
        Ghost(origin): Ghost<Seq<Qcomplex>>,
    )
        requires
            old(self).wf(),
            all_ok(old(self)@.num_qubits, targets@),
            offset + targets@.len() <= codes@.len(),
            origin.len() == old(self)@.amps.len(),
            old(self)@.amps == pauli_product(
                origin,
                targets@,
                codes@.subrange(offset as int, offset + targets@.len()),
            ),
        ensures
            old(self).reshaped(final(self)),
            final(self)@.amps == origin,
    {
        let len = targets.len();
        let total = codes.len();
        let ghost mine = codes@.subrange(offset as int, offset + len);
        proof {
            self.lemma_layout();
        }
        let mut k: usize = len;
        proof {
            assert(targets@.take(len as int) =~= targets@);
            assert(mine.take(len as int) =~= mine);
        }
        while k > 0
            invariant
                k <= len,
                total == codes@.len(),
                len == targets@.len(),
                offset + len <= codes@.len(),
                mine == codes@.subrange(offset as int, offset + len),
                self.wf(),
                old(self).reshaped(self),
                origin.len() == self@.amps.len(),
                all_ok(self@.num_qubits, targets@),
                self@.amps == pauli_product(origin, targets@.take(k as int), mine.take(k as int)),
            decreases k,
        {
            k -= 1;
            assert(qubit_ok(self@.num_qubits, targets@[k as int]));
            proof {
                assert(targets@.take(k + 1).drop_last() =~= targets@.take(k as int));
                assert(mine.take(k + 1).drop_last() =~= mine.take(k as int));
                assert(mine.take(k + 1).last() == codes@[offset + k]);
                let inner = pauli_product(origin, targets@.take(k as int), mine.take(k as int));
                lemma_product_len(origin, targets@.take(k as int), mine.take(k as int));
                lemma_span_is_pow2(self@.index_bits());
                lemma_factor_twice(
                    inner,
                    self@.index_bits(),
                    targets@[k as int],
                    codes@[offset + k],
                );
            }
            self.multiply_by_pauli(targets[k], codes[offset + k]);
        }
    }

    /// Multiplies the register from the left by a product of Pauli
    /// operators: `pauli_codes[k]` on the qubit `target_qubits[k]`. A
    /// density matrix is not multiplied from the right.
    ///
    /// Fails, and changes nothing, with the first fault of
    /// `target_qubits` as a list of qubits, and with `PauliTerms`
    /// where there is not one code per qubit.
    pub fn multiply_pauli_prod(&mut self, target_qubits: &[i32], pauli_codes: &[PauliOpType]) -> (res:
        Result<(), QuestError>)
        requires
            old(self).wf(),
        ensures
            old(self).reshaped(final(self)),
            match product_fault(old(self)@.num_qubits, target_qubits@, pauli_codes@) {
                Some(fault) => res == Err::<(), QuestError>(QuestError::InvalidInputError(fault))
                    && final(self)@ == old(self)@,
                None => res is Ok && final(self)@.amps == pauli_product(
                    old(self)@.amps,
                    target_qubits@,
                    pauli_codes@,
                ),
            },
    {
        let n = self.qubits();
        match check_list(n, target_qubits) {
            Ok(_) => {},
            Err(fault) => {
                return Err(QuestError::InvalidInputError(fault));
            },
        }
        if pauli_codes.len() != target_qubits.len() {
            return Err(QuestError::InvalidInputError(InputFault::PauliTerms));
        }
        self.multiply_forward(target_qubits, pauli_codes, 0);
        proof {
            assert(pauli_codes@.subrange(0, target_qubits@.len() as int) =~= pauli_codes@);
        }
        Ok(())
    }
}

/// The qubits `0` to `n - 1`, in order.
pub(crate) fn qubit_range(n: u32) -> (qubits: Vec<i32>)
    requires
        n <= MAX_INDEX_BITS,
    ensures
        qubits@ == all_qubits(n as nat),
        all_ok(n as nat, qubits@),
{
    let mut qubits: Vec<i32> = Vec::new();
    let mut q: u32 = 0;
    while q < n
        invariant
            q <= n,
            n <= MAX_INDEX_BITS,
            qubits@.len() == q,
            forall|i: int| 0 <= i < q ==> #[trigger] qubits@[i] == i,
        decreases n - q,
    {
        qubits.push(q as i32);
        q += 1;
    }
    assert(qubits@ =~= all_qubits(n as nat));
    qubits
}

/// The failure of writing a Pauli product of a register into a
/// workspace, if any: a fault of the product, or a workspace of another
/// kind or size.
pub open spec fn workspace_fault(
    s: QuregState,
    targets: Seq<i32>,
    codes: Seq<PauliOpType>,
    workspace: QuregState,
) -> Option<InputFault> {
    if product_fault(s.num_qubits, targets, codes) is Some {
        product_fault(s.num_qubits, targets, codes)
    } else if !s.same_shape(workspace) {
        Some(InputFault::RegisterMismatch)
    } else {
        None
    }
}

/// The failure of writing term `term` of a sum of Pauli products into a
/// workspace, if any: a workspace of another kind or size, codes that
/// do not make up whole terms, or a term that is not there.
pub open spec fn term_fault(s: QuregState, codes: nat, term: nat, workspace: QuregState) -> Option<
    InputFault,
> {
    if !s.same_shape(workspace) {
        Some(InputFault::RegisterMismatch)
    } else if codes % s.num_qubits != 0 || term >= codes / s.num_qubits {
        Some(InputFault::PauliTerms)
    } else {
        None
    }
}

/// What the amplitude at `index` contributes to a weighted sum of Pauli
/// products, term by term: the weight of the term, and the amplitude
/// at `index` of the register multiplied by the product.
pub open spec fn sum_items(
    amps: Seq<Qcomplex>,
    codes: Seq<PauliOpType>,
    coeffs: Seq<Qreal>,
    n: nat,
    index: int,
) -> Seq<(Qreal, Qcomplex)> {
    Seq::new(
        coeffs.len(),
        |t: int| (coeffs[t], pauli_product(amps, all_qubits(n), term_codes(codes, n, t))[index]),
    )
}

/// The failure of a weighted sum of Pauli products, if any: a fault of
/// the sum, or an output register of another kind or size.
pub open spec fn pauli_sum_fault(s: QuregState, codes: nat, terms: nat, out: QuregState) -> Option<
    InputFault,
> {
    if sum_fault(s.num_qubits, codes, terms) is Some {
        sum_fault(s.num_qubits, codes, terms)
    } else if !s.same_shape(out) {
        Some(InputFault::RegisterMismatch)
    } else {
        None
    }
}

impl<'a> Qureg<'a> {
    /// Checks a sum of `terms` Pauli products on all qubits of the
    /// register that is given by `codes` codes.
    pub fn check_pauli_sum(&self, codes: usize, terms: usize) -> (res: Result<(), QuestError>)
        requires
            self.wf(),
        ensures
            res == (match sum_fault(self@.num_qubits, codes as nat, terms as nat) {
                Some(fault) => Err::<(), QuestError>(QuestError::InvalidInputError(fault)),
                None => Ok(()),
            }),
    {
        let width = self.qubits() as usize;
        if terms == 0 || codes % width != 0 || codes / width != terms {
            proof {
                if codes == terms * width {
                    vstd::arithmetic::div_mod::lemma_fundamental_div_mod_converse(
                        codes as int,
                        width as int,
                        terms as int,
                        0,
                    );
                }
            }
            return Err(QuestError::InvalidInputError(InputFault::PauliTerms));
        }
        proof {
            vstd::arithmetic::div_mod::lemma_fundamental_div_mod(codes as int, width as int);
            assert(terms * width == width * terms) by (nonlinear_arith);
        }
        Ok(())
    }

    /// Succeeds where `hamil` acts on as many qubits as the register
    /// has, and fails with `RegisterMismatch` otherwise.
    pub fn check_hamil(&self, hamil: &PauliHamil) -> (res: Result<(), QuestError>)
        requires
            self.wf(),
        ensures
            res == (if hamil@.num_qubits == self@.num_qubits {
                Ok::<(), QuestError>(())
            } else {
                Err(QuestError::InvalidInputError(InputFault::RegisterMismatch))
            }),
    {
        if hamil.num_qubits == self.qubits() {
            Ok(())
        } else {
            Err(QuestError::InvalidInputError(InputFault::RegisterMismatch))
        }
    }

    /// Writes into `workspace` this register multiplied from the left
    /// by a product of Pauli operators. The expectation value of the
    /// product is then the inner product of the two for a state-vector,
    /// and the trace of `workspace` for a density matrix.
    ///
    /// Fails, and leaves `workspace` alone, with the faults of the
    /// product, and with `RegisterMismatch` where `workspace` differs
    /// from this register in kind or in its number of qubits.
    pub fn pauli_prod_into(
        &self,
        target_qubits: &[i32],
        pauli_codes: &[PauliOpType],
        workspace: &mut Qureg<'_>,
    ) -> (res: Result<(), QuestError>)
        requires
            self.wf(),
            old(workspace).wf(),
        ensures
            old(workspace).reshaped(final(workspace)),
            match workspace_fault(self@, target_qubits@, pauli_codes@, old(workspace)@) {
                Some(fault) => res == Err::<(), QuestError>(QuestError::InvalidInputError(fault))
                    && final(workspace)@ == old(workspace)@,
                None => res is Ok && final(workspace)@.amps == pauli_product(
                    self@.amps,
                    target_qubits@,
                    pauli_codes@,
                ),
            },
    {
        let n = self.qubits();
        match check_list(n, target_qubits) {
            Ok(_) => {},
            Err(fault) => {
                return Err(QuestError::InvalidInputError(fault));
            },
        }
        if pauli_codes.len() != target_qubits.len() {
            return Err(QuestError::InvalidInputError(InputFault::PauliTerms));
        }
        match workspace.clone_qureg(self) {
            Ok(()) => {},
            Err(e) => {
                return Err(e);
            },
        }
        workspace.multiply_forward(target_qubits, pauli_codes, 0);
        proof {
            assert(pauli_codes@.subrange(0, target_qubits@.len() as int) =~= pauli_codes@);
        }
        Ok(())
    }

    /// Writes into `workspace` this register multiplied from the left
    /// by term `term` of a sum of Pauli products. Each term has one code
    /// for every qubit of the register, and `all_pauli_codes` holds the
    /// codes of the terms one after the other.
    ///
    /// Fails, and leaves `workspace` alone, with `RegisterMismatch`
    /// where `workspace` differs from this register in kind or in its
    /// number of qubits, and with `PauliTerms` where the codes do not
    /// make up whole terms or the term is not among them.
    pub fn pauli_term_into(
        &self,
        all_pauli_codes: &[PauliOpType],
        term: usize,
        workspace: &mut Qureg<'_>,
    ) -> (res: Result<(), QuestError>)
        requires
            self.wf(),
            old(workspace).wf(),
        ensures
            old(workspace).reshaped(final(workspace)),
            match term_fault(self@, all_pauli_codes@.len(), term as nat, old(workspace)@) {
                Some(fault) => res == Err::<(), QuestError>(QuestError::InvalidInputError(fault))
                    && final(workspace)@ == old(workspace)@,
                None => res is Ok && final(workspace)@.amps == pauli_product(
                    self@.amps,
                    all_qubits(self@.num_qubits),
                    term_codes(all_pauli_codes@, self@.num_qubits, term as int),
                ),
            },
    {
        let n = self.qubits();
        if self.is_density != workspace.is_density || self.num_qubits != workspace.num_qubits {
            return Err(QuestError::InvalidInputError(InputFault::RegisterMismatch));
        }
        let total = all_pauli_codes.len();
        let width = n as usize;
        if total % width != 0 || term >= total / width {
            return Err(QuestError::InvalidInputError(InputFault::PauliTerms));
        }
        proof {
            vstd::arithmetic::div_mod::lemma_fundamental_div_mod(total as int, width as int);
            assert(term * width + width <= (total / width) * width) by (nonlinear_arith)
                requires
                    term < total / width,
            ;
            assert(width * (total / width) == (total / width) * width) by (nonlinear_arith);
        }
        match workspace.clone_qureg(self) {
            Ok(()) => {},
            Err(_) => {},
        }
        let qubits = qubit_range(n);
        workspace.multiply_forward(qubits.as_slice(), all_pauli_codes, term * width);
        Ok(())
    }
}

/// Sets `out_qureg` to a weighted sum of Pauli products of `in_qureg`.
///
/// Term `t` has the weight `term_coeffs[t]` and one code for every
/// qubit, the codes of the terms following one another in
/// `all_pauli_codes`. Every amplitude of `out_qureg` starts from zero
/// and takes up, term by term, what `add_scaled` makes of it, of the
/// weight, and of the amplitude of the multiplied register.
/// `in_qureg` is multiplied in place and restored, exactly.
///
/// Fails, and changes nothing, with `PauliTerms` where there is no term
/// or not one code per qubit and term, and with `RegisterMismatch` where
/// the two registers differ in kind or in their number of qubits.
pub fn apply_pauli_sum<F: Fn(Qcomplex, (Qreal, Qcomplex)) -> Qcomplex>(
    in_qureg: &mut Qureg<'_>,
    all_pauli_codes: &[PauliOpType],
    term_coeffs: &[Qreal],
    out_qureg: &mut Qureg<'_>,
    add_scaled: F,
) -> (res: Result<(), QuestError>)
    requires
        old(in_qureg).wf(),
        old(out_qureg).wf(),
        forall|acc: Qcomplex, item: (Qreal, Qcomplex)| call_requires(add_scaled, (acc, item)),
    ensures
        old(in_qureg).reshaped(final(in_qureg)),
        old(out_qureg).reshaped(final(out_qureg)),
        final(in_qureg)@ == old(in_qureg)@,
        match pauli_sum_fault(
            old(in_qureg)@,
            all_pauli_codes@.len(),
            term_coeffs@.len(),
            old(out_qureg)@,
        ) {
            Some(fault) => res == Err::<(), QuestError>(QuestError::InvalidInputError(fault))
                && final(out_qureg)@ == old(out_qureg)@,
            None => res is Ok && forall|i: int|
                0 <= i < old(out_qureg)@.amps.len() ==> folded(
                    add_scaled,
                    sum_items(
                        old(in_qureg)@.amps,
                        all_pauli_codes@,
                        term_coeffs@,
                        old(in_qureg)@.num_qubits,
                        i,
                    ),
                    Qcomplex::spec_zero(),
                    #[trigger] final(out_qureg)@.amps[i],
                ),
        },
{
    let n = in_qureg.qubits();
    let width = n as usize;
    let terms = term_coeffs.len();
    let total = all_pauli_codes.len();
    if terms == 0 || total % width != 0 || total / width != terms {
        proof {
            if total == terms * width {
                vstd::arithmetic::div_mod::lemma_fundamental_div_mod_converse(
                    total as int,
                    width as int,
                    terms as int,
                    0,
                );
            }
        }
        return Err(QuestError::InvalidInputError(InputFault::PauliTerms));
    }
    proof {
        vstd::arithmetic::div_mod::lemma_fundamental_div_mod(total as int, width as int);
        assert(terms * width == width * terms) by (nonlinear_arith);
    }
    if in_qureg.is_density != out_qureg.is_density || in_qureg.num_qubits != out_qureg.num_qubits {
        return Err(QuestError::InvalidInputError(InputFault::RegisterMismatch));
    }
    out_qureg.init_blank_state();
    let qubits = qubit_range(n);
    let len = out_qureg.amps.len();
    let ghost origin = in_qureg@.amps;
    let ghost nn = in_qureg@.num_qubits;
    let mut t: usize = 0;
    while t < terms
        invariant
            t <= terms,
            terms == term_coeffs@.len(),
            total == all_pauli_codes@.len(),
            total == terms * width,
            width == n,
            nn == n,
            in_qureg.wf(),
            out_qureg.wf(),
            old(in_qureg).reshaped(in_qureg),
            old(out_qureg).reshaped(out_qureg),
            in_qureg@.amps == origin,
            in_qureg@.num_qubits == nn,
            origin == old(in_qureg)@.amps,
            len == out_qureg@.amps.len(),
            len == in_qureg@.amps.len(),
            qubits@ == all_qubits(n as nat),
            all_ok(n as nat, qubits@),
            forall|acc: Qcomplex, item: (Qreal, Qcomplex)| call_requires(add_scaled, (acc, item)),
            forall|i: int|
                0 <= i < len ==> folded(
                    add_scaled,
                    sum_items(origin, all_pauli_codes@, term_coeffs@, nn, i).take(t as int),
                    Qcomplex::spec_zero(),
                    #[trigger] out_qureg@.amps[i],
                ),
        decreases terms - t,
    {
        assert(t * width + width <= terms * width) by (nonlinear_arith)
            requires
                t < terms,
        ;
        in_qureg.multiply_forward(qubits.as_slice(), all_pauli_codes, t * width);
        let ghost product = in_qureg@.amps;
        let ghost before = out_qureg@.amps;
        let weight = term_coeffs[t];
        let mut i: usize = 0;
        while i < len
            invariant
                i <= len,
                t < terms,
                terms == term_coeffs@.len(),
                weight == term_coeffs@[t as int],
                in_qureg.wf(),
                out_qureg.wf(),
                old(out_qureg).reshaped(out_qureg),
                in_qureg@.amps == product,
                in_qureg@.num_qubits == nn,
                origin.len() == len,
                width == nn,
                total == all_pauli_codes@.len(),
                t * width + width <= total,
                old(in_qureg).reshaped(in_qureg),
                qubits@ == all_qubits(nn),
                all_ok(nn, qubits@),
                product == pauli_product(
                    origin,
                    all_qubits(nn),
                    term_codes(all_pauli_codes@, nn, t as int),
                ),
                len == out_qureg@.amps.len(),
                len == in_qureg@.amps.len(),
                len == before.len(),
                forall|acc: Qcomplex, item: (Qreal, Qcomplex)|
                    call_requires(add_scaled, (acc, item)),
                forall|j: int|
                    0 <= j < len ==> folded(
                        add_scaled,
                        sum_items(origin, all_pauli_codes@, term_coeffs@, nn, j).take(t as int),
                        Qcomplex::spec_zero(),
                        #[trigger] before[j],
                    ),
                forall|j: int| i <= j < len ==> out_qureg@.amps[j] == before[j],
                forall|j: int|
                    0 <= j < i ==> folded(
                        add_scaled,
                        sum_items(origin, all_pauli_codes@, term_coeffs@, nn, j).take(t + 1),
                        Qcomplex::spec_zero(),
                        #[trigger] out_qureg@.amps[j],
                    ),
            decreases len - i,
        {
            let item = (weight, in_qureg.amps[i]);
            let acc = out_qureg.amps[i];
            let next = add_scaled(acc, item);
            out_qureg.amps[i] = next;
            proof {
                let items = sum_items(origin, all_pauli_codes@, term_coeffs@, nn, i as int);
                assert(folded(add_scaled, items.take(t as int), Qcomplex::spec_zero(), before[i as int]));
                lemma_fold_step(
                    add_scaled,
                    items.take(t as int),
                    Qcomplex::spec_zero(),
                    acc,
                    item,
                    next,
                );
                assert(items.take(t + 1) =~= items.take(t as int).push(item));
            }
            i += 1;
        }
        in_qureg.multiply_backward(qubits.as_slice(), all_pauli_codes, t * width, Ghost(origin));
        t += 1;
    }
    proof {
        assert forall|i: int| 0 <= i < len implies folded(
            add_scaled,
            sum_items(origin, all_pauli_codes@, term_coeffs@, nn, i),
            Qcomplex::spec_zero(),
            #[trigger] out_qureg@.amps[i],
        ) by {
            let items = sum_items(origin, all_pauli_codes@, term_coeffs@, nn, i);
            assert(items.take(terms as int) =~= items);
        }
    }
    Ok(())
}

/// A Hamiltonian given as a weighted sum of Pauli products on all the
/// qubits of a register.
#[derive(Debug)]
pub struct PauliHamil {
    num_qubits: u32,
    term_coeffs: Vec<Qreal>,
    pauli_codes: Vec<PauliOpType>,
}

/// What a Hamiltonian is: its number of qubits, the weight of each
/// term, and the codes of the terms, one per qubit, one term after the
/// other.
pub struct PauliHamilState {
    pub num_qubits: nat,
    pub term_coeffs: Seq<Qreal>,
    pub pauli_codes: Seq<PauliOpType>,
}

impl PauliHamilState {
    /// Validity: at least one qubit and one term, and one code per
    /// qubit and term.
    pub open spec fn wf(self) -> bool {
        &&& 1 <= self.num_qubits <= MAX_INDEX_BITS
        &&& sum_fault(self.num_qubits, self.pauli_codes.len(), self.term_coeffs.len()) is None
    }
}

impl View for PauliHamil {
    type V = PauliHamilState;

    closed spec fn view(&self) -> PauliHamilState {
        PauliHamilState {
            num_qubits: self.num_qubits as nat,
            term_coeffs: self.term_coeffs@,
            pauli_codes: self.pauli_codes@,
        }
    }
}

/// The failure of making a Hamiltonian, if any: a number of qubits
/// that no register has, or a fault of the sum.
pub open spec fn hamil_fault(num_qubits: int, codes: nat, terms: nat) -> Option<InputFault> {
    if num_qubits < 1 || num_qubits > MAX_INDEX_BITS {
        Some(InputFault::QubitCount)
    } else {
        sum_fault(num_qubits as nat, codes, terms)
    }
}

impl PauliHamil {
    /// Validity of the Hamiltonian: that of its model.
    pub open spec fn wf(&self) -> bool {
        self@.wf()
    }

    /// Makes a Hamiltonian on `num_qubits` qubits from the weights of its
    /// terms and their codes.
    ///
    /// Fails with `QubitCount` where `num_qubits` is below one or above
    /// what a register can have, and with `PauliTerms` where there is no
    /// term or not one code per qubit and term.
    pub fn try_new(num_qubits: i32, term_coeffs: Vec<Qreal>, pauli_codes: Vec<PauliOpType>) -> (res:
        Result<PauliHamil, QuestError>)
        ensures
            match hamil_fault(num_qubits as int, pauli_codes@.len(), term_coeffs@.len()) {
                Some(fault) => res == Err::<PauliHamil, QuestError>(
                    QuestError::InvalidInputError(fault),
                ),
                None => res matches Ok(h) && h.wf() && h@.num_qubits == num_qubits
                    && h@.term_coeffs == term_coeffs@ && h@.pauli_codes == pauli_codes@,
            },
    {
        if num_qubits < 1 || num_qubits > 62 {
            return Err(QuestError::InvalidInputError(InputFault::QubitCount));
        }
        let width = num_qubits as usize;
        let terms = term_coeffs.len();
        let total = pauli_codes.len();
        if terms == 0 || total % width != 0 || total / width != terms {
            proof {
                if total == terms * width {
                    vstd::arithmetic::div_mod::lemma_fundamental_div_mod_converse(
                        total as int,
                        width as int,
                        terms as int,
                        0,
                    );
                }
            }
            return Err(QuestError::InvalidInputError(InputFault::PauliTerms));
        }
        proof {
            vstd::arithmetic::div_mod::lemma_fundamental_div_mod(total as int, width as int);
            assert(terms * width == width * terms) by (nonlinear_arith);
        }
        Ok(PauliHamil { num_qubits: num_qubits as u32, term_coeffs, pauli_codes })
    }

    /// The number of qubits the Hamiltonian acts on.
    pub fn num_qubits(&self) -> (n: i32)
        requires
            self.wf(),
        ensures
            n == self@.num_qubits,
    {
        self.num_qubits as i32
    }

    /// The number of terms of the sum.
    pub fn num_sum_terms(&self) -> (n: usize)
        ensures
            n == self@.term_coeffs.len(),
    {
        self.term_coeffs.len()
    }

    /// The weights of the terms.
    pub fn term_coeffs(&self) -> (coeffs: &[Qreal])
        ensures
            coeffs@ == self@.term_coeffs,
    {
        self.term_coeffs.as_slice()
    }

    /// The codes of the terms, one per qubit, one term after the other.
    pub fn pauli_codes(&self) -> (codes: &[PauliOpType])
        ensures
            codes@ == self@.pauli_codes,
    {
        self.pauli_codes.as_slice()
    }
}

/// Sets `out_qureg` to the Hamiltonian `hamil` applied to `in_qureg`,
/// as `apply_pauli_sum` does for its terms.
///
/// Fails, and changes nothing, with `RegisterMismatch` where `hamil`
/// acts on another number of qubits than `in_qureg` has, or where the
/// two registers differ in kind or in their number of qubits.
pub fn apply_pauli_hamil<F: Fn(Qcomplex, (Qreal, Qcomplex)) -> Qcomplex>(
    in_qureg: &mut Qureg<'_>,
    hamil: &PauliHamil,
    out_qureg: &mut Qureg<'_>,
    add_scaled: F,
) -> (res: Result<(), QuestError>)
    requires
        old(in_qureg).wf(),
        old(out_qureg).wf(),
        hamil.wf(),
        forall|acc: Qcomplex, item: (Qreal, Qcomplex)| call_requires(add_scaled, (acc, item)),
    ensures
        old(in_qureg).reshaped(final(in_qureg)),
        old(out_qureg).reshaped(final(out_qureg)),
        final(in_qureg)@ == old(in_qureg)@,
        res is Ok <==> hamil@.num_qubits == old(in_qureg)@.num_qubits && old(in_qureg)@.same_shape(
            old(out_qureg)@,
        ),
        res is Err ==> res == Err::<(), QuestError>(
            QuestError::InvalidInputError(InputFault::RegisterMismatch),
        ) && final(out_qureg)@ == old(out_qureg)@,
        res is Ok ==> forall|i: int|
            0 <= i < old(out_qureg)@.amps.len() ==> folded(
                add_scaled,
                sum_items(
                    old(in_qureg)@.amps,
                    hamil@.pauli_codes,
                    hamil@.term_coeffs,
                    old(in_qureg)@.num_qubits,
                    i,
                ),
                Qcomplex::spec_zero(),
                #[trigger] final(out_qureg)@.amps[i],
            ),
{
    let n = in_qureg.qubits();
    if hamil.num_qubits != n {
        return Err(QuestError::InvalidInputError(InputFault::RegisterMismatch));
    }
    apply_pauli_sum(
        in_qureg,
        hamil.pauli_codes.as_slice(),
        hamil.term_coeffs.as_slice(),
        out_qureg,
        add_scaled,
    )
}

} // verus!
