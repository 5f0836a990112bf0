//! Gates whose arithmetic the caller supplies.
//!
//! A rotation, a general unitary, a Kraus map or a phase function
//! multiplies and adds amplitudes. That arithmetic is handed in as a
//! function; the register checks the qubit arguments, finds the
//! amplitudes that belong together, and applies the function to them.
//! The contracts say to which amplitudes it was applied, and that no
//! other amplitude changed.
//!
//! On a density matrix a gate acts on the rows and then, with the
//! conjugate matrix, on the columns; the caller hands in one function for
//! each side.

use vstd::prelude::*;
use crate::amplitude::Qcomplex;
use crate::bits::{
    bit, lemma_bit_below_span, lemma_masks, lemma_not_selection, lemma_shifted, lemma_span_is_pow2,
    lemma_zero_mask, span, MAX_INDEX_BITS,
};
use crate::blocks::{target_bits, union};
use crate::error::{InputFault, QuestError};
use crate::kernel::{
    block_fn, block_mapped, key_mapped, map_blocks, map_keyed, map_pairs, map_selected,
    pair_mapped,
};
use crate::qureg::Qureg;
use crate::state::QuregState;
use crate::validate::{
    bits_of, bits_of_list, check_controls_target, check_gate, check_list, check_states,
    gate_fault, lemma_bits_of, lemma_mask_of_members, list_fault, mask_of, qubit_ok,
    states_fault, value_of,
};

verus! {

/// `after` is `before` after a step on the row bits that satisfies
/// `rows` and, for a density matrix, a step on the column bits that
/// satisfies `cols`.
pub open spec fn two_sided(
    before: QuregState,
    after: QuregState,
    rows: spec_fn(Seq<Qcomplex>, Seq<Qcomplex>) -> bool,
    cols: spec_fn(Seq<Qcomplex>, Seq<Qcomplex>) -> bool,
) -> bool {
    &&& after.same_shape(before)
    &&& if before.is_density {
        exists|mid: Seq<Qcomplex>| #[trigger] rows(before.amps, mid) && cols(mid, after.amps)
    } else {
        rows(before.amps, after.amps)
    }
}

/// The first rule that a gate with controls in given states breaks:
/// what holds of the qubits first, then what holds of the states.
pub open spec fn state_gate_fault(n: nat, ctrls: Seq<i32>, states: Seq<i32>, target: i32) -> Option<
    InputFault,
> {
    if gate_fault(n, ctrls, seq![target]) is Some {
        gate_fault(n, ctrls, seq![target])
    } else {
        states_fault(ctrls, states)
    }
}

/// The first rule that a gate breaks which must have at least one
/// control and one target: neither list is empty, then what holds of
/// the qubits of any gate.
pub open spec fn controlled_gate_fault(n: nat, ctrls: Seq<i32>, targs: Seq<i32>) -> Option<
    InputFault,
> {
    if ctrls.len() == 0 || targs.len() == 0 {
        Some(InputFault::ListLength)
    } else {
        gate_fault(n, ctrls, targs)
    }
}

/// The first rule that a gate given by a matrix breaks: what holds of
/// its qubits, that the matrix acts on as many qubits as there are
/// targets, and that it is unitary.
pub open spec fn unitary_fault(
    n: nat,
    ctrls: Seq<i32>,
    targs: Seq<i32>,
    matrix_qubits: nat,
    unitary: bool,
) -> Option<InputFault> {
    if gate_fault(n, ctrls, targs) is Some {
        gate_fault(n, ctrls, targs)
    } else if matrix_qubits != targs.len() {
        Some(InputFault::MatrixSize)
    } else if !unitary {
        Some(InputFault::NotUnitary)
    } else {
        None
    }
}

/// The first rule that a channel on the qubits `targs` breaks: that the
/// register is a density matrix, then the rules of the target list.
pub open spec fn channel_fault(s: QuregState, targs: Seq<i32>) -> Option<InputFault> {
    if !s.is_density {
        Some(InputFault::NotDensityMatrix)
    } else {
        list_fault(s.num_qubits, targs)
    }
}

/// The row bits of a valid list of qubits, followed by their column
/// bits, are target bits of the density matrix.
pub proof fn lemma_channel_bits(n: nat, targs: Seq<i32>)
    requires
        list_fault(n, targs) is None,
        2 * n <= MAX_INDEX_BITS,
    ensures
        target_bits(bits_of(targs, 0) + bits_of(targs, n), 2 * n),
{
    let rows = bits_of(targs, 0);
    let cols = bits_of(targs, n);
    let all = rows + cols;
    lemma_bits_of(n, targs, 0, 2 * n);
    lemma_bits_of(n, targs, n, 2 * n);
    assert forall|m: int| 0 <= m < all.len() implies crate::blocks::single_bit(
        #[trigger] all[m],
        2 * n,
    ) by {
        if m < rows.len() {
            assert(all[m] == rows[m]);
        } else {
            assert(all[m] == cols[m - rows.len()]);
        }
    }
    assert forall|a: int, b: int| 0 <= a < b < all.len() implies all[a] != all[b] by {
        if b < rows.len() {
            assert(all[a] == rows[a] && all[b] == rows[b]);
        } else if a >= rows.len() {
            assert(all[a] == cols[a - rows.len()] && all[b] == cols[b - rows.len()]);
        } else {
            let qa = targs[a];
            let qb = targs[b - rows.len()];
            assert(qubit_ok(n, qa) && qubit_ok(n, qb));
            assert(all[a] == bit(qa as nat) && all[b] == bit((qb + n) as nat));
            crate::bits::lemma_bits_apart(qa as nat, (qb + n) as nat);
            let (x, y) = (all[a], all[b]);
            lemma_masks(x, y, 0);
        }
    }
}

impl<'a> Qureg<'a> {
    /// Checks the controls and the targets of a gate without applying
    /// anything, so that a caller can check its own arguments after the
    /// qubits and before the register changes.
    pub fn check_gate_qubits(&self, ctrls: &[i32], targs: &[i32]) -> (res: Result<(), QuestError>)
        requires
            self.wf(),
        ensures
            res == (match gate_fault(self@.num_qubits, ctrls@, targs@) {
                Some(fault) => Err::<(), QuestError>(QuestError::InvalidInputError(fault)),
                None => Ok(()),
            }),
    {
        let n = self.qubits();
        match check_gate(n, ctrls, targs) {
            Ok(_) => Ok(()),
            Err(fault) => Err(QuestError::InvalidInputError(fault)),
        }
    }

    /// Checks the qubits of a gate that must have at least one control
    /// and one target, without applying anything.
    pub fn check_controlled_gate_qubits(&self, ctrls: &[i32], targs: &[i32]) -> (res: Result<
        (),
        QuestError,
    >)
        requires
            self.wf(),
        ensures
            res == (match controlled_gate_fault(self@.num_qubits, ctrls@, targs@) {
                Some(fault) => Err::<(), QuestError>(QuestError::InvalidInputError(fault)),
                None => Ok(()),
            }),
    {
        if ctrls.len() == 0 || targs.len() == 0 {
            return Err(QuestError::InvalidInputError(InputFault::ListLength));
        }
        self.check_gate_qubits(ctrls, targs)
    }

    /// Checks a gate that is given by a matrix, without applying
    /// anything: the qubits first, then that the matrix acts on as many
    /// qubits as there are targets, then that it is unitary, which the
    /// caller has found out.
    pub fn check_unitary_gate(
        &self,
        ctrls: &[i32],
        targs: &[i32],
        matrix_qubits: usize,
        unitary: bool,
    ) -> (res: Result<(), QuestError>)
        requires
            self.wf(),
        ensures
            res == (match unitary_fault(
                self@.num_qubits,
                ctrls@,
                targs@,
                matrix_qubits as nat,
                unitary,
            ) {
                Some(fault) => Err::<(), QuestError>(QuestError::InvalidInputError(fault)),
                None => Ok(()),
            }),
    {
        let n = self.qubits();
        match check_gate(n, ctrls, targs) {
            Ok(_) => {},
            Err(fault) => {
                return Err(QuestError::InvalidInputError(fault));
            },
        }
        if matrix_qubits != targs.len() {
            return Err(QuestError::InvalidInputError(InputFault::MatrixSize));
        }
        if !unitary {
            return Err(QuestError::InvalidInputError(InputFault::NotUnitary));
        }
        Ok(())
    }

    /// Checks the controls, their states and the target of a gate
    /// without applying anything.
    pub fn check_state_gate_qubits(&self, ctrls: &[i32], states: &[i32], target: i32) -> (res:
        Result<(), QuestError>)
        requires
            self.wf(),
        ensures
            res == (match state_gate_fault(self@.num_qubits, ctrls@, states@, target) {
                Some(fault) => Err::<(), QuestError>(QuestError::InvalidInputError(fault)),
                None => Ok(()),
            }),
    {
        let n = self.qubits();
        match check_controls_target(n, ctrls, target) {
            Err(fault) => Err(QuestError::InvalidInputError(fault)),
            Ok(_) => {
                proof {
                    assert forall|k: int| 0 <= k < ctrls@.len() implies 0 <= #[trigger] ctrls@[k]
                        < 64 by {
                        assert(qubit_ok(n as nat, ctrls@[k]));
                    }
                }
                match check_states(ctrls, states) {
                    Err(fault) => Err(QuestError::InvalidInputError(fault)),
                    Ok(_) => Ok(()),
                }
            },
        }
    }

    /// Applies `f` to every amplitude.
    pub fn map_amps<F: Fn(Qcomplex) -> Qcomplex>(&mut self, f: F)
        requires
            old(self).wf(),
            forall|a: Qcomplex| call_requires(f, (a,)),
        ensures
            old(self).reshaped(final(self)),
            forall|i: int|
                0 <= i < old(self)@.amps.len() ==> call_ensures(
                    f,
                    (old(self)@.amps[i],),
                    #[trigger] final(self)@.amps[i],
                ),
    {
        let ghost start = self@.amps;
        proof {
            self.lemma_layout();
        }
        map_selected(&mut self.amps, 0, 0, f);
        proof {
            lemma_span_is_pow2(self@.index_bits());
            assert forall|i: int| 0 <= i < start.len() implies call_ensures(
                f,
                (start[i],),
                #[trigger] self@.amps[i],
            ) by {
                let x = i as u64;
                lemma_zero_mask(x, 0);
                assert(crate::bits::selected(x, 0, 0));
            }
        }
    }

    /// Sweeps the pairs of one target over the rows and, for a density
    /// matrix, over the columns.
    fn sweep_pairs<F, G>(
        &mut self,
        mask: u64,
        value: u64,
        target: u32,
        on_rows: F,
        on_cols: Option<G>,
    ) where
        F: Fn(Qcomplex, Qcomplex) -> (Qcomplex, Qcomplex),
        G: Fn(Qcomplex, Qcomplex) -> (Qcomplex, Qcomplex),

        requires
            old(self).wf(),
            mask < span(old(self)@.num_qubits),
            value < span(old(self)@.num_qubits),
            target < old(self)@.num_qubits,
            mask & bit(target as nat) == 0,
            forall|a: Qcomplex, b: Qcomplex| call_requires(on_rows, (a, b)),
            forall|a: Qcomplex, b: Qcomplex, g: G|
                on_cols == Some(g) ==> call_requires(g, (a, b)),
        ensures
            old(self).reshaped(final(self)),
            match on_cols {
                Some(g) => two_sided(
                    old(self)@,
                    final(self)@,
                    |a: Seq<Qcomplex>, b: Seq<Qcomplex>|
                        pair_mapped(
                            a,
                            b,
                            mask | bit(target as nat),
                            value,
                            bit(target as nat),
                            on_rows,
                        ),
                    |a: Seq<Qcomplex>, b: Seq<Qcomplex>|
                        pair_mapped(
                            a,
                            b,
                            old(self)@.col(mask | bit(target as nat)),
                            old(self)@.col(value),
                            old(self)@.col(bit(target as nat)),
                            g,
                        ),
                ),
                None => pair_mapped(
                    old(self)@.amps,
                    final(self)@.amps,
                    mask | bit(target as nat),
                    value,
                    bit(target as nat),
                    on_rows,
                ),
            },
    {
        let n: u32 = self.qubits();
        let nb: u32 = self.index_bits();
        let t: u64 = 1u64 << (target as u64);
        proof {
            lemma_bit_below_span(target as nat, n as nat);
            lemma_zero_mask(0, t);
            lemma_not_selection(0, mask, target as nat, t);
            if self@.is_density {
                lemma_shifted(mask, t, target as nat, n as nat);
                lemma_shifted(value, t, target as nat, n as nat);
                lemma_not_selection(0, mask << (n as u64), (target + n) as nat, t << (n as u64));
            }
        }
        let ghost start = self@.amps;
        map_pairs(&mut self.amps, nb, mask | t, value, t, on_rows);
        if self.is_density {
            match on_cols {
                Some(g) => {
                    let ghost mid = self.amps@;
                    let cm: u64 = (mask | t) << (n as u64);
                    let cv: u64 = value << (n as u64);
                    let ct: u64 = t << (n as u64);
                    map_pairs(&mut self.amps, nb, cm, cv, ct, g);
                    proof {
                        let rows = |a: Seq<Qcomplex>, b: Seq<Qcomplex>|
                            pair_mapped(a, b, mask | bit(target as nat), value, bit(target as nat), on_rows);
                        let cols = |a: Seq<Qcomplex>, b: Seq<Qcomplex>|
                            pair_mapped(
                                a,
                                b,
                                old(self)@.col(mask | bit(target as nat)),
                                old(self)@.col(value),
                                old(self)@.col(bit(target as nat)),
                                g,
                            );
                        assert(rows(start, mid) && cols(mid, self@.amps));
                    }
                },
                None => {},
            }
        }
    }

    /// Applies a one-qubit map to `target` where all of `ctrls` are one.
    ///
    /// For every pair of basis states that differ only in `target` and
    /// in which all of `ctrls` are one, `on_rows` is given the amplitude
    /// with `target` zero and the one with `target` one, and returns
    /// their new values in that order. On a density matrix the same is
    /// then done on the column bits with `on_cols`.
    ///
    /// Fails, and changes nothing, with the first of: `QubitIndex` for
    /// the target, the faults of `ctrls` as a list of qubits, and
    /// `ControlTargetOverlap`.
    pub fn apply_to_pairs<F, G>(
        &mut self,
        ctrls: &[i32],
        target: i32,
        on_rows: F,
        on_cols: G,
    ) -> (res: Result<(), QuestError>) where
        F: Fn(Qcomplex, Qcomplex) -> (Qcomplex, Qcomplex),
        G: Fn(Qcomplex, Qcomplex) -> (Qcomplex, Qcomplex),

        requires
            old(self).wf(),
            forall|a: Qcomplex, b: Qcomplex| call_requires(on_rows, (a, b)),
            forall|a: Qcomplex, b: Qcomplex| call_requires(on_cols, (a, b)),
        ensures
            old(self).reshaped(final(self)),
            match gate_fault(old(self)@.num_qubits, ctrls@, seq![target]) {
                Some(fault) => res == Err::<(), QuestError>(QuestError::InvalidInputError(fault))
                    && final(self)@ == old(self)@,
                None => res is Ok && two_sided(
                    old(self)@,
                    final(self)@,
                    |a: Seq<Qcomplex>, b: Seq<Qcomplex>|
                        pair_mapped(
                            a,
                            b,
                            mask_of(ctrls@) | bit(target as nat),
                            mask_of(ctrls@),
                            bit(target as nat),
                            on_rows,
                        ),
                    |a: Seq<Qcomplex>, b: Seq<Qcomplex>|
                        pair_mapped(
                            a,
                            b,
                            old(self)@.col(mask_of(ctrls@) | bit(target as nat)),
                            old(self)@.col(mask_of(ctrls@)),
                            old(self)@.col(bit(target as nat)),
                            on_cols,
                        ),
                ),
            },
    {
        let n = self.qubits();
        match check_controls_target(n, ctrls, target) {
            Err(fault) => Err(QuestError::InvalidInputError(fault)),
            Ok((cm, _)) => {
                self.sweep_pairs(cm, cm, target as u32, on_rows, Some(on_cols));
                Ok(())
            },
        }
    }

    /// Applies a one-qubit map to `target` where each control
    /// `ctrls[k]` has the value `states[k]`.
    ///
    /// Fails, and changes nothing, with the first of: the faults of
    /// `apply_to_pairs`, `ListLength` where `states` has not one entry
    /// per control, and `ControlState` where an entry is neither zero
    /// nor one.
    pub fn apply_to_pairs_in_state<F, G>(
        &mut self,
        ctrls: &[i32],
        states: &[i32],
        target: i32,
        on_rows: F,
        on_cols: G,
    ) -> (res: Result<(), QuestError>) where
        F: Fn(Qcomplex, Qcomplex) -> (Qcomplex, Qcomplex),
        G: Fn(Qcomplex, Qcomplex) -> (Qcomplex, Qcomplex),

        requires
            old(self).wf(),
            forall|a: Qcomplex, b: Qcomplex| call_requires(on_rows, (a, b)),
            forall|a: Qcomplex, b: Qcomplex| call_requires(on_cols, (a, b)),
        ensures
            old(self).reshaped(final(self)),
            match state_gate_fault(old(self)@.num_qubits, ctrls@, states@, target) {
                Some(fault) => res == Err::<(), QuestError>(QuestError::InvalidInputError(fault))
                    && final(self)@ == old(self)@,
                None => res is Ok && two_sided(
                    old(self)@,
                    final(self)@,
                    |a: Seq<Qcomplex>, b: Seq<Qcomplex>|
                        pair_mapped(
                            a,
                            b,
                            mask_of(ctrls@) | bit(target as nat),
                            value_of(ctrls@, states@),
                            bit(target as nat),
                            on_rows,
                        ),
                    |a: Seq<Qcomplex>, b: Seq<Qcomplex>|
                        pair_mapped(
                            a,
                            b,
                            old(self)@.col(mask_of(ctrls@) | bit(target as nat)),
                            old(self)@.col(value_of(ctrls@, states@)),
                            old(self)@.col(bit(target as nat)),
                            on_cols,
                        ),
                ),
            },
    {
        let n = self.qubits();
        match check_controls_target(n, ctrls, target) {
            Err(fault) => Err(QuestError::InvalidInputError(fault)),
            Ok((cm, _)) => {
                proof {
                    assert forall|k: int| 0 <= k < ctrls@.len() implies 0 <= #[trigger] ctrls@[k]
                        < 64 by {
                        assert(qubit_ok(n as nat, ctrls@[k]));
                    }
                }
                match check_states(ctrls, states) {
                    Err(fault) => Err(QuestError::InvalidInputError(fault)),
                    Ok(value) => {
                        proof {
                            lemma_masks(value, cm, 0);
                            let tb = bit(target as nat);
                            lemma_masks(value, tb, cm);
                        }
                        self.sweep_pairs(cm, value, target as u32, on_rows, Some(on_cols));
                        Ok(())
                    },
                }
            },
        }
    }

    /// Applies a one-qubit map to `target` where all of `ctrls` are one,
    /// on the row bits only: a density matrix is multiplied from the
    /// left and not from the right.
    ///
    /// Fails as `apply_to_pairs` does.
    pub fn apply_to_pairs_on_left<F>(&mut self, ctrls: &[i32], target: i32, on_rows: F) -> (res:
        Result<(), QuestError>) where F: Fn(Qcomplex, Qcomplex) -> (Qcomplex, Qcomplex)
        requires
            old(self).wf(),
            forall|a: Qcomplex, b: Qcomplex| call_requires(on_rows, (a, b)),
        ensures
            old(self).reshaped(final(self)),
            match gate_fault(old(self)@.num_qubits, ctrls@, seq![target]) {
                Some(fault) => res == Err::<(), QuestError>(QuestError::InvalidInputError(fault))
                    && final(self)@ == old(self)@,
                None => res is Ok && pair_mapped(
                    old(self)@.amps,
                    final(self)@.amps,
                    mask_of(ctrls@) | bit(target as nat),
                    mask_of(ctrls@),
                    bit(target as nat),
                    on_rows,
                ),
            },
    {
        let n = self.qubits();
        match check_controls_target(n, ctrls, target) {
            Err(fault) => Err(QuestError::InvalidInputError(fault)),
            Ok((cm, _)) => {
                self.sweep_pairs(cm, cm, target as u32, on_rows, None::<F>);
                Ok(())
            },
        }
    }

    /// Sweeps the blocks of the targets over the rows and, for a density
    /// matrix, over the columns.
    fn sweep_blocks<F, G>(&mut self, mask: u64, targs: &[i32], on_rows: F, on_cols: Option<G>) where
        F: Fn(Vec<Qcomplex>) -> Vec<Qcomplex>,
        G: Fn(Vec<Qcomplex>) -> Vec<Qcomplex>,

        requires
            old(self).wf(),
            mask < span(old(self)@.num_qubits),
            list_fault(old(self)@.num_qubits, targs@) is None,
            mask & mask_of(targs@) == 0,
            block_fn(on_rows, targs@.len()),
            forall|g: G| on_cols == Some(g) ==> block_fn(g, targs@.len()),
        ensures
            old(self).reshaped(final(self)),
            match on_cols {
                Some(g) => two_sided(
                    old(self)@,
                    final(self)@,
                    |a: Seq<Qcomplex>, b: Seq<Qcomplex>|
                        block_mapped(a, b, mask, mask, bits_of(targs@, 0), on_rows),
                    |a: Seq<Qcomplex>, b: Seq<Qcomplex>|
                        block_mapped(
                            a,
                            b,
                            old(self)@.col(mask),
                            old(self)@.col(mask),
                            bits_of(targs@, old(self)@.num_qubits),
                            g,
                        ),
                ),
                None => block_mapped(
                    old(self)@.amps,
                    final(self)@.amps,
                    mask,
                    mask,
                    bits_of(targs@, 0),
                    on_rows,
                ),
            },
    {
        let n: u32 = self.qubits();
        let nb: u32 = self.index_bits();
        let ghost tm = mask_of(targs@);
        proof {
            lemma_bits_of(n as nat, targs@, 0, nb as nat);
            lemma_zero_mask(0, tm);
            lemma_masks(tm, 0, 0);
        }
        let tbits = bits_of_list(n, targs, 0);
        let ghost start = self@.amps;
        map_blocks(&mut self.amps, nb, mask, mask, &tbits, on_rows);
        if self.is_density {
            match on_cols {
                Some(g) => {
                    let ghost mid = self.amps@;
                    proof {
                        lemma_bits_of(n as nat, targs@, n as nat, nb as nat);
                        assert(qubit_ok(n as nat, 0));
                        lemma_mask_of_members(n as nat, targs@, 0);
                        lemma_shifted(mask, tm, 0, n as nat);
                    }
                    let cbits = bits_of_list(n, targs, n);
                    let cm: u64 = mask << (n as u64);
                    map_blocks(&mut self.amps, nb, cm, cm, &cbits, g);
                    proof {
                        let rows = |a: Seq<Qcomplex>, b: Seq<Qcomplex>|
                            block_mapped(a, b, mask, mask, bits_of(targs@, 0), on_rows);
                        let cols = |a: Seq<Qcomplex>, b: Seq<Qcomplex>|
                            block_mapped(
                                a,
                                b,
                                old(self)@.col(mask),
                                old(self)@.col(mask),
                                bits_of(targs@, old(self)@.num_qubits),
                                g,
                            );
                        assert(rows(start, mid) && cols(mid, self@.amps));
                    }
                },
                None => {},
            }
        }
    }

    /// Applies a map on the joint state of the qubits `targs` where all
    /// of `ctrls` are one.
    ///
    /// The basis states that agree outside `targs`, and in which all of
    /// `ctrls` are one, form blocks of `2^k` amplitudes, `k` the number
    /// of targets. `on_rows` is given the amplitudes of a block, ordered
    /// by the number that the targets spell with `targs[0]` as least
    /// significant bit, and returns their new values in that order. On a
    /// density matrix the same is then done on the column bits with
    /// `on_cols`.
    ///
    /// Fails, and changes nothing, with the first of: the faults of
    /// `targs` as a list of qubits, those of `ctrls`, and
    /// `ControlTargetOverlap`.
    pub fn apply_to_blocks<F, G>(
        &mut self,
        ctrls: &[i32],
        targs: &[i32],
        on_rows: F,
        on_cols: G,
    ) -> (res: Result<(), QuestError>) where
        F: Fn(Vec<Qcomplex>) -> Vec<Qcomplex>,
        G: Fn(Vec<Qcomplex>) -> Vec<Qcomplex>,

        requires
            old(self).wf(),
            block_fn(on_rows, targs@.len()),
            block_fn(on_cols, targs@.len()),
        ensures
            old(self).reshaped(final(self)),
            match gate_fault(old(self)@.num_qubits, ctrls@, targs@) {
                Some(fault) => res == Err::<(), QuestError>(QuestError::InvalidInputError(fault))
                    && final(self)@ == old(self)@,
                None => res is Ok && two_sided(
                    old(self)@,
                    final(self)@,
                    |a: Seq<Qcomplex>, b: Seq<Qcomplex>|
                        block_mapped(
                            a,
                            b,
                            mask_of(ctrls@),
                            mask_of(ctrls@),
                            bits_of(targs@, 0),
                            on_rows,
                        ),
                    |a: Seq<Qcomplex>, b: Seq<Qcomplex>|
                        block_mapped(
                            a,
                            b,
                            old(self)@.col(mask_of(ctrls@)),
                            old(self)@.col(mask_of(ctrls@)),
                            bits_of(targs@, old(self)@.num_qubits),
                            on_cols,
                        ),
                ),
            },
    {
        let n = self.qubits();
        match check_gate(n, ctrls, targs) {
            Err(fault) => Err(QuestError::InvalidInputError(fault)),
            Ok((cm, _)) => {
                self.sweep_blocks(cm, targs, on_rows, Some(on_cols));
                Ok(())
            },
        }
    }

    /// Applies a map on the joint state of the qubits `targs` where all
    /// of `ctrls` are one, on the row bits only: a density matrix is
    /// multiplied from the left and not from the right.
    ///
    /// Fails as `apply_to_blocks` does.
    pub fn apply_to_blocks_on_left<F>(&mut self, ctrls: &[i32], targs: &[i32], on_rows: F) -> (res:
        Result<(), QuestError>) where F: Fn(Vec<Qcomplex>) -> Vec<Qcomplex>
        requires
            old(self).wf(),
            block_fn(on_rows, targs@.len()),
        ensures
            old(self).reshaped(final(self)),
            match gate_fault(old(self)@.num_qubits, ctrls@, targs@) {
                Some(fault) => res == Err::<(), QuestError>(QuestError::InvalidInputError(fault))
                    && final(self)@ == old(self)@,
                None => res is Ok && block_mapped(
                    old(self)@.amps,
                    final(self)@.amps,
                    mask_of(ctrls@),
                    mask_of(ctrls@),
                    bits_of(targs@, 0),
                    on_rows,
                ),
            },
    {
        let n = self.qubits();
        match check_gate(n, ctrls, targs) {
            Err(fault) => Err(QuestError::InvalidInputError(fault)),
            Ok((cm, _)) => {
                self.sweep_blocks(cm, targs, on_rows, None::<F>);
                Ok(())
            },
        }
    }

    /// Applies a map that depends on the values of the qubits `qubits`
    /// to every amplitude in which all of `ctrls` are one.
    ///
    /// `on_rows` is given the number that `qubits` spell in the basis
    /// state, `qubits[0]` being the least significant bit, and the
    /// amplitude, and returns the new amplitude. On a density matrix the
    /// same is then done on the column bits with `on_cols`.
    ///
    /// Fails, and changes nothing, with the first of: the faults of
    /// `qubits` as a list of qubits, those of `ctrls`, and
    /// `ControlTargetOverlap`.
    pub fn apply_by_key<F, G>(
        &mut self,
        ctrls: &[i32],
        qubits: &[i32],
        on_rows: F,
        on_cols: G,
    ) -> (res: Result<(), QuestError>) where
        F: Fn(u64, Qcomplex) -> Qcomplex,
        G: Fn(u64, Qcomplex) -> Qcomplex,

        requires
            old(self).wf(),
            forall|key: u64, a: Qcomplex| call_requires(on_rows, (key, a)),
            forall|key: u64, a: Qcomplex| call_requires(on_cols, (key, a)),
        ensures
            old(self).reshaped(final(self)),
            match gate_fault(old(self)@.num_qubits, ctrls@, qubits@) {
                Some(fault) => res == Err::<(), QuestError>(QuestError::InvalidInputError(fault))
                    && final(self)@ == old(self)@,
                None => res is Ok && two_sided(
                    old(self)@,
                    final(self)@,
                    |a: Seq<Qcomplex>, b: Seq<Qcomplex>|
                        key_mapped(
                            a,
                            b,
                            mask_of(ctrls@),
                            mask_of(ctrls@),
                            bits_of(qubits@, 0),
                            on_rows,
                        ),
                    |a: Seq<Qcomplex>, b: Seq<Qcomplex>|
                        key_mapped(
                            a,
                            b,
                            old(self)@.col(mask_of(ctrls@)),
                            old(self)@.col(mask_of(ctrls@)),
                            bits_of(qubits@, old(self)@.num_qubits),
                            on_cols,
                        ),
                ),
            },
    {
        let n = self.qubits();
        proof {
            self.lemma_layout();
        }
        match check_gate(n, ctrls, qubits) {
            Err(fault) => Err(QuestError::InvalidInputError(fault)),
            Ok((cm, _)) => {
                let tbits = bits_of_list(n, qubits, 0);
                let ghost start = self@.amps;
                map_keyed(&mut self.amps, cm, cm, &tbits, on_rows);
                if self.is_density {
                    let ghost mid = self.amps@;
                    let cbits = bits_of_list(n, qubits, n);
                    let ccm: u64 = cm << (n as u64);
                    map_keyed(&mut self.amps, ccm, ccm, &cbits, on_cols);
                    proof {
                        let rows = |a: Seq<Qcomplex>, b: Seq<Qcomplex>|
                            key_mapped(
                                a,
                                b,
                                mask_of(ctrls@),
                                mask_of(ctrls@),
                                bits_of(qubits@, 0),
                                on_rows,
                            );
                        let cols = |a: Seq<Qcomplex>, b: Seq<Qcomplex>|
                            key_mapped(
                                a,
                                b,
                                old(self)@.col(mask_of(ctrls@)),
                                old(self)@.col(mask_of(ctrls@)),
                                bits_of(qubits@, old(self)@.num_qubits),
                                on_cols,
                            );
                        assert(rows(start, mid) && cols(mid, self@.amps));
                    }
                }
                Ok(())
            },
        }
    }

    /// Applies a channel on the qubits `targs` of a density matrix.
    ///
    /// The entries whose rows and columns agree outside `targs` form
    /// blocks of `4^k` entries, `k` the number of targets. `f` is given
    /// the entries of a block, ordered by the number that the row bits
    /// of the targets, followed by their column bits, spell, and returns
    /// their new values in that order.
    ///
    /// Fails, and changes nothing, with `NotDensityMatrix` on a
    /// state-vector, and else with the first fault of `targs` as a list
    /// of qubits.
    pub fn apply_channel<F>(&mut self, targs: &[i32], f: F) -> (res: Result<(), QuestError>) where
        F: Fn(Vec<Qcomplex>) -> Vec<Qcomplex>,

        requires
            old(self).wf(),
            block_fn(f, 2 * targs@.len()),
        ensures
            old(self).reshaped(final(self)),
            match channel_fault(old(self)@, targs@) {
                Some(fault) => res == Err::<(), QuestError>(QuestError::InvalidInputError(fault))
                    && final(self)@ == old(self)@,
                None => res is Ok && block_mapped(
                    old(self)@.amps,
                    final(self)@.amps,
                    0,
                    0,
                    bits_of(targs@, 0) + bits_of(targs@, old(self)@.num_qubits),
                    f,
                ),
            },
    {
        if !self.is_density {
            return Err(QuestError::InvalidInputError(InputFault::NotDensityMatrix));
        }
        let n = self.qubits();
        let nb = self.index_bits();
        match check_list(n, targs) {
            Err(fault) => Err(QuestError::InvalidInputError(fault)),
            Ok(_) => {
                let mut tbits = bits_of_list(n, targs, 0);
                let cbits = bits_of_list(n, targs, n);
                let mut m: usize = 0;
                while m < cbits.len()
                    invariant
                        m <= cbits@.len(),
                        tbits@ == bits_of(targs@, 0) + cbits@.take(m as int),
                    decreases cbits@.len() - m,
                {
                    tbits.push(cbits[m]);
                    assert(cbits@.take(m + 1) =~= cbits@.take(m as int).push(cbits@[m as int]));
                    assert(tbits@ =~= bits_of(targs@, 0) + cbits@.take(m + 1));
                    m += 1;
                }
                proof {
                    assert(cbits@.take(cbits@.len() as int) =~= cbits@);
                    lemma_channel_bits(n as nat, targs@);
                    lemma_zero_mask(0, union(tbits@));
                }
                map_blocks(&mut self.amps, nb, 0, 0, &tbits, f);
                Ok(())
            },
        }
    }
}

} // verus!
