//! The gates that move amplitudes or turn them by quarter turns.
//!
//! Pauli X, Y and Z, the S gate, controlled NOT, SWAP, phase flips and
//! projectors permute amplitudes, flip their signs or set them to zero.
//! None of that needs arithmetic, so these gates are exact, and their
//! contracts give every amplitude of the result.

use vstd::prelude::*;
use crate::amplitude::Qcomplex;
use crate::bits::{
    all_set, bit, flipped, lemma_bit_below_span, lemma_flip_twice, lemma_not_selection,
    lemma_ops_below_span, lemma_shifted, lemma_single_bit, lemma_span_is_pow2,
    lemma_swap_selection, lemma_zero_mask, selected, span, MAX_INDEX_BITS,
};
use crate::error::{InputFault, QuestError};
use crate::kernel::{map_pairs, map_selected, pair_mapped, point_mapped};
use crate::qureg::Qureg;
use crate::state::{
    amps_negate, amps_not, amps_project, amps_quarter, amps_swap, amps_y, QuregState,
};
use crate::validate::{
    check_control_target, check_gate, check_list, check_qubit, check_two_targets,
    control_target_fault, gate_fault, lemma_mask_of_members, list_fault, mask_of, outcome_fault,
    qubit_ok, two_targets_fault,
};

verus! {

/// Trades the two amplitudes of a pair.
pub fn swap_pair(a: Qcomplex, b: Qcomplex) -> (r: (Qcomplex, Qcomplex))
    ensures
        r == (b, a),
{
    (b, a)
}

/// The Pauli Y matrix on a pair: `(a, b)` becomes `(-i b, i a)`.
pub fn y_pair(a: Qcomplex, b: Qcomplex) -> (r: (Qcomplex, Qcomplex))
    ensures
        r == (b.spec_times_neg_i(), a.spec_times_i()),
{
    (b.times_neg_i(), a.times_i())
}

/// The conjugate of the Pauli Y matrix on a pair: `(a, b)` becomes
/// `(i b, -i a)`.
pub fn y_conj_pair(a: Qcomplex, b: Qcomplex) -> (r: (Qcomplex, Qcomplex))
    ensures
        r == (b.spec_times_i(), a.spec_times_neg_i()),
{
    (b.times_i(), a.times_neg_i())
}

/// `-a`.
pub fn negated(a: Qcomplex) -> (r: Qcomplex)
    ensures
        r == a.spec_neg(),
{
    a.neg()
}

/// `i a`.
pub fn turned(a: Qcomplex) -> (r: Qcomplex)
    ensures
        r == a.spec_times_i(),
{
    a.times_i()
}

/// `-i a`.
pub fn turned_back(a: Qcomplex) -> (r: Qcomplex)
    ensures
        r == a.spec_times_neg_i(),
{
    a.times_neg_i()
}

/// Zero, whatever `a` is.
pub fn cleared(a: Qcomplex) -> (r: Qcomplex)
    ensures
        r == Qcomplex::spec_zero(),
{
    Qcomplex::zero()
}

/// What a sweep over selected amplitudes computes, where the function
/// applied is known to compute `g`.
pub proof fn lemma_point_sweep<F: Fn(Qcomplex) -> Qcomplex>(
    before: Seq<Qcomplex>,
    after: Seq<Qcomplex>,
    mask: u64,
    value: u64,
    f: F,
    g: spec_fn(Qcomplex) -> Qcomplex,
)
    requires
        before.len() <= u64::MAX,
        point_mapped(before, after, mask, value, f),
        forall|a: Qcomplex, r: Qcomplex| call_ensures(f, (a,), r) ==> r == g(a),
    ensures
        after == Seq::new(
            before.len(),
            |i: int|
                if selected(i as u64, mask, value) {
                    g(before[i])
                } else {
                    before[i]
                },
        ),
{
    let expected = Seq::new(
        before.len(),
        |i: int|
            if selected(i as u64, mask, value) {
                g(before[i])
            } else {
                before[i]
            },
    );
    assert forall|i: int| 0 <= i < before.len() implies after[i] == expected[i] by {
        let x = i as u64;
        if selected(x, mask, value) {
        }
    }
    assert(after =~= expected);
}

/// What a sweep over pairs computes, where the function applied is known
/// to compute `(lo(b), hi(a))` from `(a, b)`, `pick` is one of the
/// flipped bits, and the controls are apart from them.
pub proof fn lemma_pair_sweep<F: Fn(Qcomplex, Qcomplex) -> (Qcomplex, Qcomplex)>(
    before: Seq<Qcomplex>,
    after: Seq<Qcomplex>,
    n: nat,
    ctrl: u64,
    pick: nat,
    flip: u64,
    f: F,
    lo: spec_fn(Qcomplex) -> Qcomplex,
    hi: spec_fn(Qcomplex) -> Qcomplex,
)
    requires
        n <= MAX_INDEX_BITS,
        before.len() == span(n),
        flip < span(n),
        pick < 64,
        bit(pick) & flip != 0,
        ctrl & flip == 0,
        pair_mapped(before, after, ctrl | bit(pick), ctrl, flip, f),
        forall|a: Qcomplex, b: Qcomplex, r: (Qcomplex, Qcomplex)|
            call_ensures(f, (a, b), r) ==> r == (lo(b), hi(a)),
    ensures
        after == Seq::new(
            before.len(),
            |i: int|
                if !all_set(i as u64, ctrl) {
                    before[i]
                } else if (i as u64) & bit(pick) == 0 {
                    lo(before[flipped(i as u64, flip) as int])
                } else {
                    hi(before[flipped(i as u64, flip) as int])
                },
        ),
{
    let expected = Seq::new(
        before.len(),
        |i: int|
            if !all_set(i as u64, ctrl) {
                before[i]
            } else if (i as u64) & bit(pick) == 0 {
                lo(before[flipped(i as u64, flip) as int])
            } else {
                hi(before[flipped(i as u64, flip) as int])
            },
    );
    assert forall|i: int| 0 <= i < before.len() implies after[i] == expected[i] by {
        let x = i as u64;
        let y = flipped(x, flip);
        lemma_ops_below_span(x, flip, n);
        lemma_flip_twice(x, flip);
        lemma_not_selection(x, ctrl, pick, flip);
        if selected(x, ctrl | bit(pick), ctrl) {
        } else if selected(y, ctrl | bit(pick), ctrl) {
            assert(after[flipped(y, flip) as int] == hi(before[y as int]));
        } else {
        }
    }
    assert(after =~= expected);
}

/// A sweep that trades the amplitudes of each pair computes a NOT.
pub proof fn lemma_swap_sweep_is_not(
    before: Seq<Qcomplex>,
    after: Seq<Qcomplex>,
    n: nat,
    ctrl: u64,
    pick: nat,
    flip: u64,
)
    requires
        n <= MAX_INDEX_BITS,
        before.len() == span(n),
        flip < span(n),
        pick < 64,
        bit(pick) & flip != 0,
        ctrl & flip == 0,
        pair_mapped(before, after, ctrl | bit(pick), ctrl, flip, swap_pair),
    ensures
        after == amps_not(before, ctrl, flip),
{
    lemma_pair_sweep(
        before,
        after,
        n,
        ctrl,
        pick,
        flip,
        swap_pair,
        |a: Qcomplex| a,
        |a: Qcomplex| a,
    );
    assert(after =~= amps_not(before, ctrl, flip));
}

/// A sweep with the Y matrix, or its conjugate, computes the Y gate.
pub proof fn lemma_y_sweep<F: Fn(Qcomplex, Qcomplex) -> (Qcomplex, Qcomplex)>(
    before: Seq<Qcomplex>,
    after: Seq<Qcomplex>,
    n: nat,
    ctrl: u64,
    target: nat,
    f: F,
    conj: bool,
)
    requires
        n <= MAX_INDEX_BITS,
        before.len() == span(n),
        target < n,
        ctrl & bit(target) == 0,
        pair_mapped(before, after, ctrl | bit(target), ctrl, bit(target), f),
        forall|a: Qcomplex, b: Qcomplex, r: (Qcomplex, Qcomplex)|
            call_ensures(f, (a, b), r) ==> r == (if conj {
                (b.spec_times_i(), a.spec_times_neg_i())
            } else {
                (b.spec_times_neg_i(), a.spec_times_i())
            }),
    ensures
        after == amps_y(before, ctrl, bit(target), conj),
{
    lemma_bit_below_span(target, n);
    lemma_zero_mask(0, bit(target));
    if conj {
        lemma_pair_sweep(
            before,
            after,
            n,
            ctrl,
            target,
            bit(target),
            f,
            |a: Qcomplex| a.spec_times_i(),
            |a: Qcomplex| a.spec_times_neg_i(),
        );
    } else {
        lemma_pair_sweep(
            before,
            after,
            n,
            ctrl,
            target,
            bit(target),
            f,
            |a: Qcomplex| a.spec_times_neg_i(),
            |a: Qcomplex| a.spec_times_i(),
        );
    }
    assert(after =~= amps_y(before, ctrl, bit(target), conj));
}

/// A sweep that trades the amplitudes of the pairs in which exactly one
/// of two bits is set computes the swap of those bits.
pub proof fn lemma_swap_sweep_is_swap(
    before: Seq<Qcomplex>,
    after: Seq<Qcomplex>,
    n: nat,
    pa: nat,
    pb: nat,
)
    requires
        n <= MAX_INDEX_BITS,
        before.len() == span(n),
        pa < n,
        pb < n,
        pa != pb,
        pair_mapped(before, after, bit(pa) | bit(pb), bit(pa), bit(pa) | bit(pb), swap_pair),
    ensures
        after == amps_swap(before, bit(pa), bit(pb)),
{
    let both = bit(pa) | bit(pb);
    let expected = amps_swap(before, bit(pa), bit(pb));
    lemma_bit_below_span(pa, n);
    lemma_bit_below_span(pb, n);
    lemma_ops_below_span(bit(pa), bit(pb), n);
    assert forall|i: int| 0 <= i < before.len() implies after[i] == expected[i] by {
        let x = i as u64;
        let y = flipped(x, both);
        lemma_ops_below_span(x, both, n);
        lemma_flip_twice(x, both);
        lemma_swap_selection(x, pa, pb);
        if selected(x, both, bit(pa)) {
        } else if selected(y, both, bit(pa)) {
            assert(after[flipped(y, both) as int] == before[y as int]);
        } else {
        }
    }
    assert(after =~= expected);
}

/// A NOT on no qubit changes nothing.
pub proof fn lemma_not_nothing(s: QuregState, ctrl: u64)
    requires
        s.wf(),
    ensures
        s.not_gate(ctrl, 0) == s,
{
    lemma_span_is_pow2(s.index_bits());
    lemma_zero_mask(0, s.num_qubits as u64);
    assert forall|a: Seq<Qcomplex>, c: u64| a.len() <= u64::MAX implies #[trigger] amps_not(
        a,
        c,
        0,
    ) == a by {
        assert forall|i: int| 0 <= i < a.len() implies amps_not(a, c, 0)[i] == a[i] by {
            lemma_zero_mask(i as u64, 0);
        }
        assert(amps_not(a, c, 0) =~= a);
    }
    assert(s.col(0) == 0);
    assert(amps_not(s.amps, ctrl, 0) == s.amps);
}

impl<'a> Qureg<'a> {
    /// Applies a NOT to the qubits of `flip` where all qubits of `ctrl`
    /// are one. `pick` is one of the flipped qubits.
    fn sweep_not(&mut self, ctrl: u64, flip: u64, pick: u32)
        requires
            old(self).wf(),
            ctrl < span(old(self)@.num_qubits),
            flip < span(old(self)@.num_qubits),
            ctrl & flip == 0,
            pick < old(self)@.num_qubits,
            bit(pick as nat) & flip != 0,
        ensures
            old(self).reshaped(final(self)),
            final(self)@ == old(self)@.not_gate(ctrl, flip),
    {
        let n: u32 = self.qubits();
        let nb: u32 = self.index_bits();
        let p: u64 = 1u64 << (pick as u64);
        proof {
            lemma_not_selection(0, ctrl, pick as nat, flip);
            if self@.is_density {
                lemma_shifted(ctrl, flip, pick as nat, n as nat);
                lemma_not_selection(0, ctrl << (n as u64), (pick + n) as nat, flip << (n as u64));
            }
        }
        let ghost start = self@.amps;
        map_pairs(&mut self.amps, nb, ctrl | p, ctrl, flip, swap_pair);
        proof {
            lemma_swap_sweep_is_not(start, self.amps@, nb as nat, ctrl, pick as nat, flip);
        }
        if self.is_density {
            let ghost mid = self.amps@;
            let cc: u64 = ctrl << (n as u64);
            let cf: u64 = flip << (n as u64);
            let cp: u64 = p << (n as u64);
            map_pairs(&mut self.amps, nb, cc | cp, cc, cf, swap_pair);
            proof {
                lemma_swap_sweep_is_not(mid, self.amps@, nb as nat, cc, (pick + n) as nat, cf);
            }
        }
    }

    /// Applies the Pauli X gate to `target_qubit`.
    ///
    /// Fails with `QubitIndex`, and changes nothing, exactly when
    /// `target_qubit` is no qubit of the register.
    pub fn pauli_x(&mut self, target_qubit: i32) -> (res: Result<(), QuestError>)
        requires
            old(self).wf(),
        ensures
            old(self).reshaped(final(self)),
            res is Ok <==> qubit_ok(old(self)@.num_qubits, target_qubit),
            res is Ok ==> final(self)@ == old(self)@.not_gate(0, bit(target_qubit as nat)),
            res is Err ==> final(self)@ == old(self)@ && res == Err::<(), QuestError>(
                QuestError::InvalidInputError(InputFault::QubitIndex),
            ),
    {
        let n = self.qubits();
        match check_qubit(n, target_qubit) {
            Err(fault) => Err(QuestError::InvalidInputError(fault)),
            Ok(b) => {
                proof {
                    lemma_zero_mask(0, b);
                    lemma_span_is_pow2(n as nat);
                }
                self.sweep_not(0, b, target_qubit as u32);
                Ok(())
            },
        }
    }

    /// Applies a Pauli Y to qubit `target` where all qubits of `ctrl` are
    /// one.
    fn sweep_y(&mut self, ctrl: u64, target: u32)
        requires
            old(self).wf(),
            ctrl < span(old(self)@.num_qubits),
            target < old(self)@.num_qubits,
            ctrl & bit(target as nat) == 0,
        ensures
            old(self).reshaped(final(self)),
            final(self)@ == old(self)@.y_gate(ctrl, bit(target as nat)),
    {
        let n: u32 = self.qubits();
        let nb: u32 = self.index_bits();
        let t: u64 = 1u64 << (target as u64);
        proof {
            lemma_bit_below_span(target as nat, n as nat);
            lemma_zero_mask(0, t);
            lemma_not_selection(0, ctrl, target as nat, t);
            if self@.is_density {
                lemma_shifted(ctrl, t, target as nat, n as nat);
                lemma_not_selection(0, ctrl << (n as u64), (target + n) as nat, t << (n as u64));
            }
        }
        let ghost start = self@.amps;
        map_pairs(&mut self.amps, nb, ctrl | t, ctrl, t, y_pair);
        proof {
            lemma_y_sweep(start, self.amps@, nb as nat, ctrl, target as nat, y_pair, false);
        }
        if self.is_density {
            let ghost mid = self.amps@;
            let cc: u64 = ctrl << (n as u64);
            let ct: u64 = t << (n as u64);
            map_pairs(&mut self.amps, nb, cc | ct, cc, ct, y_conj_pair);
            proof {
                lemma_y_sweep(mid, self.amps@, nb as nat, cc, (target + n) as nat, y_conj_pair, true);
            }
        }
    }

    /// Trades the places of the qubits `q1` and `q2`.
    fn sweep_swap(&mut self, q1: u32, q2: u32)
        requires
            old(self).wf(),
            q1 < old(self)@.num_qubits,
            q2 < old(self)@.num_qubits,
            q1 != q2,
        ensures
            old(self).reshaped(final(self)),
            final(self)@ == old(self)@.swap_gate(bit(q1 as nat), bit(q2 as nat)),
    {
        let n: u32 = self.qubits();
        let nb: u32 = self.index_bits();
        let b1: u64 = 1u64 << (q1 as u64);
        let b2: u64 = 1u64 << (q2 as u64);
        proof {
            lemma_bit_below_span(q1 as nat, n as nat);
            lemma_bit_below_span(q2 as nat, n as nat);
            lemma_ops_below_span(b1, b2, n as nat);
            lemma_swap_selection(0, q1 as nat, q2 as nat);
            if self@.is_density {
                lemma_shifted(b1, b2, q1 as nat, n as nat);
                lemma_shifted(b2, b1 | b2, q2 as nat, n as nat);
                lemma_swap_selection(0, (q1 + n) as nat, (q2 + n) as nat);
            }
        }
        let ghost start = self@.amps;
        map_pairs(&mut self.amps, nb, b1 | b2, b1, b1 | b2, swap_pair);
        proof {
            lemma_swap_sweep_is_swap(start, self.amps@, nb as nat, q1 as nat, q2 as nat);
        }
        if self.is_density {
            let ghost mid = self.amps@;
            let c1: u64 = b1 << (n as u64);
            let c2: u64 = b2 << (n as u64);
            map_pairs(&mut self.amps, nb, c1 | c2, c1, c1 | c2, swap_pair);
            proof {
                lemma_swap_sweep_is_swap(
                    mid,
                    self.amps@,
                    nb as nat,
                    (q1 + n) as nat,
                    (q2 + n) as nat,
                );
            }
        }
    }

    /// Negates every amplitude in which all qubits of `mask` are one.
    fn sweep_negate(&mut self, mask: u64)
        requires
            old(self).wf(),
            mask < span(old(self)@.num_qubits),
        ensures
            old(self).reshaped(final(self)),
            final(self)@ == old(self)@.phase_flip(mask),
    {
        let n: u32 = self.qubits();
        proof {
            self.lemma_layout();
        }
        let ghost start = self@.amps;
        map_selected(&mut self.amps, mask, mask, negated);
        proof {
            lemma_point_sweep(start, self.amps@, mask, mask, negated, |a: Qcomplex| a.spec_neg());
            assert(self.amps@ =~= amps_negate(start, mask));
        }
        if self.is_density {
            let ghost mid = self.amps@;
            let cm: u64 = mask << (n as u64);
            map_selected(&mut self.amps, cm, cm, negated);
            proof {
                lemma_point_sweep(mid, self.amps@, cm, cm, negated, |a: Qcomplex| a.spec_neg());
                assert(self.amps@ =~= amps_negate(mid, cm));
            }
        }
    }

    /// Multiplies by `i` every amplitude in which qubit `target` is one.
    fn sweep_quarter(&mut self, target: u32)
        requires
            old(self).wf(),
            target < old(self)@.num_qubits,
        ensures
            old(self).reshaped(final(self)),
            final(self)@ == old(self)@.s_gate(bit(target as nat)),
    {
        let n: u32 = self.qubits();
        proof {
            self.lemma_layout();
        }
        let t: u64 = 1u64 << (target as u64);
        let ghost start = self@.amps;
        map_selected(&mut self.amps, t, t, turned);
        proof {
            lemma_point_sweep(start, self.amps@, t, t, turned, |a: Qcomplex| a.spec_times_i());
            assert(self.amps@ =~= amps_quarter(start, t, false));
        }
        if self.is_density {
            let ghost mid = self.amps@;
            let ct: u64 = t << (n as u64);
            map_selected(&mut self.amps, ct, ct, turned_back);
            proof {
                lemma_point_sweep(
                    mid,
                    self.amps@,
                    ct,
                    ct,
                    turned_back,
                    |a: Qcomplex| a.spec_times_neg_i(),
                );
                assert(self.amps@ =~= amps_quarter(mid, ct, true));
            }
        }
    }

    /// Sets to zero every amplitude in which qubit `target` is not
    /// `outcome`.
    fn sweep_project(&mut self, target: u32, outcome: bool)
        requires
            old(self).wf(),
            target < old(self)@.num_qubits,
        ensures
            old(self).reshaped(final(self)),
            final(self)@ == old(self)@.projected(
                bit(target as nat),
                if outcome {
                    bit(target as nat)
                } else {
                    0
                },
            ),
    {
        let n: u32 = self.qubits();
        proof {
            self.lemma_layout();
        }
        let t: u64 = 1u64 << (target as u64);
        let keep: u64 = if outcome {
            t
        } else {
            0
        };
        let drop: u64 = if outcome {
            0
        } else {
            t
        };
        proof {
            lemma_bit_below_span(target as nat, n as nat);
        }
        let ghost start = self@.amps;
        map_selected(&mut self.amps, t, drop, cleared);
        proof {
            lemma_point_sweep(
                start,
                self.amps@,
                t,
                drop,
                cleared,
                |a: Qcomplex| Qcomplex::spec_zero(),
            );
            assert forall|i: int| 0 <= i < start.len() implies self.amps@[i] == amps_project(
                start,
                t,
                keep,
            )[i] by {
                lemma_single_bit(i as u64, target as nat);
            }
            assert(self.amps@ =~= amps_project(start, t, keep));
        }
        if self.is_density {
            let ghost mid = self.amps@;
            let ct: u64 = t << (n as u64);
            let ckeep: u64 = keep << (n as u64);
            let cdrop: u64 = drop << (n as u64);
            map_selected(&mut self.amps, ct, cdrop, cleared);
            proof {
                lemma_shifted(t, t, target as nat, n as nat);
                lemma_zero_mask(0, n as u64);
                lemma_point_sweep(
                    mid,
                    self.amps@,
                    ct,
                    cdrop,
                    cleared,
                    |a: Qcomplex| Qcomplex::spec_zero(),
                );
                assert forall|i: int| 0 <= i < mid.len() implies self.amps@[i] == amps_project(
                    mid,
                    ct,
                    ckeep,
                )[i] by {
                    lemma_single_bit(i as u64, (target + n) as nat);
                }
                assert(self.amps@ =~= amps_project(mid, ct, ckeep));
            }
        }
    }

    /// Applies a NOT to `target_qubit` where `control_qubit` is one.
    ///
    /// Fails, and changes nothing, with `QubitIndex` where either index
    /// is no qubit of the register, and with `ControlTargetOverlap` where
    /// the two are the same qubit.
    pub fn controlled_not(&mut self, control_qubit: i32, target_qubit: i32) -> (res: Result<
        (),
        QuestError,
    >)
        requires
            old(self).wf(),
        ensures
            old(self).reshaped(final(self)),
            match control_target_fault(old(self)@.num_qubits, control_qubit, target_qubit) {
                Some(fault) => res == Err::<(), QuestError>(QuestError::InvalidInputError(fault))
                    && final(self)@ == old(self)@,
                None => res is Ok && final(self)@ == old(self)@.not_gate(
                    bit(control_qubit as nat),
                    bit(target_qubit as nat),
                ),
            },
    {
        let n = self.qubits();
        match check_control_target(n, control_qubit, target_qubit) {
            Err(fault) => Err(QuestError::InvalidInputError(fault)),
            Ok((c, t)) => {
                proof {
                    lemma_zero_mask(0, t);
                }
                self.sweep_not(c, t, target_qubit as u32);
                Ok(())
            },
        }
    }

    /// Applies a NOT to every qubit of `targs` where all qubits of
    /// `ctrls` are one.
    ///
    /// Fails, and changes nothing, with the first of: the faults of
    /// `targs` as a list of qubits, those of `ctrls`, and
    /// `ControlTargetOverlap` where a qubit is in both.
    pub fn multi_controlled_multi_qubit_not(&mut self, ctrls: &[i32], targs: &[i32]) -> (res:
        Result<(), QuestError>)
        requires
            old(self).wf(),
        ensures
            old(self).reshaped(final(self)),
            match gate_fault(old(self)@.num_qubits, ctrls@, targs@) {
                Some(fault) => res == Err::<(), QuestError>(QuestError::InvalidInputError(fault))
                    && final(self)@ == old(self)@,
                None => res is Ok && final(self)@ == old(self)@.not_gate(
                    mask_of(ctrls@),
                    mask_of(targs@),
                ),
            },
    {
        let n = self.qubits();
        match check_gate(n, ctrls, targs) {
            Err(fault) => Err(QuestError::InvalidInputError(fault)),
            Ok((c, t)) => {
                if targs.len() == 0 {
                    proof {
                        lemma_not_nothing(self@, c);
                    }
                } else {
                    let pick = targs[0];
                    proof {
                        assert(qubit_ok(n as nat, targs@[0]));
                        assert(targs@.contains(pick));
                        lemma_mask_of_members(n as nat, targs@, pick);
                    }
                    self.sweep_not(c, t, pick as u32);
                }
                Ok(())
            },
        }
    }

    /// Applies a NOT to every qubit of `targs`.
    ///
    /// Fails, and changes nothing, with the first fault of `targs` as a
    /// list of qubits.
    pub fn multi_qubit_not(&mut self, targs: &[i32]) -> (res: Result<(), QuestError>)
        requires
            old(self).wf(),
        ensures
            old(self).reshaped(final(self)),
            match list_fault(old(self)@.num_qubits, targs@) {
                Some(fault) => res == Err::<(), QuestError>(QuestError::InvalidInputError(fault))
                    && final(self)@ == old(self)@,
                None => res is Ok && final(self)@ == old(self)@.not_gate(0, mask_of(targs@)),
            },
    {
        let n = self.qubits();
        match check_list(n, targs) {
            Err(fault) => Err(QuestError::InvalidInputError(fault)),
            Ok(t) => {
                proof {
                    lemma_zero_mask(0, t);
                    lemma_span_is_pow2(n as nat);
                }
                if targs.len() == 0 {
                    proof {
                        lemma_not_nothing(self@, 0);
                    }
                } else {
                    let pick = targs[0];
                    proof {
                        assert(qubit_ok(n as nat, targs@[0]));
                        assert(targs@.contains(pick));
                        lemma_mask_of_members(n as nat, targs@, pick);
                    }
                    self.sweep_not(0, t, pick as u32);
                }
                Ok(())
            },
        }
    }

    /// Applies the Pauli Y gate to `target_qubit`.
    ///
    /// Fails with `QubitIndex`, and changes nothing, exactly when
    /// `target_qubit` is no qubit of the register.
    pub fn pauli_y(&mut self, target_qubit: i32) -> (res: Result<(), QuestError>)
        requires
            old(self).wf(),
        ensures
            old(self).reshaped(final(self)),
            res is Ok <==> qubit_ok(old(self)@.num_qubits, target_qubit),
            res is Ok ==> final(self)@ == old(self)@.y_gate(0, bit(target_qubit as nat)),
            res is Err ==> final(self)@ == old(self)@ && res == Err::<(), QuestError>(
                QuestError::InvalidInputError(InputFault::QubitIndex),
            ),
    {
        let n = self.qubits();
        match check_qubit(n, target_qubit) {
            Err(fault) => Err(QuestError::InvalidInputError(fault)),
            Ok(b) => {
                proof {
                    lemma_zero_mask(0, b);
                    lemma_span_is_pow2(n as nat);
                }
                self.sweep_y(0, target_qubit as u32);
                Ok(())
            },
        }
    }

    /// Applies a Pauli Y to `target_qubit` where `control_qubit` is one.
    ///
    /// Fails, and changes nothing, with `QubitIndex` where either index
    /// is no qubit of the register, and with `ControlTargetOverlap` where
    /// the two are the same qubit.
    pub fn controlled_pauli_y(&mut self, control_qubit: i32, target_qubit: i32) -> (res: Result<
        (),
        QuestError,
    >)
        requires
            old(self).wf(),
        ensures
            old(self).reshaped(final(self)),
            match control_target_fault(old(self)@.num_qubits, control_qubit, target_qubit) {
                Some(fault) => res == Err::<(), QuestError>(QuestError::InvalidInputError(fault))
                    && final(self)@ == old(self)@,
                None => res is Ok && final(self)@ == old(self)@.y_gate(
                    bit(control_qubit as nat),
                    bit(target_qubit as nat),
                ),
            },
    {
        let n = self.qubits();
        match check_control_target(n, control_qubit, target_qubit) {
            Err(fault) => Err(QuestError::InvalidInputError(fault)),
            Ok((c, t)) => {
                self.sweep_y(c, target_qubit as u32);
                Ok(())
            },
        }
    }

    /// Applies the Pauli Z gate to `target_qubit`: every amplitude in
    /// which the qubit is one is negated.
    ///
    /// Fails with `QubitIndex`, and changes nothing, exactly when
    /// `target_qubit` is no qubit of the register.
    pub fn pauli_z(&mut self, target_qubit: i32) -> (res: Result<(), QuestError>)
        requires
            old(self).wf(),
        ensures
            old(self).reshaped(final(self)),
            res is Ok <==> qubit_ok(old(self)@.num_qubits, target_qubit),
            res is Ok ==> final(self)@ == old(self)@.phase_flip(bit(target_qubit as nat)),
            res is Err ==> final(self)@ == old(self)@ && res == Err::<(), QuestError>(
                QuestError::InvalidInputError(InputFault::QubitIndex),
            ),
    {
        let n = self.qubits();
        match check_qubit(n, target_qubit) {
            Err(fault) => Err(QuestError::InvalidInputError(fault)),
            Ok(b) => {
                self.sweep_negate(b);
                Ok(())
            },
        }
    }

    /// Applies the S gate to `target_qubit`: every amplitude in which the
    /// qubit is one is multiplied by `i`.
    ///
    /// Fails with `QubitIndex`, and changes nothing, exactly when
    /// `target_qubit` is no qubit of the register.
    pub fn s_gate(&mut self, target_qubit: i32) -> (res: Result<(), QuestError>)
        requires
            old(self).wf(),
        ensures
            old(self).reshaped(final(self)),
            res is Ok <==> qubit_ok(old(self)@.num_qubits, target_qubit),
            res is Ok ==> final(self)@ == old(self)@.s_gate(bit(target_qubit as nat)),
            res is Err ==> final(self)@ == old(self)@ && res == Err::<(), QuestError>(
                QuestError::InvalidInputError(InputFault::QubitIndex),
            ),
    {
        let n = self.qubits();
        match check_qubit(n, target_qubit) {
            Err(fault) => Err(QuestError::InvalidInputError(fault)),
            Ok(b) => {
                self.sweep_quarter(target_qubit as u32);
                Ok(())
            },
        }
    }

    /// Applies the controlled phase flip to two qubits: every amplitude
    /// in which both are one is negated.
    ///
    /// Fails, and changes nothing, with `QubitIndex` where either index
    /// is no qubit of the register, and with `ControlTargetOverlap` where
    /// the two are the same qubit.
    pub fn controlled_phase_flip(&mut self, id_qubit1: i32, id_qubit2: i32) -> (res: Result<
        (),
        QuestError,
    >)
        requires
            old(self).wf(),
        ensures
            old(self).reshaped(final(self)),
            match control_target_fault(old(self)@.num_qubits, id_qubit1, id_qubit2) {
                Some(fault) => res == Err::<(), QuestError>(QuestError::InvalidInputError(fault))
                    && final(self)@ == old(self)@,
                None => res is Ok && final(self)@ == old(self)@.phase_flip(
                    bit(id_qubit1 as nat) | bit(id_qubit2 as nat),
                ),
            },
    {
        let n = self.qubits();
        match check_control_target(n, id_qubit1, id_qubit2) {
            Err(fault) => Err(QuestError::InvalidInputError(fault)),
            Ok((b1, b2)) => {
                proof {
                    lemma_ops_below_span(b1, b2, n as nat);
                }
                self.sweep_negate(b1 | b2);
                Ok(())
            },
        }
    }

    /// Applies the phase flip controlled by all of `control_qubits`:
    /// every amplitude in which all of them are one is negated.
    ///
    /// Fails, and changes nothing, with the first fault of
    /// `control_qubits` as a list of qubits.
    pub fn multi_controlled_phase_flip(&mut self, control_qubits: &[i32]) -> (res: Result<
        (),
        QuestError,
    >)
        requires
            old(self).wf(),
        ensures
            old(self).reshaped(final(self)),
            match list_fault(old(self)@.num_qubits, control_qubits@) {
                Some(fault) => res == Err::<(), QuestError>(QuestError::InvalidInputError(fault))
                    && final(self)@ == old(self)@,
                None => res is Ok && final(self)@ == old(self)@.phase_flip(
                    mask_of(control_qubits@),
                ),
            },
    {
        let n = self.qubits();
        match check_list(n, control_qubits) {
            Err(fault) => Err(QuestError::InvalidInputError(fault)),
            Ok(m) => {
                self.sweep_negate(m);
                Ok(())
            },
        }
    }

    /// Trades the places of `qubit1` and `qubit2`.
    ///
    /// Fails, and changes nothing, with `QubitIndex` where either index
    /// is no qubit of the register, and with `RepeatedQubit` where the
    /// two are the same qubit.
    pub fn swap_gate(&mut self, qubit1: i32, qubit2: i32) -> (res: Result<(), QuestError>)
        requires
            old(self).wf(),
        ensures
            old(self).reshaped(final(self)),
            match two_targets_fault(old(self)@.num_qubits, qubit1, qubit2) {
                Some(fault) => res == Err::<(), QuestError>(QuestError::InvalidInputError(fault))
                    && final(self)@ == old(self)@,
                None => res is Ok && final(self)@ == old(self)@.swap_gate(
                    bit(qubit1 as nat),
                    bit(qubit2 as nat),
                ),
            },
    {
        let n = self.qubits();
        match check_two_targets(n, qubit1, qubit2) {
            Err(fault) => Err(QuestError::InvalidInputError(fault)),
            Ok((b1, b2)) => {
                self.sweep_swap(qubit1 as u32, qubit2 as u32);
                Ok(())
            },
        }
    }

    /// Projects `qubit` onto `outcome` without rescaling: every amplitude
    /// in which the qubit differs from `outcome` becomes zero. The result
    /// may have norm below one, or zero.
    ///
    /// Fails, and changes nothing, with `QubitIndex` where `qubit` is no
    /// qubit of the register, and with `Outcome` where `outcome` is
    /// neither zero nor one.
    pub fn apply_projector(&mut self, qubit: i32, outcome: i32) -> (res: Result<(), QuestError>)
        requires
            old(self).wf(),
        ensures
            old(self).reshaped(final(self)),
            match outcome_fault(old(self)@.num_qubits, qubit, outcome) {
                Some(fault) => res == Err::<(), QuestError>(QuestError::InvalidInputError(fault))
                    && final(self)@ == old(self)@,
                None => res is Ok && final(self)@ == old(self)@.projected(
                    bit(qubit as nat),
                    if outcome == 1 {
                        bit(qubit as nat)
                    } else {
                        0
                    },
                ),
            },
    {
        let n = self.qubits();
        match check_qubit(n, qubit) {
            Err(fault) => Err(QuestError::InvalidInputError(fault)),
            Ok(b) => {
                if outcome != 0 && outcome != 1 {
                    return Err(QuestError::InvalidInputError(InputFault::Outcome));
                }
                self.sweep_project(qubit as u32, outcome == 1);
                Ok(())
            },
        }
    }
}

} // verus!
