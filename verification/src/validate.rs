//! Validation of qubit arguments.
//!
//! A qubit is named by an index in `[0, num_qubits)`. A list of qubits in
//! one role may name at most `num_qubits` of them and none twice, and the
//! controls of a gate are disjoint from its targets. The checks below
//! find the first rule that an argument breaks, in a fixed order, and
//! otherwise hand back the arguments as bit masks over basis-state
//! indices.

use vstd::prelude::*;
use crate::bits::{
    bit, lemma_bit_below_span, lemma_bit_in_union, lemma_bits_apart, lemma_masks,
    lemma_ops_below_span,
    lemma_shifted, lemma_span_is_pow2, lemma_zero_mask, span, MAX_INDEX_BITS,
};
use crate::blocks::{single_bit, target_bits, union};
use crate::error::InputFault;

verus! {

/// Whether `q` names a qubit of an `n`-qubit register.
pub open spec fn qubit_ok(n: nat, q: i32) -> bool {
    0 <= q < n
}

/// Whether every entry of `qs` names a qubit of an `n`-qubit register.
pub open spec fn all_ok(n: nat, qs: Seq<i32>) -> bool {
    forall|k: int| 0 <= k < qs.len() ==> qubit_ok(n, #[trigger] qs[k])
}

/// Whether no qubit occurs twice in `qs`.
pub open spec fn distinct(qs: Seq<i32>) -> bool {
    forall|i: int, j: int| 0 <= i < j < qs.len() ==> qs[i] != qs[j]
}

/// Whether no qubit occurs both in `a` and in `b`.
pub open spec fn disjoint(a: Seq<i32>, b: Seq<i32>) -> bool {
    forall|i: int, j: int| 0 <= i < a.len() && 0 <= j < b.len() ==> a[i] != b[j]
}

/// The index mask with the bit of every qubit in `qs` set.
pub open spec fn mask_of(qs: Seq<i32>) -> u64
    decreases qs.len(),
{
    if qs.len() == 0 {
        0
    } else {
        mask_of(qs.drop_last()) | bit(qs.last() as nat)
    }
}

/// The index mask with the bit of qubit `qs[k]` set wherever `states[k]`
/// is one.
pub open spec fn value_of(qs: Seq<i32>, states: Seq<i32>) -> u64
    decreases qs.len(),
{
    if qs.len() == 0 || states.len() != qs.len() {
        0
    } else if states.last() == 1 {
        value_of(qs.drop_last(), states.drop_last()) | bit(qs.last() as nat)
    } else {
        value_of(qs.drop_last(), states.drop_last())
    }
}

/// The first rule that the list `qs` breaks as a list of qubits in one
/// role of an `n`-qubit register: its length, then the range of its
/// entries, then their distinctness.
pub open spec fn list_fault(n: nat, qs: Seq<i32>) -> Option<InputFault> {
    if qs.len() > n {
        Some(InputFault::ListLength)
    } else if !all_ok(n, qs) {
        Some(InputFault::QubitIndex)
    } else if !distinct(qs) {
        Some(InputFault::RepeatedQubit)
    } else {
        None
    }
}

/// The first rule that a gate with controls `ctrls` and targets `targs`
/// breaks: the rules of the target list, then those of the control list,
/// then the disjointness of the two.
pub open spec fn gate_fault(n: nat, ctrls: Seq<i32>, targs: Seq<i32>) -> Option<InputFault> {
    if list_fault(n, targs) is Some {
        list_fault(n, targs)
    } else if list_fault(n, ctrls) is Some {
        list_fault(n, ctrls)
    } else if !disjoint(ctrls, targs) {
        Some(InputFault::ControlTargetOverlap)
    } else {
        None
    }
}

/// The first rule that a control `c` and a target `t` break: the range
/// of each, then their difference.
pub open spec fn control_target_fault(n: nat, c: i32, t: i32) -> Option<InputFault> {
    if !qubit_ok(n, t) || !qubit_ok(n, c) {
        Some(InputFault::QubitIndex)
    } else if c == t {
        Some(InputFault::ControlTargetOverlap)
    } else {
        None
    }
}

/// The first rule that two targets `q1` and `q2` break: the range of
/// each, then their difference.
pub open spec fn two_targets_fault(n: nat, q1: i32, q2: i32) -> Option<InputFault> {
    if !qubit_ok(n, q1) || !qubit_ok(n, q2) {
        Some(InputFault::QubitIndex)
    } else if q1 == q2 {
        Some(InputFault::RepeatedQubit)
    } else {
        None
    }
}

/// The first rule that a measured qubit `q` and an outcome break: the
/// range of the qubit, then that the outcome is zero or one.
pub open spec fn outcome_fault(n: nat, q: i32, outcome: i32) -> Option<InputFault> {
    if !qubit_ok(n, q) {
        Some(InputFault::QubitIndex)
    } else if outcome != 0 && outcome != 1 {
        Some(InputFault::Outcome)
    } else {
        None
    }
}

/// The first rule that a list of control states breaks: one entry per
/// control, each of them zero or one.
pub open spec fn states_fault(ctrls: Seq<i32>, states: Seq<i32>) -> Option<InputFault> {
    if states.len() != ctrls.len() {
        Some(InputFault::ListLength)
    } else if exists|k: int| 0 <= k < states.len() && states[k] != 0 && states[k] != 1 {
        Some(InputFault::ControlState)
    } else {
        None
    }
}

/// The mask of a list extended by one qubit.
pub proof fn lemma_mask_of_push(qs: Seq<i32>, q: i32)
    ensures
        mask_of(qs.push(q)) == mask_of(qs) | bit(q as nat),
{
    assert(qs.push(q).drop_last() =~= qs);
}

/// Bit `q` is set in the mask of `qs` exactly when `q` occurs in `qs`,
/// and the mask stays below `2^n`.
pub proof fn lemma_mask_of_members(n: nat, qs: Seq<i32>, q: i32)
    requires
        n <= MAX_INDEX_BITS,
        all_ok(n, qs),
        qubit_ok(n, q),
    ensures
        (mask_of(qs) & bit(q as nat) != 0) <==> qs.contains(q),
        (bit(q as nat) & mask_of(qs) != 0) <==> qs.contains(q),
        mask_of(qs) < span(n),
    decreases qs.len(),
{
    let m = mask_of(qs);
    let b = bit(q as nat);
    lemma_masks(m, b, 0);
    if qs.len() == 0 {
        let b = bit(q as nat);
        lemma_masks(b, 0, 0);
        lemma_bit_below_span(q as nat, n);
    } else {
        let rest = qs.drop_last();
        let last = qs.last();
        assert forall|k: int| 0 <= k < rest.len() implies qubit_ok(n, #[trigger] rest[k]) by {
            assert(rest[k] == qs[k]);
        }
        lemma_mask_of_members(n, rest, q);
        lemma_bit_in_union(mask_of(rest), last as nat, q as nat);
        lemma_bit_below_span(last as nat, n);
        lemma_ops_below_span(mask_of(rest), bit(last as nat), n);
        if qs.contains(q) {
            let k = choose|k: int| 0 <= k < qs.len() && qs[k] == q;
            if k < rest.len() {
                assert(rest[k] == q);
            }
        }
        if rest.contains(q) {
            let k = choose|k: int| 0 <= k < rest.len() && rest[k] == q;
            assert(qs[k] == q);
        }
        if last == q {
            assert(qs[qs.len() - 1] == q);
        }
    }
}

/// The masks of two lists are apart exactly when the lists are.
pub proof fn lemma_masks_apart(n: nat, a: Seq<i32>, b: Seq<i32>)
    requires
        n <= MAX_INDEX_BITS,
        all_ok(n, a),
        all_ok(n, b),
    ensures
        (mask_of(a) & mask_of(b) == 0) <==> disjoint(a, b),
    decreases b.len(),
{
    let ma = mask_of(a);
    if b.len() == 0 {
        lemma_zero_mask(0, ma);
    } else {
        let rest = b.drop_last();
        let last = b.last();
        let mr = mask_of(rest);
        let bl = bit(last as nat);
        assert forall|k: int| 0 <= k < rest.len() implies qubit_ok(n, #[trigger] rest[k]) by {
            assert(rest[k] == b[k]);
        }
        lemma_masks_apart(n, a, rest);
        assert(qubit_ok(n, b[b.len() - 1]));
        lemma_mask_of_members(n, a, last);
        lemma_masks(mr, bl, ma);
        if disjoint(a, b) {
            assert forall|i: int, j: int| 0 <= i < a.len() && 0 <= j < rest.len() implies a[i]
                != rest[j] by {
                assert(rest[j] == b[j]);
            }
            if a.contains(last) {
                let i = choose|i: int| 0 <= i < a.len() && a[i] == last;
                assert(a[i] == b[b.len() - 1]);
            }
        }
        if disjoint(a, rest) && !a.contains(last) {
            assert forall|i: int, j: int| 0 <= i < a.len() && 0 <= j < b.len() implies a[i]
                != b[j] by {
                if j < rest.len() {
                    assert(rest[j] == b[j]);
                } else {
                    if a[i] == b[j] {
                        assert(a.contains(last));
                    }
                }
            }
        }
    }
}

/// Checks one qubit index and returns its bit.
pub(crate) fn check_qubit(n: u32, q: i32) -> (res: Result<u64, InputFault>)
    requires
        n <= MAX_INDEX_BITS,
    ensures
        res == (if qubit_ok(n as nat, q) {
            Ok::<u64, InputFault>(bit(q as nat))
        } else {
            Err(InputFault::QubitIndex)
        }),
        res matches Ok(b) ==> b < span(n as nat) && b != 0,
{
    if q < 0 || q as u32 >= n {
        return Err(InputFault::QubitIndex);
    }
    proof {
        lemma_bit_below_span(q as nat, n as nat);
    }
    Ok(1u64 << (q as u64))
}

/// Checks a list of qubits in one role and returns its mask.
pub(crate) fn check_list(n: u32, qs: &[i32]) -> (res: Result<u64, InputFault>)
    requires
        n <= MAX_INDEX_BITS,
    ensures
        res == (match list_fault(n as nat, qs@) {
            Some(fault) => Err::<u64, InputFault>(fault),
            None => Ok(mask_of(qs@)),
        }),
        res matches Ok(m) ==> m < span(n as nat),
{
    let len = qs.len();
    if len > n as usize {
        return Err(InputFault::ListLength);
    }
    let mut k: usize = 0;
    while k < len
        invariant
            k <= len,
            len == qs@.len(),
            len <= n,
            forall|i: int| 0 <= i < k ==> qubit_ok(n as nat, #[trigger] qs@[i]),
        decreases len - k,
    {
        let q = qs[k];
        if q < 0 || q as u32 >= n {
            assert(!qubit_ok(n as nat, qs@[k as int]));
            return Err(InputFault::QubitIndex);
        }
        k += 1;
    }
    let mut mask: u64 = 0;
    k = 0;
    while k < len
        invariant
            k <= len,
            len == qs@.len(),
            len <= n,
            n <= MAX_INDEX_BITS,
            all_ok(n as nat, qs@),
            mask == mask_of(qs@.take(k as int)),
            distinct(qs@.take(k as int)),
        decreases len - k,
    {
        let q = qs[k];
        let b: u64 = 1u64 << (q as u64);
        let ghost seen = qs@.take(k as int);
        proof {
            assert forall|i: int| 0 <= i < seen.len() implies qubit_ok(
                n as nat,
                #[trigger] seen[i],
            ) by {
                assert(seen[i] == qs@[i]);
            }
            lemma_mask_of_members(n as nat, seen, q);
            assert(qs@.take(k + 1) =~= seen.push(q));
            lemma_mask_of_push(seen, q);
        }
        if mask & b != 0 {
            proof {
                let i = choose|i: int| 0 <= i < seen.len() && seen[i] == q;
                assert(seen[i] == qs@[i]);
                assert(qs@[i] == qs@[k as int] && 0 <= i < k < qs@.len());
                assert(!distinct(qs@));
            }
            return Err(InputFault::RepeatedQubit);
        }
        mask = mask | b;
        proof {
            let ghost next = qs@.take(k + 1);
            assert forall|i: int, j: int| 0 <= i < j < next.len() implies next[i] != next[j] by {
                if j == k {
                    if seen[i] == q {
                        assert(seen.contains(q));
                    }
                } else {
                    assert(seen[i] != seen[j]);
                }
            }
        }
        k += 1;
    }
    proof {
        assert(qs@.take(len as int) =~= qs@);
        if len == 0 {
            assert(mask < span(n as nat)) by {
                lemma_bit_below_span(0, 1);
                crate::bits::lemma_span_is_pow2(n as nat);
            }
        } else {
            lemma_mask_of_members(n as nat, qs@, qs@[0]);
        }
    }
    Ok(mask)
}

/// Checks a control and a target and returns their bits.
pub(crate) fn check_control_target(n: u32, c: i32, t: i32) -> (res: Result<(u64, u64), InputFault>)
    requires
        n <= MAX_INDEX_BITS,
    ensures
        res == (match control_target_fault(n as nat, c, t) {
            Some(fault) => Err::<(u64, u64), InputFault>(fault),
            None => Ok((bit(c as nat), bit(t as nat))),
        }),
        res matches Ok(m) ==> m.0 < span(n as nat) && m.1 < span(n as nat) && m.0 & m.1 == 0
            && m.1 != 0 && m.0 != 0,
{
    let tb = match check_qubit(n, t) {
        Ok(b) => b,
        Err(fault) => {
            return Err(fault);
        },
    };
    let cb = match check_qubit(n, c) {
        Ok(b) => b,
        Err(fault) => {
            return Err(fault);
        },
    };
    if c == t {
        return Err(InputFault::ControlTargetOverlap);
    }
    proof {
        lemma_bits_apart(c as nat, t as nat);
    }
    Ok((cb, tb))
}

/// Checks two targets and returns their bits.
pub(crate) fn check_two_targets(n: u32, q1: i32, q2: i32) -> (res: Result<(u64, u64), InputFault>)
    requires
        n <= MAX_INDEX_BITS,
    ensures
        res == (match two_targets_fault(n as nat, q1, q2) {
            Some(fault) => Err::<(u64, u64), InputFault>(fault),
            None => Ok((bit(q1 as nat), bit(q2 as nat))),
        }),
        res matches Ok(m) ==> m.0 < span(n as nat) && m.1 < span(n as nat) && m.0 & m.1 == 0
            && m.1 != 0 && m.0 != 0,
{
    let b1 = match check_qubit(n, q1) {
        Ok(b) => b,
        Err(fault) => {
            return Err(fault);
        },
    };
    let b2 = match check_qubit(n, q2) {
        Ok(b) => b,
        Err(fault) => {
            return Err(fault);
        },
    };
    if q1 == q2 {
        return Err(InputFault::RepeatedQubit);
    }
    proof {
        lemma_bits_apart(q1 as nat, q2 as nat);
    }
    Ok((b1, b2))
}

/// Checks the controls and the targets of a gate and returns the mask of
/// each.
pub(crate) fn check_gate(n: u32, ctrls: &[i32], targs: &[i32]) -> (res: Result<(u64, u64), InputFault>)
    requires
        n <= MAX_INDEX_BITS,
    ensures
        res == (match gate_fault(n as nat, ctrls@, targs@) {
            Some(fault) => Err::<(u64, u64), InputFault>(fault),
            None => Ok((mask_of(ctrls@), mask_of(targs@))),
        }),
        res matches Ok(m) ==> m.0 < span(n as nat) && m.1 < span(n as nat) && m.0 & m.1 == 0,
{
    let tm = match check_list(n, targs) {
        Ok(m) => m,
        Err(fault) => {
            return Err(fault);
        },
    };
    let cm = match check_list(n, ctrls) {
        Ok(m) => m,
        Err(fault) => {
            return Err(fault);
        },
    };
    proof {
        lemma_masks_apart(n as nat, ctrls@, targs@);
    }
    if cm & tm != 0 {
        return Err(InputFault::ControlTargetOverlap);
    }
    Ok((cm, tm))
}

/// The faults of a gate with one target are those of the target, then
/// those of the controls, then the target being among the controls.
pub proof fn lemma_one_target_fault(n: nat, ctrls: Seq<i32>, t: i32)
    requires
        1 <= n,
    ensures
        gate_fault(n, ctrls, seq![t]) == (if !qubit_ok(n, t) {
            Some(InputFault::QubitIndex)
        } else if list_fault(n, ctrls) is Some {
            list_fault(n, ctrls)
        } else if ctrls.contains(t) {
            Some(InputFault::ControlTargetOverlap)
        } else {
            None
        }),
{
    let one = seq![t];
    assert(one.len() == 1 && one[0] == t);
    if qubit_ok(n, t) {
        assert(all_ok(n, one));
    } else {
        assert(!qubit_ok(n, one[0]));
    }
    assert(distinct(one));
    if ctrls.contains(t) {
        let i = choose|i: int| 0 <= i < ctrls.len() && ctrls[i] == t;
        assert(ctrls[i] == one[0]);
    }
    if !disjoint(ctrls, one) {
        let (i, j) = choose|i: int, j: int|
            0 <= i < ctrls.len() && 0 <= j < one.len() && ctrls[i] == one[j];
        assert(ctrls[i] == t);
    }
}

/// Checks the controls and the one target of a gate and returns the mask
/// of the controls and the bit of the target.
pub(crate) fn check_controls_target(n: u32, ctrls: &[i32], t: i32) -> (res: Result<
    (u64, u64),
    InputFault,
>)
    requires
        1 <= n <= MAX_INDEX_BITS,
    ensures
        res == (match gate_fault(n as nat, ctrls@, seq![t]) {
            Some(fault) => Err::<(u64, u64), InputFault>(fault),
            None => Ok((mask_of(ctrls@), bit(t as nat))),
        }),
        res matches Ok(m) ==> m.0 < span(n as nat) && m.1 < span(n as nat) && m.0 & m.1 == 0
            && m.1 != 0 && qubit_ok(n as nat, t) && list_fault(n as nat, ctrls@) is None,
{
    proof {
        lemma_one_target_fault(n as nat, ctrls@, t);
    }
    let tb = match check_qubit(n, t) {
        Ok(b) => b,
        Err(fault) => {
            return Err(fault);
        },
    };
    let cm = match check_list(n, ctrls) {
        Ok(m) => m,
        Err(fault) => {
            return Err(fault);
        },
    };
    proof {
        lemma_mask_of_members(n as nat, ctrls@, t);
    }
    if cm & tb != 0 {
        return Err(InputFault::ControlTargetOverlap);
    }
    Ok((cm, tb))
}

/// The value mask of a list of control states lies within the mask of
/// the controls.
pub proof fn lemma_value_within_mask(qs: Seq<i32>, states: Seq<i32>)
    requires
        states.len() == qs.len(),
    ensures
        value_of(qs, states) | mask_of(qs) == mask_of(qs),
    decreases qs.len(),
{
    if qs.len() == 0 {
        lemma_masks(0, 0, 0);
    } else {
        lemma_value_within_mask(qs.drop_last(), states.drop_last());
        let v = value_of(qs.drop_last(), states.drop_last());
        let m = mask_of(qs.drop_last());
        let b = bit(qs.last() as nat);
        lemma_masks(v, b, m);
    }
}

/// Checks a list of control states against its controls and returns the
/// mask of the controls that must be one.
pub(crate) fn check_states(ctrls: &[i32], states: &[i32]) -> (res: Result<u64, InputFault>)
    requires
        forall|k: int| 0 <= k < ctrls@.len() ==> 0 <= #[trigger] ctrls@[k] < 64,
    ensures
        res == (match states_fault(ctrls@, states@) {
            Some(fault) => Err::<u64, InputFault>(fault),
            None => Ok(value_of(ctrls@, states@)),
        }),
        res matches Ok(v) ==> v | mask_of(ctrls@) == mask_of(ctrls@),
{
    let len = ctrls.len();
    if states.len() != len {
        return Err(InputFault::ListLength);
    }
    let mut k: usize = 0;
    while k < len
        invariant
            k <= len,
            len == ctrls@.len(),
            len == states@.len(),
            forall|i: int| 0 <= i < k ==> #[trigger] states@[i] == 0 || states@[i] == 1,
        decreases len - k,
    {
        if states[k] != 0 && states[k] != 1 {
            return Err(InputFault::ControlState);
        }
        k += 1;
    }
    let mut value: u64 = 0;
    k = 0;
    while k < len
        invariant
            k <= len,
            len == ctrls@.len(),
            len == states@.len(),
            forall|i: int| 0 <= i < ctrls@.len() ==> 0 <= #[trigger] ctrls@[i] < 64,
            value == value_of(ctrls@.take(k as int), states@.take(k as int)),
        decreases len - k,
    {
        assert(ctrls@.take(k + 1).drop_last() =~= ctrls@.take(k as int));
        assert(states@.take(k + 1).drop_last() =~= states@.take(k as int));
        if states[k] == 1 {
            value = value | (1u64 << (ctrls[k] as u64));
        }
        k += 1;
    }
    proof {
        assert(ctrls@.take(len as int) =~= ctrls@);
        assert(states@.take(len as int) =~= states@);
        lemma_value_within_mask(ctrls@, states@);
    }
    Ok(value)
}

/// The bits of the qubits `qs`, each moved up by `shift` positions.
pub open spec fn bits_of(qs: Seq<i32>, shift: nat) -> Seq<u64> {
    Seq::new(qs.len(), |m: int| bit((qs[m] + shift) as nat))
}

/// The bits of a valid list of qubits are target bits, and their union
/// is the mask of the list, moved up likewise.
pub proof fn lemma_bits_of(n: nat, qs: Seq<i32>, shift: nat, total: nat)
    requires
        list_fault(n, qs) is None,
        n + shift <= total <= MAX_INDEX_BITS,
        shift == 0 || shift == n,
    ensures
        target_bits(bits_of(qs, shift), total),
        union(bits_of(qs, shift)) == mask_of(qs) << (shift as u64),
    decreases qs.len(),
{
    let tb = bits_of(qs, shift);
    assert forall|m: int| 0 <= m < tb.len() implies single_bit(#[trigger] tb[m], total) by {
        assert(qubit_ok(n, qs[m]));
        let q = (qs[m] + shift) as nat;
        assert(q < total && tb[m] == bit(q));
    }
    assert forall|a: int, b: int| 0 <= a < b < tb.len() implies tb[a] != tb[b] by {
        assert(qubit_ok(n, qs[a]) && qubit_ok(n, qs[b]));
        assert(qs[a] != qs[b]);
        lemma_bits_apart((qs[a] + shift) as nat, (qs[b] + shift) as nat);
        let (x, y) = (tb[a], tb[b]);
        lemma_masks(x, y, 0);
    }
    if qs.len() == 0 {
        lemma_zero_mask(0, shift as u64);
    } else {
        let rest = qs.drop_last();
        assert forall|k: int| 0 <= k < rest.len() implies qubit_ok(n, #[trigger] rest[k]) by {
            assert(rest[k] == qs[k]);
        }
        assert(distinct(rest)) by {
            assert forall|i: int, j: int| 0 <= i < j < rest.len() implies rest[i] != rest[j] by {
                assert(rest[i] == qs[i] && rest[j] == qs[j]);
            }
        }
        lemma_bits_of(n, rest, shift, total);
        assert(bits_of(qs, shift).drop_last() =~= bits_of(rest, shift));
        let last = qs.last();
        assert(qubit_ok(n, qs[qs.len() - 1]));
        lemma_mask_of_members(n, rest, last);
        lemma_bit_below_span(last as nat, n);
        let m = mask_of(rest);
        let b = bit(last as nat);
        if shift == 0 {
            lemma_masks(m, b, 0);
        } else {
            lemma_shifted(m, b, last as nat, n);
        }
    }
}

/// The bits of the qubits `qs`, each moved up by `shift` positions.
pub(crate) fn bits_of_list(n: u32, qs: &[i32], shift: u32) -> (tbits: Vec<u64>)
    requires
        list_fault(n as nat, qs@) is None,
        n + shift <= MAX_INDEX_BITS,
    ensures
        tbits@ == bits_of(qs@, shift as nat),
{
    let mut tbits: Vec<u64> = Vec::new();
    let mut m: usize = 0;
    while m < qs.len()
        invariant
            m <= qs@.len(),
            n + shift <= MAX_INDEX_BITS,
            all_ok(n as nat, qs@),
            tbits@.len() == m,
            forall|i: int| 0 <= i < m ==> #[trigger] tbits@[i] == bit((qs@[i] + shift) as nat),
        decreases qs@.len() - m,
    {
        let q = qs[m];
        assert(qubit_ok(n as nat, qs@[m as int]));
        tbits.push(1u64 << ((q as u32 + shift) as u64));
        m += 1;
    }
    assert(tbits@ =~= bits_of(qs@, shift as nat));
    tbits
}

} // verus!
