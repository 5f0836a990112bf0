//! Laws that relate applications of the exact gates.

use vstd::prelude::*;
use crate::amplitude::{lemma_turns_keep_size, Qcomplex};
use crate::bits::{
    all_set, bit, flipped, lemma_bit_below_span, lemma_bits_apart, lemma_flip_keeps_selection,
    lemma_flip_twice, lemma_ops_below_span, lemma_shifted, lemma_single_bit, lemma_span_is_pow2,
    lemma_diagonal_bits, lemma_swap_partner, selected, lemma_zero_mask, span, MAX_INDEX_BITS,
};
use crate::kernel::pair_mapped;
use crate::measure::excludes;
use crate::reduce::{folded, having, picked};
use crate::state::{
    amps_negate, amps_not, amps_project, amps_quarter, amps_swap, unit_amps, QuregState,
};
use crate::validate::{qubit_ok, two_targets_fault};

verus! {

/// A NOT whose controls are apart from the flipped bits undoes itself.
pub proof fn lemma_amps_not_twice(a: Seq<Qcomplex>, n: nat, ctrl: u64, flip: u64)
    requires
        n <= MAX_INDEX_BITS,
        a.len() == span(n),
        flip < span(n),
        ctrl & flip == 0,
    ensures
        amps_not(amps_not(a, ctrl, flip), ctrl, flip) == a,
{
    let once = amps_not(a, ctrl, flip);
    let twice = amps_not(once, ctrl, flip);
    assert forall|i: int| 0 <= i < a.len() implies twice[i] == a[i] by {
        let x = i as u64;
        lemma_ops_below_span(x, flip, n);
        lemma_flip_twice(x, flip);
        lemma_flip_keeps_selection(x, ctrl, ctrl, flip);
    }
    assert(twice =~= a);
}

/// Two NOTs commute where neither flips a control of the other.
pub proof fn lemma_amps_not_commute(
    a: Seq<Qcomplex>,
    n: nat,
    c1: u64,
    f1: u64,
    c2: u64,
    f2: u64,
)
    requires
        n <= MAX_INDEX_BITS,
        a.len() == span(n),
        f1 < span(n),
        f2 < span(n),
        c1 & f2 == 0,
        c2 & f1 == 0,
    ensures
        amps_not(amps_not(a, c1, f1), c2, f2) == amps_not(amps_not(a, c2, f2), c1, f1),
{
    let left = amps_not(amps_not(a, c1, f1), c2, f2);
    let right = amps_not(amps_not(a, c2, f2), c1, f1);
    assert forall|i: int| 0 <= i < a.len() implies left[i] == right[i] by {
        let x = i as u64;
        lemma_ops_below_span(x, f1, n);
        lemma_ops_below_span(x, f2, n);
        lemma_ops_below_span(flipped(x, f1), f2, n);
        lemma_ops_below_span(flipped(x, f2), f1, n);
        lemma_flip_keeps_selection(x, c1, c1, f2);
        lemma_flip_keeps_selection(x, c2, c2, f1);
        assert((x ^ f1) ^ f2 == (x ^ f2) ^ f1) by (bit_vector);
    }
    assert(left =~= right);
}

/// Applying the same NOT twice restores the register: the amplitudes
/// come back exactly. The NOT may flip any set of qubits `flip` and be
/// controlled by any set `ctrl` apart from it; Pauli X is the case of one
/// flipped qubit and no control.
pub proof fn law_not_twice(s: QuregState, ctrl: u64, flip: u64)
    requires
        s.wf(),
        ctrl < span(s.num_qubits),
        flip < span(s.num_qubits),
        ctrl & flip == 0,
    ensures
        s.not_gate(ctrl, flip).not_gate(ctrl, flip) == s,
{
    let n = s.num_qubits;
    let nb = s.index_bits();
    lemma_span_is_pow2(nb);
    if s.is_density {
        lemma_shifted(ctrl, flip, 0, n);
        let cc = s.col(ctrl);
        let cf = s.col(flip);
        let r = amps_not(s.amps, ctrl, flip);
        let cr = amps_not(r, cc, cf);
        let rcr = amps_not(cr, ctrl, flip);
        lemma_amps_not_commute(r, nb, cc, cf, ctrl, flip);
        lemma_amps_not_twice(s.amps, nb, ctrl, flip);
        lemma_amps_not_twice(amps_not(r, ctrl, flip), nb, cc, cf);
        assert(rcr == amps_not(amps_not(r, ctrl, flip), cc, cf));
        assert(amps_not(rcr, cc, cf) == s.amps);
        assert(s.not_gate(ctrl, flip).col(ctrl) == cc);
    } else {
        lemma_amps_not_twice(s.amps, nb, ctrl, flip);
    }
}

/// Applying Pauli X twice to the same qubit restores every amplitude.
pub proof fn law_pauli_x_twice(s: QuregState, target_qubit: i32)
    requires
        s.wf(),
        qubit_ok(s.num_qubits, target_qubit),
    ensures
        s.not_gate(0, bit(target_qubit as nat)).not_gate(0, bit(target_qubit as nat)) == s,
{
    lemma_bit_below_span(target_qubit as nat, s.num_qubits);
    lemma_zero_mask(0, bit(target_qubit as nat));
    law_not_twice(s, 0, bit(target_qubit as nat));
}

/// Swapping two index bits twice gives the amplitudes back.
pub proof fn lemma_amps_swap_twice(a: Seq<Qcomplex>, n: nat, pa: nat, pb: nat)
    requires
        n <= MAX_INDEX_BITS,
        a.len() == span(n),
        pa < n,
        pb < n,
        pa != pb,
    ensures
        amps_swap(amps_swap(a, bit(pa), bit(pb)), bit(pa), bit(pb)) == a,
{
    let b1 = bit(pa);
    let b2 = bit(pb);
    let once = amps_swap(a, b1, b2);
    let twice = amps_swap(once, b1, b2);
    lemma_bit_below_span(pa, n);
    lemma_bit_below_span(pb, n);
    lemma_ops_below_span(b1, b2, n);
    assert forall|i: int| 0 <= i < a.len() implies twice[i] == a[i] by {
        let x = i as u64;
        lemma_ops_below_span(x, b1 | b2, n);
        lemma_flip_twice(x, b1 | b2);
        lemma_swap_partner(x, pa, pb);
    }
    assert(twice =~= a);
}

/// Swaps of row bits and of column bits commute.
pub proof fn lemma_amps_swap_commute(
    a: Seq<Qcomplex>,
    n: nat,
    pa: nat,
    pb: nat,
    q1: nat,
    q2: nat,
)
    requires
        n <= MAX_INDEX_BITS,
        a.len() == span(n),
        pa < n,
        pb < n,
        q1 < n,
        q2 < n,
        pa != q1,
        pa != q2,
        pb != q1,
        pb != q2,
    ensures
        amps_swap(amps_swap(a, bit(pa), bit(pb)), bit(q1), bit(q2)) == amps_swap(
            amps_swap(a, bit(q1), bit(q2)),
            bit(pa),
            bit(pb),
        ),
{
    let fp = bit(pa) | bit(pb);
    let fq = bit(q1) | bit(q2);
    let left = amps_swap(amps_swap(a, bit(pa), bit(pb)), bit(q1), bit(q2));
    let right = amps_swap(amps_swap(a, bit(q1), bit(q2)), bit(pa), bit(pb));
    lemma_bit_below_span(pa, n);
    lemma_bit_below_span(pb, n);
    lemma_bit_below_span(q1, n);
    lemma_bit_below_span(q2, n);
    lemma_ops_below_span(bit(pa), bit(pb), n);
    lemma_ops_below_span(bit(q1), bit(q2), n);
    lemma_bits_apart(pa, q1);
    lemma_bits_apart(pa, q2);
    lemma_bits_apart(pb, q1);
    lemma_bits_apart(pb, q2);
    let (b1, b2, d1, d2) = (bit(pa), bit(pb), bit(q1), bit(q2));
    assert forall|i: int| 0 <= i < a.len() implies left[i] == right[i] by {
        let x = i as u64;
        lemma_ops_below_span(x, fp, n);
        lemma_ops_below_span(x, fq, n);
        lemma_ops_below_span(flipped(x, fp), fq, n);
        lemma_ops_below_span(flipped(x, fq), fp, n);
        assert(b1 & d1 == 0 && b1 & d2 == 0 && b2 & d1 == 0 && b2 & d2 == 0 ==> ((x ^ (b1 | b2))
            & d1 == x & d1) && ((x ^ (b1 | b2)) & d2 == x & d2) && ((x ^ (d1 | d2)) & b1 == x
            & b1) && ((x ^ (d1 | d2)) & b2 == x & b2) && ((x ^ (b1 | b2)) ^ (d1 | d2) == (x ^ (d1
            | d2)) ^ (b1 | b2))) by (bit_vector);
    }
    assert(left =~= right);
}

/// Applying the swap gate twice to the same two qubits restores the
/// register.
pub proof fn law_swap_twice(s: QuregState, qubit1: i32, qubit2: i32)
    requires
        s.wf(),
        two_targets_fault(s.num_qubits, qubit1, qubit2) is None,
    ensures
        s.swap_gate(bit(qubit1 as nat), bit(qubit2 as nat)).swap_gate(
            bit(qubit1 as nat),
            bit(qubit2 as nat),
        ) == s,
{
    let n = s.num_qubits;
    let nb = s.index_bits();
    let pa = qubit1 as nat;
    let pb = qubit2 as nat;
    lemma_span_is_pow2(nb);
    if s.is_density {
        lemma_bit_below_span(pa, n);
        lemma_bit_below_span(pb, n);
        lemma_shifted(bit(pa), bit(pb), pa, n);
        lemma_shifted(bit(pb), bit(pa), pb, n);
        let c1 = bit(pa + n);
        let c2 = bit(pb + n);
        assert(s.col(bit(pa)) == c1 && s.col(bit(pb)) == c2);
        let r = amps_swap(s.amps, bit(pa), bit(pb));
        let cr = amps_swap(r, c1, c2);
        let rcr = amps_swap(cr, bit(pa), bit(pb));
        lemma_amps_swap_commute(r, nb, pa + n, pb + n, pa, pb);
        lemma_amps_swap_twice(s.amps, nb, pa, pb);
        lemma_amps_swap_twice(amps_swap(r, bit(pa), bit(pb)), nb, pa + n, pb + n);
        assert(rcr == amps_swap(amps_swap(r, bit(pa), bit(pb)), c1, c2));
        assert(amps_swap(rcr, c1, c2) == s.amps);
    } else {
        lemma_amps_swap_twice(s.amps, nb, pa, pb);
    }
}

/// After a projection of a qubit onto an outcome, every amplitude of a
/// state-vector in which the qubit has the other value is zero, and
/// projecting again changes nothing.
pub proof fn law_projection(s: QuregState, qubit: i32, outcome: bool)
    requires
        s.wf(),
        qubit_ok(s.num_qubits, qubit),
    ensures
        ({
            let target = bit(qubit as nat);
            let keep = if outcome {
                target
            } else {
                0
            };
            let after = s.projected(target, keep);
            &&& after.projected(target, keep) == after
            &&& !s.is_density ==> forall|x: u64|
                x < after.amps.len() && (x & target != 0) != outcome ==> #[trigger] after.amps[x as int]
                    == Qcomplex::spec_zero()
        }),
{
    let target = bit(qubit as nat);
    let keep = if outcome {
        target
    } else {
        0
    };
    let after = s.projected(target, keep);
    lemma_span_is_pow2(s.index_bits());
    let once = amps_project(s.amps, target, keep);
    assert(amps_project(once, target, keep) =~= once);
    if s.is_density {
        let ct = s.col(target);
        let ck = s.col(keep);
        let both = amps_project(once, ct, ck);
        assert(after.amps == both);
        assert(amps_project(both, target, keep) =~= both);
        assert(amps_project(both, ct, ck) =~= both);
    } else {
        assert forall|x: u64| x < after.amps.len() && (x & target != 0) != outcome implies #[trigger] after.amps[x as int]
            == Qcomplex::spec_zero() by {
            lemma_single_bit(x, qubit as nat);
        }
    }
}

/// A projection leaves nothing that contradicts its outcome.
pub proof fn law_projection_excludes(s: QuregState, qubit: i32, outcome: bool)
    requires
        s.wf(),
        qubit_ok(s.num_qubits, qubit),
    ensures
        excludes(
            s.projected(
                bit(qubit as nat),
                if outcome {
                    bit(qubit as nat)
                } else {
                    0
                },
            ),
            bit(qubit as nat),
            if outcome {
                bit(qubit as nat)
            } else {
                0
            },
        ),
{
    let target = bit(qubit as nat);
    let keep = if outcome {
        target
    } else {
        0
    };
    let after = s.projected(target, keep);
    lemma_span_is_pow2(s.index_bits());
    assert forall|x: u64| x < after.amps.len() && !after.agrees(x, target, keep) implies #[trigger] after.amps[x as int]
        == Qcomplex::spec_zero() by {
        let once = amps_project(s.amps, target, keep);
        assert(once[x as int] == (if selected(x, target, keep) {
            s.amps[x as int]
        } else {
            Qcomplex::spec_zero()
        }));
    }
}

/// A fold over amplitudes that are all zero, by a function that leaves
/// its accumulator alone on a zero amplitude, returns what it started
/// from.
pub proof fn lemma_fold_of_zeros<A, F: Fn(A, Qcomplex) -> A>(
    f: F,
    items: Seq<Qcomplex>,
    keep: spec_fn(int) -> bool,
    init: A,
    result: A,
)
    requires
        forall|i: int| 0 <= i < items.len() && keep(i) ==> items[i] == Qcomplex::spec_zero(),
        forall|acc: A, r: A| call_ensures(f, (acc, Qcomplex::spec_zero()), r) ==> r == acc,
        folded(f, picked(items, keep), init, result),
    ensures
        result == init,
    decreases items.len(),
{
    if items.len() == 0 {
    } else {
        let rest = items.drop_last();
        assert forall|i: int| 0 <= i < rest.len() && keep(i) implies rest[i]
            == Qcomplex::spec_zero() by {
            assert(rest[i] == items[i]);
        }
        if keep(items.len() - 1) {
            let all = picked(rest, keep).push(items.last());
            assert(picked(items, keep) == all);
            assert(all.drop_last() =~= picked(rest, keep));
            assert(all.last() == items[items.len() - 1]);
            let mid = choose|mid: A|
                folded(f, all.drop_last(), init, mid) && #[trigger] call_ensures(
                    f,
                    (mid, all.last()),
                    result,
                );
            lemma_fold_of_zeros(f, rest, keep, init, mid);
        } else {
            lemma_fold_of_zeros(f, rest, keep, init, result);
        }
    }
}

/// After a collapse or a projection of a qubit onto an outcome, the
/// other outcome has probability zero: a sum over the basis states in
/// which the qubit has the other value, formed by a function that
/// leaves its accumulator alone on a zero amplitude, returns what it
/// started from.
pub proof fn law_other_outcome_vanishes<A, F: Fn(A, Qcomplex) -> A>(
    s: QuregState,
    qubit: i32,
    outcome: i32,
    other_outcome: i32,
    f: F,
    init: A,
    result: A,
)
    requires
        s.wf(),
        qubit_ok(s.num_qubits, qubit),
        outcome == 0 || outcome == 1,
        other_outcome == 1 - outcome,
        excludes(
            s,
            bit(qubit as nat),
            if outcome == 1 {
                bit(qubit as nat)
            } else {
                0
            },
        ),
        forall|acc: A, r: A| call_ensures(f, (acc, Qcomplex::spec_zero()), r) ==> r == acc,
        folded(f, picked(s.basis(), having(qubit, other_outcome)), init, result),
    ensures
        result == init,
{
    let n = s.num_qubits;
    let target = bit(qubit as nat);
    let keep = if outcome == 1 {
        target
    } else {
        0
    };
    let items = s.basis();
    let other = having(qubit, other_outcome);
    lemma_span_is_pow2(n);
    lemma_span_is_pow2(s.index_bits());
    assert forall|k: int| 0 <= k < items.len() && other(k) implies items[k]
        == Qcomplex::spec_zero() by {
        let kk = k as u64;
        lemma_single_bit(kk, qubit as nat);
        if s.is_density {
            lemma_diagonal_bits(kk, qubit as nat, n);
            let x = (kk + kk * span(n)) as u64;
            lemma_single_bit(x, qubit as nat);
            assert(s.classical_index(k) == x);
            assert(!s.agrees(x, target, keep));
            assert(s.amps[x as int] == Qcomplex::spec_zero());
        } else {
            assert(!s.agrees(kk, target, keep));
            assert(s.amps[kk as int] == Qcomplex::spec_zero());
        }
    }
    lemma_fold_of_zeros(f, items, other, init, result);
}

/// `amps` after the pairs that start below `upto` have traded their
/// amplitudes: the pairs are those of a selected index and its partner.
pub open spec fn partly_traded(
    amps: Seq<Qcomplex>,
    mask: u64,
    value: u64,
    flip: u64,
    upto: int,
) -> Seq<Qcomplex> {
    Seq::new(
        amps.len(),
        |x: int|
            if (selected(x as u64, mask, value) && x < upto) || (selected(
                flipped(x as u64, flip),
                mask,
                value,
            ) && flipped(x as u64, flip) < upto) {
                amps[flipped(x as u64, flip) as int]
            } else {
                amps[x]
            },
    )
}

/// Trading the amplitudes of pairs keeps the amplitudes as a multiset.
pub proof fn lemma_trades_permute(
    amps: Seq<Qcomplex>,
    n: nat,
    mask: u64,
    value: u64,
    flip: u64,
    upto: int,
)
    requires
        n <= MAX_INDEX_BITS,
        amps.len() == span(n),
        flip < span(n),
        mask & flip != 0,
        0 <= upto <= amps.len(),
    ensures
        partly_traded(amps, mask, value, flip, upto).to_multiset() == amps.to_multiset(),
    decreases upto,
{
    broadcast use vstd::seq_lib::group_to_multiset_ensures;

    if upto == 0 {
        assert(partly_traded(amps, mask, value, flip, 0) =~= amps);
    } else {
        lemma_trades_permute(amps, n, mask, value, flip, upto - 1);
        let p = partly_traded(amps, mask, value, flip, upto - 1);
        let q = partly_traded(amps, mask, value, flip, upto);
        let x = (upto - 1) as u64;
        let y = flipped(x, flip);
        lemma_ops_below_span(x, flip, n);
        lemma_flip_twice(x, flip);
        if selected(x, mask, value) {
            crate::bits::lemma_flip_leaves_selection(x, mask, value, flip);
            let step = p.update(x as int, amps[y as int]).update(y as int, amps[x as int]);
            assert forall|z: int| 0 <= z < amps.len() implies q[z] == step[z] by {
                let zz = z as u64;
                lemma_ops_below_span(zz, flip, n);
                lemma_flip_twice(zz, flip);
                if selected(zz, mask, value) {
                    crate::bits::lemma_flip_leaves_selection(zz, mask, value, flip);
                }
            }
            assert(q =~= step);
            assert(p[x as int] == amps[x as int]);
            assert(p[y as int] == amps[y as int]);
            let first = p.update(x as int, amps[y as int]);
            vstd::seq_lib::to_multiset_update(p, x as int, amps[y as int]);
            vstd::seq_lib::to_multiset_update(first, y as int, amps[x as int]);
            assert(first[y as int] == amps[y as int]);
            assert(p.to_multiset().count(amps[x as int]) > 0) by {
                assert(p.contains(amps[x as int]));
            }
            assert(q.to_multiset() =~= p.to_multiset());
        } else {
            assert forall|z: int| 0 <= z < amps.len() implies q[z] == p[z] by {
                let zz = z as u64;
                lemma_ops_below_span(zz, flip, n);
                lemma_flip_twice(zz, flip);
            }
            assert(q =~= p);
        }
    }
}

/// A NOT permutes the amplitudes: the register holds the same
/// amplitudes after it as before it, each as often, at other places. So
/// does a controlled NOT, and a NOT on several qubits; `pick` is any one
/// of the qubits that are flipped.
pub proof fn law_not_permutes(s: QuregState, ctrl: u64, flip: u64, pick: nat)
    requires
        s.wf(),
        ctrl < span(s.num_qubits),
        flip < span(s.num_qubits),
        ctrl & flip == 0,
        pick < s.num_qubits,
        bit(pick) & flip != 0,
    ensures
        s.not_gate(ctrl, flip).amps.to_multiset() == s.amps.to_multiset(),
{
    let n = s.num_qubits;
    let nb = s.index_bits();
    lemma_span_is_pow2(nb);
    lemma_span_is_pow2(n);
    if s.is_density {
        lemma_shifted(ctrl, flip, pick, n);
        let rows = amps_not(s.amps, ctrl, flip);
        lemma_not_is_trades(s.amps, nb, ctrl, pick, flip);
        lemma_not_is_trades(rows, nb, s.col(ctrl), pick + n, s.col(flip));
    } else {
        lemma_not_is_trades(s.amps, nb, ctrl, pick, flip);
    }
}

/// A NOT is the trade of every pair whose partner with `pick` clear has
/// its controls set, and so keeps the amplitudes as a multiset.
pub proof fn lemma_not_is_trades(amps: Seq<Qcomplex>, n: nat, ctrl: u64, pick: nat, flip: u64)
    requires
        n <= MAX_INDEX_BITS,
        amps.len() == span(n),
        flip < span(n),
        pick < 64,
        bit(pick) & flip != 0,
        ctrl & flip == 0,
    ensures
        amps_not(amps, ctrl, flip).to_multiset() == amps.to_multiset(),
{
    let mask = ctrl | bit(pick);
    crate::bits::lemma_not_selection(0, ctrl, pick, flip);
    lemma_trades_permute(amps, n, mask, ctrl, flip, amps.len() as int);
    let traded = partly_traded(amps, mask, ctrl, flip, amps.len() as int);
    assert forall|z: int| 0 <= z < amps.len() implies traded[z] == amps_not(amps, ctrl, flip)[z] by {
        let zz = z as u64;
        lemma_ops_below_span(zz, flip, n);
        crate::bits::lemma_not_selection(zz, ctrl, pick, flip);
    }
    assert(traded =~= amps_not(amps, ctrl, flip));
}

/// A swap of two qubits permutes the amplitudes.
pub proof fn law_swap_permutes(s: QuregState, qubit1: i32, qubit2: i32)
    requires
        s.wf(),
        two_targets_fault(s.num_qubits, qubit1, qubit2) is None,
    ensures
        s.swap_gate(bit(qubit1 as nat), bit(qubit2 as nat)).amps.to_multiset()
            == s.amps.to_multiset(),
{
    let n = s.num_qubits;
    let nb = s.index_bits();
    let pa = qubit1 as nat;
    let pb = qubit2 as nat;
    lemma_span_is_pow2(nb);
    lemma_span_is_pow2(n);
    lemma_bit_below_span(pa, n);
    lemma_bit_below_span(pb, n);
    if s.is_density {
        lemma_shifted(bit(pa), bit(pb), pa, n);
        lemma_shifted(bit(pb), bit(pa), pb, n);
        let rows = amps_swap(s.amps, bit(pa), bit(pb));
        lemma_swap_is_trades(s.amps, nb, pa, pb);
        lemma_swap_is_trades(rows, nb, pa + n, pb + n);
    } else {
        lemma_swap_is_trades(s.amps, nb, pa, pb);
    }
}

/// A swap of two index bits is the trade of every pair in which exactly
/// one of them is set, and so keeps the amplitudes as a multiset.
pub proof fn lemma_swap_is_trades(amps: Seq<Qcomplex>, n: nat, pa: nat, pb: nat)
    requires
        n <= MAX_INDEX_BITS,
        amps.len() == span(n),
        pa < n,
        pb < n,
        pa != pb,
    ensures
        amps_swap(amps, bit(pa), bit(pb)).to_multiset() == amps.to_multiset(),
{
    let both = bit(pa) | bit(pb);
    lemma_bit_below_span(pa, n);
    lemma_bit_below_span(pb, n);
    lemma_ops_below_span(bit(pa), bit(pb), n);
    crate::bits::lemma_swap_selection(0, pa, pb);
    lemma_trades_permute(amps, n, both, bit(pa), both, amps.len() as int);
    let traded = partly_traded(amps, both, bit(pa), both, amps.len() as int);
    assert forall|z: int| 0 <= z < amps.len() implies traded[z] == amps_swap(
        amps,
        bit(pa),
        bit(pb),
    )[z] by {
        let zz = z as u64;
        lemma_ops_below_span(zz, both, n);
        crate::bits::lemma_swap_selection(zz, pa, pb);
    }
    assert(traded =~= amps_swap(amps, bit(pa), bit(pb)));
}

/// A phase flip keeps the size of every amplitude, and with it every
/// squared magnitude. So do Pauli Z and the controlled phase flips.
pub proof fn law_phase_flip_keeps_sizes(s: QuregState, mask: u64)
    requires
        s.wf(),
    ensures
        forall|i: int|
            0 <= i < s.amps.len() ==> (#[trigger] s.phase_flip(mask).amps[i]).same_size(s.amps[i]),
{
    assert forall|i: int| 0 <= i < s.amps.len() implies (#[trigger] s.phase_flip(
        mask,
    ).amps[i]).same_size(s.amps[i]) by {
        let z = s.amps[i];
        lemma_turns_keep_size(z);
        lemma_turns_keep_size(z.spec_neg());
        let once = amps_negate(s.amps, mask);
        assert(once[i] == z || once[i] == z.spec_neg());
        if s.is_density {
            let twice = amps_negate(once, s.col(mask));
            assert(twice[i] == once[i] || twice[i] == once[i].spec_neg());
            crate::amplitude::lemma_quarter_turns(z);
        }
    }
}

/// The S gate keeps the size of every amplitude, and with it every
/// squared magnitude.
pub proof fn law_s_gate_keeps_sizes(s: QuregState, target: u64)
    requires
        s.wf(),
    ensures
        forall|i: int|
            0 <= i < s.amps.len() ==> (#[trigger] s.s_gate(target).amps[i]).same_size(s.amps[i]),
{
    assert forall|i: int| 0 <= i < s.amps.len() implies (#[trigger] s.s_gate(
        target,
    ).amps[i]).same_size(s.amps[i]) by {
        let z = s.amps[i];
        lemma_turns_keep_size(z);
        lemma_turns_keep_size(z.spec_times_i());
        let once = amps_quarter(s.amps, target, false);
        assert(once[i] == z || once[i] == z.spec_times_i());
        if s.is_density {
            let twice = amps_quarter(once, s.col(target), true);
            assert(twice[i] == once[i] || twice[i] == once[i].spec_times_neg_i());
            crate::amplitude::lemma_quarter_turns(z);
        }
    }
}

/// Whether the qubits `first` and `second` agree wherever a
/// state-vector has an amplitude other than zero, as the two qubits of
/// a Bell pair `|00> + |11>` do.
pub open spec fn correlated(s: QuregState, first: i32, second: i32) -> bool {
    forall|x: u64|
        x < s.amps.len() && (x & bit(first as nat) != 0) != (x & bit(second as nat) != 0)
            ==> #[trigger] s.amps[x as int] == Qcomplex::spec_zero()
}

/// A Bell pair is correlated: a register of two qubits in its zero
/// state, after any one-qubit map on qubit 0 that leaves a pair of
/// zeros as it is, as the Hadamard gate does, and a NOT on qubit 1
/// controlled by qubit 0, has no amplitude but zero in which the two
/// qubits differ.
///
/// `mid` holds the amplitudes after the map `h` on qubit 0.
pub proof fn law_bell_pair_is_correlated<F: Fn(Qcomplex, Qcomplex) -> (Qcomplex, Qcomplex)>(
    start: QuregState,
    mid: Seq<Qcomplex>,
    h: F,
)
    requires
        start.wf(),
        !start.is_density,
        start.num_qubits == 2,
        start.amps == unit_amps(4, 0),
        pair_mapped(start.amps, mid, 0 | bit(0), 0, bit(0), h),
        forall|r: (Qcomplex, Qcomplex)|
            call_ensures(h, (Qcomplex::spec_zero(), Qcomplex::spec_zero()), r) ==> r == (
                Qcomplex::spec_zero(),
                Qcomplex::spec_zero(),
            ),
    ensures
        correlated(start.with_amps(mid).not_gate(bit(0), bit(1)), 0, 1),
{
    let zero = Qcomplex::spec_zero();
    let a = bit(0);
    let b = bit(1);
    assert(a == 1 && b == 2 && (0u64 | 1u64) == 1 && 2u64 & 1u64 == 0 && (2u64 ^ 1u64) == 3
        && 1u64 & 1u64 == 1 && (1u64 ^ 2u64) == 3) by (bit_vector)
        requires
            a == 1u64 << 0u64,
            b == 1u64 << 1u64,
    ;
    assert(selected(2u64, 0 | a, 0));
    assert(flipped(2u64, a) == 3);
    assert(start.amps[2] == zero && start.amps[3] == zero);
    assert(mid[2] == zero && mid[3] == zero);
    let after = start.with_amps(mid).not_gate(a, b);
    assert(after.amps == amps_not(mid, a, b));
    assert forall|x: u64|
        x < after.amps.len() && (x & bit(0) != 0) != (x & bit(1) != 0) implies #[trigger] after.amps[x as int]
            == zero by {
        assert(x < 4 && ((x & 1 != 0) != (x & 2 != 0)) ==> x == 1 || x == 2) by (bit_vector);
        if x == 1 {
            assert(all_set(1u64, a));
            assert(after.amps[1] == mid[flipped(1u64, b) as int]);
        } else {
            assert(x == 2);
            assert(!all_set(2u64, a));
            assert(after.amps[2] == mid[2]);
        }
    }
}

/// Two correlated qubits are found in the same state: once the first is
/// collapsed onto an outcome, no amplitude is left in which the second
/// has the other value, so that the other outcome of the second has
/// probability zero.
///
/// `before` and `after` are a state-vector before and after the
/// collapse of `first` onto `outcome`, which rescales by `rescale`; a
/// rescaling leaves zero at zero.
pub proof fn law_correlated_outcomes<F: Fn(Qcomplex) -> Qcomplex>(
    before: QuregState,
    after: QuregState,
    first: i32,
    second: i32,
    outcome: i32,
    rescale: F,
)
    requires
        before.wf(),
        !before.is_density,
        after.same_shape(before),
        after.amps.len() == before.amps.len(),
        qubit_ok(before.num_qubits, first),
        qubit_ok(before.num_qubits, second),
        outcome == 0 || outcome == 1,
        correlated(before, first, second),
        forall|r: Qcomplex|
            call_ensures(rescale, (Qcomplex::spec_zero(),), r) ==> r == Qcomplex::spec_zero(),
        forall|x: u64|
            x < before.amps.len() ==> if before.agrees(
                x,
                bit(first as nat),
                if outcome == 1 {
                    bit(first as nat)
                } else {
                    0
                },
            ) {
                call_ensures(rescale, (before.amps[x as int],), #[trigger] after.amps[x as int])
            } else {
                after.amps[x as int] == Qcomplex::spec_zero()
            },
    ensures
        excludes(
            after,
            bit(second as nat),
            if outcome == 1 {
                bit(second as nat)
            } else {
                0
            },
        ),
{
    let a = bit(first as nat);
    let b = bit(second as nat);
    let keep_a = if outcome == 1 {
        a
    } else {
        0
    };
    let keep_b = if outcome == 1 {
        b
    } else {
        0
    };
    assert forall|x: u64| x < after.amps.len() && !after.agrees(x, b, keep_b) implies #[trigger] after.amps[x as int]
        == Qcomplex::spec_zero() by {
        lemma_single_bit(x, first as nat);
        lemma_single_bit(x, second as nat);
        if before.agrees(x, a, keep_a) {
            assert((x & a != 0) != (x & b != 0));
            assert(before.amps[x as int] == Qcomplex::spec_zero());
        }
    }
}

} // verus!
