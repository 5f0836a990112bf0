//! Blocks of amplitudes.
//!
//! A gate on `k` target qubits acts on blocks of `2^k` amplitudes: the
//! amplitudes whose indices agree outside the target bits. Within a
//! block, amplitude `j` is the one whose target bits spell `j`, the first
//! target being the least significant bit. `spread` places the bits of
//! `j` on the targets and `gather` reads them back.

use vstd::prelude::*;
use crate::amplitude::Qcomplex;
use crate::bits::{
    bit, lemma_bit_below_span, lemma_masks, lemma_ops_below_span, lemma_top_bit, span,
    MAX_INDEX_BITS,
};

verus! {

/// Whether `b` is the bit of one of the first `n` positions.
pub open spec fn single_bit(b: u64, n: nat) -> bool {
    exists|q: nat| q < n && b == bit(q)
}

/// Whether `tbits` lists single index bits below `2^n`, no bit twice.
pub open spec fn target_bits(tbits: Seq<u64>, n: nat) -> bool {
    &&& tbits.len() <= n
    &&& forall|m: int| 0 <= m < tbits.len() ==> single_bit(#[trigger] tbits[m], n)
    &&& forall|a: int, b: int| 0 <= a < b < tbits.len() ==> tbits[a] != tbits[b]
}

/// The mask of all bits in `tbits`.
pub open spec fn union(tbits: Seq<u64>) -> u64
    decreases tbits.len(),
{
    if tbits.len() == 0 {
        0
    } else {
        union(tbits.drop_last()) | tbits.last()
    }
}

/// The index offset whose bit `tbits[m]` is set exactly when bit `m` of
/// `j` is.
pub open spec fn spread(j: u64, tbits: Seq<u64>) -> u64
    decreases tbits.len(),
{
    if tbits.len() == 0 {
        0
    } else if j & bit((tbits.len() - 1) as nat) != 0 {
        spread(j, tbits.drop_last()) | tbits.last()
    } else {
        spread(j, tbits.drop_last())
    }
}

/// The number whose bit `m` is set exactly when bit `tbits[m]` of `x` is.
pub open spec fn gather(x: u64, tbits: Seq<u64>) -> u64
    decreases tbits.len(),
{
    if tbits.len() == 0 {
        0
    } else if x & tbits.last() != 0 {
        gather(x, tbits.drop_last()) | bit((tbits.len() - 1) as nat)
    } else {
        gather(x, tbits.drop_last())
    }
}

/// The block of `amps` that starts at `base`: its amplitude `j` is the
/// one at `base | spread(j, tbits)`.
pub open spec fn block_of(amps: Seq<Qcomplex>, base: u64, tbits: Seq<u64>) -> Seq<Qcomplex> {
    Seq::new(span(tbits.len()) as nat, |j: int| amps[(base | spread(j as u64, tbits)) as int])
}

/// A prefix of a list of target bits is one.
pub proof fn lemma_target_bits_prefix(tbits: Seq<u64>, n: nat)
    requires
        target_bits(tbits, n),
        tbits.len() > 0,
    ensures
        target_bits(tbits.drop_last(), n),
{
    let rest = tbits.drop_last();
    assert forall|m: int| 0 <= m < rest.len() implies single_bit(#[trigger] rest[m], n) by {
        assert(rest[m] == tbits[m]);
    }
    assert forall|a: int, b: int| 0 <= a < b < rest.len() implies rest[a] != rest[b] by {
        assert(rest[a] == tbits[a] && rest[b] == tbits[b]);
    }
}

/// Two different single bits are apart.
proof fn lemma_single_bits_apart(a: u64, b: u64, n: nat)
    requires
        n <= 64,
        single_bit(a, n),
        single_bit(b, n),
        a != b,
    ensures
        a & b == 0,
        a != 0,
        b != 0,
{
    let qa = choose|q: nat| q < n && a == bit(q);
    let qb = choose|q: nat| q < n && b == bit(q);
    crate::bits::lemma_bits_apart(qa, qb);
    crate::bits::lemma_bits_apart(qb, qa);
}

/// The union of target bits stays below `2^n`, and a target bit lies in
/// it exactly when it is listed.
pub proof fn lemma_union(tbits: Seq<u64>, n: nat, b: u64)
    requires
        n <= MAX_INDEX_BITS,
        target_bits(tbits, n),
        single_bit(b, n),
    ensures
        union(tbits) < span(n),
        (union(tbits) & b != 0) <==> tbits.contains(b),
        tbits.contains(b) ==> union(tbits) | b == union(tbits),
    decreases tbits.len(),
{
    let qb = choose|q: nat| q < n && b == bit(q);
    lemma_bit_below_span(qb, n);
    if tbits.len() == 0 {
        lemma_masks(b, 0, 0);
    } else {
        let rest = tbits.drop_last();
        let last = tbits.last();
        lemma_target_bits_prefix(tbits, n);
        lemma_union(rest, n, b);
        assert(single_bit(tbits[tbits.len() - 1], n));
        let ql = choose|q: nat| q < n && last == bit(q);
        lemma_bit_below_span(ql, n);
        let u = union(rest);
        lemma_ops_below_span(u, last, n);
        if last != b {
            lemma_single_bits_apart(last, b, n);
        }
        lemma_masks(u, b, 0);
        lemma_masks(u, last, b);
        if tbits.contains(b) {
            let k = choose|k: int| 0 <= k < tbits.len() && tbits[k] == b;
            if k < rest.len() {
                assert(rest[k] == b);
            }
        }
        if rest.contains(b) {
            let k = choose|k: int| 0 <= k < rest.len() && rest[k] == b;
            assert(tbits[k] == b);
        }
        if last == b {
            assert(tbits[tbits.len() - 1] == b);
        }
    }
}

/// `spread` sets target bit `m` exactly when bit `m` of `j` is set, and
/// sets nothing but target bits.
pub proof fn lemma_spread(j: u64, tbits: Seq<u64>, n: nat)
    requires
        n <= MAX_INDEX_BITS,
        target_bits(tbits, n),
    ensures
        spread(j, tbits) | union(tbits) == union(tbits),
        spread(j, tbits) < span(n),
        forall|m: int|
            0 <= m < tbits.len() ==> ((spread(j, tbits) & #[trigger] tbits[m] != 0) <==> (j & bit(
                m as nat,
            ) != 0)),
    decreases tbits.len(),
{
    if tbits.len() == 0 {
        lemma_masks(0, 0, 0);
        lemma_bit_below_span(0, 1);
        crate::bits::lemma_span_is_pow2(n);
    } else {
        let rest = tbits.drop_last();
        let last = tbits.last();
        let k = (tbits.len() - 1) as nat;
        lemma_target_bits_prefix(tbits, n);
        lemma_spread(j, rest, n);
        let s = spread(j, rest);
        let u = union(rest);
        assert(single_bit(tbits[tbits.len() - 1], n));
        let ql = choose|q: nat| q < n && last == bit(q);
        lemma_bit_below_span(ql, n);
        lemma_ops_below_span(s, last, n);
        lemma_union(rest, n, last);
        assert(!rest.contains(last)) by {
            if rest.contains(last) {
                let i = choose|i: int| 0 <= i < rest.len() && rest[i] == last;
                assert(tbits[i] == tbits[tbits.len() - 1]);
            }
        }
        lemma_masks(s, last, u);
        assert forall|m: int| 0 <= m < tbits.len() implies ((spread(j, tbits) & #[trigger] tbits[m]
            != 0) <==> (j & bit(m as nat) != 0)) by {
            let t = tbits[m];
            if m < rest.len() {
                assert(rest[m] == t);
                assert(t != tbits[tbits.len() - 1]);
                lemma_single_bits_apart(t, last, n);
                lemma_masks(t, last, 0);
                lemma_masks(s, last, t);
                assert((s & rest[m] != 0) <==> (j & bit(m as nat) != 0));
            } else {
                assert(m == k);
                lemma_masks(s, last, 0);
            }
        }
    }
}

/// The number that `k` target bits spell lies below `2^k`.
pub proof fn lemma_gather_below(x: u64, tbits: Seq<u64>)
    requires
        tbits.len() <= MAX_INDEX_BITS,
    ensures
        gather(x, tbits) < span(tbits.len()),
    decreases tbits.len(),
{
    if tbits.len() == 0 {
        lemma_top_bit(0, 0, 0, 0);
    } else {
        lemma_gather_below(x, tbits.drop_last());
        let g = gather(x, tbits.drop_last());
        let k = (tbits.len() - 1) as u64;
        lemma_top_bit(g, 0, k, 0);
    }
}

/// Two numbers below `2^k` that agree on each of their `k` low bits are
/// equal.
pub proof fn lemma_same_bits(j1: u64, j2: u64, k: nat)
    requires
        k <= MAX_INDEX_BITS,
        j1 < span(k),
        j2 < span(k),
        forall|m: nat| m < k ==> ((j1 & #[trigger] bit(m) != 0) <==> (j2 & bit(m) != 0)),
    ensures
        j1 == j2,
    decreases k,
{
    if k == 0 {
        lemma_top_bit(0, 0, 0, 0);
    } else {
        let top = bit((k - 1) as nat);
        let k1 = (k - 1) as u64;
        let r1 = j1 & !top;
        let r2 = j2 & !top;
        lemma_top_bit(j1, j2, k1, 0);
        lemma_top_bit(j2, j1, k1, 0);
        assert forall|m: nat| m < k - 1 implies ((r1 & #[trigger] bit(m) != 0) <==> (r2 & bit(m)
            != 0)) by {
            let mm = m as u64;
            lemma_top_bit(j1, j2, k1, mm);
            lemma_top_bit(j2, j1, k1, mm);
            assert((j1 & bit(m) != 0) <==> (j2 & bit(m) != 0));
        }
        lemma_same_bits(r1, r2, (k - 1) as nat);
        assert((j1 & bit((k - 1) as nat) != 0) <==> (j2 & bit((k - 1) as nat) != 0));
        assert(top == (1u64 << k1));
    }
}

/// `spread` places different numbers below `2^k` on different offsets.
pub proof fn lemma_spread_injective(j1: u64, j2: u64, tbits: Seq<u64>, n: nat)
    requires
        n <= MAX_INDEX_BITS,
        target_bits(tbits, n),
        j1 < span(tbits.len()),
        j2 < span(tbits.len()),
        spread(j1, tbits) == spread(j2, tbits),
    ensures
        j1 == j2,
{
    lemma_spread(j1, tbits, n);
    lemma_spread(j2, tbits, n);
    assert forall|m: nat| m < tbits.len() implies ((j1 & #[trigger] bit(m) != 0) <==> (j2 & bit(m)
        != 0)) by {
        let t = tbits[m as int];
        assert((spread(j1, tbits) & t != 0) <==> (j1 & bit(m) != 0));
        assert((spread(j2, tbits) & t != 0) <==> (j2 & bit(m) != 0));
    }
    lemma_same_bits(j1, j2, tbits.len());
}

/// An index of the block at `base` has `base` outside the target bits,
/// lies below `2^n`, and belongs to no other block.
pub proof fn lemma_block_index(base: u64, j: u64, tbits: Seq<u64>, n: nat)
    requires
        n <= MAX_INDEX_BITS,
        target_bits(tbits, n),
        base < span(n),
        base & union(tbits) == 0,
    ensures
        (base | spread(j, tbits)) < span(n),
        (base | spread(j, tbits)) & !union(tbits) == base,
{
    lemma_spread(j, tbits, n);
    let s = spread(j, tbits);
    let u = union(tbits);
    lemma_ops_below_span(base, s, n);
    lemma_masks(s, base, u);
}

} // verus!
