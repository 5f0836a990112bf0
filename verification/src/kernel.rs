//! Sweeps over the amplitude store.
//!
//! Every gate is one of a few sweeps: a map over the amplitudes that a
//! bit pattern selects, or a map over the pairs of amplitudes whose
//! indices differ in chosen bits. What is done to an amplitude, or to a
//! pair, is a function handed in by the caller; the sweeps decide where it
//! is applied, and their contracts say so for every index.

use vstd::prelude::*;
use crate::amplitude::Qcomplex;
use crate::bits::{
    bit, flipped, lemma_block_selection, lemma_flip_leaves_selection, lemma_flip_twice,
    lemma_ops_below_span, lemma_span_is_pow2, selected, span, MAX_INDEX_BITS,
};
use crate::blocks::{
    block_of, gather, lemma_block_index, lemma_spread, lemma_spread_injective, spread, target_bits,
    union,
};

verus! {

/// `after` is `before` with `f` applied to each amplitude whose index
/// agrees with `value` on the bits of `mask`, and nothing else changed.
pub open spec fn point_mapped<F: Fn(Qcomplex) -> Qcomplex>(
    before: Seq<Qcomplex>,
    after: Seq<Qcomplex>,
    mask: u64,
    value: u64,
    f: F,
) -> bool {
    &&& after.len() == before.len()
    &&& forall|x: u64|
        x < before.len() ==> if #[trigger] selected(x, mask, value) {
            call_ensures(f, (before[x as int],), after[x as int])
        } else {
            after[x as int] == before[x as int]
        }
}

/// `after` is `before` with `f` applied to each pair of amplitudes at
/// indices `x` and `x ^ flip`, where `x` agrees with `value` on the bits
/// of `mask`, and nothing else changed.
///
/// The first argument and the first result of `f` belong to `x`, the
/// second ones to `x ^ flip`.
pub open spec fn pair_mapped<F: Fn(Qcomplex, Qcomplex) -> (Qcomplex, Qcomplex)>(
    before: Seq<Qcomplex>,
    after: Seq<Qcomplex>,
    mask: u64,
    value: u64,
    flip: u64,
    f: F,
) -> bool {
    &&& after.len() == before.len()
    &&& forall|x: u64|
        x < before.len() ==> if #[trigger] selected(x, mask, value) {
            call_ensures(
                f,
                (before[x as int], before[flipped(x, flip) as int]),
                (after[x as int], after[flipped(x, flip) as int]),
            )
        } else if !selected(flipped(x, flip), mask, value) {
            after[x as int] == before[x as int]
        } else {
            true
        }
}

/// Applies `f` to every amplitude whose index agrees with `value` on the
/// bits of `mask`.
pub(crate) fn map_selected<F: Fn(Qcomplex) -> Qcomplex>(
    amps: &mut Vec<Qcomplex>,
    mask: u64,
    value: u64,
    f: F,
)
    requires
        forall|a: Qcomplex| call_requires(f, (a,)),
    ensures
        point_mapped(old(amps)@, final(amps)@, mask, value, f),
{
    let n: usize = amps.len();
    let mut i: usize = 0;
    while i < n
        invariant
            i <= n,
            n == amps@.len(),
            amps@.len() == old(amps)@.len(),
            forall|a: Qcomplex| call_requires(f, (a,)),
            forall|x: u64|
                x < i ==> if #[trigger] selected(x, mask, value) {
                    call_ensures(f, (old(amps)@[x as int],), amps@[x as int])
                } else {
                    amps@[x as int] == old(amps)@[x as int]
                },
            forall|x: int| i <= x < n ==> amps@[x] == old(amps)@[x],
        decreases n - i,
    {
        if (i as u64) & mask == value {
            let a = amps[i];
            amps[i] = f(a);
        }
        i += 1;
    }
}

/// Applies `f` to every pair of amplitudes at indices `x` and `x ^ flip`
/// where `x` agrees with `value` on the bits of `mask`.
///
/// The selection must read at least one of the flipped bits, so that of
/// two partners at most one is selected and no pair is visited twice.
pub(crate) fn map_pairs<F: Fn(Qcomplex, Qcomplex) -> (Qcomplex, Qcomplex)>(
    amps: &mut Vec<Qcomplex>,
    index_bits: u32,
    mask: u64,
    value: u64,
    flip: u64,
    f: F,
)
    requires
        index_bits <= MAX_INDEX_BITS,
        old(amps)@.len() == span(index_bits as nat),
        flip < span(index_bits as nat),
        mask & flip != 0,
        forall|a: Qcomplex, b: Qcomplex| call_requires(f, (a, b)),
    ensures
        pair_mapped(old(amps)@, final(amps)@, mask, value, flip, f),
{
    let n: usize = amps.len();
    let mut i: usize = 0;
    while i < n
        invariant
            i <= n,
            n == amps@.len(),
            amps@.len() == old(amps)@.len(),
            index_bits <= MAX_INDEX_BITS,
            n == span(index_bits as nat),
            flip < span(index_bits as nat),
            mask & flip != 0,
            forall|a: Qcomplex, b: Qcomplex| call_requires(f, (a, b)),
            forall|x: u64|
                x < n ==> if #[trigger] selected(x, mask, value) {
                    if x < i {
                        call_ensures(
                            f,
                            (old(amps)@[x as int], old(amps)@[flipped(x, flip) as int]),
                            (amps@[x as int], amps@[flipped(x, flip) as int]),
                        )
                    } else {
                        &&& amps@[x as int] == old(amps)@[x as int]
                        &&& amps@[flipped(x, flip) as int] == old(amps)@[flipped(x, flip) as int]
                    }
                } else if !selected(flipped(x, flip), mask, value) {
                    amps@[x as int] == old(amps)@[x as int]
                } else {
                    true
                },
        decreases n - i,
    {
        if (i as u64) & mask == value {
            let x: u64 = i as u64;
            proof {
                lemma_ops_below_span(x, flip, index_bits as nat);
                lemma_flip_leaves_selection(x, mask, value, flip);
            }
            let j: usize = (x ^ flip) as usize;
            let ghost prev = amps@;
            let a = amps[i];
            let b = amps[j];
            let (a2, b2) = f(a, b);
            amps[i] = a2;
            amps[j] = b2;
            proof {
                assert forall|y: u64| y < n implies if #[trigger] selected(y, mask, value) {
                    if y < i + 1 {
                        call_ensures(
                            f,
                            (old(amps)@[y as int], old(amps)@[flipped(y, flip) as int]),
                            (amps@[y as int], amps@[flipped(y, flip) as int]),
                        )
                    } else {
                        &&& amps@[y as int] == old(amps)@[y as int]
                        &&& amps@[flipped(y, flip) as int] == old(amps)@[flipped(
                            y,
                            flip,
                        ) as int]
                    }
                } else if !selected(flipped(y, flip), mask, value) {
                    amps@[y as int] == old(amps)@[y as int]
                } else {
                    true
                } by {
                    lemma_ops_below_span(y, flip, index_bits as nat);
                    lemma_flip_twice(y, flip);
                    lemma_flip_twice(x, flip);
                    if selected(y, mask, value) {
                        lemma_flip_leaves_selection(y, mask, value, flip);
                        if y != x {
                            assert(flipped(y, flip) != flipped(x, flip));
                            assert(prev[y as int] == amps@[y as int]);
                            assert(prev[flipped(y, flip) as int] == amps@[flipped(y, flip) as int]);
                        }
                    } else if !selected(flipped(y, flip), mask, value) {
                        assert(selected(flipped(x, flip), mask, value) == false);
                        assert(y != x);
                        assert(y != flipped(x, flip));
                    }
                }
            }
        }
        i += 1;
    }
}

/// `after` is `before` with `f` applied to each amplitude whose index
/// agrees with `value` on the bits of `mask`; `f` is also given the
/// number that the bits `tbits` spell in that index.
pub open spec fn key_mapped<F: Fn(u64, Qcomplex) -> Qcomplex>(
    before: Seq<Qcomplex>,
    after: Seq<Qcomplex>,
    mask: u64,
    value: u64,
    tbits: Seq<u64>,
    f: F,
) -> bool {
    &&& after.len() == before.len()
    &&& forall|x: u64|
        x < before.len() ==> if #[trigger] selected(x, mask, value) {
            call_ensures(f, (gather(x, tbits), before[x as int]), after[x as int])
        } else {
            after[x as int] == before[x as int]
        }
}

/// Applies `f` to every amplitude whose index agrees with `value` on the
/// bits of `mask`, together with the number that the bits `tbits` spell
/// in that index.
pub(crate) fn map_keyed<F: Fn(u64, Qcomplex) -> Qcomplex>(
    amps: &mut Vec<Qcomplex>,
    mask: u64,
    value: u64,
    tbits: &Vec<u64>,
    f: F,
)
    requires
        tbits@.len() <= MAX_INDEX_BITS,
        forall|key: u64, a: Qcomplex| call_requires(f, (key, a)),
    ensures
        key_mapped(old(amps)@, final(amps)@, mask, value, tbits@, f),
{
    let n: usize = amps.len();
    let mut i: usize = 0;
    while i < n
        invariant
            i <= n,
            n == amps@.len(),
            amps@.len() == old(amps)@.len(),
            tbits@.len() <= MAX_INDEX_BITS,
            forall|key: u64, a: Qcomplex| call_requires(f, (key, a)),
            forall|x: u64|
                x < i ==> if #[trigger] selected(x, mask, value) {
                    call_ensures(f, (gather(x, tbits@), old(amps)@[x as int]), amps@[x as int])
                } else {
                    amps@[x as int] == old(amps)@[x as int]
                },
            forall|x: int| i <= x < n ==> amps@[x] == old(amps)@[x],
        decreases n - i,
    {
        if (i as u64) & mask == value {
            let key = gather_of(i as u64, tbits);
            let a = amps[i];
            amps[i] = f(key, a);
        }
        i += 1;
    }
}

/// `after` is `before` with `f` applied to each block of amplitudes
/// whose indices agree with `value` on the bits of `mask`, and nothing
/// else changed. The blocks are those over the target bits `tbits`.
pub open spec fn block_mapped<F: Fn(Vec<Qcomplex>) -> Vec<Qcomplex>>(
    before: Seq<Qcomplex>,
    after: Seq<Qcomplex>,
    mask: u64,
    value: u64,
    tbits: Seq<u64>,
    f: F,
) -> bool {
    &&& after.len() == before.len()
    &&& forall|x: u64|
        x < before.len() ==> if #[trigger] selected(x, mask | union(tbits), value) {
            block_done(before, after, x, tbits, f)
        } else if !selected(x, mask, value) {
            after[x as int] == before[x as int]
        } else {
            true
        }
}

/// The block of `after` at `base` is a result of `f` on the block of
/// `before` at `base`.
pub open spec fn block_done<F: Fn(Vec<Qcomplex>) -> Vec<Qcomplex>>(
    before: Seq<Qcomplex>,
    after: Seq<Qcomplex>,
    base: u64,
    tbits: Seq<u64>,
    f: F,
) -> bool {
    exists|inp: Vec<Qcomplex>, out: Vec<Qcomplex>|
        inp@ == block_of(before, base, tbits) && out@ == block_of(after, base, tbits)
            && #[trigger] call_ensures(f, (inp,), out)
}

/// What a function on blocks of `2^k` amplitudes must accept and return.
pub open spec fn block_fn<F: Fn(Vec<Qcomplex>) -> Vec<Qcomplex>>(f: F, k: nat) -> bool {
    &&& forall|v: Vec<Qcomplex>| v@.len() == span(k) ==> call_requires(f, (v,))
    &&& forall|v: Vec<Qcomplex>, out: Vec<Qcomplex>|
        call_ensures(f, (v,), out) ==> out@.len() == v@.len()
}

/// The mask of all bits in `tbits`.
pub(crate) fn union_of(tbits: &Vec<u64>) -> (u: u64)
    ensures
        u == union(tbits@),
{
    let mut u: u64 = 0;
    let mut m: usize = 0;
    while m < tbits.len()
        invariant
            m <= tbits@.len(),
            u == union(tbits@.take(m as int)),
        decreases tbits@.len() - m,
    {
        assert(tbits@.take(m + 1).drop_last() =~= tbits@.take(m as int));
        u = u | tbits[m];
        m += 1;
    }
    assert(tbits@.take(tbits@.len() as int) =~= tbits@);
    u
}

/// The index offset that places the bits of `j` on the target bits.
pub(crate) fn spread_of(j: u64, tbits: &Vec<u64>) -> (s: u64)
    requires
        tbits@.len() <= MAX_INDEX_BITS,
    ensures
        s == spread(j, tbits@),
{
    let mut s: u64 = 0;
    let mut m: usize = 0;
    while m < tbits.len()
        invariant
            m <= tbits@.len(),
            tbits@.len() <= MAX_INDEX_BITS,
            s == spread(j, tbits@.take(m as int)),
        decreases tbits@.len() - m,
    {
        assert(tbits@.take(m + 1).drop_last() =~= tbits@.take(m as int));
        if j & (1u64 << (m as u64)) != 0 {
            s = s | tbits[m];
        }
        m += 1;
    }
    assert(tbits@.take(tbits@.len() as int) =~= tbits@);
    s
}

/// The number that the target bits spell in `x`.
pub(crate) fn gather_of(x: u64, tbits: &Vec<u64>) -> (g: u64)
    requires
        tbits@.len() <= MAX_INDEX_BITS,
    ensures
        g == gather(x, tbits@),
{
    let mut g: u64 = 0;
    let mut m: usize = 0;
    while m < tbits.len()
        invariant
            m <= tbits@.len(),
            tbits@.len() <= MAX_INDEX_BITS,
            g == gather(x, tbits@.take(m as int)),
        decreases tbits@.len() - m,
    {
        assert(tbits@.take(m + 1).drop_last() =~= tbits@.take(m as int));
        if x & tbits[m] != 0 {
            g = g | (1u64 << (m as u64));
        }
        m += 1;
    }
    assert(tbits@.take(tbits@.len() as int) =~= tbits@);
    g
}

/// Applies `f` to the block that starts at `base`.
fn map_one_block<F: Fn(Vec<Qcomplex>) -> Vec<Qcomplex>>(
    amps: &mut Vec<Qcomplex>,
    index_bits: u32,
    base: u64,
    tbits: &Vec<u64>,
    f: &F,
)
    requires
        index_bits <= MAX_INDEX_BITS,
        old(amps)@.len() == span(index_bits as nat),
        target_bits(tbits@, index_bits as nat),
        base < span(index_bits as nat),
        base & union(tbits@) == 0,
        block_fn(*f, tbits@.len()),
    ensures
        final(amps)@.len() == old(amps)@.len(),
        block_done(old(amps)@, final(amps)@, base, tbits@, *f),
        forall|y: u64|
            y < old(amps)@.len() && y & !union(tbits@) != base ==> final(amps)@[y as int] == old(
                amps,
            )@[y as int],
{
    let k: usize = tbits.len();
    proof {
        lemma_span_is_pow2(k as nat);
        lemma_span_is_pow2(index_bits as nat);
    }
    let size: u64 = 1u64 << (k as u64);
    let n: usize = amps.len();
    let mut inp: Vec<Qcomplex> = Vec::new();
    let mut j: u64 = 0;
    while j < size
        invariant
            j <= size,
            n == amps@.len(),
            size == span(k as nat),
            k == tbits@.len(),
            index_bits <= MAX_INDEX_BITS,
            amps@.len() == span(index_bits as nat),
            amps@ == old(amps)@,
            target_bits(tbits@, index_bits as nat),
            base < span(index_bits as nat),
            base & union(tbits@) == 0,
            inp@.len() == j,
            forall|i: int|
                0 <= i < j ==> #[trigger] inp@[i] == amps@[(base | spread(i as u64, tbits@)) as int],
        decreases size - j,
    {
        let s = spread_of(j, tbits);
        proof {
            lemma_block_index(base, j, tbits@, index_bits as nat);
        }
        inp.push(amps[(base | s) as usize]);
        j += 1;
    }
    assert(inp@ =~= block_of(old(amps)@, base, tbits@));
    let ghost given = inp;
    let out = f(inp);
    let out_len: usize = out.len();
    j = 0;
    while j < size
        invariant
            j <= size,
            n == amps@.len(),
            out_len == out@.len(),
            size == span(k as nat),
            k == tbits@.len(),
            k <= MAX_INDEX_BITS,
            index_bits <= MAX_INDEX_BITS,
            amps@.len() == span(index_bits as nat),
            amps@.len() == old(amps)@.len(),
            target_bits(tbits@, index_bits as nat),
            base < span(index_bits as nat),
            base & union(tbits@) == 0,
            out@.len() == size,
            forall|i: int|
                0 <= i < j ==> amps@[(base | #[trigger] spread(i as u64, tbits@)) as int]
                    == out@[i],
            forall|y: u64|
                y < amps@.len() && y & !union(tbits@) != base ==> amps@[y as int] == old(
                    amps,
                )@[y as int],
        decreases size - j,
    {
        let s = spread_of(j, tbits);
        proof {
            lemma_block_index(base, j, tbits@, index_bits as nat);
            assert forall|i: int| 0 <= i < j implies (base | #[trigger] spread(i as u64, tbits@))
                != (base | s) by {
                let si = spread(i as u64, tbits@);
                lemma_block_index(base, i as u64, tbits@, index_bits as nat);
                lemma_spread(i as u64, tbits@, index_bits as nat);
                lemma_spread(j, tbits@, index_bits as nat);
                let u = union(tbits@);
                if (base | si) == (base | s) {
                    lemma_block_selection(base, 0, 0, 0, u, si, s);
                    lemma_spread_injective(i as u64, j, tbits@, index_bits as nat);
                }
            }
        }
        let ghost before_write = amps@;
        amps[(base | s) as usize] = out[j as usize];
        proof {
            assert forall|i: int| 0 <= i < j + 1 implies amps@[(base | #[trigger] spread(
                i as u64,
                tbits@,
            )) as int] == out@[i] by {
                lemma_block_index(base, i as u64, tbits@, index_bits as nat);
            }
            assert forall|y: u64|
                y < amps@.len() && y & !union(tbits@) != base implies amps@[y as int] == old(
                amps,
            )@[y as int] by {
                assert(before_write[y as int] == old(amps)@[y as int]);
            }
        }
        j += 1;
    }
    assert(out@ =~= block_of(amps@, base, tbits@));
    assert(call_ensures(*f, (given,), out));
}

/// Applies `f` to every block of amplitudes, over the target bits
/// `tbits`, whose indices agree with `value` on the bits of `mask`.
///
/// `f` receives the `2^k` amplitudes of a block, the first target being
/// the least significant bit of their position, and returns as many.
pub(crate) fn map_blocks<F: Fn(Vec<Qcomplex>) -> Vec<Qcomplex>>(
    amps: &mut Vec<Qcomplex>,
    index_bits: u32,
    mask: u64,
    value: u64,
    tbits: &Vec<u64>,
    f: F,
)
    requires
        index_bits <= MAX_INDEX_BITS,
        old(amps)@.len() == span(index_bits as nat),
        target_bits(tbits@, index_bits as nat),
        mask & union(tbits@) == 0,
        value & union(tbits@) == 0,
        block_fn(f, tbits@.len()),
    ensures
        block_mapped(old(amps)@, final(amps)@, mask, value, tbits@, f),
{
    let n: usize = amps.len();
    let tm: u64 = union_of(tbits);
    let mut i: usize = 0;
    while i < n
        invariant
            i <= n,
            n == amps@.len(),
            amps@.len() == old(amps)@.len(),
            index_bits <= MAX_INDEX_BITS,
            n == span(index_bits as nat),
            target_bits(tbits@, index_bits as nat),
            tm == union(tbits@),
            mask & tm == 0,
            value & tm == 0,
            block_fn(f, tbits@.len()),
            forall|x: u64|
                x < n ==> if #[trigger] selected(x, mask | tm, value) {
                    if x < i {
                        block_done(old(amps)@, amps@, x, tbits@, f)
                    } else {
                        forall|y: u64|
                            y < n && y & !tm == x ==> amps@[y as int] == old(amps)@[y as int]
                    }
                } else if !selected(x, mask, value) {
                    amps@[x as int] == old(amps)@[x as int]
                } else {
                    true
                },
        decreases n - i,
    {
        if (i as u64) & (mask | tm) == value {
            let x: u64 = i as u64;
            let ghost prev = amps@;
            proof {
                lemma_block_selection(x, 0, mask, value, tm, 0, 0);
                assert(block_of(prev, x, tbits@) =~= block_of(old(amps)@, x, tbits@)) by {
                    assert forall|j: int| 0 <= j < span(tbits@.len()) implies prev[(x
                        | #[trigger] spread(j as u64, tbits@)) as int] == old(amps)@[(x | spread(
                        j as u64,
                        tbits@,
                    )) as int] by {
                        lemma_block_index(x, j as u64, tbits@, index_bits as nat);
                        let y = x | spread(j as u64, tbits@);
                        assert(selected(x, mask | tm, value));
                        assert(y < n && y & !tm == x);
                        assert(prev[y as int] == old(amps)@[y as int]);
                    }
                }
            }
            map_one_block(amps, index_bits, x, tbits, &f);
            proof {
                assert forall|b: u64| b < n implies if #[trigger] selected(b, mask | tm, value) {
                    if b < i + 1 {
                        block_done(old(amps)@, amps@, b, tbits@, f)
                    } else {
                        forall|y: u64|
                            y < n && y & !tm == b ==> amps@[y as int] == old(amps)@[y as int]
                    }
                } else if !selected(b, mask, value) {
                    amps@[b as int] == old(amps)@[b as int]
                } else {
                    true
                } by {
                    if selected(b, mask | tm, value) {
                        lemma_block_selection(b, 0, mask, value, tm, 0, 0);
                        if b == x {
                        } else if b < i {
                            let (inp, out) = choose|inp: Vec<Qcomplex>, out: Vec<Qcomplex>|
                                inp@ == block_of(old(amps)@, b, tbits@) && out@ == block_of(
                                    prev,
                                    b,
                                    tbits@,
                                ) && #[trigger] call_ensures(f, (inp,), out);
                            assert(block_of(amps@, b, tbits@) =~= block_of(prev, b, tbits@)) by {
                                assert forall|j: int| 0 <= j < span(tbits@.len()) implies amps@[(b
                                    | #[trigger] spread(j as u64, tbits@)) as int] == prev[(b
                                    | spread(j as u64, tbits@)) as int] by {
                                    lemma_block_index(b, j as u64, tbits@, index_bits as nat);
                                }
                            }
                        } else {
                        }
                    } else if !selected(b, mask, value) {
                        lemma_block_selection(x, b, mask, value, tm, 0, 0);
                    }
                }
            }
        }
        i += 1;
    }
}

} // verus!
