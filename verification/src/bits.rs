//! Index arithmetic on basis states.
//!
//! A basis state of an `n`-bit register is an index below `2^n`; qubit `q`
//! is bit `q` of that index. Gates pair indices that differ in chosen bits
//! and select indices by the value of others. The facts about `^`, `&` and
//! `|` that those pairings rest on are collected here.

use vstd::prelude::*;
use vstd::arithmetic::power2::{pow2, lemma_pow2_pos, lemma_pow2_strictly_increases};
use vstd::bits::lemma_u64_shl_is_mul;
use vstd::arithmetic::power2::lemma2_to64;

verus! {

/// The largest number of index bits a register may have.
pub const MAX_INDEX_BITS: u32 = 62;

/// The index with only bit `q` set.
pub open spec fn bit(q: nat) -> u64 {
    1u64 << (q as u64)
}

/// Whether `x` agrees with `value` on every bit of `mask`.
pub open spec fn selected(x: u64, mask: u64, value: u64) -> bool {
    x & mask == value
}

/// Whether every bit of `mask` is set in `x`.
pub open spec fn all_set(x: u64, mask: u64) -> bool {
    x & mask == mask
}

/// `x` with the bits of `mask` flipped.
pub open spec fn flipped(x: u64, mask: u64) -> u64 {
    x ^ mask
}

/// `2^n` as a machine word, for `n` up to [`MAX_INDEX_BITS`].
pub open spec fn span(n: nat) -> u64 {
    1u64 << (n as u64)
}

/// `span(n)` is the number `2^n`.
pub proof fn lemma_span_is_pow2(n: nat)
    requires
        n <= MAX_INDEX_BITS,
    ensures
        span(n) == pow2(n),
        0 < span(n) <= 0x4000_0000_0000_0000u64,
{
    lemma_pow2_pos(n);
    lemma2_to64();
    vstd::arithmetic::power2::lemma2_to64_rest();
    if n < 62 {
        lemma_pow2_strictly_increases(n, 62);
    }
    assert(pow2(62) == 0x4000_0000_0000_0000);
    lemma_u64_shl_is_mul(1u64, n as u64);
}

/// Bit `q` lies below `2^n` when `q < n`.
pub proof fn lemma_bit_below_span(q: nat, n: nat)
    requires
        q < n <= MAX_INDEX_BITS,
    ensures
        bit(q) < span(n),
        bit(q) != 0,
{
    let q64 = q as u64;
    let n64 = n as u64;
    assert(q64 < n64 && n64 <= 62 ==> (1u64 << q64) < (1u64 << n64) && (1u64 << q64) != 0)
        by (bit_vector);
}

/// Indices below `2^n` are closed under `^`, `|` and `&`.
pub proof fn lemma_ops_below_span(x: u64, m: u64, n: nat)
    requires
        n <= MAX_INDEX_BITS,
        x < span(n),
        m < span(n),
    ensures
        x ^ m < span(n),
        x | m < span(n),
        x & m < span(n),
{
    let n64 = n as u64;
    assert(n64 <= 62 && x < (1u64 << n64) && m < (1u64 << n64) ==> (x ^ m) < (1u64 << n64) && (x
        | m) < (1u64 << n64) && (x & m) < (1u64 << n64)) by (bit_vector);
}

/// Flipping the same bits twice gives the index back.
pub proof fn lemma_flip_twice(x: u64, m: u64)
    ensures
        flipped(flipped(x, m), m) == x,
{
    assert((x ^ m) ^ m == x) by (bit_vector);
}

/// Flipping bits that the selection reads changes what is selected.
pub proof fn lemma_flip_leaves_selection(x: u64, mask: u64, value: u64, flip: u64)
    requires
        mask & flip != 0,
        selected(x, mask, value),
    ensures
        !selected(flipped(x, flip), mask, value),
        flipped(x, flip) != x,
{
    assert(mask & flip != 0 && x & mask == value ==> (x ^ flip) & mask != value && (x ^ flip) != x)
        by (bit_vector);
}

/// Flipping bits that the selection does not read keeps the selection.
pub proof fn lemma_flip_keeps_selection(x: u64, mask: u64, value: u64, flip: u64)
    requires
        mask & flip == 0,
    ensures
        selected(flipped(x, flip), mask, value) == selected(x, mask, value),
{
    assert(mask & flip == 0 ==> ((x ^ flip) & mask == value) == (x & mask == value))
        by (bit_vector);
}

/// Bit `p` is set in `m | bit(q)` exactly when it is set in `m` or is
/// bit `q`.
pub proof fn lemma_bit_in_union(m: u64, q: nat, p: nat)
    requires
        q < 64,
        p < 64,
    ensures
        ((m | bit(q)) & bit(p) != 0) <==> (m & bit(p) != 0 || p == q),
{
    let q64 = q as u64;
    let pw = p as u64;
    assert(q64 < 64 && pw < 64 ==> (((m | (1u64 << q64)) & (1u64 << pw) != 0) <==> (m & (1u64
        << pw) != 0 || pw == q64))) by (bit_vector);
}

/// With `pick` one of the flipped bits and the controls apart from
/// them: of two partners `x` and `x ^ flip` whose controls are set,
/// the selection `ctrl | bit(pick)` with value `ctrl` takes the one
/// in which `pick` is zero.
pub proof fn lemma_not_selection(x: u64, ctrl: u64, pick: nat, flip: u64)
    requires
        pick < 64,
        bit(pick) & flip != 0,
        ctrl & flip == 0,
    ensures
        selected(x, ctrl | bit(pick), ctrl) <==> (all_set(x, ctrl) && x & bit(pick) == 0),
        selected(flipped(x, flip), ctrl | bit(pick), ctrl) <==> (all_set(x, ctrl) && x & bit(pick)
            != 0),
        all_set(flipped(x, flip), ctrl) == all_set(x, ctrl),
        (ctrl | bit(pick)) & flip != 0,
{
    let p = pick as u64;
    assert(p < 64 && (1u64 << p) & flip != 0 && ctrl & flip == 0 ==> (ctrl | (1u64 << p)) & flip
        != 0 && ((x & (ctrl | (1u64 << p))
        == ctrl) <==> (x & ctrl == ctrl && x & (1u64 << p) == 0)) && (((x ^ flip) & (ctrl | (1u64
        << p)) == ctrl) <==> (x & ctrl == ctrl && x & (1u64 << p) != 0)) && (((x ^ flip) & ctrl
        == ctrl) <==> (x & ctrl == ctrl))) by (bit_vector);
}

/// Masks over the `n` row bits of a density matrix, moved to its column
/// bits, keep their relations and stay below `2^(2n)`.
pub proof fn lemma_shifted(a: u64, b: u64, pick: nat, n: nat)
    requires
        2 * n <= MAX_INDEX_BITS,
        a < span(n),
        b < span(n),
        pick < n,
    ensures
        a < span(2 * n),
        b < span(2 * n),
        (a << (n as u64)) < span(2 * n),
        (b << (n as u64)) < span(2 * n),
        (a & b == 0) ==> ((a << (n as u64)) & (b << (n as u64)) == 0),
        (a << (n as u64)) & b == 0,
        a & (b << (n as u64)) == 0,
        (bit(pick) & b != 0) ==> (bit(pick + n) & (b << (n as u64)) != 0),
        bit(pick + n) == bit(pick) << (n as u64),
        ((a | b) << (n as u64)) == (a << (n as u64)) | (b << (n as u64)),
{
    let s = n as u64;
    let p = pick as u64;
    let s2 = (2 * n) as u64;
    let ps = (pick + n) as u64;
    assert(s <= 31 && s2 == s + s && ps == p + s && p < s && a < (1u64 << s) && b < (1u64 << s)
        ==> a < (1u64 << s2) && b < (1u64 << s2) && (a << s) < (1u64 << s2) && (b << s) < (1u64
        << s2) && ((a & b == 0) ==> ((a << s) & (b << s) == 0)) && (a << s) & b == 0 && a & (b << s) == 0 && (((1u64 << p) & b != 0) ==> ((1u64 << ps) & (b << s) != 0)) && (1u64 << ps) == (
    (1u64 << p) << s) && ((a | b) << s) == ((a << s) | (b << s))) by (bit_vector);
}

/// The bits of two different qubits are apart.
pub proof fn lemma_bits_apart(q: nat, p: nat)
    requires
        q < 64,
        p < 64,
        q != p,
    ensures
        bit(q) & bit(p) == 0,
        bit(q) != 0,
{
    let q64 = q as u64;
    let pw = p as u64;
    assert(q64 < 64 && pw < 64 && q64 != pw ==> (1u64 << q64) & (1u64 << pw) == 0 && (1u64
        << q64) != 0) by (bit_vector);
}

/// Facts about the empty mask.
pub proof fn lemma_zero_mask(x: u64, m: u64)
    ensures
        0u64 & m == 0,
        m & 0u64 == 0,
        0u64 | m == m,
        m | 0u64 == m,
        x ^ 0u64 == x,
        all_set(x, 0),
        m != 0 ==> m & m != 0,
        0u64 << m == 0,
{
    assert(0u64 & m == 0 && m & 0u64 == 0 && (0u64 | m) == m && (m | 0u64) == m && (x ^ 0u64) == x
        && x & 0u64 == 0u64 && (m != 0 ==> m & m != 0) && (0u64 << m) == 0) by (bit_vector);
}

/// Of two partners that differ in the bits `b1` and `b2`, the selection
/// "`b1` set and `b2` clear" takes the one, and its partner has
/// "`b1` clear and `b2` set".
pub proof fn lemma_swap_selection(x: u64, pa: nat, pb: nat)
    requires
        pa < 64,
        pb < 64,
        pa != pb,
    ensures
        selected(x, bit(pa) | bit(pb), bit(pa)) <==> (x & bit(pa) != 0 && x & bit(pb) == 0),
        selected(flipped(x, bit(pa) | bit(pb)), bit(pa) | bit(pb), bit(pa)) <==> (x & bit(pa) == 0
            && x & bit(pb) != 0),
        (bit(pa) | bit(pb)) & (bit(pa) | bit(pb)) != 0,
{
    let a = pa as u64;
    let b = pb as u64;
    assert(a < 64 && b < 64 && a != b ==> ((x & ((1u64 << a) | (1u64 << b)) == (1u64 << a)) <==> (
    x & (1u64 << a) != 0 && x & (1u64 << b) == 0)) && (((x ^ ((1u64 << a) | (1u64 << b))) & ((
    1u64 << a) | (1u64 << b)) == (1u64 << a)) <==> (x & (1u64 << a) == 0 && x & (1u64 << b) != 0))
        && (((1u64 << a) | (1u64 << b)) & ((1u64 << a) | (1u64 << b)) != 0)) by (bit_vector);
}

/// Flipping two different bits trades their values where they differ,
/// and keeps "exactly one of them is set".
pub proof fn lemma_swap_partner(x: u64, pa: nat, pb: nat)
    requires
        pa < 64,
        pb < 64,
        pa != pb,
    ensures
        ({
            let y = flipped(x, bit(pa) | bit(pb));
            &&& (y & bit(pa) == 0) == (x & bit(pa) != 0)
            &&& (y & bit(pb) == 0) == (x & bit(pb) != 0)
        }),
{
    let a = pa as u64;
    let b = pb as u64;
    assert(a < 64 && b < 64 && a != b ==> (((x ^ ((1u64 << a) | (1u64 << b))) & (1u64 << a) == 0)
        == (x & (1u64 << a) != 0)) && (((x ^ ((1u64 << a) | (1u64 << b))) & (1u64 << b) == 0) == (x
        & (1u64 << b) != 0))) by (bit_vector);
}

/// A single bit is either set in an index or apart from it.
pub proof fn lemma_single_bit(x: u64, p: nat)
    requires
        p < 64,
    ensures
        all_set(x, bit(p)) <==> x & bit(p) != 0,
        selected(x, bit(p), 0) <==> x & bit(p) == 0,
        selected(x, bit(p), bit(p)) <==> x & bit(p) != 0,
{
    let a = p as u64;
    assert(a < 64 ==> ((x & (1u64 << a) == (1u64 << a)) <==> (x & (1u64 << a) != 0))) by (bit_vector);
}

/// The diagonal entry of basis state `k` of a density matrix on `n`
/// qubits has `k` both as its row and as its column: the index
/// `k + k * 2^n` has bit `q` set, and bit `q + n` set, exactly when `k`
/// has bit `q` set.
pub proof fn lemma_diagonal_bits(k: u64, q: nat, n: nat)
    requires
        q < n,
        2 * n <= MAX_INDEX_BITS,
        k < span(n),
    ensures
        k + k * span(n) < span(2 * n),
        ((k + k * span(n)) as u64) & bit(q) == k & bit(q),
        (((k + k * span(n)) as u64) & bit(q + n) != 0) == (k & bit(q) != 0),
{
    let n64 = n as u64;
    let q64 = q as u64;
    let n2 = (2 * n) as u64;
    let qn = (q + n) as u64;
    assert(q64 < n64 && n64 <= 31 && n2 == n64 + n64 && qn == q64 + n64 && k < (1u64 << n64) ==> k
        + k * (1u64 << n64) < (1u64 << n2) && ((k + k * (1u64 << n64)) as u64) & (1u64 << q64) == k
        & (1u64 << q64) && ((((k + k * (1u64 << n64)) as u64) & (1u64 << qn) != 0) == (k & (1u64
        << q64) != 0))) by (bit_vector);
}

/// A selection on two masks that are apart is the two selections.
pub proof fn lemma_split_selection(x: u64, m1: u64, v1: u64, m2: u64, v2: u64)
    requires
        m1 & m2 == 0,
        v1 | m1 == m1,
        v2 | m2 == m2,
    ensures
        selected(x, m1 | m2, v1 | v2) <==> (selected(x, m1, v1) && selected(x, m2, v2)),
{
    assert(m1 & m2 == 0 && (v1 | m1) == m1 && (v2 | m2) == m2 ==> ((x & (m1 | m2) == (v1 | v2))
        <==> (x & m1 == v1 && x & m2 == v2))) by (bit_vector);
}

/// Facts about unions, intersections and complements of three masks.
pub proof fn lemma_masks(a: u64, b: u64, c: u64)
    ensures
        0u64 & a == 0,
        0u64 | a == a,
        0u64 | 0u64 == 0u64,
        a | a == a,
        a << 0u64 == a,
        a & b == b & a,
        (a | b) << 0u64 == (a << 0u64) | b,
        b != 0 ==> (a | b) & b != 0 && (a | b) | b == (a | b),
        (a | c == c) ==> (a | b) | (c | b) == (c | b) && a | (c | b) == (c | b),
        (a | c == c && c & b == 0) ==> a & b == 0,
        (b & c == 0) ==> (a | b) & c == a & c,
        (a | c == c && b & c == 0) ==> (b | a) & !c == b,
        (c & (a | b) == 0) <==> (c & a == 0 && c & b == 0),
        (a | b == b) ==> a <= b,
        (a & b == 0 && a != 0) ==> a != b,
        (a | c == a) ==> (a | b) | c == (a | b),
{
    assert(0u64 & a == 0 && (0u64 | a) == a && (0u64 | 0u64) == 0u64 && (a | a) == a && (a
        << 0u64) == a && a & b
        == b & a && ((a | b) << 0u64) == ((a << 0u64) | b) && (b != 0 ==> (a | b) & b != 0 && ((a
        | b) | b) == (a | b)) && ((a | c) == c ==> ((a | b) | (c | b)) == (c | b) && (a | (c | b))
        == (c | b)) && ((a | c) == c && c & b == 0 ==> a & b == 0) && (b & c == 0 ==> (a | b) & c
        == a & c) && ((a | c) == c && b & c == 0 ==> (b | a) & !c == b) && ((c & (a | b) == 0)
        <==> (c & a == 0 && c & b == 0)) && ((a | b) == b ==> a <= b) && (a & b == 0 && a != 0
        ==> a != b) && ((a | c) == a ==> ((a | b) | c) == (a | b))) by (bit_vector);
}

/// Facts about the bit at position `k` of a number: clearing it, setting
/// it, and what that does to the bits below.
pub proof fn lemma_top_bit(j: u64, other: u64, k: u64, m: u64)
    ensures
        1u64 << 0u64 == 1,
        (k < 62 && j < (1u64 << ((k + 1) as u64))) ==> (j & !(1u64 << k)) < (1u64 << k),
        (m < k && k < 64) ==> ((j & !(1u64 << k)) & (1u64 << m)) == (j & (1u64 << m)),
        (k < 62 && j < (1u64 << k)) ==> (j | (1u64 << k)) < (1u64 << ((k + 1) as u64)) && j < (1u64
            << ((k + 1) as u64)),
        (k < 64 && (j & !(1u64 << k)) == (other & !(1u64 << k)) && ((j & (1u64 << k) != 0) <==> (
        other & (1u64 << k) != 0))) ==> j == other,
{
    assert((1u64 << 0u64) == 1 && (k < 62 && j < (1u64 << ((k + 1) as u64)) ==> (j & !(1u64 << k))
        < (1u64 << k)) && (m < k && k < 64 ==> ((j & !(1u64 << k)) & (1u64 << m)) == (j & (1u64
        << m))) && (k < 62 && j < (1u64 << k) ==> (j | (1u64 << k)) < (1u64 << ((k + 1) as u64))
        && j < (1u64 << ((k + 1) as u64))) && (k < 64 && (j & !(1u64 << k)) == (other & !(1u64
        << k)) && ((j & (1u64 << k) != 0) <==> (other & (1u64 << k) != 0)) ==> j == other))
        by (bit_vector);
}

/// Facts about the blocks that a selection picks: with the selection
/// and its value apart from the target bits `tm`, a selected index `x`
/// has no target bit and starts its own block, and an index `y` that
/// the selection on `mask` rejects lies in no such block. Offsets
/// within the target bits that give the same index are the same.
pub proof fn lemma_block_selection(x: u64, y: u64, mask: u64, value: u64, tm: u64, s1: u64, s2: u64)
    ensures
        (mask & tm == 0 && value & tm == 0 && x & (mask | tm) == value) ==> x & tm == 0 && x & mask
            == value && x & !tm == x,
        (mask & tm == 0 && value & tm == 0 && x & (mask | tm) == value && y & mask != value) ==> y
            & !tm != x,
        (s1 | tm == tm && s2 | tm == tm && x & tm == 0 && (x | s1) == (x | s2)) ==> s1 == s2,
{
    assert((mask & tm == 0 && value & tm == 0 && x & (mask | tm) == value ==> x & tm == 0 && x
        & mask == value && x & !tm == x) && (mask & tm == 0 && value & tm == 0 && x & (mask | tm)
        == value && y & mask != value ==> y & !tm != x) && ((s1 | tm) == tm && (s2 | tm) == tm && x
        & tm == 0 && (x | s1) == (x | s2) ==> s1 == s2)) by (bit_vector);
}

} // verus!
