//! Phase functions.
//!
//! A phase function multiplies each amplitude by a unit complex number
//! that depends on the values held by sub-registers of the basis state.
//! A sub-register is a list of qubits, the first being the least
//! significant; its value is the number they spell, read as unsigned or
//! as two's complement. Chosen values can be overridden: there the phase
//! is given outright and the function is not evaluated.
//!
//! Turning an amplitude by a phase is arithmetic that the caller
//! supplies. Which values each amplitude belongs to, and whether an
//! override applies to it, is decided here.

use vstd::prelude::*;
use vstd::arithmetic::power2::{pow2, lemma_pow2_unfold};
use crate::amplitude::{Qcomplex, Qreal};
use crate::bits::{lemma_span_is_pow2, span, MAX_INDEX_BITS};
use crate::blocks::{gather, lemma_gather_below};
use crate::error::{InputFault, QuestError};
use crate::qureg::Qureg;

use crate::sweeps::two_sided;
use crate::validate::{all_ok, bits_of, check_list, list_fault, qubit_ok};

use crate::kernel::gather_of;

verus! {

/// How the bits of a sub-register are read as a number.
#[derive(Clone, Copy, Debug, PartialEq, Eq, Structural)]
pub enum BitEncoding {
    /// As a number from `0` to `2^k - 1`.
    Unsigned,
    /// As a number from `-2^(k-1)` to `2^(k-1) - 1`, the last qubit
    /// being the sign.
    TwosComplement,
}

/// The named phase functions.
#[derive(Clone, Copy, Debug, PartialEq, Eq, Structural)]
pub enum PhaseFunc {
    Norm,
    ScaledNorm,
    InverseNorm,
    ScaledInverseNorm,
    ScaledInverseShiftedNorm,
    Product,
    ScaledProduct,
    InverseProduct,
    ScaledInverseProduct,
    Distance,
    ScaledDistance,
    InverseDistance,
    ScaledInverseDistance,
    ScaledInverseShiftedDistance,
    ScaledInverseShiftedWeightedDistance,
}

/// The largest number of sub-registers of a phase function.
pub const MAX_PHASE_REGISTERS: usize = 100;

/// The largest sub-register for which the overrides of all negative
/// values are looked up one by one.
pub const MAX_CHECKED_QUBITS: usize = 16;

/// The fewest qubits a sub-register may have under `encoding`.
pub open spec fn min_size(encoding: BitEncoding) -> int {
    match encoding {
        BitEncoding::Unsigned => 1,
        BitEncoding::TwosComplement => 2,
    }
}

/// The value of a sub-register of `k` qubits that spells `key`.
pub open spec fn decoded(key: u64, k: nat, encoding: BitEncoding) -> int {
    match encoding {
        BitEncoding::Unsigned => key as int,
        BitEncoding::TwosComplement => if key >= pow2((k - 1) as nat) {
            key - pow2(k)
        } else {
            key as int
        },
    }
}

/// Whether a sub-register of `k` qubits can hold the value `v`.
pub open spec fn representable(v: i64, k: int, encoding: BitEncoding) -> bool {
    match encoding {
        BitEncoding::Unsigned => 0 <= v < pow2(k as nat),
        BitEncoding::TwosComplement => -pow2((k - 1) as nat) <= v < pow2((k - 1) as nat),
    }
}

/// The values of the sub-registers with bits `regs` in basis state `x`.
pub open spec fn reg_values(x: u64, regs: Seq<Seq<u64>>, encoding: BitEncoding) -> Seq<i64> {
    Seq::new(regs.len(), |j: int| decoded(gather(x, regs[j]), regs[j].len(), encoding) as i64)
}

/// Whether override `o` names exactly the values `values`. The indices
/// of override `o` are the entries `o * r` to `o * r + r - 1` of `inds`,
/// one per sub-register.
pub open spec fn override_hit(values: Seq<i64>, inds: Seq<i64>, o: int) -> bool {
    forall|j: int| 0 <= j < values.len() ==> #[trigger] inds[o * values.len() + j] == values[j]
}

/// The first override from `from` on that names the values `values`.
pub open spec fn first_hit(values: Seq<i64>, inds: Seq<i64>, from: int, num: int) -> Option<int>
    decreases num - from,
{
    if from >= num {
        None
    } else if override_hit(values, inds, from) {
        Some(from)
    } else {
        first_hit(values, inds, from + 1, num)
    }
}

/// `b` is the amplitude `a` turned by the phase that belongs to
/// `values`: by the phase of the first override that names them, or else
/// by the phase function.
pub open spec fn phased<F, G>(
    a: Qcomplex,
    b: Qcomplex,
    values: Seq<i64>,
    inds: Seq<i64>,
    phases: Seq<Qreal>,
    conj: bool,
    turn: F,
    turn_by: G,
) -> bool where F: Fn(Vec<i64>, bool, Qcomplex) -> Qcomplex, G: Fn(Qreal, bool, Qcomplex) -> Qcomplex {
    match first_hit(values, inds, 0, phases.len() as int) {
        Some(o) => call_ensures(turn_by, (phases[o], conj, a), b),
        None => exists|v: Vec<i64>| v@ == values && #[trigger] call_ensures(turn, (v, conj, a), b),
    }
}

/// `after` is `before` with every amplitude turned by the phase that
/// belongs to the values of the sub-registers `regs` in its basis state.
/// `conj` asks for the opposite phase, as the column side of a density
/// matrix takes it.
pub open spec fn phase_mapped<F, G>(
    before: Seq<Qcomplex>,
    after: Seq<Qcomplex>,
    regs: Seq<Seq<u64>>,
    encoding: BitEncoding,
    inds: Seq<i64>,
    phases: Seq<Qreal>,
    conj: bool,
    turn: F,
    turn_by: G,
) -> bool where F: Fn(Vec<i64>, bool, Qcomplex) -> Qcomplex, G: Fn(Qreal, bool, Qcomplex) -> Qcomplex {
    &&& after.len() == before.len()
    &&& forall|x: u64|
        x < before.len() ==> phased(
            before[x as int],
            #[trigger] after[x as int],
            reg_values(x, regs, encoding),
            inds,
            phases,
            conj,
            turn,
            turn_by,
        )
}

/// `b` is the amplitude `a` turned by the phase function at `values`.
pub open spec fn valued<F>(a: Qcomplex, b: Qcomplex, values: Seq<i64>, conj: bool, turn: F) -> bool where
    F: Fn(Vec<i64>, bool, Qcomplex) -> Qcomplex,
 {
    exists|v: Vec<i64>| v@ == values && #[trigger] call_ensures(turn, (v, conj, a), b)
}

/// `after` is `before` with every amplitude turned by the phase function
/// at the values of the sub-registers `regs` in its basis state.
pub open spec fn value_mapped<F>(
    before: Seq<Qcomplex>,
    after: Seq<Qcomplex>,
    regs: Seq<Seq<u64>>,
    encoding: BitEncoding,
    conj: bool,
    turn: F,
) -> bool where F: Fn(Vec<i64>, bool, Qcomplex) -> Qcomplex {
    &&& after.len() == before.len()
    &&& forall|x: u64|
        x < before.len() ==> valued(
            before[x as int],
            #[trigger] after[x as int],
            reg_values(x, regs, encoding),
            conj,
            turn,
        )
}

/// Without overrides every amplitude is turned by the phase function.
pub proof fn lemma_no_overrides<F, G>(
    before: Seq<Qcomplex>,
    after: Seq<Qcomplex>,
    regs: Seq<Seq<u64>>,
    encoding: BitEncoding,
    inds: Seq<i64>,
    conj: bool,
    turn: F,
    turn_by: G,
) where F: Fn(Vec<i64>, bool, Qcomplex) -> Qcomplex, G: Fn(Qreal, bool, Qcomplex) -> Qcomplex
    requires
        phase_mapped(before, after, regs, encoding, inds, Seq::empty(), conj, turn, turn_by),
    ensures
        value_mapped(before, after, regs, encoding, conj, turn),
{
    assert forall|x: u64| x < before.len() implies valued(
        before[x as int],
        #[trigger] after[x as int],
        reg_values(x, regs, encoding),
        conj,
        turn,
    ) by {
        assert(phased(
            before[x as int],
            after[x as int],
            reg_values(x, regs, encoding),
            inds,
            Seq::<Qreal>::empty(),
            conj,
            turn,
            turn_by,
        ));
    }
}

/// The value of a sub-register of `k` qubits that spells `key`.
pub(crate) fn decode(key: u64, k: usize, encoding: BitEncoding) -> (v: i64)
    requires
        1 <= k <= MAX_INDEX_BITS,
        key < span(k as nat),
    ensures
        v == decoded(key, k as nat, encoding),
        representable(v, k as int, encoding),
{
    proof {
        lemma_span_is_pow2(k as nat);
        lemma_span_is_pow2((k - 1) as nat);
        lemma_pow2_unfold(k as nat);
    }
    match encoding {
        BitEncoding::Unsigned => key as i64,
        BitEncoding::TwosComplement => {
            if key >= 1u64 << ((k - 1) as u64) {
                (key as i64) - ((1u64 << (k as u64)) as i64)
            } else {
                key as i64
            }
        },
    }
}

/// Whether a sub-register of `k` qubits can hold the value `v`.
pub(crate) fn can_hold(v: i64, k: usize, encoding: BitEncoding) -> (r: bool)
    requires
        1 <= k <= MAX_INDEX_BITS,
    ensures
        r == representable(v, k as int, encoding),
{
    proof {
        lemma_span_is_pow2(k as nat);
        lemma_span_is_pow2((k - 1) as nat);
    }
    match encoding {
        BitEncoding::Unsigned => 0 <= v && (v as u64) < (1u64 << (k as u64)),
        BitEncoding::TwosComplement => {
            let half: i64 = (1u64 << ((k - 1) as u64)) as i64;
            -half <= v && v < half
        },
    }
}

/// Whether every sub-register has between one qubit and the largest
/// number of index bits.
pub open spec fn regs_sized(regs: Seq<Seq<u64>>) -> bool {
    forall|j: int| 0 <= j < regs.len() ==> 1 <= (#[trigger] regs[j]).len() <= MAX_INDEX_BITS
}

/// The views of the sub-registers `regs`.
pub open spec fn reg_views(regs: Seq<Vec<u64>>) -> Seq<Seq<u64>> {
    Seq::new(regs.len(), |j: int| regs[j]@)
}

/// The values of the sub-registers in basis state `x`.
pub(crate) fn values_of(x: u64, regs: &Vec<Vec<u64>>, encoding: BitEncoding) -> (values: Vec<i64>)
    requires
        regs_sized(reg_views(regs@)),
    ensures
        values@ == reg_values(x, reg_views(regs@), encoding),
{
    let mut values: Vec<i64> = Vec::new();
    let mut j: usize = 0;
    while j < regs.len()
        invariant
            j <= regs@.len(),
            regs_sized(reg_views(regs@)),
            values@.len() == j,
            forall|i: int|
                0 <= i < j ==> #[trigger] values@[i] == reg_values(x, reg_views(regs@), encoding)[i],
        decreases regs@.len() - j,
    {
        assert(1 <= reg_views(regs@)[j as int].len() <= MAX_INDEX_BITS);
        let key = gather_of(x, &regs[j]);
        proof {
            lemma_gather_below(x, regs@[j as int]@);
        }
        values.push(decode(key, regs[j].len(), encoding));
        j += 1;
    }
    assert(values@ =~= reg_values(x, reg_views(regs@), encoding));
    values
}

/// The first override that names the values `values`.
pub(crate) fn find_override(values: &Vec<i64>, inds: &[i64], num: usize) -> (hit: Option<usize>)
    requires
        inds@.len() == num * values@.len(),
    ensures
        match first_hit(values@, inds@, 0, num as int) {
            Some(o) => hit == Some(o as usize) && 0 <= o < num,
            None => hit is None,
        },
{
    let r = values.len();
    let total = inds.len();
    let mut o: usize = 0;
    while o < num
        invariant
            o <= num,
            total == inds@.len(),
            r == values@.len(),
            inds@.len() == num * r,
            first_hit(values@, inds@, 0, num as int) == first_hit(values@, inds@, o as int, num as int),
        decreases num - o,
    {
        assert(o * r + r <= num * r) by (nonlinear_arith)
            requires
                o < num,
        ;
        let mut j: usize = 0;
        let mut same = true;
        while j < r
            invariant
                j <= r,
                r == values@.len(),
                total == inds@.len(),
                o * r + r <= inds@.len(),
                same == (forall|i: int|
                    0 <= i < j ==> #[trigger] inds@[o * values@.len() + i] == values@[i]),
            decreases r - j,
        {
            if inds[o * r + j] != values[j] {
                same = false;
                assert(inds@[o * values@.len() + j] != values@[j as int]);
            }
            j += 1;
        }
        if same {
            assert(override_hit(values@, inds@, o as int));
            return Some(o);
        }
        assert(!override_hit(values@, inds@, o as int));
        o += 1;
    }
    None
}

/// Turns every amplitude by the phase that belongs to the values of the
/// sub-registers in its basis state.
pub(crate) fn map_phased<F, G>(
    amps: &mut Vec<Qcomplex>,
    regs: &Vec<Vec<u64>>,
    encoding: BitEncoding,
    inds: &[i64],
    phases: &[Qreal],
    conj: bool,
    turn: &F,
    turn_by: &G,
) where F: Fn(Vec<i64>, bool, Qcomplex) -> Qcomplex, G: Fn(Qreal, bool, Qcomplex) -> Qcomplex
    requires
        regs_sized(reg_views(regs@)),
        inds@.len() == phases@.len() * regs@.len(),
        forall|v: Vec<i64>, c: bool, a: Qcomplex|
            v@.len() == regs@.len() ==> call_requires(*turn, (v, c, a)),
        forall|p: Qreal, c: bool, a: Qcomplex| call_requires(*turn_by, (p, c, a)),
    ensures
        phase_mapped(
            old(amps)@,
            final(amps)@,
            reg_views(regs@),
            encoding,
            inds@,
            phases@,
            conj,
            *turn,
            *turn_by,
        ),
{
    let n: usize = amps.len();
    let num: usize = phases.len();
    let mut i: usize = 0;
    while i < n
        invariant
            i <= n,
            n == amps@.len(),
            amps@.len() == old(amps)@.len(),
            num == phases@.len(),
            regs_sized(reg_views(regs@)),
            inds@.len() == phases@.len() * regs@.len(),
            forall|v: Vec<i64>, c: bool, a: Qcomplex|
                v@.len() == regs@.len() ==> call_requires(*turn, (v, c, a)),
            forall|p: Qreal, c: bool, a: Qcomplex| call_requires(*turn_by, (p, c, a)),
            forall|x: u64|
                x < i ==> phased(
                    old(amps)@[x as int],
                    #[trigger] amps@[x as int],
                    reg_values(x, reg_views(regs@), encoding),
                    inds@,
                    phases@,
                    conj,
                    *turn,
                    *turn_by,
                ),
            forall|x: int| i <= x < n ==> amps@[x] == old(amps)@[x],
        decreases n - i,
    {
        let values = values_of(i as u64, regs, encoding);
        let a = amps[i];
        let b = match find_override(&values, inds, num) {
            Some(o) => turn_by(phases[o], conj, a),
            None => turn(values, conj, a),
        };
        amps[i] = b;
        i += 1;
    }
}

/// Where sub-register `j` starts in the flat list of qubits: the sum of
/// the sizes before it.
pub open spec fn reg_start(sizes: Seq<i32>, j: int) -> int
    decreases j,
{
    if j <= 0 {
        0
    } else {
        reg_start(sizes, j - 1) + sizes[j - 1]
    }
}

/// The qubits of sub-register `j`.
pub open spec fn reg_qubits(qubits: Seq<i32>, sizes: Seq<i32>, j: int) -> Seq<i32> {
    qubits.subrange(reg_start(sizes, j), reg_start(sizes, j) + sizes[j])
}

/// The bits of every sub-register, moved up by `shift` positions.
pub open spec fn regs_bits(qubits: Seq<i32>, sizes: Seq<i32>, shift: nat) -> Seq<Seq<u64>> {
    Seq::new(sizes.len(), |j: int| bits_of(reg_qubits(qubits, sizes, j), shift))
}

/// Whether every sub-register has at least the qubits that `encoding`
/// needs.
pub open spec fn sizes_ok(sizes: Seq<i32>, encoding: BitEncoding) -> bool {
    forall|j: int| 0 <= j < sizes.len() ==> #[trigger] sizes[j] >= min_size(encoding)
}

/// The first rule that the sub-registers of a phase function break:
/// their number, the size of each under the encoding, that together
/// they take up the list of qubits, and the rules of that list.
pub open spec fn regs_fault(n: nat, qubits: Seq<i32>, sizes: Seq<i32>, encoding: BitEncoding) -> Option<
    InputFault,
> {
    if sizes.len() == 0 || sizes.len() > MAX_PHASE_REGISTERS {
        Some(InputFault::RegisterCount)
    } else if !sizes_ok(sizes, encoding) {
        Some(InputFault::Encoding)
    } else if reg_start(sizes, sizes.len() as int) != qubits.len() {
        Some(InputFault::ListLength)
    } else {
        list_fault(n, qubits)
    }
}

/// The first rule that the one sub-register of a phase function breaks:
/// the length of the list, its size under the encoding, and the rules of
/// the list of qubits.
pub open spec fn one_reg_fault(n: nat, qubits: Seq<i32>, encoding: BitEncoding) -> Option<
    InputFault,
> {
    if qubits.len() > n {
        Some(InputFault::ListLength)
    } else if qubits.len() < min_size(encoding) {
        Some(InputFault::Encoding)
    } else {
        list_fault(n, qubits)
    }
}

/// Whether every index of every override can be held by its
/// sub-register.
pub open spec fn overrides_ok(sizes: Seq<i32>, encoding: BitEncoding, inds: Seq<i64>) -> bool {
    forall|i: int|
        0 <= i < inds.len() ==> representable(
            #[trigger] inds[i],
            sizes[i % (sizes.len() as int)] as int,
            encoding,
        )
}

/// The first rule that the overrides of a phase function break: one
/// index per sub-register and phase, each of which the sub-register can
/// hold.
pub open spec fn overrides_fault(
    sizes: Seq<i32>,
    encoding: BitEncoding,
    inds: Seq<i64>,
    num: nat,
) -> Option<InputFault> {
    if inds.len() != num * sizes.len() {
        Some(InputFault::PhaseTerms)
    } else if !overrides_ok(sizes, encoding, inds) {
        Some(InputFault::OverrideIndex)
    } else {
        None
    }
}

/// Whether some exponent is below zero.
pub open spec fn any_negative(exps: Seq<Qreal>) -> bool {
    exists|t: int| 0 <= t < exps.len() && (#[trigger] exps[t]).below_zero()
}

/// Whether some exponent is no whole number.
pub open spec fn any_fraction(exps: Seq<Qreal>) -> bool {
    exists|t: int| 0 <= t < exps.len() && !(#[trigger] exps[t]).whole()
}

/// Whether every negative value of a sub-register of `k` qubits is
/// among `inds`.
pub open spec fn negatives_overridden(k: nat, inds: Seq<i64>) -> bool {
    forall|v: i64| -pow2((k - 1) as nat) <= v < 0 ==> #[trigger] inds.contains(v)
}

/// The first rule that the terms of a phase function of one variable
/// break.
///
/// The lists of coefficients and of exponents have the same length and
/// at least one entry. A fractional exponent has no real value at a
/// negative index: under two's complement every negative index must
/// then be overridden, which is looked up for sub-registers of up to
/// sixteen qubits and taken on trust for larger ones. A negative
/// exponent diverges at zero: index zero must then be overridden.
pub open spec fn terms_fault(
    k: nat,
    encoding: BitEncoding,
    coeffs: Seq<Qreal>,
    exps: Seq<Qreal>,
    inds: Seq<i64>,
) -> Option<InputFault> {
    if coeffs.len() != exps.len() || coeffs.len() == 0 {
        Some(InputFault::PhaseTerms)
    } else if encoding == BitEncoding::TwosComplement && any_fraction(exps) && k
        <= MAX_CHECKED_QUBITS && !negatives_overridden(k, inds) {
        Some(InputFault::FractionalExponent)
    } else if any_negative(exps) && !inds.contains(0) {
        Some(InputFault::NegativeExponent)
    } else {
        None
    }
}

/// Whether every sub-register has at least one term.
pub open spec fn terms_ok(terms: Seq<i32>) -> bool {
    forall|j: int| 0 <= j < terms.len() ==> #[trigger] terms[j] >= 1
}

/// The first rule that the terms of a phase function of several
/// variables break.
///
/// Every sub-register has at least one term, and the lists of
/// coefficients and of exponents hold the terms of all of them. No
/// exponent may be negative, and under two's complement none may be
/// fractional: overriding the indices concerned would take a number of
/// overrides that grows with the other sub-registers.
pub open spec fn multi_terms_fault(
    sizes: Seq<i32>,
    encoding: BitEncoding,
    coeffs: Seq<Qreal>,
    exps: Seq<Qreal>,
    terms: Seq<i32>,
) -> Option<InputFault> {
    if terms.len() != sizes.len() || !terms_ok(terms) || reg_start(terms, terms.len() as int)
        != coeffs.len() || coeffs.len() != exps.len() {
        Some(InputFault::PhaseTerms)
    } else if any_negative(exps) {
        Some(InputFault::NegativeExponent)
    } else if encoding == BitEncoding::TwosComplement && any_fraction(exps) {
        Some(InputFault::FractionalExponent)
    } else {
        None
    }
}

/// Whether a named phase function measures distances between pairs of
/// sub-registers.
pub open spec fn pairs_registers(func: PhaseFunc) -> bool {
    match func {
        PhaseFunc::Distance | PhaseFunc::ScaledDistance | PhaseFunc::InverseDistance
        | PhaseFunc::ScaledInverseDistance | PhaseFunc::ScaledInverseShiftedDistance
        | PhaseFunc::ScaledInverseShiftedWeightedDistance => true,
        _ => false,
    }
}

/// The number of parameters that a named phase function takes on `regs`
/// sub-registers: a scale where it is scaled, the value at the
/// divergence where it is inverse, and a shift per sub-register, or per
/// pair of them, where it is shifted; the weighted distance has a weight
/// and a shift per pair.
pub open spec fn params_needed(func: PhaseFunc, regs: nat) -> nat {
    match func {
        PhaseFunc::Norm | PhaseFunc::Product | PhaseFunc::Distance => 0,
        PhaseFunc::ScaledNorm | PhaseFunc::ScaledProduct | PhaseFunc::ScaledDistance => 1,
        PhaseFunc::InverseNorm | PhaseFunc::InverseProduct | PhaseFunc::InverseDistance => 1,
        PhaseFunc::ScaledInverseNorm | PhaseFunc::ScaledInverseProduct
        | PhaseFunc::ScaledInverseDistance => 2,
        PhaseFunc::ScaledInverseShiftedNorm => 2 + regs,
        PhaseFunc::ScaledInverseShiftedDistance => 2 + regs / 2,
        PhaseFunc::ScaledInverseShiftedWeightedDistance => 2 + regs,
    }
}

/// The first rule that a named phase function breaks: an even number of
/// sub-registers where it pairs them, and its number of parameters.
pub open spec fn named_fault(func: PhaseFunc, regs: nat, params: nat) -> Option<InputFault> {
    if pairs_registers(func) && regs % 2 != 0 {
        Some(InputFault::PhaseParameters)
    } else if params != params_needed(func, regs) {
        Some(InputFault::PhaseParameters)
    } else {
        None
    }
}

/// The sum of the sizes up to a sub-register grows with it.
pub proof fn lemma_reg_start_grows(sizes: Seq<i32>, i: int, j: int)
    requires
        0 <= i <= j <= sizes.len(),
        forall|m: int| 0 <= m < sizes.len() ==> #[trigger] sizes[m] >= 1,
    ensures
        reg_start(sizes, i) + (j - i) <= reg_start(sizes, j),
    decreases j - i,
{
    if i < j {
        lemma_reg_start_grows(sizes, i, j - 1);
    }
}

/// Checks a named phase function against its number of sub-registers
/// and of parameters.
pub(crate) fn check_named(func: PhaseFunc, regs: usize, params: usize) -> (res: Result<(), InputFault>)
    requires
        regs <= MAX_PHASE_REGISTERS,
    ensures
        res == (match named_fault(func, regs as nat, params as nat) {
            Some(fault) => Err::<(), InputFault>(fault),
            None => Ok(()),
        }),
{
    let pairs = match func {
        PhaseFunc::Distance | PhaseFunc::ScaledDistance | PhaseFunc::InverseDistance
        | PhaseFunc::ScaledInverseDistance | PhaseFunc::ScaledInverseShiftedDistance
        | PhaseFunc::ScaledInverseShiftedWeightedDistance => true,
        _ => false,
    };
    if pairs && regs % 2 != 0 {
        return Err(InputFault::PhaseParameters);
    }
    let needed: usize = match func {
        PhaseFunc::Norm | PhaseFunc::Product | PhaseFunc::Distance => 0,
        PhaseFunc::ScaledNorm | PhaseFunc::ScaledProduct | PhaseFunc::ScaledDistance => 1,
        PhaseFunc::InverseNorm | PhaseFunc::InverseProduct | PhaseFunc::InverseDistance => 1,
        PhaseFunc::ScaledInverseNorm | PhaseFunc::ScaledInverseProduct
        | PhaseFunc::ScaledInverseDistance => 2,
        PhaseFunc::ScaledInverseShiftedNorm => 2 + regs,
        PhaseFunc::ScaledInverseShiftedDistance => 2 + regs / 2,
        PhaseFunc::ScaledInverseShiftedWeightedDistance => 2 + regs,
    };
    if params != needed {
        return Err(InputFault::PhaseParameters);
    }
    Ok(())
}

/// Whether some exponent is below zero.
pub(crate) fn has_negative(exps: &[Qreal]) -> (r: bool)
    ensures
        r == any_negative(exps@),
{
    let mut t: usize = 0;
    while t < exps.len()
        invariant
            t <= exps@.len(),
            forall|i: int| 0 <= i < t ==> !(#[trigger] exps@[i]).below_zero(),
        decreases exps@.len() - t,
    {
        if exps[t].is_negative() {
            assert(exps@[t as int].below_zero());
            return true;
        }
        t += 1;
    }
    false
}

/// Whether some exponent is no whole number.
pub(crate) fn has_fraction(exps: &[Qreal]) -> (r: bool)
    ensures
        r == any_fraction(exps@),
{
    let mut t: usize = 0;
    while t < exps.len()
        invariant
            t <= exps@.len(),
            forall|i: int| 0 <= i < t ==> (#[trigger] exps@[i]).whole(),
        decreases exps@.len() - t,
    {
        if !exps[t].is_whole() {
            assert(!exps@[t as int].whole());
            return true;
        }
        t += 1;
    }
    false
}

/// Whether `v` is among `inds`.
pub(crate) fn holds(inds: &[i64], v: i64) -> (r: bool)
    ensures
        r == inds@.contains(v),
{
    let mut i: usize = 0;
    while i < inds.len()
        invariant
            i <= inds@.len(),
            forall|j: int| 0 <= j < i ==> #[trigger] inds@[j] != v,
        decreases inds@.len() - i,
    {
        if inds[i] == v {
            assert(inds@[i as int] == v);
            return true;
        }
        i += 1;
    }
    false
}

/// Whether every negative value of a sub-register of `k` qubits is
/// among `inds`.
pub(crate) fn covers_negatives(k: usize, inds: &[i64]) -> (r: bool)
    requires
        1 <= k <= MAX_INDEX_BITS,
    ensures
        r == negatives_overridden(k as nat, inds@),
{
    proof {
        lemma_span_is_pow2((k - 1) as nat);
    }
    let low: i64 = -((1u64 << ((k - 1) as u64)) as i64);
    let mut v: i64 = low;
    while v < 0
        invariant
            low <= v <= 0,
            low == -pow2((k - 1) as nat),
            forall|w: i64| low <= w < v ==> #[trigger] inds@.contains(w),
        decreases -v,
    {
        if !holds(inds, v) {
            return false;
        }
        v += 1;
    }
    true
}

/// Checks the terms of a phase function of one variable.
pub(crate) fn check_terms(
    k: usize,
    encoding: BitEncoding,
    coeffs: &[Qreal],
    exps: &[Qreal],
    inds: &[i64],
) -> (res: Result<(), InputFault>)
    requires
        1 <= k <= MAX_INDEX_BITS,
    ensures
        res == (match terms_fault(k as nat, encoding, coeffs@, exps@, inds@) {
            Some(fault) => Err::<(), InputFault>(fault),
            None => Ok(()),
        }),
{
    if coeffs.len() != exps.len() || coeffs.len() == 0 {
        return Err(InputFault::PhaseTerms);
    }
    let twos = match encoding {
        BitEncoding::TwosComplement => true,
        BitEncoding::Unsigned => false,
    };
    if twos && k <= MAX_CHECKED_QUBITS && has_fraction(exps) && !covers_negatives(k, inds) {
        return Err(InputFault::FractionalExponent);
    }
    if has_negative(exps) && !holds(inds, 0) {
        return Err(InputFault::NegativeExponent);
    }
    Ok(())
}

/// Checks the terms of a phase function of several variables.
pub(crate) fn check_multi_terms(
    sizes: &[i32],
    encoding: BitEncoding,
    coeffs: &[Qreal],
    exps: &[Qreal],
    terms: &[i32],
) -> (res: Result<(), InputFault>)
    ensures
        res == (match multi_terms_fault(sizes@, encoding, coeffs@, exps@, terms@) {
            Some(fault) => Err::<(), InputFault>(fault),
            None => Ok(()),
        }),
{
    if terms.len() != sizes.len() {
        return Err(InputFault::PhaseTerms);
    }
    let want = coeffs.len();
    let mut j: usize = 0;
    while j < terms.len()
        invariant
            j <= terms@.len(),
            forall|m: int| 0 <= m < j ==> #[trigger] terms@[m] >= 1,
        decreases terms@.len() - j,
    {
        if terms[j] < 1 {
            assert(!(terms@[j as int] >= 1));
            return Err(InputFault::PhaseTerms);
        }
        j += 1;
    }
    let mut total: usize = 0;
    j = 0;
    while j < terms.len()
        invariant
            j <= terms@.len(),
            want == coeffs@.len(),
            terms_ok(terms@),
            total == reg_start(terms@, j as int),
            total <= want,
        decreases terms@.len() - j,
    {
        let t = terms[j] as usize;
        if t > want - total {
            proof {
                lemma_reg_start_grows(terms@, j + 1, terms@.len() as int);
            }
            return Err(InputFault::PhaseTerms);
        }
        total = total + t;
        j += 1;
    }
    if total != want || coeffs.len() != exps.len() {
        return Err(InputFault::PhaseTerms);
    }
    if has_negative(exps) {
        return Err(InputFault::NegativeExponent);
    }
    let twos = match encoding {
        BitEncoding::TwosComplement => true,
        BitEncoding::Unsigned => false,
    };
    if twos && has_fraction(exps) {
        return Err(InputFault::FractionalExponent);
    }
    Ok(())
}

/// Checks the sub-registers of a phase function.
pub(crate) fn check_regs(n: u32, qubits: &[i32], sizes: &[i32], encoding: BitEncoding) -> (res: Result<
    (),
    InputFault,
>)
    requires
        n <= MAX_INDEX_BITS,
    ensures
        res == (match regs_fault(n as nat, qubits@, sizes@, encoding) {
            Some(fault) => Err::<(), InputFault>(fault),
            None => Ok(()),
        }),
{
    if sizes.len() == 0 || sizes.len() > MAX_PHASE_REGISTERS {
        return Err(InputFault::RegisterCount);
    }
    let least: i32 = match encoding {
        BitEncoding::Unsigned => 1,
        BitEncoding::TwosComplement => 2,
    };
    let mut j: usize = 0;
    while j < sizes.len()
        invariant
            j <= sizes@.len(),
            0 < sizes@.len() <= MAX_PHASE_REGISTERS,
            least == min_size(encoding),
            forall|m: int| 0 <= m < j ==> #[trigger] sizes@[m] >= least,
        decreases sizes@.len() - j,
    {
        if sizes[j] < least {
            assert(!(sizes@[j as int] >= min_size(encoding)));
            return Err(InputFault::Encoding);
        }
        j += 1;
    }
    let want = qubits.len();
    let mut total: usize = 0;
    j = 0;
    while j < sizes.len()
        invariant
            j <= sizes@.len(),
            0 < sizes@.len() <= MAX_PHASE_REGISTERS,
            want == qubits@.len(),
            sizes_ok(sizes@, encoding),
            total == reg_start(sizes@, j as int),
            total <= want,
        decreases sizes@.len() - j,
    {
        let t = sizes[j] as usize;
        if t > want - total {
            proof {
                assert forall|m: int| 0 <= m < sizes@.len() implies #[trigger] sizes@[m] >= 1 by {
                    assert(sizes@[m] >= min_size(encoding));
                }
                lemma_reg_start_grows(sizes@, j + 1, sizes@.len() as int);
            }
            return Err(InputFault::ListLength);
        }
        total = total + t;
        j += 1;
    }
    if total != want {
        return Err(InputFault::ListLength);
    }
    match check_list(n, qubits) {
        Ok(_) => Ok(()),
        Err(fault) => Err(fault),
    }
}

/// Checks the overrides of a phase function against its sub-registers.
pub(crate) fn check_overrides(sizes: &[i32], encoding: BitEncoding, inds: &[i64], num: usize) -> (res:
    Result<(), InputFault>)
    requires
        0 < sizes@.len() <= MAX_PHASE_REGISTERS,
        forall|j: int| 0 <= j < sizes@.len() ==> 1 <= #[trigger] sizes@[j] <= MAX_INDEX_BITS,
    ensures
        res == (match overrides_fault(sizes@, encoding, inds@, num as nat) {
            Some(fault) => Err::<(), InputFault>(fault),
            None => Ok(()),
        }),
{
    let r = sizes.len();
    let total = inds.len();
    if total % r != 0 || total / r != num {
        proof {
            if total == num * r {
                vstd::arithmetic::div_mod::lemma_fundamental_div_mod_converse(
                    total as int,
                    r as int,
                    num as int,
                    0,
                );
            }
        }
        return Err(InputFault::PhaseTerms);
    }
    proof {
        vstd::arithmetic::div_mod::lemma_fundamental_div_mod(total as int, r as int);
        assert(num * r == r * num) by (nonlinear_arith);
    }
    let mut i: usize = 0;
    while i < total
        invariant
            i <= total,
            total == inds@.len(),
            total == num * r,
            r == sizes@.len(),
            r > 0,
            forall|j: int| 0 <= j < sizes@.len() ==> 1 <= #[trigger] sizes@[j] <= MAX_INDEX_BITS,
            forall|m: int|
                0 <= m < i ==> representable(
                    #[trigger] inds@[m],
                    sizes@[m % (sizes@.len() as int)] as int,
                    encoding,
                ),
        decreases total - i,
    {
        let k = sizes[i % r] as usize;
        if !can_hold(inds[i], k, encoding) {
            assert(!representable(
                inds@[i as int],
                sizes@[(i as int) % (sizes@.len() as int)] as int,
                encoding,
            ));
            return Err(InputFault::OverrideIndex);
        }
        i += 1;
    }
    Ok(())
}

/// The first of two faults.
pub open spec fn or_else(first: Option<InputFault>, second: Option<InputFault>) -> Option<
    InputFault,
> {
    if first is Some {
        first
    } else {
        second
    }
}

/// The first rule that the arguments of a phase function of one variable
/// break: the rules of its sub-register, then those of its overrides,
/// then those of its terms.
pub open spec fn phase_func_fault(
    n: nat,
    qubits: Seq<i32>,
    encoding: BitEncoding,
    coeffs: Seq<Qreal>,
    exps: Seq<Qreal>,
    inds: Seq<i64>,
    num: nat,
) -> Option<InputFault> {
    or_else(
        one_reg_fault(n, qubits, encoding),
        or_else(
            overrides_fault(seq![qubits.len() as i32], encoding, inds, num),
            terms_fault(qubits.len(), encoding, coeffs, exps, inds),
        ),
    )
}

/// The first rule that the arguments of a phase function of several
/// variables break: the rules of its sub-registers, then those of its
/// overrides, then those of its terms.
pub open spec fn multi_var_fault(
    n: nat,
    qubits: Seq<i32>,
    sizes: Seq<i32>,
    encoding: BitEncoding,
    coeffs: Seq<Qreal>,
    exps: Seq<Qreal>,
    terms: Seq<i32>,
    inds: Seq<i64>,
    num: nat,
) -> Option<InputFault> {
    or_else(
        regs_fault(n, qubits, sizes, encoding),
        or_else(
            overrides_fault(sizes, encoding, inds, num),
            multi_terms_fault(sizes, encoding, coeffs, exps, terms),
        ),
    )
}

/// The first rule that the arguments of a named phase function break:
/// the rules of its sub-registers, then those of the function, then
/// those of its overrides.
pub open spec fn named_phase_fault(
    n: nat,
    qubits: Seq<i32>,
    sizes: Seq<i32>,
    encoding: BitEncoding,
    func: PhaseFunc,
    params: nat,
    inds: Seq<i64>,
    num: nat,
) -> Option<InputFault> {
    or_else(
        regs_fault(n, qubits, sizes, encoding),
        or_else(
            named_fault(func, sizes.len(), params),
            overrides_fault(sizes, encoding, inds, num),
        ),
    )
}

/// Whether `sizes` cuts the valid list `qubits` into sub-registers of at
/// least one qubit.
pub open spec fn cut_ok(n: nat, qubits: Seq<i32>, sizes: Seq<i32>) -> bool {
    &&& 0 < sizes.len() <= MAX_PHASE_REGISTERS
    &&& forall|j: int| 0 <= j < sizes.len() ==> #[trigger] sizes[j] >= 1
    &&& reg_start(sizes, sizes.len() as int) == qubits.len()
    &&& list_fault(n, qubits) is None
}

/// Sub-registers that pass the checks cut the list of qubits.
pub proof fn lemma_regs_cut(n: nat, qubits: Seq<i32>, sizes: Seq<i32>, encoding: BitEncoding)
    requires
        regs_fault(n, qubits, sizes, encoding) is None,
    ensures
        cut_ok(n, qubits, sizes),
        forall|j: int| 0 <= j < sizes.len() ==> 1 <= #[trigger] sizes[j] <= n,
{
    assert forall|j: int| 0 <= j < sizes.len() implies 1 <= #[trigger] sizes[j] <= n by {
        assert(sizes[j] >= min_size(encoding));
        assert forall|m: int| 0 <= m < sizes.len() implies #[trigger] sizes[m] >= 1 by {
            assert(sizes[m] >= min_size(encoding));
        }
        lemma_reg_start_grows(sizes, 0, j);
        lemma_reg_start_grows(sizes, j + 1, sizes.len() as int);
    }
}

/// One sub-register that holds all of `qubits` is `qubits` itself.
pub proof fn lemma_one_reg(n: nat, qubits: Seq<i32>, encoding: BitEncoding, shift: nat)
    requires
        one_reg_fault(n, qubits, encoding) is None,
        n <= MAX_INDEX_BITS,
    ensures
        regs_fault(n, qubits, seq![qubits.len() as i32], encoding) is None,
        regs_bits(qubits, seq![qubits.len() as i32], shift) == seq![bits_of(qubits, shift)],
{
    let sizes = seq![qubits.len() as i32];
    assert(sizes[0] == qubits.len());
    assert(reg_start(sizes, 1) == reg_start(sizes, 0) + sizes[0]);
    assert(sizes_ok(sizes, encoding));
    assert(reg_qubits(qubits, sizes, 0) =~= qubits);
    assert(regs_bits(qubits, sizes, shift) =~= seq![bits_of(qubits, shift)]);
}

/// Leaves an amplitude as it is.
pub(crate) fn untouched(phase: Qreal, conj: bool, a: Qcomplex) -> (r: Qcomplex)
    ensures
        r == a,
{
    a
}

/// The bits of every sub-register, moved up by `shift` positions.
pub(crate) fn build_regs(n: u32, qubits: &[i32], sizes: &[i32], shift: u32) -> (regs: Vec<Vec<u64>>)
    requires
        cut_ok(n as nat, qubits@, sizes@),
        n + shift <= MAX_INDEX_BITS,
    ensures
        reg_views(regs@) == regs_bits(qubits@, sizes@, shift as nat),
        regs_sized(reg_views(regs@)),
        regs@.len() == sizes@.len(),
{
    let mut regs: Vec<Vec<u64>> = Vec::new();
    let len = qubits.len();
    let mut start: usize = 0;
    let mut j: usize = 0;
    while j < sizes.len()
        invariant
            j <= sizes@.len(),
            len == qubits@.len(),
            cut_ok(n as nat, qubits@, sizes@),
            n + shift <= MAX_INDEX_BITS,
            start == reg_start(sizes@, j as int),
            start <= len,
            regs@.len() == j,
            forall|i: int|
                0 <= i < j ==> (#[trigger] regs@[i])@ == bits_of(
                    reg_qubits(qubits@, sizes@, i),
                    shift as nat,
                ),
        decreases sizes@.len() - j,
    {
        proof {
            lemma_reg_start_grows(sizes@, j + 1, sizes@.len() as int);
            assert(sizes@[j as int] >= 1);
        }
        let size = sizes[j] as usize;
        let ghost want = bits_of(reg_qubits(qubits@, sizes@, j as int), shift as nat);
        let mut reg: Vec<u64> = Vec::new();
        let mut m: usize = 0;
        while m < size
            invariant
                m <= size,
                size == sizes@[j as int],
                start + size <= len,
                len == qubits@.len(),
                start == reg_start(sizes@, j as int),
                n + shift <= MAX_INDEX_BITS,
                crate::validate::all_ok(n as nat, qubits@),
                want == bits_of(reg_qubits(qubits@, sizes@, j as int), shift as nat),
                reg@.len() == m,
                forall|i: int| 0 <= i < m ==> #[trigger] reg@[i] == want[i],
            decreases size - m,
        {
            let q = qubits[start + m];
            assert(qubit_ok(n as nat, qubits@[start + m]));
            assert(reg_qubits(qubits@, sizes@, j as int)[m as int] == q);
            reg.push(1u64 << ((q as u32 + shift) as u64));
            m += 1;
        }
        assert(reg@ =~= want);
        regs.push(reg);
        start = start + size;
        j += 1;
    }
    proof {
        assert(reg_views(regs@) =~= regs_bits(qubits@, sizes@, shift as nat));
        assert forall|i: int| 0 <= i < regs@.len() implies 1 <= (#[trigger] reg_views(
            regs@,
        )[i]).len() <= MAX_INDEX_BITS by {
            assert(regs@[i]@ == bits_of(reg_qubits(qubits@, sizes@, i), shift as nat));
            assert(sizes@[i] >= 1);
            lemma_reg_start_grows(sizes@, 0, i);
            lemma_reg_start_grows(sizes@, i + 1, sizes@.len() as int);
        }
    }
    regs
}

impl<'a> Qureg<'a> {
    /// Turns every amplitude by the phase that belongs to the values of
    /// the sub-registers, on the rows and, for a density matrix, with
    /// the opposite phase on the columns.
    fn phase_sweep<F, G>(
        &mut self,
        qubits: &[i32],
        sizes: &[i32],
        encoding: BitEncoding,
        inds: &[i64],
        phases: &[Qreal],
        turn: &F,
        turn_by: &G,
    ) where F: Fn(Vec<i64>, bool, Qcomplex) -> Qcomplex, G: Fn(Qreal, bool, Qcomplex) -> Qcomplex
        requires
            old(self).wf(),
            cut_ok(old(self)@.num_qubits, qubits@, sizes@),
            inds@.len() == phases@.len() * sizes@.len(),
            forall|v: Vec<i64>, c: bool, a: Qcomplex|
                v@.len() == sizes@.len() ==> call_requires(*turn, (v, c, a)),
            forall|p: Qreal, c: bool, a: Qcomplex| call_requires(*turn_by, (p, c, a)),
        ensures
            old(self).reshaped(final(self)),
            two_sided(
                old(self)@,
                final(self)@,
                |a: Seq<Qcomplex>, b: Seq<Qcomplex>|
                    phase_mapped(
                        a,
                        b,
                        regs_bits(qubits@, sizes@, 0),
                        encoding,
                        inds@,
                        phases@,
                        false,
                        *turn,
                        *turn_by,
                    ),
                |a: Seq<Qcomplex>, b: Seq<Qcomplex>|
                    phase_mapped(
                        a,
                        b,
                        regs_bits(qubits@, sizes@, old(self)@.num_qubits),
                        encoding,
                        inds@,
                        phases@,
                        true,
                        *turn,
                        *turn_by,
                    ),
            ),
    {
        let n = self.qubits();
        let regs = build_regs(n, qubits, sizes, 0);
        let ghost start = self@.amps;
        map_phased(&mut self.amps, &regs, encoding, inds, phases, false, turn, turn_by);
        if self.is_density {
            let ghost mid = self.amps@;
            let cregs = build_regs(n, qubits, sizes, n);
            map_phased(&mut self.amps, &cregs, encoding, inds, phases, true, turn, turn_by);
            proof {
                let rows = |a: Seq<Qcomplex>, b: Seq<Qcomplex>|
                    phase_mapped(
                        a,
                        b,
                        regs_bits(qubits@, sizes@, 0),
                        encoding,
                        inds@,
                        phases@,
                        false,
                        *turn,
                        *turn_by,
                    );
                let cols = |a: Seq<Qcomplex>, b: Seq<Qcomplex>|
                    phase_mapped(
                        a,
                        b,
                        regs_bits(qubits@, sizes@, old(self)@.num_qubits),
                        encoding,
                        inds@,
                        phases@,
                        true,
                        *turn,
                        *turn_by,
                    );
                assert(rows(start, mid) && cols(mid, self@.amps));
            }
        }
    }

    /// Turns every amplitude by the phase function at the values of the
    /// sub-registers, without overrides.
    fn phase_sweep_plain<F>(&mut self, qubits: &[i32], sizes: &[i32], encoding: BitEncoding, turn: &F) where
        F: Fn(Vec<i64>, bool, Qcomplex) -> Qcomplex,

        requires
            old(self).wf(),
            cut_ok(old(self)@.num_qubits, qubits@, sizes@),
            forall|v: Vec<i64>, c: bool, a: Qcomplex|
                v@.len() == sizes@.len() ==> call_requires(*turn, (v, c, a)),
        ensures
            old(self).reshaped(final(self)),
            two_sided(
                old(self)@,
                final(self)@,
                |a: Seq<Qcomplex>, b: Seq<Qcomplex>|
                    value_mapped(a, b, regs_bits(qubits@, sizes@, 0), encoding, false, *turn),
                |a: Seq<Qcomplex>, b: Seq<Qcomplex>|
                    value_mapped(
                        a,
                        b,
                        regs_bits(qubits@, sizes@, old(self)@.num_qubits),
                        encoding,
                        true,
                        *turn,
                    ),
            ),
    {
        let no_inds: Vec<i64> = Vec::new();
        let no_phases: Vec<Qreal> = Vec::new();
        let ghost start = self@;
        self.phase_sweep(
            qubits,
            sizes,
            encoding,
            no_inds.as_slice(),
            no_phases.as_slice(),
            turn,
            &untouched,
        );
        proof {
            let n = start.num_qubits;
            let rows = |a: Seq<Qcomplex>, b: Seq<Qcomplex>|
                value_mapped(a, b, regs_bits(qubits@, sizes@, 0), encoding, false, *turn);
            let cols = |a: Seq<Qcomplex>, b: Seq<Qcomplex>|
                value_mapped(a, b, regs_bits(qubits@, sizes@, n), encoding, true, *turn);
            let prows = |a: Seq<Qcomplex>, b: Seq<Qcomplex>|
                phase_mapped(
                    a,
                    b,
                    regs_bits(qubits@, sizes@, 0),
                    encoding,
                    no_inds@,
                    no_phases@,
                    false,
                    *turn,
                    untouched,
                );
            let pcols = |a: Seq<Qcomplex>, b: Seq<Qcomplex>|
                phase_mapped(
                    a,
                    b,
                    regs_bits(qubits@, sizes@, n),
                    encoding,
                    no_inds@,
                    no_phases@,
                    true,
                    *turn,
                    untouched,
                );
            assert(no_phases@ =~= Seq::<Qreal>::empty());
            if start.is_density {
                let mid = choose|mid: Seq<Qcomplex>|
                    #[trigger] prows(start.amps, mid) && pcols(mid, self@.amps);
                lemma_no_overrides(
                    start.amps,
                    mid,
                    regs_bits(qubits@, sizes@, 0),
                    encoding,
                    no_inds@,
                    false,
                    *turn,
                    untouched,
                );
                lemma_no_overrides(
                    mid,
                    self@.amps,
                    regs_bits(qubits@, sizes@, n),
                    encoding,
                    no_inds@,
                    true,
                    *turn,
                    untouched,
                );
                assert(rows(start.amps, mid) && cols(mid, self@.amps));
            } else {
                assert(prows(start.amps, self@.amps));
                lemma_no_overrides(
                    start.amps,
                    self@.amps,
                    regs_bits(qubits@, sizes@, 0),
                    encoding,
                    no_inds@,
                    false,
                    *turn,
                    untouched,
                );
            }
        }
    }

    /// Checks the one sub-register of a phase function of one variable.
    fn check_one_reg(&self, qubits: &[i32], encoding: BitEncoding) -> (res: Result<Vec<i32>, InputFault>)
        requires
            self.wf(),
        ensures
            match one_reg_fault(self@.num_qubits, qubits@, encoding) {
                Some(fault) => res == Err::<Vec<i32>, InputFault>(fault),
                None => res matches Ok(sizes) && sizes@ == seq![qubits@.len() as i32] && cut_ok(
                    self@.num_qubits,
                    qubits@,
                    sizes@,
                ) && 1 <= qubits@.len() <= MAX_INDEX_BITS,
            },
    {
        let n = self.qubits();
        if qubits.len() > n as usize {
            return Err(InputFault::ListLength);
        }
        let least: usize = match encoding {
            BitEncoding::Unsigned => 1,
            BitEncoding::TwosComplement => 2,
        };
        if qubits.len() < least {
            return Err(InputFault::Encoding);
        }
        match check_list(n, qubits) {
            Err(fault) => Err(fault),
            Ok(_) => {
                let mut sizes: Vec<i32> = Vec::new();
                sizes.push(qubits.len() as i32);
                proof {
                    assert(sizes@ =~= seq![qubits@.len() as i32]);
                    lemma_one_reg(n as nat, qubits@, encoding, 0);
                    lemma_regs_cut(n as nat, qubits@, sizes@, encoding);
                }
                Ok(sizes)
            },
        }
    }

    /// Applies a phase function of one variable with overrides.
    ///
    /// The variable is the value of the sub-register `qubits` under
    /// `encoding`. The function is the sum of the terms
    /// `coeffs[t] * r^exponents[t]`. An amplitude whose value is
    /// `override_inds[o]`, for the first such `o`, is turned by
    /// `override_phases[o]`, which `turn_by` does; any other is turned by
    /// the function at its value, which `turn` does. Both are told
    /// whether the opposite phase is wanted, as it is on the column side
    /// of a density matrix.
    ///
    /// Fails, and changes nothing, with the first fault that
    /// `phase_func_fault` finds.
    pub fn apply_phase_func_overrides<F, G>(
        &mut self,
        qubits: &[i32],
        encoding: BitEncoding,
        coeffs: &[Qreal],
        exponents: &[Qreal],
        override_inds: &[i64],
        override_phases: &[Qreal],
        turn: F,
        turn_by: G,
    ) -> (res: Result<(), QuestError>) where
        F: Fn(Vec<i64>, bool, Qcomplex) -> Qcomplex,
        G: Fn(Qreal, bool, Qcomplex) -> Qcomplex,

        requires
            old(self).wf(),
            forall|v: Vec<i64>, c: bool, a: Qcomplex|
                v@.len() == 1 ==> call_requires(turn, (v, c, a)),
            forall|p: Qreal, c: bool, a: Qcomplex| call_requires(turn_by, (p, c, a)),
        ensures
            old(self).reshaped(final(self)),
            match phase_func_fault(
                old(self)@.num_qubits,
                qubits@,
                encoding,
                coeffs@,
                exponents@,
                override_inds@,
                override_phases@.len(),
            ) {
                Some(fault) => res == Err::<(), QuestError>(QuestError::InvalidInputError(fault))
                    && final(self)@ == old(self)@,
                None => res is Ok && two_sided(
                    old(self)@,
                    final(self)@,
                    |a: Seq<Qcomplex>, b: Seq<Qcomplex>|
                        phase_mapped(
                            a,
                            b,
                            regs_bits(qubits@, seq![qubits@.len() as i32], 0),
                            encoding,
                            override_inds@,
                            override_phases@,
                            false,
                            turn,
                            turn_by,
                        ),
                    |a: Seq<Qcomplex>, b: Seq<Qcomplex>|
                        phase_mapped(
                            a,
                            b,
                            regs_bits(
                                qubits@,
                                seq![qubits@.len() as i32],
                                old(self)@.num_qubits,
                            ),
                            encoding,
                            override_inds@,
                            override_phases@,
                            true,
                            turn,
                            turn_by,
                        ),
                ),
            },
    {
        let sizes = match self.check_one_reg(qubits, encoding) {
            Ok(sizes) => sizes,
            Err(fault) => {
                return Err(QuestError::InvalidInputError(fault));
            },
        };
        match check_overrides(sizes.as_slice(), encoding, override_inds, override_phases.len()) {
            Ok(()) => {},
            Err(fault) => {
                return Err(QuestError::InvalidInputError(fault));
            },
        }
        match check_terms(qubits.len(), encoding, coeffs, exponents, override_inds) {
            Ok(()) => {},
            Err(fault) => {
                return Err(QuestError::InvalidInputError(fault));
            },
        }
        self.phase_sweep(
            qubits,
            sizes.as_slice(),
            encoding,
            override_inds,
            override_phases,
            &turn,
            &turn_by,
        );
        Ok(())
    }

    /// Applies a phase function of one variable.
    ///
    /// The variable is the value of the sub-register `qubits` under
    /// `encoding`, the function the sum of the terms
    /// `coeffs[t] * r^exponents[t]`. Every amplitude is turned by the
    /// function at its value, which `turn` does; it is told whether the
    /// opposite phase is wanted, as it is on the column side of a
    /// density matrix.
    ///
    /// Fails, and changes nothing, with the first fault that
    /// `phase_func_fault` finds where there are no overrides.
    pub fn apply_phase_func<F>(
        &mut self,
        qubits: &[i32],
        encoding: BitEncoding,
        coeffs: &[Qreal],
        exponents: &[Qreal],
        turn: F,
    ) -> (res: Result<(), QuestError>) where F: Fn(Vec<i64>, bool, Qcomplex) -> Qcomplex
        requires
            old(self).wf(),
            forall|v: Vec<i64>, c: bool, a: Qcomplex|
                v@.len() == 1 ==> call_requires(turn, (v, c, a)),
        ensures
            old(self).reshaped(final(self)),
            match phase_func_fault(
                old(self)@.num_qubits,
                qubits@,
                encoding,
                coeffs@,
                exponents@,
                Seq::empty(),
                0,
            ) {
                Some(fault) => res == Err::<(), QuestError>(QuestError::InvalidInputError(fault))
                    && final(self)@ == old(self)@,
                None => res is Ok && two_sided(
                    old(self)@,
                    final(self)@,
                    |a: Seq<Qcomplex>, b: Seq<Qcomplex>|
                        value_mapped(
                            a,
                            b,
                            regs_bits(qubits@, seq![qubits@.len() as i32], 0),
                            encoding,
                            false,
                            turn,
                        ),
                    |a: Seq<Qcomplex>, b: Seq<Qcomplex>|
                        value_mapped(
                            a,
                            b,
                            regs_bits(
                                qubits@,
                                seq![qubits@.len() as i32],
                                old(self)@.num_qubits,
                            ),
                            encoding,
                            true,
                            turn,
                        ),
                ),
            },
    {
        let sizes = match self.check_one_reg(qubits, encoding) {
            Ok(sizes) => sizes,
            Err(fault) => {
                return Err(QuestError::InvalidInputError(fault));
            },
        };
        let none: Vec<i64> = Vec::new();
        proof {
            assert(none@ =~= Seq::<i64>::empty());
            assert(overrides_ok(sizes@, encoding, none@));
        }
        match check_terms(qubits.len(), encoding, coeffs, exponents, none.as_slice()) {
            Ok(()) => {},
            Err(fault) => {
                return Err(QuestError::InvalidInputError(fault));
            },
        }
        self.phase_sweep_plain(qubits, sizes.as_slice(), encoding, &turn);
        Ok(())
    }

    /// Applies a phase function of several variables with overrides.
    ///
    /// `num_qubits_per_reg` cuts `qubits` into sub-registers, one per
    /// variable; `num_terms_per_reg` cuts `coeffs` and `exponents` into
    /// the terms of each. Override `o` names one value per sub-register,
    /// the entries `o * r` to `o * r + r - 1` of `override_inds` for `r`
    /// sub-registers. An amplitude whose values are those of an
    /// override, for the first such, is turned by its phase, which
    /// `turn_by` does; any other is turned by the function at its
    /// values, which `turn` does.
    ///
    /// Fails, and changes nothing, with the first fault that
    /// `multi_var_fault` finds.
    pub fn apply_multi_var_phase_func_overrides<F, G>(
        &mut self,
        qubits: &[i32],
        num_qubits_per_reg: &[i32],
        encoding: BitEncoding,
        coeffs: &[Qreal],
        exponents: &[Qreal],
        num_terms_per_reg: &[i32],
        override_inds: &[i64],
        override_phases: &[Qreal],
        turn: F,
        turn_by: G,
    ) -> (res: Result<(), QuestError>) where
        F: Fn(Vec<i64>, bool, Qcomplex) -> Qcomplex,
        G: Fn(Qreal, bool, Qcomplex) -> Qcomplex,

        requires
            old(self).wf(),
            forall|v: Vec<i64>, c: bool, a: Qcomplex|
                v@.len() == num_qubits_per_reg@.len() ==> call_requires(turn, (v, c, a)),
            forall|p: Qreal, c: bool, a: Qcomplex| call_requires(turn_by, (p, c, a)),
        ensures
            old(self).reshaped(final(self)),
            match multi_var_fault(
                old(self)@.num_qubits,
                qubits@,
                num_qubits_per_reg@,
                encoding,
                coeffs@,
                exponents@,
                num_terms_per_reg@,
                override_inds@,
                override_phases@.len(),
            ) {
                Some(fault) => res == Err::<(), QuestError>(QuestError::InvalidInputError(fault))
                    && final(self)@ == old(self)@,
                None => res is Ok && two_sided(
                    old(self)@,
                    final(self)@,
                    |a: Seq<Qcomplex>, b: Seq<Qcomplex>|
                        phase_mapped(
                            a,
                            b,
                            regs_bits(qubits@, num_qubits_per_reg@, 0),
                            encoding,
                            override_inds@,
                            override_phases@,
                            false,
                            turn,
                            turn_by,
                        ),
                    |a: Seq<Qcomplex>, b: Seq<Qcomplex>|
                        phase_mapped(
                            a,
                            b,
                            regs_bits(qubits@, num_qubits_per_reg@, old(self)@.num_qubits),
                            encoding,
                            override_inds@,
                            override_phases@,
                            true,
                            turn,
                            turn_by,
                        ),
                ),
            },
    {
        let n = self.qubits();
        match check_regs(n, qubits, num_qubits_per_reg, encoding) {
            Ok(()) => {},
            Err(fault) => {
                return Err(QuestError::InvalidInputError(fault));
            },
        }
        proof {
            lemma_regs_cut(n as nat, qubits@, num_qubits_per_reg@, encoding);
        }
        match check_overrides(num_qubits_per_reg, encoding, override_inds, override_phases.len()) {
            Ok(()) => {},
            Err(fault) => {
                return Err(QuestError::InvalidInputError(fault));
            },
        }
        match check_multi_terms(num_qubits_per_reg, encoding, coeffs, exponents, num_terms_per_reg) {
            Ok(()) => {},
            Err(fault) => {
                return Err(QuestError::InvalidInputError(fault));
            },
        }
        self.phase_sweep(
            qubits,
            num_qubits_per_reg,
            encoding,
            override_inds,
            override_phases,
            &turn,
            &turn_by,
        );
        Ok(())
    }

    /// Applies a phase function of several variables.
    ///
    /// `num_qubits_per_reg` cuts `qubits` into sub-registers, one per
    /// variable; `num_terms_per_reg` cuts `coeffs` and `exponents` into
    /// the terms of each. Every amplitude is turned by the function at
    /// the values of its sub-registers, which `turn` does.
    ///
    /// Fails, and changes nothing, with the first fault that
    /// `multi_var_fault` finds where there are no overrides.
    pub fn apply_multi_var_phase_func<F>(
        &mut self,
        qubits: &[i32],
        num_qubits_per_reg: &[i32],
        encoding: BitEncoding,
        coeffs: &[Qreal],
        exponents: &[Qreal],
        num_terms_per_reg: &[i32],
        turn: F,
    ) -> (res: Result<(), QuestError>) where F: Fn(Vec<i64>, bool, Qcomplex) -> Qcomplex
        requires
            old(self).wf(),
            forall|v: Vec<i64>, c: bool, a: Qcomplex|
                v@.len() == num_qubits_per_reg@.len() ==> call_requires(turn, (v, c, a)),
        ensures
            old(self).reshaped(final(self)),
            match multi_var_fault(
                old(self)@.num_qubits,
                qubits@,
                num_qubits_per_reg@,
                encoding,
                coeffs@,
                exponents@,
                num_terms_per_reg@,
                Seq::empty(),
                0,
            ) {
                Some(fault) => res == Err::<(), QuestError>(QuestError::InvalidInputError(fault))
                    && final(self)@ == old(self)@,
                None => res is Ok && two_sided(
                    old(self)@,
                    final(self)@,
                    |a: Seq<Qcomplex>, b: Seq<Qcomplex>|
                        value_mapped(
                            a,
                            b,
                            regs_bits(qubits@, num_qubits_per_reg@, 0),
                            encoding,
                            false,
                            turn,
                        ),
                    |a: Seq<Qcomplex>, b: Seq<Qcomplex>|
                        value_mapped(
                            a,
                            b,
                            regs_bits(qubits@, num_qubits_per_reg@, old(self)@.num_qubits),
                            encoding,
                            true,
                            turn,
                        ),
                ),
            },
    {
        let n = self.qubits();
        match check_regs(n, qubits, num_qubits_per_reg, encoding) {
            Ok(()) => {},
            Err(fault) => {
                return Err(QuestError::InvalidInputError(fault));
            },
        }
        proof {
            lemma_regs_cut(n as nat, qubits@, num_qubits_per_reg@, encoding);
            assert(overrides_ok(num_qubits_per_reg@, encoding, Seq::<i64>::empty()));
        }
        match check_multi_terms(num_qubits_per_reg, encoding, coeffs, exponents, num_terms_per_reg) {
            Ok(()) => {},
            Err(fault) => {
                return Err(QuestError::InvalidInputError(fault));
            },
        }
        self.phase_sweep_plain(qubits, num_qubits_per_reg, encoding, &turn);
        Ok(())
    }

    /// Applies a named phase function with parameters and overrides.
    ///
    /// `num_qubits_per_reg` cuts `qubits` into sub-registers. The
    /// function `function_name_code` of their values takes the
    /// parameters `params`. An amplitude whose values are those of an
    /// override, for the first such, is turned by its phase, which
    /// `turn_by` does; any other is turned by the function at its
    /// values, which `turn` does.
    ///
    /// Fails, and changes nothing, with the first fault that
    /// `named_phase_fault` finds.
    pub fn apply_param_named_phase_func_overrides<F, G>(
        &mut self,
        qubits: &[i32],
        num_qubits_per_reg: &[i32],
        encoding: BitEncoding,
        function_name_code: PhaseFunc,
        params: &[Qreal],
        override_inds: &[i64],
        override_phases: &[Qreal],
        turn: F,
        turn_by: G,
    ) -> (res: Result<(), QuestError>) where
        F: Fn(Vec<i64>, bool, Qcomplex) -> Qcomplex,
        G: Fn(Qreal, bool, Qcomplex) -> Qcomplex,

        requires
            old(self).wf(),
            forall|v: Vec<i64>, c: bool, a: Qcomplex|
                v@.len() == num_qubits_per_reg@.len() ==> call_requires(turn, (v, c, a)),
            forall|p: Qreal, c: bool, a: Qcomplex| call_requires(turn_by, (p, c, a)),
        ensures
            old(self).reshaped(final(self)),
            match named_phase_fault(
                old(self)@.num_qubits,
                qubits@,
                num_qubits_per_reg@,
                encoding,
                function_name_code,
                params@.len(),
                override_inds@,
                override_phases@.len(),
            ) {
                Some(fault) => res == Err::<(), QuestError>(QuestError::InvalidInputError(fault))
                    && final(self)@ == old(self)@,
                None => res is Ok && two_sided(
                    old(self)@,
                    final(self)@,
                    |a: Seq<Qcomplex>, b: Seq<Qcomplex>|
                        phase_mapped(
                            a,
                            b,
                            regs_bits(qubits@, num_qubits_per_reg@, 0),
                            encoding,
                            override_inds@,
                            override_phases@,
                            false,
                            turn,
                            turn_by,
                        ),
                    |a: Seq<Qcomplex>, b: Seq<Qcomplex>|
                        phase_mapped(
                            a,
                            b,
                            regs_bits(qubits@, num_qubits_per_reg@, old(self)@.num_qubits),
                            encoding,
                            override_inds@,
                            override_phases@,
                            true,
                            turn,
                            turn_by,
                        ),
                ),
            },
    {
        let n = self.qubits();
        match check_regs(n, qubits, num_qubits_per_reg, encoding) {
            Ok(()) => {},
            Err(fault) => {
                return Err(QuestError::InvalidInputError(fault));
            },
        }
        proof {
            lemma_regs_cut(n as nat, qubits@, num_qubits_per_reg@, encoding);
        }
        match check_named(function_name_code, num_qubits_per_reg.len(), params.len()) {
            Ok(()) => {},
            Err(fault) => {
                return Err(QuestError::InvalidInputError(fault));
            },
        }
        match check_overrides(num_qubits_per_reg, encoding, override_inds, override_phases.len()) {
            Ok(()) => {},
            Err(fault) => {
                return Err(QuestError::InvalidInputError(fault));
            },
        }
        self.phase_sweep(
            qubits,
            num_qubits_per_reg,
            encoding,
            override_inds,
            override_phases,
            &turn,
            &turn_by,
        );
        Ok(())
    }

    /// Applies a named phase function with parameters.
    ///
    /// Every amplitude is turned by the function at the values of its
    /// sub-registers, which `turn` does.
    ///
    /// Fails, and changes nothing, with the first fault that
    /// `named_phase_fault` finds where there are no overrides.
    pub fn apply_param_named_phase_func<F>(
        &mut self,
        qubits: &[i32],
        num_qubits_per_reg: &[i32],
        encoding: BitEncoding,
        function_name_code: PhaseFunc,
        params: &[Qreal],
        turn: F,
    ) -> (res: Result<(), QuestError>) where F: Fn(Vec<i64>, bool, Qcomplex) -> Qcomplex
        requires
            old(self).wf(),
            forall|v: Vec<i64>, c: bool, a: Qcomplex|
                v@.len() == num_qubits_per_reg@.len() ==> call_requires(turn, (v, c, a)),
        ensures
            old(self).reshaped(final(self)),
            match named_phase_fault(
                old(self)@.num_qubits,
                qubits@,
                num_qubits_per_reg@,
                encoding,
                function_name_code,
                params@.len(),
                Seq::empty(),
                0,
            ) {
                Some(fault) => res == Err::<(), QuestError>(QuestError::InvalidInputError(fault))
                    && final(self)@ == old(self)@,
                None => res is Ok && two_sided(
                    old(self)@,
                    final(self)@,
                    |a: Seq<Qcomplex>, b: Seq<Qcomplex>|
                        value_mapped(
                            a,
                            b,
                            regs_bits(qubits@, num_qubits_per_reg@, 0),
                            encoding,
                            false,
                            turn,
                        ),
                    |a: Seq<Qcomplex>, b: Seq<Qcomplex>|
                        value_mapped(
                            a,
                            b,
                            regs_bits(qubits@, num_qubits_per_reg@, old(self)@.num_qubits),
                            encoding,
                            true,
                            turn,
                        ),
                ),
            },
    {
        let n = self.qubits();
        match check_regs(n, qubits, num_qubits_per_reg, encoding) {
            Ok(()) => {},
            Err(fault) => {
                return Err(QuestError::InvalidInputError(fault));
            },
        }
        proof {
            lemma_regs_cut(n as nat, qubits@, num_qubits_per_reg@, encoding);
            assert(overrides_ok(num_qubits_per_reg@, encoding, Seq::<i64>::empty()));
        }
        match check_named(function_name_code, num_qubits_per_reg.len(), params.len()) {
            Ok(()) => {},
            Err(fault) => {
                return Err(QuestError::InvalidInputError(fault));
            },
        }
        self.phase_sweep_plain(qubits, num_qubits_per_reg, encoding, &turn);
        Ok(())
    }

    /// Applies a named phase function that takes no parameter, with
    /// overrides.
    ///
    /// Fails, and changes nothing, with the first fault that
    /// `named_phase_fault` finds where there are no parameters.
    pub fn apply_named_phase_func_overrides<F, G>(
        &mut self,
        qubits: &[i32],
        num_qubits_per_reg: &[i32],
        encoding: BitEncoding,
        function_name_code: PhaseFunc,
        override_inds: &[i64],
        override_phases: &[Qreal],
        turn: F,
        turn_by: G,
    ) -> (res: Result<(), QuestError>) where
        F: Fn(Vec<i64>, bool, Qcomplex) -> Qcomplex,
        G: Fn(Qreal, bool, Qcomplex) -> Qcomplex,

        requires
            old(self).wf(),
            forall|v: Vec<i64>, c: bool, a: Qcomplex|
                v@.len() == num_qubits_per_reg@.len() ==> call_requires(turn, (v, c, a)),
            forall|p: Qreal, c: bool, a: Qcomplex| call_requires(turn_by, (p, c, a)),
        ensures
            old(self).reshaped(final(self)),
            match named_phase_fault(
                old(self)@.num_qubits,
                qubits@,
                num_qubits_per_reg@,
                encoding,
                function_name_code,
                0,
                override_inds@,
                override_phases@.len(),
            ) {
                Some(fault) => res == Err::<(), QuestError>(QuestError::InvalidInputError(fault))
                    && final(self)@ == old(self)@,
                None => res is Ok && two_sided(
                    old(self)@,
                    final(self)@,
                    |a: Seq<Qcomplex>, b: Seq<Qcomplex>|
                        phase_mapped(
                            a,
                            b,
                            regs_bits(qubits@, num_qubits_per_reg@, 0),
                            encoding,
                            override_inds@,
                            override_phases@,
                            false,
                            turn,
                            turn_by,
                        ),
                    |a: Seq<Qcomplex>, b: Seq<Qcomplex>|
                        phase_mapped(
                            a,
                            b,
                            regs_bits(qubits@, num_qubits_per_reg@, old(self)@.num_qubits),
                            encoding,
                            override_inds@,
                            override_phases@,
                            true,
                            turn,
                            turn_by,
                        ),
                ),
            },
    {
        let none: Vec<Qreal> = Vec::new();
        self.apply_param_named_phase_func_overrides(
            qubits,
            num_qubits_per_reg,
            encoding,
            function_name_code,
            none.as_slice(),
            override_inds,
            override_phases,
            turn,
            turn_by,
        )
    }

    /// Applies a named phase function that takes no parameter.
    ///
    /// Fails, and changes nothing, with the first fault that
    /// `named_phase_fault` finds where there are neither parameters nor
    /// overrides.
    pub fn apply_named_phase_func<F>(
        &mut self,
        qubits: &[i32],
        num_qubits_per_reg: &[i32],
        encoding: BitEncoding,
        function_name_code: PhaseFunc,
        turn: F,
    ) -> (res: Result<(), QuestError>) where F: Fn(Vec<i64>, bool, Qcomplex) -> Qcomplex
        requires
            old(self).wf(),
            forall|v: Vec<i64>, c: bool, a: Qcomplex|
                v@.len() == num_qubits_per_reg@.len() ==> call_requires(turn, (v, c, a)),
        ensures
            old(self).reshaped(final(self)),
            match named_phase_fault(
                old(self)@.num_qubits,
                qubits@,
                num_qubits_per_reg@,
                encoding,
                function_name_code,
                0,
                Seq::empty(),
                0,
            ) {
                Some(fault) => res == Err::<(), QuestError>(QuestError::InvalidInputError(fault))
                    && final(self)@ == old(self)@,
                None => res is Ok && two_sided(
                    old(self)@,
                    final(self)@,
                    |a: Seq<Qcomplex>, b: Seq<Qcomplex>|
                        value_mapped(
                            a,
                            b,
                            regs_bits(qubits@, num_qubits_per_reg@, 0),
                            encoding,
                            false,
                            turn,
                        ),
                    |a: Seq<Qcomplex>, b: Seq<Qcomplex>|
                        value_mapped(
                            a,
                            b,
                            regs_bits(qubits@, num_qubits_per_reg@, old(self)@.num_qubits),
                            encoding,
                            true,
                            turn,
                        ),
                ),
            },
    {
        let none: Vec<Qreal> = Vec::new();
        self.apply_param_named_phase_func(
            qubits,
            num_qubits_per_reg,
            encoding,
            function_name_code,
            none.as_slice(),
            turn,
        )
    }
}

} // verus!
