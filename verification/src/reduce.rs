//! Sums over the amplitude store.
//!
//! A probability, a norm, a purity or an inner product is a sum over
//! amplitudes. How a term is formed and added is a function handed in
//! by the caller, so that it may compensate for rounding; which
//! amplitudes enter the sum, and in which order, is decided here.

use vstd::prelude::*;
use vstd::arithmetic::power2::pow2;
use crate::amplitude::Qcomplex;
use crate::bits::{bit, selected, span, MAX_INDEX_BITS};
use crate::blocks::{gather, lemma_gather_below};
use crate::error::{InputFault, QuestError};
use crate::kernel::gather_of;
use crate::qureg::Qureg;
use crate::state::QuregState;
use crate::validate::{bits_of, bits_of_list, check_list, check_qubit, list_fault, outcome_fault};

verus! {

/// `result` is what folding `f` over `items`, in order and starting
/// from `init`, can give.
pub open spec fn folded<A, T, F: Fn(A, T) -> A>(f: F, items: Seq<T>, init: A, result: A) -> bool
    decreases items.len(),
{
    if items.len() == 0 {
        result == init
    } else {
        exists|mid: A|
            folded(f, items.drop_last(), init, mid) && #[trigger] call_ensures(
                f,
                (mid, items.last()),
                result,
            )
    }
}

/// The items of `items` whose positions satisfy `keep`, in order.
pub open spec fn picked<T>(items: Seq<T>, keep: spec_fn(int) -> bool) -> Seq<T>
    decreases items.len(),
{
    if items.len() == 0 {
        Seq::empty()
    } else if keep(items.len() - 1) {
        picked(items.drop_last(), keep).push(items.last())
    } else {
        picked(items.drop_last(), keep)
    }
}

/// One more item folded in.
pub proof fn lemma_fold_step<A, T, F: Fn(A, T) -> A>(
    f: F,
    items: Seq<T>,
    init: A,
    mid: A,
    item: T,
    result: A,
)
    requires
        folded(f, items, init, mid),
        call_ensures(f, (mid, item), result),
    ensures
        folded(f, items.push(item), init, result),
{
    let longer = items.push(item);
    assert(longer.drop_last() =~= items);
    assert(longer.last() == item);
    assert(folded(f, longer.drop_last(), init, mid) && call_ensures(
        f,
        (mid, longer.last()),
        result,
    ));
}

impl QuregState {
    /// The amplitudes of the basis states, in order: the amplitudes of
    /// a state-vector, the diagonal of a density matrix.
    pub open spec fn basis(self) -> Seq<Qcomplex> {
        Seq::new(self.dim(), |k: int| self.amps[self.classical_index(k)])
    }

    /// The amplitudes of this register, each paired with the amplitude
    /// of `other` at the same index.
    pub open spec fn paired_with(self, other: QuregState) -> Seq<(Qcomplex, Qcomplex)> {
        Seq::new(self.amps.len(), |i: int| (self.amps[i], other.amps[i]))
    }

    /// The entries of this density matrix in index order, the entry at
    /// row `r` and column `c` between the amplitudes `r` and `c` of the
    /// state-vector `pure`.
    pub open spec fn between(self, pure: QuregState) -> Seq<(Qcomplex, Qcomplex, Qcomplex)> {
        Seq::new(
            self.amps.len(),
            |i: int|
                (pure.amps[i % (self.dim() as int)], self.amps[i], pure.amps[i / (self.dim() as int)]),
        )
    }
}

/// The basis states in which `qubit` has the value `outcome`.
pub open spec fn having(qubit: i32, outcome: i32) -> spec_fn(int) -> bool {
    |k: int|
        selected(
            k as u64,
            bit(qubit as nat),
            if outcome == 1 {
                bit(qubit as nat)
            } else {
                0
            },
        )
}

/// The positions whose basis states spell `key` on the bits `tbits`.
pub open spec fn spelling(tbits: Seq<u64>, key: u64) -> spec_fn(int) -> bool {
    |k: int| gather(k as u64, tbits) == key
}

/// The failure of a sum per outcome of the qubits `qubits` into `slots`
/// accumulators, if any: too few accumulators, then the faults of the
/// list of qubits.
pub open spec fn outcomes_fault(n: nat, qubits: Seq<i32>, slots: nat) -> Option<QuestError> {
    if slots < pow2(qubits.len()) {
        Some(QuestError::ArrayLengthError)
    } else {
        match list_fault(n, qubits) {
            Some(fault) => Some(QuestError::InvalidInputError(fault)),
            None => None,
        }
    }
}

/// The first rule that a second register breaks which must have the
/// kind and the size of the first.
pub open spec fn shape_fault(s: QuregState, other: QuregState) -> Option<InputFault> {
    if s.same_shape(other) {
        None
    } else {
        Some(InputFault::RegisterMismatch)
    }
}

/// The first rule that a density matrix and a state-vector to go with
/// it break: the kind of each, then their sizes.
pub open spec fn pure_fault(s: QuregState, pure: QuregState) -> Option<InputFault> {
    if !s.is_density {
        Some(InputFault::NotDensityMatrix)
    } else if pure.is_density {
        Some(InputFault::NotStateVector)
    } else if s.num_qubits != pure.num_qubits {
        Some(InputFault::RegisterMismatch)
    } else {
        None
    }
}

impl<'a> Qureg<'a> {
    /// The amplitude of basis state `k`.
    fn basis_amp(&self, k: usize, d: usize) -> (a: Qcomplex)
        requires
            self.wf(),
            d == self@.dim(),
            k < d,
        ensures
            a == self@.basis()[k as int],
    {
        let dd = self.dim();
        if self.is_density {
            assert(k + k * d < d * d) by (nonlinear_arith)
                requires
                    k < d,
            ;
            self.amps[k + k * d]
        } else {
            self.amps[k]
        }
    }

    /// Folds `f` over the amplitudes of all basis states, in order.
    ///
    /// For a state-vector these are all amplitudes, for a density
    /// matrix the entries of the diagonal.
    pub fn fold_basis<A, F: Fn(A, Qcomplex) -> A>(&self, init: A, f: F) -> (result: A)
        requires
            self.wf(),
            forall|acc: A, a: Qcomplex| call_requires(f, (acc, a)),
        ensures
            folded(f, self@.basis(), init, result),
    {
        let d = self.dim();
        let mut acc = init;
        let mut k: usize = 0;
        while k < d
            invariant
                k <= d,
                self.wf(),
                d == self@.dim(),
                forall|acc: A, a: Qcomplex| call_requires(f, (acc, a)),
                folded(f, self@.basis().take(k as int), init, acc),
            decreases d - k,
        {
            let a = self.basis_amp(k, d);
            let ghost before = acc;
            acc = f(acc, a);
            proof {
                lemma_fold_step(f, self@.basis().take(k as int), init, before, a, acc);
                assert(self@.basis().take(k + 1) =~= self@.basis().take(k as int).push(a));
            }
            k += 1;
        }
        assert(self@.basis().take(d as int) =~= self@.basis());
        acc
    }

    /// Folds `f` over the amplitudes of the basis states in which
    /// `qubit` has the value `outcome`, in order.
    ///
    /// Fails with `QubitIndex` where `qubit` is no qubit of the
    /// register, and with `Outcome` where `outcome` is neither zero nor
    /// one.
    pub fn fold_outcome<A, F: Fn(A, Qcomplex) -> A>(
        &self,
        qubit: i32,
        outcome: i32,
        init: A,
        f: F,
    ) -> (res: Result<A, QuestError>)
        requires
            self.wf(),
            forall|acc: A, a: Qcomplex| call_requires(f, (acc, a)),
        ensures
            match outcome_fault(self@.num_qubits, qubit, outcome) {
                Some(fault) => res == Err::<A, QuestError>(QuestError::InvalidInputError(fault)),
                None => res matches Ok(result) && folded(
                    f,
                    picked(self@.basis(), having(qubit, outcome)),
                    init,
                    result,
                ),
            },
    {
        let n = self.qubits();
        let b = match check_qubit(n, qubit) {
            Ok(b) => b,
            Err(fault) => {
                return Err(QuestError::InvalidInputError(fault));
            },
        };
        if outcome != 0 && outcome != 1 {
            return Err(QuestError::InvalidInputError(InputFault::Outcome));
        }
        let want: u64 = if outcome == 1 {
            b
        } else {
            0
        };
        let ghost keep = having(qubit, outcome);
        let d = self.dim();
        let mut acc = init;
        let mut k: usize = 0;
        while k < d
            invariant
                k <= d,
                self.wf(),
                d == self@.dim(),
                b == bit(qubit as nat),
                want == (if outcome == 1 {
                    bit(qubit as nat)
                } else {
                    0
                }),
                keep == having(qubit, outcome),
                forall|acc: A, a: Qcomplex| call_requires(f, (acc, a)),
                folded(f, picked(self@.basis().take(k as int), keep), init, acc),
            decreases d - k,
        {
            proof {
                assert(self@.basis().take(k + 1).drop_last() =~= self@.basis().take(k as int));
            }
            if (k as u64) & b == want {
                let a = self.basis_amp(k, d);
                let ghost before = acc;
                acc = f(acc, a);
                proof {
                    lemma_fold_step(
                        f,
                        picked(self@.basis().take(k as int), keep),
                        init,
                        before,
                        a,
                        acc,
                    );
                    assert(keep(k as int));
                }
            } else {
                assert(!keep(k as int));
            }
            k += 1;
        }
        assert(self@.basis().take(d as int) =~= self@.basis());
        Ok(acc)
    }

    /// Folds `f` over all amplitudes, in index order.
    pub fn fold_amps<A, F: Fn(A, Qcomplex) -> A>(&self, init: A, f: F) -> (result: A)
        requires
            self.wf(),
            forall|acc: A, a: Qcomplex| call_requires(f, (acc, a)),
        ensures
            folded(f, self@.amps, init, result),
    {
        let n = self.amps.len();
        let mut acc = init;
        let mut i: usize = 0;
        while i < n
            invariant
                i <= n,
                n == self@.amps.len(),
                forall|acc: A, a: Qcomplex| call_requires(f, (acc, a)),
                folded(f, self@.amps.take(i as int), init, acc),
            decreases n - i,
        {
            let a = self.amps[i];
            let ghost before = acc;
            acc = f(acc, a);
            proof {
                lemma_fold_step(f, self@.amps.take(i as int), init, before, a, acc);
                assert(self@.amps.take(i + 1) =~= self@.amps.take(i as int).push(a));
            }
            i += 1;
        }
        assert(self@.amps.take(n as int) =~= self@.amps);
        acc
    }

    /// Folds `f` over the pairs of amplitudes that this register and
    /// `other` hold at the same index, in index order.
    ///
    /// Fails with `RegisterMismatch` exactly when the two registers
    /// differ in kind or in their number of qubits.
    pub fn fold_with<A, F: Fn(A, (Qcomplex, Qcomplex)) -> A>(
        &self,
        other: &Qureg<'_>,
        init: A,
        f: F,
    ) -> (res: Result<A, QuestError>)
        requires
            self.wf(),
            other.wf(),
            forall|acc: A, a: (Qcomplex, Qcomplex)| call_requires(f, (acc, a)),
        ensures
            match shape_fault(self@, other@) {
                Some(fault) => res == Err::<A, QuestError>(QuestError::InvalidInputError(fault)),
                None => res matches Ok(result) && folded(
                    f,
                    self@.paired_with(other@),
                    init,
                    result,
                ),
            },
    {
        if self.is_density != other.is_density || self.num_qubits != other.num_qubits {
            return Err(QuestError::InvalidInputError(InputFault::RegisterMismatch));
        }
        let n = self.amps.len();
        let ghost items = self@.paired_with(other@);
        let mut acc = init;
        let mut i: usize = 0;
        while i < n
            invariant
                i <= n,
                n == self@.amps.len(),
                n == other@.amps.len(),
                items == self@.paired_with(other@),
                forall|acc: A, a: (Qcomplex, Qcomplex)| call_requires(f, (acc, a)),
                folded(f, items.take(i as int), init, acc),
            decreases n - i,
        {
            let item = (self.amps[i], other.amps[i]);
            let ghost before = acc;
            acc = f(acc, item);
            proof {
                lemma_fold_step(f, items.take(i as int), init, before, item, acc);
                assert(items.take(i + 1) =~= items.take(i as int).push(item));
            }
            i += 1;
        }
        assert(items.take(n as int) =~= items);
        Ok(acc)
    }

    /// Folds `f` over the entries of this density matrix in index
    /// order, each between the amplitudes of the state-vector `pure`
    /// at its row and at its column.
    ///
    /// Fails with `NotDensityMatrix` where this register is a
    /// state-vector, `NotStateVector` where `pure` is a density matrix,
    /// and `RegisterMismatch` where the two differ in their number of
    /// qubits.
    pub fn fold_between<A, F: Fn(A, (Qcomplex, Qcomplex, Qcomplex)) -> A>(
        &self,
        pure: &Qureg<'_>,
        init: A,
        f: F,
    ) -> (res: Result<A, QuestError>)
        requires
            self.wf(),
            pure.wf(),
            forall|acc: A, a: (Qcomplex, Qcomplex, Qcomplex)| call_requires(f, (acc, a)),
        ensures
            match pure_fault(self@, pure@) {
                Some(fault) => res == Err::<A, QuestError>(QuestError::InvalidInputError(fault)),
                None => res matches Ok(result) && folded(f, self@.between(pure@), init, result),
            },
    {
        if !self.is_density {
            return Err(QuestError::InvalidInputError(InputFault::NotDensityMatrix));
        }
        if pure.is_density {
            return Err(QuestError::InvalidInputError(InputFault::NotStateVector));
        }
        if self.num_qubits != pure.num_qubits {
            return Err(QuestError::InvalidInputError(InputFault::RegisterMismatch));
        }
        let d = self.dim();
        let pd = pure.dim();
        let ghost items = self@.between(pure@);
        let mut acc = init;
        let mut c: usize = 0;
        while c < d
            invariant
                c <= d,
                self.wf(),
                pure.wf(),
                d == self@.dim(),
                d == pure@.amps.len(),
                d as int * d as int == self@.amps.len(),
                self@.amps.len() <= usize::MAX,
                items == self@.between(pure@),
                forall|acc: A, a: (Qcomplex, Qcomplex, Qcomplex)| call_requires(f, (acc, a)),
                folded(f, items.take(c as int * d as int), init, acc),
            decreases d - c,
        {
            let mut r: usize = 0;
            assert(c * d + d <= d * d) by (nonlinear_arith)
                requires
                    c < d,
            ;
            while r < d
                invariant
                    r <= d,
                    c < d,
                    c * d + d <= d * d,
                    d == self@.dim(),
                    d == pure@.amps.len(),
                    d as int * d as int == self@.amps.len(),
                    self@.amps.len() <= usize::MAX,
                    items == self@.between(pure@),
                    forall|acc: A, a: (Qcomplex, Qcomplex, Qcomplex)| call_requires(f, (acc, a)),
                    folded(f, items.take(c as int * d as int + r as int), init, acc),
                decreases d - r,
            {
                let i: usize = c * d + r;
                proof {
                    assert((c * d + r) % (d as int) == r && (c * d + r) / (d as int) == c)
                        by (nonlinear_arith)
                        requires
                            r < d,
                            0 <= c,
                    ;
                }
                let item = (pure.amps[r], self.amps[i], pure.amps[c]);
                let ghost before = acc;
                acc = f(acc, item);
                proof {
                    lemma_fold_step(f, items.take(i as int), init, before, item, acc);
                    assert(items.take(i + 1) =~= items.take(i as int).push(item));
                }
                r += 1;
            }
            assert((c + 1) * d == c * d + d) by (nonlinear_arith);
            c += 1;
        }
        assert(items.take(d as int * d as int) =~= items);
        Ok(acc)
    }

    /// Folds `f` over the amplitudes of the basis states, separately for
    /// each outcome of the qubits `qubits`.
    ///
    /// An outcome is the number that `qubits` spell in a basis state,
    /// `qubits[0]` being the least significant bit. Accumulator
    /// `accs[j]` receives, starting from `init`, the amplitudes of the
    /// basis states with outcome `j`, in order. Accumulators beyond the
    /// `2^k` outcomes are left alone.
    ///
    /// Fails, and changes nothing, with `ArrayLengthError` where `accs`
    /// has fewer than `2^k` entries, and else with the first fault of
    /// `qubits` as a list of qubits.
    pub fn fold_by_outcomes<A: Copy, F: Fn(A, Qcomplex) -> A>(
        &self,
        qubits: &[i32],
        accs: &mut Vec<A>,
        init: A,
        f: F,
    ) -> (res: Result<(), QuestError>)
        requires
            self.wf(),
            forall|acc: A, a: Qcomplex| call_requires(f, (acc, a)),
        ensures
            final(accs)@.len() == old(accs)@.len(),
            match outcomes_fault(self@.num_qubits, qubits@, old(accs)@.len()) {
                Some(e) => res == Err::<(), QuestError>(e) && final(accs)@ == old(accs)@,
                None => {
                    &&& res is Ok
                    &&& forall|j: int|
                        0 <= j < pow2(qubits@.len()) ==> folded(
                            f,
                            picked(self@.basis(), spelling(bits_of(qubits@, 0), j as u64)),
                            init,
                            #[trigger] final(accs)@[j],
                        )
                    &&& forall|j: int|
                        pow2(qubits@.len()) <= j < old(accs)@.len() ==> final(accs)@[j] == old(
                            accs,
                        )@[j]
                },
            },
    {
        let n = self.qubits();
        let k = qubits.len();
        let slots = accs.len();
        proof {
            vstd::arithmetic::power2::lemma2_to64();
            vstd::arithmetic::power2::lemma2_to64_rest();
        }
        if k >= 64 {
            proof {
                if k > 64 {
                    vstd::arithmetic::power2::lemma_pow2_strictly_increases(64, k as nat);
                }
            }
            return Err(QuestError::ArrayLengthError);
        }
        proof {
            if k < 63 {
                vstd::arithmetic::power2::lemma_pow2_strictly_increases(k as nat, 63);
            }
            vstd::bits::lemma_u64_shl_is_mul(1u64, k as u64);
        }
        let size: u64 = 1u64 << (k as u64);
        if (slots as u64) < size {
            return Err(QuestError::ArrayLengthError);
        }
        match check_list(n, qubits) {
            Err(fault) => {
                return Err(QuestError::InvalidInputError(fault));
            },
            Ok(_) => {},
        }
        let tbits = bits_of_list(n, qubits, 0);
        let ghost tb = bits_of(qubits@, 0);
        let mut j: usize = 0;
        while j < size as usize
            invariant
                j <= size,
                size <= slots,
                slots == accs@.len(),
                accs@.len() == old(accs)@.len(),
                forall|i: int| 0 <= i < j ==> #[trigger] accs@[i] == init,
                forall|i: int| size <= i < slots ==> accs@[i] == old(accs)@[i],
            decreases size - j,
        {
            accs[j] = init;
            j += 1;
        }
        let d = self.dim();
        let mut x: usize = 0;
        while x < d
            invariant
                x <= d,
                self.wf(),
                d == self@.dim(),
                size == span(k as nat),
                k == qubits@.len(),
                k <= MAX_INDEX_BITS,
                tbits@ == tb,
                tb.len() == k,
                size <= slots,
                slots == accs@.len(),
                accs@.len() == old(accs)@.len(),
                forall|acc: A, a: Qcomplex| call_requires(f, (acc, a)),
                forall|i: int|
                    0 <= i < size ==> folded(
                        f,
                        picked(self@.basis().take(x as int), spelling(tb, i as u64)),
                        init,
                        #[trigger] accs@[i],
                    ),
                forall|i: int| size <= i < slots ==> accs@[i] == old(accs)@[i],
            decreases d - x,
        {
            let key = gather_of(x as u64, &tbits);
            proof {
                lemma_gather_below(x as u64, tb);
                assert(self@.basis().take(x + 1).drop_last() =~= self@.basis().take(x as int));
            }
            let a = self.basis_amp(x, d);
            let ghost before = accs@;
            let acc = accs[key as usize];
            let next = f(acc, a);
            accs[key as usize] = next;
            proof {
                assert forall|i: int| 0 <= i < size implies folded(
                    f,
                    picked(self@.basis().take(x + 1), spelling(tb, i as u64)),
                    init,
                    #[trigger] accs@[i],
                ) by {
                    let keep = spelling(tb, i as u64);
                    let seen = picked(self@.basis().take(x as int), keep);
                    assert(folded(f, seen, init, before[i]));
                    if i == key {
                        assert(keep(x as int));
                        lemma_fold_step(f, seen, init, acc, a, next);
                    } else {
                        assert(!keep(x as int));
                    }
                }
            }
            x += 1;
        }
        assert(self@.basis().take(d as int) =~= self@.basis());
        Ok(())
    }
}

} // verus!
