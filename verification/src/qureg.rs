//! The register: construction, initialisation, and raw amplitude access.

use vstd::prelude::*;
use vstd::arithmetic::power2::{pow2, lemma_pow2_adds, lemma_pow2_pos};
use crate::amplitude::{Qcomplex, Qreal};
use crate::bits::{lemma_span_is_pow2, span, MAX_INDEX_BITS};
use crate::error::{InputFault, QuestError};
use crate::state::{blank_amps, overwritten, paired, unit_amps, QuregState};

verus! {

/// The execution environment that registers are created against.
///
/// It carries the seed from which measurement randomness is derived. A
/// register borrows its environment, so the environment outlives every
/// register made from it.
#[derive(Debug)]
pub struct QuestEnv {
    seed: u64,
}

impl QuestEnv {
    pub closed spec fn spec_seed(&self) -> u64 {
        self.seed
    }

    /// An environment with seed zero.
    pub fn new() -> (env: QuestEnv)
        ensures
            env.spec_seed() == 0,
    {
        QuestEnv { seed: 0 }
    }

    /// An environment with the given seed.
    pub fn with_seed(seed: u64) -> (env: QuestEnv)
        ensures
            env.spec_seed() == seed,
    {
        QuestEnv { seed }
    }

    pub fn seed(&self) -> (s: u64)
        ensures
            s == self.spec_seed(),
    {
        self.seed
    }
}

/// A register of qubits: a pure state-vector or a density matrix.
#[derive(Debug)]
pub struct Qureg<'a> {
    pub(crate) env: &'a QuestEnv,
    pub(crate) num_qubits: u32,
    pub(crate) is_density: bool,
    pub(crate) amps: Vec<Qcomplex>,
}

/// Whether a register of `num_qubits` qubits of the given kind can be
/// indexed on this machine.
pub open spec fn creatable(num_qubits: int, is_density: bool) -> bool {
    &&& 1 <= num_qubits
    &&& (if is_density {
        2 * num_qubits
    } else {
        num_qubits
    }) <= MAX_INDEX_BITS
    &&& pow2(
        (if is_density {
            2 * num_qubits
        } else {
            num_qubits
        }) as nat,
    ) <= usize::MAX
}

impl<'a> View for Qureg<'a> {
    type V = QuregState;

    open(crate) spec fn view(&self) -> QuregState {
        QuregState {
            num_qubits: self.num_qubits as nat,
            is_density: self.is_density,
            amps: self.amps@,
        }
    }
}

impl<'a> Qureg<'a> {
    /// Validity of the register: that of its model.
    pub open spec fn wf(&self) -> bool {
        self@.wf()
    }

    /// The environment the register was created against.
    pub open(crate) spec fn spec_env(&self) -> &'a QuestEnv {
        self.env
    }

    /// Whether `after` is this register with, at most, other amplitudes.
    pub open spec fn reshaped(&self, after: &Qureg<'a>) -> bool {
        &&& after@.same_shape(self@)
        &&& after@.amps.len() == self@.amps.len()
        &&& after.spec_env() == self.spec_env()
    }

    /// Builds the register in its zero state on storage that was
    /// reserved for it, or reports that the reservation failed.
    pub fn assemble(
        num_qubits: i32,
        is_density: bool,
        env: &'a QuestEnv,
        storage: Vec<Qcomplex>,
        reserved: bool,
    ) -> (res: Result<Qureg<'a>, QuestError>)
        requires
            creatable(num_qubits as int, is_density),
            storage@.len() == 0,
        ensures
            reserved ==> res is Ok,
            !reserved ==> res == Err::<Qureg<'a>, QuestError>(QuestError::AllocationError),
            res matches Ok(q) ==> {
                &&& q.wf()
                &&& q@.num_qubits == num_qubits
                &&& q@.is_density == is_density
                &&& q@.amps == unit_amps(q@.amps.len(), 0)
                &&& q.spec_env() == env
            },
    {
        if !reserved {
            return Err(QuestError::AllocationError);
        }
        let bits: u32 = if is_density {
            2 * (num_qubits as u32)
        } else {
            num_qubits as u32
        };
        proof {
            lemma_span_is_pow2(bits as nat);
        }
        let len: usize = (1u64 << (bits as u64)) as usize;
        let mut amps = storage;
        amps.push(Qcomplex::one());
        while amps.len() < len
            invariant
                1 <= amps@.len() <= len,
                amps@ == unit_amps(amps@.len(), 0),
            decreases len - amps@.len(),
        {
            amps.push(Qcomplex::zero());
            assert(amps@ =~= unit_amps(amps@.len(), 0));
        }
        Ok(Qureg { env, num_qubits: num_qubits as u32, is_density, amps })
    }

    /// Creates a register of the given kind, in its zero state.
    fn create(num_qubits: i32, is_density: bool, env: &'a QuestEnv) -> (res: Result<
        Qureg<'a>,
        QuestError,
    >)
        ensures
            !creatable(num_qubits as int, is_density) ==> res == Err::<Qureg<'a>, QuestError>(
                QuestError::InvalidInputError(InputFault::QubitCount),
            ),
            creatable(num_qubits as int, is_density) ==> res is Ok || res == Err::<
                Qureg<'a>,
                QuestError,
            >(QuestError::AllocationError),
            res matches Ok(q) ==> {
                &&& q.wf()
                &&& q@.num_qubits == num_qubits
                &&& q@.is_density == is_density
                &&& q@.amps == unit_amps(q@.amps.len(), 0)
                &&& q.spec_env() == env
            },
    {
        let limit: i32 = if is_density {
            31
        } else {
            62
        };
        if num_qubits < 1 || num_qubits > limit {
            return Err(QuestError::InvalidInputError(InputFault::QubitCount));
        }
        let bits: u32 = if is_density {
            2 * (num_qubits as u32)
        } else {
            num_qubits as u32
        };
        proof {
            lemma_span_is_pow2(bits as nat);
        }
        let len: u64 = 1u64 << (bits as u64);
        if len > usize::MAX as u64 {
            return Err(QuestError::InvalidInputError(InputFault::QubitCount));
        }
        let mut storage: Vec<Qcomplex> = Vec::new();
        let reserved = storage.try_reserve(len as usize).is_ok();
        Qureg::assemble(num_qubits, is_density, env, storage, reserved)
    }

    /// Creates a state-vector register of `num_qubits` qubits in the
    /// state `|0..0>`.
    ///
    /// Fails with `QubitCount` exactly when the register could not be
    /// indexed, and otherwise only when the allocator refuses the store.
    pub fn try_new(num_qubits: i32, env: &'a QuestEnv) -> (res: Result<Qureg<'a>, QuestError>)
        ensures
            !creatable(num_qubits as int, false) ==> res == Err::<Qureg<'a>, QuestError>(
                QuestError::InvalidInputError(InputFault::QubitCount),
            ),
            creatable(num_qubits as int, false) ==> res is Ok || res == Err::<
                Qureg<'a>,
                QuestError,
            >(QuestError::AllocationError),
            res matches Ok(q) ==> {
                &&& q.wf()
                &&& q@.num_qubits == num_qubits
                &&& !q@.is_density
                &&& q@.amps == unit_amps(q@.amps.len(), 0)
                &&& q.spec_env() == env
            },
    {
        Qureg::create(num_qubits, false, env)
    }

    /// Creates a density-matrix register of `num_qubits` qubits in the
    /// state `|0..0><0..0|`.
    pub fn try_new_density(num_qubits: i32, env: &'a QuestEnv) -> (res: Result<
        Qureg<'a>,
        QuestError,
    >)
        ensures
            !creatable(num_qubits as int, true) ==> res == Err::<Qureg<'a>, QuestError>(
                QuestError::InvalidInputError(InputFault::QubitCount),
            ),
            creatable(num_qubits as int, true) ==> res is Ok || res == Err::<
                Qureg<'a>,
                QuestError,
            >(QuestError::AllocationError),
            res matches Ok(q) ==> {
                &&& q.wf()
                &&& q@.num_qubits == num_qubits
                &&& q@.is_density
                &&& q@.amps == unit_amps(q@.amps.len(), 0)
                &&& q.spec_env() == env
            },
    {
        Qureg::create(num_qubits, true, env)
    }

    /// The environment the register was created against.
    pub fn env(&self) -> (env: &'a QuestEnv)
        ensures
            env == self.spec_env(),
    {
        self.env
    }

    /// Whether the register is a density matrix.
    pub fn is_density_matrix(&self) -> (r: bool)
        ensures
            r == self@.is_density,
    {
        self.is_density
    }

    /// The number of qubits the register represents.
    pub fn num_qubits(&self) -> (n: i32)
        requires
            self.wf(),
        ensures
            n == self@.num_qubits,
    {
        self.num_qubits as i32
    }

    /// The number of amplitudes the register stores.
    pub fn num_amps_total(&self) -> (n: i64)
        requires
            self.wf(),
        ensures
            n == self@.amps.len(),
            n == pow2(self@.index_bits()),
    {
        proof {
            lemma_span_is_pow2(self@.index_bits());
        }
        self.amps.len() as i64
    }

    /// The store of a valid register has as many amplitudes as its index
    /// bits span.
    pub proof fn lemma_layout(&self)
        requires
            self.wf(),
        ensures
            self@.index_bits() <= MAX_INDEX_BITS,
            self@.amps.len() == span(self@.index_bits()),
            self@.amps.len() <= usize::MAX,
    {
        lemma_span_is_pow2(self@.index_bits());
        assert(self.amps.len() == self.amps@.len());
    }

    /// The number of qubits, as the machine word that shifts take.
    pub(crate) fn qubits(&self) -> (n: u32)
        requires
            self.wf(),
        ensures
            n == self@.num_qubits,
            1 <= n <= MAX_INDEX_BITS,
            self@.is_density ==> 2 * n <= MAX_INDEX_BITS,
    {
        self.num_qubits
    }

    /// The number of bits in an amplitude index.
    pub(crate) fn index_bits(&self) -> (b: u32)
        requires
            self.wf(),
        ensures
            b == self@.index_bits(),
            b <= MAX_INDEX_BITS,
            self@.amps.len() == span(b as nat),
    {
        proof {
            lemma_span_is_pow2(self@.index_bits());
        }
        if self.is_density {
            2 * self.num_qubits
        } else {
            self.num_qubits
        }
    }

    /// The number of basis states, `2^num_qubits`.
    pub(crate) fn dim(&self) -> (d: usize)
        requires
            self.wf(),
        ensures
            d == self@.dim(),
            d == span(self@.num_qubits),
            d as int * d as int == pow2(2 * self@.num_qubits),
            self@.is_density ==> d as int * d as int == self@.amps.len(),
            !self@.is_density ==> d as int == self@.amps.len(),
            1 <= d <= self@.amps.len(),
            self@.amps.len() <= usize::MAX,
    {
        proof {
            assert(self.amps.len() == self.amps@.len());
            lemma_span_is_pow2(self@.num_qubits);
            lemma_pow2_adds(self@.num_qubits, self@.num_qubits);
            lemma_pow2_pos(self@.num_qubits);
            assert(1 <= pow2(self@.num_qubits) ==> pow2(self@.num_qubits) <= pow2(
                self@.num_qubits,
            ) * pow2(self@.num_qubits)) by (nonlinear_arith);
        }
        (1u64 << (self.num_qubits as u64)) as usize
    }

    /// Sets every amplitude to zero, but the one at `at` to one.
    fn fill_unit(&mut self, at: Option<usize>)
        requires
            old(self).wf(),
        ensures
            old(self).reshaped(final(self)),
            final(self)@.amps == (match at {
                Some(k) => unit_amps(old(self)@.amps.len(), k as int),
                None => blank_amps(old(self)@.amps.len()),
            }),
    {
        let n: usize = self.amps.len();
        let mut i: usize = 0;
        while i < n
            invariant
                i <= n,
                n == self.amps@.len(),
                old(self).reshaped(self),
                forall|j: int|
                    0 <= j < i ==> #[trigger] self.amps@[j] == (if at == Some(j as usize) {
                        Qcomplex::spec_one()
                    } else {
                        Qcomplex::spec_zero()
                    }),
            decreases n - i,
        {
            let value = match at {
                Some(k) => if k == i {
                    Qcomplex::one()
                } else {
                    Qcomplex::zero()
                },
                None => Qcomplex::zero(),
            };
            self.amps[i] = value;
            i += 1;
        }
        proof {
            match at {
                Some(k) => {
                    assert(self.amps@ =~= unit_amps(n as nat, k as int));
                },
                None => {
                    assert(self.amps@ =~= blank_amps(n as nat));
                },
            }
        }
    }

    /// Sets every amplitude to zero.
    ///
    /// The result is no physical state; it serves as the start of an
    /// accumulation.
    pub fn init_blank_state(&mut self)
        requires
            old(self).wf(),
        ensures
            old(self).reshaped(final(self)),
            final(self)@.amps == blank_amps(old(self)@.amps.len()),
    {
        self.fill_unit(None);
    }

    /// Sets the register to `|0..0>`, or to `|0..0><0..0|` for a density
    /// matrix: amplitude zero becomes one, all others zero.
    pub fn init_zero_state(&mut self)
        requires
            old(self).wf(),
        ensures
            old(self).reshaped(final(self)),
            final(self)@.amps == unit_amps(old(self)@.amps.len(), 0),
    {
        self.fill_unit(Some(0));
    }

    /// Sets the register to the basis state `state_ind`: the amplitude at
    /// `state_ind`, or the diagonal entry `(state_ind, state_ind)` of a
    /// density matrix, becomes one and all others zero.
    ///
    /// Fails with `StateIndex`, and changes nothing, exactly when
    /// `state_ind` is outside `[0, 2^num_qubits)`.
    pub fn init_classical_state(&mut self, state_ind: i64) -> (res: Result<(), QuestError>)
        requires
            old(self).wf(),
        ensures
            old(self).reshaped(final(self)),
            res is Ok <==> 0 <= state_ind < old(self)@.dim(),
            res is Ok ==> final(self)@.amps == unit_amps(
                old(self)@.amps.len(),
                old(self)@.classical_index(state_ind as int),
            ),
            res is Err ==> final(self)@ == old(self)@ && res == Err::<(), QuestError>(
                QuestError::InvalidInputError(InputFault::StateIndex),
            ),
    {
        let d = self.dim();
        if state_ind < 0 || state_ind as u64 >= d as u64 {
            return Err(QuestError::InvalidInputError(InputFault::StateIndex));
        }
        let k = state_ind as usize;
        let at: usize = if self.is_density {
            assert(k + k * d < d * d) by (nonlinear_arith)
                requires
                    k < d,
            ;
            k + k * d
        } else {
            k
        };
        self.fill_unit(Some(at));
        Ok(())
    }

    /// Overwrites `count` amplitudes from `start` on.
    fn write_range(&mut self, start: usize, reals: &[Qreal], imags: &[Qreal])
        requires
            old(self).wf(),
            reals@.len() == imags@.len(),
            start + reals@.len() <= old(self)@.amps.len(),
        ensures
            old(self).reshaped(final(self)),
            final(self)@.amps == overwritten(
                old(self)@.amps,
                start as int,
                reals@.len() as int,
                reals@,
                imags@,
            ),
    {
        let count: usize = reals.len();
        let n: usize = self.amps.len();
        let mut i: usize = 0;
        while i < count
            invariant
                i <= count,
                n == self.amps@.len(),
                count == reals@.len(),
                count == imags@.len(),
                start + count <= self.amps@.len(),
                old(self).reshaped(self),
                forall|j: int|
                    0 <= j < self.amps@.len() ==> #[trigger] self.amps@[j] == (if start <= j
                        < start + i {
                        paired(reals@, imags@, j - start)
                    } else {
                        old(self).amps@[j]
                    }),
            decreases count - i,
        {
            self.amps[start + i] = Qcomplex::new(reals[i], imags[i]);
            i += 1;
        }
        assert(self.amps@ =~= overwritten(
            old(self)@.amps,
            start as int,
            reals@.len() as int,
            reals@,
            imags@,
        ));
    }

    /// Sets every amplitude from the given real and imaginary parts.
    ///
    /// For a density matrix the parts are taken column by column. Nothing
    /// is normalised. Fails with `ArrayLengthError`, and changes nothing,
    /// unless both lists have exactly one entry per amplitude.
    pub fn init_state_from_amps(&mut self, reals: &[Qreal], imags: &[Qreal]) -> (res: Result<
        (),
        QuestError,
    >)
        requires
            old(self).wf(),
        ensures
            old(self).reshaped(final(self)),
            res is Ok <==> reals@.len() == old(self)@.amps.len() && imags@.len() == old(
                self,
            )@.amps.len(),
            res is Ok ==> final(self)@.amps == Seq::new(
                old(self)@.amps.len(),
                |i: int| paired(reals@, imags@, i),
            ),
            res is Err ==> final(self)@ == old(self)@ && res == Err::<(), QuestError>(
                QuestError::ArrayLengthError,
            ),
    {
        let n = self.amps.len();
        if reals.len() != n || imags.len() != n {
            return Err(QuestError::ArrayLengthError);
        }
        self.write_range(0, reals, imags);
        assert(self.amps@ =~= Seq::new(n as nat, |i: int| paired(reals@, imags@, i)));
        Ok(())
    }

    /// The failure of `set_amps` on the given arguments, if any.
    pub open spec fn set_amps_fault(
        &self,
        start_ind: i64,
        reals: Seq<Qreal>,
        imags: Seq<Qreal>,
    ) -> Option<QuestError> {
        if reals.len() != imags.len() {
            Some(QuestError::ArrayLengthError)
        } else if self@.is_density {
            Some(QuestError::InvalidInputError(InputFault::NotStateVector))
        } else if !(0 <= start_ind < self@.amps.len()) {
            Some(QuestError::InvalidInputError(InputFault::StateIndex))
        } else if start_ind + reals.len() > self@.amps.len() {
            Some(QuestError::ArrayLengthError)
        } else {
            None
        }
    }

    /// Overwrites the amplitudes of a state-vector from index `start_ind`
    /// on with the given real and imaginary parts. Nothing is normalised.
    ///
    /// Fails, and changes nothing, with `ArrayLengthError` where the lists
    /// differ in length, `NotStateVector` on a density matrix,
    /// `StateIndex` where `start_ind` is no amplitude index, and
    /// `ArrayLengthError` where the lists reach past the last amplitude.
    pub fn set_amps(&mut self, start_ind: i64, reals: &[Qreal], imags: &[Qreal]) -> (res: Result<
        (),
        QuestError,
    >)
        requires
            old(self).wf(),
        ensures
            old(self).reshaped(final(self)),
            match old(self).set_amps_fault(start_ind, reals@, imags@) {
                Some(e) => res == Err::<(), QuestError>(e) && final(self)@ == old(self)@,
                None => res is Ok && final(self)@.amps == overwritten(
                    old(self)@.amps,
                    start_ind as int,
                    reals@.len() as int,
                    reals@,
                    imags@,
                ),
            },
    {
        if reals.len() != imags.len() {
            return Err(QuestError::ArrayLengthError);
        }
        if self.is_density {
            return Err(QuestError::InvalidInputError(InputFault::NotStateVector));
        }
        let n = self.amps.len();
        if start_ind < 0 || start_ind as u64 >= n as u64 {
            return Err(QuestError::InvalidInputError(InputFault::StateIndex));
        }
        let start = start_ind as usize;
        if reals.len() > n - start {
            return Err(QuestError::ArrayLengthError);
        }
        self.write_range(start, reals, imags);
        Ok(())
    }

    /// The failure of `set_density_amps` on the given arguments, if any.
    pub open spec fn set_density_amps_fault(
        &self,
        start_row: i64,
        start_col: i64,
        reals: Seq<Qreal>,
        imags: Seq<Qreal>,
    ) -> Option<QuestError> {
        if reals.len() != imags.len() {
            Some(QuestError::ArrayLengthError)
        } else if !self@.is_density {
            Some(QuestError::InvalidInputError(InputFault::NotDensityMatrix))
        } else if !(0 <= start_row < self@.dim() && 0 <= start_col < self@.dim()) {
            Some(QuestError::InvalidInputError(InputFault::StateIndex))
        } else if self@.flat_index(start_row as int, start_col as int) + reals.len()
            > self@.amps.len() {
            Some(QuestError::ArrayLengthError)
        } else {
            None
        }
    }

    /// Overwrites entries of a density matrix with the given real and
    /// imaginary parts, starting at row `start_row` of column `start_col`
    /// and running down the columns. Nothing is normalised.
    ///
    /// Fails, and changes nothing, with `ArrayLengthError` where the lists
    /// differ in length, `NotDensityMatrix` on a state-vector,
    /// `StateIndex` where the start is no entry, and `ArrayLengthError`
    /// where the lists reach past the last entry.
    pub fn set_density_amps(
        &mut self,
        start_row: i64,
        start_col: i64,
        reals: &[Qreal],
        imags: &[Qreal],
    ) -> (res: Result<(), QuestError>)
        requires
            old(self).wf(),
        ensures
            old(self).reshaped(final(self)),
            match old(self).set_density_amps_fault(start_row, start_col, reals@, imags@) {
                Some(e) => res == Err::<(), QuestError>(e) && final(self)@ == old(self)@,
                None => res is Ok && final(self)@.amps == overwritten(
                    old(self)@.amps,
                    old(self)@.flat_index(start_row as int, start_col as int),
                    reals@.len() as int,
                    reals@,
                    imags@,
                ),
            },
    {
        if reals.len() != imags.len() {
            return Err(QuestError::ArrayLengthError);
        }
        if !self.is_density {
            return Err(QuestError::InvalidInputError(InputFault::NotDensityMatrix));
        }
        let d = self.dim();
        if start_row < 0 || start_row as u64 >= d as u64 || start_col < 0 || start_col as u64
            >= d as u64 {
            return Err(QuestError::InvalidInputError(InputFault::StateIndex));
        }
        let row = start_row as usize;
        let col = start_col as usize;
        assert(row + col * d < d * d) by (nonlinear_arith)
            requires
                row < d,
                col < d,
        ;
        let start: usize = row + col * d;
        let n = self.amps.len();
        if reals.len() > n - start {
            return Err(QuestError::ArrayLengthError);
        }
        self.write_range(start, reals, imags);
        Ok(())
    }

    /// The amplitude of basis state `index` of a state-vector.
    ///
    /// Fails with `NotStateVector` on a density matrix, and with
    /// `StateIndex` where `index` is no amplitude index.
    pub fn get_amp(&self, index: i64) -> (res: Result<Qcomplex, QuestError>)
        requires
            self.wf(),
        ensures
            res == (if self@.is_density {
                Err::<Qcomplex, QuestError>(
                    QuestError::InvalidInputError(InputFault::NotStateVector),
                )
            } else if !(0 <= index < self@.amps.len()) {
                Err(QuestError::InvalidInputError(InputFault::StateIndex))
            } else {
                Ok(self@.amps[index as int])
            }),
    {
        if self.is_density {
            return Err(QuestError::InvalidInputError(InputFault::NotStateVector));
        }
        if index < 0 || index as u64 >= self.amps.len() as u64 {
            return Err(QuestError::InvalidInputError(InputFault::StateIndex));
        }
        Ok(self.amps[index as usize])
    }

    /// The real part of the amplitude of basis state `index`.
    pub fn get_real_amp(&self, index: i64) -> (res: Result<Qreal, QuestError>)
        requires
            self.wf(),
        ensures
            res == (if self@.is_density {
                Err::<Qreal, QuestError>(QuestError::InvalidInputError(InputFault::NotStateVector))
            } else if !(0 <= index < self@.amps.len()) {
                Err(QuestError::InvalidInputError(InputFault::StateIndex))
            } else {
                Ok(self@.amps[index as int].re)
            }),
    {
        match self.get_amp(index) {
            Ok(amp) => Ok(amp.re),
            Err(e) => Err(e),
        }
    }

    /// The imaginary part of the amplitude of basis state `index`.
    pub fn get_imag_amp(&self, index: i64) -> (res: Result<Qreal, QuestError>)
        requires
            self.wf(),
        ensures
            res == (if self@.is_density {
                Err::<Qreal, QuestError>(QuestError::InvalidInputError(InputFault::NotStateVector))
            } else if !(0 <= index < self@.amps.len()) {
                Err(QuestError::InvalidInputError(InputFault::StateIndex))
            } else {
                Ok(self@.amps[index as int].im)
            }),
    {
        match self.get_amp(index) {
            Ok(amp) => Ok(amp.im),
            Err(e) => Err(e),
        }
    }

    /// The entry of a density matrix at `row` and `col`.
    ///
    /// Fails with `NotDensityMatrix` on a state-vector, and with
    /// `StateIndex` where `row` or `col` is outside `[0, 2^num_qubits)`.
    pub fn get_density_amp(&self, row: i64, col: i64) -> (res: Result<Qcomplex, QuestError>)
        requires
            self.wf(),
        ensures
            res == (if !self@.is_density {
                Err::<Qcomplex, QuestError>(
                    QuestError::InvalidInputError(InputFault::NotDensityMatrix),
                )
            } else if !(0 <= row < self@.dim() && 0 <= col < self@.dim()) {
                Err(QuestError::InvalidInputError(InputFault::StateIndex))
            } else {
                Ok(self@.amps[self@.flat_index(row as int, col as int)])
            }),
    {
        if !self.is_density {
            return Err(QuestError::InvalidInputError(InputFault::NotDensityMatrix));
        }
        let d = self.dim();
        if row < 0 || row as u64 >= d as u64 || col < 0 || col as u64 >= d as u64 {
            return Err(QuestError::InvalidInputError(InputFault::StateIndex));
        }
        let r = row as usize;
        let c = col as usize;
        assert(r + c * d < d * d) by (nonlinear_arith)
            requires
                r < d,
                c < d,
        ;
        Ok(self.amps[r + c * d])
    }

    /// Overwrites the amplitudes of this register with those of
    /// `copy_qureg`.
    ///
    /// Fails with `RegisterMismatch`, and changes nothing, exactly when
    /// the two registers differ in kind or in their number of qubits.
    pub fn clone_qureg(&mut self, copy_qureg: &Qureg<'_>) -> (res: Result<(), QuestError>)
        requires
            old(self).wf(),
            copy_qureg.wf(),
        ensures
            old(self).reshaped(final(self)),
            res is Ok <==> old(self)@.same_shape(copy_qureg@),
            res is Ok ==> final(self)@.amps == copy_qureg@.amps,
            res is Err ==> final(self)@ == old(self)@ && res == Err::<(), QuestError>(
                QuestError::InvalidInputError(InputFault::RegisterMismatch),
            ),
    {
        if self.is_density != copy_qureg.is_density || self.num_qubits != copy_qureg.num_qubits {
            return Err(QuestError::InvalidInputError(InputFault::RegisterMismatch));
        }
        self.copy_amps_from(copy_qureg);
        Ok(())
    }

    /// Copies every amplitude of `source`, which has as many.
    fn copy_amps_from(&mut self, source: &Qureg<'_>)
        requires
            old(self).wf(),
            source@.amps.len() == old(self)@.amps.len(),
        ensures
            old(self).reshaped(final(self)),
            final(self)@.amps == source@.amps,
    {
        let n: usize = self.amps.len();
        let mut i: usize = 0;
        while i < n
            invariant
                i <= n,
                n == self.amps@.len(),
                n == source.amps@.len(),
                old(self).reshaped(self),
                forall|j: int| 0 <= j < i ==> #[trigger] self.amps@[j] == source.amps@[j],
            decreases n - i,
        {
            self.amps[i] = source.amps[i];
            i += 1;
        }
        assert(self.amps@ =~= source.amps@);
    }

    /// The failure of naming a range of amplitudes, if any: a start that
    /// is no amplitude index, or a count that is negative or reaches
    /// past the last amplitude.
    pub open spec fn range_fault(&self, start_ind: i64, num_amps: i64) -> Option<InputFault> {
        if !(0 <= start_ind < self@.amps.len()) {
            Some(InputFault::StateIndex)
        } else if !(0 <= num_amps <= self@.amps.len() - start_ind) {
            Some(InputFault::StateIndex)
        } else {
            None
        }
    }

    /// Checks that `num_amps` amplitudes from `start_ind` on lie within
    /// the register.
    pub fn check_amp_range(&self, start_ind: i64, num_amps: i64) -> (res: Result<(), QuestError>)
        requires
            self.wf(),
        ensures
            res == (match self.range_fault(start_ind, num_amps) {
                Some(fault) => Err::<(), QuestError>(QuestError::InvalidInputError(fault)),
                None => Ok(()),
            }),
    {
        let n = self.num_amps_total();
        if start_ind < 0 || start_ind >= n {
            return Err(QuestError::InvalidInputError(InputFault::StateIndex));
        }
        if num_amps < 0 || num_amps > n - start_ind {
            return Err(QuestError::InvalidInputError(InputFault::StateIndex));
        }
        Ok(())
    }

    /// Brings the copy of the amplitudes that an accelerator holds up to
    /// date. The register has one store only, so nothing changes.
    pub fn copy_state_to_gpu(&mut self)
        ensures
            *final(self) == *old(self),
    {
    }

    /// Brings the amplitudes up to date with the copy that an
    /// accelerator holds. The register has one store only, so nothing
    /// changes.
    pub fn copy_state_from_gpu(&mut self)
        ensures
            *final(self) == *old(self),
    {
    }

    /// As `copy_state_to_gpu`, for `num_amps` amplitudes from
    /// `start_ind` on.
    ///
    /// Fails with `StateIndex` where the range does not lie within the
    /// register.
    pub fn copy_substate_to_gpu(&mut self, start_ind: i64, num_amps: i64) -> (res: Result<
        (),
        QuestError,
    >)
        requires
            old(self).wf(),
        ensures
            *final(self) == *old(self),
            res == (match old(self).range_fault(start_ind, num_amps) {
                Some(fault) => Err::<(), QuestError>(QuestError::InvalidInputError(fault)),
                None => Ok(()),
            }),
    {
        self.check_amp_range(start_ind, num_amps)
    }

    /// As `copy_state_from_gpu`, for `num_amps` amplitudes from
    /// `start_ind` on.
    ///
    /// Fails with `StateIndex` where the range does not lie within the
    /// register.
    pub fn copy_substate_from_gpu(&mut self, start_ind: i64, num_amps: i64) -> (res: Result<
        (),
        QuestError,
    >)
        requires
            old(self).wf(),
        ensures
            *final(self) == *old(self),
            res == (match old(self).range_fault(start_ind, num_amps) {
                Some(fault) => Err::<(), QuestError>(QuestError::InvalidInputError(fault)),
                None => Ok(()),
            }),
    {
        self.check_amp_range(start_ind, num_amps)
    }

    /// The success code that all processes agree on: with one process,
    /// the code itself.
    pub fn sync_quest_success(success_code: i32) -> (code: i32)
        ensures
            code == success_code,
    {
        success_code
    }
}

} // verus!
