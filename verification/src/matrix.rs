//! Matrix descriptors.
//!
//! A gate on `k` qubits is given by a square matrix of `2^k` rows. The
//! descriptors hold the entries and know their size; whether a matrix
//! fits a list of targets, and whether a list of Kraus operators has an
//! admissible length, is checked here. Whether a matrix is unitary is
//! arithmetic and is left to the caller.

use vstd::prelude::*;
use vstd::arithmetic::power2::{pow2, lemma_pow2_adds, lemma_pow2_pos, lemma_pow2_strictly_increases};
use crate::amplitude::{Qcomplex, Qreal};
use crate::bits::{lemma_span_is_pow2, MAX_INDEX_BITS};
use crate::error::{InputFault, QuestError};

verus! {

/// A 2 by 2 complex matrix: `real[r][c]` and `imag[r][c]` are the parts
/// of the entry at row `r` and column `c`.
#[derive(Clone, Copy, Debug)]
pub struct ComplexMatrix2 {
    pub real: [[Qreal; 2]; 2],
    pub imag: [[Qreal; 2]; 2],
}

/// A 4 by 4 complex matrix.
#[derive(Clone, Copy, Debug)]
pub struct ComplexMatrix4 {
    pub real: [[Qreal; 4]; 4],
    pub imag: [[Qreal; 4]; 4],
}

impl ComplexMatrix2 {
    /// The entry at `row` and `col`, or `StateIndex` where either is
    /// not below two.
    pub fn entry(&self, row: usize, col: usize) -> (res: Result<Qcomplex, QuestError>)
        ensures
            res == (if row < 2 && col < 2 {
                Ok::<Qcomplex, QuestError>(
                    Qcomplex {
                        re: self.real[row as int][col as int],
                        im: self.imag[row as int][col as int],
                    },
                )
            } else {
                Err(QuestError::InvalidInputError(InputFault::StateIndex))
            }),
    {
        if row >= 2 || col >= 2 {
            return Err(QuestError::InvalidInputError(InputFault::StateIndex));
        }
        Ok(Qcomplex::new(self.real[row][col], self.imag[row][col]))
    }
}

impl ComplexMatrix4 {
    /// The entry at `row` and `col`, or `StateIndex` where either is
    /// not below four.
    pub fn entry(&self, row: usize, col: usize) -> (res: Result<Qcomplex, QuestError>)
        ensures
            res == (if row < 4 && col < 4 {
                Ok::<Qcomplex, QuestError>(
                    Qcomplex {
                        re: self.real[row as int][col as int],
                        im: self.imag[row as int][col as int],
                    },
                )
            } else {
                Err(QuestError::InvalidInputError(InputFault::StateIndex))
            }),
    {
        if row >= 4 || col >= 4 {
            return Err(QuestError::InvalidInputError(InputFault::StateIndex));
        }
        Ok(Qcomplex::new(self.real[row][col], self.imag[row][col]))
    }
}

/// A complex matrix on `num_qubits` qubits, of `2^num_qubits` rows and
/// columns.
#[derive(Debug)]
pub struct ComplexMatrixN {
    num_qubits: u32,
    entries: Vec<Qcomplex>,
}

/// What a matrix is: its number of qubits and its entries, row by row.
pub struct MatrixState {
    pub num_qubits: nat,
    pub entries: Seq<Qcomplex>,
}

impl MatrixState {
    /// The number of rows, which is the number of columns.
    pub open spec fn dim(self) -> nat {
        pow2(self.num_qubits)
    }

    /// Validity: between one qubit and half the index bits of a
    /// register, and one entry per row and column.
    pub open spec fn wf(self) -> bool {
        &&& 1 <= self.num_qubits
        &&& 2 * self.num_qubits <= MAX_INDEX_BITS
        &&& self.entries.len() == self.dim() * self.dim()
    }

    /// The entry at `row` and `col`.
    pub open spec fn entry(self, row: int, col: int) -> Qcomplex {
        self.entries[row * self.dim() + col]
    }
}

impl View for ComplexMatrixN {
    type V = MatrixState;

    closed spec fn view(&self) -> MatrixState {
        MatrixState { num_qubits: self.num_qubits as nat, entries: self.entries@ }
    }
}

/// Whether a matrix on `num_qubits` qubits can be held on this machine.
pub open spec fn matrix_creatable(num_qubits: int) -> bool {
    &&& 1 <= num_qubits
    &&& 2 * num_qubits <= MAX_INDEX_BITS
    &&& pow2((2 * num_qubits) as nat) <= usize::MAX
}

/// The most Kraus operators a map on `targets` qubits may have: the
/// square of the number of rows of one operator.
pub open spec fn max_kraus_ops(targets: nat) -> nat {
    pow2(2 * targets)
}

impl ComplexMatrixN {
    /// Validity of the matrix: that of its model.
    pub open spec fn wf(&self) -> bool {
        self@.wf()
    }

    /// Makes the matrix on `num_qubits` qubits whose entries are all
    /// zero.
    ///
    /// Fails with `QubitCount` exactly when the matrix cannot be held.
    pub fn try_new(num_qubits: i32) -> (res: Result<ComplexMatrixN, QuestError>)
        ensures
            res is Ok <==> matrix_creatable(num_qubits as int),
            res matches Ok(m) ==> m.wf() && m@.num_qubits == num_qubits && forall|i: int|
                0 <= i < m@.entries.len() ==> #[trigger] m@.entries[i] == Qcomplex::spec_zero(),
            res is Err ==> res == Err::<ComplexMatrixN, QuestError>(
                QuestError::InvalidInputError(InputFault::QubitCount),
            ),
    {
        if num_qubits < 1 || num_qubits > 31 {
            return Err(QuestError::InvalidInputError(InputFault::QubitCount));
        }
        let bits: u32 = 2 * (num_qubits as u32);
        proof {
            lemma_span_is_pow2(bits as nat);
            lemma_pow2_adds(num_qubits as nat, num_qubits as nat);
        }
        let len: u64 = 1u64 << (bits as u64);
        if len > usize::MAX as u64 {
            return Err(QuestError::InvalidInputError(InputFault::QubitCount));
        }
        let mut entries: Vec<Qcomplex> = Vec::new();
        while entries.len() < len as usize
            invariant
                entries@.len() <= len,
                forall|i: int| 0 <= i < entries@.len() ==> #[trigger] entries@[i] == Qcomplex::spec_zero(),
            decreases len - entries@.len(),
        {
            entries.push(Qcomplex::zero());
        }
        Ok(ComplexMatrixN { num_qubits: num_qubits as u32, entries })
    }

    /// The number of qubits the matrix acts on.
    pub fn num_qubits(&self) -> (n: i32)
        requires
            self.wf(),
        ensures
            n == self@.num_qubits,
    {
        self.num_qubits as i32
    }

    /// The number of rows.
    pub fn dim(&self) -> (d: usize)
        requires
            self.wf(),
        ensures
            d == self@.dim(),
            d as int * d as int == self@.entries.len(),
            self@.entries.len() <= usize::MAX,
            1 <= d,
    {
        proof {
            assert(self.entries.len() == self.entries@.len());
            lemma_pow2_adds(self@.num_qubits, self@.num_qubits);
            lemma_span_is_pow2(self@.num_qubits);
            lemma_pow2_pos(self@.num_qubits);
            assert(1 <= pow2(self@.num_qubits) ==> pow2(self@.num_qubits) <= pow2(
                self@.num_qubits,
            ) * pow2(self@.num_qubits)) by (nonlinear_arith);
        }
        (1u64 << (self.num_qubits as u64)) as usize
    }

    /// The entry at `row` and `col`, or `StateIndex` where either is
    /// not below the number of rows.
    pub fn get(&self, row: usize, col: usize) -> (res: Result<Qcomplex, QuestError>)
        requires
            self.wf(),
        ensures
            res == (if row < self@.dim() && col < self@.dim() {
                Ok::<Qcomplex, QuestError>(self@.entry(row as int, col as int))
            } else {
                Err(QuestError::InvalidInputError(InputFault::StateIndex))
            }),
    {
        let d = self.dim();
        if row >= d || col >= d {
            return Err(QuestError::InvalidInputError(InputFault::StateIndex));
        }
        assert(row * d + col < d * d) by (nonlinear_arith)
            requires
                row < d,
                col < d,
        ;
        Ok(self.entries[row * d + col])
    }

    /// Sets the entry at `row` and `col`. Fails with `StateIndex`, and
    /// changes nothing, where either is not below the number of rows.
    pub fn set(&mut self, row: usize, col: usize, value: Qcomplex) -> (res: Result<(), QuestError>)
        requires
            old(self).wf(),
        ensures
            final(self).wf(),
            final(self)@.num_qubits == old(self)@.num_qubits,
            res is Ok <==> row < old(self)@.dim() && col < old(self)@.dim(),
            res is Ok ==> final(self)@.entries == old(self)@.entries.update(
                row * old(self)@.dim() + col,
                value,
            ),
            res is Err ==> final(self)@ == old(self)@ && res == Err::<(), QuestError>(
                QuestError::InvalidInputError(InputFault::StateIndex),
            ),
    {
        let d = self.dim();
        if row >= d || col >= d {
            return Err(QuestError::InvalidInputError(InputFault::StateIndex));
        }
        assert(row * d + col < d * d) by (nonlinear_arith)
            requires
                row < d,
                col < d,
        ;
        self.entries[row * d + col] = value;
        assert(self.entries@ =~= old(self).entries@.update(row * d + col, value));
        Ok(())
    }

    /// Succeeds where the matrix acts on as many qubits as there are
    /// targets, and fails with `MatrixSize` otherwise.
    pub fn check_targets(&self, num_targets: usize) -> (res: Result<(), QuestError>)
        requires
            self.wf(),
        ensures
            res == (if self@.num_qubits == num_targets {
                Ok::<(), QuestError>(())
            } else {
                Err(QuestError::InvalidInputError(InputFault::MatrixSize))
            }),
    {
        if self.num_qubits as usize == num_targets {
            Ok(())
        } else {
            Err(QuestError::InvalidInputError(InputFault::MatrixSize))
        }
    }
}

/// Succeeds where a Kraus map on `num_targets` qubits may have
/// `num_ops` operators: at least one, and at most the square of the
/// number of rows of an operator. Fails with `KrausMap` otherwise.
pub fn check_kraus_count(num_ops: usize, num_targets: usize) -> (res: Result<(), QuestError>)
    ensures
        res == (if 1 <= num_ops <= max_kraus_ops(num_targets as nat) {
            Ok::<(), QuestError>(())
        } else {
            Err(QuestError::InvalidInputError(InputFault::KrausMap))
        }),
{
    if num_ops < 1 {
        return Err(QuestError::InvalidInputError(InputFault::KrausMap));
    }
    proof {
        vstd::arithmetic::power2::lemma2_to64();
        vstd::arithmetic::power2::lemma2_to64_rest();
    }
    if num_targets >= 32 {
        proof {
            if num_targets > 32 {
                lemma_pow2_strictly_increases(64, 2 * (num_targets as nat));
            }
        }
        return Ok(());
    }
    proof {
        if num_targets < 31 {
            lemma_pow2_strictly_increases(2 * (num_targets as nat), 62);
        }
        if num_targets == 31 {
            lemma_span_is_pow2(62);
        } else {
            lemma_span_is_pow2(2 * (num_targets as nat));
        }
    }
    let most: u64 = 1u64 << ((2 * num_targets) as u64);
    if num_ops as u64 > most {
        return Err(QuestError::InvalidInputError(InputFault::KrausMap));
    }
    Ok(())
}

} // verus!
