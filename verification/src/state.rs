//! The mathematical model of a register.

use vstd::prelude::*;
use vstd::arithmetic::power2::pow2;
use crate::amplitude::{Qcomplex, Qreal};
use crate::bits::{all_set, flipped, selected, MAX_INDEX_BITS};

verus! {

/// What a register is, as a mathematical value: its number of qubits, its
/// kind, and its amplitudes in index order.
///
/// A state-vector of `n` qubits has `2^n` amplitudes; amplitude `i`
/// belongs to the basis state whose qubit `q` is bit `q` of `i`. A density
/// matrix of `n` qubits has `2^(2n)` amplitudes, flattened column by
/// column: the entry at row `r` and column `c` is amplitude `r + c * 2^n`,
/// so that bits `0..n` of an index are the row and bits `n..2n` the column.
pub struct QuregState {
    pub num_qubits: nat,
    pub is_density: bool,
    pub amps: Seq<Qcomplex>,
}

impl QuregState {
    /// The number of bits in an amplitude index.
    pub open spec fn index_bits(self) -> nat {
        if self.is_density {
            2 * self.num_qubits
        } else {
            self.num_qubits
        }
    }

    /// The number of basis states, which is the number of rows and of
    /// columns of a density matrix.
    pub open spec fn dim(self) -> nat {
        pow2(self.num_qubits)
    }

    /// Validity: at least one qubit, an index that fits the machine, and
    /// as many amplitudes as the kind and the qubit count ask for.
    pub open spec fn wf(self) -> bool {
        &&& 1 <= self.num_qubits
        &&& self.index_bits() <= MAX_INDEX_BITS
        &&& self.amps.len() == pow2(self.index_bits())
    }

    /// Whether `other` has the same kind and the same number of qubits.
    pub open spec fn same_shape(self, other: QuregState) -> bool {
        &&& self.num_qubits == other.num_qubits
        &&& self.is_density == other.is_density
    }

    /// This register with its amplitudes replaced.
    pub open spec fn with_amps(self, amps: Seq<Qcomplex>) -> QuregState {
        QuregState { num_qubits: self.num_qubits, is_density: self.is_density, amps }
    }

    /// The mask of the column bits that mirror the row bits of `mask`.
    pub open spec fn col(self, mask: u64) -> u64 {
        mask << (self.num_qubits as u64)
    }

    /// The register after `on_amps` has acted on the row bits and, for a
    /// density matrix, `on_cols` on the amplitudes that result.
    pub open spec fn both_sides(
        self,
        on_rows: spec_fn(Seq<Qcomplex>) -> Seq<Qcomplex>,
        on_cols: spec_fn(Seq<Qcomplex>) -> Seq<Qcomplex>,
    ) -> QuregState {
        if self.is_density {
            self.with_amps(on_cols(on_rows(self.amps)))
        } else {
            self.with_amps(on_rows(self.amps))
        }
    }

    /// The register after a NOT on the qubits of `flip`, applied where
    /// all qubits of `ctrl` are one.
    ///
    /// On a state-vector, basis states `x` and `x ^ flip` trade their
    /// amplitudes. On a density matrix rows and columns are both
    /// permuted so.
    pub open spec fn not_gate(self, ctrl: u64, flip: u64) -> QuregState {
        self.both_sides(
            |a: Seq<Qcomplex>| amps_not(a, ctrl, flip),
            |a: Seq<Qcomplex>| amps_not(a, self.col(ctrl), self.col(flip)),
        )
    }

    /// The register after a phase flip: every amplitude in which all
    /// qubits of `mask` are one is negated. On a density matrix this is
    /// done for the row bits and then for the column bits.
    pub open spec fn phase_flip(self, mask: u64) -> QuregState {
        self.both_sides(
            |a: Seq<Qcomplex>| amps_negate(a, mask),
            |a: Seq<Qcomplex>| amps_negate(a, self.col(mask)),
        )
    }

    /// The register after the S gate on the qubit with bit `target`:
    /// amplitudes in which it is one are multiplied by `i`; on the
    /// column side of a density matrix, by `-i`.
    pub open spec fn s_gate(self, target: u64) -> QuregState {
        self.both_sides(
            |a: Seq<Qcomplex>| amps_quarter(a, target, false),
            |a: Seq<Qcomplex>| amps_quarter(a, self.col(target), true),
        )
    }

    /// The register after a Pauli Y on the qubit with bit `target`,
    /// applied where all qubits of `ctrl` are one. The column side of a
    /// density matrix takes the conjugate matrix.
    pub open spec fn y_gate(self, ctrl: u64, target: u64) -> QuregState {
        self.both_sides(
            |a: Seq<Qcomplex>| amps_y(a, ctrl, target, false),
            |a: Seq<Qcomplex>| amps_y(a, self.col(ctrl), self.col(target), true),
        )
    }

    /// The register after the qubits with bits `b1` and `b2` have traded
    /// places.
    pub open spec fn swap_gate(self, b1: u64, b2: u64) -> QuregState {
        self.both_sides(
            |a: Seq<Qcomplex>| amps_swap(a, b1, b2),
            |a: Seq<Qcomplex>| amps_swap(a, self.col(b1), self.col(b2)),
        )
    }

    /// The register after projection of the qubit with bit `target` onto
    /// `keep`, which is zero or `target`: amplitudes in which the qubit
    /// differs from `keep` become zero. In a density matrix both the row
    /// and the column must agree with `keep`. Nothing is rescaled.
    pub open spec fn projected(self, target: u64, keep: u64) -> QuregState {
        self.both_sides(
            |a: Seq<Qcomplex>| amps_project(a, target, keep),
            |a: Seq<Qcomplex>| amps_project(a, self.col(target), self.col(keep)),
        )
    }

    /// The flat index of the density-matrix entry at `row` and `col`.
    pub open spec fn flat_index(self, row: int, col: int) -> int {
        row + col * self.dim()
    }

    /// The flat index of the basis state `k`: `k` itself in a
    /// state-vector, the diagonal entry `(k, k)` in a density matrix.
    pub open spec fn classical_index(self, k: int) -> int {
        if self.is_density {
            self.flat_index(k, k)
        } else {
            k
        }
    }
}

/// `len` amplitudes, all zero.
pub open spec fn blank_amps(len: nat) -> Seq<Qcomplex> {
    Seq::new(len, |i: int| Qcomplex::spec_zero())
}

/// `len` amplitudes, all zero but a one at `at`.
pub open spec fn unit_amps(len: nat, at: int) -> Seq<Qcomplex> {
    Seq::new(
        len,
        |i: int|
            if i == at {
                Qcomplex::spec_one()
            } else {
                Qcomplex::spec_zero()
            },
    )
}

/// The amplitude whose parts are entry `i` of `reals` and of `imags`.
pub open spec fn paired(reals: Seq<Qreal>, imags: Seq<Qreal>, i: int) -> Qcomplex {
    Qcomplex { re: reals[i], im: imags[i] }
}

/// `amps` with the `count` entries from `start` on replaced by the first
/// `count` pairs of `reals` and `imags`.
pub open spec fn overwritten(
    amps: Seq<Qcomplex>,
    start: int,
    count: int,
    reals: Seq<Qreal>,
    imags: Seq<Qreal>,
) -> Seq<Qcomplex> {
    Seq::new(
        amps.len(),
        |i: int|
            if start <= i < start + count {
                paired(reals, imags, i - start)
            } else {
                amps[i]
            },
    )
}

/// `amps` after a NOT on the index bits of `flip`, applied where all
/// bits of `ctrl` are one: the amplitude at `x` comes from `x ^ flip`.
pub open spec fn amps_not(amps: Seq<Qcomplex>, ctrl: u64, flip: u64) -> Seq<Qcomplex> {
    Seq::new(
        amps.len(),
        |i: int|
            if all_set(i as u64, ctrl) {
                amps[flipped(i as u64, flip) as int]
            } else {
                amps[i]
            },
    )
}

/// `amps` with every amplitude negated in whose index all bits of
/// `mask` are one.
pub open spec fn amps_negate(amps: Seq<Qcomplex>, mask: u64) -> Seq<Qcomplex> {
    Seq::new(
        amps.len(),
        |i: int|
            if all_set(i as u64, mask) {
                amps[i].spec_neg()
            } else {
                amps[i]
            },
    )
}

/// `amps` with every amplitude in whose index all bits of `mask` are one
/// multiplied by `i`, or by `-i` where `conj` is set.
pub open spec fn amps_quarter(amps: Seq<Qcomplex>, mask: u64, conj: bool) -> Seq<Qcomplex> {
    Seq::new(
        amps.len(),
        |i: int|
            if !all_set(i as u64, mask) {
                amps[i]
            } else if conj {
                amps[i].spec_times_neg_i()
            } else {
                amps[i].spec_times_i()
            },
    )
}

/// `amps` after the matrix `[[0, -i], [i, 0]]`, or its conjugate where
/// `conj` is set, has acted on the index bit `target` wherever all bits
/// of `ctrl` are one.
pub open spec fn amps_y(amps: Seq<Qcomplex>, ctrl: u64, target: u64, conj: bool) -> Seq<
    Qcomplex,
> {
    Seq::new(
        amps.len(),
        |i: int|
            if !all_set(i as u64, ctrl) {
                amps[i]
            } else if ((i as u64) & target == 0) != conj {
                amps[flipped(i as u64, target) as int].spec_times_neg_i()
            } else {
                amps[flipped(i as u64, target) as int].spec_times_i()
            },
    )
}

/// `amps` after the index bits `b1` and `b2` have traded places: where
/// exactly one of them is set, the amplitude comes from the index with
/// both flipped.
pub open spec fn amps_swap(amps: Seq<Qcomplex>, b1: u64, b2: u64) -> Seq<Qcomplex> {
    Seq::new(
        amps.len(),
        |i: int|
            if ((i as u64) & b1 == 0) != ((i as u64) & b2 == 0) {
                amps[flipped(i as u64, b1 | b2) as int]
            } else {
                amps[i]
            },
    )
}

/// `amps` with every amplitude set to zero whose index differs from
/// `keep` on the bit `target`.
pub open spec fn amps_project(amps: Seq<Qcomplex>, target: u64, keep: u64) -> Seq<Qcomplex> {
    Seq::new(
        amps.len(),
        |i: int|
            if selected(i as u64, target, keep) {
                amps[i]
            } else {
                Qcomplex::spec_zero()
            },
    )
}

} // verus!
