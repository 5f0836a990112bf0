//! The order of the gates in compound transforms.
//!
//! The quantum Fourier transform and the Trotter circuits are sequences
//! of simpler gates. Which gates, on which qubits and in which order, is
//! laid down here as a plan; the gates themselves, where they need
//! arithmetic, are applied by the caller.

use vstd::prelude::*;
use crate::error::{InputFault, QuestError};
use crate::pauli::{acted_on, PauliOpType};
use crate::qureg::Qureg;
use crate::validate::{check_gate, check_list, gate_fault, list_fault};

verus! {

/// One gate of a quantum Fourier transform.
#[derive(Clone, Copy, Debug, PartialEq, Eq, Structural)]
pub enum QftStep {
    /// A Hadamard gate on `qubit`.
    Hadamard { qubit: i32 },
    /// The phases controlled by `high`: with `r` the unsigned value of
    /// the first `low` qubits of the list and `b` the value of `high`,
    /// the phase `pi * r * b / 2^low`.
    Phases { low: usize, high: i32 },
    /// A swap of `first` and `second`.
    Swap { first: i32, second: i32 },
}

/// The rounds of a Fourier transform on the first `k` qubits of
/// `qubits`, the last of them first: a Hadamard on the qubit, then the
/// phases it controls on the qubits before it.
pub open spec fn qft_rounds(qubits: Seq<i32>, k: nat) -> Seq<QftStep>
    decreases k,
{
    if k == 0 {
        Seq::empty()
    } else if k == 1 {
        seq![QftStep::Hadamard { qubit: qubits[0] }]
    } else {
        seq![
            QftStep::Hadamard { qubit: qubits[k - 1] },
            QftStep::Phases { low: (k - 1) as usize, high: qubits[k - 1] },
        ] + qft_rounds(qubits, (k - 1) as nat)
    }
}

/// The first `count` swaps that reverse the order of `qubits`.
pub open spec fn qft_swaps(qubits: Seq<i32>, count: nat) -> Seq<QftStep>
    decreases count,
{
    if count == 0 {
        Seq::empty()
    } else {
        qft_swaps(qubits, (count - 1) as nat).push(
            QftStep::Swap { first: qubits[count - 1], second: qubits[qubits.len() - count] },
        )
    }
}

/// The gates of the Fourier transform on `qubits`, in order: the rounds
/// from the last qubit down, then the swaps that reverse the qubits.
pub open spec fn qft_steps(qubits: Seq<i32>) -> Seq<QftStep> {
    qft_rounds(qubits, qubits.len()) + qft_swaps(qubits, qubits.len() / 2)
}

/// One step of a rotation about a product of Pauli operators.
#[derive(Clone, Copy, Debug, PartialEq, Eq, Structural)]
pub enum RotationStep {
    /// The change of basis on `qubit` that turns the axis of `code`,
    /// which is X or Y, into the Z axis.
    IntoZ { qubit: i32, code: PauliOpType },
    /// The rotation about the product of Z operators on the targets
    /// whose operator is not the identity, under the controls.
    Turn,
    /// The change of basis on `qubit` back from the Z axis to the axis
    /// of `code`.
    OutOfZ { qubit: i32, code: PauliOpType },
}

/// Whether a change of basis belongs to the operator: it is X or Y.
pub open spec fn off_axis(code: PauliOpType) -> bool {
    code == PauliOpType::PauliX || code == PauliOpType::PauliY
}

/// The changes of basis before the rotation, for the targets in order.
pub open spec fn into_z(targets: Seq<i32>, codes: Seq<PauliOpType>) -> Seq<RotationStep>
    decreases targets.len(),
{
    if targets.len() == 0 || codes.len() != targets.len() {
        Seq::empty()
    } else if off_axis(codes.last()) {
        into_z(targets.drop_last(), codes.drop_last()).push(
            RotationStep::IntoZ { qubit: targets.last(), code: codes.last() },
        )
    } else {
        into_z(targets.drop_last(), codes.drop_last())
    }
}

/// The changes of basis after the rotation, for the targets in the
/// opposite order.
pub open spec fn out_of_z(targets: Seq<i32>, codes: Seq<PauliOpType>) -> Seq<RotationStep>
    decreases targets.len(),
{
    if targets.len() == 0 || codes.len() != targets.len() {
        Seq::empty()
    } else if off_axis(codes.last()) {
        seq![RotationStep::OutOfZ { qubit: targets.last(), code: codes.last() }] + out_of_z(
            targets.drop_last(),
            codes.drop_last(),
        )
    } else {
        out_of_z(targets.drop_last(), codes.drop_last())
    }
}

/// The steps of a rotation about a product of Pauli operators: the
/// changes of basis into the Z axis, the rotation about the product of
/// Z operators where any operator is not the identity, and the changes
/// of basis back.
pub open spec fn rotation_steps(targets: Seq<i32>, codes: Seq<PauliOpType>) -> Seq<RotationStep> {
    into_z(targets, codes) + (if acted_on(targets, codes).len() > 0 {
        seq![RotationStep::Turn]
    } else {
        Seq::empty()
    }) + out_of_z(targets, codes)
}

/// The first rule that a rotation about a product of Pauli operators
/// breaks: what holds of its qubits, then one operator per target.
pub open spec fn rotation_fault(
    n: nat,
    ctrls: Seq<i32>,
    targets: Seq<i32>,
    codes: Seq<PauliOpType>,
) -> Option<InputFault> {
    if gate_fault(n, ctrls, targets) is Some {
        gate_fault(n, ctrls, targets)
    } else if codes.len() != targets.len() {
        Some(InputFault::PauliTerms)
    } else {
        None
    }
}

/// A factor by which a Trotter circuit scales its time.
#[derive(Clone, Copy, Debug, PartialEq, Eq, Structural)]
pub enum TimeScale {
    /// One half: each half of the circuit of order two.
    Half,
    /// `p = 1 / (4 - 4^(1 / (order - 1)))`: the outer four parts of the
    /// circuit of the given order.
    Outer(i32),
    /// `1 - 4 p`: the middle part of the circuit of the given order.
    Middle(i32),
}

/// One pass over the terms of the Hamiltonian within a Trotter circuit.
#[derive(Debug)]
pub struct TrotterStep {
    /// Whether the terms are taken last to first.
    pub reversed: bool,
    /// The factors whose product scales the time of the pass.
    pub scales: Vec<TimeScale>,
}

impl View for TrotterStep {
    type V = (bool, Seq<TimeScale>);

    open spec fn view(&self) -> (bool, Seq<TimeScale>) {
        (self.reversed, self.scales@)
    }
}

/// The passes of the symmetrized Trotter circuit of the given order,
/// each with the factors in `prefix` before its own.
///
/// Order one is one forward pass. Order two is a forward and a reversed
/// pass over half the time each. A higher even order is five circuits
/// of the order two below: two over the outer share of the time, one
/// over the middle share, and two more over the outer share.
pub open spec fn symmetrized(order: int, prefix: Seq<TimeScale>) -> Seq<(bool, Seq<TimeScale>)>
    decreases order,
{
    if order <= 1 {
        seq![(false, prefix)]
    } else if order <= 3 {
        seq![(false, prefix.push(TimeScale::Half)), (true, prefix.push(TimeScale::Half))]
    } else {
        let outer = symmetrized(order - 2, prefix.push(TimeScale::Outer(order as i32)));
        let middle = symmetrized(order - 2, prefix.push(TimeScale::Middle(order as i32)));
        outer + outer + middle + outer + outer
    }
}

/// The views of the passes of a plan.
pub open spec fn step_views(plan: Seq<TrotterStep>) -> Seq<(bool, Seq<TimeScale>)> {
    Seq::new(plan.len(), |i: int| plan[i]@)
}

/// Whether a Trotter circuit can have the given order and number of
/// repetitions: the order is one or a positive even number, and there
/// is at least one repetition.
pub open spec fn trotter_ok(order: i32, reps: i32) -> bool {
    &&& order >= 1
    &&& (order == 1 || order % 2 == 0)
    &&& reps >= 1
}

/// A copy of `scales`.
fn copied(scales: &Vec<TimeScale>) -> (same: Vec<TimeScale>)
    ensures
        same@ == scales@,
{
    let mut same: Vec<TimeScale> = Vec::new();
    let mut i: usize = 0;
    while i < scales.len()
        invariant
            i <= scales@.len(),
            same@ == scales@.take(i as int),
        decreases scales@.len() - i,
    {
        same.push(scales[i]);
        assert(scales@.take(i + 1) =~= scales@.take(i as int).push(scales@[i as int]));
        i += 1;
    }
    assert(scales@.take(scales@.len() as int) =~= scales@);
    same
}

/// A copy of `scales` with `last` appended.
fn extended(scales: &Vec<TimeScale>, last: TimeScale) -> (longer: Vec<TimeScale>)
    ensures
        longer@ == scales@.push(last),
{
    let mut longer = copied(scales);
    longer.push(last);
    longer
}

/// Appends the passes of the symmetrized circuit of the given order.
fn push_symmetrized(order: i32, prefix: &Vec<TimeScale>, plan: &mut Vec<TrotterStep>)
    requires
        order >= 1,
    ensures
        step_views(final(plan)@) == step_views(old(plan)@) + symmetrized(order as int, prefix@),
    decreases order,
{
    if order == 1 {
        let same = copied(prefix);
        plan.push(TrotterStep { reversed: false, scales: same });
        assert(step_views(plan@) =~= step_views(old(plan)@) + symmetrized(order as int, prefix@));
    } else if order <= 3 {
        let first = extended(prefix, TimeScale::Half);
        let second = extended(prefix, TimeScale::Half);
        plan.push(TrotterStep { reversed: false, scales: first });
        plan.push(TrotterStep { reversed: true, scales: second });
        assert(step_views(plan@) =~= step_views(old(plan)@) + symmetrized(order as int, prefix@));
    } else {
        let outer = extended(prefix, TimeScale::Outer(order));
        let middle = extended(prefix, TimeScale::Middle(order));
        let ghost o = symmetrized(order - 2, outer@);
        let ghost m = symmetrized(order - 2, middle@);
        let ghost start = step_views(plan@);
        push_symmetrized(order - 2, &outer, plan);
        push_symmetrized(order - 2, &outer, plan);
        push_symmetrized(order - 2, &middle, plan);
        push_symmetrized(order - 2, &outer, plan);
        push_symmetrized(order - 2, &outer, plan);
        assert(step_views(plan@) =~= start + (o + o + m + o + o));
    }
}

/// The passes of one repetition of the Trotter circuit of the given
/// order. A circuit of `reps` repetitions over the time `t` runs the
/// passes `reps` times, each over the time `t / reps` scaled by the
/// factors of the pass.
///
/// Fails with `TrotterParameters` exactly when the order is neither one
/// nor a positive even number, or `reps` is below one.
pub fn trotter_plan(order: i32, reps: i32) -> (res: Result<Vec<TrotterStep>, QuestError>)
    ensures
        res is Ok <==> trotter_ok(order, reps),
        res matches Ok(plan) ==> step_views(plan@) == symmetrized(order as int, Seq::empty()),
        res is Err ==> res == Err::<Vec<TrotterStep>, QuestError>(
            QuestError::InvalidInputError(InputFault::TrotterParameters),
        ),
{
    if order < 1 || (order != 1 && order % 2 != 0) || reps < 1 {
        return Err(QuestError::InvalidInputError(InputFault::TrotterParameters));
    }
    let mut plan: Vec<TrotterStep> = Vec::new();
    let prefix: Vec<TimeScale> = Vec::new();
    push_symmetrized(order, &prefix, &mut plan);
    proof {
        assert(step_views(plan@) =~= symmetrized(order as int, Seq::empty()));
    }
    Ok(plan)
}

impl<'a> Qureg<'a> {
    /// The gates of the quantum Fourier transform on `qubits`, the
    /// first qubit being the least significant.
    ///
    /// Fails with the first fault of `qubits` as a list of qubits.
    pub fn qft_plan(&self, qubits: &[i32]) -> (res: Result<Vec<QftStep>, QuestError>)
        requires
            self.wf(),
        ensures
            match list_fault(self@.num_qubits, qubits@) {
                Some(fault) => res == Err::<Vec<QftStep>, QuestError>(
                    QuestError::InvalidInputError(fault),
                ),
                None => res matches Ok(plan) && plan@ == qft_steps(qubits@),
            },
    {
        let n = self.qubits();
        match check_list(n, qubits) {
            Ok(_) => {},
            Err(fault) => {
                return Err(QuestError::InvalidInputError(fault));
            },
        }
        let len = qubits.len();
        let mut plan: Vec<QftStep> = Vec::new();
        let mut k: usize = len;
        while k > 0
            invariant
                k <= len,
                len == qubits@.len(),
                plan@ + qft_rounds(qubits@, k as nat) == qft_rounds(qubits@, len as nat),
            decreases k,
        {
            let ghost before = plan@;
            plan.push(QftStep::Hadamard { qubit: qubits[k - 1] });
            if k > 1 {
                plan.push(QftStep::Phases { low: k - 1, high: qubits[k - 1] });
            }
            proof {
                assert(plan@ + qft_rounds(qubits@, (k - 1) as nat) =~= before + qft_rounds(
                    qubits@,
                    k as nat,
                ));
            }
            k -= 1;
        }
        proof {
            assert(plan@ + qft_rounds(qubits@, 0) =~= plan@);
        }
        let ghost rounds = plan@;
        let half = len / 2;
        let mut i: usize = 0;
        while i < half
            invariant
                i <= half,
                half == len / 2,
                len == qubits@.len(),
                plan@ == rounds + qft_swaps(qubits@, i as nat),
            decreases half - i,
        {
            plan.push(QftStep::Swap { first: qubits[i], second: qubits[len - 1 - i] });
            proof {
                assert(plan@ =~= rounds + qft_swaps(qubits@, (i + 1) as nat));
            }
            i += 1;
        }
        Ok(plan)
    }

    /// The steps of a rotation about the product of the Pauli operators
    /// `target_paulis` on the qubits `target_qubits`, where all of
    /// `control_qubits` are one.
    ///
    /// Fails with the first fault of the qubits as those of a gate, and
    /// with `PauliTerms` where there is not one operator per target.
    pub fn rotation_plan(
        &self,
        control_qubits: &[i32],
        target_qubits: &[i32],
        target_paulis: &[PauliOpType],
    ) -> (res: Result<Vec<RotationStep>, QuestError>)
        requires
            self.wf(),
        ensures
            match rotation_fault(
                self@.num_qubits,
                control_qubits@,
                target_qubits@,
                target_paulis@,
            ) {
                Some(fault) => res == Err::<Vec<RotationStep>, QuestError>(
                    QuestError::InvalidInputError(fault),
                ),
                None => res matches Ok(plan) && plan@ == rotation_steps(
                    target_qubits@,
                    target_paulis@,
                ),
            },
    {
        let n = self.qubits();
        match check_gate(n, control_qubits, target_qubits) {
            Ok(_) => {},
            Err(fault) => {
                return Err(QuestError::InvalidInputError(fault));
            },
        }
        let len = target_qubits.len();
        if target_paulis.len() != len {
            return Err(QuestError::InvalidInputError(InputFault::PauliTerms));
        }
        let mut plan: Vec<RotationStep> = Vec::new();
        let mut any = false;
        let mut k: usize = 0;
        while k < len
            invariant
                k <= len,
                len == target_qubits@.len(),
                len == target_paulis@.len(),
                plan@ == into_z(target_qubits@.take(k as int), target_paulis@.take(k as int)),
                any == (acted_on(target_qubits@.take(k as int), target_paulis@.take(k as int)).len()
                    > 0),
            decreases len - k,
        {
            proof {
                assert(target_qubits@.take(k + 1).drop_last() =~= target_qubits@.take(k as int));
                assert(target_paulis@.take(k + 1).drop_last() =~= target_paulis@.take(k as int));
            }
            match target_paulis[k] {
                PauliOpType::PauliI => {},
                PauliOpType::PauliZ => {
                    any = true;
                },
                code => {
                    any = true;
                    plan.push(RotationStep::IntoZ { qubit: target_qubits[k], code });
                },
            }
            k += 1;
        }
        proof {
            assert(target_qubits@.take(len as int) =~= target_qubits@);
            assert(target_paulis@.take(len as int) =~= target_paulis@);
        }
        if any {
            plan.push(RotationStep::Turn);
        }
        let ghost front = plan@;
        k = len;
        while k > 0
            invariant
                k <= len,
                len == target_qubits@.len(),
                len == target_paulis@.len(),
                plan@ + out_of_z(target_qubits@.take(k as int), target_paulis@.take(k as int))
                    == front + out_of_z(target_qubits@, target_paulis@),
            decreases k,
        {
            let ghost before = plan@;
            proof {
                assert(target_qubits@.take(k as int).drop_last() =~= target_qubits@.take(k - 1));
                assert(target_paulis@.take(k as int).drop_last() =~= target_paulis@.take(k - 1));
            }
            match target_paulis[k - 1] {
                PauliOpType::PauliI => {},
                PauliOpType::PauliZ => {},
                code => {
                    plan.push(RotationStep::OutOfZ { qubit: target_qubits[k - 1], code });
                },
            }
            proof {
                assert(plan@ + out_of_z(target_qubits@.take(k - 1), target_paulis@.take(k - 1))
                    =~= before + out_of_z(
                    target_qubits@.take(k as int),
                    target_paulis@.take(k as int),
                ));
            }
            k -= 1;
        }
        proof {
            assert(plan@ + out_of_z(target_qubits@.take(0), target_paulis@.take(0)) =~= plan@);
            assert(plan@ =~= rotation_steps(target_qubits@, target_paulis@));
        }
        Ok(plan)
    }
}

} // verus!
