//! The life of a compute unit, and why the steps of a run respect it.
//!
//! A unit is free until it is acquired, idle until a job is started on it,
//! and busy until that job is released. A list of steps is orderly when
//! every step finds its unit in the state that it needs. The preparation
//! and the runs that follow it are orderly, whatever the sizes of the runs.

use vstd::prelude::*;
use crate::coordinator::{
    iteration_steps, join_parameters, setup_steps, split_parameters, weight_block, weight_job,
    StepContent,
};
use crate::registry::{Binding, Role};
use crate::weights::{input_side, output_side};

verus! {

/// What a unit is doing.
pub enum UnitState {
    /// On its device, not acquired.
    Free,
    /// Acquired, without a job.
    Idle,
    /// Acquired, with a job that has been started and not yet released.
    Busy,
}

/// The state of `unit`; a unit that `states` does not mention is free.
pub open spec fn state_of(states: Map<Role, UnitState>, unit: Role) -> UnitState {
    if states.dom().contains(unit) {
        states[unit]
    } else {
        UnitState::Free
    }
}

/// Whether `step` may be taken: a free unit can be acquired, an idle unit
/// can be started, and a busy unit can be released.
pub open spec fn step_allowed(states: Map<Role, UnitState>, step: StepContent) -> bool {
    match step {
        StepContent::Acquire { unit } => state_of(states, unit) is Free,
        StepContent::Start { unit, .. } => state_of(states, unit) is Idle,
        StepContent::Release { unit, .. } => state_of(states, unit) is Busy,
    }
}

/// The states after `step`.
pub open spec fn after_step(states: Map<Role, UnitState>, step: StepContent) -> Map<
    Role,
    UnitState,
> {
    match step {
        StepContent::Acquire { unit } => states.insert(unit, UnitState::Idle),
        StepContent::Start { unit, .. } => states.insert(unit, UnitState::Busy),
        StepContent::Release { unit, release_unit, .. } => states.insert(
            unit,
            if release_unit {
                UnitState::Free
            } else {
                UnitState::Idle
            },
        ),
    }
}

/// The states after all of `steps`.
pub open spec fn after_steps(states: Map<Role, UnitState>, steps: Seq<StepContent>) -> Map<
    Role,
    UnitState,
>
    decreases steps.len(),
{
    if steps.len() == 0 {
        states
    } else {
        after_step(after_steps(states, steps.drop_last()), steps.last())
    }
}

/// Whether every one of `steps` may be taken when its turn comes: no unit
/// is acquired twice, no job is started on a unit that is not held or that
/// still has a job, and nothing is released that was not started.
pub open spec fn orderly(states: Map<Role, UnitState>, steps: Seq<StepContent>) -> bool
    decreases steps.len(),
{
    steps.len() == 0 || (orderly(states, steps.drop_last()) && step_allowed(
        after_steps(states, steps.drop_last()),
        steps.last(),
    ))
}

/// The state in which `unit` is between two runs.
pub open spec fn state_between_runs(split: bool, unit: Role) -> UnitState {
    if split && (unit == Role::PartitionInData || unit == Role::PartitionOutData) {
        UnitState::Idle
    } else if split && unit == Role::StreamSplit {
        UnitState::Busy
    } else {
        UnitState::Free
    }
}

/// Whether every unit is in the state in which it is between two runs.
pub open spec fn ready_for_run(states: Map<Role, UnitState>, split: bool) -> bool {
    forall|unit: Role| #[trigger] state_of(states, unit) == state_between_runs(split, unit)
}

/// The steps of the runs over `sizes`, one run after the other.
pub open spec fn runs(
    binding: Binding,
    mapped: bool,
    streams: Seq<Seq<u8>>,
    sizes: Seq<usize>,
) -> Seq<StepContent>
    decreases sizes.len(),
{
    if sizes.len() == 0 {
        Seq::empty()
    } else {
        runs(binding, mapped, streams, sizes.drop_last()) + iteration_steps(
            binding,
            mapped,
            streams,
            sizes.last(),
        )
    }
}

/// Taking one more step: the steps are orderly if they were so before and
/// the new step is allowed in the states that they lead to.
pub proof fn lemma_orderly_push(
    states: Map<Role, UnitState>,
    steps: Seq<StepContent>,
    step: StepContent,
)
    ensures
        orderly(states, steps.push(step)) == (orderly(states, steps) && step_allowed(
            after_steps(states, steps),
            step,
        )),
        after_steps(states, steps.push(step)) == after_step(after_steps(states, steps), step),
{
    assert(steps.push(step).drop_last() =~= steps);
}

/// Steps taken one list after the other: the whole is orderly exactly if
/// the first list is, and the second is from the states the first leads to.
pub proof fn lemma_orderly_concat(
    states: Map<Role, UnitState>,
    first: Seq<StepContent>,
    second: Seq<StepContent>,
)
    ensures
        orderly(states, first + second) == (orderly(states, first) && orderly(
            after_steps(states, first),
            second,
        )),
        after_steps(states, first + second) == after_steps(after_steps(states, first), second),
    decreases second.len(),
{
    if second.len() == 0 {
        assert(first + second =~= first);
    } else {
        assert((first + second).drop_last() =~= first + second.drop_last());
        lemma_orderly_concat(states, first, second.drop_last());
    }
}

/// Loading weights into an idle unit is orderly and leaves the unit free.
pub proof fn lemma_weight_job_is_orderly(states: Map<Role, UnitState>, unit: Role, block: Seq<u8>)
    requires
        state_of(states, unit) is Idle,
    ensures
        orderly(states, weight_job(unit, block)),
        after_steps(states, weight_job(unit, block)) == states.insert(unit, UnitState::Busy).insert(
            unit,
            UnitState::Free,
        ),
{
    let job = weight_job(unit, block);
    let none = Seq::<StepContent>::empty();
    lemma_orderly_push(states, none, job[0]);
    lemma_orderly_push(states, none.push(job[0]), job[1]);
    assert(none.push(job[0]).push(job[1]) =~= job);
}

/// The preparation is orderly when it begins with every unit free, and it
/// leaves every unit in the state in which a run expects it.
pub proof fn lemma_setup_is_orderly(split: bool, engines: Seq<Seq<u32>>)
    ensures
        orderly(Map::empty(), setup_steps(split, engines)),
        ready_for_run(after_steps(Map::empty(), setup_steps(split, engines)), split),
{
    let free = Map::<Role, UnitState>::empty();
    let none = Seq::<StepContent>::empty();
    if split {
        let a0 = StepContent::Acquire { unit: Role::PartitionInWeights };
        let a1 = StepContent::Acquire { unit: Role::PartitionOutWeights };
        let a2 = StepContent::Acquire { unit: Role::StreamSplit };
        let a3 = StepContent::Acquire { unit: Role::StreamJoin };
        let a4 = StepContent::Acquire { unit: Role::PartitionInData };
        let a5 = StepContent::Acquire { unit: Role::PartitionOutData };
        let acquire = seq![a0, a1, a2, a3, a4, a5];
        lemma_orderly_push(free, none, a0);
        lemma_orderly_push(free, none.push(a0), a1);
        lemma_orderly_push(free, none.push(a0).push(a1), a2);
        lemma_orderly_push(free, none.push(a0).push(a1).push(a2), a3);
        lemma_orderly_push(free, none.push(a0).push(a1).push(a2).push(a3), a4);
        lemma_orderly_push(free, none.push(a0).push(a1).push(a2).push(a3).push(a4), a5);
        assert(none.push(a0).push(a1).push(a2).push(a3).push(a4).push(a5) =~= acquire);
        let held = after_steps(free, acquire);
        assert(orderly(free, acquire));

        let load_input = weight_job(Role::PartitionInWeights, weight_block(input_side(engines)));
        lemma_weight_job_is_orderly(
            held,
            Role::PartitionInWeights,
            weight_block(input_side(engines)),
        );
        lemma_orderly_concat(free, acquire, load_input);
        let input_loaded = after_steps(free, acquire + load_input);

        let load_output = weight_job(Role::PartitionOutWeights, weight_block(output_side(engines)));
        lemma_weight_job_is_orderly(
            input_loaded,
            Role::PartitionOutWeights,
            weight_block(output_side(engines)),
        );
        lemma_orderly_concat(free, acquire + load_input, load_output);
        let loaded = after_steps(free, acquire + load_input + load_output);

        let j0 = StepContent::Start { unit: Role::StreamJoin, parameters: join_parameters() };
        let j1 = StepContent::Release {
            unit: Role::StreamJoin,
            release_unit: true,
            return_value: false,
        };
        let j2 = StepContent::Start { unit: Role::StreamSplit, parameters: split_parameters() };
        let link = seq![j0, j1, j2];
        lemma_orderly_push(loaded, none, j0);
        lemma_orderly_push(loaded, none.push(j0), j1);
        lemma_orderly_push(loaded, none.push(j0).push(j1), j2);
        assert(none.push(j0).push(j1).push(j2) =~= link);
        assert(orderly(loaded, link));
        lemma_orderly_concat(free, acquire + load_input + load_output, link);
        let end = after_steps(free, setup_steps(split, engines));
        assert forall|unit: Role| #[trigger]
            state_of(end, unit) == state_between_runs(split, unit) by {
        }
    } else {
        let a0 = StepContent::Acquire { unit: Role::WeightStreamer };
        lemma_orderly_push(free, none, a0);
        assert(none.push(a0) =~= seq![a0]);
        let block = weight_block(engines);
        lemma_weight_job_is_orderly(after_steps(free, seq![a0]), Role::WeightStreamer, block);
        lemma_orderly_concat(free, seq![a0], weight_job(Role::WeightStreamer, block));
        let end = after_steps(free, setup_steps(split, engines));
        assert forall|unit: Role| #[trigger]
            state_of(end, unit) == state_between_runs(split, unit) by {
        }
    }
}

/// A run is orderly when it begins with the units as the preparation or the
/// run before left them, and it leaves them so again.
pub proof fn lemma_iteration_is_orderly(
    states: Map<Role, UnitState>,
    binding: Binding,
    mapped: bool,
    streams: Seq<Seq<u8>>,
    samples: usize,
)
    requires
        ready_for_run(states, binding is Split),
    ensures
        orderly(states, iteration_steps(binding, mapped, streams, samples)),
        ready_for_run(
            after_steps(states, iteration_steps(binding, mapped, streams, samples)),
            binding is Split,
        ),
{
    let steps = iteration_steps(binding, mapped, streams, samples);
    let none = Seq::<StepContent>::empty();
    assert(state_of(states, Role::DataStreamer) == state_between_runs(
        binding is Split,
        Role::DataStreamer,
    ));
    assert(state_of(states, Role::PartitionInData) == state_between_runs(
        binding is Split,
        Role::PartitionInData,
    ));
    assert(state_of(states, Role::PartitionOutData) == state_between_runs(
        binding is Split,
        Role::PartitionOutData,
    ));
    lemma_orderly_push(states, none, steps[0]);
    lemma_orderly_push(states, none.push(steps[0]), steps[1]);
    lemma_orderly_push(states, none.push(steps[0]).push(steps[1]), steps[2]);
    if binding is Split {
        lemma_orderly_push(states, none.push(steps[0]).push(steps[1]).push(steps[2]), steps[3]);
        assert(none.push(steps[0]).push(steps[1]).push(steps[2]).push(steps[3]) =~= steps);
    } else {
        assert(none.push(steps[0]).push(steps[1]).push(steps[2]) =~= steps);
    }
    let end = after_steps(states, steps);
    assert forall|unit: Role| #[trigger] state_of(end, unit) == state_between_runs(
        binding is Split,
        unit,
    ) by {
        assert(state_of(states, unit) == state_between_runs(binding is Split, unit));
    }
}

/// The preparation followed by any number of runs is orderly: every unit is
/// acquired before it is started, carries at most one job at a time, and is
/// released only after it was started.
pub proof fn lemma_runs_are_orderly(
    binding: Binding,
    mapped: bool,
    streams: Seq<Seq<u8>>,
    engines: Seq<Seq<u32>>,
    sizes: Seq<usize>,
)
    ensures
        orderly(
            Map::empty(),
            setup_steps(binding is Split, engines) + runs(binding, mapped, streams, sizes),
        ),
        ready_for_run(
            after_steps(
                Map::empty(),
                setup_steps(binding is Split, engines) + runs(binding, mapped, streams, sizes),
            ),
            binding is Split,
        ),
    decreases sizes.len(),
{
    let free = Map::<Role, UnitState>::empty();
    let setup = setup_steps(binding is Split, engines);
    if sizes.len() == 0 {
        lemma_setup_is_orderly(binding is Split, engines);
        assert(setup + runs(binding, mapped, streams, sizes) =~= setup);
    } else {
        let earlier = runs(binding, mapped, streams, sizes.drop_last());
        let last = iteration_steps(binding, mapped, streams, sizes.last());
        lemma_runs_are_orderly(binding, mapped, streams, engines, sizes.drop_last());
        lemma_iteration_is_orderly(
            after_steps(free, setup + earlier),
            binding,
            mapped,
            streams,
            sizes.last(),
        );
        lemma_orderly_concat(free, setup + earlier, last);
        assert(setup + runs(binding, mapped, streams, sizes) =~= (setup + earlier) + last);
    }
}

} // verus!
